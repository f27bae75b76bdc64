use dhcpctl::error::DhcpctlError;
use dhcpctl::globals::{globals_lines, Globals, Options};
use dhcpctl::leases::{
    lease_header, lease_rows, prepare_lease_render, Lease, RenderPrep,
};
use dhcpctl::scopes::{
    scope_details, scope_details_for, scope_header, scope_rows, AddressRange, Scope,
    ScopeOptions,
};
use dhcpctl::vendor::{finish_vendor_map, plan_lookups, LookupOutcome, MacVendorLookup};

fn lease(mac: &str, host: Option<&str>, vendor_class: Option<&str>) -> Lease {
    Lease {
        binding_state: "active".to_string(),
        client_hostname: host.map(|s| s.to_string()),
        cltt: "2023-05-01T10:15:30Z".to_string(),
        ends: "2023-05-02T11:16:31Z".to_string(),
        hardware_ethernet: mac.to_string(),
        ip: "10.0.0.5".to_string(),
        next_binding_state: "free".to_string(),
        rewind_binding_state: "free".to_string(),
        set_vendor_class_identifier: vendor_class.map(|s| s.to_string()),
        starts: "2023-05-01T10:15:30Z".to_string(),
        uid: None,
    }
}

fn scope(with_pxe: bool, with_dns: bool) -> Scope {
    Scope {
        ip: "10.3.0.0".to_string(),
        subnet: "255.255.255.0".to_string(),
        range: AddressRange {
            start: "10.3.0.10".to_string(),
            end: "10.3.0.200".to_string(),
        },
        options: ScopeOptions {
            subnet_mask: "255.255.255.0".to_string(),
            broadcast_address: "10.3.0.255".to_string(),
            routers: "10.3.0.1".to_string(),
            tftp_server_name: if with_pxe {
                Some("10.3.0.2".to_string())
            } else {
                None
            },
            bootfile_name: None,
            domain_name: Some("lan.example".to_string()),
            domain_name_servers: if with_dns {
                Some(vec!["1.1.1.1".to_string(), "8.8.8.8".to_string()])
            } else {
                None
            },
        },
        next_server: None,
        default_lease_time: Some("3600".to_string()),
        max_lease_time: None,
    }
}

#[test]
fn empty_lease_list_never_plans_enrichment() {
    let none: Vec<Lease> = Vec::new();
    assert!(matches!(prepare_lease_render(&none, true), RenderPrep::Empty));
    assert!(matches!(prepare_lease_render(&none, false), RenderPrep::Empty));
}

#[test]
fn lease_render_modes_follow_the_lookup_flag() {
    let leases = vec![lease("a8:11:22:33:44:55", None, None)];
    assert!(matches!(
        prepare_lease_render(&leases, false),
        RenderPrep::Direct
    ));
    match prepare_lease_render(&leases, true) {
        RenderPrep::Enrich(plan) => {
            assert_eq!(plan.pending, vec!["a8:11:22".to_string()]);
            assert!(plan.randomized.is_empty());
        }
        _ => panic!("enrichment was requested for a non-empty list"),
    }
}

#[test]
fn search_result_renders_one_row_per_lease() {
    let leases = vec![lease("a8:11:22:33:44:55", Some("iphone-se"), Some("iPhone"))];
    let rows = lease_rows(&leases, None).unwrap();
    assert_eq!(rows.len(), 1);
    assert_eq!(
        rows[0],
        vec![
            "a8:11:22:33:44:55",
            "active",
            "10.0.0.5",
            "iphone-se",
            "2023-05-01 10:15:30",
            "2023-05-02 11:16:31",
            "iPhone",
        ]
    );
}

#[test]
fn missing_optional_lease_fields_render_as_empty() {
    let leases = vec![lease("a8:11:22:33:44:55", None, None)];
    let rows = lease_rows(&leases, None).unwrap();
    assert_eq!(rows[0][3], "");
    assert_eq!(rows[0][6], "");
}

#[test]
fn lease_headers_match_the_column_order() {
    assert_eq!(
        lease_header(false),
        vec![
            "MAC Address",
            "Status",
            "IP",
            "Hostname",
            "Starts",
            "Ends",
            "Vendor Identifier",
        ]
    );
    assert_eq!(lease_header(true)[0], "Mac Vendor");
    assert_eq!(lease_header(true).len(), 8);
}

#[test]
fn enriched_rows_carry_the_vendor_column() {
    let leases = vec![
        lease("a8:11:22:33:44:55", Some("printer"), None),
        lease("02:11:22:33:44:55", None, None),
    ];
    let plan = match prepare_lease_render(&leases, true) {
        RenderPrep::Enrich(plan) => plan,
        _ => panic!("expected an enrichment plan"),
    };
    assert_eq!(plan.pending, vec!["a8:11:22".to_string()]);
    let outcomes = vec![LookupOutcome::Reply {
        status: 200,
        record: Some(MacVendorLookup {
            company: "Acme Devices".to_string(),
            mac_prefix: "a8:11:22".to_string(),
            error: None,
        }),
    }];
    let map = finish_vendor_map(&plan, &outcomes).unwrap();
    let rows = lease_rows(&leases, Some(&map)).unwrap();
    assert_eq!(rows.len(), 2);
    assert_eq!(rows[0][0], "Acme Devices");
    assert_eq!(rows[0][1], "a8:11:22:33:44:55");
    assert_eq!(rows[1][0], "::randomized::");
    assert_eq!(rows[1][1], "02:11:22:33:44:55");
}

#[test]
fn a_prefix_the_mapping_misses_renders_as_empty() {
    let leases = vec![lease("a8:11:22:33:44:55", None, None)];
    let empty_plan = plan_lookups(&Vec::new());
    let map = finish_vendor_map(&empty_plan, &Vec::new()).unwrap();
    let rows = lease_rows(&leases, Some(&map)).unwrap();
    assert_eq!(rows[0][0], "");
}

#[test]
fn one_bad_timestamp_aborts_the_whole_table() {
    let mut bad = lease("a8:11:22:33:44:55", None, None);
    bad.ends = "yesterday".to_string();
    let leases = vec![lease("02:11:22:33:44:55", None, None), bad];
    let r = lease_rows(&leases, None);
    assert!(matches!(r, Err(DhcpctlError::TimestampParseError)));
}

#[test]
fn scope_headers_follow_the_flags() {
    assert_eq!(
        scope_header(false, false),
        vec!["Subnet ID", "Subnet Mask", "Scope Start", "Scope End", "Gateway"]
    );
    assert_eq!(
        scope_header(true, true),
        vec![
            "Subnet ID",
            "Subnet Mask",
            "Scope Start",
            "Scope End",
            "Gateway",
            "DNS Servers",
            "TFTP Server",
            "Bootfile",
            "Next Server",
        ]
    );
}

#[test]
fn scope_rows_join_dns_servers_and_blank_missing_pxe_fields() {
    let rows = scope_rows(&vec![scope(true, true)], true, true);
    assert_eq!(rows.len(), 1);
    assert_eq!(
        rows[0],
        vec![
            "10.3.0.0",
            "255.255.255.0",
            "10.3.0.10",
            "10.3.0.200",
            "10.3.0.1",
            "1.1.1.1,8.8.8.8",
            "10.3.0.2",
            "",
            "",
        ]
    );
    let plain = scope_rows(&vec![scope(false, false)], false, false);
    assert_eq!(
        plain[0],
        vec!["10.3.0.0", "255.255.255.0", "10.3.0.10", "10.3.0.200", "10.3.0.1"]
    );
}

#[test]
fn scope_details_show_not_set_only_when_a_pxe_field_exists() {
    let with_pxe = scope_details(&scope(true, false));
    let labels: Vec<&str> = with_pxe.iter().map(|e| e.0.as_str()).collect();
    assert_eq!(
        labels,
        vec![
            "Network ID:",
            "Subnet Mask:",
            "Scope Range:",
            "Gateway:",
            "TFTP Server:",
            "Bootfile:",
            "Next Server:",
            "Domain Name:",
            "Default Lease Time:",
        ]
    );
    assert_eq!(with_pxe[2].1, "10.3.0.10 - 10.3.0.200");
    assert_eq!(with_pxe[4].1, "10.3.0.2");
    assert_eq!(with_pxe[5].1, "Not set");
    assert_eq!(with_pxe[6].1, "Not set");

    let without_pxe = scope_details(&scope(false, true));
    let labels: Vec<&str> = without_pxe.iter().map(|e| e.0.as_str()).collect();
    assert_eq!(
        labels,
        vec![
            "Network ID:",
            "Subnet Mask:",
            "Scope Range:",
            "Gateway:",
            "DNS Servers:",
            "Domain Name:",
            "Default Lease Time:",
        ]
    );
    assert_eq!(without_pxe[4].1, "1.1.1.1,8.8.8.8");
}

#[test]
fn scope_details_are_listed_only_for_the_matching_subnet() {
    let scopes = vec![scope(false, false), scope(true, true)];
    let found = scope_details_for(&scopes, "10.3.0.0");
    assert_eq!(found.len(), 2);
    let none = scope_details_for(&scopes, "10.9.0.0");
    assert!(none.is_empty());
}

#[test]
fn globals_lines_show_each_field_only_when_set() {
    let g = Globals {
        authoritative: Some(true),
        default_lease_time: Some("600".to_string()),
        max_lease_time: None,
        options: Some(Options {
            domain_name: Some("lan.example".to_string()),
            domain_name_servers: Some(vec!["1.1.1.1".to_string(), "9.9.9.9".to_string()]),
        }),
    };
    let lines = globals_lines(&g);
    assert_eq!(
        lines,
        vec![
            ("Authoritative: ".to_string(), "true".to_string()),
            ("Default Lease Time: ".to_string(), "600".to_string()),
            ("Domain name: ".to_string(), "lan.example".to_string()),
            ("DNS Servers: ".to_string(), "1.1.1.1, 9.9.9.9".to_string()),
        ]
    );
    let bare = Globals {
        authoritative: None,
        default_lease_time: None,
        max_lease_time: None,
        options: None,
    };
    assert!(globals_lines(&bare).is_empty());
}
