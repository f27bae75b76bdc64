use dhcpctl::error::DhcpctlError;
use dhcpctl::leases::{distinct_prefixes, Lease};
use dhcpctl::mac::{is_locally_administered, lease_key};
use dhcpctl::vendor::{
    finish_vendor_map, plan_lookups, LookupOutcome, MacVendorLookup,
};

fn lease(mac: &str) -> Lease {
    Lease {
        binding_state: "active".to_string(),
        client_hostname: None,
        cltt: "2023-05-01T10:15:30Z".to_string(),
        ends: "2023-05-02T10:15:30Z".to_string(),
        hardware_ethernet: mac.to_string(),
        ip: "10.0.0.5".to_string(),
        next_binding_state: "free".to_string(),
        rewind_binding_state: "free".to_string(),
        set_vendor_class_identifier: None,
        starts: "2023-05-01T10:15:30Z".to_string(),
        uid: None,
    }
}

fn reply(status: u16, company: Option<&str>) -> LookupOutcome {
    LookupOutcome::Reply {
        status,
        record: company.map(|c| MacVendorLookup {
            company: c.to_string(),
            mac_prefix: String::new(),
            error: None,
        }),
    }
}

#[test]
fn prefix_key_is_the_lowered_first_three_octets() {
    assert_eq!(lease_key("AA:BB:CC:11:22:33"), "aa:bb:cc");
    assert_eq!(lease_key("00:11:22:33:44:55"), "00:11:22");
    assert_eq!(lease_key("short"), "short");
}

#[test]
fn locally_administered_second_characters() {
    for p in ["02:11:22", "06:11:22", "0a:11:22", "0e:11:22", "aa:bb:cc"] {
        assert!(is_locally_administered(p), "{} should be local", p);
    }
    for p in ["00:11:22", "01:11:22", "08:11:22", "a8:bb:cc", "f0:11:22", ""] {
        assert!(!is_locally_administered(p), "{} should not be local", p);
    }
}

#[test]
fn distinct_prefixes_dedup_case_insensitively() {
    let leases = vec![
        lease("AA:BB:CC:01:02:03"),
        lease("aa:bb:cc:99:88:77"),
        lease("00:11:22:33:44:55"),
        lease("00:11:22:33:44:56"),
    ];
    let keys = distinct_prefixes(&leases);
    assert_eq!(keys, vec!["aa:bb:cc".to_string(), "00:11:22".to_string()]);
}

#[test]
fn local_prefixes_are_resolved_without_a_request() {
    let plan = plan_lookups(&vec!["02:11:22".to_string(), "00:11:22".to_string()]);
    assert_eq!(plan.randomized, vec!["02:11:22".to_string()]);
    assert_eq!(plan.pending, vec!["00:11:22".to_string()]);
    let outcomes = vec![reply(200, Some("Acme Devices"))];
    let map = finish_vendor_map(&plan, &outcomes).unwrap();
    assert_eq!(map.len(), 2);
    assert_eq!(map.get("02:11:22").as_deref(), Some("::randomized::"));
    assert_eq!(map.get("00:11:22").as_deref(), Some("Acme Devices"));
    assert_eq!(map.get("ff:ff:ff"), None);
}

#[test]
fn one_entry_per_distinct_prefix() {
    let prefixes = vec![
        "02:11:22".to_string(),
        "0e:aa:bb".to_string(),
        "00:11:22".to_string(),
        "a8:bb:cc".to_string(),
    ];
    let plan = plan_lookups(&prefixes);
    assert_eq!(plan.randomized.len() + plan.pending.len(), prefixes.len());
    let outcomes = vec![reply(200, Some("One")), reply(204, None)];
    let map = finish_vendor_map(&plan, &outcomes).unwrap();
    assert_eq!(map.len(), prefixes.len());
}

#[test]
fn undecodable_body_downgrades_to_unknown() {
    let plan = plan_lookups(&vec!["00:11:22".to_string(), "a8:bb:cc".to_string()]);
    assert!(plan.randomized.is_empty());
    let outcomes = vec![reply(200, None), reply(200, Some("Acme"))];
    let map = finish_vendor_map(&plan, &outcomes).unwrap();
    assert_eq!(map.len(), 2);
    assert_eq!(map.get("00:11:22").as_deref(), Some(""));
    assert_eq!(map.get("a8:bb:cc").as_deref(), Some("Acme"));
}

#[test]
fn any_bad_status_aborts_the_whole_enrichment() {
    let plan = plan_lookups(&vec!["00:11:22".to_string(), "a8:bb:cc".to_string()]);
    let outcomes = vec![reply(200, Some("Acme")), reply(429, None)];
    let r = finish_vendor_map(&plan, &outcomes);
    assert!(matches!(r, Err(DhcpctlError::LookupFailed(429))));

    let outcomes = vec![reply(500, None), reply(200, Some("Acme"))];
    let r = finish_vendor_map(&plan, &outcomes);
    assert!(matches!(r, Err(DhcpctlError::LookupFailed(500))));
}

#[test]
fn transport_failure_aborts_the_whole_enrichment() {
    let plan = plan_lookups(&vec!["00:11:22".to_string()]);
    let outcomes = vec![LookupOutcome::Failed("connection timed out".to_string())];
    match finish_vendor_map(&plan, &outcomes) {
        Err(DhcpctlError::Transport(d)) => assert_eq!(d, "connection timed out"),
        other => panic!("expected a transport failure, got {:?}", other.is_ok()),
    }
}

#[test]
fn enrichment_issues_one_request_for_the_non_local_prefix() {
    let leases = vec![lease("a8:11:22:33:44:55"), lease("02:11:22:33:44:55")];
    let keys = distinct_prefixes(&leases);
    let plan = plan_lookups(&keys);
    assert_eq!(plan.pending, vec!["a8:11:22".to_string()]);
    assert_eq!(plan.randomized, vec!["02:11:22".to_string()]);
    let outcomes = vec![reply(200, Some("Acme Devices"))];
    let map = finish_vendor_map(&plan, &outcomes).unwrap();
    assert_eq!(map.len(), 2);
    assert_eq!(map.get("02:11:22").as_deref(), Some("::randomized::"));
    assert_eq!(map.get("a8:11:22").as_deref(), Some("Acme Devices"));
}
