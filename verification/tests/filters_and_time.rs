use dhcpctl::client::prepare_request;
use dhcpctl::config::ConfyConfig;
use dhcpctl::error::DhcpctlError;
use dhcpctl::leases::{lease_list_path, lease_search_path};
use dhcpctl::timefmt::{format_display, parse_rfc3339};

#[test]
fn valid_cidr_filters_are_accepted() {
    for f in [
        "10.3.0.0/24",
        "10.3.0.120",
        "0.0.0.0/0",
        "255.255.255.255/32",
        "192.168.1.1/16",
    ] {
        let r = lease_list_path(&Some(f.to_string()));
        assert!(r.is_ok(), "{} should be accepted", f);
        assert_eq!(r.unwrap(), format!("/leases/{}", f));
    }
}

#[test]
fn invalid_filter_fails_before_any_network_call() {
    let r = lease_list_path(&Some("not-a-cidr".to_string()));
    assert!(matches!(r, Err(DhcpctlError::InvalidFilter)));
}

#[test]
fn malformed_filters_are_rejected() {
    for f in [
        "10.3.0.0/33",
        "256.1.1.1",
        "1.2.3",
        "1.2.3.4.5",
        "01.2.3.4",
        "1.2.3.4/05",
        "1.2.3.4/",
        "/24",
        "10.3.0.0/24/24",
        "a.b.c.d",
        "1.2.3.4 ",
    ] {
        let r = lease_list_path(&Some(f.to_string()));
        assert!(
            matches!(r, Err(DhcpctlError::InvalidFilter)),
            "{} should be rejected",
            f
        );
    }
}

#[test]
fn empty_and_absent_filter_behave_identically() {
    let none = lease_list_path(&None).unwrap();
    let empty = lease_list_path(&Some(String::new())).unwrap();
    assert_eq!(none, empty);
    assert_eq!(none, "/leases/");
}

#[test]
fn search_path_carries_the_term() {
    assert_eq!(lease_search_path("iphone"), "/leases/search/iphone");
    assert_eq!(lease_search_path(""), "/leases/search/");
}

#[test]
fn rfc3339_utc_round_trips_to_display_form() {
    let t = parse_rfc3339("2023-05-01T10:15:30Z").unwrap();
    assert_eq!(t.year, 2023);
    assert_eq!(t.month, 5);
    assert_eq!(t.day, 1);
    assert_eq!(t.hour, 10);
    assert_eq!(t.minute, 15);
    assert_eq!(t.second, 30);
    assert_eq!(format_display(&t), "2023-05-01 10:15:30");
}

#[test]
fn rfc3339_offset_and_fraction_forms_parse() {
    let t = parse_rfc3339("2023-05-01T10:15:30+02:00").unwrap();
    assert_eq!(format_display(&t), "2023-05-01 10:15:30");
    let t = parse_rfc3339("2023-05-01T10:15:30.123Z").unwrap();
    assert_eq!(format_display(&t), "2023-05-01 10:15:30");
    let t = parse_rfc3339("1999-12-31t23:59:59.5-11:30").unwrap();
    assert_eq!(format_display(&t), "1999-12-31 23:59:59");
}

#[test]
fn leap_day_is_accepted_only_in_leap_years() {
    assert!(parse_rfc3339("2024-02-29T00:00:00Z").is_some());
    assert!(parse_rfc3339("2023-02-29T00:00:00Z").is_none());
    assert!(parse_rfc3339("2000-02-29T00:00:00Z").is_some());
    assert!(parse_rfc3339("1900-02-29T00:00:00Z").is_none());
}

#[test]
fn malformed_timestamps_are_rejected() {
    for s in [
        "",
        "2023-05-01",
        "2023-05-01 10:15:30Z",
        "2023-13-01T10:15:30Z",
        "2023-00-01T10:15:30Z",
        "2023-04-31T10:15:30Z",
        "2023-05-01T24:15:30Z",
        "2023-05-01T10:60:30Z",
        "2023-05-01T10:15:61Z",
        "2023-05-01T10:15:30",
        "2023-05-01T10:15:30+25:00",
        "2023-05-01T10:15:30.Z",
        "2023-05-01T10:15:30+0200",
    ] {
        assert!(parse_rfc3339(s).is_none(), "{} should be rejected", s);
    }
}

#[test]
fn request_needs_a_configured_url() {
    let mut conf = ConfyConfig::default();
    assert_eq!(conf.api_url, "");
    assert_eq!(conf.auth_token, "");
    let r = prepare_request(&conf, "/config/globals");
    assert!(matches!(r, Err(DhcpctlError::MissingUrl)));
    conf.set_url("https://dhcp.example");
    let plan = prepare_request(&conf, "/config/globals").unwrap();
    assert_eq!(plan.url, "https://dhcp.example/config/globals");
    assert!(plan.auth_token.is_none());
    conf.set_token("SECRET-REDACTED");
    let plan = prepare_request(&conf, "/leases/").unwrap();
    assert_eq!(plan.url, "https://dhcp.example/leases/");
    assert_eq!(plan.auth_token.as_deref(), Some("SECRET-REDACTED"));
}

#[test]
fn error_messages_describe_each_failure() {
    assert_eq!(
        DhcpctlError::InvalidFilter.message(),
        "Not a valid CIDR."
    );
    assert_eq!(
        DhcpctlError::MissingUrl.message(),
        "The URL for the ISC DHCP API is missing. Set it with 'dhcpctl config set --url https://ip-or-domain-name'."
    );
    assert_eq!(
        DhcpctlError::MissingConfigFile.message(),
        "Config file not found."
    );
    assert_eq!(
        DhcpctlError::MissingArguments.message(),
        "You need to provide either an url, token or both."
    );
    assert_eq!(
        DhcpctlError::TimestampParseError.message(),
        "Could not parse a lease timestamp."
    );
    assert_eq!(
        DhcpctlError::LookupFailed(429).message(),
        "Vendor lookup failed with HTTP status 429"
    );
    assert_eq!(
        DhcpctlError::BadStatusCode("403 Forbidden".to_string()).message(),
        "403 Forbidden"
    );
    assert_eq!(
        DhcpctlError::Transport("connection refused".to_string()).message(),
        "connection refused"
    );
    assert_eq!(
        DhcpctlError::Config("bad toml".to_string()).message(),
        "[config-file] bad toml"
    );
}
