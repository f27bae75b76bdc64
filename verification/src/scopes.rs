//! Subnet scopes: the table shown for a scope listing and the key/value
//! lines shown for one scope.

use vstd::prelude::*;
use crate::strutil::{join_with, spec_join, str_eq};

verus! {

/// The address range of a scope.
#[derive(Debug, Clone)]
pub struct AddressRange {
    pub start: String,
    pub end: String,
}

/// The option set of a scope.
#[derive(Debug, Clone)]
pub struct ScopeOptions {
    pub subnet_mask: String,
    pub broadcast_address: String,
    pub routers: String,
    pub tftp_server_name: Option<String>,
    pub bootfile_name: Option<String>,
    pub domain_name: Option<String>,
    pub domain_name_servers: Option<Vec<String>>,
}

/// One subnet scope as the API reports it.
#[derive(Debug, Clone)]
pub struct Scope {
    pub ip: String,
    pub subnet: String,
    pub range: AddressRange,
    pub options: ScopeOptions,
    pub next_server: Option<String>,
    pub default_lease_time: Option<String>,
    pub max_lease_time: Option<String>,
}

/// An optional string as shown with a fallback.
pub open spec fn opt_or(o: Option<String>, d: Seq<char>) -> Seq<char> {
    match o {
        Some(s) => s@,
        None => d,
    }
}

/// The strings of an optional list, or none.
pub open spec fn opt_list(o: Option<Vec<String>>) -> Seq<Seq<char>> {
    match o {
        Some(v) => v@.map_values(|s: String| s@),
        None => Seq::empty(),
    }
}

/// The scope table's column headers: the DNS column when asked for, then
/// the PXE columns when asked for.
pub open spec fn spec_scope_header(pxe: bool, dns: bool) -> Seq<Seq<char>> {
    let base = seq!["Subnet ID"@, "Subnet Mask"@, "Scope Start"@, "Scope End"@, "Gateway"@];
    let with_dns = if dns {
        base + seq!["DNS Servers"@]
    } else {
        base
    };
    if pxe {
        with_dns + seq!["TFTP Server"@, "Bootfile"@, "Next Server"@]
    } else {
        with_dns
    }
}

/// The column headers of the scope table.
pub fn scope_header(pxe: bool, dns: bool) -> (r: Vec<String>)
    ensures
        r@.map_values(|s: String| s@) == spec_scope_header(pxe, dns),
{
    let mut r: Vec<String> = Vec::new();
    r.push(String::from_str("Subnet ID"));
    r.push(String::from_str("Subnet Mask"));
    r.push(String::from_str("Scope Start"));
    r.push(String::from_str("Scope End"));
    r.push(String::from_str("Gateway"));
    if dns {
        r.push(String::from_str("DNS Servers"));
    }
    if pxe {
        r.push(String::from_str("TFTP Server"));
        r.push(String::from_str("Bootfile"));
        r.push(String::from_str("Next Server"));
    }
    proof {
        assert(r@.map_values(|s: String| s@) =~= spec_scope_header(pxe, dns));
    }
    r
}

/// The row shown for one scope: identity, range and gateway, the joined
/// DNS servers when asked for, the PXE fields (absent ones empty) when
/// asked for.
pub open spec fn spec_scope_row(s: Scope, pxe: bool, dns: bool) -> Seq<Seq<char>> {
    let base = seq![s.ip@, s.subnet@, s.range.start@, s.range.end@, s.options.routers@];
    let with_dns = if dns {
        base + seq![spec_join(opt_list(s.options.domain_name_servers), ","@)]
    } else {
        base
    };
    if pxe {
        with_dns + seq![
            opt_or(s.options.tftp_server_name, Seq::empty()),
            opt_or(s.options.bootfile_name, Seq::empty()),
            opt_or(s.next_server, Seq::empty()),
        ]
    } else {
        with_dns
    }
}

/// Builds the table rows of the scope listing, one row per scope in order.
pub fn scope_rows(scopes: &Vec<Scope>, pxe: bool, dns: bool) -> (r: Vec<Vec<String>>)
    ensures
        r@.len() == scopes@.len(),
        forall|i: int|
            0 <= i < scopes@.len() ==> (#[trigger] r@[i])@.map_values(|s: String| s@)
                == spec_scope_row(scopes@[i], pxe, dns),
{
    let mut rows: Vec<Vec<String>> = Vec::new();
    let mut i: usize = 0;
    while i < scopes.len()
        invariant
            i <= scopes@.len(),
            rows@.len() == i,
            forall|q: int|
                0 <= q < i ==> (#[trigger] rows@[q])@.map_values(|s: String| s@)
                    == spec_scope_row(scopes@[q], pxe, dns),
        decreases scopes@.len() - i,
    {
        let s = &scopes[i];
        let mut row: Vec<String> = Vec::new();
        row.push(s.ip.clone());
        row.push(s.subnet.clone());
        row.push(s.range.start.clone());
        row.push(s.range.end.clone());
        row.push(s.options.routers.clone());
        if dns {
            let joined = match &s.options.domain_name_servers {
                Some(v) => join_with(v, ","),
                None => String::new(),
            };
            row.push(joined);
        }
        if pxe {
            row.push(
                match &s.options.tftp_server_name {
                    Some(v) => v.clone(),
                    None => String::new(),
                },
            );
            row.push(
                match &s.options.bootfile_name {
                    Some(v) => v.clone(),
                    None => String::new(),
                },
            );
            row.push(
                match &s.next_server {
                    Some(v) => v.clone(),
                    None => String::new(),
                },
            );
        }
        proof {
            assert(row@.map_values(|s: String| s@) =~= spec_scope_row(scopes@[i as int], pxe, dns));
        }
        rows.push(row);
        i = i + 1;
    }
    rows
}

/// The key/value lines shown for one scope: identity and gateway always;
/// the PXE block when any of its three fields is set, absent ones shown as
/// `Not set`; then each remaining optional field only when set.
pub open spec fn spec_scope_details(s: Scope) -> Seq<(Seq<char>, Seq<char>)> {
    let base = seq![
        ("Network ID:"@, s.ip@),
        ("Subnet Mask:"@, s.subnet@),
        ("Scope Range:"@, s.range.start@ + " - "@ + s.range.end@),
        ("Gateway:"@, s.options.routers@),
    ];
    let pxe: Seq<(Seq<char>, Seq<char>)> = if s.options.tftp_server_name is Some
        || s.options.bootfile_name is Some || s.next_server is Some {
        seq![
            ("TFTP Server:"@, opt_or(s.options.tftp_server_name, "Not set"@)),
            ("Bootfile:"@, opt_or(s.options.bootfile_name, "Not set"@)),
            ("Next Server:"@, opt_or(s.next_server, "Not set"@)),
        ]
    } else {
        Seq::empty()
    };
    let dns: Seq<(Seq<char>, Seq<char>)> = match s.options.domain_name_servers {
        Some(v) => seq![
            ("DNS Servers:"@, spec_join(v@.map_values(|x: String| x@), ","@)),
        ],
        None => Seq::empty(),
    };
    let domain: Seq<(Seq<char>, Seq<char>)> = match s.options.domain_name {
        Some(d) => seq![("Domain Name:"@, d@)],
        None => Seq::empty(),
    };
    let dlt: Seq<(Seq<char>, Seq<char>)> = match s.default_lease_time {
        Some(d) => seq![("Default Lease Time:"@, d@)],
        None => Seq::empty(),
    };
    let mlt: Seq<(Seq<char>, Seq<char>)> = match s.max_lease_time {
        Some(d) => seq![("Max Lease Time:"@, d@)],
        None => Seq::empty(),
    };
    base + pxe + dns + domain + dlt + mlt
}

/// The key/value lines shown for one scope.
pub fn scope_details(s: &Scope) -> (r: Vec<(String, String)>)
    ensures
        r@.map_values(|e: (String, String)| (e.0@, e.1@)) == spec_scope_details(*s),
{
    let mut r: Vec<(String, String)> = Vec::new();
    r.push((String::from_str("Network ID:"), s.ip.clone()));
    r.push((String::from_str("Subnet Mask:"), s.subnet.clone()));
    r.push(
        (
            String::from_str("Scope Range:"),
            s.range.start.clone().concat(" - ").concat(s.range.end.as_str()),
        ),
    );
    r.push((String::from_str("Gateway:"), s.options.routers.clone()));
    if s.options.tftp_server_name.is_some() || s.options.bootfile_name.is_some()
        || s.next_server.is_some() {
        r.push(
            (
                String::from_str("TFTP Server:"),
                match &s.options.tftp_server_name {
                    Some(v) => v.clone(),
                    None => String::from_str("Not set"),
                },
            ),
        );
        r.push(
            (
                String::from_str("Bootfile:"),
                match &s.options.bootfile_name {
                    Some(v) => v.clone(),
                    None => String::from_str("Not set"),
                },
            ),
        );
        r.push(
            (
                String::from_str("Next Server:"),
                match &s.next_server {
                    Some(v) => v.clone(),
                    None => String::from_str("Not set"),
                },
            ),
        );
    }
    match &s.options.domain_name_servers {
        Some(v) => {
            r.push((String::from_str("DNS Servers:"), join_with(v, ",")));
        },
        None => {},
    }
    match &s.options.domain_name {
        Some(d) => {
            r.push((String::from_str("Domain Name:"), d.clone()));
        },
        None => {},
    }
    match &s.default_lease_time {
        Some(d) => {
            r.push((String::from_str("Default Lease Time:"), d.clone()));
        },
        None => {},
    }
    match &s.max_lease_time {
        Some(d) => {
            r.push((String::from_str("Max Lease Time:"), d.clone()));
        },
        None => {},
    }
    proof {
        assert(r@.map_values(|e: (String, String)| (e.0@, e.1@)) =~= spec_scope_details(*s));
    }
    r
}

/// The scopes whose subnet identity is `id`, kept in order.
pub open spec fn spec_matching(scopes: Seq<Scope>, id: Seq<char>) -> Seq<Seq<(Seq<char>, Seq<char>)>>
    decreases scopes.len(),
{
    if scopes.len() == 0 {
        Seq::empty()
    } else {
        let rest = spec_matching(scopes.drop_last(), id);
        if scopes.last().ip@ == id {
            rest.push(spec_scope_details(scopes.last()))
        } else {
            rest
        }
    }
}

/// The detail lines of every scope whose subnet identity is `subnet_id`,
/// in order; empty when no scope matches.
pub fn scope_details_for(scopes: &Vec<Scope>, subnet_id: &str) -> (r: Vec<Vec<(String, String)>>)
    ensures
        r@.map_values(
            |d: Vec<(String, String)>| d@.map_values(|e: (String, String)| (e.0@, e.1@)),
        ) == spec_matching(scopes@, subnet_id@),
{
    let ghost ss = scopes@;
    let mut r: Vec<Vec<(String, String)>> = Vec::new();
    let mut i: usize = 0;
    while i < scopes.len()
        invariant
            i <= ss.len(),
            ss == scopes@,
            r@.map_values(
                |d: Vec<(String, String)>| d@.map_values(|e: (String, String)| (e.0@, e.1@)),
            ) == spec_matching(ss.take(i as int), subnet_id@),
        decreases ss.len() - i,
    {
        proof {
            assert(ss.take(i + 1).drop_last() =~= ss.take(i as int));
            assert(ss.take(i + 1).last() == ss[i as int]);
        }
        let s = &scopes[i];
        if str_eq(s.ip.as_str(), subnet_id) {
            let details = scope_details(s);
            r.push(details);
            proof {
                assert(r@.map_values(
                    |d: Vec<(String, String)>| d@.map_values(|e: (String, String)| (e.0@, e.1@)),
                ) =~= spec_matching(ss.take(i as int), subnet_id@).push(
                    spec_scope_details(ss[i as int]),
                ));
            }
        }
        i = i + 1;
    }
    proof {
        assert(ss.take(ss.len() as int) =~= ss);
    }
    r
}

} // verus!
