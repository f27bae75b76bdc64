//! Global DHCP configuration: the key/value lines shown for it.

use vstd::prelude::*;
use crate::strutil::{join_with, spec_join};

verus! {

/// The server-wide option set.
#[derive(Debug, Clone)]
pub struct Options {
    pub domain_name: Option<String>,
    pub domain_name_servers: Option<Vec<String>>,
}

/// The server-wide configuration as the API reports it.
#[derive(Debug, Clone)]
pub struct Globals {
    pub authoritative: Option<bool>,
    pub default_lease_time: Option<String>,
    pub max_lease_time: Option<String>,
    pub options: Option<Options>,
}

/// The key/value lines shown for the global configuration: each field only
/// when set, the DNS servers joined with a comma and a space.
pub open spec fn spec_globals_lines(g: Globals) -> Seq<(Seq<char>, Seq<char>)> {
    let auth: Seq<(Seq<char>, Seq<char>)> = match g.authoritative {
        Some(v) => seq![
            ("Authoritative: "@, if v {
                "true"@
            } else {
                "false"@
            }),
        ],
        None => Seq::empty(),
    };
    let dlt: Seq<(Seq<char>, Seq<char>)> = match g.default_lease_time {
        Some(v) => seq![("Default Lease Time: "@, v@)],
        None => Seq::empty(),
    };
    let mlt: Seq<(Seq<char>, Seq<char>)> = match g.max_lease_time {
        Some(v) => seq![("Max Lease Time: "@, v@)],
        None => Seq::empty(),
    };
    let opts: Seq<(Seq<char>, Seq<char>)> = match g.options {
        Some(o) => {
            let dn: Seq<(Seq<char>, Seq<char>)> = match o.domain_name {
                Some(v) => seq![("Domain name: "@, v@)],
                None => Seq::empty(),
            };
            let dns: Seq<(Seq<char>, Seq<char>)> = match o.domain_name_servers {
                Some(v) => seq![("DNS Servers: "@, spec_join(v@.map_values(|x: String| x@), ", "@))],
                None => Seq::empty(),
            };
            dn + dns
        },
        None => Seq::empty(),
    };
    auth + dlt + mlt + opts
}

/// The key/value lines shown for the global configuration.
pub fn globals_lines(g: &Globals) -> (r: Vec<(String, String)>)
    ensures
        r@.map_values(|e: (String, String)| (e.0@, e.1@)) == spec_globals_lines(*g),
{
    let mut r: Vec<(String, String)> = Vec::new();
    match g.authoritative {
        Some(v) => {
            let shown = if v {
                String::from_str("true")
            } else {
                String::from_str("false")
            };
            r.push((String::from_str("Authoritative: "), shown));
        },
        None => {},
    }
    match &g.default_lease_time {
        Some(v) => {
            r.push((String::from_str("Default Lease Time: "), v.clone()));
        },
        None => {},
    }
    match &g.max_lease_time {
        Some(v) => {
            r.push((String::from_str("Max Lease Time: "), v.clone()));
        },
        None => {},
    }
    match &g.options {
        Some(o) => {
            match &o.domain_name {
                Some(v) => {
                    r.push((String::from_str("Domain name: "), v.clone()));
                },
                None => {},
            }
            match &o.domain_name_servers {
                Some(v) => {
                    r.push((String::from_str("DNS Servers: "), join_with(v, ", ")));
                },
                None => {},
            }
        },
        None => {},
    }
    proof {
        assert(r@.map_values(|e: (String, String)| (e.0@, e.1@)) =~= spec_globals_lines(*g));
    }
    r
}

} // verus!
