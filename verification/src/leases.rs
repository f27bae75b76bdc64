//! Lease retrieval paths and lease presentation: filter validation, the
//! derivation of distinct MAC prefixes, and the table rows shown for a
//! lease list.

use vstd::prelude::*;
use crate::cidr::is_valid_filter;
use crate::cidr::valid_filter;
use crate::error::DhcpctlError;
use crate::mac::{lease_key, spec_lease_key};
use crate::strutil::{contains_str, spec_lower};
use crate::timefmt::{format_display, is_rfc3339, parse_rfc3339, spec_display, spec_fields};
use crate::vendor::{
    spec_pending, spec_randomized, LookupOutcome, LookupPlan, VendorMap, lookup, plan_lookups,
};

verus! {

/// One DHCP lease as the API reports it. Optional fields are absent when
/// the server did not store them.
#[derive(Debug, Clone)]
pub struct Lease {
    pub binding_state: String,
    pub client_hostname: Option<String>,
    pub cltt: String,
    pub ends: String,
    pub hardware_ethernet: String,
    pub ip: String,
    pub next_binding_state: String,
    pub rewind_binding_state: String,
    pub set_vendor_class_identifier: Option<String>,
    pub starts: String,
    pub uid: Option<String>,
}

/// The filter as characters: an absent filter reads as the empty one.
pub open spec fn filter_chars(f: Option<Seq<char>>) -> Seq<char> {
    match f {
        Some(s) => s,
        None => Seq::empty(),
    }
}

/// The filter an `Option<String>` argument carries.
pub open spec fn filter_model(f: Option<String>) -> Option<Seq<char>> {
    match f {
        Some(s) => Some(s@),
        None => None,
    }
}

/// A filter is accepted when it is empty or syntactically valid.
pub open spec fn filter_ok(f: Option<Seq<char>>) -> bool {
    filter_chars(f).len() == 0 || is_valid_filter(filter_chars(f))
}

/// The request path that lists leases under `f`.
pub open spec fn spec_list_path(f: Option<Seq<char>>) -> Seq<char> {
    "/leases/"@ + filter_chars(f)
}

/// An absent CIDR filter and an empty one ask for the same thing: both are
/// accepted and both yield the unfiltered lease path.
pub proof fn lemma_empty_filter_unfiltered()
    ensures
        filter_ok(None) && filter_ok(Some(Seq::empty())),
        spec_list_path(None) == spec_list_path(Some(Seq::empty())),
{
}

/// The request path of the lease listing under `cidr_filter`, checked
/// before any request is made: a non-empty filter that is neither an IPv4
/// CIDR nor a bare IPv4 address is rejected on the spot.
pub fn lease_list_path(cidr_filter: &Option<String>) -> (r: Result<String, DhcpctlError>)
    ensures
        r is Ok <==> filter_ok(filter_model(*cidr_filter)),
        r matches Ok(p) ==> p@ == spec_list_path(filter_model(*cidr_filter)),
        r is Err ==> r == Err::<String, DhcpctlError>(DhcpctlError::InvalidFilter),
{
    let base = String::from_str("/leases/");
    match cidr_filter {
        None => Ok(base),
        Some(f) => {
            if f.as_str().unicode_len() != 0 && !valid_filter(f.as_str()) {
                Err(DhcpctlError::InvalidFilter)
            } else {
                Ok(base.concat(f.as_str()))
            }
        },
    }
}

/// The request path that searches leases for `term` server-side.
pub fn lease_search_path(term: &str) -> (r: String)
    ensures
        r@ == "/leases/search/"@ + term@,
{
    String::from_str("/leases/search/").concat(term)
}

/// The vendor-lookup keys of `leases` in first-appearance order, each kept
/// once.
pub open spec fn spec_keys(leases: Seq<Lease>) -> Seq<Seq<char>>
    decreases leases.len(),
{
    if leases.len() == 0 {
        Seq::empty()
    } else {
        let rest = spec_keys(leases.drop_last());
        let k = spec_lease_key(leases.last().hardware_ethernet@);
        if rest.contains(k) {
            rest
        } else {
            rest.push(k)
        }
    }
}

/// The derived keys never repeat, and each is already lower-cased.
pub proof fn lemma_keys_wf(leases: Seq<Lease>)
    ensures
        forall|i: int, j: int|
            0 <= i < j < spec_keys(leases).len() ==> spec_keys(leases)[i] != spec_keys(leases)[j],
        forall|i: int|
            0 <= i < spec_keys(leases).len() ==> spec_lower(#[trigger] spec_keys(leases)[i])
                == spec_keys(leases)[i],
    decreases leases.len(),
{
    if leases.len() > 0 {
        lemma_keys_wf(leases.drop_last());
        let rest = spec_keys(leases.drop_last());
        let k = spec_lease_key(leases.last().hardware_ethernet@);
        crate::strutil::lemma_lower_idempotent(
            crate::mac::spec_prefix(leases.last().hardware_ethernet@),
        );
        if !rest.contains(k) {
            assert forall|i: int, j: int|
                0 <= i < j < spec_keys(leases).len() implies spec_keys(leases)[i] != spec_keys(
                leases,
            )[j] by {
                if j == spec_keys(leases).len() - 1 {
                    assert(spec_keys(leases)[i] == rest[i]);
                    assert(!rest.contains(k));
                }
            }
        }
    }
}

/// Every lease's key is among the derived keys: the vendor mapping built
/// from them covers the whole lease list.
pub proof fn lemma_keys_complete(leases: Seq<Lease>, j: int)
    requires
        0 <= j < leases.len(),
    ensures
        spec_keys(leases).contains(spec_lease_key(leases[j].hardware_ethernet@)),
    decreases leases.len(),
{
    let k = spec_lease_key(leases[j].hardware_ethernet@);
    let rest = spec_keys(leases.drop_last());
    if j == leases.len() - 1 {
        if rest.contains(k) {
            let i = choose|i: int| 0 <= i < rest.len() && rest[i] == k;
            assert(spec_keys(leases)[i] == k);
        } else {
            assert(spec_keys(leases).last() == k);
        }
    } else {
        lemma_keys_complete(leases.drop_last(), j);
        let i = choose|i: int| 0 <= i < rest.len() && rest[i] == k;
        assert(spec_keys(leases)[i] == k);
    }
    assert(spec_keys(leases).contains(k));
}

/// The distinct vendor-lookup keys of `leases`, in first-appearance order.
pub fn distinct_prefixes(leases: &Vec<Lease>) -> (r: Vec<String>)
    ensures
        r@.map_values(|s: String| s@) == spec_keys(leases@),
{
    let ghost ls = leases@;
    let mut r: Vec<String> = Vec::new();
    let mut i: usize = 0;
    while i < leases.len()
        invariant
            i <= ls.len(),
            ls == leases@,
            r@.map_values(|s: String| s@) == spec_keys(ls.take(i as int)),
        decreases ls.len() - i,
    {
        let key = lease_key(leases[i].hardware_ethernet.as_str());
        let ghost kv = key@;
        let present = contains_str(&r, key.as_str());
        proof {
            assert(present == spec_keys(ls.take(i as int)).contains(kv)) by {
                let m = r@.map_values(|s: String| s@);
                if present {
                    let q = choose|q: int| 0 <= q < r@.len() && r@[q]@ == kv;
                    assert(m[q] == kv);
                }
                if m.contains(kv) {
                    let q = choose|q: int| 0 <= q < m.len() && m[q] == kv;
                    assert(r@[q]@ == kv);
                }
            }
            assert(ls.take(i + 1).drop_last() =~= ls.take(i as int));
            assert(ls.take(i + 1).last() == ls[i as int]);
        }
        if !present {
            r.push(key);
            proof {
                assert(r@.map_values(|s: String| s@) =~= spec_keys(ls.take(i as int)).push(kv));
            }
        }
        i = i + 1;
    }
    proof {
        assert(ls.take(ls.len() as int) =~= ls);
    }
    r
}

/// Before any row is rendered, the completed vendor mapping covers every
/// lease of the listing: each lease's prefix is answered, so no row ever
/// observes a partially-built mapping.
pub proof fn lemma_mapping_covers_every_lease(
    leases: Seq<Lease>,
    plan: LookupPlan,
    os: Seq<LookupOutcome>,
    j: int,
)
    requires
        plan.randomized_model() == spec_randomized(spec_keys(leases)),
        plan.pending_model() == spec_pending(spec_keys(leases)),
        0 <= j < leases.len(),
    ensures
        lookup(crate::vendor::spec_entries(plan, os), spec_lease_key(leases[j].hardware_ethernet@))
            is Some,
{
    let k = spec_lease_key(leases[j].hardware_ethernet@);
    let ks = spec_keys(leases);
    lemma_keys_complete(leases, j);
    lemma_keys_wf(leases);
    let i = choose|i: int| 0 <= i < ks.len() && ks[i] == k;
    assert(spec_lower(ks[i]) == ks[i]);
    crate::vendor::lemma_partition_membership(ks, k);
    assert(spec_randomized(ks).contains(k) || spec_pending(ks).contains(k));
    let es = crate::vendor::spec_entries(plan, os);
    let r = spec_randomized(ks);
    let p = spec_pending(ks);
    if r.contains(k) {
        let q = choose|q: int| 0 <= q < r.len() && r[q] == k;
        assert(es[q].0 == k);
    } else {
        let q = choose|q: int| 0 <= q < p.len() && p[q] == k;
        assert(es[r.len() + q].0 == k);
    }
    crate::vendor::lemma_lookup_found(es, k);
}

/// What a lease listing needs before its table can be shown.
pub enum RenderPrep {
    /// No leases: a notice is shown and no table, and the vendor cache
    /// builder is never consulted, enrichment or not.
    Empty,
    /// Leases without enrichment: the table can be shown at once.
    Direct,
    /// Leases with enrichment: the plan's pending lookups are owed first.
    Enrich(LookupPlan),
}

/// Decides how a lease listing proceeds. An empty list is answered with
/// `Empty` before any vendor work; enrichment is planned only when there is
/// something to show and it was asked for.
pub fn prepare_lease_render(leases: &Vec<Lease>, mac_lookup: bool) -> (r: RenderPrep)
    ensures
        leases@.len() == 0 <==> r is Empty,
        (leases@.len() > 0 && !mac_lookup) <==> r is Direct,
        (leases@.len() > 0 && mac_lookup) <==> r is Enrich,
        r matches RenderPrep::Enrich(plan) ==> plan.wf() && plan.randomized_model()
            == spec_randomized(spec_keys(leases@)) && plan.pending_model() == spec_pending(
            spec_keys(leases@),
        ),
{
    if leases.len() == 0 {
        RenderPrep::Empty
    } else if !mac_lookup {
        RenderPrep::Direct
    } else {
        let prefixes = distinct_prefixes(leases);
        let plan = plan_lookups(&prefixes);
        proof {
            lemma_keys_wf(leases@);
            let ks = prefixes@.map_values(|s: String| s@);
            assert forall|i: int, j: int|
                0 <= i < j < prefixes@.len() implies spec_lower(prefixes@[i]@) != spec_lower(
                prefixes@[j]@,
            ) by {
                assert(ks[i] == spec_keys(leases@)[i] && ks[j] == spec_keys(leases@)[j]);
                assert(spec_lower(ks[i]) == ks[i] && spec_lower(ks[j]) == ks[j]);
            }
        }
        RenderPrep::Enrich(plan)
    }
}

/// An optional string field as shown: absent renders as empty.
pub open spec fn opt_str(o: Option<String>) -> Seq<char> {
    match o {
        Some(s) => s@,
        None => Seq::empty(),
    }
}

/// The vendor column of a lease: what the mapping holds under the lease's
/// key, or empty when it holds nothing.
pub open spec fn spec_vendor_name(m: VendorMap, mac: Seq<char>) -> Seq<char> {
    match lookup(m.model(), spec_lease_key(mac)) {
        Some(v) => v,
        None => Seq::empty(),
    }
}

/// Both timestamps of the lease are well-formed RFC 3339.
pub open spec fn lease_ok(l: Lease) -> bool {
    is_rfc3339(l.starts@) && is_rfc3339(l.ends@)
}

/// The row shown for one lease, without the vendor column: MAC address,
/// binding state, IP, hostname, formatted start and end, vendor-class
/// identifier.
pub open spec fn spec_lease_row(l: Lease) -> Seq<Seq<char>> {
    seq![
        l.hardware_ethernet@,
        l.binding_state@,
        l.ip@,
        opt_str(l.client_hostname),
        spec_display(spec_fields(l.starts@)),
        spec_display(spec_fields(l.ends@)),
        opt_str(l.set_vendor_class_identifier),
    ]
}

/// The row shown for one lease under an optional vendor mapping: with a
/// mapping, the vendor column is prepended.
pub open spec fn spec_lease_row_with(l: Lease, vendor: Option<VendorMap>) -> Seq<Seq<char>> {
    match vendor {
        Some(m) => seq![spec_vendor_name(m, l.hardware_ethernet@)] + spec_lease_row(l),
        None => spec_lease_row(l),
    }
}

/// The column headers of the lease table.
pub fn lease_header(with_vendor: bool) -> (r: Vec<String>)
    ensures
        r@.map_values(|s: String| s@) == spec_lease_header(with_vendor),
{
    let mut r: Vec<String> = Vec::new();
    if with_vendor {
        r.push(String::from_str("Mac Vendor"));
    }
    r.push(String::from_str("MAC Address"));
    r.push(String::from_str("Status"));
    r.push(String::from_str("IP"));
    r.push(String::from_str("Hostname"));
    r.push(String::from_str("Starts"));
    r.push(String::from_str("Ends"));
    r.push(String::from_str("Vendor Identifier"));
    proof {
        assert(r@.map_values(|s: String| s@) =~= spec_lease_header(with_vendor));
    }
    r
}

/// The lease table's column headers, with the vendor column when
/// enrichment is on.
pub open spec fn spec_lease_header(with_vendor: bool) -> Seq<Seq<char>> {
    let base = seq![
        "MAC Address"@,
        "Status"@,
        "IP"@,
        "Hostname"@,
        "Starts"@,
        "Ends"@,
        "Vendor Identifier"@,
    ];
    if with_vendor {
        seq!["Mac Vendor"@] + base
    } else {
        base
    }
}

/// Builds the table rows of `leases`, one row per lease in order, with the
/// vendor column when a mapping is given. Fails — with no rows at all —
/// when any lease's timestamp is not RFC 3339.
#[verifier::rlimit(30)]
pub fn lease_rows(leases: &Vec<Lease>, vendor: Option<&VendorMap>) -> (r: Result<
    Vec<Vec<String>>,
    DhcpctlError,
>)
    ensures
        r is Ok <==> (forall|i: int| 0 <= i < leases@.len() ==> lease_ok(#[trigger] leases@[i])),
        r is Err ==> r == Err::<Vec<Vec<String>>, DhcpctlError>(DhcpctlError::TimestampParseError),
        r matches Ok(rows) ==> rows@.len() == leases@.len() && (forall|i: int|
            0 <= i < leases@.len() ==> (#[trigger] rows@[i])@.map_values(|s: String| s@)
                == spec_lease_row_with(
                leases@[i],
                match vendor {
                    Some(m) => Some(*m),
                    None => None,
                },
            )),
{
    let ghost vm = match vendor {
        Some(m) => Some(*m),
        None => None,
    };
    let mut rows: Vec<Vec<String>> = Vec::new();
    let mut i: usize = 0;
    while i < leases.len()
        invariant
            i <= leases@.len(),
            vm == match vendor {
                Some(m) => Some(*m),
                None => None,
            },
            rows@.len() == i,
            forall|q: int| 0 <= q < i ==> lease_ok(#[trigger] leases@[q]),
            forall|q: int|
                0 <= q < i ==> (#[trigger] rows@[q])@.map_values(|s: String| s@)
                    == spec_lease_row_with(leases@[q], vm),
        decreases leases@.len() - i,
    {
        let lease = &leases[i];
        let starts = match parse_rfc3339(lease.starts.as_str()) {
            Some(t) => t,
            None => {
                return Err(DhcpctlError::TimestampParseError);
            },
        };
        let ends = match parse_rfc3339(lease.ends.as_str()) {
            Some(t) => t,
            None => {
                return Err(DhcpctlError::TimestampParseError);
            },
        };
        let mut row: Vec<String> = Vec::new();
        match vendor {
            Some(m) => {
                let key = lease_key(lease.hardware_ethernet.as_str());
                let name = match m.get(key.as_str()) {
                    Some(v) => v,
                    None => String::new(),
                };
                row.push(name);
            },
            None => {},
        }
        row.push(lease.hardware_ethernet.clone());
        row.push(lease.binding_state.clone());
        row.push(lease.ip.clone());
        row.push(
            match &lease.client_hostname {
                Some(h) => h.clone(),
                None => String::new(),
            },
        );
        row.push(format_display(&starts));
        row.push(format_display(&ends));
        row.push(
            match &lease.set_vendor_class_identifier {
                Some(v) => v.clone(),
                None => String::new(),
            },
        );
        proof {
            assert(row@.map_values(|s: String| s@) =~= spec_lease_row_with(leases@[i as int], vm));
        }
        rows.push(row);
        i = i + 1;
    }
    Ok(rows)
}

} // verus!
