//! The vendor cache builder: partitions MAC prefixes into locally
//! administered ones (resolved at once, no lookup owed) and ones that need a
//! vendor-service call, and merges the answered lookups into one mapping
//! keyed by lower-cased prefix. The calls themselves are carried out by the
//! caller between `plan_lookups` and `finish_vendor_map`; the builder never
//! reads a partially answered batch.

use vstd::prelude::*;
use crate::error::DhcpctlError;
use crate::mac::{is_locally_administered, spec_is_local};
use crate::strutil::{ascii_lower, spec_lower, str_eq};

verus! {

/// The vendor record inside a lookup service answer.
#[derive(Debug, Clone)]
pub struct MacVendorLookup {
    pub company: String,
    pub mac_prefix: String,
    pub error: Option<String>,
}

/// The top level of a lookup service answer.
#[derive(Debug, Clone)]
pub struct MacVendorLookupRoot {
    pub result: MacVendorLookup,
}

/// What one vendor lookup request came back with.
#[derive(Debug, Clone)]
pub enum LookupOutcome {
    /// The request completed with this HTTP status; the body decoded into a
    /// vendor record, or did not.
    Reply { status: u16, record: Option<MacVendorLookup> },
    /// The request could not be carried out at all; the detail says why.
    Failed(String),
}

/// An outcome that aborts the whole enrichment: a transport failure, or any
/// HTTP status outside the success range.
pub open spec fn outcome_bad(o: LookupOutcome) -> bool {
    match o {
        LookupOutcome::Failed(_) => true,
        LookupOutcome::Reply { status, .. } => !(200 <= status < 300),
    }
}

/// The vendor name a successful outcome contributes: the record's company,
/// or the empty placeholder when the body did not decode.
pub open spec fn outcome_value(o: LookupOutcome) -> Seq<char> {
    match o {
        LookupOutcome::Reply { record: Some(rec), .. } => rec.company@,
        _ => Seq::empty(),
    }
}

/// The first aborting outcome, or the batch length when all succeeded.
pub open spec fn first_bad(os: Seq<LookupOutcome>) -> int
    decreases os.len(),
{
    if os.len() == 0 {
        0
    } else if outcome_bad(os[0]) {
        0
    } else {
        1 + first_bad(os.drop_first())
    }
}

/// The prefix-to-vendor-name mapping the builder produces: an association
/// list whose keys never repeat.
pub struct VendorMap {
    entries: Vec<(String, String)>,
}

/// The value the first entry with key `k` holds.
pub open spec fn lookup(es: Seq<(Seq<char>, Seq<char>)>, k: Seq<char>) -> Option<Seq<char>>
    decreases es.len(),
{
    if es.len() == 0 {
        None
    } else if es[0].0 == k {
        Some(es[0].1)
    } else {
        lookup(es.drop_first(), k)
    }
}

impl VendorMap {
    /// The entries as key/value character sequences, in insertion order.
    pub closed spec fn model(self) -> Seq<(Seq<char>, Seq<char>)> {
        self.entries@.map_values(|e: (String, String)| (e.0@, e.1@))
    }

    /// No key appears twice.
    pub open spec fn wf(self) -> bool {
        forall|i: int, j: int|
            0 <= i < j < self.model().len() ==> self.model()[i].0 != self.model()[j].0
    }

    /// What `get` finds for `k`.
    pub open spec fn spec_get(self, k: Seq<char>) -> Option<Seq<char>> {
        lookup(self.model(), k)
    }

    /// An empty mapping.
    pub fn new() -> (m: VendorMap)
        ensures
            m.model() == Seq::<(Seq<char>, Seq<char>)>::empty(),
            m.wf(),
    {
        let m = VendorMap { entries: Vec::new() };
        proof {
            assert(m.model() =~= Seq::<(Seq<char>, Seq<char>)>::empty());
        }
        m
    }

    /// How many prefixes the mapping covers.
    pub fn len(&self) -> (n: usize)
        ensures
            n == self.model().len(),
    {
        self.entries.len()
    }

    /// Adds an entry under a key not present yet.
    pub fn insert_new(&mut self, k: String, v: String)
        requires
            old(self).wf(),
            forall|i: int|
                0 <= i < old(self).model().len() ==> old(self).model()[i].0 != k@,
        ensures
            final(self).wf(),
            final(self).model() == old(self).model().push((k@, v@)),
    {
        let ghost gk = k@;
        let ghost gv = v@;
        self.entries.push((k, v));
        proof {
            let om = old(self).model();
            let m = self.model();
            assert(m =~= om.push((gk, gv)));
            assert forall|i: int, j: int| 0 <= i < j < m.len() implies m[i].0 != m[j].0 by {
                if j < om.len() {
                    assert(om[i].0 != om[j].0);
                } else {
                    assert(m[j].0 == gk);
                    assert(om[i].0 != gk);
                }
            }
        }
    }

    /// The vendor name stored for prefix `k`, when the mapping covers it.
    pub fn get(&self, k: &str) -> (r: Option<String>)
        ensures
            match r {
                Some(v) => self.spec_get(k@) == Some(v@),
                None => self.spec_get(k@) is None,
            },
    {
        let mut i: usize = 0;
        proof {
            assert(self.model().skip(0) =~= self.model());
        }
        while i < self.entries.len()
            invariant
                i <= self.entries@.len(),
                lookup(self.model(), k@) == lookup(self.model().skip(i as int), k@),
            decreases self.entries@.len() - i,
        {
            proof {
                assert(self.model().skip(i as int).drop_first() =~= self.model().skip(i + 1));
                assert(self.model().skip(i as int)[0] == self.model()[i as int]);
            }
            let e = &self.entries[i];
            if str_eq(e.0.as_str(), k) {
                return Some(e.1.clone());
            }
            i = i + 1;
        }
        proof {
            assert(self.model().skip(self.model().len() as int) =~= Seq::<
                (Seq<char>, Seq<char>),
            >::empty());
        }
        None
    }
}

/// The lower-cased, locally-administered members of `ps`, in order.
pub open spec fn spec_randomized(ps: Seq<Seq<char>>) -> Seq<Seq<char>>
    decreases ps.len(),
{
    if ps.len() == 0 {
        Seq::empty()
    } else {
        let rest = spec_randomized(ps.drop_last());
        let k = spec_lower(ps.last());
        if spec_is_local(k) {
            rest.push(k)
        } else {
            rest
        }
    }
}

/// The lower-cased members of `ps` that need a vendor lookup, in order.
pub open spec fn spec_pending(ps: Seq<Seq<char>>) -> Seq<Seq<char>>
    decreases ps.len(),
{
    if ps.len() == 0 {
        Seq::empty()
    } else {
        let rest = spec_pending(ps.drop_last());
        let k = spec_lower(ps.last());
        if spec_is_local(k) {
            rest
        } else {
            rest.push(k)
        }
    }
}

/// The two halves of a vendor-map build: prefixes resolved on the spot, and
/// prefixes whose lookup is still owed. Both hold lower-cased prefixes.
pub struct LookupPlan {
    /// Locally-administered prefixes: resolved to the sentinel name, with no
    /// network call.
    pub randomized: Vec<String>,
    /// Prefixes that need one vendor lookup request each.
    pub pending: Vec<String>,
}

impl LookupPlan {
    /// The resolved prefixes as character sequences.
    pub open spec fn randomized_model(self) -> Seq<Seq<char>> {
        self.randomized@.map_values(|s: String| s@)
    }

    /// The owed prefixes as character sequences.
    pub open spec fn pending_model(self) -> Seq<Seq<char>> {
        self.pending@.map_values(|s: String| s@)
    }

    /// Each half holds only prefixes of its kind, and no prefix twice.
    pub open spec fn wf(self) -> bool {
        (forall|i: int|
            0 <= i < self.randomized_model().len() ==> spec_is_local(self.randomized_model()[i]))
            && (forall|i: int|
            0 <= i < self.pending_model().len() ==> !spec_is_local(self.pending_model()[i])) && (
        forall|i: int, j: int|
            0 <= i < j < self.randomized_model().len() ==> self.randomized_model()[i]
                != self.randomized_model()[j]) && (forall|i: int, j: int|
            0 <= i < j < self.pending_model().len() ==> self.pending_model()[i]
                != self.pending_model()[j])
    }
}

/// Splits `prefixes` into the locally-administered ones and the ones that
/// need a lookup, lower-casing every prefix on the way.
pub fn plan_lookups(prefixes: &Vec<String>) -> (plan: LookupPlan)
    ensures
        plan.randomized_model() == spec_randomized(prefixes@.map_values(|s: String| s@)),
        plan.pending_model() == spec_pending(prefixes@.map_values(|s: String| s@)),
        (forall|i: int, j: int|
            0 <= i < j < prefixes@.len() ==> spec_lower(prefixes@[i]@) != spec_lower(
                prefixes@[j]@,
            )) ==> plan.wf(),
{
    let ghost ps = prefixes@.map_values(|s: String| s@);
    let mut randomized: Vec<String> = Vec::new();
    let mut pending: Vec<String> = Vec::new();
    let mut i: usize = 0;
    while i < prefixes.len()
        invariant
            i <= prefixes@.len(),
            ps == prefixes@.map_values(|s: String| s@),
            randomized@.map_values(|s: String| s@) == spec_randomized(ps.take(i as int)),
            pending@.map_values(|s: String| s@) == spec_pending(ps.take(i as int)),
        decreases prefixes@.len() - i,
    {
        let low = ascii_lower(prefixes[i].as_str());
        let ghost low_view = low@;
        if is_locally_administered(low.as_str()) {
            randomized.push(low);
        } else {
            pending.push(low);
        }
        proof {
            assert(ps.take(i + 1).drop_last() =~= ps.take(i as int));
            assert(ps.take(i + 1).last() == ps[i as int]);
            assert(low_view == spec_lower(ps[i as int]));
            if spec_is_local(low_view) {
                assert(randomized@.map_values(|s: String| s@) =~= spec_randomized(
                    ps.take(i as int),
                ).push(low_view));
            } else {
                assert(pending@.map_values(|s: String| s@) =~= spec_pending(ps.take(i as int)).push(
                    low_view,
                ));
            }
        }
        i = i + 1;
    }
    proof {
        assert(ps.take(prefixes@.len() as int) =~= ps);
    }
    let plan = LookupPlan { randomized, pending };
    proof {
        if forall|i: int, j: int|
            0 <= i < j < prefixes@.len() ==> spec_lower(prefixes@[i]@) != spec_lower(
                prefixes@[j]@,
            ) {
            assert(forall|i: int, j: int|
                0 <= i < j < ps.len() ==> spec_lower(ps[i]) != spec_lower(ps[j]));
            lemma_partition_shape(ps);
            lemma_partition_distinct(ps);
        }
    }
    plan
}

/// Both halves of the partition hold only prefixes of their kind, and every
/// half member is the lower-casing of some input member.
pub proof fn lemma_partition_shape(ps: Seq<Seq<char>>)
    ensures
        forall|i: int|
            0 <= i < spec_randomized(ps).len() ==> spec_is_local(#[trigger] spec_randomized(ps)[i]),
        forall|i: int|
            0 <= i < spec_pending(ps).len() ==> !spec_is_local(#[trigger] spec_pending(ps)[i]),
        forall|i: int|
            0 <= i < spec_randomized(ps).len() ==> exists|j: int|
                0 <= j < ps.len() && #[trigger] spec_randomized(ps)[i] == spec_lower(ps[j]),
        forall|i: int|
            0 <= i < spec_pending(ps).len() ==> exists|j: int|
                0 <= j < ps.len() && #[trigger] spec_pending(ps)[i] == spec_lower(ps[j]),
    decreases ps.len(),
{
    if ps.len() > 0 {
        lemma_partition_shape(ps.drop_last());
        assert forall|i: int| 0 <= i < spec_randomized(ps).len() implies exists|j: int|
            0 <= j < ps.len() && #[trigger] spec_randomized(ps)[i] == spec_lower(ps[j]) by {
            let rest = spec_randomized(ps.drop_last());
            if i < rest.len() {
                let j0 = choose|j: int|
                    0 <= j < ps.drop_last().len() && rest[i] == spec_lower(ps.drop_last()[j]);
                assert(0 <= j0 < ps.len() && spec_randomized(ps)[i] == spec_lower(ps[j0]));
            } else {
                assert(spec_randomized(ps)[i] == spec_lower(ps[ps.len() - 1]));
            }
        }
        assert forall|i: int| 0 <= i < spec_pending(ps).len() implies exists|j: int|
            0 <= j < ps.len() && #[trigger] spec_pending(ps)[i] == spec_lower(ps[j]) by {
            let rest = spec_pending(ps.drop_last());
            if i < rest.len() {
                let j0 = choose|j: int|
                    0 <= j < ps.drop_last().len() && rest[i] == spec_lower(ps.drop_last()[j]);
                assert(0 <= j0 < ps.len() && spec_pending(ps)[i] == spec_lower(ps[j0]));
            } else {
                assert(spec_pending(ps)[i] == spec_lower(ps[ps.len() - 1]));
            }
        }
    }
}

/// When no two inputs lower-case to the same prefix, neither half of the
/// partition repeats a prefix.
pub proof fn lemma_partition_distinct(ps: Seq<Seq<char>>)
    requires
        forall|i: int, j: int| 0 <= i < j < ps.len() ==> spec_lower(ps[i]) != spec_lower(ps[j]),
    ensures
        forall|i: int, j: int|
            0 <= i < j < spec_randomized(ps).len() ==> spec_randomized(ps)[i] != spec_randomized(
                ps,
            )[j],
        forall|i: int, j: int|
            0 <= i < j < spec_pending(ps).len() ==> spec_pending(ps)[i] != spec_pending(ps)[j],
    decreases ps.len(),
{
    if ps.len() > 0 {
        lemma_partition_distinct(ps.drop_last());
        lemma_partition_shape(ps.drop_last());
        let last = spec_lower(ps.last());
        assert forall|i: int|
            0 <= i < spec_randomized(ps.drop_last()).len() implies spec_randomized(
            ps.drop_last(),
        )[i] != last by {
            let j0 = choose|j: int|
                0 <= j < ps.drop_last().len() && spec_randomized(ps.drop_last())[i] == spec_lower(
                    ps.drop_last()[j],
                );
            assert(spec_lower(ps[j0]) != spec_lower(ps[ps.len() - 1]));
        }
        assert forall|i: int|
            0 <= i < spec_pending(ps.drop_last()).len() implies spec_pending(ps.drop_last())[i]
            != last by {
            let j0 = choose|j: int|
                0 <= j < ps.drop_last().len() && spec_pending(ps.drop_last())[i] == spec_lower(
                    ps.drop_last()[j],
                );
            assert(spec_lower(ps[j0]) != spec_lower(ps[ps.len() - 1]));
        }
    }
}

/// The partition never invents or loses a prefix: together its halves hold
/// exactly one member for each input position, so a mapping with one entry
/// per half member has exactly one entry per distinct input prefix.
pub proof fn lemma_partition_sizes(ps: Seq<Seq<char>>)
    ensures
        spec_randomized(ps).len() + spec_pending(ps).len() == ps.len(),
    decreases ps.len(),
{
    if ps.len() > 0 {
        lemma_partition_sizes(ps.drop_last());
    }
}

/// A prefix is covered by the partition exactly when some input lower-cases
/// to it.
pub proof fn lemma_partition_membership(ps: Seq<Seq<char>>, k: Seq<char>)
    ensures
        (spec_randomized(ps).contains(k) || spec_pending(ps).contains(k)) <==> exists|j: int|
            0 <= j < ps.len() && spec_lower(ps[j]) == k,
    decreases ps.len(),
{
    if ps.len() > 0 {
        lemma_partition_membership(ps.drop_last(), k);
        let last = spec_lower(ps.last());
        if last == k {
            if spec_is_local(last) {
                let r = spec_randomized(ps);
                assert(r.last() == k);
                assert(r.contains(k));
            } else {
                let p = spec_pending(ps);
                assert(p.last() == k);
                assert(p.contains(k));
            }
            assert(spec_lower(ps[ps.len() - 1]) == k);
        } else {
            assert forall|j: int| 0 <= j < ps.len() && spec_lower(ps[j]) == k implies 0 <= j
                < ps.drop_last().len() && spec_lower(ps.drop_last()[j]) == k by {
                assert(j != ps.len() - 1);
            }
            if spec_randomized(ps).contains(k) {
                let i = choose|i: int|
                    0 <= i < spec_randomized(ps).len() && spec_randomized(ps)[i] == k;
                assert(i < spec_randomized(ps.drop_last()).len());
                assert(spec_randomized(ps.drop_last()).contains(k));
            }
            if spec_pending(ps).contains(k) {
                let i = choose|i: int| 0 <= i < spec_pending(ps).len() && spec_pending(ps)[i] == k;
                assert(i < spec_pending(ps.drop_last()).len());
                assert(spec_pending(ps.drop_last()).contains(k));
            }
            if spec_randomized(ps.drop_last()).contains(k) {
                let i = choose|i: int|
                    0 <= i < spec_randomized(ps.drop_last()).len() && spec_randomized(
                        ps.drop_last(),
                    )[i] == k;
                assert(spec_randomized(ps)[i] == k);
                assert(spec_randomized(ps).contains(k));
            }
            if spec_pending(ps.drop_last()).contains(k) {
                let i = choose|i: int|
                    0 <= i < spec_pending(ps.drop_last()).len() && spec_pending(ps.drop_last())[i]
                        == k;
                assert(spec_pending(ps)[i] == k);
                assert(spec_pending(ps).contains(k));
            }
        }
    }
}

/// The sentinel vendor name of locally-administered prefixes.
pub open spec fn spec_sentinel() -> Seq<char> {
    "::randomized::"@
}

/// The entries of a completed build: every resolved prefix with the
/// sentinel name, then every looked-up prefix with the name its outcome
/// contributed.
pub open spec fn spec_entries(plan: LookupPlan, os: Seq<LookupOutcome>) -> Seq<
    (Seq<char>, Seq<char>),
> {
    plan.randomized_model().map_values(|k: Seq<char>| (k, spec_sentinel())) + Seq::new(
        plan.pending_model().len(),
        |i: int| (plan.pending_model()[i], outcome_value(os[i])),
    )
}

/// Merges the answered lookups into the final mapping. Fails on the first
/// aborting outcome — a transport failure or a non-success status — and
/// yields no mapping at all in that case.
pub fn finish_vendor_map(plan: &LookupPlan, outcomes: &Vec<LookupOutcome>) -> (r: Result<
    VendorMap,
    DhcpctlError,
>)
    requires
        plan.wf(),
        outcomes@.len() == plan.pending_model().len(),
    ensures
        r is Ok <==> first_bad(outcomes@) == outcomes@.len(),
        r matches Ok(m) ==> m.wf() && m.model() == spec_entries(*plan, outcomes@),
        r is Err ==> first_bad(outcomes@) < outcomes@.len() && match outcomes@[first_bad(
            outcomes@,
        )] {
            LookupOutcome::Failed(d) => r matches Err(DhcpctlError::Transport(det)) && det@ == d@,
            LookupOutcome::Reply { status, .. } => r == Err::<VendorMap, DhcpctlError>(
                DhcpctlError::LookupFailed(status),
            ),
        },
{
    let mut m = VendorMap::new();
    let ghost rm = plan.randomized_model();
    let ghost pm = plan.pending_model();
    let mut i: usize = 0;
    while i < plan.randomized.len()
        invariant
            plan.wf(),
            i <= rm.len(),
            rm == plan.randomized_model(),
            m.wf(),
            m.model() == rm.take(i as int).map_values(|k: Seq<char>| (k, spec_sentinel())),
        decreases rm.len() - i,
    {
        let key = plan.randomized[i].clone();
        proof {
            assert forall|j: int| 0 <= j < m.model().len() implies m.model()[j].0 != key@ by {
                assert(m.model()[j].0 == rm[j]);
                assert(rm[j] != rm[i as int]);
            }
        }
        m.insert_new(key, String::from_str("::randomized::"));
        proof {
            assert(rm.take(i + 1).drop_last() =~= rm.take(i as int));
            assert(m.model() =~= rm.take(i + 1).map_values(|k: Seq<char>| (k, spec_sentinel())));
        }
        i = i + 1;
    }
    proof {
        assert(rm.take(rm.len() as int) =~= rm);
    }
    let ghost sentinel_part = rm.map_values(|k: Seq<char>| (k, spec_sentinel()));
    let mut j: usize = 0;
    while j < plan.pending.len()
        invariant
            plan.wf(),
            j <= pm.len(),
            rm == plan.randomized_model(),
            pm == plan.pending_model(),
            outcomes@.len() == pm.len(),
            sentinel_part == rm.map_values(|k: Seq<char>| (k, spec_sentinel())),
            m.wf(),
            m.model() == sentinel_part + Seq::new(
                j as nat,
                |q: int| (pm[q], outcome_value(outcomes@[q])),
            ),
            forall|q: int| 0 <= q < j ==> !outcome_bad(outcomes@[q]),
        decreases pm.len() - j,
    {
        let value: String = match &outcomes[j] {
            LookupOutcome::Failed(detail) => {
                proof {
                    lemma_first_bad_at(outcomes@, j as int);
                }
                return Err(DhcpctlError::Transport(detail.clone()));
            },
            LookupOutcome::Reply { status, record } => {
                if !(200 <= *status && *status < 300) {
                    proof {
                        lemma_first_bad_at(outcomes@, j as int);
                    }
                    return Err(DhcpctlError::LookupFailed(*status));
                }
                match record {
                    Some(rec) => rec.company.clone(),
                    None => String::new(),
                }
            },
        };
        let key = plan.pending[j].clone();
        proof {
            assert forall|q: int| 0 <= q < m.model().len() implies m.model()[q].0 != key@ by {
                if q < rm.len() {
                    assert(m.model()[q].0 == rm[q]);
                    assert(spec_is_local(rm[q]));
                    assert(!spec_is_local(pm[j as int]));
                } else {
                    assert(m.model()[q].0 == pm[q - rm.len()]);
                    assert(pm[q - rm.len()] != pm[j as int]);
                }
            }
            assert(value@ == outcome_value(outcomes@[j as int]));
        }
        m.insert_new(key, value);
        proof {
            assert(m.model() =~= sentinel_part + Seq::new(
                (j + 1) as nat,
                |q: int| (pm[q], outcome_value(outcomes@[q])),
            ));
        }
        j = j + 1;
    }
    proof {
        lemma_first_bad_none(outcomes@);
        assert(m.model() =~= spec_entries(*plan, outcomes@));
    }
    Ok(m)
}

/// `first_bad` points at `i` when everything before `i` succeeded and the
/// outcome at `i` aborts.
proof fn lemma_first_bad_at(os: Seq<LookupOutcome>, i: int)
    requires
        0 <= i < os.len(),
        forall|q: int| 0 <= q < i ==> !outcome_bad(os[q]),
        outcome_bad(os[i]),
    ensures
        first_bad(os) == i,
    decreases os.len(),
{
    if i > 0 {
        lemma_first_bad_at(os.drop_first(), i - 1);
    }
}

/// `first_bad` equals the length when every outcome succeeded.
proof fn lemma_first_bad_none(os: Seq<LookupOutcome>)
    requires
        forall|q: int| 0 <= q < os.len() ==> !outcome_bad(os[q]),
    ensures
        first_bad(os) == os.len(),
    decreases os.len(),
{
    if os.len() > 0 {
        lemma_first_bad_none(os.drop_first());
    }
}

/// What an entry list answers for the key at position `i`, when no earlier
/// entry shares that key.
proof fn lemma_lookup_at(es: Seq<(Seq<char>, Seq<char>)>, i: int)
    requires
        0 <= i < es.len(),
        forall|j: int| 0 <= j < i ==> es[j].0 != es[i].0,
    ensures
        lookup(es, es[i].0) == Some(es[i].1),
    decreases i,
{
    if i > 0 {
        assert(es.drop_first()[i - 1] == es[i]);
        lemma_lookup_at(es.drop_first(), i - 1);
    }
}

/// An entry list answers something for every key it holds.
pub proof fn lemma_lookup_found(es: Seq<(Seq<char>, Seq<char>)>, k: Seq<char>)
    requires
        exists|i: int| 0 <= i < es.len() && (#[trigger] es[i]).0 == k,
    ensures
        lookup(es, k) is Some,
    decreases es.len(),
{
    let i = choose|i: int| 0 <= i < es.len() && (#[trigger] es[i]).0 == k;
    if es[0].0 != k {
        assert(es.drop_first()[i - 1] == es[i]);
        lemma_lookup_found(es.drop_first(), k);
    }
}

/// A completed build resolves every locally-administered input prefix to
/// the sentinel vendor name, and owes it no lookup request: enrichment
/// never spends a network call on a randomized address.
pub proof fn lemma_local_prefix_resolved_locally(
    ps: Seq<Seq<char>>,
    plan: LookupPlan,
    os: Seq<LookupOutcome>,
    i: int,
)
    requires
        plan.wf(),
        plan.randomized_model() == spec_randomized(ps),
        plan.pending_model() == spec_pending(ps),
        0 <= i < ps.len(),
        spec_is_local(spec_lower(ps[i])),
    ensures
        !spec_pending(ps).contains(spec_lower(ps[i])),
        spec_randomized(ps).contains(spec_lower(ps[i])),
        lookup(spec_entries(plan, os), spec_lower(ps[i])) == Some(spec_sentinel()),
{
    let k = spec_lower(ps[i]);
    lemma_partition_shape(ps);
    lemma_partition_membership(ps, k);
    if spec_pending(ps).contains(k) {
        let q = choose|q: int| 0 <= q < spec_pending(ps).len() && spec_pending(ps)[q] == k;
        assert(!spec_is_local(spec_pending(ps)[q]));
        assert(false);
    }
    assert(spec_randomized(ps).contains(k));
    let idx = choose|q: int| 0 <= q < spec_randomized(ps).len() && spec_randomized(ps)[q] == k;
    let es = spec_entries(plan, os);
    assert(es[idx] == (k, spec_sentinel()));
    assert forall|j: int| 0 <= j < idx implies es[j].0 != es[idx].0 by {
        assert(es[j].0 == plan.randomized_model()[j]);
    }
    lemma_lookup_at(es, idx);
}

/// A completed build resolves each owed prefix to exactly what its own
/// lookup outcome contributed: the answered company name, or the empty
/// placeholder when the body did not decode.
pub proof fn lemma_pending_prefix_resolved_by_lookup(
    plan: LookupPlan,
    os: Seq<LookupOutcome>,
    i: int,
)
    requires
        plan.wf(),
        0 <= i < plan.pending_model().len(),
    ensures
        lookup(spec_entries(plan, os), plan.pending_model()[i]) == Some(outcome_value(os[i])),
{
    let k = plan.pending_model()[i];
    let es = spec_entries(plan, os);
    let rlen = plan.randomized_model().len();
    assert(es[rlen + i] == (k, outcome_value(os[i])));
    assert forall|j: int| 0 <= j < rlen + i implies (#[trigger] es[j]).0 != es[rlen + i].0 by {
        if j < rlen {
            assert(es[j].0 == plan.randomized_model()[j]);
            assert(spec_is_local(plan.randomized_model()[j]));
            assert(!spec_is_local(k));
        } else {
            assert(es[j].0 == plan.pending_model()[j - rlen]);
        }
    }
    lemma_lookup_at(es, rlen + i);
}

/// A completed build covers exactly the distinct lower-cased input
/// prefixes: one mapping entry for each input position, and a prefix is a
/// key exactly when some input lower-cases to it.
pub proof fn lemma_builder_covers(
    ps: Seq<Seq<char>>,
    plan: LookupPlan,
    os: Seq<LookupOutcome>,
    k: Seq<char>,
)
    requires
        plan.randomized_model() == spec_randomized(ps),
        plan.pending_model() == spec_pending(ps),
    ensures
        spec_entries(plan, os).len() == ps.len(),
        (exists|j: int| 0 <= j < spec_entries(plan, os).len() && #[trigger] spec_entries(plan, os)[
            j
        ].0 == k) <==> (exists|j: int| 0 <= j < ps.len() && spec_lower(#[trigger] ps[j]) == k),
{
    lemma_partition_sizes(ps);
    let es = spec_entries(plan, os);
    lemma_partition_membership(ps, k);
    let r = spec_randomized(ps);
    let p = spec_pending(ps);
    if exists|j: int| 0 <= j < es.len() && #[trigger] es[j].0 == k {
        let j = choose|j: int| 0 <= j < es.len() && #[trigger] es[j].0 == k;
        if j < r.len() {
            assert(r[j] == k);
            assert(r.contains(k));
        } else {
            assert(p[j - r.len()] == k);
            assert(p.contains(k));
        }
    }
    if r.contains(k) {
        let j = choose|j: int| 0 <= j < r.len() && r[j] == k;
        assert(es[j].0 == k);
    }
    if p.contains(k) {
        let j = choose|j: int| 0 <= j < p.len() && p[j] == k;
        assert(es[r.len() + j].0 == k);
    }
}

} // verus!
