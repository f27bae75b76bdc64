//! MAC-address prefixes: the vendor-lookup key of a lease.

use vstd::prelude::*;
use crate::strutil::{ascii_lower, spec_lower};

verus! {

/// The first three octets of a colon-separated MAC address: its first eight
/// characters. A shorter string is taken whole.
pub open spec fn spec_prefix(mac: Seq<char>) -> Seq<char> {
    if mac.len() >= 8 {
        mac.subrange(0, 8)
    } else {
        mac
    }
}

/// The key a lease's hardware address contributes to the vendor mapping:
/// its prefix, lower-cased.
pub open spec fn spec_lease_key(mac: Seq<char>) -> Seq<char> {
    spec_lower(spec_prefix(mac))
}

/// Whether a (lower-cased) prefix belongs to a locally-administered MAC
/// address: its second character is one of `2`, `6`, `a`, `e`, the four hex
/// digits with the locally-administered bit set.
pub open spec fn spec_is_local(prefix: Seq<char>) -> bool {
    prefix.len() >= 2 && (prefix[1] == '2' || prefix[1] == '6' || prefix[1] == 'a' || prefix[1]
        == 'e')
}

/// The prefix (first eight characters) of `mac`.
pub fn mac_prefix(mac: &str) -> (r: String)
    ensures
        r@ == spec_prefix(mac@),
{
    let n = mac.unicode_len();
    if n >= 8 {
        String::from_str(mac.substring_char(0, 8))
    } else {
        String::from_str(mac)
    }
}

/// The lower-cased prefix of `mac`, the form under which it is keyed in the
/// vendor mapping.
pub fn lease_key(mac: &str) -> (r: String)
    ensures
        r@ == spec_lease_key(mac@),
{
    let p = mac_prefix(mac);
    ascii_lower(p.as_str())
}

/// Whether `prefix` marks a locally-administered address, so that no vendor
/// lookup is owed for it.
pub fn is_locally_administered(prefix: &str) -> (r: bool)
    ensures
        r == spec_is_local(prefix@),
{
    if prefix.unicode_len() >= 2 {
        let c = prefix.get_char(1);
        c == '2' || c == '6' || c == 'a' || c == 'e'
    } else {
        false
    }
}

} // verus!
