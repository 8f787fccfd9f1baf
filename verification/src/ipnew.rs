//! The proposed behaviour of some IPv6 address methods, which the address
//! checker compares with the current one.

use vstd::prelude::*;

verus! {

/// The address is multicast: its first octet is `ff`.
pub open spec fn is_multicast_octets(octets: Seq<u8>) -> bool {
    octets[0] == 0xffu8
}

/// The scope field of a multicast address: the low four bits of its second octet.
pub open spec fn scope_bits(octets: Seq<u8>) -> u8 {
    (octets[1] % 16) as u8
}

/// The IPv4 address that an IPv4-mapped IPv6 address (`::ffff:a.b.c.d`) carries.
pub open spec fn mapped_ipv4(octets: Seq<u8>) -> Option<Seq<u8>> {
    if (forall|i: int| 0 <= i < 10 ==> octets[i] == 0u8) && octets[10] == 0xffu8 && octets[11] == 0xffu8 {
        Some(octets.subrange(12, 16))
    } else {
        None
    }
}

/// The IPv4 address an IPv6 address converts to under the proposed rule: only
/// IPv4-mapped addresses convert.
pub fn to_ipv4_new(octets: [u8; 16]) -> (res: Option<[u8; 4]>)
    ensures
        match res {
            Some(v4) => mapped_ipv4(octets@) == Some(v4@),
            None => mapped_ipv4(octets@) is None,
        },
{
    let mut i: usize = 0;
    while i < 10
        invariant
            i <= 10,
            forall|j: int| 0 <= j < i ==> octets@[j] == 0u8,
        decreases 10 - i,
    {
        if octets[i] != 0 {
            return None;
        }
        i = i + 1;
    }
    if octets[10] == 0xff && octets[11] == 0xff {
        let v4 = [octets[12], octets[13], octets[14], octets[15]];
        assert(v4@ =~= octets@.subrange(12, 16));
        Some(v4)
    } else {
        None
    }
}

/// A multicast address of a reserved scope under the proposed rule: scope 0 or 15.
pub open spec fn mc_reserved(octets: Seq<u8>) -> bool {
    is_multicast_octets(octets) && (scope_bits(octets) == 0u8 || scope_bits(octets) == 15u8)
}

/// A multicast address of an unassigned scope under the proposed rule: any scope
/// other than 0, 1, 2, 3, 4, 5, 8, 14 and 15.
pub open spec fn mc_unassigned(octets: Seq<u8>) -> bool {
    let s = scope_bits(octets);
    is_multicast_octets(octets) && !(s == 0u8 || s == 15u8 || s == 1u8 || s == 2u8 || s == 3u8 || s == 4u8
        || s == 5u8 || s == 8u8 || s == 14u8)
}

/// Whether an IPv6 address is multicast with a reserved scope.
pub fn mc_scope_reserved(octets: [u8; 16]) -> (res: bool)
    ensures
        res == mc_reserved(octets@),
{
    if octets[0] != 0xff {
        return false;
    }
    let s = octets[1] % 16;
    s == 0 || s == 15
}

/// Whether an IPv6 address is multicast with an unassigned scope.
pub fn mc_scope_unassigned(octets: [u8; 16]) -> (res: bool)
    ensures
        res == mc_unassigned(octets@),
{
    if octets[0] != 0xff {
        return false;
    }
    let s = octets[1] % 16;
    !(s == 0 || s == 15 || s == 1 || s == 2 || s == 3 || s == 4 || s == 5 || s == 8 || s == 14)
}

} // verus!
