//! The 128-bit address value and its bit-level structure: octets, 16-bit
//! groups, prefix masks, and the splice of a network prefix with an
//! interface identifier.

use vstd::prelude::*;

verus! {

/// A 128-bit IPv6 address held as one unsigned integer, with the first
/// octet of the address in the most significant byte.
#[derive(Clone, Copy, Debug, PartialEq, Eq, Structural, Hash)]
pub struct Ipv6Address {
    pub bits: u128,
}

/// Octet `i` (0 = most significant) of an address value.
pub open spec fn byte_of(a: u128, i: int) -> u8
    recommends
        0 <= i < 16,
{
    ((a >> ((8 * (15 - i)) as u128)) & 0xff) as u8
}

/// 16-bit group `i` (0 = most significant) of an address value.
pub open spec fn seg_of(a: u128, i: int) -> u16
    recommends
        0 <= i < 8,
{
    ((a >> ((16 * (7 - i)) as u128)) & 0xffff) as u16
}

/// The mask whose high `len` bits are set: a bit position belongs to the
/// network prefix exactly when the mask holds a one there.
pub open spec fn prefix_mask(len: int) -> u128
    recommends
        0 <= len <= 128,
{
    if len <= 0 {
        0u128
    } else if len >= 128 {
        !0u128
    } else {
        (!0u128) << ((128 - len) as u128)
    }
}

/// Bit `i` of an address value, counting from the most significant bit,
/// so that bit `i` lies inside a prefix of length `len` exactly when
/// `i < len`.
pub open spec fn bit_of(a: u128, i: int) -> bool
    recommends
        0 <= i < 128,
{
    (a >> ((127 - i) as u128)) & 1 == 1
}

/// The network part of `a` under a prefix of length `len`: every bit at
/// or beyond the prefix length is cleared.
pub open spec fn network_bits(a: u128, len: int) -> u128
    recommends
        0 <= len <= 128,
{
    a & prefix_mask(len)
}

/// The splice of a network prefix with an interface identifier: bit
/// positions below `len` come from `prefix`, the rest from `iid`.
pub open spec fn combine_bits(prefix: u128, iid: u128, len: int) -> u128
    recommends
        0 <= len <= 128,
{
    (prefix & prefix_mask(len)) | (iid & !prefix_mask(len))
}

impl Ipv6Address {
    pub fn from_bits(bits: u128) -> (r: Ipv6Address)
        ensures
            r.bits == bits,
    {
        Ipv6Address { bits }
    }

    /// Octet `i` of the address, with octet 0 the most significant.
    pub fn octet(&self, i: usize) -> (r: u8)
        requires
            i < 16,
        ensures
            r == byte_of(self.bits, i as int),
    {
        ((self.bits >> ((8 * (15 - i)) as u32)) & 0xff) as u8
    }

    /// 16-bit group `i` of the address, with group 0 the most significant.
    pub fn segment(&self, i: usize) -> (r: u16)
        requires
            i < 8,
        ensures
            r == seg_of(self.bits, i as int),
    {
        ((self.bits >> ((16 * (7 - i)) as u32)) & 0xffff) as u16
    }
}

/// The mask with the high `len` bits set, as executable code.
pub fn prefix_mask_exec(len: u8) -> (r: u128)
    requires
        len <= 128,
    ensures
        r == prefix_mask(len as int),
{
    if len == 0 {
        0u128
    } else {
        let r = (!0u128) << ((128 - len) as u128);
        proof {
            if len == 128 {
                assert((!0u128) << 0u128 == !0u128) by (bit_vector);
            }
        }
        r
    }
}

/// Splice executable: prefix bits below `len`, interface-identifier bits
/// at and beyond `len`.
pub fn combine_exec(prefix: u128, iid: u128, len: u8) -> (r: u128)
    requires
        len <= 128,
    ensures
        r == combine_bits(prefix, iid, len as int),
{
    let mask = prefix_mask_exec(len);
    (prefix & mask) | (iid & !mask)
}

/// Deriving a network prefix clears every bit at or beyond the prefix
/// length: the stored base is always the network address.
pub proof fn lemma_network_clears_beyond(a: u128, len: u8, i: u8)
    requires
        len <= 128,
        len <= i < 128,
    ensures
        !bit_of(network_bits(a, len as int), i as int),
{
    assert((((a & prefix_mask(len as int)) >> ((127 - i) as u128)) & 1) != 1) by (bit_vector)
        requires
            len <= 128,
            len <= i < 128,
    ;
}

/// Deriving a network prefix clears every bit at or beyond the prefix
/// length, for every address and every admissible length.
pub proof fn lemma_network_bits_zero_beyond(a: u128, len: u8)
    requires
        len <= 128,
    ensures
        forall|i: int| len <= i < 128 ==> !bit_of(network_bits(a, len as int), i),
{
    assert forall|i: int| len <= i < 128 implies !bit_of(network_bits(a, len as int), i) by {
        lemma_network_clears_beyond(a, len, i as u8);
    }
}

/// A normalized network prefix round-trips through the splice with an
/// all-zero interface identifier: the result is the prefix itself.
pub proof fn lemma_combine_zero_iid_round_trip(a: u128, len: u8)
    requires
        len <= 128,
    ensures
        combine_bits(network_bits(a, len as int), 0, len as int) == network_bits(a, len as int),
{
    assert((((a & prefix_mask(len as int)) & prefix_mask(len as int)) | (0 & !prefix_mask(
        len as int,
    ))) == (a & prefix_mask(len as int))) by (bit_vector)
        requires
            len <= 128,
    ;
}

/// The splice is a pure function of its inputs: equal prefixes, equal
/// interface identifiers and equal lengths give equal addresses.
pub proof fn lemma_combine_deterministic(p1: u128, i1: u128, l1: u8, p2: u128, i2: u128, l2: u8)
    requires
        p1 == p2,
        i1 == i2,
        l1 == l2,
        l1 <= 128,
    ensures
        combine_bits(p1, i1, l1 as int) == combine_bits(p2, i2, l2 as int),
{
}

/// For a prefix length that is a whole number of octets, the splice is a
/// plain copy split at octet `len / 8`: high octets from the prefix, low
/// octets from the interface identifier.
pub proof fn lemma_combine_octet_boundary(p: u128, iid: u128, len: u8, i: u8)
    requires
        len <= 128,
        len % 8 == 0,
        i < 16,
    ensures
        i < len / 8 ==> byte_of(combine_bits(p, iid, len as int), i as int) == byte_of(
            p,
            i as int,
        ),
        i >= len / 8 ==> byte_of(combine_bits(p, iid, len as int), i as int) == byte_of(
            iid,
            i as int,
        ),
{
    assert((i < len / 8 ==> ((((p & prefix_mask(len as int)) | (iid & !prefix_mask(len as int)))
        >> ((8 * (15 - i)) as u128)) & 0xff) == ((p >> ((8 * (15 - i)) as u128)) & 0xff)) && (i
        >= len / 8 ==> ((((p & prefix_mask(len as int)) | (iid & !prefix_mask(len as int))) >> ((8
        * (15 - i)) as u128)) & 0xff) == ((iid >> ((8 * (15 - i)) as u128)) & 0xff)))
        by (bit_vector)
        requires
            len <= 128,
            len % 8 == 0,
            i < 16,
    ;
}

/// For a prefix length that is not a whole number of octets, exactly the
/// straddling octet is a bitwise blend: its high `len % 8` bits come from
/// the prefix and its low bits from the interface identifier; octets
/// before it come only from the prefix, octets after it only from the
/// interface identifier.
pub proof fn lemma_combine_octet_blend(p: u128, iid: u128, len: u8, i: u8)
    requires
        len <= 128,
        len % 8 != 0,
        i < 16,
    ensures
        i < len / 8 ==> byte_of(combine_bits(p, iid, len as int), i as int) == byte_of(
            p,
            i as int,
        ),
        i > len / 8 ==> byte_of(combine_bits(p, iid, len as int), i as int) == byte_of(
            iid,
            i as int,
        ),
        i == len / 8 ==> byte_of(combine_bits(p, iid, len as int), i as int) == ((byte_of(
            p,
            i as int,
        ) & ((0xffu8) << ((8 - len % 8) as u8))) | (byte_of(iid, i as int) & !((0xffu8) << ((8 - len
            % 8) as u8)))),
{
    if i < len / 8 {
        assert(((((p & prefix_mask(len as int)) | (iid & !prefix_mask(len as int))) >> ((8 * (15
            - i)) as u128)) & 0xff) == ((p >> ((8 * (15 - i)) as u128)) & 0xff)) by (bit_vector)
            requires
                len <= 128,
                len % 8 != 0,
                i < 16,
                i < len / 8,
        ;
    } else if i > len / 8 {
        assert(((((p & prefix_mask(len as int)) | (iid & !prefix_mask(len as int))) >> ((8 * (15
            - i)) as u128)) & 0xff) == ((iid >> ((8 * (15 - i)) as u128)) & 0xff)) by (bit_vector)
            requires
                len <= 128,
                len % 8 != 0,
                i < 16,
                i > len / 8,
        ;
    } else {
        let hm = (0xffu8) << ((8 - len % 8) as u8);
        assert(((((p & prefix_mask(len as int)) | (iid & !prefix_mask(len as int))) >> ((8 * (15
            - i)) as u128)) & 0xff) as u8 == ((((p >> ((8 * (15 - i)) as u128)) & 0xff) as u8 & hm)
            | (((iid >> ((8 * (15 - i)) as u128)) & 0xff) as u8 & !hm))) by (bit_vector)
            requires
                len <= 128,
                len % 8 != 0,
                i < 16,
                i == len / 8,
                hm == (0xffu8) << ((8 - len % 8) as u8),
        ;
    }
}

} // verus!
