//! Canonical text rendering of addresses: lowercase hexadecimal groups,
//! the longest run of two or more zero groups compressed to "::"
//! (leftmost on a tie), and the IPv4-mapped range shown with a dotted
//! decimal tail.

use vstd::prelude::*;
use vstd::string::StrSliceExecFns;
use vstd::string::StringExecFns;
use crate::addr::{byte_of, seg_of};

verus! {

/// Relies on std's String::push: appends the given character to the end
/// of the string.
pub assume_specification[ String::push ](s: &mut String, c: char)
    ensures
        final(s)@ == old(s)@.push(c),
;

/// The lowercase hexadecimal digit for a value below sixteen.
pub open spec fn hex_char(d: int) -> char {
    if d == 0 {
        '0'
    } else if d == 1 {
        '1'
    } else if d == 2 {
        '2'
    } else if d == 3 {
        '3'
    } else if d == 4 {
        '4'
    } else if d == 5 {
        '5'
    } else if d == 6 {
        '6'
    } else if d == 7 {
        '7'
    } else if d == 8 {
        '8'
    } else if d == 9 {
        '9'
    } else if d == 10 {
        'a'
    } else if d == 11 {
        'b'
    } else if d == 12 {
        'c'
    } else if d == 13 {
        'd'
    } else if d == 14 {
        'e'
    } else {
        'f'
    }
}

/// The hexadecimal form of a value, without leading zeros.
pub open spec fn hex_of(v: int) -> Seq<char>
    decreases v,
{
    if v < 16 {
        seq![hex_char(v)]
    } else {
        hex_of(v / 16) + seq![hex_char(v % 16)]
    }
}

/// The decimal form of a value, without leading zeros.
pub open spec fn dec_of(v: int) -> Seq<char>
    decreases v,
{
    if v < 10 {
        seq![hex_char(v)]
    } else {
        dec_of(v / 10) + seq![hex_char(v % 10)]
    }
}

/// How many consecutive zero groups start at group `i`.
pub open spec fn run_len_at(a: u128, i: int) -> int
    decreases 8 - i,
{
    if i < 0 || i >= 8 {
        0
    } else if seg_of(a, i) != 0 {
        0
    } else {
        1 + run_len_at(a, i + 1)
    }
}

/// The leftmost longest run of zero groups at or after group `i`: its
/// start and its length.
pub open spec fn best_run_from(a: u128, i: int) -> (int, int)
    decreases 8 - i,
{
    if i >= 8 {
        (8, 0)
    } else {
        let rest = best_run_from(a, i + 1);
        let here = run_len_at(a, i);
        if here >= rest.1 {
            (i, here)
        } else {
            rest
        }
    }
}

/// An address in the IPv4-mapped range: the first eighty bits zero, the
/// next sixteen ones.
pub open spec fn is_v4_mapped(a: u128) -> bool {
    (a >> 32) == 0xffff
}

/// Groups `lo` to `hi` (exclusive) in hexadecimal, joined with colons.
pub open spec fn fmt_groups(a: u128, lo: int, hi: int) -> Seq<char>
    decreases hi - lo,
{
    if lo >= hi {
        Seq::empty()
    } else if lo == hi - 1 {
        hex_of(seg_of(a, lo) as int)
    } else {
        hex_of(seg_of(a, lo) as int) + seq![':'] + fmt_groups(a, lo + 1, hi)
    }
}

/// The dotted decimal form of the last four octets.
pub open spec fn fmt_v4_tail(a: u128) -> Seq<char> {
    dec_of(byte_of(a, 12) as int) + seq!['.'] + dec_of(byte_of(a, 13) as int) + seq!['.'] + dec_of(
        byte_of(a, 14) as int,
    ) + seq!['.'] + dec_of(byte_of(a, 15) as int)
}

/// The canonical text of an address.
pub open spec fn canonical_ipv6(a: u128) -> Seq<char> {
    if is_v4_mapped(a) {
        seq![':', ':', 'f', 'f', 'f', 'f', ':'] + fmt_v4_tail(a)
    } else {
        let br = best_run_from(a, 0);
        if br.1 < 2 {
            fmt_groups(a, 0, 8)
        } else {
            fmt_groups(a, 0, br.0) + seq![':', ':'] + fmt_groups(a, br.0 + br.1, 8)
        }
    }
}

fn hex_char_exec(d: u32) -> (r: char)
    requires
        d < 16,
    ensures
        r == hex_char(d as int),
{
    if d == 0 {
        '0'
    } else if d == 1 {
        '1'
    } else if d == 2 {
        '2'
    } else if d == 3 {
        '3'
    } else if d == 4 {
        '4'
    } else if d == 5 {
        '5'
    } else if d == 6 {
        '6'
    } else if d == 7 {
        '7'
    } else if d == 8 {
        '8'
    } else if d == 9 {
        '9'
    } else if d == 10 {
        'a'
    } else if d == 11 {
        'b'
    } else if d == 12 {
        'c'
    } else if d == 13 {
        'd'
    } else if d == 14 {
        'e'
    } else {
        'f'
    }
}

fn push_hex_u16(s: &mut String, v: u16)
    ensures
        final(s)@ == old(s)@ + hex_of(v as int),
    decreases v,
{
    if v < 16 {
        s.push(hex_char_exec(v as u32));
        proof {
            assert(final(s)@ =~= old(s)@ + hex_of(v as int));
        }
    } else {
        push_hex_u16(s, v / 16);
        s.push(hex_char_exec((v % 16) as u32));
        proof {
            assert(final(s)@ =~= old(s)@ + hex_of(v as int));
        }
    }
}

fn push_dec_u8(s: &mut String, v: u8)
    ensures
        final(s)@ == old(s)@ + dec_of(v as int),
    decreases v,
{
    if v < 10 {
        s.push(hex_char_exec(v as u32));
        proof {
            assert(final(s)@ =~= old(s)@ + dec_of(v as int));
        }
    } else {
        push_dec_u8(s, v / 10);
        s.push(hex_char_exec((v % 10) as u32));
        proof {
            assert(final(s)@ =~= old(s)@ + dec_of(v as int));
        }
    }
}

fn seg_exec(a: u128, i: usize) -> (r: u16)
    requires
        i < 8,
    ensures
        r == seg_of(a, i as int),
{
    ((a >> ((16 * (7 - i)) as u128)) & 0xffff) as u16
}

fn byte_exec(a: u128, i: usize) -> (r: u8)
    requires
        i < 16,
    ensures
        r == byte_of(a, i as int),
{
    ((a >> ((8 * (15 - i)) as u128)) & 0xff) as u8
}

fn run_len_exec(a: u128, i: usize) -> (r: usize)
    requires
        i <= 8,
    ensures
        r as int == run_len_at(a, i as int),
        r <= 8 - i,
    decreases 8 - i,
{
    if i >= 8 {
        0
    } else if seg_exec(a, i) != 0 {
        0
    } else {
        1 + run_len_exec(a, i + 1)
    }
}

fn best_run_exec(a: u128, i: usize) -> (r: (usize, usize))
    requires
        i <= 8,
    ensures
        r.0 as int == best_run_from(a, i as int).0,
        r.1 as int == best_run_from(a, i as int).1,
        i <= r.0 <= 8,
        r.0 + r.1 <= 8,
    decreases 8 - i,
{
    if i >= 8 {
        (8, 0)
    } else {
        let rest = best_run_exec(a, i + 1);
        let here = run_len_exec(a, i);
        if here >= rest.1 {
            (i, here)
        } else {
            rest
        }
    }
}

fn push_groups(s: &mut String, a: u128, lo: usize, hi: usize)
    requires
        lo <= hi <= 8,
    ensures
        final(s)@ == old(s)@ + fmt_groups(a, lo as int, hi as int),
    decreases hi - lo,
{
    if lo >= hi {
        proof {
            assert(final(s)@ =~= old(s)@ + fmt_groups(a, lo as int, hi as int));
        }
    } else if lo == hi - 1 {
        push_hex_u16(s, seg_exec(a, lo));
    } else {
        push_hex_u16(s, seg_exec(a, lo));
        s.push(':');
        push_groups(s, a, lo + 1, hi);
        proof {
            assert(final(s)@ =~= old(s)@ + fmt_groups(a, lo as int, hi as int));
        }
    }
}

fn push_v4_tail(s: &mut String, a: u128)
    ensures
        final(s)@ == old(s)@ + fmt_v4_tail(a),
{
    push_dec_u8(s, byte_exec(a, 12));
    s.push('.');
    push_dec_u8(s, byte_exec(a, 13));
    s.push('.');
    push_dec_u8(s, byte_exec(a, 14));
    s.push('.');
    push_dec_u8(s, byte_exec(a, 15));
    proof {
        assert(final(s)@ =~= old(s)@ + fmt_v4_tail(a));
    }
}

/// The canonical text of an address value.
pub fn format_ipv6(a: u128) -> (r: String)
    ensures
        r@ == canonical_ipv6(a),
{
    let mut s = String::new();
    if (a >> 32u128) == 0xffff {
        s.append("::ffff:");
        proof {
            reveal_strlit("::ffff:");
            assert("::ffff:"@ =~= seq![':', ':', 'f', 'f', 'f', 'f', ':']);
        }
        push_v4_tail(&mut s, a);
        proof {
            assert(s@ =~= canonical_ipv6(a));
        }
        s
    } else {
        let br = best_run_exec(a, 0);
        if br.1 < 2 {
            push_groups(&mut s, a, 0, 8);
            proof {
                assert(s@ =~= canonical_ipv6(a));
            }
            s
        } else {
            push_groups(&mut s, a, 0, br.0);
            s.push(':');
            s.push(':');
            push_groups(&mut s, a, br.0 + br.1, 8);
            proof {
                assert(s@ =~= canonical_ipv6(a));
            }
            s
        }
    }
}

impl crate::addr::Ipv6Address {
    /// The canonical text of this address.
    pub fn to_text(&self) -> (r: String)
        ensures
            r@ == canonical_ipv6(self.bits),
    {
        format_ipv6(self.bits)
    }
}

} // verus!
