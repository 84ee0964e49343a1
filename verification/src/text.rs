//! Text form of addresses: parsing IPv6 literals (including embedded
//! IPv4 tails) and rendering addresses in canonical form.

use vstd::prelude::*;
use vstd::string::StrSliceExecFns;
use crate::addr::Ipv6Address;

verus! {

// ---------------------------------------------------------------------
// Character classes and digit values
// ---------------------------------------------------------------------
pub open spec fn is_dec_digit(c: char) -> bool {
    48 <= c as u32 && c as u32 <= 57
}

pub open spec fn is_hex_digit(c: char) -> bool {
    is_dec_digit(c) || (97 <= c as u32 && c as u32 <= 102) || (65 <= c as u32 && c as u32 <= 70)
}

pub open spec fn hex_val(c: char) -> int {
    if is_dec_digit(c) {
        c as u32 - 48
    } else if 97 <= c as u32 {
        c as u32 - 87
    } else {
        c as u32 - 55
    }
}

pub open spec fn dec_val(c: char) -> int {
    c as u32 - 48
}

fn is_dec_digit_exec(c: char) -> (r: bool)
    ensures
        r == is_dec_digit(c),
{
    let u = c as u32;
    48 <= u && u <= 57
}

fn is_hex_digit_exec(c: char) -> (r: bool)
    ensures
        r == is_hex_digit(c),
{
    let u = c as u32;
    (48 <= u && u <= 57) || (97 <= u && u <= 102) || (65 <= u && u <= 70)
}

fn hex_val_exec(c: char) -> (r: u32)
    requires
        is_hex_digit(c),
    ensures
        r == hex_val(c),
        r < 16,
{
    let u = c as u32;
    if 48 <= u && u <= 57 {
        u - 48
    } else if 97 <= u {
        u - 87
    } else {
        u - 55
    }
}

// ---------------------------------------------------------------------
// Digit-sequence values
// ---------------------------------------------------------------------
/// The value of a sequence of hexadecimal digits read left to right.
pub open spec fn hex_seq_val(t: Seq<char>) -> int
    decreases t.len(),
{
    if t.len() == 0 {
        0
    } else {
        hex_seq_val(t.drop_last()) * 16 + hex_val(t.last())
    }
}

/// The value of a sequence of decimal digits read left to right.
pub open spec fn dec_seq_val(t: Seq<char>) -> int
    decreases t.len(),
{
    if t.len() == 0 {
        0
    } else {
        dec_seq_val(t.drop_last()) * 10 + dec_val(t.last())
    }
}

pub open spec fn all_hex(t: Seq<char>) -> bool {
    forall|i: int| 0 <= i < t.len() ==> is_hex_digit(#[trigger] t[i])
}

pub open spec fn all_dec(t: Seq<char>) -> bool {
    forall|i: int| 0 <= i < t.len() ==> is_dec_digit(#[trigger] t[i])
}

pub proof fn lemma_hex_seq_val_bound(t: Seq<char>)
    requires
        all_hex(t),
        t.len() <= 4,
    ensures
        0 <= hex_seq_val(t),
        t.len() <= 1 ==> hex_seq_val(t) < 0x10,
        t.len() <= 2 ==> hex_seq_val(t) < 0x100,
        t.len() <= 3 ==> hex_seq_val(t) < 0x1000,
        hex_seq_val(t) < 0x10000,
    decreases t.len(),
{
    if t.len() > 0 {
        assert(all_hex(t.drop_last())) by {
            assert(forall|i: int|
                0 <= i < t.len() - 1 ==> #[trigger] t.drop_last()[i] == t[i]);
        }
        lemma_hex_seq_val_bound(t.drop_last());
        assert(0 <= hex_val(t.last()) < 16);
    }
}

pub proof fn lemma_dec_seq_val_bound(t: Seq<char>)
    requires
        all_dec(t),
        t.len() <= 3,
    ensures
        0 <= dec_seq_val(t),
        t.len() <= 1 ==> dec_seq_val(t) < 10,
        t.len() <= 2 ==> dec_seq_val(t) < 100,
        dec_seq_val(t) < 1000,
    decreases t.len(),
{
    if t.len() > 0 {
        assert(all_dec(t.drop_last())) by {
            assert(forall|i: int|
                0 <= i < t.len() - 1 ==> #[trigger] t.drop_last()[i] == t[i]);
        }
        lemma_dec_seq_val_bound(t.drop_last());
        assert(0 <= dec_val(t.last()) < 10);
    }
}

// ---------------------------------------------------------------------
// Searching and splitting
// ---------------------------------------------------------------------
/// Index of the first occurrence of `c` in `s`, or `s.len()` when `c`
/// does not occur.
pub open spec fn find_char(s: Seq<char>, c: char) -> int
    decreases s.len(),
{
    if s.len() == 0 {
        0
    } else if s[0] == c {
        0
    } else {
        1 + find_char(s.skip(1), c)
    }
}

pub proof fn lemma_find_char_props(s: Seq<char>, c: char)
    ensures
        0 <= find_char(s, c) <= s.len(),
        find_char(s, c) < s.len() ==> s[find_char(s, c)] == c,
        forall|j: int| 0 <= j < find_char(s, c) ==> s[j] != c,
    decreases s.len(),
{
    if s.len() > 0 && s[0] != c {
        lemma_find_char_props(s.skip(1), c);
        assert forall|j: int| 0 <= j < find_char(s, c) implies s[j] != c by {
            if j > 0 {
                assert(s.skip(1)[j - 1] == s[j]);
            }
        }
    }
}

/// The pieces of `s` between occurrences of the separator `c`; an empty
/// `s` yields one empty piece, and separators at the ends yield empty
/// pieces there.
pub open spec fn split_on(s: Seq<char>, c: char) -> Seq<Seq<char>>
    decreases s.len(),
{
    let i = find_char(s, c);
    if 0 <= i < s.len() {
        seq![s.take(i)] + split_on(s.skip(i + 1), c)
    } else {
        seq![s]
    }
}

fn take_exec(v: &Vec<char>, n: usize) -> (r: Vec<char>)
    requires
        n <= v.len(),
    ensures
        r@ == v@.take(n as int),
{
    let mut r: Vec<char> = Vec::new();
    let mut i: usize = 0;
    while i < n
        invariant
            i <= n <= v.len(),
            r@ == v@.take(i as int),
        decreases n - i,
    {
        r.push(v[i]);
        i = i + 1;
        proof {
            assert(v@.take(i as int) =~= v@.take(i - 1).push(v@[i - 1]));
        }
    }
    r
}

fn skip_exec(v: &Vec<char>, n: usize) -> (r: Vec<char>)
    requires
        n <= v.len(),
    ensures
        r@ == v@.skip(n as int),
{
    let mut r: Vec<char> = Vec::new();
    let mut i: usize = n;
    while i < v.len()
        invariant
            n <= i <= v.len(),
            r@ == v@.subrange(n as int, i as int),
        decreases v.len() - i,
    {
        r.push(v[i]);
        i = i + 1;
        proof {
            assert(v@.subrange(n as int, i as int) =~= v@.subrange(n as int, i - 1).push(
                v@[i - 1],
            ));
        }
    }
    proof {
        assert(v@.subrange(n as int, v@.len() as int) =~= v@.skip(n as int));
    }
    r
}

proof fn lemma_find_char_is(s: Seq<char>, c: char, r: int)
    requires
        0 <= r <= s.len(),
        forall|j: int| 0 <= j < r ==> s[j] != c,
        r < s.len() ==> s[r] == c,
    ensures
        find_char(s, c) == r,
    decreases s.len(),
{
    if s.len() > 0 && s[0] != c {
        assert(r >= 1);
        assert(forall|j: int| 0 <= j < s.skip(1).len() ==> #[trigger] s.skip(1)[j] == s[j + 1]);
        lemma_find_char_is(s.skip(1), c, r - 1);
    }
}

fn find_char_exec(v: &Vec<char>, c: char) -> (r: usize)
    ensures
        r as int == find_char(v@, c),
{
    let mut i: usize = 0;
    while i < v.len()
        invariant
            i <= v.len(),
            forall|j: int| 0 <= j < i ==> v@[j] != c,
        decreases v.len() - i,
    {
        if v[i] == c {
            proof {
                lemma_find_char_is(v@, c, i as int);
            }
            return i;
        }
        i = i + 1;
    }
    proof {
        lemma_find_char_is(v@, c, v@.len() as int);
    }
    v.len()
}

fn split_exec(v: &Vec<char>, c: char) -> (r: Vec<Vec<char>>)
    ensures
        r@.len() == split_on(v@, c).len(),
        forall|i: int| 0 <= i < r@.len() ==> #[trigger] r@[i]@ == split_on(v@, c)[i],
    decreases v@.len(),
{
    let i = find_char_exec(v, c);
    proof {
        lemma_find_char_props(v@, c);
    }
    if i == v.len() {
        let whole = take_exec(v, v.len());
        proof {
            assert(v@.take(v@.len() as int) =~= v@);
        }
        let mut r: Vec<Vec<char>> = Vec::new();
        r.push(whole);
        r
    } else {
        let head = take_exec(v, i);
        let tail = skip_exec(v, i + 1);
        let mut r = split_exec(&tail, c);
        r.insert(0, head);
        r
    }
}

// ---------------------------------------------------------------------
// Grammar of an IPv6 literal
// ---------------------------------------------------------------------
/// One to four hexadecimal digits.
pub open spec fn is_hex_group(t: Seq<char>) -> bool {
    1 <= t.len() <= 4 && all_hex(t)
}

/// A decimal octet of an embedded IPv4 tail: one to three digits, value
/// at most 255, no leading zero.
pub open spec fn is_dec_octet(t: Seq<char>) -> bool {
    1 <= t.len() <= 3 && all_dec(t) && dec_seq_val(t) <= 255 && (t.len() > 1 ==> t[0] != '0')
}

/// A dotted IPv4 quad: four decimal octets separated by dots.
pub open spec fn is_ipv4_quad(t: Seq<char>) -> bool {
    let os = split_on(t, '.');
    os.len() == 4 && is_dec_octet(os[0]) && is_dec_octet(os[1]) && is_dec_octet(os[2])
        && is_dec_octet(os[3])
}

/// The two 16-bit groups an IPv4 quad stands for.
pub open spec fn ipv4_quad_groups(t: Seq<char>) -> Seq<u16> {
    let os = split_on(t, '.');
    seq![
        (dec_seq_val(os[0]) * 256 + dec_seq_val(os[1])) as u16,
        (dec_seq_val(os[2]) * 256 + dec_seq_val(os[3])) as u16,
    ]
}

/// The groups a colon-separated token list stands for: each token one
/// hexadecimal group, except that the last token of the whole literal
/// may be an IPv4 quad standing for two groups.
pub open spec fn parse_groups(toks: Seq<Seq<char>>, v4_last: bool) -> Option<Seq<u16>>
    decreases toks.len(),
{
    if toks.len() == 0 {
        Some(Seq::empty())
    } else if toks.len() == 1 {
        let t = toks[0];
        if is_hex_group(t) {
            Some(seq![hex_seq_val(t) as u16])
        } else if v4_last && is_ipv4_quad(t) {
            Some(ipv4_quad_groups(t))
        } else {
            None
        }
    } else {
        let t = toks[0];
        if is_hex_group(t) {
            match parse_groups(toks.skip(1), v4_last) {
                Some(gs) => Some(seq![hex_seq_val(t) as u16] + gs),
                None => None,
            }
        } else {
            None
        }
    }
}

/// Index of the first "::" in `s`, or `s.len()` when there is none.
pub open spec fn find_dc(s: Seq<char>) -> int
    decreases s.len(),
{
    if s.len() < 2 {
        s.len() as int
    } else if s[0] == ':' && s[1] == ':' {
        0
    } else {
        1 + find_dc(s.skip(1))
    }
}

pub proof fn lemma_find_dc_props(s: Seq<char>)
    ensures
        0 <= find_dc(s) <= s.len(),
        find_dc(s) < s.len() ==> find_dc(s) + 2 <= s.len() && s[find_dc(s)] == ':' && s[find_dc(s)
            + 1] == ':',
    decreases s.len(),
{
    if s.len() >= 2 && !(s[0] == ':' && s[1] == ':') {
        lemma_find_dc_props(s.skip(1));
        assert(forall|j: int| 0 <= j < s.skip(1).len() ==> #[trigger] s.skip(1)[j] == s[j + 1]);
    }
}

/// A sequence of `n` zero groups.
pub open spec fn zero_groups(n: int) -> Seq<u16> {
    Seq::new(n as nat, |i: int| 0u16)
}

/// The address value of eight 16-bit groups, most significant first.
pub open spec fn groups_to_bits(gs: Seq<u16>) -> u128
    decreases gs.len(),
{
    if gs.len() == 0 {
        0
    } else {
        (groups_to_bits(gs.drop_last()) << 16) | (gs.last() as u128)
    }
}

/// The value of an IPv6 literal: colon-separated hexadecimal groups,
/// at most one "::" standing for the missing zero groups, and an
/// optional dotted IPv4 tail standing for the last two groups.
pub open spec fn parse_ipv6(s: Seq<char>) -> Option<u128> {
    let dc = find_dc(s);
    if !(0 <= dc < s.len()) {
        match parse_groups(split_on(s, ':'), true) {
            Some(gs) => if gs.len() == 8 {
                Some(groups_to_bits(gs))
            } else {
                None
            },
            None => None,
        }
    } else {
        let left = s.take(dc);
        let right = s.skip(dc + 2);
        let lt: Seq<Seq<char>> = if left.len() == 0 {
            Seq::empty()
        } else {
            split_on(left, ':')
        };
        let rt: Seq<Seq<char>> = if right.len() == 0 {
            Seq::empty()
        } else {
            split_on(right, ':')
        };
        match parse_groups(lt, false) {
            Some(lg) => match parse_groups(rt, true) {
                Some(rg) => if lg.len() + rg.len() <= 7 {
                    Some(groups_to_bits(lg + zero_groups(8 - lg.len() - rg.len()) + rg))
                } else {
                    None
                },
                None => None,
            },
            None => None,
        }
    }
}

pub proof fn lemma_groups_to_bits_segs(gs: Seq<u16>)
    requires
        gs.len() <= 8,
    ensures
        gs.len() < 8 ==> (groups_to_bits(gs) >> ((16 * gs.len()) as u128)) == 0,
        forall|k: int|
            0 <= k < gs.len() ==> (groups_to_bits(gs) >> ((16 * (gs.len() - 1 - k)) as u128))
                & 0xffff == gs[k] as u128,
    decreases gs.len(),
{
    if gs.len() == 0 {
        assert(groups_to_bits(gs) == 0);
        assert((0u128 >> 0u128) == 0) by (bit_vector);
        assert(((16 * gs.len()) as u128) == 0u128);
    } else {
        let ds = gs.drop_last();
        lemma_groups_to_bits_segs(ds);
        let b = groups_to_bits(ds);
        let l = gs.last();
        let m = ds.len() as u8;
        assert(((16 * m) as u8) as u128 == (16 * ds.len()) as u128);
        if gs.len() < 8 {
            assert(((b << 16) | (l as u128)) >> (((16 * (m + 1)) as u8) as u128) == 0)
                by (bit_vector)
                requires
                    m <= 6,
                    b >> (((16 * m) as u8) as u128) == 0,
            ;
            assert((16 * gs.len()) as u128 == ((16 * (m + 1)) as u8) as u128);
        }
        assert forall|k: int|
            0 <= k < gs.len() implies (groups_to_bits(gs) >> ((16 * (gs.len() - 1 - k)) as u128))
            & 0xffff == gs[k] as u128 by {
            if k == gs.len() - 1 {
                assert(((b << 16) | (l as u128)) >> 0u128 & 0xffff == l as u128) by (bit_vector);
                assert((16 * (gs.len() - 1 - k)) as u128 == 0u128);
            } else {
                let k8 = k as u8;
                assert(((b << 16) | (l as u128)) >> (((16 * (m - k8)) as u8) as u128) & 0xffff == (
                b >> (((16 * ((m - 1) - k8)) as u8) as u128)) & 0xffff) by (bit_vector)
                    requires
                        m <= 7,
                        k8 < m,
                        b >> (((16 * m) as u8) as u128) == 0,
                ;
                assert((16 * (gs.len() - 1 - k)) as u128 == ((16 * (m - k8)) as u8) as u128);
                assert((16 * (ds.len() - 1 - k)) as u128 == ((16 * ((m - 1) - k8)) as u8)
                    as u128);
                assert(ds[k] == gs[k]);
            }
        }
    }
}

/// The eight groups a literal lists are exactly the 16-bit segments of
/// the address value it stands for, in the same order.
pub proof fn lemma_groups_are_segments(gs: Seq<u16>)
    requires
        gs.len() == 8,
    ensures
        forall|k: int| 0 <= k < 8 ==> crate::addr::seg_of(groups_to_bits(gs), k) == gs[k],
{
    lemma_groups_to_bits_segs(gs);
    assert forall|k: int| 0 <= k < 8 implies crate::addr::seg_of(groups_to_bits(gs), k)
        == gs[k] by {
        let a = groups_to_bits(gs);
        let g = gs[k];
        assert((a >> ((16 * (7 - k)) as u128)) & 0xffff == g as u128);
        assert(((g as u128) & 0xffff) as u16 == g) by (bit_vector);
    }
}

// ---------------------------------------------------------------------
// Executable parser
// ---------------------------------------------------------------------
/// The views of a sequence of character vectors.
pub open spec fn views_of(toks: Seq<Vec<char>>) -> Seq<Seq<char>> {
    Seq::new(toks.len(), |i: int| toks[i]@)
}

fn parse_hex_group_exec(t: &Vec<char>) -> (r: Option<u16>)
    ensures
        (r is Some) == is_hex_group(t@),
        r matches Some(v) ==> v as int == hex_seq_val(t@),
{
    if t.len() == 0 || t.len() > 4 {
        return None;
    }
    let mut acc: u32 = 0;
    let mut i: usize = 0;
    while i < t.len()
        invariant
            i <= t.len() <= 4,
            forall|j: int| 0 <= j < i ==> is_hex_digit(#[trigger] t@[j]),
            acc == hex_seq_val(t@.take(i as int)),
            acc < 0x10000,
        decreases t.len() - i,
    {
        if !is_hex_digit_exec(t[i]) {
            return None;
        }
        proof {
            assert(all_hex(t@.take(i as int)));
            lemma_hex_seq_val_bound(t@.take(i as int));
            assert(t@.take(i + 1).drop_last() =~= t@.take(i as int));
            assert(t@.take(i + 1).last() == t@[i as int]);
        }
        acc = acc * 16 + hex_val_exec(t[i]);
        i = i + 1;
    }
    proof {
        assert(t@.take(t@.len() as int) =~= t@);
    }
    Some(acc as u16)
}

fn parse_dec_octet_exec(t: &Vec<char>) -> (r: Option<u8>)
    ensures
        (r is Some) == is_dec_octet(t@),
        r matches Some(v) ==> v as int == dec_seq_val(t@),
{
    if t.len() == 0 || t.len() > 3 {
        return None;
    }
    if t.len() > 1 && t[0] == '0' {
        return None;
    }
    let mut acc: u32 = 0;
    let mut i: usize = 0;
    while i < t.len()
        invariant
            i <= t.len() <= 3,
            forall|j: int| 0 <= j < i ==> is_dec_digit(#[trigger] t@[j]),
            acc == dec_seq_val(t@.take(i as int)),
            acc < 1000,
        decreases t.len() - i,
    {
        if !is_dec_digit_exec(t[i]) {
            return None;
        }
        proof {
            assert(all_dec(t@.take(i as int)));
            lemma_dec_seq_val_bound(t@.take(i as int));
            assert(t@.take(i + 1).drop_last() =~= t@.take(i as int));
            assert(t@.take(i + 1).last() == t@[i as int]);
        }
        acc = acc * 10 + (t[i] as u32 - 48);
        i = i + 1;
    }
    proof {
        assert(t@.take(t@.len() as int) =~= t@);
    }
    if acc > 255 {
        return None;
    }
    Some(acc as u8)
}

fn parse_ipv4_quad_exec(t: &Vec<char>) -> (r: Option<(u16, u16)>)
    ensures
        (r is Some) == is_ipv4_quad(t@),
        r matches Some(v) ==> is_ipv4_quad(t@) && seq![v.0, v.1] == ipv4_quad_groups(t@),
{
    let os = split_exec(t, '.');
    if os.len() != 4 {
        return None;
    }
    let a = parse_dec_octet_exec(&os[0]);
    let b = parse_dec_octet_exec(&os[1]);
    let c = parse_dec_octet_exec(&os[2]);
    let d = parse_dec_octet_exec(&os[3]);
    match (a, b, c, d) {
        (Some(a), Some(b), Some(c), Some(d)) => {
            let hi: u16 = (a as u16) * 256 + (b as u16);
            let lo: u16 = (c as u16) * 256 + (d as u16);
            proof {
                assert(seq![hi, lo] =~= ipv4_quad_groups(t@));
            }
            Some((hi, lo))
        },
        _ => None,
    }
}

fn parse_groups_exec(toks: &Vec<Vec<char>>, start: usize, v4_last: bool) -> (r: Option<Vec<u16>>)
    requires
        start <= toks.len(),
    ensures
        (r is Some) == (parse_groups(views_of(toks@).skip(start as int), v4_last) is Some),
        r matches Some(v) ==> parse_groups(views_of(toks@).skip(start as int), v4_last) == Some(
            v@,
        ),
    decreases toks.len() - start,
{
    let ghost tv = views_of(toks@).skip(start as int);
    if start == toks.len() {
        proof {
            assert(tv =~= Seq::<Seq<char>>::empty());
        }
        Some(Vec::new())
    } else if start == toks.len() - 1 {
        proof {
            assert(tv.len() == 1);
            assert(tv[0] == toks@[start as int]@);
        }
        match parse_hex_group_exec(&toks[start]) {
            Some(v) => {
                let mut res: Vec<u16> = Vec::new();
                res.push(v);
                proof {
                    assert(res@ =~= seq![hex_seq_val(tv[0]) as u16]);
                }
                Some(res)
            },
            None => {
                if v4_last {
                    match parse_ipv4_quad_exec(&toks[start]) {
                        Some((hi, lo)) => {
                            let mut res: Vec<u16> = Vec::new();
                            res.push(hi);
                            res.push(lo);
                            proof {
                                assert(res@ =~= ipv4_quad_groups(tv[0]));
                            }
                            Some(res)
                        },
                        None => None,
                    }
                } else {
                    None
                }
            },
        }
    } else {
        proof {
            assert(tv.len() >= 2);
            assert(tv[0] == toks@[start as int]@);
            assert(tv.skip(1) =~= views_of(toks@).skip(start + 1));
        }
        match parse_hex_group_exec(&toks[start]) {
            Some(v) => {
                match parse_groups_exec(toks, start + 1, v4_last) {
                    Some(rest) => {
                        let mut res: Vec<u16> = Vec::new();
                        res.push(v);
                        let mut rest = rest;
                        res.append(&mut rest);
                        proof {
                            assert(res@ =~= seq![hex_seq_val(tv[0]) as u16]
                                + parse_groups(tv.skip(1), v4_last).unwrap());
                        }
                        Some(res)
                    },
                    None => None,
                }
            },
            None => None,
        }
    }
}

proof fn lemma_find_dc_is(s: Seq<char>, r: int)
    requires
        0 <= r <= s.len(),
        forall|j: int| 0 <= j < r ==> !(j + 1 < s.len() && #[trigger] s[j] == ':' && s[j + 1] == ':'),
        r < s.len() ==> r + 1 < s.len() && s[r] == ':' && s[r + 1] == ':',
    ensures
        find_dc(s) == r,
    decreases s.len(),
{
    if s.len() < 2 {
        assert(r == s.len());
    } else if s[0] == ':' && s[1] == ':' {
        assert(r == 0);
    } else {
        assert(r >= 1);
        assert(forall|j: int| 0 <= j < s.skip(1).len() ==> #[trigger] s.skip(1)[j] == s[j + 1]);
        lemma_find_dc_is(s.skip(1), r - 1);
    }
}

fn find_dc_exec(v: &Vec<char>) -> (r: usize)
    ensures
        r as int == find_dc(v@),
{
    if v.len() < 2 {
        proof {
            lemma_find_dc_is(v@, v@.len() as int);
        }
        return v.len();
    }
    let mut i: usize = 0;
    while i < v.len() - 1
        invariant
            i <= v.len(),
            v.len() >= 2,
            forall|j: int| 0 <= j < i ==> !(j + 1 < v@.len() && #[trigger] v@[j] == ':' && v@[j + 1] == ':'),
        decreases v.len() - i,
    {
        if v[i] == ':' && v[i + 1] == ':' {
            proof {
                lemma_find_dc_is(v@, i as int);
            }
            return i;
        }
        i = i + 1;
    }
    proof {
        lemma_find_dc_is(v@, v@.len() as int);
    }
    v.len()
}

fn groups_to_bits_exec(gs: &Vec<u16>) -> (r: u128)
    requires
        gs.len() <= 8,
    ensures
        r == groups_to_bits(gs@),
{
    let mut acc: u128 = 0;
    let mut i: usize = 0;
    while i < gs.len()
        invariant
            i <= gs.len(),
            acc == groups_to_bits(gs@.take(i as int)),
        decreases gs.len() - i,
    {
        proof {
            assert(gs@.take(i + 1).drop_last() =~= gs@.take(i as int));
            assert(gs@.take(i + 1).last() == gs@[i as int]);
        }
        acc = (acc << 16u128) | (gs[i] as u128);
        i = i + 1;
    }
    proof {
        assert(gs@.take(gs@.len() as int) =~= gs@);
    }
    acc
}

/// The value of an IPv6 literal held in a character vector, or `None`
/// where the characters do not form a literal.
pub fn parse_ipv6_chars(v: &Vec<char>) -> (r: Option<u128>)
    ensures
        r == parse_ipv6(v@),
{
    let dc = find_dc_exec(v);
    proof {
        lemma_find_dc_props(v@);
    }
    if dc == v.len() {
        let toks = split_exec(v, ':');
        proof {
            assert(views_of(toks@) =~= split_on(v@, ':'));
            assert(views_of(toks@).skip(0) =~= views_of(toks@));
        }
        match parse_groups_exec(&toks, 0, true) {
            Some(gs) => {
                if gs.len() == 8 {
                    Some(groups_to_bits_exec(&gs))
                } else {
                    None
                }
            },
            None => None,
        }
    } else {
        let left = take_exec(v, dc);
        let right = skip_exec(v, dc + 2);
        let lt: Vec<Vec<char>> = if left.len() == 0 {
            Vec::new()
        } else {
            split_exec(&left, ':')
        };
        let rt: Vec<Vec<char>> = if right.len() == 0 {
            Vec::new()
        } else {
            split_exec(&right, ':')
        };
        proof {
            if left@.len() == 0 {
                assert(views_of(lt@) =~= Seq::<Seq<char>>::empty());
            } else {
                assert(views_of(lt@) =~= split_on(left@, ':'));
            }
            if right@.len() == 0 {
                assert(views_of(rt@) =~= Seq::<Seq<char>>::empty());
            } else {
                assert(views_of(rt@) =~= split_on(right@, ':'));
            }
            assert(views_of(lt@).skip(0) =~= views_of(lt@));
            assert(views_of(rt@).skip(0) =~= views_of(rt@));
        }
        match parse_groups_exec(&lt, 0, false) {
            Some(lg) => {
                match parse_groups_exec(&rt, 0, true) {
                    Some(rg) => {
                        if lg.len() <= 7 && rg.len() <= 7 - lg.len() {
                            let mut gs = lg;
                            let zeros: usize = 8 - gs.len() - rg.len();
                            let mut k: usize = 0;
                            while k < zeros
                                invariant
                                    k <= zeros,
                                    gs@ =~= parse_groups(
                                        views_of(lt@).skip(0),
                                        false,
                                    ).unwrap() + zero_groups(k as int),
                                decreases zeros - k,
                            {
                                gs.push(0u16);
                                k = k + 1;
                            }
                            let mut rg = rg;
                            let ghost rgv = rg@;
                            gs.append(&mut rg);
                            proof {
                                let lgv = parse_groups(views_of(lt@).skip(0), false).unwrap();
                                assert(gs@ =~= lgv + zero_groups(8 - lgv.len() - rgv.len())
                                    + rgv);
                            }
                            Some(groups_to_bits_exec(&gs))
                        } else {
                            None
                        }
                    },
                    None => None,
                }
            },
            None => None,
        }
    }
}

/// Character-for-character equality of two string slices.
pub fn str_eq(a: &str, b: &str) -> (r: bool)
    ensures
        r == (a@ == b@),
{
    let la = a.unicode_len();
    let lb = b.unicode_len();
    if la != lb {
        return false;
    }
    let mut i: usize = 0;
    while i < la
        invariant
            i <= la,
            la == a@.len(),
            la == b@.len(),
            forall|j: int| 0 <= j < i ==> a@[j] == b@[j],
        decreases la - i,
    {
        if a.get_char(i) != b.get_char(i) {
            return false;
        }
        i = i + 1;
    }
    proof {
        assert(a@ =~= b@);
    }
    true
}

/// The characters of a string slice, in order.
pub fn chars_of(s: &str) -> (v: Vec<char>)
    ensures
        v@ == s@,
{
    let n = s.unicode_len();
    let mut v: Vec<char> = Vec::new();
    let mut i: usize = 0;
    while i < n
        invariant
            i <= n,
            n == s@.len(),
            v@ == s@.take(i as int),
        decreases n - i,
    {
        v.push(s.get_char(i));
        i = i + 1;
        proof {
            assert(s@.take(i as int) =~= s@.take(i - 1).push(s@[i - 1]));
        }
    }
    proof {
        assert(s@.take(n as int) =~= s@);
    }
    v
}

impl Ipv6Address {
    /// The address an IPv6 literal stands for, or `None` where the text
    /// is not a literal.
    pub fn from_text(s: &str) -> (r: Option<Ipv6Address>)
        ensures
            (r is Some) == (parse_ipv6(s@) is Some),
            r matches Some(a) ==> parse_ipv6(s@) == Some(a.bits),
    {
        let v = chars_of(s);
        match parse_ipv6_chars(&v) {
            Some(bits) => Some(Ipv6Address { bits }),
            None => None,
        }
    }
}

} // verus!
