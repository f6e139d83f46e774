//! Textual IP addresses: the dotted-decimal IPv4 form and the colon-separated
//! IPv6 form (with `::` compression and a trailing embedded IPv4 address), as
//! accepted when a host name is read as an address.
use vstd::prelude::*;

use crate::text::{
    char_pos, find_char, find_pattern, has_pattern, lemma_char_pos_contains, pattern_pos,
};

verus! {

pub open spec fn is_dec_digit(c: char) -> bool {
    '0' <= c && c <= '9'
}

pub open spec fn is_hex_digit(c: char) -> bool {
    ('0' <= c && c <= '9') || ('a' <= c && c <= 'f') || ('A' <= c && c <= 'F')
}

pub open spec fn hex_digit_value(c: char) -> nat {
    if '0' <= c && c <= '9' {
        (c as int - '0' as int) as nat
    } else if 'a' <= c && c <= 'f' {
        (c as int - 'a' as int + 10) as nat
    } else {
        (c as int - 'A' as int + 10) as nat
    }
}

/// The value of the digit string `s` in base `radix` (10 or 16).
pub open spec fn digits_value(s: Seq<char>, radix: nat) -> nat
    decreases s.len(),
{
    if s.len() == 0 {
        0
    } else {
        digits_value(s.drop_last(), radix) * radix + hex_digit_value(s.last())
    }
}

/// A decimal octet as written in an IPv4 address: one to three decimal
/// digits, no leading zero unless the octet is `0`, value at most 255.
pub open spec fn is_octet_text(s: Seq<char>) -> bool {
    &&& 1 <= s.len() <= 3
    &&& forall|i: int| 0 <= i < s.len() ==> is_dec_digit(#[trigger] s[i])
    &&& (s.len() == 1 || s[0] != '0')
    &&& digits_value(s, 10) <= 255
}

/// A group as written in an IPv6 address: one to four hexadecimal digits.
pub open spec fn is_group_text(s: Seq<char>) -> bool {
    &&& 1 <= s.len() <= 4
    &&& forall|i: int| 0 <= i < s.len() ==> is_hex_digit(#[trigger] s[i])
}

/// The four octets of an IPv4 address.
#[derive(Debug, Clone, Copy, PartialEq, Eq, Structural)]
pub struct Ipv4Octets {
    pub a: u8,
    pub b: u8,
    pub c: u8,
    pub d: u8,
}

/// The octets that `s` denotes as a dotted-decimal IPv4 address: exactly
/// four octet texts separated by single dots.
pub open spec fn ipv4_of(s: Seq<char>) -> Option<Ipv4Octets> {
    let p1 = char_pos(s, '.');
    let r1 = s.skip(p1 + 1 as int);
    let p2 = char_pos(r1, '.');
    let r2 = r1.skip(p2 + 1 as int);
    let p3 = char_pos(r2, '.');
    let r3 = r2.skip(p3 + 1 as int);
    if p1 < s.len() && p2 < r1.len() && p3 < r2.len() && !r3.contains('.') && is_octet_text(
        s.take(p1 as int),
    ) && is_octet_text(r1.take(p2 as int)) && is_octet_text(r2.take(p3 as int)) && is_octet_text(
        r3,
    ) {
        Some(
            Ipv4Octets {
                a: digits_value(s.take(p1 as int), 10) as u8,
                b: digits_value(r1.take(p2 as int), 10) as u8,
                c: digits_value(r2.take(p3 as int), 10) as u8,
                d: digits_value(r3, 10) as u8,
            },
        )
    } else {
        None
    }
}

/// The 16-bit groups of a non-empty `:`-separated list of IPv6 groups; when
/// `allow_v4` holds, the last item may instead be an IPv4 address, which
/// stands for two groups.
pub open spec fn group_list(s: Seq<char>, allow_v4: bool) -> Option<Seq<u16>>
    decreases s.len(),
{
    let p = char_pos(s, ':');
    if p < s.len() {
        if is_group_text(s.take(p as int)) {
            match group_list(s.skip(p + 1 as int), allow_v4) {
                Some(rest) => Some(seq![digits_value(s.take(p as int), 16) as u16] + rest),
                None => None,
            }
        } else {
            None
        }
    } else if is_group_text(s) {
        Some(seq![digits_value(s, 16) as u16])
    } else if allow_v4 {
        match ipv4_of(s) {
            Some(o) => Some(seq![(o.a * 256 + o.b) as u16, (o.c * 256 + o.d) as u16]),
            None => None,
        }
    } else {
        None
    }
}

/// A possibly empty list of groups (no embedded IPv4 address).
pub open spec fn opt_group_list(s: Seq<char>, allow_v4: bool) -> Option<Seq<u16>> {
    if s.len() == 0 {
        Some(Seq::empty())
    } else {
        group_list(s, allow_v4)
    }
}

pub open spec fn double_colon() -> Seq<char> {
    seq![':', ':']
}

/// The eight 16-bit groups that `s` denotes as an IPv6 address: either a
/// full list of eight groups (the last two may be written as an IPv4
/// address), or a head and a tail around the first `::`, which stands for
/// as many zero groups as make eight, at least one.
pub open spec fn ipv6_of(s: Seq<char>) -> Option<Seq<u16>> {
    if has_pattern(s, double_colon()) {
        let p = pattern_pos(s, double_colon());
        let head = opt_group_list(s.take(p as int), false);
        let tail = opt_group_list(s.skip(p + 2 as int), true);
        match (head, tail) {
            (Some(h), Some(t)) => if h.len() + t.len() <= 7 {
                Some(h + Seq::new((8 - h.len() - t.len()) as nat, |i: int| 0u16) + t)
            } else {
                None
            },
            _ => None,
        }
    } else {
        match group_list(s, true) {
            Some(g) => if g.len() == 8 {
                Some(g)
            } else {
                None
            },
            None => None,
        }
    }
}

/// Dropping or keeping the first `k` characters of a range is a range.
pub proof fn lemma_subrange_skip(v: Seq<char>, lo: int, hi: int, k: int)
    requires
        0 <= lo <= hi <= v.len(),
        0 <= k <= hi - lo,
    ensures
        v.subrange(lo, hi).skip(k) == v.subrange(lo + k, hi),
        v.subrange(lo, hi).take(k) == v.subrange(lo, lo + k),
{
    assert(v.subrange(lo, hi).skip(k) =~= v.subrange(lo + k, hi));
    assert(v.subrange(lo, hi).take(k) =~= v.subrange(lo, lo + k));
}

/// The value of the digit `c` in base `radix`, if it is such a digit.
fn digit_in(c: char, radix: u32) -> (r: Option<u32>)
    requires
        radix == 10 || radix == 16,
    ensures
        r is Some <==> (if radix == 10 {
            is_dec_digit(c)
        } else {
            is_hex_digit(c)
        }),
        r is Some ==> r->0 == hex_digit_value(c) && r->0 < radix,
{
    if '0' <= c && c <= '9' {
        Some((c as u32) - ('0' as u32))
    } else if radix == 16 && 'a' <= c && c <= 'f' {
        Some((c as u32) - ('a' as u32) + 10)
    } else if radix == 16 && 'A' <= c && c <= 'F' {
        Some((c as u32) - ('A' as u32) + 10)
    } else {
        None
    }
}

/// Reads `v[lo..hi]` as a number of at most `max` digits in base `radix`.
fn read_digits(v: &Vec<char>, lo: usize, hi: usize, radix: u32, max: usize) -> (r: Option<u32>)
    requires
        lo <= hi <= v@.len(),
        radix == 10 || radix == 16,
        max <= 4,
    ensures
        ({
            let s = v@.subrange(lo as int, hi as int);
            let ok = 1 <= s.len() <= max && forall|i: int|
                0 <= i < s.len() ==> (if radix == 10 {
                    is_dec_digit(#[trigger] s[i])
                } else {
                    is_hex_digit(s[i])
                });
            &&& r is Some <==> ok
            &&& r is Some ==> r->0 == digits_value(s, radix as nat) && r->0 < 65536
        }),
{
    let ghost s = v@.subrange(lo as int, hi as int);
    if hi == lo || hi - lo > max {
        return None;
    }
    let mut val: u32 = 0;
    proof {
        assert(v@.subrange(lo as int, lo as int) =~= Seq::<char>::empty());
    }
    let mut i = lo;
    while i < hi
        invariant
            lo <= i <= hi,
            hi <= v@.len(),
            hi - lo <= max,
            max <= 4,
            radix == 10 || radix == 16,
            s == v@.subrange(lo as int, hi as int),
            forall|j: int|
                0 <= j < i - lo ==> (if radix == 10 {
                    is_dec_digit(#[trigger] s[j])
                } else {
                    is_hex_digit(s[j])
                }),
            val == digits_value(v@.subrange(lo as int, i as int), radix as nat),
            val < pow_bound(radix as nat, (i - lo) as nat),
            pow_bound(radix as nat, (i - lo) as nat) <= 65536,
        decreases hi - i,
    {
        match digit_in(v[i], radix) {
            Some(d) => {
                proof {
                    assert(v@.subrange(lo as int, i + 1).drop_last() =~= v@.subrange(
                        lo as int,
                        i as int,
                    ));
                    assert(s[i - lo] == v@[i as int]);
                    lemma_pow_bound_step(radix as nat, (i - lo) as nat, val as nat, d as nat);
                    lemma_pow_bound_max(radix as nat, (i + 1 - lo) as nat);
                }
                val = val * radix + d;
                i += 1;
            },
            None => {
                proof {
                    assert(s[i - lo] == v@[i as int]);
                }
                return None;
            },
        }
    }
    Some(val)
}

/// `radix` raised to `n`.
pub open spec fn pow_bound(radix: nat, n: nat) -> nat
    decreases n,
{
    if n == 0 {
        1
    } else {
        radix * pow_bound(radix, (n - 1) as nat)
    }
}

proof fn lemma_pow_bound_step(radix: nat, n: nat, val: nat, d: nat)
    requires
        val < pow_bound(radix, n),
        d < radix,
    ensures
        val * radix + d < pow_bound(radix, n + 1),
{
    assert(pow_bound(radix, n + 1) == radix * pow_bound(radix, n));
    assert(val * radix + d < radix * pow_bound(radix, n)) by (nonlinear_arith)
        requires
            val < pow_bound(radix, n),
            d < radix,
    ;
}

proof fn lemma_pow_bound_mono(radix: nat, n: nat)
    requires
        radix <= 16,
    ensures
        pow_bound(radix, n) <= pow_bound(16, n),
    decreases n,
{
    if n > 0 {
        lemma_pow_bound_mono(radix, (n - 1) as nat);
        let a = pow_bound(radix, (n - 1) as nat);
        let b = pow_bound(16, (n - 1) as nat);
        assert(radix * a <= 16 * b) by (nonlinear_arith)
            requires
                radix <= 16,
                a <= b,
        ;
    }
}

proof fn lemma_pow_bound_max(radix: nat, n: nat)
    requires
        radix <= 16,
        n <= 4,
    ensures
        pow_bound(radix, n) <= 65536,
{
    lemma_pow_bound_mono(radix, n);
    assert(pow_bound(16, 0) == 1);
    assert(pow_bound(16, 1) == 16);
    assert(pow_bound(16, 2) == 256);
    assert(pow_bound(16, 3) == 4096);
    assert(pow_bound(16, 4) == 65536);
}

/// Reads `v[lo..hi]` as an IPv4 octet.
fn read_octet(v: &Vec<char>, lo: usize, hi: usize) -> (r: Option<u8>)
    requires
        lo <= hi <= v@.len(),
    ensures
        r is Some <==> is_octet_text(v@.subrange(lo as int, hi as int)),
        r is Some ==> r->0 == digits_value(v@.subrange(lo as int, hi as int), 10),
{
    let ghost s = v@.subrange(lo as int, hi as int);
    if hi - lo > 1 && v[lo] == '0' {
        assert(s[0] == v@[lo as int]);
        return None;
    }
    match read_digits(v, lo, hi, 10, 3) {
        Some(x) => {
            if x <= 255 {
                proof {
                    if s.len() > 1 {
                        assert(s[0] == v@[lo as int]);
                    }
                }
                Some(x as u8)
            } else {
                None
            }
        },
        None => None,
    }
}

/// Reads `v[lo..hi]` as a dotted-decimal IPv4 address.
#[verifier::rlimit(40)]
pub fn read_ipv4(v: &Vec<char>, lo: usize, hi: usize) -> (r: Option<Ipv4Octets>)
    requires
        lo <= hi <= v@.len(),
    ensures
        r == ipv4_of(v@.subrange(lo as int, hi as int)),
{
    let ghost s = v@.subrange(lo as int, hi as int);
    let i1 = find_char(v, lo, hi, '.');
    if i1 == hi {
        return None;
    }
    let i2 = find_char(v, i1 + 1, hi, '.');
    proof {
        lemma_subrange_skip(v@, lo as int, hi as int, i1 - lo + 1);
    }
    if i2 == hi {
        return None;
    }
    let i3 = find_char(v, i2 + 1, hi, '.');
    proof {
        lemma_subrange_skip(v@, i1 + 1, hi as int, i2 - i1);
    }
    if i3 == hi {
        return None;
    }
    let i4 = find_char(v, i3 + 1, hi, '.');
    proof {
        lemma_subrange_skip(v@, i2 + 1, hi as int, i3 - i2);
        lemma_char_pos_contains(v@.subrange(i3 + 1, hi as int), '.');
        lemma_subrange_skip(v@, lo as int, hi as int, i1 - lo);
        lemma_subrange_skip(v@, i1 + 1, hi as int, i2 - i1 - 1);
        lemma_subrange_skip(v@, i2 + 1, hi as int, i3 - i2 - 1);
    }
    if i4 != hi {
        return None;
    }
    let a = read_octet(v, lo, i1);
    let b = read_octet(v, i1 + 1, i2);
    let c = read_octet(v, i2 + 1, i3);
    let d = read_octet(v, i3 + 1, hi);
    match (a, b, c, d) {
        (Some(a), Some(b), Some(c), Some(d)) => Some(Ipv4Octets { a, b, c, d }),
        _ => None,
    }
}

/// Reads `v[lo..hi]` as a non-empty list of IPv6 groups (the last item may
/// be an IPv4 address when `allow_v4` holds), appending the groups to `out`.
fn read_group_list(
    v: &Vec<char>,
    lo: usize,
    hi: usize,
    allow_v4: bool,
    out: &mut Vec<u16>,
) -> (ok: bool)
    requires
        lo <= hi <= v@.len(),
    ensures
        ok == group_list(v@.subrange(lo as int, hi as int), allow_v4) is Some,
        ok ==> final(out)@ == old(out)@ + group_list(
            v@.subrange(lo as int, hi as int),
            allow_v4,
        )->0,
    decreases hi - lo,
{
    let ghost s = v@.subrange(lo as int, hi as int);
    let p = find_char(v, lo, hi, ':');
    proof {
        lemma_subrange_skip(v@, lo as int, hi as int, p - lo);
    }
    if p < hi {
        proof {
            lemma_subrange_skip(v@, lo as int, hi as int, p - lo + 1);
        }
        match read_digits(v, lo, p, 16, 4) {
            Some(g) => {
                out.push(g as u16);
                let ok = read_group_list(v, p + 1, hi, allow_v4, out);
                proof {
                    if ok {
                        let rest = group_list(v@.subrange(p + 1, hi as int), allow_v4)->0;
                        assert(final(out)@ =~= old(out)@ + (seq![
                            digits_value(s.take(p - lo), 16) as u16,
                        ] + rest));
                    }
                }
                ok
            },
            None => false,
        }
    } else {
        assert(s.take(p - lo) =~= s);
        match read_digits(v, lo, hi, 16, 4) {
            Some(g) => {
                out.push(g as u16);
                true
            },
            None => {
                if allow_v4 {
                    match read_ipv4(v, lo, hi) {
                        Some(o) => {
                            out.push((o.a as u16) * 256 + (o.b as u16));
                            out.push((o.c as u16) * 256 + (o.d as u16));
                            true
                        },
                        None => false,
                    }
                } else {
                    false
                }
            },
        }
    }
}

/// Reads `v[lo..hi]` as a possibly empty list of IPv6 groups.
fn read_opt_group_list(v: &Vec<char>, lo: usize, hi: usize, allow_v4: bool) -> (r: Option<
    Vec<u16>,
>)
    requires
        lo <= hi <= v@.len(),
    ensures
        r is Some == opt_group_list(v@.subrange(lo as int, hi as int), allow_v4) is Some,
        r is Some ==> r->0@ == opt_group_list(v@.subrange(lo as int, hi as int), allow_v4)->0,
{
    let mut out: Vec<u16> = Vec::new();
    if lo == hi {
        return Some(out);
    }
    if read_group_list(v, lo, hi, allow_v4, &mut out) {
        assert(out@ =~= Seq::<u16>::empty() + opt_group_list(
            v@.subrange(lo as int, hi as int),
            allow_v4,
        )->0);
        Some(out)
    } else {
        None
    }
}

/// Reads `v[lo..hi]` as an IPv6 address, giving its eight groups.
pub fn read_ipv6(v: &Vec<char>, lo: usize, hi: usize) -> (r: Option<Vec<u16>>)
    requires
        lo <= hi <= v@.len(),
    ensures
        r is Some == ipv6_of(v@.subrange(lo as int, hi as int)) is Some,
        r is Some ==> r->0@ == ipv6_of(v@.subrange(lo as int, hi as int))->0,
{
    let ghost s = v@.subrange(lo as int, hi as int);
    let dc: Vec<char> = vec![':', ':'];
    assert(dc@ =~= double_colon());
    let p = find_pattern(v, lo, hi, &dc);
    if hi - p >= 2 {
        proof {
            lemma_subrange_skip(v@, lo as int, hi as int, p - lo);
            lemma_subrange_skip(v@, lo as int, hi as int, p - lo + 2);
        }
        let head = read_opt_group_list(v, lo, p, false);
        let tail = read_opt_group_list(v, p + 2, hi, true);
        match (head, tail) {
            (Some(h), Some(t)) => {
                if h.len() > 7 || t.len() > 7 - h.len() {
                    return None;
                }
                let zeros = 8 - h.len() - t.len();
                let mut g = h;
                let ghost hv = g@;
                let mut k: usize = 0;
                while k < zeros
                    invariant
                        k <= zeros,
                        g@ == hv + Seq::new(k as nat, |i: int| 0u16),
                    decreases zeros - k,
                {
                    g.push(0);
                    k += 1;
                    proof {
                        assert(g@ =~= hv + Seq::new(k as nat, |i: int| 0u16));
                    }
                }
                let ghost gz = g@;
                let mut j: usize = 0;
                while j < t.len()
                    invariant
                        j <= t@.len(),
                        g@ == gz + t@.take(j as int),
                    decreases t@.len() - j,
                {
                    g.push(t[j]);
                    j += 1;
                    proof {
                        assert(g@ =~= gz + t@.take(j as int));
                    }
                }
                proof {
                    assert(t@.take(t@.len() as int) =~= t@);
                }
                Some(g)
            },
            _ => None,
        }
    } else {
        let mut g: Vec<u16> = Vec::new();
        if read_group_list(v, lo, hi, true, &mut g) && g.len() == 8 {
            assert(g@ =~= group_list(s, true)->0);
            Some(g)
        } else {
            None
        }
    }
}

/// Whether `c` is a digit in base `radix` (8, 10 or 16).
pub open spec fn is_radix_digit(c: char, radix: nat) -> bool {
    if radix == 8 {
        '0' <= c && c <= '7'
    } else if radix == 10 {
        is_dec_digit(c)
    } else {
        is_hex_digit(c)
    }
}

pub open spec fn all_radix_digits(s: Seq<char>, radix: nat) -> bool {
    forall|i: int| 0 <= i < s.len() ==> is_radix_digit(#[trigger] s[i], radix)
}

/// A number in a host written in IPv4 style: `0x` or `0X` and hexadecimal
/// digits (none at all reads as 0), `0` and octal digits, or decimal digits.
pub open spec fn ipv4_number(p: Seq<char>) -> Option<nat> {
    if p.len() == 0 {
        None
    } else if p.len() >= 2 && p[0] == '0' && (p[1] == 'x' || p[1] == 'X') {
        if all_radix_digits(p.skip(2), 16) {
            Some(digits_value(p.skip(2), 16))
        } else {
            None
        }
    } else if p.len() >= 2 && p[0] == '0' {
        if all_radix_digits(p.skip(1), 8) {
            Some(digits_value(p.skip(1), 8))
        } else {
            None
        }
    } else if all_radix_digits(p, 10) {
        Some(digits_value(p, 10))
    } else {
        None
    }
}

/// The pieces of `t` between dots.
pub open spec fn split_dots(t: Seq<char>) -> Seq<Seq<char>>
    decreases t.len(),
{
    if char_pos(t, '.') < t.len() {
        seq![t.take(char_pos(t, '.') as int)] + split_dots(t.skip(char_pos(t, '.') + 1 as int))
    } else {
        seq![t]
    }
}

/// The numbers of the pieces, when every piece is one.
pub open spec fn piece_numbers(ps: Seq<Seq<char>>) -> Option<Seq<nat>> {
    if forall|i: int| 0 <= i < ps.len() ==> (#[trigger] ipv4_number(ps[i])) is Some {
        Some(Seq::new(ps.len(), |i: int| ipv4_number(ps[i])->0))
    } else {
        None
    }
}

/// The 32-bit address that one to four numbers stand for: each number but
/// the last is one octet, and the last fills the remaining octets.
pub open spec fn address_from_numbers(ns: Seq<nat>) -> Option<nat> {
    let n = ns.len();
    if n == 0 || n > 4 {
        None
    } else if !(forall|i: int| 0 <= i < n - 1 ==> #[trigger] ns[i] <= 255) {
        None
    } else if n == 1 {
        if ns[0] <= 0xffff_ffff {
            Some(ns[0])
        } else {
            None
        }
    } else if n == 2 {
        if ns[1] <= 0xff_ffff {
            Some(ns[0] * 0x100_0000 + ns[1])
        } else {
            None
        }
    } else if n == 3 {
        if ns[2] <= 0xffff {
            Some(ns[0] * 0x100_0000 + ns[1] * 0x1_0000 + ns[2])
        } else {
            None
        }
    } else if ns[3] <= 0xff {
        Some(ns[0] * 0x100_0000 + ns[1] * 0x1_0000 + ns[2] * 0x100 + ns[3])
    } else {
        None
    }
}

/// `h` without one final `.`, if it has one.
pub open spec fn trim_final_dot(h: Seq<char>) -> Seq<char> {
    if h.len() > 0 && h.last() == '.' {
        h.drop_last()
    } else {
        h
    }
}

/// The IPv4 address a URL host stands for when it is written in IPv4 style:
/// one to four dot-separated numbers (decimal, octal or hexadecimal), with
/// one final dot allowed.
pub open spec fn url_ipv4_of(h: Seq<char>) -> Option<Ipv4Octets> {
    match piece_numbers(split_dots(trim_final_dot(h))) {
        Some(ns) => match address_from_numbers(ns) {
            Some(v) => Some(
                Ipv4Octets {
                    a: (v / 0x100_0000) as u8,
                    b: ((v / 0x1_0000) % 256) as u8,
                    c: ((v / 0x100) % 256) as u8,
                    d: (v % 256) as u8,
                },
            ),
            None => None,
        },
        None => None,
    }
}

/// The value of the digit `c` in base `radix` (8, 10 or 16), if any.
fn radix_digit(c: char, radix: u32) -> (r: Option<u32>)
    requires
        radix == 8 || radix == 10 || radix == 16,
    ensures
        r is Some <==> is_radix_digit(c, radix as nat),
        r is Some ==> r->0 == hex_digit_value(c) && r->0 < radix,
{
    if radix == 8 {
        if '0' <= c && c <= '7' {
            Some((c as u32) - ('0' as u32))
        } else {
            None
        }
    } else {
        digit_in(c, radix)
    }
}

proof fn lemma_digits_grow(x: nat, radix: nat, d: nat)
    requires
        radix >= 1,
    ensures
        x * radix + d >= x,
{
    assert(x * radix >= x) by (nonlinear_arith)
        requires
            radix >= 1,
    ;
}

/// Reads `v[lo..hi]` as digits in base `radix`: `None` when some character
/// is not such a digit, `Some(None)` when the value exceeds `u32::MAX`.
fn read_radix(v: &Vec<char>, lo: usize, hi: usize, radix: u32) -> (r: Option<Option<u32>>)
    requires
        lo <= hi <= v@.len(),
        radix == 8 || radix == 10 || radix == 16,
    ensures
        ({
            let s = v@.subrange(lo as int, hi as int);
            &&& r is None <==> !all_radix_digits(s, radix as nat)
            &&& r == Some(None::<u32>) ==> digits_value(s, radix as nat) > 0xffff_ffff
            &&& r matches Some(Some(x)) ==> x == digits_value(s, radix as nat)
        }),
{
    let ghost s = v@.subrange(lo as int, hi as int);
    let mut val: u64 = 0;
    let mut big = false;
    let mut i = lo;
    proof {
        assert(v@.subrange(lo as int, lo as int) =~= Seq::<char>::empty());
    }
    while i < hi
        invariant
            lo <= i <= hi,
            hi <= v@.len(),
            radix == 8 || radix == 10 || radix == 16,
            s == v@.subrange(lo as int, hi as int),
            forall|j: int| 0 <= j < i - lo ==> is_radix_digit(#[trigger] s[j], radix as nat),
            big ==> digits_value(v@.subrange(lo as int, i as int), radix as nat) > 0xffff_ffff,
            !big ==> val == digits_value(v@.subrange(lo as int, i as int), radix as nat) && val
                <= 0xffff_ffff,
        decreases hi - i,
    {
        proof {
            assert(v@.subrange(lo as int, i + 1).drop_last() =~= v@.subrange(lo as int, i as int));
            assert(s[i - lo] == v@[i as int]);
        }
        match radix_digit(v[i], radix) {
            Some(d) => {
                proof {
                    lemma_digits_grow(
                        digits_value(v@.subrange(lo as int, i as int), radix as nat),
                        radix as nat,
                        d as nat,
                    );
                }
                if !big {
                    val = val * (radix as u64) + (d as u64);
                    if val > 0xffff_ffff {
                        big = true;
                    }
                }
                i += 1;
            },
            None => {
                return None;
            },
        }
    }
    if big {
        Some(None)
    } else {
        Some(Some(val as u32))
    }
}

/// Reads `v[lo..hi]` as an IPv4-style number: `None` when it is not one,
/// `Some(None)` when it is one above `u32::MAX`.
fn read_ipv4_number(v: &Vec<char>, lo: usize, hi: usize) -> (r: Option<Option<u32>>)
    requires
        lo <= hi <= v@.len(),
    ensures
        ({
            let p = v@.subrange(lo as int, hi as int);
            &&& r is None <==> ipv4_number(p) is None
            &&& r == Some(None::<u32>) ==> ipv4_number(p)->0 > 0xffff_ffff
            &&& r matches Some(Some(x)) ==> x == ipv4_number(p)->0
        }),
{
    let ghost p = v@.subrange(lo as int, hi as int);
    if lo == hi {
        return None;
    }
    proof {
        assert(p[0] == v@[lo as int]);
    }
    if hi - lo >= 2 && v[lo] == '0' && (v[lo + 1] == 'x' || v[lo + 1] == 'X') {
        proof {
            assert(p[1] == v@[lo + 1]);
            assert(p.skip(2) =~= v@.subrange(lo + 2, hi as int));
        }
        read_radix(v, lo + 2, hi, 16)
    } else if hi - lo >= 2 && v[lo] == '0' {
        proof {
            assert(p[1] == v@[lo + 1]);
            assert(p.skip(1) =~= v@.subrange(lo + 1, hi as int));
        }
        read_radix(v, lo + 1, hi, 8)
    } else {
        proof {
            if hi - lo >= 2 {
                assert(p[1] == v@[lo + 1]);
            }
        }
        read_radix(v, lo, hi, 10)
    }
}

pub proof fn lemma_split_dots_len(t: Seq<char>)
    ensures
        split_dots(t).len() >= 1,
    decreases t.len(),
{
    if char_pos(t, '.') < t.len() {
        lemma_split_dots_len(t.skip(char_pos(t, '.') + 1 as int));
    }
}

pub open spec fn ranges_view(v: Seq<char>, rs: Seq<(usize, usize)>) -> Seq<Seq<char>> {
    rs.map_values(|r: (usize, usize)| v.subrange(r.0 as int, r.1 as int))
}

/// Reads a URL host as an IPv4 address written in IPv4 style.
pub fn read_url_ipv4(v: &Vec<char>) -> (r: Option<Ipv4Octets>)
    ensures
        r == url_ipv4_of(v@),
{
    let n = v.len();
    let m = if n > 0 && v[n - 1] == '.' {
        n - 1
    } else {
        n
    };
    let ghost t = v@.subrange(0, m as int);
    proof {
        if n > 0 && v@[n - 1] == '.' {
            assert(t =~= v@.drop_last());
        } else {
            assert(t =~= v@);
        }
    }
    // The pieces between dots, as ranges of `v`.
    let mut pieces: Vec<(usize, usize)> = Vec::new();
    let mut a: usize = 0;
    loop
        invariant_except_break
            pieces@.len() < 4,
            ranges_view(v@, pieces@) + split_dots(v@.subrange(a as int, m as int)) == split_dots(t),
        invariant
            a <= m <= v@.len(),
            forall|j: int| 0 <= j < pieces@.len() ==> #[trigger] pieces@[j].0 <= pieces@[j].1 <= m,
            t == v@.subrange(0, m as int),
            t == trim_final_dot(v@),
        ensures
            pieces@.len() <= 4,
            ranges_view(v@, pieces@) == split_dots(t),
        decreases m - a,
    {
        let k = find_char(v, a, m, '.');
        let ghost rest = v@.subrange(a as int, m as int);
        let ghost before = pieces@;
        pieces.push((a, k));
        proof {
            assert(rest.take(k - a) =~= v@.subrange(a as int, k as int));
            assert(ranges_view(v@, pieces@) =~= ranges_view(v@, before).push(
                v@.subrange(a as int, k as int),
            ));
        }
        if k == m {
            proof {
                assert(rest.take(k - a) =~= rest);
                assert(ranges_view(v@, pieces@) =~= split_dots(t));
            }
            break;
        }
        proof {
            assert(rest.skip(k - a + 1) =~= v@.subrange(k + 1, m as int));
            assert(ranges_view(v@, pieces@) + split_dots(v@.subrange(k + 1, m as int))
                =~= ranges_view(v@, before) + split_dots(rest));
        }
        if pieces.len() == 4 {
            proof {
                lemma_split_dots_len(v@.subrange(k + 1, m as int));
                assert(split_dots(t).len() > 4);
            }
            return None;
        }
        a = k + 1;
    }
    let ghost ps = split_dots(t);
    assert(ranges_view(v@, pieces@) == ps);
    // The numbers of the pieces, capped just above `u32::MAX`.
    let mut nums: Vec<u64> = Vec::new();
    let mut i: usize = 0;
    while i < pieces.len()
        invariant
            t == trim_final_dot(v@),
            ps == split_dots(t),
            i <= pieces@.len(),
            pieces@.len() <= 4,
            ps == ranges_view(v@, pieces@),
            forall|j: int| 0 <= j < pieces@.len() ==> #[trigger] pieces@[j].0 <= pieces@[j].1 <= v@.len(),
            nums@.len() == i,
            forall|j: int| 0 <= j < i ==> (#[trigger] ipv4_number(ps[j])) is Some,
            forall|j: int|
                0 <= j < i ==> #[trigger] nums@[j] == (if ipv4_number(ps[j])->0 > 0xffff_ffff {
                    0x1_0000_0000
                } else {
                    ipv4_number(ps[j])->0
                }),
        decreases pieces@.len() - i,
    {
        let (lo, hi) = pieces[i];
        proof {
            assert(ps[i as int] == v@.subrange(lo as int, hi as int));
        }
        match read_ipv4_number(v, lo, hi) {
            None => {
                proof {
                    assert(piece_numbers(ps) is None);
                }
                return None;
            },
            Some(None) => {
                nums.push(0x1_0000_0000);
            },
            Some(Some(x)) => {
                nums.push(x as u64);
            },
        }
        i += 1;
    }
    let ghost ns = piece_numbers(ps)->0;
    assert(piece_numbers(ps) is Some);
    let c = nums.len();
    let mut k: usize = 0;
    while k + 1 < c
        invariant
            t == trim_final_dot(v@),
            ps == split_dots(t),
            piece_numbers(ps) is Some,
            ns == piece_numbers(ps)->0,
            c == nums@.len(),
            c == ns.len(),
            1 <= c <= 4,
            k < c,
            forall|j: int| 0 <= j < k ==> nums@[j] <= 255,
            forall|j: int|
                0 <= j < c ==> #[trigger] nums@[j] == (if ns[j] > 0xffff_ffff {
                    0x1_0000_0000
                } else {
                    ns[j]
                }),
        decreases c - k,
    {
        if nums[k] > 255 {
            proof {
                assert(ns[k as int] > 255);
            }
            return None;
        }
        k += 1;
    }
    proof {
        assert forall|j: int| 0 <= j < c - 1 implies #[trigger] ns[j] <= 255 by {
            assert(nums@[j] <= 255);
        }
    }
    let last = nums[c - 1];
    let limit: u64 = if c == 1 {
        0xffff_ffff
    } else if c == 2 {
        0xff_ffff
    } else if c == 3 {
        0xffff
    } else {
        0xff
    };
    if last > limit {
        return None;
    }
    let value: u64 = if c == 1 {
        last
    } else if c == 2 {
        nums[0] * 0x100_0000 + last
    } else if c == 3 {
        nums[0] * 0x100_0000 + nums[1] * 0x1_0000 + last
    } else {
        nums[0] * 0x100_0000 + nums[1] * 0x1_0000 + nums[2] * 0x100 + last
    };
    Some(
        Ipv4Octets {
            a: (value / 0x100_0000) as u8,
            b: ((value / 0x1_0000) % 256) as u8,
            c: ((value / 0x100) % 256) as u8,
            d: (value % 256) as u8,
        },
    )
}


} // verus!
