//! Character-level text helpers: searching, prefixes, equality and decimal
//! rendering, each stated over the `Seq<char>` view of the text.
use vstd::prelude::*;

verus! {

/// Index of the first `c` in `s`, or `s.len()` when `s` holds no `c`.
pub open spec fn char_pos(s: Seq<char>, c: char) -> nat
    decreases s.len(),
{
    if s.len() == 0 {
        0
    } else if s[0] == c {
        0
    } else {
        1 + char_pos(s.drop_first(), c)
    }
}

/// The text before the first `c` (all of `s` when it holds no `c`).
pub open spec fn before_char(s: Seq<char>, c: char) -> Seq<char> {
    s.take(char_pos(s, c) as int)
}

/// The text after the last `c` (all of `s` when it holds no `c`).
pub open spec fn after_last(s: Seq<char>, c: char) -> Seq<char>
    decreases s.len(),
{
    if char_pos(s, c) < s.len() {
        after_last(s.skip(char_pos(s, c) + 1 as int), c)
    } else {
        s
    }
}

/// Whether `s` ends with `p`.
pub open spec fn ends_with(s: Seq<char>, p: Seq<char>) -> bool {
    p.len() <= s.len() && s.skip(s.len() - p.len()) == p
}

/// Whether `s` starts with `p`.
pub open spec fn starts_with(s: Seq<char>, p: Seq<char>) -> bool {
    p.len() <= s.len() && s.take(p.len() as int) == p
}

/// Index of the first occurrence of the non-empty pattern `p` in `s`, or
/// `s.len()` when `p` does not occur.
pub open spec fn pattern_pos(s: Seq<char>, p: Seq<char>) -> nat
    decreases s.len(),
{
    if s.len() < p.len() || s.len() == 0 {
        s.len()
    } else if starts_with(s, p) {
        0
    } else {
        1 + pattern_pos(s.drop_first(), p)
    }
}

/// Whether the non-empty pattern `p` occurs in `s`.
pub open spec fn has_pattern(s: Seq<char>, p: Seq<char>) -> bool {
    pattern_pos(s, p) + p.len() <= s.len()
}

/// The first position of `c` lies within `s`, holds `c` when inside, and no
/// earlier position holds `c`.
pub proof fn lemma_char_pos(s: Seq<char>, c: char)
    ensures
        char_pos(s, c) <= s.len(),
        char_pos(s, c) < s.len() ==> s[char_pos(s, c) as int] == c,
        forall|j: int| 0 <= j < char_pos(s, c) ==> s[j] != c,
    decreases s.len(),
{
    if s.len() > 0 && s[0] != c {
        lemma_char_pos(s.drop_first(), c);
        assert forall|j: int| 0 <= j < char_pos(s, c) implies s[j] != c by {
            if j > 0 {
                assert(s[j] == s.drop_first()[j - 1]);
            }
        }
    }
}

/// A position with no `c` before it, at the end or at a `c`, is the first
/// position of `c`.
pub proof fn lemma_char_pos_at(s: Seq<char>, c: char, i: int)
    requires
        0 <= i <= s.len(),
        forall|j: int| 0 <= j < i ==> s[j] != c,
        i == s.len() || s[i] == c,
    ensures
        char_pos(s, c) == i,
    decreases i,
{
    if i > 0 {
        let t = s.drop_first();
        assert forall|j: int| 0 <= j < i - 1 implies t[j] != c by {
            assert(t[j] == s[j + 1]);
        }
        if i < s.len() {
            assert(t[i - 1] == s[i]);
        }
        lemma_char_pos_at(t, c, i - 1);
    }
}

/// `c` occurs in `s` exactly when its first position lies inside `s`.
pub proof fn lemma_char_pos_contains(s: Seq<char>, c: char)
    ensures
        s.contains(c) <==> char_pos(s, c) < s.len(),
{
    lemma_char_pos(s, c);
    if s.contains(c) {
        let k = choose|k: int| 0 <= k < s.len() && s[k] == c;
        assert(!(char_pos(s, c) > k));
    }
}

/// The first occurrence of `p` lies within `s`, matches `p` when it is an
/// occurrence, and no earlier position matches.
pub proof fn lemma_pattern_pos(s: Seq<char>, p: Seq<char>)
    requires
        p.len() > 0,
    ensures
        pattern_pos(s, p) <= s.len(),
        has_pattern(s, p) ==> s.subrange(
            pattern_pos(s, p) as int,
            (pattern_pos(s, p) + p.len()) as int,
        ) == p,
        forall|j: int|
            0 <= j < pattern_pos(s, p) && j + p.len() <= s.len() ==> #[trigger] s.subrange(j, j + p.len())
                != p,
    decreases s.len(),
{
    if s.len() < p.len() || s.len() == 0 {
    } else if starts_with(s, p) {
        assert(s.subrange(0, p.len() as int) == s.take(p.len() as int));
    } else {
        let t = s.drop_first();
        lemma_pattern_pos(t, p);
        assert forall|j: int|
            0 <= j < pattern_pos(s, p) && j + p.len() <= s.len() implies #[trigger] s.subrange(
            j,
            j + p.len(),
        ) != p by {
            if j == 0 {
                assert(s.subrange(0, p.len() as int) == s.take(p.len() as int));
            } else {
                assert(s.subrange(j, j + p.len()) == t.subrange(j - 1, j - 1 + p.len()));
            }
        }
        if has_pattern(s, p) {
            let k = pattern_pos(s, p) as int;
            assert(s.subrange(k, k + p.len()) == t.subrange(k - 1, k - 1 + p.len()));
        }
    }
}

/// A match of `p` with no earlier match is the first occurrence.
pub proof fn lemma_pattern_pos_found(s: Seq<char>, p: Seq<char>, i: int)
    requires
        p.len() > 0,
        0 <= i,
        i + p.len() <= s.len(),
        s.subrange(i, i + p.len()) == p,
        forall|j: int|
            0 <= j < i && j + p.len() <= s.len() ==> #[trigger] s.subrange(j, j + p.len()) != p,
    ensures
        pattern_pos(s, p) == i,
    decreases i,
{
    assert(s.subrange(0, p.len() as int) == s.take(p.len() as int));
    if i > 0 {
        assert(s.subrange(0, 0 + p.len() as int) != p);
        assert(!starts_with(s, p));
        let t = s.drop_first();
        assert forall|j: int|
            0 <= j < i - 1 && j + p.len() <= t.len() implies #[trigger] t.subrange(j, j + p.len())
            != p by {
            assert(t.subrange(j, j + p.len()) == s.subrange(j + 1, j + 1 + p.len()));
        }
        assert(t.subrange(i - 1, i - 1 + p.len()) == s.subrange(i, i + p.len()));
        lemma_pattern_pos_found(t, p, i - 1);
    }
}

/// When `p` matches nowhere, its first occurrence is reported as `s.len()`.
pub proof fn lemma_pattern_pos_absent(s: Seq<char>, p: Seq<char>)
    requires
        p.len() > 0,
        forall|j: int|
            0 <= j && j + p.len() <= s.len() ==> #[trigger] s.subrange(j, j + p.len()) != p,
    ensures
        pattern_pos(s, p) == s.len(),
    decreases s.len(),
{
    if s.len() < p.len() || s.len() == 0 {
    } else {
        assert(s.subrange(0, p.len() as int) == s.take(p.len() as int));
        assert(s.subrange(0, 0 + p.len() as int) != p);
        assert(!starts_with(s, p));
        let t = s.drop_first();
        assert forall|j: int| 0 <= j && j + p.len() <= t.len() implies #[trigger] t.subrange(
            j,
            j + p.len(),
        ) != p by {
            assert(t.subrange(j, j + p.len()) == s.subrange(j + 1, j + 1 + p.len()));
        }
        lemma_pattern_pos_absent(t, p);
    }
}

/// The characters of `s`, in order.
pub fn chars_of(s: &str) -> (v: Vec<char>)
    ensures
        v@ == s@,
{
    let mut v: Vec<char> = Vec::new();
    for c in it: s.chars()
        invariant
            v@ == it.seq().take(it.index() as int),
            it.seq() == s@,
    {
        v.push(c);
    }
    v
}

/// Position of the first `c` in `v[from..to]`, counted from the start of `v`;
/// `to` when that range holds no `c`.
pub fn find_char(v: &Vec<char>, from: usize, to: usize, c: char) -> (r: usize)
    requires
        from <= to <= v@.len(),
    ensures
        r == from + char_pos(v@.subrange(from as int, to as int), c),
        from <= r <= to,
{
    let ghost s = v@.subrange(from as int, to as int);
    let mut i = from;
    while i < to
        invariant
            from <= i <= to,
            to <= v@.len(),
            s == v@.subrange(from as int, to as int),
            forall|j: int| 0 <= j < i - from ==> s[j] != c,
        decreases to - i,
    {
        if v[i] == c {
            proof {
                lemma_char_pos_at(s, c, i - from);
            }
            return i;
        }
        i += 1;
    }
    proof {
        lemma_char_pos_at(s, c, i - from);
    }
    i
}

/// Start of the text after the last `c` in `v[from..to]`, counted from the
/// start of `v`; `from` when that range holds no `c`.
pub fn find_after_last(v: &Vec<char>, from: usize, to: usize, c: char) -> (r: usize)
    requires
        from <= to <= v@.len(),
    ensures
        from <= r <= to,
        v@.subrange(r as int, to as int) == after_last(v@.subrange(from as int, to as int), c),
{
    let mut a = from;
    loop
        invariant
            from <= a <= to,
            to <= v@.len(),
            after_last(v@.subrange(a as int, to as int), c) == after_last(
                v@.subrange(from as int, to as int),
                c,
            ),
        decreases to - a,
    {
        let k = find_char(v, a, to, c);
        if k == to {
            return a;
        }
        proof {
            let s = v@.subrange(a as int, to as int);
            assert(s.skip(k - a + 1) =~= v@.subrange(k + 1, to as int));
        }
        a = k + 1;
    }
}

/// Whether `s` ends with `p`.
pub fn has_suffix(s: &str, p: &str) -> (r: bool)
    ensures
        r == ends_with(s@, p@),
{
    let sv = chars_of(s);
    let pv = chars_of(p);
    if pv.len() > sv.len() {
        return false;
    }
    let at = sv.len() - pv.len();
    let r = matches_at(&sv, at, &pv);
    assert(sv@.subrange(at as int, sv@.len() as int) == sv@.skip(at as int));
    r
}

/// Whether `v[at..at + p.len()]` equals `p`.
pub fn matches_at(v: &Vec<char>, at: usize, p: &Vec<char>) -> (r: bool)
    requires
        at + p@.len() <= v@.len(),
    ensures
        r == (v@.subrange(at as int, at + p@.len()) == p@),
{
    let vlen = v.len();
    let mut k: usize = 0;
    while k < p.len()
        invariant
            vlen == v@.len(),
            k <= p@.len(),
            at + p@.len() <= v@.len(),
            forall|j: int| 0 <= j < k ==> v@[at + j] == p@[j],
        decreases p@.len() - k,
    {
        if v[at + k] != p[k] {
            assert(v@.subrange(at as int, at + p@.len())[k as int] != p@[k as int]);
            return false;
        }
        k += 1;
    }
    assert(v@.subrange(at as int, at + p@.len()) =~= p@);
    true
}

/// Position of the first occurrence of `p` in `v[from..to]`, counted from
/// the start of `v`; `to` when it does not occur there.
pub fn find_pattern(v: &Vec<char>, from: usize, to: usize, p: &Vec<char>) -> (r: usize)
    requires
        from <= to <= v@.len(),
        p@.len() > 0,
    ensures
        r == from + pattern_pos(v@.subrange(from as int, to as int), p@),
        from <= r <= to,
{
    let ghost s = v@.subrange(from as int, to as int);
    let plen = p.len();
    let mut i = from;
    while i < to && plen <= to - i
        invariant
            from <= i <= to,
            to <= v@.len(),
            plen == p@.len(),
            plen > 0,
            s == v@.subrange(from as int, to as int),
            forall|j: int|
                0 <= j < i - from && j + plen <= s.len() ==> #[trigger] s.subrange(j, j + plen) != p@,
        decreases to - i,
    {
        if matches_at(v, i, p) {
            proof {
                assert(s.subrange(i - from, i - from + plen) =~= v@.subrange(
                    i as int,
                    i + plen,
                ));
                lemma_pattern_pos_found(s, p@, i - from);
            }
            return i;
        }
        proof {
            assert(s.subrange(i - from, i - from + plen) =~= v@.subrange(i as int, i + plen));
        }
        i += 1;
    }
    proof {
        lemma_pattern_pos_absent(s, p@);
    }
    to
}

/// Whether `s` starts with `p`.
pub fn has_prefix(s: &str, p: &str) -> (r: bool)
    ensures
        r == starts_with(s@, p@),
{
    let sv = chars_of(s);
    let pv = chars_of(p);
    if pv.len() > sv.len() {
        return false;
    }
    let r = matches_at(&sv, 0, &pv);
    assert(sv@.subrange(0, pv@.len() as int) == sv@.take(pv@.len() as int));
    r
}

/// Whether `a` and `b` are the same text.
pub fn text_eq(a: &str, b: &str) -> (r: bool)
    ensures
        r == (a@ == b@),
{
    let av = chars_of(a);
    let bv = chars_of(b);
    if av.len() != bv.len() {
        return false;
    }
    let r = matches_at(&av, 0, &bv);
    assert(av@.subrange(0, bv@.len() as int) =~= av@);
    r
}

/// The decimal digit character for `d`.
pub open spec fn digit_char(d: nat) -> char {
    if d == 0 {
        '0'
    } else if d == 1 {
        '1'
    } else if d == 2 {
        '2'
    } else if d == 3 {
        '3'
    } else if d == 4 {
        '4'
    } else if d == 5 {
        '5'
    } else if d == 6 {
        '6'
    } else if d == 7 {
        '7'
    } else if d == 8 {
        '8'
    } else {
        '9'
    }
}

/// The canonical decimal rendering of `n` (no leading zeros).
pub open spec fn decimal(n: nat) -> Seq<char>
    decreases n,
{
    if n < 10 {
        seq![digit_char(n)]
    } else {
        decimal(n / 10).push(digit_char(n % 10))
    }
}

fn digit_text(d: u16) -> (r: &'static str)
    requires
        d < 10,
    ensures
        r@ == seq![digit_char(d as nat)],
{
    proof {
        reveal_strlit("0");
        reveal_strlit("1");
        reveal_strlit("2");
        reveal_strlit("3");
        reveal_strlit("4");
        reveal_strlit("5");
        reveal_strlit("6");
        reveal_strlit("7");
        reveal_strlit("8");
        reveal_strlit("9");
    }
    match d {
        0 => "0",
        1 => "1",
        2 => "2",
        3 => "3",
        4 => "4",
        5 => "5",
        6 => "6",
        7 => "7",
        8 => "8",
        _ => "9",
    }
}

/// Appends the decimal rendering of `n` to `out`.
pub fn push_decimal(out: &mut String, n: u16)
    ensures
        final(out)@ == old(out)@ + decimal(n as nat),
    decreases n,
{
    if n >= 10 {
        push_decimal(out, n / 10);
    }
    out.append(digit_text(n % 10));
    proof {
        assert(old(out)@ + decimal(n as nat) =~= (if n >= 10 {
            old(out)@ + decimal((n / 10) as nat)
        } else {
            old(out)@
        }) + seq![digit_char((n % 10) as nat)]);
    }
}

} // verus!
