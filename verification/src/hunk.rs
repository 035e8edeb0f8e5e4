//! Unified-diff hunk headers (`@@ -old_start,old_len +new_start,new_len @@`)
//! and the number syntax they use.
use vstd::prelude::*;
use crate::text::{
    find_char, find_from, has_prefix, is_whitespace, is_ws, lemma_find_from, lemma_skip_ws,
    push_str, skip_ws, starts_with_at, trim, trim_bounds, chars_of,
};

verus! {

/// The value of a decimal digit character.
pub open spec fn digit_value(c: char) -> nat {
    if c == '1' {
        1
    } else if c == '2' {
        2
    } else if c == '3' {
        3
    } else if c == '4' {
        4
    } else if c == '5' {
        5
    } else if c == '6' {
        6
    } else if c == '7' {
        7
    } else if c == '8' {
        8
    } else if c == '9' {
        9
    } else {
        0
    }
}

/// `c` is one of `0`..`9`.
pub open spec fn is_digit(c: char) -> bool {
    '0' <= c <= '9'
}

/// The number a string of decimal digits spells.
pub open spec fn digits_value(d: Seq<char>) -> nat
    decreases d.len(),
{
    if d.len() == 0 {
        0
    } else {
        digits_value(d.drop_last()) * 10 + digit_value(d.last())
    }
}

/// `s` without one leading `+` sign.
pub open spec fn unsigned_digits(s: Seq<char>) -> Seq<char> {
    if s.len() > 0 && s[0] == '+' {
        s.drop_first()
    } else {
        s
    }
}

/// Every character of `d` is a decimal digit.
pub open spec fn all_digits(d: Seq<char>) -> bool {
    forall|i: int| 0 <= i < d.len() ==> #[trigger] is_digit(d[i])
}

/// `u32`'s `FromStr`: an optional `+` followed by at least one decimal
/// digit and nothing else, with a value that fits in 32 bits.
pub open spec fn parse_u32_spec(s: Seq<char>) -> Option<u32> {
    let d = unsigned_digits(s);
    if d.len() > 0 && all_digits(d) && digits_value(d) <= u32::MAX {
        Some(digits_value(d) as u32)
    } else {
        None
    }
}

fn digit_of(c: char) -> (r: u64)
    ensures
        r == digit_value(c),
        r < 10,
{
    if c == '1' {
        1
    } else if c == '2' {
        2
    } else if c == '3' {
        3
    } else if c == '4' {
        4
    } else if c == '5' {
        5
    } else if c == '6' {
        6
    } else if c == '7' {
        7
    } else if c == '8' {
        8
    } else if c == '9' {
        9
    } else {
        0
    }
}

/// Parses `v[lo..hi]` as a `u32` the way `str::parse::<u32>` does.
pub fn parse_u32(v: &Vec<char>, lo: usize, hi: usize) -> (r: Option<u32>)
    requires
        lo <= hi <= v.len(),
    ensures
        r == parse_u32_spec(v@.subrange(lo as int, hi as int)),
{
    let ghost s = v@.subrange(lo as int, hi as int);
    let start = if hi > lo && v[lo] == '+' {
        lo + 1
    } else {
        lo
    };
    let ghost d = v@.subrange(start as int, hi as int);
    proof {
        if hi > lo {
            assert(s[0] == v@[lo as int]);
        }
        if hi > lo && v[lo as int] == '+' {
            assert(s.drop_first() =~= d);
        } else {
            assert(s =~= d);
        }
    }
    if start == hi {
        return None;
    }
    let cap: u64 = 0x1_0000_0000;
    let mut acc: u64 = 0;
    let mut i = start;
    while i < hi
        invariant
            lo <= start <= i <= hi <= v.len(),
            cap == 0x1_0000_0000,
            d == v@.subrange(start as int, hi as int),
            s == v@.subrange(lo as int, hi as int),
            d == unsigned_digits(s),
            forall|k: int| start <= k < i ==> #[trigger] is_digit(v@[k]),
            acc == if digits_value(d.take(i - start)) < cap {
                digits_value(d.take(i - start))
            } else {
                cap as nat
            },
        decreases hi - i,
    {
        let c = v[i];
        if !('0' <= c && c <= '9') {
            proof {
                assert(!is_digit(c));
                assert(d[i - start] == v@[i as int]);
                assert(!is_digit(d[i - start]));
                assert(!all_digits(d));
            }
            return None;
        }
        let dv = digit_of(c);
        proof {
            let p = d.take(i + 1 - start);
            assert(p.drop_last() =~= d.take(i - start));
            assert(p.last() == c);
        }
        if acc >= cap {
            acc = cap;
        } else {
            let n = acc * 10 + dv;
            acc = if n >= cap {
                cap
            } else {
                n
            };
        }
        i = i + 1;
    }
    proof {
        assert(d.take(hi - start) =~= d);
        assert forall|k: int| 0 <= k < d.len() implies #[trigger] is_digit(d[k]) by {
            assert(d[k] == v@[start + k]);
        }
    }
    if acc >= cap {
        None
    } else {
        Some(acc as u32)
    }
}

/// Index of the first whitespace character of `s` at or after `i`, or `s.len()`.
pub open spec fn find_ws(s: Seq<char>, i: int) -> int
    decreases s.len() - i,
{
    if i < 0 || i >= s.len() {
        s.len() as int
    } else if is_ws(s[i]) {
        i
    } else {
        find_ws(s, i + 1)
    }
}

pub proof fn lemma_find_ws(s: Seq<char>, i: int)
    requires
        0 <= i <= s.len(),
    ensures
        i <= find_ws(s, i) <= s.len(),
        forall|k: int| i <= k < find_ws(s, i) ==> !is_ws(#[trigger] s[k]),
        find_ws(s, i) < s.len() ==> is_ws(s[find_ws(s, i)]),
    decreases s.len() - i,
{
    if i < s.len() && !is_ws(s[i]) {
        lemma_find_ws(s, i + 1);
    }
}

/// The first whitespace-separated word of `s` (`split_whitespace().next()`).
pub open spec fn first_word(s: Seq<char>) -> Option<Seq<char>> {
    let a = skip_ws(s, 0);
    if a >= s.len() {
        None
    } else {
        Some(s.subrange(a, find_ws(s, a)))
    }
}

/// Bounds of the first whitespace-separated word of `v[lo..hi]`.
pub fn first_word_bounds(v: &Vec<char>, lo: usize, hi: usize) -> (r: Option<(usize, usize)>)
    requires
        lo <= hi <= v.len(),
    ensures
        match r {
            Some((a, b)) => lo <= a <= b <= hi && first_word(v@.subrange(lo as int, hi as int))
                == Some(v@.subrange(a as int, b as int)),
            None => first_word(v@.subrange(lo as int, hi as int)) is None,
        },
{
    let ghost s = v@.subrange(lo as int, hi as int);
    let mut a = lo;
    while a < hi && is_whitespace(v[a])
        invariant
            lo <= a <= hi <= v.len(),
            s == v@.subrange(lo as int, hi as int),
            skip_ws(s, a - lo) == skip_ws(s, 0),
        decreases hi - a,
    {
        a = a + 1;
    }
    proof {
        lemma_skip_ws(s, 0);
    }
    if a == hi {
        return None;
    }
    let mut b = a;
    while b < hi && !is_whitespace(v[b])
        invariant
            lo <= a <= b <= hi <= v.len(),
            s == v@.subrange(lo as int, hi as int),
            find_ws(s, b - lo) == find_ws(s, a - lo),
        decreases hi - b,
    {
        b = b + 1;
    }
    proof {
        lemma_find_ws(s, a - lo);
        assert(s.subrange(a - lo, b - lo) =~= v@.subrange(a as int, b as int));
    }
    Some((a, b))
}

/// The part of `s` before its first comma (all of `s` when it has none).
pub open spec fn before_comma(s: Seq<char>) -> Seq<char> {
    s.subrange(0, find_from(s, ',', 0))
}

/// The second comma-separated part of `s`, if `s` has a comma.
pub open spec fn second_part(s: Seq<char>) -> Option<Seq<char>> {
    let c = find_from(s, ',', 0);
    if c >= s.len() {
        None
    } else {
        let rest = s.subrange(c + 1, s.len() as int);
        Some(rest.subrange(0, find_from(rest, ',', 0)))
    }
}

/// The `-` and `+` segments of a hunk header line, or the reason it has none.
pub open spec fn hunk_segments(line: Seq<char>) -> Result<(Seq<char>, Seq<char>), Seq<char>> {
    let t = trim(line);
    let m = find_from(t, '-', 0);
    let p = find_from(t, '+', 0);
    if !has_prefix(t, "@@"@) {
        Err("not a hunk header"@)
    } else if m >= t.len() {
        Err("missing '-' segment"@)
    } else if p >= t.len() {
        Err("missing '+' segment"@)
    } else {
        match first_word(t.subrange(m + 1, t.len() as int)) {
            None => Err("invalid '-' segment"@),
            Some(ms) => match first_word(t.subrange(p + 1, t.len() as int)) {
                None => Err("invalid '+' segment"@),
                Some(ps) => Ok((ms, ps)),
            },
        }
    }
}

/// Start and length of one hunk side (`start` or `start,len`; the length
/// defaults to 1), or the error naming the side.
pub open spec fn hunk_range(seg: Seq<char>, side: Seq<char>) -> Result<(u32, u32), Seq<char>> {
    match parse_u32_spec(before_comma(seg)) {
        None => Err("invalid "@ + side + "_start"@),
        Some(start) => match second_part(seg) {
            None => Ok((start, 1)),
            Some(l) => match parse_u32_spec(l) {
                None => Err("invalid "@ + side + "_len"@),
                Some(len) => Ok((start, len)),
            },
        },
    }
}

/// The four numbers of a hunk header; both starts are raised to at least 1.
pub open spec fn hunk_header(line: Seq<char>) -> Result<(u32, u32, u32, u32), Seq<char>> {
    match hunk_segments(line) {
        Err(e) => Err(e),
        Ok((ms, ps)) => match hunk_range(ms, "old"@) {
            Err(e) => Err(e),
            Ok((os, ol)) => match hunk_range(ps, "new"@) {
                Err(e) => Err(e),
                Ok((ns, nl)) => Ok((
                    if os < 1 {
                        1
                    } else {
                        os
                    },
                    ol,
                    if ns < 1 {
                        1
                    } else {
                        ns
                    },
                    nl,
                )),
            },
        },
    }
}

/// The two starts of a hunk header (lengths are not read); both raised to at least 1.
pub open spec fn hunk_starts(line: Seq<char>) -> Result<(u32, u32), Seq<char>> {
    match hunk_segments(line) {
        Err(e) => Err(e),
        Ok((ms, ps)) => match parse_u32_spec(before_comma(ms)) {
            None => Err("invalid old_start"@),
            Some(os) => match parse_u32_spec(before_comma(ps)) {
                None => Err("invalid new_start"@),
                Some(ns) => Ok((
                    if os < 1 {
                        1
                    } else {
                        os
                    },
                    if ns < 1 {
                        1
                    } else {
                        ns
                    },
                )),
            },
        },
    }
}

/// A `String` holding the given text.
fn message(text: &str) -> (r: String)
    ensures
        r@ == text@,
{
    let mut s = String::new();
    push_str(&mut s, text);
    assert(Seq::<char>::empty() + text@ =~= text@);
    s
}

/// Bounds of the two segments of a hunk header held in `v`.
#[verifier::rlimit(50)]
#[verifier::spinoff_prover]
fn segments_at(v: &Vec<char>) -> (r: Result<((usize, usize), (usize, usize)), String>)
    ensures
        match r {
            Ok(((a, b), (c, d))) => a <= b <= v.len() && c <= d <= v.len() && hunk_segments(v@)
                == Ok::<(Seq<char>, Seq<char>), Seq<char>>(
                (v@.subrange(a as int, b as int), v@.subrange(c as int, d as int)),
            ),
            Err(e) => hunk_segments(v@) == Err::<(Seq<char>, Seq<char>), Seq<char>>(e@),
        },
{
    let (lo, hi) = trim_bounds(v, 0, v.len());
    assert(v@.subrange(0, v.len() as int) =~= v@);
    let ghost t = trim(v@);
    assert(t == v@.subrange(lo as int, hi as int));
    let at = chars_of("@@");
    if !starts_with_at(v, lo, hi, &at) {
        return Err(message("not a hunk header"));
    }
    let m = find_char(v, '-', lo, hi);
    let p = find_char(v, '+', lo, hi);
    proof {
        lemma_find_from(t, '-', 0);
        lemma_find_from(t, '+', 0);
    }
    if m == hi {
        return Err(message("missing '-' segment"));
    }
    if p == hi {
        return Err(message("missing '+' segment"));
    }
    proof {
        assert(t.subrange(m - lo + 1, t.len() as int) =~= v@.subrange(m + 1, hi as int));
        assert(t.subrange(p - lo + 1, t.len() as int) =~= v@.subrange(p + 1, hi as int));
    }
    let ms = first_word_bounds(v, m + 1, hi);
    let (a, b) = match ms {
        None => {
            return Err(message("invalid '-' segment"));
        },
        Some(x) => x,
    };
    let ps = first_word_bounds(v, p + 1, hi);
    let (c, d) = match ps {
        None => {
            return Err(message("invalid '+' segment"));
        },
        Some(x) => x,
    };
    Ok(((a, b), (c, d)))
}

/// End of the part of `v[lo..hi]` before its first comma.
fn comma_at(v: &Vec<char>, lo: usize, hi: usize) -> (r: usize)
    requires
        lo <= hi <= v.len(),
    ensures
        lo <= r <= hi,
        r == lo + find_from(v@.subrange(lo as int, hi as int), ',', 0),
{
    proof {
        lemma_find_from(v@.subrange(lo as int, hi as int), ',', 0);
    }
    find_char(v, ',', lo, hi)
}

/// Parses one hunk side held in `v[lo..hi]`.
fn hunk_range_at(v: &Vec<char>, lo: usize, hi: usize, side: &str) -> (r: Result<(u32, u32), String>)
    requires
        lo <= hi <= v.len(),
    ensures
        match r {
            Ok(x) => hunk_range(v@.subrange(lo as int, hi as int), side@) == Ok::<
                (u32, u32),
                Seq<char>,
            >(x),
            Err(e) => hunk_range(v@.subrange(lo as int, hi as int), side@) == Err::<
                (u32, u32),
                Seq<char>,
            >(e@),
        },
{
    let ghost seg = v@.subrange(lo as int, hi as int);
    let c = comma_at(v, lo, hi);
    proof {
        assert(before_comma(seg) =~= v@.subrange(lo as int, c as int));
    }
    let start = match parse_u32(v, lo, c) {
        None => {
            let mut e = message("invalid ");
            push_str(&mut e, side);
            push_str(&mut e, "_start");
            return Err(e);
        },
        Some(s) => s,
    };
    if c == hi {
        return Ok((start, 1));
    }
    let c2 = comma_at(v, c + 1, hi);
    proof {
        let rest = seg.subrange(c - lo + 1, seg.len() as int);
        assert(rest =~= v@.subrange(c + 1, hi as int));
        assert(rest.subrange(0, c2 - c - 1) =~= v@.subrange(c + 1, c2 as int));
    }
    match parse_u32(v, c + 1, c2) {
        None => {
            let mut e = message("invalid ");
            push_str(&mut e, side);
            push_str(&mut e, "_len");
            Err(e)
        },
        Some(len) => Ok((start, len)),
    }
}

/// Parses a hunk header line into `(old_start, old_len, new_start, new_len)`.
pub fn parse_hunk_header(v: &Vec<char>) -> (r: Result<(u32, u32, u32, u32), String>)
    ensures
        match r {
            Ok(x) => hunk_header(v@) == Ok::<(u32, u32, u32, u32), Seq<char>>(x),
            Err(e) => hunk_header(v@) == Err::<(u32, u32, u32, u32), Seq<char>>(e@),
        },
{
    let ((a, b), (c, d)) = match segments_at(v) {
        Err(e) => {
            return Err(e);
        },
        Ok(x) => x,
    };
    let (os, ol) = match hunk_range_at(v, a, b, "old") {
        Err(e) => {
            return Err(e);
        },
        Ok(x) => x,
    };
    let (ns, nl) = match hunk_range_at(v, c, d, "new") {
        Err(e) => {
            return Err(e);
        },
        Ok(x) => x,
    };
    Ok((
        if os < 1 {
            1
        } else {
            os
        },
        ol,
        if ns < 1 {
            1
        } else {
            ns
        },
        nl,
    ))
}

/// Parses the two starts of a hunk header line into `(old_start, new_start)`.
pub fn parse_hunk_starts(v: &Vec<char>) -> (r: Result<(u32, u32), String>)
    ensures
        match r {
            Ok(x) => hunk_starts(v@) == Ok::<(u32, u32), Seq<char>>(x),
            Err(e) => hunk_starts(v@) == Err::<(u32, u32), Seq<char>>(e@),
        },
{
    let ((a, b), (c, d)) = match segments_at(v) {
        Err(e) => {
            return Err(e);
        },
        Ok(x) => x,
    };
    let ca = comma_at(v, a, b);
    let cc = comma_at(v, c, d);
    proof {
        assert(before_comma(v@.subrange(a as int, b as int)) =~= v@.subrange(a as int, ca as int));
        assert(before_comma(v@.subrange(c as int, d as int)) =~= v@.subrange(c as int, cc as int));
    }
    let os = match parse_u32(v, a, ca) {
        None => {
            return Err(message("invalid old_start"));
        },
        Some(x) => x,
    };
    let ns = match parse_u32(v, c, cc) {
        None => {
            return Err(message("invalid new_start"));
        },
        Some(x) => x,
    };
    Ok((
        if os < 1 {
            1
        } else {
            os
        },
        if ns < 1 {
            1
        } else {
            ns
        },
    ))
}

} // verus!
