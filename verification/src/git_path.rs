//! Paths as git writes them in diff headers: C-style quoted paths and the
//! two path tokens of a `diff --git` line.
use vstd::prelude::*;
use vstd::utf8::{decode_utf8, encode_utf8, valid_utf8};
use crate::hunk::{find_ws, lemma_find_ws};
use crate::text::{
    chars_of, has_prefix, is_whitespace, lemma_skip_ws, range_eq, skip_ws, string_of_range,
    to_string, trim, trim_bounds, trim_start,
};
use crate::types::{repo_form, NormPath};

verus! {

/// The text of `bytes` read as UTF-8, each invalid sequence replaced by
/// U+FFFD (what `String::from_utf8_lossy` yields).
pub uninterp spec fn utf8_lossy(bytes: Seq<u8>) -> Seq<char>;

/// `String::from_utf8_lossy`: the result is named by [`utf8_lossy`]; for
/// valid UTF-8 it is the decoded text, as the documentation promises.
/// How invalid sequences are replaced is not restated.
#[verifier::external_body]
fn lossy_string(bytes: &[u8]) -> (r: String)
    ensures
        r@ == utf8_lossy(bytes@),
        valid_utf8(bytes@) ==> r@ == decode_utf8(bytes@),
{
    String::from_utf8_lossy(bytes).into_owned()
}

/// The byte an escape letter stands for in a C-style quoted path.
pub open spec fn escape_byte(e: u8) -> u8 {
    if e == 0x61 {
        0x07
    } else if e == 0x62 {
        0x08
    } else if e == 0x74 {
        0x09
    } else if e == 0x6e {
        0x0a
    } else if e == 0x76 {
        0x0b
    } else if e == 0x66 {
        0x0c
    } else if e == 0x72 {
        0x0d
    } else {
        e
    }
}

/// `b` is an octal digit (`0`..`7`).
pub open spec fn is_octal(b: u8) -> bool {
    0x30 <= b <= 0x37
}

/// Number of octal digits that follow the first one at `j` (at most two).
pub open spec fn octal_extra(b: Seq<u8>, j: int) -> int {
    if j + 1 < b.len() && is_octal(b[j + 1]) {
        if j + 2 < b.len() && is_octal(b[j + 2]) {
            2
        } else {
            1
        }
    } else {
        0
    }
}

/// The value of the octal escape whose first digit is at `j`.
pub open spec fn octal_value(b: Seq<u8>, j: int) -> int {
    let n = octal_extra(b, j);
    if n == 2 {
        (b[j] - 0x30) * 64 + (b[j + 1] - 0x30) * 8 + (b[j + 2] - 0x30)
    } else if n == 1 {
        (b[j] - 0x30) * 8 + (b[j + 1] - 0x30)
    } else {
        b[j] - 0x30
    }
}

/// The bytes of a quoted path from position `i` on, escapes decoded; the
/// final byte (the closing quote) is never read as content.
pub open spec fn unquote_from(b: Seq<u8>, i: int) -> Seq<u8>
    decreases b.len() - i,
{
    if i < 0 || i + 1 >= b.len() {
        seq![]
    } else if b[i] != 0x5c {
        seq![b[i]] + unquote_from(b, i + 1)
    } else {
        let j = i + 1;
        let e = b[j];
        if is_octal(e) {
            let v = octal_value(b, j);
            seq![
                if v <= 255 {
                    v as u8
                } else {
                    0x3f
                },
            ] + unquote_from(b, j + octal_extra(b, j) + 1)
        } else {
            seq![escape_byte(e)] + unquote_from(b, j + 1)
        }
    }
}

/// A path as written by git, unquoted: the trimmed text, and when it is
/// enclosed in double quotes, its C-style escapes decoded byte-wise and the
/// bytes read as UTF-8.
pub open spec fn git_unquote(raw: Seq<char>) -> Seq<char> {
    let t = trim(raw);
    if t.len() >= 2 && t[0] == '"' && t.last() == '"' {
        utf8_lossy(unquote_from(encode_utf8(t), 1))
    } else {
        t
    }
}

/// Decodes a path as git writes it in diff headers: surrounding whitespace
/// is removed, and a path in double quotes has its escapes (`\t`, `\n`,
/// `\"`, `\\`, octal `\NNN`, ...) decoded.
pub fn decode_git_path(raw: &str) -> (r: String)
    ensures
        r@ == git_unquote(raw@),
{
    let v = chars_of(raw);
    let (a, b) = trim_bounds(&v, 0, v.len());
    assert(v@.subrange(0, v.len() as int) =~= v@);
    let t = raw.substring_char(a, b);
    if !(b - a >= 2 && v[a] == '"' && v[b - 1] == '"') {
        return to_string(t);
    }
    let bytes = t.as_bytes();
    let ghost bs = bytes@;
    let mut decoded: Vec<u8> = Vec::new();
    let mut index: usize = 1;
    while index < bytes.len() && bytes.len() - index > 1
        invariant
            bs == bytes@,
            1 <= index <= bytes.len(),
            decoded@ + unquote_from(bs, index as int) == unquote_from(bs, 1),
        decreases bytes.len() - index,
    {
        if bytes[index] != 0x5c {
            decoded.push(bytes[index]);
            proof {
                assert(decoded@ + unquote_from(bs, index + 1) =~= decoded@.drop_last() + unquote_from(bs, index as int));
            }
            index = index + 1;
            continue;
        }
        let j = index + 1;
        let e = bytes[j];
        if 0x30 <= e && e <= 0x37 {
            let mut value: u16 = (e - 0x30) as u16;
            let mut k = j;
            if k + 1 < bytes.len() && 0x30 <= bytes[k + 1] && bytes[k + 1] <= 0x37 {
                value = value * 8 + (bytes[k + 1] - 0x30) as u16;
                k = k + 1;
                if k + 1 < bytes.len() && 0x30 <= bytes[k + 1] && bytes[k + 1] <= 0x37 {
                    value = value * 8 + (bytes[k + 1] - 0x30) as u16;
                    k = k + 1;
                }
            }
            let byte: u8 = if value <= 255 {
                value as u8
            } else {
                0x3f
            };
            assert(k == j + octal_extra(bs, j as int));
            assert(value == octal_value(bs, j as int));
            decoded.push(byte);
            proof {
                assert(decoded@ + unquote_from(bs, k + 1) =~= decoded@.drop_last() + unquote_from(bs, index as int));
            }
            index = k + 1;
        } else {
            let byte: u8 = if e == 0x61 {
                0x07
            } else if e == 0x62 {
                0x08
            } else if e == 0x74 {
                0x09
            } else if e == 0x6e {
                0x0a
            } else if e == 0x76 {
                0x0b
            } else if e == 0x66 {
                0x0c
            } else if e == 0x72 {
                0x0d
            } else {
                e
            };
            decoded.push(byte);
            proof {
                assert(decoded@ + unquote_from(bs, j + 1) =~= decoded@.drop_last() + unquote_from(bs, index as int));
            }
            index = j + 1;
        }
    }
    proof {
        assert(unquote_from(bs, index as int) =~= Seq::<u8>::empty());
        assert(decoded@ =~= decoded@ + unquote_from(bs, index as int));
        assert(trim(raw@) == t@);
        assert(t@.last() == v@[b - 1]);
    }
    lossy_string(decoded.as_slice())
}

/// Index of the closing quote of a quoted token (scanning from `i`, after a
/// backslash when `escaped`), or `s.len()` when there is none.
pub open spec fn quote_end(s: Seq<char>, i: int, escaped: bool) -> int
    decreases s.len() - i,
{
    if i < 0 || i >= s.len() {
        s.len() as int
    } else if escaped {
        quote_end(s, i + 1, false)
    } else if s[i] == '\\' {
        quote_end(s, i + 1, true)
    } else if s[i] == '"' {
        i
    } else {
        quote_end(s, i + 1, false)
    }
}

proof fn lemma_quote_end(s: Seq<char>, i: int, escaped: bool)
    requires
        0 <= i <= s.len(),
    ensures
        i <= quote_end(s, i, escaped) <= s.len(),
    decreases s.len() - i,
{
    if i < s.len() {
        if escaped {
            lemma_quote_end(s, i + 1, false);
        } else if s[i] == '\\' {
            lemma_quote_end(s, i + 1, true);
        } else if s[i] != '"' {
            lemma_quote_end(s, i + 1, false);
        }
    }
}

/// The first path token of `input` and the text after it: a quoted token
/// (decoded) when `input` starts with a quote after leading whitespace,
/// otherwise the text up to the next whitespace.
pub open spec fn git_token(input: Seq<char>) -> Option<(Seq<char>, Seq<char>)> {
    let s = trim_start(input);
    if s.len() > 0 && s[0] == '"' {
        let q = quote_end(s, 1, false);
        if q < s.len() {
            Some((git_unquote(s.subrange(0, q + 1)), s.subrange(q + 1, s.len() as int)))
        } else {
            None
        }
    } else {
        let e = find_ws(s, 0);
        Some((s.subrange(0, e), s.subrange(e, s.len() as int)))
    }
}

/// Takes the first path token from `input[lo..]`: the token and the index
/// where the rest of the input starts.
fn take_git_path_token(input: &str, v: &Vec<char>, lo: usize) -> (r: Option<(String, usize)>)
    requires
        v@ == input@,
        lo <= v.len(),
    ensures
        match r {
            Some((tok, rest)) => lo <= rest <= v.len() && git_token(v@.subrange(lo as int, v.len() as int))
                == Some((tok@, v@.subrange(rest as int, v.len() as int))),
            None => git_token(v@.subrange(lo as int, v.len() as int)) is None,
        },
{
    let ghost t = v@.subrange(lo as int, v.len() as int);
    let mut a = lo;
    while a < v.len() && is_whitespace(v[a])
        invariant
            lo <= a <= v.len(),
            t == v@.subrange(lo as int, v.len() as int),
            skip_ws(t, a - lo) == skip_ws(t, 0),
        decreases v.len() - a,
    {
        a = a + 1;
    }
    proof {
        lemma_skip_ws(t, 0);
        assert(trim_start(t) =~= v@.subrange(a as int, v.len() as int));
    }
    let ghost s = v@.subrange(a as int, v.len() as int);
    if a < v.len() && v[a] == '"' {
        let mut i = a + 1;
        let mut escaped = false;
        while i < v.len()
            invariant
                lo <= a < i <= v.len(),
                v@ == input@,
                v@[a as int] == '"',
                t == v@.subrange(lo as int, v.len() as int),
                trim_start(t) == s,
                s == v@.subrange(a as int, v.len() as int),
                quote_end(s, i - a, escaped) == quote_end(s, 1, false),
            decreases v.len() - i,
        {
            if escaped {
                escaped = false;
            } else if v[i] == '\\' {
                escaped = true;
            } else if v[i] == '"' {
                proof {
                    assert(s.subrange(0, i - a + 1) =~= v@.subrange(a as int, i + 1));
                    assert(s.subrange(i - a + 1, s.len() as int) =~= v@.subrange(i + 1, v.len() as int));
                }
                let raw = input.substring_char(a, i + 1);
                return Some((decode_git_path(raw), i + 1));
            }
            i = i + 1;
        }
        return None;
    }
    let mut e = a;
    while e < v.len() && !is_whitespace(v[e])
        invariant
            a <= e <= v.len(),
            s == v@.subrange(a as int, v.len() as int),
            find_ws(s, e - a) == find_ws(s, 0),
        decreases v.len() - e,
    {
        e = e + 1;
    }
    proof {
        lemma_find_ws(s, 0);
        assert(s.subrange(0, e - a) =~= v@.subrange(a as int, e as int));
        assert(s.subrange(e - a, s.len() as int) =~= v@.subrange(e as int, v.len() as int));
    }
    Some((string_of_range(v, a, e), e))
}

/// `pat` occurs somewhere in `s`.
pub open spec fn contains_text(s: Seq<char>, pat: Seq<char>) -> bool {
    exists|i: int| 0 <= i <= s.len() - pat.len() && #[trigger] s.subrange(i, i + pat.len()) == pat
}

/// Whether `pat` occurs in `v[lo..]`.
fn contains_at(v: &Vec<char>, lo: usize, pat: &Vec<char>) -> (r: bool)
    requires
        lo <= v.len(),
    ensures
        r == contains_text(v@.subrange(lo as int, v.len() as int), pat@),
{
    let ghost s = v@.subrange(lo as int, v.len() as int);
    if pat.len() > v.len() - lo {
        return false;
    }
    if pat.len() == 0 {
        assert(s.subrange(0, 0 + pat.len()) =~= pat@);
        return true;
    }
    let mut i = lo;
    while i <= v.len() && pat.len() <= v.len() - i
        invariant
            lo <= i <= v.len(),
            1 <= pat.len() <= v.len() - lo,
            s == v@.subrange(lo as int, v.len() as int),
            forall|k: int| 0 <= k < i - lo ==> #[trigger] s.subrange(k, k + pat.len()) != pat@,
        decreases v.len() - i,
    {
        if range_eq(v, i, i + pat.len(), pat) {
            proof {
                assert(s.subrange(i - lo, i - lo + pat.len()) =~= v@.subrange(i as int, i + pat.len()));
            }
            return true;
        }
        proof {
            assert(s.subrange(i - lo, i - lo + pat.len()) =~= v@.subrange(i as int, i + pat.len()));
        }
        i = i + 1;
    }
    false
}

/// The old and new path tokens of a `diff --git` line and whether the
/// paths carry the `a/` and `b/` transport prefixes.
pub open spec fn diff_git_paths(line: Seq<char>) -> Option<(Seq<char>, Seq<char>, bool)> {
    if !has_prefix(line, "diff --git "@) {
        None
    } else {
        match git_token(line.subrange(11, line.len() as int)) {
            None => None,
            Some((a, rest)) => match git_token(rest) {
                None => None,
                Some((b, _)) => Some((
                    a,
                    b,
                    (has_prefix(a, "a/"@) && has_prefix(b, "b/"@)) || contains_text(rest, " b/"@)
                        || contains_text(rest, "\"b/"@),
                )),
            },
        }
    }
}

/// Parses the path tokens of a `diff --git` line held in `v`.
pub fn parse_diff_git_paths(line: &str, v: &Vec<char>) -> (r: Option<(String, String, bool)>)
    requires
        v@ == line@,
    ensures
        match r {
            Some((a, b, t)) => diff_git_paths(line@) == Some((a@, b@, t)),
            None => diff_git_paths(line@) is None,
        },
{
    let prefix = chars_of("diff --git ");
    proof {
        reveal_strlit("diff --git ");
        assert(v@.subrange(0, v.len() as int) =~= v@);
    }
    if !crate::text::starts_with_at(v, 0, v.len(), &prefix) {
        return None;
    }
    let (a, rest) = match take_git_path_token(line, v, 11) {
        None => {
            return None;
        },
        Some(x) => x,
    };
    let (b, _) = match take_git_path_token(line, v, rest) {
        None => {
            return None;
        },
        Some(x) => x,
    };
    let av = chars_of(a.as_str());
    let bv = chars_of(b.as_str());
    let pa = chars_of("a/");
    let pb = chars_of("b/");
    proof {
        assert(av@.subrange(0, av.len() as int) =~= av@);
        assert(bv@.subrange(0, bv.len() as int) =~= bv@);
    }
    let s1 = chars_of(" b/");
    let s2 = chars_of("\"b/");
    let t = (crate::text::starts_with_at(&av, 0, av.len(), &pa) && crate::text::starts_with_at(
        &bv,
        0,
        bv.len(),
        &pb,
    )) || contains_at(v, rest, &s1) || contains_at(v, rest, &s2);
    Some((a, b, t))
}

/// `p` without one leading `a/`, or else one leading `b/`.
pub open spec fn strip_ab(p: Seq<char>) -> Seq<char> {
    if has_prefix(p, "a/"@) || has_prefix(p, "b/"@) {
        p.subrange(2, p.len() as int)
    } else {
        p
    }
}

/// The repository path a diff path token names: unquoted, with the
/// transport prefix removed when the diff uses transport prefixes.
pub open spec fn repo_path_of_diff_path(raw: Seq<char>, transport: bool) -> Seq<char> {
    let d = git_unquote(raw);
    repo_form(
        if transport {
            strip_ab(d)
        } else {
            d
        },
    )
}

/// The repository path a diff path token names.
pub fn repo_path_from_diff_path(raw: &str, transport: bool) -> (r: NormPath)
    ensures
        r@ == repo_path_of_diff_path(raw@, transport),
{
    let decoded = decode_git_path(raw);
    if transport {
        let dv = chars_of(decoded.as_str());
        let pa = chars_of("a/");
        let pb = chars_of("b/");
        proof {
            reveal_strlit("a/");
            reveal_strlit("b/");
            assert(dv@.subrange(0, dv.len() as int) =~= dv@);
        }
        if crate::text::starts_with_at(&dv, 0, dv.len(), &pa) || crate::text::starts_with_at(
            &dv,
            0,
            dv.len(),
            &pb,
        ) {
            let rest = decoded.as_str().substring_char(2, dv.len());
            return NormPath::from_repo_path(rest);
        }
    }
    NormPath::from_repo_path(decoded.as_str())
}

/// The repository path a rename record names (no transport prefix).
pub fn repo_path_from_repository_path(raw: &str) -> (r: NormPath)
    ensures
        r@ == repo_form(git_unquote(raw@)),
{
    let decoded = decode_git_path(raw);
    NormPath::from_repo_path(decoded.as_str())
}

} // verus!
