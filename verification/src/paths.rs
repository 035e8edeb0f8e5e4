//! Repository-relative paths for diagnostic spans.
use vstd::prelude::*;
use crate::text::{chars_of, has_prefix, string_of, string_of_range, starts_with_at};
use crate::types::{diff_form, forward_slashes, NormPath};

verus! {

/// The path looks absolute: it starts with `/`, or with a drive letter
/// followed by `:/`.
pub open spec fn looks_absolute(s: Seq<char>) -> bool {
    (s.len() > 0 && s[0] == '/') || (s.len() >= 3 && (s[0] as u32) < 128 && s[1] == ':' && s[2] == '/')
}

/// `s` without trailing slashes.
pub open spec fn trim_end_slashes(s: Seq<char>) -> Seq<char>
    decreases s.len(),
{
    if s.len() > 0 && s.last() == '/' {
        trim_end_slashes(s.drop_last())
    } else {
        s
    }
}

/// `s` without leading slashes.
pub open spec fn trim_start_slashes(s: Seq<char>) -> Seq<char>
    decreases s.len(),
{
    if s.len() > 0 && s[0] == '/' {
        trim_start_slashes(s.drop_first())
    } else {
        s
    }
}

/// The repository-relative form of a span path: relative paths pass
/// through; absolute paths under `root` (the root followed by `/` or by
/// nothing) lose the root; other absolute paths
/// are dropped when `workspace_only`, else pass through. Separators become
/// forward slashes and the result is normalized as a diff path.
pub open spec fn relativize_spec(s: Seq<char>, root: Option<Seq<char>>, workspace_only: bool) -> Option<
    Seq<char>,
> {
    let keep = if workspace_only {
        None
    } else {
        Some(diff_form(forward_slashes(s)))
    };
    if !looks_absolute(s) {
        Some(diff_form(forward_slashes(s)))
    } else {
        match root {
            None => keep,
            Some(r) => {
                let rs = trim_end_slashes(r);
                if has_prefix(s, rs) && (s.len() == rs.len() || s[rs.len() as int] == '/') {
                    let rest = trim_start_slashes(s.subrange(rs.len() as int, s.len() as int));
                    if rest.len() == 0 {
                        keep
                    } else {
                        Some(diff_form(forward_slashes(rest)))
                    }
                } else {
                    keep
                }
            },
        }
    }
}

fn slashes_of(v: &Vec<char>, lo: usize, hi: usize) -> (r: String)
    requires
        lo <= hi <= v.len(),
    ensures
        r@ == forward_slashes(v@.subrange(lo as int, hi as int)),
{
    let mut out: Vec<char> = Vec::new();
    let mut i = lo;
    while i < hi
        invariant
            lo <= i <= hi <= v.len(),
            out@ == forward_slashes(v@.subrange(lo as int, i as int)),
        decreases hi - i,
    {
        let c = if v[i] == '\\' {
            '/'
        } else {
            v[i]
        };
        out.push(c);
        i = i + 1;
        assert(out@ =~= forward_slashes(v@.subrange(lo as int, i as int)));
    }
    string_of(&out)
}

/// Makes a span path repository-relative, or drops it when it lies outside
/// the repository and only workspace paths are wanted.
pub fn relativize_span_path(file: &NormPath, repo_root: Option<&NormPath>, workspace_only: bool) -> (r:
    Option<NormPath>)
    ensures
        match r {
            Some(p) => relativize_spec(file@, match repo_root {
                Some(x) => Some(x@),
                None => None,
            }, workspace_only) == Some(p@),
            None => relativize_spec(file@, match repo_root {
                Some(x) => Some(x@),
                None => None,
            }, workspace_only) is None,
        },
{
    let s = file.as_str();
    let v = chars_of(s);
    assert(v@.subrange(0, v.len() as int) =~= v@);
    let absolute = (v.len() > 0 && v[0] == '/') || (v.len() >= 3 && (v[0] as u32) < 128 && v[1] == ':'
        && v[2] == '/');
    if !absolute {
        let n = slashes_of(&v, 0, v.len());
        return Some(NormPath::new(n.as_str()));
    }
    let root = match repo_root {
        None => {
            if workspace_only {
                return None;
            } else {
                let n = slashes_of(&v, 0, v.len());
                return Some(NormPath::new(n.as_str()));
            }
        },
        Some(r) => r,
    };
    let rv = chars_of(root.as_str());
    let mut re = rv.len();
    assert(rv@.subrange(0, rv.len() as int) =~= rv@);
    while re > 0 && rv[re - 1] == '/'
        invariant
            re <= rv.len(),
            trim_end_slashes(rv@.subrange(0, re as int)) == trim_end_slashes(rv@),
        decreases re,
    {
        proof {
            assert(rv@.subrange(0, re as int).drop_last() =~= rv@.subrange(0, re - 1));
        }
        re = re - 1;
    }
    proof {
        assert(rv@.subrange(0, rv.len() as int) =~= rv@);
    }
    let rs = string_of_range(&rv, 0, re);
    let rsv = chars_of(rs.as_str());
    if starts_with_at(&v, 0, v.len(), &rsv) && (rsv.len() == v.len() || v[rsv.len()] == '/') {
        let mut k = rsv.len();
        while k < v.len() && v[k] == '/'
            invariant
                rsv.len() <= k <= v.len(),
                trim_start_slashes(v@.subrange(k as int, v.len() as int)) == trim_start_slashes(
                    v@.subrange(rsv.len() as int, v.len() as int),
                ),
            decreases v.len() - k,
        {
            proof {
                assert(v@.subrange(k as int, v.len() as int).drop_first() =~= v@.subrange(
                    k + 1,
                    v.len() as int,
                ));
            }
            k = k + 1;
        }
        proof {
            let t = v@.subrange(k as int, v.len() as int);
            if t.len() > 0 {
                assert(t[0] != '/');
            }
        }
        if k == v.len() {
            if workspace_only {
                return None;
            }
            let n = slashes_of(&v, 0, v.len());
            return Some(NormPath::new(n.as_str()));
        }
        let n = slashes_of(&v, k, v.len());
        return Some(NormPath::new(n.as_str()));
    }
    if workspace_only {
        None
    } else {
        let n = slashes_of(&v, 0, v.len());
        Some(NormPath::new(n.as_str()))
    }
}

} // verus!
