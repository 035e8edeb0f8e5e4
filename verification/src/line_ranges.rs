//! Sets of line numbers as maximal inclusive ranges.
use vstd::prelude::*;
use crate::types::LineRange;

verus! {

/// Some range of `r` holds `line`.
pub open spec fn covers(r: Seq<LineRange>, line: u32) -> bool {
    exists|i: int| 0 <= i < r.len() && (#[trigger] r[i]).start <= line <= r[i].end
}

/// Ranges that are non-empty, ascending, and separated by at least one
/// missing line: the maximal runs of a set.
pub open spec fn canonical(r: Seq<LineRange>) -> bool {
    &&& forall|i: int| 0 <= i < r.len() ==> (#[trigger] r[i]).start <= r[i].end
    &&& forall|i: int, j: int| 0 <= i < j < r.len() ==> (#[trigger] r[i]).end + 1 < (#[trigger] r[j]).start
}

/// `r` lists exactly the maximal runs of consecutive numbers in `s`.
pub open spec fn runs_of(r: Seq<LineRange>, s: Set<u32>) -> bool {
    canonical(r) && forall|l: u32|
        #![trigger covers(r, l)]
        #![trigger s.contains(l)]
        covers(r, l) <==> s.contains(l)
}

/// The maximal runs of a finite set of line numbers, in ascending order.
pub open spec fn ranges_of(s: Set<u32>) -> Seq<LineRange> {
    choose|r: Seq<LineRange>| runs_of(r, s)
}

/// The set of line numbers a sequence of ranges holds.
pub open spec fn lines_of(r: Seq<LineRange>) -> Set<u32> {
    Set::new(|l: u32| covers(r, l))
}

proof fn lemma_canonical_tail(r: Seq<LineRange>)
    requires
        canonical(r),
        r.len() > 0,
    ensures
        canonical(r.drop_first()),
        forall|l: u32| covers(r.drop_first(), l) <==> (covers(r, l) && l > r[0].end),
        forall|l: u32| covers(r, l) && l <= r[0].end ==> r[0].start <= l,
{
    let t = r.drop_first();
    assert forall|i: int, j: int| 0 <= i < j < t.len() implies (#[trigger] t[i]).end + 1 < (
    #[trigger] t[j]).start by {
        assert(t[i] == r[i + 1] && t[j] == r[j + 1]);
    }
    assert forall|i: int| 0 <= i < t.len() implies (#[trigger] t[i]).start <= t[i].end by {
        assert(t[i] == r[i + 1]);
    }
    assert forall|l: u32| covers(t, l) <==> (covers(r, l) && l > r[0].end) by {
        if covers(t, l) {
            let i = choose|i: int| 0 <= i < t.len() && (#[trigger] t[i]).start <= l <= t[i].end;
            assert(r[i + 1] == t[i]);
            assert(r[0].end + 1 < r[i + 1].start);
        }
        if covers(r, l) && l > r[0].end {
            let i = choose|i: int| 0 <= i < r.len() && (#[trigger] r[i]).start <= l <= r[i].end;
            assert(i > 0);
            assert(t[i - 1] == r[i]);
        }
    }
    assert forall|l: u32| covers(r, l) && l <= r[0].end implies r[0].start <= l by {
        let i = choose|i: int| 0 <= i < r.len() && (#[trigger] r[i]).start <= l <= r[i].end;
        if i > 0 {
            assert(r[0].end + 1 < r[i].start);
        }
    }
}

/// Two canonical range sequences holding the same lines are equal.
pub proof fn lemma_canonical_unique(a: Seq<LineRange>, b: Seq<LineRange>)
    requires
        canonical(a),
        canonical(b),
        forall|l: u32| covers(a, l) <==> covers(b, l),
    ensures
        a == b,
    decreases a.len() + b.len(),
{
    if a.len() == 0 || b.len() == 0 {
        if a.len() > 0 {
            assert(covers(a, a[0].start));
        }
        if b.len() > 0 {
            assert(covers(b, b[0].start));
        }
        assert(a =~= b);
    } else {
        lemma_canonical_tail(a);
        lemma_canonical_tail(b);
        assert(covers(a, a[0].start));
        assert(covers(b, b[0].start));
        assert(covers(a, a[0].end));
        assert(covers(b, b[0].end));
        // Equal starts: each first start is the least covered line.
        assert forall|l: u32| #[trigger] covers(a, l) implies a[0].start <= l by {
            let i = choose|i: int| 0 <= i < a.len() && (#[trigger] a[i]).start <= l <= a[i].end;
            if i > 0 {
                assert(a[0].end + 1 < a[i].start);
            }
        }
        assert forall|l: u32| #[trigger] covers(b, l) implies b[0].start <= l by {
            let i = choose|i: int| 0 <= i < b.len() && (#[trigger] b[i]).start <= l <= b[i].end;
            if i > 0 {
                assert(b[0].end + 1 < b[i].start);
            }
        }
        assert(a[0].start == b[0].start);
        // Equal ends: the line after a first end is not covered.
        if a[0].end < b[0].end {
            let l = (a[0].end + 1) as u32;
            assert(b[0].start <= l <= b[0].end);
            assert(covers(b, l));
            let i = choose|i: int| 0 <= i < a.len() && (#[trigger] a[i]).start <= l <= a[i].end;
            if i > 0 {
                assert(a[0].end + 1 < a[i].start);
            }
        }
        if b[0].end < a[0].end {
            let l = (b[0].end + 1) as u32;
            assert(a[0].start <= l <= a[0].end);
            assert(covers(a, l));
            let i = choose|i: int| 0 <= i < b.len() && (#[trigger] b[i]).start <= l <= b[i].end;
            if i > 0 {
                assert(b[0].end + 1 < b[i].start);
            }
        }
        assert(a[0] == b[0]);
        assert forall|l: u32| covers(a.drop_first(), l) <==> covers(b.drop_first(), l) by {
            assert(covers(a, l) == covers(b, l));
        }
        lemma_canonical_unique(a.drop_first(), b.drop_first());
        assert(a =~= seq![a[0]] + a.drop_first());
        assert(b =~= seq![b[0]] + b.drop_first());
    }
}

/// Canonical ranges are the runs of the lines they hold.
pub proof fn lemma_ranges_of(r: Seq<LineRange>, s: Set<u32>)
    requires
        runs_of(r, s),
    ensures
        ranges_of(s) == r,
{
    let c = ranges_of(s);
    assert(runs_of(c, s));
    assert forall|l: u32| covers(c, l) <==> covers(r, l) by {
        assert(s.contains(l) == s.contains(l));
    }
    lemma_canonical_unique(c, r);
}

/// Inserts `x` into an ascending, duplicate-free vector.
pub fn insert_line(v: &mut Vec<u32>, x: u32)
    requires
        forall|i: int, j: int| 0 <= i < j < old(v).len() ==> old(v)[i] < old(v)[j],
    ensures
        forall|i: int, j: int| 0 <= i < j < final(v).len() ==> final(v)[i] < final(v)[j],
        final(v)@.to_set() == old(v)@.to_set().insert(x),
{
    let ghost s = v@;
    let mut k = v.len();
    while k > 0 && v[k - 1] > x
        invariant
            k <= v.len(),
            v@ == s,
            forall|j: int| k <= j < v.len() ==> v[j] > x,
        decreases k,
    {
        k = k - 1;
    }
    if k > 0 && v[k - 1] == x {
        assert(v@.to_set() =~= s.to_set().insert(x)) by {
            assert(s[k - 1] == x);
            assert(s.contains(x));
        }
        return;
    }
    v.insert(k, x);
    proof {
        assert(v@ =~= s.take(k as int) + seq![x] + s.skip(k as int));
        assert forall|i: int, j: int| 0 <= i < j < v.len() implies v[i] < v[j] by {
            if i < k && j > k {
                assert(v[i] == s[i] && v[j] == s[j - 1]);
            } else if i < k && j == k {
                assert(v[i] == s[i]);
                if i < k - 1 {
                    assert(s[i] < s[k - 1]);
                }
            } else if i == k {
                assert(v[j] == s[j - 1]);
            } else if i < k {
                assert(v[i] == s[i] && v[j] == s[j]);
            } else {
                assert(v[i] == s[i - 1] && v[j] == s[j - 1]);
            }
        }
        assert forall|y: u32| v@.to_set().contains(y) <==> s.to_set().insert(x).contains(y) by {
            if v@.to_set().contains(y) {
                let i = choose|i: int| 0 <= i < v.len() && v@[i] == y;
                if i < k {
                    assert(s[i] == y);
                } else if i > k {
                    assert(s[i - 1] == y);
                }
            }
            if s.to_set().contains(y) && y != x {
                let i = choose|i: int| 0 <= i < s.len() && s[i] == y;
                if i < k {
                    assert(v[i] == y);
                } else {
                    assert(v[i + 1] == y);
                }
            }
            if y == x {
                assert(v[k as int] == x);
            }
        }
        assert(v@.to_set() =~= s.to_set().insert(x));
    }
}

/// Groups ascending, duplicate-free line numbers into maximal runs.
pub fn runs_of_sorted(lines: &Vec<u32>) -> (out: Vec<LineRange>)
    requires
        forall|i: int, j: int| 0 <= i < j < lines.len() ==> lines[i] < lines[j],
    ensures
        runs_of(out@, lines@.to_set()),
{
    let mut out: Vec<LineRange> = Vec::new();
    if lines.len() == 0 {
        assert forall|l: u32| covers(out@, l) <==> #[trigger] lines@.to_set().contains(l) by {
        }
        return out;
    }
    let mut start: u32 = lines[0];
    let mut prev: u32 = lines[0];
    let mut i: usize = 1;
    proof {
        assert(lines@.take(1) =~= seq![lines[0]]);
        assert forall|l: u32| #[trigger] lines@.take(1).contains(l) <==> l == lines[0] by {
            if l == lines[0] {
                assert(lines@.take(1)[0] == l);
            }
        }
    }
    while i < lines.len()
        invariant
            1 <= i <= lines.len(),
            forall|a: int, b: int| 0 <= a < b < lines.len() ==> lines[a] < lines[b],
            start <= prev,
            prev == lines[i - 1],
            canonical(out@),
            out.len() > 0 ==> out@.last().end + 1 < start,
            forall|l: u32| start <= l <= prev ==> lines@.take(i as int).contains(l),
            forall|l: u32|
                #[trigger] lines@.take(i as int).contains(l) <==> (covers(out@, l) || (start <= l
                    <= prev)),
        decreases lines.len() - i,
    {
        let line = lines[i];
        let ghost cur = lines@.take(i as int);
        let ghost nxt = lines@.take(i + 1);
        proof {
            assert(lines[i - 1] < lines[i as int]);
            assert(nxt =~= cur.push(line));
            assert forall|l: u32| #[trigger] nxt.contains(l) <==> (cur.contains(l) || l == line) by {
                if nxt.contains(l) {
                    let k = choose|k: int| 0 <= k < nxt.len() && nxt[k] == l;
                    if k < i {
                        assert(cur[k] == l);
                    }
                }
                if cur.contains(l) {
                    let k = choose|k: int| 0 <= k < cur.len() && cur[k] == l;
                    assert(nxt[k] == l);
                }
                if l == line {
                    assert(nxt[i as int] == l);
                }
            }
        }
        if line == prev + 1 {
            proof {
                assert forall|l: u32| start <= l <= line implies #[trigger] nxt.contains(l) by {
                    if l <= prev {
                        assert(cur.contains(l));
                        let k = choose|k: int| 0 <= k < i && cur[k] == l;
                        assert(nxt[k] == l);
                    } else {
                        assert(nxt[i as int] == l);
                    }
                }
                assert forall|l: u32|
                    #[trigger] nxt.contains(l) <==> (covers(out@, l) || (start <= l
                        <= line)) by {
                    if nxt.contains(l) && l != line {
                        let k = choose|k: int| 0 <= k < i + 1 && nxt[k] == l;
                        assert(cur[k] == l);
                    }
                    if covers(out@, l) || start <= l <= prev {
                        assert(cur.contains(l));
                        let k = choose|k: int| 0 <= k < i && cur[k] == l;
                        assert(nxt[k] == l);
                    }
                    if l == line {
                        assert(nxt[i as int] == l);
                    }
                }
            }
            prev = line;
        } else {
            let ghost old_out = out@;
            out.push(LineRange::new(start, prev));
            proof {
                assert forall|a: int, b: int| 0 <= a < b < out.len() implies (#[trigger] out@[a]).end
                    + 1 < (#[trigger] out@[b]).start by {
                    if b == out.len() - 1 && a < b {
                        assert(old_out.last().end + 1 < start);
                        if a < old_out.len() - 1 {
                            assert(out@[a] == old_out[a]);
                            assert(old_out[a].end + 1 < old_out.last().start);
                        }
                    } else {
                        assert(out@[a] == old_out[a] && out@[b] == old_out[b]);
                    }
                }
                assert forall|a: int| 0 <= a < out.len() implies (#[trigger] out@[a]).start
                    <= out@[a].end by {
                    if a < old_out.len() {
                        assert(out@[a] == old_out[a]);
                    }
                }
                assert forall|l: u32| covers(out@, l) <==> (covers(old_out, l) || (start <= l
                    <= prev)) by {
                    if covers(out@, l) {
                        let k = choose|k: int|
                            0 <= k < out.len() && (#[trigger] out@[k]).start <= l <= out@[k].end;
                        if k < old_out.len() {
                            assert(out@[k] == old_out[k]);
                        }
                    }
                    if covers(old_out, l) {
                        let k = choose|k: int|
                            0 <= k < old_out.len() && (#[trigger] old_out[k]).start <= l
                                <= old_out[k].end;
                        assert(out@[k] == old_out[k]);
                    }
                    if start <= l <= prev {
                        assert(out@[old_out.len() as int].start <= l);
                    }
                }
                assert forall|l: u32| line <= l <= line implies #[trigger] nxt.contains(l) by {
                    assert(nxt[i as int] == l);
                }
                assert forall|l: u32|
                    #[trigger] nxt.contains(l) <==> (covers(out@, l) || (line <= l
                        <= line)) by {
                    assert(nxt.contains(l) == (cur.contains(l) || l == line));
                    assert(cur.contains(l) == (covers(old_out, l) || (start <= l <= prev)));
                    assert(covers(out@, l) == (covers(old_out, l) || (start <= l <= prev)));
                }
            }
            start = line;
            prev = line;
        }
        i = i + 1;
    }
    let ghost old_out = out@;
    out.push(LineRange::new(start, prev));
    proof {
        assert(lines@.take(lines.len() as int) =~= lines@);
        assert forall|a: int, b: int| 0 <= a < b < out.len() implies (#[trigger] out@[a]).end + 1
            < (#[trigger] out@[b]).start by {
            if b == out.len() - 1 {
                assert(old_out.last().end + 1 < start);
                if a < old_out.len() - 1 {
                    assert(out@[a] == old_out[a]);
                    assert(old_out[a].end + 1 < old_out.last().start);
                }
            } else {
                assert(out@[a] == old_out[a] && out@[b] == old_out[b]);
            }
        }
        assert forall|a: int| 0 <= a < out.len() implies (#[trigger] out@[a]).start <= out@[a].end by {
            if a < old_out.len() {
                assert(out@[a] == old_out[a]);
            }
        }
        assert forall|l: u32| covers(out@, l) <==> #[trigger] lines@.to_set().contains(l) by {
            assert(lines@.to_set().contains(l) <==> lines@.contains(l));
            if covers(out@, l) {
                let k = choose|k: int| 0 <= k < out.len() && (#[trigger] out@[k]).start <= l
                    <= out@[k].end;
                if k < old_out.len() {
                    assert(out@[k] == old_out[k]);
                    assert(covers(old_out, l));
                }
            }
            if covers(old_out, l) {
                let k = choose|k: int| 0 <= k < old_out.len() && (#[trigger] old_out[k]).start
                    <= l <= old_out[k].end;
                assert(out@[k] == old_out[k]);
            }
            if start <= l <= prev {
                assert(out@[old_out.len() as int].start <= l);
            }
        }
    }
    out
}

/// Merges line numbers (in any order, repeats allowed) into the maximal runs
/// of consecutive numbers, ascending.
pub fn merge_lines_to_ranges(lines: Vec<u32>) -> (out: Vec<LineRange>)
    ensures
        runs_of(out@, lines@.to_set()),
        out@ == ranges_of(lines@.to_set()),
{
    let mut sorted: Vec<u32> = Vec::new();
    let mut i: usize = 0;
    while i < lines.len()
        invariant
            i <= lines.len(),
            forall|a: int, b: int| 0 <= a < b < sorted.len() ==> sorted[a] < sorted[b],
            sorted@.to_set() == lines@.take(i as int).to_set(),
        decreases lines.len() - i,
    {
        insert_line(&mut sorted, lines[i]);
        proof {
            assert(lines@.take(i + 1) =~= lines@.take(i as int).push(lines[i as int]));
            lines@.take(i as int).lemma_push_to_set_commute(lines[i as int]);
        }
        i = i + 1;
    }
    proof {
        assert(lines@.take(lines.len() as int) =~= lines@);
    }
    let out = runs_of_sorted(&sorted);
    proof {
        lemma_ranges_of(out@, lines@.to_set());
    }
    out
}

/// The runs of a set of lines are strictly increasing and non-adjacent:
/// each range ends before the next one starts.
pub proof fn law_merged_ranges_increase(lines: Seq<u32>)
    ensures
        forall|i: int|
            0 <= i < ranges_of(lines.to_set()).len() - 1 ==> (#[trigger] ranges_of(
                lines.to_set(),
            )[i]).end < ranges_of(lines.to_set())[i + 1].start,
{
    let s = lines.to_set();
    lemma_ranges_exist(s, lines);
    let r = ranges_of(s);
    assert forall|i: int| 0 <= i < r.len() - 1 implies (#[trigger] r[i]).end < r[i + 1].start by {
        assert(r[i].end + 1 < r[i + 1].start);
    }
}

/// Merging the lines that merged ranges hold gives the same ranges again.
pub proof fn law_merge_idempotent(lines: Seq<u32>)
    ensures
        ranges_of(lines_of(ranges_of(lines.to_set()))) == ranges_of(lines.to_set()),
{
    let s = lines.to_set();
    lemma_ranges_exist(s, lines);
    let r = ranges_of(s);
    assert(runs_of(r, lines_of(r)));
    lemma_ranges_of(r, lines_of(r));
}

/// The runs of the set of a sequence's elements exist.
pub proof fn lemma_ranges_exist(s: Set<u32>, lines: Seq<u32>)
    requires
        s == lines.to_set(),
    ensures
        runs_of(ranges_of(s), s),
{
    let r = runs_witness(lines);
    assert(runs_of(r, s));
}

/// Witness for the existence of runs: the runs of the sorted, duplicate-free
/// elements, built the same way as in `merge_lines_to_ranges`.
proof fn runs_witness(lines: Seq<u32>) -> (r: Seq<LineRange>)
    ensures
        runs_of(r, lines.to_set()),
    decreases lines.len(),
{
    if lines.len() == 0 {
        assert forall|l: u32| covers(seq![], l) <==> #[trigger] lines.to_set().contains(l) by {
        }
        seq![]
    } else {
        let x = lines.last();
        let rest = runs_witness(lines.drop_last());
        assert(lines =~= lines.drop_last().push(x));
        lines.drop_last().lemma_push_to_set_commute(x);
        add_line(rest, lines.drop_last().to_set(), x)
    }
}

/// The runs of `s ∪ {x}` from the runs of `s`.
proof fn add_line(r: Seq<LineRange>, s: Set<u32>, x: u32) -> (q: Seq<LineRange>)
    requires
        runs_of(r, s),
    ensures
        runs_of(q, s.insert(x)),
    decreases r.len(),
{
    if covers(r, x) {
        assert forall|l: u32| covers(r, l) <==> #[trigger] s.insert(x).contains(l) by {
        }
        r
    } else if r.len() == 0 {
        let q = seq![LineRange { start: x, end: x }];
        assert forall|l: u32| covers(q, l) <==> #[trigger] s.insert(x).contains(l) by {
            if l == x {
                assert(q[0].start <= l <= q[0].end);
            }
        }
        q
    } else {
        let f = r[0];
        lemma_canonical_tail(r);
        let t = r.drop_first();
        let st = s.filter(|l: u32| l > f.end);
        assert forall|l: u32| covers(t, l) <==> #[trigger] st.contains(l) by {
        }
        if (x as int) + 1 < f.start {
            let q = seq![LineRange { start: x, end: x }] + r;
            assert forall|i: int, j: int| 0 <= i < j < q.len() implies (#[trigger] q[i]).end + 1
                < (#[trigger] q[j]).start by {
                if i > 0 {
                    assert(q[i] == r[i - 1] && q[j] == r[j - 1]);
                } else {
                    assert(q[j] == r[j - 1]);
                    if j > 1 {
                        assert(r[0].end + 1 < r[j - 1].start);
                    }
                }
            }
            assert forall|i: int| 0 <= i < q.len() implies (#[trigger] q[i]).start <= q[i].end by {
                if i > 0 {
                    assert(q[i] == r[i - 1]);
                }
            }
            assert forall|l: u32| covers(q, l) <==> #[trigger] s.insert(x).contains(l) by {
                if covers(q, l) {
                    let i = choose|i: int| 0 <= i < q.len() && (#[trigger] q[i]).start <= l <= q[i].end;
                    if i > 0 {
                        assert(q[i] == r[i - 1]);
                        assert(covers(r, l));
                    }
                }
                if covers(r, l) {
                    let i = choose|i: int| 0 <= i < r.len() && (#[trigger] r[i]).start <= l <= r[i].end;
                    assert(q[i + 1] == r[i]);
                }
                if l == x {
                    assert(q[0].start <= l <= q[0].end);
                }
            }
            q
        } else if (x as int) + 1 == f.start {
            let q = seq![LineRange { start: x, end: f.end }] + t;
            assert forall|i: int, j: int| 0 <= i < j < q.len() implies (#[trigger] q[i]).end + 1
                < (#[trigger] q[j]).start by {
                assert(q[j] == r[j]);
                if i > 0 {
                    assert(q[i] == r[i]);
                } else {
                    assert(r[0].end + 1 < r[j].start);
                }
            }
            assert forall|i: int| 0 <= i < q.len() implies (#[trigger] q[i]).start <= q[i].end by {
                if i > 0 {
                    assert(q[i] == r[i]);
                }
            }
            assert forall|l: u32| covers(q, l) <==> #[trigger] s.insert(x).contains(l) by {
                if covers(q, l) {
                    let i = choose|i: int| 0 <= i < q.len() && (#[trigger] q[i]).start <= l <= q[i].end;
                    if i > 0 {
                        assert(q[i] == r[i]);
                        assert(covers(r, l));
                    } else if l != x {
                        assert(r[0].start <= l <= r[0].end);
                        assert(covers(r, l));
                    }
                }
                if covers(r, l) {
                    let i = choose|i: int| 0 <= i < r.len() && (#[trigger] r[i]).start <= l <= r[i].end;
                    if i > 0 {
                        assert(q[i] == r[i]);
                    } else {
                        assert(q[0].start <= l <= q[0].end);
                    }
                }
                if l == x {
                    assert(q[0].start <= l <= q[0].end);
                }
            }
            q
        } else {
            // x lies beyond the first run (x > f.end, since x is not covered).
            assert(x > f.end) by {
                if x <= f.end {
                    assert(f.start <= x);
                    assert(r[0].start <= x <= r[0].end);
                }
            }
            if (x as int) == f.end + 1 {
                // x joins the first run, possibly bridging to the second.
                if t.len() > 0 && t[0].start == (x as int) + 1 {
                    let q = seq![LineRange { start: f.start, end: t[0].end }] + t.drop_first();
                    assert forall|i: int, j: int| 0 <= i < j < q.len() implies (#[trigger] q[i]).end
                        + 1 < (#[trigger] q[j]).start by {
                        assert(q[j] == r[j + 1]);
                        if i > 0 {
                            assert(q[i] == r[i + 1]);
                        } else {
                            assert(r[1].end + 1 < r[j + 1].start);
                        }
                    }
                    assert forall|i: int| 0 <= i < q.len() implies (#[trigger] q[i]).start
                        <= q[i].end by {
                        if i > 0 {
                            assert(q[i] == r[i + 1]);
                        } else {
                            assert(r[1].start <= r[1].end);
                        }
                    }
                    assert forall|l: u32| covers(q, l) <==> #[trigger] s.insert(x).contains(l) by {
                        if covers(q, l) {
                            let i = choose|i: int|
                                0 <= i < q.len() && (#[trigger] q[i]).start <= l <= q[i].end;
                            if i > 0 {
                                assert(q[i] == r[i + 1]);
                                assert(covers(r, l));
                            } else if l < x {
                                assert(r[0].start <= l <= r[0].end);
                                assert(covers(r, l));
                            } else if l > x {
                                assert(r[1].start <= l <= r[1].end);
                                assert(covers(r, l));
                            }
                        }
                        if covers(r, l) {
                            let i = choose|i: int|
                                0 <= i < r.len() && (#[trigger] r[i]).start <= l <= r[i].end;
                            if i > 1 {
                                assert(q[i - 1] == r[i]);
                            } else {
                                assert(q[0].start <= l <= q[0].end);
                            }
                        }
                        if l == x {
                            assert(q[0].start <= l <= q[0].end);
                        }
                    }
                    q
                } else {
                    let q = seq![LineRange { start: f.start, end: x }] + t;
                    assert forall|i: int, j: int| 0 <= i < j < q.len() implies (#[trigger] q[i]).end
                        + 1 < (#[trigger] q[j]).start by {
                        assert(q[j] == r[j]);
                        if i > 0 {
                            assert(q[i] == r[i]);
                        } else {
                            assert(r[0].end + 1 < r[j].start);
                            if j > 1 {
                                assert(r[1].end + 1 < r[j].start);
                                assert(r[1].start <= r[1].end);
                            }
                        }
                    }
                    assert forall|i: int| 0 <= i < q.len() implies (#[trigger] q[i]).start
                        <= q[i].end by {
                        if i > 0 {
                            assert(q[i] == r[i]);
                        }
                    }
                    assert forall|l: u32| covers(q, l) <==> #[trigger] s.insert(x).contains(l) by {
                        if covers(q, l) {
                            let i = choose|i: int|
                                0 <= i < q.len() && (#[trigger] q[i]).start <= l <= q[i].end;
                            if i > 0 {
                                assert(q[i] == r[i]);
                                assert(covers(r, l));
                            } else if l != x {
                                assert(r[0].start <= l <= r[0].end);
                                assert(covers(r, l));
                            }
                        }
                        if covers(r, l) {
                            let i = choose|i: int|
                                0 <= i < r.len() && (#[trigger] r[i]).start <= l <= r[i].end;
                            if i > 0 {
                                assert(q[i] == r[i]);
                            } else {
                                assert(q[0].start <= l <= q[0].end);
                            }
                        }
                        if l == x {
                            assert(q[0].start <= l <= q[0].end);
                        }
                    }
                    q
                }
            } else {
                // x goes into the runs after the first one.
                assert forall|l: u32| covers(t, l) <==> #[trigger] st.contains(l) by {
                }
                assert(runs_of(t, st));
                let tq = add_line(t, st, x);
                let q = seq![f] + tq;
                assert forall|l: u32| covers(tq, l) ==> l > f.end + 1 by {
                    if covers(tq, l) {
                        assert(st.insert(x).contains(l));
                    }
                }
                assert forall|i: int, j: int| 0 <= i < j < q.len() implies (#[trigger] q[i]).end
                    + 1 < (#[trigger] q[j]).start by {
                    assert(q[j] == tq[j - 1]);
                    if i > 0 {
                        assert(q[i] == tq[i - 1]);
                    } else {
                        assert(covers(tq, tq[j - 1].start));
                    }
                }
                assert forall|i: int| 0 <= i < q.len() implies (#[trigger] q[i]).start <= q[i].end by {
                    if i > 0 {
                        assert(q[i] == tq[i - 1]);
                    }
                }
                assert forall|l: u32| covers(q, l) <==> #[trigger] s.insert(x).contains(l) by {
                    if covers(q, l) {
                        let i = choose|i: int| 0 <= i < q.len() && (#[trigger] q[i]).start <= l <= q[i].end;
                        if i > 0 {
                            assert(q[i] == tq[i - 1]);
                            assert(covers(tq, l));
                            assert(st.insert(x).contains(l));
                        } else {
                            assert(r[0].start <= l <= r[0].end);
                            assert(covers(r, l));
                        }
                    }
                    if s.insert(x).contains(l) {
                        if l <= f.end {
                            assert(covers(r, l));
                            assert(f.start <= l);
                            assert(q[0].start <= l <= q[0].end);
                        } else {
                            assert(st.insert(x).contains(l));
                            assert(covers(tq, l));
                            let i = choose|i: int| 0 <= i < tq.len() && (#[trigger] tq[i]).start <= l
                                <= tq[i].end;
                            assert(q[i + 1] == tq[i]);
                        }
                    }
                }
                q
            }
        }
    }
}

} // verus!
