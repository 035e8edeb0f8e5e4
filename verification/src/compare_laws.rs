//! What the pairing of two inventories keeps: every diagnostic of either
//! side is accounted for by exactly one place in the evidence.
use vstd::prelude::*;
use vstd::multiset::Multiset;
use crate::compare::{
    ambiguous_pass, ambiguous_step, base_leftovers, candidate_pair_spec, flags_of, group_closed,
    group_for, has_candidate_head, head_candidates, head_leftovers, insert_by_id, insert_by_key,
    least_group, mark, pair_pass, pair_step, pairing_spec, pick, ref_of, sort_by_id, sort_evidence,
    sorted_refs_spec, unique_passes, unused, comparability_reasons_spec, contextual_changes_spec,
    EvidenceView, PairState, PairingPass, ReasonCode, RefView,
};
use crate::inventory::{CompletionState, Inventory, RecordView};
use crate::path_map::{lemma_lex_irreflexive, lemma_lex_total, lemma_lex_transitive, lex_lt};
use crate::source::FileDeltaView;

verus! {

/// The references of one side (`base` or not) that an evidence item holds.
pub open spec fn item_refs(e: EvidenceView, base: bool) -> Seq<RefView> {
    match e {
        EvidenceView::Matched(b, h, _) => if base {
            seq![b]
        } else {
            seq![h]
        },
        EvidenceView::BaseOnly(b) => if base {
            seq![b]
        } else {
            seq![]
        },
        EvidenceView::HeadOnly(h) => if base {
            seq![]
        } else {
            seq![h]
        },
        EvidenceView::Ambiguous(bs, hs, _) => if base {
            bs
        } else {
            hs
        },
    }
}

/// All references of one side held by a list of evidence, counted with
/// multiplicity.
pub open spec fn refs_of(ev: Seq<EvidenceView>, base: bool) -> Multiset<RefView>
    decreases ev.len(),
{
    if ev.len() == 0 {
        Multiset::empty()
    } else {
        refs_of(ev.drop_last(), base).add(item_refs(ev.last(), base).to_multiset())
    }
}

proof fn lemma_refs_single(x: EvidenceView, side: bool)
    ensures
        refs_of(seq![x], side) == item_refs(x, side).to_multiset(),
{
    broadcast use vstd::multiset::group_multiset_axioms;

    let e = Seq::<EvidenceView>::empty();
    assert(seq![x].drop_last() =~= e);
    assert(seq![x].last() == x);
    assert(refs_of(e, side) == Multiset::<RefView>::empty());
    assert(refs_of(seq![x], side) == refs_of(e, side).add(item_refs(x, side).to_multiset()));
    assert(Multiset::<RefView>::empty().add(item_refs(x, side).to_multiset()) =~= item_refs(
        x,
        side,
    ).to_multiset());
}

proof fn lemma_empty_multiset()
    ensures
        Seq::<RefView>::empty().to_multiset() == Multiset::<RefView>::empty(),
{
    broadcast use vstd::seq_lib::group_to_multiset_ensures;

    assert(Seq::<RefView>::empty().to_multiset() =~= Multiset::<RefView>::empty());
}

proof fn lemma_refs_concat(a: Seq<EvidenceView>, b: Seq<EvidenceView>, side: bool)
    ensures
        refs_of(a + b, side) == refs_of(a, side).add(refs_of(b, side)),
    decreases b.len(),
{
    broadcast use vstd::multiset::group_multiset_axioms;

    if b.len() == 0 {
        assert(a + b =~= a);
        assert(refs_of(a, side).add(Multiset::empty()) =~= refs_of(a, side));
    } else {
        lemma_refs_concat(a, b.drop_last(), side);
        assert((a + b).drop_last() =~= a + b.drop_last());
        assert((a + b).last() == b.last());
        assert(refs_of(a + b, side) =~= refs_of(a, side).add(refs_of(b, side)));
    }
}

proof fn lemma_refs_insert_by_key(s: Seq<EvidenceView>, x: EvidenceView, side: bool)
    ensures
        refs_of(insert_by_key(s, x), side) == refs_of(s, side).add(item_refs(x, side).to_multiset()),
    decreases s.len(),
{
    broadcast use vstd::multiset::group_multiset_axioms;

    if s.len() == 0 {
        lemma_refs_single(x, side);
        assert(refs_of(s, side) =~= Multiset::empty());
    } else if crate::path_map::lex_lt(
        crate::compare::evidence_key(x),
        crate::compare::evidence_key(s.last()),
    ) {
        lemma_refs_insert_by_key(s.drop_last(), x, side);
        let t = insert_by_key(s.drop_last(), x);
        assert(t.push(s.last()).drop_last() =~= t);
        assert(refs_of(insert_by_key(s, x), side) =~= refs_of(s, side).add(
            item_refs(x, side).to_multiset(),
        ));
    } else {
        assert(s.push(x).drop_last() =~= s);
    }
}

/// Sorting evidence moves items, it neither adds nor drops references.
proof fn lemma_refs_sorted(s: Seq<EvidenceView>, side: bool)
    ensures
        refs_of(sort_evidence(s), side) == refs_of(s, side),
    decreases s.len(),
{
    if s.len() > 0 {
        lemma_refs_sorted(s.drop_last(), side);
        lemma_refs_insert_by_key(sort_evidence(s.drop_last()), s.last(), side);
    }
}

/// Sorting references by id permutes them.
pub proof fn lemma_sort_by_id_permutes(s: Seq<RefView>)
    ensures
        sort_by_id(s).to_multiset() == s.to_multiset(),
    decreases s.len(),
{
    broadcast use vstd::multiset::group_multiset_axioms;
    broadcast use vstd::seq_lib::group_to_multiset_ensures;

    if s.len() > 0 {
        lemma_sort_by_id_permutes(s.drop_last());
        lemma_insert_by_id_multiset(sort_by_id(s.drop_last()), s.last());
        assert(s.drop_last().push(s.last()) =~= s);
    }
}

proof fn lemma_insert_by_id_multiset(s: Seq<RefView>, x: RefView)
    ensures
        insert_by_id(s, x).to_multiset() == s.to_multiset().insert(x),
    decreases s.len(),
{
    broadcast use vstd::multiset::group_multiset_axioms;
    broadcast use vstd::seq_lib::group_to_multiset_ensures;

    if s.len() == 0 {
        assert(seq![x] =~= Seq::<RefView>::empty().push(x));
    } else if crate::path_map::lex_lt(x.observation_id, s.last().observation_id) {
        lemma_insert_by_id_multiset(s.drop_last(), x);
        assert(s.drop_last().push(s.last()) =~= s);
        assert(insert_by_id(s, x).to_multiset() =~= s.to_multiset().insert(x));
    }
}

/// Nothing is picked by flags that are all unset.
proof fn lemma_pick_unused(s: Seq<RefView>, n: nat)
    ensures
        pick(s, unused(n)) == Seq::<RefView>::empty(),
    decreases n,
{
    if n > 0 {
        assert(unused(n).drop_last() =~= unused((n - 1) as nat));
        lemma_pick_unused(s, (n - 1) as nat);
    }
}

/// Setting one unset flag picks one more element.
proof fn lemma_pick_set(s: Seq<RefView>, f: Seq<bool>, i: int)
    requires
        0 <= i < f.len(),
        !f[i],
    ensures
        pick(s, f.update(i, true)).to_multiset() == pick(s, f).to_multiset().insert(s[i]),
    decreases f.len(),
{
    broadcast use vstd::multiset::group_multiset_axioms;
    broadcast use vstd::seq_lib::group_to_multiset_ensures;

    let g = f.update(i, true);
    if i == f.len() - 1 {
        assert(g.drop_last() =~= f.drop_last());
        assert(pick(s, g) =~= pick(s, f.drop_last()).push(s[i]));
        assert(pick(s, f) =~= pick(s, f.drop_last()));
    } else {
        assert(g.drop_last() =~= f.drop_last().update(i, true));
        lemma_pick_set(s, f.drop_last(), i);
        let tail = if f.last() {
            seq![s[f.len() - 1]]
        } else {
            seq![]
        };
        vstd::seq_lib::lemma_multiset_commutative(pick(s, g.drop_last()), tail);
        vstd::seq_lib::lemma_multiset_commutative(pick(s, f.drop_last()), tail);
        assert(pick(s, g).to_multiset() =~= pick(s, f).to_multiset().insert(s[i]));
    }
}

/// Marking a group of unset flags picks the group's elements besides.
proof fn lemma_pick_mark(s: Seq<RefView>, f: Seq<bool>, g: Set<int>, n: int)
    requires
        0 <= n <= f.len(),
        forall|k: int| #[trigger] g.contains(k) ==> 0 <= k < f.len() && !f[k],
    ensures
        pick(s, mark(f, g).take(n)).to_multiset() == pick(s, f.take(n)).to_multiset().add(
            pick(s, flags_of(g, n as nat)).to_multiset(),
        ),
    decreases n,
{
    broadcast use vstd::multiset::group_multiset_axioms;
    broadcast use vstd::seq_lib::group_to_multiset_ensures;

    if n == 0 {
        assert(mark(f, g).take(0) =~= Seq::<bool>::empty());
        assert(f.take(0) =~= Seq::<bool>::empty());
        assert(flags_of(g, 0) =~= Seq::<bool>::empty());
    } else {
        lemma_pick_mark(s, f, g, n - 1);
        assert(mark(f, g).take(n).drop_last() =~= mark(f, g).take(n - 1));
        assert(f.take(n).drop_last() =~= f.take(n - 1));
        assert(flags_of(g, n as nat).drop_last() =~= flags_of(g, (n - 1) as nat));
        let k = n - 1;
        let e = seq![s[k]];
        let none = Seq::<RefView>::empty();
        let pm = pick(s, mark(f, g).take(k));
        let pf = pick(s, f.take(k));
        let pg = pick(s, flags_of(g, k as nat));
        if f[k] {
            assert(!g.contains(k));
            assert(pick(s, mark(f, g).take(n)) == pm + e);
            assert(pick(s, f.take(n)) == pf + e);
            assert(pick(s, flags_of(g, n as nat)) == pg + none);
            vstd::seq_lib::lemma_multiset_commutative(pm, e);
            vstd::seq_lib::lemma_multiset_commutative(pf, e);
            vstd::seq_lib::lemma_multiset_commutative(pg, none);
        } else if g.contains(k) {
            assert(pick(s, mark(f, g).take(n)) == pm + e);
            assert(pick(s, f.take(n)) == pf + none);
            assert(pick(s, flags_of(g, n as nat)) == pg + e);
            vstd::seq_lib::lemma_multiset_commutative(pm, e);
            vstd::seq_lib::lemma_multiset_commutative(pf, none);
            vstd::seq_lib::lemma_multiset_commutative(pg, e);
        } else {
            assert(pick(s, mark(f, g).take(n)) == pm + none);
            assert(pick(s, f.take(n)) == pf + none);
            assert(pick(s, flags_of(g, n as nat)) == pg + none);
            vstd::seq_lib::lemma_multiset_commutative(pm, none);
            vstd::seq_lib::lemma_multiset_commutative(pf, none);
            vstd::seq_lib::lemma_multiset_commutative(pg, none);
        }
        assert(pick(s, mark(f, g).take(n)).to_multiset() =~= pick(s, f.take(n)).to_multiset().add(
            pick(s, flags_of(g, n as nat)).to_multiset(),
        ));
    }
}

/// The base-only leftovers hold exactly the base references not yet used.
proof fn lemma_base_leftovers(s: Seq<RefView>, f: Seq<bool>, n: int)
    requires
        0 <= n <= f.len(),
        n <= s.len(),
    ensures
        refs_of(base_leftovers(s, f, n), true).add(pick(s, f.take(n)).to_multiset()) == s.take(
            n,
        ).to_multiset(),
        refs_of(base_leftovers(s, f, n), false) == Multiset::<RefView>::empty(),
    decreases n,
{
    broadcast use vstd::multiset::group_multiset_axioms;
    broadcast use vstd::seq_lib::group_to_multiset_ensures;

    if n == 0 {
        assert(f.take(0) =~= Seq::<bool>::empty());
        assert(s.take(0) =~= Seq::<RefView>::empty());
    } else {
        let k = n - 1;
        lemma_base_leftovers(s, f, k);
        let prev = base_leftovers(s, f, k);
        let tail = if !f[k] {
            seq![EvidenceView::BaseOnly(s[k])]
        } else {
            seq![]
        };
        lemma_refs_concat(prev, tail, true);
        lemma_refs_concat(prev, tail, false);
        assert(f.take(n).drop_last() =~= f.take(k));
        assert(s.take(n) =~= s.take(k).push(s[k]));
        let pk = pick(s, f.take(k));
        if f[k] {
            assert(pick(s, f.take(n)) == pk + seq![s[k]]);
            vstd::seq_lib::lemma_multiset_commutative(pk, seq![s[k]]);
            assert(refs_of(tail, true) =~= Multiset::<RefView>::empty());
            assert(refs_of(tail, false) =~= Multiset::<RefView>::empty());
        } else {
            assert(pick(s, f.take(n)) == pk + Seq::<RefView>::empty());
            vstd::seq_lib::lemma_multiset_commutative(pk, Seq::<RefView>::empty());
            lemma_refs_single(tail[0], true);
            lemma_refs_single(tail[0], false);
            lemma_empty_multiset();
            assert(tail =~= seq![tail[0]]);
        }
        assert(refs_of(base_leftovers(s, f, n), true).add(pick(s, f.take(n)).to_multiset()) =~= s.take(
            n,
        ).to_multiset());
        assert(refs_of(base_leftovers(s, f, n), false) =~= Multiset::<RefView>::empty());
    }
}

/// The head-only leftovers hold exactly the head references not yet used.
proof fn lemma_head_leftovers(s: Seq<RefView>, f: Seq<bool>, n: int)
    requires
        0 <= n <= f.len(),
        n <= s.len(),
    ensures
        refs_of(head_leftovers(s, f, n), false).add(pick(s, f.take(n)).to_multiset()) == s.take(
            n,
        ).to_multiset(),
        refs_of(head_leftovers(s, f, n), true) == Multiset::<RefView>::empty(),
    decreases n,
{
    broadcast use vstd::multiset::group_multiset_axioms;
    broadcast use vstd::seq_lib::group_to_multiset_ensures;

    if n == 0 {
        assert(f.take(0) =~= Seq::<bool>::empty());
        assert(s.take(0) =~= Seq::<RefView>::empty());
    } else {
        let k = n - 1;
        lemma_head_leftovers(s, f, k);
        let prev = head_leftovers(s, f, k);
        let tail = if !f[k] {
            seq![EvidenceView::HeadOnly(s[k])]
        } else {
            seq![]
        };
        lemma_refs_concat(prev, tail, true);
        lemma_refs_concat(prev, tail, false);
        assert(f.take(n).drop_last() =~= f.take(k));
        assert(s.take(n) =~= s.take(k).push(s[k]));
        let pk = pick(s, f.take(k));
        if f[k] {
            assert(pick(s, f.take(n)) == pk + seq![s[k]]);
            vstd::seq_lib::lemma_multiset_commutative(pk, seq![s[k]]);
            assert(refs_of(tail, true) =~= Multiset::<RefView>::empty());
            assert(refs_of(tail, false) =~= Multiset::<RefView>::empty());
        } else {
            assert(pick(s, f.take(n)) == pk + Seq::<RefView>::empty());
            vstd::seq_lib::lemma_multiset_commutative(pk, Seq::<RefView>::empty());
            lemma_refs_single(tail[0], true);
            lemma_refs_single(tail[0], false);
            lemma_empty_multiset();
            assert(tail =~= seq![tail[0]]);
        }
        assert(refs_of(head_leftovers(s, f, n), false).add(pick(s, f.take(n)).to_multiset()) =~= s.take(
            n,
        ).to_multiset());
        assert(refs_of(head_leftovers(s, f, n), true) =~= Multiset::<RefView>::empty());
    }
}


/// The evidence of a pairing state holds exactly the references marked used.
pub open spec fn accounted(st: PairState, base: Seq<RefView>, head: Seq<RefView>) -> bool {
    &&& st.bu.len() == base.len()
    &&& st.hu.len() == head.len()
    &&& refs_of(st.ev, true) == pick(base, st.bu).to_multiset()
    &&& refs_of(st.ev, false) == pick(head, st.hu).to_multiset()
}

proof fn lemma_refs_push(ev: Seq<EvidenceView>, x: EvidenceView, side: bool)
    ensures
        refs_of(ev.push(x), side) == refs_of(ev, side).add(item_refs(x, side).to_multiset()),
{
    assert(ev.push(x).drop_last() =~= ev);
}

proof fn lemma_single_multiset(x: RefView)
    ensures
        seq![x].to_multiset() == Multiset::<RefView>::empty().insert(x),
{
    broadcast use vstd::seq_lib::group_to_multiset_ensures;

    assert(seq![x] =~= Seq::<RefView>::empty().push(x));
    lemma_empty_multiset();
}

proof fn lemma_candidates_unused(
    p: PairingPass,
    b: RefView,
    head: Seq<RefView>,
    hu: Seq<bool>,
    src: Seq<(Seq<char>, FileDeltaView)>,
    n: int,
)
    requires
        n <= hu.len(),
    ensures
        forall|k: int|
            0 <= k < head_candidates(p, b, head, hu, src, n).len() ==> {
                let j = #[trigger] head_candidates(p, b, head, hu, src, n)[k];
                0 <= j < n && !hu[j]
            },
    decreases n,
{
    if n > 0 {
        lemma_candidates_unused(p, b, head, hu, src, n - 1);
        let prev = head_candidates(p, b, head, hu, src, n - 1);
        let c = head_candidates(p, b, head, hu, src, n);
        assert forall|k: int| 0 <= k < c.len() implies 0 <= #[trigger] c[k] < n && !hu[c[k]] by {
            if k < prev.len() {
                assert(c[k] == prev[k]);
            }
        }
    }
}

proof fn lemma_pair_step_accounted(
    p: PairingPass,
    base: Seq<RefView>,
    head: Seq<RefView>,
    src: Seq<(Seq<char>, FileDeltaView)>,
    st: PairState,
    i: int,
)
    requires
        0 <= i < base.len(),
        accounted(st, base, head),
    ensures
        accounted(pair_step(p, base, head, src, st, i), base, head),
{
    broadcast use vstd::multiset::group_multiset_axioms;

    if !st.bu[i] {
        let c = head_candidates(p, base[i], head, st.hu, src, head.len() as int);
        if c.len() == 1 {
            lemma_candidates_unused(p, base[i], head, st.hu, src, head.len() as int);
            let j = c[0];
            assert(0 <= j < head.len() && !st.hu[j]);
            let next = pair_step(p, base, head, src, st, i);
            if next != st {
                let m = next.ev.last();
                assert(next.ev == st.ev.push(m));
                lemma_refs_push(st.ev, m, true);
                lemma_refs_push(st.ev, m, false);
                lemma_single_multiset(base[i]);
                lemma_single_multiset(head[j]);
                lemma_pick_set(base, st.bu, i);
                lemma_pick_set(head, st.hu, j);
                assert(refs_of(next.ev, true) =~= pick(base, next.bu).to_multiset());
                assert(refs_of(next.ev, false) =~= pick(head, next.hu).to_multiset());
            }
        }
    }
}

proof fn lemma_pair_pass_accounted(
    p: PairingPass,
    base: Seq<RefView>,
    head: Seq<RefView>,
    src: Seq<(Seq<char>, FileDeltaView)>,
    st: PairState,
    n: int,
)
    requires
        n <= base.len(),
        accounted(st, base, head),
    ensures
        accounted(pair_pass(p, base, head, src, st, n), base, head),
    decreases n,
{
    if n > 0 {
        lemma_pair_pass_accounted(p, base, head, src, st, n - 1);
        lemma_pair_step_accounted(p, base, head, src, pair_pass(p, base, head, src, st, n - 1), n - 1);
    }
}

/// The unused references of both sides form a closed group.
proof fn lemma_all_unused_closed(
    base: Seq<RefView>,
    head: Seq<RefView>,
    bu: Seq<bool>,
    hu: Seq<bool>,
    src: Seq<(Seq<char>, FileDeltaView)>,
)
    requires
        bu.len() == base.len(),
        hu.len() == head.len(),
    ensures
        group_closed(
            Set::new(|b: int| 0 <= b < base.len() && !bu[b]),
            Set::new(|h: int| 0 <= h < head.len() && !hu[h]),
            base,
            head,
            bu,
            hu,
            src,
        ),
{
}

/// A base reference that is unused has a least closed group.
pub proof fn lemma_least_group_exists(
    start: int,
    base: Seq<RefView>,
    head: Seq<RefView>,
    bu: Seq<bool>,
    hu: Seq<bool>,
    src: Seq<(Seq<char>, FileDeltaView)>,
)
    requires
        0 <= start < base.len(),
        bu.len() == base.len(),
        hu.len() == head.len(),
        !bu[start],
    ensures
        exists|g: (Set<int>, Set<int>)| least_group(g.0, g.1, start, base, head, bu, hu, src),
{
    let all_b = Set::new(|b: int| 0 <= b < base.len() && !bu[b]);
    let all_h = Set::new(|h: int| 0 <= h < head.len() && !hu[h]);
    lemma_all_unused_closed(base, head, bu, hu, src);
    let bg = Set::new(
        |b: int|
            forall|b2: Set<int>, h2: Set<int>|
                #![trigger group_closed(b2, h2, base, head, bu, hu, src)]
                b2.contains(start) && group_closed(b2, h2, base, head, bu, hu, src) ==> b2.contains(b),
    );
    let hg = Set::new(
        |h: int|
            forall|b2: Set<int>, h2: Set<int>|
                #![trigger group_closed(b2, h2, base, head, bu, hu, src)]
                b2.contains(start) && group_closed(b2, h2, base, head, bu, hu, src) ==> h2.contains(h),
    );
    assert(all_b.contains(start));
    assert forall|b: int| #[trigger] bg.contains(b) implies 0 <= b < base.len() && !bu[b] by {
        assert(group_closed(all_b, all_h, base, head, bu, hu, src));
        assert(all_b.contains(b));
    }
    assert forall|h: int| #[trigger] hg.contains(h) implies 0 <= h < head.len() && !hu[h] by {
        assert(group_closed(all_b, all_h, base, head, bu, hu, src));
        assert(all_h.contains(h));
    }
    assert forall|b: int, h: int|
        bg.contains(b) && 0 <= h < head.len() && !hu[h] && #[trigger] candidate_pair_spec(
            base[b],
            head[h],
            src,
        ) implies hg.contains(h) by {
        assert forall|b2: Set<int>, h2: Set<int>|
            b2.contains(start) && #[trigger] group_closed(b2, h2, base, head, bu, hu, src) implies h2.contains(
            h,
        ) by {
            assert(b2.contains(b));
        }
    }
    assert forall|b: int, h: int|
        hg.contains(h) && 0 <= b < base.len() && !bu[b] && #[trigger] candidate_pair_spec(
            base[b],
            head[h],
            src,
        ) implies bg.contains(b) by {
        assert forall|b2: Set<int>, h2: Set<int>|
            b2.contains(start) && #[trigger] group_closed(b2, h2, base, head, bu, hu, src) implies b2.contains(
            b,
        ) by {
            assert(h2.contains(h));
        }
    }
    assert(group_closed(bg, hg, base, head, bu, hu, src));
    assert(bg.contains(start));
    assert forall|b2: Set<int>, h2: Set<int>|
        b2.contains(start) && #[trigger] group_closed(b2, h2, base, head, bu, hu, src) implies bg.subset_of(
        b2,
    ) && hg.subset_of(h2) by {
    }
    let g = (bg, hg);
    assert(least_group(g.0, g.1, start, base, head, bu, hu, src));
}

proof fn lemma_ambiguous_step_accounted(
    base: Seq<RefView>,
    head: Seq<RefView>,
    src: Seq<(Seq<char>, FileDeltaView)>,
    st: PairState,
    i: int,
)
    requires
        0 <= i < base.len(),
        accounted(st, base, head),
    ensures
        accounted(ambiguous_step(base, head, src, st, i), base, head),
{
    broadcast use vstd::multiset::group_multiset_axioms;

    if !st.bu[i] && has_candidate_head(base[i], head, st.hu, src) {
        lemma_least_group_exists(i, base, head, st.bu, st.hu, src);
        let g = group_for(i, base, head, st.bu, st.hu, src);
        assert(least_group(g.0, g.1, i, base, head, st.bu, st.hu, src));
        assert(group_closed(g.0, g.1, base, head, st.bu, st.hu, src));
        let next = ambiguous_step(base, head, src, st, i);
        let m = next.ev.last();
        assert(next.ev == st.ev.push(m));
        lemma_refs_push(st.ev, m, true);
        lemma_refs_push(st.ev, m, false);
        lemma_pick_mark(base, st.bu, g.0, base.len() as int);
        lemma_pick_mark(head, st.hu, g.1, head.len() as int);
        assert(mark(st.bu, g.0).take(base.len() as int) =~= mark(st.bu, g.0));
        assert(st.bu.take(base.len() as int) =~= st.bu);
        assert(mark(st.hu, g.1).take(head.len() as int) =~= mark(st.hu, g.1));
        assert(st.hu.take(head.len() as int) =~= st.hu);
        assert(refs_of(next.ev, true) =~= pick(base, next.bu).to_multiset());
        assert(refs_of(next.ev, false) =~= pick(head, next.hu).to_multiset());
    }
}

proof fn lemma_ambiguous_pass_accounted(
    base: Seq<RefView>,
    head: Seq<RefView>,
    src: Seq<(Seq<char>, FileDeltaView)>,
    st: PairState,
    n: int,
)
    requires
        n <= base.len(),
        accounted(st, base, head),
    ensures
        accounted(ambiguous_pass(base, head, src, st, n), base, head),
    decreases n,
{
    if n > 0 {
        lemma_ambiguous_pass_accounted(base, head, src, st, n - 1);
        lemma_ambiguous_step_accounted(base, head, src, ambiguous_pass(base, head, src, st, n - 1), n - 1);
    }
}

/// Pairing two reference lists places each reference of either side in
/// exactly one evidence item: matched, ambiguous, or left on its own side.
pub proof fn law_pairing_places_each_reference_once(
    base: Seq<RefView>,
    head: Seq<RefView>,
    src: Seq<(Seq<char>, FileDeltaView)>,
)
    ensures
        refs_of(pairing_spec(base, head, src), true) == base.to_multiset(),
        refs_of(pairing_spec(base, head, src), false) == head.to_multiset(),
{
    broadcast use vstd::multiset::group_multiset_axioms;

    let n = base.len() as int;
    let st0 = PairState { bu: unused(base.len()), hu: unused(head.len()), ev: seq![] };
    lemma_pick_unused(base, base.len());
    lemma_pick_unused(head, head.len());
    lemma_empty_multiset();
    assert(refs_of(st0.ev, true) == Multiset::<RefView>::empty());
    assert(accounted(st0, base, head));
    let st1 = pair_pass(PairingPass::Exact, base, head, src, st0, n);
    lemma_pair_pass_accounted(PairingPass::Exact, base, head, src, st0, n);
    let st2 = pair_pass(PairingPass::Mapped, base, head, src, st1, n);
    lemma_pair_pass_accounted(PairingPass::Mapped, base, head, src, st1, n);
    let st3 = pair_pass(PairingPass::Semantic, base, head, src, st2, n);
    lemma_pair_pass_accounted(PairingPass::Semantic, base, head, src, st2, n);
    let st4 = pair_pass(PairingPass::Context, base, head, src, st3, n);
    lemma_pair_pass_accounted(PairingPass::Context, base, head, src, st3, n);
    let st5 = pair_pass(PairingPass::Modified, base, head, src, st4, n);
    lemma_pair_pass_accounted(PairingPass::Modified, base, head, src, st4, n);
    assert(st5 == unique_passes(base, head, src));
    let st6 = ambiguous_pass(base, head, src, st5, n);
    lemma_ambiguous_pass_accounted(base, head, src, st5, n);
    let bl = base_leftovers(base, st6.bu, n);
    let hl = head_leftovers(head, st6.hu, head.len() as int);
    lemma_base_leftovers(base, st6.bu, n);
    lemma_head_leftovers(head, st6.hu, head.len() as int);
    assert(st6.bu.take(n) =~= st6.bu);
    assert(st6.hu.take(head.len() as int) =~= st6.hu);
    assert(base.take(n) =~= base);
    assert(head.take(head.len() as int) =~= head);
    let all = st6.ev + bl + hl;
    lemma_refs_sorted(all, true);
    lemma_refs_sorted(all, false);
    lemma_refs_concat(st6.ev + bl, hl, true);
    lemma_refs_concat(st6.ev + bl, hl, false);
    lemma_refs_concat(st6.ev, bl, true);
    lemma_refs_concat(st6.ev, bl, false);
    assert(refs_of(all, true) =~= base.to_multiset());
    assert(refs_of(all, false) =~= head.to_multiset());
}

/// Pairing two inventories' diagnostics accounts for each diagnostic of
/// either inventory exactly once: the base references held by the evidence
/// are the references of the base records, each as often as it occurs, and
/// likewise for the head.
pub proof fn law_each_observation_consumed_once(
    base: Seq<RecordView>,
    head: Seq<RecordView>,
    src: Seq<(Seq<char>, FileDeltaView)>,
)
    ensures
        refs_of(pairing_spec(sorted_refs_spec(base), sorted_refs_spec(head), src), true)
            == base.map_values(|d: RecordView| ref_of(d)).to_multiset(),
        refs_of(pairing_spec(sorted_refs_spec(base), sorted_refs_spec(head), src), false)
            == head.map_values(|d: RecordView| ref_of(d)).to_multiset(),
{
    law_pairing_places_each_reference_once(sorted_refs_spec(base), sorted_refs_spec(head), src);
    lemma_sort_by_id_permutes(base.map_values(|d: RecordView| ref_of(d)));
    lemma_sort_by_id_permutes(head.map_values(|d: RecordView| ref_of(d)));
}


/// The observation ids of `s` never decrease.
pub open spec fn ids_sorted(s: Seq<RefView>) -> bool {
    forall|i: int, j: int|
        0 <= i < j < s.len() ==> !lex_lt(#[trigger] s[j].observation_id, #[trigger] s[i].observation_id)
}

/// Where `insert_by_id` puts `x` into `s`.
proof fn lemma_insert_split(s: Seq<RefView>, x: RefView) -> (k: int)
    ensures
        0 <= k <= s.len(),
        forall|j: int| k <= j < s.len() ==> lex_lt(x.observation_id, #[trigger] s[j].observation_id),
        k > 0 ==> !lex_lt(x.observation_id, s[k - 1].observation_id),
    decreases s.len(),
{
    if s.len() > 0 && lex_lt(x.observation_id, s.last().observation_id) {
        let k = lemma_insert_split(s.drop_last(), x);
        assert forall|j: int| k <= j < s.len() implies lex_lt(
            x.observation_id,
            #[trigger] s[j].observation_id,
        ) by {
            if j < s.len() - 1 {
                assert(s.drop_last()[j] == s[j]);
            }
        }
        k
    } else {
        s.len() as int
    }
}

proof fn lemma_insert_keeps_sorted(s: Seq<RefView>, x: RefView)
    requires
        ids_sorted(s),
    ensures
        ids_sorted(insert_by_id(s, x)),
{
    let k = lemma_insert_split(s, x);
    crate::compare::lemma_insert_by_id_at(s, x, k);
    let r = insert_by_id(s, x);
    assert(r == s.take(k) + seq![x] + s.skip(k));
    assert(r.len() == s.len() + 1);
    assert forall|i: int| 0 <= i < k implies !lex_lt(x.observation_id, #[trigger] s[i].observation_id) by {
        if lex_lt(x.observation_id, s[i].observation_id) {
            let a = s[i].observation_id;
            let b = s[k - 1].observation_id;
            if i < k - 1 {
                assert(!lex_lt(b, a));
                lemma_lex_total(a, b);
                if a != b {
                    lemma_lex_transitive(x.observation_id, a, b);
                }
            }
        }
    }
    assert forall|i: int, j: int| 0 <= i < j < r.len() implies !lex_lt(
        #[trigger] r[j].observation_id,
        #[trigger] r[i].observation_id,
    ) by {
        let ri = if i < k {
            s[i]
        } else if i == k {
            x
        } else {
            s[i - 1]
        };
        let rj = if j < k {
            s[j]
        } else if j == k {
            x
        } else {
            s[j - 1]
        };
        assert(r[i] == ri);
        assert(r[j] == rj);
        if j == k {
            assert(!lex_lt(x.observation_id, s[i].observation_id));
        } else if i == k {
            assert(lex_lt(x.observation_id, s[j - 1].observation_id));
            lemma_lex_total(x.observation_id, s[j - 1].observation_id);
        }
    }
}

/// Sorting by id leaves the ids in order.
proof fn lemma_sort_by_id_sorted(s: Seq<RefView>)
    ensures
        ids_sorted(sort_by_id(s)),
    decreases s.len(),
{
    if s.len() > 0 {
        lemma_sort_by_id_sorted(s.drop_last());
        lemma_insert_keeps_sorted(sort_by_id(s.drop_last()), s.last());
    }
}

/// Two id-ordered sequences with the same elements, ids distinct, are equal.
proof fn lemma_sorted_unique(a: Seq<RefView>, b: Seq<RefView>)
    requires
        ids_sorted(a),
        ids_sorted(b),
        a.to_multiset() == b.to_multiset(),
        forall|i: int, j: int|
            0 <= i < j < a.len() ==> (#[trigger] a[i]).observation_id != (#[trigger] a[j]).observation_id,
    ensures
        a == b,
    decreases a.len(),
{
    broadcast use vstd::multiset::group_multiset_axioms;
    broadcast use vstd::seq_lib::group_to_multiset_ensures;

    if a.len() == 0 {
        assert(b.to_multiset().len() == 0);
        assert(b =~= a);
    } else {
        vstd::seq_lib::to_multiset_len(a);
        vstd::seq_lib::to_multiset_len(b);
        assert(b.len() == a.len());
        let n = a.len() - 1;
        let x = a.last();
        let y = b.last();
        assert(a.to_multiset().count(x) > 0);
        assert(b.contains(x));
        let q = choose|q: int| 0 <= q < b.len() && b[q] == x;
        assert(b.to_multiset().count(y) > 0);
        assert(a.contains(y));
        let p = choose|p: int| 0 <= p < a.len() && a[p] == y;
        if p != n {
            assert(!lex_lt(a[n].observation_id, a[p].observation_id));
            if q != n {
                assert(!lex_lt(b[n].observation_id, b[q].observation_id));
            } else {
                lemma_lex_irreflexive(x.observation_id);
            }
            lemma_lex_total(a[n].observation_id, a[p].observation_id);
            assert(a[p].observation_id != a[n].observation_id);
            assert(false);
        }
        assert(x == y);
        assert(a.drop_last().push(x) =~= a);
        assert(b.drop_last().push(y) =~= b);
        vstd::seq_lib::to_multiset_build(a.drop_last(), x);
        vstd::seq_lib::to_multiset_build(b.drop_last(), x);
        assert forall|v: RefView| a.drop_last().to_multiset().count(v) == b.drop_last().to_multiset().count(
            v,
        ) by {
            let ma = a.drop_last().to_multiset();
            let mb = b.drop_last().to_multiset();
            assert(a.to_multiset() == ma.insert(x));
            assert(b.to_multiset() == mb.insert(x));
            assert(ma.insert(x).count(v) == mb.insert(x).count(v));
        }
        assert(a.drop_last().to_multiset() =~= b.drop_last().to_multiset());
        lemma_sorted_unique(a.drop_last(), b.drop_last());
        assert(a =~= b);
    }
}

/// With distinct observation ids, the order in which an inventory lists its
/// diagnostics does not matter: lists holding the same references give the
/// same ordered references, hence the same pairing against any head and any
/// source correspondence.
pub proof fn law_record_order_irrelevant(
    a: Seq<RecordView>,
    b: Seq<RecordView>,
    head: Seq<RefView>,
    src: Seq<(Seq<char>, FileDeltaView)>,
)
    requires
        a.map_values(|d: RecordView| ref_of(d)).to_multiset() == b.map_values(
            |d: RecordView| ref_of(d),
        ).to_multiset(),
        forall|i: int, j: int|
            0 <= i < j < a.len() ==> (#[trigger] a[i]).observation_id != (#[trigger] a[j]).observation_id,
    ensures
        sorted_refs_spec(a) == sorted_refs_spec(b),
        pairing_spec(sorted_refs_spec(a), head, src) == pairing_spec(sorted_refs_spec(b), head, src),
        pairing_spec(head, sorted_refs_spec(a), src) == pairing_spec(head, sorted_refs_spec(b), src),
{
    broadcast use vstd::seq_lib::group_to_multiset_ensures;

    let ra = a.map_values(|d: RecordView| ref_of(d));
    let rb = b.map_values(|d: RecordView| ref_of(d));
    let sa = sort_by_id(ra);
    let sb = sort_by_id(rb);
    lemma_sort_by_id_sorted(ra);
    lemma_sort_by_id_sorted(rb);
    lemma_sort_by_id_permutes(ra);
    lemma_sort_by_id_permutes(rb);
    assert(ra.no_duplicates()) by {
        assert forall|i: int, j: int| 0 <= i < ra.len() && 0 <= j < ra.len() && i != j implies ra[i]
            != ra[j] by {
            if i < j {
                assert(a[i].observation_id != a[j].observation_id);
            } else {
                assert(a[j].observation_id != a[i].observation_id);
            }
        }
    }
    ra.lemma_multiset_has_no_duplicates();
    sa.lemma_multiset_has_no_duplicates_conv();
    assert forall|i: int, j: int| 0 <= i < j < sa.len() implies (#[trigger] sa[i]).observation_id
        != (#[trigger] sa[j]).observation_id by {
        assert(sa.to_multiset().count(sa[i]) > 0);
        assert(ra.contains(sa[i]));
        let p = choose|p: int| 0 <= p < ra.len() && ra[p] == sa[i];
        assert(sa.to_multiset().count(sa[j]) > 0);
        assert(ra.contains(sa[j]));
        let q = choose|q: int| 0 <= q < ra.len() && ra[q] == sa[j];
        assert(sa[i] != sa[j]);
        assert(p != q);
        if p < q {
            assert(a[p].observation_id != a[q].observation_id);
        } else {
            assert(a[q].observation_id != a[p].observation_id);
        }
    }
    lemma_sorted_unique(sa, sb);
}

/// With distinct observation ids on each side, reordering the diagnostics of
/// either inventory leaves the whole comparison unchanged: the contextual
/// changes and the comparability reasons do not read the diagnostics, and
/// the pairing evidence is that of the same ordered references.
pub proof fn law_comparison_order_irrelevant(
    base: Inventory,
    head: Inventory,
    base2: Inventory,
    head2: Inventory,
    src: Seq<(Seq<char>, FileDeltaView)>,
)
    requires
        base2.analysis == base.analysis,
        base2.upstream == base.upstream,
        head2.analysis == head.analysis,
        head2.upstream == head.upstream,
        base.diagnostics.deep_view().map_values(|d: RecordView| ref_of(d)).to_multiset()
            == base2.diagnostics.deep_view().map_values(|d: RecordView| ref_of(d)).to_multiset(),
        head.diagnostics.deep_view().map_values(|d: RecordView| ref_of(d)).to_multiset()
            == head2.diagnostics.deep_view().map_values(|d: RecordView| ref_of(d)).to_multiset(),
        forall|i: int, j: int|
            0 <= i < j < base.diagnostics.deep_view().len() ==> (
            #[trigger] base.diagnostics.deep_view()[i]).observation_id != (
            #[trigger] base.diagnostics.deep_view()[j]).observation_id,
        forall|i: int, j: int|
            0 <= i < j < head.diagnostics.deep_view().len() ==> (
            #[trigger] head.diagnostics.deep_view()[i]).observation_id != (
            #[trigger] head.diagnostics.deep_view()[j]).observation_id,
    ensures
        contextual_changes_spec(base2, head2) == contextual_changes_spec(base, head),
        comparability_reasons_spec(base2, head2) == comparability_reasons_spec(base, head),
        pairing_spec(
            sorted_refs_spec(base2.diagnostics.deep_view()),
            sorted_refs_spec(head2.diagnostics.deep_view()),
            src,
        ) == pairing_spec(
            sorted_refs_spec(base.diagnostics.deep_view()),
            sorted_refs_spec(head.diagnostics.deep_view()),
            src,
        ),
{
    let b = base.diagnostics.deep_view();
    let b2 = base2.diagnostics.deep_view();
    let h = head.diagnostics.deep_view();
    let h2 = head2.diagnostics.deep_view();
    law_record_order_irrelevant(b, b2, sorted_refs_spec(h), src);
    law_record_order_irrelevant(h, h2, sorted_refs_spec(b2), src);
}

/// Why two inventories are not comparable: the base or the head analysis is
/// not a successful complete one, or their hard provenance differs in any of
/// its fields (diagnostic format, command, repository, toolchain, target,
/// features, package selection, target selection). The reasons are empty,
/// so the comparison is comparable, exactly when none of these holds.
pub proof fn law_comparability_reasons(base: Inventory, head: Inventory)
    ensures
        comparability_reasons_spec(base, head).contains(ReasonCode::BaseAnalysisIncomplete)
            <==> base.upstream.completion != CompletionState::SuccessfulComplete,
        comparability_reasons_spec(base, head).contains(ReasonCode::HeadAnalysisIncomplete)
            <==> head.upstream.completion != CompletionState::SuccessfulComplete,
        comparability_reasons_spec(base, head).contains(ReasonCode::HardScopeMismatch) <==> (
        base.analysis.hard.diagnostic_format@ != head.analysis.hard.diagnostic_format@
            || base.analysis.hard.command.deep_view() != head.analysis.hard.command.deep_view()
            || base.analysis.hard.repository.deep_view() != head.analysis.hard.repository.deep_view()
            || base.analysis.hard.toolchain.deep_view() != head.analysis.hard.toolchain.deep_view()
            || base.analysis.hard.target.deep_view() != head.analysis.hard.target.deep_view()
            || base.analysis.hard.features.deep_view() != head.analysis.hard.features.deep_view()
            || base.analysis.hard.package_selection.deep_view()
            != head.analysis.hard.package_selection.deep_view()
            || base.analysis.hard.target_selection.deep_view()
            != head.analysis.hard.target_selection.deep_view()),
        comparability_reasons_spec(base, head).len() == 0 <==> (
        !comparability_reasons_spec(base, head).contains(ReasonCode::BaseAnalysisIncomplete)
            && !comparability_reasons_spec(base, head).contains(ReasonCode::HeadAnalysisIncomplete)
            && !comparability_reasons_spec(base, head).contains(ReasonCode::HardScopeMismatch)),
{
    let r = comparability_reasons_spec(base, head);
    let a = if base.upstream.completion != CompletionState::SuccessfulComplete {
        seq![ReasonCode::BaseAnalysisIncomplete]
    } else {
        seq![]
    };
    let b = if head.upstream.completion != CompletionState::SuccessfulComplete {
        seq![ReasonCode::HeadAnalysisIncomplete]
    } else {
        seq![]
    };
    let c = if crate::compare::hard_scope_differs(base, head) {
        seq![ReasonCode::HardScopeMismatch]
    } else {
        seq![]
    };
    assert(r =~= a + b + c);
    assert(r.contains(ReasonCode::BaseAnalysisIncomplete) <==> a.len() == 1) by {
        if a.len() == 1 {
            assert(r[0] == ReasonCode::BaseAnalysisIncomplete);
        }
    }
    assert(r.contains(ReasonCode::HeadAnalysisIncomplete) <==> b.len() == 1) by {
        if b.len() == 1 {
            assert(r[a.len() as int] == ReasonCode::HeadAnalysisIncomplete);
        }
    }
    assert(r.contains(ReasonCode::HardScopeMismatch) <==> c.len() == 1) by {
        if c.len() == 1 {
            assert(r[(a.len() + b.len()) as int] == ReasonCode::HardScopeMismatch);
        }
    }
    if r.len() > 0 {
        assert(r.contains(r[0]));
    }
}

} // verus!
