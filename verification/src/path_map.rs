//! Maps keyed by normalized paths, kept in ascending key order (the order
//! in which a `BTreeMap<NormPath, _>` walks its entries).
use vstd::prelude::*;
use crate::types::NormPath;

verus! {

/// Lexicographic order on texts by code point (the order of `str`'s `Ord`).
pub open spec fn lex_lt(a: Seq<char>, b: Seq<char>) -> bool
    decreases a.len(),
{
    if a.len() == 0 {
        b.len() > 0
    } else if b.len() == 0 {
        false
    } else if a[0] != b[0] {
        a[0] < b[0]
    } else {
        lex_lt(a.drop_first(), b.drop_first())
    }
}

pub proof fn lemma_lex_irreflexive(a: Seq<char>)
    ensures
        !lex_lt(a, a),
    decreases a.len(),
{
    if a.len() > 0 {
        lemma_lex_irreflexive(a.drop_first());
    }
}

pub proof fn lemma_lex_total(a: Seq<char>, b: Seq<char>)
    ensures
        a == b || lex_lt(a, b) || lex_lt(b, a),
        !(lex_lt(a, b) && lex_lt(b, a)),
    decreases a.len(),
{
    if a.len() > 0 && b.len() > 0 {
        if a[0] == b[0] {
            lemma_lex_total(a.drop_first(), b.drop_first());
            if a.drop_first() == b.drop_first() {
                assert(a =~= seq![a[0]] + a.drop_first());
                assert(b =~= seq![b[0]] + b.drop_first());
            }
        } else {

        }
    } else if a.len() == 0 && b.len() == 0 {
        assert(a =~= b);
    }
}

pub proof fn lemma_lex_transitive(a: Seq<char>, b: Seq<char>, c: Seq<char>)
    requires
        lex_lt(a, b),
        lex_lt(b, c),
    ensures
        lex_lt(a, c),
    decreases a.len(),
{
    if a.len() > 0 && b.len() > 0 && c.len() > 0 {
        if a[0] == b[0] && b[0] == c[0] {
            lemma_lex_transitive(a.drop_first(), b.drop_first(), c.drop_first());
        }
    }
}

/// Compares two texts: negative, zero or positive as `a` sorts before,
/// equal to, or after `b`.
pub fn compare_text(a: &str, b: &str) -> (r: i8)
    ensures
        (r < 0) == lex_lt(a@, b@),
        (r == 0) == (a@ == b@),
        (r > 0) == lex_lt(b@, a@),
{
    let av = crate::text::chars_of(a);
    let bv = crate::text::chars_of(b);
    let mut i: usize = 0;
    proof {
        lemma_lex_total(a@, b@);
        assert(a@.skip(0) =~= a@);
        assert(b@.skip(0) =~= b@);
    }
    while i < av.len() && i < bv.len() && av[i] == bv[i]
        invariant
            i <= av.len(),
            i <= bv.len(),
            av@ == a@,
            bv@ == b@,
            av@.take(i as int) == bv@.take(i as int),
            lex_lt(a@, b@) == lex_lt(a@.skip(i as int), b@.skip(i as int)),
            lex_lt(b@, a@) == lex_lt(b@.skip(i as int), a@.skip(i as int)),
        decreases av.len() - i,
    {
        proof {
            assert(a@.skip(i as int).drop_first() =~= a@.skip(i + 1));
            assert(b@.skip(i as int).drop_first() =~= b@.skip(i + 1));
            assert(av@.take(i + 1) =~= av@.take(i as int).push(av@[i as int]));
            assert(bv@.take(i + 1) =~= bv@.take(i as int).push(bv@[i as int]));
        }
        i = i + 1;
    }
    if i < av.len() && i < bv.len() {
        proof {
            if a@ == b@ {
                assert(av@[i as int] == bv@[i as int]);
            }
        }
        if av[i] < bv[i] {
            -1
        } else {
            1
        }
    } else if i < av.len() {
        proof {
            assert(a@.len() != b@.len());
        }
        1
    } else if i < bv.len() {
        proof {
            assert(a@.len() != b@.len());
        }
        -1
    } else {
        proof {
            assert(av@ =~= av@.take(i as int));
            assert(bv@ =~= bv@.take(i as int));
            lemma_lex_irreflexive(a@);
        }
        0
    }
}

/// Keys in strictly ascending order.
pub open spec fn sorted_keys<W>(s: Seq<(Seq<char>, W)>) -> bool {
    forall|i: int, j: int| 0 <= i < j < s.len() ==> lex_lt(#[trigger] s[i].0, #[trigger] s[j].0)
}

/// `s` with the entry `(k, v)` put in key order: an entry with key `k` is
/// replaced, otherwise the new entry goes before the first larger key.
pub open spec fn sorted_insert<W>(s: Seq<(Seq<char>, W)>, k: Seq<char>, v: W) -> Seq<(Seq<char>, W)>
    decreases s.len(),
{
    if s.len() == 0 {
        seq![(k, v)]
    } else if s[0].0 == k {
        seq![(k, v)] + s.drop_first()
    } else if lex_lt(k, s[0].0) {
        seq![(k, v)] + s
    } else {
        seq![s[0]] + sorted_insert(s.drop_first(), k, v)
    }
}

/// The value of the first entry of `s` with key `k`.
pub open spec fn lookup<W>(s: Seq<(Seq<char>, W)>, k: Seq<char>) -> Option<W>
    decreases s.len(),
{
    if s.len() == 0 {
        None
    } else if s[0].0 == k {
        Some(s[0].1)
    } else {
        lookup(s.drop_first(), k)
    }
}

proof fn lemma_sorted_insert_at<W>(s: Seq<(Seq<char>, W)>, k: Seq<char>, v: W, i: int)
    requires
        0 <= i <= s.len(),
        forall|j: int| 0 <= j < i ==> lex_lt(#[trigger] s[j].0, k),
        i < s.len() ==> !lex_lt(s[i].0, k),
    ensures
        sorted_insert(s, k, v) == if i < s.len() && s[i].0 == k {
            s.take(i) + seq![(k, v)] + s.skip(i + 1)
        } else {
            s.take(i) + seq![(k, v)] + s.skip(i)
        },
    decreases i,
{
    if i == 0 {
        assert(s.take(0) + seq![(k, v)] + s.skip(1) =~= seq![(k, v)] + s.drop_first());
        assert(s.take(0) + seq![(k, v)] + s.skip(0) =~= seq![(k, v)] + s);
        if s.len() > 0 && s[0].0 != k {
            lemma_lex_total(s[0].0, k);
        }
    } else {
        let t = s.drop_first();
        assert forall|j: int| 0 <= j < i - 1 implies lex_lt(#[trigger] t[j].0, k) by {
            assert(t[j] == s[j + 1]);
        }
        lemma_sorted_insert_at(t, k, v, i - 1);
        assert(lex_lt(s[0].0, k));
        lemma_lex_irreflexive(k);
        lemma_lex_total(s[0].0, k);
        assert(s[0].0 != k);
        assert(!lex_lt(k, s[0].0));
        if i < s.len() && s[i].0 == k {
            assert(seq![s[0]] + (t.take(i - 1) + seq![(k, v)] + t.skip(i)) =~= s.take(i) + seq![
                (k, v),
            ] + s.skip(i + 1));
        } else {
            assert(seq![s[0]] + (t.take(i - 1) + seq![(k, v)] + t.skip(i - 1)) =~= s.take(i)
                + seq![(k, v)] + s.skip(i));
        }
    }
}

proof fn lemma_lookup_first<W>(s: Seq<(Seq<char>, W)>, k: Seq<char>, i: int)
    requires
        0 <= i <= s.len(),
        forall|j: int| 0 <= j < i ==> (#[trigger] s[j]).0 != k,
    ensures
        lookup(s, k) == if i < s.len() && s[i].0 == k {
            Some(s[i].1)
        } else {
            lookup(s.skip(i), k)
        },
    decreases i,
{
    if i == 0 {
        assert(s.skip(0) =~= s);
    } else {
        let t = s.drop_first();
        assert forall|j: int| 0 <= j < i - 1 implies (#[trigger] t[j]).0 != k by {
            assert(t[j] == s[j + 1]);
        }
        assert(s[0].0 != k);
        lemma_lookup_first(t, k, i - 1);
        assert(t.skip(i - 1) =~= s.skip(i));
    }
}

/// Inserting into key-ordered entries keeps them in key order.
pub proof fn law_sorted_insert_keeps_order<W>(s: Seq<(Seq<char>, W)>, k: Seq<char>, v: W)
    requires
        sorted_keys(s),
    ensures
        sorted_keys(sorted_insert(s, k, v)),
    decreases s.len(),
{
    if s.len() > 0 && s[0].0 != k && !lex_lt(k, s[0].0) {
        let t = s.drop_first();
        assert(sorted_keys(t)) by {
            assert forall|i: int, j: int| 0 <= i < j < t.len() implies lex_lt(
                #[trigger] t[i].0,
                #[trigger] t[j].0,
            ) by {
                assert(t[i] == s[i + 1] && t[j] == s[j + 1]);
            }
        }
        law_sorted_insert_keeps_order(t, k, v);
        lemma_lex_total(s[0].0, k);
        let r = sorted_insert(t, k, v);
        lemma_sorted_insert_members(t, k, v);
        let u = seq![s[0]] + r;
        assert forall|i: int, j: int| 0 <= i < j < u.len() implies lex_lt(
            #[trigger] u[i].0,
            #[trigger] u[j].0,
        ) by {
            if i == 0 {
                let e = r[j - 1];
                if e.0 == k {
                } else {
                    let m = choose|m: int| 0 <= m < t.len() && t[m].0 == e.0;
                    assert(t[m] == s[m + 1]);
                }
            } else {
                assert(u[i] == r[i - 1] && u[j] == r[j - 1]);
            }
        }
    } else if s.len() > 0 && s[0].0 == k {
        let u = seq![(k, v)] + s.drop_first();
        assert forall|i: int, j: int| 0 <= i < j < u.len() implies lex_lt(
            #[trigger] u[i].0,
            #[trigger] u[j].0,
        ) by {
            assert(u[j].0 == s[j].0);
            if i > 0 {
                assert(u[i].0 == s[i].0);
            }
        }
    } else if s.len() > 0 {
        let u = seq![(k, v)] + s;
        assert forall|i: int, j: int| 0 <= i < j < u.len() implies lex_lt(
            #[trigger] u[i].0,
            #[trigger] u[j].0,
        ) by {
            assert(u[j] == s[j - 1]);
            if i > 0 {
                assert(u[i] == s[i - 1]);
            } else if j > 1 {
                lemma_lex_transitive(k, s[0].0, s[j - 1].0);
            }
        }
    }
}

/// Every key of `sorted_insert(s, k, v)` is `k` or a key of `s`.
/// Every entry of `r` maps a key to a different text.
pub open spec fn pairs_differ(r: Seq<(Seq<char>, Seq<char>)>) -> bool {
    forall|i: int| 0 <= i < r.len() ==> (#[trigger] r[i]).0 != r[i].1
}

/// The entries after an insertion are the inserted one and entries from before.
pub proof fn lemma_sorted_insert_entries<W>(s: Seq<(Seq<char>, W)>, k: Seq<char>, v: W)
    ensures
        forall|i: int|
            0 <= i < sorted_insert(s, k, v).len() ==> #[trigger] sorted_insert(s, k, v)[i] == (k, v)
                || exists|m: int| 0 <= m < s.len() && s[m] == sorted_insert(s, k, v)[i],
    decreases s.len(),
{
    let r = sorted_insert(s, k, v);
    if s.len() == 0 {
    } else if s[0].0 == k {
        assert forall|i: int| 0 <= i < r.len() implies #[trigger] r[i] == (k, v) || exists|m: int|
            0 <= m < s.len() && s[m] == r[i] by {
            if i > 0 {
                assert(r[i] == s[i]);
            }
        }
    } else if lex_lt(k, s[0].0) {
        assert forall|i: int| 0 <= i < r.len() implies #[trigger] r[i] == (k, v) || exists|m: int|
            0 <= m < s.len() && s[m] == r[i] by {
            if i > 0 {
                assert(r[i] == s[i - 1]);
            }
        }
    } else {
        let t = s.drop_first();
        lemma_sorted_insert_entries(t, k, v);
        assert forall|i: int| 0 <= i < r.len() implies #[trigger] r[i] == (k, v) || exists|m: int|
            0 <= m < s.len() && s[m] == r[i] by {
            if i == 0 {
                assert(s[0] == r[0]);
            } else {
                assert(r[i] == sorted_insert(t, k, v)[i - 1]);
                if sorted_insert(t, k, v)[i - 1] != (k, v) {
                    let m = choose|m: int| 0 <= m < t.len() && t[m] == sorted_insert(t, k, v)[i - 1];
                    assert(s[m + 1] == r[i]);
                }
            }
        }
    }
}

/// Inserting an entry whose key and text differ keeps every entry that way.
pub proof fn lemma_sorted_insert_differ(r: Seq<(Seq<char>, Seq<char>)>, k: Seq<char>, v: Seq<char>)
    requires
        pairs_differ(r),
        k != v,
    ensures
        pairs_differ(sorted_insert(r, k, v)),
{
    lemma_sorted_insert_entries(r, k, v);
    let q = sorted_insert(r, k, v);
    assert forall|i: int| 0 <= i < q.len() implies (#[trigger] q[i]).0 != q[i].1 by {
        if q[i] != (k, v) {
            let m = choose|m: int| 0 <= m < r.len() && r[m] == q[i];
            assert(r[m].0 != r[m].1);
        }
    }
}

pub proof fn lemma_sorted_insert_members<W>(s: Seq<(Seq<char>, W)>, k: Seq<char>, v: W)
    ensures
        forall|i: int|
            0 <= i < sorted_insert(s, k, v).len() ==> (#[trigger] sorted_insert(s, k, v)[i]).0
                == k || exists|m: int| 0 <= m < s.len() && s[m].0 == sorted_insert(s, k, v)[i].0,
    decreases s.len(),
{
    let r = sorted_insert(s, k, v);
    if s.len() > 0 && s[0].0 != k && !lex_lt(k, s[0].0) {
        let t = s.drop_first();
        lemma_sorted_insert_members(t, k, v);
        assert forall|i: int| 0 <= i < r.len() implies (#[trigger] r[i]).0 == k || exists|m: int|
            0 <= m < s.len() && s[m].0 == r[i].0 by {
            if i == 0 {
                assert(s[0].0 == r[0].0);
            } else {
                let q = sorted_insert(t, k, v);
                assert(r[i] == q[i - 1]);
                if q[i - 1].0 != k {
                    let m = choose|m: int| 0 <= m < t.len() && t[m].0 == q[i - 1].0;
                    assert(s[m + 1] == t[m]);
                }
            }
        }
    } else if s.len() > 0 && s[0].0 == k {
        assert forall|i: int| 0 <= i < r.len() implies (#[trigger] r[i]).0 == k || exists|m: int|
            0 <= m < s.len() && s[m].0 == r[i].0 by {
            if i > 0 {
                assert(s[i].0 == r[i].0);
            }
        }
    } else if s.len() > 0 {
        assert forall|i: int| 0 <= i < r.len() implies (#[trigger] r[i]).0 == k || exists|m: int|
            0 <= m < s.len() && s[m].0 == r[i].0 by {
            if i > 0 {
                assert(s[i - 1].0 == r[i].0);
            }
        }
    }
}

/// A map from normalized paths to values, walked in ascending key order.
#[derive(Clone, Debug, PartialEq, Eq)]
pub struct PathMap<V> {
    entries: Vec<(NormPath, V)>,
}

/// The entries of a vector of pairs, keys and values taken by their views.
pub open spec fn entry_views<V: View>(e: Seq<(NormPath, V)>) -> Seq<(Seq<char>, V::V)> {
    e.map_values(|p: (NormPath, V)| (p.0@, p.1@))
}

impl<V: View> PathMap<V> {
    /// The entries in walking order, keys and values by their views.
    pub closed spec fn seq(&self) -> Seq<(Seq<char>, V::V)> {
        entry_views(self.entries@)
    }

    /// An empty map.
    pub fn new() -> (m: Self)
        ensures
            m.seq() == Seq::<(Seq<char>, V::V)>::empty(),
    {
        let m = PathMap { entries: Vec::new() };
        assert(m.seq() =~= Seq::<(Seq<char>, V::V)>::empty());
        m
    }

    /// Number of entries.
    pub fn len(&self) -> (n: usize)
        ensures
            n == self.seq().len(),
    {
        self.entries.len()
    }

    /// Whether the map has no entry.
    pub fn is_empty(&self) -> (b: bool)
        ensures
            b == (self.seq().len() == 0),
    {
        self.entries.len() == 0
    }

    /// The entries in ascending key order.
    pub fn entries(&self) -> (r: &[(NormPath, V)])
        ensures
            entry_views(r@) == self.seq(),
    {
        self.entries.as_slice()
    }

    /// The value stored under `key`, if any.
    pub fn get(&self, key: &NormPath) -> (r: Option<&V>)
        ensures
            match r {
                Some(v) => lookup(self.seq(), key@) == Some(v@),
                None => lookup(self.seq(), key@) is None,
            },
    {
        let mut i: usize = 0;
        while i < self.entries.len()
            invariant
                i <= self.entries.len(),
                forall|j: int| 0 <= j < i ==> (#[trigger] self.seq()[j]).0 != key@,
            decreases self.entries.len() - i,
        {
            if self.entries[i].0.same_as(key) {
                proof {
                    lemma_lookup_first(self.seq(), key@, i as int);
                }
                return Some(&self.entries[i].1);
            }
            i = i + 1;
        }
        proof {
            lemma_lookup_first(self.seq(), key@, i as int);
            assert(self.seq().skip(i as int).len() == 0);
        }
        None
    }

    /// Whether an entry has the key `key`.
    pub fn contains_key(&self, key: &NormPath) -> (b: bool)
        ensures
            b == (lookup(self.seq(), key@) is Some),
    {
        self.get(key).is_some()
    }

    /// Puts `value` under `key`, replacing the value of an equal key.
    pub fn insert(&mut self, key: NormPath, value: V)
        ensures
            final(self).seq() == sorted_insert(old(self).seq(), key@, value@),
    {
        let ghost s = self.seq();
        let mut i: usize = 0;
        while i < self.entries.len() && compare_text(self.entries[i].0.as_str(), key.as_str()) < 0
            invariant
                i <= self.entries.len(),
                s == self.seq(),
                forall|j: int| 0 <= j < i ==> lex_lt(#[trigger] s[j].0, key@),
            decreases self.entries.len() - i,
        {
            i = i + 1;
        }
        proof {
            lemma_sorted_insert_at(s, key@, value@, i as int);
        }
        let ghost kv = key@;
        let ghost vv = value@;
        if i < self.entries.len() && self.entries[i].0.same_as(&key) {
            self.entries.set(i, (key, value));
            proof {
                assert(self.seq() =~= s.take(i as int) + seq![(kv, vv)] + s.skip(i + 1));
            }
        } else {
            self.entries.insert(i, (key, value));
            proof {
                assert(self.seq() =~= s.take(i as int) + seq![(kv, vv)] + s.skip(i as int));
            }
        }
    }
}

} // verus!
