//! Tables of rows with a unique key. A table is seen as the map from key to record.

use vstd::prelude::*;

verus! {

/// The map of the pairs `s`.
pub open spec fn keyed<K, V>(s: Seq<(K, V)>) -> Map<K, V>
    decreases s.len(),
{
    if s.len() == 0 {
        Map::empty()
    } else {
        keyed(s.drop_last()).insert(s.last().0, s.last().1)
    }
}

/// No key occurs twice.
pub open spec fn unique_keys<K, V>(s: Seq<(K, V)>) -> bool {
    forall|i: int, j: int| 0 <= i < j < s.len() ==> (#[trigger] s[i]).0 != (#[trigger] s[j]).0
}

/// `m` without the entries that `gone` picks.
pub open spec fn without<K, V>(m: Map<K, V>, gone: spec_fn(V) -> bool) -> Map<K, V> {
    Map::new(|k: K| m.contains_key(k) && !gone(m[k]), |k: K| m[k])
}

/// The map holds the pairs and nothing else.
pub proof fn lemma_keyed<K, V>(s: Seq<(K, V)>)
    requires
        unique_keys(s),
    ensures
        forall|i: int|
            0 <= i < s.len() ==> keyed(s).contains_key((#[trigger] s[i]).0) && keyed(s)[s[i].0]
                == s[i].1,
        forall|k: K| #[trigger]
            keyed(s).contains_key(k) ==> exists|i: int|
                0 <= i < s.len() && (#[trigger] s[i]).0 == k,
    decreases s.len(),
{
    if s.len() > 0 {
        let t = s.drop_last();
        assert(unique_keys(t));
        lemma_keyed(t);
        assert forall|i: int| 0 <= i < s.len() implies keyed(s).contains_key((#[trigger] s[i]).0)
            && keyed(s)[s[i].0] == s[i].1 by {
            if i < t.len() {
                assert(t[i] == s[i]);
            }
        }
        assert forall|k: K| #[trigger] keyed(s).contains_key(k) implies exists|i: int|
            0 <= i < s.len() && (#[trigger] s[i]).0 == k by {
            if k == s.last().0 {
                assert(s[s.len() - 1].0 == k);
            } else {
                assert(keyed(t).contains_key(k));
                let i = choose|i: int| 0 <= i < t.len() && (#[trigger] t[i]).0 == k;
                assert(s[i].0 == k);
            }
        }
    }
}

/// Appending a pair with a new key.
pub proof fn lemma_keyed_push<K, V>(s: Seq<(K, V)>, k: K, v: V)
    requires
        unique_keys(s),
        !keyed(s).contains_key(k),
    ensures
        unique_keys(s.push((k, v))),
        keyed(s.push((k, v))) == keyed(s).insert(k, v),
{
    lemma_keyed(s);
    assert(s.push((k, v)).drop_last() =~= s);
}

/// Replacing the value at a position.
pub proof fn lemma_keyed_update<K, V>(s: Seq<(K, V)>, i: int, v: V)
    requires
        unique_keys(s),
        0 <= i < s.len(),
    ensures
        unique_keys(s.update(i, (s[i].0, v))),
        keyed(s.update(i, (s[i].0, v))) == keyed(s).insert(s[i].0, v),
{
    let t = s.update(i, (s[i].0, v));
    assert forall|a: int, b: int| 0 <= a < b < t.len() implies (#[trigger] t[a]).0 != (
    #[trigger] t[b]).0 by {
        assert(t[a].0 == s[a].0);
        assert(t[b].0 == s[b].0);
    }
    lemma_keyed(s);
    lemma_keyed(t);
    let k = s[i].0;
    assert forall|x: K| #[trigger] keyed(t).contains_key(x) == keyed(s).insert(k, v).contains_key(
        x,
    ) by {
        if keyed(t).contains_key(x) {
            let j = choose|j: int| 0 <= j < t.len() && (#[trigger] t[j]).0 == x;
            assert(s[j].0 == x);
        }
        if keyed(s).contains_key(x) {
            let j = choose|j: int| 0 <= j < s.len() && (#[trigger] s[j]).0 == x;
            assert(t[j].0 == x);
        }
        assert(t[i].0 == k);
    }
    assert forall|x: K| #[trigger] keyed(t).contains_key(x) implies keyed(t)[x] == keyed(s).insert(
        k,
        v,
    )[x] by {
        let j = choose|j: int| 0 <= j < t.len() && (#[trigger] t[j]).0 == x;
        assert(s[j].0 == x);
        if j != i {
            assert(t[i].0 == k);
            if j < i {
                assert(s[j].0 != s[i].0);
            } else {
                assert(s[i].0 != s[j].0);
            }
        }
    }
    assert(keyed(t) =~= keyed(s).insert(k, v));
}

/// Removing the pair at a position.
pub proof fn lemma_keyed_remove<K, V>(s: Seq<(K, V)>, i: int)
    requires
        unique_keys(s),
        0 <= i < s.len(),
    ensures
        unique_keys(s.remove(i)),
        keyed(s.remove(i)) == keyed(s).remove(s[i].0),
{
    let t = s.remove(i);
    let k = s[i].0;
    assert forall|a: int, b: int| 0 <= a < b < t.len() implies (#[trigger] t[a]).0 != (
    #[trigger] t[b]).0 by {
        let a2 = if a < i { a } else { a + 1 };
        let b2 = if b < i { b } else { b + 1 };
        assert(t[a] == s[a2]);
        assert(t[b] == s[b2]);
    }
    lemma_keyed(s);
    lemma_keyed(t);
    assert forall|x: K| #[trigger] keyed(t).contains_key(x) == keyed(s).remove(k).contains_key(
        x,
    ) by {
        if keyed(t).contains_key(x) {
            let j = choose|j: int| 0 <= j < t.len() && (#[trigger] t[j]).0 == x;
            let j2 = if j < i { j } else { j + 1 };
            assert(s[j2] == t[j]);
            if j2 < i {
                assert(s[j2].0 != s[i].0);
            } else {
                assert(s[i].0 != s[j2].0);
            }
        }
        if keyed(s).remove(k).contains_key(x) {
            assert(keyed(s).contains_key(x));
            let j = choose|j: int| 0 <= j < s.len() && (#[trigger] s[j]).0 == x;
            let j2 = if j < i { j } else { j - 1 };
            assert(t[j2] == s[j]);
        }
    }
    assert forall|x: K| #[trigger] keyed(t).contains_key(x) implies keyed(t)[x] == keyed(s)[x] by {
        let j = choose|j: int| 0 <= j < t.len() && (#[trigger] t[j]).0 == x;
        let j2 = if j < i { j } else { j + 1 };
        assert(s[j2] == t[j]);
    }
    assert(keyed(t) =~= keyed(s).remove(k));
}

/// The keys of `m` whose entries `f` picks.
pub open spec fn picked<K, V>(m: Map<K, V>, f: spec_fn(V) -> bool) -> Set<K> {
    Set::new(|k: K| m.contains_key(k) && f(m[k]))
}

/// How many pairs of `s` have a value that `f` picks.
pub open spec fn count_where<K, V>(s: Seq<(K, V)>, f: spec_fn(V) -> bool) -> nat
    decreases s.len(),
{
    if s.len() == 0 {
        0
    } else {
        count_where(s.drop_last(), f) + if f(s.last().1) {
            1nat
        } else {
            0nat
        }
    }
}

/// Counting pairs counts keys, where no key occurs twice.
pub proof fn lemma_count_where<K, V>(s: Seq<(K, V)>, f: spec_fn(V) -> bool)
    requires
        unique_keys(s),
    ensures
        picked(keyed(s), f).finite(),
        picked(keyed(s), f).len() == count_where(s, f),
        count_where(s, f) <= s.len(),
    decreases s.len(),
{
    broadcast use vstd::set::group_set_axioms;

    if s.len() == 0 {
        assert(picked(keyed(s), f) =~= Set::<K>::empty());
    } else {
        let t = s.drop_last();
        let (k, v) = s.last();
        assert(unique_keys(t));
        lemma_count_where(t, f);
        lemma_keyed(t);
        assert(!keyed(t).contains_key(k)) by {
            if keyed(t).contains_key(k) {
                let i = choose|i: int| 0 <= i < t.len() && (#[trigger] t[i]).0 == k;
                assert(s[i].0 != s[s.len() - 1].0);
            }
        }
        if f(v) {
            assert(picked(keyed(s), f) =~= picked(keyed(t), f).insert(k));
        } else {
            assert(picked(keyed(s), f) =~= picked(keyed(t), f));
        }
    }
}

/// A row of a table: the record it holds, and the key of a record.
pub trait Row: Sized {
    type Key;

    type Rec;

    /// The record of the row.
    spec fn rec(self) -> Self::Rec;

    /// The key of a record.
    spec fn key(rec: Self::Rec) -> Self::Key;

    /// Whether the other row has the same key.
    fn same_key(&self, other: &Self) -> (r: bool)
        ensures
            r == (Self::key(self.rec()) == Self::key(other.rec())),
    ;
}

/// Rows as pairs of key and record.
pub open spec fn pairs<R: Row>(rows: Seq<R>) -> Seq<(R::Key, R::Rec)> {
    rows.map_values(|r: R| (R::key(r.rec()), r.rec()))
}

/// The records of some rows.
pub open spec fn recs<R: Row>(rows: Seq<R>) -> Seq<R::Rec> {
    rows.map_values(|r: R| r.rec())
}

/// Rows, in the order in which they came.
#[verifier::reject_recursive_types(R)]
pub struct Table<R: Row> {
    pub rows: Vec<R>,
}

impl<R: Row> View for Table<R> {
    type V = Map<R::Key, R::Rec>;

    open spec fn view(&self) -> Map<R::Key, R::Rec> {
        keyed(pairs(self.rows@))
    }
}

impl<R: Row> Table<R> {
    /// No two rows have the same key.
    pub open spec fn wf(self) -> bool {
        unique_keys(pairs(self.rows@))
    }

    /// The row at `i` is the entry `k` of the table.
    pub proof fn lemma_row(self, i: int)
        requires
            self.wf(),
            0 <= i < self.rows@.len(),
        ensures
            self@.contains_key(R::key(self.rows@[i].rec())),
            self@[R::key(self.rows@[i].rec())] == self.rows@[i].rec(),
    {
        lemma_keyed(pairs(self.rows@));
        assert(pairs(self.rows@)[i].0 == R::key(self.rows@[i].rec()));
    }

    /// The position of the row with the key `k`.
    pub proof fn lemma_position(self, k: R::Key) -> (i: int)
        requires
            self.wf(),
            self@.contains_key(k),
        ensures
            0 <= i < self.rows@.len(),
            R::key(self.rows@[i].rec()) == k,
            self.rows@[i].rec() == self@[k],
    {
        lemma_keyed(pairs(self.rows@));
        let p = pairs(self.rows@);
        let i = choose|i: int| 0 <= i < p.len() && (#[trigger] p[i]).0 == k;
        assert(p[i].1 == self.rows@[i].rec());
        i
    }

    /// The key of an entry is the key of its record.
    pub proof fn lemma_keys(self)
        requires
            self.wf(),
        ensures
            forall|k: R::Key| #[trigger] self@.contains_key(k) ==> R::key(self@[k]) == k,
    {
        assert forall|k: R::Key| #[trigger] self@.contains_key(k) implies R::key(self@[k])
            == k by {
            let i = self.lemma_position(k);
        }
    }

    /// No rows.
    pub fn new() -> (r: Self)
        ensures
            r.wf(),
            r@ == Map::<R::Key, R::Rec>::empty(),
            r.rows@.len() == 0,
    {
        let r = Table { rows: Vec::new() };
        assert(pairs(r.rows@) =~= Seq::<(R::Key, R::Rec)>::empty());
        r
    }

    /// Appends a row with a new key.
    pub fn push(&mut self, row: R)
        requires
            old(self).wf(),
            !old(self)@.contains_key(R::key(row.rec())),
        ensures
            final(self).wf(),
            final(self)@ == old(self)@.insert(R::key(row.rec()), row.rec()),
            final(self).rows@ == old(self).rows@.push(row),
    {
        proof {
            lemma_keyed_push(pairs(self.rows@), R::key(row.rec()), row.rec());
            assert(pairs(self.rows@.push(row)) =~= pairs(self.rows@).push(
                (R::key(row.rec()), row.rec()),
            ));
        }
        self.rows.push(row);
    }

    /// Puts `row` in the place of the row at `i`, which has the same key.
    pub fn replace(&mut self, i: usize, row: R)
        requires
            old(self).wf(),
            i < old(self).rows@.len(),
            R::key(row.rec()) == R::key(old(self).rows@[i as int].rec()),
        ensures
            final(self).wf(),
            final(self)@ == old(self)@.insert(R::key(row.rec()), row.rec()),
            final(self).rows@ == old(self).rows@.update(i as int, row),
    {
        proof {
            lemma_keyed_update(pairs(self.rows@), i as int, row.rec());
            assert(pairs(self.rows@.update(i as int, row)) =~= pairs(self.rows@).update(
                i as int,
                (R::key(row.rec()), row.rec()),
            ));
        }
        self.rows.set(i, row);
    }

    /// Takes the row at `i` out.
    pub fn take_out(&mut self, i: usize)
        requires
            old(self).wf(),
            i < old(self).rows@.len(),
        ensures
            final(self).wf(),
            final(self)@ == old(self)@.remove(R::key(old(self).rows@[i as int].rec())),
            final(self).rows@ == old(self).rows@.remove(i as int),
    {
        proof {
            lemma_keyed_remove(pairs(self.rows@), i as int);
            assert(pairs(self.rows@.remove(i as int)) =~= pairs(self.rows@).remove(i as int));
        }
        self.rows.remove(i);
    }

    /// Takes out every row that `gone` picks, and counts them.
    pub fn take_out_all<F: Fn(&R) -> bool>(
        &mut self,
        gone: F,
        Ghost(out): Ghost<spec_fn(R::Rec) -> bool>,
    ) -> (n: usize)
        requires
            old(self).wf(),
            forall|r: &R| gone.requires((r,)),
            forall|r: &R, b: bool| gone.ensures((r,), b) ==> b == out(r.rec()),
        ensures
            final(self).wf(),
            final(self)@ == without(old(self)@, out),
            n == picked(old(self)@, out).len(),
    {
        let ghost m = self@;
        let mut i: usize = 0;
        let mut n: usize = 0;
        let ghost all = pairs(self.rows@);
        proof {
            lemma_count_where(all, out);
            assert(all.take(0) =~= Seq::<(R::Key, R::Rec)>::empty());
        }
        let len: usize = self.rows.len();
        while i < self.rows.len()
            invariant
                self.wf(),
                i <= self.rows@.len(),
                len == all.len(),
                n + self.rows@.len() == len,
                n == count_where(all.take(n + i), out),
                pairs(self.rows@).skip(i as int) == all.skip(n + i),
                forall|r: &R| gone.requires((r,)),
                forall|r: &R, b: bool| gone.ensures((r,), b) ==> b == out(r.rec()),
                forall|k: R::Key| #[trigger]
                    self@.contains_key(k) ==> m.contains_key(k) && m[k] == self@[k],
                forall|k: R::Key| #[trigger]
                    m.contains_key(k) && !out(m[k]) ==> self@.contains_key(k),
                forall|j: int| 0 <= j < i ==> !out((#[trigger] self.rows@[j]).rec()),
            decreases self.rows@.len() - i,
        {
            let ghost before = *self;
            let out_here = gone(&self.rows[i]);
            proof {
                self.lemma_row(i as int);
                let p = pairs(self.rows@);
                assert(p.skip(i as int)[0] == p[i as int]);
                assert(all.skip(n + i)[0] == all[n + i]);
                assert(all.take(n + i + 1).drop_last() =~= all.take(n + i));
                assert(all.take(n + i + 1).last() == all[n + i]);
                assert(all.skip(n + i).skip(1) =~= all.skip(n + i + 1));
                assert(p.skip(i as int).skip(1) =~= p.skip(i + 1));
            }
            if out_here {
                self.take_out(i);
                n = n + 1;
                proof {
                    assert(pairs(self.rows@).skip(i as int) =~= pairs(before.rows@).skip(i + 1));
                }
            } else {
                i = i + 1;
            }
        }
        proof {
            assert(all.take(all.len() as int) =~= all);
            assert forall|k: R::Key| #[trigger] self@.contains_key(k) implies !out(self@[k]) by {
                let j = self.lemma_position(k);
            }
            assert(self@ =~= without(m, out));
        }
        n
    }
}

/// The records at some positions.
pub open spec fn recs_at<R: Row>(rows: Seq<R>, at: Seq<usize>) -> Seq<R::Rec> {
    Seq::new(at.len(), |i: int| rows[at[i] as int].rec())
}

impl<R: Row> Table<R> {
    /// A table has as many keys as rows.
    pub proof fn lemma_len(self)
        requires
            self.wf(),
        ensures
            self@.dom().finite(),
            self@.dom().len() == self.rows@.len(),
    {
        lemma_pairs_len(self.rows@);
    }

    /// Rows with the same keys and changed records make the map with changed records.
    pub proof fn lemma_mapped(self, other: Self, f: spec_fn(R::Rec) -> R::Rec)
        requires
            self.wf(),
            other.wf(),
            other.rows@.len() == self.rows@.len(),
            forall|j: int|
                0 <= j < self.rows@.len() ==> (#[trigger] other.rows@[j]).rec() == f(
                    self.rows@[j].rec(),
                ) && R::key(other.rows@[j].rec()) == R::key(self.rows@[j].rec()),
        ensures
            other@ == self@.map_values(f),
    {
        assert forall|k: R::Key| #[trigger] other@.contains_key(k) implies self@.contains_key(k)
            && other@[k] == f(self@[k]) by {
            let j = other.lemma_position(k);
            self.lemma_row(j);
        }
        assert forall|k: R::Key| #[trigger] self@.contains_key(k) implies other@.contains_key(
            k,
        ) by {
            let j = self.lemma_position(k);
            assert(other.rows@[j].rec() == f(self.rows@[j].rec()));
            other.lemma_row(j);
        }
        assert(other@ =~= self@.map_values(f));
    }

    /// The records at different positions are different.
    pub proof fn lemma_distinct(self, a: int, b: int)
        requires
            self.wf(),
            0 <= a < self.rows@.len(),
            0 <= b < self.rows@.len(),
            a != b,
        ensures
            R::key(self.rows@[a].rec()) != R::key(self.rows@[b].rec()),
    {
        let p = pairs(self.rows@);
        if a < b {
            assert(p[a].0 != p[b].0);
        } else {
            assert(p[b].0 != p[a].0);
        }
    }

    /// The records at the positions that `f` picks are the entries that `f` picks.
    pub proof fn lemma_lists(self, at: Seq<usize>, f: spec_fn(R::Rec) -> bool)
        requires
            self.wf(),
            at.no_duplicates(),
            forall|p: usize|
                at.contains(p) <==> p < self.rows@.len() && f(self.rows@[p as int].rec()),
        ensures
            crate::catalog::lists(recs_at(self.rows@, at), self@, f),
            recs_at(self.rows@, at).no_duplicates(),
    {
        let s = recs_at(self.rows@, at);
        assert forall|i: int| 0 <= i < s.len() implies f(#[trigger] s[i]) && exists|k: R::Key|
            #[trigger] self@.contains_key(k) && self@[k] == s[i] by {
            assert(at.contains(at[i]));
            self.lemma_row(at[i] as int);
        }
        assert forall|k: R::Key| #[trigger] self@.contains_key(k) && f(self@[k]) implies s.contains(
            self@[k],
        ) by {
            let j = self.lemma_position(k);
            assert(j < self.rows.len() <= usize::MAX);
            assert(at.contains(j as usize));
            let i = choose|i: int| 0 <= i < at.len() && at[i] == j as usize;
            assert(s[i] == self@[k]);
        }
        assert forall|i: int, j: int| 0 <= i < s.len() && 0 <= j < s.len() && i != j implies s[i]
            != s[j] by {
            assert(at.contains(at[i]));
            assert(at.contains(at[j]));
            assert(at[i] != at[j]);
            self.lemma_distinct(at[i] as int, at[j] as int);
        }
    }
}

/// Rows with different keys have as many keys as there are rows.
pub proof fn lemma_pairs_len<R: Row>(rows: Seq<R>)
    requires
        unique_keys(pairs(rows)),
    ensures
        keyed(pairs(rows)).dom().finite(),
        keyed(pairs(rows)).dom().len() == rows.len(),
{
    let all = |r: R::Rec| true;
    lemma_count_where(pairs(rows), all);
    assert(picked(keyed(pairs(rows)), all) =~= keyed(pairs(rows)).dom());
    lemma_count_all(pairs(rows), all);
}

/// All pairs count, where every value is picked.
proof fn lemma_count_all<K, V>(s: Seq<(K, V)>, f: spec_fn(V) -> bool)
    requires
        forall|v: V| #[trigger] f(v),
    ensures
        count_where(s, f) == s.len(),
    decreases s.len(),
{
    if s.len() > 0 {
        lemma_count_all(s.drop_last(), f);
        assert(f(s.last().1));
    }
}

/// Whether no two rows have the same key.
pub fn all_keys_differ<R: Row>(rows: &Vec<R>) -> (r: bool)
    ensures
        r == unique_keys(pairs(rows@)),
{
    for i in 0..rows.len()
        invariant
            forall|a: int, b: int|
                0 <= a < b < i ==> R::key((#[trigger] rows@[a]).rec()) != R::key(
                    (#[trigger] rows@[b]).rec(),
                ),
    {
        for j in 0..i
            invariant
                i < rows@.len(),
                forall|a: int|
                    0 <= a < j ==> R::key((#[trigger] rows@[a]).rec()) != R::key(
                        rows@[i as int].rec(),
                    ),
        {
            if rows[i].same_key(&rows[j]) {
                proof {
                    let p = pairs(rows@);
                    assert(p[j as int].0 == p[i as int].0);
                }
                return false;
            }
        }
    }
    true
}

} // verus!
