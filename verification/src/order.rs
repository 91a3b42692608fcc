//! Orders and sorting.
//!
//! Texts are ordered by code point, which is also the order of their UTF-8 bytes.
//! Sorting works on positions in a table, and keeps rows of equal rank in table order.

use crate::text::chars_of;
use vstd::prelude::*;

verus! {

/// `a` is `b` or comes before it, by code point.
pub open spec fn text_le(a: Seq<char>, b: Seq<char>) -> bool
    decreases a.len(),
{
    if a.len() == 0 {
        true
    } else if b.len() == 0 {
        false
    } else if a[0] != b[0] {
        a[0] < b[0]
    } else {
        text_le(a.skip(1), b.skip(1))
    }
}

/// `a` comes before `b`.
pub open spec fn text_lt(a: Seq<char>, b: Seq<char>) -> bool {
    text_le(a, b) && a != b
}

/// The text order is total.
pub proof fn lemma_text_total(a: Seq<char>, b: Seq<char>)
    ensures
        text_le(a, b) || text_le(b, a),
    decreases a.len(),
{
    if a.len() > 0 && b.len() > 0 && a[0] == b[0] {
        lemma_text_total(a.skip(1), b.skip(1));
    }
}

/// The text order is transitive.
pub proof fn lemma_text_transitive(a: Seq<char>, b: Seq<char>, c: Seq<char>)
    requires
        text_le(a, b),
        text_le(b, c),
    ensures
        text_le(a, c),
    decreases a.len(),
{
    if a.len() > 0 && a[0] == b[0] && b[0] == c[0] {
        lemma_text_transitive(a.skip(1), b.skip(1), c.skip(1));
    }
}

/// The text order is antisymmetric.
pub proof fn lemma_text_antisymmetric(a: Seq<char>, b: Seq<char>)
    requires
        text_le(a, b),
        text_le(b, a),
    ensures
        a == b,
    decreases a.len(),
{
    if a.len() == 0 {
        assert(b.len() == 0);
        assert(a =~= b);
    } else {
        lemma_text_antisymmetric(a.skip(1), b.skip(1));
        assert(a =~= seq![a[0]] + a.skip(1));
        assert(b =~= seq![b[0]] + b.skip(1));
    }
}

/// `a` comes first by code point: where the two differ first it has the smaller character, or
/// it ends there.
pub open spec fn comes_first(a: Seq<char>, b: Seq<char>) -> bool {
    exists|k: int| #[trigger] parts_at(a, b, k)
}

/// `a` and `b` are the same up to `k`; there `a` ends, or has the smaller character.
pub open spec fn parts_at(a: Seq<char>, b: Seq<char>, k: int) -> bool {
    &&& 0 <= k <= a.len()
    &&& k < b.len()
    &&& forall|i: int| 0 <= i < k ==> a[i] == b[i]
    &&& k < a.len() ==> a[k] < b[k]
}

/// What comes first by code point comes first in the order of texts, and no other does.
pub proof fn law_texts_are_ordered_by_code_point(a: Seq<char>, b: Seq<char>)
    ensures
        comes_first(a, b) <==> text_lt(a, b),
        comes_first(a, b) ==> !text_le(b, a),
{
    if comes_first(a, b) {
        let k = choose|k: int| #[trigger] parts_at(a, b, k);
        lemma_first_is_before(a, b, k);
    }
    if text_lt(a, b) {
        lemma_before_is_first(a, b);
    }
}

proof fn lemma_first_is_before(a: Seq<char>, b: Seq<char>, k: int)
    requires
        parts_at(a, b, k),
    ensures
        text_le(a, b),
        !text_le(b, a),
        a != b,
    decreases k,
{
    if k > 0 {
        let (x, y) = (a.skip(1), b.skip(1));
        assert(a[0] == b[0]);
        assert forall|i: int| 0 <= i < k - 1 implies x[i] == y[i] by {
            assert(a[i + 1] == b[i + 1]);
        }
        lemma_first_is_before(x, y, k - 1);
    }
}

proof fn lemma_before_is_first(a: Seq<char>, b: Seq<char>)
    requires
        text_lt(a, b),
    ensures
        comes_first(a, b),
    decreases a.len(),
{
    if a.len() == 0 {
        if b.len() == 0 {
            assert(a =~= b);
        }
        assert(parts_at(a, b, 0));
    } else if a[0] != b[0] {
        assert(parts_at(a, b, 0));
    } else {
        let (x, y) = (a.skip(1), b.skip(1));
        if x == y {
            assert(a =~= seq![a[0]] + x);
            assert(b =~= seq![b[0]] + y);
        }
        lemma_before_is_first(x, y);
        let k = choose|k: int| #[trigger] parts_at(x, y, k);
        assert forall|i: int| 0 <= i < k + 1 implies a[i] == b[i] by {
            if i > 0 {
                assert(x[i - 1] == y[i - 1]);
            }
        }
        assert(parts_at(a, b, k + 1));
    }
}

/// Whether `a` is `b` or comes before it.
pub fn text_not_after(a: &str, b: &str) -> (r: bool)
    ensures
        r == text_le(a@, b@),
{
    let x = chars_of(a);
    let y = chars_of(b);
    let mut i: usize = 0;
    assert(a@.skip(0) =~= a@);
    assert(b@.skip(0) =~= b@);
    while i < x.len() && i < y.len()
        invariant
            x@ == a@,
            y@ == b@,
            i <= x@.len(),
            i <= y@.len(),
            text_le(a@, b@) == text_le(a@.skip(i as int), b@.skip(i as int)),
        decreases x@.len() - i,
    {
        if x[i] != y[i] {
            return x[i] < y[i];
        }
        assert(a@.skip(i as int).skip(1) =~= a@.skip(i + 1));
        assert(b@.skip(i as int).skip(1) =~= b@.skip(i + 1));
        i = i + 1;
    }
    i == x.len()
}

/// Rows that can be ranked: a total order in which different rows may rank equal.
pub trait Ranked: Sized {
    /// `a` ranks no later than `b`.
    spec fn ranks(a: Self, b: Self) -> bool;

    /// Any two rows can be ranked.
    proof fn ranks_total(a: Self, b: Self)
        ensures
            Self::ranks(a, b) || Self::ranks(b, a),
    ;

    /// Ranking is transitive.
    proof fn ranks_transitive(a: Self, b: Self, c: Self)
        requires
            Self::ranks(a, b),
            Self::ranks(b, c),
        ensures
            Self::ranks(a, c),
    ;

    /// Whether this row ranks no later than `other`.
    fn not_after(&self, other: &Self) -> (r: bool)
        ensures
            r == Self::ranks(*self, *other),
    ;
}

/// The row at `x` comes before the row at `y`: by rank, and by position where they rank equal.
pub open spec fn precedes<T: Ranked>(rows: Seq<T>, x: int, y: int) -> bool {
    T::ranks(rows[x], rows[y]) && (T::ranks(rows[y], rows[x]) ==> x < y)
}

/// The positions `s` are in order.
pub open spec fn in_order<T: Ranked>(rows: Seq<T>, s: Seq<usize>) -> bool {
    forall|i: int, j: int|
        0 <= i < j < s.len() ==> precedes(rows, #[trigger] s[i] as int, #[trigger] s[j] as int)
}

/// All positions of `s` are positions of `rows`.
pub open spec fn positions_of<T>(rows: Seq<T>, s: Seq<usize>) -> bool {
    forall|i: int| 0 <= i < s.len() ==> (#[trigger] s[i]) < rows.len()
}

/// The positions `s` increase.
pub open spec fn increasing(s: Seq<usize>) -> bool {
    forall|i: int, j: int| 0 <= i < j < s.len() ==> (#[trigger] s[i]) < (#[trigger] s[j])
}

proof fn lemma_precedes_transitive<T: Ranked>(rows: Seq<T>, x: int, y: int, z: int)
    requires
        precedes(rows, x, y),
        precedes(rows, y, z),
    ensures
        precedes(rows, x, z),
{
    T::ranks_transitive(rows[x], rows[y], rows[z]);
    if T::ranks(rows[z], rows[x]) {
        T::ranks_transitive(rows[z], rows[x], rows[y]);
        T::ranks_transitive(rows[y], rows[z], rows[x]);
    }
}

/// Two ordered runs of positions as one, where every position of `a` is below those of `b`.
fn merge<T: Ranked>(rows: &Vec<T>, a: &Vec<usize>, b: &Vec<usize>) -> (r: Vec<usize>)
    requires
        positions_of(rows@, a@),
        positions_of(rows@, b@),
        in_order(rows@, a@),
        in_order(rows@, b@),
        forall|i: int, j: int|
            0 <= i < a@.len() && 0 <= j < b@.len() ==> (#[trigger] a@[i]) < (#[trigger] b@[j]),
    ensures
        in_order(rows@, r@),
        r@.to_multiset() == a@.to_multiset().add(b@.to_multiset()),
{
    broadcast use {vstd::seq_lib::group_to_multiset_ensures, vstd::multiset::group_multiset_axioms};

    let mut r: Vec<usize> = Vec::new();
    let mut i: usize = 0;
    let mut j: usize = 0;
    proof {
        assert(a@.take(0) =~= Seq::<usize>::empty());
        assert(b@.take(0) =~= Seq::<usize>::empty());
        assert(r@.to_multiset() =~= a@.take(0).to_multiset().add(b@.take(0).to_multiset()));
    }
    while i < a.len() || j < b.len()
        invariant
            positions_of(rows@, a@),
            positions_of(rows@, b@),
            in_order(rows@, a@),
            in_order(rows@, b@),
            forall|x: int, y: int|
                0 <= x < a@.len() && 0 <= y < b@.len() ==> (#[trigger] a@[x]) < (#[trigger] b@[y]),
            i <= a@.len(),
            j <= b@.len(),
            in_order(rows@, r@),
            r@.to_multiset() == a@.take(i as int).to_multiset().add(
                b@.take(j as int).to_multiset(),
            ),
            forall|k: int, x: int|
                0 <= k < r@.len() && i <= x < a@.len() ==> precedes(
                    rows@,
                    #[trigger] r@[k] as int,
                    #[trigger] a@[x] as int,
                ),
            forall|k: int, y: int|
                0 <= k < r@.len() && j <= y < b@.len() ==> precedes(
                    rows@,
                    #[trigger] r@[k] as int,
                    #[trigger] b@[y] as int,
                ),
        decreases a@.len() - i + b@.len() - j,
    {
        let from_a = if i >= a.len() {
            false
        } else if j >= b.len() {
            true
        } else {
            rows[a[i]].not_after(&rows[b[j]])
        };
        let ghost before = r@;
        if from_a {
            r.push(a[i]);
            proof {
                assert(a@.take(i + 1) =~= a@.take(i as int).push(a@[i as int]));
                vstd::seq_lib::to_multiset_build(before, a@[i as int]);
                vstd::seq_lib::to_multiset_build(a@.take(i as int), a@[i as int]);
                assert(r@.to_multiset() =~= a@.take(i + 1).to_multiset().add(
                    b@.take(j as int).to_multiset(),
                ));
                assert forall|k: int, y: int|
                    0 <= k < r@.len() && j <= y < b@.len() implies precedes(
                    rows@,
                    #[trigger] r@[k] as int,
                    #[trigger] b@[y] as int,
                ) by {
                    if k == before.len() {
                        assert(a@[i as int] < b@[j as int]);
                        assert(precedes(rows@, a@[i as int] as int, b@[j as int] as int));
                        if y > j {
                            lemma_precedes_transitive(
                                rows@,
                                a@[i as int] as int,
                                b@[j as int] as int,
                                b@[y] as int,
                            );
                        }
                    } else {
                        assert(r@[k] == before[k]);
                    }
                }
            }
            i = i + 1;
        } else {
            r.push(b[j]);
            proof {
                assert(b@.take(j + 1) =~= b@.take(j as int).push(b@[j as int]));
                vstd::seq_lib::to_multiset_build(before, b@[j as int]);
                vstd::seq_lib::to_multiset_build(b@.take(j as int), b@[j as int]);
                assert(r@.to_multiset() =~= a@.take(i as int).to_multiset().add(
                    b@.take(j + 1).to_multiset(),
                ));
                assert forall|k: int, x: int|
                    0 <= k < r@.len() && i <= x < a@.len() implies precedes(
                    rows@,
                    #[trigger] r@[k] as int,
                    #[trigger] a@[x] as int,
                ) by {
                    if k == before.len() {
                        T::ranks_total(rows@[a@[i as int] as int], rows@[b@[j as int] as int]);
                        assert(precedes(rows@, b@[j as int] as int, a@[i as int] as int));
                        if x > i {
                            lemma_precedes_transitive(
                                rows@,
                                b@[j as int] as int,
                                a@[i as int] as int,
                                a@[x] as int,
                            );
                        }
                    } else {
                        assert(r@[k] == before[k]);
                    }
                }
            }
            j = j + 1;
        }
    }
    proof {
        assert(a@.take(a@.len() as int) =~= a@);
        assert(b@.take(b@.len() as int) =~= b@);
    }
    r
}

/// The positions `picked[from..to]` in order.
fn sort_range<T: Ranked>(rows: &Vec<T>, picked: &Vec<usize>, from: usize, to: usize) -> (r: Vec<
    usize,
>)
    requires
        from <= to <= picked@.len(),
        positions_of(rows@, picked@),
        increasing(picked@),
    ensures
        in_order(rows@, r@),
        r@.to_multiset() == picked@.subrange(from as int, to as int).to_multiset(),
    decreases to - from,
{
    broadcast use {vstd::seq_lib::group_to_multiset_ensures, vstd::multiset::group_multiset_axioms};

    let ghost whole = picked@.subrange(from as int, to as int);
    if to - from == 0 {
        assert(whole =~= Seq::<usize>::empty());
        return Vec::new();
    }
    if to - from == 1 {
        let mut r: Vec<usize> = Vec::new();
        r.push(picked[from]);
        assert(r@ =~= whole);
        return r;
    }
    let mid: usize = from + (to - from) / 2;
    let a = sort_range(rows, picked, from, mid);
    let b = sort_range(rows, picked, mid, to);
    proof {
        let left = picked@.subrange(from as int, mid as int);
        let right = picked@.subrange(mid as int, to as int);
        assert(whole =~= left + right);
        vstd::seq_lib::lemma_multiset_commutative(left, right);
        assert forall|i: int, j: int| 0 <= i < a@.len() && 0 <= j < b@.len() implies (
        #[trigger] a@[i]) < (#[trigger] b@[j]) by {
            assert(a@.contains(a@[i]));
            assert(b@.contains(b@[j]));
            assert(left.to_multiset().count(a@[i]) > 0);
            assert(right.to_multiset().count(b@[j]) > 0);
            assert(left.contains(a@[i]));
            assert(right.contains(b@[j]));
            let p = choose|p: int| 0 <= p < left.len() && left[p] == a@[i];
            let q = choose|q: int| 0 <= q < right.len() && right[q] == b@[j];
            assert(picked@[from + p] < picked@[mid + q]);
        }
        assert forall|i: int| 0 <= i < a@.len() implies (#[trigger] a@[i]) < rows@.len() by {
            assert(a@.contains(a@[i]));
            assert(left.to_multiset().count(a@[i]) > 0);
            assert(left.contains(a@[i]));
            let p = choose|p: int| 0 <= p < left.len() && left[p] == a@[i];
            assert(picked@[from + p] < rows@.len());
        }
        assert forall|j: int| 0 <= j < b@.len() implies (#[trigger] b@[j]) < rows@.len() by {
            assert(b@.contains(b@[j]));
            assert(right.to_multiset().count(b@[j]) > 0);
            assert(right.contains(b@[j]));
            let q = choose|q: int| 0 <= q < right.len() && right[q] == b@[j];
            assert(picked@[mid + q] < rows@.len());
        }
    }
    merge(rows, &a, &b)
}

/// The positions `picked` in the order of their rows; rows of equal rank keep their order.
pub fn sort_positions<T: Ranked>(rows: &Vec<T>, picked: &Vec<usize>) -> (r: Vec<usize>)
    requires
        positions_of(rows@, picked@),
        increasing(picked@),
    ensures
        in_order(rows@, r@),
        r@.to_multiset() == picked@.to_multiset(),
        r@.len() == picked@.len(),
        r@.no_duplicates(),
        forall|x: usize| r@.contains(x) <==> picked@.contains(x),
{
    broadcast use {vstd::seq_lib::group_to_multiset_ensures, vstd::multiset::group_multiset_axioms};

    let r = sort_range(rows, picked, 0, picked.len());
    proof {
        assert(picked@.subrange(0, picked@.len() as int) =~= picked@);
        assert(r@.len() == r@.to_multiset().len());
        assert forall|x: usize| r@.contains(x) <==> picked@.contains(x) by {
            assert(r@.contains(x) <==> r@.to_multiset().count(x) > 0);
            assert(picked@.contains(x) <==> picked@.to_multiset().count(x) > 0);
        }
        assert(picked@.no_duplicates());
        picked@.lemma_multiset_has_no_duplicates();
        r@.lemma_multiset_has_no_duplicates_conv();
    }
    r
}

/// All pairs of `s` are in the relation, earlier element first.
pub open spec fn ascending<A>(s: Seq<A>, lt: spec_fn(A, A) -> bool) -> bool {
    forall|i: int, j: int| 0 <= i < j < s.len() ==> lt(#[trigger] s[i], #[trigger] s[j])
}

/// No two elements are in the relation both ways.
pub open spec fn asymmetric<A>(lt: spec_fn(A, A) -> bool) -> bool {
    forall|x: A, y: A| #[trigger] lt(x, y) ==> !lt(y, x)
}

/// Two ascending sequences of the same elements are the same sequence.
pub proof fn lemma_ascending_is_unique<A>(s: Seq<A>, t: Seq<A>, lt: spec_fn(A, A) -> bool)
    requires
        asymmetric(lt),
        ascending(s, lt),
        ascending(t, lt),
        forall|x: A| s.contains(x) <==> t.contains(x),
    ensures
        s == t,
    decreases s.len(),
{
    if s.len() == 0 {
        if t.len() > 0 {
            assert(t.contains(t[0]));
            assert(s.contains(t[0]));
        }
        assert(s =~= t);
    } else {
        assert(s.contains(s[0]));
        assert(t.contains(s[0]));
        let j = choose|j: int| 0 <= j < t.len() && t[j] == s[0];
        assert(t.contains(t[0]));
        assert(s.contains(t[0]));
        let k = choose|k: int| 0 <= k < s.len() && s[k] == t[0];
        if j > 0 {
            assert(lt(t[0], t[j]));
            if k > 0 {
                assert(lt(s[0], s[k]));
            }
            assert(false);
        }
        let s1 = s.skip(1);
        let t1 = t.skip(1);
        assert(ascending(s1, lt));
        assert(ascending(t1, lt));
        assert forall|x: A| s1.contains(x) <==> t1.contains(x) by {
            if s1.contains(x) {
                let a = choose|a: int| 0 <= a < s1.len() && s1[a] == x;
                assert(s[a + 1] == x);
                assert(lt(s[0], s[a + 1]));
                assert(s.contains(x));
                assert(t.contains(x));
                let b = choose|b: int| 0 <= b < t.len() && t[b] == x;
                assert(b != 0);
                assert(t1[b - 1] == x);
            }
            if t1.contains(x) {
                let b = choose|b: int| 0 <= b < t1.len() && t1[b] == x;
                assert(t[b + 1] == x);
                assert(lt(t[0], t[b + 1]));
                assert(t.contains(x));
                assert(s.contains(x));
                let a = choose|a: int| 0 <= a < s.len() && s[a] == x;
                assert(a != 0);
                assert(s1[a - 1] == x);
            }
        }
        lemma_ascending_is_unique(s1, t1, lt);
        assert(s =~= seq![s[0]] + s1);
        assert(t =~= seq![t[0]] + t1);
    }
}

/// Mapping two arrangements of the same elements gives two arrangements of the same
/// elements.
pub proof fn lemma_same_multiset_mapped<A, B>(s: Seq<A>, t: Seq<A>, f: spec_fn(A) -> B)
    requires
        s.to_multiset() == t.to_multiset(),
    ensures
        s.map_values(f).to_multiset() == t.map_values(f).to_multiset(),
    decreases s.len(),
{
    broadcast use {vstd::seq_lib::group_to_multiset_ensures, vstd::multiset::group_multiset_axioms};

    if s.len() == 0 {
        assert(t.len() == t.to_multiset().len());
        assert(s.len() == s.to_multiset().len());
        assert(s.map_values(f) =~= t.map_values(f));
    } else {
        let x = s[0];
        assert(s.contains(x));
        assert(t.to_multiset().count(x) > 0);
        assert(t.contains(x));
        let k = choose|k: int| 0 <= k < t.len() && t[k] == x;
        vstd::seq_lib::to_multiset_remove(s, 0);
        vstd::seq_lib::to_multiset_remove(t, k);
        lemma_same_multiset_mapped(s.remove(0), t.remove(k), f);
        let (a, b) = (s.map_values(f), t.map_values(f));
        assert(s.remove(0).map_values(f) =~= a.remove(0));
        assert(t.remove(k).map_values(f) =~= b.remove(k));
        vstd::seq_lib::to_multiset_remove(a, 0);
        vstd::seq_lib::to_multiset_remove(b, k);
        assert(a.contains(a[0]));
        assert(b.contains(b[k]));
        assert(a.to_multiset() =~= a.to_multiset().remove(f(x)).insert(f(x)));
        assert(b.to_multiset() =~= b.to_multiset().remove(f(x)).insert(f(x)));
    }
}

/// `lt` puts any two different elements of `s` in order, and is transitive.
pub open spec fn orders<A>(s: Set<A>, lt: spec_fn(A, A) -> bool) -> bool {
    &&& forall|a: A, b: A|
        s.contains(a) && s.contains(b) && a != b ==> #[trigger] lt(a, b) || lt(b, a)
    &&& forall|a: A, b: A, c: A| #[trigger] lt(a, b) && #[trigger] lt(b, c) ==> lt(a, c)
}

/// A finite set that is in order has a last element.
proof fn lemma_last_exists<A>(s: Set<A>, lt: spec_fn(A, A) -> bool) -> (m: A)
    requires
        s.finite(),
        s.len() > 0,
        orders(s, lt),
    ensures
        s.contains(m),
        forall|x: A| s.contains(x) && x != m ==> #[trigger] lt(x, m),
    decreases s.len(),
{
    broadcast use vstd::set::group_set_axioms;

    let a = s.choose();
    assert(s.contains(a)) by {
        if s =~= Set::empty() {
            assert(s.len() == 0);
        }
    }
    let rest = s.remove(a);
    if rest.len() == 0 {
        assert forall|x: A| s.contains(x) && x != a implies #[trigger] lt(x, a) by {
            assert(rest.contains(x));
            vstd::set_lib::lemma_set_empty_equivalency_len(rest);
        }
        a
    } else {
        assert(orders(rest, lt));
        let m = lemma_last_exists(rest, lt);
        assert(lt(a, m) || lt(m, a));
        if lt(a, m) {
            m
        } else {
            assert forall|x: A| s.contains(x) && x != a implies #[trigger] lt(x, a) by {
                if x != m {
                    assert(rest.contains(x));
                    assert(lt(x, m) && lt(m, a));
                }
            }
            a
        }
    }
}

/// A finite set that is in order can be written out in order.
pub proof fn lemma_sorted_exists<A>(s: Set<A>, lt: spec_fn(A, A) -> bool) -> (r: Seq<A>)
    requires
        s.finite(),
        orders(s, lt),
    ensures
        ascending(r, lt),
        r.len() == s.len(),
        forall|x: A| r.contains(x) <==> s.contains(x),
    decreases s.len(),
{
    broadcast use vstd::set::group_set_axioms;

    if s.len() == 0 {
        vstd::set_lib::lemma_set_empty_equivalency_len(s);
        Seq::empty()
    } else {
        let m = lemma_last_exists(s, lt);
        let rest = s.remove(m);
        assert(orders(rest, lt));
        let q = lemma_sorted_exists(rest, lt);
        let r = q.push(m);
        assert forall|x: A| r.contains(x) <==> s.contains(x) by {
            if s.contains(x) {
                if x == m {
                    assert(r[q.len() as int] == m);
                } else {
                    assert(rest.contains(x));
                    let i = choose|i: int| 0 <= i < q.len() && q[i] == x;
                    assert(r[i] == x);
                }
            }
            if r.contains(x) {
                let i = choose|i: int| 0 <= i < r.len() && r[i] == x;
                if i < q.len() {
                    assert(q.contains(q[i]));
                    assert(rest.contains(x));
                }
            }
        }
        assert forall|i: int, j: int| 0 <= i < j < r.len() implies lt(
            #[trigger] r[i],
            #[trigger] r[j],
        ) by {
            if j == q.len() {
                assert(q.contains(q[i]));
                assert(rest.contains(q[i]));
            }
        }
        r
    }
}

} // verus!
