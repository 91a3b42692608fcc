//! Natural order: numbers inside names count as numbers, so `cap2` comes before `cap10`.

use crate::numbers;
use crate::numbers::parse_u64;
use crate::order;
use crate::order::{sort_positions, text_not_after, Ranked};
use crate::text;
use crate::text::{chars_of, same, text_of};
use vstd::prelude::*;
use vstd::string::*;

verus! {

/// A part of a name, as it is ordered: numbers before text.
#[verifier::ext_equal]
pub enum PartRec {
    Num(u64, Seq<char>),
    Str(Seq<char>),
}

/// A part of a name.
#[derive(Debug)]
pub enum KeyPart {
    Num(u64, String),
    Str(String),
}

impl View for KeyPart {
    type V = PartRec;

    open spec fn view(&self) -> PartRec {
        match self {
            KeyPart::Num(n, s) => PartRec::Num(*n, s@),
            KeyPart::Str(s) => PartRec::Str(s@),
        }
    }
}

/// `s` cut into the longest runs of digits and of other characters.
pub open spec fn runs(s: Seq<char>) -> Seq<Seq<char>>
    decreases s.len(),
{
    if s.len() == 0 {
        Seq::empty()
    } else {
        let before = runs(s.drop_last());
        let c = s.last();
        if before.len() > 0 && numbers::is_digit(before.last().last()) == numbers::is_digit(c) {
            before.drop_last().push(before.last().push(c))
        } else {
            before.push(seq![c])
        }
    }
}

/// The part of the name that a run is: a number, as large as it fits, with its digits;
/// or text in lower case.
pub open spec fn part_of(run: Seq<char>, is_digit: bool) -> PartRec {
    if is_digit {
        PartRec::Num(
            match numbers::parsed(run, u64::MAX as nat) {
                Some(n) => n as u64,
                None => u64::MAX,
            },
            text::lower(run),
        )
    } else {
        PartRec::Str(text::lower(run))
    }
}

/// The parts of a name.
pub open spec fn key_of(s: Seq<char>) -> Seq<PartRec> {
    runs(s).map_values(|r: Seq<char>| part_of(r, numbers::is_digit(r.last())))
}

/// `a` is `b` or comes before it.
pub open spec fn part_le(a: PartRec, b: PartRec) -> bool {
    match (a, b) {
        (PartRec::Num(m, x), PartRec::Num(n, y)) => m < n || m == n && order::text_le(x, y),
        (PartRec::Num(..), PartRec::Str(_)) => true,
        (PartRec::Str(_), PartRec::Num(..)) => false,
        (PartRec::Str(x), PartRec::Str(y)) => order::text_le(x, y),
    }
}

/// The name with the parts `a` is that with the parts `b` or comes before it.
pub open spec fn key_le(a: Seq<PartRec>, b: Seq<PartRec>) -> bool
    decreases a.len(),
{
    if a.len() == 0 {
        true
    } else if b.len() == 0 {
        false
    } else if a[0] != b[0] {
        part_le(a[0], b[0])
    } else {
        key_le(a.skip(1), b.skip(1))
    }
}

proof fn lemma_part_total(a: PartRec, b: PartRec)
    ensures
        part_le(a, b) || part_le(b, a),
{
    match (a, b) {
        (PartRec::Num(m, x), PartRec::Num(n, y)) => {
            order::lemma_text_total(x, y);
        },
        (PartRec::Str(x), PartRec::Str(y)) => {
            order::lemma_text_total(x, y);
        },
        _ => {},
    }
}

proof fn lemma_part_antisymmetric(a: PartRec, b: PartRec)
    requires
        part_le(a, b),
        part_le(b, a),
    ensures
        a == b,
{
    match (a, b) {
        (PartRec::Num(m, x), PartRec::Num(n, y)) => {
            order::lemma_text_antisymmetric(x, y);
        },
        (PartRec::Str(x), PartRec::Str(y)) => {
            order::lemma_text_antisymmetric(x, y);
        },
        _ => {},
    }
}

proof fn lemma_part_transitive(a: PartRec, b: PartRec, c: PartRec)
    requires
        part_le(a, b),
        part_le(b, c),
    ensures
        part_le(a, c),
{
    match (a, b, c) {
        (PartRec::Num(m, x), PartRec::Num(n, y), PartRec::Num(o, z)) => {
            if m == n && n == o {
                order::lemma_text_transitive(x, y, z);
            }
        },
        (PartRec::Str(x), PartRec::Str(y), PartRec::Str(z)) => {
            order::lemma_text_transitive(x, y, z);
        },
        _ => {},
    }
}

proof fn lemma_key_total(a: Seq<PartRec>, b: Seq<PartRec>)
    ensures
        key_le(a, b) || key_le(b, a),
    decreases a.len(),
{
    if a.len() > 0 && b.len() > 0 {
        if a[0] == b[0] {
            lemma_key_total(a.skip(1), b.skip(1));
        } else {
            lemma_part_total(a[0], b[0]);
        }
    }
}

proof fn lemma_key_transitive(a: Seq<PartRec>, b: Seq<PartRec>, c: Seq<PartRec>)
    requires
        key_le(a, b),
        key_le(b, c),
    ensures
        key_le(a, c),
    decreases a.len(),
{
    if a.len() > 0 {
        if a[0] == b[0] && b[0] == c[0] {
            lemma_key_transitive(a.skip(1), b.skip(1), c.skip(1));
        } else if a[0] != b[0] && b[0] != c[0] {
            lemma_part_transitive(a[0], b[0], c[0]);
            if a[0] == c[0] {
                lemma_part_antisymmetric(a[0], b[0]);
            }
        }
    }
}

impl KeyPart {
    /// The part of the name that a run is.
    pub fn new(s: &str, is_digit: bool) -> (r: Self)
        ensures
            r@ == part_of(s@, is_digit),
    {
        if is_digit {
            let n: u64 = match parse_u64(s) {
                Some(n) => n,
                None => u64::MAX,
            };
            KeyPart::Num(n, s.to_lowercase())
        } else {
            KeyPart::Str(s.to_lowercase())
        }
    }

    /// Whether this part is `other` or comes before it.
    pub fn not_after(&self, other: &Self) -> (r: bool)
        ensures
            r == part_le(self@, other@),
    {
        match self {
            KeyPart::Num(m, x) => match other {
                KeyPart::Num(n, y) => *m < *n || *m == *n && text_not_after(
                    x.as_str(),
                    y.as_str(),
                ),
                KeyPart::Str(_) => true,
            },
            KeyPart::Str(x) => match other {
                KeyPart::Num(..) => false,
                KeyPart::Str(y) => text_not_after(x.as_str(), y.as_str()),
            },
        }
    }

    /// Whether this part is `other`.
    pub fn is(&self, other: &Self) -> (r: bool)
        ensures
            r == (self@ == other@),
    {
        match self {
            KeyPart::Num(m, x) => match other {
                KeyPart::Num(n, y) => *m == *n && same(x.as_str(), y.as_str()),
                KeyPart::Str(_) => false,
            },
            KeyPart::Str(x) => match other {
                KeyPart::Num(..) => false,
                KeyPart::Str(y) => same(x.as_str(), y.as_str()),
            },
        }
    }
}

/// The views of some parts.
pub open spec fn part_views(v: Seq<KeyPart>) -> Seq<PartRec> {
    v.map_values(|p: KeyPart| p@)
}

/// The parts of a name.
pub fn natural_key(s: &str) -> (r: Vec<KeyPart>)
    ensures
        part_views(r@) == key_of(s@),
{
    let v = chars_of(s);
    let mut parts: Vec<KeyPart> = Vec::new();
    let mut buf: Vec<char> = Vec::new();
    let mut in_digit = false;
    let ghost part = |r: Seq<char>| part_of(r, numbers::is_digit(r.last()));
    assert(part_views(parts@) =~= Seq::<PartRec>::empty());
    assert(s@.take(0) =~= Seq::<char>::empty());
    for i in 0..v.len()
        invariant
            v@ == s@,
            part == |r: Seq<char>| part_of(r, numbers::is_digit(r.last())),
            buf@.len() == 0 ==> i == 0 && parts@.len() == 0,
            buf@.len() > 0 ==> {
                let all = runs(s@.take(i as int));
                &&& all.len() > 0
                &&& all.last() == buf@
                &&& in_digit == numbers::is_digit(buf@.last())
                &&& part_views(parts@) == all.drop_last().map_values(part)
            },
    {
        let c = v[i];
        let d = '0' <= c && c <= '9';
        let ghost all = runs(s@.take(i as int));
        let ghost next = runs(s@.take(i + 1));
        proof {
            assert(s@.take(i + 1).drop_last() =~= s@.take(i as int));
            assert(s@.take(i + 1).last() == c);
            if i == 0 {
                assert(s@.take(0) =~= Seq::<char>::empty());
            }
        }
        if buf.len() > 0 && in_digit == d {
            buf.push(c);
            proof {
                assert(next.drop_last() =~= all.drop_last());
            }
        } else {
            if buf.len() > 0 {
                let ghost before = parts@;
                parts.push(KeyPart::new(text_of(&buf).as_str(), in_digit));
                proof {
                    assert(next.drop_last() =~= all);
                    assert(all =~= all.drop_last().push(buf@));
                    assert(part_views(parts@) =~= part_views(before).push(part(buf@)));
                    assert(all.map_values(part) =~= all.drop_last().map_values(part).push(
                        part(buf@),
                    ));
                }
                buf = Vec::new();
            } else {
                proof {
                    assert(next.drop_last() =~= Seq::<Seq<char>>::empty());
                    assert(part_views(parts@) =~= next.drop_last().map_values(part));
                }
            }
            buf.push(c);
            in_digit = d;
            assert(buf@ =~= seq![c]);
        }
    }
    assert(s@.take(s@.len() as int) =~= s@);
    if buf.len() > 0 {
        let ghost before = parts@;
        let ghost all = runs(s@);
        parts.push(KeyPart::new(text_of(&buf).as_str(), in_digit));
        proof {
            assert(all =~= all.drop_last().push(buf@));
            assert(part_views(parts@) =~= part_views(before).push(part(buf@)));
            assert(all.map_values(part) =~= all.drop_last().map_values(part).push(part(buf@)));
        }
    } else {
        assert(runs(s@) =~= Seq::<Seq<char>>::empty());
        assert(part_views(parts@) =~= runs(s@).map_values(part));
    }
    parts
}

/// Whether the name with the parts `a` is that with the parts `b` or comes before it.
fn key_not_after(a: &Vec<KeyPart>, b: &Vec<KeyPart>) -> (r: bool)
    ensures
        r == key_le(part_views(a@), part_views(b@)),
{
    let ghost (x, y) = (part_views(a@), part_views(b@));
    let mut i: usize = 0;
    assert(x.skip(0) =~= x);
    assert(y.skip(0) =~= y);
    while i < a.len() && i < b.len()
        invariant
            x == part_views(a@),
            y == part_views(b@),
            i <= a@.len(),
            i <= b@.len(),
            key_le(x, y) == key_le(x.skip(i as int), y.skip(i as int)),
        decreases a@.len() - i,
    {
        assert(x.skip(i as int)[0] == a@[i as int]@);
        assert(y.skip(i as int)[0] == b@[i as int]@);
        if !a[i].is(&b[i]) {
            return a[i].not_after(&b[i]);
        }
        assert(x.skip(i as int).skip(1) =~= x.skip(i + 1));
        assert(y.skip(i as int).skip(1) =~= y.skip(i + 1));
        i = i + 1;
    }
    i == a.len()
}

/// The parts of a name, as they are ranked.
struct Key {
    parts: Vec<KeyPart>,
}

impl Ranked for Key {
    closed spec fn ranks(a: Self, b: Self) -> bool {
        key_le(part_views(a.parts@), part_views(b.parts@))
    }

    proof fn ranks_total(a: Self, b: Self) {
        lemma_key_total(part_views(a.parts@), part_views(b.parts@));
    }

    proof fn ranks_transitive(a: Self, b: Self, c: Self) {
        lemma_key_transitive(
            part_views(a.parts@),
            part_views(b.parts@),
            part_views(c.parts@),
        );
    }

    fn not_after(&self, other: &Self) -> (r: bool) {
        key_not_after(&self.parts, &other.parts)
    }
}

/// The name at `x` comes before the name at `y`: in natural order, and by place where they
/// rank equal.
pub open spec fn comes_before(names: Seq<Seq<char>>, x: int, y: int) -> bool {
    let (a, b) = (key_of(names[x]), key_of(names[y]));
    key_le(a, b) && (key_le(b, a) ==> x < y)
}

/// The places of some names, in natural order.
pub fn natural_order(names: &Vec<String>) -> (r: Vec<usize>)
    ensures
        r@.len() == names@.len(),
        r@.no_duplicates(),
        forall|i: int| 0 <= i < r@.len() ==> (#[trigger] r@[i]) < names@.len(),
        forall|i: int, j: int|
            0 <= i < j < r@.len() ==> comes_before(
                crate::catalog::text_views(names@),
                #[trigger] r@[i] as int,
                #[trigger] r@[j] as int,
            ),
{
    let mut keys: Vec<Key> = Vec::new();
    let mut all: Vec<usize> = Vec::new();
    for i in 0..names.len()
        invariant
            keys@.len() == i,
            all@.len() == i,
            forall|j: int| 0 <= j < i ==> #[trigger] all@[j] == j,
            forall|j: int|
                0 <= j < i ==> part_views((#[trigger] keys@[j]).parts@) == key_of(names@[j]@),
    {
        keys.push(Key { parts: natural_key(names[i].as_str()) });
        all.push(i);
    }
    let r = sort_positions(&keys, &all);
    proof {
        assert forall|i: int| 0 <= i < r@.len() implies (#[trigger] r@[i]) < names@.len() by {
            assert(r@.contains(r@[i]));
            assert(all@.contains(r@[i]));
        }
        assert forall|i: int, j: int| 0 <= i < j < r@.len() implies comes_before(
            crate::catalog::text_views(names@),
            #[trigger] r@[i] as int,
            #[trigger] r@[j] as int,
        ) by {
            assert(order::precedes(keys@, r@[i] as int, r@[j] as int));
        }
    }
    r
}

proof fn lemma_runs_end(s: Seq<char>)
    requires
        s.len() > 0,
    ensures
        runs(s).len() > 0,
        runs(s).last().len() > 0,
        runs(s).last().last() == s.last(),
    decreases s.len(),
{
    if s.len() > 1 {
        lemma_runs_end(s.drop_last());
    }
}

/// Runs do not reach over a change from digits to others.
proof fn lemma_runs_concat(a: Seq<char>, b: Seq<char>)
    requires
        a.len() == 0 || b.len() == 0 || numbers::is_digit(a.last()) != numbers::is_digit(b[0]),
    ensures
        runs(a + b) == runs(a) + runs(b),
    decreases b.len(),
{
    if b.len() == 0 {
        assert(a + b =~= a);
        assert(runs(a) + runs(b) =~= runs(a));
    } else {
        let c = b.drop_last();
        lemma_runs_concat(a, c);
        assert((a + b).drop_last() =~= a + c);
        assert((a + b).last() == b.last());
        if c.len() == 0 {
            assert(a + c =~= a);
            if a.len() > 0 {
                lemma_runs_end(a);
            }
            assert(runs(a + b) =~= runs(a) + runs(b));
        } else {
            lemma_runs_end(c);
            let x = runs(a);
            let y = runs(c);
            assert((x + y).last() == y.last());
            assert((x + y).drop_last() =~= x + y.drop_last());
            assert(runs(a + b) =~= runs(a) + runs(b));
        }
    }
}

/// Digits alone are one run.
proof fn lemma_runs_of_digits(s: Seq<char>)
    requires
        s.len() > 0,
        numbers::all_digits(s),
    ensures
        runs(s) == seq![s],
    decreases s.len(),
{
    let t = s.drop_last();
    assert(numbers::is_digit(s[s.len() - 1]));
    if t.len() == 0 {
        assert(runs(t) =~= Seq::<Seq<char>>::empty());
        assert(s =~= seq![s.last()]);
        assert(runs(s) =~= seq![s]);
    } else {
        assert forall|i: int| 0 <= i < t.len() implies numbers::is_digit(#[trigger] t[i]) by {
            assert(t[i] == s[i]);
        }
        lemma_runs_of_digits(t);
        assert(t.push(s.last()) =~= s);
        assert(numbers::is_digit(t[t.len() - 1]));
        assert(runs(s) =~= seq![s]);
    }
}

proof fn lemma_key_le_behind(p: Seq<PartRec>, a: Seq<PartRec>, b: Seq<PartRec>)
    ensures
        key_le(p + a, p + b) == key_le(a, b),
    decreases p.len(),
{
    if p.len() == 0 {
        assert(p + a =~= a);
        assert(p + b =~= b);
    } else {
        lemma_key_le_behind(p.skip(1), a, b);
        assert((p + a).skip(1) =~= p.skip(1) + a);
        assert((p + b).skip(1) =~= p.skip(1) + b);
    }
}

proof fn lemma_numbered_key(p: Seq<char>, d: Seq<char>, x: Seq<char>)
    requires
        p.len() == 0 || !numbers::is_digit(p.last()),
        d.len() > 0,
        numbers::all_digits(d),
        x.len() == 0 || !numbers::is_digit(x[0]),
    ensures
        key_of(p + d + x) == key_of(p) + (seq![part_of(d, true)] + key_of(x)),
{
    lemma_runs_of_digits(d);
    assert(numbers::is_digit(d[0]) && numbers::is_digit(d[d.len() - 1]));
    lemma_runs_concat(p, d);
    assert((p + d).last() == d.last());
    lemma_runs_concat(p + d, x);
    let part = |r: Seq<char>| part_of(r, numbers::is_digit(r.last()));
    assert(runs(p + d + x) =~= runs(p) + (seq![d] + runs(x)));
    assert((runs(p) + (seq![d] + runs(x))).map_values(part) =~= runs(p).map_values(part) + (seq![
        part(d),
    ] + runs(x).map_values(part)));
}

/// Names that differ in a number are ordered by the number: `cap2` comes before `cap10`,
/// with leading zeros or without, whatever follows the number. Numbers beyond 64 bits count
/// as the largest one.
pub proof fn law_numbers_count_as_numbers(
    p: Seq<char>,
    d: Seq<char>,
    x: Seq<char>,
    e: Seq<char>,
    y: Seq<char>,
)
    requires
        p.len() == 0 || !numbers::is_digit(p.last()),
        d.len() > 0 && numbers::all_digits(d),
        e.len() > 0 && numbers::all_digits(e),
        numbers::digits_value(d) < numbers::digits_value(e),
        numbers::digits_value(d) < u64::MAX,
        x.len() == 0 || !numbers::is_digit(x[0]),
        y.len() == 0 || !numbers::is_digit(y[0]),
    ensures
        ({
            let (a, b) = (key_of(p + d + x), key_of(p + e + y));
            key_le(a, b) && !key_le(b, a)
        }),
{
    lemma_numbered_key(p, d, x);
    lemma_numbered_key(p, e, y);
    assert(numbers::is_digit(d[0]) && numbers::is_digit(e[0]));
    assert(numbers::unsigned_digits(d) == d && numbers::unsigned_digits(e) == e);
    let a = seq![part_of(d, true)] + key_of(x);
    let b = seq![part_of(e, true)] + key_of(y);
    lemma_key_le_behind(key_of(p), a, b);
    lemma_key_le_behind(key_of(p), b, a);
}

/// Text without digits is one run.
proof fn lemma_runs_of_text(s: Seq<char>)
    requires
        s.len() > 0,
        forall|i: int| 0 <= i < s.len() ==> !numbers::is_digit(#[trigger] s[i]),
    ensures
        runs(s) == seq![s],
    decreases s.len(),
{
    let t = s.drop_last();
    assert(!numbers::is_digit(s[s.len() - 1]));
    if t.len() == 0 {
        assert(runs(t) =~= Seq::<Seq<char>>::empty());
        assert(s =~= seq![s.last()]);
        assert(runs(s) =~= seq![s]);
    } else {
        assert forall|i: int| 0 <= i < t.len() implies !numbers::is_digit(#[trigger] t[i]) by {
            assert(t[i] == s[i]);
        }
        lemma_runs_of_text(t);
        assert(t.push(s.last()) =~= s);
        assert(!numbers::is_digit(t[t.len() - 1]));
        assert(runs(s) =~= seq![s]);
    }
}

/// The key of a name that goes on with text behind a number, or begins with text.
proof fn lemma_text_key(p: Seq<char>, x: Seq<char>, a: Seq<char>)
    requires
        p.len() == 0 || numbers::is_digit(p.last()),
        x.len() > 0,
        forall|i: int| 0 <= i < x.len() ==> !numbers::is_digit(#[trigger] x[i]),
        a.len() == 0 || numbers::is_digit(a[0]),
    ensures
        key_of(p + x + a) == key_of(p) + (seq![PartRec::Str(text::lower(x))] + key_of(a)),
{
    lemma_runs_of_text(x);
    assert(!numbers::is_digit(x[0]) && !numbers::is_digit(x[x.len() - 1]));
    lemma_runs_concat(p, x);
    assert((p + x).last() == x.last());
    lemma_runs_concat(p + x, a);
    let part = |r: Seq<char>| part_of(r, numbers::is_digit(r.last()));
    assert(runs(p + x + a) =~= runs(p) + (seq![x] + runs(a)));
    assert((runs(p) + (seq![x] + runs(a))).map_values(part) =~= runs(p).map_values(part) + (seq![
        part(x),
    ] + runs(a).map_values(part)));
}

/// The name `a` comes strictly before the name `b`.
pub open spec fn before(a: Seq<char>, b: Seq<char>) -> bool {
    key_le(key_of(a), key_of(b)) && !key_le(key_of(b), key_of(a))
}

/// No name comes before itself.
pub proof fn lemma_not_before_itself(a: Seq<char>)
    ensures
        !before(a, a),
{
}

/// Parts of names are compared: texts by code point, numbers by value and then by their digits,
/// and numbers come before texts.
pub proof fn law_parts_are_compared(a: &KeyPart, b: &KeyPart, r: bool, s: bool)
    requires
        call_ensures(KeyPart::not_after, (a, b), r),
        call_ensures(KeyPart::is, (a, b), s),
    ensures
        match (*a, *b) {
            (KeyPart::Str(x), KeyPart::Str(y)) => (r <==> !order::comes_first(y@, x@)) && (s <==> x@
                == y@),
            (KeyPart::Num(m, x), KeyPart::Num(n, y)) => (r <==> m < n || m == n
                && !order::comes_first(y@, x@)) && (s <==> m == n && x@ == y@),
            (KeyPart::Num(..), KeyPart::Str(_)) => r && !s,
            (KeyPart::Str(_), KeyPart::Num(..)) => !r && !s,
        },
{
    match (a, b) {
        (KeyPart::Str(x), KeyPart::Str(y)) => {
            order::law_texts_are_ordered_by_code_point(y@, x@);
            order::lemma_text_total(x@, y@);
        },
        (KeyPart::Num(_, x), KeyPart::Num(_, y)) => {
            order::law_texts_are_ordered_by_code_point(y@, x@);
            order::lemma_text_total(x@, y@);
        },
        _ => {},
    }
}

/// A run of digits is a part with its value, as large as it fits; another run is its lower-case
/// form.
pub proof fn law_what_parts_are(s: &str, is_digit: bool, n: Option<u64>, r: KeyPart)
    requires
        call_ensures(KeyPart::new, (s, is_digit), r),
        call_ensures(parse_u64, (s,), n),
    ensures
        is_digit ==> r is Num && r->Num_1@ == text::lower(s@) && r->Num_0 == (if n is Some {
            n->0
        } else {
            u64::MAX
        }),
        !is_digit ==> r is Str && r->Str_0@ == text::lower(s@),
{
}

/// The parts of a name are those of what comes first, and of what follows it with another kind
/// of character. A run of one kind is one part.
pub proof fn law_a_name_is_cut_into_parts(
    s: &str,
    a: &str,
    b: &str,
    r: Vec<KeyPart>,
    x: Vec<KeyPart>,
    y: Vec<KeyPart>,
    p: KeyPart,
)
    requires
        call_ensures(natural_key, (s,), r),
        call_ensures(natural_key, (a,), x),
        call_ensures(natural_key, (b,), y),
        call_ensures(KeyPart::new, (a, '0' <= a@[0] <= '9'), p),
        s@ == a@ + b@,
        a@.len() > 0,
        b@.len() == 0 || ('0' <= a@.last() <= '9') != ('0' <= b@[0] <= '9'),
    ensures
        part_views(r@) == part_views(x@) + part_views(y@),
        (forall|i: int| 0 <= i < a@.len() ==> ('0' <= #[trigger] a@[i] <= '9') == ('0' <= a@[0]
            <= '9')) ==> part_views(x@) == seq![p@],
{
    lemma_runs_concat(a@, b@);
    let part = |r: Seq<char>| part_of(r, numbers::is_digit(r.last()));
    assert((runs(a@) + runs(b@)).map_values(part) =~= runs(a@).map_values(part) + runs(
        b@,
    ).map_values(part));
    if forall|i: int| 0 <= i < a@.len() ==> ('0' <= #[trigger] a@[i] <= '9') == ('0' <= a@[0]
        <= '9') {
        assert('0' <= a@[a@.len() - 1] <= '9' <==> '0' <= a@[0] <= '9');
        lemma_one_run(a@);
        assert(key_of(a@) =~= seq![p@]);
    }
}

proof fn lemma_one_run(s: Seq<char>)
    requires
        s.len() > 0,
        forall|i: int| 0 <= i < s.len() ==> ('0' <= #[trigger] s[i] <= '9') == ('0' <= s[0] <= '9'),
    ensures
        runs(s) == seq![s],
    decreases s.len(),
{
    let t = s.drop_last();
    if t.len() > 0 {
        assert forall|i: int| 0 <= i < t.len() implies ('0' <= #[trigger] t[i] <= '9') == ('0'
            <= t[0] <= '9') by {
            assert(t[i] == s[i] && t[0] == s[0]);
        }
        lemma_one_run(t);
        assert(runs(t).last() == t);
        assert(t.last() == s[s.len() - 2]);
        assert(numbers::is_digit(t.last()) == numbers::is_digit(s[s.len() - 1]));
        assert(t.push(s.last()) =~= s);
        assert(runs(s) =~= seq![s]);
    } else {
        assert(runs(t) =~= Seq::<Seq<char>>::empty());
        assert(seq![s.last()] =~= s);
        assert(runs(s) =~= seq![s]);
    }
}

/// Names that differ first in text are ordered by its lower-case forms, by code point.
pub proof fn law_text_counts_as_text(
    p: Seq<char>,
    x: Seq<char>,
    a: Seq<char>,
    y: Seq<char>,
    b: Seq<char>,
)
    requires
        p.len() == 0 || '0' <= p.last() <= '9',
        x.len() > 0 && forall|i: int| 0 <= i < x.len() ==> !('0' <= #[trigger] x[i] <= '9'),
        y.len() > 0 && forall|i: int| 0 <= i < y.len() ==> !('0' <= #[trigger] y[i] <= '9'),
        a.len() == 0 || '0' <= a[0] <= '9',
        b.len() == 0 || '0' <= b[0] <= '9',
    ensures
        order::comes_first(text::lower(x), text::lower(y)) ==> before(p + x + a, p + y + b),
{
    assert forall|i: int| 0 <= i < x.len() implies !numbers::is_digit(#[trigger] x[i]) by {}
    assert forall|i: int| 0 <= i < y.len() implies !numbers::is_digit(#[trigger] y[i]) by {}
    lemma_text_key(p, x, a);
    lemma_text_key(p, y, b);
    order::law_texts_are_ordered_by_code_point(text::lower(x), text::lower(y));
    let u = seq![PartRec::Str(text::lower(x))] + key_of(a);
    let v = seq![PartRec::Str(text::lower(y))] + key_of(b);
    lemma_key_le_behind(key_of(p), u, v);
    lemma_key_le_behind(key_of(p), v, u);
}

/// Numbers of the same value are ordered by their digits, by code point, and so are numbers
/// beyond 64 bits.
pub proof fn law_equal_numbers_are_ordered_by_their_digits(
    p: Seq<char>,
    d: Seq<char>,
    x: Seq<char>,
    e: Seq<char>,
    y: Seq<char>,
)
    requires
        p.len() == 0 || !('0' <= p.last() <= '9'),
        d.len() > 0 && forall|i: int| 0 <= i < d.len() ==> '0' <= #[trigger] d[i] <= '9',
        e.len() > 0 && forall|i: int| 0 <= i < e.len() ==> '0' <= #[trigger] e[i] <= '9',
        numbers::digits_value(d) == numbers::digits_value(e) || numbers::digits_value(d)
            >= u64::MAX && numbers::digits_value(e) >= u64::MAX,
        order::comes_first(d, e),
        x.len() == 0 || !('0' <= x[0] <= '9'),
        y.len() == 0 || !('0' <= y[0] <= '9'),
    ensures
        before(p + d + x, p + e + y),
{
    assert forall|i: int| 0 <= i < d.len() implies numbers::is_digit(#[trigger] d[i]) by {}
    assert forall|i: int| 0 <= i < e.len() implies numbers::is_digit(#[trigger] e[i]) by {}
    lemma_numbered_key(p, d, x);
    lemma_numbered_key(p, e, y);
    assert(numbers::is_digit(d[0]) && numbers::is_digit(e[0]));
    assert(numbers::unsigned_digits(d) == d && numbers::unsigned_digits(e) == e);
    text::lemma_lower_digits(d);
    text::lemma_lower_digits(e);
    order::law_texts_are_ordered_by_code_point(d, e);
    let a = seq![part_of(d, true)] + key_of(x);
    let b = seq![part_of(e, true)] + key_of(y);
    lemma_key_le_behind(key_of(p), a, b);
    lemma_key_le_behind(key_of(p), b, a);
}

/// A name that begins with a digit comes before one that does not.
pub proof fn law_numbers_come_before_text(a: Seq<char>, b: Seq<char>)
    requires
        a.len() > 0 && '0' <= a[0] <= '9',
        b.len() > 0 && !('0' <= b[0] <= '9'),
    ensures
        before(a, b),
{
    lemma_first_part(a);
    lemma_first_part(b);
}

/// The first part of a name is a number where its first character is a digit.
proof fn lemma_first_part(s: Seq<char>)
    requires
        s.len() > 0,
    ensures
        runs(s).len() > 0,
        runs(s)[0].len() > 0,
        numbers::is_digit(runs(s)[0].last()) == numbers::is_digit(s[0]),
        key_of(s).len() > 0,
        key_of(s)[0] is Num <==> numbers::is_digit(s[0]),
    decreases s.len(),
{
    let t = s.drop_last();
    if s.len() > 1 {
        lemma_first_part(t);
        assert(t[0] == s[0]);
        if runs(t).len() > 1 {
            assert(runs(s)[0] == runs(t)[0]);
        }
    } else {
        assert(runs(t) =~= Seq::<Seq<char>>::empty());
        assert(runs(s)[0] =~= seq![s[0]]);
    }
}

/// A name comes before what goes on behind it with another kind of character.
pub proof fn law_the_shorter_name_comes_first(p: Seq<char>, a: Seq<char>)
    requires
        a.len() > 0,
        p.len() == 0 || ('0' <= p.last() <= '9') != ('0' <= a[0] <= '9'),
    ensures
        before(p, p + a),
{
    lemma_runs_concat(p, a);
    lemma_first_part(a);
    let part = |r: Seq<char>| part_of(r, numbers::is_digit(r.last()));
    assert((runs(p) + runs(a)).map_values(part) =~= runs(p).map_values(part) + runs(
        a,
    ).map_values(part));
    let none = Seq::<PartRec>::empty();
    assert(key_of(p) + none =~= key_of(p));
    lemma_key_le_behind(key_of(p), none, key_of(a));
    lemma_key_le_behind(key_of(p), key_of(a), none);
}

/// Behind a part that two names have in common the rest decides.
pub proof fn law_the_rest_decides(p: Seq<char>, a: Seq<char>, b: Seq<char>)
    requires
        p.len() > 0,
        a.len() == 0 || ('0' <= p.last() <= '9') != ('0' <= a[0] <= '9'),
        b.len() == 0 || ('0' <= p.last() <= '9') != ('0' <= b[0] <= '9'),
    ensures
        before(p + a, p + b) <==> before(a, b),
{
    lemma_runs_concat(p, a);
    lemma_runs_concat(p, b);
    let part = |r: Seq<char>| part_of(r, numbers::is_digit(r.last()));
    assert((runs(p) + runs(a)).map_values(part) =~= runs(p).map_values(part) + runs(
        a,
    ).map_values(part));
    assert((runs(p) + runs(b)).map_values(part) =~= runs(p).map_values(part) + runs(
        b,
    ).map_values(part));
    lemma_key_le_behind(key_of(p), key_of(a), key_of(b));
    lemma_key_le_behind(key_of(p), key_of(b), key_of(a));
}

/// In natural order a name stands before another where it comes before it, and the same name
/// stands in the order in which it was given.
pub proof fn law_names_stand_in_natural_order(
    names: &Vec<String>,
    r: Vec<usize>,
    u: int,
    v: int,
)
    requires
        call_ensures(natural_order, (names,), r),
        0 <= u < r@.len(),
        0 <= v < r@.len(),
        u != v,
    ensures
        r@.len() == names@.len(),
        0 <= r@[u] < names@.len() && 0 <= r@[v] < names@.len(),
        r@[u] != r@[v],
        before(names@[r@[u] as int]@, names@[r@[v] as int]@) ==> u < v,
        names@[r@[u] as int]@ == names@[r@[v] as int]@ && r@[u] < r@[v] ==> u < v,
{
    let all = crate::catalog::text_views(names@);
    assert(r@[u] < names@.len() && r@[v] < names@.len());
    if u > v {
        assert(comes_before(all, r@[v] as int, r@[u] as int));
        assert(all[r@[u] as int] == names@[r@[u] as int]@);
        assert(all[r@[v] as int] == names@[r@[v] as int]@);
        lemma_key_total(key_of(all[r@[u] as int]), key_of(all[r@[v] as int]));
    }
}

/// The first part in which two names differ decides, as parts are compared; where one name has
/// no part left it comes first.
pub proof fn law_the_first_different_part_decides(
    a: &str,
    b: &str,
    x: Vec<KeyPart>,
    y: Vec<KeyPart>,
    k: int,
    r: bool,
)
    requires
        call_ensures(natural_key, (a,), x),
        call_ensures(natural_key, (b,), y),
        0 <= k <= x@.len(),
        k < y@.len(),
        forall|i: int| 0 <= i < k ==> (#[trigger] x@[i])@ == y@[i]@,
        k < x@.len() ==> call_ensures(KeyPart::not_after, (&y@[k], &x@[k]), r) && !r,
    ensures
        before(a@, b@),
{
    let (u, v) = (part_views(x@), part_views(y@));
    let p = u.take(k);
    assert(u.len() == x@.len() && v.len() == y@.len());
    assert forall|i: int| 0 <= i < k implies u[i] == v[i] by {
        assert(u[i] == x@[i]@ && v[i] == y@[i]@);
    }
    assert(u =~= p + u.skip(k));
    assert(v =~= p + v.skip(k));
    lemma_key_le_behind(p, u.skip(k), v.skip(k));
    lemma_key_le_behind(p, v.skip(k), u.skip(k));
    assert(v.skip(k)[0] == y@[k]@);
    if k < x@.len() {
        assert(u.skip(k)[0] == x@[k]@);
        lemma_part_total(x@[k]@, y@[k]@);
    }
}

/// Names with the same parts stand in the order in which they were given.
pub proof fn law_equal_names_keep_their_order(
    names: &Vec<String>,
    r: Vec<usize>,
    u: int,
    v: int,
    a: &str,
    b: &str,
    x: Vec<KeyPart>,
    y: Vec<KeyPart>,
)
    requires
        call_ensures(natural_order, (names,), r),
        call_ensures(natural_key, (a,), x),
        call_ensures(natural_key, (b,), y),
        0 <= u < r@.len(),
        0 <= v < r@.len(),
        r@[u] < r@[v],
        a@ == names@[r@[u] as int]@,
        b@ == names@[r@[v] as int]@,
        part_views(x@) == part_views(y@),
    ensures
        u < v,
{
    let all = crate::catalog::text_views(names@);
    assert(r@[u] < names@.len() && r@[v] < names@.len());
    assert(all[r@[u] as int] == names@[r@[u] as int]@);
    assert(all[r@[v] as int] == names@[r@[v] as int]@);
    if u > v {
        assert(comes_before(all, r@[v] as int, r@[u] as int));
        lemma_key_total(key_of(a@), key_of(a@));
    }
}

} // verus!
