//! Numbers and texts: how they are written, read and compared.

use crate::db::Db;
use crate::laws::collections::{room_below, room_in};
use crate::laws::files::{is_cut, lemma_cut};
use crate::numbers;
use crate::numbers::{decimal, decimal_wide, hexadecimal, parse_u64, parse_up_to};
use crate::order;
use crate::order::text_not_after;
use crate::range::{parse_range_text, RangeError};
use crate::records::{collection_from, Collection, CollectionColumns};
use crate::text;
use crate::text::{chars_of, clip_trimmed, ends_with, same, starts_with, text_of};
use vstd::prelude::*;
use vstd::string::*;

verus! {

/// The character of a digit below 16.
pub open spec fn is_figure(c: char, d: int) -> bool {
    &&& d == 0 ==> c == '0'
    &&& d == 1 ==> c == '1'
    &&& d == 2 ==> c == '2'
    &&& d == 3 ==> c == '3'
    &&& d == 4 ==> c == '4'
    &&& d == 5 ==> c == '5'
    &&& d == 6 ==> c == '6'
    &&& d == 7 ==> c == '7'
    &&& d == 8 ==> c == '8'
    &&& d == 9 ==> c == '9'
    &&& d == 10 ==> c == 'a'
    &&& d == 11 ==> c == 'b'
    &&& d == 12 ==> c == 'c'
    &&& d == 13 ==> c == 'd'
    &&& d == 14 ==> c == 'e'
    &&& d == 15 ==> c == 'f'
}

/// A number is written as that without its last digit and the last digit; below the base as one
/// digit.
pub proof fn law_numbers_are_written_in_digits(
    n: u64,
    m: u64,
    a: String,
    b: String,
    x: String,
    y: String,
)
    requires
        call_ensures(decimal, (n,), a),
        call_ensures(decimal, (m,), b),
        call_ensures(hexadecimal, (n,), x),
        call_ensures(hexadecimal, (m,), y),
    ensures
        n < 10 ==> a@.len() == 1 && is_figure(a@[0], n as int),
        n >= 10 && m == n / 10 ==> a@.len() == b@.len() + 1 && a@.drop_last() == b@ && is_figure(
            a@.last(),
            n as int % 10,
        ),
        n < 16 ==> x@.len() == 1 && is_figure(x@[0], n as int),
        n >= 16 && m == n / 16 ==> x@.len() == y@.len() + 1 && x@.drop_last() == y@ && is_figure(
            x@.last(),
            n as int % 16,
        ),
{
    if n >= 10 && m == n / 10 {
        assert(a@.drop_last() =~= b@);
    }
    if n >= 16 && m == n / 16 {
        assert(x@.drop_last() =~= y@);
    }
}

/// Wide numbers are written as others are.
pub proof fn law_wide_numbers_are_written_alike(n: u64, a: String, b: String)
    requires
        call_ensures(decimal, (n,), a),
        call_ensures(decimal_wide, (n as u128,), b),
    ensures
        a@ == b@,
{
}

/// A number that was written is read back.
pub proof fn law_a_number_reads_back(n: u64, s: &str, a: String, r: Option<u64>)
    requires
        call_ensures(decimal, (n,), a),
        call_ensures(parse_u64, (s,), r),
        s@ == a@,
    ensures
        r == Some(n),
{
    numbers::lemma_decimal_reads_back(n as nat);
    assert(numbers::is_digit(a@[0]));
    assert(numbers::unsigned_digits(a@) == a@);
}

/// One digit is read as it is, and a digit behind a number as ten times the number and the
/// digit, up to the bound. A `+` in front of a digit makes no difference.
pub proof fn law_digits_are_read_in_turn(
    s: &str,
    t: &str,
    u: &str,
    d: u64,
    max: u64,
    r: Option<u64>,
    q: Option<u64>,
    v: Option<u64>,
)
    requires
        call_ensures(parse_up_to, (s, u64::MAX), r),
        call_ensures(parse_up_to, (t, max), q),
        call_ensures(parse_up_to, (u, max), v),
        d < 10,
        s@.len() == 0 || '0' <= s@[0] <= '9',
        t@.len() == s@.len() + 1,
        t@.drop_last() == s@,
        is_figure(t@.last(), d as int),
        u@ == seq!['+'] + t@,
    ensures
        s@.len() == 0 ==> q == (if d <= max {
            Some(d)
        } else {
            None
        }),
        r is Some && r->0 * 10 + d <= max ==> q is Some && q->0 == r->0 * 10 + d,
        r is Some && r->0 * 10 + d > max ==> q is None,
        v == q,
{
    assert(t@[0] == if s@.len() == 0 {
        t@.last()
    } else {
        s@[0]
    });
    assert(numbers::is_digit(t@.last()));
    assert(numbers::unsigned_digits(t@) == t@);
    assert(u@.skip(1) =~= t@);
    assert(u@[0] == '+');
    if s@.len() == 0 {
        assert(numbers::all_digits(t@));
        assert(t@.drop_last() =~= Seq::<char>::empty());
        assert(numbers::digits_value(t@.drop_last()) == 0);
        assert(numbers::digits_value(t@) == d);
    } else {
        assert(numbers::unsigned_digits(s@) == s@);
        if r is Some {
            assert forall|i: int| 0 <= i < t@.len() implies numbers::is_digit(
                #[trigger] t@[i],
            ) by {
                if i < s@.len() {
                    assert(t@[i] == s@[i]);
                }
            }
        }
    }
}

/// A text with something else than digits in it, but for a `+` in front, is no number, nor is
/// one without a digit.
pub proof fn law_other_texts_are_no_numbers(s: &str, i: int, max: u64, r: Option<u64>)
    requires
        call_ensures(parse_up_to, (s, max), r),
        s@.len() == 0 || s@ == seq!['+'] || 0 <= i < s@.len() && !('0' <= s@[i] <= '9') && (i > 0
            || s@[0] != '+'),
    ensures
        r is None,
{
    let d = numbers::unsigned_digits(s@);
    if s@.len() > 0 && s@ != seq!['+'] {
        if s@[0] == '+' {
            assert(d[i - 1] == s@[i]);
            assert(!numbers::is_digit(d[i - 1]));
        } else {
            assert(!numbers::is_digit(d[i]));
        }
    }
}

/// Texts are compared by code point.
pub proof fn law_texts_are_compared_by_code_point(a: &str, b: &str, r: bool)
    requires
        call_ensures(text_not_after, (a, b), r),
    ensures
        r <==> !order::comes_first(b@, a@),
        r <==> a@ == b@ || order::comes_first(a@, b@),
{
    order::law_texts_are_ordered_by_code_point(a@, b@);
    order::law_texts_are_ordered_by_code_point(b@, a@);
    order::lemma_text_total(a@, b@);
}

/// Texts are the same, begin and end as their characters say, and are cut behind as many as was
/// asked for.
pub proof fn law_what_texts_say(
    a: &str,
    b: &str,
    n: usize,
    s: bool,
    p: bool,
    e: bool,
    c: String,
)
    requires
        call_ensures(same, (a, b), s),
        call_ensures(starts_with, (a, b), p),
        call_ensures(ends_with, (a, b), e),
        call_ensures(clip_trimmed, (a, n), c),
    ensures
        s <==> a@ == b@,
        p <==> b@.is_prefix_of(a@),
        e <==> b@.is_suffix_of(a@),
        is_cut(c@, a@, n as int),
{
    lemma_cut(a@, n as nat);
}

/// A text is the sequence of its characters, and characters make up a text.
pub proof fn law_texts_are_their_characters(s: &str, v: &Vec<char>, c: Vec<char>, t: String)
    requires
        call_ensures(chars_of, (s,), c),
        call_ensures(text_of, (v,), t),
    ensures
        c@ == s@,
        t@ == v@,
{
}

/// A stored collection is read as its columns say; what an older store lacks is a parent and a
/// position.
pub proof fn law_a_stored_collection_is_read(c: CollectionColumns, r: Collection)
    requires
        call_ensures(collection_from, (c,), r),
    ensures
        r.id@ == c.id@ && r.kind@ == c.kind@ && r.title@ == c.title@,
        r.poster_url@ == c.poster_url@ && r.poster_file@ == c.poster_file@,
        r.created_at == c.created_at,
        c.parent_id is Some ==> r.parent_id@ == c.parent_id->0@,
        c.parent_id is None ==> r.parent_id@.len() == 0,
        c.pos is Some ==> r.pos == c.pos->0,
        c.pos is None ==> r.pos == 0,
{
}

/// The id that the next collection gets is written with the instant, the number of the
/// collection and the process.
pub proof fn law_how_ids_are_written(
    db: &Db,
    now: i64,
    r: String,
    serial: u64,
    a: String,
    b: String,
    c: String,
)
    requires
        call_ensures(Db::next_id, (db, now), r),
        call_ensures(Db::current_serial, (db,), serial),
        call_ensures(hexadecimal, (now as u64,), a),
        call_ensures(hexadecimal, (serial,), b),
        call_ensures(decimal, (db.process() as u64,), c),
    ensures
        r@ == "c"@ + a@ + "-"@ + b@ + "-"@ + c@,
{
}

/// Another collection fits below a parent, and another entry into a collection, where no
/// position there is the largest that there is.
pub proof fn law_where_there_is_room(
    db: &Db,
    parent: &str,
    id: &str,
    c: bool,
    i: bool,
)
    requires
        call_ensures(Db::child_fits, (db, parent), c),
        call_ensures(Db::item_fits, (db, id), i),
        db.wf(),
    ensures
        c <==> room_below(db@, text::trimmed(parent@)),
        i <==> room_in(db@, id@),
{
    db.lemma_keys();
    crate::laws::collections::lemma_room(db@, text::trimmed(parent@), id@);
}

/// A range that cannot be read is refused: one without a `-`, or one with something else than a
/// number before it, or behind it.
pub proof fn law_what_cannot_be_read_is_refused(
    s: &str,
    first: Seq<char>,
    last: Seq<char>,
    total: u64,
    r: Result<(u64, u64), RangeError>,
    f: &str,
    l: &str,
    x: Option<u64>,
    y: Option<u64>,
)
    requires
        call_ensures(parse_range_text, (Some(s), total), r),
        call_ensures(parse_u64, (f,), x),
        call_ensures(parse_u64, (l,), y),
        f@ == first,
        l@ == last,
        total > 0,
        forall|i: int| 0 <= i < first.len() ==> first[i] != '-',
        s@ == "bytes="@ + first || s@ == "bytes="@ + first + seq!['-'] + last,
    ensures
        s@ == "bytes="@ + first ==> r == Err::<(u64, u64), RangeError>(RangeError::Invalid),
        s@ == "bytes="@ + first + seq!['-'] + last && first.len() > 0 && x is None ==> r == Err::<
            (u64, u64),
            RangeError,
        >(RangeError::Invalid),
        s@ == "bytes="@ + first + seq!['-'] + last && (last.len() > 0 || first.len() == 0)
            && y is None ==> r == Err::<(u64, u64), RangeError>(RangeError::Invalid),
{
    crate::range::lemma_parts_of_a_range(s@, first, last);
}

} // verus!
