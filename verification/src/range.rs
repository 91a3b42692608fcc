//! Byte ranges and the headers that go with them.

use crate::numbers;
use crate::numbers::parse_u64;
use crate::text::{chars_of, same};
use axum::http::HeaderValue;
use vstd::prelude::*;
use vstd::string::*;
use vstd::utf8::*;

verus! {

/// Why a range is not served.
#[derive(Debug, PartialEq, Eq, Structural)]
pub enum RangeError {
    /// There is nothing to serve.
    NoContent,
    /// The header cannot be read.
    Invalid,
    /// The range does not lie within the content of this length.
    OutOfBounds(u64),
}

/// The value of a header field, as `http` holds it.
#[verifier::external_type_specification]
#[verifier::external_body]
pub struct ExHeaderValue(axum::http::HeaderValue);

/// The bytes of a header value.
pub uninterp spec fn header_bytes(v: HeaderValue) -> Seq<u8>;

/// A visible ASCII character, a space or a tab.
pub open spec fn is_visible(b: u8) -> bool {
    32 <= b < 127 || b == 9
}

/// All bytes are visible.
pub open spec fn all_visible(b: Seq<u8>) -> bool {
    forall|i: int| 0 <= i < b.len() ==> is_visible(#[trigger] b[i])
}

/// ASCII bytes as characters.
pub open spec fn ascii_chars(b: Seq<u8>) -> Seq<char> {
    b.map_values(|x: u8| x as char)
}

/// `HeaderValue::to_str`: the bytes of the value as text, one character each, where all of
/// them are visible ASCII characters, spaces or tabs; an error otherwise.
#[verifier::external_body]
fn header_text(v: &HeaderValue) -> (r: Option<&str>)
    ensures
        match r {
            Some(s) => all_visible(header_bytes(*v)) && s@ == ascii_chars(header_bytes(*v)),
            None => !all_visible(header_bytes(*v)),
        },
{
    v.to_str().ok()
}

/// A byte that a header value may hold: anything but control characters, and the tab.
pub open spec fn is_header_byte(b: u8) -> bool {
    32 <= b && b != 127 || b == 9
}

/// The text can be the value of a header field.
pub open spec fn header_text_allowed(s: Seq<char>) -> bool {
    forall|i: int| 0 <= i < encode_utf8(s).len() ==> is_header_byte(#[trigger] encode_utf8(s)[i])
}

/// `HeaderValue::from_str`: succeeds when no byte of the text is a control character other
/// than the tab.
#[verifier::external_body]
fn is_header_value(s: &str) -> (r: bool)
    ensures
        r == header_text_allowed(s@),
{
    HeaderValue::from_str(s).is_ok()
}

/// The media type that a response declares: `mime`, or `application/octet-stream` where it
/// cannot stand in a header.
pub open spec fn declared_type(mime: Seq<char>) -> Seq<char> {
    if header_text_allowed(mime) {
        mime
    } else {
        "application/octet-stream"@
    }
}

/// The media type that a response declares.
pub fn content_type(mime: &str) -> (r: String)
    ensures
        r@ == declared_type(mime@),
{
    if is_header_value(mime) {
        mime.to_owned()
    } else {
        "application/octet-stream".to_owned()
    }
}

/// Where the first `-` of `s` stands, or its length.
pub open spec fn hyphen_at(s: Seq<char>) -> int
    decreases s.len(),
{
    if s.len() == 0 || s[0] == '-' {
        0
    } else {
        1 + hyphen_at(s.skip(1))
    }
}

/// `bytes=`
pub open spec fn unit() -> Seq<char> {
    "bytes="@
}

/// The number that a text writes.
pub open spec fn number(s: Seq<char>) -> Option<nat> {
    numbers::parsed(s, u64::MAX as nat)
}

/// The first and last byte that the header text `s` asks for, of content of the length
/// `total`: `bytes=first-last`, `bytes=first-` for the rest, or `bytes=-n` for the last `n`.
pub open spec fn range_asked(s: Seq<char>, total: u64) -> Result<(int, int), RangeError> {
    if !unit().is_prefix_of(s) {
        Err(RangeError::Invalid)
    } else {
        let spec = s.skip(unit().len() as int);
        let at = hyphen_at(spec);
        if at == spec.len() {
            Err(RangeError::Invalid)
        } else {
            let first = spec.take(at);
            let last = spec.skip(at + 1);
            if first.len() == 0 {
                match number(last) {
                    None => Err(RangeError::Invalid),
                    Some(n) => if n == 0 || n >= total {
                        Ok((0, total - 1))
                    } else {
                        Ok((total - n, total - 1))
                    },
                }
            } else if number(first) is None || last.len() > 0 && number(last) is None {
                Err(RangeError::Invalid)
            } else if last.len() == 0 {
                Ok((number(first)->0 as int, total - 1))
            } else {
                Ok((number(first)->0 as int, number(last)->0 as int))
            }
        }
    }
}

/// The first and last byte to serve for the header text `s`.
pub open spec fn range_outcome(s: Option<Seq<char>>, total: u64) -> Result<
    (int, int),
    RangeError,
> {
    if total == 0 {
        Err(RangeError::NoContent)
    } else {
        match s {
            None => Ok((0, total - 1)),
            Some(s) => match range_asked(s, total) {
                Err(e) => Err(e),
                Ok((a, b)) => if a >= total || b >= total || a > b {
                    Err(RangeError::OutOfBounds(total))
                } else {
                    Ok((a, b))
                },
            },
        }
    }
}

/// The outcome for the value of a header.
pub open spec fn header_outcome(v: Option<HeaderValue>, total: u64) -> Result<
    (int, int),
    RangeError,
> {
    match v {
        Some(h) if total > 0 && !all_visible(header_bytes(h)) => Err(RangeError::Invalid),
        Some(h) => range_outcome(Some(ascii_chars(header_bytes(h))), total),
        None => range_outcome(None, total),
    }
}

/// `r` is the outcome.
pub open spec fn is_outcome(
    r: Result<(u64, u64), RangeError>,
    outcome: Result<(int, int), RangeError>,
) -> bool {
    match r {
        Ok((a, b)) => outcome == Ok::<(int, int), RangeError>((a as int, b as int)),
        Err(e) => outcome == Err::<(int, int), RangeError>(e),
    }
}

/// The first and last byte to serve, for a header with this text.
pub fn parse_range_text(header_text: Option<&str>, total: u64) -> (r: Result<
    (u64, u64),
    RangeError,
>)
    ensures
        is_outcome(r, range_outcome(crate::catalog::opt_view(header_text), total)),
{
    if total == 0 {
        return Err(RangeError::NoContent);
    }
    let s = match header_text {
        Some(s) => s,
        None => {
            return Ok((0, total - 1));
        },
    };
    let v = chars_of(s);
    proof {
        reveal_strlit("bytes=");
        assert(unit().len() == 6);
    }
    if v.len() < 6 {
        return Err(RangeError::Invalid);
    }
    if !same(s.substring_char(0, 6), "bytes=") {
        proof {
            if unit().is_prefix_of(s@) {
                assert(s@.subrange(0, 6) == unit());
            }
        }
        return Err(RangeError::Invalid);
    }
    assert(unit().is_prefix_of(s@));
    let ghost spec = s@.skip(6);
    let mut at: usize = 6;
    assert(spec.skip(0) =~= spec);
    while at < v.len() && v[at] != '-'
        invariant
            v@ == s@,
            spec == s@.skip(6),
            6 <= at <= v@.len(),
            hyphen_at(spec) == at - 6 + hyphen_at(spec.skip(at - 6)),
        decreases v@.len() - at,
    {
        assert(spec.skip(at - 6)[0] == v@[at as int]);
        assert(spec.skip(at - 6).skip(1) =~= spec.skip(at - 5));
        at = at + 1;
    }
    proof {
        if at < v@.len() {
            assert(spec.skip(at - 6)[0] == v@[at as int]);
        }
        assert(hyphen_at(spec) == at - 6);
    }
    if at == v.len() {
        return Err(RangeError::Invalid);
    }
    let first = s.substring_char(6, at);
    let last = s.substring_char(at + 1, v.len());
    assert(first@ =~= spec.take(at - 6));
    assert(last@ =~= spec.skip(at - 5));
    let (start, end): (u64, u64) = if first.is_empty() {
        match parse_u64(last) {
            None => {
                return Err(RangeError::Invalid);
            },
            Some(n) => {
                if n == 0 {
                    return Ok((0, total - 1));
                }
                if n >= total {
                    (0, total - 1)
                } else {
                    (total - n, total - 1)
                }
            },
        }
    } else {
        let start: u64 = match parse_u64(first) {
            None => {
                return Err(RangeError::Invalid);
            },
            Some(n) => n,
        };
        let end: u64 = if last.is_empty() {
            total - 1
        } else {
            match parse_u64(last) {
                None => {
                    return Err(RangeError::Invalid);
                },
                Some(n) => n,
            }
        };
        (start, end)
    };
    if start >= total || end >= total || start > end {
        return Err(RangeError::OutOfBounds(total));
    }
    Ok((start, end))
}

/// The first and last byte to serve, for the value of a `Range` header.
pub fn parse_range(header_val: Option<&HeaderValue>, total: u64) -> (r: Result<
    (u64, u64),
    RangeError,
>)
    ensures
        is_outcome(
            r,
            header_outcome(
                match header_val {
                    Some(v) => Some(*v),
                    None => None,
                },
                total,
            ),
        ),
{
    match header_val {
        None => parse_range_text(None, total),
        Some(v) => match header_text(v) {
            Some(s) => parse_range_text(Some(s), total),
            None => if total == 0 {
                Err(RangeError::NoContent)
            } else {
                Err(RangeError::Invalid)
            },
        },
    }
}

/// What is served lies within the content.
pub proof fn law_ranges_lie_within_the_content(s: Option<Seq<char>>, total: u64)
    ensures
        range_outcome(s, total) matches Ok((a, b)) ==> 0 <= a <= b < total,
{
}

proof fn lemma_hyphen_behind(a: Seq<char>, b: Seq<char>)
    requires
        !a.contains('-'),
    ensures
        hyphen_at(a + "-"@ + b) == a.len(),
    decreases a.len(),
{
    reveal_strlit("-");
    let s = a + "-"@ + b;
    if a.len() == 0 {
        assert(s[0] == '-');
    } else {
        assert(a.contains(a[0]));
        assert(s[0] == a[0]);
        let t = a.skip(1);
        assert forall|i: int| 0 <= i < t.len() implies t[i] != '-' by {
            assert(a.contains(a[i + 1]));
        }
        lemma_hyphen_behind(t, b);
        assert(s.skip(1) =~= t + "-"@ + b);
    }
}

/// A text without a hyphen has none.
pub proof fn lemma_no_hyphen(s: Seq<char>)
    requires
        forall|i: int| 0 <= i < s.len() ==> #[trigger] s[i] != '-',
    ensures
        hyphen_at(s) == s.len(),
    decreases s.len(),
{
    if s.len() > 0 {
        let t = s.skip(1);
        assert forall|i: int| 0 <= i < t.len() implies #[trigger] t[i] != '-' by {
            assert(t[i] == s[i + 1]);
        }
        assert(s[0] != '-');
        lemma_no_hyphen(t);
    }
}

/// Two numbers with a hyphen between them are the first and last byte that are asked for.
pub proof fn lemma_two_numbers(a: u64, b: u64, total: u64)
    ensures
        range_asked(
            unit() + numbers::decimal_text(a as nat) + "-"@ + numbers::decimal_text(b as nat),
            total,
        ) == Ok::<(int, int), RangeError>((a as int, b as int)),
{
    reveal_strlit("bytes=");
    reveal_strlit("-");
    let x = numbers::decimal_text(a as nat);
    let y = numbers::decimal_text(b as nat);
    let s = unit() + x + "-"@ + y;
    numbers::lemma_digits_have_no_hyphen(a as nat, 10);
    numbers::lemma_decimal_reads_back(a as nat);
    numbers::lemma_decimal_reads_back(b as nat);
    lemma_hyphen_behind(x, y);
    assert(s.subrange(0, unit().len() as int) =~= unit());
    let spec = s.skip(unit().len() as int);
    assert(spec =~= x + "-"@ + y);
    assert(spec.take(x.len() as int) =~= x);
    assert(spec.skip(x.len() as int + 1) =~= y);
    assert(numbers::is_digit(x[0]) && numbers::is_digit(y[0]));
}

/// A range within the content is served as it was asked for.
pub proof fn law_a_range_within_the_content_is_served(a: u64, b: u64, total: u64)
    requires
        a <= b < total,
    ensures
        range_outcome(
            Some(
                unit() + numbers::decimal_text(a as nat) + "-"@ + numbers::decimal_text(b as nat),
            ),
            total,
        ) == Ok::<(int, int), RangeError>((a as int, b as int)),
{
    lemma_two_numbers(a, b, total);
}

/// A range without an end goes to the end of the content.
pub proof fn law_an_open_range_is_the_rest(a: u64, total: u64)
    requires
        a < total,
    ensures
        range_outcome(Some(unit() + numbers::decimal_text(a as nat) + "-"@), total) == Ok::<
            (int, int),
            RangeError,
        >((a as int, total - 1)),
{
    reveal_strlit("bytes=");
    reveal_strlit("-");
    let x = numbers::decimal_text(a as nat);
    let y = Seq::<char>::empty();
    let s = unit() + x + "-"@;
    numbers::lemma_digits_have_no_hyphen(a as nat, 10);
    numbers::lemma_decimal_reads_back(a as nat);
    lemma_hyphen_behind(x, y);
    assert(s.subrange(0, unit().len() as int) =~= unit());
    let spec = s.skip(unit().len() as int);
    assert(spec =~= x + "-"@ + y);
    assert(spec.take(x.len() as int) =~= x);
    assert(spec.skip(x.len() as int + 1) =~= y);
    assert(numbers::is_digit(x[0]));
}

/// The last `n` bytes are the last `n`, or all of them where there are not so many.
pub proof fn law_a_suffix_is_the_end_of_the_content(n: u64, total: u64)
    requires
        0 < n,
        0 < total,
    ensures
        range_outcome(Some(unit() + "-"@ + numbers::decimal_text(n as nat)), total) == Ok::<
            (int, int),
            RangeError,
        >(
            (
                if n >= total {
                    0
                } else {
                    total - n
                },
                total - 1,
            ),
        ),
{
    reveal_strlit("bytes=");
    reveal_strlit("-");
    let y = numbers::decimal_text(n as nat);
    let s = unit() + "-"@ + y;
    numbers::lemma_decimal_reads_back(n as nat);
    assert(s.subrange(0, unit().len() as int) =~= unit());
    let spec = s.skip(unit().len() as int);
    assert(spec =~= "-"@ + y);
    assert(spec[0] == '-');
    assert(spec.take(0).len() == 0);
    assert(spec.skip(1) =~= y);
    assert(numbers::is_digit(y[0]));
}

/// The parts of a range with its unit.
pub proof fn lemma_parts_of_a_range(s: Seq<char>, first: Seq<char>, last: Seq<char>)
    requires
        forall|i: int| 0 <= i < first.len() ==> first[i] != '-',
    ensures
        s == "bytes="@ + first ==> range_asked(s, 1) == Err::<(int, int), RangeError>(
            RangeError::Invalid,
        ) && forall|n: u64| #[trigger] range_asked(s, n) == Err::<(int, int), RangeError>(
            RangeError::Invalid,
        ),
        s == "bytes="@ + first + seq!['-'] + last ==> {
            &&& unit().is_prefix_of(s)
            &&& hyphen_at(s.skip(unit().len() as int)) == first.len()
            &&& s.skip(unit().len() as int).take(first.len() as int) == first
            &&& s.skip(unit().len() as int).skip(first.len() as int + 1) == last
            &&& s.skip(unit().len() as int).len() > first.len()
        },
{
    let n = unit().len() as int;
    if s == "bytes="@ + first {
        assert(s.subrange(0, n) =~= unit());
        assert(s.skip(n) =~= first);
        lemma_first_hyphen(first, first.len() as int);
    }
    if s == "bytes="@ + first + seq!['-'] + last {
        assert(s.subrange(0, n) =~= unit());
        let t = s.skip(n);
        assert(t =~= first + seq!['-'] + last);
        assert forall|i: int| 0 <= i < first.len() implies t[i] != '-' by {
            assert(t[i] == first[i]);
        }
        lemma_first_hyphen(t, first.len() as int);
        assert(t.take(first.len() as int) =~= first);
        assert(t.skip(first.len() as int + 1) =~= last);
    }
}

proof fn lemma_first_hyphen(s: Seq<char>, k: int)
    requires
        0 <= k <= s.len(),
        forall|i: int| 0 <= i < k ==> s[i] != '-',
        k < s.len() ==> s[k] == '-',
    ensures
        hyphen_at(s) == k,
    decreases k,
{
    if k > 0 {
        assert(s[0] != '-');
        let t = s.skip(1);
        assert forall|i: int| 0 <= i < k - 1 implies t[i] != '-' by {
            assert(t[i] == s[i + 1]);
        }
        lemma_first_hyphen(t, k - 1);
    }
}

} // verus!
