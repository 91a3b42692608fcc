//! Streaming: the part that is asked for is the part that is served.

use crate::hashes;
use crate::numbers;
use crate::range;
use crate::numbers::parse_u64;
use crate::range::{parse_range, parse_range_text, RangeError};
use crate::streaming::{
    range_refusal, stream, stream_head, BlobState, Head, MimeCache, Plain, Served, StreamReply,
};
use crate::db::Db;
use axum::http::HeaderValue;
use vstd::prelude::*;
use vstd::string::*;

verus! {

/// The value of a header writes the text `s`, one byte for each character.
pub open spec fn writes(v: HeaderValue, s: Seq<char>) -> bool {
    &&& range::header_bytes(v).len() == s.len()
    &&& forall|i: int| 0 <= i < s.len() ==> #[trigger] s[i] == range::header_bytes(v)[i] as char
}

/// `n` in decimal.
spec fn dec(n: int) -> Seq<char> {
    numbers::decimal_text(n as nat)
}

/// The text is made of visible ASCII characters.
spec fn visible(s: Seq<char>) -> bool {
    forall|i: int| 0 <= i < s.len() ==> ' ' <= #[trigger] s[i] <= '~'
}

proof fn lemma_visible_number(n: nat)
    ensures
        visible(numbers::decimal_text(n)),
{
    numbers::lemma_decimal_reads_back(n);
    let d = numbers::decimal_text(n);
    assert forall|i: int| 0 <= i < d.len() implies ' ' <= #[trigger] d[i] <= '~' by {
        assert(numbers::is_digit(d[i]));
    }
}

proof fn lemma_written(v: HeaderValue, s: Seq<char>, total: u64)
    requires
        writes(v, s),
        visible(s),
    ensures
        range::header_outcome(Some(v), total) == range::range_outcome(Some(s), total),
{
    let b = range::header_bytes(v);
    assert(range::ascii_chars(b) =~= s);
    assert forall|i: int| 0 <= i < b.len() implies range::is_visible(#[trigger] b[i]) by {
        assert(' ' <= s[i] <= '~');
    }
}

/// The answer serves the bytes from the offset `a` to the offset `b`, both of them included,
/// of content of the length `total`, and says so.
pub open spec fn serves_part(r: StreamReply, a: int, b: int, total: int) -> bool {
    &&& r matches StreamReply::Serve(s)
    &&& s.status == 206
    &&& s.start == a
    &&& s.start + s.length - 1 == b
    &&& s.content_range is Some
    &&& s.content_range->0@ == "bytes "@ + numbers::decimal_text(a as nat) + "-"@
        + numbers::decimal_text(b as nat) + "/"@ + numbers::decimal_text(total as nat)
}

/// `Range: bytes=a-b` is answered with the bytes from offset `a` to offset `b`.
pub proof fn law_a_range_serves_its_bytes(
    hash: &str,
    blob: &BlobState,
    v: &HeaderValue,
    mime: &str,
    r: StreamReply,
    a: u64,
    b: u64,
    total: u64,
)
    requires
        call_ensures(stream, (hash, blob, Some(v), mime), r),
        hashes::is_hash(hash@),
        *blob == BlobState::Complete(total),
        a <= b < total,
        writes(
            *v,
            "bytes="@ + numbers::decimal_text(a as nat) + "-"@ + numbers::decimal_text(b as nat),
        ),
    ensures
        serves_part(r, a as int, b as int, total as int),
{
    reveal_strlit("bytes=");
    reveal_strlit("-");
    lemma_visible_number(a as nat);
    lemma_visible_number(b as nat);
    let s = "bytes="@ + dec(a as int) + "-"@ + dec(b as int);
    lemma_written(*v, s, total);
    range::law_a_range_within_the_content_is_served(a, b, total);
}

/// `Range: bytes=a-` is answered with the bytes from offset `a` to the last one.
pub proof fn law_an_open_range_serves_the_rest(
    hash: &str,
    blob: &BlobState,
    v: &HeaderValue,
    mime: &str,
    r: StreamReply,
    a: u64,
    total: u64,
)
    requires
        call_ensures(stream, (hash, blob, Some(v), mime), r),
        hashes::is_hash(hash@),
        *blob == BlobState::Complete(total),
        a < total,
        writes(*v, "bytes="@ + numbers::decimal_text(a as nat) + "-"@),
    ensures
        serves_part(r, a as int, total - 1, total as int),
{
    reveal_strlit("bytes=");
    reveal_strlit("-");
    lemma_visible_number(a as nat);
    lemma_written(*v, "bytes="@ + dec(a as int) + "-"@, total);
    range::law_an_open_range_is_the_rest(a, total);
}

/// `Range: bytes=-n` is answered with the last `n` bytes, or with all of them where there are
/// not so many.
pub proof fn law_a_suffix_range_serves_the_end(
    hash: &str,
    blob: &BlobState,
    v: &HeaderValue,
    mime: &str,
    r: StreamReply,
    n: u64,
    total: u64,
)
    requires
        call_ensures(stream, (hash, blob, Some(v), mime), r),
        hashes::is_hash(hash@),
        *blob == BlobState::Complete(total),
        0 < n,
        0 < total,
        writes(*v, "bytes="@ + "-"@ + numbers::decimal_text(n as nat)),
    ensures
        n < total ==> serves_part(r, total - n, total - 1, total as int),
        n >= total ==> serves_part(r, 0, total - 1, total as int),
{
    reveal_strlit("bytes=");
    reveal_strlit("-");
    lemma_visible_number(n as nat);
    lemma_written(*v, "bytes="@ + "-"@ + dec(n as int), total);
    range::law_a_suffix_is_the_end_of_the_content(n, total);
}

/// A range that begins behind the content, ends behind it, or ends before it begins is
/// answered with 416 and the length of the content.
pub proof fn law_a_range_outside_is_refused(
    hash: &str,
    blob: &BlobState,
    v: &HeaderValue,
    mime: &str,
    r: StreamReply,
    a: u64,
    b: u64,
    total: u64,
)
    requires
        call_ensures(stream, (hash, blob, Some(v), mime), r),
        hashes::is_hash(hash@),
        *blob == BlobState::Complete(total),
        total > 0,
        a >= total || b >= total || a > b,
        writes(
            *v,
            "bytes="@ + numbers::decimal_text(a as nat) + "-"@ + numbers::decimal_text(b as nat),
        ),
    ensures
        r matches StreamReply::Refused(p) && p.status == 416 && p.content_range is Some
            && p.content_range->0@ == "bytes */"@ + numbers::decimal_text(total as nat),
{
    reveal_strlit("bytes=");
    reveal_strlit("-");
    lemma_visible_number(a as nat);
    lemma_visible_number(b as nat);
    let s = "bytes="@ + dec(a as int) + "-"@ + dec(b as int);
    lemma_written(*v, s, total);
    range::lemma_two_numbers(a, b, total);
}

/// A header that does not begin with `bytes=`, or has no hyphen behind it, is answered with
/// 416.
pub proof fn law_another_unit_is_refused(
    hash: &str,
    blob: &BlobState,
    v: &HeaderValue,
    mime: &str,
    r: StreamReply,
    s: Seq<char>,
    total: u64,
)
    requires
        call_ensures(stream, (hash, blob, Some(v), mime), r),
        hashes::is_hash(hash@),
        *blob == BlobState::Complete(total),
        total > 0,
        writes(*v, s),
        !"bytes="@.is_prefix_of(s) || !s.contains('-'),
    ensures
        r matches StreamReply::Refused(p) && p.status == 416,
{
    let b = range::header_bytes(*v);
    assert(range::ascii_chars(b) =~= s);
    if "bytes="@.is_prefix_of(s) {
        let spec = s.skip("bytes="@.len() as int);
        assert forall|i: int| 0 <= i < spec.len() implies #[trigger] spec[i] != '-' by {
            assert(s.contains(s[i + "bytes="@.len()]));
        }
        range::lemma_no_hyphen(spec);
    }
}

/// Without `Range` the whole content is served.
pub proof fn law_without_a_range_all_is_served(
    hash: &str,
    blob: &BlobState,
    mime: &str,
    r: StreamReply,
    total: u64,
)
    requires
        call_ensures(stream, (hash, blob, None::<&HeaderValue>, mime), r),
        hashes::is_hash(hash@),
        *blob == BlobState::Complete(total),
        total > 0,
    ensures
        r matches StreamReply::Serve(s) && s.status == 200 && s.start == 0 && s.length == total
            && s.content_range is None,
{
}

/// Whatever is served is a part of the content that is not empty, and `Content-Range` names
/// that part: it is there where a range was asked for, with the status 206. Nothing of it is
/// to be kept, and further ranges may be asked for.
pub proof fn law_what_is_served_is_what_is_named(
    hash: &str,
    blob: &BlobState,
    header: Option<&HeaderValue>,
    mime: &str,
    r: StreamReply,
    s: Served,
)
    requires
        call_ensures(stream, (hash, blob, header, mime), r),
        r == StreamReply::Serve(s),
    ensures
        *blob matches BlobState::Complete(total) && {
            &&& hashes::is_hash(hash@)
            &&& s.length > 0
            &&& s.start + s.length <= total
            &&& header is Some ==> s.status == 206 && s.content_range is Some
                && s.content_range->0@ == "bytes "@ + numbers::decimal_text(s.start as nat) + "-"@
                + numbers::decimal_text((s.start + s.length - 1) as nat) + "/"@
                + numbers::decimal_text(total as nat)
            &&& header is None ==> s.status == 200 && s.content_range is None && s.start == 0
                && s.length == total
        },
        s.accept_ranges@ == "bytes"@,
        s.cache_control@ == "no-store"@,
        s.content_type@ == mime@ || s.content_type@ == "application/octet-stream"@ && exists|i: int|
            0 <= i < vstd::utf8::encode_utf8(mime@).len() && {
                let b = #[trigger] vstd::utf8::encode_utf8(mime@)[i];
                b < 32 && b != 9 || b == 127
            },
{
    if !range::header_text_allowed(mime@) {
        let i = choose|i: int|
            0 <= i < vstd::utf8::encode_utf8(mime@).len() && !range::is_header_byte(
                #[trigger] vstd::utf8::encode_utf8(mime@)[i],
            );
        let b = vstd::utf8::encode_utf8(mime@)[i];
        assert(b < 32 && b != 9 || b == 127);
    }
}

/// What cannot be served is answered with a reason, the same for `GET` and `HEAD`: 400 for a
/// text that is no hash, 404 for content that is not there as a whole, 500 where the store
/// failed, 204 for content that is empty.
pub proof fn law_what_is_not_at_hand_is_not_served(
    hash: &str,
    blob: &BlobState,
    header: Option<&HeaderValue>,
    mime: &str,
    r: StreamReply,
    h: Result<Head, Plain>,
)
    requires
        call_ensures(stream, (hash, blob, header, mime), r),
        call_ensures(stream_head, (hash, blob, mime), h),
        !(hashes::is_hash(hash@) && (*blob matches BlobState::Complete(n) && n > 0)),
    ensures
        r matches StreamReply::Refused(p) && (h matches Err(q) && {
            &&& p.status == q.status
            &&& p.text@ == q.text@
            &&& p.content_range is None && q.content_range is None
            &&& !hashes::is_hash(hash@) ==> p.status == 400 && p.text@ == "hash inválido"@
            &&& hashes::is_hash(hash@) ==> match blob {
                BlobState::Absent => p.status == 404 && p.text@
                    == "blob no disponible en este nodo"@,
                BlobState::Partial => p.status == 404 && p.text@ == "blob parcial en este nodo"@,
                BlobState::Failed(e) => p.status == 500 && p.text@ == "status: "@ + e@,
                BlobState::Complete(_) => p.status == 204 && p.text@ == "vacío"@,
            }
        }),
{
}

/// `HEAD` gives the headers of `GET` without a range.
pub proof fn law_head_has_the_headers_of_get(
    hash: &str,
    blob: &BlobState,
    mime: &str,
    r: StreamReply,
    h: Result<Head, Plain>,
)
    requires
        call_ensures(stream, (hash, blob, None::<&HeaderValue>, mime), r),
        call_ensures(stream_head, (hash, blob, mime), h),
    ensures
        h is Ok <==> r is Serve,
        r matches StreamReply::Serve(s) ==> {
            &&& h->Ok_0.status == s.status
            &&& h->Ok_0.length == s.length
            &&& h->Ok_0.content_type@ == s.content_type@
            &&& h->Ok_0.accept_ranges@ == s.accept_ranges@
            &&& h->Ok_0.cache_control@ == s.cache_control@
        },
{
}

/// The media type of a content is that of a listed file with that content, or
/// `application/octet-stream` where there is none or its type is not known. It is the same
/// when it is asked for again, whatever became of the catalog.
pub proof fn law_the_type_is_that_of_the_file(
    cache: &mut MimeCache,
    later: &mut MimeCache,
    db: &Db,
    other_db: &Db,
    hash: &str,
    r: String,
    again: String,
)
    requires
        call_ensures(MimeCache::mime_for, (cache, db, hash), r),
        call_ensures(MimeCache::mime_for, (later, other_db, hash), again),
        old(cache).wf(),
        db.wf(),
        other_db.wf(),
        old(later).wf(),
        old(later)@ == final(cache)@,
    ensures
        again@ == r@,
        !old(cache)@.contains_key(hash@) ==> {
            ||| exists|p: Seq<char>| #[trigger]
                db@.files.contains_key(p) && db@.files[p].hash == hash@ && db@.files[p].mime == r@
                    && r@.len() > 0
            ||| r@ == "application/octet-stream"@ && forall|p: Seq<char>| #[trigger]
                db@.files.contains_key(p) && db@.files[p].hash == hash@ ==> exists|q: Seq<char>|
                    #[trigger] db@.files.contains_key(q) && db@.files[q].hash == hash@
                        && db@.files[q].mime.len() == 0
        },
        forall|h: Seq<char>| #[trigger]
            old(cache)@.contains_key(h) ==> final(cache)@.contains_key(h) && final(cache)@[h]
                == old(cache)@[h],
{
}

/// A range is read as its two numbers, with the last byte where the second one is missing. One
/// number behind the hyphen is that of the last bytes, all of them where it is 0 or there are
/// not so many. What does not lie within the content is refused.
pub proof fn law_a_range_is_read(
    s: &str,
    f: &str,
    l: &str,
    total: u64,
    x: Option<u64>,
    y: Option<u64>,
    r: Result<(u64, u64), RangeError>,
)
    requires
        call_ensures(parse_range_text, (Some(s), total), r),
        call_ensures(parse_u64, (f,), x),
        call_ensures(parse_u64, (l,), y),
        s@ == "bytes="@ + f@ + seq!['-'] + l@,
        forall|i: int| 0 <= i < f@.len() ==> f@[i] != '-',
        total > 0,
    ensures
        f@.len() > 0 && l@.len() > 0 && x is Some && y is Some ==> r == if x->0 <= y->0 && y->0
            < total {
            Ok::<(u64, u64), RangeError>((x->0, y->0))
        } else {
            Err(RangeError::OutOfBounds(total))
        },
        f@.len() > 0 && l@.len() == 0 && x is Some ==> r == if x->0 < total {
            Ok::<(u64, u64), RangeError>((x->0, (total - 1) as u64))
        } else {
            Err(RangeError::OutOfBounds(total))
        },
        f@.len() == 0 && y is Some ==> r == Ok::<(u64, u64), RangeError>(
            if y->0 == 0 || y->0 >= total {
                (0, (total - 1) as u64)
            } else {
                ((total - y->0) as u64, (total - 1) as u64)
            },
        ),
{
    range::lemma_parts_of_a_range(s@, f@, l@);
}

/// Without a header all is asked for, and of no content nothing can be.
pub proof fn law_without_a_header_all_is_asked_for(
    s: Option<&str>,
    total: u64,
    r: Result<(u64, u64), RangeError>,
    n: Result<(u64, u64), RangeError>,
)
    requires
        call_ensures(parse_range_text, (None::<&str>, total), r),
        call_ensures(parse_range_text, (s, 0u64), n),
    ensures
        total > 0 ==> r == Ok::<(u64, u64), RangeError>((0, (total - 1) as u64)),
        n == Err::<(u64, u64), RangeError>(RangeError::NoContent),
{
}

/// A header is read as the text that it writes. One with other than visible characters cannot
/// be read.
pub proof fn law_a_header_is_read_as_its_text(
    v: &HeaderValue,
    s: &str,
    total: u64,
    r: Result<(u64, u64), RangeError>,
    t: Result<(u64, u64), RangeError>,
)
    requires
        call_ensures(parse_range, (Some(v), total), r),
        call_ensures(parse_range_text, (Some(s), total), t),
        writes(*v, s@),
        total > 0,
    ensures
        (forall|i: int| 0 <= i < s@.len() ==> ' ' <= #[trigger] s@[i] <= '~') ==> r == t,
        (exists|i: int|
            0 <= i < s@.len() && (#[trigger] s@[i] < ' ' && s@[i] != '\t' || s@[i] > '~')) ==> r
            == Err::<(u64, u64), RangeError>(RangeError::Invalid),
{
    let b = range::header_bytes(*v);
    if forall|i: int| 0 <= i < s@.len() ==> ' ' <= #[trigger] s@[i] <= '~' {
        assert(visible(s@));
        lemma_written(*v, s@, total);
    }
    if exists|i: int| 0 <= i < s@.len() && (#[trigger] s@[i] < ' ' && s@[i] != '\t' || s@[i] > '~') {
        let i = choose|i: int|
            0 <= i < s@.len() && (#[trigger] s@[i] < ' ' && s@[i] != '\t' || s@[i] > '~');
        assert(s@[i] == b[i] as char);
        assert(!range::is_visible(b[i]));
    }
}

/// The bytes that the header asks for are served, and what is refused is answered so.
pub proof fn law_what_is_asked_for_is_served(
    hash: &str,
    blob: &BlobState,
    v: &HeaderValue,
    mime: &str,
    total: u64,
    asked: Result<(u64, u64), RangeError>,
    r: StreamReply,
)
    requires
        call_ensures(stream, (hash, blob, Some(v), mime), r),
        call_ensures(parse_range, (Some(v), total), asked),
        hashes::is_hash(hash@),
        *blob == BlobState::Complete(total),
    ensures
        asked matches Ok((a, b)) ==> serves_part(r, a as int, b as int, total as int),
        asked is Err ==> r is Refused,
        forall|p: Plain|
            asked is Err && #[trigger] call_ensures(range_refusal, (asked->Err_0,), p) ==> {
                let q = r->Refused_0;
                &&& p.status == q.status && p.text@ == q.text@
                &&& p.content_range is Some <==> q.content_range is Some
                &&& p.content_range is Some ==> p.content_range->0@ == q.content_range->0@
            },
{
}

/// What a range is answered with that is not served.
pub proof fn law_what_is_said_of_ranges(e: RangeError, r: Plain)
    requires
        call_ensures(range_refusal, (e,), r),
    ensures
        e is NoContent ==> r.status == 204 && r.text@ == "vacío"@ && r.content_range is None,
        e is Invalid ==> r.status == 416 && r.text@ == "rango inválido"@ && r.content_range is None,
        e matches RangeError::OutOfBounds(n) ==> r.status == 416 && r.text@
            == "rango fuera de límites"@ && r.content_range is Some && r.content_range->0@
            == "bytes */"@ + numbers::decimal_text(n as nat),
{
}

/// A media type is declared as it is, where it can stand in a header.
pub proof fn law_which_type_is_declared(mime: &str, r: String)
    requires
        call_ensures(range::content_type, (mime,), r),
    ensures
        (forall|i: int| 0 <= i < mime@.len() ==> ' ' <= #[trigger] mime@[i] <= '~') ==> r@ == mime@,
        r@ == mime@ || r@ == "application/octet-stream"@,
{
    if forall|i: int| 0 <= i < mime@.len() ==> ' ' <= #[trigger] mime@[i] <= '~' {
        assert(vstd::utf8::is_ascii_chars(mime@));
        vstd::utf8::is_ascii_chars_encode_utf8(mime@);
        let b = vstd::utf8::encode_utf8(mime@);
        assert forall|i: int| 0 <= i < b.len() implies range::is_header_byte(#[trigger] b[i]) by {
            assert(' ' <= mime@[i] <= '~');
        }
    }
}

} // verus!
