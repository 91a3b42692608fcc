//! Serving content by ranges.

use crate::catalog;
use crate::catalog::Tables;
use crate::db::Db;
use crate::hashes;
use crate::hashes::hash_valid;
use crate::numbers;
use crate::numbers::decimal;
use crate::range;
use crate::range::{content_type, parse_range, RangeError};
use crate::records::Setting;
use crate::table::Table;
use axum::http::HeaderValue;
use vstd::prelude::*;
use vstd::string::*;

verus! {

/// What the blob store has of a content.
pub enum BlobState {
    /// Nothing.
    Absent,
    /// A part of it.
    Partial,
    /// All of it, of this length.
    Complete(u64),
    /// It could not be asked.
    Failed(String),
}

/// An answer in plain text, maybe with the header `Content-Range`.
pub struct Plain {
    pub status: u16,
    pub text: String,
    pub content_range: Option<String>,
}

/// The answer is this text, without `Content-Range`.
pub open spec fn says(p: Plain, status: u16, text: Seq<char>) -> bool {
    p.status == status && p.text@ == text && p.content_range is None
}

/// An answer in plain text.
fn plain(status: u16, text: &str) -> (r: Plain)
    ensures
        says(r, status, text@),
{
    Plain { status, text: text.to_owned(), content_range: None }
}

/// A range that is not served is answered so.
pub open spec fn answers_range_error(p: Plain, e: RangeError) -> bool {
    match e {
        RangeError::NoContent => says(p, 204, "vacío"@),
        RangeError::Invalid => says(p, 416, "rango inválido"@),
        RangeError::OutOfBounds(total) => {
            &&& p.status == 416
            &&& p.text@ == "rango fuera de límites"@
            &&& p.content_range is Some
            &&& p.content_range->0@ == "bytes */"@ + numbers::decimal_text(total as nat)
        },
    }
}

/// The answer to a range that is not served.
pub fn range_refusal(e: RangeError) -> (r: Plain)
    ensures
        answers_range_error(r, e),
{
    match e {
        RangeError::NoContent => plain(204, "vacío"),
        RangeError::Invalid => plain(416, "rango inválido"),
        RangeError::OutOfBounds(total) => {
            let mut h = "bytes */".to_owned();
            h.append(decimal(total).as_str());
            Plain {
                status: 416,
                text: "rango fuera de límites".to_owned(),
                content_range: Some(h),
            }
        },
    }
}

/// Content to serve: `length` bytes from `start` on, and the headers that go with them.
pub struct Served {
    pub status: u16,
    pub start: u64,
    pub length: u64,
    pub content_type: String,
    pub content_range: Option<String>,
    pub accept_ranges: &'static str,
    pub cache_control: &'static str,
}

/// What is answered to a request for content.
pub enum StreamReply {
    Refused(Plain),
    Serve(Served),
}

/// Content that cannot be served is answered so, whatever the range; a hash that is none
/// first.
pub open spec fn answers_unavailable(p: Plain, hash: Seq<char>, blob: BlobState) -> bool {
    if !hashes::is_hash(hash) {
        says(p, 400, "hash inválido"@)
    } else {
        match blob {
            BlobState::Absent => says(p, 404, "blob no disponible en este nodo"@),
            BlobState::Partial => says(p, 404, "blob parcial en este nodo"@),
            BlobState::Failed(e) => says(p, 500, "status: "@ + e@),
            BlobState::Complete(_) => false,
        }
    }
}

/// The content can be served.
pub open spec fn available(hash: Seq<char>, blob: BlobState) -> bool {
    hashes::is_hash(hash) && blob is Complete
}

/// The length of the content, or the answer where it cannot be served.
fn find_content(hash: &str, blob: &BlobState) -> (r: Result<u64, Plain>)
    ensures
        match r {
            Ok(n) => available(hash@, *blob) && *blob == BlobState::Complete(n),
            Err(p) => !available(hash@, *blob) && answers_unavailable(p, hash@, *blob),
        },
{
    if !hash_valid(hash) {
        return Err(plain(400, "hash inválido"));
    }
    match blob {
        BlobState::Absent => Err(plain(404, "blob no disponible en este nodo")),
        BlobState::Partial => Err(plain(404, "blob parcial en este nodo")),
        BlobState::Failed(e) => {
            let mut t = "status: ".to_owned();
            t.append(e.as_str());
            Err(Plain { status: 500, text: t, content_range: None })
        },
        BlobState::Complete(n) => Ok(*n),
    }
}

/// The header that names the range served.
pub open spec fn content_range_text(start: u64, end: u64, total: u64) -> Seq<char> {
    "bytes "@ + numbers::decimal_text(start as nat) + "-"@ + numbers::decimal_text(end as nat)
        + "/"@ + numbers::decimal_text(total as nat)
}

/// `s` serves the bytes from `start` to `end` of `total`: as a part where a range was asked
/// for, else as the whole.
pub open spec fn serves(
    s: Served,
    start: int,
    end: int,
    total: u64,
    mime: Seq<char>,
    asked: bool,
) -> bool {
    &&& s.start == start
    &&& s.length == end - start + 1
    &&& s.content_type@ == range::declared_type(mime)
    &&& s.accept_ranges@ == "bytes"@
    &&& s.cache_control@ == "no-store"@
    &&& if asked {
        &&& s.status == 206
        &&& s.content_range is Some
        &&& s.content_range->0@ == content_range_text(start as u64, end as u64, total)
    } else {
        s.status == 200 && s.content_range is None
    }
}

/// `GET /stream/:hash`: what is answered to a request for the content `hash`, with the value
/// of its `Range` header, where the store has `blob` of it and its media type is `mime`.
pub fn stream(hash: &str, blob: &BlobState, header: Option<&HeaderValue>, mime: &str) -> (r:
    StreamReply)
    ensures
        if !available(hash@, *blob) {
            r matches StreamReply::Refused(p) && answers_unavailable(p, hash@, *blob)
        } else {
            match range::header_outcome(
                match header {
                    Some(v) => Some(*v),
                    None => None,
                },
                (*blob)->Complete_0,
            ) {
                Err(e) => r matches StreamReply::Refused(p) && answers_range_error(p, e),
                Ok((start, end)) => r matches StreamReply::Serve(s) && serves(
                    s,
                    start,
                    end,
                    (*blob)->Complete_0,
                    mime@,
                    header is Some,
                ),
            }
        },
{
    let total: u64 = match find_content(hash, blob) {
        Ok(n) => n,
        Err(p) => {
            return StreamReply::Refused(p);
        },
    };
    let (start, end): (u64, u64) = match parse_range(header, total) {
        Ok(x) => x,
        Err(e) => {
            return StreamReply::Refused(range_refusal(e));
        },
    };
    let (status, content_range): (u16, Option<String>) = if header.is_some() {
        let mut h = "bytes ".to_owned();
        h.append(decimal(start).as_str());
        h.append("-");
        h.append(decimal(end).as_str());
        h.append("/");
        h.append(decimal(total).as_str());
        (206, Some(h))
    } else {
        (200, None)
    };
    StreamReply::Serve(
        Served {
            status,
            start,
            length: end - start + 1,
            content_type: content_type(mime),
            content_range,
            accept_ranges: "bytes",
            cache_control: "no-store",
        },
    )
}

/// The headers of content, without the content.
pub struct Head {
    pub status: u16,
    pub length: u64,
    pub content_type: String,
    pub accept_ranges: &'static str,
    pub cache_control: &'static str,
}

/// `h` holds the headers of content of the length `total` and the media type `mime`.
pub open spec fn heads(h: Head, total: u64, mime: Seq<char>) -> bool {
    &&& h.status == 200
    &&& h.length == total
    &&& h.content_type@ == range::declared_type(mime)
    &&& h.accept_ranges@ == "bytes"@
    &&& h.cache_control@ == "no-store"@
}

/// `HEAD /stream/:hash`: the headers of the content `hash`, where the store has `blob` of it
/// and its media type is `mime`. They are those of a `GET` of the whole content, and what is
/// refused there is refused here.
pub fn stream_head(hash: &str, blob: &BlobState, mime: &str) -> (r: Result<Head, Plain>)
    ensures
        if !available(hash@, *blob) {
            r matches Err(p) && answers_unavailable(p, hash@, *blob)
        } else if (*blob)->Complete_0 == 0 {
            r matches Err(p) && answers_range_error(p, RangeError::NoContent)
        } else {
            r matches Ok(h) && heads(h, (*blob)->Complete_0, mime@)
        },
{
    let total: u64 = match find_content(hash, blob) {
        Ok(n) => n,
        Err(p) => {
            return Err(p);
        },
    };
    if total == 0 {
        return Err(range_refusal(RangeError::NoContent));
    }
    Ok(
        Head {
            status: 200,
            length: total,
            content_type: content_type(mime),
            accept_ranges: "bytes",
            cache_control: "no-store",
        },
    )
}

/// The headers of content are those with which the whole content is served, and content that
/// is not served has none.
pub proof fn law_head_agrees_with_get(total: u64, mime: Seq<char>, h: Head, s: Served)
    requires
        heads(h, total, mime),
        total > 0 ==> (range::header_outcome(None, total) matches Ok((a, b)) && serves(
            s,
            a,
            b,
            total,
            mime,
            false,
        )),
    ensures
        total == 0 <==> range::header_outcome(None, total) == Err::<(int, int), RangeError>(
            RangeError::NoContent,
        ),
        total > 0 ==> {
            &&& s.status == h.status
            &&& s.length == h.length
            &&& s.content_type@ == h.content_type@
            &&& s.accept_ranges@ == h.accept_ranges@
            &&& s.cache_control@ == h.cache_control@
            &&& s.content_range is None
        },
{
}

/// The media type that the catalog has for a content: that of one of its files, or
/// `application/octet-stream` where it has none.
pub open spec fn type_known(t: Tables, hash: Seq<char>, mime: Seq<char>) -> bool {
    if catalog::hash_listed(t, hash) {
        exists|p: Seq<char>| #[trigger]
            t.files.contains_key(p) && t.files[p].hash == hash && mime == (if t.files[p].mime.len()
                == 0 {
                "application/octet-stream"@
            } else {
                t.files[p].mime
            })
    } else {
        mime == "application/octet-stream"@
    }
}

/// The media types that were looked up before, by content hash.
pub struct MimeCache {
    known: Table<Setting>,
}

impl View for MimeCache {
    type V = Map<Seq<char>, (Seq<char>, Seq<char>)>;

    closed spec fn view(&self) -> Map<Seq<char>, (Seq<char>, Seq<char>)> {
        self.known@
    }
}

impl MimeCache {
    /// No hash occurs twice.
    pub closed spec fn wf(self) -> bool {
        self.known.wf()
    }

    /// Nothing was looked up yet.
    pub fn new() -> (r: Self)
        ensures
            r.wf(),
            r@ == Map::<Seq<char>, (Seq<char>, Seq<char>)>::empty(),
    {
        MimeCache { known: Table::new() }
    }

    /// The media type of a content: what was found before, else what the catalog has.
    pub fn mime_for(&mut self, db: &Db, hash: &str) -> (r: String)
        requires
            old(self).wf(),
            db.wf(),
        ensures
            final(self).wf(),
            old(self)@.contains_key(hash@) ==> {
                &&& r@ == old(self)@[hash@].1
                &&& final(self)@ == old(self)@
            },
            !old(self)@.contains_key(hash@) ==> {
                &&& type_known(db@, hash@, r@)
                &&& final(self)@ == old(self)@.insert(hash@, (hash@, r@))
            },
    {
        if let Some(i) = self.known.find(hash) {
            return self.known.rows[i].val.clone();
        }
        let mime = match db.get_by_hash(hash) {
            Some(row) => {
                assert(db@.files.contains_key(row@.path));
                if row.mime.as_str().is_empty() {
                    "application/octet-stream".to_owned()
                } else {
                    row.mime
                }
            },
            None => "application/octet-stream".to_owned(),
        };
        self.known.push(Setting { key: hash.to_owned(), val: mime.clone() });
        mime
    }
}

/// A range of content that is not empty, where it is refused, is answered with 416.
pub proof fn law_a_refused_range_is_not_satisfiable(
    p: Plain,
    v: Option<HeaderValue>,
    total: u64,
    e: RangeError,
)
    requires
        total > 0,
        range::header_outcome(v, total) == Err::<(int, int), RangeError>(e),
        answers_range_error(p, e),
    ensures
        p.status == 416,
{
}

/// What is served is a part of the content that is not empty.
pub proof fn law_served_bytes_exist(
    s: Served,
    v: Option<HeaderValue>,
    total: u64,
    mime: Seq<char>,
    asked: bool,
)
    requires
        range::header_outcome(v, total) matches Ok((a, b)) && serves(s, a, b, total, mime, asked),
    ensures
        s.length > 0,
        s.start + s.length <= total,
{
}

} // verus!
