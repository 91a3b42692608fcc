use axum::http::HeaderValue;
use p2p_nube::range::{content_type, parse_range, parse_range_text, RangeError};
use p2p_nube::streaming::{range_refusal, stream, stream_head, BlobState, MimeCache, StreamReply};
use p2p_nube::{Db, FileRow, Policy};

#[test]
fn parse_range_casos() {
    let total = 10_000u64;

    // Without a header: everything
    assert_eq!(parse_range(None, total), Ok((0, 9999)));

    let h = HeaderValue::from_static("bytes=0-499");
    assert_eq!(parse_range(Some(&h), total), Ok((0, 499)));

    // Open at the end
    let h = HeaderValue::from_static("bytes=500-");
    assert_eq!(parse_range(Some(&h), total), Ok((500, 9999)));

    // The last 500 bytes
    let h = HeaderValue::from_static("bytes=-500");
    assert_eq!(parse_range(Some(&h), total), Ok((9500, 9999)));

    // More than there are
    let h = HeaderValue::from_static("bytes=-20000");
    assert_eq!(parse_range(Some(&h), total), Ok((0, 9999)));

    let h = HeaderValue::from_static("bytes=-0");
    assert_eq!(parse_range(Some(&h), total), Ok((0, 9999)));

    let h = HeaderValue::from_static("bytes=abc-def");
    assert_eq!(parse_range(Some(&h), total), Err(RangeError::Invalid));

    // Start behind end
    let h = HeaderValue::from_static("bytes=500-200");
    assert_eq!(
        parse_range(Some(&h), total),
        Err(RangeError::OutOfBounds(total))
    );

    // Out of bounds
    let h = HeaderValue::from_static("bytes=15000-16000");
    assert_eq!(
        parse_range(Some(&h), total),
        Err(RangeError::OutOfBounds(total))
    );

    // Nothing there
    assert_eq!(parse_range(None, 0), Err(RangeError::NoContent));
}

#[test]
fn range_headers_that_cannot_be_read() {
    for s in [
        "", "bytes", "bytes=", "bytes=5", "items=0-1", "Bytes=0-1", "bytes=0-1,3-4", "bytes= 0-1",
        "bytes=0--1", "bytes=-", "bytes=18446744073709551616-", "bytes=0-x",
    ] {
        assert_eq!(parse_range_text(Some(s), 10), Err(RangeError::Invalid), "{s}");
    }
    assert_eq!(parse_range_text(Some("bytes=+2-+4"), 10), Ok((2, 4)));
    assert_eq!(parse_range_text(Some("bytes=0-10"), 10), Err(RangeError::OutOfBounds(10)));
    assert_eq!(parse_range_text(Some("bytes=9-9"), 10), Ok((9, 9)));
    assert_eq!(parse_range_text(Some("x"), 0), Err(RangeError::NoContent));
    // Bytes that are no visible text
    let h = HeaderValue::from_bytes(b"bytes=0-\xff").unwrap();
    assert_eq!(parse_range(Some(&h), 10), Err(RangeError::Invalid));
    assert_eq!(parse_range(Some(&h), 0), Err(RangeError::NoContent));
    let h = HeaderValue::from_bytes(b"bytes=0-\t").unwrap();
    assert_eq!(parse_range(Some(&h), 10), Err(RangeError::Invalid));
}

#[test]
fn every_range_within_the_content_is_served_as_asked() {
    for total in 1..6u64 {
        for a in 0..total {
            for b in a..total {
                assert_eq!(parse_range_text(Some(&format!("bytes={a}-{b}")), total), Ok((a, b)));
            }
        }
        for n in 1..8u64 {
            let start = if n >= total { 0 } else { total - n };
            assert_eq!(parse_range_text(Some(&format!("bytes=-{n}")), total), Ok((start, total - 1)));
        }
    }
}

#[test]
fn refused_ranges_are_answered() {
    let p = range_refusal(RangeError::NoContent);
    assert_eq!((p.status, p.text.as_str(), p.content_range), (204, "vacío", None));
    let p = range_refusal(RangeError::Invalid);
    assert_eq!((p.status, p.text.as_str(), p.content_range), (416, "rango inválido", None));
    let p = range_refusal(RangeError::OutOfBounds(31));
    assert_eq!((p.status, p.text.as_str()), (416, "rango fuera de límites"));
    assert_eq!(p.content_range.as_deref(), Some("bytes */31"));
}

#[test]
fn media_types_in_headers() {
    assert_eq!(content_type("video/mp4"), "video/mp4");
    assert_eq!(content_type("a\nb"), "application/octet-stream");
    assert_eq!(content_type("a\u{7f}"), "application/octet-stream");
    assert_eq!(content_type("café\t"), "café\t");
}

fn listed(path: &str, hash: &str, mime: &str) -> Db {
    let mut db = Db::open_in_memory(1);
    db.upsert_file(&FileRow {
        path: path.into(),
        hash: hash.into(),
        size: 31,
        mime: mime.into(),
        policy: Policy::StreamOnly,
        host_id: "test".into(),
        tag: String::new(),
        title: String::new(),
        watched: false,
        kind: "media".into(),
    });
    db
}

fn serve(hash: &str, blob: &BlobState, range: Option<&'static str>, mime: &str) -> StreamReply {
    let h = range.map(HeaderValue::from_static);
    stream(hash, blob, h.as_ref(), mime)
}

#[test]
fn gateway_sirve_rangos() {
    let data = b"hola-mundo-streaming-1234567890";
    let hash = "0".repeat(64);
    let db = listed("hola.bin", &hash, "application/octet-stream");
    let mime = MimeCache::new().mime_for(&db, &hash);
    let blob = BlobState::Complete(data.len() as u64);
    // Everything
    match serve(&hash, &blob, None, &mime) {
        StreamReply::Serve(s) => {
            assert_eq!((s.status, s.start, s.length), (200, 0, 31));
            assert_eq!(s.content_range, None);
        }
        StreamReply::Refused(_) => panic!("refused"),
    }
    // A range
    match serve(&hash, &blob, Some("bytes=0-3"), &mime) {
        StreamReply::Serve(s) => {
            assert_eq!(s.status, 206);
            assert_eq!(s.content_range.as_deref(), Some("bytes 0-3/31"));
            assert_eq!((s.accept_ranges, s.cache_control), ("bytes", "no-store"));
            assert_eq!(&data[s.start as usize..(s.start + s.length) as usize], b"hola");
        }
        StreamReply::Refused(_) => panic!("refused"),
    }
}

#[test]
fn gateway_content_type_y_head() {
    let data = b"fake-mkv-bytes-1234";
    let hash = "a".repeat(64);
    let db = listed("cap07.mkv", &hash, "video/x-matroska");
    let mime = MimeCache::new().mime_for(&db, &hash);
    let blob = BlobState::Complete(data.len() as u64);
    match serve(&hash, &blob, None, &mime) {
        StreamReply::Serve(s) => {
            assert_eq!(s.status, 200);
            assert_eq!(s.content_type, "video/x-matroska");
            assert_eq!(s.accept_ranges, "bytes");
            assert_eq!(s.cache_control, "no-store");
        }
        StreamReply::Refused(_) => panic!("refused"),
    }
    let h = stream_head(&hash, &blob, &mime).ok().unwrap();
    assert_eq!(h.status, 200);
    assert_eq!(h.content_type, "video/x-matroska");
    assert_eq!(h.accept_ranges, "bytes");
    assert_eq!(h.cache_control, "no-store");
    assert_eq!(h.length, data.len() as u64);
}

#[test]
fn headers_are_those_of_the_whole_content() {
    let hash = "c".repeat(64);
    for (n, mime) in [(1, "video/mp4"), (7, "a\nb"), (31, "")] {
        let blob = BlobState::Complete(n);
        let h = stream_head(&hash, &blob, mime).ok().unwrap();
        match serve(&hash, &blob, None, mime) {
            StreamReply::Serve(s) => {
                assert_eq!((s.status, s.length, s.content_range), (h.status, h.length, None));
                assert_eq!(s.content_type, h.content_type);
                assert_eq!((s.accept_ranges, s.cache_control), (h.accept_ranges, h.cache_control));
            }
            StreamReply::Refused(_) => panic!("refused"),
        }
    }
    let p = stream_head(&hash, &BlobState::Complete(0), "x/y").err().unwrap();
    assert_eq!((p.status, p.text.as_str()), (204, "vacío"));
}

#[test]
fn content_that_is_not_there_is_answered() {
    let hash = "b".repeat(64);
    let cases = [
        ("xyz", BlobState::Complete(5), 400, "hash inválido"),
        (hash.as_str(), BlobState::Absent, 404, "blob no disponible en este nodo"),
        (hash.as_str(), BlobState::Partial, 404, "blob parcial en este nodo"),
        (hash.as_str(), BlobState::Failed("disco".into()), 500, "status: disco"),
    ];
    for (h, blob, status, text) in &cases {
        match serve(h, blob, None, "x/y") {
            StreamReply::Refused(p) => assert_eq!((p.status, p.text.as_str()), (*status, *text)),
            StreamReply::Serve(_) => panic!("served"),
        }
        let p = stream_head(h, blob, "x/y").err().unwrap();
        assert_eq!((p.status, p.text.as_str()), (*status, *text));
    }
    match serve(&hash, &BlobState::Complete(0), None, "x/y") {
        StreamReply::Refused(p) => assert_eq!(p.status, 204),
        StreamReply::Serve(_) => panic!("served"),
    }
    match serve(&hash, &BlobState::Complete(5), Some("bytes=5-"), "x/y") {
        StreamReply::Refused(p) => assert_eq!(p.content_range.as_deref(), Some("bytes */5")),
        StreamReply::Serve(_) => panic!("served"),
    }
}

#[test]
fn media_types_are_looked_up_once() {
    let mut cache = MimeCache::new();
    let mut db = listed("a.mkv", "h1", "video/x-matroska");
    assert_eq!(cache.mime_for(&db, "h1"), "video/x-matroska");
    assert_eq!(cache.mime_for(&db, "h2"), "application/octet-stream");
    db.delete_by_path("a.mkv");
    assert_eq!(cache.mime_for(&db, "h1"), "video/x-matroska");
    let db = listed("b", "h3", "");
    assert_eq!(cache.mime_for(&db, "h3"), "application/octet-stream");
}
