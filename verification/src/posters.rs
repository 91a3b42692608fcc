//! Posters: which uploads are taken, what they are called, and which names are served.

use crate::paths;
use crate::paths::file_name;
use crate::text;
use crate::text::{chars_of, ends_with, same, text_of};
use vstd::prelude::*;
use vstd::string::*;

verus! {

/// The largest poster, in bytes.
pub const MAX_POSTER: u64 = 10 * 1024 * 1024;

/// Posters are kept beside the uploads: the folder for uploads is called `staging`.
pub open spec fn posters_beside(staging: Seq<char>) -> bool {
    paths::base_name(staging) == Some("staging"@)
}

/// Whether posters are kept in the folder `posters` beside the folder for uploads, so that
/// they last; else they are kept in a temporary folder.
pub fn keeps_posters_beside(staging: &str) -> (r: bool)
    ensures
        r == posters_beside(staging@),
{
    match file_name(staging) {
        Some(n) => same(n.as_str(), "staging"),
        None => false,
    }
}

/// The extension that an uploaded poster gets, by the end of its name.
pub open spec fn extension_of(file_name: Seq<char>) -> Seq<char> {
    let n = text::lowered(file_name);
    if ".png"@.is_suffix_of(n) {
        "png"@
    } else if ".webp"@.is_suffix_of(n) {
        "webp"@
    } else {
        "jpg"@
    }
}

/// The extension that an uploaded poster gets.
pub fn poster_extension(file_name: &str) -> (r: &'static str)
    ensures
        r@ == extension_of(file_name@),
{
    let n = file_name.to_lowercase();
    proof {
        reveal_strlit(".png");
        reveal_strlit(".webp");
        text::lemma_lower_ends(file_name@, n@, ".png"@);
        text::lemma_lower_ends(file_name@, n@, ".webp"@);
    }
    if ends_with(n.as_str(), ".png") {
        "png"
    } else if ends_with(n.as_str(), ".webp") {
        "webp"
    } else {
        "jpg"
    }
}

/// `b` begins with `p`.
pub open spec fn begins(b: Seq<u8>, p: Seq<u8>) -> bool {
    p.is_prefix_of(b)
}

/// The content is that of a JPEG, PNG or WebP image, by its first bytes.
pub open spec fn is_image(b: Seq<u8>) -> bool {
    ||| begins(b, seq![0xFFu8, 0xD8u8, 0xFFu8])
    ||| begins(b, seq![0x89u8, 0x50u8, 0x4Eu8, 0x47u8])
    ||| begins(b, seq![0x52u8, 0x49u8, 0x46u8, 0x46u8]) && b.len() > 12 && b.subrange(8, 12)
        == seq![0x57u8, 0x45u8, 0x42u8, 0x50u8]
}

/// Whether the content is that of a JPEG, PNG or WebP image.
pub fn looks_like_image(b: &[u8]) -> (r: bool)
    ensures
        r == is_image(b@),
{
    let n = b.len();
    let jpeg = n >= 3 && b[0] == 0xFF && b[1] == 0xD8 && b[2] == 0xFF;
    let png = n >= 4 && b[0] == 0x89 && b[1] == 0x50 && b[2] == 0x4E && b[3] == 0x47;
    let riff = n >= 4 && b[0] == 0x52 && b[1] == 0x49 && b[2] == 0x46 && b[3] == 0x46;
    let webp = n > 12 && b[8] == 0x57 && b[9] == 0x45 && b[10] == 0x42 && b[11] == 0x50;
    proof {
        let p = seq![0xFFu8, 0xD8u8, 0xFFu8];
        if begins(b@, p) {
            let h = b@.subrange(0, 3);
            assert(h[0] == b@[0] && h[1] == b@[1] && h[2] == b@[2]);
        }
        if jpeg {
            assert(b@.subrange(0, 3) =~= p);
        }
        let p = seq![0x89u8, 0x50u8, 0x4Eu8, 0x47u8];
        if begins(b@, p) {
            let h = b@.subrange(0, 4);
            assert(h[0] == b@[0] && h[1] == b@[1] && h[2] == b@[2] && h[3] == b@[3]);
        }
        if png {
            assert(b@.subrange(0, 4) =~= p);
        }
        let p = seq![0x52u8, 0x49u8, 0x46u8, 0x46u8];
        if begins(b@, p) {
            let h = b@.subrange(0, 4);
            assert(h[0] == b@[0] && h[1] == b@[1] && h[2] == b@[2] && h[3] == b@[3]);
        }
        if riff {
            assert(b@.subrange(0, 4) =~= p);
        }
        let p = seq![0x57u8, 0x45u8, 0x42u8, 0x50u8];
        if n > 12 {
            let h = b@.subrange(8, 12);
            assert(h[0] == b@[8] && h[1] == b@[9] && h[2] == b@[10] && h[3] == b@[11]);
            if webp {
                assert(h =~= p);
            }
        }
    }
    jpeg || png || riff && webp
}

/// A character that may stand in the name of a poster.
pub open spec fn id_char(c: char) -> bool {
    '0' <= c <= '9' || 'A' <= c <= 'Z' || 'a' <= c <= 'z' || c == '-' || c == '_'
}

/// What is left of the id of a collection in the name of its poster: letters, digits, `-`
/// and `_`, at most 64 of them.
pub open spec fn id_part(id: Seq<char>) -> Seq<char> {
    text::clip(id.filter(|c: char| id_char(c)), 64)
}

/// What is left of the id of a collection in the name of its poster.
pub fn safe_id(id: &str) -> (r: String)
    ensures
        r@ == id_part(id@),
{
    let v = chars_of(id);
    let mut kept: Vec<char> = Vec::new();
    let ghost f = |c: char| id_char(c);
    assert(id@.take(0).filter(f) =~= Seq::<char>::empty()) by {
        reveal(Seq::filter);
    }
    for i in 0..v.len()
        invariant
            v@ == id@,
            f == |c: char| id_char(c),
            kept@ == id@.take(i as int).filter(f),
    {
        let c = v[i];
        proof {
            assert(id@.take(i + 1).drop_last() =~= id@.take(i as int));
            assert(id@.take(i + 1).last() == c);
            reveal(Seq::filter);
        }
        if ('0' <= c && c <= '9') || ('A' <= c && c <= 'Z') || ('a' <= c && c <= 'z') || c == '-'
            || c == '_' {
            kept.push(c);
        }
    }
    assert(id@.take(id@.len() as int) =~= id@);
    if kept.len() > 64 {
        kept.truncate(64);
    }
    text_of(&kept)
}

/// The file name of the poster of a collection.
pub open spec fn poster_name(id: Seq<char>, file_name: Seq<char>) -> Seq<char> {
    id_part(id) + "."@ + extension_of(file_name)
}

/// The address that a poster is served at.
pub open spec fn public_path(name: Seq<char>) -> Seq<char> {
    "/posters/"@ + name
}

/// Two dots follow each other in the name.
pub open spec fn has_two_dots(s: Seq<char>) -> bool {
    exists|i: int| 0 <= i < s.len() - 1 && #[trigger] s[i] == '.' && s[i + 1] == '.'
}

/// The name cannot lead out of the folder of posters.
pub open spec fn stays_inside(s: Seq<char>) -> bool {
    !s.contains('/') && !s.contains('\\') && !has_two_dots(s)
}

/// The media type of a poster by the end of its name; none for other files.
pub open spec fn poster_type(s: Seq<char>) -> Option<Seq<char>> {
    let n = text::lowered(s);
    if ".png"@.is_suffix_of(n) {
        Some("image/png"@)
    } else if ".webp"@.is_suffix_of(n) {
        Some("image/webp"@)
    } else if ".jpg"@.is_suffix_of(n) || ".jpeg"@.is_suffix_of(n) {
        Some("image/jpeg"@)
    } else {
        None
    }
}

/// Whether the name cannot lead out of the folder of posters.
pub fn name_stays_inside(s: &str) -> (r: bool)
    ensures
        r == stays_inside(s@),
{
    let v = chars_of(s);
    for i in 0..v.len()
        invariant
            v@ == s@,
            forall|j: int| 0 <= j < i ==> #[trigger] s@[j] != '/' && s@[j] != '\\',
            forall|j: int| 0 <= j < i && j < s@.len() - 1 ==> !(#[trigger] s@[j] == '.' && s@[j + 1]
                == '.'),
    {
        let c = v[i];
        if c == '/' || c == '\\' {
            assert(s@.contains(s@[i as int]));
            return false;
        }
        if c == '.' && i < v.len() - 1 && v[i + 1] == '.' {
            assert(s@[i as int] == '.' && s@[i + 1] == '.');
            assert(has_two_dots(s@));
            return false;
        }
    }
    true
}

/// The media type of a poster by the end of its name; none for other files.
pub fn poster_mime(s: &str) -> (r: Option<&'static str>)
    ensures
        match r {
            Some(m) => poster_type(s@) == Some(m@),
            None => poster_type(s@) is None,
        },
{
    let lower = s.to_lowercase();
    let n = lower.as_str();
    proof {
        reveal_strlit(".png");
        reveal_strlit(".webp");
        reveal_strlit(".jpg");
        reveal_strlit(".jpeg");
        text::lemma_lower_ends(s@, lower@, ".png"@);
        text::lemma_lower_ends(s@, lower@, ".webp"@);
        text::lemma_lower_ends(s@, lower@, ".jpg"@);
        text::lemma_lower_ends(s@, lower@, ".jpeg"@);
    }
    if ends_with(n, ".png") {
        Some("image/png")
    } else if ends_with(n, ".webp") {
        Some("image/webp")
    } else if ends_with(n, ".jpg") || ends_with(n, ".jpeg") {
        Some("image/jpeg")
    } else {
        None
    }
}

proof fn lemma_id_part(id: Seq<char>)
    ensures
        forall|i: int| 0 <= i < id_part(id).len() ==> id_char(#[trigger] id_part(id)[i]),
{
    let f = |c: char| id_char(c);
    let kept = id.filter(f);
    assert forall|i: int| 0 <= i < id_part(id).len() implies id_char(#[trigger] id_part(id)[i]) by {
        assert(kept[i] == id_part(id)[i]);
        assert(kept.contains(kept[i]));
        assert(f(kept[i]));
    }
}

/// A poster that was uploaded can be served: its name stays inside the folder, and its
/// media type is that of its extension.
pub proof fn law_uploaded_posters_can_be_served(id: Seq<char>, file_name: Seq<char>)
    ensures
        stays_inside(poster_name(id, file_name)),
        poster_type(poster_name(id, file_name)) == Some(
            if extension_of(file_name) == "png"@ {
                "image/png"@
            } else if extension_of(file_name) == "webp"@ {
                "image/webp"@
            } else {
                "image/jpeg"@
            },
        ),
{
    reveal_strlit(".");
    reveal_strlit("png");
    reveal_strlit("webp");
    reveal_strlit("jpg");
    reveal_strlit(".png");
    reveal_strlit(".webp");
    reveal_strlit(".jpg");
    reveal_strlit(".jpeg");
    lemma_id_part(id);
    let p = id_part(id);
    let e = extension_of(file_name);
    let s = poster_name(id, file_name);
    assert("png"@.len() == 3 && "webp"@.len() == 4 && "jpg"@.len() == 3);
    assert("png"@[0] == 'p' && "png"@[1] == 'n' && "png"@[2] == 'g');
    assert("jpg"@[0] == 'j' && "jpg"@[1] == 'p' && "jpg"@[2] == 'g');
    assert("webp"@[0] == 'w' && "webp"@[1] == 'e' && "webp"@[2] == 'b' && "webp"@[3] == 'p');
    assert forall|i: int| 0 <= i < s.len() implies #[trigger] s[i] != '/' && s[i] != '\\'
        && s[i] < '\u{80}' && (s[i] == '.' <==> i == p.len()) by {
        if i < p.len() {
            assert(s[i] == p[i]);
            assert(id_char(p[i]));
        } else if i > p.len() {
            assert(s[i] == e[i - p.len() - 1]);
        }
    }
    let n = text::lowered(s);
    assert forall|i: int| p.len() <= i < s.len() implies #[trigger] n[i] == s[i] by {
        if i > p.len() {
            assert(s[i] == e[i - p.len() - 1]);
        }
    }
    let tail = n.subrange(p.len() as int, n.len() as int);
    if e == "png"@ {
        assert(tail =~= ".png"@);
    } else if e == "webp"@ {
        assert(tail =~= ".webp"@);
        if ".png"@.is_suffix_of(n) {
            let t = n.subrange(n.len() - 4, n.len() as int);
            assert(t[0] == n[n.len() - 4]);
            assert(".png"@[0] == '.');
        }
    } else {
        assert(tail =~= ".jpg"@);
        if ".png"@.is_suffix_of(n) {
            let t = n.subrange(n.len() - 4, n.len() as int);
            assert(t[1] == n[n.len() - 3]);
            assert(".png"@[1] == 'p');
        }
        if ".webp"@.is_suffix_of(n) {
            let t = n.subrange(n.len() - 5, n.len() as int);
            assert(t[4] == n[n.len() - 1]);
            assert(".webp"@[4] == 'p');
        }
    }
}

} // verus!
