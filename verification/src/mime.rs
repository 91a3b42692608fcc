//! Media types by file name.

use crate::text;
use crate::text::{ends_with, same, starts_with};
use vstd::prelude::*;
use vstd::string::*;
use vstd::utf8::*;

verus! {

/// The media type of a file by the end of its lower-case name `n`.
pub open spec fn mime_by_suffix(n: Seq<char>) -> Seq<char> {
    if ".mkv"@.is_suffix_of(n) {
        "video/x-matroska"@
    } else if ".mp4"@.is_suffix_of(n) {
        "video/mp4"@
    } else if ".webm"@.is_suffix_of(n) {
        "video/webm"@
    } else if ".avi"@.is_suffix_of(n) {
        "video/x-msvideo"@
    } else if ".mov"@.is_suffix_of(n) {
        "video/quicktime"@
    } else if ".mp3"@.is_suffix_of(n) {
        "audio/mpeg"@
    } else if ".ogg"@.is_suffix_of(n) || ".oga"@.is_suffix_of(n) {
        "audio/ogg"@
    } else if ".opus"@.is_suffix_of(n) {
        "audio/opus"@
    } else if ".flac"@.is_suffix_of(n) {
        "audio/flac"@
    } else if ".wav"@.is_suffix_of(n) {
        "audio/wav"@
    } else if ".m4a"@.is_suffix_of(n) {
        "audio/mp4"@
    } else if ".jpg"@.is_suffix_of(n) || ".jpeg"@.is_suffix_of(n) {
        "image/jpeg"@
    } else if ".png"@.is_suffix_of(n) {
        "image/png"@
    } else if ".gif"@.is_suffix_of(n) {
        "image/gif"@
    } else if ".webp"@.is_suffix_of(n) {
        "image/webp"@
    } else if ".svg"@.is_suffix_of(n) {
        "image/svg+xml"@
    } else if ".pdf"@.is_suffix_of(n) {
        "application/pdf"@
    } else if ".zip"@.is_suffix_of(n) {
        "application/zip"@
    } else if ".tar"@.is_suffix_of(n) {
        "application/x-tar"@
    } else if ".gz"@.is_suffix_of(n) || ".tgz"@.is_suffix_of(n) {
        "application/gzip"@
    } else if ".7z"@.is_suffix_of(n) {
        "application/x-7z-compressed"@
    } else if ".rar"@.is_suffix_of(n) {
        "application/vnd.rar"@
    } else if ".epub"@.is_suffix_of(n) {
        "application/epub+zip"@
    } else if ".cbz"@.is_suffix_of(n) {
        "application/vnd.comicbook+zip"@
    } else if ".cbr"@.is_suffix_of(n) {
        "application/vnd.comicbook-rar"@
    } else if ".iso"@.is_suffix_of(n) {
        "application/x-iso9660-image"@
    } else if ".txt"@.is_suffix_of(n) || ".md"@.is_suffix_of(n) || ".log"@.is_suffix_of(n) {
        "text/plain; charset=utf-8"@
    } else if ".json"@.is_suffix_of(n) {
        "application/json"@
    } else if ".csv"@.is_suffix_of(n) {
        "text/csv"@
    } else if ".html"@.is_suffix_of(n) || ".htm"@.is_suffix_of(n) {
        "text/html"@
    } else {
        "application/octet-stream"@
    }
}

/// The media type of a file by the end of its name, in any case.
pub open spec fn mime_of(name: Seq<char>) -> Seq<char> {
    mime_by_suffix(text::lowered(name))
}

/// The ends of names that say what a file is.
pub open spec fn known_ends() -> Seq<Seq<char>> {
    seq![
        ".mkv"@, ".mp4"@, ".webm"@, ".avi"@, ".mov"@, ".mp3"@,
        ".ogg"@, ".oga"@, ".opus"@, ".flac"@, ".wav"@, ".m4a"@,
        ".jpg"@, ".jpeg"@, ".png"@, ".gif"@, ".webp"@, ".svg"@,
        ".pdf"@, ".zip"@, ".tar"@, ".gz"@, ".tgz"@, ".7z"@,
        ".rar"@, ".epub"@, ".cbz"@, ".cbr"@, ".iso"@, ".txt"@,
        ".md"@, ".log"@, ".json"@, ".csv"@, ".html"@, ".htm"@,
    ]
}

/// A `.` and what follows the last `.` of a name, five ASCII characters at most.
spec fn dotted(x: Seq<char>) -> bool {
    &&& 0 < x.len() <= 5
    &&& is_ascii_chars(x)
    &&& x[0] == '.'
    &&& forall|i: int| 0 < i < x.len() ==> #[trigger] x[i] != '.'
}

/// A `.` and what follows the last `.` of a name.
pub closed spec fn is_end(x: Seq<char>) -> bool {
    dotted(x)
}

proof fn lemma_ends_are_dotted()
    ensures
        dotted(".mkv"@),
        dotted(".mp4"@),
        dotted(".webm"@),
        dotted(".avi"@),
        dotted(".mov"@),
        dotted(".mp3"@),
        dotted(".ogg"@),
        dotted(".oga"@),
        dotted(".opus"@),
        dotted(".flac"@),
        dotted(".wav"@),
        dotted(".m4a"@),
        dotted(".jpg"@),
        dotted(".jpeg"@),
        dotted(".png"@),
        dotted(".gif"@),
        dotted(".webp"@),
        dotted(".svg"@),
        dotted(".pdf"@),
        dotted(".zip"@),
        dotted(".tar"@),
        dotted(".gz"@),
        dotted(".tgz"@),
        dotted(".7z"@),
        dotted(".rar"@),
        dotted(".epub"@),
        dotted(".cbz"@),
        dotted(".cbr"@),
        dotted(".iso"@),
        dotted(".txt"@),
        dotted(".md"@),
        dotted(".log"@),
        dotted(".json"@),
        dotted(".csv"@),
        dotted(".html"@),
        dotted(".htm"@),
{
    reveal_strlit(".mkv");
    reveal_strlit(".mp4");
    reveal_strlit(".webm");
    reveal_strlit(".avi");
    reveal_strlit(".mov");
    reveal_strlit(".mp3");
    reveal_strlit(".ogg");
    reveal_strlit(".oga");
    reveal_strlit(".opus");
    reveal_strlit(".flac");
    reveal_strlit(".wav");
    reveal_strlit(".m4a");
    reveal_strlit(".jpg");
    reveal_strlit(".jpeg");
    reveal_strlit(".png");
    reveal_strlit(".gif");
    reveal_strlit(".webp");
    reveal_strlit(".svg");
    reveal_strlit(".pdf");
    reveal_strlit(".zip");
    reveal_strlit(".tar");
    reveal_strlit(".gz");
    reveal_strlit(".tgz");
    reveal_strlit(".7z");
    reveal_strlit(".rar");
    reveal_strlit(".epub");
    reveal_strlit(".cbz");
    reveal_strlit(".cbr");
    reveal_strlit(".iso");
    reveal_strlit(".txt");
    reveal_strlit(".md");
    reveal_strlit(".log");
    reveal_strlit(".json");
    reveal_strlit(".csv");
    reveal_strlit(".html");
    reveal_strlit(".htm");
}

proof fn lemma_types_differ()
    ensures
        "video/x-matroska"@ != "application/octet-stream"@,
        "video/mp4"@ != "application/octet-stream"@,
        "video/webm"@ != "application/octet-stream"@,
        "video/x-msvideo"@ != "application/octet-stream"@,
        "video/quicktime"@ != "application/octet-stream"@,
        "audio/mpeg"@ != "application/octet-stream"@,
        "audio/ogg"@ != "application/octet-stream"@,
        "audio/opus"@ != "application/octet-stream"@,
        "audio/flac"@ != "application/octet-stream"@,
        "audio/wav"@ != "application/octet-stream"@,
        "audio/mp4"@ != "application/octet-stream"@,
        "image/jpeg"@ != "application/octet-stream"@,
        "image/png"@ != "application/octet-stream"@,
        "image/gif"@ != "application/octet-stream"@,
        "image/webp"@ != "application/octet-stream"@,
        "image/svg+xml"@ != "application/octet-stream"@,
        "application/pdf"@ != "application/octet-stream"@,
        "application/zip"@ != "application/octet-stream"@,
        "application/x-tar"@ != "application/octet-stream"@,
        "application/gzip"@ != "application/octet-stream"@,
        "application/x-7z-compressed"@ != "application/octet-stream"@,
        "application/vnd.rar"@ != "application/octet-stream"@,
        "application/epub+zip"@ != "application/octet-stream"@,
        "application/vnd.comicbook+zip"@ != "application/octet-stream"@,
        "application/vnd.comicbook-rar"@ != "application/octet-stream"@,
        "application/x-iso9660-image"@ != "application/octet-stream"@,
        "text/plain; charset=utf-8"@ != "application/octet-stream"@,
        "application/json"@ != "application/octet-stream"@,
        "text/csv"@ != "application/octet-stream"@,
        "text/html"@ != "application/octet-stream"@,
{
    reveal_strlit("video/x-matroska");
    reveal_strlit("video/mp4");
    reveal_strlit("video/webm");
    reveal_strlit("video/x-msvideo");
    reveal_strlit("video/quicktime");
    reveal_strlit("audio/mpeg");
    reveal_strlit("audio/ogg");
    reveal_strlit("audio/opus");
    reveal_strlit("audio/flac");
    reveal_strlit("audio/wav");
    reveal_strlit("audio/mp4");
    reveal_strlit("image/jpeg");
    reveal_strlit("image/png");
    reveal_strlit("image/gif");
    reveal_strlit("image/webp");
    reveal_strlit("image/svg+xml");
    reveal_strlit("application/pdf");
    reveal_strlit("application/zip");
    reveal_strlit("application/x-tar");
    reveal_strlit("application/gzip");
    reveal_strlit("application/x-7z-compressed");
    reveal_strlit("application/vnd.rar");
    reveal_strlit("application/epub+zip");
    reveal_strlit("application/vnd.comicbook+zip");
    reveal_strlit("application/vnd.comicbook-rar");
    reveal_strlit("application/x-iso9660-image");
    reveal_strlit("text/plain; charset=utf-8");
    reveal_strlit("application/json");
    reveal_strlit("text/csv");
    reveal_strlit("text/html");
    reveal_strlit("application/octet-stream");
    assert("application/octet-stream"@.len() == 24);
    assert("video/x-matroska"@.len() == 16);
    assert("video/mp4"@.len() == 9);
    assert("video/webm"@.len() == 10);
    assert("video/x-msvideo"@.len() == 15);
    assert("video/quicktime"@.len() == 15);
    assert("audio/mpeg"@.len() == 10);
    assert("audio/ogg"@.len() == 9);
    assert("audio/opus"@.len() == 10);
    assert("audio/flac"@.len() == 10);
    assert("audio/wav"@.len() == 9);
    assert("audio/mp4"@.len() == 9);
    assert("image/jpeg"@.len() == 10);
    assert("image/png"@.len() == 9);
    assert("image/gif"@.len() == 9);
    assert("image/webp"@.len() == 10);
    assert("image/svg+xml"@.len() == 13);
    assert("application/pdf"@.len() == 15);
    assert("application/zip"@.len() == 15);
    assert("application/x-tar"@.len() == 17);
    assert("application/gzip"@.len() == 16);
    assert("application/x-7z-compressed"@.len() == 27);
    assert("application/vnd.rar"@.len() == 19);
    assert("application/epub+zip"@.len() == 20);
    assert("application/vnd.comicbook+zip"@.len() == 29);
    assert("application/vnd.comicbook-rar"@.len() == 29);
    assert("application/x-iso9660-image"@.len() == 27);
    assert("text/plain; charset=utf-8"@.len() == 25);
    assert("application/json"@.len() == 16);
    assert("text/csv"@.len() == 8);
    assert("text/html"@.len() == 9);
}

/// A name whose end is not known says nothing, and no other.
pub proof fn law_an_unknown_end_says_nothing(name: Seq<char>)
    ensures
        mime_of(name) == "application/octet-stream"@ <==> forall|i: int|
            0 <= i < known_ends().len() ==> !(#[trigger] known_ends()[i]).is_suffix_of(
                text::lowered(name),
            ),
{
    lemma_types_differ();
    let ends = known_ends();
    let n = text::lowered(name);
    assert(ends[0] == ".mkv"@);
    assert(ends[1] == ".mp4"@);
    assert(ends[2] == ".webm"@);
    assert(ends[3] == ".avi"@);
    assert(ends[4] == ".mov"@);
    assert(ends[5] == ".mp3"@);
    assert(ends[6] == ".ogg"@);
    assert(ends[7] == ".oga"@);
    assert(ends[8] == ".opus"@);
    assert(ends[9] == ".flac"@);
    assert(ends[10] == ".wav"@);
    assert(ends[11] == ".m4a"@);
    assert(ends[12] == ".jpg"@);
    assert(ends[13] == ".jpeg"@);
    assert(ends[14] == ".png"@);
    assert(ends[15] == ".gif"@);
    assert(ends[16] == ".webp"@);
    assert(ends[17] == ".svg"@);
    assert(ends[18] == ".pdf"@);
    assert(ends[19] == ".zip"@);
    assert(ends[20] == ".tar"@);
    assert(ends[21] == ".gz"@);
    assert(ends[22] == ".tgz"@);
    assert(ends[23] == ".7z"@);
    assert(ends[24] == ".rar"@);
    assert(ends[25] == ".epub"@);
    assert(ends[26] == ".cbz"@);
    assert(ends[27] == ".cbr"@);
    assert(ends[28] == ".iso"@);
    assert(ends[29] == ".txt"@);
    assert(ends[30] == ".md"@);
    assert(ends[31] == ".log"@);
    assert(ends[32] == ".json"@);
    assert(ends[33] == ".csv"@);
    assert(ends[34] == ".html"@);
    assert(ends[35] == ".htm"@);
}

/// Where the end `l` of a text is long enough, or ends in a `.` and what follows it itself, the
/// text ends in no other.
proof fn lemma_same_end(x: Seq<char>, z: Seq<char>, l: Seq<char>, n: Seq<char>)
    requires
        dotted(x),
        l.len() >= 5 || dotted(z) && z.is_suffix_of(l),
        l.is_suffix_of(n),
    ensures
        x.is_suffix_of(n) == x.is_suffix_of(l),
{
    let d = n.len() - l.len();
    assert(forall|i: int| 0 <= i < l.len() ==> l[i] == n[d + i]);
    if x.is_suffix_of(l) {
        assert(n.subrange(n.len() - x.len(), n.len() as int) =~= x);
    }
    if x.is_suffix_of(n) {
        if x.len() > l.len() {
            let at = x.len() - z.len();
            assert(z[0] == l[l.len() - z.len()]);
            assert(x[at] == n[n.len() - z.len()]);
        } else {
            assert(l.subrange(l.len() - x.len(), l.len() as int) =~= x);
        }
    }
}

proof fn lemma_known_ends_are_dotted(i: int)
    requires
        0 <= i < known_ends().len(),
    ensures
        dotted(known_ends()[i]),
{
    lemma_ends_are_dotted();
}

/// Texts that end alike have the same type.
proof fn lemma_alike_ends(l: Seq<char>, n: Seq<char>)
    requires
        forall|x: Seq<char>| dotted(x) ==> #[trigger] x.is_suffix_of(n) == x.is_suffix_of(l),
    ensures
        mime_by_suffix(n) == mime_by_suffix(l),
{
    lemma_ends_are_dotted();
}

/// The end decides: what the end of a name says, the whole name says too. The end has to say
/// something, or to be as long as the longest end that is known.
pub proof fn law_the_end_decides(p: Seq<char>, e: Seq<char>)
    requires
        mime_of(e) != "application/octet-stream"@ || e.len() >= 5,
    ensures
        mime_of(p + e) == mime_of(e),
{
    let l = text::lowered(e);
    let n = text::lowered(p + e);
    assert(n.subrange(n.len() - l.len(), n.len() as int) =~= l);
    let i = choose|i: int|
        0 <= i < known_ends().len() && (#[trigger] known_ends()[i]).is_suffix_of(l);
    let z = known_ends()[i];
    if l.len() < 5 {
        law_an_unknown_end_says_nothing(e);
        lemma_known_ends_are_dotted(i);
    }
    assert forall|x: Seq<char>| dotted(x) implies #[trigger] x.is_suffix_of(n) == x.is_suffix_of(
        l,
    ) by {
        lemma_same_end(x, z, l, n);
    }
    lemma_alike_ends(l, n);
}

/// Two ends of the same text that have a `.` at their start alone are the same.
proof fn lemma_one_dotted_end(x: Seq<char>, y: Seq<char>, n: Seq<char>)
    requires
        dotted(x),
        dotted(y),
        x.is_suffix_of(n),
        y.is_suffix_of(n),
    ensures
        x == y,
{
    if x.len() < y.len() {
        assert(y[y.len() - x.len()] == n[n.len() - x.len()]);
        assert(x[0] == n[n.len() - x.len()]);
    }
    if y.len() < x.len() {
        assert(x[x.len() - y.len()] == n[n.len() - y.len()]);
        assert(y[0] == n[n.len() - y.len()]);
    }
}

/// A text ends in one at most of the ends that have a `.` at their start alone, as the known
/// ones have.
pub proof fn lemma_one_end(n: Seq<char>)
    ensures
        forall|x: Seq<char>, y: Seq<char>|
            #![trigger x.is_suffix_of(n), y.is_suffix_of(n)]
            is_end(x) && is_end(y) && x.is_suffix_of(n) && y.is_suffix_of(n) ==> x == y,
        is_end(".mkv"@),
        is_end(".mp4"@),
        is_end(".webm"@),
        is_end(".avi"@),
        is_end(".mov"@),
        is_end(".mp3"@),
        is_end(".ogg"@),
        is_end(".oga"@),
        is_end(".opus"@),
        is_end(".flac"@),
        is_end(".wav"@),
        is_end(".m4a"@),
        is_end(".jpg"@),
        is_end(".jpeg"@),
        is_end(".png"@),
        is_end(".gif"@),
        is_end(".webp"@),
        is_end(".svg"@),
        is_end(".pdf"@),
        is_end(".zip"@),
        is_end(".tar"@),
        is_end(".gz"@),
        is_end(".tgz"@),
        is_end(".7z"@),
        is_end(".rar"@),
        is_end(".epub"@),
        is_end(".cbz"@),
        is_end(".cbr"@),
        is_end(".iso"@),
        is_end(".txt"@),
        is_end(".md"@),
        is_end(".log"@),
        is_end(".json"@),
        is_end(".csv"@),
        is_end(".html"@),
        is_end(".htm"@),
{
    lemma_ends_are_dotted();
    assert forall|x: Seq<char>, y: Seq<char>|
        #![trigger x.is_suffix_of(n), y.is_suffix_of(n)]
        is_end(x) && is_end(y) && x.is_suffix_of(n) && y.is_suffix_of(n) implies x == y by {
        lemma_one_dotted_end(x, y, n);
    }
}

/// A text ends in itself.
proof fn lemma_own_end(x: Seq<char>)
    ensures
        x.is_suffix_of(x),
{
    assert(x.subrange(0, x.len() as int) =~= x);
}

/// The types of the ends of videos, which are lower case.
pub proof fn lemma_video_ends()
    ensures
        mime_of(".mkv"@) == "video/x-matroska"@,
        mime_of(".mp4"@) == "video/mp4"@,
        mime_of(".webm"@) == "video/webm"@,
        mime_of(".avi"@) == "video/x-msvideo"@,
        text::lowered(".mkv"@) == ".mkv"@,
        text::lowered(".mp4"@) == ".mp4"@,
        text::lowered(".webm"@) == ".webm"@,
        text::lowered(".avi"@) == ".avi"@,
        "video/"@.is_prefix_of("video/x-matroska"@),
        "video/"@.is_prefix_of("video/mp4"@),
        "video/"@.is_prefix_of("video/webm"@),
        "video/"@.is_prefix_of("video/x-msvideo"@),
        "video/x-matroska"@ != "application/octet-stream"@,
        "video/mp4"@ != "application/octet-stream"@,
        "video/webm"@ != "application/octet-stream"@,
        "video/x-msvideo"@ != "application/octet-stream"@,
{
    lemma_types_differ();
    lemma_ends_are_dotted();
    let (mkv, mp4, webm, avi) = (".mkv"@, ".mp4"@, ".webm"@, ".avi"@);
    reveal_strlit(".mkv");
    reveal_strlit(".mp4");
    reveal_strlit(".webm");
    reveal_strlit(".avi");
    assert(text::lowered(mkv) =~= mkv);
    assert(text::lowered(mp4) =~= mp4);
    assert(text::lowered(webm) =~= webm);
    assert(text::lowered(avi) =~= avi);
    assert(mkv[1] == 'm' && mkv[2] == 'k' && mp4[1] == 'm' && mp4[2] == 'p' && avi[1] == 'a');
    assert(webm.len() == 5 && mkv.len() == 4 && mp4.len() == 4 && avi.len() == 4);
    lemma_own_end(mkv);
    lemma_own_end(mp4);
    lemma_own_end(webm);
    lemma_own_end(avi);
    assert forall|x: Seq<char>, y: Seq<char>| dotted(x) && dotted(y) && x != y implies !(
    #[trigger] x.is_suffix_of(y)) by {
        if x.is_suffix_of(y) {
            lemma_own_end(y);
            lemma_one_dotted_end(x, y, y);
        }
    }
    reveal_strlit("video/");
    reveal_strlit("video/x-matroska");
    reveal_strlit("video/mp4");
    reveal_strlit("video/webm");
    reveal_strlit("video/x-msvideo");
    assert("video/x-matroska"@.subrange(0, 6) =~= "video/"@);
    assert("video/mp4"@.subrange(0, 6) =~= "video/"@);
    assert("video/webm"@.subrange(0, 6) =~= "video/"@);
    assert("video/x-msvideo"@.subrange(0, 6) =~= "video/"@);
}

/// An ASCII letter in upper case; any other character as it is.
pub open spec fn ascii_upper(c: char) -> char {
    if 'a' <= c <= 'z' {
        ((c as u32 - 32) as u32) as char
    } else {
        c
    }
}

/// Upper and lower case make no difference: the names `a` and `b` have the same type where
/// they are the same but for the case of ASCII letters.
pub proof fn law_case_makes_no_difference(a: Seq<char>, b: Seq<char>)
    requires
        a.map_values(|c: char| ascii_upper(c)) == b.map_values(|c: char| ascii_upper(c)),
    ensures
        mime_of(a) == mime_of(b),
{
    let up = |c: char| ascii_upper(c);
    assert(a.map_values(up) == b.map_values(up));
    assert(a.len() == a.map_values(up).len() && b.len() == b.map_values(up).len());
    assert forall|i: int| 0 <= i < a.len() implies text::lower_char(#[trigger] a[i])
        == text::lower_char(b[i]) by {
        assert(a.map_values(up)[i] == ascii_upper(a[i]));
        assert(b.map_values(up)[i] == ascii_upper(b[i]));
    }
    assert(text::lowered(a) =~= text::lowered(b));
}

/// The media type of a file by the end of its name, in any case;
/// `application/octet-stream` where the end says nothing.
pub fn guess_mime(name: &str) -> (r: String)
    ensures
        r@ == mime_of(name@),
{
    let lower = name.to_lowercase();
    let n = lower.as_str();
    proof {
        let (l, r) = (text::lowered(name@), lower@);
        assert forall|x: Seq<char>| dotted(x) implies #[trigger] x.is_suffix_of(r)
            == x.is_suffix_of(l) by {
            text::lemma_lower_ends(name@, r, x);
        }
        lemma_alike_ends(l, r);
    }
    let mime = if ends_with(n, ".mkv") {
        "video/x-matroska"
    } else if ends_with(n, ".mp4") {
        "video/mp4"
    } else if ends_with(n, ".webm") {
        "video/webm"
    } else if ends_with(n, ".avi") {
        "video/x-msvideo"
    } else if ends_with(n, ".mov") {
        "video/quicktime"
    } else if ends_with(n, ".mp3") {
        "audio/mpeg"
    } else if ends_with(n, ".ogg") || ends_with(n, ".oga") {
        "audio/ogg"
    } else if ends_with(n, ".opus") {
        "audio/opus"
    } else if ends_with(n, ".flac") {
        "audio/flac"
    } else if ends_with(n, ".wav") {
        "audio/wav"
    } else if ends_with(n, ".m4a") {
        "audio/mp4"
    } else if ends_with(n, ".jpg") || ends_with(n, ".jpeg") {
        "image/jpeg"
    } else if ends_with(n, ".png") {
        "image/png"
    } else if ends_with(n, ".gif") {
        "image/gif"
    } else if ends_with(n, ".webp") {
        "image/webp"
    } else if ends_with(n, ".svg") {
        "image/svg+xml"
    } else if ends_with(n, ".pdf") {
        "application/pdf"
    } else if ends_with(n, ".zip") {
        "application/zip"
    } else if ends_with(n, ".tar") {
        "application/x-tar"
    } else if ends_with(n, ".gz") || ends_with(n, ".tgz") {
        "application/gzip"
    } else if ends_with(n, ".7z") {
        "application/x-7z-compressed"
    } else if ends_with(n, ".rar") {
        "application/vnd.rar"
    } else if ends_with(n, ".epub") {
        "application/epub+zip"
    } else if ends_with(n, ".cbz") {
        "application/vnd.comicbook+zip"
    } else if ends_with(n, ".cbr") {
        "application/vnd.comicbook-rar"
    } else if ends_with(n, ".iso") {
        "application/x-iso9660-image"
    } else if ends_with(n, ".txt") || ends_with(n, ".md") || ends_with(n, ".log") {
        "text/plain; charset=utf-8"
    } else if ends_with(n, ".json") {
        "application/json"
    } else if ends_with(n, ".csv") {
        "text/csv"
    } else if ends_with(n, ".html") || ends_with(n, ".htm") {
        "text/html"
    } else {
        "application/octet-stream"
    };
    mime.to_owned()
}

/// A browser can show content of this type without a download: pictures, sound, PDF and plain
/// text, the last maybe with parameters.
pub open spec fn previewable(mime: Seq<char>) -> bool {
    let m = text::lower(mime);
    ||| "image/"@.is_prefix_of(m)
    ||| "audio/"@.is_prefix_of(m)
    ||| m == "application/pdf"@
    ||| m == "text/plain"@
    ||| "text/plain;"@.is_prefix_of(m)
}

/// Whether a browser can show content of this type without a download.
pub fn is_previewable_mime(mime: &str) -> (r: bool)
    ensures
        r == previewable(mime@),
{
    let lower = mime.to_lowercase();
    let m = lower.as_str();
    starts_with(m, "image/") || starts_with(m, "audio/") || same(m, "application/pdf") || same(
        m,
        "text/plain",
    ) || starts_with(m, "text/plain;")
}

} // verus!
