//! Media types: what the end of a name says.

use crate::mime;
use crate::mime::{guess_mime, is_previewable_mime};
use crate::text;
use crate::vault;
use crate::vault::{Manifest, Module, VaultModule};
use crate::policy::Policy;
use vstd::prelude::*;
use vstd::string::*;

verus! {

/// The name ends in `e`, whatever the case of its letters.
pub open spec fn ends_in(name: Seq<char>, e: Seq<char>) -> bool {
    e.is_suffix_of(text::lowered(name))
}

/// The character at `i`, as a number; 0 behind the end.
spec fn code_at(s: Seq<char>, i: int) -> int {
    if i < s.len() {
        s[i] as int
    } else {
        0
    }
}

/// A number for the second to fifth character of a text.
spec fn code(s: Seq<char>) -> int {
    code_at(s, 1) * 2097152 + code_at(s, 2) * 16384 + code_at(s, 3) * 128 + code_at(s, 4)
}

proof fn lemma_codes()
    ensures
        code(".mkv"@) == 230357760,
        code(".mp4"@) == 230431232,
        code(".webm"@) == 251228525,
        code(".avi"@) == 205370496,
        code(".mov"@) == 230423296,
        code(".mp3"@) == 230431104,
        code(".ogg"@) == 234484608,
        code(".oga"@) == 234483840,
        code(".opus"@) == 234633971,
        code(".flac"@) == 215691491,
        code(".wav"@) == 251165440,
        code(".m4a"@) == 229453952,
        code(".jpg"@) == 224146304,
        code(".jpeg"@) == 224146151,
        code(".png"@) == 236696448,
        code(".gif"@) == 217740032,
        code(".webp"@) == 251228528,
        code(".svg"@) == 243118976,
        code(".pdf"@) == 236532480,
        code(".zip"@) == 257587200,
        code(".tar"@) == 244873472,
        code(".gz"@) == 218005504,
        code(".tgz"@) == 244972800,
        code(".7z"@) == 117342208,
        code(".rar"@) == 240679168,
        code(".epub"@) == 213662434,
        code(".cbz"@) == 209239296,
        code(".cbr"@) == 209238272,
        code(".iso"@) == 222099328,
        code(".txt"@) == 245250560,
        code(".md"@) == 230227968,
        code(".log"@) == 228324224,
        code(".json"@) == 224196590,
        code(".csv"@) == 209517312,
        code(".html"@) == 220018412,
        code(".htm"@) == 220018304,
{
    reveal_strlit(".mkv");
    assert(".mkv"@.len() == 4 && ".mkv"@[0] == '.' && ".mkv"@[1] == 'm' && ".mkv"@[2] == 'k'
        && ".mkv"@[3] == 'v');
    reveal_strlit(".mp4");
    assert(".mp4"@.len() == 4 && ".mp4"@[0] == '.' && ".mp4"@[1] == 'm' && ".mp4"@[2] == 'p'
        && ".mp4"@[3] == '4');
    reveal_strlit(".webm");
    assert(".webm"@.len() == 5 && ".webm"@[0] == '.' && ".webm"@[1] == 'w' && ".webm"@[2] == 'e'
        && ".webm"@[3] == 'b' && ".webm"@[4] == 'm');
    reveal_strlit(".avi");
    assert(".avi"@.len() == 4 && ".avi"@[0] == '.' && ".avi"@[1] == 'a' && ".avi"@[2] == 'v'
        && ".avi"@[3] == 'i');
    reveal_strlit(".mov");
    assert(".mov"@.len() == 4 && ".mov"@[0] == '.' && ".mov"@[1] == 'm' && ".mov"@[2] == 'o'
        && ".mov"@[3] == 'v');
    reveal_strlit(".mp3");
    assert(".mp3"@.len() == 4 && ".mp3"@[0] == '.' && ".mp3"@[1] == 'm' && ".mp3"@[2] == 'p'
        && ".mp3"@[3] == '3');
    reveal_strlit(".ogg");
    assert(".ogg"@.len() == 4 && ".ogg"@[0] == '.' && ".ogg"@[1] == 'o' && ".ogg"@[2] == 'g'
        && ".ogg"@[3] == 'g');
    reveal_strlit(".oga");
    assert(".oga"@.len() == 4 && ".oga"@[0] == '.' && ".oga"@[1] == 'o' && ".oga"@[2] == 'g'
        && ".oga"@[3] == 'a');
    reveal_strlit(".opus");
    assert(".opus"@.len() == 5 && ".opus"@[0] == '.' && ".opus"@[1] == 'o' && ".opus"@[2] == 'p'
        && ".opus"@[3] == 'u' && ".opus"@[4] == 's');
    reveal_strlit(".flac");
    assert(".flac"@.len() == 5 && ".flac"@[0] == '.' && ".flac"@[1] == 'f' && ".flac"@[2] == 'l'
        && ".flac"@[3] == 'a' && ".flac"@[4] == 'c');
    reveal_strlit(".wav");
    assert(".wav"@.len() == 4 && ".wav"@[0] == '.' && ".wav"@[1] == 'w' && ".wav"@[2] == 'a'
        && ".wav"@[3] == 'v');
    reveal_strlit(".m4a");
    assert(".m4a"@.len() == 4 && ".m4a"@[0] == '.' && ".m4a"@[1] == 'm' && ".m4a"@[2] == '4'
        && ".m4a"@[3] == 'a');
    reveal_strlit(".jpg");
    assert(".jpg"@.len() == 4 && ".jpg"@[0] == '.' && ".jpg"@[1] == 'j' && ".jpg"@[2] == 'p'
        && ".jpg"@[3] == 'g');
    reveal_strlit(".jpeg");
    assert(".jpeg"@.len() == 5 && ".jpeg"@[0] == '.' && ".jpeg"@[1] == 'j' && ".jpeg"@[2] == 'p'
        && ".jpeg"@[3] == 'e' && ".jpeg"@[4] == 'g');
    reveal_strlit(".png");
    assert(".png"@.len() == 4 && ".png"@[0] == '.' && ".png"@[1] == 'p' && ".png"@[2] == 'n'
        && ".png"@[3] == 'g');
    reveal_strlit(".gif");
    assert(".gif"@.len() == 4 && ".gif"@[0] == '.' && ".gif"@[1] == 'g' && ".gif"@[2] == 'i'
        && ".gif"@[3] == 'f');
    reveal_strlit(".webp");
    assert(".webp"@.len() == 5 && ".webp"@[0] == '.' && ".webp"@[1] == 'w' && ".webp"@[2] == 'e'
        && ".webp"@[3] == 'b' && ".webp"@[4] == 'p');
    reveal_strlit(".svg");
    assert(".svg"@.len() == 4 && ".svg"@[0] == '.' && ".svg"@[1] == 's' && ".svg"@[2] == 'v'
        && ".svg"@[3] == 'g');
    reveal_strlit(".pdf");
    assert(".pdf"@.len() == 4 && ".pdf"@[0] == '.' && ".pdf"@[1] == 'p' && ".pdf"@[2] == 'd'
        && ".pdf"@[3] == 'f');
    reveal_strlit(".zip");
    assert(".zip"@.len() == 4 && ".zip"@[0] == '.' && ".zip"@[1] == 'z' && ".zip"@[2] == 'i'
        && ".zip"@[3] == 'p');
    reveal_strlit(".tar");
    assert(".tar"@.len() == 4 && ".tar"@[0] == '.' && ".tar"@[1] == 't' && ".tar"@[2] == 'a'
        && ".tar"@[3] == 'r');
    reveal_strlit(".gz");
    assert(".gz"@.len() == 3 && ".gz"@[0] == '.' && ".gz"@[1] == 'g' && ".gz"@[2] == 'z');
    reveal_strlit(".tgz");
    assert(".tgz"@.len() == 4 && ".tgz"@[0] == '.' && ".tgz"@[1] == 't' && ".tgz"@[2] == 'g'
        && ".tgz"@[3] == 'z');
    reveal_strlit(".7z");
    assert(".7z"@.len() == 3 && ".7z"@[0] == '.' && ".7z"@[1] == '7' && ".7z"@[2] == 'z');
    reveal_strlit(".rar");
    assert(".rar"@.len() == 4 && ".rar"@[0] == '.' && ".rar"@[1] == 'r' && ".rar"@[2] == 'a'
        && ".rar"@[3] == 'r');
    reveal_strlit(".epub");
    assert(".epub"@.len() == 5 && ".epub"@[0] == '.' && ".epub"@[1] == 'e' && ".epub"@[2] == 'p'
        && ".epub"@[3] == 'u' && ".epub"@[4] == 'b');
    reveal_strlit(".cbz");
    assert(".cbz"@.len() == 4 && ".cbz"@[0] == '.' && ".cbz"@[1] == 'c' && ".cbz"@[2] == 'b'
        && ".cbz"@[3] == 'z');
    reveal_strlit(".cbr");
    assert(".cbr"@.len() == 4 && ".cbr"@[0] == '.' && ".cbr"@[1] == 'c' && ".cbr"@[2] == 'b'
        && ".cbr"@[3] == 'r');
    reveal_strlit(".iso");
    assert(".iso"@.len() == 4 && ".iso"@[0] == '.' && ".iso"@[1] == 'i' && ".iso"@[2] == 's'
        && ".iso"@[3] == 'o');
    reveal_strlit(".txt");
    assert(".txt"@.len() == 4 && ".txt"@[0] == '.' && ".txt"@[1] == 't' && ".txt"@[2] == 'x'
        && ".txt"@[3] == 't');
    reveal_strlit(".md");
    assert(".md"@.len() == 3 && ".md"@[0] == '.' && ".md"@[1] == 'm' && ".md"@[2] == 'd');
    reveal_strlit(".log");
    assert(".log"@.len() == 4 && ".log"@[0] == '.' && ".log"@[1] == 'l' && ".log"@[2] == 'o'
        && ".log"@[3] == 'g');
    reveal_strlit(".json");
    assert(".json"@.len() == 5 && ".json"@[0] == '.' && ".json"@[1] == 'j' && ".json"@[2] == 's'
        && ".json"@[3] == 'o' && ".json"@[4] == 'n');
    reveal_strlit(".csv");
    assert(".csv"@.len() == 4 && ".csv"@[0] == '.' && ".csv"@[1] == 'c' && ".csv"@[2] == 's'
        && ".csv"@[3] == 'v');
    reveal_strlit(".html");
    assert(".html"@.len() == 5 && ".html"@[0] == '.' && ".html"@[1] == 'h' && ".html"@[2] == 't'
        && ".html"@[3] == 'm' && ".html"@[4] == 'l');
    reveal_strlit(".htm");
    assert(".htm"@.len() == 4 && ".htm"@[0] == '.' && ".htm"@[1] == 'h' && ".htm"@[2] == 't'
        && ".htm"@[3] == 'm');
}

/// The media type that a name gets is that of its end, in any case of the letters.
#[verifier::spinoff_prover]
#[verifier::rlimit(60)]
pub proof fn law_the_end_says_the_type(name: &str, r: String)
    requires
        call_ensures(guess_mime, (name,), r),
    ensures
        ends_in(name@, ".mkv"@) ==> r@ == "video/x-matroska"@,
        ends_in(name@, ".mp4"@) ==> r@ == "video/mp4"@,
        ends_in(name@, ".webm"@) ==> r@ == "video/webm"@,
        ends_in(name@, ".avi"@) ==> r@ == "video/x-msvideo"@,
        ends_in(name@, ".mov"@) ==> r@ == "video/quicktime"@,
        ends_in(name@, ".mp3"@) ==> r@ == "audio/mpeg"@,
        ends_in(name@, ".ogg"@) ==> r@ == "audio/ogg"@,
        ends_in(name@, ".oga"@) ==> r@ == "audio/ogg"@,
        ends_in(name@, ".opus"@) ==> r@ == "audio/opus"@,
        ends_in(name@, ".flac"@) ==> r@ == "audio/flac"@,
        ends_in(name@, ".wav"@) ==> r@ == "audio/wav"@,
        ends_in(name@, ".m4a"@) ==> r@ == "audio/mp4"@,
        ends_in(name@, ".jpg"@) ==> r@ == "image/jpeg"@,
        ends_in(name@, ".jpeg"@) ==> r@ == "image/jpeg"@,
        ends_in(name@, ".png"@) ==> r@ == "image/png"@,
        ends_in(name@, ".gif"@) ==> r@ == "image/gif"@,
        ends_in(name@, ".webp"@) ==> r@ == "image/webp"@,
        ends_in(name@, ".svg"@) ==> r@ == "image/svg+xml"@,
        ends_in(name@, ".pdf"@) ==> r@ == "application/pdf"@,
        ends_in(name@, ".zip"@) ==> r@ == "application/zip"@,
        ends_in(name@, ".tar"@) ==> r@ == "application/x-tar"@,
        ends_in(name@, ".gz"@) ==> r@ == "application/gzip"@,
        ends_in(name@, ".tgz"@) ==> r@ == "application/gzip"@,
        ends_in(name@, ".7z"@) ==> r@ == "application/x-7z-compressed"@,
        ends_in(name@, ".rar"@) ==> r@ == "application/vnd.rar"@,
        ends_in(name@, ".epub"@) ==> r@ == "application/epub+zip"@,
        ends_in(name@, ".cbz"@) ==> r@ == "application/vnd.comicbook+zip"@,
        ends_in(name@, ".cbr"@) ==> r@ == "application/vnd.comicbook-rar"@,
        ends_in(name@, ".iso"@) ==> r@ == "application/x-iso9660-image"@,
        ends_in(name@, ".txt"@) ==> r@ == "text/plain; charset=utf-8"@,
        ends_in(name@, ".md"@) ==> r@ == "text/plain; charset=utf-8"@,
        ends_in(name@, ".log"@) ==> r@ == "text/plain; charset=utf-8"@,
        ends_in(name@, ".json"@) ==> r@ == "application/json"@,
        ends_in(name@, ".csv"@) ==> r@ == "text/csv"@,
        ends_in(name@, ".html"@) ==> r@ == "text/html"@,
        ends_in(name@, ".htm"@) ==> r@ == "text/html"@,
        !(ends_in(name@, ".mkv"@)
            || ends_in(name@, ".mp4"@)
            || ends_in(name@, ".webm"@)
            || ends_in(name@, ".avi"@)
            || ends_in(name@, ".mov"@)
            || ends_in(name@, ".mp3"@)
            || ends_in(name@, ".ogg"@)
            || ends_in(name@, ".oga"@)
            || ends_in(name@, ".opus"@)
            || ends_in(name@, ".flac"@)
            || ends_in(name@, ".wav"@)
            || ends_in(name@, ".m4a"@)
            || ends_in(name@, ".jpg"@)
            || ends_in(name@, ".jpeg"@)
            || ends_in(name@, ".png"@)
            || ends_in(name@, ".gif"@)
            || ends_in(name@, ".webp"@)
            || ends_in(name@, ".svg"@)
            || ends_in(name@, ".pdf"@)
            || ends_in(name@, ".zip"@)
            || ends_in(name@, ".tar"@)
            || ends_in(name@, ".gz"@)
            || ends_in(name@, ".tgz"@)
            || ends_in(name@, ".7z"@)
            || ends_in(name@, ".rar"@)
            || ends_in(name@, ".epub"@)
            || ends_in(name@, ".cbz"@)
            || ends_in(name@, ".cbr"@)
            || ends_in(name@, ".iso"@)
            || ends_in(name@, ".txt"@)
            || ends_in(name@, ".md"@)
            || ends_in(name@, ".log"@)
            || ends_in(name@, ".json"@)
            || ends_in(name@, ".csv"@)
            || ends_in(name@, ".html"@)
            || ends_in(name@, ".htm"@)) ==> r@ == "application/octet-stream"@,
{
    lemma_codes();
    let n = text::lowered(name@);
    mime::lemma_one_end(n);
}

/// A browser shows pictures, sound, PDF and plain text without a download, in any case of the
/// letters, and nothing else.
pub proof fn law_what_a_browser_shows(name: &str, r: bool)
    requires
        call_ensures(is_previewable_mime, (name,), r),
    ensures
        ({
            let m = text::lower(name@);
            r <==> {
                ||| "image/"@.is_prefix_of(m)
                ||| "audio/"@.is_prefix_of(m)
                ||| m == "application/pdf"@
                ||| m == "text/plain"@
                ||| "text/plain;"@.is_prefix_of(m)
            }
        }),
{
}

/// The vault knows four kinds of videos, by the end of the path in lower case.
pub proof fn law_what_the_vault_knows(path: &str, r: String)
    requires
        call_ensures(vault::guess_mime, (path,), r),
    ensures
        ".mkv"@.is_suffix_of(path@) ==> r@ == "video/x-matroska"@,
        ".mp4"@.is_suffix_of(path@) ==> r@ == "video/mp4"@,
        ".webm"@.is_suffix_of(path@) ==> r@ == "video/webm"@,
        ".avi"@.is_suffix_of(path@) ==> r@ == "video/x-msvideo"@,
        !(".mkv"@.is_suffix_of(path@) || ".mp4"@.is_suffix_of(path@) || ".webm"@.is_suffix_of(path@)
            || ".avi"@.is_suffix_of(path@)) ==> r@ == "application/octet-stream"@,
{
    lemma_codes();
    mime::lemma_one_end(path@);
}

/// The vault declares itself, with all policies.
pub proof fn law_what_the_vault_declares(r: Manifest)
    requires
        call_ensures(<VaultModule as Module>::manifest, (), r),
    ensures
        r.id@ == "vault"@,
        r.name@ == "Baúl + streaming"@,
        r.version@ == "0.1.0"@,
        r.policies@ == seq![Policy::HostOnly, Policy::StreamOnly, Policy::Mirror],
{
}

} // verus!
