//! Posters: which contents and names are taken, and what they are called.

use crate::hashes;
use crate::hashes::hash_valid;
use crate::laws::mime::ends_in;
use crate::paths::file_name;
use crate::posters;
use crate::posters::{
    keeps_posters_beside, looks_like_image, name_stays_inside, poster_extension, poster_mime,
    safe_id,
};
use crate::text;
use vstd::prelude::*;
use vstd::string::*;

verus! {

/// Posters are kept beside the folder for uploads where that is called `staging`.
pub proof fn law_where_posters_are_kept(staging: &str, n: Option<String>, r: bool)
    requires
        call_ensures(keeps_posters_beside, (staging,), r),
        call_ensures(file_name, (staging,), n),
    ensures
        r <==> n is Some && n->0@ == "staging"@,
{
}

proof fn lemma_images(n: Seq<char>)
    ensures
        ".png"@.is_suffix_of(n) ==> !".webp"@.is_suffix_of(n) && !".jpg"@.is_suffix_of(n)
            && !".jpeg"@.is_suffix_of(n),
        ".webp"@.is_suffix_of(n) ==> !".jpg"@.is_suffix_of(n) && !".jpeg"@.is_suffix_of(n),
{
    crate::mime::lemma_one_end(n);
    reveal_strlit(".png");
    reveal_strlit(".webp");
    reveal_strlit(".jpg");
    reveal_strlit(".jpeg");
    assert(".png"@[1] == 'p' && ".webp"@[1] == 'w' && ".jpg"@[1] == 'j' && ".jpeg"@[1] == 'j');
}

/// A poster keeps the end of a PNG or WebP image in its name; any other is that of a JPEG.
pub proof fn law_posters_keep_their_end(name: &str, r: &'static str)
    requires
        call_ensures(poster_extension, (name,), r),
    ensures
        ends_in(name@, ".png"@) ==> r@ == "png"@,
        ends_in(name@, ".webp"@) ==> r@ == "webp"@,
        !ends_in(name@, ".png"@) && !ends_in(name@, ".webp"@) ==> r@ == "jpg"@,
{
    lemma_images(text::lowered(name@));
}

/// A poster is served as the image that its end says, in any case of the letters; a name with
/// another end is none.
pub proof fn law_the_end_says_the_image(name: &str, r: Option<&'static str>)
    requires
        call_ensures(poster_mime, (name,), r),
    ensures
        ends_in(name@, ".png"@) ==> r is Some && r->0@ == "image/png"@,
        ends_in(name@, ".webp"@) ==> r is Some && r->0@ == "image/webp"@,
        ends_in(name@, ".jpg"@) || ends_in(name@, ".jpeg"@) ==> r is Some && r->0@ == "image/jpeg"@,
        !ends_in(name@, ".png"@) && !ends_in(name@, ".webp"@) && !ends_in(name@, ".jpg"@)
            && !ends_in(name@, ".jpeg"@) ==> r is None,
{
    lemma_images(text::lowered(name@));
}

/// An image is known by its first bytes: those of JPEG, of PNG, or of RIFF with WebP in it.
pub proof fn law_images_are_known_by_their_bytes(b: &[u8], r: bool)
    requires
        call_ensures(looks_like_image, (b,), r),
    ensures
        r <==> {
            ||| b@.len() >= 3 && b@[0] == 0xFF && b@[1] == 0xD8 && b@[2] == 0xFF
            ||| b@.len() >= 4 && b@[0] == 0x89 && b@[1] == 0x50 && b@[2] == 0x4E && b@[3] == 0x47
            ||| b@.len() > 12 && b@[0] == 0x52 && b@[1] == 0x49 && b@[2] == 0x46 && b@[3] == 0x46
                && b@[8] == 0x57 && b@[9] == 0x45 && b@[10] == 0x42 && b@[11] == 0x50
        },
{
    let s = b@;
    let (p, q, v, w) = (
        seq![0xFFu8, 0xD8u8, 0xFFu8],
        seq![0x89u8, 0x50u8, 0x4Eu8, 0x47u8],
        seq![0x52u8, 0x49u8, 0x46u8, 0x46u8],
        seq![0x57u8, 0x45u8, 0x42u8, 0x50u8],
    );
    if p.is_prefix_of(s) {
        let h = s.subrange(0, 3);
        assert(h == p);
        assert(h[0] == s[0] && h[1] == s[1] && h[2] == s[2]);
    }
    if q.is_prefix_of(s) {
        let h = s.subrange(0, 4);
        assert(h == q);
        assert(h[0] == s[0] && h[1] == s[1] && h[2] == s[2] && h[3] == s[3]);
    }
    if v.is_prefix_of(s) {
        let h = s.subrange(0, 4);
        assert(h == v);
        assert(h[0] == s[0] && h[1] == s[1] && h[2] == s[2] && h[3] == s[3]);
    }
    if s.len() > 12 {
        let h = s.subrange(8, 12);
        assert(h[0] == s[8] && h[1] == s[9] && h[2] == s[10] && h[3] == s[11]);
        if s[8] == 0x57 && s[9] == 0x45 && s[10] == 0x42 && s[11] == 0x50 {
            assert(h =~= w);
        }
    }
    if s.len() >= 3 && s[0] == 0xFF && s[1] == 0xD8 && s[2] == 0xFF {
        assert(s.subrange(0, 3) =~= p);
    }
    if s.len() >= 4 && s[0] == 0x89 && s[1] == 0x50 && s[2] == 0x4E && s[3] == 0x47 {
        assert(s.subrange(0, 4) =~= q);
    }
    if s.len() >= 4 && s[0] == 0x52 && s[1] == 0x49 && s[2] == 0x46 && s[3] == 0x46 {
        assert(s.subrange(0, 4) =~= v);
    }
}

/// The name of a poster keeps the letters, digits, `-` and `_` of the id, 64 at most.
pub proof fn law_what_is_left_of_an_id(id: &str, r: String)
    requires
        call_ensures(safe_id, (id,), r),
    ensures
        ({
            let kept = id@.filter(
                |c: char|
                    '0' <= c <= '9' || 'A' <= c <= 'Z' || 'a' <= c <= 'z' || c == '-' || c == '_',
            );
            &&& r@.is_prefix_of(kept)
            &&& r@.len() == if kept.len() < 64 {
                kept.len()
            } else {
                64
            }
        }),
{
    let f = |c: char|
        '0' <= c <= '9' || 'A' <= c <= 'Z' || 'a' <= c <= 'z' || c == '-' || c == '_';
    let g = |c: char| posters::id_char(c);
    assert(f =~= g);
    let kept = id@.filter(g);
    assert(kept.subrange(0, r@.len() as int) =~= r@);
}

/// A name stays inside the folder of posters where it has no separator and no two dots that
/// follow each other.
pub proof fn law_which_names_stay_inside(name: &str, r: bool)
    requires
        call_ensures(name_stays_inside, (name,), r),
    ensures
        r <==> (forall|i: int| 0 <= i < name@.len() ==> #[trigger] name@[i] != '/' && name@[i] != '\\')
            && (forall|i: int|
            0 <= i < name@.len() - 1 ==> !(#[trigger] name@[i] == '.' && name@[i + 1] == '.')),
{
    let s = name@;
    if r {
        assert forall|i: int| 0 <= i < s.len() implies #[trigger] s[i] != '/' && s[i] != '\\' by {
            assert(s.contains(s[i]));
        }
    } else {
        if s.contains('/') {
            let i = choose|i: int| 0 <= i < s.len() && s[i] == '/';
            assert(s[i] == '/');
        } else if s.contains('\\') {
            let i = choose|i: int| 0 <= i < s.len() && s[i] == '\\';
            assert(s[i] == '\\');
        } else {
            let i = choose|i: int| 0 <= i < s.len() - 1 && #[trigger] s[i] == '.' && s[i + 1] == '.';
            assert(s[i] == '.');
        }
    }
}

/// A hash is written in 64 lower-case hexadecimal digits, or in 52 base32 digits of either case
/// the last of which stands for one bit.
pub proof fn law_what_a_hash_looks_like(s: &str, r: bool)
    requires
        call_ensures(hash_valid, (s,), r),
    ensures
        s@.len() == 64 ==> (r <==> forall|i: int|
            0 <= i < s@.len() ==> '0' <= #[trigger] s@[i] <= '9' || 'a' <= s@[i] <= 'f'),
        s@.len() == 52 ==> (r <==> (forall|i: int|
            0 <= i < s@.len() ==> 'A' <= #[trigger] s@[i] <= 'Z' || 'a' <= s@[i] <= 'z' || '2'
                <= s@[i] <= '7') && (s@[51] == 'A' || s@[51] == 'a' || s@[51] == 'Q' || s@[51]
            == 'q')),
        s@.len() != 64 && s@.len() != 52 ==> !r,
{
    if s@.len() == 64 {
        if r {
            assert forall|i: int| 0 <= i < s@.len() implies '0' <= #[trigger] s@[i] <= '9' || 'a'
                <= s@[i] <= 'f' by {
                assert(hashes::is_hex(s@[i]));
            }
        }
    } else if s@.len() == 52 {
        if r {
            assert forall|i: int| 0 <= i < s@.len() implies 'A' <= #[trigger] s@[i] <= 'Z' || 'a'
                <= s@[i] <= 'z' || '2' <= s@[i] <= '7' by {
                assert(hashes::is_base32(s@[i]));
            }
        }
    }
}

} // verus!
