//! Content hashes as text.

use std::str::FromStr;
use vstd::prelude::*;
use vstd::string::*;
use vstd::utf8::*;

verus! {

/// A lower-case hexadecimal digit.
pub open spec fn is_hex(c: char) -> bool {
    '0' <= c <= '9' || 'a' <= c <= 'f'
}

/// A base32 digit, in either case.
pub open spec fn is_base32(c: char) -> bool {
    'A' <= c <= 'Z' || 'a' <= c <= 'z' || '2' <= c <= '7'
}

/// The text writes a hash of 32 bytes: 64 lower-case hexadecimal digits, or 52 base32 digits
/// of which the last one carries one bit.
pub open spec fn is_hash(s: Seq<char>) -> bool {
    if s.len() == 64 {
        forall|i: int| 0 <= i < s.len() ==> is_hex(#[trigger] s[i])
    } else {
        &&& s.len() == 52
        &&& forall|i: int| 0 <= i < s.len() ==> is_base32(#[trigger] s[i])
        &&& s.last() == 'A' || s.last() == 'a' || s.last() == 'Q' || s.last() == 'q'
    }
}

/// `iroh_blobs::Hash::from_str`: reads a text of 64 bytes as lower-case hexadecimal, and
/// one of 52 bytes as base32 without padding, in either case, whose unused bits must be
/// zero. It panics on a text of any other length.
#[verifier::external_body]
fn reads_as_hash(s: &str) -> (r: bool)
    requires
        encode_utf8(s@).len() == 64 || encode_utf8(s@).len() == 52,
    ensures
        r == is_hash(s@),
{
    iroh_blobs::Hash::from_str(s).is_ok()
}

/// A text of ASCII characters has as many bytes as characters.
proof fn lemma_hash_len(s: Seq<char>)
    requires
        is_hash(s),
    ensures
        encode_utf8(s).len() == s.len(),
{
    assert(is_ascii_chars(s)) by {
        assert forall|i: int| 0 <= i < s.len() implies 0 <= #[trigger] s[i] < 128 by {
            if s.len() == 64 {
                assert(is_hex(s[i]));
            } else {
                assert(is_base32(s[i]));
            }
        }
    }
    is_ascii_chars_encode_utf8(s);
}

/// Whether the text writes a hash.
pub fn hash_valid(s: &str) -> (r: bool)
    ensures
        r == is_hash(s@),
{
    let n: usize = s.as_bytes().len();
    if n != 64 && n != 52 {
        proof {
            if is_hash(s@) {
                lemma_hash_len(s@);
            }
        }
        return false;
    }
    reads_as_hash(s)
}

} // verus!
