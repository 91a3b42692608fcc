//! What two nodes agree on without asking each other.

use sha2::{Digest, Sha256};
use vstd::prelude::*;
use vstd::string::*;
use vstd::utf8::*;

verus! {

/// The SHA-256 digest of some bytes.
pub uninterp spec fn sha256(bytes: Seq<u8>) -> Seq<u8>;

/// `Sha256::digest`: the SHA-256 digest of the bytes, which depends on them alone.
#[verifier::external_body]
fn sha256_digest(bytes: &[u8]) -> (r: [u8; 32])
    ensures
        r@ == sha256(bytes@),
{
    Sha256::digest(bytes).into()
}

/// What the topic of a library is the digest of: a fixed prefix and the name.
pub open spec fn topic_bytes(library: Seq<char>) -> Seq<u8> {
    encode_utf8("p2p-nube/v1/"@) + encode_utf8(library)
}

/// What the topic of a library is the digest of.
pub fn topic_input(library: &str) -> (r: Vec<u8>)
    ensures
        r@ == topic_bytes(library@),
{
    let mut r: Vec<u8> = Vec::new();
    r.extend_from_slice("p2p-nube/v1/".as_bytes());
    r.extend_from_slice(library.as_bytes());
    assert(r@ =~= topic_bytes(library@));
    r
}

/// The topic that the nodes of a library meet in: the same for the same name, on every node.
pub fn topic_for(library: &str) -> (r: [u8; 32])
    ensures
        r@ == sha256(topic_bytes(library@)),
{
    sha256_digest(topic_input(library).as_slice())
}

/// Different libraries have different topics, unless two inputs have the same digest.
pub proof fn law_topic_inputs_differ(a: Seq<char>, b: Seq<char>)
    requires
        topic_bytes(a) == topic_bytes(b),
    ensures
        a == b,
{
    let p = encode_utf8("p2p-nube/v1/"@);
    assert(encode_utf8(a) =~= topic_bytes(a).skip(p.len() as int));
    assert(encode_utf8(b) =~= topic_bytes(b).skip(p.len() as int));
    encode_utf8_decode_utf8(a);
    encode_utf8_decode_utf8(b);
}

} // verus!
