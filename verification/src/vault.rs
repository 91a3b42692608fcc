//! The vault: a module that can be plugged in, and what it declares of itself.

use crate::mime;
use crate::policy::Policy;
use crate::text::ends_with;
use vstd::prelude::*;
use vstd::string::*;

verus! {

/// What a module declares of itself.
#[derive(Debug)]
pub struct Manifest {
    pub id: String,
    pub name: String,
    pub version: String,
    pub policies: Vec<Policy>,
}

/// A module that can be plugged in.
pub trait Module {
    fn manifest() -> Manifest;
}

/// The vault with video streaming.
pub struct VaultModule;

impl Module for VaultModule {
    fn manifest() -> (r: Manifest)
        ensures
            r.id@ == "vault"@,
            r.name@ == "Baúl + streaming"@,
            r.version@ == "0.1.0"@,
            r.policies@ == seq![Policy::HostOnly, Policy::StreamOnly, Policy::Mirror],
    {
        Manifest {
            id: "vault".to_owned(),
            name: "Baúl + streaming".to_owned(),
            version: "0.1.0".to_owned(),
            policies: vec![Policy::HostOnly, Policy::StreamOnly, Policy::Mirror],
        }
    }
}

/// The media type of a video by the end of its path, in lower case.
pub open spec fn video_mime(path: Seq<char>) -> Seq<char> {
    if ".mkv"@.is_suffix_of(path) {
        "video/x-matroska"@
    } else if ".mp4"@.is_suffix_of(path) {
        "video/mp4"@
    } else if ".webm"@.is_suffix_of(path) {
        "video/webm"@
    } else if ".avi"@.is_suffix_of(path) {
        "video/x-msvideo"@
    } else {
        "application/octet-stream"@
    }
}

/// The vault knows the paths that end in one of its four ends, and takes each for what the
/// library takes it for.
pub proof fn law_the_vault_agrees_with_the_library(path: Seq<char>)
    ensures
        video_mime(path) != "application/octet-stream"@ <==> {
            ||| ".mkv"@.is_suffix_of(path)
            ||| ".mp4"@.is_suffix_of(path)
            ||| ".webm"@.is_suffix_of(path)
            ||| ".avi"@.is_suffix_of(path)
        },
        video_mime(path) != "application/octet-stream"@ ==> mime::mime_of(path) == video_mime(path),
{
    mime::lemma_video_ends();
    if ".mkv"@.is_suffix_of(path) {
        lemma_ends_in(path, ".mkv"@);
    } else if ".mp4"@.is_suffix_of(path) {
        lemma_ends_in(path, ".mp4"@);
    } else if ".webm"@.is_suffix_of(path) {
        lemma_ends_in(path, ".webm"@);
    } else if ".avi"@.is_suffix_of(path) {
        lemma_ends_in(path, ".avi"@);
    }
}

proof fn lemma_ends_in(path: Seq<char>, e: Seq<char>)
    requires
        e.is_suffix_of(path),
        mime::mime_of(e) != "application/octet-stream"@,
    ensures
        mime::mime_of(path) == mime::mime_of(e),
{
    let k = path.len() - e.len();
    assert(path =~= path.take(k) + e);
    mime::law_the_end_decides(path.take(k), e);
}

/// The media type of a video by the end of its path, in lower case;
/// `application/octet-stream` for anything else.
pub fn guess_mime(path: &str) -> (r: String)
    ensures
        r@ == video_mime(path@),
{
    let mime = if ends_with(path, ".mkv") {
        "video/x-matroska"
    } else if ends_with(path, ".mp4") {
        "video/mp4"
    } else if ends_with(path, ".webm") {
        "video/webm"
    } else if ends_with(path, ".avi") {
        "video/x-msvideo"
    } else {
        "application/octet-stream"
    };
    mime.to_owned()
}

} // verus!
