//! Hosting and transmission policy of a file or folder.

use crate::text::same;
use vstd::prelude::*;
use vstd::string::*;

verus! {

/// What may be done with a file.
///
/// - `HostOnly`: only the host keeps it, and it is not announced for download.
/// - `StreamOnly`: its metadata is announced and it is served by ranges; a viewer does
///   not keep it on disk.
/// - `Mirror`: full synchronisation, download allowed.
#[derive(Debug, Clone, Copy, PartialEq, Eq, Structural)]
pub enum Policy {
    HostOnly,
    StreamOnly,
    Mirror,
}

/// A text that names no policy.
#[derive(Debug)]
pub struct UnknownPolicy {
    pub text: String,
}

/// The name of a policy, as it is stored and sent.
pub open spec fn policy_name(p: Policy) -> Seq<char> {
    match p {
        Policy::HostOnly => "host_only"@,
        Policy::StreamOnly => "stream_only"@,
        Policy::Mirror => "mirror"@,
    }
}

/// The text is the name of a policy.
pub open spec fn names_one(s: Seq<char>) -> bool {
    exists|p: Policy| s == #[trigger] policy_name(p)
}

impl Default for Policy {
    fn default() -> (r: Self)
        ensures
            r == Policy::StreamOnly,
    {
        Policy::StreamOnly
    }
}

impl Policy {
    /// Whether a viewer may download the file.
    pub fn allows_download(self) -> (r: bool)
        ensures
            r == (self is Mirror),
    {
        matches!(self, Policy::Mirror)
    }

    /// Whether the file may be streamed.
    pub fn allows_stream(self) -> (r: bool)
        ensures
            r == (self is StreamOnly || self is Mirror),
    {
        matches!(self, Policy::StreamOnly | Policy::Mirror)
    }

    /// The name of the policy.
    pub fn as_str(self) -> (r: &'static str)
        ensures
            r@ == policy_name(self),
    {
        match self {
            Policy::HostOnly => "host_only",
            Policy::StreamOnly => "stream_only",
            Policy::Mirror => "mirror",
        }
    }

    /// The policy that `s` names.
    pub fn parse(s: &str) -> (r: Result<Self, UnknownPolicy>)
        ensures
            match r {
                Ok(p) => s@ == policy_name(p),
                Err(e) => e.text@ == s@ && !names_one(s@),
            },
    {
        if same(s, "host_only") {
            Ok(Policy::HostOnly)
        } else if same(s, "stream_only") {
            Ok(Policy::StreamOnly)
        } else if same(s, "mirror") {
            Ok(Policy::Mirror)
        } else {
            Err(UnknownPolicy { text: s.to_owned() })
        }
    }
}

impl UnknownPolicy {
    /// The message for the user.
    pub fn message(&self) -> (r: String)
        ensures
            r@ == "policy desconocida: "@ + self.text@,
    {
        let mut r = "policy desconocida: ".to_owned();
        r.append(self.text.as_str());
        r
    }
}

/// Policies have different names, so what `as_str` writes `parse` reads back.
pub proof fn law_policy_names_differ(p: Policy, q: Policy)
    ensures
        policy_name(p) == policy_name(q) ==> p == q,
{
    reveal_strlit("host_only");
    reveal_strlit("stream_only");
    reveal_strlit("mirror");
    assert("host_only"@.len() == 9);
    assert("stream_only"@.len() == 11);
    assert("mirror"@.len() == 6);
}

} // verus!
