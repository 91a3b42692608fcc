//! What the `tailscale` command says of this device.

use crate::numbers;
use crate::numbers::decimal;
use crate::text;
use crate::text::chars_of;
use vstd::prelude::*;
use vstd::string::*;
use vstd::utf8::*;

verus! {

/// What the error of `String::from_utf8` says of bytes that are not valid UTF-8.
pub uninterp spec fn utf8_fault(bytes: Seq<u8>) -> Seq<char>;

/// `String::from_utf8`: the text of the bytes where they are valid UTF-8, else what its error
/// says, which depends on the bytes alone.
#[verifier::external_body]
fn utf8_text(bytes: &[u8]) -> (r: Result<String, String>)
    ensures
        match r {
            Ok(s) => valid_utf8(bytes@) && s@ == decode_utf8(bytes@),
            Err(e) => !valid_utf8(bytes@) && e@ == utf8_fault(bytes@),
        },
{
    String::from_utf8(bytes.to_vec()).map_err(|e| e.to_string())
}

/// What `String::from_utf8_lossy` makes of bytes that are not valid UTF-8.
pub uninterp spec fn lossy(bytes: Seq<u8>) -> Seq<char>;

/// The text of some bytes, with what is not valid UTF-8 replaced.
pub open spec fn lossy_of(bytes: Seq<u8>) -> Seq<char> {
    if valid_utf8(bytes) {
        decode_utf8(bytes)
    } else {
        lossy(bytes)
    }
}

/// `String::from_utf8_lossy`: the text of the bytes where they are valid UTF-8; otherwise a
/// text that depends on the bytes alone.
#[verifier::external_body]
pub(crate) fn lossy_text(bytes: &[u8]) -> (r: String)
    ensures
        valid_utf8(bytes@) ==> r@ == decode_utf8(bytes@),
        !valid_utf8(bytes@) ==> r@ == lossy(bytes@),
{
    String::from_utf8_lossy(bytes).into_owned()
}

/// The text that a JSON document holds under the key `inner` of what it holds under the key
/// `outer`; none where the bytes are no JSON document, or there is no text there.
pub uninterp spec fn json_member(bytes: Seq<u8>, outer: Seq<char>, inner: Seq<char>) -> Option<
    Seq<char>,
>;

/// `serde_json::from_slice`, `Value::get` and `Value::as_str`: the text under two keys of a
/// JSON document, which depends on the bytes and the keys alone.
#[verifier::external_body]
fn json_text(bytes: &[u8], outer: &str, inner: &str) -> (r: Option<String>)
    ensures
        crate::jobs::opt_text(r) == json_member(bytes@, outer@, inner@),
{
    let v: serde_json::Value = serde_json::from_slice(bytes).ok()?;
    v.get(outer)?.get(inner)?.as_str().map(str::to_owned)
}

/// Why the address of this device is not known.
#[derive(Debug)]
pub enum TailnetError {
    /// The command failed, and said this.
    Failed(String),
    /// The command printed something that is not text, for this reason.
    NotText(String),
    /// The command printed no address.
    NoAddress,
}

impl TailnetError {
    /// The message for the user.
    pub fn message(&self) -> (r: String)
        ensures
            r@ == match self {
                TailnetError::Failed(e) => "`tailscale ip -4` falló: "@ + e@,
                TailnetError::NotText(e) => e@,
                TailnetError::NoAddress => "sin IP tailnet (¿tailscale down?)"@,
            },
    {
        match self {
            TailnetError::Failed(e) => {
                let mut r = "`tailscale ip -4` falló: ".to_owned();
                r.append(e.as_str());
                r
            },
            TailnetError::NotText(e) => e.clone(),
            TailnetError::NoAddress => "sin IP tailnet (¿tailscale down?)".to_owned(),
        }
    }
}

/// The address that `tailscale ip -4` printed.
pub fn parse_ipv4_out(stdout: &[u8], stderr: &[u8], success: bool) -> (r: Result<
    String,
    TailnetError,
>)
    ensures
        match r {
            Ok(ip) => success && valid_utf8(stdout@) && ip@ == text::trimmed(decode_utf8(stdout@))
                && ip@.len() > 0,
            Err(TailnetError::Failed(e)) => !success && e@ == lossy_of(stderr@),
            Err(TailnetError::NotText(e)) => success && !valid_utf8(stdout@) && e@ == utf8_fault(
                stdout@,
            ),
            Err(TailnetError::NoAddress) => success && valid_utf8(stdout@) && text::trimmed(
                decode_utf8(stdout@),
            ).len() == 0,
        },
{
    if !success {
        return Err(TailnetError::Failed(lossy_text(stderr)));
    }
    match utf8_text(stdout) {
        Err(e) => Err(TailnetError::NotText(e)),
        Ok(s) => {
            let ip = s.as_str().trim();
            if ip.is_empty() {
                Err(TailnetError::NoAddress)
            } else {
                Ok(ip.to_owned())
            }
        },
    }
}

/// `s` without the dots at its end.
pub open spec fn without_end_dots(s: Seq<char>) -> Seq<char>
    decreases s.len(),
{
    if s.len() > 0 && s.last() == '.' {
        without_end_dots(s.drop_last())
    } else {
        s
    }
}

/// A domain name without the dots at its end.
pub fn domain_name(s: &str) -> (r: String)
    ensures
        r@ == without_end_dots(s@),
{
    let v = chars_of(s);
    let mut n: usize = v.len();
    assert(s@.take(n as int) =~= s@);
    while n > 0 && v[n - 1] == '.'
        invariant
            v@ == s@,
            n <= v@.len(),
            without_end_dots(s@) == without_end_dots(s@.take(n as int)),
        decreases n,
    {
        assert(s@.take(n as int).last() == '.');
        assert(s@.take(n as int).drop_last() =~= s@.take(n - 1));
        n = n - 1;
    }
    let r = s.substring_char(0, n);
    assert(r@ =~= s@.take(n as int));
    assert(n > 0 ==> r@.last() == v@[n - 1]);
    r.to_owned()
}

/// The name of this device that `tailscale status --json` printed.
pub fn parse_dns_json(stdout: &[u8]) -> (r: Option<String>)
    ensures
        match json_member(stdout@, "Self"@, "DNSName"@) {
            Some(n) => r is Some && r->0@ == without_end_dots(n),
            None => r is None,
        },
{
    match json_text(stdout, "Self", "DNSName") {
        Some(n) => Some(domain_name(n.as_str())),
        None => None,
    }
}

/// The commands that make the gateway on a local port reachable by HTTPS.
pub fn serve_hint(local_port: u16) -> (r: String)
    ensures
        r@ == "tailscale serve --bg "@ + numbers::decimal_text(local_port as nat)
            + "   # expone https://<magicdns>/ -> 127.0.0.1:"@ + numbers::decimal_text(
            local_port as nat,
        )
            + "\ntailscale cert <magicdns>           # cert local si prefieres tu propio reverse-proxy"@,
{
    let port = decimal(local_port as u64);
    let mut r = "tailscale serve --bg ".to_owned();
    r.append(port.as_str());
    r.append("   # expone https://<magicdns>/ -> 127.0.0.1:");
    r.append(port.as_str());
    r.append(
        "\ntailscale cert <magicdns>           # cert local si prefieres tu propio reverse-proxy",
    );
    r
}

} // verus!
