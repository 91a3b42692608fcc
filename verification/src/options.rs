//! The command line, and the certificate that the server needs.

use crate::catalog;
use crate::jobs;
use crate::numbers;
use crate::numbers::{decimal, parse_up_to};
use crate::policy;
use crate::policy::Policy;
use crate::tailnet;
use crate::tailnet::lossy_text;
use crate::text;
use crate::text::{chars_of, same, starts_with, text_of};
use vstd::prelude::*;
use vstd::string::*;

verus! {

/// The port that is served by default.
pub const DEV_PORT_DEFAULT: u16 = 37491;

/// The domain that is served where nothing else is known.
pub const DEV_DOMAIN_DEFAULT: &'static str = "uriel-1.tail7345d6.ts.net";

/// The value of `Options`.
#[verifier::ext_equal]
pub struct OptionsRec {
    pub file: Option<Seq<char>>,
    pub data_dir: Seq<char>,
    pub policy: Policy,
    pub port: u16,
    pub bind: Option<Seq<char>>,
    pub domain: Option<Seq<char>>,
    pub http_local: bool,
    pub media_roots: Option<Seq<char>>,
}

/// What the command line asks for.
#[derive(Debug)]
pub struct Options {
    /// A file to add at the start.
    pub file: Option<String>,
    /// Where the node keeps its data.
    pub data_dir: String,
    /// The policy of the file.
    pub policy: Policy,
    pub port: u16,
    pub bind: Option<String>,
    pub domain: Option<String>,
    /// Serve without TLS, to this device alone.
    pub http_local: bool,
    /// The folders that files may be added from, with commas between them.
    pub media_roots: Option<String>,
}

impl View for Options {
    type V = OptionsRec;

    open spec fn view(&self) -> OptionsRec {
        OptionsRec {
            file: jobs::opt_text(self.file),
            data_dir: self.data_dir@,
            policy: self.policy,
            port: self.port,
            bind: jobs::opt_text(self.bind),
            domain: jobs::opt_text(self.domain),
            http_local: self.http_local,
            media_roots: jobs::opt_text(self.media_roots),
        }
    }
}

/// The value of an `OptionsError`.
#[verifier::ext_equal]
pub enum OptionsErrorRec {
    Usage,
    Policy(Seq<char>),
}

/// Why a command line is refused.
#[derive(Debug)]
pub enum OptionsError {
    /// It cannot be read: the usage is to be shown.
    Usage,
    /// It names a policy that there is not.
    Policy(policy::UnknownPolicy),
}

impl View for OptionsError {
    type V = OptionsErrorRec;

    open spec fn view(&self) -> OptionsErrorRec {
        match self {
            OptionsError::Usage => OptionsErrorRec::Usage,
            OptionsError::Policy(e) => OptionsErrorRec::Policy(e.text@),
        }
    }
}

/// What holds before any flag is read.
pub open spec fn defaults(file: Option<Seq<char>>) -> OptionsRec {
    OptionsRec {
        file,
        data_dir: "./data-nodo"@,
        policy: Policy::StreamOnly,
        port: DEV_PORT_DEFAULT,
        bind: None,
        domain: None,
        http_local: false,
        media_roots: None,
    }
}

/// The policy with this name.
pub open spec fn named_policy(s: Seq<char>) -> Option<Policy> {
    if s == policy::policy_name(Policy::HostOnly) {
        Some(Policy::HostOnly)
    } else if s == policy::policy_name(Policy::StreamOnly) {
        Some(Policy::StreamOnly)
    } else if s == policy::policy_name(Policy::Mirror) {
        Some(Policy::Mirror)
    } else {
        None
    }
}

/// The flag takes a value.
pub open spec fn takes_value(flag: Seq<char>) -> bool {
    ||| flag == "--data-dir"@
    ||| flag == "--policy"@
    ||| flag == "--port"@
    ||| flag == "--bind"@
    ||| flag == "--domain"@
    ||| flag == "--media-roots"@
}

/// The options after a flag with its value.
pub open spec fn with_flag(o: OptionsRec, flag: Seq<char>, value: Seq<char>) -> Result<
    OptionsRec,
    OptionsErrorRec,
> {
    if flag == "--data-dir"@ {
        Ok(OptionsRec { data_dir: value, ..o })
    } else if flag == "--policy"@ {
        match named_policy(value) {
            Some(policy) => Ok(OptionsRec { policy, ..o }),
            None => Err(OptionsErrorRec::Policy(value)),
        }
    } else if flag == "--port"@ {
        match numbers::parsed(value, u16::MAX as nat) {
            Some(port) => Ok(OptionsRec { port: port as u16, ..o }),
            None => Err(OptionsErrorRec::Usage),
        }
    } else if flag == "--bind"@ {
        Ok(OptionsRec { bind: Some(value), ..o })
    } else if flag == "--domain"@ {
        Ok(OptionsRec { domain: Some(value), ..o })
    } else {
        Ok(OptionsRec { media_roots: Some(value), ..o })
    }
}

/// The options after some flags.
pub open spec fn with_flags(o: OptionsRec, args: Seq<Seq<char>>) -> Result<
    OptionsRec,
    OptionsErrorRec,
>
    decreases args.len(),
{
    if args.len() == 0 {
        Ok(o)
    } else if args[0] == "--http-local"@ {
        with_flags(OptionsRec { http_local: true, ..o }, args.skip(1))
    } else if takes_value(args[0]) && args.len() > 1 {
        match with_flag(o, args[0], args[1]) {
            Ok(p) => with_flags(p, args.skip(2)),
            Err(e) => Err(e),
        }
    } else {
        Err(OptionsErrorRec::Usage)
    }
}

/// What a command line asks for: a file first, unless it begins with a flag, and flags.
pub open spec fn options_outcome(args: Seq<Seq<char>>) -> Result<OptionsRec, OptionsErrorRec> {
    if args.len() > 0 && !"--"@.is_prefix_of(args[0]) {
        with_flags(defaults(Some(args[0])), args.skip(1))
    } else {
        with_flags(defaults(None), args)
    }
}

/// `r` is the outcome.
pub open spec fn is_options(
    r: Result<Options, OptionsError>,
    outcome: Result<OptionsRec, OptionsErrorRec>,
) -> bool {
    match r {
        Ok(o) => outcome == Ok::<OptionsRec, OptionsErrorRec>(o@),
        Err(e) => outcome == Err::<OptionsRec, OptionsErrorRec>(e@),
    }
}

/// The options after a flag with its value.
fn set_flag(o: Options, flag: &str, value: &str) -> (r: Result<Options, OptionsError>)
    requires
        takes_value(flag@),
    ensures
        is_options(r, with_flag(o@, flag@, value@)),
{
    let mut o = o;
    if same(flag, "--data-dir") {
        o.data_dir = value.to_owned();
    } else if same(flag, "--policy") {
        proof {
            policy::law_policy_names_differ(Policy::HostOnly, Policy::StreamOnly);
            policy::law_policy_names_differ(Policy::HostOnly, Policy::Mirror);
            policy::law_policy_names_differ(Policy::StreamOnly, Policy::Mirror);
        }
        match Policy::parse(value) {
            Ok(p) => {
                o.policy = p;
            },
            Err(e) => {
                assert(value@ != policy::policy_name(Policy::HostOnly));
                assert(value@ != policy::policy_name(Policy::StreamOnly));
                assert(value@ != policy::policy_name(Policy::Mirror));
                return Err(OptionsError::Policy(e));
            },
        }
    } else if same(flag, "--port") {
        match parse_up_to(value, u16::MAX as u64) {
            Some(p) => {
                o.port = p as u16;
            },
            None => {
                return Err(OptionsError::Usage);
            },
        }
    } else if same(flag, "--bind") {
        o.bind = Some(value.to_owned());
    } else if same(flag, "--domain") {
        o.domain = Some(value.to_owned());
    } else {
        o.media_roots = Some(value.to_owned());
    }
    Ok(o)
}

/// Reads the command line, without the name of the program.
pub fn parse_options(args: &Vec<String>) -> (r: Result<Options, OptionsError>)
    ensures
        is_options(r, options_outcome(catalog::text_views(args@))),
{
    let ghost all = catalog::text_views(args@);
    let mut at: usize = 0;
    let mut file: Option<String> = None;
    if args.len() > 0 && !starts_with(args[0].as_str(), "--") {
        file = Some(args[0].clone());
        at = 1;
    }
    let mut o = Options {
        file,
        data_dir: "./data-nodo".to_owned(),
        policy: Policy::StreamOnly,
        port: DEV_PORT_DEFAULT,
        bind: None,
        domain: None,
        http_local: false,
        media_roots: None,
    };
    assert(all.skip(0) =~= all);
    assert(args@.len() > 0 ==> all[0] == args@[0]@);
    while at < args.len()
        invariant
            all == catalog::text_views(args@),
            at <= args@.len(),
            options_outcome(all) == with_flags(o@, all.skip(at as int)),
        decreases args@.len() - at,
    {
        let ghost rest = all.skip(at as int);
        let flag = args[at].as_str();
        assert(rest[0] == flag@);
        if same(flag, "--http-local") {
            o.http_local = true;
            assert(rest.skip(1) =~= all.skip(at + 1));
            at = at + 1;
        } else if (same(flag, "--data-dir") || same(flag, "--policy") || same(flag, "--port")
            || same(flag, "--bind") || same(flag, "--domain") || same(flag, "--media-roots"))
            && args.len() - at > 1 {
            assert(rest[1] == args@[at + 1]@);
            match set_flag(o, flag, args[at + 1].as_str()) {
                Ok(p) => {
                    o = p;
                },
                Err(e) => {
                    return Err(e);
                },
            }
            assert(rest.skip(2) =~= all.skip(at + 2));
            at = at + 2;
        } else {
            return Err(OptionsError::Usage);
        }
    }
    Ok(o)
}

/// The parts of a text between commas.
pub open spec fn comma_parts(s: Seq<char>) -> (Seq<Seq<char>>, Seq<char>)
    decreases s.len(),
{
    if s.len() == 0 {
        (Seq::empty(), Seq::empty())
    } else {
        let (done, open) = comma_parts(s.drop_last());
        if s.last() == ',' {
            (done.push(open), Seq::empty())
        } else {
            (done, open.push(s.last()))
        }
    }
}

/// Some texts without white space around them, but for those of white space alone.
pub open spec fn trimmed_all(s: Seq<Seq<char>>) -> Seq<Seq<char>>
    decreases s.len(),
{
    if s.len() == 0 {
        Seq::empty()
    } else {
        let before = trimmed_all(s.drop_last());
        let t = text::trimmed(s.last());
        if t.len() == 0 {
            before
        } else {
            before.push(t)
        }
    }
}

/// The folders that a list with commas names.
pub open spec fn folders_in(raw: Seq<char>) -> Seq<Seq<char>> {
    trimmed_all(comma_parts(raw).0.push(comma_parts(raw).1))
}

/// Adds the text without white space around it, unless it is blank.
fn push_trimmed(r: &mut Vec<String>, part: &Vec<char>)
    ensures
        catalog::text_views(final(r)@) == {
            let before = catalog::text_views(old(r)@);
            let t = text::trimmed(part@);
            if t.len() == 0 {
                before
            } else {
                before.push(t)
            }
        },
{
    let s = text_of(part);
    let t = s.as_str().trim();
    if !t.is_empty() {
        let ghost before = r@;
        r.push(t.to_owned());
        assert(catalog::text_views(r@) =~= catalog::text_views(before).push(t@));
    }
}

/// The folders that a list with commas names.
pub fn split_media_roots(raw: &str) -> (r: Vec<String>)
    ensures
        catalog::text_views(r@) == folders_in(raw@),
{
    let v = chars_of(raw);
    let mut r: Vec<String> = Vec::new();
    let mut open: Vec<char> = Vec::new();
    assert(catalog::text_views(r@) =~= Seq::<Seq<char>>::empty());
    for i in 0..v.len()
        invariant
            v@ == raw@,
            catalog::text_views(r@) == trimmed_all(comma_parts(raw@.take(i as int)).0),
            open@ == comma_parts(raw@.take(i as int)).1,
    {
        let ghost head = raw@.take(i as int);
        let c = v[i];
        proof {
            assert(raw@.take(i + 1).drop_last() =~= head);
            assert(raw@.take(i + 1).last() == c);
        }
        if c == ',' {
            push_trimmed(&mut r, &open);
            proof {
                let done = comma_parts(head).0;
                assert(done.push(open@).drop_last() =~= done);
            }
            open = Vec::new();
            assert(open@ =~= Seq::<char>::empty());
        } else {
            open.push(c);
        }
    }
    assert(raw@.take(raw@.len() as int) =~= raw@);
    push_trimmed(&mut r, &open);
    proof {
        let done = comma_parts(raw@).0;
        assert(done.push(open@).drop_last() =~= done);
    }
    r
}

/// How long a certificate is used without asking for a new one, in seconds.
pub const CERT_LIFETIME: u64 = 60 * 86400;

/// Whether the certificate at hand is used as it is: it and its key are files, and it is
/// younger than 60 days. `age` is its age in seconds, where that is known.
pub fn reuses_cert(cert_is_file: bool, key_is_file: bool, age: Option<u64>) -> (r: bool)
    ensures
        r == (cert_is_file && key_is_file && age is Some && age->0 < 60 * 86400),
{
    if cert_is_file && key_is_file {
        match age {
            Some(a) => a < CERT_LIFETIME,
            None => false,
        }
    } else {
        false
    }
}

/// The arguments of `tailscale` that ask for a certificate.
pub fn cert_args(cert: &str, key: &str, domain: &str) -> (r: Vec<String>)
    ensures
        catalog::text_views(r@) == seq![
            "cert"@,
            "--cert-file"@,
            cert@,
            "--key-file"@,
            key@,
            "--min-validity"@,
            "720h"@,
            domain@,
        ],
{
    let r = vec![
        "cert".to_owned(),
        "--cert-file".to_owned(),
        cert.to_owned(),
        "--key-file".to_owned(),
        key.to_owned(),
        "--min-validity".to_owned(),
        "720h".to_owned(),
        domain.to_owned(),
    ];
    assert(catalog::text_views(r@) =~= seq![
        "cert"@,
        "--cert-file"@,
        cert@,
        "--key-file"@,
        key@,
        "--min-validity"@,
        "720h"@,
        domain@,
    ]);
    r
}

/// The message when there is no certificate: what was said, and what to do about it.
pub open spec fn cert_failure(
    domain: Seq<char>,
    stderr: Seq<char>,
    cert: Seq<char>,
    key: Seq<char>,
) -> Seq<char> {
    "`tailscale cert` falló para "@ + domain + ": "@ + text::trimmed(stderr)
        + "\nEjecuta UNA vez (pide contraseña) y reintenta:\nsudo tailscale cert --cert-file "@
        + cert + " --key-file "@ + key + " "@ + domain + "\nsudo chown $USER:$USER "@ + cert + " "@
        + key
}

/// The message when there is no certificate, with what `tailscale cert` printed on `stderr`.
pub fn cert_failure_message(domain: &str, stderr: &[u8], cert: &str, key: &str) -> (r: String)
    ensures
        r@ == cert_failure(domain@, tailnet::lossy_of(stderr@), cert@, key@),
{
    let stderr = lossy_text(stderr);
    let mut r = "`tailscale cert` falló para ".to_owned();
    r.append(domain);
    r.append(": ");
    r.append(stderr.as_str().trim());
    r.append("\nEjecuta UNA vez (pide contraseña) y reintenta:\nsudo tailscale cert --cert-file ");
    r.append(cert);
    r.append(" --key-file ");
    r.append(key);
    r.append(" ");
    r.append(domain);
    r.append("\nsudo chown $USER:$USER ");
    r.append(cert);
    r.append(" ");
    r.append(key);
    r
}

/// The domain that is served: the one given, else the one that the device has, else the
/// default.
pub fn served_domain(given: Option<&str>, own: Option<&str>) -> (r: String)
    ensures
        r@ == match given {
            Some(d) => d@,
            None => match own {
                Some(d) => d@,
                None => "uriel-1.tail7345d6.ts.net"@,
            },
        },
{
    match given {
        Some(d) => d.to_owned(),
        None => match own {
            Some(d) => d.to_owned(),
            None => DEV_DOMAIN_DEFAULT.to_owned(),
        },
    }
}

/// The address that is served.
pub fn served_url(domain: &str, port: u16) -> (r: String)
    ensures
        r@ == "https://"@ + domain@ + ":"@ + numbers::decimal_text(port as nat),
{
    let mut r = "https://".to_owned();
    r.append(domain);
    r.append(":");
    r.append(decimal(port as u64).as_str());
    r
}

} // verus!
