//! The command line, the policies, and what is asked of other programs.

use crate::catalog;
use crate::node;
use crate::node::{topic_for, topic_input};
use crate::numbers;
use crate::options;
use crate::options::{
    cert_args, cert_failure_message, parse_options, reuses_cert, served_domain, served_url,
    split_media_roots, Options, OptionsError,
};
use crate::policy::{Policy, UnknownPolicy};
use crate::tailnet;
use crate::tailnet::{domain_name, parse_dns_json, parse_ipv4_out, serve_hint, TailnetError};
use crate::text;
use vstd::prelude::*;
use vstd::string::*;
use vstd::utf8::*;

use crate::options::{OptionsErrorRec, OptionsRec};

verus! {

// ---------------------------------------------------------------------------
// The command line
// ---------------------------------------------------------------------------
/// The optional texts are the same.
pub open spec fn same_text(a: Option<String>, b: Option<String>) -> bool {
    match (a, b) {
        (Some(x), Some(y)) => x@ == y@,
        (None, None) => true,
        _ => false,
    }
}

/// Without flags the options are what they are by default. A first argument that is no flag is
/// the file to add.
pub proof fn law_what_holds_by_default(args: &Vec<String>, r: Result<Options, OptionsError>)
    requires
        call_ensures(parse_options, (args,), r),
        args@.len() == 0 || args@.len() == 1 && !"--"@.is_prefix_of(args@[0]@),
    ensures
        r is Ok,
        ({
            let o = r->Ok_0;
            &&& args@.len() == 0 ==> o.file is None
            &&& args@.len() == 1 ==> o.file is Some && o.file->0@ == args@[0]@
            &&& o.data_dir@ == "./data-nodo"@
            &&& o.policy is StreamOnly
            &&& o.port == 37491
            &&& o.bind is None && o.domain is None && o.media_roots is None
            &&& !o.http_local
        }),
{
    let all = catalog::text_views(args@);
    assert(all.len() == args@.len());
    if args@.len() == 1 {
        assert(all[0] == args@[0]@);
        assert(all.skip(1) =~= Seq::<Seq<char>>::empty());
    }
}

proof fn lemma_flags_in_turn(o: OptionsRec, a: Seq<Seq<char>>, b: Seq<Seq<char>>)
    requires
        options::with_flags(o, a) is Ok,
    ensures
        options::with_flags(o, a + b) == options::with_flags(options::with_flags(o, a)->Ok_0, b),
    decreases a.len(),
{
    if a.len() == 0 {
        assert(a + b =~= b);
    } else {
        let s = a + b;
        assert(s[0] == a[0]);
        if a[0] == "--http-local"@ {
            assert(s.skip(1) =~= a.skip(1) + b);
            lemma_flags_in_turn(OptionsRec { http_local: true, ..o }, a.skip(1), b);
        } else {
            assert(s[1] == a[1]);
            assert(s.skip(2) =~= a.skip(2) + b);
            let p = options::with_flag(o, a[0], a[1])->Ok_0;
            lemma_flags_in_turn(p, a.skip(2), b);
        }
    }
}

/// The arguments `b` are `a` and more behind them.
pub open spec fn goes_on(a: Seq<String>, b: Seq<String>, more: Seq<Seq<char>>) -> bool {
    &&& b.len() == a.len() + more.len()
    &&& forall|i: int| 0 <= i < a.len() ==> (#[trigger] b[i])@ == a[i]@
    &&& forall|i: int| a.len() <= i < b.len() ==> (#[trigger] b[i])@ == more[i - a.len()]
}

proof fn lemma_goes_on(a: Seq<String>, b: Seq<String>, more: Seq<Seq<char>>)
    requires
        goes_on(a, b, more),
        a.len() > 0 || more.len() > 0 && "--"@.is_prefix_of(more[0]),
        options::options_outcome(catalog::text_views(a)) is Ok,
    ensures
        options::options_outcome(catalog::text_views(b)) == options::with_flags(
            options::options_outcome(catalog::text_views(a))->Ok_0,
            more,
        ),
{
    let (x, y) = (catalog::text_views(a), catalog::text_views(b));
    assert(y =~= x + more);
    if a.len() > 0 {
        assert(y[0] == x[0]);
        if !"--"@.is_prefix_of(x[0]) {
            assert(y.skip(1) =~= x.skip(1) + more);
            lemma_flags_in_turn(options::defaults(Some(x[0])), x.skip(1), more);
        } else {
            lemma_flags_in_turn(options::defaults(None), x, more);
        }
    } else {
        assert(x =~= Seq::<Seq<char>>::empty());
        assert(y =~= more);
    }
}

proof fn lemma_flags_begin()
    ensures
        "--"@.is_prefix_of("--http-local"@),
        "--"@.is_prefix_of("--data-dir"@),
        "--"@.is_prefix_of("--policy"@),
        "--"@.is_prefix_of("--port"@),
        "--"@.is_prefix_of("--bind"@),
        "--"@.is_prefix_of("--domain"@),
        "--"@.is_prefix_of("--media-roots"@),
        "--http-local"@ != "--data-dir"@ && "--http-local"@ != "--policy"@,
        "--http-local"@ != "--port"@ && "--http-local"@ != "--bind"@,
        "--http-local"@ != "--domain"@ && "--http-local"@ != "--media-roots"@,
        "--data-dir"@ != "--policy"@ && "--data-dir"@ != "--port"@ && "--data-dir"@ != "--bind"@,
        "--data-dir"@ != "--domain"@ && "--data-dir"@ != "--media-roots"@,
        "--policy"@ != "--port"@ && "--policy"@ != "--bind"@ && "--policy"@ != "--domain"@,
        "--policy"@ != "--media-roots"@ && "--port"@ != "--bind"@ && "--port"@ != "--domain"@,
        "--port"@ != "--media-roots"@ && "--bind"@ != "--domain"@ && "--bind"@ != "--media-roots"@,
        "--domain"@ != "--media-roots"@,
{
    reveal_strlit("--");
    reveal_strlit("--http-local");
    reveal_strlit("--data-dir");
    reveal_strlit("--policy");
    reveal_strlit("--port");
    reveal_strlit("--bind");
    reveal_strlit("--domain");
    reveal_strlit("--media-roots");
    assert("--http-local"@.subrange(0, 2) =~= "--"@);
    assert("--data-dir"@.subrange(0, 2) =~= "--"@);
    assert("--policy"@.subrange(0, 2) =~= "--"@);
    assert("--port"@.subrange(0, 2) =~= "--"@);
    assert("--bind"@.subrange(0, 2) =~= "--"@);
    assert("--domain"@.subrange(0, 2) =~= "--"@);
    assert("--media-roots"@.subrange(0, 2) =~= "--"@);
    assert("--http-local"@[2] == 'h' && "--data-dir"@[2] == 'd' && "--data-dir"@[3] == 'a');
    assert("--policy"@[2] == 'p' && "--policy"@[4] == 'l' && "--port"@[4] == 'r');
    assert("--bind"@[2] == 'b' && "--domain"@[2] == 'd' && "--domain"@[3] == 'o');
    assert("--media-roots"@[2] == 'm' && "--port"@[2] == 'p');
}

/// The options but for the one that a flag sets are the same.
pub open spec fn same_but(o: Options, p: Options, flag: Seq<char>) -> bool {
    &&& same_text(o.file, p.file)
    &&& flag != "--data-dir"@ ==> p.data_dir@ == o.data_dir@
    &&& flag != "--policy"@ ==> p.policy == o.policy
    &&& flag != "--port"@ ==> p.port == o.port
    &&& flag != "--bind"@ ==> same_text(o.bind, p.bind)
    &&& flag != "--domain"@ ==> same_text(o.domain, p.domain)
    &&& flag != "--http-local"@ ==> p.http_local == o.http_local
    &&& flag != "--media-roots"@ ==> same_text(o.media_roots, p.media_roots)
}

proof fn lemma_same_texts(o: Options, p: Options)
    ensures
        o@.file == p@.file ==> same_text(o.file, p.file),
        o@.bind == p@.bind ==> same_text(o.bind, p.bind),
        o@.domain == p@.domain ==> same_text(o.domain, p.domain),
        o@.media_roots == p@.media_roots ==> same_text(o.media_roots, p.media_roots),
{
}

/// A flag with its value behind other arguments sets what it names, and nothing else.
pub proof fn law_a_flag_sets_what_it_names(
    a: &Vec<String>,
    b: &Vec<String>,
    flag: Seq<char>,
    value: Seq<char>,
    r: Result<Options, OptionsError>,
    s: Result<Options, OptionsError>,
)
    requires
        call_ensures(parse_options, (a,), r),
        call_ensures(parse_options, (b,), s),
        r is Ok,
        goes_on(a@, b@, seq![flag, value]),
        flag == "--data-dir"@ || flag == "--bind"@ || flag == "--domain"@ || flag
            == "--media-roots"@,
    ensures
        s is Ok,
        same_but(r->Ok_0, s->Ok_0, flag),
        flag == "--data-dir"@ ==> s->Ok_0.data_dir@ == value,
        flag == "--bind"@ ==> s->Ok_0.bind is Some && s->Ok_0.bind->0@ == value,
        flag == "--domain"@ ==> s->Ok_0.domain is Some && s->Ok_0.domain->0@ == value,
        flag == "--media-roots"@ ==> s->Ok_0.media_roots is Some && s->Ok_0.media_roots->0@ == value,
{
    lemma_flags_begin();
    let more = seq![flag, value];
    lemma_goes_on(a@, b@, more);
    lemma_one_flag(r->Ok_0@, flag, value, Seq::empty());
    assert(more + Seq::<Seq<char>>::empty() =~= more);
    lemma_same_texts(r->Ok_0, s->Ok_0);
}

proof fn lemma_one_flag(o: OptionsRec, flag: Seq<char>, value: Seq<char>, tail: Seq<Seq<char>>)
    requires
        options::takes_value(flag),
    ensures
        ({
            let more = seq![flag, value] + tail;
            match options::with_flag(o, flag, value) {
                Ok(p) => options::with_flags(o, more) == options::with_flags(p, tail),
                Err(e) => options::with_flags(o, more) == Err::<OptionsRec, OptionsErrorRec>(e),
            }
        }),
{
    lemma_flags_begin();
    let more = seq![flag, value] + tail;
    assert(more[0] == flag && more[1] == value);
    assert(more.skip(2) =~= tail);
}

/// `--http-local` behind other arguments turns TLS off, and changes nothing else.
pub proof fn law_http_local_is_set(
    a: &Vec<String>,
    b: &Vec<String>,
    r: Result<Options, OptionsError>,
    s: Result<Options, OptionsError>,
)
    requires
        call_ensures(parse_options, (a,), r),
        call_ensures(parse_options, (b,), s),
        r is Ok,
        goes_on(a@, b@, seq!["--http-local"@]),
    ensures
        s is Ok,
        s->Ok_0.http_local,
        same_but(r->Ok_0, s->Ok_0, "--http-local"@),
{
    lemma_flags_begin();
    let more = seq!["--http-local"@];
    lemma_goes_on(a@, b@, more);
    assert(more.skip(1) =~= Seq::<Seq<char>>::empty());
    reveal_with_fuel(options::with_flags, 2);
    lemma_same_texts(r->Ok_0, s->Ok_0);
}

/// `--port` with a number up to 65535 sets the port; another text is refused, whatever follows.
pub proof fn law_the_port_is_set(
    a: &Vec<String>,
    b: &Vec<String>,
    value: Seq<char>,
    tail: Seq<Seq<char>>,
    r: Result<Options, OptionsError>,
    s: Result<Options, OptionsError>,
)
    requires
        call_ensures(parse_options, (a,), r),
        call_ensures(parse_options, (b,), s),
        r is Ok,
        goes_on(a@, b@, seq!["--port"@, value] + tail),
    ensures
        ({
            let n = numbers::parsed(value, 65535);
            &&& n is None ==> s is Err && s->Err_0 is Usage
            &&& n is Some && tail.len() == 0 ==> s is Ok && s->Ok_0.port == n->0 && same_but(
                r->Ok_0,
                s->Ok_0,
                "--port"@,
            )
        }),
{
    lemma_flags_begin();
    lemma_goes_on(a@, b@, seq!["--port"@, value] + tail);
    lemma_one_flag(r->Ok_0@, "--port"@, value, tail);
    lemma_same_texts(r->Ok_0, s->Ok_0);
    if tail.len() == 0 {
        assert(tail =~= Seq::<Seq<char>>::empty());
    }
}

/// `--policy` with the name of one sets the policy; another text is refused and named, whatever
/// follows.
pub proof fn law_the_policy_is_set(
    a: &Vec<String>,
    b: &Vec<String>,
    value: Seq<char>,
    tail: Seq<Seq<char>>,
    r: Result<Options, OptionsError>,
    s: Result<Options, OptionsError>,
)
    requires
        call_ensures(parse_options, (a,), r),
        call_ensures(parse_options, (b,), s),
        r is Ok,
        goes_on(a@, b@, seq!["--policy"@, value] + tail),
    ensures
        ({
            let known = value == "host_only"@ || value == "stream_only"@ || value == "mirror"@;
            &&& !known ==> s is Err && (s->Err_0 matches OptionsError::Policy(e) && e.text@
                == value)
            &&& known && tail.len() == 0 ==> {
                &&& s is Ok && same_but(r->Ok_0, s->Ok_0, "--policy"@)
                &&& value == "host_only"@ ==> s->Ok_0.policy is HostOnly
                &&& value == "stream_only"@ ==> s->Ok_0.policy is StreamOnly
                &&& value == "mirror"@ ==> s->Ok_0.policy is Mirror
            }
        }),
{
    lemma_flags_begin();
    lemma_names();
    lemma_goes_on(a@, b@, seq!["--policy"@, value] + tail);
    lemma_one_flag(r->Ok_0@, "--policy"@, value, tail);
    lemma_same_texts(r->Ok_0, s->Ok_0);
    if tail.len() == 0 {
        assert(tail =~= Seq::<Seq<char>>::empty());
    }
}

proof fn lemma_names()
    ensures
        "host_only"@ != "stream_only"@ && "host_only"@ != "mirror"@ && "stream_only"@ != "mirror"@,
{
    reveal_strlit("host_only");
    reveal_strlit("stream_only");
    reveal_strlit("mirror");
    assert("host_only"@.len() == 9 && "stream_only"@.len() == 11 && "mirror"@.len() == 6);
}

/// A flag that there is not, or one without its value, is refused with the usage, whatever
/// follows the former.
pub proof fn law_other_arguments_are_refused(
    a: &Vec<String>,
    b: &Vec<String>,
    flag: Seq<char>,
    tail: Seq<Seq<char>>,
    r: Result<Options, OptionsError>,
    s: Result<Options, OptionsError>,
)
    requires
        call_ensures(parse_options, (a,), r),
        call_ensures(parse_options, (b,), s),
        r is Ok,
        goes_on(a@, b@, seq![flag] + tail),
        a@.len() > 0 || "--"@.is_prefix_of(flag),
        flag != "--http-local"@,
        tail.len() == 0 || flag != "--data-dir"@ && flag != "--policy"@ && flag != "--port"@ && flag
            != "--bind"@ && flag != "--domain"@ && flag != "--media-roots"@,
    ensures
        s is Err && s->Err_0 is Usage,
{
    lemma_flags_begin();
    let more = seq![flag] + tail;
    assert(more[0] == flag);
    lemma_goes_on(a@, b@, more);
}

// ---------------------------------------------------------------------------
// Folders
// ---------------------------------------------------------------------------
proof fn lemma_commas(a: Seq<char>, b: Seq<char>)
    ensures
        ({
            let s = a + seq![','] + b;
            &&& options::comma_parts(s).0 == options::comma_parts(a).0.push(
                options::comma_parts(a).1,
            ) + options::comma_parts(b).0
            &&& options::comma_parts(s).1 == options::comma_parts(b).1
        }),
    decreases b.len(),
{
    let s = a + seq![','] + b;
    let (x, y) = options::comma_parts(a);
    if b.len() == 0 {
        assert(s.drop_last() =~= a);
        assert(s.last() == ',');
        assert(options::comma_parts(s).0 =~= x.push(y) + options::comma_parts(b).0);
    } else {
        lemma_commas(a, b.drop_last());
        assert(s.drop_last() =~= a + seq![','] + b.drop_last());
        assert(s.last() == b.last());
        let (done, open) = options::comma_parts(b.drop_last());
        if b.last() == ',' {
            assert(options::comma_parts(s).0 =~= x.push(y) + done.push(open));
        }
    }
}

proof fn lemma_trimmed_all(a: Seq<Seq<char>>, b: Seq<Seq<char>>)
    ensures
        options::trimmed_all(a + b) == options::trimmed_all(a) + options::trimmed_all(b),
    decreases b.len(),
{
    let s = a + b;
    if b.len() == 0 {
        assert(s =~= a);
        assert(options::trimmed_all(a) + options::trimmed_all(b) =~= options::trimmed_all(a));
    } else {
        lemma_trimmed_all(a, b.drop_last());
        assert(s.drop_last() =~= a + b.drop_last());
        assert(s.last() == b.last());
        let t = text::trimmed(b.last());
        if t.len() > 0 {
            assert((options::trimmed_all(a) + options::trimmed_all(b.drop_last())).push(t)
                =~= options::trimmed_all(a) + options::trimmed_all(b.drop_last()).push(t));
        }
    }
}

proof fn lemma_no_comma(s: Seq<char>)
    requires
        forall|i: int| 0 <= i < s.len() ==> s[i] != ',',
    ensures
        options::comma_parts(s) == (Seq::<Seq<char>>::empty(), s),
    decreases s.len(),
{
    if s.len() > 0 {
        let t = s.drop_last();
        assert forall|i: int| 0 <= i < t.len() implies t[i] != ',' by {
            assert(t[i] == s[i]);
        }
        lemma_no_comma(t);
        assert(s.last() != ',');
        assert(t.push(s.last()) =~= s);
    } else {
        assert(s =~= Seq::<char>::empty());
    }
}

/// A text without a comma names one folder, without white space around it, or none where it is
/// blank.
pub proof fn law_a_text_names_a_folder(raw: &str, r: Vec<String>)
    requires
        call_ensures(split_media_roots, (raw,), r),
        forall|i: int| 0 <= i < raw@.len() ==> raw@[i] != ',',
    ensures
        text::trimmed(raw@).len() == 0 ==> r@.len() == 0,
        text::trimmed(raw@).len() > 0 ==> r@.len() == 1 && r@[0]@ == text::trimmed(raw@),
{
    lemma_no_comma(raw@);
    let one = Seq::<Seq<char>>::empty().push(raw@);
    assert(one.drop_last() =~= Seq::<Seq<char>>::empty());
    assert(one.last() == raw@);
    reveal_with_fuel(options::trimmed_all, 2);
    let v = catalog::text_views(r@);
    assert(v.len() == r@.len());
    if text::trimmed(raw@).len() > 0 {
        assert(v[0] == r@[0]@);
    }
}

/// A list names the folders before a comma, and then those behind it.
pub proof fn law_a_list_names_its_parts(
    raw: &str,
    a: &str,
    b: &str,
    r: Vec<String>,
    x: Vec<String>,
    y: Vec<String>,
)
    requires
        call_ensures(split_media_roots, (raw,), r),
        call_ensures(split_media_roots, (a,), x),
        call_ensures(split_media_roots, (b,), y),
        raw@ == a@ + seq![','] + b@,
    ensures
        r@.len() == x@.len() + y@.len(),
        forall|i: int| 0 <= i < x@.len() ==> (#[trigger] r@[i])@ == x@[i]@,
        forall|i: int| x@.len() <= i < r@.len() ==> (#[trigger] r@[i])@ == y@[i - x@.len()]@,
{
    lemma_commas(a@, b@);
    let (p, q) = options::comma_parts(a@);
    let (s, t) = options::comma_parts(b@);
    let (u, v, w) = (
        catalog::text_views(r@),
        catalog::text_views(x@),
        catalog::text_views(y@),
    );
    assert((p.push(q) + s).push(t) =~= p.push(q) + s.push(t));
    lemma_trimmed_all(p.push(q), s.push(t));
    assert(u == v + w);
    assert(u.len() == r@.len() && v.len() == x@.len() && w.len() == y@.len());
    assert forall|i: int| 0 <= i < x@.len() implies (#[trigger] r@[i])@ == x@[i]@ by {
        assert(u[i] == r@[i]@ && v[i] == x@[i]@);
    }
    assert forall|i: int| x@.len() <= i < r@.len() implies (#[trigger] r@[i])@ == y@[i
        - x@.len()]@ by {
        assert(u[i] == r@[i]@ && w[i - x@.len()] == y@[i - x@.len()]@);
    }
}

// ---------------------------------------------------------------------------
// Certificates and addresses
// ---------------------------------------------------------------------------
/// A certificate is used as it is while it and its key are files and it is younger than sixty
/// days.
pub proof fn law_young_certificates_are_used(
    cert: bool,
    key: bool,
    age: Option<u64>,
    r: bool,
)
    requires
        call_ensures(reuses_cert, (cert, key, age), r),
    ensures
        r <==> cert && key && age is Some && age->0 < 60 * 24 * 60 * 60,
{
}

/// What `tailscale` is asked for a certificate with.
pub proof fn law_how_a_certificate_is_asked_for(
    cert: &str,
    key: &str,
    domain: &str,
    r: Vec<String>,
)
    requires
        call_ensures(cert_args, (cert, key, domain), r),
    ensures
        r@.len() == 8,
        r@[0]@ == "cert"@,
        r@[1]@ == "--cert-file"@ && r@[2]@ == cert@,
        r@[3]@ == "--key-file"@ && r@[4]@ == key@,
        r@[5]@ == "--min-validity"@ && r@[6]@ == "720h"@,
        r@[7]@ == domain@,
{
    let v = catalog::text_views(r@);
    assert(v.len() == r@.len());
    assert(v[0] == r@[0]@ && v[1] == r@[1]@ && v[2] == r@[2]@ && v[3] == r@[3]@);
    assert(v[4] == r@[4]@ && v[5] == r@[5]@ && v[6] == r@[6]@ && v[7] == r@[7]@);
}

/// Without a certificate the command that was tried, what it said, and the commands to run are
/// told.
pub proof fn law_what_is_said_without_a_certificate(
    domain: &str,
    stderr: &[u8],
    cert: &str,
    key: &str,
    r: String,
)
    requires
        call_ensures(cert_failure_message, (domain, stderr, cert, key), r),
    ensures
        r@ == "`tailscale cert` falló para "@ + domain@ + ": "@ + text::trimmed(
            if valid_utf8(stderr@) {
                decode_utf8(stderr@)
            } else {
                tailnet::lossy(stderr@)
            },
        ) + "\nEjecuta UNA vez (pide contraseña) y reintenta:\nsudo tailscale cert --cert-file "@
            + cert@ + " --key-file "@ + key@ + " "@ + domain@ + "\nsudo chown $USER:$USER "@ + cert@
            + " "@ + key@,
{
}

/// The domain that is given is served, else that of the device, else the default one.
pub proof fn law_which_domain_is_served(given: Option<&str>, own: Option<&str>, r: String)
    requires
        call_ensures(served_domain, (given, own), r),
    ensures
        given is Some ==> r@ == given->0@,
        given is None && own is Some ==> r@ == own->0@,
        given is None && own is None ==> r@ == "uriel-1.tail7345d6.ts.net"@,
{
}

/// The address names the domain and the port.
pub proof fn law_which_address_is_served(domain: &str, port: u16, p: String, r: String, h: String)
    requires
        call_ensures(served_url, (domain, port), r),
        call_ensures(serve_hint, (port,), h),
        call_ensures(numbers::decimal, (port as u64,), p),
    ensures
        r@ == "https://"@ + domain@ + ":"@ + p@,
        h@ == "tailscale serve --bg "@ + p@ + "   # expone https://<magicdns>/ -> 127.0.0.1:"@ + p@
            + "\ntailscale cert <magicdns>           # cert local si prefieres tu propio reverse-proxy"@,
{
}

// ---------------------------------------------------------------------------
// The device
// ---------------------------------------------------------------------------
/// The address of the device is what was printed, without white space around it; else why
/// there is none is told.
pub proof fn law_the_address_is_what_was_printed(
    stdout: &[u8],
    stderr: &[u8],
    success: bool,
    r: Result<String, TailnetError>,
)
    requires
        call_ensures(parse_ipv4_out, (stdout, stderr, success), r),
    ensures
        ({
            let ip = text::trimmed(decode_utf8(stdout@));
            &&& r is Ok <==> success && valid_utf8(stdout@) && ip.len() > 0
            &&& r is Ok ==> r->Ok_0@ == ip
            &&& !success ==> r is Err && r->Err_0 is Failed
            &&& !success && valid_utf8(stderr@) ==> (r->Err_0 matches TailnetError::Failed(e) && e@
                == decode_utf8(stderr@))
            &&& !success && !valid_utf8(stderr@) ==> (r->Err_0 matches TailnetError::Failed(e) && e@
                == tailnet::lossy(stderr@))
            &&& success && !valid_utf8(stdout@) ==> r is Err && (
            r->Err_0 matches TailnetError::NotText(e) && e@ == tailnet::utf8_fault(stdout@))
            &&& success && valid_utf8(stdout@) && ip.len() == 0 ==> r is Err
                && r->Err_0 is NoAddress
        }),
{
}

/// What is said where the address is not known.
pub proof fn law_what_is_said_of_the_address(e: &TailnetError, r: String)
    requires
        call_ensures(TailnetError::message, (e,), r),
    ensures
        *e matches TailnetError::Failed(x) ==> r@ == "`tailscale ip -4` falló: "@ + x@,
        *e matches TailnetError::NotText(x) ==> r@ == x@,
        *e is NoAddress ==> r@ == "sin IP tailnet (¿tailscale down?)"@,
{
}

/// A domain name loses the dots at its end, and nothing else.
pub proof fn law_dots_at_the_end_are_dropped(s: &str, n: Seq<char>, k: nat, r: String)
    requires
        call_ensures(domain_name, (s,), r),
        s@ == n + Seq::new(k, |i: int| '.'),
        n.len() == 0 || n.last() != '.',
    ensures
        r@ == n,
{
    lemma_end_dots(n, k);
}

proof fn lemma_end_dots(n: Seq<char>, k: nat)
    requires
        n.len() == 0 || n.last() != '.',
    ensures
        tailnet::without_end_dots(n + Seq::new(k, |i: int| '.')) == n,
    decreases k,
{
    let s = n + Seq::new(k, |i: int| '.');
    if k == 0 {
        assert(s =~= n);
    } else {
        assert(s.last() == '.');
        assert(s.drop_last() =~= n + Seq::new((k - 1) as nat, |i: int| '.'));
        lemma_end_dots(n, (k - 1) as nat);
    }
}

/// The name of the device is what is under `Self` and `DNSName`, without the dots at its end.
pub proof fn law_the_name_of_the_device(stdout: &[u8], s: &str, r: Option<String>, d: String)
    requires
        call_ensures(parse_dns_json, (stdout,), r),
        call_ensures(domain_name, (s,), d),
    ensures
        tailnet::json_member(stdout@, "Self"@, "DNSName"@) is None <==> r is None,
        tailnet::json_member(stdout@, "Self"@, "DNSName"@) == Some(s@) ==> r is Some && r->0@ == d@,
{
}

// ---------------------------------------------------------------------------
// Policies and topics
// ---------------------------------------------------------------------------
/// A policy has a name, and is read back from it; no other text names one.
pub proof fn law_policies_are_read_back(
    p: Policy,
    s: &str,
    n: &'static str,
    r: Result<Policy, UnknownPolicy>,
)
    requires
        call_ensures(Policy::as_str, (p,), n),
        call_ensures(Policy::parse, (s,), r),
    ensures
        p is HostOnly ==> n@ == "host_only"@,
        p is StreamOnly ==> n@ == "stream_only"@,
        p is Mirror ==> n@ == "mirror"@,
        s@ == n@ ==> r is Ok && r->Ok_0 == p,
        s@ != "host_only"@ && s@ != "stream_only"@ && s@ != "mirror"@ ==> r is Err && r->Err_0.text@
            == s@,
{
    lemma_names();
    if s@ == n@ {
        assert(s@ == crate::policy::policy_name(p));
    }
}

/// What each policy allows, which one holds by default, and what is said of an unknown one.
pub proof fn law_what_policies_allow(
    p: Policy,
    d: bool,
    s: bool,
    other: Policy,
    e: &UnknownPolicy,
    m: String,
)
    requires
        call_ensures(Policy::allows_download, (p,), d),
        call_ensures(Policy::allows_stream, (p,), s),
        call_ensures(<Policy as Default>::default, (), other),
        call_ensures(UnknownPolicy::message, (e,), m),
    ensures
        p is HostOnly ==> !d && !s,
        p is StreamOnly ==> !d && s,
        p is Mirror ==> d && s,
        other is StreamOnly,
        m@ == "policy desconocida: "@ + e.text@,
{
}

/// The topic of a library is the digest of a fixed prefix and its name: the same for the same
/// name.
pub proof fn law_the_topic_of_a_library(
    a: &str,
    b: &str,
    x: Vec<u8>,
    y: Vec<u8>,
    s: [u8; 32],
    t: [u8; 32],
)
    requires
        call_ensures(topic_input, (a,), x),
        call_ensures(topic_input, (b,), y),
        call_ensures(topic_for, (a,), s),
        call_ensures(topic_for, (b,), t),
    ensures
        x@ == encode_utf8("p2p-nube/v1/"@) + encode_utf8(a@),
        s@ == node::sha256(x@),
        a@ == b@ <==> x@ == y@,
        a@ == b@ ==> s@ == t@,
{
    if x@ == y@ {
        node::law_topic_inputs_differ(a@, b@);
    }
}

} // verus!
