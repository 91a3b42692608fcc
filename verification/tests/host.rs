use p2p_nube::node::{topic_for, topic_input};
use p2p_nube::numbers::{decimal, decimal_wide, hexadecimal, parse_u64, parse_up_to};
use p2p_nube::options::{
    cert_args, cert_failure_message, parse_options, reuses_cert, served_domain, served_url,
    split_media_roots, OptionsError, DEV_PORT_DEFAULT,
};
use p2p_nube::order::text_not_after;
use p2p_nube::tailnet::{domain_name, parse_dns_json, parse_ipv4_out, serve_hint, TailnetError};
use p2p_nube::text::{clip_trimmed, ends_with, same, starts_with};
use p2p_nube::vault::{guess_mime, Module, VaultModule};
use p2p_nube::Policy;

fn args(v: &[&str]) -> Vec<String> {
    v.iter().map(|s| s.to_string()).collect()
}

#[test]
fn policies_by_name() {
    for p in [Policy::HostOnly, Policy::StreamOnly, Policy::Mirror] {
        assert_eq!(Policy::parse(p.as_str()).ok(), Some(p));
    }
    assert_eq!(Policy::parse("Mirror").unwrap_err().message(), "policy desconocida: Mirror");
    assert_eq!(Policy::default(), Policy::StreamOnly);
    assert!(Policy::Mirror.allows_download() && Policy::Mirror.allows_stream());
    assert!(!Policy::StreamOnly.allows_download() && Policy::StreamOnly.allows_stream());
    assert!(!Policy::HostOnly.allows_download() && !Policy::HostOnly.allows_stream());
}

#[test]
fn topics_are_digests_of_the_name() {
    assert_eq!(topic_input("anime"), b"p2p-nube/v1/anime");
    assert_eq!(
        topic_for("anime"),
        [
            39, 244, 22, 168, 206, 205, 156, 142, 149, 180, 20, 122, 152, 76, 68, 141, 127, 32,
            144, 58, 66, 49, 171, 120, 7, 112, 229, 107, 144, 180, 78, 191
        ]
    );
    assert_ne!(topic_for("anime"), topic_for("cine"));
}

#[test]
fn addresses_of_the_tailnet() {
    assert_eq!(parse_ipv4_out(b" 100.64.0.1\n", b"", true).ok().as_deref(), Some("100.64.0.1"));
    match parse_ipv4_out(b"", b"no \xffva", false) {
        Err(TailnetError::Failed(e)) => assert_eq!(e, "no \u{fffd}va"),
        _ => panic!("other result"),
    }
    match parse_ipv4_out(b"100.1.1.1", "caído".as_bytes(), false) {
        Err(e) => assert_eq!(e.message(), "`tailscale ip -4` falló: caído"),
        Ok(_) => panic!("an address"),
    }
    match parse_ipv4_out(b"\xff", b"", true) {
        Err(e) => assert_eq!(e.message(), "invalid utf-8 sequence of 1 bytes from index 0"),
        Ok(_) => panic!("an address"),
    }
    match parse_ipv4_out(b" \n", b"", true) {
        Err(e) => assert_eq!(e.message(), "sin IP tailnet (¿tailscale down?)"),
        Ok(_) => panic!("an address"),
    }
}

#[test]
fn names_of_the_tailnet() {
    let status = br#"{"Version":"1","Self":{"DNSName":"pc.tailxxx.ts.net.","ID":"n1"}}"#;
    assert_eq!(parse_dns_json(status).as_deref(), Some("pc.tailxxx.ts.net"));
    for none in [&b"{}"[..], b"[", br#"{"Self":{}}"#, br#"{"Self":{"DNSName":5}}"#, br#"{"DNSName":"x"}"#] {
        assert_eq!(parse_dns_json(none), None);
    }
    assert_eq!(domain_name("a.b..."), "a.b");
    assert_eq!(domain_name("..."), "");
    assert_eq!(
        serve_hint(8080),
        "tailscale serve --bg 8080   # expone https://<magicdns>/ -> 127.0.0.1:8080\n\
         tailscale cert <magicdns>           # cert local si prefieres tu propio reverse-proxy"
    );
}

#[test]
fn command_lines_are_read() {
    let o = parse_options(&args(&[])).ok().unwrap();
    assert_eq!((o.file, o.data_dir.as_str(), o.policy), (None, "./data-nodo", Policy::StreamOnly));
    assert_eq!((o.port, o.bind, o.domain, o.http_local), (DEV_PORT_DEFAULT, None, None, false));
    let o = parse_options(&args(&[
        "v.mp4", "--data-dir", "/d", "--policy", "mirror", "--port", "80", "--bind", "::1",
        "--domain", "x.y", "--http-local", "--media-roots", "/a,/b", "--port", "81",
    ]))
    .ok()
    .unwrap();
    assert_eq!((o.file.as_deref(), o.data_dir.as_str(), o.policy), (Some("v.mp4"), "/d", Policy::Mirror));
    assert_eq!((o.port, o.bind.as_deref(), o.domain.as_deref()), (81, Some("::1"), Some("x.y")));
    assert_eq!((o.http_local, o.media_roots.as_deref()), (true, Some("/a,/b")));
    for bad in [
        &["--port"][..], &["--port", "65536"], &["--port", "x"], &["--nope"], &["a", "b"],
        &["--http-local", "x"], &["--data-dir"],
    ] {
        assert!(matches!(parse_options(&args(bad)), Err(OptionsError::Usage)), "{bad:?}");
    }
    match parse_options(&args(&["--policy", "todo", "--nope"])) {
        Err(OptionsError::Policy(e)) => assert_eq!(e.message(), "policy desconocida: todo"),
        _ => panic!("other result"),
    }
}

#[test]
fn folders_in_a_list() {
    assert_eq!(split_media_roots(" /a ,, /b c,"), ["/a", "/b c"]);
    assert!(split_media_roots("").is_empty());
    assert!(split_media_roots(" , ").is_empty());
}

#[test]
fn certificates_are_reused_for_sixty_days() {
    assert!(reuses_cert(true, true, Some(60 * 86400 - 1)));
    assert!(!reuses_cert(true, true, Some(60 * 86400)));
    assert!(!reuses_cert(true, true, None));
    assert!(!reuses_cert(false, true, Some(0)) && !reuses_cert(true, false, Some(0)));
    assert_eq!(
        cert_args("c", "k", "d"),
        ["cert", "--cert-file", "c", "--key-file", "k", "--min-validity", "720h", "d"]
    );
    assert_eq!(
        cert_failure_message("d", b" mal \xff\n", "c", "k"),
        "`tailscale cert` falló para d: mal \u{fffd}\nEjecuta UNA vez (pide contraseña) y reintenta:\n\
         sudo tailscale cert --cert-file c --key-file k d\nsudo chown $USER:$USER c k"
    );
    assert_eq!(served_domain(Some("a"), Some("b")), "a");
    assert_eq!(served_domain(None, Some("b")), "b");
    assert_eq!(served_domain(None, None), "uriel-1.tail7345d6.ts.net");
    assert_eq!(served_url("a.b", 37491), "https://a.b:37491");
}

#[test]
fn the_vault_declares_itself() {
    let m = VaultModule::manifest();
    assert_eq!((m.id.as_str(), m.name.as_str(), m.version.as_str()), ("vault", "Baúl + streaming", "0.1.0"));
    assert_eq!(m.policies, [Policy::HostOnly, Policy::StreamOnly, Policy::Mirror]);
    for (p, t) in [
        ("a.mkv", "video/x-matroska"), ("a.mp4", "video/mp4"), ("a.webm", "video/webm"),
        ("a.avi", "video/x-msvideo"), ("a.MKV", "application/octet-stream"),
    ] {
        assert_eq!(guess_mime(p), t);
    }
}

#[test]
fn numbers_as_text() {
    for n in [0, 7, 10, 255, u64::MAX] {
        assert_eq!(decimal(n), n.to_string());
        assert_eq!(hexadecimal(n), format!("{n:x}"));
        assert_eq!(parse_u64(&decimal(n)), Some(n));
    }
    assert_eq!(decimal_wide(u128::MAX), u128::MAX.to_string());
    assert_eq!(parse_u64("+007"), Some(7));
    for bad in ["", "+", "-1", " 1", "1 ", "0x1", "18446744073709551616", "٣"] {
        assert_eq!(parse_u64(bad), None, "{bad}");
    }
    assert_eq!(parse_up_to("65535", 65535), Some(65535));
    assert_eq!(parse_up_to("65536", 65535), None);
}

#[test]
fn texts_are_compared_and_clipped() {
    assert!(same("é", "é") && !same("a", "b") && !same("a", "aa"));
    assert!(starts_with("abc", "ab") && !starts_with("ab", "abc") && starts_with("x", ""));
    assert!(ends_with("abc", "bc") && !ends_with("abc", "ab") && !ends_with("c", "bc"));
    assert_eq!(clip_trimmed("\u{3000} añb \t", 2), "añ");
    assert_eq!(clip_trimmed(" ab ", 9), "ab");
    assert!(text_not_after("a", "b") && text_not_after("a", "a") && text_not_after("a", "aa"));
    assert!(!text_not_after("é", "z") && !text_not_after("aa", "a"));
}
