use p2p_nube::library::{
    display_base_for, sanitize_filename, staged_meta, PathProblem, Resolved, StagedProblem,
};
use p2p_nube::mime::{guess_mime, is_previewable_mime};
use p2p_nube::natural::{natural_key, natural_order};
use p2p_nube::paths::{extension, file_name, is_within};
use p2p_nube::scan::{is_video, Entry, Scan, Step, MAX_FOUND};
use p2p_nube::vault;
use p2p_nube::{Db, Library, Policy, TempStagedFile, FILE_KIND_FILE, FILE_KIND_MEDIA};

fn lib() -> Library {
    Library::new("test-host".into(), "/tmp/staging".into())
}

fn file_at(abs: &str, size: u64) -> Resolved {
    Resolved { abs: abs.as_bytes().to_vec(), is_file: true, is_dir: false, size }
}

#[test]
fn add_y_remove_des_pinea() {
    let lib = lib();
    let mut db = Db::open_in_memory(1);
    let at = file_at("/d/cap07.mkv", 14);
    let size = lib.fs_meta("/d/cap07.mkv", Some(&at), false).unwrap();
    let hash = "c".repeat(64);
    let done = lib.add_file(&mut db, "/d/cap07.mkv", None, size, hash.clone(), "pin-1".into());
    let added = done.added;
    assert_eq!(added.path, "cap07.mkv");
    assert_eq!(added.mime, "video/x-matroska");
    assert_eq!(done.unpin, None);
    assert_eq!(db.list_files().len(), 1);
    // The pin is noted, to be taken away later.
    assert!(!db.get_by_hash(&added.hash).unwrap().tag.is_empty());
    let gone = lib.remove_by_hash(&mut db, &added.hash);
    assert!(gone.existed);
    assert_eq!((gone.unpin, gone.unpublish), (vec!["pin-1".to_string()], vec!["cap07.mkv".to_string()]));
    assert!(db.list_files().is_empty());
    let gone = lib.remove_by_hash(&mut db, &added.hash);
    assert!(!gone.existed && gone.unpin.is_empty());
}

fn entry(id: usize, name: &str, is_dir: bool) -> Entry {
    Entry { id, name: name.into(), is_dir, is_file: !is_dir }
}

#[test]
fn scan_ordena_natural_y_filtra() {
    let names = ["cap10.mkv", "cap2.mkv", "cap1.mkv", "nota.txt", "clip.mp4"];
    let folder = || -> Vec<Entry> { names.iter().enumerate().map(|(i, n)| entry(i, n, false)).collect() };
    let mut scan = Scan::new(false);
    scan.opened(folder());
    assert_eq!(scan.advance(), Step::Done);
    let found: Vec<_> = scan.candidates().into_iter().map(|i| names[i]).collect();
    assert_eq!(found, vec!["cap1.mkv", "cap2.mkv", "cap10.mkv", "clip.mp4"]);
    // Going into folders is optional.
    let with_sub = || {
        let mut v = folder();
        v.push(entry(5, "CD1", true));
        v
    };
    let mut scan = Scan::new(false);
    scan.opened(with_sub());
    assert_eq!(scan.advance(), Step::Done);
    assert_eq!(scan.candidates().len(), 4);
    let mut scan = Scan::new(true);
    scan.opened(with_sub());
    assert_eq!(scan.advance(), Step::Open(5));
    scan.opened(vec![entry(6, "extra.mkv", false)]);
    assert_eq!(scan.advance(), Step::Done);
    assert_eq!(scan.candidates().len(), 5);
}

#[test]
fn a_scan_stops_at_too_many_files() {
    let mut scan = Scan::new(true);
    let mut many: Vec<Entry> = (0..MAX_FOUND).map(|i| entry(i, &format!("a{i}.mkv"), false)).collect();
    many.push(entry(MAX_FOUND, "b", true));
    many.push(entry(MAX_FOUND + 1, "c.mkv", false));
    many.push(entry(MAX_FOUND + 2, "d", true));
    scan.opened(many);
    assert_eq!(scan.advance(), Step::Open(MAX_FOUND));
    scan.opened(vec![]);
    assert_eq!(scan.advance(), Step::TooMany);
    assert_eq!(Step::TooMany.problem().as_deref(), Some("demasiados archivos (límite 2000)"));
    assert_eq!(Step::Done.problem(), None);
}

#[test]
fn respeta_media_roots() {
    let lib = lib().with_media_roots(vec![b"/srv/media".to_vec()]);
    let fuera = file_at("/srv/other/a.mkv", 1);
    assert_eq!(lib.fs_meta("/srv/other/a.mkv", Some(&fuera), false), Err(PathProblem::Outside));
    assert_eq!(lib.fs_meta("/srv/other/a.mkv", Some(&fuera), true), Err(PathProblem::Outside));
    let dentro = file_at("/srv/media/a.mkv", 1);
    assert_eq!(lib.fs_meta("/srv/media/a.mkv", Some(&dentro), false), Ok(1));
    let vecina = file_at("/srv/media2/a.mkv", 1);
    assert_eq!(lib.fs_meta("x", Some(&vecina), false), Err(PathProblem::Outside));
}

#[test]
fn api_escritura_respeta_media_roots() {
    let lib = lib().with_media_roots(vec![b"/srv/media".to_vec()]);
    let fuera = file_at("/srv/a.mkv", 1);
    let problem = lib.fs_meta("/srv/a.mkv", Some(&fuera), false).unwrap_err();
    let reply = p2p_nube::gateway::not_added_reply(problem.message("a.mkv", "/srv/a.mkv"));
    assert_eq!(reply.status, 400);
    match reply.body {
        p2p_nube::gateway::Body::Error(m) => assert!(m.contains("permitidas")),
        _ => panic!("no error"),
    }
}

#[test]
fn storage_acepta_cualquier_archivo() {
    let lib = lib();
    let mut db = Db::open_in_memory(1);
    for (name, mime) in [
        ("manual.pdf", "application/pdf"),
        ("fotos.zip", "application/zip"),
        ("notas.txt", "text/plain; charset=utf-8"),
        ("imagen.jpg", "image/jpeg"),
        ("binario.raro", "application/octet-stream"),
    ] {
        let abs = format!("/d/{name}");
        let size = lib.fs_meta(&abs, Some(&file_at(&abs, 20)), true).unwrap();
        let added = lib.add_storage_file(&mut db, &abs, size, format!("h-{name}"), "t".into()).added;
        assert_eq!(added.path, name);
        assert_eq!(added.mime, mime);
        let row = db.get_by_path(name).expect("debe estar en db");
        assert_eq!(row.kind, FILE_KIND_FILE);
        assert!(row.policy.allows_download());
    }
    // Nothing to stream, five to store.
    assert!(db.list_files_by_kind(FILE_KIND_MEDIA).is_empty());
    assert_eq!(db.list_files_by_kind(FILE_KIND_FILE).len(), 5);
    assert_eq!(guess_mime("a.PDF"), "application/pdf");
    assert!(is_previewable_mime("application/pdf"));
    assert!(is_previewable_mime("image/png"));
    assert!(!is_previewable_mime("application/zip"));
    assert!(!is_previewable_mime("application/octet-stream"));
}

#[test]
fn paths_are_checked_in_turn() {
    let lib = lib();
    let dir = Resolved { abs: b"/d".to_vec(), is_file: false, is_dir: true, size: 0 };
    assert_eq!(lib.fs_meta("  ", None, false), Err(PathProblem::Blank));
    assert_eq!(lib.fs_meta("/x", None, false), Err(PathProblem::Missing));
    assert_eq!(lib.fs_meta("/d", Some(&dir), false), Err(PathProblem::NotAFile));
    assert_eq!(lib.fs_meta("/e", Some(&file_at("/e", 0)), true), Err(PathProblem::EmptyFile));
    assert_eq!(lib.fs_meta("/e", Some(&file_at("/e", 0)), false), Ok(0));
    assert_eq!(lib.scan_allowed("", None), Err(PathProblem::Blank));
    assert_eq!(lib.scan_allowed("/x", None), Err(PathProblem::Missing));
    assert_eq!(lib.scan_allowed("/e", Some(&file_at("/e", 1))), Err(PathProblem::NotAFolder));
    assert_eq!(lib.scan_allowed("/d", Some(&dir)), Ok(()));
    for (p, m) in [
        (PathProblem::Blank, "path vacío"),
        (PathProblem::Missing, "no existe la ruta: /x"),
        (PathProblem::Outside, "ruta fuera de las carpetas permitidas: /abs"),
        (PathProblem::NotAFile, "no es un archivo: /abs"),
        (PathProblem::NotAFolder, "no es una carpeta: /abs"),
        (PathProblem::EmptyFile, "el archivo está vacío: /abs"),
    ] {
        assert_eq!(p.message(" /x ", "/abs"), m);
    }
    assert_eq!(staged_meta(false, 5), Err(StagedProblem::Missing));
    assert_eq!(staged_meta(true, 0), Err(StagedProblem::Empty));
    assert_eq!(staged_meta(true, 5), Ok(5));
    assert_eq!(StagedProblem::Missing.message(), "subida incompleta: temporal no encontrado");
    assert_eq!(StagedProblem::Empty.message(), "el archivo subido está vacío");
    assert_eq!((lib.endpoint_id(), lib.staging_dir()), ("test-host", "/tmp/staging"));
    let lib = lib.with_staging_dir("/s".into());
    assert_eq!(lib.staging_dir(), "/s");
}

#[test]
fn paths_lie_within_folders_by_component() {
    let within = |p: &str, r: &str| is_within(p.as_bytes(), r.as_bytes());
    assert!(within("/a/b", "/a"));
    assert!(within("/a/b", "/a/"));
    assert!(within("/a", "/a") && within("/a//b/./c", "/a/b"));
    assert!(!within("/ab", "/a") && !within("/a", "/a/b"));
    assert!(!within("/a", "a") && !within("/a", "."));
    assert!(within("/a", "/") && within("/a", ""));
    // What lies below lies below everything above.
    assert!(within("/a/b/c", "/a/b") && within("/a/b", "/a") && within("/a/b/c", "/a"));
}

#[test]
fn names_and_extensions() {
    for (p, n) in [
        ("/a/b.mkv", Some("b.mkv")),
        ("a/", Some("a")),
        ("a/.", Some("a")),
        ("a/..", None),
        ("/", None),
        ("", None),
        (".", None),
        ("x", Some("x")),
    ] {
        assert_eq!(file_name(p).as_deref(), n, "{p}");
    }
    for (p, e) in [
        ("a.tar.gz", Some("gz")),
        (".bashrc", None),
        ("a.", Some("")),
        ("a", None),
        ("/x.y/a", None),
        ("..", None),
    ] {
        assert_eq!(extension(p).as_deref(), e, "{p}");
    }
    assert!(is_video("/x/a.MKV") && is_video("a.mp4") && is_video("a.webm") && is_video("a.Avi"));
    assert!(!is_video("mkv") && !is_video("a.mkv.txt") && !is_video(".mkv"));
    assert_eq!(display_base_for("/media/Anime"), "Anime");
    assert_eq!(display_base_for("/"), "carpeta");
}

#[test]
fn upload_names_are_made_safe() {
    assert_eq!(sanitize_filename("a/b/../video.mp4"), "video.mp4");
    assert_eq!(sanitize_filename("..\\x\\y.mp4"), "..xy.mp4");
    assert_eq!(sanitize_filename("a\0b"), "ab");
    assert_eq!(sanitize_filename("  x  "), "x");
    for raw in ["", "..", "/", "a/..", " . ", "\\", " .. "] {
        assert_eq!(sanitize_filename(raw), "archivo", "{raw}");
    }
    assert_eq!(sanitize_filename(&"é".repeat(300)), "é".repeat(128));
}

#[test]
fn names_are_ordered_naturally() {
    let names: Vec<String> = ["b", "cap10", "Cap2", "cap02", "10", "9", "cap2", "cap"]
        .iter()
        .map(|s| s.to_string())
        .collect();
    let order: Vec<_> = natural_order(&names).into_iter().map(|i| names[i].as_str()).collect();
    assert_eq!(order, ["9", "10", "b", "cap", "cap02", "Cap2", "cap2", "cap10"]);
    assert_eq!(natural_key("a1b").len(), 3);
    assert_eq!(natural_key("").len(), 0);
    let big: Vec<String> = ["x99999999999999999999", "x18446744073709551615", "x5"]
        .iter()
        .map(|s| s.to_string())
        .collect();
    assert_eq!(natural_order(&big), [2, 1, 0]);
}

#[test]
fn media_types_by_name() {
    for (n, m) in [
        ("a.mkv", "video/x-matroska"), ("a.mp4", "video/mp4"), ("a.webm", "video/webm"),
        ("a.avi", "video/x-msvideo"), ("a.mov", "video/quicktime"), ("a.mp3", "audio/mpeg"),
        ("a.oga", "audio/ogg"), ("a.opus", "audio/opus"), ("a.flac", "audio/flac"),
        ("a.wav", "audio/wav"), ("a.m4a", "audio/mp4"), ("a.JPEG", "image/jpeg"),
        ("a.gif", "image/gif"), ("a.webp", "image/webp"), ("a.svg", "image/svg+xml"),
        ("a.tar", "application/x-tar"), ("a.tgz", "application/gzip"),
        ("a.7z", "application/x-7z-compressed"), ("a.rar", "application/vnd.rar"),
        ("a.epub", "application/epub+zip"), ("a.cbz", "application/vnd.comicbook+zip"),
        ("a.cbr", "application/vnd.comicbook-rar"), ("a.iso", "application/x-iso9660-image"),
        ("a.log", "text/plain; charset=utf-8"), ("a.json", "application/json"),
        ("a.csv", "text/csv"), ("a.htm", "text/html"), ("mkv", "application/octet-stream"),
    ] {
        assert_eq!(guess_mime(n), m);
    }
    assert_eq!(guess_mime("ÉPISODE.MKV"), "video/x-matroska");
    assert!(is_previewable_mime("AUDIO/ogg") && is_previewable_mime("Image/PNG"));
    assert!(is_previewable_mime("text/plain") && is_previewable_mime("text/plain; charset=utf-8"));
    for m in ["text/html", "text/csv", "text/plainer", "application/json", "video/mp4", ""] {
        assert!(!is_previewable_mime(m));
    }
}

#[test]
fn the_end_of_a_name_decides() {
    for e in [".mkv", ".webm", ".Jpeg", ".gz", ".tgz", ".7z", ".md", ".htm", ".html"] {
        for p in ["a", "Pokémon", "x.tar", "ΟΔΥΣΣΕΥΣ", "k.mp4", "日本"] {
            assert_eq!(guess_mime(&format!("{p}{e}")), guess_mime(e));
            assert_eq!(guess_mime(&format!("{p}{e}").to_uppercase()), guess_mime(e));
        }
    }
    for n in ["a.mkv2", "mkv", "", "a.", "é", "a.av\u{130}", "a.mk\u{3a3}"] {
        assert_eq!(guess_mime(n), "application/octet-stream");
    }
    // The Kelvin sign is a `k`.
    for n in ["a.m\u{212a}v", "\u{3a3}.M\u{212a}V", "\u{130}.m\u{212a}V"] {
        assert_eq!(guess_mime(n), "video/x-matroska");
    }
    // The case of ASCII letters makes no difference, whatever stands beside them.
    for n in ["é", "日本.mk", "ΟΔΥΣ.mkv", "a.m\u{212a}v", "x.É", "aΣb.gz", "aΣ.Gz"] {
        assert_eq!(guess_mime(&n.to_ascii_uppercase()), guess_mime(n));
        let key = |s: &str| format!("{:?}", natural_key(s));
        assert_eq!(key(&n.to_ascii_uppercase()), key(n));
    }
}

#[test]
fn videos_have_video_types() {
    for p in ["/d/a.mkv", "b.MP4", "é.WebM", "c.d.avi", "e.mkv/.", "f.M\u{212a}v"] {
        assert!(is_video(p));
        assert!(guess_mime(&file_name(p).unwrap()).starts_with("video/"));
    }
    for p in ["a.mov", ".mkv", "a.mkv.txt", "/", "a.av\u{130}", "a.mkvé"] {
        assert!(!is_video(p));
    }
    for p in ["a.mkv", "é.mp4", "x.webm", ".avi"] {
        assert_eq!(vault::guess_mime(p), guess_mime(p));
    }
    for p in ["a.MKV", "a.mov", "mkv"] {
        assert_eq!(vault::guess_mime(p), "application/octet-stream");
    }
}

#[test]
fn replaced_content_is_unpinned() {
    let lib = lib();
    let mut db = Db::open_in_memory(1);
    let add = |db: &mut Db, hash: &str, tag: &str| {
        lib.add_file_with_policy(db, "/d/a.mkv", Some("T1"), 5, hash.into(), tag.into(), Policy::Mirror)
    };
    let first = add(&mut db, "h1", "p1");
    assert_eq!(first.added.path, "T1/a.mkv");
    assert_eq!(first.unpin, None);
    assert_eq!(add(&mut db, "h1", "p1").unpin, None);
    assert_eq!(add(&mut db, "h2", "p2").unpin.as_deref(), Some("p1"));
    let row = db.get_by_path("T1/a.mkv").unwrap();
    assert_eq!((row.hash.as_str(), row.tag.as_str(), row.policy), ("h2", "p2", Policy::Mirror));
    assert_eq!((row.host_id.as_str(), row.kind.as_str()), ("test-host", "media"));
    assert_eq!(lib.add_file(&mut db, "/d/b.mkv", Some(""), 5, "h".into(), "p".into()).added.path, "b.mkv");
}

#[test]
fn shared_content_stays_pinned_until_the_last_file() {
    let lib = lib();
    let mut db = Db::open_in_memory(1);
    lib.add_upload(&mut db, "a.mp4", 5, "h".into(), "pa".into());
    lib.add_storage_upload(&mut db, "x/b.zip", 5, "h".into(), "pb".into());
    assert_eq!(db.get_by_path("b.zip").unwrap().policy, Policy::Mirror);
    let gone = lib.remove_by_path(&mut db, "a.mp4");
    assert!(gone.existed && gone.unpin.is_empty());
    assert_eq!(gone.unpublish, ["a.mp4"]);
    let gone = lib.remove_by_path(&mut db, "b.zip");
    assert_eq!(gone.unpin, ["pb"]);
    let gone = lib.remove_by_path(&mut db, "b.zip");
    assert!(!gone.existed && gone.unpublish.is_empty());
    // By hash, all of them go at once.
    lib.add_upload(&mut db, "a.mp4", 5, "h".into(), "pa".into());
    lib.add_upload(&mut db, "b.mp4", 5, "h".into(), String::new());
    let mut gone = lib.remove_by_hash(&mut db, "h");
    gone.unpublish.sort();
    assert_eq!((gone.unpin, gone.unpublish), (vec!["pa".to_string()], vec!["a.mp4".to_string(), "b.mp4".to_string()]));
    assert_eq!(db.file_count(), 0);
}

#[test]
fn a_received_file_is_left_over_until_it_is_committed() {
    let mut f = TempStagedFile::new("/s/1".into());
    assert_eq!(f.path(), "/s/1");
    assert_eq!(f.leftover(), Some("/s/1"));
    f.commit();
    assert_eq!(f.leftover(), None);
}

#[test]
fn a_scan_of_folders_sees_everything_once() {
    let names = ["b.mkv", "A", "z.txt", "c", "a1.mkv", "B", "b9.mp4", "b10.mp4", "x.avi"];
    let e = |i: usize| entry(i, names[i], ["A", "B", "c"].contains(&names[i]));
    let mut scan = Scan::new(true);
    scan.opened(vec![e(0), e(1), e(2), e(3)]);
    assert_eq!(scan.advance(), Step::Open(1));
    scan.opened(vec![e(4), e(5)]);
    assert_eq!(scan.advance(), Step::Open(5));
    scan.opened(vec![e(6), e(7)]);
    assert_eq!(scan.advance(), Step::Open(3));
    scan.opened(vec![e(8)]);
    assert_eq!(scan.advance(), Step::Done);
    let found: Vec<_> = scan.candidates().into_iter().map(|i| names[i]).collect();
    assert_eq!(found, ["a1.mkv", "b9.mp4", "b10.mp4", "b.mkv", "x.avi"]);
}
