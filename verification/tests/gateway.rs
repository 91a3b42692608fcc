use p2p_nube::gateway::{
    added_reply, api_add_item, api_collection_detail, api_collections, api_create_child,
    api_create_collection, api_delete_collection, api_files, api_info, api_job, api_remove_file,
    api_remove_item, api_rename_file, api_reorder_children, api_reorder_items, api_scan_folder,
    api_update_collection, api_upload_poster, check_poster, received_after, scan_added, scan_failed,
    scan_fits, scan_placed, serve_poster, staged_name, Body, Refusal, Reply, ScanRequest, MAX_UPLOAD,
};
use p2p_nube::hashes::hash_valid;
use p2p_nube::library::PathProblem;
use p2p_nube::posters::{keeps_posters_beside, looks_like_image, poster_extension, safe_id, MAX_POSTER};
use p2p_nube::records::CollectionLine;
use p2p_nube::uploads::{poster_target, Failure, PosterStep, PosterUpload, Upload, UploadStep};
use p2p_nube::{Collection, CollectionDetail, Db, FileRow, Jobs, Library, Policy};

fn media(path: &str, hash: &str) -> FileRow {
    FileRow {
        path: path.into(),
        hash: hash.into(),
        size: 5,
        mime: "video/x-matroska".into(),
        policy: Policy::StreamOnly,
        host_id: "h".into(),
        tag: format!("t{hash}"),
        title: String::new(),
        watched: false,
        kind: "media".into(),
    }
}

/// The headers of a poster.
fn served(file: &str) -> (&'static str, &'static str) {
    let s = serve_poster(file).ok().unwrap();
    (s.content_type, s.cache_control)
}

fn request(title: &str, kind: &str, season: &str, target: &str) -> ScanRequest {
    ScanRequest {
        collection_title: title.into(),
        collection_kind: kind.into(),
        season: season.into(),
        target_collection_id: target.into(),
    }
}

fn collection(r: Reply) -> Collection {
    match r.body {
        Body::Collection(c) => c,
        _ => panic!("no collection"),
    }
}

fn detail(db: &Db, id: &str) -> CollectionDetail {
    let r = api_collection_detail(db, id);
    assert_eq!(r.status, 200);
    match r.body {
        Body::Detail(d) => d,
        _ => panic!("no detail"),
    }
}

fn lines(db: &Db) -> Vec<CollectionLine> {
    match api_collections(db).body {
        Body::Collections(v) => v,
        _ => panic!("no collections"),
    }
}

fn files(db: &Db) -> Vec<FileRow> {
    match api_files(db).body {
        Body::Files(v) => v,
        _ => panic!("no files"),
    }
}

fn error(r: &Reply) -> (u16, &str) {
    match &r.body {
        Body::Error(m) => (r.status, m.as_str()),
        _ => panic!("no error"),
    }
}

#[test]
fn api_colecciones_rename_poster_y_scan_auto() {
    let lib = Library::new("cols-test".into(), "/tmp/s".into());
    let mut db = Db::open_in_memory(1);
    let mut jobs = Jobs::default();
    // A scan that found two videos, into a new collection with a season.
    let req = request("Frieren", "series", "T1", "");
    assert!(scan_fits(&db, &req, 1));
    let start = api_scan_folder(&mut db, &mut jobs, 2, &req, 1, 2);
    let (job_id, cid) = match start.reply.body {
        Body::ScanStarted { job_id, found, collection_id } => {
            assert_eq!((start.reply.status, found), (202, 2));
            (job_id, collection_id.unwrap())
        }
        _ => panic!("no scan"),
    };
    assert!(!cid.is_empty());
    for (i, n) in ["cap01.mkv", "cap02.mkv"].iter().enumerate() {
        let added = lib
            .add_file(&mut db, &format!("/d/Dir/{n}"), Some("Dir"), 5, format!("h{i}"), format!("p{i}"))
            .added;
        scan_placed(&mut db, start.target.as_deref(), i as i64 + 1, &added.path);
        scan_added(&mut jobs, &job_id, added.path);
    }
    match api_job(&jobs, &job_id).body {
        Body::Job(j) => assert_eq!((j.status.as_str(), j.done), ("done", 2)),
        _ => panic!("no job"),
    }
    // The root has one child "T1" with two entries.
    let det = detail(&db, &cid);
    assert_eq!(det.children.len(), 1);
    assert_eq!(det.children[0].collection.title, "T1");
    assert_eq!(det.children[0].items.len(), 2);

    let kid = det.children[0].collection.id.clone();
    let r = api_update_collection(&mut db, &kid, Some("Temporada 1"), None, None);
    assert_eq!(r.status, 200);
    // A root with children takes no entries.
    let r = api_add_item(&mut db, &cid, "x", "", "", 0);
    assert_eq!(r.status, 400);

    // Only the title shown changes.
    let first_path = det.children[0].items[0].file_path.clone();
    let r = api_rename_file(&mut db, &first_path, "Capítulo uno");
    assert_eq!(r.status, 200);
    let row = files(&db).into_iter().find(|f| f.path == first_path).unwrap();
    assert_eq!(row.title, "Capítulo uno");

    // A poster elsewhere on the web.
    let r = api_update_collection(&mut db, &cid, None, Some("https://example.com/p.jpg"), None);
    assert_eq!(r.status, 200);

    // A poster of one's own takes its place.
    let png: Vec<u8> = vec![
        0x89, b'P', b'N', b'G', 0x0D, 0x0A, 0x1A, 0x0A, 0x00, 0x00, 0x00, 0x0D, 0x49, 0x48,
        0x44, 0x52, 0x00, 0x00, 0x00, 0x01, 0x00, 0x00, 0x00, 0x01, 0x08, 0x02, 0x00, 0x00,
        0x00, 0x90, 0x77, 0x53, 0xDE, 0x00, 0x00, 0x00, 0x0C, 0x49, 0x44, 0x41, 0x54, 0x08,
        0xD7, 0x63, 0xF8, 0xFF, 0xFF, 0x3F, 0x00, 0x05, 0xFE, 0x02, 0xFE, 0xDC, 0xCC, 0x59,
        0xE7, 0x00, 0x00, 0x00, 0x00, 0x49, 0x45, 0x4E, 0x44, 0xAE, 0x42, 0x60, 0x82,
    ];
    let name = check_poster(&cid, "p.png", &png).unwrap();
    let r = api_upload_poster(&mut db, &cid, &name);
    assert_eq!(r.status, 200);
    match r.body {
        Body::Poster(p) => assert!(p.starts_with("/posters/")),
        _ => panic!("no poster"),
    }
    assert_eq!(served(&name), ("image/png", "public, max-age=86400"));
    let c = db.get_collection(&cid).unwrap();
    assert_eq!((c.poster_file, c.poster_url), (format!("/posters/{name}"), String::new()));

    // Moving an entry takes it out of the first collection.
    let c2 = collection(api_create_collection(&mut db, "movie", "Akira", "", 9));
    let r = api_add_item(&mut db, &c2.id, &first_path, "", "Film", 0);
    assert_eq!(r.status, 200);
    assert_eq!(detail(&db, &cid).children[0].items.len(), 1);
    // Removing the root removes the child; the file stays listed.
    let r = api_delete_collection(&mut db, &cid);
    assert_eq!(r.status, 200);
    assert!(db.get_collection(&kid).is_none());
    assert!(files(&db).iter().any(|f| f.path == first_path));
}

#[test]
fn api_scan_en_coleccion_existente() {
    let lib = Library::new("scan-exist".into(), "/tmp/s".into());
    let mut db = Db::open_in_memory(1);
    let mut jobs = Jobs::default();
    let root = db.create_collection("series", "Frieren", "", 1).unwrap();
    let t1 = db.create_collection("season", "Temporada 1", &root.id, 2).unwrap();
    let start = api_scan_folder(&mut db, &mut jobs, 2, &request("", "", "", &t1.id), 3, 4);
    match start.reply.body {
        Body::ScanStarted { collection_id, .. } => assert_eq!(collection_id.unwrap(), root.id),
        _ => panic!("no scan"),
    }
    assert_eq!(start.target.as_deref(), Some(t1.id.as_str()));
    for (i, n) in ["cap03.mkv", "cap04.mkv"].iter().enumerate() {
        let added = lib
            .add_file(&mut db, &format!("/d/{n}"), Some("d"), 5, format!("h{i}"), format!("p{i}"))
            .added;
        scan_placed(&mut db, start.target.as_deref(), i as i64 + 1, &added.path);
        scan_added(&mut jobs, &start.job_id, added.path);
    }
    // Nothing new was made.
    let all = lines(&db);
    assert_eq!(all.len(), 2);
    let line = all.iter().find(|l| l.collection.id == root.id).unwrap();
    assert_eq!((line.items, line.children), (2, 1));
    assert_eq!(detail(&db, &t1.id).items.len(), 2);
    // A root with children is refused: a season has to be chosen.
    let r = api_scan_folder(&mut db, &mut jobs, 2, &request("", "", "", &root.id), 5, 6).reply;
    assert_eq!(error(&r), (400, "elige una temporada o película dentro de la serie"));
    // So is one that does not exist.
    let r = api_scan_folder(&mut db, &mut jobs, 2, &request("", "", "", "c_nope"), 7, 8).reply;
    assert_eq!(error(&r), (400, "la colección destino no existe"));
}

#[test]
fn scans_without_files_or_without_a_target() {
    let mut db = Db::open_in_memory(1);
    let mut jobs = Jobs::default();
    let start = api_scan_folder(&mut db, &mut jobs, 0, &request("Serie", "", "", ""), 1, 2);
    match start.reply.body {
        Body::ScanStarted { job_id, found, collection_id } => {
            assert_eq!((job_id.as_str(), found, collection_id), ("0", 0, None))
        }
        _ => panic!("no scan"),
    }
    assert!(lines(&db).is_empty());
    let start = api_scan_folder(&mut db, &mut jobs, 1, &request(" ", "", "", " "), 1, 2);
    assert_eq!(start.target, None);
    match start.reply.body {
        Body::ScanStarted { collection_id, .. } => assert_eq!(collection_id.as_deref(), Some("")),
        _ => panic!("no scan"),
    }
    scan_failed(&mut jobs, &start.job_id, "/d/a.mkv", "no existe");
    assert_eq!(jobs.get(&start.job_id).unwrap().errors, ["a.mkv: no existe"]);
    let start = api_scan_folder(&mut db, &mut jobs, 1, &request("Peli", "film", "Parte 1", ""), 1, 2);
    assert_eq!(db.get_collection(&start.target.unwrap()).unwrap().kind, "movie");
    let start = api_scan_folder(&mut db, &mut jobs, 1, &request("Serie", "", "", ""), 3, 4);
    assert_eq!(db.get_collection(&start.target.unwrap()).unwrap().kind, "series");
}

#[test]
fn api_reorden_items_y_children() {
    let mut db = Db::open_in_memory(1);
    for (p, h) in [("e01.mkv", "a1"), ("e02.mkv", "a2")] {
        db.upsert_file(&media(p, h));
    }
    let sid = collection(api_create_collection(&mut db, "series", "Re:Zero", "", 1)).id;
    let t1 = api_create_child(&mut db, &sid, "season", "T1", 2);
    assert_eq!(t1.status, 201);
    let t1id = collection(t1).id;
    let t2id = collection(api_create_child(&mut db, &sid, "movie", "Peli", 3)).id;
    for p in ["e01.mkv", "e02.mkv"] {
        assert_eq!(api_add_item(&mut db, &t1id, p, "", "", 0).status, 200);
    }
    let r = api_reorder_items(&mut db, &t1id, &["e02.mkv".to_string(), "e01.mkv".to_string()]);
    assert_eq!(r.status, 200);
    let r = api_reorder_children(&mut db, &sid, &[t2id.clone(), t1id.clone()]);
    assert_eq!(r.status, 200);
    assert_eq!(detail(&db, &sid).children[0].collection.id, t2id);
    assert_eq!(detail(&db, &t1id).items[0].file_path, "e02.mkv");
    // A film holds one file.
    assert_eq!(api_add_item(&mut db, &t2id, "e01.mkv", "", "", 0).status, 200);
    assert_eq!(api_add_item(&mut db, &t2id, "e02.mkv", "", "", 0).status, 400);
}

#[test]
fn api_biblioteca_vacia_arranque_sin_archivo() {
    let db = Db::open_in_memory(1);
    assert_eq!(files(&db).len(), 0);
}

#[test]
fn api_add_scan_y_remove_desde_loopback() {
    let lib = Library::new("escritura-test".into(), "/tmp/s".into());
    let mut db = Db::open_in_memory(1);
    let mut jobs = Jobs::default();
    let h = |n: u8| -> String { format!("{n:064x}") };
    let a = lib.add_file(&mut db, "/d/cap01.mkv", None, 5, h(1), "p1".into()).added;
    match added_reply(a).body {
        Body::File(v) => assert_eq!(v.mime, "video/x-matroska"),
        _ => panic!("no file"),
    }
    let start = api_scan_folder(&mut db, &mut jobs, 3, &request("", "", "", ""), 1, 2);
    let job_id = start.job_id;
    for (i, n) in ["cap01.mkv", "cap02.mkv", "cap10.mkv"].iter().enumerate() {
        let a = lib.add_file(&mut db, &format!("/d/{n}"), Some("d"), 5, h(i as u8 + 1), format!("q{i}")).added;
        scan_placed(&mut db, None, i as i64 + 1, &a.path);
        scan_added(&mut jobs, &job_id, a.path);
    }
    match api_job(&jobs, &job_id).body {
        Body::Job(j) => {
            assert_eq!((j.status.as_str(), j.done), ("done", 3));
            assert!(j.errors.is_empty());
        }
        _ => panic!("no job"),
    }
    assert!(files(&db).len() >= 4);
    let hash = files(&db)[0].hash.clone();
    let r = api_remove_file(&lib, &mut db, &hash);
    assert_eq!(r.reply.status, 200);
    assert_eq!(r.removal.unwrap().unpin.len(), 2);
    assert!(!files(&db).iter().any(|f| f.hash == hash));
    let r = api_remove_file(&lib, &mut db, &hash);
    assert_eq!(error(&r.reply), (404, "hash no listado"));
    let r = api_remove_file(&lib, &mut db, "abc");
    assert_eq!(error(&r.reply), (400, "hash inválido"));
    assert!(r.removal.is_none());
    let r = p2p_nube::gateway::not_added_reply(PathProblem::Missing.message("/no/existe.mkv", ""));
    assert_eq!(error(&r), (400, "no existe la ruta: /no/existe.mkv"));
}

#[test]
fn api_upload_recibe_archivo_del_navegador() {
    let lib = Library::new("upload-test".into(), "/tmp/s".into());
    let mut db = Db::open_in_memory(1);
    let data = b"contenido-falso-de-video";
    let mut upload = match Upload::next(Some((Some("file"), Some("subido.mp4"))), lib.staging_dir(), 7, 1) {
        UploadStep::Receive(u) => u,
        _ => panic!("not received"),
    };
    assert!(upload.piece(data.len() as u64).is_none());
    let added =
        lib.add_upload(&mut db, upload.name(), data.len() as u64, "h".into(), "p".into()).added;
    let r = upload.finish(Ok(added));
    assert_eq!(r.status, 200);
    match r.body {
        Body::File(v) => assert_eq!((v.path.as_str(), v.mime.as_str()), ("subido.mp4", "video/mp4")),
        _ => panic!("no file"),
    }
    assert_eq!(upload.leftover(), None);
    assert!(files(&db).iter().any(|f| f.path == "subido.mp4"));
    // A request without the field `file`.
    assert!(matches!(Upload::next(Some((Some("otro"), None)), "/tmp/s", 8, 2), UploadStep::Skip));
    match Upload::next(None, "/tmp/s", 8, 3) {
        UploadStep::Answer(r) => assert_eq!(r.status, 400),
        _ => panic!("received"),
    }
}

#[test]
fn fields_are_changed_one_after_the_other() {
    let mut db = Db::open_in_memory(1);
    let c = collection(api_create_collection(&mut db, "series", "A", "", 1));
    let r = api_update_collection(&mut db, &c.id, Some("B"), Some("/posters/x.png"), Some("film"));
    let c2 = collection(r);
    assert_eq!((c2.title.as_str(), c2.poster_url.as_str(), c2.kind.as_str()), ("B", "/posters/x.png", "movie"));
    // The first refusal stops; what came before stays.
    let r = api_update_collection(&mut db, &c.id, Some("C"), Some("ftp:"), Some("series"));
    assert_eq!(error(&r), (400, "URL de portada inválida (http(s):// o /posters/…)"));
    let now = db.get_collection(&c.id).unwrap();
    assert_eq!((now.title.as_str(), now.kind.as_str()), ("C", "movie"));
    let r = api_update_collection(&mut db, &c.id, None, None, Some("season"));
    assert_eq!(error(&r), (400, "tipo inválido para este nivel"));
    assert_eq!(api_update_collection(&mut db, &c.id, None, None, None).status, 200);
    let r = api_update_collection(&mut db, "no", None, None, None);
    assert_eq!(error(&r), (404, "colección no existe"));
    let r = api_update_collection(&mut db, "no", Some("T"), None, None);
    assert_eq!(error(&r), (404, "colección no existe"));
}

#[test]
fn what_is_missing_is_answered() {
    let mut db = Db::open_in_memory(1);
    let jobs = Jobs::default();
    assert_eq!(error(&api_rename_file(&mut db, "x", "t")), (404, "archivo no listado"));
    assert_eq!(error(&api_collection_detail(&db, "x")), (404, "colección no existe"));
    assert_eq!(error(&api_delete_collection(&mut db, "x")), (404, "colección no existe"));
    assert_eq!(error(&api_remove_item(&mut db, "x", "y")), (404, "item no existe"));
    assert_eq!(error(&api_job(&jobs, "9")), (404, "job desconocido"));
    assert_eq!(error(&api_create_collection(&mut db, "", " ", "", 1)), (400, "título vacío"));
    assert_eq!(error(&api_create_child(&mut db, "x", "", "T", 1)), (400, "la colección padre no existe"));
    assert_eq!(error(&api_reorder_items(&mut db, "x", &[])), (400, "colección no existe"));
    assert_eq!(error(&api_reorder_children(&mut db, "x", &[])), (400, "colección no existe"));
    db.upsert_file(&media("a", "h"));
    let c = collection(api_create_collection(&mut db, "", "S", "", 2)).id;
    api_add_item(&mut db, &c, "a", "", "", 0);
    assert!(matches!(api_remove_item(&mut db, &c, "a").body, Body::Removed));
    match api_info(&db, "abc123", "0.1.0").body {
        Body::Info { endpoint_id, files, version } => {
            assert_eq!((endpoint_id.as_str(), files, version.as_str()), ("abc123", 1, "0.1.0"))
        }
        _ => panic!("no info"),
    }
    for (r, status, text) in [
        (Refusal::PosterTooLarge, 413, "portada demasiado grande (tope 10 MB)"),
        (Refusal::PosterEmpty, 400, "portada vacía"),
        (Refusal::PosterNotImage, 400, "la portada debe ser JPG/PNG/WebP"),
        (Refusal::BadId, 400, "id inválido"),
        (Refusal::NoPosterField, 400, "falta el campo `poster` (multipart/form-data)"),
        (Refusal::UploadTooLarge, 413, "archivo demasiado grande (tope 8 GiB)"),
        (Refusal::NoFileField, 400, "falta el campo `file` (multipart/form-data)"),
    ] {
        assert_eq!(error(&r.reply()), (status, text));
    }
}

#[test]
fn posters_are_checked() {
    let jpg = [0xFF, 0xD8, 0xFF, 0];
    assert_eq!(check_poster("c1-2", "x", &jpg).unwrap(), "c1-2.jpg");
    assert_eq!(check_poster("c1", "X.WEBP", &jpg).unwrap(), "c1.webp");
    assert_eq!(check_poster("c1", "x.png", &[]), Err(Refusal::PosterEmpty));
    assert_eq!(check_poster("c1", "x.png", b"GIF89a"), Err(Refusal::PosterNotImage));
    assert_eq!(check_poster("../é", "x.png", &jpg), Err(Refusal::BadId));
    let mut big = vec![0u8; MAX_POSTER as usize + 1];
    big[..3].copy_from_slice(&[0xFF, 0xD8, 0xFF]);
    assert_eq!(check_poster("c1", "x.png", &big), Err(Refusal::PosterTooLarge));
    assert!(check_poster("c1", "x.png", &big[1..]).is_err());
    assert!(looks_like_image(b"RIFF....WEBPx"));
    assert!(!looks_like_image(b"RIFF....WEBP") && !looks_like_image(b"RIFF....WAVEx"));
    assert!(!looks_like_image(&[0xFF, 0xD8]));
    assert_eq!(safe_id("a/b_c-é1"), "ab_c-1");
    assert_eq!(safe_id(&"x".repeat(100)).len(), 64);
    assert_eq!(poster_extension("a.PNG"), "png");
    assert!(keeps_posters_beside("/data/staging") && keeps_posters_beside("staging/"));
    assert!(!keeps_posters_beside("/data/staging2") && !keeps_posters_beside("/"));
}

#[test]
fn posters_are_served_by_name() {
    assert_eq!(served("a.png"), ("image/png", "public, max-age=86400"));
    assert_eq!(served("a.WebP"), ("image/webp", "public, max-age=86400"));
    assert_eq!(served("a.jpeg"), ("image/jpeg", "public, max-age=86400"));
    for bad in ["../a.png", "a\\b.png", "a/b.png", "a..png"] {
        match serve_poster(bad).err().unwrap() {
            Reply { status: 400, body: Body::Text(t) } => assert_eq!(t, "nombre inválido"),
            _ => panic!("other answer"),
        }
    }
    match serve_poster("a.gif").err().unwrap() {
        Reply { status: 400, body: Body::Text(t) } => assert_eq!(t, "solo portadas"),
        _ => panic!("other answer"),
    }
}

#[test]
fn uploads_are_bounded_and_named() {
    assert_eq!(received_after(0, 10, MAX_UPLOAD), Some(10));
    assert_eq!(received_after(MAX_UPLOAD, 0, MAX_UPLOAD), Some(MAX_UPLOAD));
    assert_eq!(received_after(MAX_UPLOAD, 1, MAX_UPLOAD), None);
    assert_eq!(received_after(5, u64::MAX, MAX_UPLOAD), None);
    assert_eq!(MAX_UPLOAD, 8_589_934_592);
    assert_eq!(staged_name(1_700_000_000_000_000_000_000, 3, "x/y.mp4"), "1700000000000000000000-3-y.mp4");
    assert_eq!(staged_name(1, 2, ".."), "1-2-archivo");
}

#[test]
fn hashes_as_text() {
    assert!(hash_valid("000102030405060708090a0b0c0d0e0f101112131415161718191a1b1c1d1e1f"));
    assert!(hash_valid("AAAQEAYEAUDAOCAJBIFQYDIOB4IBCEQTCQKRMFYYDENBWHA5DYPQ"));
    assert!(hash_valid("aaaqeayeaudaocajbifqydiob4ibceqtcqkrmfyydenbwha5dypq"));
    assert!(!hash_valid("AAAQEAYEAUDAOCAJBIFQYDIOB4IBCEQTCQKRMFYYDENBWHA5DYPR"));
    assert!(!hash_valid("1AAQEAYEAUDAOCAJBIFQYDIOB4IBCEQTCQKRMFYYDENBWHA5DYPQ"));
    assert!(!hash_valid(&"A".repeat(64)));
    assert!(!hash_valid(&"g".repeat(64)));
    assert!(!hash_valid("") && !hash_valid(&"0".repeat(63)) && !hash_valid(&"0".repeat(65)));
    assert!(!hash_valid(&"é".repeat(32)) && !hash_valid(&"é".repeat(26)));
}

#[test]
fn uploads_are_received_piece_by_piece() {
    assert!(Upload::begin(None, Some("a.mp4"), "/s", 1, 2).is_none());
    assert!(Upload::begin(Some("poster"), Some("a.mp4"), "/s", 1, 2).is_none());
    let mut u = Upload::begin(Some("file"), Some("x/a.mp4"), "/s", 1, 2).unwrap();
    assert_eq!((u.name(), u.path()), ("x/a.mp4", "/s/1-2-a.mp4"));
    assert!(u.piece(10).is_none());
    assert!(u.piece(MAX_UPLOAD - 10).is_none());
    assert_eq!(error(&u.piece(1).unwrap()), (413, "archivo demasiado grande (tope 8 GiB)"));
    assert_eq!(u.leftover(), Some("/s/1-2-a.mp4"));
    assert_eq!(error(&u.finish(Err("mal".into()))), (400, "mal"));
    assert_eq!(u.leftover(), Some("/s/1-2-a.mp4"));
    let lib = Library::new("h".into(), "/s".into());
    let added = lib.add_upload(&mut Db::open_in_memory(1), u.name(), 5, "h".into(), "p".into()).added;
    match u.finish(Ok(added)).body {
        Body::File(f) => assert_eq!(f.path, "a.mp4"),
        _ => panic!("no file"),
    }
    assert_eq!(u.leftover(), None);
    let u = Upload::begin(Some("file"), None, "s/", 3, 4).unwrap();
    assert_eq!((u.name(), u.path()), ("archivo", "s/3-4-archivo"));
    assert_eq!(Upload::begin(Some("file"), None, "", 3, 4).unwrap().path(), "3-4-archivo");
}

#[test]
fn posters_are_received_piece_by_piece() {
    let mut db = Db::open_in_memory(1);
    let c = db.create_collection("series", "A", "", 1).unwrap();
    assert!(poster_target(&db, &c.id).is_none());
    assert_eq!(error(&poster_target(&db, "x").unwrap()), (404, "colección no existe"));
    assert!(PosterUpload::begin(Some("file"), &c.id, None).is_none());
    assert!(matches!(PosterUpload::next(Some((None, Some("poster"))), &c.id), PosterStep::Skip));
    match PosterUpload::next(None, &c.id) {
        PosterStep::Answer(r) => assert_eq!(r.status, 400),
        _ => panic!("received"),
    }
    let mut u = match PosterUpload::next(Some((Some("poster"), Some("P.PNG"))), &c.id) {
        PosterStep::Receive(u) => u,
        _ => panic!("not received"),
    };
    assert_eq!(error(&u.finish().err().unwrap()), (400, "portada vacía"));
    assert!(u.piece(&[0x89, b'P']).is_none());
    assert_eq!(error(&u.finish().err().unwrap()), (400, "la portada debe ser JPG/PNG/WebP"));
    assert!(u.piece(&[b'N', b'G', 0]).is_none());
    assert_eq!(u.bytes(), [0x89, b'P', b'N', b'G', 0]);
    assert_eq!(u.finish().ok(), Some("c1-1-1.png".to_string()));
    let large = vec![0u8; MAX_POSTER as usize - 4];
    assert_eq!(error(&u.piece(&large).unwrap()), (413, "portada demasiado grande (tope 10 MB)"));
    assert!(u.piece(&large[1..]).is_none());
    let u = PosterUpload::begin(Some("poster"), "¡!", None).unwrap();
    let mut u = u;
    assert!(u.piece(&[0xFF, 0xD8, 0xFF]).is_none());
    assert_eq!(error(&u.finish().err().unwrap()), (400, "id inválido"));
}

#[test]
fn failures_are_answered_with_their_cause() {
    for (f, status, text) in [
        (Failure::UploadFolder, 500, "no se pudo preparar la subida: x"),
        (Failure::UploadFile, 500, "no se pudo recibir la subida: x"),
        (Failure::UploadWrite, 500, "error al guardar la subida: x"),
        (Failure::Interrupted, 400, "subida interrumpida: x"),
        (Failure::PosterFolder, 500, "no se pudo preparar portadas: x"),
        (Failure::PosterFile, 500, "no se pudo guardar: x"),
        (Failure::ScanTask, 500, "error en tarea de escaneo: x"),
    ] {
        assert_eq!(error(&f.reply("x")), (status, text));
    }
}
