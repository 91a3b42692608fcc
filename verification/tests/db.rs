use p2p_nube::catalog::DbError;
use p2p_nube::db::normalize_file_kind;
use p2p_nube::records::{
    collection_from, columns_of, row_from, CollectionColumns, FileColumns, Setting,
};
use p2p_nube::{CollectionItem, Db, FileRow, Policy, FILE_KIND_FILE, FILE_KIND_MEDIA};

fn row(path: &str, hash: &str, size: u64, mime: &str, policy: Policy, host: &str, tag: &str, kind: &str) -> FileRow {
    FileRow {
        path: path.into(),
        hash: hash.into(),
        size,
        mime: mime.into(),
        policy,
        host_id: host.into(),
        tag: tag.into(),
        title: String::new(),
        watched: false,
        kind: kind.into(),
    }
}

fn media(path: &str, hash: &str) -> FileRow {
    row(path, hash, 10, "video/x-matroska", Policy::StreamOnly, "host1", &format!("t{hash}"), FILE_KIND_MEDIA)
}

#[test]
fn upsert_y_lista() {
    let mut db = Db::open_in_memory(7);
    db.upsert_file(&FileRow {
        path: "anime/cap01.mkv".into(),
        hash: "abc".into(),
        size: 42,
        mime: "video/x-matroska".into(),
        policy: Policy::StreamOnly,
        host_id: "host1".into(),
        tag: "t1".into(),
        title: String::new(),
        watched: false,
        kind: FILE_KIND_MEDIA.into(),
    });
    let all = db.list_files();
    assert_eq!(all.len(), 1);
    assert!(!all[0].policy.allows_download());
    assert!(all[0].policy.allows_stream());
    assert_eq!(all[0].display_title(), "cap01.mkv");
    assert_eq!(all[0].kind, FILE_KIND_MEDIA);
    assert_eq!(db.list_files_by_kind(FILE_KIND_MEDIA).len(), 1);
    assert!(db.list_files_by_kind(FILE_KIND_FILE).is_empty());
    assert!(db.set_title("anime/cap01.mkv", "Capítulo 1"));
    assert_eq!(
        db.get_by_path("anime/cap01.mkv").unwrap().display_title(),
        "Capítulo 1"
    );
    // The watched mark is kept when the file is listed again.
    assert!(!db.get_by_path("anime/cap01.mkv").unwrap().watched);
    assert!(db.set_watched("anime/cap01.mkv", true));
    assert!(db.get_by_path("anime/cap01.mkv").unwrap().watched);
    db.upsert_file(&FileRow {
        path: "anime/cap01.mkv".into(),
        hash: "abc2".into(),
        size: 43,
        mime: "video/x-matroska".into(),
        policy: Policy::StreamOnly,
        host_id: "host1".into(),
        tag: "t2".into(),
        title: String::new(),
        watched: false,
        kind: FILE_KIND_MEDIA.into(),
    });
    assert!(db.get_by_path("anime/cap01.mkv").unwrap().watched);
    assert!(db.set_watched("anime/cap01.mkv", false));
    // A root and a child, moving between them, and removal in cascade.
    let col = db.create_collection("series", "Naruto", "", 1).unwrap();
    assert_eq!(col.kind, "series");
    let t1 = db.create_collection("season", "Temporada 1", &col.id, 2).unwrap();
    assert_eq!(t1.kind, "season");
    assert_eq!(t1.parent_id, col.id);
    db.add_item(&t1.id, "anime/cap01.mkv", "", "E01", 1).unwrap();
    let det = db.collection_detail(&col.id).unwrap();
    assert_eq!(det.children.len(), 1);
    assert_eq!(det.children[0].items.len(), 1);
    assert_eq!(det.children[0].items[0].label, "E01");
    // A root with children takes no entries of its own.
    assert!(db.add_item(&col.id, "anime/cap01.mkv", "", "", 0).is_err());
    let col2 = db.create_collection("movie", "Akira", "", 3).unwrap();
    db.add_item(&col2.id, "anime/cap01.mkv", "", "Film", 0).unwrap();
    // Moved: it is not in the first one any more.
    assert!(db.collection_detail(&t1.id).unwrap().items.is_empty());
    assert_eq!(db.collection_detail(&col2.id).unwrap().items.len(), 1);
    // The cascade removes the children and keeps the file.
    assert!(db.delete_collection(&col.id));
    assert!(db.get_collection(&t1.id).is_none());
    assert!(!db.delete_by_hash("no-existe"));
    assert!(db.delete_by_hash("abc2"));
    assert!(db.list_files().is_empty());
    // The entries of a removed file are gone.
    assert!(db.collection_detail(&col2.id).unwrap().items.is_empty());

    // Settings
    db.set_setting("active_doc", "doc-123");
    assert_eq!(db.get_setting("active_doc"), Some("doc-123".into()));
}

#[test]
fn collections_summary_paginacion_y_conteos() {
    let mut db = Db::open_in_memory(7);
    for (p, h) in [
        ("a/cap1.mkv", "h1"),
        ("a/cap2.mkv", "h2"),
        ("a/cap3.mkv", "h3"),
    ] {
        db.upsert_file(&media(p, h));
    }
    let root = db.create_collection("series", "Serie", "", 1).unwrap();
    let t1 = db.create_collection("season", "T1", &root.id, 2).unwrap();
    db.add_item(&t1.id, "a/cap1.mkv", "", "", 0).unwrap();
    db.add_item(&t1.id, "a/cap2.mkv", "", "", 0).unwrap();
    let sum = db.collections_summary();
    assert_eq!(sum.get(&t1.id), Some((2, 0)));
    // The root: two entries of its child, and one child.
    assert_eq!(sum.get(&root.id), Some((2, 1)));
    assert_eq!(sum.get("no"), None);
    // Three files, in pages of two.
    assert_eq!(db.list_files_by_kind_paged(FILE_KIND_MEDIA, 2, 0).len(), 2);
    assert_eq!(db.list_files_by_kind_paged(FILE_KIND_MEDIA, 2, 2).len(), 1);
    assert_eq!(db.list_files_by_kind_paged(FILE_KIND_MEDIA, 10, 0).len(), 3);
    let (total, media, storage) = db.count_files();
    assert_eq!((total, media, storage), (3, 3, 0));
}

#[test]
fn reorden_y_pelicula_unica() {
    let mut db = Db::open_in_memory(7);
    for (p, h) in [
        ("s/e01.mkv", "h1"),
        ("s/e02.mkv", "h2"),
        ("s/film.mkv", "h3"),
    ] {
        db.upsert_file(&media(p, h));
    }
    let serie = db.create_collection("series", "Re:Zero", "", 1).unwrap();
    let t1 = db.create_collection("season", "Temporada 1", &serie.id, 2).unwrap();
    let peli = db
        .create_collection("movie", "Película: arco final", &serie.id, 3)
        .unwrap();
    // Children in the order in which they were made; reordering turns them round.
    let det = db.collection_detail(&serie.id).unwrap();
    assert_eq!(det.children.len(), 2);
    db.reorder_children(&serie.id, &[peli.id.clone(), t1.id.clone()])
        .unwrap();
    let det = db.collection_detail(&serie.id).unwrap();
    assert_eq!(det.children[0].collection.id, peli.id);
    assert_eq!(det.children[1].collection.id, t1.id);
    // Position 0 appends; an order lasts.
    db.add_item(&t1.id, "s/e01.mkv", "", "", 0).unwrap();
    db.add_item(&t1.id, "s/e02.mkv", "", "", 0).unwrap();
    let items = db.collection_detail(&t1.id).unwrap().items;
    assert_eq!(items[0].file_path, "s/e01.mkv");
    db.reorder_items(&t1.id, &["s/e02.mkv".to_string(), "s/e01.mkv".to_string()])
        .unwrap();
    let items = db.collection_detail(&t1.id).unwrap().items;
    assert_eq!(items[0].file_path, "s/e02.mkv");
    assert_eq!(items[1].file_path, "s/e01.mkv");
    // A film below a series holds one file.
    db.add_item(&peli.id, "s/film.mkv", "", "", 0).unwrap();
    assert!(db.add_item(&peli.id, "s/e01.mkv", "", "", 0).is_err());
    // So does a film among the roots.
    let suelta = db.create_collection("movie", "Akira", "", 4).unwrap();
    db.add_item(&suelta.id, "s/film.mkv", "", "", 0).unwrap();
    assert!(db.collection_detail(&peli.id).unwrap().items.is_empty());
    assert!(db.add_item(&suelta.id, "s/e02.mkv", "", "", 0).is_err());
}

#[test]
fn separa_media_y_storage_por_kind() {
    let mut db = Db::open_in_memory(7);
    db.upsert_file(&row(
        "cap01.mkv", "h-media", 10, "video/x-matroska", Policy::StreamOnly, "h", "t1", FILE_KIND_MEDIA,
    ));
    db.upsert_file(&row(
        "manual.pdf", "h-file", 20, "application/pdf", Policy::Mirror, "h", "t2", FILE_KIND_FILE,
    ));
    assert_eq!(db.list_files().len(), 2);
    let media = db.list_files_by_kind(FILE_KIND_MEDIA);
    assert_eq!(media.len(), 1);
    assert_eq!(media[0].path, "cap01.mkv");
    let files = db.list_files_by_kind(FILE_KIND_FILE);
    assert_eq!(files.len(), 1);
    assert_eq!(files[0].path, "manual.pdf");
    assert!(files[0].policy.allows_download());
}

#[test]
fn migra_db_vieja_sin_parent_id() {
    // Rows of a store without parents and positions are read, and can be built on.
    let old = collection_from(CollectionColumns {
        id: "c1".into(),
        kind: "series".into(),
        title: "Frieren".into(),
        poster_url: String::new(),
        poster_file: String::new(),
        created_at: 1,
        parent_id: None,
        pos: None,
    });
    let mut db = Db::load(vec![], vec![], vec![old], vec![], 1, 7).unwrap();
    let cols = db.list_collections();
    assert_eq!(cols.len(), 1);
    assert_eq!(cols[0].title, "Frieren");
    assert!(cols[0].parent_id.is_empty());
    let kid = db.create_collection("season", "Temporada 1", "c1", 2).unwrap();
    assert_eq!(kid.parent_id, "c1");
}

#[test]
fn stored_rows_are_read_with_their_defaults() {
    let columns = |policy: &str, size: i64| FileColumns {
        path: "a.mkv".into(),
        hash: "h".into(),
        size,
        mime: "video/x-matroska".into(),
        policy: policy.into(),
        host_id: "host".into(),
        tag: "t".into(),
        title: None,
        watched: None,
        kind: None,
    };
    let r = row_from(columns("mirror", 5)).unwrap();
    assert_eq!((r.size, r.policy, r.watched), (5, Policy::Mirror, false));
    assert_eq!((r.title.as_str(), r.kind.as_str()), ("", "media"));
    assert_eq!(row_from(columns("host_only", 5)).unwrap().policy, Policy::HostOnly);
    assert_eq!(row_from(columns("nada", 5)).unwrap().policy, Policy::StreamOnly);
    assert!(row_from(columns("mirror", -1)).is_none());
    let mut c = columns("mirror", 5);
    c.title = Some("T".into());
    c.watched = Some(3);
    c.kind = Some("file".into());
    let r = row_from(c).unwrap();
    assert_eq!((r.title.as_str(), r.watched, r.kind.as_str()), ("T", true, "file"));
}

#[test]
fn stored_rows_are_read_back_as_they_were() {
    for policy in [Policy::HostOnly, Policy::StreamOnly, Policy::Mirror] {
        let mut f = row("a/b.pdf", "h", 7, "application/pdf", policy, "host", "t", "file");
        f.title = "Título".into();
        f.watched = true;
        let c = columns_of(&f);
        assert_eq!((c.size, c.policy.as_str(), c.watched), (7, policy.as_str(), Some(1)));
        let r = row_from(c).unwrap();
        assert_eq!((r.path, r.hash, r.size, r.mime), (f.path, f.hash, f.size, f.mime));
        assert_eq!((r.policy, r.host_id, r.tag), (f.policy, f.host_id, f.tag));
        assert_eq!((r.title, r.watched, r.kind), (f.title, f.watched, f.kind));
    }
}

#[test]
fn a_store_with_a_repeated_key_is_refused() {
    assert!(Db::load(vec![media("a", "1"), media("a", "2")], vec![], vec![], vec![], 1, 1).is_none());
    let setting = |k: &str| Setting { key: k.into(), val: "v".into() };
    assert!(Db::load(vec![], vec![setting("k"), setting("k")], vec![], vec![], 1, 1).is_none());
    let item = |c: &str, p: &str| CollectionItem {
        collection_id: c.into(),
        file_path: p.into(),
        season: String::new(),
        label: String::new(),
        pos: 1,
    };
    assert!(Db::load(vec![], vec![], vec![], vec![item("c", "a"), item("c", "a")], 1, 1).is_none());
    let db = Db::load(
        vec![media("b", "1"), media("a", "1")],
        vec![setting("k")],
        vec![],
        vec![item("c", "a"), item("d", "a")],
        9,
        1,
    )
    .unwrap();
    assert_eq!(db.current_serial(), 9);
    assert_eq!((db.files().len(), db.settings().len()), (2, 1));
    assert_eq!((db.collections().len(), db.items().len()), (0, 2));
    assert_eq!(db.file_count(), 2);
    assert_eq!(db.get_rows_by_hash("1").len(), 2);
    assert!(db.get_by_hash("1").is_some());
    assert!(db.get_by_hash("2").is_none());
}

#[test]
fn each_error_has_its_cause() {
    let mut db = Db::open_in_memory(7);
    db.upsert_file(&media("a.mkv", "1"));
    db.upsert_file(&media("b.mkv", "2"));
    assert_eq!(db.create_collection("series", "  ", "", 1).unwrap_err(), DbError::EmptyTitle);
    assert_eq!(db.create_collection("series", "X", "nope", 1).unwrap_err(), DbError::ParentMissing);
    let root = db.create_collection("series", "X", "", 1).unwrap();
    let kid = db.create_collection("t", "T1", &root.id, 1).unwrap();
    assert_eq!(db.create_collection("t", "T2", &kid.id, 1).unwrap_err(), DbError::TooDeep);
    let again = db.create_collection("Película", " Y ", &format!(" {} ", root.id), 1).unwrap();
    assert_eq!((again.kind.as_str(), again.title.as_str(), again.pos), ("movie", "Y", 2));
    assert_eq!(db.update_collection(&root.id, Some(" "), None, None), Err(DbError::EmptyTitle));
    assert_eq!(
        db.update_collection(&root.id, None, Some("ftp://x"), None),
        Err(DbError::InvalidPosterUrl)
    );
    assert_eq!(db.update_collection(&root.id, None, Some(" https://x "), None), Ok(true));
    assert_eq!(db.get_collection(&root.id).unwrap().poster_url, "https://x");
    assert_eq!(db.update_collection(&root.id, None, None, Some("season")), Err(DbError::KindNotAllowed));
    assert_eq!(db.update_collection(&kid.id, None, None, Some("series")), Err(DbError::KindNotAllowed));
    assert_eq!(db.update_collection("nope", None, None, Some("season")), Ok(false));
    assert_eq!(db.update_collection(&kid.id, None, None, None), Ok(false));
    assert_eq!(db.add_item("nope", "a.mkv", "", "", 0), Err(DbError::CollectionMissing));
    assert_eq!(db.add_item(&root.id, "a.mkv", "", "", 0), Err(DbError::ChooseChild));
    assert_eq!(db.add_item(&kid.id, "c.mkv", "", "", 0), Err(DbError::FileNotListed));
    assert_eq!(db.add_item(&again.id, "a.mkv", "", "", 0), Ok(()));
    assert_eq!(db.add_item(&again.id, "b.mkv", "", "", 0), Err(DbError::MovieTaken));
    assert_eq!(db.reorder_items("nope", &[]), Err(DbError::CollectionMissing));
    assert_eq!(db.reorder_children("nope", &[]), Err(DbError::CollectionMissing));
    // The number of a collection and its instant make its id; a repeated one is refused.
    let rows = vec![collection_from(CollectionColumns {
        id: "cff-1-7".into(),
        kind: "series".into(),
        title: "Z".into(),
        poster_url: String::new(),
        poster_file: String::new(),
        created_at: 255,
        parent_id: None,
        pos: None,
    })];
    let mut db = Db::load(vec![], vec![], rows, vec![], 1, 7).unwrap();
    assert_eq!(db.next_id(255), "cff-1-7");
    assert_eq!(db.create_collection("series", "W", "", 255).unwrap_err(), DbError::DuplicateId);
    assert_eq!(db.create_collection("series", "W", "", 255).unwrap().id, "cff-2-7");
}

#[test]
fn errors_have_their_messages() {
    for (e, m) in [
        (DbError::EmptyTitle, "título vacío"),
        (DbError::ParentMissing, "la colección padre no existe"),
        (DbError::TooDeep, "solo hay 2 niveles: la temporada no puede tener hijas"),
        (DbError::DuplicateId, "UNIQUE constraint failed: collections.id"),
        (DbError::InvalidPosterUrl, "URL de portada inválida (http(s):// o /posters/…)"),
        (DbError::KindNotAllowed, "tipo inválido para este nivel"),
        (DbError::CollectionMissing, "colección no existe"),
        (DbError::ChooseChild, "elige una temporada o película dentro de la serie"),
        (DbError::FileNotListed, "archivo no listado"),
        (DbError::MovieTaken, "la película ya tiene un archivo: sácalo antes de mover otro"),
    ] {
        assert_eq!(e.message(), m);
    }
}

#[test]
fn kinds_are_read_in_any_case() {
    for k in ["file", " Storage ", "ALMACENAMIENTO", "archivo"] {
        assert_eq!(normalize_file_kind(k), "file");
    }
    for k in ["media", "", "fil"] {
        assert_eq!(normalize_file_kind(k), "media");
    }
    for k in ["season", "Temporada", " T "] {
        assert_eq!(Db::normalize_kind(k), "season");
    }
    for k in ["movie", "PELICULA", "PELÍCULA", "film"] {
        assert_eq!(Db::normalize_kind(k), "movie");
    }
    assert_eq!(Db::normalize_kind("otra"), "series");
}

#[test]
fn titles_are_clipped_and_trimmed() {
    let mut db = Db::open_in_memory(7);
    db.upsert_file(&media("x/a.mkv", "1"));
    assert!(db.set_title("x/a.mkv", &format!("  {}  ", "é".repeat(200))));
    assert_eq!(db.get_by_path("x/a.mkv").unwrap().title, "é".repeat(128));
    assert!(db.set_title("x/a.mkv", "  "));
    assert_eq!(db.get_by_path("x/a.mkv").unwrap().display_title(), "a.mkv");
    assert!(!db.set_title("y", "T"));
    assert!(!db.set_watched("y", true));
}

#[test]
fn files_are_listed_by_path() {
    let mut db = Db::open_in_memory(7);
    for p in ["b.mkv", "a/z.mkv", "á.mkv", "Z.mkv", "a.mkv"] {
        db.upsert_file(&media(p, p));
    }
    let names: Vec<_> = db.list_files().into_iter().map(|f| f.path).collect();
    assert_eq!(names, ["Z.mkv", "a.mkv", "a/z.mkv", "b.mkv", "á.mkv"]);
    // Pages put together are the list; limits and offsets are kept in bounds.
    let mut pages: Vec<String> = Vec::new();
    for k in 0..3 {
        pages.extend(db.list_files_by_kind_paged("media", 2, 2 * k).into_iter().map(|f| f.path));
    }
    assert_eq!(pages, names);
    assert_eq!(db.list_files_by_kind_paged("media", 0, -5).len(), 1);
    assert_eq!(db.list_files_by_kind_paged("media", 5, 100).len(), 0);
}

#[test]
fn entries_follow_position_then_title_then_path() {
    let mut db = Db::open_in_memory(7);
    for p in ["a", "b", "c", "d"] {
        db.upsert_file(&media(p, p));
    }
    db.set_title("a", "zeta");
    db.set_title("b", "alfa");
    let c = db.create_collection("series", "S", "", 1).unwrap();
    for p in ["a", "b", "c", "d"] {
        db.add_item(&c.id, p, " T1 ", "", 5).unwrap();
    }
    let paths = |db: &Db| -> Vec<String> { db.items_of(&c.id).into_iter().map(|i| i.file_path).collect() };
    assert_eq!(paths(&db), ["c", "d", "b", "a"]);
    assert_eq!(db.items_of(&c.id)[0].season, "T1");
    assert_eq!(db.items_of(&c.id)[3].title, "zeta");
    // Appending goes behind the last position.
    db.add_item(&c.id, "c", "", "", 0).unwrap();
    assert_eq!(paths(&db), ["d", "b", "a", "c"]);
    assert_eq!(db.items_of(&c.id)[3].pos, 6);
    // An order that names each file once is followed; the last mention of a file counts.
    db.reorder_items(&c.id, &["a".into(), "c".into(), "b".into(), "d".into()]).unwrap();
    assert_eq!(paths(&db), ["a", "c", "b", "d"]);
    db.reorder_items(&c.id, &["d".into(), "x".into(), "a".into(), "d".into()]).unwrap();
    assert_eq!(db.items_of(&c.id).iter().find(|i| i.file_path == "d").unwrap().pos, 3);
}

#[test]
fn removing_files_and_entries() {
    let mut db = Db::open_in_memory(7);
    for p in ["a", "b"] {
        db.upsert_file(&media(p, "same"));
    }
    let c = db.create_collection("series", "S", "", 1).unwrap();
    db.add_item(&c.id, "a", "", "", 0).unwrap();
    db.add_item(&c.id, "b", "", "", 0).unwrap();
    assert_eq!(db.collection_of("a"), Some(c.id.clone()));
    assert!(db.remove_item(&c.id, "a"));
    assert!(!db.remove_item(&c.id, "a"));
    assert_eq!(db.collection_of("a"), None);
    assert!(db.delete_by_path("b"));
    assert!(!db.delete_by_path("b"));
    assert_eq!(db.collection_of("b"), None);
    assert!(db.has_children("") && !db.has_children(&c.id));
    assert!(db.set_poster_file(&c.id, "/posters/x.png"));
    assert!(!db.set_poster_file("no", "x"));
    assert_eq!(db.get_collection(&c.id).unwrap().poster_file, "/posters/x.png");
    assert!(db.countable() && db.child_fits("") && db.item_fits(&c.id));
    let lines = db.collection_lines();
    assert_eq!((lines[0].items, lines[0].children), (0, 0));
    assert!(db.delete_collection(&c.id));
    assert!(!db.delete_collection(&c.id));
    assert_eq!(db.list_files().len(), 1);
}

#[test]
fn a_setting_is_replaced() {
    let mut db = Db::open_in_memory(7);
    assert_eq!(db.get_setting("k"), None);
    db.set_setting("k", "1");
    db.set_setting("k", "2");
    assert_eq!(db.get_setting("k"), Some("2".into()));
    assert_eq!(db.settings().len(), 1);
}

#[test]
fn new_collections_go_behind_the_others_of_their_level() {
    let mut db = Db::open_in_memory(1);
    let a = db.create_collection("series", "A", "", 9).unwrap();
    let b = db.create_collection("series", "B", "", 1).unwrap();
    let k1 = db.create_collection("season", "T1", &a.id, 5).unwrap();
    let k2 = db.create_collection("season", "T2", &a.id, 2).unwrap();
    assert_eq!((a.pos, b.pos, k1.pos, k2.pos), (1, 2, 1, 2));
    assert_eq!((a.id.as_str(), b.id.as_str()), ("c9-1-1", "c1-2-1"));
    let kids: Vec<_> = db.list_children(&a.id).into_iter().map(|c| c.id).collect();
    assert_eq!(kids, [k1.id.clone(), k2.id.clone()]);
    db.reorder_children(&a.id, &[k2.id.clone(), k1.id.clone()]).unwrap();
    let k3 = db.create_collection("season", "T3", &a.id, 1).unwrap();
    let kids: Vec<_> = db.list_children(&a.id).into_iter().map(|c| c.id).collect();
    assert_eq!(kids, [k2.id, k1.id, k3.id]);
}

#[test]
fn files_are_in_collections_without_children() {
    let mut db = Db::open_in_memory(1);
    db.upsert_file(&media("a", "1"));
    db.upsert_file(&media("b", "2"));
    db.upsert_file(&media("c", "3"));
    let root = db.create_collection("series", "A", "", 1).unwrap();
    let other = db.create_collection("series", "B", "", 2).unwrap();
    db.add_item(&root.id, "b", "", "E2", 2).unwrap();
    db.add_item(&root.id, "a", "", "E1", 1).unwrap();
    db.add_item(&other.id, "c", "", "", 0).unwrap();
    // The first season takes over the files of the series, in their order.
    let kid = db.create_collection("season", "T1", &root.id, 3).unwrap();
    let d = db.collection_detail(&root.id).unwrap();
    assert_eq!((d.items.len(), d.children.len()), (0, 1));
    let taken: Vec<(&str, &str)> =
        d.children[0].items.iter().map(|i| (i.file_path.as_str(), i.label.as_str())).collect();
    assert_eq!(taken, [("a", "E1"), ("b", "E2")]);
    assert_eq!(db.collection_detail(&other.id).unwrap().items.len(), 1);
    assert_eq!(db.collections_summary().get(&root.id), Some((2, 1)));
    // The next one takes over nothing, and the series takes no file.
    let next = db.create_collection("season", "T2", &root.id, 4).unwrap();
    assert_eq!((db.items_of(&kid.id).len(), db.items_of(&next.id).len()), (2, 0));
    assert_eq!(db.add_item(&root.id, "c", "", "", 0), Err(DbError::ChooseChild));
    // A film takes over nothing: it is made beside however many files, which leave the series.
    db.add_item(&other.id, "b", "", "", 0).unwrap();
    let film = db.create_collection("movie", "P", &other.id, 5).unwrap();
    assert_eq!((film.kind.as_str(), film.parent_id.as_str()), ("movie", other.id.as_str()));
    assert_eq!((db.items_of(&film.id).len(), db.items_of(&other.id).len()), (0, 0));
    assert_eq!((db.collection_of("b"), db.collection_of("c")), (None, None));
    assert_eq!(db.list_files().len(), 3);
    db.add_item(&film.id, "c", "", "", 0).unwrap();
    assert_eq!(db.add_item(&film.id, "b", "", "", 0), Err(DbError::MovieTaken));
    db.add_item(&kid.id, "b", "", "", 0).unwrap();
    let line = db.collection_lines().into_iter().find(|l| l.collection.id == root.id).unwrap();
    assert_eq!((line.items, line.children), (2, 2));
    // Turning a collection of several files into a film takes none away.
    assert_eq!(db.update_collection(&kid.id, None, None, Some("film")), Ok(true));
    assert_eq!(db.items_of(&kid.id).len(), 2);
}

#[test]
fn removing_the_empty_id_changes_nothing() {
    let mut db = Db::open_in_memory(1);
    db.upsert_file(&media("a", "1"));
    let root = db.create_collection("series", "A", "", 1).unwrap();
    let kid = db.create_collection("season", "T1", &root.id, 2).unwrap();
    db.add_item(&kid.id, "a", "", "", 0).unwrap();
    assert!(!db.delete_collection(""));
    assert!(db.get_collection(&root.id).is_some());
    assert!(db.get_collection(&kid.id).is_some());
    assert_eq!(db.items_of(&kid.id).len(), 1);
    assert!(!db.delete_collection("nope"));
    assert_eq!(db.collections().len(), 2);
}

#[test]
fn a_moved_file_leaves_the_others_alone() {
    let mut db = Db::open_in_memory(1);
    db.upsert_file(&media("a", "1"));
    db.upsert_file(&media("b", "2"));
    let one = db.create_collection("series", "A", "", 1).unwrap();
    let two = db.create_collection("series", "B", "", 2).unwrap();
    db.add_item(&one.id, "a", "", "x", 3).unwrap();
    db.add_item(&one.id, "b", "", "y", 4).unwrap();
    db.add_item(&two.id, "a", "", "", 0).unwrap();
    assert_eq!(db.collection_of("a").as_deref(), Some(two.id.as_str()));
    let left = db.items_of(&one.id);
    assert_eq!(left.len(), 1);
    assert_eq!((left[0].file_path.as_str(), left[0].label.as_str(), left[0].pos), ("b", "y", 4));
    assert_eq!(db.list_files().len(), 2);
}
