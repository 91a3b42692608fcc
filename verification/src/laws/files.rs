//! Files and settings: what is listed is read back, and nothing else changes.

use crate::catalog::Tables;
use crate::db::Db;
use crate::records::{
    row_from, Collection, CollectionItem, CollectionItemView, FileColumns, FileRec, FileRow,
    Setting,
};
use crate::policy::Policy;
use crate::table::Row;
use crate::text;
use vstd::prelude::*;
use vstd::string::*;

verus! {

/// `r` is `s` without white space around it, cut behind `n` characters.
pub open spec fn is_cut(r: Seq<char>, s: Seq<char>, n: int) -> bool {
    let t = text::trimmed(s);
    &&& r.is_prefix_of(t)
    &&& t.len() <= n ==> r.len() == t.len()
    &&& t.len() > n ==> r.len() == n
}

/// What is cut is its first characters.
pub proof fn lemma_cut(s: Seq<char>, n: nat)
    ensures
        is_cut(text::clip(text::trimmed(s), n), s, n as int),
{
    let t = text::trimmed(s);
    let r = text::clip(t, n);
    assert(t.subrange(0, r.len() as int) =~= r);
}

/// The text stands for storage.
pub open spec fn means_storage(raw: Seq<char>) -> bool {
    let k = text::lower(text::trimmed(raw));
    ||| k == "file"@
    ||| k == "storage"@
    ||| k == "almacenamiento"@
    ||| k == "archivo"@
}

/// `f` is `g`, field by field, but for title, watched mark and kind.
pub open spec fn same_content(f: FileRec, g: FileRec) -> bool {
    &&& f.path == g.path
    &&& f.hash == g.hash
    &&& f.size == g.size
    &&& f.mime == g.mime
    &&& f.policy == g.policy
    &&& f.host_id == g.host_id
    &&& f.tag == g.tag
}

/// The row shows the record, field by field.
pub open spec fn shows(row: FileRow, f: FileRec) -> bool {
    &&& row.path@ == f.path
    &&& row.hash@ == f.hash
    &&& row.size == f.size
    &&& row.mime@ == f.mime
    &&& row.policy == f.policy
    &&& row.host_id@ == f.host_id
    &&& row.tag@ == f.tag
    &&& row.title@ == f.title
    &&& row.watched == f.watched
    &&& row.kind@ == f.kind
}

/// A row is seen as the values of its fields, and stands under its path.
pub proof fn law_a_row_is_seen_as_it_is(row: FileRow)
    ensures
        shows(row, row@),
        row.rec() == row@,
        FileRow::key(row@) == row.path@,
{
}

/// A collection, an entry and a setting are seen as the values of their fields, and stand
/// under their keys.
pub proof fn law_the_others_are_seen_as_they_are(
    c: Collection,
    i: CollectionItem,
    v: CollectionItemView,
    s: Setting,
)
    ensures
        c@.id == c.id@ && c@.kind == c.kind@ && c@.title == c.title@,
        c@.poster_url == c.poster_url@ && c@.poster_file == c.poster_file@,
        c@.created_at == c.created_at && c@.parent_id == c.parent_id@ && c@.pos == c.pos,
        c.rec() == c@ && Collection::key(c@) == c.id@,
        i@.collection_id == i.collection_id@ && i@.file_path == i.file_path@,
        i@.season == i.season@ && i@.label == i.label@ && i@.pos == i.pos,
        i.rec() == i@ && CollectionItem::key(i@) == (i.collection_id@, i.file_path@),
        v@.file_path == v.file_path@ && v@.title == v.title@ && v@.hash == v.hash@,
        v@.size == v.size && v@.mime == v.mime@ && v@.season == v.season@,
        v@.label == v.label@ && v@.pos == v.pos && v@.watched == v.watched,
        s.rec() == (s.key@, s.val@) && Setting::key(s.rec()) == s.key@,
{
}

/// The other tables than that of the files are the same.
pub open spec fn only_files_change(t: Tables, u: Tables) -> bool {
    u.settings == t.settings && u.collections == t.collections && u.items == t.items
}

/// A file that is listed is there as it was given. A file that was listed before keeps the
/// title and the watched mark that it had. Its kind is one of the two that there are.
pub proof fn law_a_file_is_listed_as_given(db: &mut Db, row: &FileRow)
    requires
        call_ensures(Db::upsert_file, (db, row), ()),
        old(db).wf(),
    ensures
        ({
            let (t, u) = (old(db)@, final(db)@);
            let f = u.files[row.path@];
            &&& u.files == t.files.insert(row.path@, f)
            &&& only_files_change(t, u)
            &&& f.path == row.path@ && f.hash == row.hash@ && f.size == row.size
            &&& f.mime == row.mime@ && f.policy == row.policy && f.host_id == row.host_id@
            &&& f.tag == row.tag@
            &&& means_storage(row.kind@) ==> f.kind == "file"@
            &&& !means_storage(row.kind@) ==> f.kind == "media"@
            &&& if t.files.contains_key(row.path@) {
                f.title == t.files[row.path@].title && f.watched == t.files[row.path@].watched
            } else {
                f.title == row.title@ && f.watched == row.watched
            }
        }),
{
}

/// A title that is set is that of the file, without white space around it and cut behind 128
/// characters. Nothing else changes, and nothing at all where the file is not listed.
pub proof fn law_a_title_is_set(db: &mut Db, path: &str, title: &str, r: bool)
    requires
        call_ensures(Db::set_title, (db, path, title), r),
        old(db).wf(),
    ensures
        r == old(db)@.files.contains_key(path@),
        !r ==> final(db)@ == old(db)@,
        r ==> {
            let f = final(db)@.files[path@];
            &&& final(db)@.files == old(db)@.files.insert(path@, f)
            &&& only_files_change(old(db)@, final(db)@)
            &&& is_cut(f.title, title@, 128)
            &&& same_content(f, old(db)@.files[path@])
            &&& f.watched == old(db)@.files[path@].watched
            &&& f.kind == old(db)@.files[path@].kind
        },
{
    lemma_cut(title@, 128);
}

/// A watched mark that is set is that of the file. Nothing else changes, and nothing at all
/// where the file is not listed.
pub proof fn law_a_watched_mark_is_set(db: &mut Db, path: &str, watched: bool, r: bool)
    requires
        call_ensures(Db::set_watched, (db, path, watched), r),
        old(db).wf(),
    ensures
        r == old(db)@.files.contains_key(path@),
        !r ==> final(db)@ == old(db)@,
        r ==> {
            let f = final(db)@.files[path@];
            &&& final(db)@.files == old(db)@.files.insert(path@, f)
            &&& only_files_change(old(db)@, final(db)@)
            &&& f.watched == watched
            &&& same_content(f, old(db)@.files[path@])
            &&& f.title == old(db)@.files[path@].title
            &&& f.kind == old(db)@.files[path@].kind
        },
{
}

/// A file is read as it is listed.
pub proof fn law_a_file_is_read_as_listed(
    db: &Db,
    path: &str,
    hash: &str,
    at: Option<FileRow>,
    with: Option<FileRow>,
)
    requires
        call_ensures(Db::get_by_path, (db, path), at),
        call_ensures(Db::get_by_hash, (db, hash), with),
        db.wf(),
    ensures
        at is Some <==> db@.files.contains_key(path@),
        at is Some ==> shows(at->0, db@.files[path@]) && at->0.path@ == path@,
        with is Some <==> exists|p: Seq<char>| #[trigger]
            db@.files.contains_key(p) && db@.files[p].hash == hash@,
        with is Some ==> with->0.hash@ == hash@ && db@.files.contains_key(with->0.path@) && shows(
            with->0,
            db@.files[with->0.path@],
        ),
{
    db.lemma_keys();
}

/// All files with a content are found, each of them once.
pub proof fn law_all_files_of_a_content_are_found(db: &Db, hash: &str, r: Vec<FileRow>)
    requires
        call_ensures(Db::get_rows_by_hash, (db, hash), r),
        db.wf(),
    ensures
        forall|i: int|
            0 <= i < r@.len() ==> (#[trigger] r@[i]).hash@ == hash@ && db@.files.contains_key(
                r@[i].path@,
            ) && shows(r@[i], db@.files[r@[i].path@]),
        forall|p: Seq<char>| #[trigger]
            db@.files.contains_key(p) && db@.files[p].hash == hash@ ==> exists|i: int|
                0 <= i < r@.len() && (#[trigger] r@[i]).path@ == p,
        forall|i: int, j: int|
            0 <= i < j < r@.len() ==> (#[trigger] r@[i]).path@ != (#[trigger] r@[j]).path@,
{
    db.lemma_keys();
    let s = crate::table::recs(r@);
    assert forall|i: int| 0 <= i < r@.len() implies (#[trigger] r@[i]).hash@ == hash@
        && db@.files.contains_key(r@[i].path@) && shows(r@[i], db@.files[r@[i].path@]) by {
        assert(s[i] == r@[i]@);
        let k = choose|k: Seq<char>| #[trigger]
            db@.files.contains_key(k) && db@.files[k] == s[i];
    }
    assert forall|p: Seq<char>| #[trigger]
        db@.files.contains_key(p) && db@.files[p].hash == hash@ implies exists|i: int|
        0 <= i < r@.len() && (#[trigger] r@[i]).path@ == p by {
        assert(s.contains(db@.files[p]));
        let i = choose|i: int| 0 <= i < s.len() && s[i] == db@.files[p];
        assert(r@[i].path@ == p);
    }
    assert forall|i: int, j: int| 0 <= i < j < r@.len() implies (#[trigger] r@[i]).path@ != (
    #[trigger] r@[j]).path@ by {
        assert(s[i] == r@[i]@ && s[j] == r@[j]@);
        assert(s[i] != s[j]);
        let a = choose|k: Seq<char>| #[trigger] db@.files.contains_key(k) && db@.files[k] == s[i];
        let b = choose|k: Seq<char>| #[trigger] db@.files.contains_key(k) && db@.files[k] == s[j];
    }
}

/// A file that is taken out is gone with its entries. No other file, no entry of another, no
/// collection and no setting is.
pub proof fn law_a_file_is_taken_out(db: &mut Db, path: &str, r: bool)
    requires
        call_ensures(Db::delete_by_path, (db, path), r),
        old(db).wf(),
    ensures
        r == old(db)@.files.contains_key(path@),
        final(db)@.files == old(db)@.files.remove(path@),
        forall|k: (Seq<char>, Seq<char>)| #[trigger]
            final(db)@.items.contains_key(k) <==> old(db)@.items.contains_key(k) && k.1 != path@,
        forall|k: (Seq<char>, Seq<char>)| #[trigger]
            final(db)@.items.contains_key(k) ==> final(db)@.items[k] == old(db)@.items[k],
        final(db)@.collections == old(db)@.collections,
        final(db)@.settings == old(db)@.settings,
{
    old(db).lemma_keys();
}

/// Files that are taken out by their content are gone with their entries, and nothing else.
pub proof fn law_a_content_is_taken_out(db: &mut Db, hash: &str, r: bool)
    requires
        call_ensures(Db::delete_by_hash, (db, hash), r),
        old(db).wf(),
    ensures
        r <==> exists|p: Seq<char>| #[trigger]
            old(db)@.files.contains_key(p) && old(db)@.files[p].hash == hash@,
        forall|p: Seq<char>| #[trigger]
            final(db)@.files.contains_key(p) <==> old(db)@.files.contains_key(p)
                && old(db)@.files[p].hash != hash@,
        forall|p: Seq<char>| #[trigger]
            final(db)@.files.contains_key(p) ==> final(db)@.files[p] == old(db)@.files[p],
        forall|k: (Seq<char>, Seq<char>)| #[trigger]
            final(db)@.items.contains_key(k) <==> old(db)@.items.contains_key(k) && !(
            old(db)@.files.contains_key(k.1) && old(db)@.files[k.1].hash == hash@),
        forall|k: (Seq<char>, Seq<char>)| #[trigger]
            final(db)@.items.contains_key(k) ==> final(db)@.items[k] == old(db)@.items[k],
        final(db)@.collections == old(db)@.collections,
        final(db)@.settings == old(db)@.settings,
{
    old(db).lemma_keys();
}

/// A setting that is set is read back, and no other one changes.
pub proof fn law_a_setting_is_read_back(
    db: &mut Db,
    key: &str,
    val: &str,
    later: &Db,
    asked: &str,
    r: Option<String>,
)
    requires
        call_ensures(Db::set_setting, (db, key, val), ()),
        call_ensures(Db::get_setting, (later, asked), r),
        old(db).wf(),
        later.wf(),
        later@ == final(db)@,
    ensures
        asked@ == key@ ==> r is Some && r->0@ == val@,
        asked@ != key@ ==> (r is Some <==> old(db)@.settings.contains_key(asked@)),
        asked@ != key@ && r is Some ==> r->0@ == old(db)@.settings[asked@].1,
        final(db)@.files == old(db)@.files,
        final(db)@.collections == old(db)@.collections,
        final(db)@.items == old(db)@.items,
{
}

/// A stored file is read as its columns say; what an older store lacks is a title of its own,
/// the watched mark and the kind.
pub proof fn law_columns_are_read_as_they_are(c: FileColumns, r: Option<FileRow>)
    requires
        call_ensures(row_from, (c,), r),
    ensures
        r is Some <==> c.size >= 0,
        r is Some ==> {
            let f = r->0;
            &&& f.path@ == c.path@ && f.hash@ == c.hash@ && f.size == c.size && f.mime@ == c.mime@
            &&& f.host_id@ == c.host_id@ && f.tag@ == c.tag@
            &&& c.policy@ == "host_only"@ ==> f.policy == Policy::HostOnly
            &&& c.policy@ == "mirror"@ ==> f.policy == Policy::Mirror
            &&& c.policy@ != "host_only"@ && c.policy@ != "mirror"@ ==> f.policy
                == Policy::StreamOnly
            &&& c.title is Some ==> f.title@ == c.title->0@
            &&& c.title is None ==> f.title@.len() == 0
            &&& c.watched is Some ==> f.watched == (c.watched->0 != 0)
            &&& c.watched is None ==> !f.watched
            &&& c.kind is Some ==> f.kind@ == c.kind->0@
            &&& c.kind is None ==> f.kind@ == "media"@
        },
{
    reveal_strlit("host_only");
    reveal_strlit("mirror");
    assert("host_only"@.len() == 9 && "mirror"@.len() == 6);
}

/// A row is stored in columns that say the same.
pub proof fn law_columns_say_what_the_row_says(row: &FileRow, c: FileColumns)
    requires
        call_ensures(crate::records::columns_of, (row,), c),
    ensures
        c.path@ == row.path@ && c.hash@ == row.hash@ && c.size == row.size,
        c.mime@ == row.mime@ && c.host_id@ == row.host_id@ && c.tag@ == row.tag@,
        c.policy@ == (match row.policy {
            Policy::HostOnly => "host_only"@,
            Policy::StreamOnly => "stream_only"@,
            Policy::Mirror => "mirror"@,
        }),
        c.title is Some && c.title->0@ == row.title@,
        c.kind is Some && c.kind->0@ == row.kind@,
        c.watched is Some && (c.watched->0 != 0) == row.watched,
{
}

/// No two rows stand under the same key.
pub open spec fn keys_differ(
    files: Seq<FileRow>,
    settings: Seq<Setting>,
    collections: Seq<Collection>,
    items: Seq<CollectionItem>,
) -> bool {
    &&& forall|i: int, j: int|
        0 <= i < j < files.len() ==> (#[trigger] files[i]).path@ != (#[trigger] files[j]).path@
    &&& forall|i: int, j: int|
        0 <= i < j < settings.len() ==> (#[trigger] settings[i]).key@ != (
        #[trigger] settings[j]).key@
    &&& forall|i: int, j: int|
        0 <= i < j < collections.len() ==> (#[trigger] collections[i]).id@ != (
        #[trigger] collections[j]).id@
    &&& forall|i: int, j: int|
        0 <= i < j < items.len() ==> {
            let (a, b) = (#[trigger] items[i], #[trigger] items[j]);
            a.collection_id@ != b.collection_id@ || a.file_path@ != b.file_path@
        }
}

/// A store is read where no two of its rows stand under the same key.
pub proof fn law_which_stores_are_read(
    files: Vec<FileRow>,
    settings: Vec<Setting>,
    collections: Vec<Collection>,
    items: Vec<CollectionItem>,
    serial: u64,
    process: u32,
    r: Option<Db>,
)
    requires
        call_ensures(Db::load, (files, settings, collections, items, serial, process), r),
    ensures
        r is Some <==> keys_differ(files@, settings@, collections@, items@),
{
    let (a, b, c, d) = (
        crate::table::pairs(files@),
        crate::table::pairs(settings@),
        crate::table::pairs(collections@),
        crate::table::pairs(items@),
    );
    assert(forall|i: int| 0 <= i < a.len() ==> (#[trigger] a[i]).0 == files@[i].path@);
    assert(forall|i: int| 0 <= i < b.len() ==> (#[trigger] b[i]).0 == settings@[i].key@);
    assert(forall|i: int| 0 <= i < c.len() ==> (#[trigger] c[i]).0 == collections@[i].id@);
    assert(forall|i: int|
        0 <= i < d.len() ==> (#[trigger] d[i]).0 == (
            items@[i].collection_id@,
            items@[i].file_path@,
        ));
    if r is Some {
        assert forall|i: int, j: int| 0 <= i < j < files@.len() implies (
        #[trigger] files@[i]).path@ != (#[trigger] files@[j]).path@ by {
            assert(a[i].0 != a[j].0);
        }
        assert forall|i: int, j: int| 0 <= i < j < settings@.len() implies (
        #[trigger] settings@[i]).key@ != (#[trigger] settings@[j]).key@ by {
            assert(b[i].0 != b[j].0);
        }
        assert forall|i: int, j: int| 0 <= i < j < collections@.len() implies (
        #[trigger] collections@[i]).id@ != (#[trigger] collections@[j]).id@ by {
            assert(c[i].0 != c[j].0);
        }
        assert forall|i: int, j: int| 0 <= i < j < items@.len() implies {
            let (x, y) = (#[trigger] items@[i], #[trigger] items@[j]);
            x.collection_id@ != y.collection_id@ || x.file_path@ != y.file_path@
        } by {
            assert(d[i].0 != d[j].0);
        }
    }
    if keys_differ(files@, settings@, collections@, items@) {
        assert forall|i: int, j: int| 0 <= i < j < a.len() implies (#[trigger] a[i]).0 != (
        #[trigger] a[j]).0 by {
            assert(files@[i].path@ != files@[j].path@);
        }
        assert forall|i: int, j: int| 0 <= i < j < b.len() implies (#[trigger] b[i]).0 != (
        #[trigger] b[j]).0 by {
            assert(settings@[i].key@ != settings@[j].key@);
        }
        assert forall|i: int, j: int| 0 <= i < j < c.len() implies (#[trigger] c[i]).0 != (
        #[trigger] c[j]).0 by {
            assert(collections@[i].id@ != collections@[j].id@);
        }
        assert forall|i: int, j: int| 0 <= i < j < d.len() implies (#[trigger] d[i]).0 != (
        #[trigger] d[j]).0 by {
            let (x, y) = (items@[i], items@[j]);
            assert(x.collection_id@ != y.collection_id@ || x.file_path@ != y.file_path@);
        }
    }
}

/// What a store holds is what the catalog holds, row by row, and the catalog gives it back.
pub proof fn law_what_is_loaded_is_held(
    files: Vec<FileRow>,
    settings: Vec<Setting>,
    collections: Vec<Collection>,
    items: Vec<CollectionItem>,
    serial: u64,
    process: u32,
    r: Option<Db>,
)
    requires
        call_ensures(Db::load, (files, settings, collections, items, serial, process), r),
        r is Some,
    ensures
        forall|i: int|
            0 <= i < files@.len() ==> r->0@.files.contains_key((#[trigger] files@[i]).path@)
                && shows(files@[i], r->0@.files[files@[i].path@]),
        forall|p: Seq<char>| #[trigger]
            r->0@.files.contains_key(p) ==> exists|i: int|
                0 <= i < files@.len() && (#[trigger] files@[i]).path@ == p,
        forall|i: int|
            0 <= i < settings@.len() ==> r->0@.settings.contains_key(
                (#[trigger] settings@[i]).key@,
            ) && r->0@.settings[settings@[i].key@].1 == settings@[i].val@,
        forall|i: int|
            0 <= i < collections@.len() ==> r->0@.collections.contains_key(
                (#[trigger] collections@[i]).id@,
            ) && r->0@.collections[collections@[i].id@] == collections@[i]@,
        forall|c: Seq<char>| #[trigger]
            r->0@.collections.contains_key(c) ==> exists|i: int|
                0 <= i < collections@.len() && (#[trigger] collections@[i]).id@ == c,
        forall|i: int|
            0 <= i < items@.len() ==> r->0@.items.contains_key(
                ((#[trigger] items@[i]).collection_id@, items@[i].file_path@),
            ) && r->0@.items[(items@[i].collection_id@, items@[i].file_path@)] == items@[i]@,
        forall|k: (Seq<char>, Seq<char>)| #[trigger]
            r->0@.items.contains_key(k) ==> exists|i: int|
                0 <= i < items@.len() && (#[trigger] items@[i]).collection_id@ == k.0
                    && items@[i].file_path@ == k.1,
        r->0.serial() == serial,
        r->0.process() == process,
{
    crate::table::lemma_keyed(crate::table::pairs(files@));
    crate::table::lemma_keyed(crate::table::pairs(settings@));
    crate::table::lemma_keyed(crate::table::pairs(collections@));
    crate::table::lemma_keyed(crate::table::pairs(items@));
    let (a, b, c, d) = (
        crate::table::pairs(files@),
        crate::table::pairs(settings@),
        crate::table::pairs(collections@),
        crate::table::pairs(items@),
    );
    assert(forall|i: int| 0 <= i < a.len() ==> (#[trigger] a[i]) == (files@[i].path@, files@[i]@));
    assert(forall|i: int|
        0 <= i < b.len() ==> (#[trigger] b[i]).0 == settings@[i].key@ && b[i].1.1
            == settings@[i].val@);
    assert(forall|i: int|
        0 <= i < c.len() ==> (#[trigger] c[i]) == (collections@[i].id@, collections@[i]@));
    assert(forall|i: int|
        0 <= i < d.len() ==> (#[trigger] d[i]).0 == (
            items@[i].collection_id@,
            items@[i].file_path@,
        ) && d[i].1 == items@[i]@);
    assert forall|i: int| 0 <= i < files@.len() implies r->0@.files.contains_key(
        (#[trigger] files@[i]).path@,
    ) && shows(files@[i], r->0@.files[files@[i].path@]) by {
        assert(a[i].0 == files@[i].path@);
    }
    assert forall|i: int| 0 <= i < settings@.len() implies r->0@.settings.contains_key(
        (#[trigger] settings@[i]).key@,
    ) && r->0@.settings[settings@[i].key@].1 == settings@[i].val@ by {
        assert(b[i].0 == settings@[i].key@);
    }
    assert forall|i: int| 0 <= i < collections@.len() implies r->0@.collections.contains_key(
        (#[trigger] collections@[i]).id@,
    ) && r->0@.collections[collections@[i].id@] == collections@[i]@ by {
        assert(c[i].0 == collections@[i].id@);
    }
    assert forall|i: int| 0 <= i < items@.len() implies r->0@.items.contains_key(
        ((#[trigger] items@[i]).collection_id@, items@[i].file_path@),
    ) && r->0@.items[(items@[i].collection_id@, items@[i].file_path@)] == items@[i]@ by {
        assert(d[i].0 == (items@[i].collection_id@, items@[i].file_path@));
    }
    assert forall|p: Seq<char>| #[trigger] r->0@.files.contains_key(p) implies exists|i: int|
        0 <= i < files@.len() && (#[trigger] files@[i]).path@ == p by {
        let i = choose|i: int| 0 <= i < a.len() && (#[trigger] a[i]).0 == p;
        assert(files@[i].path@ == p);
    }
    assert forall|p: Seq<char>| #[trigger] r->0@.collections.contains_key(p) implies exists|i: int|
        0 <= i < collections@.len() && (#[trigger] collections@[i]).id@ == p by {
        let i = choose|i: int| 0 <= i < c.len() && (#[trigger] c[i]).0 == p;
        assert(collections@[i].id@ == p);
    }
    assert forall|k: (Seq<char>, Seq<char>)| #[trigger] r->0@.items.contains_key(k) implies exists|
        i: int,
    | 0 <= i < items@.len() && (#[trigger] items@[i]).collection_id@ == k.0
        && items@[i].file_path@ == k.1 by {
        let i = choose|i: int| 0 <= i < d.len() && (#[trigger] d[i]).0 == k;
        assert(items@[i].collection_id@ == k.0 && items@[i].file_path@ == k.1);
    }
}

} // verus!
