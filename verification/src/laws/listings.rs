//! Listings and counts: what is shown is what the catalog holds, all of it and in order.

use crate::catalog;
use crate::catalog::Tables;
use crate::consistency;
use crate::db::{Db, Summary};
use crate::laws::files::{means_storage, shows};
use crate::laws::paths::{is_titled, lemma_titled};
use crate::order;
use crate::records::{
    Collection, CollectionDetail, CollectionItem, CollectionItemView, CollectionLine,
    CollectionRec, FileRec, FileRow, Setting,
};
use crate::table;
use crate::text;
use vstd::prelude::*;
use vstd::string::*;

verus! {

/// The entry shows what the catalog holds of it and of its file, field by field.
pub open spec fn entry_shows(v: CollectionItemView, t: Tables, id: Seq<char>) -> bool {
    let k = (id, v.file_path@);
    let (i, f) = (t.items[k], t.files[v.file_path@]);
    &&& t.items.contains_key(k)
    &&& t.files.contains_key(v.file_path@)
    &&& v.hash@ == f.hash
    &&& v.size == f.size
    &&& v.mime@ == f.mime
    &&& v.watched == f.watched
    &&& is_titled(v.title@, f.title, v.file_path@)
    &&& v.season@ == i.season
    &&& v.label@ == i.label
    &&& v.pos == i.pos
}

/// `v` comes before `w`: by position, then by the titles given to the files, then by path.
pub open spec fn entry_comes_first(
    v: CollectionItemView,
    w: CollectionItemView,
    files: Map<Seq<char>, FileRec>,
) -> bool {
    let (x, y) = (files[v.file_path@].title, files[w.file_path@].title);
    ||| v.pos < w.pos
    ||| v.pos == w.pos && order::comes_first(x, y)
    ||| v.pos == w.pos && x == y && order::comes_first(v.file_path@, w.file_path@)
}

/// `s` shows the entries of a collection whose file is listed, each of them once and in order.
pub open spec fn entries_show(s: Seq<CollectionItemView>, t: Tables, id: Seq<char>) -> bool {
    &&& forall|n: int| 0 <= n < s.len() ==> entry_shows(#[trigger] s[n], t, id)
    &&& forall|p: Seq<char>| #[trigger]
        t.items.contains_key((id, p)) && t.files.contains_key(p) ==> exists|n: int|
            0 <= n < s.len() && (#[trigger] s[n]).file_path@ == p
    &&& forall|m: int, n: int|
        0 <= m < n < s.len() ==> (#[trigger] s[m]).file_path@ != (#[trigger] s[n]).file_path@
            && entry_comes_first(s[m], s[n], t.files)
}

proof fn lemma_entries_show(s: Seq<CollectionItemView>, t: Tables, id: Seq<char>)
    requires
        consistency::well_keyed(t),
        catalog::item_views(s) == catalog::detail_items(t, id),
        catalog::is_item_listing(catalog::item_listing(t, id), t, id),
    ensures
        entries_show(s, t, id),
{
    let q = catalog::item_listing(t, id);
    let d = catalog::detail_items(t, id);
    assert(catalog::item_views(s).len() == s.len());
    assert forall|n: int| 0 <= n < s.len() implies (#[trigger] s[n])@ == catalog::item_view(
        q[n],
        t.files[q[n].file_path],
    ) by {
        assert(catalog::item_views(s)[n] == s[n]@);
        assert(d[n] == catalog::item_view(q[n], t.files[q[n].file_path]));
    }
    assert forall|n: int| 0 <= n < s.len() implies entry_shows(#[trigger] s[n], t, id)
        && s[n].file_path@ == q[n].file_path && s[n].pos == q[n].pos && t.items[(
        id,
        q[n].file_path,
    )] == q[n] by {
        assert(catalog::item_shown(t, id)(q[n]));
        let k = choose|k: (Seq<char>, Seq<char>)| #[trigger]
            t.items.contains_key(k) && t.items[k] == q[n];
        assert(k == (id, q[n].file_path));
        lemma_titled(t.files[q[n].file_path].title, q[n].file_path);
    }
    assert forall|p: Seq<char>| #[trigger]
        t.items.contains_key((id, p)) && t.files.contains_key(p) implies exists|n: int|
        0 <= n < s.len() && (#[trigger] s[n]).file_path@ == p by {
        let i = t.items[(id, p)];
        assert(catalog::item_shown(t, id)(i));
        assert(q.contains(i));
        let n = choose|n: int| 0 <= n < q.len() && q[n] == i;
        assert(s[n].file_path@ == p);
    }
    assert forall|m: int, n: int| 0 <= m < n < s.len() implies (#[trigger] s[m]).file_path@ != (
    #[trigger] s[n]).file_path@ && entry_comes_first(s[m], s[n], t.files) by {
        assert(entry_shows(s[m], t, id) && entry_shows(s[n], t, id));
        assert(catalog::item_before(t.files)(q[m], q[n]));
        let (x, y) = (t.files[q[m].file_path].title, t.files[q[n].file_path].title);
        order::law_texts_are_ordered_by_code_point(x, y);
        order::law_texts_are_ordered_by_code_point(q[m].file_path, q[n].file_path);
    }
}

/// The entries of a collection show it: hash, size, media type and watched mark of the listed
/// file, its title, and season, label and position of the entry; all of them, and in order.
pub proof fn law_entries_show_their_files(db: &Db, id: &str, r: Vec<CollectionItemView>)
    requires
        call_ensures(Db::items_of, (db, id), r),
        db.wf(),
    ensures
        entries_show(r@, db@, id@),
{
    db.lemma_keys();
    lemma_entries_show(r@, db@, id@);
}

/// `s` are the collections below `parent`, each of them once, by position and then by age.
pub open spec fn children_show(s: Seq<Collection>, t: Tables, parent: Seq<char>) -> bool {
    &&& collections_show(s, t)
    &&& forall|n: int| 0 <= n < s.len() ==> (#[trigger] s[n]).parent_id@ == parent
    &&& forall|c: Seq<char>| #[trigger]
        t.collections.contains_key(c) && t.collections[c].parent_id == parent ==> exists|n: int|
            0 <= n < s.len() && (#[trigger] s[n]).id@ == c
}

/// Each of `s` is as the catalog holds it, none occurs twice, and they stand by position and
/// then by age.
pub open spec fn collections_show(s: Seq<Collection>, t: Tables) -> bool {
    &&& forall|n: int|
        0 <= n < s.len() ==> t.collections.contains_key((#[trigger] s[n]).id@)
            && collection_shows(s[n], t.collections[s[n].id@])
    &&& forall|m: int, n: int|
        0 <= m < n < s.len() ==> {
            let (a, b) = (#[trigger] s[m], #[trigger] s[n]);
            a.id@ != b.id@ && (a.pos < b.pos || a.pos == b.pos && a.created_at <= b.created_at)
        }
}

/// The collection is the record, field by field.
pub open spec fn collection_shows(c: Collection, d: CollectionRec) -> bool {
    &&& c.id@ == d.id
    &&& c.kind@ == d.kind
    &&& c.title@ == d.title
    &&& c.poster_url@ == d.poster_url
    &&& c.poster_file@ == d.poster_file
    &&& c.created_at == d.created_at
    &&& c.parent_id@ == d.parent_id
    &&& c.pos == d.pos
}

proof fn lemma_collections_show(
    s: Seq<Collection>,
    q: Seq<CollectionRec>,
    t: Tables,
    f: spec_fn(CollectionRec) -> bool,
)
    requires
        consistency::well_keyed(t),
        q.len() == s.len(),
        forall|n: int| 0 <= n < s.len() ==> (#[trigger] q[n]) == s[n]@,
        catalog::is_collection_listing(q, t.collections, f),
    ensures
        collections_show(s, t),
        forall|n: int| 0 <= n < s.len() ==> f((#[trigger] s[n])@),
        forall|c: Seq<char>| #[trigger]
            t.collections.contains_key(c) && f(t.collections[c]) ==> exists|n: int|
                0 <= n < s.len() && (#[trigger] s[n]).id@ == c,
{
    assert forall|n: int| 0 <= n < s.len() implies t.collections.contains_key(
        (#[trigger] s[n]).id@,
    ) && t.collections[s[n].id@] == s[n]@ && f(s[n]@) by {
        assert(q[n] == s[n]@);
        let k = choose|k: Seq<char>| #[trigger]
            t.collections.contains_key(k) && t.collections[k] == q[n];
    }
    assert forall|c: Seq<char>| #[trigger]
        t.collections.contains_key(c) && f(t.collections[c]) implies exists|n: int|
        0 <= n < s.len() && (#[trigger] s[n]).id@ == c by {
        assert(q.contains(t.collections[c]));
        let n = choose|n: int| 0 <= n < q.len() && q[n] == t.collections[c];
        assert(s[n].id@ == c);
    }
    assert forall|m: int, n: int| 0 <= m < n < s.len() implies {
        let (a, b) = (#[trigger] s[m], #[trigger] s[n]);
        a.id@ != b.id@ && (a.pos < b.pos || a.pos == b.pos && a.created_at <= b.created_at)
    } by {
        assert(q[m] == s[m]@ && q[n] == s[n]@);
        assert(q[m] != q[n]);
        assert(catalog::collection_not_after(q[m], q[n]));
        assert(t.collections[s[m].id@] == s[m]@ && t.collections[s[n].id@] == s[n]@);
    }
}

/// All collections are listed.
pub proof fn law_all_collections_are_listed(db: &Db, r: Vec<Collection>)
    requires
        call_ensures(Db::list_collections, (db,), r),
        db.wf(),
    ensures
        collections_show(r@, db@),
        forall|c: Seq<char>| #[trigger]
            db@.collections.contains_key(c) ==> exists|n: int|
                0 <= n < r@.len() && (#[trigger] r@[n]).id@ == c,
{
    db.lemma_keys();
    lemma_collections_show(r@, table::recs(r@), db@, catalog::any_collection());
}

/// All collections below another are listed, and below none the roots.
pub proof fn law_all_children_are_listed(db: &Db, parent: &str, r: Vec<Collection>)
    requires
        call_ensures(Db::list_children, (db, parent), r),
        db.wf(),
    ensures
        children_show(r@, db@, parent@),
{
    db.lemma_keys();
    lemma_collections_show(r@, table::recs(r@), db@, catalog::child_of(parent@));
}

/// A collection is read as the catalog holds it.
pub proof fn law_a_collection_is_read(db: &Db, id: &str, r: Option<Collection>)
    requires
        call_ensures(Db::get_collection, (db, id), r),
        db.wf(),
    ensures
        r is Some <==> db@.collections.contains_key(id@),
        r is Some ==> r->0.id@ == id@ && collection_shows(r->0, db@.collections[id@]),
{
    db.lemma_keys();
}

/// The detail of a collection is the collection with its entries, and with those below it and
/// theirs. Every entry shows its file as the catalog lists it.
pub proof fn law_a_detail_shows_the_catalog(db: &Db, id: &str, r: Option<CollectionDetail>)
    requires
        call_ensures(Db::collection_detail, (db, id), r),
        db.wf(),
    ensures
        r is Some <==> db@.collections.contains_key(id@),
        r is Some ==> detail_shows(r->0, db@, id@),
{
    db.lemma_keys();
    if r is Some {
        lemma_detail_shows(r->0, db@, id@);
    }
}

/// `d` is the collection with its entries and, where it is a root, those below it with theirs.
pub open spec fn detail_shows(d: CollectionDetail, t: Tables, id: Seq<char>) -> bool {
    let kids = Seq::new(d.children@.len(), |n: int| d.children@[n].collection);
    &&& d.collection.id@ == id
    &&& collection_shows(d.collection, t.collections[id])
    &&& entries_show(d.items@, t, id)
    &&& forall|n: int|
        0 <= n < d.children@.len() ==> (#[trigger] d.children@[n]).children@.len() == 0
            && entries_show(d.children@[n].items@, t, d.children@[n].collection.id@)
    &&& d.collection.parent_id@.len() > 0 ==> d.children@.len() == 0
    &&& d.collection.parent_id@.len() == 0 ==> children_show(kids, t, id)
}

/// A detail shows what the catalog holds.
pub proof fn lemma_detail_shows(d: CollectionDetail, t: Tables, id: Seq<char>)
    requires
        consistency::well_keyed(t),
        t.items.dom().finite(),
        t.collections.contains_key(id),
        catalog::is_detail(d, t, id),
    ensures
        detail_shows(d, t, id),
{
    let kids = Seq::new(d.children@.len(), |n: int| d.children@[n].collection);
    consistency::law_entries_are_listed_in_order(t, id);
    lemma_entries_show(d.items@, t, id);
    if t.collections[id].parent_id.len() == 0 {
        let q = catalog::detail_collections(d.children@);
        assert(q.len() == kids.len());
        lemma_collections_show(kids, q, t, catalog::child_of(id));
        assert forall|n: int| 0 <= n < d.children@.len() implies (
        #[trigger] d.children@[n]).children@.len() == 0 && entries_show(
            d.children@[n].items@,
            t,
            d.children@[n].collection.id@,
        ) by {
            let c = d.children@[n].collection.id@;
            assert(catalog::is_leaf_detail(d.children@[n], t, c));
            consistency::law_entries_are_listed_in_order(t, c);
            lemma_entries_show(d.children@[n].items@, t, c);
        }
        assert forall|n: int| 0 <= n < kids.len() implies (#[trigger] kids[n]).parent_id@
            == id by {
            assert(catalog::child_of(id)(kids[n]@));
        }
        assert forall|c: Seq<char>| #[trigger]
            t.collections.contains_key(c) && t.collections[c].parent_id == id implies exists|
            n: int,
        | 0 <= n < kids.len() && (#[trigger] kids[n]).id@ == c by {
            assert(catalog::child_of(id)(t.collections[c]));
        }
    }
}

// ---------------------------------------------------------------------------
// Files
// ---------------------------------------------------------------------------
/// Each of `s` is a file as it is listed, and they stand in the order of their paths.
pub open spec fn files_show(s: Seq<FileRow>, t: Tables) -> bool {
    &&& forall|n: int|
        0 <= n < s.len() ==> t.files.contains_key((#[trigger] s[n]).path@) && shows(
            s[n],
            t.files[s[n].path@],
        )
    &&& forall|m: int, n: int|
        0 <= m < n < s.len() ==> order::comes_first(
            (#[trigger] s[m]).path@,
            (#[trigger] s[n]).path@,
        )
}

proof fn lemma_files_show(
    s: Seq<FileRow>,
    q: Seq<FileRec>,
    from: int,
    t: Tables,
    f: spec_fn(FileRec) -> bool,
)
    requires
        consistency::well_keyed(t),
        catalog::is_file_listing(q, t.files, f),
        0 <= from,
        from + s.len() <= q.len(),
        forall|n: int| 0 <= n < s.len() ==> (#[trigger] s[n])@ == q[from + n],
    ensures
        files_show(s, t),
        forall|n: int| 0 <= n < s.len() ==> f((#[trigger] s[n])@),
        forall|p: Seq<char>|
            from == 0 && s.len() == q.len() && #[trigger] t.files.contains_key(p) && f(t.files[p])
                ==> exists|n: int| 0 <= n < s.len() && (#[trigger] s[n]).path@ == p,
{
    assert forall|n: int| 0 <= n < s.len() implies t.files.contains_key((#[trigger] s[n]).path@)
        && t.files[s[n].path@] == s[n]@ && f(s[n]@) by {
        assert(f(q[from + n]));
        let k = choose|k: Seq<char>| #[trigger]
            t.files.contains_key(k) && t.files[k] == q[from + n];
    }
    assert forall|m: int, n: int| 0 <= m < n < s.len() implies order::comes_first(
        (#[trigger] s[m]).path@,
        (#[trigger] s[n]).path@,
    ) by {
        assert(catalog::by_path()(q[from + m], q[from + n]));
        order::law_texts_are_ordered_by_code_point(s[m].path@, s[n].path@);
    }
    assert forall|p: Seq<char>|
        from == 0 && s.len() == q.len() && #[trigger] t.files.contains_key(p) && f(
            t.files[p],
        ) implies exists|n: int| 0 <= n < s.len() && (#[trigger] s[n]).path@ == p by {
        assert(q.contains(t.files[p]));
        let n = choose|n: int| 0 <= n < q.len() && q[n] == t.files[p];
        assert(s[n]@ == q[from + n]);
        assert(s[n].path@ == p);
    }
}

/// All files are listed, as they are and in the order of their paths.
pub proof fn law_all_files_are_listed(db: &Db, r: Vec<FileRow>)
    requires
        call_ensures(Db::list_files, (db,), r),
        db.wf(),
    ensures
        files_show(r@, db@),
        forall|p: Seq<char>| #[trigger]
            db@.files.contains_key(p) ==> exists|n: int|
                0 <= n < r@.len() && (#[trigger] r@[n]).path@ == p,
{
    db.lemma_keys();
    lemma_all_files(db@, r@);
}

/// A listing of all files shows them.
pub proof fn lemma_all_files(t: Tables, v: Seq<FileRow>)
    requires
        consistency::well_keyed(t),
        catalog::is_file_listing(
            catalog::file_listing(t.files, catalog::any_file()),
            t.files,
            catalog::any_file(),
        ),
        table::recs(v) == catalog::file_listing(t.files, catalog::any_file()),
    ensures
        files_show(v, t),
        forall|p: Seq<char>| #[trigger]
            t.files.contains_key(p) ==> exists|n: int|
                0 <= n < v.len() && (#[trigger] v[n]).path@ == p,
{
    let s = table::recs(v);
    assert forall|n: int| 0 <= n < v.len() implies (#[trigger] v[n])@ == s[0 + n] by {}
    lemma_files_show(v, s, 0, t, catalog::any_file());
}

/// The file is of the kind that the text stands for.
pub open spec fn is_of_kind(f: FileRec, kind: Seq<char>) -> bool {
    &&& means_storage(kind) ==> f.kind == "file"@
    &&& !means_storage(kind) ==> f.kind == "media"@
}

/// The files of a kind are listed, as they are and in the order of their paths: all of them,
/// where there are fewer than ten thousand, and the first ten thousand otherwise.
pub proof fn law_files_of_a_kind_are_listed(db: &Db, kind: &str, r: Vec<FileRow>)
    requires
        call_ensures(Db::list_files_by_kind, (db, kind), r),
        db.wf(),
    ensures
        files_show(r@, db@),
        r@.len() <= 10_000,
        forall|n: int| 0 <= n < r@.len() ==> is_of_kind((#[trigger] r@[n])@, kind@),
        r@.len() < 10_000 ==> forall|p: Seq<char>| #[trigger]
            db@.files.contains_key(p) && is_of_kind(db@.files[p], kind@) ==> exists|n: int|
                0 <= n < r@.len() && (#[trigger] r@[n]).path@ == p,
{
    db.lemma_keys();
    let f = catalog::file_of_kind(catalog::file_kind(kind@));
    let q = catalog::file_listing(db@.files, f);
    let s = table::recs(r@);
    assert(s.len() == r@.len());
    assert(s == catalog::page(q, 10_000, 0));
    assert forall|n: int| 0 <= n < r@.len() implies (#[trigger] r@[n])@ == q[0 + n] by {
        assert(s[n] == r@[n]@);
    }
    lemma_files_show(r@, q, 0, db@, f);
    assert forall|n: int| 0 <= n < r@.len() implies is_of_kind((#[trigger] r@[n])@, kind@) by {
        assert(f(r@[n]@));
    }
    if r@.len() < 10_000 {
        assert forall|p: Seq<char>| #[trigger]
            db@.files.contains_key(p) && is_of_kind(db@.files[p], kind@) implies exists|n: int|
            0 <= n < r@.len() && (#[trigger] r@[n]).path@ == p by {
            assert(f(db@.files[p]));
        }
    }
}

/// A page of the files of a kind is the part of all of them that starts at its offset: it has
/// as many as were asked for, one at least and ten thousand at most, or those that are left.
pub proof fn law_a_page_is_a_part_of_the_list(
    db: &Db,
    kind: &str,
    limit: i64,
    offset: i64,
    all: Vec<FileRow>,
    r: Vec<FileRow>,
)
    requires
        call_ensures(Db::list_files_by_kind, (db, kind), all),
        call_ensures(Db::list_files_by_kind_paged, (db, kind, limit, offset), r),
        db.wf(),
        all@.len() < 10_000,
        offset >= 0,
    ensures
        files_show(r@, db@),
        forall|n: int|
            0 <= n < r@.len() ==> offset + n < all@.len() && (#[trigger] r@[n])@ == all@[offset
                + n]@,
        ({
            let left = if offset < all@.len() {
                all@.len() - offset
            } else {
                0
            };
            let asked: int = if limit < 1 {
                1
            } else if limit > 10_000 {
                10_000
            } else {
                limit as int
            };
            r@.len() == if left < asked {
                left
            } else {
                asked
            }
        }),
{
    db.lemma_keys();
    let f = catalog::file_of_kind(catalog::file_kind(kind@));
    let q = catalog::file_listing(db@.files, f);
    let (s, a) = (table::recs(r@), table::recs(all@));
    assert(a =~= q);
    let from: int = if offset < q.len() {
        offset as int
    } else {
        q.len() as int
    };
    assert(s.len() == r@.len());
    assert forall|n: int| 0 <= n < r@.len() implies (#[trigger] r@[n])@ == q[from + n] by {
        assert(s[n] == r@[n]@);
    }
    lemma_files_show(r@, q, from, db@, f);
    assert forall|n: int| 0 <= n < r@.len() implies offset + n < all@.len() && (
    #[trigger] r@[n])@ == all@[offset + n]@ by {
        assert(a[offset + n] == all@[offset + n]@);
    }
}

/// The files of a kind.
pub open spec fn all_of_kind(t: Tables, kind: Seq<char>) -> Set<Seq<char>> {
    Set::new(|p: Seq<char>| t.files.contains_key(p) && is_of_kind(t.files[p], kind))
}

/// A page has as many files as were asked for, one at least and ten thousand at most, or those
/// that are left behind its offset. The list without pages is the first page of ten thousand.
pub proof fn law_how_long_a_page_is(
    db: &Db,
    kind: &str,
    limit: i64,
    offset: i64,
    all: Vec<FileRow>,
    first: Vec<FileRow>,
    r: Vec<FileRow>,
)
    requires
        call_ensures(Db::list_files_by_kind, (db, kind), all),
        call_ensures(Db::list_files_by_kind_paged, (db, kind, i64::MAX, 0i64), first),
        call_ensures(Db::list_files_by_kind_paged, (db, kind, limit, offset), r),
        db.wf(),
    ensures
        ({
            let total = all_of_kind(db@, kind@).len();
            let from: int = if offset < 0 {
                0
            } else {
                offset as int
            };
            let left = if from < total {
                total - from
            } else {
                0
            };
            let asked: int = if limit < 1 {
                1
            } else if limit > 10_000 {
                10_000
            } else {
                limit as int
            };
            r@.len() == if left < asked {
                left
            } else {
                asked
            }
        }),
        all@.len() == first@.len(),
        forall|n: int| 0 <= n < all@.len() ==> (#[trigger] all@[n])@ == first@[n]@,
{
    db.lemma_keys();
    let f = catalog::file_of_kind(catalog::file_kind(kind@));
    let q = catalog::file_listing(db@.files, f);
    consistency::law_files_are_listed_in_order(db@, f);
    assert(table::picked(db@.files, f) =~= all_of_kind(db@, kind@));
    let (s, t, u) = (table::recs(r@), table::recs(all@), table::recs(first@));
    assert(s.len() == r@.len() && t.len() == all@.len() && u.len() == first@.len());
    assert(t =~= u);
    assert forall|n: int| 0 <= n < all@.len() implies (#[trigger] all@[n])@ == first@[n]@ by {
        assert(t[n] == all@[n]@ && u[n] == first@[n]@);
    }
}

/// A page that begins where another ends goes on with the list: the two are one page of both
/// lengths.
pub proof fn law_pages_go_on(
    db: &Db,
    kind: &str,
    n: i64,
    m: i64,
    offset: i64,
    a: Vec<FileRow>,
    b: Vec<FileRow>,
    c: Vec<FileRow>,
)
    requires
        call_ensures(Db::list_files_by_kind_paged, (db, kind, n, offset), a),
        call_ensures(Db::list_files_by_kind_paged, (db, kind, m, (offset + n) as i64), b),
        call_ensures(Db::list_files_by_kind_paged, (db, kind, (n + m) as i64, offset), c),
        db.wf(),
        n >= 1 && m >= 1 && n + m <= 10_000,
        0 <= offset <= i64::MAX - 10_000,
    ensures
        c@.len() == a@.len() + b@.len(),
        forall|i: int| 0 <= i < a@.len() ==> (#[trigger] c@[i])@ == a@[i]@,
        forall|i: int| a@.len() <= i < c@.len() ==> (#[trigger] c@[i])@ == b@[i - a@.len()]@,
{
    let (x, y, z) = (table::recs(a@), table::recs(b@), table::recs(c@));
    assert(x.len() == a@.len() && y.len() == b@.len() && z.len() == c@.len());
    assert(z =~= x + y);
    assert forall|i: int| 0 <= i < a@.len() implies (#[trigger] c@[i])@ == a@[i]@ by {
        assert(z[i] == c@[i]@ && x[i] == a@[i]@);
    }
    assert forall|i: int| a@.len() <= i < c@.len() implies (#[trigger] c@[i])@ == b@[i
        - a@.len()]@ by {
        assert(z[i] == c@[i]@ && y[i - a@.len()] == b@[i - a@.len()]@);
    }
}

/// A negative offset is one of none.
pub proof fn law_a_negative_offset_is_none(
    db: &Db,
    kind: &str,
    limit: i64,
    offset: i64,
    a: Vec<FileRow>,
    b: Vec<FileRow>,
)
    requires
        call_ensures(Db::list_files_by_kind_paged, (db, kind, limit, offset), a),
        call_ensures(Db::list_files_by_kind_paged, (db, kind, limit, 0i64), b),
        db.wf(),
        offset < 0,
    ensures
        a@.len() == b@.len(),
        forall|n: int| 0 <= n < a@.len() ==> (#[trigger] a@[n])@ == b@[n]@,
{
    let (s, t) = (table::recs(a@), table::recs(b@));
    assert(s.len() == a@.len() && t.len() == b@.len());
    assert(s =~= t);
    assert forall|n: int| 0 <= n < a@.len() implies (#[trigger] a@[n])@ == b@[n]@ by {
        assert(s[n] == a@[n]@ && t[n] == b@[n]@);
    }
}

/// All files are counted, and apart those that are stored and the others.
pub proof fn law_files_are_counted(db: &Db, r: (i64, i64, i64), n: usize)
    requires
        call_ensures(Db::count_files, (db,), r),
        call_ensures(Db::file_count, (db,), n),
        db.wf(),
    ensures
        r.0 == db@.files.dom().len(),
        n == db@.files.dom().len(),
        r.1 == Set::new(
            |p: Seq<char>| db@.files.contains_key(p) && !means_storage(db@.files[p].kind),
        ).len(),
        r.2 == Set::new(
            |p: Seq<char>| db@.files.contains_key(p) && means_storage(db@.files[p].kind),
        ).len(),
        r.0 == r.1 + r.2,
{
    let t = db@;
    reveal_strlit("file");
    reveal_strlit("media");
    assert("file"@.len() == 4 && "media"@.len() == 5);
    assert(table::picked(t.files, catalog::file_stored(false)) =~= Set::new(
        |p: Seq<char>| t.files.contains_key(p) && !means_storage(t.files[p].kind),
    ));
    assert(table::picked(t.files, catalog::file_stored(true)) =~= Set::new(
        |p: Seq<char>| t.files.contains_key(p) && means_storage(t.files[p].kind),
    ));
}

/// A text stands for storage, or else for media.
pub proof fn law_kinds_of_files(raw: &str, r: String)
    requires
        call_ensures(crate::db::normalize_file_kind, (raw,), r),
    ensures
        means_storage(raw@) ==> r@ == "file"@,
        !means_storage(raw@) ==> r@ == "media"@,
{
}

// ---------------------------------------------------------------------------
// Counts of collections
// ---------------------------------------------------------------------------
/// The entries that the detail of a collection shows, its own and those of its children.
pub open spec fn entries_shown(t: Tables, id: Seq<char>) -> Set<(Seq<char>, Seq<char>)> {
    Set::new(
        |k: (Seq<char>, Seq<char>)|
            t.items.contains_key(k) && t.files.contains_key(k.1) && (k.0 == id
                || t.collections[id].parent_id.len() == 0 && t.collections.contains_key(k.0)
                && t.collections[k.0].parent_id == id),
    )
}

/// The collections below another.
pub open spec fn children_of(t: Tables, id: Seq<char>) -> Set<Seq<char>> {
    Set::new(|c: Seq<char>| t.collections.contains_key(c) && t.collections[c].parent_id == id)
}

proof fn lemma_picked_finite<K, V>(m: Map<K, V>, f: spec_fn(V) -> bool)
    requires
        m.dom().finite(),
    ensures
        table::picked(m, f).finite(),
{
    assert(table::picked(m, f).subset_of(m.dom()));
    vstd::set_lib::lemma_len_subset(table::picked(m, f), m.dom());
}

/// Every collection has a line, in the order of the list of collections, with how many entries
/// its detail shows and how many collections are below it.
pub proof fn law_lines_count_what_details_show(db: &Db, r: Vec<CollectionLine>)
    requires
        call_ensures(Db::collection_lines, (db,), r),
        db.wf(),
        consistency::ids_given(db@),
    ensures
        collections_show(Seq::new(r@.len(), |n: int| r@[n].collection), db@),
        forall|c: Seq<char>| #[trigger]
            db@.collections.contains_key(c) ==> exists|n: int|
                0 <= n < r@.len() && (#[trigger] r@[n]).collection.id@ == c,
        forall|n: int|
            0 <= n < r@.len() ==> {
                let id = (#[trigger] r@[n]).collection.id@;
                &&& r@[n].items == entries_shown(db@, id).len()
                &&& r@[n].children == if db@.collections[id].parent_id.len() == 0 {
                    children_of(db@, id).len()
                } else {
                    0
                }
            },
{
    db.lemma_keys();
    lemma_lines(db@, r@);
}

/// Lines with their counts show the collections.
pub proof fn lemma_lines(t: Tables, r: Seq<CollectionLine>)
    requires
        consistency::well_keyed(t),
        consistency::ids_given(t),
        t.items.dom().finite(),
        catalog::is_collection_listing(
            r.map_values(|l: CollectionLine| l.collection@),
            t.collections,
            catalog::any_collection(),
        ),
        forall|i: int|
            0 <= i < r.len() ==> {
                let l = #[trigger] r[i];
                &&& l.items == catalog::visible_counts(t, l.collection@.id).0
                &&& l.children == catalog::visible_counts(t, l.collection@.id).1
            },
    ensures
        collections_show(Seq::new(r.len(), |n: int| r[n].collection), t),
        forall|c: Seq<char>| #[trigger]
            t.collections.contains_key(c) ==> exists|n: int|
                0 <= n < r.len() && (#[trigger] r[n]).collection.id@ == c,
        forall|n: int|
            0 <= n < r.len() ==> {
                let id = (#[trigger] r[n]).collection.id@;
                &&& r[n].items == entries_shown(t, id).len()
                &&& r[n].children == if t.collections[id].parent_id.len() == 0 {
                    children_of(t, id).len()
                } else {
                    0
                }
            },
{
    let s = Seq::new(r.len(), |n: int| r[n].collection);
    let q = r.map_values(|l: CollectionLine| l.collection@);
    lemma_collections_show(s, q, t, catalog::any_collection());
    assert forall|c: Seq<char>| #[trigger] t.collections.contains_key(c) implies exists|n: int|
        0 <= n < r.len() && (#[trigger] r[n]).collection.id@ == c by {
        assert(catalog::any_collection()(t.collections[c]));
        let n = choose|n: int| 0 <= n < s.len() && (#[trigger] s[n]).id@ == c;
        assert(r[n].collection.id@ == c);
    }
    assert forall|n: int| 0 <= n < r.len() implies {
        let id = (#[trigger] r[n]).collection.id@;
        &&& r[n].items == entries_shown(t, id).len()
        &&& r[n].children == if t.collections[id].parent_id.len() == 0 {
            children_of(t, id).len()
        } else {
            0
        }
    } by {
        let id = r[n].collection.id@;
        assert(s[n].id@ == id);
        lemma_visible(t, id);
    }
}

/// What a detail shows is counted.
pub proof fn lemma_visible(t: Tables, id: Seq<char>)
    requires
        consistency::well_keyed(t),
        t.items.dom().finite(),
        t.collections.contains_key(id),
        id.len() > 0,
    ensures
        catalog::visible_counts(t, id).0 == entries_shown(t, id).len(),
        catalog::visible_counts(t, id).1 == if t.collections[id].parent_id.len() == 0 {
            children_of(t, id).len()
        } else {
            0
        },
{
    let own = table::picked(t.items, catalog::item_shown(t, id));
    let below = table::picked(t.items, catalog::item_shown_below(t, id));
    lemma_picked_finite(t.items, catalog::item_shown(t, id));
    lemma_picked_finite(t.items, catalog::item_shown_below(t, id));
    let kids = table::picked(t.collections, catalog::child_of(id));
    assert(kids =~= children_of(t, id));
    if t.collections[id].parent_id.len() == 0 {
        assert(own.disjoint(below)) by {
            assert forall|k: (Seq<char>, Seq<char>)| own.contains(k) implies !below.contains(k) by {
                assert(t.items[k].collection_id == id);
            }
        }
        assert forall|k: (Seq<char>, Seq<char>)|
            (own + below).contains(k) <==> entries_shown(t, id).contains(k) by {
            if t.items.contains_key(k) {
                assert(t.items[k].collection_id == k.0 && t.items[k].file_path == k.1);
            }
        }
        assert(own + below =~= entries_shown(t, id));
        vstd::set_lib::lemma_set_disjoint_lens(own, below);
    } else {
        assert forall|k: (Seq<char>, Seq<char>)|
            own.contains(k) <==> entries_shown(t, id).contains(k) by {
            if t.items.contains_key(k) {
                assert(t.items[k].collection_id == k.0 && t.items[k].file_path == k.1);
            }
        }
        assert(own =~= entries_shown(t, id));
    }
}

/// While the catalog is in order, what a detail shows is what there is.
pub proof fn lemma_counts(t: Tables, id: Seq<char>)
    requires
        consistency::consistent(t),
        t.items.dom().finite(),
        t.collections.contains_key(id),
    ensures
        catalog::collection_counts(t, id) == (entries_shown(t, id).len(), children_of(t, id).len()),
{
    consistency::law_summary_agrees_with_detail(t, id);
    lemma_visible(t, id);
    if t.collections[id].parent_id.len() > 0 {
        assert forall|c: Seq<char>| !children_of(t, id).contains(c) by {
            if children_of(t, id).contains(c) {
                assert(t.collections.contains_key(c) && t.collections[c].parent_id.len() > 0);
            }
        }
        assert(children_of(t, id) =~= Set::empty());
    }
}

/// The summary tells of every collection how many entries its detail shows, and how many
/// collections are below it.
pub proof fn law_the_summary_counts_what_details_show(
    db: &Db,
    s: Summary,
    id: &str,
    r: Option<(i64, i64)>,
)
    requires
        call_ensures(Db::collections_summary, (db,), s),
        call_ensures(Summary::get, (&s, id), r),
        db.wf(),
        consistency::consistent(db@),
    ensures
        r is Some <==> db@.collections.contains_key(id@),
        r is Some ==> {
            let counts = r->0;
            &&& counts.0 == entries_shown(db@, id@).len()
            &&& counts.1 == children_of(db@, id@).len()
        },
{
    db.lemma_keys();
    if db@.collections.contains_key(id@) {
        assert(s@.dom().contains(id@));
        lemma_counts(db@, id@);
    } else {
        assert(!s@.dom().contains(id@));
    }
}

/// The tables are small enough for their counts.
pub proof fn law_what_can_be_counted(db: &Db, r: bool)
    requires
        call_ensures(Db::countable, (db,), r),
        db.wf(),
    ensures
        r <==> db@.files.dom().len() <= i64::MAX && 2 * db@.items.dom().len() <= i64::MAX
            && db@.collections.dom().len() <= i64::MAX,
{
}

/// The collection that holds a file is found, and none where no collection does.
pub proof fn law_the_collection_of_a_file_is_found(db: &Db, path: &str, r: Option<String>)
    requires
        call_ensures(Db::collection_of, (db, path), r),
        db.wf(),
    ensures
        r is Some ==> db@.items.contains_key((r->0@, path@)),
        r is Some <==> exists|c: Seq<char>| #[trigger] db@.items.contains_key((c, path@)),
{
    if r is Some {
        assert(db@.items.contains_key((r->0@, path@)));
    }
}

/// A collection has children where another one names it as its parent.
pub proof fn law_who_has_children(db: &Db, id: &str, r: bool)
    requires
        call_ensures(Db::has_children, (db, id), r),
        db.wf(),
    ensures
        r <==> exists|c: Seq<char>| #[trigger]
            db@.collections.contains_key(c) && db@.collections[c].parent_id == id@,
{
}

// ---------------------------------------------------------------------------
// What is stored
// ---------------------------------------------------------------------------
/// A new catalog is empty.
pub proof fn law_a_new_catalog_is_empty(process: u32, r: Db)
    requires
        call_ensures(Db::open_in_memory, (process,), r),
    ensures
        r.wf(),
        forall|p: Seq<char>| !#[trigger] r@.files.contains_key(p),
        forall|p: Seq<char>| !#[trigger] r@.settings.contains_key(p),
        forall|p: Seq<char>| !#[trigger] r@.collections.contains_key(p),
        forall|k: (Seq<char>, Seq<char>)| !#[trigger] r@.items.contains_key(k),
        r.process() == process,
{
}

/// The rows that the catalog gives out are those that it holds, each of them once.
pub proof fn law_what_is_held_is_given_out(
    db: &Db,
    files: &[FileRow],
    settings: &[Setting],
    collections: &[Collection],
    items: &[CollectionItem],
)
    requires
        call_ensures(Db::files, (db,), files),
        call_ensures(Db::settings, (db,), settings),
        call_ensures(Db::collections, (db,), collections),
        call_ensures(Db::items, (db,), items),
        db.wf(),
    ensures
        forall|p: Seq<char>| #[trigger]
            db@.files.contains_key(p) <==> exists|n: int|
                0 <= n < files@.len() && (#[trigger] files@[n]).path@ == p,
        forall|n: int|
            0 <= n < files@.len() ==> shows(
                #[trigger] files@[n],
                db@.files[files@[n].path@],
            ),
        forall|p: Seq<char>| #[trigger]
            db@.settings.contains_key(p) <==> exists|n: int|
                0 <= n < settings@.len() && (#[trigger] settings@[n]).key@ == p,
        forall|n: int|
            0 <= n < settings@.len() ==> db@.settings[(#[trigger] settings@[n]).key@].1
                == settings@[n].val@,
        forall|c: Seq<char>| #[trigger]
            db@.collections.contains_key(c) <==> exists|n: int|
                0 <= n < collections@.len() && (#[trigger] collections@[n]).id@ == c,
        forall|n: int|
            0 <= n < collections@.len() ==> collection_shows(
                #[trigger] collections@[n],
                db@.collections[collections@[n].id@],
            ),
        forall|c: Seq<char>, p: Seq<char>| #[trigger]
            db@.items.contains_key((c, p)) <==> exists|n: int|
                0 <= n < items@.len() && (#[trigger] items@[n]).collection_id@ == c
                    && items@[n].file_path@ == p,
        forall|n: int|
            0 <= n < items@.len() ==> {
                let i = #[trigger] items@[n];
                let e = db@.items[(i.collection_id@, i.file_path@)];
                i.season@ == e.season && i.label@ == e.label && i.pos == e.pos
            },
{
    let (a, b, c, d) = (
        table::pairs(files@),
        table::pairs(settings@),
        table::pairs(collections@),
        table::pairs(items@),
    );
    table::lemma_keyed(a);
    table::lemma_keyed(b);
    table::lemma_keyed(c);
    table::lemma_keyed(d);
    assert forall|n: int| 0 <= n < files@.len() implies db@.files.contains_key(
        (#[trigger] files@[n]).path@,
    ) && db@.files[files@[n].path@] == files@[n]@ by {
        assert(a[n] == (files@[n].path@, files@[n]@));
    }
    assert forall|n: int| 0 <= n < settings@.len() implies db@.settings.contains_key(
        (#[trigger] settings@[n]).key@,
    ) && db@.settings[settings@[n].key@].1 == settings@[n].val@ by {
        assert(b[n].0 == settings@[n].key@ && b[n].1.1 == settings@[n].val@);
    }
    assert forall|n: int| 0 <= n < collections@.len() implies db@.collections.contains_key(
        (#[trigger] collections@[n]).id@,
    ) && db@.collections[collections@[n].id@] == collections@[n]@ by {
        assert(c[n] == (collections@[n].id@, collections@[n]@));
    }
    assert forall|n: int| 0 <= n < items@.len() implies db@.items.contains_key(
        ((#[trigger] items@[n]).collection_id@, items@[n].file_path@),
    ) && db@.items[(items@[n].collection_id@, items@[n].file_path@)] == items@[n]@ by {
        assert(d[n] == ((items@[n].collection_id@, items@[n].file_path@), items@[n]@));
    }
    assert forall|p: Seq<char>| #[trigger] db@.files.contains_key(p) implies exists|n: int|
        0 <= n < files@.len() && (#[trigger] files@[n]).path@ == p by {
        let n = choose|n: int| 0 <= n < a.len() && (#[trigger] a[n]).0 == p;
        assert(files@[n].path@ == p);
    }
    assert forall|p: Seq<char>| #[trigger] db@.settings.contains_key(p) implies exists|n: int|
        0 <= n < settings@.len() && (#[trigger] settings@[n]).key@ == p by {
        let n = choose|n: int| 0 <= n < b.len() && (#[trigger] b[n]).0 == p;
        assert(settings@[n].key@ == p);
    }
    assert forall|p: Seq<char>| #[trigger] db@.collections.contains_key(p) implies exists|n: int|
        0 <= n < collections@.len() && (#[trigger] collections@[n]).id@ == p by {
        let n = choose|n: int| 0 <= n < c.len() && (#[trigger] c[n]).0 == p;
        assert(collections@[n].id@ == p);
    }
    assert forall|x: Seq<char>, p: Seq<char>| #[trigger]
        db@.items.contains_key((x, p)) implies exists|n: int|
        0 <= n < items@.len() && (#[trigger] items@[n]).collection_id@ == x
            && items@[n].file_path@ == p by {
        let n = choose|n: int| 0 <= n < d.len() && (#[trigger] d[n]).0 == (x, p);
        assert(items@[n].collection_id@ == x && items@[n].file_path@ == p);
    }
}

} // verus!
