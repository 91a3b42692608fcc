//! What holds of the catalog as a whole, whatever is done to it.

use crate::catalog;
use crate::catalog::Tables;
use crate::numbers;
use crate::order;
use crate::records;
use crate::records::CollectionDetail;
use crate::table;
use crate::text;
use vstd::prelude::*;

use crate::records::{CollectionRec, FileRec, ItemRec};

verus! {

/// Something that changes the catalog.
pub enum Change {
    Upsert { row: FileRec },
    Retitle { path: Seq<char>, title: Seq<char> },
    Watch { path: Seq<char>, watched: bool },
    DropPath { path: Seq<char> },
    DropHash { hash: Seq<char> },
    Setting { key: Seq<char>, val: Seq<char> },
    Create {
        kind: Seq<char>,
        title: Seq<char>,
        parent_id: Seq<char>,
        now: i64,
        serial: u64,
        process: u32,
    },
    Update {
        id: Seq<char>,
        new_title: Option<Seq<char>>,
        new_poster: Option<Seq<char>>,
        new_kind: Option<Seq<char>>,
    },
    Poster { id: Seq<char>, file: Seq<char> },
    DropCollection { id: Seq<char> },
    AddItem {
        id: Seq<char>,
        path: Seq<char>,
        season: Seq<char>,
        label: Seq<char>,
        pos: i64,
    },
    ReorderItems { id: Seq<char>, order: Seq<Seq<char>> },
    ReorderChildren { root: Seq<char>, order: Seq<Seq<char>> },
    DropItem { id: Seq<char>, path: Seq<char> },
}

/// The catalog after a change.
pub open spec fn after(t: Tables, c: Change) -> Tables {
    match c {
        Change::Upsert { row } => catalog::upserted(t, row),
        Change::Retitle { path, title } => catalog::retitled(t, path, title),
        Change::Watch { path, watched } => catalog::marked_watched(t, path, watched),
        Change::DropPath { path } => catalog::without_path(t, path),
        Change::DropHash { hash } => catalog::without_hash(t, hash),
        Change::Setting { key, val } => Tables { settings: t.settings.insert(key, (key, val)), ..t },
        Change::Create { kind, title, parent_id, now, serial, process } => catalog::created(
            t,
            catalog::create_outcome(t, kind, title, parent_id, now, serial, process),
        ),
        Change::Update { id, new_title, new_poster, new_kind } => catalog::updated(
            t,
            id,
            new_title,
            new_poster,
            new_kind,
        ),
        Change::Poster { id, file } => catalog::with_poster(t, id, file),
        Change::DropCollection { id } => catalog::without_collection(t, id),
        Change::AddItem { id, path, season, label, pos } => catalog::with_item(
            t,
            id,
            path,
            season,
            label,
            pos,
        ),
        Change::ReorderItems { id, order } => catalog::items_reordered(t, id, order),
        Change::ReorderChildren { root, order } => catalog::children_reordered(t, root, order),
        Change::DropItem { id, path } => catalog::without_item(t, id, path),
    }
}

/// Every entry of a table stands under its own key.
pub open spec fn well_keyed(t: Tables) -> bool {
    &&& forall|p: Seq<char>| #[trigger] t.files.contains_key(p) ==> t.files[p].path == p
    &&& forall|c: Seq<char>| #[trigger] t.collections.contains_key(c) ==> t.collections[c].id == c
    &&& forall|k: (Seq<char>, Seq<char>)| #[trigger]
        t.items.contains_key(k) ==> t.items[k].collection_id == k.0 && t.items[k].file_path == k.1
}

/// An entry names a collection that exists and a file that is listed.
pub open spec fn no_dangling_items(t: Tables) -> bool {
    forall|k: (Seq<char>, Seq<char>)| #[trigger]
        t.items.contains_key(k) ==> t.collections.contains_key(k.0) && t.files.contains_key(k.1)
}

/// A file has an entry in one collection at most.
pub open spec fn one_place(t: Tables) -> bool {
    forall|a: Seq<char>, b: Seq<char>, p: Seq<char>|
        #![trigger t.items.contains_key((a, p)), t.items.contains_key((b, p))]
        t.items.contains_key((a, p)) && t.items.contains_key((b, p)) ==> a == b
}

/// There are two levels: the parent of a collection exists and is a root.
pub open spec fn two_levels(t: Tables) -> bool {
    forall|c: Seq<char>| #[trigger]
        t.collections.contains_key(c) && t.collections[c].parent_id.len() > 0
            ==> t.collections.contains_key(t.collections[c].parent_id)
            && t.collections[t.collections[c].parent_id].parent_id.len() == 0
}

/// No collection has an empty id.
pub open spec fn ids_given(t: Tables) -> bool {
    forall|c: Seq<char>| #[trigger] t.collections.contains_key(c) ==> c.len() > 0
}

/// The catalog is in order.
pub open spec fn consistent(t: Tables) -> bool {
    &&& well_keyed(t)
    &&& ids_given(t)
    &&& no_dangling_items(t)
    &&& one_place(t)
    &&& two_levels(t)
}

/// An empty catalog is in order.
pub proof fn law_an_empty_catalog_is_consistent(t: Tables)
    requires
        t.files == Map::<Seq<char>, FileRec>::empty(),
        t.collections == Map::<Seq<char>, CollectionRec>::empty(),
        t.items == Map::<(Seq<char>, Seq<char>), ItemRec>::empty(),
    ensures
        consistent(t),
        films_hold_one(t),
        files_in_leaves(t),
        kinds_known(t),
{
}

proof fn lemma_files_keyed(t: Tables, c: Change)
    requires
        well_keyed(t),
    ensures
        forall|p: Seq<char>| #[trigger]
            after(t, c).files.contains_key(p) ==> after(t, c).files[p].path == p,
{
    assert forall|p: Seq<char>| #[trigger] after(t, c).files.contains_key(p) implies after(
        t,
        c,
    ).files[p].path == p by {
        if t.files.contains_key(p) {
            assert(t.files[p].path == p);
        }
    }
}

proof fn lemma_collections_keyed(t: Tables, c: Change)
    requires
        well_keyed(t),
    ensures
        forall|k: Seq<char>| #[trigger]
            after(t, c).collections.contains_key(k) ==> after(t, c).collections[k].id == k,
{
    assert forall|k: Seq<char>| #[trigger] after(t, c).collections.contains_key(k) implies after(
        t,
        c,
    ).collections[k].id == k by {
        if t.collections.contains_key(k) {
            assert(t.collections[k].id == k);
        }
    }
}

proof fn lemma_items_keyed(t: Tables, c: Change)
    requires
        well_keyed(t),
    ensures
        forall|k: (Seq<char>, Seq<char>)| #[trigger]
            after(t, c).items.contains_key(k) ==> after(t, c).items[k].collection_id == k.0
                && after(t, c).items[k].file_path == k.1,
{
    assert forall|k: (Seq<char>, Seq<char>)| #[trigger]
        after(t, c).items.contains_key(k) implies after(t, c).items[k].collection_id == k.0
        && after(t, c).items[k].file_path == k.1 by {
        if t.items.contains_key(k) {
            assert(t.items[k].collection_id == k.0 && t.items[k].file_path == k.1);
        }
    }
}

#[verifier::spinoff_prover]
proof fn lemma_none_dangling(t: Tables, c: Change)
    requires
        consistent(t),
    ensures
        no_dangling_items(after(t, c)),
{
    let u = after(t, c);
    assert forall|k: (Seq<char>, Seq<char>)| #[trigger]
        u.items.contains_key(k) implies u.collections.contains_key(k.0) && u.files.contains_key(
        k.1,
    ) by {
        if t.items.contains_key(k) {
            assert(t.collections.contains_key(k.0) && t.files.contains_key(k.1));
            assert(t.items[k].collection_id == k.0 && t.items[k].file_path == k.1);
            assert(t.collections[k.0].id == k.0);
        } else {
            lemma_new_entries(t, c, k);
        }
    }
}

/// The change puts the entry `k` into a collection.
spec fn puts(t: Tables, c: Change, k: (Seq<char>, Seq<char>)) -> bool {
    c matches Change::AddItem { id, path, .. } && k == (id, path) && catalog::add_outcome(
        t,
        id,
        path,
    ) is Ok
}

/// The change makes a collection, which takes over the entry `k` from its parent.
spec fn hands_down(t: Tables, c: Change, k: (Seq<char>, Seq<char>)) -> bool {
    c matches Change::Create { kind, title, parent_id, now, serial, process }
        && catalog::create_outcome(t, kind, title, parent_id, now, serial, process) matches Ok(new)
        && new.parent_id.len() > 0 && new.kind != "movie"@ && k.0 == new.id && t.items.contains_key((new.parent_id, k.1))
}

proof fn lemma_new_entries(t: Tables, c: Change, k: (Seq<char>, Seq<char>))
    requires
        after(t, c).items.contains_key(k),
        !t.items.contains_key(k),
    ensures
        puts(t, c, k) || hands_down(t, c, k),
{
}

#[verifier::spinoff_prover]
proof fn lemma_one_place_kept(t: Tables, c: Change)
    requires
        consistent(t),
    ensures
        one_place(after(t, c)),
{
    let u = after(t, c);
    assert forall|a: Seq<char>, b: Seq<char>, p: Seq<char>|
        #![trigger u.items.contains_key((a, p)), u.items.contains_key((b, p))]
        u.items.contains_key((a, p)) && u.items.contains_key((b, p)) implies a == b by {
        if !t.items.contains_key((a, p)) {
            lemma_new_entries(t, c, (a, p));
            lemma_new_alone(t, c, a, b, p);
        } else if !t.items.contains_key((b, p)) {
            lemma_new_entries(t, c, (b, p));
            lemma_new_alone(t, c, b, a, p);
        }
    }
}

/// Where a file gets a new entry, it has no other.
proof fn lemma_new_alone(t: Tables, c: Change, a: Seq<char>, b: Seq<char>, p: Seq<char>)
    requires
        consistent(t),
        puts(t, c, (a, p)) || hands_down(t, c, (a, p)),
        after(t, c).items.contains_key((b, p)),
    ensures
        a == b,
{
    if a != b {
        if puts(t, c, (a, p)) {
            assert(t.items.contains_key((b, p)));
            assert(t.items[(b, p)].collection_id == b && t.items[(b, p)].file_path == p);
            assert(catalog::item_elsewhere(a, p)(t.items[(b, p)]));
        } else {
            let new = after(t, c).collections[a];
            assert(t.items.contains_key((new.parent_id, p)));
            assert(t.items.contains_key((b, p)));
        }
    }
}

#[verifier::spinoff_prover]
proof fn lemma_two_levels_kept(t: Tables, c: Change)
    requires
        consistent(t),
    ensures
        two_levels(after(t, c)),
{
    let u = after(t, c);
    assert forall|k: Seq<char>| #[trigger]
        u.collections.contains_key(k) && u.collections[k].parent_id.len() > 0 implies
        u.collections.contains_key(u.collections[k].parent_id)
        && u.collections[u.collections[k].parent_id].parent_id.len() == 0 by {
        if t.collections.contains_key(k) {
            let p = t.collections[k].parent_id;
            assert(t.collections[k].id == k);
            if p.len() > 0 {
                assert(t.collections.contains_key(p));
                assert(t.collections[p].id == p);
                assert(t.collections[p].parent_id.len() == 0);
            }
        }
    }
}

proof fn lemma_ids_stay_given(t: Tables, c: Change)
    requires
        consistent(t),
    ensures
        ids_given(after(t, c)),
{
    let u = after(t, c);
    assert forall|k: Seq<char>| #[trigger] u.collections.contains_key(k) implies k.len() > 0 by {
        if !t.collections.contains_key(k) {
            lemma_new_collections(t, c, k);
            if let Change::Create { now, serial, process, .. } = c {
                lemma_ids_are_trimmed(now, serial, process);
            }
        }
    }
}

/// Every change keeps the catalog in order: no entry without its collection and file, no
/// file in two collections, no third level.
pub proof fn law_changes_keep_consistency(t: Tables, c: Change)
    requires
        consistent(t),
    ensures
        consistent(after(t, c)),
{
    lemma_files_keyed(t, c);
    lemma_collections_keyed(t, c);
    lemma_items_keyed(t, c);
    lemma_ids_stay_given(t, c);
    lemma_none_dangling(t, c);
    lemma_one_place_kept(t, c);
    lemma_two_levels_kept(t, c);
}

/// The collection has one entry at most.
pub open spec fn holds_one(items: Map<(Seq<char>, Seq<char>), ItemRec>, id: Seq<char>) -> bool {
    forall|p: Seq<char>, q: Seq<char>|
        #![trigger items.contains_key((id, p)), items.contains_key((id, q))]
        items.contains_key((id, p)) && items.contains_key((id, q)) ==> p == q
}

/// A film has one entry at most.
pub open spec fn films_hold_one(t: Tables) -> bool {
    forall|c: Seq<char>|
        #![trigger t.collections.contains_key(c)]
        t.collections.contains_key(c) && t.collections[c].kind == "movie"@ ==> holds_one(
            t.items,
            c,
        )
}

/// The change turns the collection `k` into a film.
pub open spec fn makes_film(c: Change, k: Seq<char>) -> bool {
    c matches Change::Update { id, new_title: None, new_poster: None, new_kind: Some(n) } && id == k
        && catalog::collection_kind(n) == "movie"@
}

proof fn lemma_films_stay(t: Tables, c: Change, k: Seq<char>)
    requires
        after(t, c).collections.contains_key(k),
        after(t, c).collections[k].kind == "movie"@,
        t.collections.contains_key(k),
        !makes_film(c, k),
    ensures
        t.collections[k].kind == "movie"@,
{
}

/// Every change keeps films at one file, but for turning a collection of several files into
/// a film.
#[verifier::spinoff_prover]
pub proof fn law_changes_keep_films_single(t: Tables, c: Change)
    requires
        consistent(t),
        films_hold_one(t),
        forall|k: Seq<char>| #[trigger] makes_film(c, k) ==> holds_one(t.items, k),
    ensures
        films_hold_one(after(t, c)),
{
    let u = after(t, c);
    assert forall|k: Seq<char>|
        #![trigger u.collections.contains_key(k)]
        u.collections.contains_key(k) && u.collections[k].kind
            == "movie"@ implies holds_one(u.items, k) by {
        if t.collections.contains_key(k) && !makes_film(c, k) {
            lemma_films_stay(t, c, k);
        }
        assert forall|p: Seq<char>, q: Seq<char>|
            #![trigger u.items.contains_key((k, p)), u.items.contains_key((k, q))]
            u.items.contains_key((k, p)) && u.items.contains_key((k, q)) implies p == q by {
            lemma_film_keeps_one(t, c, k, p, q);
        }
    }
}

proof fn lemma_film_keeps_one(t: Tables, c: Change, k: Seq<char>, p: Seq<char>, q: Seq<char>)
    requires
        consistent(t),
        t.collections.contains_key(k) ==> holds_one(t.items, k),
        t.collections.contains_key(k) ==> t.collections[k].kind == "movie"@ || makes_film(c, k),
        after(t, c).collections.contains_key(k),
        after(t, c).collections[k].kind == "movie"@,
        after(t, c).items.contains_key((k, p)),
        after(t, c).items.contains_key((k, q)),
    ensures
        p == q,
{
    if !t.items.contains_key((k, p)) {
        lemma_new_entries(t, c, (k, p));
    }
    if !t.items.contains_key((k, q)) {
        lemma_new_entries(t, c, (k, q));
    }
    if t.items.contains_key((k, p)) {
        assert(t.collections.contains_key(k));
        assert(t.items[(k, p)].collection_id == k && t.items[(k, p)].file_path == p);
    }
    if t.items.contains_key((k, q)) {
        assert(t.collections.contains_key(k));
        assert(t.items[(k, q)].collection_id == k && t.items[(k, q)].file_path == q);
    }
    if p != q {
        if !t.items.contains_key((k, p)) && t.items.contains_key((k, q)) {
            assert(catalog::holds_other(t, k, p));
        }
        if t.items.contains_key((k, p)) && !t.items.contains_key((k, q)) {
            assert(catalog::holds_other(t, k, q));
        }
    }
}

/// Files are in collections without children alone.
pub open spec fn files_in_leaves(t: Tables) -> bool {
    forall|k: (Seq<char>, Seq<char>)| #[trigger]
        t.items.contains_key(k) ==> !catalog::has_children(t, k.0)
}

proof fn lemma_new_collections(t: Tables, c: Change, k: Seq<char>)
    requires
        after(t, c).collections.contains_key(k),
        !(t.collections.contains_key(k) && t.collections[k].parent_id == after(
            t,
            c,
        ).collections[k].parent_id),
    ensures
        c matches Change::Create { kind, title, parent_id, now, serial, process }
            && catalog::create_outcome(t, kind, title, parent_id, now, serial, process) == Ok::<
            CollectionRec,
            catalog::DbError,
        >(after(t, c).collections[k]),
        !t.collections.contains_key(k),
{
}

/// Every change keeps files to collections without children.
#[verifier::spinoff_prover]
pub proof fn law_changes_keep_files_in_leaves(t: Tables, c: Change)
    requires
        consistent(t),
        files_in_leaves(t),
    ensures
        files_in_leaves(after(t, c)),
{
    let u = after(t, c);
    assert forall|k: (Seq<char>, Seq<char>)| #[trigger]
        u.items.contains_key(k) implies !catalog::has_children(u, k.0) by {
        if catalog::has_children(u, k.0) {
            let d = choose|d: Seq<char>| #[trigger]
                u.collections.contains_key(d) && u.collections[d].parent_id == k.0;
            law_changes_keep_consistency(t, c);
            assert(u.collections.contains_key(k.0) && k.0.len() > 0);
            if !(t.collections.contains_key(d) && t.collections[d].parent_id == k.0) {
                lemma_new_collections(t, c, d);
                assert(k.0 != d);
            } else {
                assert(catalog::has_children(t, k.0));
                assert(t.collections.contains_key(k.0));
                if !t.items.contains_key(k) {
                    lemma_new_entries(t, c, k);
                }
            }
        }
    }
}

/// A collection with children has no entries of its own.
pub proof fn law_a_collection_with_children_has_no_entries(
    t: Tables,
    id: Seq<char>,
    d: CollectionDetail,
)
    requires
        well_keyed(t),
        t.items.dom().finite(),
        files_in_leaves(t),
        t.collections.contains_key(id),
        catalog::is_detail(d, t, id),
        d.children@.len() > 0,
    ensures
        d.items@.len() == 0,
{
    let children = catalog::detail_collections(d.children@);
    assert(catalog::child_of(id)(children[0]));
    let k = choose|k: Seq<char>| #[trigger]
        t.collections.contains_key(k) && t.collections[k] == children[0];
    assert(catalog::has_children(t, id));
    law_entries_are_listed_in_order(t, id);
    let listing = catalog::item_listing(t, id);
    assert(catalog::item_views(d.items@).len() == d.items@.len());
    if d.items@.len() > 0 {
        assert(catalog::item_shown(t, id)(listing[0]));
        let e = choose|e: (Seq<char>, Seq<char>)| #[trigger]
            t.items.contains_key(e) && t.items[e] == listing[0];
        assert(e.0 == id);
    }
}

/// The kind of every file is `media` or `file`.
pub open spec fn kinds_known(t: Tables) -> bool {
    forall|p: Seq<char>| #[trigger]
        t.files.contains_key(p) ==> t.files[p].kind == "media"@ || t.files[p].kind == "file"@
}

/// Every change keeps the kinds of files to the two that there are.
pub proof fn law_changes_keep_kinds(t: Tables, c: Change)
    requires
        kinds_known(t),
    ensures
        kinds_known(after(t, c)),
{
    let u = after(t, c);
    assert forall|p: Seq<char>| #[trigger] u.files.contains_key(p) implies u.files[p].kind
        == "media"@ || u.files[p].kind == "file"@ by {
        if t.files.contains_key(p) {
            assert(t.files[p].kind == "media"@ || t.files[p].kind == "file"@);
        }
    }
}

/// What is streamed and what is only stored do not mix, and together they are everything.
pub proof fn law_kinds_part_the_files(t: Tables, f: FileRec)
    requires
        kinds_known(t),
        t.files.contains_key(f.path),
        t.files[f.path] == f,
    ensures
        catalog::file_of_kind("media"@)(f) != catalog::file_of_kind("file"@)(f),
{
    reveal_strlit("media");
    reveal_strlit("file");
    assert("media"@.len() == 5);
    assert("file"@.len() == 4);
}

/// A file that was listed is read back with what was listed, under a kind that is known; the
/// other files stay as they were.
pub proof fn law_a_listed_file_reads_back(t: Tables, row: FileRec, other: Seq<char>)
    ensures
        ({
            let u = catalog::upserted(t, row);
            let f = u.files[row.path];
            &&& u.files.contains_key(row.path)
            &&& f.path == row.path && f.hash == row.hash && f.size == row.size
            &&& f.mime == row.mime && f.policy == row.policy && f.host_id == row.host_id
            &&& f.tag == row.tag && f.kind == catalog::file_kind(row.kind)
            &&& other != row.path ==> u.files.contains_key(other) == t.files.contains_key(other)
                && u.files[other] == t.files[other]
        }),
{
}

/// A setting is read back as it was set; the others stay as they were.
pub proof fn law_a_setting_reads_back(t: Tables, key: Seq<char>, val: Seq<char>, other: Seq<char>)
    ensures
        ({
            let u = after(t, Change::Setting { key, val });
            &&& u.settings.contains_key(key) && u.settings[key].1 == val
            &&& other != key ==> u.settings.contains_key(other) == t.settings.contains_key(other)
                && u.settings[other] == t.settings[other]
        }),
{
}

/// The catalog after some changes, one after the other.
pub open spec fn after_all(t: Tables, changes: Seq<Change>) -> Tables
    decreases changes.len(),
{
    if changes.len() == 0 {
        t
    } else {
        after(after_all(t, changes.drop_last()), changes.last())
    }
}

/// Whatever is done to a catalog that was empty, it is in order: no entry without its
/// collection and file, no file in two collections, no third level, no entry in a collection
/// with children, no other kind of file than the two that there are.
pub proof fn law_a_catalog_is_always_in_order(t: Tables, changes: Seq<Change>)
    requires
        t.files == Map::<Seq<char>, FileRec>::empty(),
        t.collections == Map::<Seq<char>, CollectionRec>::empty(),
        t.items == Map::<(Seq<char>, Seq<char>), ItemRec>::empty(),
    ensures
        consistent(after_all(t, changes)),
        files_in_leaves(after_all(t, changes)),
        kinds_known(after_all(t, changes)),
    decreases changes.len(),
{
    if changes.len() == 0 {
        law_an_empty_catalog_is_consistent(t);
    } else {
        law_a_catalog_is_always_in_order(t, changes.drop_last());
        let u = after_all(t, changes.drop_last());
        law_changes_keep_consistency(u, changes.last());
        law_changes_keep_files_in_leaves(u, changes.last());
        law_changes_keep_kinds(u, changes.last());
    }
}

/// Listing a file again keeps its title and its watched mark.
pub proof fn law_upsert_keeps_title_and_watched(t: Tables, row: FileRec)
    requires
        t.files.contains_key(row.path),
    ensures
        catalog::upserted(t, row).files[row.path].title == t.files[row.path].title,
        catalog::upserted(t, row).files[row.path].watched == t.files[row.path].watched,
{
}

/// Removing a collection removes no file.
pub proof fn law_removing_a_collection_keeps_files(t: Tables, id: Seq<char>)
    ensures
        catalog::without_collection(t, id).files == t.files,
{
}

/// Removing a collection removes no entry of an unrelated one.
pub proof fn law_removing_a_collection_keeps_others(
    t: Tables,
    id: Seq<char>,
    other: Seq<char>,
    p: Seq<char>,
)
    requires
        consistent(t),
        t.items.contains_key((other, p)),
        other != id,
        id.len() == 0 || t.collections[other].parent_id != id,
    ensures
        catalog::without_collection(t, id).collections.contains_key(other),
        catalog::without_collection(t, id).items.contains_key((other, p)),
        catalog::without_collection(t, id).items[(other, p)] == t.items[(other, p)],
{
    assert(t.collections.contains_key(other));
}

/// Where no collection has the id, the empty one above all, nothing is removed.
pub proof fn law_removing_no_collection_changes_nothing(t: Tables, id: Seq<char>)
    requires
        consistent(t),
        !t.collections.contains_key(id),
    ensures
        catalog::without_collection(t, id) == t,
{
    let u = catalog::without_collection(t, id);
    assert forall|c: Seq<char>| #[trigger] t.collections.contains_key(c) implies !catalog::in_family(
        id,
    )(t.collections[c]) by {
        assert(t.collections[c].id == c);
    }
    assert(u.collections =~= t.collections);
    assert forall|k: (Seq<char>, Seq<char>)| #[trigger]
        t.items.contains_key(k) implies !catalog::item_in_family(t, id)(t.items[k]) by {
        assert(t.items[k].collection_id == k.0);
        assert(t.collections.contains_key(k.0));
    }
    assert(u.items =~= t.items);
}

/// Removing a collection removes it and those below it.
pub proof fn law_removing_a_collection_cascades(t: Tables, id: Seq<char>, c: Seq<char>)
    requires
        consistent(t),
        t.collections.contains_key(c),
        c == id || id.len() > 0 && t.collections[c].parent_id == id,
    ensures
        !catalog::without_collection(t, id).collections.contains_key(c),
        forall|p: Seq<char>|
            !#[trigger] catalog::without_collection(t, id).items.contains_key((c, p)),
{
    assert forall|p: Seq<char>|
        !#[trigger] catalog::without_collection(t, id).items.contains_key((c, p)) by {
        if t.items.contains_key((c, p)) {
            assert(t.items[(c, p)].collection_id == c);
        }
    }
}

/// A file that is put into a collection is there and nowhere else. The entries of the other
/// files, the files and the collections stay as they were.
pub proof fn law_a_moved_file_is_in_one_place(
    t: Tables,
    id: Seq<char>,
    path: Seq<char>,
    season: Seq<char>,
    label: Seq<char>,
    pos: i64,
    c: Seq<char>,
    p: Seq<char>,
)
    requires
        well_keyed(t),
        catalog::add_outcome(t, id, path) is Ok,
    ensures
        ({
            let u = catalog::with_item(t, id, path, season, label, pos);
            &&& u.items.contains_key((c, path)) <==> c == id
            &&& p != path ==> u.items.contains_key((c, p)) == t.items.contains_key((c, p))
            &&& p != path && t.items.contains_key((c, p)) ==> u.items[(c, p)] == t.items[(c, p)]
            &&& u.files == t.files
            &&& u.collections == t.collections
        }),
{
    let u = catalog::with_item(t, id, path, season, label, pos);
    if c != id && t.items.contains_key((c, path)) {
        assert(t.items[(c, path)].file_path == path);
    }
    if p != path && t.items.contains_key((c, p)) {
        assert(t.items[(c, p)].file_path == p);
        assert(u.items.contains_key((c, p)));
    }
}

/// After the files with a content hash were removed there is none, and no entry of one.
pub proof fn law_a_removed_hash_is_gone(t: Tables, hash: Seq<char>, c: Seq<char>, p: Seq<char>)
    requires
        well_keyed(t),
        t.files.contains_key(p),
        t.files[p].hash == hash,
    ensures
        !catalog::hash_listed(catalog::without_hash(t, hash), hash),
        !catalog::without_hash(t, hash).items.contains_key((c, p)),
{
    if t.items.contains_key((c, p)) {
        assert(t.items[(c, p)].file_path == p);
    }
}

/// The title that was set is the one shown; a blank one shows the name of the file.
pub proof fn law_a_title_set_is_shown(t: Tables, path: Seq<char>, title: Seq<char>)
    requires
        t.files.contains_key(path),
    ensures
        ({
            let name = text::clip(text::trimmed(title), 128);
            let shown = records::shown_title(catalog::retitled(t, path, title).files[path].title, path);
            if text::trimmed(title).len() > 0 {
                shown == name
            } else {
                shown == records::shown_title(Seq::empty(), path)
            }
        }),
{
    let s = text::trimmed(title);
    let name = text::clip(s, 128);
    if s.len() > 0 {
        text::lemma_trimmed_starts(title);
        assert(name[0] == s[0]);
        text::lemma_trimmed_keeps(name);
    } else {
        assert(name =~= Seq::<char>::empty());
    }
}

/// The files that `f` picks are listed in the order of their paths, each of them once.
pub proof fn law_files_are_listed_in_order(t: Tables, f: spec_fn(FileRec) -> bool)
    requires
        well_keyed(t),
        t.files.dom().finite(),
    ensures
        catalog::is_file_listing(catalog::file_listing(t.files, f), t.files, f),
        catalog::file_listing(t.files, f).len() == table::picked(t.files, f).len(),
{
    let lt = catalog::by_path();
    assert forall|x: FileRec, y: FileRec, z: FileRec| #[trigger] lt(x, y) && #[trigger] lt(
        y,
        z,
    ) implies lt(x, z) by {
        lemma_text_lt_transitive(x.path, y.path, z.path);
    }
    assert forall|a: Seq<char>, b: Seq<char>|
        #![trigger t.files[a], t.files[b]]
        t.files.contains_key(a) && t.files.contains_key(b) && f(t.files[a]) && f(t.files[b]) && a
            != b implies lt(t.files[a], t.files[b]) || lt(t.files[b], t.files[a]) by {
        order::lemma_text_total(a, b);
    }
    let s = catalog::lemma_listing_exists(t.files, f, lt);
    catalog::lemma_file_listing(s, t.files, f);
}

proof fn lemma_text_lt_transitive(a: Seq<char>, b: Seq<char>, c: Seq<char>)
    requires
        order::text_lt(a, b),
        order::text_lt(b, c),
    ensures
        order::text_lt(a, c),
{
    order::lemma_text_transitive(a, b, c);
    if a == c {
        order::lemma_text_antisymmetric(a, b);
    }
}

/// The entries of a collection are listed by position, then by title, then by path, each of
/// them once.
pub proof fn law_entries_are_listed_in_order(t: Tables, id: Seq<char>)
    requires
        well_keyed(t),
        t.items.dom().finite(),
    ensures
        catalog::is_item_listing(catalog::item_listing(t, id), t, id),
        catalog::item_listing(t, id).len() == table::picked(
            t.items,
            catalog::item_shown(t, id),
        ).len(),
{
    let f = catalog::item_shown(t, id);
    let lt = catalog::item_before(t.files);
    assert forall|x: ItemRec, y: ItemRec, z: ItemRec| #[trigger] lt(x, y) && #[trigger] lt(
        y,
        z,
    ) implies lt(x, z) by {
        let (a, b, c) = (
            t.files[x.file_path].title,
            t.files[y.file_path].title,
            t.files[z.file_path].title,
        );
        if order::text_lt(a, b) && order::text_lt(b, c) {
            lemma_text_lt_transitive(a, b, c);
        }
        if order::text_lt(x.file_path, y.file_path) && order::text_lt(y.file_path, z.file_path) {
            lemma_text_lt_transitive(x.file_path, y.file_path, z.file_path);
        }
    }
    assert forall|a: (Seq<char>, Seq<char>), b: (Seq<char>, Seq<char>)|
        #![trigger t.items[a], t.items[b]]
        t.items.contains_key(a) && t.items.contains_key(b) && f(t.items[a]) && f(t.items[b]) && a
            != b implies lt(t.items[a], t.items[b]) || lt(t.items[b], t.items[a]) by {
        let (x, y) = (t.items[a].file_path, t.items[b].file_path);
        assert(x == a.1 && y == b.1 && a.0 == b.0);
        order::lemma_text_total(x, y);
        order::lemma_text_total(t.files[x].title, t.files[y].title);
    }
    let s = catalog::lemma_listing_exists(t.items, f, lt);
    catalog::lemma_item_listing(s, t, id);
}

/// The pages of `n` elements before page `k`, one after the other.
pub open spec fn pages_before<A>(s: Seq<A>, n: nat, k: nat) -> Seq<A>
    decreases k,
{
    if k == 0 {
        Seq::empty()
    } else {
        pages_before(s, n, (k - 1) as nat) + catalog::page(s, n, ((k - 1) * n) as nat)
    }
}

/// Pages neither repeat nor skip: the first `k` of them are the first `k * n` elements.
pub proof fn law_pages_make_up_the_list<A>(s: Seq<A>, n: nat, k: nat)
    ensures
        pages_before(s, n, k) == catalog::page(s, k * n, 0),
    decreases k,
{
    if k == 0 {
        assert(0 * n == 0) by (nonlinear_arith);
        assert(catalog::page(s, 0, 0) =~= Seq::<A>::empty());
    } else {
        let j = (k - 1) as nat;
        law_pages_make_up_the_list(s, n, j);
        assert(k * n == j * n + n) by (nonlinear_arith)
            requires
                k == j + 1,
        ;
        assert(pages_before(s, n, k) =~= catalog::page(s, k * n, 0));
    }
}

/// What precedes the first hyphen, and what follows it, are determined.
proof fn lemma_split_at_hyphen(a: Seq<char>, b: Seq<char>, x: Seq<char>, y: Seq<char>)
    requires
        !a.contains('-'),
        !x.contains('-'),
        a + "-"@ + b == x + "-"@ + y,
    ensures
        a == x,
        b == y,
{
    reveal_strlit("-");
    let s = a + "-"@ + b;
    let t = x + "-"@ + y;
    assert(s[a.len() as int] == '-');
    assert(t[x.len() as int] == '-');
    if a.len() < x.len() {
        assert(x[a.len() as int] == t[a.len() as int]);
        assert(x.contains(x[a.len() as int]));
    }
    if x.len() < a.len() {
        assert(a[x.len() as int] == s[x.len() as int]);
        assert(a.contains(a[x.len() as int]));
    }
    assert(a =~= s.take(a.len() as int));
    assert(x =~= t.take(x.len() as int));
    assert(b =~= s.skip(a.len() as int + 1));
    assert(y =~= t.skip(x.len() as int + 1));
}

/// The ids of collections differ unless instant, number and process are all the same.
pub proof fn law_ids_differ(
    now1: i64,
    serial1: u64,
    process1: u32,
    now2: i64,
    serial2: u64,
    process2: u32,
)
    requires
        catalog::collection_id(now1, serial1, process1) == catalog::collection_id(
            now2,
            serial2,
            process2,
        ),
    ensures
        now1 == now2,
        serial1 == serial2,
        process1 == process2,
{
    reveal_strlit("c");
    let (n1, n2) = (now1 as u64, now2 as u64);
    let (a1, b1, c1) = (
        numbers::hex_text(n1 as nat),
        numbers::hex_text(serial1 as nat),
        numbers::decimal_text(process1 as nat),
    );
    let (a2, b2, c2) = (
        numbers::hex_text(n2 as nat),
        numbers::hex_text(serial2 as nat),
        numbers::decimal_text(process2 as nat),
    );
    numbers::lemma_digits_have_no_hyphen(n1 as nat, 16);
    numbers::lemma_digits_have_no_hyphen(n2 as nat, 16);
    numbers::lemma_digits_have_no_hyphen(serial1 as nat, 16);
    numbers::lemma_digits_have_no_hyphen(serial2 as nat, 16);
    let r1 = b1 + "-"@ + c1;
    let r2 = b2 + "-"@ + c2;
    assert(catalog::collection_id(now1, serial1, process1).skip(1) =~= a1 + "-"@ + r1);
    assert(catalog::collection_id(now2, serial2, process2).skip(1) =~= a2 + "-"@ + r2);
    lemma_split_at_hyphen(a1, r1, a2, r2);
    lemma_split_at_hyphen(b1, c1, b2, c2);
    numbers::lemma_digits_are_injective(n1 as nat, n2 as nat, 16);
    numbers::lemma_digits_are_injective(serial1 as nat, serial2 as nat, 16);
    numbers::lemma_decimal_is_injective(process1 as nat, process2 as nat);
    assert(now1 as u64 == now2 as u64 ==> now1 == now2) by (bit_vector);
}

/// In an order without repetitions, the last place of an element is its place.
proof fn lemma_last_place(order: Seq<Seq<char>>, i: int)
    requires
        order.no_duplicates(),
        0 <= i < order.len(),
    ensures
        catalog::last_place(order, order[i]) == Some(i),
    decreases order.len(),
{
    if order.last() == order[i] {
        assert(order[order.len() - 1] == order[i]);
    } else {
        let rest = order.drop_last();
        assert(rest[i] == order[i]);
        lemma_last_place(rest, i);
    }
}

/// A collection that is put in order is listed in that order, where the order names each
/// of its files once.
pub proof fn law_items_follow_their_order(t: Tables, id: Seq<char>, order: Seq<Seq<char>>)
    requires
        consistent(t),
        t.collections.contains_key(id),
        order.no_duplicates(),
        order.len() <= i64::MAX,
        forall|p: Seq<char>| order.contains(p) <==> #[trigger] t.items.contains_key((id, p)),
    ensures
        catalog::item_listing(catalog::items_reordered(t, id, order), id).map_values(
            |i: ItemRec| i.file_path,
        ) == order,
{
    let u = catalog::items_reordered(t, id, order);
    let s = Seq::new(order.len(), |i: int| u.items[(id, order[i])]);
    assert forall|i: int| 0 <= i < order.len() implies u.items.contains_key(
        (id, #[trigger] order[i]),
    ) && s[i].pos == i && s[i].collection_id == id && s[i].file_path == order[i]
        && u.files.contains_key(order[i]) by {
        assert(order.contains(order[i]));
        assert(t.items.contains_key((id, order[i])));
        lemma_last_place(order, i);
    }
    assert(order::ascending(s, catalog::item_before(u.files)));
    let f = catalog::item_shown(u, id);
    assert forall|i: int| 0 <= i < s.len() implies f(#[trigger] s[i]) && exists|
        k: (Seq<char>, Seq<char>),
    | #[trigger] u.items.contains_key(k) && u.items[k] == s[i] by {
        assert(u.items.contains_key((id, order[i])));
    }
    assert forall|k: (Seq<char>, Seq<char>)| #[trigger]
        u.items.contains_key(k) && f(u.items[k]) implies s.contains(u.items[k]) by {
        assert(t.items.contains_key(k));
        assert(k.0 == id);
        assert(t.items.contains_key((id, k.1)));
        assert(order.contains(k.1));
        let i = choose|i: int| 0 <= i < order.len() && order[i] == k.1;
        assert(s[i] == u.items[k]);
    }
    catalog::lemma_item_listing(s, u, id);
    assert(s.map_values(|i: ItemRec| i.file_path) =~= order);
}

/// Collections by position.
spec fn by_pos() -> spec_fn(CollectionRec, CollectionRec) -> bool {
    |a: CollectionRec, b: CollectionRec| a.pos < b.pos
}

/// The collections below a root that are put in order are listed in that order, where the
/// order names each of them once.
pub proof fn law_children_follow_their_order(
    t: Tables,
    root: Seq<char>,
    order: Seq<Seq<char>>,
    listing: Seq<CollectionRec>,
)
    requires
        consistent(t),
        t.collections.contains_key(root),
        order.no_duplicates(),
        order.len() <= i64::MAX,
        forall|c: Seq<char>|
            order.contains(c) <==> #[trigger] t.collections.contains_key(c)
                && t.collections[c].parent_id == root,
        catalog::is_collection_listing(
            listing,
            catalog::children_reordered(t, root, order).collections,
            catalog::child_of(root),
        ),
    ensures
        listing.map_values(|c: CollectionRec| c.id) == order,
{
    let u = catalog::children_reordered(t, root, order);
    let f = catalog::child_of(root);
    let s = Seq::new(order.len(), |i: int| u.collections[order[i]]);
    assert forall|i: int| 0 <= i < order.len() implies u.collections.contains_key(
        #[trigger] order[i],
    ) && s[i].pos == i && s[i].parent_id == root && s[i].id == order[i] by {
        assert(order.contains(order[i]));
        assert(t.collections.contains_key(order[i]));
        lemma_last_place(order, i);
    }
    assert(order::ascending(s, by_pos()));
    assert forall|i: int| 0 <= i < s.len() implies f(#[trigger] s[i]) && exists|k: Seq<char>|
        #[trigger] u.collections.contains_key(k) && u.collections[k] == s[i] by {
        assert(u.collections.contains_key(order[i]));
    }
    assert forall|k: Seq<char>| #[trigger]
        u.collections.contains_key(k) && f(u.collections[k]) implies s.contains(
        u.collections[k],
    ) by {
        assert(t.collections.contains_key(k));
        assert(order.contains(k));
        let i = choose|i: int| 0 <= i < order.len() && order[i] == k;
        assert(s[i] == u.collections[k]);
    }
    assert forall|i: int, j: int| 0 <= i < j < listing.len() implies by_pos()(
        #[trigger] listing[i],
        #[trigger] listing[j],
    ) by {
        let a = choose|k: Seq<char>| #[trigger]
            u.collections.contains_key(k) && u.collections[k] == listing[i];
        let b = choose|k: Seq<char>| #[trigger]
            u.collections.contains_key(k) && u.collections[k] == listing[j];
        assert(s.contains(u.collections[a]));
        assert(s.contains(u.collections[b]));
        let x = choose|x: int| 0 <= x < s.len() && s[x] == u.collections[a];
        let y = choose|y: int| 0 <= y < s.len() && s[y] == u.collections[b];
        assert(order[x] == order[x] && order[y] == order[y]);
        assert(listing[i] != listing[j]);
        assert(catalog::collection_not_after(listing[i], listing[j]));
    }
    assert(order::asymmetric(by_pos()));
    catalog::lemma_listing_unique(listing, s, u.collections, f, by_pos());
    assert(s.map_values(|c: CollectionRec| c.id) =~= order);
}

/// An entry that is put behind the others is the last of its collection.
pub proof fn law_an_appended_file_is_last(
    t: Tables,
    id: Seq<char>,
    path: Seq<char>,
    season: Seq<char>,
    label: Seq<char>,
    pos: i64,
)
    requires
        consistent(t),
        t.items.dom().finite(),
        pos <= 0,
        catalog::add_outcome(t, id, path) is Ok,
        catalog::item_fits(t, id),
    ensures
        ({
            let listing = catalog::item_listing(
                catalog::with_item(t, id, path, season, label, pos),
                id,
            );
            listing.len() > 0 && listing.last().file_path == path
        }),
{
    broadcast use vstd::set::group_set_axioms;

    let u = catalog::with_item(t, id, path, season, label, pos);
    let listing = catalog::item_listing(u, id);
    law_changes_keep_consistency(t, Change::AddItem { id, path, season, label, pos });
    assert(u.items.dom().finite()) by {
        let all = t.items.dom().insert((id, path));
        assert(u.items.dom().subset_of(all));
        vstd::set_lib::lemma_len_subset(u.items.dom(), all);
    }
    law_entries_are_listed_in_order(u, id);
    let new = catalog::new_item(t, id, path, season, label, pos);
    let taken = catalog::item_positions(t, id);
    lemma_positions_bounded(taken);
    assert(u.items.contains_key((id, path)) && u.items[(id, path)] == new);
    assert(catalog::item_shown(u, id)(new));
    assert(listing.contains(new));
    let i = choose|i: int| 0 <= i < listing.len() && listing[i] == new;
    if i < listing.len() - 1 {
        let last = listing[listing.len() - 1];
        assert(catalog::item_before(u.files)(listing[i], last));
        let k = choose|k: (Seq<char>, Seq<char>)| #[trigger]
            u.items.contains_key(k) && u.items[k] == last;
        if k == (id, path) {
            catalog::lemma_text_lt_asymmetric();
            assert(last == new);
        } else {
            assert(t.items.contains_key(k) && t.items[k] == last);
            assert(taken.contains(last.pos as int));
            assert(last.pos < new.pos);
        }
    }
}

/// A new collection is the last of its level.
pub proof fn law_a_new_collection_is_last(
    t: Tables,
    kind: Seq<char>,
    title: Seq<char>,
    parent_id: Seq<char>,
    now: i64,
    serial: u64,
    process: u32,
    listing: Seq<CollectionRec>,
)
    requires
        catalog::create_outcome(t, kind, title, parent_id, now, serial, process) is Ok,
        catalog::child_fits(t, text::trimmed(parent_id)),
        catalog::is_collection_listing(
            listing,
            after(t, Change::Create { kind, title, parent_id, now, serial, process }).collections,
            catalog::child_of(text::trimmed(parent_id)),
        ),
    ensures
        listing.len() > 0,
        listing.last().id == catalog::collection_id(now, serial, process),
{
    let outcome = catalog::create_outcome(t, kind, title, parent_id, now, serial, process);
    let new = outcome->Ok_0;
    let u = catalog::created(t, outcome);
    let parent = text::trimmed(parent_id);
    let taken = catalog::child_positions(t, parent);
    lemma_positions_bounded(taken);
    assert(u.collections.contains_key(new.id) && u.collections[new.id] == new);
    assert(catalog::child_of(parent)(new));
    assert(listing.contains(new));
    let i = choose|i: int| 0 <= i < listing.len() && listing[i] == new;
    if i < listing.len() - 1 {
        let last = listing[listing.len() - 1];
        assert(catalog::collection_not_after(listing[i], last));
        assert(catalog::child_of(parent)(last));
        let k = choose|k: Seq<char>| #[trigger]
            u.collections.contains_key(k) && u.collections[k] == last;
        if k != new.id {
            assert(t.collections.contains_key(k) && t.collections[k] == last);
            assert(taken.contains(last.pos as int));
            assert(last.pos < new.pos);
        }
    }
}

/// A season that is made below another collection takes over its entries, in their order. The
/// entries of the others stay as they were.
pub proof fn law_a_season_takes_over_the_entries(
    t: Tables,
    kind: Seq<char>,
    title: Seq<char>,
    parent_id: Seq<char>,
    now: i64,
    serial: u64,
    process: u32,
    other: Seq<char>,
    p: Seq<char>,
)
    requires
        consistent(t),
        t.items.dom().finite(),
        catalog::create_outcome(t, kind, title, parent_id, now, serial, process) is Ok,
        catalog::collection_kind(kind) != "movie"@,
        text::trimmed(parent_id).len() > 0,
        other != text::trimmed(parent_id),
        other != catalog::collection_id(now, serial, process),
    ensures
        ({
            let parent = text::trimmed(parent_id);
            let id = catalog::collection_id(now, serial, process);
            let u = after(t, Change::Create { kind, title, parent_id, now, serial, process });
            &&& catalog::item_listing(u, id) == catalog::item_listing(t, parent).map_values(
                |i: ItemRec| catalog::moved_to(i, id),
            )
            &&& !u.items.contains_key((parent, p))
            &&& u.items.contains_key((other, p)) == t.items.contains_key((other, p))
            &&& t.items.contains_key((other, p)) ==> u.items[(other, p)] == t.items[(other, p)]
            &&& u.files == t.files
        }),
{
    let parent = text::trimmed(parent_id);
    let id = catalog::collection_id(now, serial, process);
    let u = after(t, Change::Create { kind, title, parent_id, now, serial, process });
    reveal_strlit("season");
    reveal_strlit("movie");
    assert("season"@.len() == 6 && "movie"@.len() == 5);
    let old_listing = catalog::item_listing(t, parent);
    let s = old_listing.map_values(|i: ItemRec| catalog::moved_to(i, id));
    law_entries_are_listed_in_order(t, parent);
    let f = catalog::item_shown(u, id);
    assert(order::ascending(s, catalog::item_before(u.files))) by {
        assert forall|i: int, j: int| 0 <= i < j < s.len() implies catalog::item_before(u.files)(
            #[trigger] s[i],
            #[trigger] s[j],
        ) by {
            assert(catalog::item_before(t.files)(old_listing[i], old_listing[j]));
        }
    }
    assert forall|i: int| 0 <= i < s.len() implies f(#[trigger] s[i]) && exists|
        k: (Seq<char>, Seq<char>),
    | #[trigger] u.items.contains_key(k) && u.items[k] == s[i] by {
        assert(catalog::item_shown(t, parent)(old_listing[i]));
        let k = choose|k: (Seq<char>, Seq<char>)| #[trigger]
            t.items.contains_key(k) && t.items[k] == old_listing[i];
        assert(k == (parent, k.1));
        assert(u.items.contains_key((id, k.1)));
        assert(u.items[(id, k.1)] == s[i]);
    }
    assert forall|k: (Seq<char>, Seq<char>)| #[trigger]
        u.items.contains_key(k) && f(u.items[k]) implies s.contains(u.items[k]) by {
        law_changes_keep_consistency(
            t,
            Change::Create { kind, title, parent_id, now, serial, process },
        );
        assert(k.0 == id);
        let e = (parent, k.1);
        assert(t.items.contains_key(e));
        assert(t.items[e].file_path == k.1 && t.items[e].collection_id == parent);
        assert(catalog::item_shown(t, parent)(t.items[e]));
        assert(old_listing.contains(t.items[e]));
        let i = choose|i: int| 0 <= i < old_listing.len() && old_listing[i] == t.items[e];
        assert(s[i] == u.items[k]);
    }
    catalog::lemma_item_listing(s, u, id);
}

/// A film that is made below another collection has no entry. The entries of its parent go, and
/// those of the others stay as they were; no file goes.
pub proof fn law_a_film_takes_over_no_entry(
    t: Tables,
    kind: Seq<char>,
    title: Seq<char>,
    parent_id: Seq<char>,
    now: i64,
    serial: u64,
    process: u32,
    other: Seq<char>,
    p: Seq<char>,
)
    requires
        consistent(t),
        catalog::create_outcome(t, kind, title, parent_id, now, serial, process) is Ok,
        catalog::collection_kind(kind) == "movie"@,
        text::trimmed(parent_id).len() > 0,
        other != text::trimmed(parent_id),
    ensures
        ({
            let u = after(t, Change::Create { kind, title, parent_id, now, serial, process });
            &&& !u.items.contains_key((catalog::collection_id(now, serial, process), p))
            &&& !u.items.contains_key((text::trimmed(parent_id), p))
            &&& u.items.contains_key((other, p)) == t.items.contains_key((other, p))
            &&& t.items.contains_key((other, p)) ==> u.items[(other, p)] == t.items[(other, p)]
            &&& u.files == t.files
        }),
{
    let id = catalog::collection_id(now, serial, process);
    let parent = text::trimmed(parent_id);
    assert(!t.items.contains_key((id, p)));
    if t.items.contains_key((parent, p)) {
        assert(t.items[(parent, p)].collection_id == parent);
    }
    if t.items.contains_key((other, p)) {
        assert(t.items[(other, p)].collection_id == other);
    }
}

/// A collection is made exactly where its title is not blank and its parent, if one is named,
/// is a root. Where it is refused nothing changes. The one other refusal is an id that is taken.
pub proof fn law_when_a_collection_is_made(
    t: Tables,
    kind: Seq<char>,
    title: Seq<char>,
    parent_id: Seq<char>,
    now: i64,
    serial: u64,
    process: u32,
)
    requires
        !t.collections.contains_key(catalog::collection_id(now, serial, process)),
    ensures
        ({
            let parent = text::trimmed(parent_id);
            let made = catalog::create_outcome(t, kind, title, parent_id, now, serial, process);
            &&& made is Err <==> text::trimmed(title).len() == 0 || parent.len() > 0 && (
            !t.collections.contains_key(parent) || t.collections[parent].parent_id.len() > 0)
            &&& made is Err ==> catalog::created(t, made) == t
        }),
{
}

/// Positions have a largest one, which none exceeds.
pub proof fn lemma_positions_bounded(s: Set<int>)
    requires
        forall|x: int| #[trigger] s.contains(x) ==> i64::MIN <= x <= i64::MAX,
    ensures
        forall|x: int| #[trigger]
            s.contains(x) ==> x <= catalog::largest_or_zero(s) <= i64::MAX,
        s.contains(catalog::largest_or_zero(s)) || catalog::largest_or_zero(s) == 0 && forall|
            x: int,
        | !#[trigger] s.contains(x),
{
    if exists|x: int| s.contains(x) {
        let x = choose|x: int| s.contains(x);
        lemma_largest_exists(s, x, i64::MAX as int);
    }
}

/// A set of numbers with an upper bound has a largest one.
proof fn lemma_largest_exists(s: Set<int>, x: int, top: int)
    requires
        s.contains(x),
        forall|y: int| #[trigger] s.contains(y) ==> y <= top,
    ensures
        exists|m: int| s.contains(m) && forall|y: int| #[trigger] s.contains(y) ==> y <= m,
    decreases top - x,
{
    if exists|y: int| s.contains(y) && y > x {
        let y = choose|y: int| s.contains(y) && y > x;
        lemma_largest_exists(s, y, top);
    } else {
        assert(s.contains(x) && forall|y: int| #[trigger] s.contains(y) ==> y <= x);
    }
}

/// How many entries the first `n` of some collections show.
pub open spec fn shown_in(t: Tables, collections: Seq<CollectionRec>, n: nat) -> nat
    decreases n,
{
    if n == 0 {
        0
    } else {
        shown_in(t, collections, (n - 1) as nat) + table::picked(
            t.items,
            catalog::item_shown(t, collections[n - 1].id),
        ).len()
    }
}

/// The keys of the entries that the first `n` of some collections show.
spec fn keys_in(t: Tables, collections: Seq<CollectionRec>, n: nat) -> Set<(Seq<char>, Seq<char>)> {
    Set::new(
        |k: (Seq<char>, Seq<char>)|
            t.items.contains_key(k) && t.files.contains_key(k.1) && exists|i: int|
                0 <= i < n && (#[trigger] collections[i]).id == k.0,
    )
}

proof fn lemma_shown_in(t: Tables, collections: Seq<CollectionRec>, n: nat)
    requires
        well_keyed(t),
        t.items.dom().finite(),
        n <= collections.len(),
        forall|i: int, j: int|
            0 <= i < j < collections.len() ==> (#[trigger] collections[i]).id != (
            #[trigger] collections[j]).id,
    ensures
        keys_in(t, collections, n).finite(),
        keys_in(t, collections, n).len() == shown_in(t, collections, n),
    decreases n,
{
    broadcast use vstd::set::group_set_axioms;

    if n == 0 {
        assert(keys_in(t, collections, n) =~= Set::empty());
    } else {
        let m = (n - 1) as nat;
        let id = collections[n - 1].id;
        lemma_shown_in(t, collections, m);
        let a = keys_in(t, collections, m);
        let b = table::picked(t.items, catalog::item_shown(t, id));
        assert(b.subset_of(t.items.dom()));
        vstd::set_lib::lemma_len_subset(b, t.items.dom());
        assert forall|k: (Seq<char>, Seq<char>)|
            keys_in(t, collections, n).contains(k) <==> a.union(b).contains(k) by {
            if t.items.contains_key(k) {
                assert(t.items[k].collection_id == k.0 && t.items[k].file_path == k.1);
                if keys_in(t, collections, n).contains(k) {
                    let i = choose|i: int| 0 <= i < n && (#[trigger] collections[i]).id == k.0;
                    if i < n - 1 {
                        assert(a.contains(k));
                    }
                }
                if a.contains(k) {
                    let i = choose|i: int| 0 <= i < m && (#[trigger] collections[i]).id == k.0;
                    assert(keys_in(t, collections, n).contains(k));
                }
                if b.contains(k) {
                    assert(collections[n - 1].id == k.0);
                }
            }
        }
        assert(keys_in(t, collections, n) =~= a.union(b));
        assert(a.disjoint(b)) by {
            assert forall|k: (Seq<char>, Seq<char>)| a.contains(k) implies !b.contains(k) by {
                let i = choose|i: int| 0 <= i < m && (#[trigger] collections[i]).id == k.0;
                assert(t.items[k].collection_id == k.0);
                assert(collections[i].id != collections[n - 1].id);
            }
        }
        vstd::set_lib::lemma_set_disjoint_lens(a, b);
    }
}

/// A root counts what it shows, what its children show, and how many children there are.
proof fn lemma_root_counts(t: Tables, id: Seq<char>, children: Seq<CollectionRec>)
    requires
        well_keyed(t),
        t.items.dom().finite(),
        t.collections.contains_key(id),
        t.collections[id].parent_id.len() == 0,
        catalog::is_collection_listing(children, t.collections, catalog::child_of(id)),
    ensures
        catalog::visible_counts(t, id).0 == table::picked(
            t.items,
            catalog::item_shown(t, id),
        ).len() + shown_in(t, children, children.len()),
        catalog::visible_counts(t, id).1 == children.len(),
{
    assert forall|i: int| 0 <= i < children.len() implies t.collections.contains_key(
        (#[trigger] children[i]).id,
    ) && t.collections[children[i].id] == children[i] && children[i].parent_id == id by {
        let k = choose|k: Seq<char>| #[trigger]
            t.collections.contains_key(k) && t.collections[k] == children[i];
        assert(t.collections[k].id == k);
        assert(catalog::child_of(id)(children[i]));
    }
    assert forall|i: int, j: int| 0 <= i < j < children.len() implies (#[trigger] children[i]).id
        != (#[trigger] children[j]).id by {
        assert(children[i] != children[j]);
    }
    let below = table::picked(t.items, catalog::item_shown_below(t, id));
    lemma_shown_in(t, children, children.len());
    assert forall|k: (Seq<char>, Seq<char>)|
        below.contains(k) <==> keys_in(t, children, children.len()).contains(k) by {
        if t.items.contains_key(k) {
            assert(t.items[k].collection_id == k.0 && t.items[k].file_path == k.1);
            if below.contains(k) {
                assert(t.collections.contains_key(k.0) && catalog::child_of(id)(
                    t.collections[k.0],
                ));
                assert(children.contains(t.collections[k.0]));
                let i = choose|i: int| 0 <= i < children.len() && children[i] == t.collections[k.0];
                assert(t.collections[k.0].id == k.0);
                assert(children[i].id == k.0);
            }
            if keys_in(t, children, children.len()).contains(k) {
                let i = choose|i: int|
                    0 <= i < children.len() && (#[trigger] children[i]).id == k.0;
                assert(t.collections[children[i].id] == children[i]);
            }
        }
    }
    assert(below =~= keys_in(t, children, children.len()));
    let ids = children.map_values(|c: CollectionRec| c.id);
    assert(ids.no_duplicates()) by {
        assert forall|i: int, j: int| 0 <= i < ids.len() && 0 <= j < ids.len() && i != j implies
            ids[i] != ids[j] by {
            if i < j {
                assert(children[i].id != children[j].id);
            } else {
                assert(children[j].id != children[i].id);
            }
        }
    }
    let kids = table::picked(t.collections, catalog::child_of(id));
    assert forall|c: Seq<char>| kids.contains(c) <==> ids.to_set().contains(c) by {
        if kids.contains(c) {
            assert(catalog::child_of(id)(t.collections[c]));
            assert(children.contains(t.collections[c]));
            let i = choose|i: int| 0 <= i < children.len() && children[i] == t.collections[c];
            assert(ids[i] == c);
        }
        if ids.contains(c) {
            let i = choose|i: int| 0 <= i < ids.len() && ids[i] == c;
            assert(t.collections.contains_key(children[i].id));
        }
    }
    assert(kids =~= ids.to_set());
    ids.unique_seq_to_set();
}

/// How many entries the first `n` of some details show.
pub open spec fn entries_in(details: Seq<CollectionDetail>, n: nat) -> nat
    decreases n,
{
    if n == 0 {
        0
    } else {
        entries_in(details, (n - 1) as nat) + details[n - 1].items@.len()
    }
}

proof fn lemma_entries_in(t: Tables, details: Seq<CollectionDetail>, n: nat)
    requires
        well_keyed(t),
        t.items.dom().finite(),
        n <= details.len(),
        forall|i: int|
            0 <= i < details.len() ==> catalog::is_leaf_detail(
                #[trigger] details[i],
                t,
                details[i].collection@.id,
            ),
    ensures
        entries_in(details, n) == shown_in(t, catalog::detail_collections(details), n),
    decreases n,
{
    if n > 0 {
        lemma_entries_in(t, details, (n - 1) as nat);
        let d = details[n - 1];
        law_entries_are_listed_in_order(t, d.collection@.id);
        assert(catalog::item_views(d.items@).len() == d.items@.len());
        assert(catalog::detail_collections(details)[n - 1] == d.collection@);
    }
}

/// The counts in the list of collections are those of the detail: the entries that it and
/// its children show, and how many children there are.
pub proof fn law_counts_agree_with_detail(t: Tables, id: Seq<char>, d: CollectionDetail)
    requires
        well_keyed(t),
        t.items.dom().finite(),
        t.collections.contains_key(id),
        catalog::is_detail(d, t, id),
    ensures
        catalog::visible_counts(t, id).0 == d.items@.len() + entries_in(
            d.children@,
            d.children@.len(),
        ),
        catalog::visible_counts(t, id).1 == d.children@.len(),
{
    law_entries_are_listed_in_order(t, id);
    assert(catalog::item_views(d.items@).len() == d.items@.len());
    if t.collections[id].parent_id.len() == 0 {
        let children = catalog::detail_collections(d.children@);
        lemma_entries_in(t, d.children@, d.children@.len());
        lemma_root_counts(t, id, children);
    }
}

/// While the catalog is in order, the summary of a collection counts what its detail shows.
pub proof fn law_summary_agrees_with_detail(t: Tables, id: Seq<char>)
    requires
        consistent(t),
        t.collections.contains_key(id),
    ensures
        catalog::collection_counts(t, id) == catalog::visible_counts(t, id),
{
    assert forall|k: (Seq<char>, Seq<char>)|
        table::picked(t.items, catalog::item_of(id)).contains(k) <==> table::picked(
            t.items,
            catalog::item_shown(t, id),
        ).contains(k) by {
        if t.items.contains_key(k) {
            assert(t.items[k].file_path == k.1);
            assert(t.files.contains_key(k.1));
        }
    }
    assert(table::picked(t.items, catalog::item_of(id)) =~= table::picked(
        t.items,
        catalog::item_shown(t, id),
    ));
    let below = table::picked(t.items, catalog::item_below(t, id));
    let kids = table::picked(t.collections, catalog::counted_child(id));
    if t.collections[id].parent_id.len() > 0 {
        assert forall|c: Seq<char>| !kids.contains(c) by {
            if kids.contains(c) {
                assert(t.collections.contains_key(c));
                assert(t.collections[c].parent_id == id);
            }
        }
        assert(kids =~= Set::empty());
        assert(below =~= Set::empty());
    } else {
        assert forall|k: (Seq<char>, Seq<char>)|
            below.contains(k) <==> table::picked(
                t.items,
                catalog::item_shown_below(t, id),
            ).contains(k) by {
            if t.items.contains_key(k) {
                assert(t.items[k].file_path == k.1);
                assert(t.files.contains_key(k.1));
            }
        }
        assert(below =~= table::picked(t.items, catalog::item_shown_below(t, id)));
        assert(kids =~= table::picked(t.collections, catalog::child_of(id)));
    }
}

/// The id of a collection has no white space around it.
pub proof fn lemma_ids_are_trimmed(now: i64, serial: u64, process: u32)
    ensures
        text::trimmed(catalog::collection_id(now, serial, process)) == catalog::collection_id(
            now,
            serial,
            process,
        ),
        catalog::collection_id(now, serial, process).len() > 0,
{
    reveal_strlit("c");
    let id = catalog::collection_id(now, serial, process);
    let d = numbers::decimal_text(process as nat);
    numbers::lemma_decimal_reads_back(process as nat);
    assert(numbers::is_digit(d[d.len() - 1]));
    assert(id.last() == d.last());
    assert(id[0] == 'c');
}

} // verus!
