//! Collections and their entries: what each change leaves behind.

use crate::catalog;
use crate::catalog::{DbError, Tables};
use crate::consistency;
use crate::db::Db;
use crate::laws::files::{is_cut, lemma_cut};
use crate::records::{Collection, CollectionRec, FileRow, ItemRec};
use crate::text;
use vstd::prelude::*;
use vstd::string::*;

verus! {

/// The text stands for a season.
pub open spec fn means_season(raw: Seq<char>) -> bool {
    let k = text::lower(text::trimmed(raw));
    k == "season"@ || k == "temporada"@ || k == "t"@
}

/// The text stands for a film.
pub open spec fn means_film(raw: Seq<char>) -> bool {
    let k = text::lower(text::trimmed(raw));
    k == "movie"@ || k == "pelicula"@ || k == "película"@ || k == "film"@
}

/// The names of kinds differ.
pub proof fn lemma_kinds_differ()
    ensures
        "movie"@ != "season"@ && "movie"@ != "series"@ && "season"@ != "series"@,
        "movie"@ != "temporada"@ && "movie"@ != "t"@,
        "pelicula"@ != "season"@ && "pelicula"@ != "temporada"@ && "pelicula"@ != "t"@,
        "película"@ != "season"@ && "película"@ != "temporada"@ && "película"@ != "t"@,
        "film"@ != "season"@ && "film"@ != "temporada"@ && "film"@ != "t"@,
{
    reveal_strlit("movie");
    reveal_strlit("season");
    reveal_strlit("series");
    reveal_strlit("temporada");
    reveal_strlit("t");
    reveal_strlit("pelicula");
    reveal_strlit("película");
    reveal_strlit("film");
    assert("movie"@[0] == 'm' && "season"@[0] == 's' && "season"@[1] == 'e');
    assert("season"@[2] == 'a' && "series"@[2] == 'r');
    assert("temporada"@[0] == 't' && "t"@[0] == 't' && "pelicula"@[0] == 'p');
    assert("película"@[0] == 'p' && "film"@[0] == 'f' && "series"@[0] == 's');
}

/// A text stands for a season, for a film, or else for a series.
pub proof fn law_kinds_of_collections(raw: &str, r: String)
    requires
        call_ensures(Db::normalize_kind, (raw,), r),
    ensures
        means_season(raw@) ==> r@ == "season"@,
        means_film(raw@) ==> r@ == "movie"@,
        !means_season(raw@) && !means_film(raw@) ==> r@ == "series"@,
{
    lemma_kinds_differ();
}

/// The other tables than that of the collections are the same.
pub open spec fn only_collections_change(t: Tables, u: Tables) -> bool {
    u.files == t.files && u.settings == t.settings && u.items == t.items
}

/// The other tables than that of the entries are the same.
pub open spec fn only_entries_change(t: Tables, u: Tables) -> bool {
    u.files == t.files && u.settings == t.settings && u.collections == t.collections
}

/// No position below `parent` is the largest that there is.
pub open spec fn room_below(t: Tables, parent: Seq<char>) -> bool {
    forall|c: Seq<char>| #[trigger]
        t.collections.contains_key(c) && t.collections[c].parent_id == parent
            ==> t.collections[c].pos < i64::MAX
}

/// No position in the collection is the largest that there is.
pub open spec fn room_in(t: Tables, id: Seq<char>) -> bool {
    forall|k: (Seq<char>, Seq<char>)| #[trigger]
        t.items.contains_key(k) && k.0 == id ==> t.items[k].pos < i64::MAX
}

/// `p` is behind the positions below `parent`: it is larger than any of them, and no larger
/// than that takes.
pub open spec fn is_behind_below(t: Tables, parent: Seq<char>, p: int) -> bool {
    &&& forall|c: Seq<char>| #[trigger]
        t.collections.contains_key(c) && t.collections[c].parent_id == parent
            ==> t.collections[c].pos < p
    &&& p == 1 || exists|c: Seq<char>| #[trigger]
        t.collections.contains_key(c) && t.collections[c].parent_id == parent
            && t.collections[c].pos == p - 1
}

/// `p` is behind the positions in a collection: it is larger than any of them, and no larger
/// than that takes.
pub open spec fn is_behind_in(t: Tables, id: Seq<char>, p: int) -> bool {
    &&& forall|k: (Seq<char>, Seq<char>)| #[trigger]
        t.items.contains_key(k) && k.0 == id ==> t.items[k].pos < p
    &&& p == 1 || exists|k: (Seq<char>, Seq<char>)| #[trigger]
        t.items.contains_key(k) && k.0 == id && t.items[k].pos == p - 1
}

proof fn lemma_behind_below(t: Tables, parent: Seq<char>)
    requires
        room_below(t, parent),
    ensures
        catalog::child_fits(t, parent),
        is_behind_below(
            t,
            parent,
            catalog::largest_or_zero(catalog::child_positions(t, parent)) + 1,
        ),
        -0x8000_0000_0000_0000 <= catalog::largest_or_zero(catalog::child_positions(t, parent))
            < i64::MAX,
{
    let s = catalog::child_positions(t, parent);
    consistency::lemma_positions_bounded(s);
    assert forall|c: Seq<char>| #[trigger]
        t.collections.contains_key(c) && t.collections[c].parent_id == parent implies
        t.collections[c].pos < catalog::largest_or_zero(s) + 1 by {
        assert(s.contains(t.collections[c].pos as int));
    }
}

proof fn lemma_behind_in(t: Tables, id: Seq<char>)
    requires
        consistency::well_keyed(t),
        room_in(t, id),
    ensures
        catalog::item_fits(t, id),
        is_behind_in(t, id, catalog::largest_or_zero(catalog::item_positions(t, id)) + 1),
        -0x8000_0000_0000_0000 <= catalog::largest_or_zero(catalog::item_positions(t, id))
            < i64::MAX,
{
    let s = catalog::item_positions(t, id);
    consistency::lemma_positions_bounded(s);
    assert forall|k: (Seq<char>, Seq<char>)| #[trigger]
        t.items.contains_key(k) && k.0 == id implies t.items[k].pos < catalog::largest_or_zero(s)
        + 1 by {
        assert(s.contains(t.items[k].pos as int));
    }
}

/// There is room where another one fits behind the last.
pub proof fn lemma_room(t: Tables, parent: Seq<char>, id: Seq<char>)
    requires
        consistency::well_keyed(t),
    ensures
        catalog::child_fits(t, parent) <==> room_below(t, parent),
        catalog::item_fits(t, id) <==> room_in(t, id),
{
    let s = catalog::child_positions(t, parent);
    consistency::lemma_positions_bounded(s);
    assert forall|c: Seq<char>| #[trigger]
        t.collections.contains_key(c) && t.collections[c].parent_id == parent implies s.contains(
        t.collections[c].pos as int,
    ) by {}
    let q = catalog::item_positions(t, id);
    consistency::lemma_positions_bounded(q);
    assert forall|k: (Seq<char>, Seq<char>)| #[trigger]
        t.items.contains_key(k) && k.0 == id implies q.contains(t.items[k].pos as int) by {}
}

/// A collection that is made is there as it was asked for: with its title, below its parent,
/// made now, without a poster, behind its siblings and under an id that was free. No other
/// collection changes, and no file or setting.
pub proof fn law_a_collection_is_made_as_asked(
    db: &mut Db,
    kind: &str,
    title: &str,
    parent_id: &str,
    now: i64,
    r: Result<Collection, DbError>,
)
    requires
        call_ensures(Db::create_collection, (db, kind, title, parent_id, now), r),
        old(db).wf(),
        room_below(old(db)@, text::trimmed(parent_id@)),
        r is Ok,
    ensures
        ({
            let (t, u) = (old(db)@, final(db)@);
            let c = r->Ok_0;
            let parent = text::trimmed(parent_id@);
            &&& !t.collections.contains_key(c.id@)
            &&& u.collections == t.collections.insert(c.id@, c@)
            &&& u.files == t.files && u.settings == t.settings
            &&& c.title@.len() > 0 && is_cut(c.title@, title@, 128)
            &&& c.parent_id@ == parent
            &&& c.created_at == now
            &&& c.poster_url@.len() == 0 && c.poster_file@.len() == 0
            &&& is_behind_below(t, parent, c.pos as int)
            &&& means_film(kind@) ==> c.kind@ == "movie"@
            &&& !means_film(kind@) && parent.len() == 0 ==> c.kind@ == "series"@
            &&& !means_film(kind@) && parent.len() > 0 ==> c.kind@ == "season"@
            &&& parent.len() > 0 ==> t.collections.contains_key(parent)
                && t.collections[parent].parent_id.len() == 0
        }),
{
    lemma_kinds_differ();
    lemma_behind_below(old(db)@, text::trimmed(parent_id@));
    lemma_cut(title@, 128);
}

/// A root takes no entry from anywhere. A season takes over the entries of its parent, each as
/// it was; beside a film they go. The entries of other collections stay as they were.
pub proof fn law_entries_leave_a_parent(
    db: &mut Db,
    kind: &str,
    title: &str,
    parent_id: &str,
    now: i64,
    r: Result<Collection, DbError>,
)
    requires
        call_ensures(Db::create_collection, (db, kind, title, parent_id, now), r),
        old(db).wf(),
        consistency::no_dangling_items(old(db)@),
        r is Ok,
    ensures
        ({
            let (t, u) = (old(db)@, final(db)@);
            let id = r->Ok_0.id@;
            let parent = text::trimmed(parent_id@);
            &&& parent.len() == 0 ==> u.items == t.items
            &&& parent.len() > 0 ==> {
                &&& forall|p: Seq<char>| !#[trigger] u.items.contains_key((parent, p))
                &&& forall|k: (Seq<char>, Seq<char>)| #[trigger]
                    t.items.contains_key(k) && k.0 != parent ==> u.items.contains_key(k)
                        && u.items[k] == t.items[k]
                &&& forall|k: (Seq<char>, Seq<char>)| #[trigger]
                    u.items.contains_key(k) && k.0 != id ==> t.items.contains_key(k)
            }
            &&& parent.len() > 0 && means_film(kind@) ==> forall|p: Seq<char>|
                !#[trigger] u.items.contains_key((id, p))
            &&& parent.len() > 0 && !means_film(kind@) ==> {
                &&& forall|p: Seq<char>| #[trigger]
                    u.items.contains_key((id, p)) <==> t.items.contains_key((parent, p))
                &&& forall|p: Seq<char>| #[trigger]
                    u.items.contains_key((id, p)) ==> {
                        let (i, j) = (u.items[(id, p)], t.items[(parent, p)]);
                        i.collection_id == id && i.file_path == p && i.season == j.season
                            && i.label == j.label && i.pos == j.pos
                    }
            }
        }),
{
    old(db).lemma_keys();
    lemma_kinds_differ();
    let t = old(db)@;
    let id = r->Ok_0.id@;
    let parent = text::trimmed(parent_id@);
    assert forall|p: Seq<char>| !#[trigger] t.items.contains_key((id, p)) by {
        assert(!t.collections.contains_key(id));
    }
}

/// A collection is refused for one reason at a time: a blank title, a parent that is not
/// there, a parent that is no root. Then nothing changes. It is made otherwise, unless its id
/// is taken.
pub proof fn law_why_a_collection_is_refused(
    db: &mut Db,
    kind: &str,
    title: &str,
    parent_id: &str,
    now: i64,
    r: Result<Collection, DbError>,
)
    requires
        call_ensures(Db::create_collection, (db, kind, title, parent_id, now), r),
        old(db).wf(),
    ensures
        ({
            let t = old(db)@;
            let parent = text::trimmed(parent_id@);
            let blank = text::trimmed(title@).len() == 0;
            let missing = parent.len() > 0 && !t.collections.contains_key(parent);
            let deep = parent.len() > 0 && t.collections.contains_key(parent)
                && t.collections[parent].parent_id.len() > 0;
            &&& r is Err ==> final(db)@ == t
            &&& blank ==> r == Err::<Collection, DbError>(DbError::EmptyTitle)
            &&& !blank && missing ==> r == Err::<Collection, DbError>(DbError::ParentMissing)
            &&& !blank && deep ==> r == Err::<Collection, DbError>(DbError::TooDeep)
            &&& !blank && !missing && !deep && r is Err ==> r->Err_0 == DbError::DuplicateId
            &&& (forall|c: Seq<char>| !#[trigger] t.collections.contains_key(c)) && !blank
                && parent.len() == 0 ==> r is Ok
        }),
{
}

/// A collection gets the next id, and is refused where that is taken. Whether it is made or
/// not, the id after it is another, unless the title is blank.
pub proof fn law_a_collection_gets_the_next_id(
    db: &mut Db,
    other: &Db,
    kind: &str,
    title: &str,
    parent_id: &str,
    now: i64,
    r: Result<Collection, DbError>,
    id: String,
    before: u64,
)
    requires
        call_ensures(Db::create_collection, (db, kind, title, parent_id, now), r),
        call_ensures(Db::next_id, (other, now), id),
        call_ensures(Db::current_serial, (other,), before),
        old(db).wf(),
        other.serial() == old(db).serial(),
        other.process() == old(db).process(),
    ensures
        r is Ok ==> r->Ok_0.id@ == id@,
        r is Err && r->Err_0 is DuplicateId ==> old(db)@.collections.contains_key(id@),
        old(db)@.collections.contains_key(id@) ==> r is Err,
        final(db).process() == old(db).process(),
        text::trimmed(title@).len() == 0 ==> final(db).serial() == before,
        text::trimmed(title@).len() > 0 && before < u64::MAX ==> final(db).serial() == before + 1,
        text::trimmed(title@).len() > 0 && before == u64::MAX ==> final(db).serial() == 0,
{
}

/// No other change uses up an id.
pub proof fn law_other_changes_use_up_no_id(
    db: &mut Db,
    a: &str,
    b: &str,
    c: &str,
    d: &str,
    t: Option<&str>,
    u: Option<&str>,
    k: Option<&str>,
    pos: i64,
    flag: bool,
    row: &FileRow,
    order: &[String],
    r: bool,
    s: Result<bool, DbError>,
    e: Result<(), DbError>,
)
    requires
        old(db).wf(),
        call_ensures(Db::upsert_file, (db, row), ()) || call_ensures(Db::set_title, (db, a, b), r)
            || call_ensures(Db::set_watched, (db, a, flag), r) || call_ensures(
            Db::delete_by_hash,
            (db, a),
            r,
        ) || call_ensures(Db::delete_by_path, (db, a), r) || call_ensures(
            Db::set_setting,
            (db, a, b),
            (),
        ) || call_ensures(Db::update_collection, (db, a, t, u, k), s) || call_ensures(
            Db::set_poster_file,
            (db, a, b),
            r,
        ) || call_ensures(Db::delete_collection, (db, a), r) || call_ensures(
            Db::add_item,
            (db, a, b, c, d, pos),
            e,
        ) || call_ensures(Db::remove_item, (db, a, b), r) || call_ensures(
            Db::reorder_items,
            (db, a, order),
            e,
        ) || call_ensures(Db::reorder_children, (db, a, order), e),
    ensures
        final(db).serial() == old(db).serial(),
        final(db).process() == old(db).process(),
{
}

/// The fields of a collection but for title, poster address and kind are the same.
pub open spec fn same_place(c: CollectionRec, d: CollectionRec) -> bool {
    &&& c.id == d.id
    &&& c.poster_file == d.poster_file
    &&& c.created_at == d.created_at
    &&& c.parent_id == d.parent_id
    &&& c.pos == d.pos
}

/// Without white space around it the text is a poster address: none, or one that starts with
/// one of three beginnings.
pub open spec fn is_poster_address(u: Seq<char>) -> bool {
    ||| u.len() == 0
    ||| "http://"@.is_prefix_of(u)
    ||| "https://"@.is_prefix_of(u)
    ||| "/posters/"@.is_prefix_of(u)
}

/// A new title of a collection is cut and set, unless it is blank; nothing else changes,
/// whatever else is given.
pub proof fn law_a_collection_is_renamed(
    db: &mut Db,
    id: &str,
    title: &str,
    poster_url: Option<&str>,
    kind: Option<&str>,
    r: Result<bool, DbError>,
)
    requires
        call_ensures(Db::update_collection, (db, id, Some(title), poster_url, kind), r),
        old(db).wf(),
    ensures
        text::trimmed(title@).len() == 0 <==> r is Err,
        r is Err ==> r->Err_0 == DbError::EmptyTitle,
        r is Ok ==> r->Ok_0 == old(db)@.collections.contains_key(id@),
        r != Ok::<bool, DbError>(true) ==> final(db)@ == old(db)@,
        r == Ok::<bool, DbError>(true) ==> {
            let (c, d) = (final(db)@.collections[id@], old(db)@.collections[id@]);
            &&& final(db)@.collections == old(db)@.collections.insert(id@, c)
            &&& only_collections_change(old(db)@, final(db)@)
            &&& same_place(c, d) && c.poster_url == d.poster_url && c.kind == d.kind
            &&& is_cut(c.title, title@, 128)
        },
{
    lemma_cut(title@, 128);
}

/// A new poster address of a collection is cut and set, where it is one; nothing else changes.
pub proof fn law_a_poster_address_is_set(
    db: &mut Db,
    id: &str,
    poster_url: &str,
    kind: Option<&str>,
    r: Result<bool, DbError>,
)
    requires
        call_ensures(
            Db::update_collection,
            (db, id, None::<&str>, Some(poster_url), kind),
            r,
        ),
        old(db).wf(),
    ensures
        text::trimmed(poster_url@).len() <= 512 ==> (r is Err <==> !is_poster_address(
            text::trimmed(poster_url@),
        )),
        text::trimmed(poster_url@).len() > 512 ==> (r is Err <==> !is_poster_address(
            text::trimmed(poster_url@).take(512),
        )),
        r is Err ==> r->Err_0 == DbError::InvalidPosterUrl,
        r is Ok ==> r->Ok_0 == old(db)@.collections.contains_key(id@),
        r != Ok::<bool, DbError>(true) ==> final(db)@ == old(db)@,
        r == Ok::<bool, DbError>(true) ==> {
            let (c, d) = (final(db)@.collections[id@], old(db)@.collections[id@]);
            &&& final(db)@.collections == old(db)@.collections.insert(id@, c)
            &&& only_collections_change(old(db)@, final(db)@)
            &&& same_place(c, d) && c.title == d.title && c.kind == d.kind
            &&& is_cut(c.poster_url, poster_url@, 512)
            &&& is_poster_address(c.poster_url)
        },
{
    lemma_cut(poster_url@, 512);
    if text::trimmed(poster_url@).len() <= 512 {
        assert(text::clip(text::trimmed(poster_url@), 512) =~= text::trimmed(poster_url@));
    }
}

/// A collection gets the kind that a text stands for, where it fits its level: among the roots
/// a series or a film, below one a season or a film. Nothing else changes.
pub proof fn law_a_kind_is_set(db: &mut Db, id: &str, kind: &str, r: Result<bool, DbError>)
    requires
        call_ensures(
            Db::update_collection,
            (db, id, None::<&str>, None::<&str>, Some(kind)),
            r,
        ),
        old(db).wf(),
    ensures
        ({
            let known = old(db)@.collections.contains_key(id@);
            let d = old(db)@.collections[id@];
            let c = final(db)@.collections[id@];
            let root = d.parent_id.len() == 0;
            let fits = means_film(kind@) || root != means_season(kind@);
            &&& r is Err <==> known && !fits
            &&& r is Err ==> r->Err_0 == DbError::KindNotAllowed
            &&& r is Ok ==> r->Ok_0 == known
            &&& r != Ok::<bool, DbError>(true) ==> final(db)@ == old(db)@
            &&& r == Ok::<bool, DbError>(true) ==> {
                &&& final(db)@.collections == old(db)@.collections.insert(id@, c)
                &&& only_collections_change(old(db)@, final(db)@)
                &&& same_place(c, d) && c.title == d.title && c.poster_url == d.poster_url
                &&& means_film(kind@) ==> c.kind == "movie"@
                &&& means_season(kind@) ==> c.kind == "season"@
                &&& !means_film(kind@) && !means_season(kind@) ==> c.kind == "series"@
            }
        }),
{
    lemma_kinds_differ();
}

/// With nothing to set nothing changes.
pub proof fn law_nothing_is_set(db: &mut Db, id: &str, r: Result<bool, DbError>)
    requires
        call_ensures(
            Db::update_collection,
            (db, id, None::<&str>, None::<&str>, None::<&str>),
            r,
        ),
        old(db).wf(),
    ensures
        r == Ok::<bool, DbError>(false),
        final(db)@ == old(db)@,
{
}

/// The uploaded poster of a collection is set to the file, and nothing else changes.
pub proof fn law_a_poster_file_is_set(db: &mut Db, id: &str, file: &str, r: bool)
    requires
        call_ensures(Db::set_poster_file, (db, id, file), r),
        old(db).wf(),
    ensures
        r == old(db)@.collections.contains_key(id@),
        !r ==> final(db)@ == old(db)@,
        r ==> {
            let (c, d) = (final(db)@.collections[id@], old(db)@.collections[id@]);
            &&& final(db)@.collections == old(db)@.collections.insert(id@, c)
            &&& only_collections_change(old(db)@, final(db)@)
            &&& c.poster_file == file@
            &&& c.id == d.id && c.kind == d.kind && c.title == d.title
            &&& c.poster_url == d.poster_url && c.created_at == d.created_at
            &&& c.parent_id == d.parent_id && c.pos == d.pos
        },
{
}

/// A collection that is taken out is gone with those below it and with all their entries. No
/// other collection and no other entry is, and no file or setting.
pub proof fn law_a_collection_is_taken_out(db: &mut Db, id: &str, r: bool)
    requires
        call_ensures(Db::delete_collection, (db, id), r),
        old(db).wf(),
        id@.len() > 0,
    ensures
        r == old(db)@.collections.contains_key(id@),
        final(db)@.files == old(db)@.files,
        final(db)@.settings == old(db)@.settings,
        forall|c: Seq<char>| #[trigger]
            final(db)@.collections.contains_key(c) <==> old(db)@.collections.contains_key(c) && c
                != id@ && old(db)@.collections[c].parent_id != id@,
        forall|c: Seq<char>| #[trigger]
            final(db)@.collections.contains_key(c) ==> final(db)@.collections[c]
                == old(db)@.collections[c],
        forall|k: (Seq<char>, Seq<char>)| #[trigger]
            final(db)@.items.contains_key(k) <==> old(db)@.items.contains_key(k) && k.0 != id@ && !(
            old(db)@.collections.contains_key(k.0) && old(db)@.collections[k.0].parent_id == id@),
        forall|k: (Seq<char>, Seq<char>)| #[trigger]
            final(db)@.items.contains_key(k) ==> final(db)@.items[k] == old(db)@.items[k],
{
    old(db).lemma_keys();
}

/// An id that is empty, and one that no collection has, take nothing out while the catalog is
/// in order.
pub proof fn law_no_collection_is_taken_out(db: &mut Db, id: &str, r: bool)
    requires
        call_ensures(Db::delete_collection, (db, id), r),
        old(db).wf(),
        consistency::consistent(old(db)@),
        id@.len() == 0 || !old(db)@.collections.contains_key(id@),
    ensures
        !r,
        final(db)@ == old(db)@,
{
    old(db).lemma_keys();
    let (t, u) = (old(db)@, final(db)@);
    assert(u.collections =~= t.collections);
    assert(u.items =~= t.items);
}

/// After a file was put into a collection its entry reads back what was given: season and
/// label without white space around them, cut behind 32 and 64 characters, and the position,
/// where it is positive. Another one stands for the place behind the last.
pub proof fn law_an_entry_reads_back(
    db: &mut Db,
    id: &str,
    path: &str,
    season: &str,
    label: &str,
    pos: i64,
    r: Result<(), DbError>,
)
    requires
        call_ensures(Db::add_item, (db, id, path, season, label, pos), r),
        old(db).wf(),
        pos <= 0 ==> room_in(old(db)@, id@),
        r is Ok,
    ensures
        final(db)@.items.contains_key((id@, path@)),
        ({
            let i = final(db)@.items[(id@, path@)];
            &&& i.collection_id == id@
            &&& i.file_path == path@
            &&& is_cut(i.season, season@, 32)
            &&& is_cut(i.label, label@, 64)
            &&& season@.len() <= 32 && text::trimmed(season@) == season@ ==> i.season == season@
            &&& label@.len() <= 64 && text::trimmed(label@) == label@ ==> i.label == label@
            &&& pos > 0 ==> i.pos == pos
            &&& pos <= 0 ==> is_behind_in(old(db)@, id@, i.pos as int)
        }),
{
    lemma_cut(season@, 32);
    lemma_cut(label@, 64);
    if pos <= 0 {
        old(db).lemma_keys();
        lemma_behind_in(old(db)@, id@);
    }
}

/// A file that was put into a collection is in no other one. The entries of other files stay
/// as they were, and so do files, collections and settings.
pub proof fn law_a_file_is_moved(
    db: &mut Db,
    id: &str,
    path: &str,
    season: &str,
    label: &str,
    pos: i64,
    r: Result<(), DbError>,
)
    requires
        call_ensures(Db::add_item, (db, id, path, season, label, pos), r),
        old(db).wf(),
        r is Ok,
    ensures
        only_entries_change(old(db)@, final(db)@),
        forall|c: Seq<char>| #[trigger]
            final(db)@.items.contains_key((c, path@)) ==> c == id@,
        forall|k: (Seq<char>, Seq<char>)|
            k.1 != path@ ==> (#[trigger] final(db)@.items.contains_key(k)
                <==> old(db)@.items.contains_key(k)),
        forall|k: (Seq<char>, Seq<char>)| #[trigger]
            final(db)@.items.contains_key(k) && k.1 != path@ ==> final(db)@.items[k]
                == old(db)@.items[k],
{
    old(db).lemma_keys();
}

/// A file is put into a collection that exists, has no collection below it and, where it is a
/// film, holds no other file; and where the file is listed. Otherwise the reason is given, and
/// nothing changes.
pub proof fn law_when_a_file_is_put_into_a_collection(
    db: &mut Db,
    id: &str,
    path: &str,
    season: &str,
    label: &str,
    pos: i64,
    r: Result<(), DbError>,
)
    requires
        call_ensures(Db::add_item, (db, id, path, season, label, pos), r),
        old(db).wf(),
    ensures
        ({
            let t = old(db)@;
            let missing = !t.collections.contains_key(id@);
            let parent = exists|c: Seq<char>| #[trigger]
                t.collections.contains_key(c) && t.collections[c].parent_id == id@;
            let unlisted = !t.files.contains_key(path@);
            let taken = t.collections[id@].kind == "movie"@ && exists|p: Seq<char>|
                p != path@ && #[trigger] t.items.contains_key((id@, p));
            &&& r is Err ==> final(db)@ == t
            &&& missing ==> r == Err::<(), DbError>(DbError::CollectionMissing)
            &&& !missing && parent ==> r == Err::<(), DbError>(DbError::ChooseChild)
            &&& !missing && !parent && unlisted ==> r == Err::<(), DbError>(DbError::FileNotListed)
            &&& !missing && !parent && !unlisted && taken ==> r == Err::<(), DbError>(
                DbError::MovieTaken,
            )
            &&& !missing && !parent && !unlisted && !taken ==> r is Ok
        }),
{
    old(db).lemma_keys();
    let t = old(db)@;
    if catalog::holds_other(t, id@, path@) {
        let k = choose|k: (Seq<char>, Seq<char>)| #[trigger]
            t.items.contains_key(k) && t.items[k].collection_id == id@ && t.items[k].file_path
                != path@;
        assert(k == (id@, k.1));
        assert(t.items.contains_key((id@, k.1)));
    }
    if exists|p: Seq<char>| p != path@ && #[trigger] t.items.contains_key((id@, p)) {
        let p = choose|p: Seq<char>| p != path@ && #[trigger] t.items.contains_key((id@, p));
        assert(t.items[(id@, p)].file_path == p);
    }
}

/// An entry that is taken out is gone, and nothing else.
pub proof fn law_an_entry_is_taken_out(db: &mut Db, id: &str, path: &str, r: bool)
    requires
        call_ensures(Db::remove_item, (db, id, path), r),
        old(db).wf(),
    ensures
        r == old(db)@.items.contains_key((id@, path@)),
        final(db)@.items == old(db)@.items.remove((id@, path@)),
        only_entries_change(old(db)@, final(db)@),
{
}

/// The order names `x` at `p` and not behind it.
pub open spec fn names_last_at(order: Seq<String>, x: Seq<char>, p: int) -> bool {
    &&& 0 <= p < order.len()
    &&& order[p]@ == x
    &&& forall|q: int| p < q < order.len() ==> (#[trigger] order[q])@ != x
}

proof fn lemma_last_named(order: Seq<String>, x: Seq<char>)
    ensures
        match catalog::last_place(catalog::text_views(order), x) {
            Some(p) => names_last_at(order, x, p),
            None => forall|q: int| 0 <= q < order.len() ==> (#[trigger] order[q])@ != x,
        },
    decreases order.len(),
{
    let s = catalog::text_views(order);
    if order.len() > 0 {
        let rest = order.drop_last();
        assert(catalog::text_views(rest) =~= s.drop_last());
        lemma_last_named(rest, x);
        assert(s.last() == order.last()@);
        if s.last() != x {
            match catalog::last_place(s.drop_last(), x) {
                Some(p) => {
                    assert(rest[p] == order[p]);
                    assert forall|q: int| p < q < order.len() implies (#[trigger] order[q])@
                        != x by {
                        if q < rest.len() {
                            assert(rest[q]@ != x);
                        }
                    }
                },
                None => {
                    assert forall|q: int| 0 <= q < order.len() implies (#[trigger] order[q])@
                        != x by {
                        if q < rest.len() {
                            assert(rest[q]@ != x);
                        }
                    }
                },
            }
        }
    }
}

/// The entries of a collection that is put in order get their place in the order as position.
/// Their other fields stay, and so does an entry that the order does not name, an entry of
/// another collection and all else.
pub proof fn law_entries_get_their_places(
    db: &mut Db,
    id: &str,
    order: &[String],
    r: Result<(), DbError>,
)
    requires
        call_ensures(Db::reorder_items, (db, id, order), r),
        old(db).wf(),
        order@.len() <= i64::MAX,
    ensures
        r is Ok <==> old(db)@.collections.contains_key(id@),
        r is Err ==> r->Err_0 == DbError::CollectionMissing && final(db)@ == old(db)@,
        only_entries_change(old(db)@, final(db)@),
        final(db)@.items.dom() == old(db)@.items.dom(),
        r is Ok ==> forall|p: Seq<char>, n: int|
            #![trigger final(db)@.items[(id@, p)], names_last_at(order@, p, n)]
            old(db)@.items.contains_key((id@, p)) && names_last_at(order@, p, n) ==> {
                let (i, j) = (final(db)@.items[(id@, p)], old(db)@.items[(id@, p)]);
                i.pos == n && i.collection_id == id@ && i.file_path == p && i.season == j.season
                    && i.label == j.label
            },
        forall|k: (Seq<char>, Seq<char>)| #[trigger]
            old(db)@.items.contains_key(k) && (k.0 != id@ || forall|q: int|
                0 <= q < order@.len() ==> (#[trigger] order@[q])@ != k.1) ==> final(db)@.items[k]
                == old(db)@.items[k],
{
    old(db).lemma_keys();
    let t = old(db)@;
    if t.collections.contains_key(id@) {
        let f = |i: ItemRec| catalog::reordered_item(i, id@, catalog::text_views(order@));
        assert forall|p: Seq<char>, n: int|
            #![trigger final(db)@.items[(id@, p)], names_last_at(order@, p, n)]
            t.items.contains_key((id@, p)) && names_last_at(order@, p, n) implies {
            let (i, j) = (final(db)@.items[(id@, p)], t.items[(id@, p)]);
            i.pos == n && i.collection_id == id@ && i.file_path == p && i.season == j.season
                && i.label == j.label
        } by {
            lemma_last_named(order@, p);
            let m = catalog::last_place(catalog::text_views(order@), p);
            assert(order@[n]@ == p);
            assert(m == Some(n));
        }
        assert forall|k: (Seq<char>, Seq<char>)| #[trigger]
            t.items.contains_key(k) && (k.0 != id@ || forall|q: int|
                0 <= q < order@.len() ==> (#[trigger] order@[q])@ != k.1) implies
            final(db)@.items[k] == t.items[k] by {
            lemma_last_named(order@, k.1);
        }
        assert(final(db)@.items.dom() =~= t.items.dom());
    }
}

/// The collections below a root that is put in order get their place in the order as position.
/// Their other fields stay, and so does a collection that the order does not name, one of
/// another level and all else.
pub proof fn law_children_get_their_places(
    db: &mut Db,
    root: &str,
    order: &[String],
    r: Result<(), DbError>,
)
    requires
        call_ensures(Db::reorder_children, (db, root, order), r),
        old(db).wf(),
        order@.len() <= i64::MAX,
    ensures
        r is Ok <==> old(db)@.collections.contains_key(root@),
        r is Err ==> r->Err_0 == DbError::CollectionMissing && final(db)@ == old(db)@,
        only_collections_change(old(db)@, final(db)@),
        final(db)@.collections.dom() == old(db)@.collections.dom(),
        r is Ok ==> forall|x: Seq<char>, n: int|
            #![trigger final(db)@.collections[x], names_last_at(order@, x, n)]
            old(db)@.collections.contains_key(x) && old(db)@.collections[x].parent_id == root@
                && names_last_at(order@, x, n) ==> {
                let (c, d) = (final(db)@.collections[x], old(db)@.collections[x]);
                &&& c.pos == n
                &&& c.id == d.id && c.kind == d.kind && c.title == d.title
                &&& c.poster_url == d.poster_url && c.poster_file == d.poster_file
                &&& c.created_at == d.created_at && c.parent_id == d.parent_id
            },
        forall|x: Seq<char>| #[trigger]
            old(db)@.collections.contains_key(x) && (old(db)@.collections[x].parent_id != root@
                || forall|q: int| 0 <= q < order@.len() ==> (#[trigger] order@[q])@ != x)
                ==> final(db)@.collections[x] == old(db)@.collections[x],
{
    old(db).lemma_keys();
    let t = old(db)@;
    if t.collections.contains_key(root@) {
        assert forall|x: Seq<char>, n: int|
            #![trigger final(db)@.collections[x], names_last_at(order@, x, n)]
            t.collections.contains_key(x) && t.collections[x].parent_id == root@
                && names_last_at(order@, x, n) implies {
            let (c, d) = (final(db)@.collections[x], t.collections[x]);
            &&& c.pos == n
            &&& c.id == d.id && c.kind == d.kind && c.title == d.title
            &&& c.poster_url == d.poster_url && c.poster_file == d.poster_file
            &&& c.created_at == d.created_at && c.parent_id == d.parent_id
        } by {
            lemma_last_named(order@, x);
            let m = catalog::last_place(catalog::text_views(order@), x);
            assert(order@[n]@ == x);
            assert(m == Some(n));
        }
        assert forall|x: Seq<char>| #[trigger]
            t.collections.contains_key(x) && (t.collections[x].parent_id != root@ || forall|q: int|
                0 <= q < order@.len() ==> (#[trigger] order@[q])@ != x) implies
            final(db)@.collections[x] == t.collections[x] by {
            lemma_last_named(order@, x);
        }
        assert(final(db)@.collections.dom() =~= t.collections.dom());
    }
}

} // verus!
