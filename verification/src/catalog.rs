//! What the catalog holds, and what each operation makes of it.

use crate::numbers;
use crate::order;
use crate::records::{CollectionDetail, CollectionItemView};
use crate::table;
use crate::text;
use vstd::prelude::*;

use crate::records::{CollectionRec, FileRec, ItemRec, ItemViewRec};

verus! {

/// The contents of the catalog.
#[verifier::ext_equal]
pub struct Tables {
    /// Files by path.
    pub files: Map<Seq<char>, FileRec>,
    /// Settings by key, each with its key and value.
    pub settings: Map<Seq<char>, (Seq<char>, Seq<char>)>,
    /// Collections by id.
    pub collections: Map<Seq<char>, CollectionRec>,
    /// Entries by collection and file.
    pub items: Map<(Seq<char>, Seq<char>), ItemRec>,
}

/// Why an operation was refused.
#[derive(Debug, Clone, Copy, PartialEq, Eq, Structural)]
pub enum DbError {
    /// The title is blank.
    EmptyTitle,
    /// The parent collection does not exist.
    ParentMissing,
    /// The parent collection is not a root.
    TooDeep,
    /// A collection with the new id exists.
    DuplicateId,
    /// The poster address is neither `http://`, `https://` nor `/posters/`.
    InvalidPosterUrl,
    /// The kind does not fit the level of the collection.
    KindNotAllowed,
    /// The collection does not exist.
    CollectionMissing,
    /// The collection has children, so the file belongs in one of them.
    ChooseChild,
    /// The file is not listed.
    FileNotListed,
    /// The film has another file already.
    MovieTaken,
}

/// The message of an error, for the user.
pub open spec fn error_text(e: DbError) -> Seq<char> {
    match e {
        DbError::EmptyTitle => "título vacío"@,
        DbError::ParentMissing => "la colección padre no existe"@,
        DbError::TooDeep => "solo hay 2 niveles: la temporada no puede tener hijas"@,
        DbError::DuplicateId => "UNIQUE constraint failed: collections.id"@,
        DbError::InvalidPosterUrl => "URL de portada inválida (http(s):// o /posters/…)"@,
        DbError::KindNotAllowed => "tipo inválido para este nivel"@,
        DbError::CollectionMissing => "colección no existe"@,
        DbError::ChooseChild => "elige una temporada o película dentro de la serie"@,
        DbError::FileNotListed => "archivo no listado"@,
        DbError::MovieTaken => "la película ya tiene un archivo: sácalo antes de mover otro"@,
    }
}

impl DbError {
    /// The message for the user.
    pub fn message(self) -> (r: String)
        ensures
            r@ == error_text(self),
    {
        let m = match self {
            DbError::EmptyTitle => "título vacío",
            DbError::ParentMissing => "la colección padre no existe",
            DbError::TooDeep => "solo hay 2 niveles: la temporada no puede tener hijas",
            DbError::DuplicateId => "UNIQUE constraint failed: collections.id",
            DbError::InvalidPosterUrl => "URL de portada inválida (http(s):// o /posters/…)",
            DbError::KindNotAllowed => "tipo inválido para este nivel",
            DbError::CollectionMissing => "colección no existe",
            DbError::ChooseChild => "elige una temporada o película dentro de la serie",
            DbError::FileNotListed => "archivo no listado",
            DbError::MovieTaken => "la película ya tiene un archivo: sácalo antes de mover otro",
        };
        m.to_owned()
    }
}

// ---------------------------------------------------------------------------
// Kinds
// ---------------------------------------------------------------------------
/// The kind of file that a text stands for: `file` for its own name, `storage`,
/// `almacenamiento` and `archivo`, in any case and with white space around; else `media`.
pub open spec fn file_kind(raw: Seq<char>) -> Seq<char> {
    let k = text::lower(text::trimmed(raw));
    if k == "file"@ || k == "storage"@ || k == "almacenamiento"@ || k == "archivo"@ {
        "file"@
    } else {
        "media"@
    }
}

/// The kind of collection that a text stands for: `season`, `movie`, or else `series`.
pub open spec fn collection_kind(raw: Seq<char>) -> Seq<char> {
    let k = text::lower(text::trimmed(raw));
    if k == "season"@ || k == "temporada"@ || k == "t"@ {
        "season"@
    } else if k == "movie"@ || k == "pelicula"@ || k == "película"@ || k == "film"@ {
        "movie"@
    } else {
        "series"@
    }
}

/// The kind that a new collection gets at its level: a film stays a film; anything else
/// is a series among the roots and a season below one.
pub open spec fn kind_at_level(raw: Seq<char>, parent: Seq<char>) -> Seq<char> {
    if collection_kind(raw) == "movie"@ {
        "movie"@
    } else if parent.len() == 0 {
        "series"@
    } else {
        "season"@
    }
}

/// Whether a collection at this level may be of the kind.
pub open spec fn kind_fits(kind: Seq<char>, parent: Seq<char>) -> bool {
    kind == "movie"@ || kind == (if parent.len() == 0 {
        "series"@
    } else {
        "season"@
    })
}

// ---------------------------------------------------------------------------
// Files
// ---------------------------------------------------------------------------
/// Every file.
pub open spec fn any_file() -> spec_fn(FileRec) -> bool {
    |f: FileRec| true
}

/// The files of a kind.
pub open spec fn file_of_kind(kind: Seq<char>) -> spec_fn(FileRec) -> bool {
    |f: FileRec| f.kind == kind
}

/// The files whose kind stands for `file` (or, with `false`, for `media`).
pub open spec fn file_stored(stored: bool) -> spec_fn(FileRec) -> bool {
    |f: FileRec| (file_kind(f.kind) == "file"@) == stored
}

/// The files with a content hash.
pub open spec fn file_of_hash(hash: Seq<char>) -> spec_fn(FileRec) -> bool {
    |f: FileRec| f.hash == hash
}

/// The entries of a file.
pub open spec fn item_of_file(path: Seq<char>) -> spec_fn(ItemRec) -> bool {
    |i: ItemRec| i.file_path == path
}

/// The entries of files with a content hash.
pub open spec fn item_of_hash(t: Tables, hash: Seq<char>) -> spec_fn(ItemRec) -> bool {
    |i: ItemRec| t.files.contains_key(i.file_path) && t.files[i.file_path].hash == hash
}

/// After a file was listed: a new row is taken as it is, but for its kind; an existing
/// row keeps its title and its watched mark.
pub open spec fn upserted(t: Tables, row: FileRec) -> Tables {
    let known = t.files.contains_key(row.path);
    Tables {
        files: t.files.insert(
            row.path,
            FileRec {
                kind: file_kind(row.kind),
                title: if known {
                    t.files[row.path].title
                } else {
                    row.title
                },
                watched: if known {
                    t.files[row.path].watched
                } else {
                    row.watched
                },
                ..row
            },
        ),
        ..t
    }
}

/// After the title of a file was set.
pub open spec fn retitled(t: Tables, path: Seq<char>, title: Seq<char>) -> Tables {
    if t.files.contains_key(path) {
        Tables {
            files: t.files.insert(
                path,
                FileRec { title: text::clip(text::trimmed(title), 128), ..t.files[path] },
            ),
            ..t
        }
    } else {
        t
    }
}

/// After the watched mark of a file was set.
pub open spec fn marked_watched(t: Tables, path: Seq<char>, watched: bool) -> Tables {
    if t.files.contains_key(path) {
        Tables { files: t.files.insert(path, FileRec { watched, ..t.files[path] }), ..t }
    } else {
        t
    }
}

/// After a file and its entries were taken out.
pub open spec fn without_path(t: Tables, path: Seq<char>) -> Tables {
    Tables {
        files: t.files.remove(path),
        items: table::without(t.items, item_of_file(path)),
        ..t
    }
}

/// After all files with a content hash and their entries were taken out.
pub open spec fn without_hash(t: Tables, hash: Seq<char>) -> Tables {
    Tables {
        files: table::without(t.files, file_of_hash(hash)),
        items: table::without(t.items, item_of_hash(t, hash)),
        ..t
    }
}

/// Some file has the content hash.
pub open spec fn hash_listed(t: Tables, hash: Seq<char>) -> bool {
    exists|p: Seq<char>| #[trigger] t.files.contains_key(p) && t.files[p].hash == hash
}

/// `s` holds the entries of `m` that `f` picks and nothing else.
pub open spec fn lists<K, V>(s: Seq<V>, m: Map<K, V>, f: spec_fn(V) -> bool) -> bool {
    &&& forall|i: int|
        0 <= i < s.len() ==> f(#[trigger] s[i]) && exists|k: K| #[trigger]
            m.contains_key(k) && m[k] == s[i]
    &&& forall|k: K| #[trigger] m.contains_key(k) && f(m[k]) ==> s.contains(m[k])
}

/// Files in the order of their paths.
pub open spec fn by_path() -> spec_fn(FileRec, FileRec) -> bool {
    |a: FileRec, b: FileRec| order::text_lt(a.path, b.path)
}

/// `s` holds the files that `f` picks, in the order of their paths.
pub open spec fn is_file_listing(
    s: Seq<FileRec>,
    files: Map<Seq<char>, FileRec>,
    f: spec_fn(FileRec) -> bool,
) -> bool {
    order::ascending(s, by_path()) && lists(s, files, f)
}

/// The files that `f` picks, in the order of their paths.
pub open spec fn file_listing(
    files: Map<Seq<char>, FileRec>,
    f: spec_fn(FileRec) -> bool,
) -> Seq<FileRec> {
    choose|s: Seq<FileRec>| is_file_listing(s, files, f)
}

/// The part of `s` that starts at `offset` and has at most `limit` elements.
pub open spec fn page<A>(s: Seq<A>, limit: nat, offset: nat) -> Seq<A> {
    let from = if offset <= s.len() {
        offset as int
    } else {
        s.len() as int
    };
    let to = if from + limit <= s.len() {
        from + limit
    } else {
        s.len() as int
    };
    s.subrange(from, to)
}

/// The page length that is used for a wished one.
pub open spec fn page_limit(limit: i64) -> nat {
    if limit < 1 {
        1
    } else if limit > 10_000 {
        10_000
    } else {
        limit as nat
    }
}

/// The offset that is used for a wished one.
pub open spec fn page_offset(offset: i64) -> nat {
    if offset < 0 {
        0
    } else {
        offset as nat
    }
}

// ---------------------------------------------------------------------------
// Collections
// ---------------------------------------------------------------------------
/// The collections below `parent`; the roots, where it is empty.
pub open spec fn child_of(parent: Seq<char>) -> spec_fn(CollectionRec) -> bool {
    |c: CollectionRec| c.parent_id == parent
}

/// Every collection.
pub open spec fn any_collection() -> spec_fn(CollectionRec) -> bool {
    |c: CollectionRec| true
}

/// The entries of a collection.
pub open spec fn item_of(id: Seq<char>) -> spec_fn(ItemRec) -> bool {
    |i: ItemRec| i.collection_id == id
}

/// Some collection has `id` as its parent.
pub open spec fn has_children(t: Tables, id: Seq<char>) -> bool {
    exists|c: Seq<char>| #[trigger]
        t.collections.contains_key(c) && t.collections[c].parent_id == id
}

/// The largest of some positions, or 0 when there is none.
pub open spec fn largest_or_zero(s: Set<int>) -> int {
    if exists|x: int| s.contains(x) {
        choose|m: int| s.contains(m) && forall|x: int| #[trigger] s.contains(x) ==> x <= m
    } else {
        0
    }
}

/// The largest of some positions is the one that none exceeds.
pub proof fn lemma_largest(s: Set<int>, m: int)
    requires
        s.contains(m),
        forall|x: int| #[trigger] s.contains(x) ==> x <= m,
    ensures
        largest_or_zero(s) == m,
{
    let c = choose|c: int| s.contains(c) && forall|x: int| #[trigger] s.contains(x) ==> x <= c;
    assert(s.contains(c) && forall|x: int| #[trigger] s.contains(x) ==> x <= c);
    assert(c <= m && m <= c);
}

/// The positions taken below `parent`.
pub open spec fn child_positions(t: Tables, parent: Seq<char>) -> Set<int> {
    Set::new(
        |p: int|
            exists|c: Seq<char>| #[trigger]
                t.collections.contains_key(c) && t.collections[c].parent_id == parent
                    && t.collections[c].pos == p,
    )
}

/// The positions taken in a collection.
pub open spec fn item_positions(t: Tables, id: Seq<char>) -> Set<int> {
    Set::new(
        |p: int|
            exists|k: (Seq<char>, Seq<char>)| #[trigger]
                t.items.contains_key(k) && t.items[k].collection_id == id && t.items[k].pos == p,
    )
}

/// Another collection fits behind the last one below `parent`.
pub open spec fn child_fits(t: Tables, parent: Seq<char>) -> bool {
    largest_or_zero(child_positions(t, parent)) < i64::MAX
}

/// Another entry fits behind the last one of the collection.
pub open spec fn item_fits(t: Tables, id: Seq<char>) -> bool {
    largest_or_zero(item_positions(t, id)) < i64::MAX
}

/// The id of a collection that is made at the instant `now`, as the `serial`-th of the
/// process `process`.
pub open spec fn collection_id(now: i64, serial: u64, process: u32) -> Seq<char> {
    "c"@ + numbers::hex_text(now as u64 as nat) + "-"@ + numbers::hex_text(serial as nat) + "-"@
        + numbers::decimal_text(process as nat)
}

/// The number after `serial`, after the largest one 0 again.
pub open spec fn next_serial(serial: u64) -> u64 {
    if serial == u64::MAX {
        0
    } else {
        (serial + 1) as u64
    }
}

/// The number for the next collection after one with this title was asked for: a blank
/// title uses up no number.
pub open spec fn serial_after(serial: u64, title: Seq<char>) -> u64 {
    if text::trimmed(title).len() == 0 {
        serial
    } else {
        next_serial(serial)
    }
}

/// What making a collection gives: the new record, or why it is refused.
pub open spec fn create_outcome(
    t: Tables,
    kind: Seq<char>,
    title: Seq<char>,
    parent_id: Seq<char>,
    now: i64,
    serial: u64,
    process: u32,
) -> Result<CollectionRec, DbError> {
    let name = text::clip(text::trimmed(title), 128);
    let parent = text::trimmed(parent_id);
    let id = collection_id(now, serial, process);
    if name.len() == 0 {
        Err(DbError::EmptyTitle)
    } else if parent.len() > 0 && !t.collections.contains_key(parent) {
        Err(DbError::ParentMissing)
    } else if parent.len() > 0 && t.collections[parent].parent_id.len() > 0 {
        Err(DbError::TooDeep)
    } else if t.collections.contains_key(id) {
        Err(DbError::DuplicateId)
    } else {
        Ok(
            CollectionRec {
                id,
                kind: kind_at_level(kind, parent),
                title: name,
                poster_url: Seq::empty(),
                poster_file: Seq::empty(),
                created_at: now,
                parent_id: parent,
                pos: (largest_or_zero(child_positions(t, parent)) + 1) as i64,
            },
        )
    }
}

/// An entry as one of the collection `to`.
pub open spec fn moved_to(i: ItemRec, to: Seq<char>) -> ItemRec {
    ItemRec { collection_id: to, ..i }
}

/// The entries after those of the collection `from` became the entries of `to`.
pub open spec fn handed_down(
    items: Map<(Seq<char>, Seq<char>), ItemRec>,
    from: Seq<char>,
    to: Seq<char>,
) -> Map<(Seq<char>, Seq<char>), ItemRec> {
    Map::new(
        |k: (Seq<char>, Seq<char>)|
            if k.0 == to {
                items.contains_key((from, k.1))
            } else {
                k.0 != from && items.contains_key(k)
            },
        |k: (Seq<char>, Seq<char>)|
            if k.0 == to {
                moved_to(items[(from, k.1)], to)
            } else {
                items[k]
            },
    )
}

/// The entries after a collection was made. Those which its parent had of its own leave it, so
/// that entries are in collections without children alone: a season takes them over, beside a
/// film their files are in no collection.
pub open spec fn entries_after(
    items: Map<(Seq<char>, Seq<char>), ItemRec>,
    c: CollectionRec,
) -> Map<(Seq<char>, Seq<char>), ItemRec> {
    if c.parent_id.len() == 0 {
        items
    } else if c.kind == "movie"@ {
        table::without(items, item_of(c.parent_id))
    } else {
        handed_down(items, c.parent_id, c.id)
    }
}

/// After a collection was made.
pub open spec fn created(t: Tables, outcome: Result<CollectionRec, DbError>) -> Tables {
    match outcome {
        Ok(c) => Tables {
            collections: t.collections.insert(c.id, c),
            items: entries_after(t.items, c),
            ..t
        },
        Err(_) => t,
    }
}

/// An address that a poster may have: none, a web address, or an uploaded poster.
pub open spec fn poster_url_allowed(u: Seq<char>) -> bool {
    ||| u.len() == 0
    ||| "http://"@.is_prefix_of(u)
    ||| "https://"@.is_prefix_of(u)
    ||| "/posters/"@.is_prefix_of(u)
}

/// The view of an optional text.
pub open spec fn opt_view(s: Option<&str>) -> Option<Seq<char>> {
    match s {
        Some(x) => Some(x@),
        None => None,
    }
}

/// What updating a collection gives. Only the first field that is given counts: title,
/// then poster address, then kind. `Ok` tells whether the collection exists.
pub open spec fn update_outcome(
    t: Tables,
    id: Seq<char>,
    title: Option<Seq<char>>,
    poster_url: Option<Seq<char>>,
    kind: Option<Seq<char>>,
) -> Result<bool, DbError> {
    let known = t.collections.contains_key(id);
    if title is Some {
        if text::clip(text::trimmed(title->0), 128).len() == 0 {
            Err(DbError::EmptyTitle)
        } else {
            Ok(known)
        }
    } else if poster_url is Some {
        if !poster_url_allowed(text::clip(text::trimmed(poster_url->0), 512)) {
            Err(DbError::InvalidPosterUrl)
        } else {
            Ok(known)
        }
    } else if kind is Some {
        if known && !kind_fits(collection_kind(kind->0), t.collections[id].parent_id) {
            Err(DbError::KindNotAllowed)
        } else {
            Ok(known)
        }
    } else {
        Ok(false)
    }
}

/// After a collection was updated.
pub open spec fn updated(
    t: Tables,
    id: Seq<char>,
    title: Option<Seq<char>>,
    poster_url: Option<Seq<char>>,
    kind: Option<Seq<char>>,
) -> Tables {
    if update_outcome(t, id, title, poster_url, kind) == Ok::<bool, DbError>(true) {
        let c = t.collections[id];
        let changed = if title is Some {
            CollectionRec { title: text::clip(text::trimmed(title->0), 128), ..c }
        } else if poster_url is Some {
            CollectionRec { poster_url: text::clip(text::trimmed(poster_url->0), 512), ..c }
        } else {
            CollectionRec { kind: collection_kind(kind->0), ..c }
        };
        Tables { collections: t.collections.insert(id, changed), ..t }
    } else {
        t
    }
}

/// After the uploaded poster of a collection was set.
pub open spec fn with_poster(t: Tables, id: Seq<char>, file: Seq<char>) -> Tables {
    if t.collections.contains_key(id) {
        Tables {
            collections: t.collections.insert(
                id,
                CollectionRec { poster_file: file, ..t.collections[id] },
            ),
            ..t
        }
    } else {
        t
    }
}

/// The collection `id` and those below it. Nothing is below an empty id.
pub open spec fn in_family(id: Seq<char>) -> spec_fn(CollectionRec) -> bool {
    |c: CollectionRec| c.id == id || id.len() > 0 && c.parent_id == id
}

/// The entries of the collection `id` and of those below it.
pub open spec fn item_in_family(t: Tables, id: Seq<char>) -> spec_fn(ItemRec) -> bool {
    |i: ItemRec|
        i.collection_id == id || id.len() > 0 && t.collections.contains_key(i.collection_id)
            && t.collections[i.collection_id].parent_id == id
}

/// After a collection, those below it and all their entries were taken out.
pub open spec fn without_collection(t: Tables, id: Seq<char>) -> Tables {
    Tables {
        collections: table::without(t.collections, in_family(id)),
        items: table::without(t.items, item_in_family(t, id)),
        ..t
    }
}

/// Some other file than `path` has an entry in the collection.
pub open spec fn holds_other(t: Tables, id: Seq<char>, path: Seq<char>) -> bool {
    exists|k: (Seq<char>, Seq<char>)| #[trigger]
        t.items.contains_key(k) && t.items[k].collection_id == id && t.items[k].file_path != path
}

/// What putting a file into a collection gives.
pub open spec fn add_outcome(t: Tables, id: Seq<char>, path: Seq<char>) -> Result<(), DbError> {
    if !t.collections.contains_key(id) {
        Err(DbError::CollectionMissing)
    } else if has_children(t, id) {
        Err(DbError::ChooseChild)
    } else if !t.files.contains_key(path) {
        Err(DbError::FileNotListed)
    } else if t.collections[id].kind == "movie"@ && holds_other(t, id, path) {
        Err(DbError::MovieTaken)
    } else {
        Ok(())
    }
}

/// Some collection has an entry of the file.
pub open spec fn is_placed(t: Tables, path: Seq<char>) -> bool {
    exists|c: Seq<char>| #[trigger] t.items.contains_key((c, path))
}

/// The entries of a file in other collections than `id`.
pub open spec fn item_elsewhere(id: Seq<char>, path: Seq<char>) -> spec_fn(ItemRec) -> bool {
    |i: ItemRec| i.file_path == path && i.collection_id != id
}

/// The entry that a file gets in a collection. A position that is not positive stands
/// for the one behind the last.
pub open spec fn new_item(
    t: Tables,
    id: Seq<char>,
    path: Seq<char>,
    season: Seq<char>,
    label: Seq<char>,
    pos: i64,
) -> ItemRec {
    ItemRec {
        collection_id: id,
        file_path: path,
        season: text::clip(text::trimmed(season), 32),
        label: text::clip(text::trimmed(label), 64),
        pos: if pos <= 0 {
            (largest_or_zero(item_positions(t, id)) + 1) as i64
        } else {
            pos
        },
    }
}

/// After a file was put into a collection: it is there, and nowhere else.
pub open spec fn with_item(
    t: Tables,
    id: Seq<char>,
    path: Seq<char>,
    season: Seq<char>,
    label: Seq<char>,
    pos: i64,
) -> Tables {
    if add_outcome(t, id, path) is Ok {
        Tables {
            items: table::without(t.items, item_elsewhere(id, path)).insert(
                (id, path),
                new_item(t, id, path, season, label, pos),
            ),
            ..t
        }
    } else {
        t
    }
}

/// The last place of `x` in `s`.
pub open spec fn last_place(s: Seq<Seq<char>>, x: Seq<char>) -> Option<int>
    decreases s.len(),
{
    if s.len() == 0 {
        None
    } else if s.last() == x {
        Some(s.len() - 1)
    } else {
        last_place(s.drop_last(), x)
    }
}

/// The views of some texts.
pub open spec fn text_views(v: Seq<String>) -> Seq<Seq<char>> {
    v.map_values(|s: String| s@)
}

/// What reordering a collection gives.
pub open spec fn reorder_outcome(t: Tables, id: Seq<char>) -> Result<(), DbError> {
    if t.collections.contains_key(id) {
        Ok(())
    } else {
        Err(DbError::CollectionMissing)
    }
}

/// An entry after its collection was reordered: its place in the order becomes its
/// position. One that the order does not name stays where it was.
pub open spec fn reordered_item(i: ItemRec, id: Seq<char>, order: Seq<Seq<char>>) -> ItemRec {
    match last_place(order, i.file_path) {
        Some(p) if i.collection_id == id => ItemRec { pos: p as i64, ..i },
        _ => i,
    }
}

/// After the entries of a collection were reordered.
pub open spec fn items_reordered(t: Tables, id: Seq<char>, order: Seq<Seq<char>>) -> Tables {
    if t.collections.contains_key(id) {
        Tables { items: t.items.map_values(|i: ItemRec| reordered_item(i, id, order)), ..t }
    } else {
        t
    }
}

/// A collection after those below `root` were reordered.
pub open spec fn reordered_child(
    c: CollectionRec,
    root: Seq<char>,
    order: Seq<Seq<char>>,
) -> CollectionRec {
    match last_place(order, c.id) {
        Some(p) if c.parent_id == root => CollectionRec { pos: p as i64, ..c },
        _ => c,
    }
}

/// After the collections below a root were reordered.
pub open spec fn children_reordered(t: Tables, root: Seq<char>, order: Seq<Seq<char>>) -> Tables {
    if t.collections.contains_key(root) {
        Tables {
            collections: t.collections.map_values(
                |c: CollectionRec| reordered_child(c, root, order),
            ),
            ..t
        }
    } else {
        t
    }
}

/// After an entry was taken out.
pub open spec fn without_item(t: Tables, id: Seq<char>, path: Seq<char>) -> Tables {
    Tables { items: t.items.remove((id, path)), ..t }
}

// ---------------------------------------------------------------------------
// Listings of collections and their entries
// ---------------------------------------------------------------------------
/// `a` may stand before `b`: by position, then by age.
pub open spec fn collection_not_after(a: CollectionRec, b: CollectionRec) -> bool {
    a.pos < b.pos || a.pos == b.pos && a.created_at <= b.created_at
}

/// `s` holds each collection that `f` picks once, by position and then by age.
pub open spec fn is_collection_listing(
    s: Seq<CollectionRec>,
    collections: Map<Seq<char>, CollectionRec>,
    f: spec_fn(CollectionRec) -> bool,
) -> bool {
    &&& lists(s, collections, f)
    &&& s.no_duplicates()
    &&& forall|i: int, j: int|
        0 <= i < j < s.len() ==> collection_not_after(#[trigger] s[i], #[trigger] s[j])
}

/// An entry with what is known of its file.
pub open spec fn item_view(i: ItemRec, f: FileRec) -> ItemViewRec {
    ItemViewRec {
        file_path: i.file_path,
        title: crate::records::shown_title(f.title, i.file_path),
        hash: f.hash,
        size: f.size,
        mime: f.mime,
        season: i.season,
        label: i.label,
        pos: i.pos,
        watched: f.watched,
    }
}

/// The entries of a collection whose file is listed.
pub open spec fn item_shown(t: Tables, id: Seq<char>) -> spec_fn(ItemRec) -> bool {
    |i: ItemRec| i.collection_id == id && t.files.contains_key(i.file_path)
}

/// Entries by position, then by the title given to the file, then by path.
pub open spec fn item_before(
    files: Map<Seq<char>, FileRec>,
) -> spec_fn(ItemRec, ItemRec) -> bool {
    |a: ItemRec, b: ItemRec|
        {
            let x = files[a.file_path].title;
            let y = files[b.file_path].title;
            a.pos < b.pos || a.pos == b.pos && (order::text_lt(x, y) || x == y && order::text_lt(
                a.file_path,
                b.file_path,
            ))
        }
}

/// `s` holds the entries of a collection, in order.
pub open spec fn is_item_listing(s: Seq<ItemRec>, t: Tables, id: Seq<char>) -> bool {
    order::ascending(s, item_before(t.files)) && lists(s, t.items, item_shown(t, id))
}

/// The entries of a collection in order.
pub open spec fn item_listing(t: Tables, id: Seq<char>) -> Seq<ItemRec> {
    choose|s: Seq<ItemRec>| is_item_listing(s, t, id)
}

/// The entries of a collection in order, each with what is known of its file.
pub open spec fn detail_items(t: Tables, id: Seq<char>) -> Seq<ItemViewRec> {
    item_listing(t, id).map_values(|i: ItemRec| item_view(i, t.files[i.file_path]))
}

/// The views of some entries.
pub open spec fn item_views(v: Seq<CollectionItemView>) -> Seq<ItemViewRec> {
    v.map_values(|i: CollectionItemView| i@)
}

/// The collections of some details.
pub open spec fn detail_collections(v: Seq<CollectionDetail>) -> Seq<CollectionRec> {
    v.map_values(|d: CollectionDetail| d.collection@)
}

/// `d` is the detail of a collection without its children.
pub open spec fn is_leaf_detail(d: CollectionDetail, t: Tables, id: Seq<char>) -> bool {
    &&& d.collection@ == t.collections[id]
    &&& item_views(d.items@) == detail_items(t, id)
}

/// `d` is the detail of the collection `id`: its entries, and for a root its children with
/// theirs.
pub open spec fn is_detail(d: CollectionDetail, t: Tables, id: Seq<char>) -> bool {
    &&& is_leaf_detail(d, t, id)
    &&& if t.collections[id].parent_id.len() == 0 {
        &&& is_collection_listing(detail_collections(d.children@), t.collections, child_of(id))
        &&& forall|i: int|
            0 <= i < d.children@.len() ==> is_leaf_detail(
                #[trigger] d.children@[i],
                t,
                d.children@[i].collection@.id,
            ) && d.children@[i].children@.len() == 0
    } else {
        d.children@.len() == 0
    }
}

/// The entries of the collections below `id`.
pub open spec fn item_below(t: Tables, id: Seq<char>) -> spec_fn(ItemRec) -> bool {
    |i: ItemRec|
        t.collections.contains_key(i.collection_id)
            && t.collections[i.collection_id].parent_id == id && id.len() > 0
}

/// The collections below `id`, where `id` is not empty.
pub open spec fn counted_child(id: Seq<char>) -> spec_fn(CollectionRec) -> bool {
    |c: CollectionRec| c.parent_id == id && id.len() > 0
}

/// How many entries a collection has, its own and those of its children, and how many
/// children.
pub open spec fn collection_counts(t: Tables, id: Seq<char>) -> (nat, nat) {
    (
        table::picked(t.items, item_of(id)).len() + table::picked(t.items, item_below(t, id)).len(),
        table::picked(t.collections, counted_child(id)).len(),
    )
}

/// The entries of the collections below `id` whose file is listed.
pub open spec fn item_shown_below(t: Tables, id: Seq<char>) -> spec_fn(ItemRec) -> bool {
    |i: ItemRec|
        t.files.contains_key(i.file_path) && t.collections.contains_key(i.collection_id)
            && t.collections[i.collection_id].parent_id == id
}

/// How many entries the detail of a collection shows, with those of its children, and how
/// many children.
pub open spec fn visible_counts(t: Tables, id: Seq<char>) -> (nat, nat) {
    let own = table::picked(t.items, item_shown(t, id)).len();
    if t.collections[id].parent_id.len() == 0 {
        (
            own + table::picked(t.items, item_shown_below(t, id)).len(),
            table::picked(t.collections, child_of(id)).len(),
        )
    } else {
        (own, 0)
    }
}

/// The tables are small enough for their counts.
pub open spec fn countable(t: Tables) -> bool {
    &&& t.files.dom().len() <= i64::MAX
    &&& 2 * t.items.dom().len() <= i64::MAX
    &&& t.collections.dom().len() <= i64::MAX
}

/// There is one ascending listing of the entries that `f` picks.
pub proof fn lemma_listing_unique<K, V>(
    s: Seq<V>,
    t: Seq<V>,
    m: Map<K, V>,
    f: spec_fn(V) -> bool,
    lt: spec_fn(V, V) -> bool,
)
    requires
        order::asymmetric(lt),
        order::ascending(s, lt),
        order::ascending(t, lt),
        lists(s, m, f),
        lists(t, m, f),
    ensures
        s == t,
{
    assert forall|x: V| s.contains(x) <==> t.contains(x) by {
        if s.contains(x) {
            let i = choose|i: int| 0 <= i < s.len() && s[i] == x;
            let k = choose|k: K| #[trigger] m.contains_key(k) && m[k] == s[i];
            assert(t.contains(m[k]));
        }
        if t.contains(x) {
            let i = choose|i: int| 0 <= i < t.len() && t[i] == x;
            let k = choose|k: K| #[trigger] m.contains_key(k) && m[k] == t[i];
            assert(s.contains(m[k]));
        }
    }
    order::lemma_ascending_is_unique(s, t, lt);
}

/// The entries that `f` picks can be listed in ascending order, each of them once.
pub proof fn lemma_listing_exists<K, V>(
    m: Map<K, V>,
    f: spec_fn(V) -> bool,
    lt: spec_fn(V, V) -> bool,
) -> (s: Seq<V>)
    requires
        m.dom().finite(),
        forall|a: K, b: K|
            #![trigger m[a], m[b]]
            m.contains_key(a) && m.contains_key(b) && f(m[a]) && f(m[b]) && a != b ==> lt(m[a], m[b])
                || lt(m[b], m[a]),
        forall|x: V, y: V, z: V| #[trigger] lt(x, y) && #[trigger] lt(y, z) ==> lt(x, z),
    ensures
        order::ascending(s, lt),
        lists(s, m, f),
        s.len() == table::picked(m, f).len(),
{
    broadcast use vstd::set::group_set_axioms;

    let keys = table::picked(m, f);
    assert(keys.subset_of(m.dom()));
    vstd::set_lib::lemma_len_subset(keys, m.dom());
    let before = |a: K, b: K| lt(m[a], m[b]);
    assert(order::orders(keys, before)) by {
        assert forall|a: K, b: K| keys.contains(a) && keys.contains(b) && a != b implies
            #[trigger] before(a, b) || before(b, a) by {
            assert(lt(m[a], m[b]) || lt(m[b], m[a]));
        }
    }
    let q = order::lemma_sorted_exists(keys, before);
    let s = q.map_values(|k: K| m[k]);
    assert forall|i: int, j: int| 0 <= i < j < s.len() implies lt(
        #[trigger] s[i],
        #[trigger] s[j],
    ) by {
        assert(before(q[i], q[j]));
    }
    assert forall|i: int| 0 <= i < s.len() implies f(#[trigger] s[i]) && exists|k: K| #[trigger]
        m.contains_key(k) && m[k] == s[i] by {
        assert(q.contains(q[i]));
        assert(keys.contains(q[i]));
        assert(m.contains_key(q[i]) && m[q[i]] == s[i]);
    }
    assert forall|k: K| #[trigger] m.contains_key(k) && f(m[k]) implies s.contains(m[k]) by {
        assert(keys.contains(k));
        let i = choose|i: int| 0 <= i < q.len() && q[i] == k;
        assert(s[i] == m[k]);
    }
    s
}

/// No two texts come before each other.
pub proof fn lemma_text_lt_asymmetric()
    ensures
        forall|a: Seq<char>, b: Seq<char>| #[trigger] order::text_lt(a, b) ==> !order::text_lt(b, a),
{
    assert forall|a: Seq<char>, b: Seq<char>| #[trigger] order::text_lt(a, b) implies !order::text_lt(
        b,
        a,
    ) by {
        if order::text_lt(b, a) {
            order::lemma_text_antisymmetric(a, b);
        }
    }
}

/// An ascending listing of files is `file_listing`.
pub proof fn lemma_file_listing(
    s: Seq<FileRec>,
    files: Map<Seq<char>, FileRec>,
    f: spec_fn(FileRec) -> bool,
)
    requires
        is_file_listing(s, files, f),
    ensures
        s == file_listing(files, f),
{
    lemma_text_lt_asymmetric();
    assert(order::asymmetric(by_path()));
    assert(is_file_listing(file_listing(files, f), files, f));
    lemma_listing_unique(s, file_listing(files, f), files, f, by_path());
}

/// An ascending listing of the entries of a collection is `item_listing`.
pub proof fn lemma_item_listing(s: Seq<ItemRec>, t: Tables, id: Seq<char>)
    requires
        is_item_listing(s, t, id),
    ensures
        s == item_listing(t, id),
{
    lemma_text_lt_asymmetric();
    assert(order::asymmetric(item_before(t.files)));
    assert(is_item_listing(item_listing(t, id), t, id));
    lemma_listing_unique(
        s,
        item_listing(t, id),
        t.items,
        item_shown(t, id),
        item_before(t.files),
    );
}

} // verus!
