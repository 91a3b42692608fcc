//! The catalog: files, settings, and collections of files.

use crate::catalog;
use crate::catalog::{DbError, Tables};
use crate::consistency;
use crate::numbers::{decimal, hexadecimal};
use crate::listings::{collections_in_order, entries_in_order, files_by_path};
use crate::records::{
    Collection, CollectionDetail, CollectionItem, CollectionItemView, CollectionLine, FileRow,
    Setting,
};
use crate::table;
use crate::table::{all_keys_differ, Row, Table};
use crate::text;
use crate::text::{clip_trimmed, same, starts_with};
use vstd::prelude::*;
use vstd::string::*;

use crate::records::{CollectionRec, ItemRec};

verus! {

/// The kind of file that `raw` stands for: `file` for what is only stored, else `media`.
pub fn normalize_file_kind(raw: &str) -> (r: String)
    ensures
        r@ == catalog::file_kind(raw@),
{
    let k = raw.trim().to_lowercase();
    let k = k.as_str();
    if same(k, "file") || same(k, "storage") || same(k, "almacenamiento") || same(k, "archivo") {
        "file".to_owned()
    } else {
        "media".to_owned()
    }
}

impl Table<FileRow> {
    /// The position of the row of `path`.
    pub(crate) fn find(&self, path: &str) -> (r: Option<usize>)
        requires
            self.wf(),
        ensures
            match r {
                Some(i) => i < self.rows@.len() && self.rows@[i as int]@.path == path@
                    && self@.contains_key(path@) && self@[path@] == self.rows@[i as int]@,
                None => !self@.contains_key(path@),
            },
    {
        for i in 0..self.rows.len()
            invariant
                self.wf(),
                forall|j: int| 0 <= j < i ==> (#[trigger] self.rows@[j])@.path != path@,
        {
            if same(self.rows[i].path.as_str(), path) {
                proof {
                    self.lemma_row(i as int);
                }
                return Some(i);
            }
        }
        proof {
            if self@.contains_key(path@) {
                let j = self.lemma_position(path@);
            }
        }
        None
    }
}

impl Table<Setting> {
    /// The position of the setting `key`.
    pub(crate) fn find(&self, key: &str) -> (r: Option<usize>)
        requires
            self.wf(),
        ensures
            match r {
                Some(i) => i < self.rows@.len() && self.rows@[i as int].key@ == key@
                    && self@.contains_key(key@) && self@[key@] == (
                    key@,
                    self.rows@[i as int].val@,
                ),
                None => !self@.contains_key(key@),
            },
    {
        for i in 0..self.rows.len()
            invariant
                self.wf(),
                forall|j: int| 0 <= j < i ==> (#[trigger] self.rows@[j]).key@ != key@,
        {
            if same(self.rows[i].key.as_str(), key) {
                proof {
                    self.lemma_row(i as int);
                }
                return Some(i);
            }
        }
        proof {
            if self@.contains_key(key@) {
                let j = self.lemma_position(key@);
            }
        }
        None
    }
}

impl Table<Collection> {
    /// The position of the collection `id`.
    pub(crate) fn find(&self, id: &str) -> (r: Option<usize>)
        requires
            self.wf(),
        ensures
            match r {
                Some(i) => i < self.rows@.len() && self.rows@[i as int]@.id == id@
                    && self@.contains_key(id@) && self@[id@] == self.rows@[i as int]@,
                None => !self@.contains_key(id@),
            },
    {
        for i in 0..self.rows.len()
            invariant
                self.wf(),
                forall|j: int| 0 <= j < i ==> (#[trigger] self.rows@[j])@.id != id@,
        {
            if same(self.rows[i].id.as_str(), id) {
                proof {
                    self.lemma_row(i as int);
                }
                return Some(i);
            }
        }
        proof {
            if self@.contains_key(id@) {
                let j = self.lemma_position(id@);
            }
        }
        None
    }
}

impl Table<CollectionItem> {
    /// The position of the entry of `path` in the collection `id`.
    pub(crate) fn find(&self, id: &str, path: &str) -> (r: Option<usize>)
        requires
            self.wf(),
        ensures
            match r {
                Some(i) => i < self.rows@.len() && self.rows@[i as int]@.collection_id == id@
                    && self.rows@[i as int]@.file_path == path@ && self@.contains_key((id@, path@))
                    && self@[(id@, path@)] == self.rows@[i as int]@,
                None => !self@.contains_key((id@, path@)),
            },
    {
        for i in 0..self.rows.len()
            invariant
                self.wf(),
                forall|j: int|
                    0 <= j < i ==> !((#[trigger] self.rows@[j])@.collection_id == id@
                        && self.rows@[j]@.file_path == path@),
        {
            if same(self.rows[i].collection_id.as_str(), id) && same(
                self.rows[i].file_path.as_str(),
                path,
            ) {
                proof {
                    self.lemma_row(i as int);
                }
                return Some(i);
            }
        }
        proof {
            if self@.contains_key((id@, path@)) {
                let j = self.lemma_position((id@, path@));
            }
        }
        None
    }
}

impl Table<CollectionItem> {
    /// The entries of the collection `from`, as entries of `to`.
    fn copies(&self, from: &str, to: &str) -> (r: Vec<CollectionItem>)
        requires
            self.wf(),
        ensures
            forall|a: int|
                0 <= a < r@.len() ==> self@.contains_key((from@, (#[trigger] r@[a])@.file_path))
                    && r@[a]@ == catalog::moved_to(self@[(from@, r@[a]@.file_path)], to@),
            forall|a: int, b: int|
                0 <= a < b < r@.len() ==> (#[trigger] r@[a])@.file_path != (
                #[trigger] r@[b])@.file_path,
            forall|p: Seq<char>| #[trigger]
                self@.contains_key((from@, p)) ==> exists|a: int|
                    0 <= a < r@.len() && (#[trigger] r@[a])@.file_path == p,
    {
        let mut r: Vec<CollectionItem> = Vec::new();
        let ghost mut at: Seq<int> = Seq::empty();
        for i in 0..self.rows.len()
            invariant
                self.wf(),
                at.len() == r@.len(),
                forall|a: int|
                    0 <= a < at.len() ==> 0 <= #[trigger] at[a] < i
                        && self.rows@[at[a]]@.collection_id == from@,
                forall|a: int|
                    0 <= a < at.len() ==> (#[trigger] r@[a])@ == catalog::moved_to(
                        self.rows@[at[a]]@,
                        to@,
                    ),
                forall|a: int, b: int|
                    0 <= a < b < at.len() ==> #[trigger] at[a] < #[trigger] at[b],
                forall|j: int|
                    0 <= j < i && (#[trigger] self.rows@[j])@.collection_id == from@ ==> exists|
                        a: int,
                    | 0 <= a < r@.len() && (#[trigger] r@[a])@.file_path == self.rows@[j]@.file_path,
        {
            if same(self.rows[i].collection_id.as_str(), from) {
                let mut copy = self.rows[i].clone();
                copy.collection_id = to.to_owned();
                let ghost before = r@;
                r.push(copy);
                proof {
                    at = at.push(i as int);
                    assert forall|j: int|
                        0 <= j < i + 1 && (#[trigger] self.rows@[j])@.collection_id
                            == from@ implies exists|a: int|
                        0 <= a < r@.len() && (#[trigger] r@[a])@.file_path
                            == self.rows@[j]@.file_path by {
                        if j < i {
                            let a = choose|a: int|
                                0 <= a < before.len() && (#[trigger] before[a])@.file_path
                                    == self.rows@[j]@.file_path;
                            assert(r@[a]@.file_path == self.rows@[j]@.file_path);
                        } else {
                            assert(r@[r@.len() - 1]@.file_path == self.rows@[j]@.file_path);
                        }
                    }
                }
            }
        }
        proof {
            assert forall|a: int| 0 <= a < r@.len() implies self@.contains_key(
                (from@, (#[trigger] r@[a])@.file_path),
            ) && r@[a]@ == catalog::moved_to(self@[(from@, r@[a]@.file_path)], to@) by {
                self.lemma_row(at[a]);
            }
            assert forall|a: int, b: int| 0 <= a < b < r@.len() implies (#[trigger] r@[a])@.file_path
                != (#[trigger] r@[b])@.file_path by {
                assert(at[a] < at[b]);
                self.lemma_distinct(at[a], at[b]);
            }
            assert forall|p: Seq<char>| #[trigger] self@.contains_key((from@, p)) implies exists|
                a: int,
            | 0 <= a < r@.len() && (#[trigger] r@[a])@.file_path == p by {
                let j = self.lemma_position((from@, p));
            }
        }
        r
    }

    /// Makes the entries of the collection `from` the entries of `to`.
    fn hand_down(&mut self, from: &str, to: &str)
        requires
            old(self).wf(),
            from@ != to@,
        ensures
            final(self).wf(),
            final(self)@ == catalog::handed_down(old(self)@, from@, to@),
    {
        let ghost m = self@;
        let copies = self.copies(from, to);
        let gone = |i: &CollectionItem| -> (b: bool)
            ensures
                b == (i@.collection_id == from@ || i@.collection_id == to@),
            { same(i.collection_id.as_str(), from) || same(i.collection_id.as_str(), to) };
        proof {
            self.lemma_keys();
        }
        self.take_out_all(
            gone,
            Ghost(|i: ItemRec| i.collection_id == from@ || i.collection_id == to@),
        );
        for j in 0..copies.len()
            invariant
                self.wf(),
                from@ != to@,
                forall|a: int|
                    0 <= a < copies@.len() ==> m.contains_key(
                        (from@, (#[trigger] copies@[a])@.file_path),
                    ) && copies@[a]@ == catalog::moved_to(m[(from@, copies@[a]@.file_path)], to@),
                forall|a: int, b: int|
                    0 <= a < b < copies@.len() ==> (#[trigger] copies@[a])@.file_path != (
                    #[trigger] copies@[b])@.file_path,
                forall|k: (Seq<char>, Seq<char>)| #[trigger]
                    self@.contains_key(k) ==> if k.0 == to@ {
                        exists|a: int| 0 <= a < j && (#[trigger] copies@[a])@.file_path == k.1
                    } else {
                        k.0 != from@ && m.contains_key(k) && self@[k] == m[k]
                    },
                forall|k: (Seq<char>, Seq<char>)| #[trigger]
                    m.contains_key(k) && k.0 != from@ && k.0 != to@ ==> self@.contains_key(k),
                forall|a: int|
                    0 <= a < j ==> self@.contains_key((to@, (#[trigger] copies@[a])@.file_path))
                        && self@[(to@, copies@[a]@.file_path)] == copies@[a]@,
        {
            let ghost before = self@;
            proof {
                let k = (to@, copies@[j as int]@.file_path);
                if self@.contains_key(k) {
                    let a = choose|a: int| 0 <= a < j && (#[trigger] copies@[a])@.file_path == k.1;
                    assert(copies@[a]@.file_path != copies@[j as int]@.file_path);
                }
            }
            self.push(copies[j].clone());
            proof {
                let new = (to@, copies@[j as int]@.file_path);
                assert(copies@[j as int]@.collection_id == to@);
                assert(self@ == before.insert(new, copies@[j as int]@));
                assert forall|k: (Seq<char>, Seq<char>)| #[trigger]
                    self@.contains_key(k) && k.0 == to@ implies exists|a: int|
                    0 <= a < j + 1 && (#[trigger] copies@[a])@.file_path == k.1 by {
                    if k == new {
                        assert(copies@[j as int]@.file_path == k.1);
                    } else {
                        assert(before.contains_key(k));
                        let a = choose|a: int|
                            0 <= a < j && (#[trigger] copies@[a])@.file_path == k.1;
                        assert(copies@[a]@.file_path == k.1);
                    }
                }
            }
        }
        proof {
            assert forall|k: (Seq<char>, Seq<char>)| #[trigger]
                self@.contains_key(k) <==> catalog::handed_down(m, from@, to@).contains_key(k) by {
                if k.0 == to@ && m.contains_key((from@, k.1)) {
                    let a = choose|a: int|
                        0 <= a < copies@.len() && (#[trigger] copies@[a])@.file_path == k.1;
                    assert(self@.contains_key((to@, copies@[a]@.file_path)));
                }
                if k.0 == to@ && self@.contains_key(k) {
                    let a = choose|a: int|
                        0 <= a < copies@.len() && (#[trigger] copies@[a])@.file_path == k.1;
                    assert(m.contains_key((from@, copies@[a]@.file_path)));
                }
            }
            assert forall|k: (Seq<char>, Seq<char>)| #[trigger] self@.contains_key(k) implies self@[k]
                == catalog::handed_down(m, from@, to@)[k] by {
                if k.0 == to@ {
                    let a = choose|a: int|
                        0 <= a < copies@.len() && (#[trigger] copies@[a])@.file_path == k.1;
                    assert(self@[(to@, copies@[a]@.file_path)] == copies@[a]@);
                }
            }
            assert(self@ =~= catalog::handed_down(m, from@, to@));
        }
    }
}

/// The catalog.
pub struct Db {
    files: Table<FileRow>,
    settings: Table<Setting>,
    collections: Table<Collection>,
    items: Table<CollectionItem>,
    serial: u64,
    process: u32,
}

impl View for Db {
    type V = Tables;

    closed spec fn view(&self) -> Tables {
        Tables {
            files: self.files@,
            settings: self.settings@,
            collections: self.collections@,
            items: self.items@,
        }
    }
}

impl Db {
    /// No key occurs twice in a table.
    pub closed spec fn wf(self) -> bool {
        &&& self.files.wf()
        &&& self.settings.wf()
        &&& self.collections.wf()
        &&& self.items.wf()
    }

    /// Every entry of a table stands under its own key, and the tables are finite.
    pub proof fn lemma_keys(self)
        requires
            self.wf(),
        ensures
            consistency::well_keyed(self@),
            self@.files.dom().finite(),
            self@.collections.dom().finite(),
            self@.items.dom().finite(),
    {
        self.files.lemma_keys();
        self.collections.lemma_keys();
        self.items.lemma_keys();
        self.files.lemma_len();
        self.collections.lemma_len();
        self.items.lemma_len();
    }

    /// The number of the next collection that is made here.
    pub closed spec fn serial(self) -> u64 {
        self.serial
    }

    /// The process that the catalog was opened for.
    pub closed spec fn process(self) -> u32 {
        self.process
    }

    /// An empty catalog.
    pub fn open_in_memory(process: u32) -> (r: Self)
        ensures
            r.wf(),
            r@ == (Tables {
                files: Map::empty(),
                settings: Map::empty(),
                collections: Map::empty(),
                items: Map::empty(),
            }),
            r.serial() == 1,
            r.process() == process,
    {
        Db {
            files: Table::new(),
            settings: Table::new(),
            collections: Table::new(),
            items: Table::new(),
            serial: 1,
            process,
        }
    }

    /// The largest position below `parent`, or 0.
    fn last_child_pos(&self, parent: &str) -> (r: i64)
        requires
            self.wf(),
        ensures
            r == catalog::largest_or_zero(catalog::child_positions(self@, parent@)),
    {
        let ghost s = catalog::child_positions(self@, parent@);
        let mut best: Option<i64> = None;
        for i in 0..self.collections.rows.len()
            invariant
                self.wf(),
                s == catalog::child_positions(self@, parent@),
                match best {
                    Some(b) => s.contains(b as int) && forall|j: int|
                        0 <= j < i && (#[trigger] self.collections.rows@[j])@.parent_id == parent@
                            ==> self.collections.rows@[j].pos <= b,
                    None => forall|j: int|
                        0 <= j < i ==> (#[trigger] self.collections.rows@[j])@.parent_id
                            != parent@,
                },
        {
            let c = &self.collections.rows[i];
            if same(c.parent_id.as_str(), parent) {
                proof {
                    self.collections.lemma_row(i as int);
                    assert(self@.collections.contains_key(c@.id));
                    assert(s.contains(c.pos as int));
                }
                match best {
                    Some(b) => {
                        if c.pos > b {
                            best = Some(c.pos);
                        }
                    },
                    None => {
                        best = Some(c.pos);
                    },
                }
            }
        }
        proof {
            assert forall|x: int| #[trigger] s.contains(x) implies best is Some && x
                <= best->0 by {
                let k = choose|k: Seq<char>| #[trigger]
                    self@.collections.contains_key(k) && self@.collections[k].parent_id == parent@
                        && self@.collections[k].pos == x;
                let j = self.collections.lemma_position(k);
            }
            if best is Some {
                catalog::lemma_largest(s, best->0 as int);
            }
        }
        match best {
            Some(b) => b,
            None => 0,
        }
    }

    /// The largest position in the collection `id`, or 0.
    fn last_item_pos(&self, id: &str) -> (r: i64)
        requires
            self.wf(),
        ensures
            r == catalog::largest_or_zero(catalog::item_positions(self@, id@)),
    {
        let ghost s = catalog::item_positions(self@, id@);
        let mut best: Option<i64> = None;
        for i in 0..self.items.rows.len()
            invariant
                self.wf(),
                s == catalog::item_positions(self@, id@),
                match best {
                    Some(b) => s.contains(b as int) && forall|j: int|
                        0 <= j < i && (#[trigger] self.items.rows@[j])@.collection_id == id@
                            ==> self.items.rows@[j].pos <= b,
                    None => forall|j: int|
                        0 <= j < i ==> (#[trigger] self.items.rows@[j])@.collection_id != id@,
                },
        {
            let c = &self.items.rows[i];
            if same(c.collection_id.as_str(), id) {
                proof {
                    self.items.lemma_row(i as int);
                    assert(self@.items.contains_key((c@.collection_id, c@.file_path)));
                    assert(s.contains(c.pos as int));
                }
                match best {
                    Some(b) => {
                        if c.pos > b {
                            best = Some(c.pos);
                        }
                    },
                    None => {
                        best = Some(c.pos);
                    },
                }
            }
        }
        proof {
            assert forall|x: int| #[trigger] s.contains(x) implies best is Some && x
                <= best->0 by {
                let k = choose|k: (Seq<char>, Seq<char>)| #[trigger]
                    self@.items.contains_key(k) && self@.items[k].collection_id == id@
                        && self@.items[k].pos == x;
                let j = self.items.lemma_position(k);
            }
            if best is Some {
                catalog::lemma_largest(s, best->0 as int);
            }
        }
        match best {
            Some(b) => b,
            None => 0,
        }
    }

    /// Whether another collection fits behind the last one below `parent_id`.
    pub fn child_fits(&self, parent_id: &str) -> (r: bool)
        requires
            self.wf(),
        ensures
            r == catalog::child_fits(self@, text::trimmed(parent_id@)),
    {
        self.last_child_pos(parent_id.trim()) < i64::MAX
    }

    /// Whether another entry fits behind the last one of the collection.
    pub fn item_fits(&self, collection_id: &str) -> (r: bool)
        requires
            self.wf(),
        ensures
            r == catalog::item_fits(self@, collection_id@),
    {
        self.last_item_pos(collection_id) < i64::MAX
    }

    /// The kind of collection that `raw` stands for: `series`, `season` or `movie`.
    pub fn normalize_kind(raw: &str) -> (r: String)
        ensures
            r@ == catalog::collection_kind(raw@),
    {
        let k = raw.trim().to_lowercase();
        let k = k.as_str();
        if same(k, "season") || same(k, "temporada") || same(k, "t") {
            "season".to_owned()
        } else if same(k, "movie") || same(k, "pelicula") || same(k, "película") || same(
            k,
            "film",
        ) {
            "movie".to_owned()
        } else {
            "series".to_owned()
        }
    }

    /// The id of a collection that is made next, at the instant `now`.
    pub fn next_id(&self, now: i64) -> (r: String)
        ensures
            r@ == catalog::collection_id(now, self.serial(), self.process()),
    {
        let mut id = "c".to_owned();
        id.append(hexadecimal(now as u64).as_str());
        id.append("-");
        id.append(hexadecimal(self.serial).as_str());
        id.append("-");
        id.append(decimal(self.process as u64).as_str());
        id
    }

    /// Makes a root (empty `parent_id`) or a collection below a root, at the instant `now`
    /// in nanoseconds. It goes behind the others of its level. There are two levels: a
    /// collection below a root has none below it. Files are in collections without children
    /// alone: a season takes over the files that the root had of its own, and beside a film
    /// they are in no collection.
    pub fn create_collection(
        &mut self,
        kind: &str,
        title: &str,
        parent_id: &str,
        now: i64,
    ) -> (r: Result<Collection, DbError>)
        requires
            old(self).wf(),
            catalog::create_outcome(
                old(self)@,
                kind@,
                title@,
                parent_id@,
                now,
                old(self).serial(),
                old(self).process(),
            ) is Ok ==> catalog::child_fits(old(self)@, text::trimmed(parent_id@)),
        ensures
            final(self).wf(),
            ({
                let outcome = catalog::create_outcome(
                    old(self)@,
                    kind@,
                    title@,
                    parent_id@,
                    now,
                    old(self).serial(),
                    old(self).process(),
                );
                &&& final(self)@ == catalog::created(old(self)@, outcome)
                &&& match r {
                    Ok(c) => outcome == Ok::<CollectionRec, DbError>(c@),
                    Err(e) => outcome == Err::<CollectionRec, DbError>(e),
                }
            }),
            final(self).process() == old(self).process(),
            final(self).serial() == catalog::serial_after(old(self).serial(), title@),
    {
        let title = clip_trimmed(title, 128);
        if title.as_str().is_empty() {
            return Err(DbError::EmptyTitle);
        }
        let parent = parent_id.trim();
        let movie = same(Self::normalize_kind(kind).as_str(), "movie");
        let kind = if movie {
            "movie"
        } else if parent.is_empty() {
            "series"
        } else {
            "season"
        };
        let id = self.next_id(now);
        let serial: u64 = self.serial;
        self.serial = if serial == u64::MAX {
            0
        } else {
            serial + 1
        };
        if !parent.is_empty() {
            match self.collections.find(parent) {
                Some(i) => {
                    if !self.collections.rows[i].parent_id.as_str().is_empty() {
                        return Err(DbError::TooDeep);
                    }
                },
                None => {
                    return Err(DbError::ParentMissing);
                },
            }
        }
        if self.collections.find(id.as_str()).is_some() {
            return Err(DbError::DuplicateId);
        }
        proof {
            reveal_strlit("season");
            reveal_strlit("movie");
            assert("season"@.len() == 6 && "movie"@.len() == 5);
        }
        if !parent.is_empty() {
            if movie {
                let gone = |i: &CollectionItem| -> (b: bool)
                    ensures
                        b == (i@.collection_id == parent@),
                    { same(i.collection_id.as_str(), parent) };
                self.items.take_out_all(gone, Ghost(catalog::item_of(parent@)));
            } else {
                self.items.hand_down(parent, id.as_str());
            }
        }
        let pos: i64 = self.last_child_pos(parent) + 1;
        let empty_url = String::new();
        let empty_file = String::new();
        assert(empty_url@ =~= Seq::<char>::empty());
        assert(empty_file@ =~= Seq::<char>::empty());
        let col = Collection {
            id,
            kind: kind.to_owned(),
            title,
            poster_url: empty_url,
            poster_file: empty_file,
            created_at: now,
            parent_id: parent.to_owned(),
            pos,
        };
        self.collections.push(col.clone());
        Ok(col)
    }
}

impl Db {
    /// Lists a file. One that is listed already keeps its title and its watched mark.
    pub fn upsert_file(&mut self, row: &FileRow)
        requires
            old(self).wf(),
            row.size <= i64::MAX,
        ensures
            final(self).wf(),
            final(self)@ == catalog::upserted(old(self)@, row@),
            final(self).serial() == old(self).serial(),
            final(self).process() == old(self).process(),
    {
        let mut new = row.clone();
        new.kind = normalize_file_kind(row.kind.as_str());
        match self.files.find(row.path.as_str()) {
            Some(i) => {
                new.title = self.files.rows[i].title.clone();
                new.watched = self.files.rows[i].watched;
                self.files.replace(i, new);
            },
            None => {
                self.files.push(new);
            },
        }
    }

    /// Sets the title shown for a file: at most 128 characters, empty for the base name of
    /// its path. Tells whether the file is listed.
    pub fn set_title(&mut self, path: &str, title: &str) -> (r: bool)
        requires
            old(self).wf(),
        ensures
            final(self).wf(),
            final(self)@ == catalog::retitled(old(self)@, path@, title@),
            r == old(self)@.files.contains_key(path@),
            final(self).serial() == old(self).serial(),
            final(self).process() == old(self).process(),
    {
        match self.files.find(path) {
            Some(i) => {
                let mut new = self.files.rows[i].clone();
                new.title = clip_trimmed(title, 128);
                self.files.replace(i, new);
                true
            },
            None => false,
        }
    }

    /// Marks a file as watched or not. Tells whether the file is listed.
    pub fn set_watched(&mut self, path: &str, watched: bool) -> (r: bool)
        requires
            old(self).wf(),
        ensures
            final(self).wf(),
            final(self)@ == catalog::marked_watched(old(self)@, path@, watched),
            r == old(self)@.files.contains_key(path@),
            final(self).serial() == old(self).serial(),
            final(self).process() == old(self).process(),
    {
        match self.files.find(path) {
            Some(i) => {
                let mut new = self.files.rows[i].clone();
                new.watched = watched;
                self.files.replace(i, new);
                true
            },
            None => false,
        }
    }

    /// A file with this content hash.
    pub fn get_by_hash(&self, hash: &str) -> (r: Option<FileRow>)
        requires
            self.wf(),
        ensures
            match r {
                Some(f) => f@.hash == hash@ && self@.files.contains_key(f@.path)
                    && self@.files[f@.path] == f@,
                None => !catalog::hash_listed(self@, hash@),
            },
    {
        for i in 0..self.files.rows.len()
            invariant
                self.wf(),
                forall|j: int| 0 <= j < i ==> (#[trigger] self.files.rows@[j])@.hash != hash@,
        {
            if same(self.files.rows[i].hash.as_str(), hash) {
                proof {
                    self.files.lemma_row(i as int);
                }
                return Some(self.files.rows[i].clone());
            }
        }
        proof {
            if catalog::hash_listed(self@, hash@) {
                let p = choose|p: Seq<char>| #[trigger]
                    self@.files.contains_key(p) && self@.files[p].hash == hash@;
                let j = self.files.lemma_position(p);
            }
        }
        None
    }

    /// The file at this path.
    pub fn get_by_path(&self, path: &str) -> (r: Option<FileRow>)
        requires
            self.wf(),
        ensures
            match r {
                Some(f) => self@.files.contains_key(path@) && self@.files[path@] == f@,
                None => !self@.files.contains_key(path@),
            },
    {
        match self.files.find(path) {
            Some(i) => Some(self.files.rows[i].clone()),
            None => None,
        }
    }

    /// Takes out all files with this content hash, and their entries. Tells whether there
    /// was one.
    pub fn delete_by_hash(&mut self, hash: &str) -> (r: bool)
        requires
            old(self).wf(),
        ensures
            final(self).wf(),
            final(self)@ == catalog::without_hash(old(self)@, hash@),
            r == catalog::hash_listed(old(self)@, hash@),
            final(self).serial() == old(self).serial(),
            final(self).process() == old(self).process(),
    {
        let listed = self.get_by_hash(hash).is_some();
        let ghost t = self@;
        {
            let files = &self.files;
            let gone = |i: &CollectionItem| -> (b: bool)
            ensures
                b == (files@.contains_key(i@.file_path) && files@[i@.file_path].hash == hash@),
            {
                match files.find(i.file_path.as_str()) {
                    Some(n) => same(files.rows[n].hash.as_str(), hash),
                    None => false,
                }
            };
            self.items.take_out_all(gone, Ghost(catalog::item_of_hash(t, hash@)));
        }
        let gone = |f: &FileRow| -> (b: bool)
            ensures
                b == (f@.hash == hash@),
            { same(f.hash.as_str(), hash) };
        self.files.take_out_all(gone, Ghost(catalog::file_of_hash(hash@)));
        listed
    }

    /// Takes out the file at this path, and its entries. Tells whether it was listed.
    pub fn delete_by_path(&mut self, path: &str) -> (r: bool)
        requires
            old(self).wf(),
        ensures
            final(self).wf(),
            final(self)@ == catalog::without_path(old(self)@, path@),
            r == old(self)@.files.contains_key(path@),
            final(self).serial() == old(self).serial(),
            final(self).process() == old(self).process(),
    {
        let gone = |i: &CollectionItem| -> (b: bool)
            ensures
                b == (i@.file_path == path@),
            { same(i.file_path.as_str(), path) };
        self.items.take_out_all(gone, Ghost(catalog::item_of_file(path@)));
        match self.files.find(path) {
            Some(i) => {
                self.files.take_out(i);
                true
            },
            None => {
                assert(self.files@.remove(path@) =~= self.files@);
                false
            },
        }
    }

    /// The value of a setting.
    pub fn get_setting(&self, key: &str) -> (r: Option<String>)
        requires
            self.wf(),
        ensures
            match r {
                Some(v) => self@.settings.contains_key(key@) && self@.settings[key@].1 == v@,
                None => !self@.settings.contains_key(key@),
            },
    {
        match self.settings.find(key) {
            Some(i) => Some(self.settings.rows[i].val.clone()),
            None => None,
        }
    }

    /// Sets a setting.
    pub fn set_setting(&mut self, key: &str, val: &str)
        requires
            old(self).wf(),
        ensures
            final(self).wf(),
            final(self)@ == (Tables {
                settings: old(self)@.settings.insert(key@, (key@, val@)),
                ..old(self)@
            }),
            final(self).serial() == old(self).serial(),
            final(self).process() == old(self).process(),
    {
        let new = Setting { key: key.to_owned(), val: val.to_owned() };
        match self.settings.find(key) {
            Some(i) => {
                self.settings.replace(i, new);
            },
            None => {
                self.settings.push(new);
            },
        }
    }

    /// The collection `id`.
    pub fn get_collection(&self, id: &str) -> (r: Option<Collection>)
        requires
            self.wf(),
        ensures
            match r {
                Some(c) => self@.collections.contains_key(id@) && self@.collections[id@] == c@,
                None => !self@.collections.contains_key(id@),
            },
    {
        match self.collections.find(id) {
            Some(i) => Some(self.collections.rows[i].clone()),
            None => None,
        }
    }

    /// Changes the title, the poster address or the kind of a collection: the first of
    /// them that is given. Tells whether the collection exists.
    pub fn update_collection(
        &mut self,
        id: &str,
        title: Option<&str>,
        poster_url: Option<&str>,
        kind: Option<&str>,
    ) -> (r: Result<bool, DbError>)
        requires
            old(self).wf(),
        ensures
            final(self).wf(),
            r == catalog::update_outcome(
                old(self)@,
                id@,
                catalog::opt_view(title),
                catalog::opt_view(poster_url),
                catalog::opt_view(kind),
            ),
            final(self)@ == catalog::updated(
                old(self)@,
                id@,
                catalog::opt_view(title),
                catalog::opt_view(poster_url),
                catalog::opt_view(kind),
            ),
            final(self).serial() == old(self).serial(),
            final(self).process() == old(self).process(),
    {
        if let Some(t) = title {
            let t = clip_trimmed(t, 128);
            if t.as_str().is_empty() {
                return Err(DbError::EmptyTitle);
            }
            match self.collections.find(id) {
                Some(i) => {
                    let mut new = self.collections.rows[i].clone();
                    new.title = t;
                    self.collections.replace(i, new);
                    return Ok(true);
                },
                None => {
                    return Ok(false);
                },
            }
        }
        if let Some(u) = poster_url {
            let u = clip_trimmed(u, 512);
            if !u.as_str().is_empty() && !(starts_with(u.as_str(), "http://") || starts_with(
                u.as_str(),
                "https://",
            ) || starts_with(u.as_str(), "/posters/")) {
                return Err(DbError::InvalidPosterUrl);
            }
            match self.collections.find(id) {
                Some(i) => {
                    let mut new = self.collections.rows[i].clone();
                    new.poster_url = u;
                    self.collections.replace(i, new);
                    return Ok(true);
                },
                None => {
                    return Ok(false);
                },
            }
        }
        if let Some(k) = kind {
            match self.collections.find(id) {
                Some(i) => {
                    let nk = Self::normalize_kind(k);
                    let other = if self.collections.rows[i].parent_id.as_str().is_empty() {
                        "series"
                    } else {
                        "season"
                    };
                    if !(same(nk.as_str(), "movie") || same(nk.as_str(), other)) {
                        return Err(DbError::KindNotAllowed);
                    }
                    let mut new = self.collections.rows[i].clone();
                    new.kind = nk;
                    self.collections.replace(i, new);
                    return Ok(true);
                },
                None => {
                    return Ok(false);
                },
            }
        }
        Ok(false)
    }

    /// Sets the uploaded poster of a collection. Tells whether the collection exists.
    pub fn set_poster_file(&mut self, id: &str, file: &str) -> (r: bool)
        requires
            old(self).wf(),
        ensures
            final(self).wf(),
            final(self)@ == catalog::with_poster(old(self)@, id@, file@),
            r == old(self)@.collections.contains_key(id@),
            final(self).serial() == old(self).serial(),
            final(self).process() == old(self).process(),
    {
        match self.collections.find(id) {
            Some(i) => {
                let mut new = self.collections.rows[i].clone();
                new.poster_file = file.to_owned();
                self.collections.replace(i, new);
                true
            },
            None => false,
        }
    }

    /// Takes out a collection, those below it and all their entries, but no file. Tells
    /// whether it existed.
    pub fn delete_collection(&mut self, id: &str) -> (r: bool)
        requires
            old(self).wf(),
        ensures
            final(self).wf(),
            final(self)@ == catalog::without_collection(old(self)@, id@),
            r == old(self)@.collections.contains_key(id@),
            final(self).serial() == old(self).serial(),
            final(self).process() == old(self).process(),
    {
        let known = self.collections.find(id).is_some();
        let ghost t = self@;
        {
            let collections = &self.collections;
            let gone = |i: &CollectionItem| -> (b: bool)
            ensures
                b == (i@.collection_id == id@ || id@.len() > 0 && collections@.contains_key(
                    i@.collection_id,
                ) && collections@[i@.collection_id].parent_id == id@),
            {
                same(i.collection_id.as_str(), id) || !id.is_empty() && match collections.find(
                    i.collection_id.as_str(),
                ) {
                    Some(n) => same(collections.rows[n].parent_id.as_str(), id),
                    None => false,
                }
            };
            self.items.take_out_all(gone, Ghost(catalog::item_in_family(t, id@)));
        }
        let gone = |c: &Collection| -> (b: bool)
            ensures
                b == (c@.id == id@ || id@.len() > 0 && c@.parent_id == id@),
            { same(c.id.as_str(), id) || !id.is_empty() && same(c.parent_id.as_str(), id) };
        self.collections.take_out_all(gone, Ghost(catalog::in_family(id@)));
        known
    }

    /// Whether some collection has `id` as its parent.
    pub fn has_children(&self, id: &str) -> (r: bool)
        requires
            self.wf(),
        ensures
            r == catalog::has_children(self@, id@),
    {
        for i in 0..self.collections.rows.len()
            invariant
                self.wf(),
                forall|j: int|
                    0 <= j < i ==> (#[trigger] self.collections.rows@[j])@.parent_id != id@,
        {
            if same(self.collections.rows[i].parent_id.as_str(), id) {
                proof {
                    self.collections.lemma_row(i as int);
                    assert(self@.collections.contains_key(self.collections.rows@[i as int]@.id));
                }
                return true;
            }
        }
        proof {
            if catalog::has_children(self@, id@) {
                let c = choose|c: Seq<char>| #[trigger]
                    self@.collections.contains_key(c) && self@.collections[c].parent_id == id@;
                let j = self.collections.lemma_position(c);
            }
        }
        false
    }

    /// Whether another file than `path` has an entry in the collection.
    fn holds_other(&self, id: &str, path: &str) -> (r: bool)
        requires
            self.wf(),
        ensures
            r == catalog::holds_other(self@, id@, path@),
    {
        for i in 0..self.items.rows.len()
            invariant
                self.wf(),
                forall|j: int|
                    0 <= j < i ==> !((#[trigger] self.items.rows@[j])@.collection_id == id@
                        && self.items.rows@[j]@.file_path != path@),
        {
            let it = &self.items.rows[i];
            if same(it.collection_id.as_str(), id) && !same(it.file_path.as_str(), path) {
                proof {
                    self.items.lemma_row(i as int);
                    assert(self@.items.contains_key((it@.collection_id, it@.file_path)));
                }
                return true;
            }
        }
        proof {
            if catalog::holds_other(self@, id@, path@) {
                let k = choose|k: (Seq<char>, Seq<char>)| #[trigger]
                    self@.items.contains_key(k) && self@.items[k].collection_id == id@
                        && self@.items[k].file_path != path@;
                let j = self.items.lemma_position(k);
            }
        }
        false
    }

    /// Puts a listed file into a collection without children, and takes it out of any
    /// other. A position that is not positive stands for the one behind the last. A film
    /// holds one file.
    pub fn add_item(
        &mut self,
        collection_id: &str,
        file_path: &str,
        season: &str,
        label: &str,
        pos: i64,
    ) -> (r: Result<(), DbError>)
        requires
            old(self).wf(),
            pos <= 0 && catalog::add_outcome(old(self)@, collection_id@, file_path@) is Ok
                ==> catalog::item_fits(old(self)@, collection_id@),
        ensures
            final(self).wf(),
            r == catalog::add_outcome(old(self)@, collection_id@, file_path@),
            final(self)@ == catalog::with_item(
                old(self)@,
                collection_id@,
                file_path@,
                season@,
                label@,
                pos,
            ),
            final(self).serial() == old(self).serial(),
            final(self).process() == old(self).process(),
    {
        let movie = match self.collections.find(collection_id) {
            Some(i) => same(self.collections.rows[i].kind.as_str(), "movie"),
            None => {
                return Err(DbError::CollectionMissing);
            },
        };
        if self.has_children(collection_id) {
            return Err(DbError::ChooseChild);
        }
        if self.files.find(file_path).is_none() {
            return Err(DbError::FileNotListed);
        }
        if movie && self.holds_other(collection_id, file_path) {
            return Err(DbError::MovieTaken);
        }
        let pos: i64 = if pos <= 0 {
            self.last_item_pos(collection_id) + 1
        } else {
            pos
        };
        let new = CollectionItem {
            collection_id: collection_id.to_owned(),
            file_path: file_path.to_owned(),
            season: clip_trimmed(season, 32),
            label: clip_trimmed(label, 64),
            pos,
        };
        let gone = |i: &CollectionItem| -> (b: bool)
            ensures
                b == (i@.file_path == file_path@ && i@.collection_id != collection_id@),
            {
                same(i.file_path.as_str(), file_path) && !same(
                    i.collection_id.as_str(),
                    collection_id,
                )
            };
        self.items.take_out_all(gone, Ghost(catalog::item_elsewhere(collection_id@, file_path@)));
        match self.items.find(collection_id, file_path) {
            Some(i) => {
                self.items.replace(i, new);
            },
            None => {
                self.items.push(new);
            },
        }
        Ok(())
    }

    /// Takes a file out of a collection. Tells whether it was there.
    pub fn remove_item(&mut self, collection_id: &str, file_path: &str) -> (r: bool)
        requires
            old(self).wf(),
        ensures
            final(self).wf(),
            final(self)@ == catalog::without_item(old(self)@, collection_id@, file_path@),
            r == old(self)@.items.contains_key((collection_id@, file_path@)),
            final(self).serial() == old(self).serial(),
            final(self).process() == old(self).process(),
    {
        match self.items.find(collection_id, file_path) {
            Some(i) => {
                self.items.take_out(i);
                true
            },
            None => {
                assert(self.items@.remove((collection_id@, file_path@)) =~= self.items@);
                false
            },
        }
    }
}

/// The last place of `x` in `order`.
fn last_place_in(order: &[String], x: &str) -> (r: Option<usize>)
    ensures
        match r {
            Some(p) => p < order@.len() && catalog::last_place(catalog::text_views(order@), x@)
                == Some(p as int),
            None => catalog::last_place(catalog::text_views(order@), x@) is None,
        },
{
    let ghost v = catalog::text_views(order@);
    let mut n: usize = order.len();
    assert(v.take(n as int) =~= v);
    while n > 0
        invariant
            v == catalog::text_views(order@),
            n <= order@.len(),
            catalog::last_place(v, x@) == catalog::last_place(v.take(n as int), x@),
        decreases n,
    {
        assert(v.take(n as int).last() == order@[n - 1]@);
        assert(v.take(n as int).drop_last() =~= v.take(n - 1));
        n = n - 1;
        if same(order[n].as_str(), x) {
            return Some(n);
        }
    }
    None
}

impl Db {
    /// All files, in the order of their paths.
    pub fn list_files(&self) -> (r: Vec<FileRow>)
        requires
            self.wf(),
        ensures
            table::recs(r@) == catalog::file_listing(self@.files, catalog::any_file()),
            catalog::is_file_listing(table::recs(r@), self@.files, catalog::any_file()),
    {
        files_by_path(&self.files, None)
    }

    /// The files of a kind, in the order of their paths; the first 10000 of them.
    pub fn list_files_by_kind(&self, kind: &str) -> (r: Vec<FileRow>)
        requires
            self.wf(),
        ensures
            table::recs(r@) == catalog::page(
                catalog::file_listing(
                    self@.files,
                    catalog::file_of_kind(catalog::file_kind(kind@)),
                ),
                10_000,
                0,
            ),
            catalog::is_file_listing(
                catalog::file_listing(
                    self@.files,
                    catalog::file_of_kind(catalog::file_kind(kind@)),
                ),
                self@.files,
                catalog::file_of_kind(catalog::file_kind(kind@)),
            ),
    {
        self.list_files_by_kind_paged(kind, 10_000, 0)
    }

    /// A page of the files of a kind, in the order of their paths. The page holds 1 to
    /// 10000 files, and starts at 0 or later.
    pub fn list_files_by_kind_paged(&self, kind: &str, limit: i64, offset: i64) -> (r: Vec<FileRow>)
        requires
            self.wf(),
        ensures
            table::recs(r@) == catalog::page(
                catalog::file_listing(
                    self@.files,
                    catalog::file_of_kind(catalog::file_kind(kind@)),
                ),
                catalog::page_limit(limit),
                catalog::page_offset(offset),
            ),
            catalog::is_file_listing(
                catalog::file_listing(
                    self@.files,
                    catalog::file_of_kind(catalog::file_kind(kind@)),
                ),
                self@.files,
                catalog::file_of_kind(catalog::file_kind(kind@)),
            ),
    {
        let kind = normalize_file_kind(kind);
        let all = files_by_path(&self.files, Some(kind.as_str()));
        let limit: usize = if limit < 1 {
            1
        } else if limit > 10_000 {
            10_000
        } else {
            limit as usize
        };
        let from: usize = if offset <= 0 {
            0
        } else if offset as u64 > all.len() as u64 {
            all.len()
        } else {
            offset as usize
        };
        let to: usize = if all.len() - from <= limit {
            all.len()
        } else {
            from + limit
        };
        let mut r: Vec<FileRow> = Vec::new();
        for i in from..to
            invariant
                from <= to <= all@.len(),
                r@.len() == i - from,
                forall|j: int| 0 <= j < r@.len() ==> (#[trigger] r@[j])@ == all@[from + j]@,
        {
            r.push(all[i].clone());
        }
        assert(table::recs(r@) =~= table::recs(all@).subrange(from as int, to as int));
        r
    }

    /// How many files are listed.
    pub fn file_count(&self) -> (r: usize)
        requires
            self.wf(),
        ensures
            r == self@.files.dom().len(),
    {
        proof {
            self.files.lemma_len();
        }
        self.files.rows.len()
    }

    /// How many files are listed: all of them, those that are streamed, and those that are
    /// only stored.
    pub fn count_files(&self) -> (r: (i64, i64, i64))
        requires
            self.wf(),
            catalog::countable(self@),
        ensures
            r.0 == self@.files.dom().len(),
            r.1 == table::picked(self@.files, catalog::file_stored(false)).len(),
            r.2 == table::picked(self@.files, catalog::file_stored(true)).len(),
            r.0 == r.1 + r.2,
    {
        let mut media: i64 = 0;
        let mut storage: i64 = 0;
        let ghost p = table::pairs(self.files.rows@);
        proof {
            self.files.lemma_len();
            assert(p.take(0) =~= Seq::empty());
        }
        for i in 0..self.files.rows.len()
            invariant
                p == table::pairs(self.files.rows@),
                self.files.rows@.len() <= i64::MAX,
                media >= 0,
                storage >= 0,
                media + storage == i,
                media == table::count_where(p.take(i as int), catalog::file_stored(false)),
                storage == table::count_where(p.take(i as int), catalog::file_stored(true)),
        {
            proof {
                assert(p.take(i + 1).drop_last() =~= p.take(i as int));
                assert(p.take(i + 1).last() == p[i as int]);
            }
            if same(normalize_file_kind(self.files.rows[i].kind.as_str()).as_str(), "file") {
                storage = storage + 1;
            } else {
                media = media + 1;
            }
        }
        proof {
            assert(p.take(p.len() as int) =~= p);
            table::lemma_count_where(p, catalog::file_stored(false));
            table::lemma_count_where(p, catalog::file_stored(true));
        }
        (media + storage, media, storage)
    }

    /// All files with this content hash.
    pub fn get_rows_by_hash(&self, hash: &str) -> (r: Vec<FileRow>)
        requires
            self.wf(),
        ensures
            catalog::lists(table::recs(r@), self@.files, catalog::file_of_hash(hash@)),
            table::recs(r@).no_duplicates(),
            r@.len() == 0 <==> !catalog::hash_listed(self@, hash@),
            r@.len() == table::picked(self@.files, catalog::file_of_hash(hash@)).len(),
    {
        let mut r: Vec<FileRow> = Vec::new();
        let ghost mut at: Seq<usize> = Seq::empty();
        let ghost f = catalog::file_of_hash(hash@);
        let ghost p = table::pairs(self.files.rows@);
        assert(p.take(0) =~= Seq::empty());
        for i in 0..self.files.rows.len()
            invariant
                f == catalog::file_of_hash(hash@),
                p == table::pairs(self.files.rows@),
                r@.len() == at.len(),
                at.len() == table::count_where(p.take(i as int), f),
                at.no_duplicates(),
                forall|j: int| 0 <= j < at.len() ==> (#[trigger] at[j]) < i,
                forall|j: int|
                    0 <= j < at.len() ==> (#[trigger] r@[j])@ == self.files.rows@[at[j] as int]@,
                forall|q: usize| at.contains(q) <==> q < i && f(self.files.rows@[q as int]@),
        {
            let ghost before = at;
            proof {
                assert(p.take(i + 1).drop_last() =~= p.take(i as int));
                assert(p.take(i + 1).last() == p[i as int]);
            }
            if same(self.files.rows[i].hash.as_str(), hash) {
                r.push(self.files.rows[i].clone());
                proof {
                    at = at.push(i);
                }
            }
            proof {
                assert forall|q: usize| at.contains(q) <==> q < i + 1 && f(
                    self.files.rows@[q as int]@,
                ) by {
                    if at != before {
                        if at.contains(q) {
                            let j = choose|j: int| 0 <= j < at.len() && at[j] == q;
                            if j < before.len() {
                                assert(before[j] == q);
                                assert(before.contains(q));
                            }
                        }
                        if q < i && f(self.files.rows@[q as int]@) {
                            assert(before.contains(q));
                            let j = choose|j: int| 0 <= j < before.len() && before[j] == q;
                            assert(at[j] == q);
                        }
                        if q == i {
                            assert(at[before.len() as int] == q);
                        }
                    }
                }
            }
        }
        proof {
            assert(p.take(p.len() as int) =~= p);
            table::lemma_count_where(p, f);
            assert forall|q: usize|
                at.contains(q) <==> q < self.files.rows@.len() && f(
                    crate::table::Row::rec(self.files.rows@[q as int]),
                ) by {}
            self.files.lemma_lists(at, f);
            assert(table::recs(r@) =~= table::recs_at(self.files.rows@, at));
            if r@.len() > 0 {
                let s = table::recs(r@);
                assert(f(s[0]));
                let k = choose|k: Seq<char>| #[trigger]
                    self@.files.contains_key(k) && self@.files[k] == s[0];
                assert(self@.files[k].hash == hash@);
            }
            if catalog::hash_listed(self@, hash@) {
                let k = choose|k: Seq<char>| #[trigger]
                    self@.files.contains_key(k) && self@.files[k].hash == hash@;
                assert(f(self@.files[k]));
                assert(table::recs(r@).contains(self@.files[k]));
            }
        }
        r
    }

    /// All collections, by position and then by age.
    pub fn list_collections(&self) -> (r: Vec<Collection>)
        requires
            self.wf(),
        ensures
            catalog::is_collection_listing(
                table::recs(r@),
                self@.collections,
                catalog::any_collection(),
            ),
    {
        collections_in_order(&self.collections, None)
    }

    /// The collections below `parent`, by position and then by age.
    pub fn list_children(&self, parent: &str) -> (r: Vec<Collection>)
        requires
            self.wf(),
        ensures
            catalog::is_collection_listing(
                table::recs(r@),
                self@.collections,
                catalog::child_of(parent@),
            ),
    {
        collections_in_order(&self.collections, Some(parent))
    }

    /// Puts the entries of a collection in the given order: the place of a file in it
    /// becomes its position. Files that are not in the collection are passed over.
    pub fn reorder_items(&mut self, collection_id: &str, order: &[String]) -> (r: Result<
        (),
        DbError,
    >)
        requires
            old(self).wf(),
            order@.len() <= i64::MAX,
        ensures
            final(self).wf(),
            r == catalog::reorder_outcome(old(self)@, collection_id@),
            final(self)@ == catalog::items_reordered(
                old(self)@,
                collection_id@,
                catalog::text_views(order@),
            ),
            final(self).serial() == old(self).serial(),
            final(self).process() == old(self).process(),
    {
        if self.collections.find(collection_id).is_none() {
            return Err(DbError::CollectionMissing);
        }
        let ghost before = self.items;
        let ghost v = catalog::text_views(order@);
        let ghost change = |i: ItemRec| catalog::reordered_item(i, collection_id@, v);
        let len: usize = self.items.rows.len();
        for n in 0..len
            invariant
                len == before.rows@.len(),
                self.items.wf(),
                order@.len() <= i64::MAX,
                v == catalog::text_views(order@),
                change == |i: ItemRec| catalog::reordered_item(i, collection_id@, v),
                self.items.rows@.len() == before.rows@.len(),
                self.files == old(self).files,
                self.settings == old(self).settings,
                self.collections == old(self).collections,
                self.serial == old(self).serial,
                self.process == old(self).process,
                forall|j: int|
                    0 <= j < n ==> (#[trigger] self.items.rows@[j])@ == change(before.rows@[j]@),
                forall|j: int|
                    n <= j < before.rows@.len() ==> #[trigger] self.items.rows@[j]
                        == before.rows@[j],
        {
            if same(self.items.rows[n].collection_id.as_str(), collection_id) {
                match last_place_in(order, self.items.rows[n].file_path.as_str()) {
                    Some(p) => {
                        let mut new = self.items.rows[n].clone();
                        new.pos = p as i64;
                        self.items.replace(n, new);
                    },
                    None => {},
                }
            }
        }
        proof {
            before.lemma_mapped(self.items, change);
        }
        Ok(())
    }

    /// Puts the collections below a root in the given order: the place of one in it
    /// becomes its position. Those that are not below the root are passed over.
    pub fn reorder_children(&mut self, root_id: &str, order: &[String]) -> (r: Result<(), DbError>)
        requires
            old(self).wf(),
            order@.len() <= i64::MAX,
        ensures
            final(self).wf(),
            r == catalog::reorder_outcome(old(self)@, root_id@),
            final(self)@ == catalog::children_reordered(
                old(self)@,
                root_id@,
                catalog::text_views(order@),
            ),
            final(self).serial() == old(self).serial(),
            final(self).process() == old(self).process(),
    {
        if self.collections.find(root_id).is_none() {
            return Err(DbError::CollectionMissing);
        }
        let ghost before = self.collections;
        let ghost v = catalog::text_views(order@);
        let ghost change = |c: CollectionRec| catalog::reordered_child(c, root_id@, v);
        let len: usize = self.collections.rows.len();
        for n in 0..len
            invariant
                len == before.rows@.len(),
                self.collections.wf(),
                order@.len() <= i64::MAX,
                v == catalog::text_views(order@),
                change == |c: CollectionRec| catalog::reordered_child(c, root_id@, v),
                self.collections.rows@.len() == before.rows@.len(),
                self.files == old(self).files,
                self.settings == old(self).settings,
                self.items == old(self).items,
                self.serial == old(self).serial,
                self.process == old(self).process,
                forall|j: int|
                    0 <= j < n ==> (#[trigger] self.collections.rows@[j])@ == change(
                        before.rows@[j]@,
                    ),
                forall|j: int|
                    n <= j < before.rows@.len() ==> #[trigger] self.collections.rows@[j]
                        == before.rows@[j],
        {
            if same(self.collections.rows[n].parent_id.as_str(), root_id) {
                match last_place_in(order, self.collections.rows[n].id.as_str()) {
                    Some(p) => {
                        let mut new = self.collections.rows[n].clone();
                        new.pos = p as i64;
                        self.collections.replace(n, new);
                    },
                    None => {},
                }
            }
        }
        proof {
            before.lemma_mapped(self.collections, change);
        }
        Ok(())
    }

    /// The entries of a collection in order, each with what is known of its file.
    pub fn items_of(&self, id: &str) -> (r: Vec<CollectionItemView>)
        requires
            self.wf(),
        ensures
            catalog::item_views(r@) == catalog::detail_items(self@, id@),
            catalog::is_item_listing(catalog::item_listing(self@, id@), self@, id@),
            r@.len() == table::picked(self@.items, catalog::item_shown(self@, id@)).len(),
    {
        entries_in_order(&self.files, &self.items, id, Ghost(self@))
    }

    /// A collection with its entries, and for a root its children with theirs.
    pub fn collection_detail(&self, id: &str) -> (r: Option<CollectionDetail>)
        requires
            self.wf(),
        ensures
            match r {
                Some(d) => self@.collections.contains_key(id@) && catalog::is_detail(d, self@, id@),
                None => !self@.collections.contains_key(id@),
            },
    {
        let collection = match self.get_collection(id) {
            Some(c) => c,
            None => {
                return None;
            },
        };
        let items = self.items_of(id);
        let mut children: Vec<CollectionDetail> = Vec::new();
        if collection.parent_id.as_str().is_empty() {
            let kids = self.list_children(id);
            for i in 0..kids.len()
                invariant
                    self.wf(),
                    catalog::is_collection_listing(
                        table::recs(kids@),
                        self@.collections,
                        catalog::child_of(id@),
                    ),
                    children@.len() == i,
                    forall|j: int|
                        0 <= j < i ==> (#[trigger] children@[j]).collection@ == kids@[j]@
                            && catalog::is_leaf_detail(
                            children@[j],
                            self@,
                            children@[j].collection@.id,
                        ) && children@[j].children@.len() == 0,
            {
                proof {
                    let s = table::recs(kids@);
                    assert(s[i as int] == kids@[i as int]@);
                    let k = choose|k: Seq<char>| #[trigger]
                        self@.collections.contains_key(k) && self@.collections[k] == s[i as int];
                    self.collections.lemma_keys();
                }
                let kid = kids[i].clone();
                let items = self.items_of(kid.id.as_str());
                children.push(CollectionDetail { collection: kid, items, children: Vec::new() });
            }
            assert(catalog::detail_collections(children@) =~= table::recs(kids@));
        }
        Some(CollectionDetail { collection, items, children })
    }

    /// A collection that the file has an entry in.
    pub fn collection_of(&self, file_path: &str) -> (r: Option<String>)
        requires
            self.wf(),
        ensures
            match r {
                Some(c) => self@.items.contains_key((c@, file_path@)),
                None => !catalog::is_placed(self@, file_path@),
            },
    {
        for i in 0..self.items.rows.len()
            invariant
                self.wf(),
                forall|j: int|
                    0 <= j < i ==> (#[trigger] self.items.rows@[j])@.file_path != file_path@,
        {
            if same(self.items.rows[i].file_path.as_str(), file_path) {
                proof {
                    self.items.lemma_row(i as int);
                }
                return Some(self.items.rows[i].collection_id.clone());
            }
        }
        proof {
            assert forall|c: Seq<char>| !#[trigger] self@.items.contains_key((c, file_path@)) by {
                if self@.items.contains_key((c, file_path@)) {
                    let j = self.items.lemma_position((c, file_path@));
                }
            }
        }
        None
    }
}

/// The counts of a collection.
struct Counts {
    id: String,
    items: i64,
    children: i64,
}

impl Row for Counts {
    type Key = Seq<char>;

    type Rec = (Seq<char>, i64, i64);

    closed spec fn rec(self) -> (Seq<char>, i64, i64) {
        (self.id@, self.items, self.children)
    }

    closed spec fn key(rec: (Seq<char>, i64, i64)) -> Seq<char> {
        rec.0
    }

    fn same_key(&self, other: &Self) -> (r: bool) {
        same(self.id.as_str(), other.id.as_str())
    }
}

/// For each collection, how many entries it has, with those of its children, and how many
/// children.
pub struct Summary {
    counts: Table<Counts>,
}

impl View for Summary {
    type V = Map<Seq<char>, (int, int)>;

    closed spec fn view(&self) -> Map<Seq<char>, (int, int)> {
        self.counts@.map_values(|c: (Seq<char>, i64, i64)| (c.1 as int, c.2 as int))
    }
}

impl Summary {
    /// No collection occurs twice.
    pub closed spec fn wf(self) -> bool {
        self.counts.wf()
    }

    /// The counts of a collection: entries and children.
    pub fn get(&self, id: &str) -> (r: Option<(i64, i64)>)
        requires
            self.wf(),
        ensures
            match r {
                Some(c) => self@.contains_key(id@) && self@[id@] == (c.0 as int, c.1 as int),
                None => !self@.contains_key(id@),
            },
    {
        for i in 0..self.counts.rows.len()
            invariant
                self.wf(),
                forall|j: int| 0 <= j < i ==> (#[trigger] self.counts.rows@[j]).id@ != id@,
        {
            let c = &self.counts.rows[i];
            if same(c.id.as_str(), id) {
                proof {
                    self.counts.lemma_row(i as int);
                }
                return Some((c.items, c.children));
            }
        }
        proof {
            if self@.contains_key(id@) {
                let j = self.counts.lemma_position(id@);
            }
        }
        None
    }
}

impl Db {
    /// `homes` are the positions of the collections of the entries.
    spec fn are_homes(self, homes: Seq<Option<usize>>) -> bool {
        &&& homes.len() == self.items.rows@.len()
        &&& forall|j: int|
            0 <= j < homes.len() ==> match #[trigger] homes[j] {
                Some(p) => p < self.collections.rows@.len() && self@.collections.contains_key(
                    self.items.rows@[j]@.collection_id,
                ) && self@.collections[self.items.rows@[j]@.collection_id]
                    == self.collections.rows@[p as int]@,
                None => !self@.collections.contains_key(self.items.rows@[j]@.collection_id),
            }
    }

    /// For each entry, the position of its collection.
    fn homes(&self) -> (r: Vec<Option<usize>>)
        requires
            self.wf(),
        ensures
            self.are_homes(r@),
    {
        let mut r: Vec<Option<usize>> = Vec::new();
        for i in 0..self.items.rows.len()
            invariant
                self.wf(),
                r@.len() == i,
                forall|j: int|
                    0 <= j < r@.len() ==> match #[trigger] r@[j] {
                        Some(p) => p < self.collections.rows@.len()
                            && self@.collections.contains_key(self.items.rows@[j]@.collection_id)
                            && self@.collections[self.items.rows@[j]@.collection_id]
                            == self.collections.rows@[p as int]@,
                        None => !self@.collections.contains_key(self.items.rows@[j]@.collection_id),
                    },
        {
            r.push(self.collections.find(self.items.rows[i].collection_id.as_str()));
        }
        r
    }

    /// How many entries the collection `id` and its children have.
    fn count_entries(&self, homes: &Vec<Option<usize>>, id: &str) -> (r: i64)
        requires
            self.wf(),
            catalog::countable(self@),
            self.are_homes(homes@),
        ensures
            r == catalog::collection_counts(self@, id@).0,
    {
        let mut own: i64 = 0;
        let mut below: i64 = 0;
        let ghost p = table::pairs(self.items.rows@);
        let ghost t = self@;
        proof {
            self.items.lemma_len();
            assert(p.take(0) =~= Seq::empty());
        }
        for i in 0..self.items.rows.len()
            invariant
                self.wf(),
                t == self@,
                p == table::pairs(self.items.rows@),
                2 * self.items.rows@.len() <= i64::MAX,
                0 <= own <= i,
                0 <= below <= i,
                own == table::count_where(p.take(i as int), catalog::item_of(id@)),
                below == table::count_where(p.take(i as int), catalog::item_below(t, id@)),
                self.are_homes(homes@),
        {
            proof {
                assert(p.take(i + 1).drop_last() =~= p.take(i as int));
                assert(p.take(i + 1).last() == p[i as int]);
            }
            if same(self.items.rows[i].collection_id.as_str(), id) {
                own = own + 1;
            }
            match homes[i] {
                Some(n) => {
                    if !id.is_empty() && same(self.collections.rows[n].parent_id.as_str(), id) {
                        below = below + 1;
                    }
                },
                None => {},
            }
        }
        proof {
            assert(p.take(p.len() as int) =~= p);
            table::lemma_count_where(p, catalog::item_of(id@));
            table::lemma_count_where(p, catalog::item_below(t, id@));
        }
        own + below
    }

    /// How many collections are below `id`.
    fn count_below(&self, id: &str) -> (r: i64)
        requires
            self.wf(),
            catalog::countable(self@),
        ensures
            r == table::picked(self@.collections, catalog::child_of(id@)).len(),
    {
        let mut n: i64 = 0;
        let ghost p = table::pairs(self.collections.rows@);
        proof {
            self.collections.lemma_len();
            assert(p.take(0) =~= Seq::empty());
        }
        for i in 0..self.collections.rows.len()
            invariant
                p == table::pairs(self.collections.rows@),
                self.collections.rows@.len() <= i64::MAX,
                0 <= n <= i,
                n == table::count_where(p.take(i as int), catalog::child_of(id@)),
        {
            proof {
                assert(p.take(i + 1).drop_last() =~= p.take(i as int));
                assert(p.take(i + 1).last() == p[i as int]);
            }
            if same(self.collections.rows[i].parent_id.as_str(), id) {
                n = n + 1;
            }
        }
        proof {
            assert(p.take(p.len() as int) =~= p);
            table::lemma_count_where(p, catalog::child_of(id@));
        }
        n
    }

    /// How many children the collection `id` has.
    fn count_children(&self, id: &str) -> (r: i64)
        requires
            self.wf(),
            catalog::countable(self@),
        ensures
            r == catalog::collection_counts(self@, id@).1,
    {
        if id.is_empty() {
            assert(table::picked(self@.collections, catalog::counted_child(id@)) =~= Set::empty());
            return 0;
        }
        assert(table::picked(self@.collections, catalog::counted_child(id@)) =~= table::picked(
            self@.collections,
            catalog::child_of(id@),
        ));
        self.count_below(id)
    }

    /// For each entry, whether its file is listed.
    fn listed(&self) -> (r: Vec<bool>)
        requires
            self.wf(),
        ensures
            r@.len() == self.items.rows@.len(),
            forall|j: int|
                0 <= j < r@.len() ==> #[trigger] r@[j] == self@.files.contains_key(
                    self.items.rows@[j]@.file_path,
                ),
    {
        let mut r: Vec<bool> = Vec::new();
        for i in 0..self.items.rows.len()
            invariant
                self.wf(),
                r@.len() == i,
                forall|j: int|
                    0 <= j < r@.len() ==> #[trigger] r@[j] == self@.files.contains_key(
                        self.items.rows@[j]@.file_path,
                    ),
        {
            r.push(self.files.find(self.items.rows[i].file_path.as_str()).is_some());
        }
        r
    }

    /// How many entries the detail of a collection shows, and how many children.
    fn count_visible(
        &self,
        homes: &Vec<Option<usize>>,
        listed: &Vec<bool>,
        c: &Collection,
    ) -> (r: (i64, i64))
        requires
            self.wf(),
            catalog::countable(self@),
            self@.collections.contains_key(c@.id),
            self@.collections[c@.id] == c@,
            self.are_homes(homes@),
            listed@.len() == self.items.rows@.len(),
            forall|j: int|
                0 <= j < listed@.len() ==> #[trigger] listed@[j] == self@.files.contains_key(
                    self.items.rows@[j]@.file_path,
                ),
        ensures
            r.0 == catalog::visible_counts(self@, c@.id).0,
            r.1 == catalog::visible_counts(self@, c@.id).1,
    {
        let id = c.id.as_str();
        let mut own: i64 = 0;
        let mut below: i64 = 0;
        let ghost p = table::pairs(self.items.rows@);
        let ghost t = self@;
        proof {
            self.items.lemma_len();
            assert(p.take(0) =~= Seq::empty());
        }
        for i in 0..self.items.rows.len()
            invariant
                self.wf(),
                t == self@,
                p == table::pairs(self.items.rows@),
                2 * self.items.rows@.len() <= i64::MAX,
                0 <= own <= i,
                0 <= below <= i,
                own == table::count_where(p.take(i as int), catalog::item_shown(t, id@)),
                below == table::count_where(p.take(i as int), catalog::item_shown_below(t, id@)),
                self.are_homes(homes@),
                listed@.len() == self.items.rows@.len(),
                forall|j: int|
                    0 <= j < listed@.len() ==> #[trigger] listed@[j] == self@.files.contains_key(
                        self.items.rows@[j]@.file_path,
                    ),
        {
            proof {
                assert(p.take(i + 1).drop_last() =~= p.take(i as int));
                assert(p.take(i + 1).last() == p[i as int]);
            }
            if listed[i] {
                if same(self.items.rows[i].collection_id.as_str(), id) {
                    own = own + 1;
                }
                match homes[i] {
                    Some(n) => {
                        if same(self.collections.rows[n].parent_id.as_str(), id) {
                            below = below + 1;
                        }
                    },
                    None => {},
                }
            }
        }
        proof {
            assert(p.take(p.len() as int) =~= p);
            table::lemma_count_where(p, catalog::item_shown(t, id@));
            table::lemma_count_where(p, catalog::item_shown_below(t, id@));
        }
        if c.parent_id.as_str().is_empty() {
            (own + below, self.count_below(id))
        } else {
            (own, 0)
        }
    }

    /// All collections, by position and then by age, each with how many entries its detail
    /// shows and how many children.
    pub fn collection_lines(&self) -> (r: Vec<CollectionLine>)
        requires
            self.wf(),
            catalog::countable(self@),
        ensures
            catalog::is_collection_listing(
                r@.map_values(|l: CollectionLine| l.collection@),
                self@.collections,
                catalog::any_collection(),
            ),
            forall|i: int|
                0 <= i < r@.len() ==> {
                    let l = #[trigger] r@[i];
                    &&& l.items == catalog::visible_counts(self@, l.collection@.id).0
                    &&& l.children == catalog::visible_counts(self@, l.collection@.id).1
                },
    {
        let homes = self.homes();
        let listed = self.listed();
        let all = self.list_collections();
        let mut r: Vec<CollectionLine> = Vec::new();
        let ghost s = table::recs(all@);
        for i in 0..all.len()
            invariant
                self.wf(),
                catalog::countable(self@),
                self.are_homes(homes@),
                listed@.len() == self.items.rows@.len(),
                forall|j: int|
                    0 <= j < listed@.len() ==> #[trigger] listed@[j] == self@.files.contains_key(
                        self.items.rows@[j]@.file_path,
                    ),
                s == table::recs(all@),
                catalog::is_collection_listing(s, self@.collections, catalog::any_collection()),
                r@.len() == i,
                forall|j: int|
                    0 <= j < i ==> {
                        let l = #[trigger] r@[j];
                        &&& l.collection@ == all@[j]@
                        &&& l.items == catalog::visible_counts(self@, l.collection@.id).0
                        &&& l.children == catalog::visible_counts(self@, l.collection@.id).1
                    },
        {
            proof {
                assert(s[i as int] == all@[i as int]@);
                let k = choose|k: Seq<char>| #[trigger]
                    self@.collections.contains_key(k) && self@.collections[k] == s[i as int];
                self.collections.lemma_keys();
            }
            let (items, children) = self.count_visible(&homes, &listed, &all[i]);
            r.push(CollectionLine { collection: all[i].clone(), items, children });
        }
        assert(r@.map_values(|l: CollectionLine| l.collection@) =~= s);
        r
    }

    /// For each collection, how many entries it has, with those of its children, and how
    /// many children.
    pub fn collections_summary(&self) -> (r: Summary)
        requires
            self.wf(),
            catalog::countable(self@),
        ensures
            r.wf(),
            r@.dom() == self@.collections.dom(),
            forall|id: Seq<char>| #[trigger]
                r@.contains_key(id) ==> r@[id] == (
                    catalog::collection_counts(self@, id).0 as int,
                    catalog::collection_counts(self@, id).1 as int,
                ),
    {
        let homes = self.homes();
        let mut counts: Table<Counts> = Table::new();
        for i in 0..self.collections.rows.len()
            invariant
                self.wf(),
                catalog::countable(self@),
                self.are_homes(homes@),
                counts.wf(),
                counts.rows@.len() == i,
                forall|j: int|
                    0 <= j < i ==> (#[trigger] counts.rows@[j]).id@ == self.collections.rows@[j]@.id
                        && counts.rows@[j].items == catalog::collection_counts(
                        self@,
                        counts.rows@[j].id@,
                    ).0 && counts.rows@[j].children == catalog::collection_counts(
                        self@,
                        counts.rows@[j].id@,
                    ).1,
        {
            let id = self.collections.rows[i].id.as_str();
            let items = self.count_entries(&homes, id);
            let children = self.count_children(id);
            let new = Counts { id: id.to_owned(), items, children };
            proof {
                if counts@.contains_key(id@) {
                    let j = counts.lemma_position(id@);
                    self.collections.lemma_distinct(i as int, j);
                }
            }
            counts.push(new);
        }
        let r = Summary { counts };
        proof {
            assert forall|id: Seq<char>| #[trigger] r@.contains_key(id) implies
                self@.collections.contains_key(id) && r@[id] == (
                catalog::collection_counts(self@, id).0 as int,
                catalog::collection_counts(self@, id).1 as int,
            ) by {
                let j = counts.lemma_position(id);
                self.collections.lemma_row(j);
            }
            assert forall|id: Seq<char>| #[trigger]
                self@.collections.contains_key(id) implies r@.contains_key(id) by {
                let j = self.collections.lemma_position(id);
                assert(counts.rows@[j].id@ == id);
                counts.lemma_row(j);
            }
            assert(r@.dom() =~= self@.collections.dom());
        }
        r
    }

    /// Whether the tables are small enough for their counts.
    pub fn countable(&self) -> (r: bool)
        requires
            self.wf(),
        ensures
            r == catalog::countable(self@),
    {
        proof {
            self.files.lemma_len();
            self.items.lemma_len();
            self.collections.lemma_len();
        }
        let most: u64 = i64::MAX as u64;
        self.files.rows.len() as u64 <= most && self.items.rows.len() as u64 <= most / 2
            && self.collections.rows.len() as u64 <= most
    }

    /// The rows of all files, as the store keeps them.
    pub fn files(&self) -> (r: &[FileRow])
        requires
            self.wf(),
        ensures
            table::unique_keys(table::pairs(r@)),
            table::keyed(table::pairs(r@)) == self@.files,
    {
        self.files.rows.as_slice()
    }

    /// The rows of all settings, as the store keeps them.
    pub fn settings(&self) -> (r: &[Setting])
        requires
            self.wf(),
        ensures
            table::unique_keys(table::pairs(r@)),
            table::keyed(table::pairs(r@)) == self@.settings,
    {
        self.settings.rows.as_slice()
    }

    /// The rows of all collections, as the store keeps them.
    pub fn collections(&self) -> (r: &[Collection])
        requires
            self.wf(),
        ensures
            table::unique_keys(table::pairs(r@)),
            table::keyed(table::pairs(r@)) == self@.collections,
    {
        self.collections.rows.as_slice()
    }

    /// The rows of all entries, as the store keeps them.
    pub fn items(&self) -> (r: &[CollectionItem])
        requires
            self.wf(),
        ensures
            table::unique_keys(table::pairs(r@)),
            table::keyed(table::pairs(r@)) == self@.items,
    {
        self.items.rows.as_slice()
    }

    /// The number of the next collection that is made here.
    pub fn current_serial(&self) -> (r: u64)
        ensures
            r == self.serial(),
    {
        self.serial
    }

    /// The catalog with the rows of a store, unless some key occurs twice. `serial` is the
    /// number of the next collection that is made here: 1 in a new process.
    pub fn load(
        files: Vec<FileRow>,
        settings: Vec<Setting>,
        collections: Vec<Collection>,
        items: Vec<CollectionItem>,
        serial: u64,
        process: u32,
    ) -> (r: Option<Self>)
        ensures
            match r {
                Some(db) => db.wf() && db@ == (Tables {
                    files: table::keyed(table::pairs(files@)),
                    settings: table::keyed(table::pairs(settings@)),
                    collections: table::keyed(table::pairs(collections@)),
                    items: table::keyed(table::pairs(items@)),
                }) && db.serial() == serial && db.process() == process,
                None => true,
            },
            r is Some <==> {
                &&& table::unique_keys(table::pairs(files@))
                &&& table::unique_keys(table::pairs(settings@))
                &&& table::unique_keys(table::pairs(collections@))
                &&& table::unique_keys(table::pairs(items@))
            },
    {
        if !all_keys_differ(&files) || !all_keys_differ(&settings) || !all_keys_differ(&collections)
            || !all_keys_differ(&items) {
            return None;
        }
        Some(
            Db {
                files: Table { rows: files },
                settings: Table { rows: settings },
                collections: Table { rows: collections },
                items: Table { rows: items },
                serial,
                process,
            },
        )
    }
}

} // verus!
