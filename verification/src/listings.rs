//! Reading the catalog: listings, details and counts.

use crate::catalog;
use crate::order;
use crate::order::{sort_positions, text_not_after, Ranked};
use crate::records::{
    title_to_show, Collection, CollectionItem, CollectionItemView, FileRow,
};
use crate::table;
use crate::table::Table;
use crate::text::same;
use vstd::prelude::*;
use vstd::string::*;

use crate::records::FileRec;

verus! {

impl Ranked for FileRow {
    open spec fn ranks(a: Self, b: Self) -> bool {
        order::text_le(a@.path, b@.path)
    }

    proof fn ranks_total(a: Self, b: Self) {
        order::lemma_text_total(a@.path, b@.path);
    }

    proof fn ranks_transitive(a: Self, b: Self, c: Self) {
        order::lemma_text_transitive(a@.path, b@.path, c@.path);
    }

    fn not_after(&self, other: &Self) -> (r: bool) {
        text_not_after(self.path.as_str(), other.path.as_str())
    }
}

impl Ranked for Collection {
    open spec fn ranks(a: Self, b: Self) -> bool {
        catalog::collection_not_after(a@, b@)
    }

    proof fn ranks_total(a: Self, b: Self) {
    }

    proof fn ranks_transitive(a: Self, b: Self, c: Self) {
    }

    fn not_after(&self, other: &Self) -> (r: bool) {
        self.pos < other.pos || self.pos == other.pos && self.created_at <= other.created_at
    }
}

/// An entry of a collection and its file.
struct Entry {
    item: CollectionItem,
    file: FileRow,
}

impl Ranked for Entry {
    closed spec fn ranks(a: Self, b: Self) -> bool {
        a.item.pos < b.item.pos || a.item.pos == b.item.pos && (order::text_lt(
            a.file.title@,
            b.file.title@,
        ) || a.file.title@ == b.file.title@ && order::text_le(a.item.file_path@, b.item.file_path@))
    }

    proof fn ranks_total(a: Self, b: Self) {
        order::lemma_text_total(a.file.title@, b.file.title@);
        order::lemma_text_total(a.item.file_path@, b.item.file_path@);
    }

    proof fn ranks_transitive(a: Self, b: Self, c: Self) {
        if a.item.pos == b.item.pos && b.item.pos == c.item.pos {
            let (x, y, z) = (a.file.title@, b.file.title@, c.file.title@);
            if x != y && y != z {
                order::lemma_text_transitive(x, y, z);
                if x == z {
                    order::lemma_text_antisymmetric(x, y);
                }
            }
            if x == y && y == z {
                order::lemma_text_transitive(
                    a.item.file_path@,
                    b.item.file_path@,
                    c.item.file_path@,
                );
            }
        }
    }

    fn not_after(&self, other: &Self) -> (r: bool) {
        if self.item.pos != other.item.pos {
            return self.item.pos < other.item.pos;
        }
        if !same(self.file.title.as_str(), other.file.title.as_str()) {
            return text_not_after(self.file.title.as_str(), other.file.title.as_str());
        }
        text_not_after(self.item.file_path.as_str(), other.item.file_path.as_str())
    }
}

/// The numbers from 0 to `n - 1`.
fn count_up(n: usize) -> (r: Vec<usize>)
    ensures
        r@.len() == n,
        forall|i: int| 0 <= i < n ==> #[trigger] r@[i] == i,
{
    let mut r: Vec<usize> = Vec::new();
    for i in 0..n
        invariant
            r@.len() == i,
            forall|j: int| 0 <= j < i ==> #[trigger] r@[j] == j,
    {
        r.push(i);
    }
    r
}

/// Files in the order of their paths, from the positions of their rows.
proof fn lemma_files_sorted(files: Table<FileRow>, at: Seq<usize>, f: spec_fn(FileRec) -> bool)
    requires
        files.wf(),
        at.no_duplicates(),
        order::in_order(files.rows@, at),
        forall|p: usize|
            at.contains(p) <==> p < files.rows@.len() && f(files.rows@[p as int]@),
    ensures
        table::recs_at(files.rows@, at) == catalog::file_listing(files@, f),
        catalog::is_file_listing(catalog::file_listing(files@, f), files@, f),
{
    let s = table::recs_at(files.rows@, at);
    assert forall|p: usize|
        at.contains(p) <==> p < files.rows@.len() && f(
            crate::table::Row::rec(files.rows@[p as int]),
        ) by {}
    files.lemma_lists(at, f);
    assert forall|i: int, j: int| 0 <= i < j < s.len() implies catalog::by_path()(
        #[trigger] s[i],
        #[trigger] s[j],
    ) by {
        assert(at.contains(at[i]));
        assert(at.contains(at[j]));
        assert(order::precedes(files.rows@, at[i] as int, at[j] as int));
        files.lemma_distinct(at[i] as int, at[j] as int);
    }
    catalog::lemma_file_listing(s, files@, f);
}

/// Copies of the rows at some positions.
fn file_rows_at(rows: &Vec<FileRow>, at: &Vec<usize>) -> (r: Vec<FileRow>)
    requires
        order::positions_of(rows@, at@),
    ensures
        table::recs(r@) == table::recs_at(rows@, at@),
{
    let mut r: Vec<FileRow> = Vec::new();
    for i in 0..at.len()
        invariant
            order::positions_of(rows@, at@),
            r@.len() == i,
            forall|j: int| 0 <= j < i ==> (#[trigger] r@[j])@ == rows@[at@[j] as int]@,
    {
        let p: usize = at[i];
        r.push(rows[p].clone());
    }
    assert(table::recs(r@) =~= table::recs_at(rows@, at@));
    r
}

/// Copies of the rows at some positions.
fn collections_at(rows: &Vec<Collection>, at: &Vec<usize>) -> (r: Vec<Collection>)
    requires
        order::positions_of(rows@, at@),
    ensures
        table::recs(r@) == table::recs_at(rows@, at@),
{
    let mut r: Vec<Collection> = Vec::new();
    for i in 0..at.len()
        invariant
            order::positions_of(rows@, at@),
            r@.len() == i,
            forall|j: int| 0 <= j < i ==> (#[trigger] r@[j])@ == rows@[at@[j] as int]@,
    {
        let p: usize = at[i];
        r.push(rows[p].clone());
    }
    assert(table::recs(r@) =~= table::recs_at(rows@, at@));
    r
}

/// The files of a table, or those of one kind, in the order of their paths.
pub(crate) fn files_by_path(files: &Table<FileRow>, kind: Option<&str>) -> (r: Vec<FileRow>)
    requires
        files.wf(),
    ensures
        ({
            let f = match kind {
                Some(k) => catalog::file_of_kind(k@),
                None => catalog::any_file(),
            };
            &&& table::recs(r@) == catalog::file_listing(files@, f)
            &&& catalog::is_file_listing(catalog::file_listing(files@, f), files@, f)
        }),
{
    let ghost f = match kind {
        Some(k) => catalog::file_of_kind(k@),
        None => catalog::any_file(),
    };
    let mut picked: Vec<usize> = Vec::new();
    for i in 0..files.rows.len()
        invariant
            order::positions_of(files.rows@, picked@),
            order::increasing(picked@),
            forall|j: int| 0 <= j < picked@.len() ==> (#[trigger] picked@[j]) < i,
            forall|p: usize| picked@.contains(p) <==> p < i && f(files.rows@[p as int]@),
            f == match kind {
                Some(k) => catalog::file_of_kind(k@),
                None => catalog::any_file(),
            },
    {
        let take = match kind {
            Some(k) => same(files.rows[i].kind.as_str(), k),
            None => true,
        };
        let ghost before = picked@;
        if take {
            picked.push(i);
        }
        proof {
            assert forall|p: usize| picked@.contains(p) <==> p < i + 1 && f(
                files.rows@[p as int]@,
            ) by {
                if take {
                    assert(picked@ == before.push(i));
                    if picked@.contains(p) {
                        let j = choose|j: int| 0 <= j < picked@.len() && picked@[j] == p;
                        if j < before.len() {
                            assert(before[j] == p);
                            assert(before.contains(p));
                        }
                    }
                    if p < i && f(files.rows@[p as int]@) {
                        assert(before.contains(p));
                        let j = choose|j: int| 0 <= j < before.len() && before[j] == p;
                        assert(picked@[j] == p);
                    }
                    if p == i {
                        assert(picked@[before.len() as int] == p);
                    }
                }
            }
        }
    }
    let at = sort_positions(&files.rows, &picked);
    proof {
        assert forall|p: usize|
            at@.contains(p) <==> p < files.rows@.len() && f(files.rows@[p as int]@) by {
            assert(picked@.contains(p) <==> p < files.rows@.len() && f(files.rows@[p as int]@));
        }
        lemma_files_sorted(*files, at@, f);
        assert forall|i: int| 0 <= i < at@.len() implies (#[trigger] at@[i])
            < files.rows@.len() by {
            assert(at@.contains(at@[i]));
        }
    }
    file_rows_at(&files.rows, &at)
}

/// The collections of a table, or those below one parent, by position and then by age.
pub(crate) fn collections_in_order(collections: &Table<Collection>, parent: Option<&str>) -> (r:
    Vec<Collection>)
    requires
        collections.wf(),
    ensures
        catalog::is_collection_listing(
            table::recs(r@),
            collections@,
            match parent {
                Some(p) => catalog::child_of(p@),
                None => catalog::any_collection(),
            },
        ),
{
    let ghost f = match parent {
        Some(p) => catalog::child_of(p@),
        None => catalog::any_collection(),
    };
    let mut picked: Vec<usize> = Vec::new();
    for i in 0..collections.rows.len()
        invariant
            order::positions_of(collections.rows@, picked@),
            order::increasing(picked@),
            forall|j: int| 0 <= j < picked@.len() ==> (#[trigger] picked@[j]) < i,
            forall|p: usize| picked@.contains(p) <==> p < i && f(collections.rows@[p as int]@),
            f == match parent {
                Some(p) => catalog::child_of(p@),
                None => catalog::any_collection(),
            },
    {
        let take = match parent {
            Some(p) => same(collections.rows[i].parent_id.as_str(), p),
            None => true,
        };
        let ghost before = picked@;
        if take {
            picked.push(i);
        }
        proof {
            assert forall|p: usize| picked@.contains(p) <==> p < i + 1 && f(
                collections.rows@[p as int]@,
            ) by {
                if take {
                    assert(picked@ == before.push(i));
                    if picked@.contains(p) {
                        let j = choose|j: int| 0 <= j < picked@.len() && picked@[j] == p;
                        if j < before.len() {
                            assert(before[j] == p);
                            assert(before.contains(p));
                        }
                    }
                    if p < i && f(collections.rows@[p as int]@) {
                        assert(before.contains(p));
                        let j = choose|j: int| 0 <= j < before.len() && before[j] == p;
                        assert(picked@[j] == p);
                    }
                    if p == i {
                        assert(picked@[before.len() as int] == p);
                    }
                }
            }
        }
    }
    let at = sort_positions(&collections.rows, &picked);
    proof {
        assert forall|p: usize|
            at@.contains(p) <==> p < collections.rows@.len() && f(
                crate::table::Row::rec(collections.rows@[p as int]),
            ) by {
            assert(picked@.contains(p) <==> p < collections.rows@.len() && f(
                collections.rows@[p as int]@,
            ));
        }
        collections.lemma_lists(at@, f);
        let s = table::recs_at(collections.rows@, at@);
        assert forall|i: int, j: int| 0 <= i < j < s.len() implies catalog::collection_not_after(
            #[trigger] s[i],
            #[trigger] s[j],
        ) by {
            assert(order::precedes(collections.rows@, at@[i] as int, at@[j] as int));
        }
        assert forall|i: int| 0 <= i < at@.len() implies (#[trigger] at@[i])
            < collections.rows@.len() by {
            assert(at@.contains(at@[i]));
        }
    }
    collections_at(&collections.rows, &at)
}

/// The entries of a collection in order, each with what is known of its file. An entry
/// whose file is not listed is passed over.
pub(crate) fn entries_in_order(
    files: &Table<FileRow>,
    items: &Table<CollectionItem>,
    id: &str,
    Ghost(t): Ghost<catalog::Tables>,
) -> (r: Vec<CollectionItemView>)
    requires
        files.wf(),
        items.wf(),
        t.files == files@,
        t.items == items@,
    ensures
        catalog::item_views(r@) == catalog::detail_items(t, id@),
        catalog::is_item_listing(catalog::item_listing(t, id@), t, id@),
        r@.len() == table::picked(t.items, catalog::item_shown(t, id@)).len(),
{
    let ghost f = catalog::item_shown(t, id@);
    let ghost p = table::pairs(items.rows@);
    let mut rows: Vec<Entry> = Vec::new();
    let ghost mut from: Seq<usize> = Seq::empty();
    assert(p.take(0) =~= Seq::empty());
    for i in 0..items.rows.len()
        invariant
            files.wf(),
            items.wf(),
            t.files == files@,
            t.items == items@,
            f == catalog::item_shown(t, id@),
            p == table::pairs(items.rows@),
            from.len() == rows@.len(),
            from.len() == table::count_where(p.take(i as int), f),
            from.no_duplicates(),
            forall|j: int| 0 <= j < from.len() ==> (#[trigger] from[j]) < i,
            forall|p: usize| from.contains(p) <==> p < i && f(items.rows@[p as int]@),
            forall|j: int|
                0 <= j < rows@.len() ==> (#[trigger] rows@[j]).item@ == items.rows@[from[j] as int]@
                    && files@.contains_key(rows@[j].item@.file_path)
                    && files@[rows@[j].item@.file_path] == rows@[j].file@,
    {
        let it = &items.rows[i];
        let ghost before = from;
        proof {
            assert(p.take(i + 1).drop_last() =~= p.take(i as int));
            assert(p.take(i + 1).last() == p[i as int]);
        }
        if same(it.collection_id.as_str(), id) {
            match files.find(it.file_path.as_str()) {
                Some(n) => {
                    rows.push(Entry { item: it.clone(), file: files.rows[n].clone() });
                    proof {
                        from = from.push(i);
                    }
                },
                None => {},
            }
        }
        proof {
            assert forall|p: usize| from.contains(p) <==> p < i + 1 && f(
                items.rows@[p as int]@,
            ) by {
                if from != before {
                    if from.contains(p) {
                        let j = choose|j: int| 0 <= j < from.len() && from[j] == p;
                        if j < before.len() {
                            assert(before[j] == p);
                            assert(before.contains(p));
                        }
                    }
                    if p < i && f(items.rows@[p as int]@) {
                        assert(before.contains(p));
                        let j = choose|j: int| 0 <= j < before.len() && before[j] == p;
                        assert(from[j] == p);
                    }
                    if p == i {
                        assert(from[before.len() as int] == p);
                    }
                }
            }
        }
    }
    proof {
        assert(p.take(p.len() as int) =~= p);
        table::lemma_count_where(p, f);
    }
    let all = count_up(rows.len());
    let at = sort_positions(&rows, &all);
    let ghost s = Seq::new(at@.len(), |i: int| rows@[at@[i] as int].item@);
    proof {
        assert forall|i: int| 0 <= i < at@.len() implies (#[trigger] at@[i]) < rows@.len() by {
            assert(at@.contains(at@[i]));
            assert(all@.contains(at@[i]));
        }
        let back = Seq::new(at@.len(), |i: int| from[at@[i] as int]);
        assert(back.no_duplicates()) by {
            assert forall|i: int, j: int|
                0 <= i < back.len() && 0 <= j < back.len() && i != j implies back[i] != back[j] by {
                assert(at@[i] != at@[j]);
                assert(from[at@[i] as int] != from[at@[j] as int]);
            }
        }
        assert forall|p: usize|
            back.contains(p) <==> p < items.rows@.len() && f(
                crate::table::Row::rec(items.rows@[p as int]),
            ) by {
            if back.contains(p) {
                let i = choose|i: int| 0 <= i < back.len() && back[i] == p;
                assert(from[at@[i] as int] == p);
                assert(from.contains(p));
            }
            if p < items.rows@.len() && f(items.rows@[p as int]@) {
                assert(from.contains(p));
                let j = choose|j: int| 0 <= j < from.len() && from[j] == p;
                assert(all@[j] == j);
                assert(all@.contains(j as usize));
                assert(at@.contains(j as usize));
                let i = choose|i: int| 0 <= i < at@.len() && at@[i] == j as usize;
                assert(back[i] == p);
            }
        }
        items.lemma_lists(back, f);
        assert(table::recs_at(items.rows@, back) =~= s);
        assert forall|i: int, j: int| 0 <= i < j < s.len() implies catalog::item_before(t.files)(
            #[trigger] s[i],
            #[trigger] s[j],
        ) by {
            assert(order::precedes(rows@, at@[i] as int, at@[j] as int));
            assert(from[at@[i] as int] != from[at@[j] as int]);
            items.lemma_distinct(from[at@[i] as int] as int, from[at@[j] as int] as int);
            assert(f(s[i]) && f(s[j]));
        }
        catalog::lemma_item_listing(s, t, id@);
    }
    let mut r: Vec<CollectionItemView> = Vec::new();
    for i in 0..at.len()
        invariant
            order::positions_of(rows@, at@),
            s == Seq::new(at@.len(), |i: int| rows@[at@[i] as int].item@),
            s.len() == at@.len(),
            forall|j: int|
                0 <= j < rows@.len() ==> files@.contains_key(
                    (#[trigger] rows@[j]).item@.file_path,
                ) && files@[rows@[j].item@.file_path] == rows@[j].file@,
            r@.len() == i,
            forall|j: int|
                0 <= j < i ==> (#[trigger] r@[j])@ == catalog::item_view(
                    s[j],
                    files@[s[j].file_path],
                ),
    {
        let p: usize = at[i];
        let e = &rows[p];
        r.push(
            CollectionItemView {
                file_path: e.item.file_path.clone(),
                title: title_to_show(e.file.title.as_str(), e.item.file_path.as_str()),
                hash: e.file.hash.clone(),
                size: e.file.size,
                mime: e.file.mime.clone(),
                season: e.item.season.clone(),
                label: e.item.label.clone(),
                pos: e.item.pos,
                watched: e.file.watched,
            },
        );
    }
    assert(catalog::item_views(r@) =~= catalog::detail_items(t, id@));
    r
}

} // verus!
