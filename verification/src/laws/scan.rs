//! Scans: which files are found, and in which order.

use crate::paths::extension;
use crate::natural;
use crate::order;
use crate::scan;
use crate::scan::{is_video, Entry, Scan, Step};
use crate::text;
use vstd::prelude::*;
use vstd::string::*;

use crate::scan::EntryRec;

verus! {

/// An entry is seen as the values of its fields.
pub proof fn law_an_entry_is_seen_as_it_is(e: Entry)
    ensures
        e@.id == e.id && e@.name == e.name@ && e@.is_dir == e.is_dir && e@.is_file == e.is_file,
{
}

/// A video is known by the extension of its name, in any case of the letters.
pub proof fn law_videos_are_known_by_their_extension(p: &str, e: Option<String>, r: bool)
    requires
        call_ensures(is_video, (p,), r),
        call_ensures(extension, (p,), e),
    ensures
        ({
            let x = text::lowered(e->0@);
            r <==> e is Some && (x == "mkv"@ || x == "mp4"@ || x == "webm"@ || x == "avi"@)
        }),
{
}

/// A scan has nothing to see and nothing found at first.
pub proof fn law_a_scan_starts_empty(recursive: bool, r: Scan)
    requires
        call_ensures(Scan::new, (recursive,), r),
    ensures
        r.recursive() == recursive,
        r.todo().len() == 0,
        r.found().len() == 0,
{
}

/// What is in a folder that was opened is seen next, each entry once and by name, before what
/// was left to see. What was found stays.
pub proof fn law_a_folder_is_seen_by_name(scan: &mut Scan, entries: Vec<Entry>)
    requires
        call_ensures(Scan::opened, (scan, entries), ()),
    ensures
        final(scan).recursive() == old(scan).recursive(),
        final(scan).found() == old(scan).found(),
        exists|s: Seq<EntryRec>| #[trigger] is_seen_by_name(s, entries@) && final(scan).todo() == s
            + old(scan).todo(),
{
    let e = scan::entry_views(entries@);
    let s = choose|s: Seq<EntryRec>|
        #![trigger scan::is_by_name(s, e)]
        scan::is_by_name(s, e) && final(scan).todo() == s + old(scan).todo();
    assert(scan::is_by_name(s, e));
    assert(e =~= Seq::new(entries@.len(), |i: int| entries@[i]@));
    assert forall|i: int, j: int| 0 <= i < j < s.len() implies !order::comes_first(
        (#[trigger] s[j]).name,
        (#[trigger] s[i]).name,
    ) by {
        assert(order::text_le(s[i].name, s[j].name));
        order::law_texts_are_ordered_by_code_point(s[j].name, s[i].name);
    }
    assert(is_seen_by_name(s, entries@));
}

/// `s` are the entries in the order of their names, by code point.
pub open spec fn is_seen_by_name(s: Seq<EntryRec>, entries: Seq<Entry>) -> bool {
    &&& s.to_multiset() == Seq::new(entries.len(), |i: int| entries[i]@).to_multiset()
    &&& forall|i: int, j: int|
        0 <= i < j < s.len() ==> !order::comes_first((#[trigger] s[j]).name, (#[trigger] s[i]).name)
}

/// A scan stops at the entry: it goes into folders, and this is one.
pub open spec fn stops_at(e: EntryRec, recursive: bool) -> bool {
    recursive && e.is_dir
}

/// `left` and `all` are what is left to see and what was found after the first `k` entries were
/// passed, none of which is a stop.
pub open spec fn passes(
    todo: Seq<EntryRec>,
    found: Seq<EntryRec>,
    k: int,
    all: Seq<EntryRec>,
    recursive: bool,
) -> bool {
    &&& 0 <= k <= todo.len()
    &&& forall|i: int| 0 <= i < k ==> !stops_at(#[trigger] todo[i], recursive)
    &&& all == found + todo.take(k).filter(
        |e: EntryRec| !e.is_dir && e.is_file && scan::video_path(e.name),
    )
}

proof fn lemma_next_stop(recursive: bool, todo: Seq<EntryRec>, found: Seq<EntryRec>) -> (k: int)
    ensures
        ({
            let (step, left, all) = scan::next_stop(recursive, todo, found);
            &&& passes(todo, found, k, all, recursive)
            &&& step is Done ==> k == todo.len() && left.len() == 0
            &&& step !is Done ==> k < todo.len() && stops_at(todo[k], recursive) && left
                == todo.skip(k + 1)
            &&& step matches Step::Open(id) ==> id == todo[k].id && all.len() <= 2000
            &&& step is TooMany ==> all.len() > 2000
        }),
    decreases todo.len(),
{
    let want = |e: EntryRec| !e.is_dir && e.is_file && scan::video_path(e.name);
    let (step, left, all) = scan::next_stop(recursive, todo, found);
    assert(todo.take(0).filter(want) =~= Seq::<EntryRec>::empty()) by {
        reveal(Seq::filter);
    }
    assert(found + todo.take(0).filter(want) =~= found);
    if todo.len() == 0 || stops_at(todo[0], recursive) {
        if todo.len() > 0 {
            assert(left =~= todo.skip(1));
        }
        0
    } else {
        let e = todo[0];
        let rest = todo.skip(1);
        let more = if scan::wanted(e) {
            found.push(e)
        } else {
            found
        };
        let j = lemma_next_stop(recursive, rest, more);
        let k = j + 1;
        assert forall|i: int| 0 <= i < k implies !stops_at(#[trigger] todo[i], recursive) by {
            if i > 0 {
                assert(rest[i - 1] == todo[i]);
            }
        }
        let t = todo.take(k);
        assert(t =~= seq![e] + rest.take(j));
        Seq::filter_distributes_over_add(seq![e], rest.take(j), want);
        let one = seq![e];
        assert(one.filter(want) =~= if want(e) {
            one
        } else {
            Seq::empty()
        }) by {
            reveal(Seq::filter);
            assert(one.drop_last() =~= Seq::<EntryRec>::empty());
            assert(one.drop_last().filter(want) =~= Seq::<EntryRec>::empty());
        }
        assert(found + t.filter(want) =~= more + rest.take(j).filter(want));
        if j < rest.len() {
            assert(rest[j] == todo[k]);
            assert(rest.skip(j + 1) =~= todo.skip(k + 1));
        }
        k
    }
}

/// A scan passes entries in order and finds the videos among them, up to the next folder that
/// it goes into, or to the end. It does not go into another folder with more than two thousand
/// videos found.
pub proof fn law_a_scan_goes_on(scan: &mut Scan, r: Step) -> (k: int)
    requires
        call_ensures(Scan::advance, (scan,), r),
    ensures
        final(scan).recursive() == old(scan).recursive(),
        passes(old(scan).todo(), old(scan).found(), k, final(scan).found(), old(scan).recursive()),
        r is Done ==> k == old(scan).todo().len() && final(scan).todo().len() == 0,
        r !is Done ==> {
            &&& k < old(scan).todo().len()
            &&& stops_at(old(scan).todo()[k], old(scan).recursive())
            &&& final(scan).todo() == old(scan).todo().skip(k + 1)
        },
        r matches Step::Open(id) ==> id == old(scan).todo()[k].id && final(scan).found().len()
            <= 2000,
        r is TooMany ==> final(scan).found().len() > 2000,
{
    lemma_next_stop(old(scan).recursive(), old(scan).todo(), old(scan).found())
}

/// What a scan says of too many videos, and of nothing else.
pub proof fn law_what_is_said_of_too_many(s: Step, r: Option<String>)
    requires
        call_ensures(Step::problem, (s,), r),
    ensures
        r is Some <==> s is TooMany,
        r is Some ==> r->0@ == "demasiados archivos (límite 2000)"@,
{
}

/// The ids `ids` are those of the entries at the places `at`, each place once, and a name
/// stands before another where it comes before it in natural order.
pub open spec fn is_in_natural_order(
    ids: Seq<usize>,
    at: Seq<usize>,
    found: Seq<EntryRec>,
) -> bool {
    &&& ids.len() == found.len() && at.len() == found.len()
    &&& at.no_duplicates()
    &&& forall|i: int|
        0 <= i < at.len() ==> (#[trigger] at[i]) < found.len() && ids[i] == found[at[i] as int].id
    &&& forall|u: int, v: int|
        0 <= u < at.len() && 0 <= v < at.len() && natural::before(
            found[#[trigger] at[u] as int].name,
            found[#[trigger] at[v] as int].name,
        ) ==> u < v
}

/// What a scan found is given in natural order, all of it.
pub proof fn law_what_is_found_stands_in_natural_order(scan: &Scan, r: Vec<usize>)
    requires
        call_ensures(Scan::candidates, (scan,), r),
    ensures
        exists|at: Seq<usize>| #[trigger] is_in_natural_order(r@, at, scan.found()),
{
    let found = scan.found();
    let at = choose|at: Seq<usize>| scan::is_natural(r@, at, found);
    let names = found.map_values(|e: EntryRec| e.name);
    assert forall|u: int, v: int|
        0 <= u < at.len() && 0 <= v < at.len() && natural::before(
            found[#[trigger] at[u] as int].name,
            found[#[trigger] at[v] as int].name,
        ) implies u < v by {
        assert(at[u] < found.len() && at[v] < found.len());
        if v < u {
            assert(natural::comes_before(names, at[v] as int, at[u] as int));
        }
        if u == v {
            natural::lemma_not_before_itself(found[at[u] as int].name);
        }
    }
    assert(is_in_natural_order(r@, at, found));
}

} // verus!
