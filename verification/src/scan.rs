//! Scanning a folder for videos.
//!
//! Reading folders is left to the caller: a scan says which folder to read next, and takes
//! what is in it.

use crate::mime;
use crate::natural;
use crate::natural::natural_order;
use crate::order;
use crate::order::{sort_positions, text_not_after, Ranked};
use crate::paths;
use crate::paths::extension;
use crate::text;
use crate::text::same;
use vstd::prelude::*;
use vstd::string::*;

verus! {

/// An extension of videos, in lower case.
pub open spec fn video_extension(e: Seq<char>) -> bool {
    e == "mkv"@ || e == "mp4"@ || e == "webm"@ || e == "avi"@
}

/// The path has the extension of a video, in any case.
pub open spec fn video_path(p: Seq<char>) -> bool {
    match paths::path_extension(p) {
        Some(e) => video_extension(text::lowered(e)),
        None => false,
    }
}

/// Whether the path has the extension of a video, in any case.
pub fn is_video(p: &str) -> (r: bool)
    ensures
        r == video_path(p@),
{
    match extension(p) {
        Some(e) => {
            let l = e.as_str().to_lowercase();
            proof {
                reveal_strlit("mkv");
                reveal_strlit("mp4");
                reveal_strlit("webm");
                reveal_strlit("avi");
                text::lemma_lower_is(e@, l@, "mkv"@);
                text::lemma_lower_is(e@, l@, "mp4"@);
                text::lemma_lower_is(e@, l@, "webm"@);
                text::lemma_lower_is(e@, l@, "avi"@);
            }
            let e = l.as_str();
            same(e, "mkv") || same(e, "mp4") || same(e, "webm") || same(e, "avi")
        },
        None => false,
    }
}

/// What is a video by the extension of its path has the media type of a video by its name.
pub proof fn law_videos_have_video_types(p: Seq<char>)
    requires
        video_path(p),
    ensures
        paths::base_name(p) is Some,
        "video/"@.is_prefix_of(mime::mime_of(paths::base_name(p)->0)),
{
    let n = paths::base_name(p)->0;
    let e = paths::path_extension(p)->0;
    let d = paths::last_dot(n);
    paths::lemma_last_dot(n);
    let x = n.skip(d);
    assert(n =~= n.take(d) + x);
    mime::lemma_video_ends();
    let l = text::lowered(x);
    assert(l[0] == '.');
    assert(l.skip(1) =~= text::lowered(e));
    reveal_strlit("mkv");
    reveal_strlit("mp4");
    reveal_strlit("webm");
    reveal_strlit("avi");
    reveal_strlit(".mkv");
    reveal_strlit(".mp4");
    reveal_strlit(".webm");
    reveal_strlit(".avi");
    assert(l =~= seq!['.'] + l.skip(1));
    assert(seq!['.'] + "mkv"@ =~= ".mkv"@);
    assert(seq!['.'] + "mp4"@ =~= ".mp4"@);
    assert(seq!['.'] + "webm"@ =~= ".webm"@);
    assert(seq!['.'] + "avi"@ =~= ".avi"@);
    mime::law_the_end_decides(n.take(d), x);
}

/// The value of an `Entry`.
#[verifier::ext_equal]
pub struct EntryRec {
    pub id: usize,
    pub name: Seq<char>,
    pub is_dir: bool,
    pub is_file: bool,
}

/// Something in a folder. The caller finds it again by its `id`.
#[derive(Debug)]
pub struct Entry {
    pub id: usize,
    pub name: String,
    pub is_dir: bool,
    pub is_file: bool,
}

impl View for Entry {
    type V = EntryRec;

    open spec fn view(&self) -> EntryRec {
        EntryRec { id: self.id, name: self.name@, is_dir: self.is_dir, is_file: self.is_file }
    }
}

impl Clone for Entry {
    fn clone(&self) -> (r: Self)
        ensures
            r@ == self@,
    {
        Entry {
            id: self.id,
            name: self.name.clone(),
            is_dir: self.is_dir,
            is_file: self.is_file,
        }
    }
}

impl Ranked for Entry {
    open spec fn ranks(a: Self, b: Self) -> bool {
        order::text_le(a@.name, b@.name)
    }

    proof fn ranks_total(a: Self, b: Self) {
        order::lemma_text_total(a@.name, b@.name);
    }

    proof fn ranks_transitive(a: Self, b: Self, c: Self) {
        order::lemma_text_transitive(a@.name, b@.name, c@.name);
    }

    fn not_after(&self, other: &Self) -> (r: bool) {
        text_not_after(self.name.as_str(), other.name.as_str())
    }
}

/// The views of some entries.
pub open spec fn entry_views(v: Seq<Entry>) -> Seq<EntryRec> {
    v.map_values(|e: Entry| e@)
}

/// What a scan stops at.
#[derive(Debug, Clone, Copy, PartialEq, Eq, Structural)]
pub enum Step {
    /// The folder with this id is to be read.
    Open(usize),
    /// Everything was seen.
    Done,
    /// More than 2000 videos were found and there is another folder.
    TooMany,
}

impl Step {
    /// The message for the user, where the scan cannot go on.
    pub fn problem(self) -> (r: Option<String>)
        ensures
            match r {
                Some(m) => self is TooMany && m@ == "demasiados archivos (límite 2000)"@,
                None => !(self is TooMany),
            },
    {
        match self {
            Step::TooMany => Some("demasiados archivos (límite 2000)".to_owned()),
            _ => None,
        }
    }
}

/// How many videos may have been found when another folder is opened.
pub const MAX_FOUND: usize = 2000;

/// A video file.
pub open spec fn wanted(e: EntryRec) -> bool {
    !e.is_dir && e.is_file && video_path(e.name)
}

/// Where a scan stops next, what is then left to see, and what was found by then.
pub open spec fn next_stop(
    recursive: bool,
    todo: Seq<EntryRec>,
    found: Seq<EntryRec>,
) -> (Step, Seq<EntryRec>, Seq<EntryRec>)
    decreases todo.len(),
{
    if todo.len() == 0 {
        (Step::Done, todo, found)
    } else {
        let e = todo[0];
        let rest = todo.skip(1);
        if e.is_dir && recursive {
            if found.len() > MAX_FOUND {
                (Step::TooMany, rest, found)
            } else {
                (Step::Open(e.id), rest, found)
            }
        } else if wanted(e) {
            next_stop(recursive, rest, found.push(e))
        } else {
            next_stop(recursive, rest, found)
        }
    }
}

/// `s` are the entries `e` by name.
pub open spec fn is_by_name(s: Seq<EntryRec>, e: Seq<EntryRec>) -> bool {
    &&& s.to_multiset() == e.to_multiset()
    &&& forall|i: int, j: int|
        0 <= i < j < s.len() ==> order::text_le((#[trigger] s[i]).name, (#[trigger] s[j]).name)
}

/// The ids of some entries in natural order of their names: `ids[i]` is that of the entry
/// at `at[i]`.
pub open spec fn is_natural(ids: Seq<usize>, at: Seq<usize>, found: Seq<EntryRec>) -> bool {
    &&& ids.len() == found.len()
    &&& at.len() == found.len()
    &&& at.no_duplicates()
    &&& forall|i: int|
        0 <= i < at.len() ==> (#[trigger] at[i]) < found.len() && ids[i] == found[at[i] as int].id
    &&& forall|i: int, j: int|
        0 <= i < j < at.len() ==> natural::comes_before(
            found.map_values(|e: EntryRec| e.name),
            #[trigger] at[i] as int,
            #[trigger] at[j] as int,
        )
}

/// A scan.
pub struct Scan {
    recursive: bool,
    pending: Vec<Entry>,
    found: Vec<Entry>,
}

impl Scan {
    /// Whether the scan goes into folders.
    pub closed spec fn recursive(self) -> bool {
        self.recursive
    }

    /// What is left to see, in order.
    pub closed spec fn todo(self) -> Seq<EntryRec> {
        entry_views(self.pending@).reverse()
    }

    /// The videos found so far.
    pub closed spec fn found(self) -> Seq<EntryRec> {
        entry_views(self.found@)
    }

    /// A scan with nothing to see yet.
    pub fn new(recursive: bool) -> (r: Self)
        ensures
            r.recursive() == recursive,
            r.todo() == Seq::<EntryRec>::empty(),
            r.found() == Seq::<EntryRec>::empty(),
    {
        let r = Scan { recursive, pending: Vec::new(), found: Vec::new() };
        assert(r.todo() =~= Seq::<EntryRec>::empty());
        assert(r.found() =~= Seq::<EntryRec>::empty());
        r
    }

    /// Takes what is in a folder, which is seen next, by name.
    pub fn opened(&mut self, entries: Vec<Entry>)
        ensures
            final(self).recursive() == old(self).recursive(),
            final(self).found() == old(self).found(),
            exists|s: Seq<EntryRec>|
                #![trigger is_by_name(s, entry_views(entries@))]
                is_by_name(s, entry_views(entries@)) && final(self).todo() == s + old(self).todo(),
    {
        let mut all: Vec<usize> = Vec::new();
        for i in 0..entries.len()
            invariant
                all@.len() == i,
                forall|j: int| 0 <= j < i ==> #[trigger] all@[j] == j,
        {
            all.push(i);
        }
        let at = sort_positions(&entries, &all);
        let ghost s = Seq::new(at@.len(), |i: int| entries@[at@[i] as int]@);
        proof {
            assert forall|i: int| 0 <= i < at@.len() implies (#[trigger] at@[i])
                < entries@.len() by {
                assert(at@.contains(at@[i]));
                assert(all@.contains(at@[i]));
            }
            let e = entry_views(entries@);
            assert(s =~= at@.map_values(|p: usize| e[p as int]));
            assert(e =~= all@.map_values(|p: usize| e[p as int]));
            order::lemma_same_multiset_mapped(at@, all@, |p: usize| e[p as int]);
            assert forall|i: int, j: int| 0 <= i < j < s.len() implies order::text_le(
                (#[trigger] s[i]).name,
                (#[trigger] s[j]).name,
            ) by {
                assert(order::precedes(entries@, at@[i] as int, at@[j] as int));
            }
            assert(is_by_name(s, e));
        }
        let ghost before = self.todo();
        let mut n: usize = at.len();
        assert(s.skip(s.len() as int) + before =~= self.todo());
        while n > 0
            invariant
                n <= at@.len(),
                s == Seq::new(at@.len(), |i: int| entries@[at@[i] as int]@),
                order::positions_of(entries@, at@),
                self.todo() == s.skip(n as int) + before,
                self.recursive == old(self).recursive,
                self.found == old(self).found,
            decreases n,
        {
            n = n - 1;
            let p: usize = at[n];
            let ghost t = self.pending@;
            self.pending.push(entries[p].clone());
            proof {
                assert(entry_views(self.pending@) =~= entry_views(t).push(s[n as int]));
                assert(entry_views(self.pending@).reverse() =~= seq![s[n as int]] + entry_views(
                    t,
                ).reverse());
                assert(s.skip(n as int) =~= seq![s[n as int]] + s.skip(n + 1));
                assert(self.todo() =~= s.skip(n as int) + before);
            }
        }
        assert(s.skip(0) =~= s);
    }

    /// Goes on to the next folder to read, or to the end.
    pub fn advance(&mut self) -> (r: Step)
        ensures
            final(self).recursive() == old(self).recursive(),
            (r, final(self).todo(), final(self).found()) == next_stop(
                old(self).recursive(),
                old(self).todo(),
                old(self).found(),
            ),
    {
        loop
            invariant
                self.recursive == old(self).recursive,
                next_stop(self.recursive(), self.todo(), self.found()) == next_stop(
                    old(self).recursive(),
                    old(self).todo(),
                    old(self).found(),
                ),
            decreases self.pending@.len(),
        {
            let ghost before = self.pending@;
            let ghost todo = self.todo();
            match self.pending.pop() {
                None => {
                    assert(todo.len() == 0);
                    assert(self.pending@ =~= before);
                    return Step::Done;
                },
                Some(e) => {
                    proof {
                        assert(todo[0] == e@);
                        assert(entry_views(self.pending@) =~= entry_views(before).drop_last());
                        assert(self.todo() =~= todo.skip(1));
                    }
                    if e.is_dir && self.recursive {
                        if self.found.len() > MAX_FOUND {
                            return Step::TooMany;
                        }
                        return Step::Open(e.id);
                    }
                    if !e.is_dir && e.is_file && is_video(e.name.as_str()) {
                        let ghost f = self.found@;
                        self.found.push(e);
                        assert(self.found() =~= entry_views(f).push(todo[0]));
                    }
                },
            }
        }
    }

    /// The ids of the videos found, in natural order of their names.
    pub fn candidates(&self) -> (r: Vec<usize>)
        ensures
            exists|at: Seq<usize>| is_natural(r@, at, self.found()),
    {
        let mut names: Vec<String> = Vec::new();
        for i in 0..self.found.len()
            invariant
                names@.len() == i,
                forall|j: int| 0 <= j < i ==> (#[trigger] names@[j])@ == self.found@[j]@.name,
        {
            names.push(self.found[i].name.clone());
        }
        let at = natural_order(&names);
        let mut r: Vec<usize> = Vec::new();
        for i in 0..at.len()
            invariant
                order::positions_of(self.found@, at@),
                r@.len() == i,
                forall|j: int|
                    0 <= j < i ==> #[trigger] r@[j] == self.found@[at@[j] as int].id,
        {
            let p: usize = at[i];
            r.push(self.found[p].id);
        }
        proof {
            let found = self.found();
            assert(crate::catalog::text_views(names@) =~= found.map_values(|e: EntryRec| e.name));
            assert(is_natural(r@, at@, found));
        }
        r
    }
}

/// A scan that does not go into folders finds the videos of the folder, and those alone.
pub proof fn law_a_flat_scan_finds_the_videos(todo: Seq<EntryRec>, found: Seq<EntryRec>)
    ensures
        next_stop(false, todo, found) == (
            Step::Done,
            Seq::<EntryRec>::empty(),
            found + todo.filter(|e: EntryRec| wanted(e)),
        ),
    decreases todo.len(),
{
    let want = |e: EntryRec| wanted(e);
    if todo.len() == 0 {
        assert(todo =~= Seq::<EntryRec>::empty());
        assert(todo.filter(want) =~= Seq::<EntryRec>::empty()) by {
            reveal(Seq::filter);
        }
        assert(found + todo.filter(want) =~= found);
    } else {
        let rest = todo.skip(1);
        lemma_filter_first(todo, want);
        if want(todo[0]) {
            law_a_flat_scan_finds_the_videos(rest, found.push(todo[0]));
            assert(found.push(todo[0]) + rest.filter(want) =~= found + (seq![todo[0]] + rest.filter(
                want,
            )));
        } else {
            law_a_flat_scan_finds_the_videos(rest, found);
        }
    }
}

/// Whatever a scan passes is accounted for: what was found, and the videos left to see, stay
/// the same, and the folders left to see but for the one that it stops at. At the end nothing
/// is left, unless there were too many.
pub proof fn law_a_scan_loses_nothing(recursive: bool, todo: Seq<EntryRec>, found: Seq<EntryRec>)
    ensures
        ({
            let video = |e: EntryRec| wanted(e);
            let folder = |e: EntryRec| e.is_dir;
            let (step, left, all) = next_stop(recursive, todo, found);
            &&& all + left.filter(video) == found + todo.filter(video)
            &&& step is Done ==> left.len() == 0
            &&& recursive && step is Done ==> todo.filter(folder).len() == 0
            &&& recursive && step !is Done ==> {
                &&& todo.filter(folder).len() > 0
                &&& todo.filter(folder).skip(1) == left.filter(folder)
                &&& step matches Step::Open(id) ==> id == todo.filter(folder)[0].id
            }
        }),
    decreases todo.len(),
{
    let video = |e: EntryRec| wanted(e);
    let folder = |e: EntryRec| e.is_dir;
    let (step, left, all) = next_stop(recursive, todo, found);
    if todo.len() == 0 {
        assert(todo.filter(folder).len() == 0) by {
            reveal(Seq::filter);
        }
    } else {
        let e = todo[0];
        let rest = todo.skip(1);
        lemma_filter_first(todo, video);
        lemma_filter_first(todo, folder);
        if e.is_dir && recursive {
            assert(todo.filter(folder).skip(1) =~= left.filter(folder));
        } else if wanted(e) {
            law_a_scan_loses_nothing(recursive, rest, found.push(e));
            assert(found.push(e) + rest.filter(video) =~= found + (seq![e] + rest.filter(video)));
        } else {
            law_a_scan_loses_nothing(recursive, rest, found);
        }
    }
}

proof fn lemma_filter_first(s: Seq<EntryRec>, f: spec_fn(EntryRec) -> bool)
    requires
        s.len() > 0,
    ensures
        s.filter(f) == if f(s[0]) {
            seq![s[0]] + s.skip(1).filter(f)
        } else {
            s.skip(1).filter(f)
        },
{
    assert(s =~= seq![s[0]] + s.skip(1));
    Seq::filter_distributes_over_add(seq![s[0]], s.skip(1), f);
    let one = seq![s[0]];
    assert(one.drop_last() =~= Seq::<EntryRec>::empty());
    assert(one.drop_last().filter(f) =~= Seq::<EntryRec>::empty()) by {
        reveal(Seq::filter);
    }
    assert(one.filter(f) =~= if f(s[0]) {
        one
    } else {
        Seq::empty()
    }) by {
        reveal(Seq::filter);
    }
    assert(Seq::<EntryRec>::empty() + s.skip(1).filter(f) =~= s.skip(1).filter(f));
}

} // verus!
