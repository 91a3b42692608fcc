//! The progress of scans that run in the background.

use crate::catalog;
use crate::numbers;
use crate::numbers::decimal;
use crate::text::same;
use vstd::prelude::*;
use vstd::string::*;

verus! {

/// How many jobs are kept.
pub const MAX_JOBS: usize = 50;

/// The value of a `JobState`.
#[verifier::ext_equal]
pub struct JobRec {
    pub id: Seq<char>,
    pub status: Seq<char>,
    pub total: usize,
    pub done: usize,
    pub added: Seq<Seq<char>>,
    pub errors: Seq<Seq<char>>,
}

/// The state of a job.
#[derive(Debug)]
pub struct JobState {
    pub id: String,
    pub status: String,
    pub total: usize,
    pub done: usize,
    pub added: Vec<String>,
    pub errors: Vec<String>,
}

impl View for JobState {
    type V = JobRec;

    open spec fn view(&self) -> JobRec {
        JobRec {
            id: self.id@,
            status: self.status@,
            total: self.total,
            done: self.done,
            added: catalog::text_views(self.added@),
            errors: catalog::text_views(self.errors@),
        }
    }
}

/// A copy of some texts.
fn copy_texts(v: &Vec<String>) -> (r: Vec<String>)
    ensures
        catalog::text_views(r@) == catalog::text_views(v@),
{
    let mut r: Vec<String> = Vec::new();
    for i in 0..v.len()
        invariant
            r@.len() == i,
            forall|j: int| 0 <= j < i ==> (#[trigger] r@[j])@ == v@[j]@,
    {
        r.push(v[i].clone());
    }
    assert(catalog::text_views(r@) =~= catalog::text_views(v@));
    r
}

impl Clone for JobState {
    fn clone(&self) -> (r: Self)
        ensures
            r@ == self@,
    {
        JobState {
            id: self.id.clone(),
            status: self.status.clone(),
            total: self.total,
            done: self.done,
            added: copy_texts(&self.added),
            errors: copy_texts(&self.errors),
        }
    }
}

/// The counts of a job, without its lists.
#[derive(Debug)]
pub struct JobSummary {
    pub id: String,
    pub status: String,
    pub total: usize,
    pub done: usize,
    pub added_count: usize,
    pub errors_count: usize,
}

/// The job is still at work.
pub open spec fn is_running(j: JobRec) -> bool {
    j.status == "running"@
}

/// Some job has the id.
pub open spec fn is_kept(s: Seq<JobRec>, id: Seq<char>) -> bool {
    exists|i: int| 0 <= i < s.len() && (#[trigger] s[i]).id == id
}

/// The job with the id, if there is one, can count another file.
pub open spec fn can_count(s: Seq<JobRec>, id: Seq<char>) -> bool {
    forall|i: int| 0 <= i < s.len() && (#[trigger] s[i]).id == id ==> s[i].done < usize::MAX
}

/// The jobs without the first `n` of those that have ended.
pub open spec fn evicted(s: Seq<JobRec>, n: nat) -> Seq<JobRec>
    decreases s.len(),
{
    if s.len() == 0 || n == 0 {
        s
    } else if is_running(s[0]) {
        seq![s[0]] + evicted(s.skip(1), n)
    } else {
        evicted(s.skip(1), (n - 1) as nat)
    }
}

/// How many jobs should make room for a new one.
pub open spec fn surplus(len: nat) -> nat {
    if len >= MAX_JOBS {
        (len - MAX_JOBS + 1) as nat
    } else {
        0
    }
}

/// A new job.
pub open spec fn new_job(number: u64, total: usize) -> JobRec {
    JobRec {
        id: numbers::decimal_text(number as nat),
        status: if total == 0 {
            "done"@
        } else {
            "running"@
        },
        total,
        done: 0,
        added: Seq::empty(),
        errors: Seq::empty(),
    }
}

/// The jobs after a new one began: the oldest that have ended make room for it.
pub open spec fn with_job(s: Seq<JobRec>, number: u64, total: usize) -> Seq<JobRec> {
    evicted(s, surplus(s.len())).push(new_job(number, total))
}

/// A list with one more text, if there is one.
pub open spec fn noted(s: Seq<Seq<char>>, x: Option<Seq<char>>) -> Seq<Seq<char>> {
    match x {
        Some(t) => s.push(t),
        None => s,
    }
}

/// A job after one more of its files was dealt with.
pub open spec fn progressed(
    j: JobRec,
    added: Option<Seq<char>>,
    error: Option<Seq<char>>,
) -> JobRec {
    let errors = noted(j.errors, error);
    JobRec {
        done: (j.done + 1) as usize,
        added: noted(j.added, added),
        errors,
        status: if j.done + 1 < j.total {
            j.status
        } else if errors.len() == 0 {
            "done"@
        } else {
            "done_with_errors"@
        },
        ..j
    }
}

/// A job after it failed as a whole.
pub open spec fn failed(j: JobRec, msg: Seq<char>) -> JobRec {
    JobRec { status: "error"@, errors: j.errors.push(msg), ..j }
}

/// The view of an optional text.
pub open spec fn opt_text(x: Option<String>) -> Option<Seq<char>> {
    match x {
        Some(s) => Some(s@),
        None => None,
    }
}

/// A job and its number.
struct Job {
    number: u64,
    state: JobState,
}

/// The jobs, oldest first. Their number is bounded: the oldest that have ended make room
/// for new ones.
pub struct Jobs {
    jobs: Vec<Job>,
    next: u64,
}

impl View for Jobs {
    type V = Seq<JobRec>;

    closed spec fn view(&self) -> Seq<JobRec> {
        self.jobs@.map_values(|j: Job| j.state@)
    }
}

impl Default for Jobs {
    fn default() -> (r: Self)
        ensures
            r.wf(),
            r@.len() == 0,
            r.next() == 0,
    {
        Jobs { jobs: Vec::new(), next: 0 }
    }
}

impl Jobs {
    /// Jobs are numbered in the order in which they came, and named by their number.
    pub closed spec fn wf(self) -> bool {
        &&& forall|i: int, j: int|
            0 <= i < j < self.jobs@.len() ==> (#[trigger] self.jobs@[i]).number < (
            #[trigger] self.jobs@[j]).number
        &&& forall|i: int|
            0 <= i < self.jobs@.len() ==> (#[trigger] self.jobs@[i]).number < self.next
                && self.jobs@[i].state.id@ == numbers::decimal_text(
                self.jobs@[i].number as nat,
            )
    }

    /// The number of the next job.
    pub closed spec fn next(self) -> u64 {
        self.next
    }

    /// No two jobs have the same id, and none has that of the next one.
    pub proof fn lemma_ids_differ(self)
        requires
            self.wf(),
        ensures
            forall|i: int, j: int|
                0 <= i < j < self@.len() ==> (#[trigger] self@[i]).id != (#[trigger] self@[j]).id,
            forall|i: int|
                0 <= i < self@.len() ==> (#[trigger] self@[i]).id != numbers::decimal_text(
                    self.next() as nat,
                ),
    {
        assert forall|i: int, j: int| 0 <= i < j < self@.len() implies (#[trigger] self@[i]).id != (
        #[trigger] self@[j]).id by {
            numbers::lemma_decimal_is_injective(
                self.jobs@[i].number as nat,
                self.jobs@[j].number as nat,
            );
        }
        assert forall|i: int| 0 <= i < self@.len() implies (#[trigger] self@[i]).id
            != numbers::decimal_text(self.next() as nat) by {
            numbers::lemma_decimal_is_injective(self.jobs@[i].number as nat, self.next as nat);
        }
    }

    /// Whether there is a number for another job.
    pub fn has_number(&self) -> (r: bool)
        ensures
            r == (self.next() < u64::MAX),
    {
        self.next < u64::MAX
    }

    /// Begins a job of `total` files and gives its id.
    pub fn create(&mut self, total: usize) -> (r: String)
        requires
            old(self).wf(),
            old(self).next() < u64::MAX,
        ensures
            final(self).wf(),
            final(self)@ == with_job(old(self)@, old(self).next(), total),
            final(self).next() == old(self).next() + 1,
            r@ == numbers::decimal_text(old(self).next() as nat),
    {
        let number: u64 = self.next;
        let mut left: usize = if self.jobs.len() >= MAX_JOBS {
            self.jobs.len() - MAX_JOBS + 1
        } else {
            0
        };
        let ghost s = self@;
        let mut i: usize = 0;
        assert(self@.skip(0) =~= s);
        assert(self@.take(0) + evicted(s, left as nat) =~= evicted(s, surplus(s.len())));
        while i < self.jobs.len() && left > 0
            invariant
                self.wf(),
                i <= self.jobs@.len(),
                self.next == number,
                evicted(s, surplus(s.len())) == self@.take(i as int) + evicted(
                    self@.skip(i as int),
                    left as nat,
                ),
            decreases self.jobs@.len() - i,
        {
            let ghost before = self@;
            let ghost rest = before.skip(i as int);
            proof {
                assert(rest[0] == self.jobs@[i as int].state@);
                assert(rest.skip(1) =~= before.skip(i + 1));
            }
            if same(self.jobs[i].state.status.as_str(), "running") {
                proof {
                    assert(before.take(i + 1) + evicted(before.skip(i + 1), left as nat)
                        =~= before.take(i as int) + (seq![rest[0]] + evicted(
                        rest.skip(1),
                        left as nat,
                    )));
                }
                i = i + 1;
            } else {
                self.jobs.remove(i);
                left = left - 1;
                proof {
                    assert(self@.skip(i as int) =~= before.skip(i + 1));
                    assert(self@.take(i as int) =~= before.take(i as int));
                }
            }
        }
        proof {
            assert(self@.take(i as int) + evicted(self@.skip(i as int), left as nat) =~= self@);
        }
        let status = if total == 0 {
            "done"
        } else {
            "running"
        };
        let id = decimal(number);
        let state = JobState {
            id: id.clone(),
            status: status.to_owned(),
            total,
            done: 0,
            added: Vec::new(),
            errors: Vec::new(),
        };
        assert(state@ =~= new_job(number, total));
        let ghost before = self@;
        self.jobs.push(Job { number, state });
        self.next = number + 1;
        assert(self@ =~= before.push(new_job(number, total)));
        id
    }

    /// The position of the job `id`.
    fn find(&self, id: &str) -> (r: Option<usize>)
        requires
            self.wf(),
        ensures
            match r {
                Some(i) => i < self.jobs@.len() && self@[i as int].id == id@,
                None => forall|i: int| 0 <= i < self@.len() ==> (#[trigger] self@[i]).id != id@,
            },
    {
        for i in 0..self.jobs.len()
            invariant
                forall|j: int| 0 <= j < i ==> (#[trigger] self@[j]).id != id@,
        {
            if same(self.jobs[i].state.id.as_str(), id) {
                return Some(i);
            }
        }
        None
    }

    /// The state of a job.
    pub fn get(&self, id: &str) -> (r: Option<JobState>)
        requires
            self.wf(),
        ensures
            match r {
                Some(j) => j@.id == id@ && self@.contains(j@),
                None => !is_kept(self@, id@),
            },
    {
        match self.find(id) {
            Some(i) => {
                assert(self@[i as int] == self.jobs@[i as int].state@);
                Some(self.jobs[i].state.clone())
            },
            None => None,
        }
    }

    /// The counts of a job.
    pub fn summary(&self, id: &str) -> (r: Option<JobSummary>)
        requires
            self.wf(),
        ensures
            match r {
                Some(m) => exists|i: int|
                    0 <= i < self@.len() && {
                        let j = #[trigger] self@[i];
                        &&& j.id == id@
                        &&& m.id@ == j.id
                        &&& m.status@ == j.status
                        &&& m.total == j.total
                        &&& m.done == j.done
                        &&& m.added_count == j.added.len()
                        &&& m.errors_count == j.errors.len()
                    },
                None => !is_kept(self@, id@),
            },
    {
        match self.find(id) {
            Some(i) => {
                let j = &self.jobs[i].state;
                assert(self@[i as int] == j@);
                Some(
                    JobSummary {
                        id: j.id.clone(),
                        status: j.status.clone(),
                        total: j.total,
                        done: j.done,
                        added_count: j.added.len(),
                        errors_count: j.errors.len(),
                    },
                )
            },
            None => None,
        }
    }

    /// Whether the job can count another file; true for a job that is not kept.
    pub fn can_progress(&self, id: &str) -> (r: bool)
        requires
            self.wf(),
        ensures
            r == can_count(self@, id@),
    {
        proof {
            self.lemma_ids_differ();
        }
        match self.find(id) {
            Some(i) => {
                assert(self@[i as int] == self.jobs@[i as int].state@);
                self.jobs[i].state.done < usize::MAX
            },
            None => true,
        }
    }

    /// Puts `state` in the place of the state at `i`, which has the same id.
    fn put(&mut self, i: usize, state: JobState)
        requires
            old(self).wf(),
            i < old(self)@.len(),
            state@.id == old(self)@[i as int].id,
        ensures
            final(self).wf(),
            final(self)@ == old(self)@.update(i as int, state@),
            final(self).next() == old(self).next(),
    {
        let number = self.jobs[i].number;
        let ghost before = self@;
        self.jobs.set(i, Job { number, state });
        assert(self@ =~= before.update(i as int, state@));
    }

    /// Notes that one more file of a job was dealt with: what was added, or what went
    /// wrong. When all are, the job has ended.
    pub fn progress(&mut self, id: &str, added: Option<String>, error: Option<String>)
        requires
            old(self).wf(),
            forall|i: int|
                0 <= i < old(self)@.len() && (#[trigger] old(self)@[i]).id == id@ ==> old(
                    self,
                )@[i].done < usize::MAX,
        ensures
            final(self).wf(),
            final(self).next() == old(self).next(),
            final(self)@ == old(self)@.map_values(
                |j: JobRec|
                    if j.id == id@ {
                        progressed(j, opt_text(added), opt_text(error))
                    } else {
                        j
                    },
            ),
    {
        proof {
            self.lemma_ids_differ();
        }
        let ghost s = self@;
        let ghost change = |j: JobRec|
            if j.id == id@ {
                progressed(j, opt_text(added), opt_text(error))
            } else {
                j
            };
        let ghost (a, e) = (opt_text(added), opt_text(error));
        match self.find(id) {
            Some(i) => {
                assert(s[i as int] == self.jobs@[i as int].state@);
                let mut j = self.jobs[i].state.clone();
                j.done = j.done + 1;
                if let Some(x) = added {
                    let ghost before = j.added@;
                    j.added.push(x);
                    assert(catalog::text_views(j.added@) =~= catalog::text_views(before).push(x@));
                }
                if let Some(x) = error {
                    let ghost before = j.errors@;
                    j.errors.push(x);
                    assert(catalog::text_views(j.errors@) =~= catalog::text_views(before).push(x@));
                }
                if j.done >= j.total {
                    let status = if j.errors.is_empty() {
                        "done"
                    } else {
                        "done_with_errors"
                    };
                    j.status = status.to_owned();
                }
                assert(j@ =~= progressed(s[i as int], a, e));
                self.put(i, j);
                assert(self@ =~= s.map_values(change)) by {
                    assert forall|k: int| 0 <= k < s.len() && k != i implies s[k].id != id@ by {
                        if k < i {
                            assert(s[k].id != s[i as int].id);
                        } else {
                            assert(s[i as int].id != s[k].id);
                        }
                    }
                }
            },
            None => {
                assert(self@ =~= s.map_values(change));
            },
        }
    }

    /// Notes that a job failed as a whole.
    pub fn fail(&mut self, id: &str, msg: String)
        requires
            old(self).wf(),
        ensures
            final(self).wf(),
            final(self).next() == old(self).next(),
            final(self)@ == old(self)@.map_values(
                |j: JobRec|
                    if j.id == id@ {
                        failed(j, msg@)
                    } else {
                        j
                    },
            ),
    {
        proof {
            self.lemma_ids_differ();
        }
        let ghost s = self@;
        let ghost change = |j: JobRec|
            if j.id == id@ {
                failed(j, msg@)
            } else {
                j
            };
        match self.find(id) {
            Some(i) => {
                assert(s[i as int] == self.jobs@[i as int].state@);
                let mut j = self.jobs[i].state.clone();
                j.status = "error".to_owned();
                let ghost before = j.errors@;
                let ghost m = msg@;
                j.errors.push(msg);
                assert(catalog::text_views(j.errors@) =~= catalog::text_views(before).push(m));
                assert(j@ =~= failed(s[i as int], m));
                self.put(i, j);
                assert(self@ =~= s.map_values(change)) by {
                    assert forall|k: int| 0 <= k < s.len() && k != i implies s[k].id != id@ by {
                        if k < i {
                            assert(s[k].id != s[i as int].id);
                        } else {
                            assert(s[i as int].id != s[k].id);
                        }
                    }
                }
            },
            None => {
                assert(self@ =~= s.map_values(change));
            },
        }
    }
}

/// A job that is at work never makes room for a new one.
pub proof fn law_running_jobs_are_kept(s: Seq<JobRec>, number: u64, total: usize, j: JobRec)
    requires
        s.contains(j),
        is_running(j),
    ensures
        with_job(s, number, total).contains(j),
{
    lemma_running_stays(s, surplus(s.len()), j);
    let t = evicted(s, surplus(s.len()));
    let i = choose|i: int| 0 <= i < t.len() && t[i] == j;
    assert(with_job(s, number, total)[i] == j);
}

proof fn lemma_running_stays(s: Seq<JobRec>, n: nat, j: JobRec)
    requires
        s.contains(j),
        is_running(j),
    ensures
        evicted(s, n).contains(j),
    decreases s.len(),
{
    if s.len() > 0 && n > 0 {
        let i = choose|i: int| 0 <= i < s.len() && s[i] == j;
        let rest = s.skip(1);
        if i > 0 {
            assert(rest[i - 1] == j);
            lemma_running_stays(rest, if is_running(s[0]) {
                n
            } else {
                (n - 1) as nat
            }, j);
            if is_running(s[0]) {
                let e = evicted(rest, n);
                let k = choose|k: int| 0 <= k < e.len() && e[k] == j;
                assert((seq![s[0]] + e)[k + 1] == j);
            }
        } else {
            assert((seq![s[0]] + evicted(rest, n))[0] == j);
        }
    }
}

impl Jobs {
    /// The ids of jobs are numbers that grow in the order in which the jobs came, and that of
    /// the next job is larger than all of them.
    pub proof fn law_ids_are_in_order(self, i: int, j: int)
        requires
            self.wf(),
            0 <= i < self@.len(),
            0 <= j < self@.len(),
        ensures
            self@[i].id == numbers::decimal_text(numbers::digits_value(self@[i].id)),
            i < j ==> numbers::digits_value(self@[i].id) < numbers::digits_value(self@[j].id),
            numbers::digits_value(self@[i].id) < self.next(),
    {
        assert(self@[i] == self.jobs@[i].state@ && self@[j] == self.jobs@[j].state@);
        numbers::lemma_decimal_reads_back(self.jobs@[i].number as nat);
        numbers::lemma_decimal_reads_back(self.jobs@[j].number as nat);
    }

    /// A new job changes no other. Below the limit all of them stay; what makes room at the
    /// limit has ended, and is older than every ended job that stays.
    pub proof fn law_a_new_job_makes_room(self, total: usize, gone: JobRec, stays: JobRec)
        requires
            self.wf(),
        ensures
            ({
                let after = with_job(self@, self.next(), total);
                &&& self@.len() < MAX_JOBS ==> after == self@.push(new_job(self.next(), total))
                &&& after.contains(stays) ==> self@.contains(stays) || stays == new_job(
                    self.next(),
                    total,
                )
                &&& self@.contains(gone) && !after.contains(gone) ==> !is_running(gone)
                &&& self@.contains(gone) && !after.contains(gone) && after.contains(stays)
                    && !is_running(stays) ==> numbers::digits_value(gone.id)
                    < numbers::digits_value(stays.id)
            }),
    {
        let s = self@;
        let n = surplus(s.len());
        let e = evicted(s, n);
        let new = new_job(self.next(), total);
        let after = with_job(s, self.next(), total);
        lemma_evicted_from(s, n);
        if s.contains(gone) && !after.contains(gone) && is_running(gone) {
            law_running_jobs_are_kept(s, self.next(), total, gone);
        }
        if after.contains(stays) {
            let q = choose|q: int| 0 <= q < after.len() && after[q] == stays;
            if q < e.len() {
                assert(e[q] == stays);
                assert(e.contains(stays));
            } else {
                assert(stays == new);
            }
        }
        if s.contains(gone) && !after.contains(gone) && after.contains(stays) && !is_running(
            stays,
        ) {
            let i = choose|i: int| 0 <= i < s.len() && s[i] == gone;
            if e.contains(stays) {
                let j = choose|j: int| 0 <= j < s.len() && s[j] == stays;
                if j < i {
                    self.lemma_ids_differ();
                    assert(s.no_duplicates()) by {
                        assert forall|a: int, b: int|
                            0 <= a < s.len() && 0 <= b < s.len() && a != b implies s[a]
                            != s[b] by {
                            if a < b {
                                assert(s[a].id != s[b].id);
                            } else {
                                assert(s[b].id != s[a].id);
                            }
                        }
                    }
                    law_the_oldest_ended_jobs_go_first(s, n, j, i);
                }
                if j <= i {
                    let q = choose|q: int| 0 <= q < e.len() && e[q] == gone;
                    assert(after[q] == gone);
                }
                self.law_ids_are_in_order(i, j);
            } else {
                numbers::lemma_decimal_reads_back(self.next() as nat);
                self.law_ids_are_in_order(i, i);
            }
        }
    }
}

/// A new job is found under its id as it began, and no job before it had that id: `given` is
/// the number of any job that began before.
pub proof fn law_a_new_job_is_found(before: Jobs, after: Jobs, total: usize, j: JobRec, given: u64)
    requires
        before.wf(),
        after.wf(),
        after@ == with_job(before@, before.next(), total),
        given < before.next(),
    ensures
        after@.contains(new_job(before.next(), total)),
        after@.contains(j) && j.id == new_job(before.next(), total).id ==> j == new_job(
            before.next(),
            total,
        ),
        new_job(given, total).id != new_job(before.next(), total).id,
{
    let new = new_job(before.next(), total);
    let n = after@.len() - 1;
    assert(after@[n] == new);
    after.lemma_ids_differ();
    if after@.contains(j) && j.id == new.id {
        let i = choose|i: int| 0 <= i < after@.len() && after@[i] == j;
        if i < n {
            assert(after@[i].id != after@[n].id);
        }
    }
    numbers::lemma_decimal_is_injective(given as nat, before.next() as nat);
}

/// What `progress` was told, call by call: the file that was added, and what went wrong.
pub type Calls = Seq<(Option<Seq<char>>, Option<Seq<char>>)>;

/// A job after some of its files were dealt with, one after the other.
pub open spec fn progressed_by(j: JobRec, calls: Calls) -> JobRec
    decreases calls.len(),
{
    if calls.len() == 0 {
        j
    } else {
        progressed(progressed_by(j, calls.drop_last()), calls.last().0, calls.last().1)
    }
}

/// The jobs after some files of the job `id` were dealt with, one after the other.
pub open spec fn all_progressed_by(s: Seq<JobRec>, id: Seq<char>, calls: Calls) -> Seq<JobRec>
    decreases calls.len(),
{
    if calls.len() == 0 {
        s
    } else {
        all_progressed_by(s, id, calls.drop_last()).map_values(
            |j: JobRec|
                if j.id == id {
                    progressed(j, calls.last().0, calls.last().1)
                } else {
                    j
                },
        )
    }
}

/// Something went wrong in one of the calls.
pub open spec fn some_failed(calls: Calls) -> bool {
    exists|i: int| 0 <= i < calls.len() && (#[trigger] calls[i]).1 is Some
}

/// Progress reaches the job that it is told of, and no other.
pub proof fn law_progress_reaches_one_job(s: Seq<JobRec>, id: Seq<char>, calls: Calls, i: int)
    requires
        0 <= i < s.len(),
    ensures
        all_progressed_by(s, id, calls).len() == s.len(),
        all_progressed_by(s, id, calls)[i] == if s[i].id == id {
            progressed_by(s[i], calls)
        } else {
            s[i]
        },
        progressed_by(s[i], calls).id == s[i].id,
    decreases calls.len(),
{
    if calls.len() > 0 {
        law_progress_reaches_one_job(s, id, calls.drop_last(), i);
    }
}

/// After `k` calls a new job of `n` files has dealt with `k`. It is at work while `k` is
/// smaller than `n`; then it has ended, well where nothing went wrong, else with errors.
pub proof fn law_a_job_runs_until_its_last_file(number: u64, total: usize, calls: Calls)
    requires
        calls.len() <= usize::MAX,
    ensures
        ({
            let j = progressed_by(new_job(number, total), calls);
            &&& j.id == numbers::decimal_text(number as nat)
            &&& j.total == total
            &&& j.done == calls.len()
            &&& is_running(j) <==> calls.len() < total
            &&& j.errors.len() == 0 <==> !some_failed(calls)
            &&& calls.len() >= total ==> j.status == (if some_failed(calls) {
                "done_with_errors"@
            } else {
                "done"@
            })
        }),
    decreases calls.len(),
{
    reveal_strlit("running");
    reveal_strlit("done");
    reveal_strlit("done_with_errors");
    assert("running"@.len() == 7 && "done"@.len() == 4 && "done_with_errors"@.len() == 16);
    if calls.len() > 0 {
        let before = calls.drop_last();
        law_a_job_runs_until_its_last_file(number, total, before);
        if some_failed(before) {
            let i = choose|i: int| 0 <= i < before.len() && (#[trigger] before[i]).1 is Some;
            assert(calls[i].1 is Some);
        }
        if calls.last().1 is Some {
            assert(calls[calls.len() - 1].1 is Some);
        }
        if some_failed(calls) && calls.last().1 is None {
            let i = choose|i: int| 0 <= i < calls.len() && (#[trigger] calls[i]).1 is Some;
            assert(before[i].1 is Some);
        }
    }
}

/// A job ends with its last file: well where nothing went wrong, else with errors. Before
/// that it goes on.
pub proof fn law_a_job_ends_with_its_last_file(
    j: JobRec,
    added: Option<Seq<char>>,
    error: Option<Seq<char>>,
)
    requires
        is_running(j),
    ensures
        is_running(progressed(j, added, error)) <==> j.done + 1 < j.total,
        j.done + 1 >= j.total ==> (progressed(j, added, error).status == "done"@ <==> progressed(
            j,
            added,
            error,
        ).errors.len() == 0),
{
    reveal_strlit("running");
    reveal_strlit("done");
    reveal_strlit("done_with_errors");
    assert("running"@.len() == 7 && "done"@.len() == 4 && "done_with_errors"@.len() == 16);
}

/// Every file of a job is accounted for, as added or as an error.
pub proof fn law_each_file_is_accounted_for(
    j: JobRec,
    added: Option<Seq<char>>,
    error: Option<Seq<char>>,
)
    requires
        j.done == j.added.len() + j.errors.len(),
        j.done < usize::MAX,
        added is Some <==> error is None,
    ensures
        ({
            let k = progressed(j, added, error);
            k.done == k.added.len() + k.errors.len()
        }),
{
}

/// The number of jobs is bounded: it exceeds the limit only while all but the new one are
/// at work.
pub proof fn law_jobs_are_bounded(s: Seq<JobRec>, number: u64, total: usize)
    ensures
        with_job(s, number, total).len() <= MAX_JOBS || forall|i: int|
            0 <= i < with_job(s, number, total).len() - 1 ==> is_running(
                #[trigger] with_job(s, number, total)[i],
            ),
{
    lemma_evicted_len(s, surplus(s.len()));
    let t = evicted(s, surplus(s.len()));
    assert forall|i: int| 0 <= i < t.len() implies with_job(s, number, total)[i] == t[i] by {}
}

proof fn lemma_evicted_len(s: Seq<JobRec>, n: nat)
    ensures
        evicted(s, n).len() + n <= s.len() || forall|i: int|
            0 <= i < evicted(s, n).len() ==> is_running(#[trigger] evicted(s, n)[i]),
    decreases s.len(),
{
    if s.len() > 0 && n > 0 {
        let rest = s.skip(1);
        if is_running(s[0]) {
            lemma_evicted_len(rest, n);
            assert forall|i: int| 0 < i < evicted(s, n).len() implies #[trigger] evicted(s, n)[i]
                == evicted(rest, n)[i - 1] by {}
        } else {
            lemma_evicted_len(rest, (n - 1) as nat);
        }
    }
}

/// What makes room is older than every ended job that is kept: where an ended job goes,
/// all ended jobs before it go too.
pub proof fn law_the_oldest_ended_jobs_go_first(s: Seq<JobRec>, n: nat, i: int, j: int)
    requires
        0 <= i < j < s.len(),
        s.no_duplicates(),
        !is_running(s[i]),
        !is_running(s[j]),
        evicted(s, n).contains(s[i]),
    ensures
        evicted(s, n).contains(s[j]),
    decreases s.len(),
{
    if n > 0 {
        let rest = s.skip(1);
        let m = if is_running(s[0]) {
            n
        } else {
            (n - 1) as nat
        };
        if i == 0 {
            lemma_evicted_from(rest, m);
            let e = evicted(rest, m);
            let k = choose|k: int| 0 <= k < e.len() && e[k] == s[0];
            assert(e.contains(e[k]));
            let r = choose|r: int| 0 <= r < rest.len() && rest[r] == s[0];
            assert(s[r + 1] == s[0]);
        } else {
            let e = evicted(rest, m);
            let full = evicted(s, n);
            let k = choose|k: int| 0 <= k < full.len() && full[k] == s[i];
            if is_running(s[0]) {
                assert(k > 0);
                assert(e[k - 1] == s[i]);
            } else {
                assert(e[k] == s[i]);
            }
            assert(rest[i - 1] == s[i] && rest[j - 1] == s[j]);
            assert(rest.no_duplicates());
            law_the_oldest_ended_jobs_go_first(rest, m, i - 1, j - 1);
            let q = choose|q: int| 0 <= q < e.len() && e[q] == s[j];
            if is_running(s[0]) {
                assert(full[q + 1] == s[j]);
            } else {
                assert(full[q] == s[j]);
            }
        }
    }
}

proof fn lemma_evicted_from(s: Seq<JobRec>, n: nat)
    ensures
        forall|x: JobRec| #[trigger] evicted(s, n).contains(x) ==> s.contains(x),
    decreases s.len(),
{
    if s.len() > 0 && n > 0 {
        let rest = s.skip(1);
        let m = if is_running(s[0]) {
            n
        } else {
            (n - 1) as nat
        };
        lemma_evicted_from(rest, m);
        assert forall|x: JobRec| #[trigger] evicted(s, n).contains(x) implies s.contains(x) by {
            let full = evicted(s, n);
            let k = choose|k: int| 0 <= k < full.len() && full[k] == x;
            if is_running(s[0]) && k == 0 {
                assert(s[0] == x);
            } else {
                let e = evicted(rest, m);
                if is_running(s[0]) {
                    assert(e[k - 1] == x);
                } else {
                    assert(e[k] == x);
                }
                assert(e.contains(x));
                let r = choose|r: int| 0 <= r < rest.len() && rest[r] == x;
                assert(s[r + 1] == x);
            }
        }
    }
}

} // verus!
