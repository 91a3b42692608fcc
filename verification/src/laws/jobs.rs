//! Jobs: how they begin, count and end.

use crate::jobs;
use crate::jobs::{JobRec, JobState, JobSummary, Jobs};
use crate::numbers;
use vstd::prelude::*;
use vstd::string::*;

verus! {

/// The state is seen as the values of its fields.
pub proof fn law_a_state_is_seen_as_it_is(j: JobState)
    ensures
        j@.id == j.id@ && j@.status == j.status@,
        j@.total == j.total && j@.done == j.done,
        j@.added.len() == j.added@.len() && j@.errors.len() == j.errors@.len(),
        forall|i: int| 0 <= i < j.added@.len() ==> j@.added[i] == (#[trigger] j.added@[i])@,
        forall|i: int| 0 <= i < j.errors@.len() ==> j@.errors[i] == (#[trigger] j.errors@[i])@,
{
}

/// There are no jobs at first.
pub proof fn law_at_first_there_are_no_jobs(r: Jobs, id: &str, j: Option<JobState>)
    requires
        call_ensures(<Jobs as Default>::default, (), r),
        call_ensures(Jobs::get, (&r, id), j),
    ensures
        j is None,
        r@.len() == 0,
{
}

/// A job is found under its id, and no other one is.
pub proof fn law_a_job_is_found_under_its_id(jobs: &Jobs, id: &str, i: int, r: Option<JobState>)
    requires
        call_ensures(Jobs::get, (jobs, id), r),
        jobs.wf(),
    ensures
        r is Some ==> r->0.id@ == id@ && jobs@.contains(r->0@),
        0 <= i < jobs@.len() && jobs@[i].id == id@ ==> r is Some && r->0@ == jobs@[i],
{
    jobs.lemma_ids_differ();
    if 0 <= i < jobs@.len() && jobs@[i].id == id@ {
        assert(jobs@[i].id == id@);
        assert(r is Some);
        assert(jobs@.contains(r->0@));
        let k = choose|k: int| 0 <= k < jobs@.len() && jobs@[k] == r->0@;
        assert(jobs@[k].id == id@);
        if k < i {
            assert(jobs@[k].id != jobs@[i].id);
        }
        if i < k {
            assert(jobs@[i].id != jobs@[k].id);
        }
    }
}

/// The counts of a job are those of its state.
pub proof fn law_the_counts_are_those_of_the_state(
    jobs: &Jobs,
    id: &str,
    r: Option<JobState>,
    m: Option<JobSummary>,
)
    requires
        call_ensures(Jobs::get, (jobs, id), r),
        call_ensures(Jobs::summary, (jobs, id), m),
        jobs.wf(),
    ensures
        r is Some <==> m is Some,
        r is Some ==> {
            let (j, c) = (r->0, m->0);
            &&& c.id@ == j.id@
            &&& c.status@ == j.status@
            &&& c.total == j.total
            &&& c.done == j.done
            &&& c.added_count == j.added@.len()
            &&& c.errors_count == j.errors@.len()
        },
{
    if r is Some {
        let k = choose|k: int| 0 <= k < jobs@.len() && jobs@[k] == r->0@;
        assert(jobs@[k].id == id@);
        let s = jobs@;
        let i = choose|i: int|
            0 <= i < s.len() && {
                let j = #[trigger] s[i];
                &&& j.id == id@
                &&& m->0.id@ == j.id
                &&& m->0.status@ == j.status
                &&& m->0.total == j.total
                &&& m->0.done == j.done
                &&& m->0.added_count == j.added.len()
                &&& m->0.errors_count == j.errors.len()
            };
        law_a_job_is_found_under_its_id(jobs, id, i, r);
    }
}

proof fn lemma_evicted_leaves(s: Seq<JobRec>, n: nat)
    ensures
        jobs::evicted(s, n).len() + n >= s.len(),
        jobs::evicted(s, n).len() <= s.len(),
    decreases s.len(),
{
    if s.len() > 0 && n > 0 {
        if jobs::is_running(s[0]) {
            lemma_evicted_leaves(s.skip(1), n);
        } else {
            lemma_evicted_leaves(s.skip(1), (n - 1) as nat);
        }
    }
}

/// A job that begins is the newest, with an id that no other one has, its total, and nothing
/// done yet. Without files it has ended at once.
pub proof fn law_a_job_begins(jobs: &mut Jobs, total: usize, r: String)
    requires
        call_ensures(Jobs::create, (jobs, total), r),
        old(jobs).wf(),
    ensures
        final(jobs)@.len() > 0,
        ({
            let j = final(jobs)@.last();
            &&& j.id == r@
            &&& j.total == total
            &&& j.done == 0
            &&& j.added.len() == 0 && j.errors.len() == 0
            &&& total == 0 ==> j.status == "done"@
            &&& total > 0 ==> j.status == "running"@
        }),
        forall|i: int| 0 <= i < old(jobs)@.len() ==> (#[trigger] old(jobs)@[i]).id != r@,
{
    old(jobs).lemma_ids_differ();
}

/// Jobs are numbered one after the other, from 0 on, whatever became of those before.
pub proof fn law_jobs_are_numbered(
    jobs: &mut Jobs,
    later: &mut Jobs,
    total: usize,
    more: usize,
    r: String,
    q: String,
    first: Jobs,
)
    requires
        call_ensures(Jobs::create, (jobs, total), r),
        call_ensures(Jobs::create, (later, more), q),
        call_ensures(<Jobs as Default>::default, (), first),
        old(jobs).wf(),
        old(later).wf(),
        old(later).next() == final(jobs).next(),
        old(jobs).next() < u64::MAX,
    ensures
        numbers::all_digits(r@) && numbers::all_digits(q@),
        numbers::digits_value(q@) == numbers::digits_value(r@) + 1,
        old(jobs).next() == first.next() ==> r@ == seq!['0'],
{
    numbers::lemma_decimal_reads_back(old(jobs).next() as nat);
    numbers::lemma_decimal_reads_back(old(later).next() as nat);
}

/// What becomes of a job uses up no number.
pub proof fn law_progress_uses_up_no_number(
    jobs: &mut Jobs,
    id: &str,
    added: Option<String>,
    error: Option<String>,
    msg: String,
)
    requires
        call_ensures(Jobs::progress, (jobs, id, added, error), ()) || call_ensures(
            Jobs::fail,
            (jobs, id, msg),
            (),
        ),
        old(jobs).wf(),
    ensures
        final(jobs).next() == old(jobs).next(),
{
}

/// With a new job those at work are kept as they are, and so are all while there are fewer than
/// fifty. Otherwise as many that have ended go as make room for it, but no more, the oldest
/// first.
pub proof fn law_old_jobs_make_room(
    jobs: &mut Jobs,
    total: usize,
    r: String,
    gone: JobRec,
    stays: JobRec,
)
    requires
        call_ensures(Jobs::create, (jobs, total), r),
        old(jobs).wf(),
    ensures
        ({
            let (s, e) = (old(jobs)@, final(jobs)@.drop_last());
            &&& s.len() < 50 ==> e == s
            &&& s.len() >= 50 ==> 49 <= e.len() <= s.len()
            &&& s.len() >= 50 && e.len() > 49 ==> forall|i: int|
                0 <= i < e.len() ==> (#[trigger] e[i]).status == "running"@
            &&& e.contains(stays) ==> s.contains(stays)
            &&& s.contains(stays) && stays.status == "running"@ ==> e.contains(stays)
            &&& s.contains(gone) && !e.contains(gone) && e.contains(stays) && stays.status
                != "running"@ ==> numbers::digits_value(gone.id) < numbers::digits_value(stays.id)
        }),
{
    let s = old(jobs)@;
    let u = final(jobs)@;
    let e = u.drop_last();
    let new = jobs::new_job(old(jobs).next(), total);
    let kept = jobs::evicted(s, jobs::surplus(s.len()));
    assert(e =~= kept);
    lemma_evicted_leaves(s, jobs::surplus(s.len()));
    old(jobs).lemma_ids_differ();
    old(jobs).law_a_new_job_makes_room(total, gone, stays);
    jobs::law_jobs_are_bounded(s, old(jobs).next(), total);
    assert(u == jobs::with_job(s, old(jobs).next(), total));
    assert(u.len() == e.len() + 1);
    if s.len() < 50 {
        assert(u == s.push(new));
        assert(e =~= s);
    } else if e.len() > 49 {
        assert forall|i: int| 0 <= i < e.len() implies (#[trigger] e[i]).status == "running"@ by {
            assert(jobs::is_running(jobs::with_job(s, old(jobs).next(), total)[i]));
        }
    }
    if e.contains(stays) {
        let i = choose|i: int| 0 <= i < e.len() && e[i] == stays;
        assert(u[i] == stays);
        assert(u.contains(stays));
        lemma_evicted_is_part(s, jobs::surplus(s.len()), stays);
    }
    if s.contains(stays) && stays.status == "running"@ {
        jobs::law_running_jobs_are_kept(s, old(jobs).next(), total, stays);
        let i = choose|i: int| 0 <= i < u.len() && u[i] == stays;
        if i < e.len() {
            assert(e[i] == stays);
        } else {
            let k = choose|k: int| 0 <= k < s.len() && s[k] == stays;
            assert(s[k].id != new.id);
        }
    }
    if s.contains(gone) && !e.contains(gone) {
        let k = choose|k: int| 0 <= k < s.len() && s[k] == gone;
        assert(s[k].id != new.id);
        if u.contains(gone) {
            let i = choose|i: int| 0 <= i < u.len() && u[i] == gone;
            assert(i < e.len());
            assert(e[i] == gone);
        }
    }
}

proof fn lemma_evicted_is_part(s: Seq<JobRec>, n: nat, j: JobRec)
    requires
        jobs::evicted(s, n).contains(j),
    ensures
        s.contains(j),
    decreases s.len(),
{
    let e = jobs::evicted(s, n);
    let i = choose|i: int| 0 <= i < e.len() && e[i] == j;
    if s.len() == 0 || n == 0 {
    } else if jobs::is_running(s[0]) {
        if i == 0 {
            assert(s[0] == j);
        } else {
            assert(jobs::evicted(s.skip(1), n)[i - 1] == j);
            lemma_evicted_is_part(s.skip(1), n, j);
            let k = choose|k: int| 0 <= k < s.skip(1).len() && s.skip(1)[k] == j;
            assert(s[k + 1] == j);
        }
    } else {
        lemma_evicted_is_part(s.skip(1), (n - 1) as nat, j);
        let k = choose|k: int| 0 <= k < s.skip(1).len() && s.skip(1)[k] == j;
        assert(s[k + 1] == j);
    }
}

/// `k` is `j` after one more file: it counts as done, and what was added or went wrong stands
/// at the end of its list. With the last file the job has ended, well or with errors.
pub open spec fn counts_one_more(
    j: JobRec,
    k: JobRec,
    added: Option<Seq<char>>,
    error: Option<Seq<char>>,
) -> bool {
    &&& k.id == j.id
    &&& k.total == j.total
    &&& k.done == j.done + 1
    &&& added is Some ==> k.added == j.added.push(added->0)
    &&& added is None ==> k.added == j.added
    &&& error is Some ==> k.errors == j.errors.push(error->0)
    &&& error is None ==> k.errors == j.errors
    &&& k.done < k.total ==> k.status == j.status
    &&& k.done >= k.total && k.errors.len() == 0 ==> k.status == "done"@
    &&& k.done >= k.total && k.errors.len() > 0 ==> k.status == "done_with_errors"@
}

/// One more file of a job counts for it and for no other.
pub proof fn law_one_more_file_is_done(
    jobs: &mut Jobs,
    id: &str,
    added: Option<String>,
    error: Option<String>,
    i: int,
)
    requires
        call_ensures(Jobs::progress, (jobs, id, added, error), ()),
        old(jobs).wf(),
        0 <= i < old(jobs)@.len(),
        old(jobs)@[i].done < usize::MAX,
    ensures
        final(jobs)@.len() == old(jobs)@.len(),
        old(jobs)@[i].id != id@ ==> final(jobs)@[i] == old(jobs)@[i],
        old(jobs)@[i].id == id@ ==> counts_one_more(
            old(jobs)@[i],
            final(jobs)@[i],
            match added {
                Some(s) => Some(s@),
                None => None,
            },
            match error {
                Some(s) => Some(s@),
                None => None,
            },
        ),
{
}

/// A job that fails as a whole has ended with an error, whose message stands behind those that
/// it had. What it did stays, and so do the others.
pub proof fn law_a_job_fails(jobs: &mut Jobs, id: &str, msg: String, i: int)
    requires
        call_ensures(Jobs::fail, (jobs, id, msg), ()),
        old(jobs).wf(),
        0 <= i < old(jobs)@.len(),
    ensures
        final(jobs)@.len() == old(jobs)@.len(),
        old(jobs)@[i].id != id@ ==> final(jobs)@[i] == old(jobs)@[i],
        old(jobs)@[i].id == id@ ==> {
            let (j, k) = (old(jobs)@[i], final(jobs)@[i]);
            &&& k.status == "error"@
            &&& k.errors == j.errors.push(msg@)
            &&& k.id == j.id && k.total == j.total && k.done == j.done && k.added == j.added
        },
{
}

/// A job can count another file where it is not kept, or has counted fewer than can be counted.
/// A job can begin where there is a number left.
pub proof fn law_whether_jobs_can_go_on(
    jobs: &Jobs,
    id: &str,
    j: Option<JobState>,
    r: bool,
    n: bool,
)
    requires
        call_ensures(Jobs::get, (jobs, id), j),
        call_ensures(Jobs::can_progress, (jobs, id), r),
        call_ensures(Jobs::has_number, (jobs,), n),
        jobs.wf(),
    ensures
        r <==> j is None || j->0.done < usize::MAX,
        n <==> jobs.next() < u64::MAX,
{
    jobs.lemma_ids_differ();
    if j is Some {
        let k = choose|k: int| 0 <= k < jobs@.len() && jobs@[k] == j->0@;
        assert(jobs@[k].id == id@);
        assert(jobs::can_count(jobs@, id@) <==> jobs@[k].done < usize::MAX) by {
            if jobs@[k].done < usize::MAX {
                assert forall|i: int|
                    0 <= i < jobs@.len() && (#[trigger] jobs@[i]).id == id@ implies jobs@[i].done < usize::MAX by {
                    if i < k {
                        assert(jobs@[i].id != jobs@[k].id);
                    }
                    if k < i {
                        assert(jobs@[k].id != jobs@[i].id);
                    }
                }
            }
        }
    }
}

} // verus!
