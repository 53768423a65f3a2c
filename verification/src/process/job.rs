//! The job table: the pipelines the shell started in the background or
//! that were stopped, each with an id that is never given out twice.

use vstd::prelude::*;

use crate::text::{append_str, copy_string, usize_to_string};

verus! {

/// Where a job stands.
#[derive(Debug, Clone, Copy, PartialEq, Eq, Structural)]
pub enum JobStatus {
    Running,
    Stopped,
    /// Exited with this status.
    Exited(i32),
    /// Killed by the signal with this number.
    Signaled(i32),
}

/// A job: its id, the process group it runs in, the command line it ran.
pub struct Job {
    pub id: usize,
    pub pgid: i32,
    pub command: String,
    pub status: JobStatus,
}

/// A job as values.
pub struct JobView {
    pub id: usize,
    pub pgid: i32,
    pub command: Seq<char>,
    pub status: JobStatus,
}

impl Job {
    pub open spec fn view(&self) -> JobView {
        JobView { id: self.id, pgid: self.pgid, command: self.command@, status: self.status }
    }
}

/// The views of a list of jobs.
pub open spec fn jobs_view(v: Seq<Job>) -> Seq<JobView> {
    v.map_values(|j: Job| j.view())
}

/// A job that has not finished.
pub open spec fn is_active(s: JobStatus) -> bool {
    s == JobStatus::Running || s == JobStatus::Stopped
}

/// The jobs of `js` that have not finished, in order.
pub open spec fn active_only(js: Seq<JobView>) -> Seq<JobView>
    decreases js.len(),
{
    if js.len() == 0 {
        Seq::empty()
    } else if is_active(js.last().status) {
        active_only(js.drop_last()).push(js.last())
    } else {
        active_only(js.drop_last())
    }
}

/// The test by which `jobs` keeps a job: it is running or stopped.
pub open spec fn active_pred() -> spec_fn(JobView) -> bool {
    |j: JobView| is_active(j.status)
}

/// `active_only` keeps the running and stopped jobs, in their order.
pub proof fn lemma_active_only_filters(js: Seq<JobView>)
    ensures
        active_only(js) == js.filter(active_pred()),
    decreases js.len(),
{
    reveal(Seq::filter);
    if js.len() > 0 {
        lemma_active_only_filters(js.drop_last());
    }
}

/// The ids of `js` increase strictly and stay below `next`.
pub open spec fn ids_ordered(js: Seq<JobView>, next: usize) -> bool {
    &&& forall|i: int, j: int| 0 <= i < j < js.len() ==> js[i].id < js[j].id
    &&& forall|i: int| 0 <= i < js.len() ==> 1 <= #[trigger] js[i].id < next
}

/// The position of the first job of `js` in process group `pgid`.
pub open spec fn first_in_group(js: Seq<JobView>, pgid: i32, i: int) -> Option<int>
    decreases js.len() - i,
{
    if i < 0 || i >= js.len() {
        None
    } else if js[i].pgid == pgid {
        Some(i)
    } else {
        first_in_group(js, pgid, i + 1)
    }
}

/// The position of the last stopped job of `js` before position `n`.
pub open spec fn last_stopped_before(js: Seq<JobView>, n: int) -> Option<int>
    decreases n,
{
    if n <= 0 || n > js.len() {
        None
    } else if js[n - 1].status == JobStatus::Stopped {
        Some(n - 1)
    } else {
        last_stopped_before(js, n - 1)
    }
}

/// With no stopped job among the first `n`, there is none to resume.
pub proof fn lemma_none_stopped(js: Seq<JobView>, n: int)
    requires
        forall|i: int| 0 <= i < js.len() ==> #[trigger] js[i].status != JobStatus::Stopped,
    ensures
        last_stopped_before(js, n) is None,
    decreases n,
{
    if 0 < n <= js.len() {
        lemma_none_stopped(js, n - 1);
    }
}

/// The jobs the shell knows of.
pub struct JobTable {
    jobs: Vec<Job>,
    next_id: usize,
}

impl JobTable {
    /// The jobs, in the order they were added.
    pub closed spec fn view(&self) -> Seq<JobView> {
        jobs_view(self.jobs@)
    }

    /// The id the next job gets.
    pub closed spec fn next(&self) -> usize {
        self.next_id
    }

    #[verifier::type_invariant]
    spec fn ordered(&self) -> bool {
        self.next_id >= 1 && ids_ordered(self.view(), self.next_id)
    }

    /// An empty table; the first job gets id 1.
    pub fn new() -> (t: Self)
        ensures
            t.view() == Seq::<JobView>::empty(),
            t.next() == 1,
            ids_ordered(t.view(), t.next()),
    {
        let t = JobTable { jobs: Vec::new(), next_id: 1 };
        assert(t.view() =~= Seq::<JobView>::empty());
        t
    }

    /// The number of jobs.
    pub fn len(&self) -> (n: usize)
        ensures
            n == self.view().len(),
    {
        self.jobs.len()
    }

    /// The job at `i`.
    pub fn job(&self, i: usize) -> (j: &Job)
        requires
            i < self.view().len(),
        ensures
            j.view() == self.view()[i as int],
    {
        &self.jobs[i]
    }

    /// Adds a running job in process group `pgid` that runs `command`;
    /// gives its id, the next one in order.
    pub fn add(&mut self, pgid: i32, command: String) -> (id: usize)
        requires
            old(self).next() < usize::MAX,
        ensures
            id == old(self).next(),
            final(self).next() == old(self).next() + 1,
            final(self).view() == old(self).view().push(
                JobView { id, pgid, command: command@, status: JobStatus::Running },
            ),
            ids_ordered(old(self).view(), old(self).next()),
            ids_ordered(final(self).view(), final(self).next()),
    {
        proof {
            use_type_invariant(&*self);
        }
        let id = self.next_id;
        let ghost before = self.view();
        let mut jobs = Vec::new();
        std::mem::swap(&mut jobs, &mut self.jobs);
        jobs.push(Job { id, pgid, command, status: JobStatus::Running });
        let ghost after = jobs_view(jobs@);
        assert(after =~= before.push(JobView { id, pgid, command: command@, status: JobStatus::Running }));
        self.next_id = id + 1;
        self.jobs = jobs;
        proof {
            use_type_invariant(&*self);
        }
        id
    }

    /// The id the next job gets.
    pub fn next_id(&self) -> (n: usize)
        ensures
            n == self.next(),
    {
        self.next_id
    }

    /// Sets the status of the first job in process group `pgid`, if any.
    pub fn update_status(&mut self, pgid: i32, status: JobStatus)
        ensures
            final(self).next() == old(self).next(),
            match first_in_group(old(self).view(), pgid, 0) {
                Some(i) => final(self).view() == old(self).view().update(
                    i,
                    JobView { status, ..old(self).view()[i] },
                ),
                None => final(self).view() == old(self).view(),
            },
            ids_ordered(final(self).view(), final(self).next()),
    {
        proof {
            use_type_invariant(&*self);
        }
        let ghost v0 = self.view();
        let mut i: usize = 0;
        while i < self.jobs.len()
            invariant
                i <= self.jobs@.len(),
                self.view() == v0,
                v0 == old(self).view(),
                self.next() == old(self).next(),
                first_in_group(v0, pgid, i as int) == first_in_group(v0, pgid, 0),
            decreases self.jobs@.len() - i,
        {
            if self.jobs[i].pgid == pgid {
                self.set_status(i, status);
                return;
            }
            i = i + 1;
        }
        proof {
            use_type_invariant(&*self);
        }
    }

    /// Sets the status of the job at `i`.
    pub fn set_status(&mut self, i: usize, status: JobStatus)
        requires
            i < old(self).view().len(),
        ensures
            final(self).next() == old(self).next(),
            final(self).view() == old(self).view().update(
                i as int,
                JobView { status, ..old(self).view()[i as int] },
            ),
            ids_ordered(final(self).view(), final(self).next()),
    {
        proof {
            use_type_invariant(&*self);
        }
        let ghost before = self.view();
        let mut jobs = Vec::new();
        std::mem::swap(&mut jobs, &mut self.jobs);
        let old_job = &jobs[i];
        let job = Job {
            id: old_job.id,
            pgid: old_job.pgid,
            command: copy_string(&old_job.command),
            status,
        };
        jobs.set(i, job);
        let ghost after = jobs_view(jobs@);
        assert(after =~= before.update(i as int, JobView { status, ..before[i as int] }));
        self.jobs = jobs;
        proof {
            use_type_invariant(&*self);
        }
    }

    /// Drops the jobs that have finished; the others stay, in order.
    pub fn cleanup_finished(&mut self)
        ensures
            final(self).next() == old(self).next(),
            final(self).view() == active_only(old(self).view()),
            ids_ordered(final(self).view(), final(self).next()),
    {
        proof {
            use_type_invariant(&*self);
        }
        let ghost v0 = self.view();
        let ghost next = self.next_id;
        let mut old_jobs = Vec::new();
        std::mem::swap(&mut old_jobs, &mut self.jobs);
        let mut kept: Vec<Job> = Vec::new();
        let mut i: usize = 0;
        while i < old_jobs.len()
            invariant
                i <= old_jobs@.len(),
                jobs_view(old_jobs@) == v0,
                ids_ordered(v0, next),
                jobs_view(kept@) == active_only(v0.subrange(0, i as int)),
                forall|a: int|
                    0 <= a < kept@.len() ==> exists|b: int|
                        0 <= b < i && v0[b] == #[trigger] jobs_view(kept@)[a],
                forall|a: int, b: int|
                    0 <= a < kept@.len() && i <= b < v0.len() ==> kept@[a].id < v0[b].id,
            decreases old_jobs@.len() - i,
        {
            let ghost pre = v0.subrange(0, i as int);
            assert(v0.subrange(0, i + 1).drop_last() =~= pre);
            let st = old_jobs[i].status;
            if st == JobStatus::Running || st == JobStatus::Stopped {
                let ghost kv = jobs_view(kept@);
                let j = &old_jobs[i];
                kept.push(Job { id: j.id, pgid: j.pgid, command: copy_string(&j.command), status: j.status });
                assert(jobs_view(kept@) =~= kv.push(v0[i as int]));
            }
            i = i + 1;
        }
        assert(v0.subrange(0, v0.len() as int) =~= v0);
        proof {
            let kv = jobs_view(kept@);
            assert forall|a: int, b: int| 0 <= a < b < kv.len() implies kv[a].id < kv[b].id by {
                assert(kv[a].id == kept@[a].id);
                assert(kv[b].id == kept@[b].id);
                lemma_active_increasing(v0, next, a, b);
            }
            assert forall|a: int| 0 <= a < kv.len() implies 1 <= #[trigger] kv[a].id < next by {
                let b = choose|b: int| 0 <= b < v0.len() && v0[b] == kv[a];
            }
        }
        self.jobs = kept;
        proof {
            use_type_invariant(&*self);
        }
    }

    /// The position of the most recently added stopped job.
    pub fn last_stopped(&self) -> (r: Option<usize>)
        ensures
            match last_stopped_before(self.view(), self.view().len() as int) {
                Some(i) => r == Some(i as usize),
                None => r is None,
            },
            r matches Some(i) ==> i < self.view().len() && self.view()[i as int].status
                == JobStatus::Stopped && forall|j: int|
                i < j < self.view().len() ==> #[trigger] self.view()[j].status != JobStatus::Stopped,
            r is None ==> forall|j: int|
                0 <= j < self.view().len() ==> #[trigger] self.view()[j].status != JobStatus::Stopped,
    {
        proof {
            law_last_stopped_is_the_latest(self.view());
        }
        let mut n = self.jobs.len();
        while n > 0
            invariant
                n <= self.jobs@.len(),
                last_stopped_before(self.view(), n as int) == last_stopped_before(
                    self.view(),
                    self.view().len() as int,
                ),
            decreases n,
        {
            if self.jobs[n - 1].status == JobStatus::Stopped {
                proof {
                    law_last_stopped_is_the_latest(self.view());
                }
                return Some(n - 1);
            }
            n = n - 1;
        }
        None
    }
}

/// The jobs kept by `active_only` keep the order of their ids.
proof fn lemma_active_increasing(js: Seq<JobView>, next: usize, a: int, b: int)
    requires
        ids_ordered(js, next),
        0 <= a < b < active_only(js).len(),
    ensures
        active_only(js)[a].id < active_only(js)[b].id,
    decreases js.len(),
{
    lemma_active_from(js);
    let init = js.drop_last();
    assert(ids_ordered(init, next)) by {
        assert forall|i: int, j: int| 0 <= i < j < init.len() implies init[i].id < init[j].id by {
            assert(init[i] == js[i] && init[j] == js[j]);
        }
        assert forall|i: int| 0 <= i < init.len() implies 1 <= #[trigger] init[i].id < next by {
            assert(init[i] == js[i]);
        }
    }
    if is_active(js.last().status) && b == active_only(js).len() - 1 {
        lemma_active_from(init);
        let k = choose|k: int| 0 <= k < init.len() && init[k] == #[trigger] active_only(init)[a];
        assert(init[k] == js[k]);
    } else if js.len() > 0 {
        lemma_active_increasing(init, next, a, b);
    }
}

/// Every job `active_only` keeps is one of the jobs it was given.
proof fn lemma_active_from(js: Seq<JobView>)
    ensures
        forall|a: int|
            0 <= a < active_only(js).len() ==> exists|k: int|
                0 <= k < js.len() && js[k] == #[trigger] active_only(js)[a],
    decreases js.len(),
{
    if js.len() > 0 {
        let init = js.drop_last();
        lemma_active_from(init);
        assert forall|a: int| 0 <= a < active_only(js).len() implies exists|k: int|
            0 <= k < js.len() && js[k] == #[trigger] active_only(js)[a] by {
            if a < active_only(init).len() {
                let k = choose|k: int| 0 <= k < init.len() && init[k] == #[trigger] active_only(init)[a];
                assert(js[k] == init[k]);
                assert(active_only(js)[a] == active_only(init)[a]);
            } else {
                assert(js[js.len() - 1] == active_only(js)[a]);
            }
        }
    }
}

/// How `jobs` names a job's state.
pub open spec fn state_word(s: JobStatus) -> Seq<char> {
    match s {
        JobStatus::Running => "Running"@,
        JobStatus::Stopped => "Stopped"@,
        _ => "Done"@,
    }
}

/// How `jobs` lists a job: `[id]  state  command`.
pub open spec fn job_line(j: JobView) -> Seq<char> {
    "["@ + crate::text::int_text(j.id as int) + "]  "@ + state_word(j.status) + "  "@ + j.command
}

/// One line per job, in order, as `jobs` lists them.
pub fn job_lines(t: &JobTable) -> (r: Vec<String>)
    ensures
        r@.map_values(|s: String| s@) == t.view().map_values(|j: JobView| job_line(j)),
{
    let mut r: Vec<String> = Vec::new();
    let mut i: usize = 0;
    let n = t.len();
    while i < n
        invariant
            n == t.view().len(),
            i <= n,
            r@.map_values(|s: String| s@) == t.view().map_values(|j: JobView| job_line(j)).subrange(
                0,
                i as int,
            ),
        decreases n - i,
    {
        let j = t.job(i);
        let mut line = String::from_str("[");
        let id = usize_to_string(j.id);
        append_str(&mut line, id.as_str());
        append_str(&mut line, "]  ");
        let word = match j.status {
            JobStatus::Running => "Running",
            JobStatus::Stopped => "Stopped",
            _ => "Done",
        };
        append_str(&mut line, word);
        append_str(&mut line, "  ");
        append_str(&mut line, j.command.as_str());
        let ghost before = r@.map_values(|s: String| s@);
        r.push(line);
        assert(r@.map_values(|s: String| s@) =~= before.push(job_line(t.view()[i as int])));
        i = i + 1;
        assert(r@.map_values(|s: String| s@) =~= t.view().map_values(|j: JobView| job_line(j)).subrange(
            0,
            i as int,
        ));
    }
    assert(t.view().map_values(|j: JobView| job_line(j)).subrange(0, n as int) =~= t.view().map_values(
        |j: JobView| job_line(j),
    ));
    r
}

/// A new job's id is used by no job in the table: ids are never given out
/// twice, and the table stays ordered by id after the new job is added.
pub proof fn law_fresh_id(js: Seq<JobView>, next: usize, pgid: i32, command: Seq<char>)
    requires
        ids_ordered(js, next),
        1 <= next < usize::MAX,
    ensures
        forall|i: int| 0 <= i < js.len() ==> #[trigger] js[i].id != next,
        ids_ordered(
            js.push(JobView { id: next, pgid, command, status: JobStatus::Running }),
            (next + 1) as usize,
        ),
{
    let js2 = js.push(JobView { id: next, pgid, command, status: JobStatus::Running });
    assert forall|i: int| 0 <= i < js.len() implies #[trigger] js[i].id != next by {
        assert(1 <= js[i].id < next);
    }
    assert forall|i: int, j: int| 0 <= i < j < js2.len() implies js2[i].id < js2[j].id by {
        if j == js.len() {
            assert(1 <= js[i].id < next);
        } else {
            assert(js2[i] == js[i] && js2[j] == js[j]);
        }
    }
    assert forall|i: int| 0 <= i < js2.len() implies 1 <= #[trigger] js2[i].id < next + 1 by {
        if i < js.len() {
            assert(js2[i] == js[i]);
            assert(1 <= js[i].id < next);
        }
    }
}

/// Dropping the finished jobs keeps exactly the running and stopped ones:
/// every job kept has not finished, no unfinished job is lost, and doing
/// it again changes nothing.
pub proof fn law_cleanup(js: Seq<JobView>)
    ensures
        forall|i: int| 0 <= i < active_only(js).len() ==> is_active(#[trigger] active_only(js)[i].status),
        forall|i: int|
            0 <= i < js.len() && is_active(#[trigger] js[i].status) ==> active_only(js).contains(js[i]),
        active_only(active_only(js)) == active_only(js),
    decreases js.len(),
{
    if js.len() > 0 {
        let init = js.drop_last();
        law_cleanup(init);
        let a = active_only(js);
        let ai = active_only(init);
        assert forall|i: int| 0 <= i < a.len() implies is_active(#[trigger] a[i].status) by {
            if i < ai.len() {
                assert(a[i] == ai[i]);
            }
        }
        assert forall|i: int| 0 <= i < js.len() && is_active(#[trigger] js[i].status) implies a.contains(
            js[i],
        ) by {
            if i < init.len() {
                assert(init[i] == js[i]);
                assert(ai.contains(init[i]));
                let k = choose|k: int| 0 <= k < ai.len() && ai[k] == init[i];
                assert(a[k] == ai[k]);
            } else {
                assert(a[a.len() - 1] == js[i]);
            }
        }
        lemma_active_all(a);
    } else {
        assert(active_only(js) =~= Seq::<JobView>::empty());
    }
}

/// A list of unfinished jobs is kept whole.
proof fn lemma_active_all(js: Seq<JobView>)
    requires
        forall|i: int| 0 <= i < js.len() ==> is_active(#[trigger] js[i].status),
    ensures
        active_only(js) == js,
    decreases js.len(),
{
    if js.len() > 0 {
        let init = js.drop_last();
        assert forall|i: int| 0 <= i < init.len() implies is_active(#[trigger] init[i].status) by {
            assert(init[i] == js[i]);
        }
        lemma_active_all(init);
        assert(is_active(js[js.len() - 1].status));
        assert(init.push(js.last()) =~= js);
    } else {
        assert(js =~= Seq::<JobView>::empty());
    }
}

/// `jobs`: one line for every job, in order (a finished one shown as
/// `Done`), after which the finished jobs are dropped; status 0.
pub fn list_jobs(jobs: &mut JobTable) -> (r: (Vec<String>, i32))
    ensures
        r.0@.map_values(|s: String| s@) == old(jobs).view().map_values(|j: JobView| job_line(j)),
        r.1 == 0,
        final(jobs).view() == active_only(old(jobs).view()),
        final(jobs).next() == old(jobs).next(),
{
    let lines = job_lines(jobs);
    jobs.cleanup_finished();
    (lines, 0)
}

/// The notice `fg` or `bg` gives where no job is stopped.
pub open spec fn no_job_notice(name: Seq<char>) -> Seq<char> {
    name + ": no current job"@
}

/// `fg` and `bg` (named `name`): the most recently added stopped job is
/// marked running, and its position is given for the caller to continue
/// its process group (and, for `fg`, to wait for it). Where no job is
/// stopped the table stays as it is and the answer is the notice with
/// status 1.
pub fn resume_job(jobs: &mut JobTable, name: &str) -> (r: Result<usize, (String, i32)>)
    ensures
        final(jobs).next() == old(jobs).next(),
        match last_stopped_before(old(jobs).view(), old(jobs).view().len() as int) {
            Some(i) => r == Ok::<usize, (String, i32)>(i as usize) && final(jobs).view() == old(
                jobs,
            ).view().update(i, JobView { status: JobStatus::Running, ..old(jobs).view()[i] }),
            None => final(jobs).view() == old(jobs).view() && (r matches Err((m, s)) && s == 1
                && m@ == no_job_notice(name@)),
        },
        r matches Ok(i) ==> i < old(jobs).view().len() && old(jobs).view()[i as int].status
            == JobStatus::Stopped && final(jobs).view()[i as int].status == JobStatus::Running
            && forall|j: int|
            i < j < old(jobs).view().len() ==> #[trigger] old(jobs).view()[j].status
                != JobStatus::Stopped,
        r is Err ==> forall|j: int|
            0 <= j < old(jobs).view().len() ==> #[trigger] old(jobs).view()[j].status
                != JobStatus::Stopped,
{
    proof {
        law_last_stopped_is_the_latest(old(jobs).view());
    }
    let n: usize = jobs.len();
    assert(n == jobs.view().len());
    match jobs.last_stopped() {
        Some(i) => {
            proof {
                lemma_last_stopped_bounds(jobs.view(), jobs.view().len() as int);
            }
            let ghost v0 = jobs.view();
            jobs.set_status(i, JobStatus::Running);
            assert(jobs.view() == v0.update(i as int, JobView { status: JobStatus::Running, ..v0[i as int] }));
            Ok(i)
        },
        None => {
            let mut m = String::from_str(name);
            append_str(&mut m, ": no current job");
            assert(m@ == no_job_notice(name@));
            Err((m, 1))
        },
    }
}

proof fn lemma_last_stopped_bounds(js: Seq<JobView>, n: int)
    ensures
        last_stopped_before(js, n) matches Some(i) ==> 0 <= i < n && i < js.len(),
    decreases n,
{
    if n > 0 && n <= js.len() && js[n - 1].status != JobStatus::Stopped {
        lemma_last_stopped_bounds(js, n - 1);
    }
}

proof fn lemma_last_stopped_latest(js: Seq<JobView>, n: int)
    requires
        0 <= n <= js.len(),
    ensures
        last_stopped_before(js, n) matches Some(i) ==> 0 <= i < n && js[i].status == JobStatus::Stopped
            && forall|j: int| i < j < n ==> #[trigger] js[j].status != JobStatus::Stopped,
        last_stopped_before(js, n) is None ==> forall|j: int|
            0 <= j < n ==> #[trigger] js[j].status != JobStatus::Stopped,
    decreases n,
{
    if n > 0 {
        lemma_last_stopped_latest(js, n - 1);
    }
}

/// `fg` and `bg` take the most recently added stopped job: where there is
/// one, the position found holds a stopped job and no job after it is
/// stopped; where none is found, no job is stopped.
pub proof fn law_last_stopped_is_the_latest(js: Seq<JobView>)
    ensures
        last_stopped_before(js, js.len() as int) matches Some(i) ==> 0 <= i < js.len()
            && js[i].status == JobStatus::Stopped && forall|j: int|
            i < j < js.len() ==> #[trigger] js[j].status != JobStatus::Stopped,
        last_stopped_before(js, js.len() as int) is None ==> forall|j: int|
            0 <= j < js.len() ==> #[trigger] js[j].status != JobStatus::Stopped,
{
    lemma_last_stopped_latest(js, js.len() as int);
}

} // verus!
