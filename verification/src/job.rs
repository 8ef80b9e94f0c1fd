//! The table of background jobs: registering a job, listing the jobs
//! (after removing those whose processes have all ended) and killing a
//! job by id. The operating-system calls are those of `os`.

use vstd::prelude::*;
use crate::os::{poll_process, send_sigkill, single_process, KillReceipt, PollReport, ProcessPoll};
use crate::text::{decimal, format_usize, lemma_parse_decimal, parse_usize_spec};

verus! {

#[derive(Clone, Copy, Debug, PartialEq, Eq, Structural)]
pub enum JobState {
    Running,
    Done,
}

/// A background job: the processes of one command line.
#[derive(Clone, Debug)]
pub struct Job {
    pub id: usize,
    /// The ids of all the processes of the pipeline.
    pub pids: Vec<u32>,
    /// The command line as typed, for `jobs`.
    pub cmdline: String,
    pub state: JobState,
}

pub struct JobView {
    pub id: usize,
    pub pids: Seq<u32>,
    pub cmdline: Seq<char>,
    pub state: JobState,
}

impl View for Job {
    type V = JobView;

    open spec fn view(&self) -> JobView {
        JobView { id: self.id, pids: self.pids@, cmdline: self.cmdline@, state: self.state }
    }
}

/// Every id names one process (none is 0 or names a process group).
pub open spec fn pids_valid(pids: Seq<u32>) -> bool {
    forall|k: int| 0 <= k < pids.len() ==> single_process(#[trigger] pids[k])
}

/// The jobs in the order they were started, and the id the next one gets.
pub struct JobTableView {
    pub jobs: Seq<JobView>,
    pub next_id: usize,
}

impl JobTableView {
    /// Ids start at 1, are below the next id, and increase along the table,
    /// so no two jobs share an id; every process id names one process.
    pub open spec fn wf(self) -> bool {
        &&& self.next_id >= 1
        &&& forall|i: int| 0 <= i < self.jobs.len() ==> pids_valid(#[trigger] self.jobs[i].pids)
        &&& forall|i: int| 0 <= i < self.jobs.len() ==> 1 <= #[trigger] self.jobs[i].id < self.next_id
        &&& forall|i: int, j: int| 0 <= i < j < self.jobs.len() ==> self.jobs[i].id < self.jobs[j].id
    }

    /// Some job has this id.
    pub open spec fn has_job(self, id: usize) -> bool {
        exists|i: int| 0 <= i < self.jobs.len() && #[trigger] self.jobs[i].id == id
    }
}

/// The background jobs of the shell.
pub struct JobTable {
    jobs: Vec<Job>,
    next_id: usize,
}

pub open spec fn jobs_view(v: Seq<Job>) -> Seq<JobView> {
    v.map_values(|j: Job| j@)
}

impl View for JobTable {
    type V = JobTableView;

    closed spec fn view(&self) -> JobTableView {
        JobTableView { jobs: jobs_view(self.jobs@), next_id: self.next_id }
    }
}

/// The jobs that are kept, where `keep[i]` tells whether the job at `i`
/// is kept; a kept job is marked `Running`.
pub open spec fn retained(jobs: Seq<JobView>, keep: Seq<bool>) -> Seq<JobView>
    decreases jobs.len(),
{
    if jobs.len() == 0 {
        Seq::empty()
    } else {
        let r = retained(jobs.drop_last(), keep);
        if keep[jobs.len() - 1] {
            r.push(JobView { state: JobState::Running, ..jobs.last() })
        } else {
            r
        }
    }
}

/// The text of a state.
pub open spec fn state_text(s: JobState) -> Seq<char> {
    match s {
        JobState::Running => "Running"@,
        JobState::Done => "Done"@,
    }
}

/// The line that `jobs` prints for a job: `[id] State   cmdline`.
pub open spec fn job_line_spec(j: JobView) -> Seq<char> {
    "["@ + decimal(j.id as nat) + "] "@ + state_text(j.state) + "   "@ + j.cmdline
}

/// Kept jobs keep their ids and their order, so the table stays well formed.
/// Every kept job is marked `Running`.
pub proof fn lemma_retained_running(jobs: Seq<JobView>, keep: Seq<bool>)
    ensures
        forall|k: int| 0 <= k < retained(jobs, keep).len() ==> (#[trigger] retained(jobs, keep)[k]).state
            == JobState::Running,
    decreases jobs.len(),
{
    if jobs.len() > 0 {
        lemma_retained_running(jobs.drop_last(), keep);
        let r = retained(jobs.drop_last(), keep);
        assert forall|k: int| 0 <= k < retained(jobs, keep).len() implies (#[trigger] retained(jobs, keep)[k]).state
            == JobState::Running by {
            if k < r.len() {
                assert(retained(jobs, keep)[k] == r[k]);
            }
        }
    }
}

pub proof fn lemma_retained_wf(jobs: Seq<JobView>, keep: Seq<bool>, next_id: usize)
    requires
        (JobTableView { jobs, next_id }).wf(),
    ensures
        (JobTableView { jobs: retained(jobs, keep), next_id }).wf(),
        retained(jobs, keep).len() <= jobs.len(),
        forall|k: int| #![trigger retained(jobs, keep)[k]] 0 <= k < retained(jobs, keep).len() ==> exists|i: int| #![trigger jobs[i]]
            0 <= i < jobs.len() && retained(jobs, keep)[k] == (JobView {
                state: JobState::Running,
                ..jobs[i]
            }),
        retained(jobs, keep).len() > 0 ==> exists|i: int|
            0 <= i < jobs.len() && retained(jobs, keep).last().id == #[trigger] jobs[i].id,
    decreases jobs.len(),
{
    if jobs.len() > 0 {
        let d = jobs.drop_last();
        assert((JobTableView { jobs: d, next_id }).wf()) by {
            assert forall|i: int| 0 <= i < d.len() implies 1 <= #[trigger] d[i].id < next_id by {
                assert(d[i] == jobs[i]);
            }
            assert forall|i: int| 0 <= i < d.len() implies pids_valid(#[trigger] d[i].pids) by {
                assert(d[i] == jobs[i]);
            }
            assert forall|i: int, j: int| 0 <= i < j < d.len() implies d[i].id < d[j].id by {
                assert(d[i] == jobs[i] && d[j] == jobs[j]);
            }
        }
        lemma_retained_wf(d, keep, next_id);
        let r = retained(d, keep);
        assert forall|k: int| 0 <= k < r.len() implies (#[trigger] r[k]).id < jobs.last().id by {
            let i = choose|i: int| #![trigger d[i]] 0 <= i < d.len() && r[k] == (JobView { state: JobState::Running, ..d[i] });
            assert(d[i] == jobs[i]);
        }
        assert forall|k: int| #![trigger r[k]] 0 <= k < r.len() implies exists|i: int| #![trigger jobs[i]]
            0 <= i < jobs.len() && r[k] == (JobView { state: JobState::Running, ..jobs[i] }) by {
            let i = choose|i: int| #![trigger d[i]] 0 <= i < d.len() && r[k] == (JobView { state: JobState::Running, ..d[i] });
            assert(d[i] == jobs[i]);
        }
        if keep[jobs.len() - 1] {
            let r2 = r.push(JobView { state: JobState::Running, ..jobs.last() });
            assert(jobs[jobs.len() - 1] == jobs.last());
            assert forall|k: int| #![trigger r2[k]] 0 <= k < r2.len() implies exists|i: int| #![trigger jobs[i]]
                0 <= i < jobs.len() && r2[k] == (JobView { state: JobState::Running, ..jobs[i] }) by {
                if k < r.len() {
                    assert(r2[k] == r[k]);
                } else {
                    assert(r2[k] == (JobView { state: JobState::Running, ..jobs[jobs.len() - 1] }));
                }
            }
            assert(r2.last().id == jobs[jobs.len() - 1].id);
            assert(pids_valid(jobs[jobs.len() - 1].pids));
            assert forall|k: int| 0 <= k < r2.len() implies pids_valid(#[trigger] r2[k].pids) by {
                if k < r.len() {
                    assert(r2[k] == r[k]);
                }
            }
        } else {
            if r.len() > 0 {
                let i = choose|i: int| 0 <= i < d.len() && r.last().id == #[trigger] d[i].id;
                assert(d[i] == jobs[i]);
            }
        }
    }
}

/// No two jobs of a well-formed table share an id.
pub proof fn lemma_ids_distinct(t: JobTableView)
    requires
        t.wf(),
    ensures
        forall|i: int, j: int| 0 <= i < t.jobs.len() && 0 <= j < t.jobs.len() && i != j ==> #[trigger] t.jobs[i].id
            != #[trigger] t.jobs[j].id,
{
}

/// The id that the next job will get is not the id of any job in the
/// table: an id is never given twice.
pub proof fn lemma_next_id_fresh(t: JobTableView)
    requires
        t.wf(),
    ensures
        !t.has_job(t.next_id),
{
}

/// After a job is registered (as `add_pipeline_job` does), its id names
/// it and only it: the table is well formed, has a job with that id, and
/// had none before; `kill_job` with that id then finds it.
pub proof fn lemma_added_job_found(t: JobTableView, pids: Seq<u32>, cmdline: Seq<char>)
    requires
        t.wf(),
        pids_valid(pids),
        t.next_id < usize::MAX,
    ensures
        ({
            let id = t.next_id;
            let t2 = after_add(t, pids, cmdline);
            &&& t2.wf()
            &&& t2.has_job(id)
            &&& !t.has_job(id)
            &&& t2.jobs[t2.jobs.len() - 1].pids == pids
        }),
{
    let id = t.next_id;
    let t2 = JobTableView {
        jobs: t.jobs.push(JobView { id, pids, cmdline, state: JobState::Running }),
        next_id: (id + 1) as usize,
    };
    assert(t2.jobs[t2.jobs.len() - 1].id == id);
    assert forall|i: int| 0 <= i < t2.jobs.len() implies 1 <= #[trigger] t2.jobs[i].id < t2.next_id by {
        if i < t.jobs.len() {
            assert(t2.jobs[i] == t.jobs[i]);
        }
    }
    assert forall|i: int| 0 <= i < t2.jobs.len() implies pids_valid(#[trigger] t2.jobs[i].pids) by {
        if i < t.jobs.len() {
            assert(t2.jobs[i] == t.jobs[i]);
        }
    }
    assert forall|i: int, j: int| 0 <= i < j < t2.jobs.len() implies t2.jobs[i].id < t2.jobs[j].id by {
        assert(t2.jobs[i] == t.jobs[i]);
        if j < t.jobs.len() {
            assert(t2.jobs[j] == t.jobs[j]);
        }
    }
}

/// Removing ended jobs only removes: every job left was in the table
/// before, with the same id, processes and command line.
pub proof fn lemma_clean_only_removes(t: JobTableView, keep: Seq<bool>)
    requires
        t.wf(),
    ensures
        forall|k: int| #![trigger retained(t.jobs, keep)[k]] 0 <= k < retained(t.jobs, keep).len() ==> exists|i: int| #![trigger t.jobs[i]]
            0 <= i < t.jobs.len() && retained(t.jobs, keep)[k] == (JobView {
                state: JobState::Running,
                ..t.jobs[i]
            }),
        retained(t.jobs, keep).len() <= t.jobs.len(),
        (JobTableView { jobs: retained(t.jobs, keep), next_id: t.next_id }).wf(),
{
    lemma_retained_wf(t.jobs, keep, t.next_id);
}

impl JobTable {
    #[verifier::type_invariant]
    spec fn inv(&self) -> bool {
        self@.wf()
    }

    /// An empty table; the first job gets id 1.
    pub fn new() -> (t: JobTable)
        ensures
            t@.jobs == Seq::<JobView>::empty(),
            t@.next_id == 1,
            t@.wf(),
    {
        let t = JobTable { jobs: Vec::new(), next_id: 1 };
        assert(t@.jobs =~= Seq::<JobView>::empty());
        t
    }

    /// The jobs, in the order they were started.
    pub fn jobs(&self) -> (r: &Vec<Job>)
        ensures
            jobs_view(r@) == self@.jobs,
    {
        &self.jobs
    }

    /// The id that the next job gets, without taking it.
    pub fn upcoming_id(&self) -> (r: usize)
        ensures
            r == self@.next_id,
    {
        self.next_id
    }

    /// Takes the next job id: returns it and moves the counter past it.
    pub fn next_id(&mut self) -> (id: usize)
        requires
            old(self)@.next_id < usize::MAX,
        ensures
            id == old(self)@.next_id,
            final(self)@.next_id == id + 1,
            final(self)@.jobs == old(self)@.jobs,
            final(self)@.wf(),
    {
        proof {
            use_type_invariant(&*self);
        }
        let id = self.next_id;
        self.next_id = id + 1;
        proof {
            use_type_invariant(&*self);
        }
        id
    }

    /// The table is always well formed.
    pub fn well_formed(&self)
        ensures
            self@.wf(),
    {
        proof {
            use_type_invariant(self);
        }
    }
}

/// The table after registering a job of the processes `pids`, started by
/// `cmdline`: the job gets the next id and is appended, running.
pub open spec fn after_add(t: JobTableView, pids: Seq<u32>, cmdline: Seq<char>) -> JobTableView {
    JobTableView {
        jobs: t.jobs.push(JobView { id: t.next_id, pids, cmdline, state: JobState::Running }),
        next_id: (t.next_id + 1) as usize,
    }
}

/// Registering one process is registering a pipeline of that one process:
/// `add_single_job(t, pid, c)` and `add_pipeline_job(t, vec![pid], c)` leave
/// the same table and return the same id.
pub proof fn lemma_single_is_pipeline(t: JobTableView, pid: u32, cmdline: Seq<char>)
    requires
        t.wf(),
        t.next_id < usize::MAX,
        single_process(pid),
    ensures
        pids_valid(seq![pid]),
        after_add(t, seq![pid], cmdline).wf(),
{
    assert(seq![pid][0] == pid);
    lemma_added_job_found(t, seq![pid], cmdline);
}

/// Registers a background job of the processes `pids`, started by the
/// command line `cmdline`, and returns its id.
pub fn add_pipeline_job(table: &mut JobTable, pids: Vec<u32>, cmdline: String) -> (id: usize)
    requires
        old(table)@.next_id < usize::MAX,
        pids_valid(pids@),
    ensures
        id == old(table)@.next_id,
        final(table)@ == after_add(old(table)@, pids@, cmdline@),
        final(table)@.wf(),
{
    proof {
        use_type_invariant(&*table);
    }
    let id = table.next_id();
    let mut jobs: Vec<Job> = Vec::new();
    std::mem::swap(&mut jobs, &mut table.jobs);
    let ghost before = jobs@;
    jobs.push(Job { id, pids, cmdline, state: JobState::Running });
    assert(jobs_view(jobs@) =~= jobs_view(before).push(jobs@.last()@));
    table.jobs = jobs;
    proof {
        use_type_invariant(&*table);
    }
    id
}

/// Registers a background job of the one process `pid`.
pub fn add_single_job(table: &mut JobTable, pid: u32, cmdline: String) -> (id: usize)
    requires
        old(table)@.next_id < usize::MAX,
        single_process(pid),
    ensures
        id == old(table)@.next_id,
        final(table)@ == after_add(old(table)@, seq![pid], cmdline@),
        final(table)@.wf(),
{
    let mut pids: Vec<u32> = Vec::new();
    pids.push(pid);
    assert(pids@ =~= seq![pid]);
    add_pipeline_job(table, pids, cmdline)
}

/// The position of the job with id `id`, if there is one.
pub fn find_job(table: &JobTable, id: usize) -> (r: Option<usize>)
    ensures
        table@.wf(),
        match r {
            Some(i) => i < table@.jobs.len() && table@.jobs[i as int].id == id,
            None => !table@.has_job(id),
        },
{
    proof {
        use_type_invariant(table);
    }
    let mut i: usize = 0;
    while i < table.jobs.len()
        invariant
            jobs_view(table.jobs@) == table@.jobs,
            table@.wf(),
            i <= table.jobs.len(),
            forall|j: int| 0 <= j < i ==> table@.jobs[j].id != id,
        decreases table.jobs.len() - i,
    {
        if table.jobs[i].id == id {
            return Some(i);
        }
        i = i + 1;
    }
    None
}

pub open spec fn receipts_view(v: Seq<KillReceipt>) -> Seq<u32> {
    v.map_values(|r: KillReceipt| r@)
}

/// `kill %id`: sends `SIGKILL` to each process of the job with id `id`, in
/// order, and returns the receipts of those signals; `None` when no job has
/// that id. The table is left as it is: the job goes when `clean_jobs`
/// finds its processes ended.
pub fn kill_job(table: &JobTable, id: usize) -> (r: Option<Vec<KillReceipt>>)
    ensures
        table@.wf(),
        match r {
            None => !table@.has_job(id),
            Some(v) => exists|i: int|
                0 <= i < table@.jobs.len() && #[trigger] table@.jobs[i].id == id && receipts_view(v@)
                    == table@.jobs[i].pids,
        },
{
    proof {
        use_type_invariant(table);
    }
    match find_job(table, id) {
        None => None,
        Some(i) => {
            let job = &table.jobs[i];
            let ghost pids = table@.jobs[i as int].pids;
            assert(pids == job.pids@);
            assert(pids_valid(pids));
            let mut receipts: Vec<KillReceipt> = Vec::new();
            let mut k: usize = 0;
            while k < job.pids.len()
                invariant
                    pids == job.pids@,
                    pids_valid(pids),
                    k <= job.pids.len(),
                    receipts_view(receipts@) == pids.take(k as int),
                decreases job.pids.len() - k,
            {
                let ghost before = receipts@;
                assert(single_process(pids[k as int]));
                receipts.push(send_sigkill(job.pids[k]));
                assert(receipts_view(receipts@) =~= receipts_view(before).push(pids[k as int]));
                assert(pids.take(k + 1) =~= pids.take(k as int).push(pids[k as int]));
                k = k + 1;
            }
            assert(pids.take(k as int) =~= pids);
            Some(receipts)
        },
    }
}

/// Keeps the jobs whose entry in `keep` is `true`, marked `Running`, in
/// their order, and drops the others.
pub fn retain_jobs(table: &mut JobTable, keep: &Vec<bool>)
    requires
        keep.len() == old(table)@.jobs.len(),
    ensures
        final(table)@.jobs == retained(old(table)@.jobs, keep@),
        final(table)@.next_id == old(table)@.next_id,
        final(table)@.wf(),
{
    proof {
        use_type_invariant(&*table);
    }
    let ghost old_jobs = table@.jobs;
    let mut rest: Vec<Job> = Vec::new();
    std::mem::swap(&mut rest, &mut table.jobs);
    let n = rest.len();
    let mut kept: Vec<Job> = Vec::new();
    let mut i: usize = 0;
    assert(old_jobs.take(0) =~= Seq::<JobView>::empty());
    assert(jobs_view(kept@) =~= Seq::<JobView>::empty());
    while i < n
        invariant
            n == old_jobs.len(),
            keep.len() == n,
            i <= n,
            rest.len() == n - i,
            forall|j: int| 0 <= j < n - i ==> (#[trigger] rest@[j])@ == old_jobs[i + j],
            jobs_view(kept@) == retained(old_jobs.take(i as int), keep@),
        decreases n - i,
    {
        let ghost before = kept@;
        assert(rest@[0]@ == old_jobs[i as int]);
        let mut job = rest.remove(0);
        assert(old_jobs.take(i + 1).drop_last() =~= old_jobs.take(i as int));
        assert(old_jobs.take(i + 1).last() == old_jobs[i as int]);
        if keep[i] {
            job.state = JobState::Running;
            kept.push(job);
            assert(jobs_view(kept@) =~= jobs_view(before).push(kept@.last()@));
        }
        assert forall|j: int| 0 <= j < n - (i + 1) implies (#[trigger] rest@[j])@ == old_jobs[i + 1 + j] by {
        }
        i = i + 1;
    }
    assert(old_jobs.take(n as int) =~= old_jobs);
    proof {
        lemma_retained_wf(old_jobs, keep@, table.next_id);
    }
    table.jobs = kept;
    proof {
        use_type_invariant(&*table);
    }
}

pub open spec fn reports_view(v: Seq<PollReport>) -> Seq<(u32, ProcessPoll)> {
    v.map_values(|r: PollReport| r@)
}

pub open spec fn all_reports_view(v: Seq<Vec<PollReport>>) -> Seq<Seq<(u32, ProcessPoll)>> {
    v.map_values(|r: Vec<PollReport>| reports_view(r@))
}

/// Some process was reported still running.
pub open spec fn alive_spec(polls: Seq<(u32, ProcessPoll)>) -> bool {
    exists|k: int| 0 <= k < polls.len() && (#[trigger] polls[k]).1 == ProcessPoll::StillAlive
}

/// Which jobs stay, given the reports on the processes of each job.
pub open spec fn keep_of(polls: Seq<Seq<(u32, ProcessPoll)>>) -> Seq<bool> {
    Seq::new(polls.len(), |i: int| alive_spec(polls[i]))
}

/// `polls[i][k]` is the report on process `k` of job `i`, for every process
/// of every job.
pub open spec fn polls_match(jobs: Seq<JobView>, polls: Seq<Seq<(u32, ProcessPoll)>>) -> bool {
    &&& polls.len() == jobs.len()
    &&& forall|i: int| 0 <= i < jobs.len() ==> (#[trigger] polls[i]).len() == jobs[i].pids.len()
    &&& forall|i: int, k: int|
        0 <= i < jobs.len() && 0 <= k < jobs[i].pids.len() ==> (#[trigger] polls[i][k]).0
            == jobs[i].pids[k]
}

/// Each job, marked `Running` when some process of it was reported still
/// running and `Done` otherwise.
pub open spec fn marked(jobs: Seq<JobView>, polls: Seq<Seq<(u32, ProcessPoll)>>) -> Seq<JobView> {
    Seq::new(
        jobs.len(),
        |i: int|
            JobView {
                state: if alive_spec(polls[i]) { JobState::Running } else { JobState::Done },
                ..jobs[i]
            },
    )
}

/// A job is alive when at least one of its processes was reported still
/// running.
pub fn any_alive(reports: &Vec<PollReport>) -> (alive: bool)
    ensures
        alive == alive_spec(reports_view(reports@)),
{
    let ghost v = reports_view(reports@);
    let mut alive = false;
    let mut i: usize = 0;
    while i < reports.len()
        invariant
            v == reports_view(reports@),
            i <= reports.len(),
            alive == exists|j: int| 0 <= j < i && (#[trigger] v[j]).1 == ProcessPoll::StillAlive,
        decreases reports.len() - i,
    {
        assert(v[i as int] == reports@[i as int]@);
        if reports[i].outcome() == ProcessPoll::StillAlive {
            alive = true;
        }
        i = i + 1;
    }
    alive
}

/// Polls every process of every job (`waitpid` with `WNOHANG`), once each,
/// in table order and process order, and returns the reports.
pub fn poll_jobs(table: &JobTable) -> (reports: Vec<Vec<PollReport>>)
    ensures
        polls_match(table@.jobs, all_reports_view(reports@)),
{
    proof {
        use_type_invariant(table);
    }
    let mut all: Vec<Vec<PollReport>> = Vec::new();
    let n = table.jobs.len();
    let mut i: usize = 0;
    while i < n
        invariant
            n == table.jobs.len(),
            jobs_view(table.jobs@) == table@.jobs,
            table@.wf(),
            i <= n,
            all.len() == i,
            forall|j: int| 0 <= j < i ==> (#[trigger] all@[j])@.len() == table@.jobs[j].pids.len(),
            forall|j: int, k: int|
                0 <= j < i && 0 <= k < table@.jobs[j].pids.len() ==> (#[trigger] all@[j]@[k])@.0
                    == table@.jobs[j].pids[k],
        decreases n - i,
    {
        let job = &table.jobs[i];
        let ghost pids = table@.jobs[i as int].pids;
        assert(pids == job.pids@);
        assert(pids_valid(pids));
        let mut reports: Vec<PollReport> = Vec::new();
        let mut k: usize = 0;
        while k < job.pids.len()
            invariant
                pids == job.pids@,
                pids_valid(pids),
                k <= job.pids.len(),
                reports.len() == k,
                forall|m: int| 0 <= m < k ==> (#[trigger] reports@[m])@.0 == pids[m],
            decreases job.pids.len() - k,
        {
            assert(single_process(pids[k as int]));
            reports.push(poll_process(job.pids[k]));
            k = k + 1;
        }
        all.push(reports);
        i = i + 1;
    }
    let ghost v = all_reports_view(all@);
    assert forall|j: int| 0 <= j < n implies (#[trigger] v[j]).len() == table@.jobs[j].pids.len() by {
        assert(v[j] == reports_view(all@[j]@));
    }
    assert forall|j: int, k: int| 0 <= j < n && 0 <= k < table@.jobs[j].pids.len() implies (
    #[trigger] v[j][k]).0 == table@.jobs[j].pids[k] by {
        assert(v[j] == reports_view(all@[j]@));
        assert(v[j][k] == all@[j]@[k]@);
    }
    all
}

/// Which jobs stay, from the reports on their processes.
fn keep_flags(reports: &Vec<Vec<PollReport>>) -> (keep: Vec<bool>)
    ensures
        keep@ == keep_of(all_reports_view(reports@)),
{
    let ghost v = all_reports_view(reports@);
    let mut keep: Vec<bool> = Vec::new();
    let mut i: usize = 0;
    while i < reports.len()
        invariant
            v == all_reports_view(reports@),
            i <= reports.len(),
            keep.len() == i,
            forall|j: int| 0 <= j < i ==> keep@[j] == alive_spec(#[trigger] v[j]),
        decreases reports.len() - i,
    {
        assert(v[i as int] == reports_view(reports@[i as int]@));
        keep.push(any_alive(&reports[i]));
        i = i + 1;
    }
    assert(keep@ =~= keep_of(v));
    keep
}

/// Drops the jobs none of whose processes was reported still running in
/// `reports` (one report per process of each job, as `poll_jobs` gives); the
/// others stay, marked `Running`, in their order.
pub fn clean_with_reports(table: &mut JobTable, reports: &Vec<Vec<PollReport>>)
    requires
        polls_match(old(table)@.jobs, all_reports_view(reports@)),
    ensures
        final(table)@.jobs == retained(old(table)@.jobs, keep_of(all_reports_view(reports@))),
        forall|i: int| 0 <= i < final(table)@.jobs.len() ==> (#[trigger] final(table)@.jobs[i]).state
            == JobState::Running,
        final(table)@.next_id == old(table)@.next_id,
        final(table)@.wf(),
{
    let keep = keep_flags(reports);
    retain_jobs(table, &keep);
    proof {
        lemma_retained_running(old(table)@.jobs, keep@);
    }
}

/// Polls every process of every job, once each, in order (`poll_jobs`), and
/// drops the jobs none of whose processes was reported still running
/// (`clean_with_reports`). Returns the reports it acted on: they are the
/// outcomes of the calls, which depend on the operating system.
pub fn clean_jobs(table: &mut JobTable) -> (reports: Vec<Vec<PollReport>>)
    ensures
        polls_match(old(table)@.jobs, all_reports_view(reports@)),
        final(table)@.jobs == retained(old(table)@.jobs, keep_of(all_reports_view(reports@))),
        forall|i: int| 0 <= i < final(table)@.jobs.len() ==> (#[trigger] final(table)@.jobs[i]).state
            == JobState::Running,
        final(table)@.next_id == old(table)@.next_id,
        final(table)@.wf(),
{
    let reports = poll_jobs(table);
    clean_with_reports(table, &reports);
    reports
}

/// The line that `jobs` prints for `job` when its state is `state`.
fn state_line(job: &Job, state: JobState) -> (line: String)
    ensures
        line@ == job_line_spec(JobView { state, ..job@ }),
{
    let mut line = String::from_str("[");
    let id = format_usize(job.id);
    line.append(id.as_str());
    line.append("] ");
    match state {
        JobState::Running => line.append("Running"),
        JobState::Done => line.append("Done"),
    }
    line.append("   ");
    line.append(job.cmdline.as_str());
    line
}

/// The line that `jobs` prints for `job`.
pub fn job_line(job: &Job) -> (line: String)
    ensures
        line@ == job_line_spec(job@),
{
    state_line(job, job.state)
}

/// The lines of `jobs` for `reports` (one report per process of each job,
/// as `poll_jobs` gives): every job, in order, marked `Running` when some
/// process of it was reported still running and `Done` otherwise; then the
/// `Done` jobs are removed, as `clean_with_reports` does.
pub fn list_with_reports(table: &mut JobTable, reports: &Vec<Vec<PollReport>>) -> (lines: Vec<String>)
    requires
        polls_match(old(table)@.jobs, all_reports_view(reports@)),
    ensures
        lines@.len() == old(table)@.jobs.len(),
        forall|i: int|
            0 <= i < lines@.len() ==> (#[trigger] lines@[i])@ == job_line_spec(
                marked(old(table)@.jobs, all_reports_view(reports@))[i],
            ),
        final(table)@.jobs == retained(old(table)@.jobs, keep_of(all_reports_view(reports@))),
        forall|i: int| 0 <= i < final(table)@.jobs.len() ==> (#[trigger] final(table)@.jobs[i]).state
            == JobState::Running,
        final(table)@.next_id == old(table)@.next_id,
        final(table)@.wf(),
{
    let ghost polls = all_reports_view(reports@);
    let keep = keep_flags(reports);
    let mut lines: Vec<String> = Vec::new();
    let mut i: usize = 0;
    while i < table.jobs.len()
        invariant
            jobs_view(table.jobs@) == table@.jobs,
            table@.jobs == old(table)@.jobs,
            keep@ == keep_of(polls),
            polls_match(table@.jobs, polls),
            i <= table.jobs.len(),
            lines@.len() == i,
            forall|j: int| 0 <= j < i ==> (#[trigger] lines@[j])@ == job_line_spec(marked(table@.jobs, polls)[j]),
        decreases table.jobs.len() - i,
    {
        let state = if keep[i] { JobState::Running } else { JobState::Done };
        assert(keep@[i as int] == alive_spec(polls[i as int]));
        lines.push(state_line(&table.jobs[i], state));
        i = i + 1;
    }
    retain_jobs(table, &keep);
    proof {
        lemma_retained_running(old(table)@.jobs, keep@);
    }
    lines
}

/// `jobs`: polls every process of every job, once each, in order
/// (`poll_jobs`), then gives the lines and removes the ended jobs as
/// `list_with_reports` does. Returns the lines and the reports they rest on:
/// the outcomes of the calls, which depend on the operating system.
pub fn list_jobs(table: &mut JobTable) -> (r: (Vec<String>, Vec<Vec<PollReport>>))
    ensures
        polls_match(old(table)@.jobs, all_reports_view(r.1@)),
        r.0@.len() == old(table)@.jobs.len(),
        forall|i: int|
            0 <= i < r.0@.len() ==> (#[trigger] r.0@[i])@ == job_line_spec(
                marked(old(table)@.jobs, all_reports_view(r.1@))[i],
            ),
        final(table)@.jobs == retained(old(table)@.jobs, keep_of(all_reports_view(r.1@))),
        forall|i: int| 0 <= i < final(table)@.jobs.len() ==> (#[trigger] final(table)@.jobs[i]).state
            == JobState::Running,
        final(table)@.next_id == old(table)@.next_id,
        final(table)@.wf(),
{
    let reports = poll_jobs(table);
    let lines = list_with_reports(table, &reports);
    (lines, reports)
}

/// A process was reported still running (`waitpid` gave `Ok(StillAlive)`).
/// A job is kept by a cleanup exactly when some process of it was reported
/// still running; an ended (`Changed`) or failed report never keeps it.
pub proof fn lemma_keep_iff_still_alive(polls: Seq<Seq<(u32, ProcessPoll)>>)
    ensures
        keep_of(polls).len() == polls.len(),
        forall|i: int| #![trigger keep_of(polls)[i]]
            0 <= i < polls.len() ==> (keep_of(polls)[i] <==> exists|k: int|
                0 <= k < polls[i].len() && (#[trigger] polls[i][k]).1 == ProcessPoll::StillAlive),
        forall|i: int| #![trigger keep_of(polls)[i]]
            0 <= i < polls.len() && (forall|k: int| 0 <= k < polls[i].len() ==> (#[trigger] polls[i][k]).1
                != ProcessPoll::StillAlive) ==> !keep_of(polls)[i],
{
}

/// The line that `jobs` gives for each job keeps its id, processes and
/// command line, and says `Running` exactly when some process of it was
/// reported still running, `Done` otherwise.
pub proof fn lemma_listed_state(jobs: Seq<JobView>, polls: Seq<Seq<(u32, ProcessPoll)>>)
    requires
        polls.len() == jobs.len(),
    ensures
        marked(jobs, polls).len() == jobs.len(),
        forall|i: int| #![trigger marked(jobs, polls)[i]]
            0 <= i < jobs.len() ==> {
                &&& marked(jobs, polls)[i].id == jobs[i].id
                &&& marked(jobs, polls)[i].pids == jobs[i].pids
                &&& marked(jobs, polls)[i].cmdline == jobs[i].cmdline
                &&& (marked(jobs, polls)[i].state == JobState::Running <==> exists|k: int|
                    0 <= k < polls[i].len() && (#[trigger] polls[i][k]).1 == ProcessPoll::StillAlive)
                &&& (marked(jobs, polls)[i].state == JobState::Done <==> !exists|k: int|
                    0 <= k < polls[i].len() && (#[trigger] polls[i][k]).1 == ProcessPoll::StillAlive)
            },
{
}

/// Every job left by a cleanup is a kept job of the table before it.
proof fn lemma_retained_from_kept(jobs: Seq<JobView>, keep: Seq<bool>)
    ensures
        forall|k: int| #![trigger retained(jobs, keep)[k]]
            0 <= k < retained(jobs, keep).len() ==> exists|j: int|
                0 <= j < jobs.len() && keep[j] && #[trigger] jobs[j].id == retained(jobs, keep)[k].id,
    decreases jobs.len(),
{
    if jobs.len() > 0 {
        let d = jobs.drop_last();
        lemma_retained_from_kept(d, keep);
        let r = retained(d, keep);
        assert forall|k: int| #![trigger retained(jobs, keep)[k]]
            0 <= k < retained(jobs, keep).len() implies exists|j: int|
                0 <= j < jobs.len() && keep[j] && #[trigger] jobs[j].id == retained(jobs, keep)[k].id by {
            if k < r.len() {
                assert(retained(jobs, keep)[k] == r[k]);
                let j = choose|j: int| 0 <= j < d.len() && keep[j] && #[trigger] d[j].id == r[k].id;
                assert(d[j] == jobs[j]);
            } else {
                assert(jobs[jobs.len() - 1].id == retained(jobs, keep)[k].id);
            }
        }
    }
}

/// In a table whose ids increase, a job's id is left by a cleanup exactly
/// when the job is kept.
proof fn lemma_retained_member(jobs: Seq<JobView>, keep: Seq<bool>, i: int)
    requires
        0 <= i < jobs.len(),
        forall|a: int, b: int| 0 <= a < b < jobs.len() ==> jobs[a].id < jobs[b].id,
    ensures
        keep[i] <==> exists|k: int| 0 <= k < retained(jobs, keep).len() && #[trigger] retained(jobs, keep)[k].id
            == jobs[i].id,
    decreases jobs.len(),
{
    let n = jobs.len();
    let d = jobs.drop_last();
    let r = retained(d, keep);
    lemma_retained_from_kept(d, keep);
    if i == n - 1 {
        if keep[i] {
            let k = r.len() as int;
            assert(retained(jobs, keep)[k].id == jobs[i].id);
        } else {
            if exists|k: int| 0 <= k < retained(jobs, keep).len() && #[trigger] retained(jobs, keep)[k].id
                == jobs[i].id {
                let k = choose|k: int| 0 <= k < retained(jobs, keep).len() && #[trigger] retained(jobs, keep)[k].id
                    == jobs[i].id;
                assert(retained(jobs, keep) == r);
                let j = choose|j: int| 0 <= j < d.len() && keep[j] && #[trigger] d[j].id == r[k].id;
                assert(d[j] == jobs[j]);
            }
        }
    } else {
        assert forall|a: int, b: int| 0 <= a < b < d.len() implies d[a].id < d[b].id by {
            assert(d[a] == jobs[a] && d[b] == jobs[b]);
        }
        lemma_retained_member(d, keep, i);
        assert(d[i] == jobs[i]);
        if keep[i] {
            let k = choose|k: int| 0 <= k < r.len() && #[trigger] r[k].id == d[i].id;
            assert(retained(jobs, keep)[k] == r[k]);
        } else {
            if exists|k: int| 0 <= k < retained(jobs, keep).len() && #[trigger] retained(jobs, keep)[k].id
                == jobs[i].id {
                let k = choose|k: int| 0 <= k < retained(jobs, keep).len() && #[trigger] retained(jobs, keep)[k].id
                    == jobs[i].id;
                if k < r.len() {
                    assert(retained(jobs, keep)[k] == r[k]);
                } else {
                    assert(retained(jobs, keep)[k].id == jobs[n - 1].id);
                }
            }
        }
    }
}

/// After `clean_jobs` or `jobs`, the table still has a job with the id of a
/// job it had before (so `kill %id` still finds it) exactly when some process
/// of that job was reported still running.
pub proof fn lemma_cleaned_membership(t: JobTableView, polls: Seq<Seq<(u32, ProcessPoll)>>)
    requires
        t.wf(),
        polls_match(t.jobs, polls),
    ensures
        forall|i: int| #![trigger t.jobs[i]]
            0 <= i < t.jobs.len() ==> ((JobTableView {
                jobs: retained(t.jobs, keep_of(polls)),
                next_id: t.next_id,
            }).has_job(t.jobs[i].id) <==> exists|k: int|
                0 <= k < polls[i].len() && (#[trigger] polls[i][k]).1 == ProcessPoll::StillAlive),
{
    assert forall|i: int| #![trigger t.jobs[i]] 0 <= i < t.jobs.len() implies ((JobTableView {
        jobs: retained(t.jobs, keep_of(polls)),
        next_id: t.next_id,
    }).has_job(t.jobs[i].id) <==> exists|k: int|
        0 <= k < polls[i].len() && (#[trigger] polls[i][k]).1 == ProcessPoll::StillAlive) by {
        lemma_retained_member(t.jobs, keep_of(polls), i);
        lemma_keep_iff_still_alive(polls);
        assert(keep_of(polls)[i] == alive_spec(polls[i]));
    }
}

/// Registering a job appends it, with the next id, its processes and its
/// command line, running; the jobs before it are unchanged and the next id
/// goes up by one.
pub proof fn lemma_add_appends(t: JobTableView, pids: Seq<u32>, cmdline: Seq<char>)
    requires
        t.next_id < usize::MAX,
    ensures
        after_add(t, pids, cmdline).jobs.len() == t.jobs.len() + 1,
        forall|i: int| 0 <= i < t.jobs.len() ==> #[trigger] after_add(t, pids, cmdline).jobs[i] == t.jobs[i],
        after_add(t, pids, cmdline).jobs[t.jobs.len() as int].id == t.next_id,
        after_add(t, pids, cmdline).jobs[t.jobs.len() as int].pids == pids,
        after_add(t, pids, cmdline).jobs[t.jobs.len() as int].cmdline == cmdline,
        after_add(t, pids, cmdline).jobs[t.jobs.len() as int].state == JobState::Running,
        after_add(t, pids, cmdline).next_id == t.next_id + 1,
{
}

/// The line that `jobs` prints for a job reads `[`, the job's id in decimal
/// (which `kill %id` accepts back), `] `, `Running` or `Done` as the job's
/// state, three spaces, and the command line.
pub proof fn lemma_job_line_layout(j: JobView)
    ensures
        ({
            let line = job_line_spec(j);
            let d = decimal(j.id as nat);
            let w = if j.state == JobState::Running { seq!['R', 'u', 'n', 'n', 'i', 'n', 'g'] } else {
                seq!['D', 'o', 'n', 'e']
            };
            &&& line == seq!['['] + d + seq![']', ' '] + w + seq![' ', ' ', ' '] + j.cmdline
            &&& parse_usize_spec(line.subrange(1, 1 + d.len() as int)) == Some(j.id)
        }),
{
    reveal_strlit("[");
    reveal_strlit("] ");
    reveal_strlit("Running");
    reveal_strlit("Done");
    reveal_strlit("   ");
    let d = decimal(j.id as nat);
    assert("["@ =~= seq!['[']);
    assert("] "@ =~= seq![']', ' ']);
    assert("   "@ =~= seq![' ', ' ', ' ']);
    assert("Running"@ =~= seq!['R', 'u', 'n', 'n', 'i', 'n', 'g']);
    assert("Done"@ =~= seq!['D', 'o', 'n', 'e']);
    let line = job_line_spec(j);
    assert(line.subrange(1, 1 + d.len() as int) =~= d);
    lemma_parse_decimal(j.id);
}

} // verus!
