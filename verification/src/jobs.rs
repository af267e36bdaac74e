//! The table of background jobs.
//!
//! The table holds what the shell knows of each job as plain values. The
//! handle of the running process stays with the caller, under the job's
//! identifier.

use crate::text::{decimal_digits, push_decimal};
use vstd::prelude::*;
use vstd::string::StringExecFns;

verus! {

/// The state of a job.
#[derive(Debug, Clone, Copy, PartialEq, Eq, Structural)]
pub enum JobStatus {
    Running,
    Stopped,
    Done,
}

/// A background job.
#[derive(Debug)]
pub struct Job {
    /// The shell's own number of the job.
    pub id: u32,
    /// The process id that the system gave.
    pub pid: u32,
    /// The command line that started the job.
    pub command: String,
    pub status: JobStatus,
}

/// A [`Job`] with its command as a character sequence.
pub struct JobView {
    pub id: u32,
    pub pid: u32,
    pub command: Seq<char>,
    pub status: JobStatus,
}

impl View for Job {
    type V = JobView;

    open spec fn view(&self) -> JobView {
        JobView { id: self.id, pid: self.pid, command: self.command@, status: self.status }
    }
}

/// The views of the jobs `v`.
pub open spec fn jobs_view(v: Seq<Job>) -> Seq<JobView> {
    Seq::new(v.len(), |i: int| v[i]@)
}

/// The views of the borrowed jobs `v`.
pub open spec fn job_refs_view(v: Seq<&Job>) -> Seq<JobView> {
    Seq::new(v.len(), |i: int| v[i]@)
}

/// The job `j` marked as done.
pub open spec fn done(j: JobView) -> JobView {
    JobView { status: JobStatus::Done, ..j }
}

/// What a [`JobManager`] holds.
pub struct JobTable {
    /// The active jobs, by ascending identifier.
    pub jobs: Seq<JobView>,
    /// The identifier that the next job gets.
    pub next_id: int,
    /// The process in the foreground, if the shell waits for one.
    pub foreground_pid: Option<u32>,
}

impl JobTable {
    /// Identifiers start at 1, ascend along the table and lie below the
    /// next one to be given.
    pub open spec fn wf(self) -> bool {
        &&& 1 <= self.next_id <= u32::MAX
        &&& forall|i: int| 0 <= i < self.jobs.len() ==> 1 <= (#[trigger] self.jobs[i]).id < self.next_id
        &&& forall|i: int, j: int|
            0 <= i < j < self.jobs.len() ==> (#[trigger] self.jobs[i]).id < (#[trigger] self.jobs[j]).id
    }

    /// Whether an identifier is left for a new job.
    pub open spec fn has_room(self) -> bool {
        self.next_id < u32::MAX
    }

    /// Whether the table holds a job `id`.
    pub open spec fn has(self, id: u32) -> bool {
        exists|i: int| 0 <= i < self.jobs.len() && (#[trigger] self.jobs[i]).id == id
    }

    /// The table after a job for process `pid` was added.
    pub open spec fn add(self, pid: u32, command: Seq<char>) -> JobTable {
        JobTable {
            jobs: self.jobs.push(
                JobView { id: self.next_id as u32, pid, command, status: JobStatus::Running },
            ),
            next_id: self.next_id + 1,
            ..self
        }
    }

    /// The table without the job `id`.
    pub open spec fn remove(self, id: u32) -> JobTable {
        JobTable { jobs: self.jobs.filter(|j: JobView| j.id != id), ..self }
    }

    /// The table without the jobs whose identifier is among `exited`.
    pub open spec fn finish(self, exited: Seq<u32>) -> JobTable {
        JobTable { jobs: self.jobs.filter(|j: JobView| !exited.contains(j.id)), ..self }
    }

    /// The jobs whose identifier is among `exited`, marked as done, in the
    /// order of the table.
    pub open spec fn finished(self, exited: Seq<u32>) -> Seq<JobView> {
        self.jobs.filter(|j: JobView| exited.contains(j.id)).map_values(|j: JobView| done(j))
    }
}

/// The line that announces a new background job: `[id] pid`.
pub open spec fn started_line(id: u32, pid: u32) -> Seq<char> {
    seq!['['] + decimal_digits(id as nat) + seq![']', ' '] + decimal_digits(pid as nat)
}

/// The name of a status as a job listing shows it.
pub open spec fn status_name(status: JobStatus) -> Seq<char> {
    match status {
        JobStatus::Running => "Running"@,
        JobStatus::Stopped => "Stopped"@,
        JobStatus::Done => "Done"@,
    }
}

/// The line of a job in a listing: `[id] status pid command`.
pub open spec fn listing_line(j: JobView) -> Seq<char> {
    seq!['['] + decimal_digits(j.id as nat) + seq![']', ' '] + status_name(j.status) + seq![' ']
        + decimal_digits(j.pid as nat) + seq![' '] + j.command
}

/// The line that reports the end of a background job:
/// `[id] Done command (exit: status)`, after a line break.
pub open spec fn completion_line(j: JobView, exit: Seq<char>) -> Seq<char> {
    seq!['\n', '['] + decimal_digits(j.id as nat) + "] Done "@ + j.command + " (exit: "@ + exit
        + seq![')']
}

/// The line that reports the end of a job in the foreground:
/// `[id] Done (exit: status)`.
pub open spec fn foreground_done_line(id: u32, exit: Seq<char>) -> Seq<char> {
    seq!['['] + decimal_digits(id as nat) + "] Done (exit: "@ + exit + seq![')']
}

/// The line that tells of a job handed to the background:
/// `[id] continued in background`.
pub open spec fn continued_line(id: u32) -> Seq<char> {
    seq!['['] + decimal_digits(id as nat) + "] continued in background"@
}

/// The complaint about a job that `verb` (`fg` or `bg`) did not find:
/// `verb: job id not found`.
pub open spec fn not_found_line(verb: Seq<char>, id: u32) -> Seq<char> {
    verb + ": job "@ + decimal_digits(id as nat) + " not found"@
}

impl Job {
    /// The line of this job in a listing.
    pub fn listing(&self) -> (line: String)
        ensures
            line@ == listing_line(self@),
    {
        let mut line = String::new();
        line.push('[');
        push_decimal(&mut line, self.id as u64);
        line.push(']');
        line.push(' ');
        match self.status {
            JobStatus::Running => line.append("Running"),
            JobStatus::Stopped => line.append("Stopped"),
            JobStatus::Done => line.append("Done"),
        }
        line.push(' ');
        push_decimal(&mut line, self.pid as u64);
        line.push(' ');
        line.append(self.command.as_str());
        assert(line@ =~= listing_line(self@));
        line
    }

    /// The line that announces this job when it starts.
    pub fn started(&self) -> (line: String)
        ensures
            line@ == started_line(self.id, self.pid),
    {
        let mut line = String::new();
        line.push('[');
        push_decimal(&mut line, self.id as u64);
        line.push(']');
        line.push(' ');
        push_decimal(&mut line, self.pid as u64);
        assert(line@ =~= started_line(self.id, self.pid));
        line
    }

    /// The line that reports the end of this job in the background, where
    /// `exit` says how its process ended.
    pub fn completion(&self, exit: &str) -> (line: String)
        ensures
            line@ == completion_line(self@, exit@),
    {
        let mut line = String::new();
        line.push('\n');
        line.push('[');
        push_decimal(&mut line, self.id as u64);
        line.append("] Done ");
        line.append(self.command.as_str());
        line.append(" (exit: ");
        line.append(exit);
        line.push(')');
        assert(line@ =~= completion_line(self@, exit@));
        line
    }

    /// The line that reports the end of this job in the foreground, where
    /// `exit` says how its process ended.
    pub fn foreground_done(&self, exit: &str) -> (line: String)
        ensures
            line@ == foreground_done_line(self.id, exit@),
    {
        let mut line = String::new();
        line.push('[');
        push_decimal(&mut line, self.id as u64);
        line.append("] Done (exit: ");
        line.append(exit);
        line.push(')');
        assert(line@ =~= foreground_done_line(self.id, exit@));
        line
    }
}

/// The line that tells of job `id` handed to the background.
pub fn continued_message(id: u32) -> (line: String)
    ensures
        line@ == continued_line(id),
{
    let mut line = String::new();
    line.push('[');
    push_decimal(&mut line, id as u64);
    line.append("] continued in background");
    assert(line@ =~= continued_line(id));
    line
}

/// The complaint of `verb` about a job `id` that the table does not hold.
pub fn not_found_message(verb: &str, id: u32) -> (line: String)
    ensures
        line@ == not_found_line(verb@, id),
{
    let mut line = String::new();
    line.append(verb);
    line.append(": job ");
    push_decimal(&mut line, id as u64);
    line.append(" not found");
    assert(line@ =~= not_found_line(verb@, id));
    line
}

/// Whether `id` is among `ids`.
fn id_among(ids: &Vec<u32>, id: u32) -> (r: bool)
    ensures
        r == ids@.contains(id),
{
    let mut k: usize = 0;
    while k < ids.len()
        invariant
            0 <= k <= ids.len(),
            forall|j: int| 0 <= j < k ==> ids@[j] != id,
        decreases ids.len() - k,
    {
        if ids[k] == id {
            return true;
        }
        k += 1;
    }
    false
}

/// The table of background jobs.
pub struct JobManager {
    jobs: Vec<Job>,
    next_id: u32,
    foreground_pid: Option<u32>,
}

impl View for JobManager {
    type V = JobTable;

    closed spec fn view(&self) -> JobTable {
        JobTable {
            jobs: jobs_view(self.jobs@),
            next_id: self.next_id as int,
            foreground_pid: self.foreground_pid,
        }
    }
}

impl JobManager {
    /// An empty table whose first job will be job 1.
    pub fn new() -> (m: JobManager)
        ensures
            m@.jobs.len() == 0,
            m@.next_id == 1,
            m@.foreground_pid is None,
            m@.wf(),
    {
        JobManager { jobs: Vec::new(), next_id: 1, foreground_pid: None }
    }

    /// Notes the process that runs in the foreground.
    pub fn set_foreground_pid(&mut self, pid: Option<u32>)
        ensures
            final(self)@ == (JobTable { foreground_pid: pid, ..old(self)@ }),
    {
        self.foreground_pid = pid;
    }

    /// The process that runs in the foreground.
    pub fn get_foreground_pid(&self) -> (pid: Option<u32>)
        ensures
            pid == self@.foreground_pid,
    {
        self.foreground_pid
    }

    /// Whether an identifier is left for a new job.
    pub fn has_room(&self) -> (r: bool)
        ensures
            r == self@.has_room(),
    {
        self.next_id < u32::MAX
    }

    /// Adds a running job for the process `pid` and returns its identifier,
    /// which is larger than every identifier given before.
    pub fn add_job(&mut self, pid: u32, command: String) -> (id: u32)
        requires
            old(self)@.wf(),
            old(self)@.has_room(),
        ensures
            id == old(self)@.next_id,
            final(self)@ == old(self)@.add(pid, command@),
            final(self)@.wf(),
    {
        let id = self.next_id;
        let ghost before = jobs_view(self.jobs@);
        let job = Job { id, pid, command, status: JobStatus::Running };
        self.jobs.push(job);
        self.next_id = id + 1;
        proof {
            assert(jobs_view(self.jobs@) =~= before.push(job@));
            assert forall|i: int| 0 <= i < self@.jobs.len() implies 1 <= (
            #[trigger] self@.jobs[i]).id < self@.next_id by {
                if i < before.len() {
                    assert(self@.jobs[i] == before[i]);
                }
            }
            assert forall|i: int, j: int| 0 <= i < j < self@.jobs.len() implies (
            #[trigger] self@.jobs[i]).id < (#[trigger] self@.jobs[j]).id by {
                assert(self@.jobs[i] == before[i]);
                if j < before.len() {
                    assert(self@.jobs[j] == before[j]);
                }
            }
        }
        id
    }

    /// The index of the job `id` in the table, or the number of jobs where
    /// the table holds none.
    fn index_of(&self, id: u32) -> (k: usize)
        ensures
            k <= self@.jobs.len(),
            k < self@.jobs.len() ==> self@.jobs[k as int].id == id,
            forall|i: int| 0 <= i < k ==> (#[trigger] self@.jobs[i]).id != id,
    {
        let mut k: usize = 0;
        while k < self.jobs.len()
            invariant
                0 <= k <= self.jobs.len(),
                forall|i: int| 0 <= i < k ==> (#[trigger] self@.jobs[i]).id != id,
            decreases self.jobs.len() - k,
        {
            assert(self@.jobs[k as int] == self.jobs@[k as int]@);
            if self.jobs[k].id == id {
                return k;
            }
            k += 1;
        }
        k
    }

    /// The job `id`, if the table holds it: the first of that identifier,
    /// which in a well-formed table is the only one.
    pub fn get_job(&self, id: u32) -> (r: Option<&Job>)
        ensures
            match r {
                Some(job) => job.id == id && exists|k: int|
                    0 <= k < self@.jobs.len() && #[trigger] self@.jobs[k] == job@ && forall|i: int|
                        0 <= i < k ==> (#[trigger] self@.jobs[i]).id != id,
                None => !self@.has(id),
            },
    {
        let k = self.index_of(id);
        if k < self.jobs.len() {
            assert(self@.jobs[k as int] == self.jobs@[k as int]@);
            Some(&self.jobs[k])
        } else {
            None
        }
    }

    /// Takes the job `id` out of the table and returns it, if the table
    /// holds it.
    pub fn remove_job(&mut self, id: u32) -> (r: Option<Job>)
        requires
            old(self)@.wf(),
        ensures
            final(self)@ == old(self)@.remove(id),
            final(self)@.wf(),
            !final(self)@.has(id),
            match r {
                Some(job) => job.id == id && old(self)@.jobs.contains(job@),
                None => !old(self)@.has(id) && final(self)@ == old(self)@,
            },
    {
        let k = self.index_of(id);
        let ghost before = self@.jobs;
        proof {
            lemma_remove_by_id(before, self@.next_id, id, k as int);
        }
        if k < self.jobs.len() {
            assert(before[k as int] == self.jobs@[k as int]@);
            let job = self.jobs.remove(k);
            assert(jobs_view(self.jobs@) =~= before.remove(k as int));
            Some(job)
        } else {
            None
        }
    }

    /// The active jobs, by ascending identifier.
    pub fn list_jobs(&self) -> (r: Vec<&Job>)
        ensures
            job_refs_view(r@) == self@.jobs,
    {
        let mut r: Vec<&Job> = Vec::new();
        let mut i: usize = 0;
        while i < self.jobs.len()
            invariant
                0 <= i <= self.jobs.len(),
                r.len() == i,
                forall|k: int| 0 <= k < i ==> (#[trigger] r@[k])@ == self.jobs@[k]@,
            decreases self.jobs.len() - i,
        {
            r.push(&self.jobs[i]);
            i += 1;
        }
        assert(job_refs_view(r@) =~= self@.jobs);
        r
    }

    /// Takes note that the processes of the jobs `exited` have ended: each
    /// such job leaves the table and is returned, marked as done, in the
    /// order of the table. Identifiers that name no job are ignored.
    pub fn update_jobs(&mut self, exited: &Vec<u32>) -> (ended: Vec<Job>)
        requires
            old(self)@.wf(),
        ensures
            final(self)@ == old(self)@.finish(exited@),
            jobs_view(ended@) == old(self)@.finished(exited@),
            final(self)@.wf(),
    {
        let ghost table = self@;
        let ghost all = self@.jobs;
        let ghost keep = |j: JobView| !exited@.contains(j.id);
        let ghost gone = |j: JobView| exited@.contains(j.id);
        let mut ended: Vec<Job> = Vec::new();
        let mut i: usize = 0;
        let ghost mut seen: int = 0;
        proof {
            assert(all.take(0) =~= Seq::<JobView>::empty());
            assert(all.take(0).filter(keep) =~= Seq::<JobView>::empty()) by {
                all.take(0).lemma_filter_len(keep);
            }
            assert(all.take(0).filter(gone) =~= Seq::<JobView>::empty()) by {
                all.take(0).lemma_filter_len(gone);
            }
            assert(jobs_view(self.jobs@).skip(0) =~= all.skip(0));
            assert(jobs_view(self.jobs@).take(0) =~= Seq::<JobView>::empty());
            assert(jobs_view(ended@) =~= Seq::<JobView>::empty());
            assert(Seq::<JobView>::empty().map_values(|j: JobView| done(j))
                =~= Seq::<JobView>::empty());
        }
        while i < self.jobs.len()
            invariant
                0 <= i <= self.jobs.len(),
                0 <= seen <= all.len(),
                seen == i + ended.len(),
                self.next_id == table.next_id,
                self.foreground_pid == table.foreground_pid,
                keep == (|j: JobView| !exited@.contains(j.id)),
                gone == (|j: JobView| exited@.contains(j.id)),
                jobs_view(self.jobs@).take(i as int) == all.take(seen).filter(keep),
                jobs_view(self.jobs@).skip(i as int) == all.skip(seen),
                jobs_view(ended@) == all.take(seen).filter(gone).map_values(
                    |j: JobView| done(j),
                ),
            decreases self.jobs.len() - i,
        {
            let ghost now = jobs_view(self.jobs@);
            let ghost out = jobs_view(ended@);
            assert(now[i as int] == self.jobs@[i as int]@);
            assert(now.skip(i as int)[0] == all.skip(seen)[0]);
            let ghost job = all[seen];
            proof {
                assert(now.skip(i as int).len() == all.skip(seen).len());
                assert(all.take(seen + 1) =~= all.take(seen).push(job));
                all.take(seen).lemma_filter_push(job, keep);
                all.take(seen).lemma_filter_push(job, gone);
            }
            if id_among(exited, self.jobs[i].id) {
                let mut taken = self.jobs.remove(i);
                taken.status = JobStatus::Done;
                ended.push(taken);
                proof {
                    assert(taken@ == done(job));
                    assert(jobs_view(self.jobs@) =~= now.remove(i as int));
                    assert(jobs_view(self.jobs@).take(i as int) =~= now.take(i as int));
                    assert(jobs_view(self.jobs@).skip(i as int) =~= now.skip(i as int).skip(1));
                    assert(all.skip(seen).skip(1) =~= all.skip(seen + 1));
                    assert(jobs_view(ended@) =~= out.push(done(job)));
                    assert(all.take(seen).filter(gone).push(job).map_values(
                        |j: JobView| done(j),
                    ) =~= all.take(seen).filter(gone).map_values(|j: JobView| done(j)).push(
                        done(job),
                    ));
                    seen = seen + 1;
                }
            } else {
                proof {
                    assert(now.take(i + 1) =~= now.take(i as int).push(job));
                    assert(now.skip(i + 1) =~= now.skip(i as int).skip(1));
                    assert(all.skip(seen).skip(1) =~= all.skip(seen + 1));
                    seen = seen + 1;
                }
                i += 1;
            }
        }
        proof {
            assert(all.skip(seen).len() == 0);
            assert(all.take(seen) =~= all);
            assert(jobs_view(self.jobs@).take(i as int) =~= jobs_view(self.jobs@));
            lemma_filter_keeps_order(all, table.next_id, keep);
        }
        ended
    }
}

/// Taking jobs out of a well-formed table leaves a well-formed table.
pub proof fn lemma_filter_keeps_order(
    jobs: Seq<JobView>,
    next_id: int,
    keep: spec_fn(JobView) -> bool,
)
    requires
        (JobTable { jobs, next_id, foreground_pid: None }).wf(),
    ensures
        (JobTable { jobs: jobs.filter(keep), next_id, foreground_pid: None }).wf(),
        forall|i: int|
            0 <= i < jobs.filter(keep).len() ==> jobs.contains(#[trigger] jobs.filter(keep)[i])
                && keep(jobs.filter(keep)[i]),
        forall|i: int|
            0 <= i < jobs.len() && keep(jobs[i]) ==> jobs.filter(keep).contains(
                #[trigger] jobs[i],
            ),
    decreases jobs.len(),
{
    reveal(Seq::filter);
    if jobs.len() > 0 {
        let rest = jobs.drop_last();
        let last = jobs.last();
        assert forall|i: int| 0 <= i < rest.len() implies rest[i] == jobs[i] by {}
        lemma_filter_keeps_order(rest, next_id, keep);
        let f = rest.filter(keep);
        let g = jobs.filter(keep);
        assert forall|i: int| 0 <= i < f.len() implies (#[trigger] f[i]).id < last.id by {
            assert(rest.contains(f[i]));
            let k = choose|k: int| 0 <= k < rest.len() && rest[k] == f[i];
            assert(jobs[k].id < jobs[jobs.len() - 1].id);
        }
        assert forall|i: int| 0 <= i < g.len() implies jobs.contains(#[trigger] g[i]) && keep(
            g[i],
        ) by {
            if i < f.len() {
                assert(rest.contains(f[i]));
                let k = choose|k: int| 0 <= k < rest.len() && rest[k] == f[i];
                assert(jobs[k] == g[i]);
            } else {
                assert(jobs[jobs.len() - 1] == g[i]);
            }
        }
        assert forall|i: int| 0 <= i < jobs.len() && keep(jobs[i]) implies g.contains(
            #[trigger] jobs[i],
        ) by {
            if i < rest.len() {
                assert(f.contains(rest[i]));
                let k = choose|k: int| 0 <= k < f.len() && f[k] == rest[i];
                assert(g[k] == jobs[i]);
            } else {
                assert(g[g.len() - 1] == jobs[i]);
            }
        }
        assert forall|i: int| 0 <= i < g.len() implies 1 <= (#[trigger] g[i]).id < next_id by {
            let k = choose|k: int| 0 <= k < jobs.len() && jobs[k] == g[i];
            assert(1 <= jobs[k].id < next_id);
        }
    }
}

/// In a well-formed table the job `id` stands at one index at most, and
/// taking out the jobs named `id` takes out that one.
pub proof fn lemma_remove_by_id(jobs: Seq<JobView>, next_id: int, id: u32, k: int)
    requires
        (JobTable { jobs, next_id, foreground_pid: None }).wf(),
        0 <= k <= jobs.len(),
        k < jobs.len() ==> jobs[k].id == id,
        forall|i: int| 0 <= i < k ==> (#[trigger] jobs[i]).id != id,
    ensures
        k < jobs.len() ==> jobs.filter(|j: JobView| j.id != id) == jobs.remove(k),
        k == jobs.len() ==> jobs.filter(|j: JobView| j.id != id) == jobs,
        (JobTable { jobs: jobs.filter(|j: JobView| j.id != id), next_id, foreground_pid: None }).wf(),
        !(JobTable { jobs: jobs.filter(|j: JobView| j.id != id), next_id, foreground_pid: None }).has(
            id,
        ),
        k == jobs.len() ==> !(JobTable { jobs, next_id, foreground_pid: None }).has(id),
    decreases jobs.len(),
{
    let keep = |j: JobView| j.id != id;
    reveal(Seq::filter);
    lemma_filter_keeps_order(jobs, next_id, keep);
    if jobs.len() > 0 {
        let rest = jobs.drop_last();
        let last = jobs.last();
        assert forall|i: int| 0 <= i < rest.len() implies rest[i] == jobs[i] by {}
        if k < jobs.len() - 1 {
            lemma_remove_by_id(rest, next_id, id, k);
            assert(jobs[k].id < jobs[jobs.len() - 1].id);
            assert(rest.remove(k).push(last) =~= jobs.remove(k));
        } else if k == jobs.len() - 1 {
            lemma_remove_by_id(rest, next_id, id, k);
            assert(rest =~= jobs.remove(k));
        } else {
            lemma_remove_by_id(rest, next_id, id, k - 1);
            assert(rest.push(last) =~= jobs);
        }
    }
}

/// Identifiers are given in strictly ascending order, starting at the
/// table's next identifier: adding a job raises it by one, and neither
/// taking a job out nor the end of jobs changes it.
pub proof fn lemma_identifiers_ascend(
    t: JobTable,
    pid: u32,
    command: Seq<char>,
    id: u32,
    exited: Seq<u32>,
)
    requires
        t.wf(),
    ensures
        t.add(pid, command).next_id == t.next_id + 1,
        t.has_room() ==> t.add(pid, command).wf(),
        t.has_room() ==> t.add(pid, command).jobs.last().id == t.next_id,
        t.remove(id).next_id == t.next_id,
        t.remove(id).wf(),
        t.finish(exited).next_id == t.next_id,
        t.finish(exited).wf(),
{
    lemma_filter_keeps_order(t.jobs, t.next_id, |j: JobView| j.id != id);
    lemma_filter_keeps_order(t.jobs, t.next_id, |j: JobView| !exited.contains(j.id));
    if t.has_room() {
        let a = t.add(pid, command);
        assert forall|i: int| 0 <= i < a.jobs.len() implies 1 <= (#[trigger] a.jobs[i]).id
            < a.next_id by {
            if i < t.jobs.len() {
                assert(a.jobs[i] == t.jobs[i]);
            }
        }
        assert forall|i: int, j: int| 0 <= i < j < a.jobs.len() implies (#[trigger] a.jobs[i]).id
            < (#[trigger] a.jobs[j]).id by {
            assert(a.jobs[i] == t.jobs[i]);
            if j < t.jobs.len() {
                assert(a.jobs[j] == t.jobs[j]);
            }
        }
    }
}

/// A job whose process has ended leaves the table with the next update and
/// is reported by it exactly once: it stands once among the ended jobs, it
/// is gone from the table, and no later update reports it again.
pub proof fn lemma_ended_job_leaves_once(t: JobTable, exited: Seq<u32>, id: u32, later: Seq<u32>)
    requires
        t.wf(),
        t.has(id),
        exited.contains(id),
    ensures
        !t.finish(exited).has(id),
        exists|i: int|
            0 <= i < t.finished(exited).len() && (#[trigger] t.finished(exited)[i]).id == id
                && forall|j: int|
                0 <= j < t.finished(exited).len() && j != i ==> (#[trigger] t.finished(
                    exited,
                )[j]).id != id,
        forall|i: int|
            0 <= i < t.finish(exited).finished(later).len() ==> (#[trigger] t.finish(
                exited,
            ).finished(later)[i]).id != id,
{
    let keep = |j: JobView| !exited.contains(j.id);
    let gone = |j: JobView| exited.contains(j.id);
    let back = |j: JobView| later.contains(j.id);
    lemma_filter_keeps_order(t.jobs, t.next_id, keep);
    lemma_filter_keeps_order(t.jobs, t.next_id, gone);
    let kept = t.jobs.filter(keep);
    let left = t.jobs.filter(gone);
    lemma_filter_keeps_order(kept, t.next_id, back);
    // gone from the table
    assert forall|i: int| 0 <= i < kept.len() implies (#[trigger] kept[i]).id != id by {
        assert(keep(kept[i]));
    }
    // once among the ended jobs
    let k = choose|k: int| 0 <= k < t.jobs.len() && (#[trigger] t.jobs[k]).id == id;
    assert(gone(t.jobs[k]));
    assert(left.contains(t.jobs[k]));
    let i = choose|i: int| 0 <= i < left.len() && left[i] == t.jobs[k];
    let ended = t.finished(exited);
    assert(ended.len() == left.len());
    assert(ended[i].id == id);
    assert forall|j: int| 0 <= j < ended.len() && j != i implies (#[trigger] ended[j]).id
        != id by {
        assert(ended[j].id == left[j].id);
        if j < i {
            assert(left[j].id < left[i].id);
        } else {
            assert(left[i].id < left[j].id);
        }
    }
    // never reported again
    let again = t.finish(exited).finished(later);
    assert forall|j: int| 0 <= j < again.len() implies (#[trigger] again[j]).id != id by {
        let f = kept.filter(back);
        assert(again[j].id == f[j].id);
        assert(kept.contains(f[j]));
        let m = choose|m: int| 0 <= m < kept.len() && kept[m] == f[j];
        assert(kept[m].id != id);
    }
}

} // verus!
