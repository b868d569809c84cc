//! The job table: one record per launched pipeline, in insertion order.

use crate::text::{decimal, push_decimal, push_signed_decimal, push_text, signed_decimal};
use vstd::prelude::*;

verus! {

/// What the shell is doing with a job.
#[derive(Clone, Copy, Debug, PartialEq, Eq, Structural)]
pub enum ProccessState {
    /// The shell blocks on the job.
    FG,
    /// The job runs while the shell accepts input.
    BG,
    /// The job is suspended until `fg` or `bg` resumes it.
    ST,
}

/// The bookkeeping record of one launched pipeline.
#[derive(Debug)]
pub struct Job {
    /// Process id of the pipeline's first process.
    pub pid: i32,
    /// Process group of the whole pipeline; the target of group signals.
    pub pgid: i32,
    /// Job id, assigned by the table.
    pub jid: u32,
    pub state: ProccessState,
    /// The command line that started the job, kept for the listing.
    pub cmdline: String,
}

/// A job as the contracts see it: the command line is its characters.
pub struct JobView {
    pub pid: i32,
    pub pgid: i32,
    pub jid: u32,
    pub state: ProccessState,
    pub cmdline: Seq<char>,
}

impl View for Job {
    type V = JobView;

    open spec fn view(&self) -> JobView {
        JobView {
            pid: self.pid,
            pgid: self.pgid,
            jid: self.jid,
            state: self.state,
            cmdline: self.cmdline@,
        }
    }
}

/// The short name of a state.
pub open spec fn state_name(state: ProccessState) -> Seq<char> {
    match state {
        ProccessState::FG => "FG"@,
        ProccessState::BG => "BG"@,
        ProccessState::ST => "ST"@,
    }
}

/// The word that the listing shows for a state.
pub open spec fn state_word(state: ProccessState) -> Seq<char> {
    match state {
        ProccessState::FG => "Foreground"@,
        ProccessState::BG => "Running"@,
        ProccessState::ST => "Stopped"@,
    }
}

/// The listing's text for one job: `[jid] (pid) <state> <command line>`.
pub open spec fn job_line(job: JobView) -> Seq<char> {
    "["@ + decimal(job.jid as nat) + "] ("@ + signed_decimal(job.pid as int) + ") "@ + state_word(job.state)
        + " "@ + job.cmdline
}

/// The listing of a table: each job's text in insertion order, closed by
/// a line feed where the command line does not end in one.
pub open spec fn jobs_listing(s: Seq<JobView>) -> Seq<char>
    decreases s.len(),
{
    if s.len() == 0 {
        Seq::<char>::empty()
    } else {
        let line = job_line(s.last());
        let closed = if line.last() == '\n' {
            line
        } else {
            line.push('\n')
        };
        jobs_listing(s.drop_last()) + closed
    }
}

impl ProccessState {
    /// The short name of the state: `FG`, `BG` or `ST`.
    pub fn to_string(&self) -> (text: String)
        ensures
            text@ == state_name(*self),
    {
        let mut text = String::new();
        match self {
            ProccessState::FG => push_text(&mut text, "FG"),
            ProccessState::BG => push_text(&mut text, "BG"),
            ProccessState::ST => push_text(&mut text, "ST"),
        }
        assert(text@ =~= state_name(*self));
        text
    }
}

impl Job {
    /// Appends the listing's text for this job to `out`.
    fn push_line(&self, out: &mut String)
        ensures
            final(out)@ == old(out)@ + job_line(self@),
    {
        push_text(out, "[");
        push_decimal(out, self.jid as u64);
        push_text(out, "] (");
        push_signed_decimal(out, self.pid);
        push_text(out, ") ");
        match self.state {
            ProccessState::FG => push_text(out, "Foreground"),
            ProccessState::BG => push_text(out, "Running"),
            ProccessState::ST => push_text(out, "Stopped"),
        }
        push_text(out, " ");
        push_text(out, self.cmdline.as_str());
        assert(out@ =~= old(out)@ + job_line(self@));
    }

    /// The listing's text for this job.
    pub fn to_string(&self) -> (text: String)
        ensures
            text@ == job_line(self@),
    {
        let mut text = String::new();
        self.push_line(&mut text);
        assert(text@ =~= job_line(self@));
        text
    }

    pub fn new(pid: i32, pgid: i32, jid: u32, state: ProccessState, cmdline: &str) -> (job: Self)
        ensures
            job@ == (JobView { pid, pgid, jid, state, cmdline: cmdline@ }),
    {
        Self { pid: pid, pgid: pgid, jid: jid, state: state, cmdline: cmdline.to_owned() }
    }
}

/// Some job of `s` has process id `pid`.
pub open spec fn has_pid(s: Seq<JobView>, pid: i32) -> bool {
    exists|i: int| 0 <= i < s.len() && #[trigger] s[i].pid == pid
}

/// Some job of `s` has job id `jid`.
pub open spec fn has_jid(s: Seq<JobView>, jid: u32) -> bool {
    exists|i: int| 0 <= i < s.len() && #[trigger] s[i].jid == jid
}

/// Some job of `s` is in the foreground.
pub open spec fn has_foreground(s: Seq<JobView>) -> bool {
    exists|i: int| 0 <= i < s.len() && #[trigger] s[i].state == ProccessState::FG
}

/// The position of the first job of `s` with process id `pid`, or the
/// length of `s` if there is none.
pub open spec fn pid_index(s: Seq<JobView>, pid: i32) -> int
    decreases s.len(),
{
    if s.len() == 0 {
        0
    } else if s[0].pid == pid {
        0
    } else {
        1 + pid_index(s.drop_first(), pid)
    }
}

/// The position of the first job of `s` with job id `jid`, or the length of
/// `s` if there is none.
pub open spec fn jid_index(s: Seq<JobView>, jid: u32) -> int
    decreases s.len(),
{
    if s.len() == 0 {
        0
    } else if s[0].jid == jid {
        0
    } else {
        1 + jid_index(s.drop_first(), jid)
    }
}

/// The position of the first foreground job of `s`, or the length of `s`
/// if there is none.
pub open spec fn fg_index(s: Seq<JobView>) -> int
    decreases s.len(),
{
    if s.len() == 0 {
        0
    } else if s[0].state == ProccessState::FG {
        0
    } else {
        1 + fg_index(s.drop_first())
    }
}

/// The table `s`, whose next job id is `next_jid`, can take a new job with
/// process id `pid` in process group `pgid` and state `state`: both ids are
/// positive, no live job has the process id, no job is in the foreground if
/// the new one is to be, and a job id is left.
pub open spec fn can_add(s: Seq<JobView>, next_jid: u32, pid: i32, pgid: i32, state: ProccessState) -> bool {
    &&& pid >= 1
    &&& pgid >= 1
    &&& !has_pid(s, pid)
    &&& state == ProccessState::FG ==> !has_foreground(s)
    &&& next_jid < u32::MAX
}

/// The job id that the next insertion into `s` receives: one more than the
/// largest live job id, and 1 for the empty table.
pub open spec fn next_jid_of(s: Seq<JobView>) -> int
    decreases s.len(),
{
    if s.len() == 0 {
        1
    } else {
        let rest = next_jid_of(s.drop_last());
        if s.last().jid + 1 > rest {
            s.last().jid + 1
        } else {
            rest
        }
    }
}

/// What holds of the jobs of every table: process ids and job ids are
/// positive and occur once each, job ids grow in insertion order, and at
/// most one job is in the foreground.
pub open spec fn table_wf(s: Seq<JobView>) -> bool {
    &&& forall|i: int| 0 <= i < s.len() ==> (#[trigger] s[i]).pid >= 1 && s[i].pgid >= 1 && s[i].jid >= 1
    &&& forall|i: int, j: int| 0 <= i < j < s.len() ==> (#[trigger] s[i]).pid != (#[trigger] s[j]).pid
    &&& forall|i: int, j: int| 0 <= i < j < s.len() ==> (#[trigger] s[i]).jid < (#[trigger] s[j]).jid
    &&& forall|i: int, j: int|
        0 <= i < s.len() && 0 <= j < s.len() && (#[trigger] s[i]).state == ProccessState::FG && (#[trigger] s[j]).state
            == ProccessState::FG ==> i == j
}

/// Every job id of `s` lies below `next_jid_of(s)`.
pub proof fn lemma_next_jid_above(s: Seq<JobView>)
    ensures
        next_jid_of(s) >= 1,
        forall|i: int| 0 <= i < s.len() ==> (#[trigger] s[i]).jid < next_jid_of(s),
        s.len() > 0 ==> exists|i: int| 0 <= i < s.len() && (#[trigger] s[i]).jid + 1 == next_jid_of(s),
    decreases s.len(),
{
    if s.len() > 0 {
        let t = s.drop_last();
        lemma_next_jid_above(t);
        assert forall|i: int| 0 <= i < s.len() implies (#[trigger] s[i]).jid < next_jid_of(s) by {
            if i < t.len() {
                assert(t[i] == s[i]);
            }
        }
        if s.last().jid + 1 >= next_jid_of(t) {
            assert(s[s.len() - 1].jid + 1 == next_jid_of(s));
        } else {
            let k = choose|k: int| 0 <= k < t.len() && (#[trigger] t[k]).jid + 1 == next_jid_of(t);
            assert(s[k] == t[k]);
            assert(s[k].jid + 1 == next_jid_of(s));
        }
    }
}

/// The iterator that `iter_mut` of a slice returns.
#[verifier::external_type_specification]
#[verifier::external_body]
#[verifier::reject_recursive_types(Item)]
pub struct ExIterMut<'a, Item: 'a>(std::slice::IterMut<'a, Item>);

/// The jobs that an iterator over jobs has yet to hand out, in the order
/// in which it hands them out.
pub uninterp spec fn still_to_come(jobs: std::slice::IterMut<'_, Job>) -> Seq<JobView>;

/// `iter_mut` of std on the jobs of a vector: the iterator hands out every
/// job of the vector for change, from the first to the last, so what it
/// has yet to hand out when it is made are the jobs of the vector as they
/// are. The vector keeps its length; what its jobs hold afterwards is up
/// to the caller.
#[verifier::external_body]
fn all_for_change(jobs: &mut Vec<Job>) -> (iter: std::slice::IterMut<'_, Job>)
    ensures
        still_to_come(iter) == old(jobs)@.map_values(|j: Job| j@),
        final(jobs)@.len() == old(jobs)@.len(),
{
    jobs.iter_mut()
}

/// The job table: the live jobs in insertion order.
pub struct Jobs {
    jobs: Vec<Job>,
    next_jid: u32,
}

impl View for Jobs {
    type V = Seq<JobView>;

    closed spec fn view(&self) -> Seq<JobView> {
        self.jobs@.map_values(|j: Job| j@)
    }
}

impl Jobs {
    /// The job id that the table hands to the next insertion.
    pub closed spec fn spec_next_jid(&self) -> u32 {
        self.next_jid
    }

    /// The jobs satisfy `table_wf` and the next job id is the one that
    /// `next_jid_of` gives.
    pub open spec fn wf(&self) -> bool {
        &&& table_wf(self@)
        &&& self.spec_next_jid() == next_jid_of(self@)
    }

    pub fn new() -> (table: Self)
        ensures
            table@ == Seq::<JobView>::empty(),
            table.spec_next_jid() == 1,
            table.wf(),
    {
        let table = Self { jobs: Vec::new(), next_jid: 1 };
        assert(table@ =~= Seq::<JobView>::empty());
        table
    }

    /// The number of live jobs.
    pub fn len(&self) -> (n: usize)
        ensures
            n == self@.len(),
    {
        self.jobs.len()
    }

    /// The job id that the next insertion receives.
    pub fn next_jid(&self) -> (jid: u32)
        ensures
            jid == self.spec_next_jid(),
    {
        self.next_jid
    }

    /// Whether `addjob` can be called with these arguments.
    pub fn accepts(&self, pid: i32, pgid: i32, state: ProccessState) -> (ok: bool)
        ensures
            ok == can_add(self@, self.spec_next_jid(), pid, pgid, state),
    {
        if pid < 1 || pgid < 1 || self.next_jid == u32::MAX {
            return false;
        }
        if self.job_by_pid(pid).is_some() {
            return false;
        }
        match state {
            ProccessState::FG => self.foreground().is_none(),
            _ => true,
        }
    }

    /// The job with process id `pid`, if there is one.
    pub fn job_by_pid(&self, pid: i32) -> (found: Option<&Job>)
        ensures
            match found {
                Some(job) => has_pid(self@, pid) && job@ == self@[pid_index(self@, pid)],
                None => !has_pid(self@, pid),
            },
    {
        let mut i: usize = 0;
        while i < self.jobs.len()
            invariant
                i <= self.jobs.len(),
                forall|k: int| 0 <= k < i ==> (#[trigger] self@[k]).pid != pid,
            decreases self.jobs.len() - i,
        {
            if self.jobs[i].pid == pid {
                proof {
                    lemma_pid_index_first(self@, pid, i as int);
                }
                return Some(&self.jobs[i]);
            }
            i += 1;
        }
        proof {
            lemma_pid_index_none(self@, pid);
        }
        None
    }

    /// The job in the foreground, if there is one.
    pub fn foreground(&self) -> (found: Option<&Job>)
        ensures
            match found {
                Some(job) => has_foreground(self@) && job@ == self@[fg_index(self@)],
                None => !has_foreground(self@),
            },
    {
        let mut i: usize = 0;
        while i < self.jobs.len()
            invariant
                i <= self.jobs.len(),
                forall|k: int| 0 <= k < i ==> (#[trigger] self@[k]).state != ProccessState::FG,
            decreases self.jobs.len() - i,
        {
            match self.jobs[i].state {
                ProccessState::FG => {
                    proof {
                        lemma_fg_index_first(self@, i as int);
                    }
                    return Some(&self.jobs[i]);
                },
                _ => {},
            }
            i += 1;
        }
        proof {
            lemma_fg_index_none(self@);
        }
        None
    }

    /// Inserts a job at the end of the table and returns the job id that it
    /// was given: one more than the largest live job id.
    pub fn addjob(&mut self, pid: i32, pgid: i32, state: ProccessState, cmdline: &str) -> (jid: u32)
        requires
            old(self).wf(),
            can_add(old(self)@, old(self).spec_next_jid(), pid, pgid, state),
        ensures
            final(self).wf(),
            jid == next_jid_of(old(self)@),
            final(self).spec_next_jid() == jid + 1,
            final(self)@ == old(self)@.push(JobView { pid, pgid, jid, state, cmdline: cmdline@ }),
    {
        let jid = self.next_jid;
        let job = Job::new(pid, pgid, jid, state, cmdline);
        self.jobs.push(job);
        self.next_jid = self.next_jid + 1;
        proof {
            let before = old(self)@;
            let added = JobView { pid, pgid, jid, state, cmdline: cmdline@ };
            assert(self@ =~= before.push(added));
            lemma_push_keeps_wf(before, added);
        }
        jid
    }

    /// Removes the job with process id `pid`. Fails when no live job has
    /// that process id, and then changes nothing.
    pub fn delete_job(&mut self, pid: i32) -> (res: Result<&'static str, &'static str>)
        requires
            old(self).wf(),
        ensures
            final(self).wf(),
            res is Ok <==> has_pid(old(self)@, pid),
            res is Ok ==> final(self)@ == old(self)@.remove(pid_index(old(self)@, pid)),
            res is Err ==> final(self)@ == old(self)@,
            final(self).spec_next_jid() <= old(self).spec_next_jid(),
            res matches Ok(text) ==> text@ == "Successfully removed job"@,
            res matches Err(text) ==> text@ == "Invalid PID"@,
    {
        if pid < 1 {
            return Err("Invalid PID");
        }
        let mut i: usize = 0;
        while i < self.jobs.len()
            invariant
                i <= self.jobs.len(),
                *self == *old(self),
                self.wf(),
                forall|k: int| 0 <= k < i ==> (#[trigger] self@[k]).pid != pid,
            decreases self.jobs.len() - i,
        {
            if self.jobs[i].pid == pid {
                proof {
                    lemma_pid_index_first(self@, pid, i as int);
                    lemma_next_jid_above(self@);
                    lemma_remove_keeps_wf(self@, i as int);
                }
                self.jobs.remove(i);
                assert(self@ =~= old(self)@.remove(i as int));
                self.set_next_jid();
                return Ok("Successfully removed job");
            }
            i += 1;
        }
        proof {
            lemma_pid_index_none(self@, pid);
        }
        Err("Invalid PID")
    }

    /// Looks a job up by job id and hands it out for change. The table is
    /// searched: a job's position says nothing of its job id once jobs have
    /// left the table.
    pub fn get_job_jid(&mut self, jid: u32) -> (found: Option<&mut Job>)
        ensures
            final(self).spec_next_jid() == old(self).spec_next_jid(),
            match found {
                Some(job) => {
                    &&& has_jid(old(self)@, jid)
                    &&& job@ == old(self)@[jid_index(old(self)@, jid)]
                    &&& final(self)@ == old(self)@.update(jid_index(old(self)@, jid), final(job)@)
                },
                None => !has_jid(old(self)@, jid) && final(self)@ == old(self)@,
            },
    {
        let mut i: usize = 0;
        while i < self.jobs.len()
            invariant
                i <= self.jobs.len(),
                *self == *old(self),
                forall|k: int| 0 <= k < i ==> (#[trigger] self@[k]).jid != jid,
            decreases self.jobs.len() - i,
        {
            if self.jobs[i].jid == jid {
                proof {
                    lemma_jid_index_first(self@, jid, i as int);
                }
                let job = &mut self.jobs[i];
                return Some(job);
            }
            i += 1;
        }
        proof {
            lemma_jid_index_none(self@, jid);
        }
        None
    }

    /// The live jobs in insertion order.
    pub fn iter(&self) -> (jobs: std::slice::Iter<'_, Job>)
        ensures
            vstd::std_specs::slice::into_iter_elts(jobs).map_values(|j: Job| j@) == self@,
    {
        self.jobs.iter()
    }

    /// The live jobs in insertion order, each handed out for change: what
    /// the iterator has to hand out are the jobs of the table as they are
    /// at the call. The table keeps the number of its jobs and its next
    /// job id; the jobs are as the caller leaves them.
    pub fn iter_mut(&mut self) -> (jobs: std::slice::IterMut<'_, Job>)
        ensures
            still_to_come(jobs) == old(self)@,
            final(self)@.len() == old(self)@.len(),
            final(self).spec_next_jid() == old(self).spec_next_jid(),
    {
        all_for_change(&mut self.jobs)
    }

    /// The listing of the table, one line for each live job in insertion
    /// order.
    pub fn to_string(&self) -> (text: String)
        ensures
            text@ == jobs_listing(self@),
    {
        let mut text = String::new();
        let mut i: usize = 0;
        while i < self.jobs.len()
            invariant
                i <= self.jobs.len(),
                text@ == jobs_listing(self@.take(i as int)),
            decreases self.jobs.len() - i,
        {
            proof {
                let longer = self@.take(i + 1);
                assert(longer.drop_last() =~= self@.take(i as int));
                assert(longer.last() == self@[i as int]);
            }
            let ghost before = text@;
            self.jobs[i].push_line(&mut text);
            let ghost line = job_line(self@[i as int]);
            assert(text@ =~= before + line);
            assert(line.len() > 0) by {
                reveal_strlit("[");
            }
            let n = self.jobs[i].cmdline.as_str().unicode_len();
            let ends = n > 0 && self.jobs[i].cmdline.as_str().get_char(n - 1) == '\n';
            assert(ends == (line.last() == '\n')) by {
                reveal_strlit(" ");
            }
            if !ends {
                text.push('\n');
            }
            i += 1;
        }
        assert(self@.take(i as int) =~= self@);
        text
    }

    /// Sets the next job id to one more than the largest live job id.
    fn set_next_jid(&mut self)
        requires
            forall|i: int| 0 <= i < old(self)@.len() ==> (#[trigger] old(self)@[i]).jid < u32::MAX,
        ensures
            final(self)@ == old(self)@,
            final(self).spec_next_jid() == next_jid_of(old(self)@),
    {
        let mut max: u32 = 0;
        let mut i: usize = 0;
        while i < self.jobs.len()
            invariant
                i <= self.jobs.len(),
                *self == *old(self),
                forall|k: int| 0 <= k < self@.len() ==> (#[trigger] self@[k]).jid < u32::MAX,
                max < u32::MAX,
                max + 1 == next_jid_of(self@.take(i as int)),
            decreases self.jobs.len() - i,
        {
            proof {
                let longer = self@.take(i + 1);
                assert(longer.drop_last() =~= self@.take(i as int));
                assert(longer.last() == self@[i as int]);
            }
            if self.jobs[i].jid > max {
                max = self.jobs[i].jid;
            }
            i += 1;
        }
        assert(self@.take(i as int) =~= self@);
        self.next_jid = max + 1;
    }

    /// Looks a job up by process id and hands it out for change. The table
    /// after the call is the table before it with that job as the caller
    /// leaves it.
    pub fn get_job_pid(&mut self, pid: i32) -> (found: Option<&mut Job>)
        ensures
            final(self).spec_next_jid() == old(self).spec_next_jid(),
            match found {
                Some(job) => {
                    &&& has_pid(old(self)@, pid)
                    &&& job@ == old(self)@[pid_index(old(self)@, pid)]
                    &&& final(self)@ == old(self)@.update(pid_index(old(self)@, pid), final(job)@)
                },
                None => !has_pid(old(self)@, pid) && final(self)@ == old(self)@,
            },
    {
        let mut i: usize = 0;
        while i < self.jobs.len()
            invariant
                i <= self.jobs.len(),
                *self == *old(self),
                forall|k: int| 0 <= k < i ==> (#[trigger] self@[k]).pid != pid,
            decreases self.jobs.len() - i,
        {
            if self.jobs[i].pid == pid {
                proof {
                    lemma_pid_index_first(self@, pid, i as int);
                }
                let job = &mut self.jobs[i];
                return Some(job);
            }
            i += 1;
        }
        proof {
            lemma_pid_index_none(self@, pid);
        }
        None
    }
}

/// Where no job before position `i` has the process id and the job at `i`
/// has it, `pid_index` is `i`.
pub proof fn lemma_pid_index_first(s: Seq<JobView>, pid: i32, i: int)
    requires
        0 <= i < s.len(),
        s[i].pid == pid,
        forall|k: int| 0 <= k < i ==> (#[trigger] s[k]).pid != pid,
    ensures
        pid_index(s, pid) == i,
        has_pid(s, pid),
    decreases i,
{
    if i > 0 {
        let t = s.drop_first();
        assert(s[0].pid != pid);
        assert forall|k: int| 0 <= k < i - 1 implies (#[trigger] t[k]).pid != pid by {
            assert(t[k] == s[k + 1]);
        }
        lemma_pid_index_first(t, pid, i - 1);
    }
}

/// Where no job has the process id, `pid_index` is the length.
pub proof fn lemma_pid_index_none(s: Seq<JobView>, pid: i32)
    requires
        forall|k: int| 0 <= k < s.len() ==> (#[trigger] s[k]).pid != pid,
    ensures
        pid_index(s, pid) == s.len(),
        !has_pid(s, pid),
    decreases s.len(),
{
    if s.len() > 0 {
        let t = s.drop_first();
        assert(s[0].pid != pid);
        assert forall|k: int| 0 <= k < t.len() implies (#[trigger] t[k]).pid != pid by {
            assert(t[k] == s[k + 1]);
        }
        lemma_pid_index_none(t, pid);
    }
}

/// Adding a job with a fresh process id and the next job id keeps a
/// well-formed table well-formed.
pub proof fn lemma_push_keeps_wf(s: Seq<JobView>, job: JobView)
    requires
        table_wf(s),
        job.pid >= 1,
        job.pgid >= 1,
        job.jid == next_jid_of(s),
        !has_pid(s, job.pid),
        job.state == ProccessState::FG ==> !has_foreground(s),
    ensures
        table_wf(s.push(job)),
        next_jid_of(s.push(job)) == job.jid + 1,
{
    let t = s.push(job);
    lemma_next_jid_above(s);
    assert(t.drop_last() =~= s);
    assert(t.last() == job);
    assert forall|i: int, j: int| 0 <= i < j < t.len() implies (#[trigger] t[i]).pid != (#[trigger] t[j]).pid by {
        if j == s.len() {
            assert(s[i].pid != job.pid);
        } else {
            assert(t[i] == s[i] && t[j] == s[j]);
        }
    }
    assert forall|i: int, j: int| 0 <= i < j < t.len() implies (#[trigger] t[i]).jid < (#[trigger] t[j]).jid by {
        if j == s.len() {
            assert(s[i].jid < next_jid_of(s));
        } else {
            assert(t[i] == s[i] && t[j] == s[j]);
        }
    }
    assert forall|i: int, j: int|
        0 <= i < t.len() && 0 <= j < t.len() && (#[trigger] t[i]).state == ProccessState::FG && (#[trigger] t[j]).state
            == ProccessState::FG implies i == j by {
        if i < s.len() {
            assert(s[i].state == ProccessState::FG);
        }
        if j < s.len() {
            assert(s[j].state == ProccessState::FG);
        }
    }
    assert forall|i: int| 0 <= i < t.len() implies (#[trigger] t[i]).pid >= 1 && t[i].pgid >= 1 && t[i].jid >= 1 by {
        if i < s.len() {
            assert(t[i] == s[i]);
        }
    }
}

/// Removing a job keeps a well-formed table well-formed.
pub proof fn lemma_remove_keeps_wf(s: Seq<JobView>, i: int)
    requires
        table_wf(s),
        0 <= i < s.len(),
    ensures
        table_wf(s.remove(i)),
        next_jid_of(s.remove(i)) <= next_jid_of(s),
{
    let t = s.remove(i);
    assert forall|a: int| 0 <= a < t.len() implies (#[trigger] t[a]) == s[if a < i { a } else { a + 1 }] by {}
    assert forall|a: int| 0 <= a < t.len() implies (#[trigger] t[a]).pid >= 1 && t[a].pgid >= 1 && t[a].jid >= 1 by {
        assert(t[a] == s[if a < i { a } else { a + 1 }]);
    }
    assert forall|a: int, b: int| 0 <= a < b < t.len() implies (#[trigger] t[a]).pid != (#[trigger] t[b]).pid by {
        assert(t[a] == s[if a < i { a } else { a + 1 }]);
        assert(t[b] == s[if b < i { b } else { b + 1 }]);
    }
    assert forall|a: int, b: int| 0 <= a < b < t.len() implies (#[trigger] t[a]).jid < (#[trigger] t[b]).jid by {
        assert(t[a] == s[if a < i { a } else { a + 1 }]);
        assert(t[b] == s[if b < i { b } else { b + 1 }]);
    }
    assert forall|a: int, b: int|
        0 <= a < t.len() && 0 <= b < t.len() && (#[trigger] t[a]).state == ProccessState::FG && (#[trigger] t[b]).state
            == ProccessState::FG implies a == b by {
        assert(t[a] == s[if a < i { a } else { a + 1 }]);
        assert(t[b] == s[if b < i { b } else { b + 1 }]);
    }
    lemma_next_jid_above(s);
    lemma_next_jid_above(t);
    if t.len() > 0 {
        let k = choose|k: int| 0 <= k < t.len() && (#[trigger] t[k]).jid + 1 == next_jid_of(t);
        assert(t[k] == s[if k < i { k } else { k + 1 }]);
    }
}

/// Where no job before position `i` has the job id and the job at `i` has
/// it, `jid_index` is `i`.
pub proof fn lemma_jid_index_first(s: Seq<JobView>, jid: u32, i: int)
    requires
        0 <= i < s.len(),
        s[i].jid == jid,
        forall|k: int| 0 <= k < i ==> (#[trigger] s[k]).jid != jid,
    ensures
        jid_index(s, jid) == i,
        has_jid(s, jid),
    decreases i,
{
    if i > 0 {
        let t = s.drop_first();
        assert(s[0].jid != jid);
        assert forall|k: int| 0 <= k < i - 1 implies (#[trigger] t[k]).jid != jid by {
            assert(t[k] == s[k + 1]);
        }
        lemma_jid_index_first(t, jid, i - 1);
    }
}

/// Where no job has the job id, `jid_index` is the length.
pub proof fn lemma_jid_index_none(s: Seq<JobView>, jid: u32)
    requires
        forall|k: int| 0 <= k < s.len() ==> (#[trigger] s[k]).jid != jid,
    ensures
        jid_index(s, jid) == s.len(),
        !has_jid(s, jid),
    decreases s.len(),
{
    if s.len() > 0 {
        let t = s.drop_first();
        assert(s[0].jid != jid);
        assert forall|k: int| 0 <= k < t.len() implies (#[trigger] t[k]).jid != jid by {
            assert(t[k] == s[k + 1]);
        }
        lemma_jid_index_none(t, jid);
    }
}

/// Where no job before position `i` is in the foreground and the job at
/// `i` is, `fg_index` is `i`.
pub proof fn lemma_fg_index_first(s: Seq<JobView>, i: int)
    requires
        0 <= i < s.len(),
        s[i].state == ProccessState::FG,
        forall|k: int| 0 <= k < i ==> (#[trigger] s[k]).state != ProccessState::FG,
    ensures
        fg_index(s) == i,
        has_foreground(s),
    decreases i,
{
    if i > 0 {
        let t = s.drop_first();
        assert(s[0].state != ProccessState::FG);
        assert forall|k: int| 0 <= k < i - 1 implies (#[trigger] t[k]).state != ProccessState::FG by {
            assert(t[k] == s[k + 1]);
        }
        lemma_fg_index_first(t, i - 1);
    }
}

/// Where no job is in the foreground, `fg_index` is the length.
pub proof fn lemma_fg_index_none(s: Seq<JobView>)
    requires
        forall|k: int| 0 <= k < s.len() ==> (#[trigger] s[k]).state != ProccessState::FG,
    ensures
        fg_index(s) == s.len(),
        !has_foreground(s),
    decreases s.len(),
{
    if s.len() > 0 {
        let t = s.drop_first();
        assert(s[0].state != ProccessState::FG);
        assert forall|k: int| 0 <= k < t.len() implies (#[trigger] t[k]).state != ProccessState::FG by {
            assert(t[k] == s[k + 1]);
        }
        lemma_fg_index_none(t);
    }
}

/// The first job with a process id is where `pid_index` says, and no job
/// before it has the process id.
pub proof fn lemma_pid_index(s: Seq<JobView>, pid: i32)
    ensures
        0 <= pid_index(s, pid) <= s.len(),
        has_pid(s, pid) <==> pid_index(s, pid) < s.len(),
        has_pid(s, pid) ==> s[pid_index(s, pid)].pid == pid,
        forall|k: int| 0 <= k < pid_index(s, pid) ==> (#[trigger] s[k]).pid != pid,
    decreases s.len(),
{
    if s.len() > 0 && s[0].pid != pid {
        let t = s.drop_first();
        lemma_pid_index(t, pid);
        assert forall|k: int| 0 <= k < pid_index(s, pid) implies (#[trigger] s[k]).pid != pid by {
            if k > 0 {
                assert(s[k] == t[k - 1]);
            }
        }
        if has_pid(s, pid) {
            let j = choose|j: int| 0 <= j < s.len() && (#[trigger] s[j]).pid == pid;
            assert(t[j - 1] == s[j]);
        }
        if has_pid(t, pid) {
            let j = choose|j: int| 0 <= j < t.len() && (#[trigger] t[j]).pid == pid;
            assert(s[j + 1] == t[j]);
            assert(s[pid_index(s, pid)] == t[pid_index(t, pid)]);
        }
    } else if s.len() > 0 {
        assert(s[0].pid == pid);
    }
}

/// The first job with a job id is where `jid_index` says, and no job
/// before it has the job id.
pub proof fn lemma_jid_index(s: Seq<JobView>, jid: u32)
    ensures
        0 <= jid_index(s, jid) <= s.len(),
        has_jid(s, jid) <==> jid_index(s, jid) < s.len(),
        has_jid(s, jid) ==> s[jid_index(s, jid)].jid == jid,
        forall|k: int| 0 <= k < jid_index(s, jid) ==> (#[trigger] s[k]).jid != jid,
    decreases s.len(),
{
    if s.len() > 0 && s[0].jid != jid {
        let t = s.drop_first();
        lemma_jid_index(t, jid);
        assert forall|k: int| 0 <= k < jid_index(s, jid) implies (#[trigger] s[k]).jid != jid by {
            if k > 0 {
                assert(s[k] == t[k - 1]);
            }
        }
        if has_jid(s, jid) {
            let j = choose|j: int| 0 <= j < s.len() && (#[trigger] s[j]).jid == jid;
            assert(t[j - 1] == s[j]);
        }
        if has_jid(t, jid) {
            let j = choose|j: int| 0 <= j < t.len() && (#[trigger] t[j]).jid == jid;
            assert(s[j + 1] == t[j]);
            assert(s[jid_index(s, jid)] == t[jid_index(t, jid)]);
        }
    } else if s.len() > 0 {
        assert(s[0].jid == jid);
    }
}

/// The first foreground job is where `fg_index` says.
pub proof fn lemma_fg_index(s: Seq<JobView>)
    ensures
        0 <= fg_index(s) <= s.len(),
        has_foreground(s) <==> fg_index(s) < s.len(),
        has_foreground(s) ==> s[fg_index(s)].state == ProccessState::FG,
    decreases s.len(),
{
    if s.len() > 0 && s[0].state != ProccessState::FG {
        let t = s.drop_first();
        lemma_fg_index(t);
        if has_foreground(s) {
            let j = choose|j: int| 0 <= j < s.len() && (#[trigger] s[j]).state == ProccessState::FG;
            assert(t[j - 1] == s[j]);
        }
        if has_foreground(t) {
            let j = choose|j: int| 0 <= j < t.len() && (#[trigger] t[j]).state == ProccessState::FG;
            assert(s[j + 1] == t[j]);
            assert(s[fg_index(s)] == t[fg_index(t)]);
        }
    } else if s.len() > 0 {
        assert(s[0].state == ProccessState::FG);
    }
}

/// Changing the state of one job leaves the next job id as it is, and
/// keeps a well-formed table well-formed unless it puts a second job into
/// the foreground.
pub proof fn lemma_set_state(s: Seq<JobView>, i: int, state: ProccessState)
    requires
        0 <= i < s.len(),
    ensures
        next_jid_of(s.update(i, JobView { state, ..s[i] })) == next_jid_of(s),
        table_wf(s) && (state == ProccessState::FG ==> !has_foreground(s) || s[i].state == ProccessState::FG)
            ==> table_wf(s.update(i, JobView { state, ..s[i] })),
    decreases s.len(),
{
    let t = s.update(i, JobView { state, ..s[i] });
    if i < s.len() - 1 {
        assert(t.drop_last() =~= s.drop_last().update(i, JobView { state, ..s.drop_last()[i] }));
        lemma_set_state(s.drop_last(), i, state);
    } else {
        assert(t.drop_last() =~= s.drop_last());
    }
    if table_wf(s) && (state == ProccessState::FG ==> !has_foreground(s) || s[i].state == ProccessState::FG) {
        assert forall|a: int, b: int|
            0 <= a < t.len() && 0 <= b < t.len() && (#[trigger] t[a]).state == ProccessState::FG && (#[trigger] t[b]).state
                == ProccessState::FG implies a == b by {
            if a != i {
                assert(s[a].state == ProccessState::FG);
            }
            if b != i {
                assert(s[b].state == ProccessState::FG);
            }
        }
        assert forall|a: int| 0 <= a < t.len() implies (#[trigger] t[a]).pid >= 1 && t[a].pgid >= 1 && t[a].jid >= 1 by {
            assert(s[a].pid >= 1);
        }
        assert forall|a: int, b: int| 0 <= a < b < t.len() implies (#[trigger] t[a]).pid != (#[trigger] t[b]).pid by {
            assert(s[a].pid != s[b].pid);
        }
        assert forall|a: int, b: int| 0 <= a < b < t.len() implies (#[trigger] t[a]).jid < (#[trigger] t[b]).jid by {
            assert(s[a].jid < s[b].jid);
        }
    }
}

} // verus!
