use vstd::prelude::*;
use vstd::string::StringExecFns;
use crate::path::{is_absolute, join_dir, lemma_relative_extends_dir, resolve_dir};

verus! {

/// Why a command was turned down before anything was started.
#[derive(Debug, PartialEq, Eq, Structural)]
pub enum ShellError {
    /// The command names no program: its first word is the background marker.
    MissingProgram,
    /// `fg` or `cd` was given no argument.
    MissingArgument,
    /// The argument of `fg` is not an integer.
    BadJobId,
    /// The argument of `fg` names no job in the table.
    UnknownJob(i64),
}

/// An external program to be started by the caller.
pub struct Launch {
    pub program: String,
    pub args: Vec<String>,
    /// The working directory of the child.
    pub dir: String,
    /// Whether the child goes straight into the job table.
    pub background: bool,
}

/// What the caller has to do after `execute` decided on a command.
pub enum Request<H> {
    /// The command was empty.
    Nothing,
    /// A built-in finished its work inside the manager.
    Done,
    /// Start a program; a background one is then handed to `add_job`, a
    /// foreground one is waited on with `foreground_step`.
    Run(Launch),
    /// `fg` took this job out of the table: wait on it with `foreground_step`.
    Resume(H),
    /// `jobs` took these jobs out of the table: check each one without
    /// blocking and hand them back, in this order, to `settle_jobs`.
    Poll(Vec<(i64, H)>),
    /// The command was turned down.
    Refused(ShellError),
}

/// One line of the `jobs` listing.
#[derive(Debug, PartialEq, Eq, Structural)]
pub enum JobReport {
    /// The job with this id exited with this status.
    Exited(i64, i32),
    /// The job with this id is still running.
    Running(i64),
}

/// The outcome of one round of waiting on the foreground process.
pub enum ForegroundStep<H> {
    /// Neither stopped nor exited: keep waiting on it.
    Waiting(H),
    /// The process exited.
    Finished,
    /// The process was moved into the job table under this id.
    Demoted(i64),
}

/// Ids that strictly increase along the table.
pub open spec fn ids_increasing<H>(s: Seq<(i64, H)>) -> bool {
    forall|i: int, j: int| 0 <= i < j < s.len() ==> s[i].0 < s[j].0
}

/// Ids that strictly increase along a list of polled jobs.
pub open spec fn polled_ids_increasing<H>(s: Seq<(i64, H, Option<i32>)>) -> bool {
    forall|i: int, j: int| 0 <= i < j < s.len() ==> s[i].0 < s[j].0
}

/// The polled jobs that have not exited, in their order.
pub open spec fn still_running<H>(s: Seq<(i64, H, Option<i32>)>) -> Seq<(i64, H)>
    decreases s.len(),
{
    if s.len() == 0 {
        Seq::empty()
    } else if s.last().2 is None {
        still_running(s.drop_last()).push((s.last().0, s.last().1))
    } else {
        still_running(s.drop_last())
    }
}

/// Every job left running stands among the polled ones with no exit status.
pub proof fn lemma_still_running_origin<H>(s: Seq<(i64, H, Option<i32>)>)
    ensures
        forall|j: int|
            #![trigger still_running(s)[j]]
            0 <= j < still_running(s).len() ==> exists|m: int|
                #![trigger s[m]]
                0 <= m < s.len() && s[m].0 == still_running(s)[j].0 && s[m].2 is None,
    decreases s.len(),
{
    if s.len() > 0 {
        let t = s.drop_last();
        lemma_still_running_origin(t);
        assert forall|j: int|
            #![trigger still_running(s)[j]]
            0 <= j < still_running(s).len() implies exists|m: int|
                #![trigger s[m]]
                0 <= m < s.len() && s[m].0 == still_running(s)[j].0 && s[m].2 is None by {
            if j < still_running(t).len() {
                assert(still_running(s)[j] == still_running(t)[j]);
                let m = choose|m: int|
                    #![trigger t[m]]
                    0 <= m < t.len() && t[m].0 == still_running(t)[j].0 && t[m].2 is None;
                assert(s[m] == t[m]);
            } else {
                assert(s[s.len() - 1].0 == still_running(s)[j].0);
            }
        }
    }
}

/// The job id that a report line is about.
pub open spec fn report_id(r: JobReport) -> i64 {
    match r {
        JobReport::Exited(id, _) => id,
        JobReport::Running(id) => id,
    }
}

/// The report line for a job with the given poll outcome.
pub open spec fn report_of(id: i64, status: Option<i32>) -> JobReport {
    match status {
        Some(code) => JobReport::Exited(id, code),
        None => JobReport::Running(id),
    }
}

/// The value of a non-empty run of decimal digits.
pub open spec fn digits_value(s: Seq<char>) -> int
    decreases s.len(),
{
    if s.len() == 0 {
        0
    } else {
        10 * digits_value(s.drop_last()) + (s.last() as int - '0' as int)
    }
}

pub open spec fn is_digit_run(s: Seq<char>) -> bool {
    s.len() > 0 && forall|i: int| 0 <= i < s.len() ==> '0' <= #[trigger] s[i] <= '9'
}

/// The integer that a decimal literal with an optional sign denotes.
pub open spec fn decimal_value(s: Seq<char>) -> Option<int> {
    if s.len() > 0 && (s[0] == '-' || s[0] == '+') {
        if is_digit_run(s.drop_first()) {
            if s[0] == '-' {
                Some(-digits_value(s.drop_first()))
            } else {
                Some(digits_value(s.drop_first()))
            }
        } else {
            None
        }
    } else if is_digit_run(s) {
        Some(digits_value(s))
    } else {
        None
    }
}

/// The job id that a word names, if it is a decimal integer within `i64`.
pub open spec fn job_id_of(s: Seq<char>) -> Option<i64> {
    match decimal_value(s) {
        Some(v) => if i64::MIN <= v <= i64::MAX {
            Some(v as i64)
        } else {
            None
        },
        None => None,
    }
}

/// Whether a command ends in the background marker after some program word.
pub open spec fn is_background(c: Seq<String>) -> bool {
    c.len() > 1 && c.last()@ == "&"@
}

/// The arguments handed to the program: the words after the first, without
/// a trailing background marker.
pub open spec fn program_args(c: Seq<String>) -> Seq<String> {
    if is_background(c) {
        c.subrange(1, c.len() - 1)
    } else {
        c.subrange(1, c.len() as int)
    }
}

/// Relies on i64's `FromStr` (`str::parse::<i64>`): an optional `+` or `-`,
/// then one or more ASCII digits, whose value must fit in `i64`.
#[verifier::external_body]
fn parse_i64(s: &str) -> (r: Option<i64>)
    ensures
        r == job_id_of(s@),
{
    s.parse::<i64>().ok()
}

fn is_word(s: &String, w: &str) -> (r: bool)
    ensures
        r == (s@ == w@),
{
    let t = String::from_str(w);
    s.eq(&t)
}

/// The shell's job-control state: the table of background jobs, the last job
/// id handed out, and the current directory. `H` is the handle of a running
/// process.
pub struct TaskManager<H> {
    bg_jobs: Vec<(i64, H)>,
    cur_job: i64,
    cur_dir: String,
}

impl<H> TaskManager<H> {
    /// The job table, in order of increasing id.
    pub closed spec fn table(&self) -> Seq<(i64, H)> {
        self.bg_jobs@
    }

    /// The last job id handed out (0 before the first).
    pub closed spec fn last_id(&self) -> i64 {
        self.cur_job
    }

    /// The current directory.
    pub closed spec fn cwd(&self) -> Seq<char> {
        self.cur_dir@
    }

    /// Ids are unique, positive, ordered, and none exceeds the last id handed out.
    pub open spec fn wf(&self) -> bool {
        &&& self.last_id() >= 0
        &&& ids_increasing(self.table())
        &&& forall|i: int|
            0 <= i < self.table().len() ==> 0 < #[trigger] self.table()[i].0 <= self.last_id()
    }

    pub open spec fn has_job(&self, id: i64) -> bool {
        exists|k: int| 0 <= k < self.table().len() && #[trigger] self.table()[k].0 == id
    }

    /// What `fg` does: with a job id that is in the table, the job leaves it
    /// and its process is handed back; otherwise nothing changes.
    pub open spec fn fg_outcome(before: Self, c: Seq<String>, after: Self, r: Request<H>) -> bool {
        if c.len() < 2 {
            r == Request::<H>::Refused(ShellError::MissingArgument) && after == before
        } else {
            match job_id_of(c[1]@) {
                None => r == Request::<H>::Refused(ShellError::BadJobId) && after == before,
                Some(id) => if before.has_job(id) {
                    exists|k: int|
                        0 <= k < before.table().len() && #[trigger] before.table()[k].0 == id && r
                            == Request::<H>::Resume(before.table()[k].1) && after.table()
                            == before.table().remove(k) && after.last_id() == before.last_id()
                            && after.cwd() == before.cwd()
                } else {
                    r == Request::<H>::Refused(ShellError::UnknownJob(id)) && after == before
                },
            }
        }
    }

    /// What `cd` does: the new directory is the argument read from the old one.
    pub open spec fn cd_outcome(before: Self, c: Seq<String>, after: Self, r: Request<H>) -> bool {
        if c.len() < 2 {
            r == Request::<H>::Refused(ShellError::MissingArgument) && after == before
        } else {
            &&& r == Request::<H>::Done
            &&& after.cwd() == resolve_dir(before.cwd(), c[1]@)
            &&& after.table() == before.table()
            &&& after.last_id() == before.last_id()
        }
    }

    /// What `jobs` does: every job leaves the table and is handed out to be polled.
    pub open spec fn jobs_outcome(before: Self, after: Self, r: Request<H>) -> bool {
        &&& r matches Request::Poll(v) && v@ == before.table()
        &&& after.table().len() == 0
        &&& after.last_id() == before.last_id()
        &&& after.cwd() == before.cwd()
    }

    /// What starting an external program is decided as: the first word is the
    /// program, the rest its arguments without a trailing marker, the child
    /// runs in the current directory, and the manager is left as it is.
    pub open spec fn run_outcome(before: Self, c: Seq<String>, after: Self, r: Request<H>) -> bool {
        &&& after == before
        &&& r matches Request::Run(l) && l.program@ == c[0]@ && l.args@ == program_args(c)
            && l.dir@ == before.cwd() && l.background == is_background(c)
    }

    /// What `execute` does with a command, by its first word.
    pub open spec fn execute_outcome(before: Self, c: Seq<String>, after: Self, r: Request<H>) -> bool {
        if c.len() == 0 {
            r is Nothing && after == before
        } else if c[0]@ == "fg"@ {
            Self::fg_outcome(before, c, after, r)
        } else if c[0]@ == "jobs"@ {
            Self::jobs_outcome(before, after, r)
        } else if c[0]@ == "cd"@ {
            Self::cd_outcome(before, c, after, r)
        } else if c[0]@ == "&"@ {
            r == Request::<H>::Refused(ShellError::MissingProgram) && after == before
        } else {
            Self::run_outcome(before, c, after, r)
        }
    }

    /// What `add_job` does.
    pub open spec fn add_outcome(before: Self, h: H, after: Self, r: Result<i64, H>) -> bool {
        if before.last_id() < i64::MAX {
            &&& r == Ok::<i64, H>((before.last_id() + 1) as i64)
            &&& after.last_id() == before.last_id() + 1
            &&& after.table() == before.table().push(((before.last_id() + 1) as i64, h))
            &&& after.cwd() == before.cwd()
        } else {
            r == Err::<i64, H>(h) && after == before
        }
    }

    /// A manager with no jobs, working in `dir`.
    pub fn new(dir: String) -> (r: Self)
        ensures
            r.wf(),
            r.table().len() == 0,
            r.last_id() == 0,
            r.cwd() == dir@,
    {
        TaskManager { bg_jobs: Vec::new(), cur_job: 0, cur_dir: dir }
    }

    /// The current directory.
    pub fn current_dir(&self) -> (r: &String)
        ensures
            r@ == self.cwd(),
    {
        &self.cur_dir
    }

    /// The number of jobs in the table.
    pub fn job_count(&self) -> (r: usize)
        ensures
            r == self.table().len(),
    {
        self.bg_jobs.len()
    }
    /// Puts a running process into the table under the next id. Where every
    /// id has been handed out, the table is left as it is and the handle
    /// comes back.
    pub fn add_job(&mut self, h: H) -> (r: Result<i64, H>)
        requires
            old(self).wf(),
        ensures
            final(self).wf(),
            Self::add_outcome(*old(self), h, *final(self), r),
            r matches Ok(id) ==> forall|k: int|
                0 <= k < old(self).table().len() ==> #[trigger] old(self).table()[k].0 < id,
    {
        if self.cur_job == i64::MAX {
            return Err(h);
        }
        self.cur_job = self.cur_job + 1;
        let id = self.cur_job;
        self.bg_jobs.push((id, h));
        Ok(id)
    }

    /// One round of waiting on the foreground process `h`, given whether a
    /// stop was requested and whether the process has exited since the last
    /// round. A stop request wins: the process is moved into the table (it
    /// keeps running, or is waited on further where no id is left).
    pub fn foreground_step(&mut self, h: H, stop_requested: bool, exited: bool) -> (r:
        ForegroundStep<H>)
        requires
            old(self).wf(),
        ensures
            final(self).wf(),
            stop_requested && old(self).last_id() < i64::MAX ==> {
                &&& r == ForegroundStep::<H>::Demoted((old(self).last_id() + 1) as i64)
                &&& final(self).last_id() == old(self).last_id() + 1
                &&& final(self).table() == old(self).table().push(((old(self).last_id() + 1) as i64, h))
                &&& final(self).cwd() == old(self).cwd()
            },
            stop_requested && old(self).last_id() == i64::MAX ==> r == ForegroundStep::<H>::Waiting(h)
                && *final(self) == *old(self),
            !stop_requested && exited ==> r == ForegroundStep::<H>::Finished && *final(self) == *old(self),
            !stop_requested && !exited ==> r == ForegroundStep::<H>::Waiting(h) && *final(self)
                == *old(self),
    {
        if stop_requested {
            match self.add_job(h) {
                Ok(id) => ForegroundStep::Demoted(id),
                Err(h) => ForegroundStep::Waiting(h),
            }
        } else if exited {
            ForegroundStep::Finished
        } else {
            ForegroundStep::Waiting(h)
        }
    }

    /// Hands the polled jobs back: each one that exited is reported with its
    /// status and dropped, each one still running is reported as such and
    /// goes back into the table. `polled` is what `execute` gave for `jobs`,
    /// in the same order, each with its poll outcome.
    pub fn settle_jobs(&mut self, polled: Vec<(i64, H, Option<i32>)>) -> (reports: Vec<JobReport>)
        requires
            old(self).wf(),
            old(self).table().len() == 0,
            polled_ids_increasing(polled@),
            forall|i: int|
                0 <= i < polled@.len() ==> 0 < #[trigger] polled@[i].0 <= old(self).last_id(),
        ensures
            final(self).wf(),
            final(self).last_id() == old(self).last_id(),
            final(self).cwd() == old(self).cwd(),
            final(self).table() == still_running(polled@),
            reports@.len() == polled@.len(),
            forall|i: int|
                0 <= i < polled@.len() ==> #[trigger] reports@[i] == report_of(
                    polled@[i].0,
                    polled@[i].2,
                ),
            forall|i: int, j: int|
                0 <= i < reports@.len() && 0 <= j < reports@.len() && #[trigger] reports@[i] is Exited
                    && #[trigger] reports@[j] is Running ==> report_id(reports@[i]) != report_id(
                    reports@[j],
                ),
            forall|j: int|
                #![trigger final(self).table()[j]]
                0 <= j < final(self).table().len() ==> exists|m: int|
                    #![trigger polled@[m]]
                    0 <= m < polled@.len() && polled@[m].0 == final(self).table()[j].0
                        && polled@[m].2 is None,
    {
        let ghost orig = polled@;
        let mut reports: Vec<JobReport> = Vec::new();
        let mut rest = polled;
        let mut i: usize = 0;
        let total = rest.len();
        while rest.len() > 0
            invariant
                orig.len() == total,
                i + rest@.len() == orig.len(),
                rest@ == orig.subrange(i as int, orig.len() as int),
                polled_ids_increasing(orig),
                forall|k: int| 0 <= k < orig.len() ==> 0 < #[trigger] orig[k].0 <= old(self).last_id(),
                self.wf(),
                self.last_id() == old(self).last_id(),
                self.cwd() == old(self).cwd(),
                self.table() == still_running(orig.subrange(0, i as int)),
                reports@.len() == i,
                forall|k: int| 0 <= k < i ==> #[trigger] reports@[k] == report_of(orig[k].0, orig[k].2),
            decreases rest.len(),
        {
            let (id, h, status) = rest.remove(0);
            let ghost prev = self.table();
            let ghost done = orig.subrange(0, i as int);
            assert(orig.subrange(0, i + 1).drop_last() =~= done);
            assert(orig.subrange(0, i + 1).last() == orig[i as int]);
            match status {
                Some(code) => {
                    reports.push(JobReport::Exited(id, code));
                },
                None => {
                    reports.push(JobReport::Running(id));
                    proof {
                        lemma_still_running_origin(done);
                    }
                    assert forall|j: int| 0 <= j < prev.len() implies prev[j].0 < id by {
                            let m = choose|m: int|
                            #![trigger done[m]]
                            0 <= m < done.len() && done[m].0 == prev[j].0 && done[m].2 is None;
                        assert(orig[m].0 < orig[i as int].0);
                    }
                    self.bg_jobs.push((id, h));
                },
            }
            i = i + 1;
        }
        assert(orig.subrange(0, orig.len() as int) =~= orig);
        assert forall|a: int, b: int|
            0 <= a < reports@.len() && 0 <= b < reports@.len() && #[trigger] reports@[a] is Exited
                && #[trigger] reports@[b] is Running implies report_id(reports@[a]) != report_id(
            reports@[b],
        ) by {
            assert(reports@[a] == report_of(orig[a].0, orig[a].2));
            assert(reports@[b] == report_of(orig[b].0, orig[b].2));
            if a < b {
                assert(orig[a].0 < orig[b].0);
            } else if b < a {
                assert(orig[b].0 < orig[a].0);
            }
        }
        proof {
            lemma_still_running_origin(orig);
        }
        reports
    }
    fn fg(&mut self, command: &Vec<String>) -> (r: Request<H>)
        requires
            old(self).wf(),
        ensures
            final(self).wf(),
            Self::fg_outcome(*old(self), command@, *final(self), r),
    {
        if command.len() < 2 {
            return Request::Refused(ShellError::MissingArgument);
        }
        let id = match parse_i64(command[1].as_str()) {
            Some(id) => id,
            None => {
                return Request::Refused(ShellError::BadJobId);
            },
        };
        let mut k: usize = 0;
        while k < self.bg_jobs.len()
            invariant
                *self == *old(self),
                self.wf(),
                command@.len() >= 2,
                job_id_of(command@[1]@) == Some(id),
                k <= self.table().len(),
                forall|q: int| 0 <= q < k ==> #[trigger] self.table()[q].0 != id,
            decreases self.table().len() - k,
        {
            if self.bg_jobs[k].0 == id {
                let ghost before = self.table();
                let (_, h) = self.bg_jobs.remove(k);
                assert forall|i: int, j: int| 0 <= i < j < self.table().len() implies self.table()[i].0
                    < self.table()[j].0 by {
                    let i2 = if i < k { i } else { i + 1 };
                    let j2 = if j < k { j } else { j + 1 };
                    assert(self.table()[i] == before[i2]);
                    assert(self.table()[j] == before[j2]);
                }
                assert forall|i: int| 0 <= i < self.table().len() implies 0 < #[trigger] self.table()[i].0
                    <= self.last_id() by {
                    let i2 = if i < k { i } else { i + 1 };
                    assert(self.table()[i] == before[i2]);
                }
                assert(before[k as int].0 == id);
                assert(old(self).table()[k as int].0 == id);
                assert(old(self).has_job(id));
                assert(self.table() == old(self).table().remove(k as int));
                return Request::Resume(h);
            }
            k = k + 1;
        }
        Request::Refused(ShellError::UnknownJob(id))
    }

    fn jobs(&mut self) -> (r: Request<H>)
        requires
            old(self).wf(),
        ensures
            final(self).wf(),
            Self::jobs_outcome(*old(self), *final(self), r),
    {
        let mut taken: Vec<(i64, H)> = Vec::new();
        std::mem::swap(&mut taken, &mut self.bg_jobs);
        Request::Poll(taken)
    }

    fn cd(&mut self, command: &Vec<String>) -> (r: Request<H>)
        requires
            old(self).wf(),
        ensures
            final(self).wf(),
            Self::cd_outcome(*old(self), command@, *final(self), r),
    {
        if command.len() < 2 {
            return Request::Refused(ShellError::MissingArgument);
        }
        self.cur_dir = join_dir(&self.cur_dir, &command[1]);
        Request::Done
    }

    /// Decides what a tokenized command amounts to. The built-ins `fg`,
    /// `jobs` and `cd` act on the manager; any other command becomes a
    /// program to start, in the background where it ends in `&`.
    pub fn execute(&mut self, command: Vec<String>) -> (r: Request<H>)
        requires
            old(self).wf(),
        ensures
            final(self).wf(),
            Self::execute_outcome(*old(self), command@, *final(self), r),
    {
        let n = command.len();
        if n == 0 {
            return Request::Nothing;
        }
        if is_word(&command[0], "fg") {
            return self.fg(&command);
        }
        if is_word(&command[0], "jobs") {
            return self.jobs();
        }
        if is_word(&command[0], "cd") {
            return self.cd(&command);
        }
        if is_word(&command[0], "&") {
            return Request::Refused(ShellError::MissingProgram);
        }
        let background = n > 1 && is_word(&command[n - 1], "&");
        let end = if background { n - 1 } else { n };
        let mut args: Vec<String> = Vec::new();
        let mut i: usize = 1;
        while i < end
            invariant
                1 <= i <= end <= n,
                n == command@.len(),
                args@ == command@.subrange(1, i as int),
            decreases end - i,
        {
            args.push(command[i].clone());
            i = i + 1;
        }
        let launch = Launch {
            program: command[0].clone(),
            args,
            dir: self.cur_dir.clone(),
            background,
        };
        Request::Run(launch)
    }
    /// A command that ends in `&` is started in the background with that
    /// marker left out of its arguments; handing its process to `add_job`
    /// adds exactly one job, under an id above every id held before, and
    /// keeps every job that was there.
    pub proof fn lemma_background_launch(
        s0: Self,
        c: Seq<String>,
        s1: Self,
        r: Request<H>,
        h: H,
        s2: Self,
        added: Result<i64, H>,
    )
        requires
            s0.wf(),
            c.len() > 0,
            c[0]@ != "fg"@,
            c[0]@ != "jobs"@,
            c[0]@ != "cd"@,
            c[0]@ != "&"@,
            is_background(c),
            Self::execute_outcome(s0, c, s1, r),
            Self::add_outcome(s1, h, s2, added),
            s0.last_id() < i64::MAX,
        ensures
            r matches Request::Run(l) && l.background && l.args@ == c.subrange(1, c.len() - 1),
            added matches Ok(id) && s2.table().len() == s0.table().len() + 1 && s2.table().last()
                == (id, h) && s2.table().drop_last() == s0.table() && (forall|k: int|
                0 <= k < s0.table().len() ==> #[trigger] s0.table()[k].0 < id),
            s2.wf(),
    {
        assert(s2.table().drop_last() =~= s0.table());
    }

    /// `cd` followed by an external command: the program is started in the
    /// directory that `cd` resolved against the directory before it; for a
    /// relative path that is the old directory extended by the path.
    pub proof fn lemma_cd_then_run(
        s0: Self,
        cd: Seq<String>,
        s1: Self,
        r1: Request<H>,
        c: Seq<String>,
        s2: Self,
        r2: Request<H>,
    )
        requires
            s0.wf(),
            cd.len() == 2,
            cd[0]@ == "cd"@,
            Self::execute_outcome(s0, cd, s1, r1),
            c.len() > 0,
            c[0]@ != "fg"@,
            c[0]@ != "jobs"@,
            c[0]@ != "cd"@,
            c[0]@ != "&"@,
            Self::execute_outcome(s1, c, s2, r2),
        ensures
            r2 matches Request::Run(l) && l.dir@ == resolve_dir(s0.cwd(), cd[1]@),
            !is_absolute(cd[1]@) ==> (r2 matches Request::Run(l) && l.dir@.subrange(
                0,
                s0.cwd().len() as int,
            ) == s0.cwd()),
    {
        reveal_strlit("cd");
        reveal_strlit("fg");
        reveal_strlit("jobs");
        assert("cd"@[0] != "fg"@[0]);
        assert("cd"@.len() != "jobs"@.len());
        if !is_absolute(cd[1]@) {
            lemma_relative_extends_dir(s0.cwd(), cd[1]@);
        }
    }

    /// Ids are never reused: a job that `add_job` puts into the table gets
    /// the id after the last one handed out, above every id held before.
    pub proof fn lemma_demotion_fresh_id(s0: Self, h: H, s1: Self, added: Result<i64, H>)
        requires
            s0.wf(),
            Self::add_outcome(s0, h, s1, added),
        ensures
            added matches Ok(id) ==> forall|k: int|
                0 <= k < s0.table().len() ==> #[trigger] s0.table()[k].0 < id,
            added matches Ok(id) ==> id == s0.last_id() + 1 && s1.last_id() == id,
    {
    }
}

} // verus!
