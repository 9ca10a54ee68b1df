//! Running the jobs of a batch: the overwrite confirmation, and a schedule
//! that keeps at most a given number of jobs running and stops starting
//! jobs after the first failure.

use vstd::prelude::*;
use crate::display::{bold, bold_on, style_reset};
use crate::text::{join_strings, joined, views};

verus! {

/// A character of Unicode's `White_Space` property, which is what
/// `char::is_whitespace` tests.
pub open spec fn is_white_space(c: char) -> bool {
    let u = c as u32;
    ||| 0x09 <= u <= 0x0D
    ||| u == 0x20
    ||| u == 0x85
    ||| u == 0xA0
    ||| u == 0x1680
    ||| 0x2000 <= u <= 0x200A
    ||| u == 0x2028
    ||| u == 0x2029
    ||| u == 0x202F
    ||| u == 0x205F
    ||| u == 0x3000
}

/// `s` without its leading white space.
pub open spec fn trim_start(s: Seq<char>) -> Seq<char>
    decreases s.len(),
{
    if s.len() > 0 && is_white_space(s[0]) { trim_start(s.drop_first()) } else { s }
}

/// `s` without its trailing white space.
pub open spec fn trim_end(s: Seq<char>) -> Seq<char>
    decreases s.len(),
{
    if s.len() > 0 && is_white_space(s.last()) { trim_end(s.drop_last()) } else { s }
}

/// `s` without leading and trailing white space, as `str::trim` removes it.
pub open spec fn trimmed(s: Seq<char>) -> Seq<char> {
    trim_end(trim_start(s))
}

/// Whether `c` is white space.
fn is_white_space_char(c: char) -> (r: bool)
    ensures
        r == is_white_space(c),
{
    let u = c as u32;
    (0x09 <= u && u <= 0x0D) || u == 0x20 || u == 0x85 || u == 0xA0 || u == 0x1680
        || (0x2000 <= u && u <= 0x200A) || u == 0x2028 || u == 0x2029 || u == 0x202F
        || u == 0x205F || u == 0x3000
}

/// `s` without leading and trailing white space.
pub fn trim(s: &str) -> (r: String)
    ensures
        r@ == trimmed(s@),
{
    let n = s.unicode_len();
    let mut start: usize = 0;
    assert(s@.subrange(0, n as int) =~= s@);
    while start < n && is_white_space_char(s.get_char(start))
        invariant
            n == s@.len(),
            start <= n,
            trim_start(s@) == trim_start(s@.subrange(start as int, n as int)),
        decreases n - start,
    {
        assert(s@.subrange(start as int, n as int).drop_first() =~= s@.subrange(start + 1, n as int));
        start = start + 1;
    }
    let ghost rest = s@.subrange(start as int, n as int);
    assert(trim_start(s@) == rest) by {
        assert(s@.subrange(0, n as int) =~= s@);
        if start < n {
            assert(rest[0] == s@[start as int]);
        }
    }
    let mut end: usize = n;
    while end > start && is_white_space_char(s.get_char(end - 1))
        invariant
            n == s@.len(),
            start <= end <= n,
            rest == s@.subrange(start as int, n as int),
            trim_end(rest) == trim_end(s@.subrange(start as int, end as int)),
        decreases end,
    {
        assert(s@.subrange(start as int, end as int).drop_last() =~= s@.subrange(start as int, end - 1));
        end = end - 1;
    }
    assert(trim_end(rest) == s@.subrange(start as int, end as int)) by {
        if end > start {
            assert(s@.subrange(start as int, end as int).last() == s@[end - 1]);
        }
    }
    String::from_str(s.substring_char(start, end))
}

/// Whether an answer to the overwrite question confirms it: only the exact
/// word `yes`, whitespace around it aside, does.
pub fn is_confirmation(answer: &str) -> (r: bool)
    ensures
        r == (trimmed(answer@) == "yes"@),
{
    let t = trim(answer);
    t == String::from_str("yes")
}

/// The paths whose flag is set, in order.
pub open spec fn flagged(paths: Seq<Seq<char>>, flags: Seq<bool>) -> Seq<Seq<char>>
    decreases paths.len(),
{
    if paths.len() == 0 || flags.len() == 0 {
        Seq::empty()
    } else {
        let rest = flagged(paths.drop_last(), flags.drop_last());
        if flags.last() { rest.push(paths.last()) } else { rest }
    }
}

/// The planned outputs that exist already, given whether each exists.
pub fn existing_outputs(paths: &Vec<String>, exists: &Vec<bool>) -> (r: Vec<String>)
    requires
        paths@.len() == exists@.len(),
    ensures
        views(r@) == flagged(views(paths@), exists@),
{
    let mut r: Vec<String> = Vec::new();
    let mut i: usize = 0;
    while i < paths.len()
        invariant
            i <= paths@.len(),
            paths@.len() == exists@.len(),
            views(r@) == flagged(views(paths@).take(i as int), exists@.take(i as int)),
        decreases paths@.len() - i,
    {
        let ghost before = r@;
        assert(views(paths@).take(i + 1).drop_last() =~= views(paths@).take(i as int));
        assert(exists@.take(i + 1).drop_last() =~= exists@.take(i as int));
        assert(views(paths@).take(i + 1).last() == paths@[i as int]@);
        assert(exists@.take(i + 1).last() == exists@[i as int]);
        if exists[i] {
            r.push(paths[i].clone());
            assert(views(r@) =~= views(before).push(paths@[i as int]@));
        }
        i = i + 1;
    }
    assert(views(paths@).take(paths@.len() as int) =~= views(paths@));
    assert(exists@.take(paths@.len() as int) =~= exists@);
    r
}

/// The line that lists one existing output.
pub open spec fn existing_line(path: Seq<char>) -> Seq<char> {
    "- "@ + bold_on() + path + style_reset()
}

/// The question asked before existing outputs are overwritten.
pub open spec fn overwrite_question(existing: Seq<Seq<char>>) -> Seq<char> {
    "The following output files already exist.\n"@
        + joined(existing.map_values(|p: Seq<char>| existing_line(p)), "\n"@)
        + "\nOverwrite them?"@
}

/// The question to ask before overwriting `existing`, if any exists.
pub fn overwrite_prompt(existing: &Vec<String>) -> (r: Option<String>)
    ensures
        existing@.len() == 0 ==> r.is_none(),
        existing@.len() > 0 ==> (r matches Some(q) && q@ == overwrite_question(views(existing@))),
{
    if existing.len() == 0 {
        return None;
    }
    let mut lines: Vec<String> = Vec::new();
    let mut i: usize = 0;
    while i < existing.len()
        invariant
            i <= existing@.len(),
            views(lines@) == views(existing@).take(i as int).map_values(|p: Seq<char>| existing_line(p)),
        decreases existing@.len() - i,
    {
        let mut line = String::from_str("- ");
        line.append(bold(existing[i].as_str()).as_str());
        assert(line@ =~= existing_line(existing@[i as int]@));
        let ghost before = lines@;
        lines.push(line);
        assert(views(lines@) =~= views(before).push(existing_line(existing@[i as int]@)));
        assert(views(existing@).take(i + 1).map_values(|p: Seq<char>| existing_line(p))
            =~= views(existing@).take(i as int).map_values(|p: Seq<char>| existing_line(p)).push(existing_line(existing@[i as int]@)));
        i = i + 1;
    }
    assert(views(existing@).take(existing@.len() as int) =~= views(existing@));
    let mut q = String::from_str("The following output files already exist.\n");
    q.append(join_strings(&lines, "\n").as_str());
    q.append("\nOverwrite them?");
    Some(q)
}

/// Where a batch stands on the overwrite question.
#[derive(Debug, Clone, Copy, PartialEq, Eq, Structural)]
pub enum Gate {
    /// Nothing would be overwritten, or overwriting was allowed up front.
    Open,
    /// The question is still to be answered.
    Pending,
    /// The answer was yes.
    Confirmed,
    /// The answer was anything else.
    Declined,
}

/// What the runner of a batch is to do next.
#[derive(Debug, Clone, Copy, PartialEq, Eq, Structural)]
pub enum BatchAction {
    /// Ask the overwrite question and report the answer.
    AskConfirmation,
    /// Start the job with this index and report when it ends.
    Start(usize),
    /// Wait for a running job to end.
    Wait,
    /// All jobs succeeded.
    Succeeded,
    /// A job failed; nothing runs any more.
    Failed,
    /// The overwrite question was declined; no job ran.
    Declined,
}

/// The state of a batch run.
#[derive(Debug, Clone, Copy, PartialEq, Eq, Structural)]
pub struct BatchScheduler {
    /// The number of jobs.
    pub jobs: usize,
    /// The most jobs that may run at once.
    pub limit: usize,
    /// The jobs started so far; they are started in index order.
    pub started: usize,
    /// The jobs running now.
    pub running: usize,
    /// Whether a job has failed.
    pub failed: bool,
    pub gate: Gate,
}

/// Jobs may start: there was nothing to confirm, or it was confirmed.
pub open spec fn gate_open(g: Gate) -> bool {
    g == Gate::Open || g == Gate::Confirmed
}

/// What `next_action` answers in state `s`.
pub open spec fn action_for(s: BatchScheduler) -> BatchAction {
    if s.gate == Gate::Pending {
        BatchAction::AskConfirmation
    } else if s.gate == Gate::Declined {
        BatchAction::Declined
    } else if s.failed {
        if s.running > 0 { BatchAction::Wait } else { BatchAction::Failed }
    } else if s.started < s.jobs && s.running < s.limit {
        BatchAction::Start(s.started)
    } else if s.running > 0 {
        BatchAction::Wait
    } else {
        BatchAction::Succeeded
    }
}

impl BatchScheduler {
    /// At most `limit` jobs run; jobs start only through an open gate, and
    /// none where the question was declined.
    pub open spec fn wf(&self) -> bool {
        &&& self.limit >= 1
        &&& self.running <= self.limit
        &&& self.running <= self.started <= self.jobs
        &&& self.started > 0 ==> gate_open(self.gate)
    }

    /// A batch of `jobs` jobs, at most `limit` at once. The overwrite
    /// question is asked first where outputs exist and overwriting was not
    /// allowed up front.
    pub fn new(jobs: usize, limit: usize, outputs_exist: bool, overwrite: bool) -> (r: Self)
        requires
            limit >= 1,
        ensures
            r.wf(),
            r.jobs == jobs,
            r.limit == limit,
            r.started == 0,
            r.running == 0,
            !r.failed,
            r.gate == if outputs_exist && !overwrite { Gate::Pending } else { Gate::Open },
    {
        let gate = if outputs_exist && !overwrite { Gate::Pending } else { Gate::Open };
        BatchScheduler { jobs, limit, started: 0, running: 0, failed: false, gate }
    }

    /// Records the answer to the overwrite question.
    pub fn answer(&mut self, confirmed: bool)
        requires
            old(self).wf(),
            old(self).gate == Gate::Pending,
        ensures
            final(self).wf(),
            *final(self) == (BatchScheduler {
                gate: if confirmed { Gate::Confirmed } else { Gate::Declined },
                ..*old(self)
            }),
    {
        self.gate = if confirmed { Gate::Confirmed } else { Gate::Declined };
    }

    /// The next thing to do. Starting a job counts it as running.
    pub fn next_action(&mut self) -> (r: BatchAction)
        requires
            old(self).wf(),
        ensures
            final(self).wf(),
            r == action_for(*old(self)),
            *final(self) == (if r is Start {
                BatchScheduler { started: (old(self).started + 1) as usize, running: (old(self).running + 1) as usize, ..*old(self) }
            } else {
                *old(self)
            }),
    {
        if self.gate == Gate::Pending {
            BatchAction::AskConfirmation
        } else if self.gate == Gate::Declined {
            BatchAction::Declined
        } else if self.failed {
            if self.running > 0 { BatchAction::Wait } else { BatchAction::Failed }
        } else if self.started < self.jobs && self.running < self.limit {
            let index = self.started;
            self.started = self.started + 1;
            self.running = self.running + 1;
            BatchAction::Start(index)
        } else if self.running > 0 {
            BatchAction::Wait
        } else {
            BatchAction::Succeeded
        }
    }

    /// Records that a running job ended, successfully or not.
    pub fn job_finished(&mut self, succeeded: bool)
        requires
            old(self).wf(),
            old(self).running > 0,
        ensures
            final(self).wf(),
            *final(self) == (BatchScheduler {
                running: (old(self).running - 1) as usize,
                failed: old(self).failed || !succeeded,
                ..*old(self)
            }),
    {
        self.running = self.running - 1;
        if !succeeded {
            self.failed = true;
        }
    }
}

/// In every state that the scheduler's operations reach, at most `limit`
/// jobs run at once, and a job runs only after the overwrite question, if
/// it was asked, was answered yes.
pub proof fn lemma_running_within_limit(s: BatchScheduler)
    requires
        s.wf(),
    ensures
        s.running <= s.limit,
        s.started > 0 ==> s.gate != Gate::Pending && s.gate != Gate::Declined,
{
}

/// Once a job has failed, no other job starts.
pub proof fn lemma_no_start_after_failure(s: BatchScheduler)
    requires
        s.wf(),
        s.failed,
    ensures
        !(action_for(s) is Start),
{
}

/// Until the overwrite question is answered yes, no job starts; after a no,
/// none ever does.
pub proof fn lemma_gate_holds_jobs(s: BatchScheduler)
    requires
        s.wf(),
        s.gate == Gate::Pending || s.gate == Gate::Declined,
    ensures
        s.started == 0,
        !(action_for(s) is Start),
{
}

} // verus!
