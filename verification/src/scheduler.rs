//! Jobs: the commands that drive a machine's scheduler, and what their output means.

use crate::mdb::meta::{Meta, Phase};
use crate::mdb::universe::{wrapped, Universe, WrapError, WrapFault, Wrapped, WrappedCommand};
use crate::pattern::{
    compile, escape, first_group, is_match, pattern_escaped, pattern_fault, pattern_group, pattern_matches,
    pattern_of,
};
use crate::search::{first_where, lemma_first_from, lemma_first_from_is};
use crate::table::{distinct, has_name, inserted, lemma_inserted_lookup, value_of, Table};
use crate::template::{filled, text_value, Filled, TemplateError, VarSet};
use crate::text::{
    cat2, cat3, cat4, cat5, holds, is_space, lines, lines_of, lemma_views_push, newlines_end_lines,
    other_texts_are_not_replaced, replace, replaced, replacements_stand_in_place, same, show_text, shown_text,
    stands_at, trim, trimmed, trimming_takes_white_space_only, views, white_space_parts_words, words, words_of,
};
use regex::Regex;
use vstd::prelude::*;

verus! {

/// The state of a job.
#[derive(Debug, Clone, Copy, PartialEq, Eq, Structural)]
pub enum JobStatus {
    Running,
    Queued,
    Holding,
    /// Not in the queue.
    Unknown,
    Error,
}

impl JobStatus {
    /// The letter that stands for the state.
    pub fn letter(&self) -> (r: char)
        ensures
            r == (match *self {
                JobStatus::Running => 'R',
                JobStatus::Queued => 'Q',
                JobStatus::Holding => 'H',
                JobStatus::Unknown => 'U',
                JobStatus::Error => 'E',
            }),
    {
        match self {
            JobStatus::Running => 'R',
            JobStatus::Queued => 'Q',
            JobStatus::Holding => 'H',
            JobStatus::Unknown => 'U',
            JobStatus::Error => 'E',
        }
    }
}

/// What is shown for a simulation.
#[derive(Debug, Clone, Copy, PartialEq, Eq, Structural)]
pub enum DisplayState {
    /// Waits, not active, for the job before it in a chain.
    Presubmitted,
    Running,
    Queued,
    Holding,
    /// Active, though no job is in the queue.
    Active,
    /// Active, no job in the queue, and terminated.
    Finished,
    Error,
    Inactive,
}

/// What is shown for a restart: an active one follows its job, and once that has left the queue
/// it is finished or merely active; another is inactive, unless it waits in a chain.
pub open spec fn shown(active: bool, status: Option<JobStatus>, chained: bool, terminated: bool) -> DisplayState {
    if active {
        match status {
            Some(JobStatus::Running) => DisplayState::Running,
            Some(JobStatus::Queued) => DisplayState::Queued,
            Some(JobStatus::Holding) => DisplayState::Holding,
            Some(JobStatus::Error) => DisplayState::Error,
            _ => if terminated {
                DisplayState::Finished
            } else {
                DisplayState::Active
            },
        }
    } else if chained && (status == Some(JobStatus::Queued) || status == Some(JobStatus::Holding)) {
        DisplayState::Presubmitted
    } else {
        DisplayState::Inactive
    }
}

/// What is shown for a restart. `status` is missing where the restart has no job.
pub fn display_state(active: bool, status: Option<JobStatus>, chained: bool, terminated: bool) -> (r: DisplayState)
    ensures
        r == shown(active, status, chained, terminated),
{
    if !active {
        return match status {
            Some(JobStatus::Queued) => if chained {
                DisplayState::Presubmitted
            } else {
                DisplayState::Inactive
            },
            Some(JobStatus::Holding) => if chained {
                DisplayState::Presubmitted
            } else {
                DisplayState::Inactive
            },
            _ => DisplayState::Inactive,
        };
    }
    match status {
        Some(JobStatus::Running) => DisplayState::Running,
        Some(JobStatus::Queued) => DisplayState::Queued,
        Some(JobStatus::Holding) => DisplayState::Holding,
        Some(JobStatus::Error) => DisplayState::Error,
        _ => if terminated {
            DisplayState::Finished
        } else {
            DisplayState::Active
        },
    }
}

/// Why a job cannot be submitted, queried or stopped.
pub enum SchedulerFault {
    NoCommand(Seq<char>),
    Template(Seq<char>, Filled),
    BadPattern(Seq<char>, Seq<char>, Seq<char>),
    NoJobId(Seq<char>, Seq<char>, Seq<char>),
    Failed(Seq<char>, Seq<char>),
    SubmitFailed(Seq<char>, Seq<char>),
    Interrupted,
    Wrap(WrapFault),
}

/// Why a job cannot be submitted, queried or stopped.
#[derive(Debug)]
pub enum SchedulerError {
    /// The machine does not define this command.
    NoCommand(String),
    /// This command cannot be filled in.
    Template(String, TemplateError),
    /// Under this key the machine has this pattern, which is none; the message says why.
    BadPattern(String, String, String),
    /// The output of this command holds no job id by this pattern.
    NoJobId(String, String, String),
    /// A command failed, with this status and output.
    Failed(String, String),
    /// A submission that waits for the job failed before it named one.
    SubmitFailed(String, String),
    /// The user interrupted the wait before the job was named.
    Interrupted,
    /// The command cannot be put into its universe.
    Wrap(WrapError),
}

impl View for SchedulerError {
    type V = SchedulerFault;

    open spec fn view(&self) -> SchedulerFault {
        match *self {
            SchedulerError::NoCommand(what) => SchedulerFault::NoCommand(what@),
            SchedulerError::Template(what, e) => SchedulerFault::Template(what@, e@),
            SchedulerError::BadPattern(what, pattern, m) => SchedulerFault::BadPattern(what@, pattern@, m@),
            SchedulerError::NoJobId(what, pattern, output) => SchedulerFault::NoJobId(what@, pattern@, output@),
            SchedulerError::Failed(status, output) => SchedulerFault::Failed(status@, output@),
            SchedulerError::SubmitFailed(status, output) => SchedulerFault::SubmitFailed(status@, output@),
            SchedulerError::Interrupted => SchedulerFault::Interrupted,
            SchedulerError::Wrap(e) => SchedulerFault::Wrap(e@),
        }
    }
}

impl SchedulerError {
    /// The message for the user, as text.
    pub open spec fn text(self) -> Seq<char> {
        match self {
            SchedulerError::NoCommand(what) => "this machine's meta.toml defines no [scheduler]."@ + what@
                + " command"@,
            SchedulerError::Template(what, e) => "substituting the [scheduler]."@ + what@ + " command: "@ + e.text(),
            SchedulerError::BadPattern(what, pattern, m) => "invalid "@ + what@ + " "@ + shown_text(pattern@) + ": "@
                + m@,
            SchedulerError::NoJobId(what, pattern, output) => "could not parse a job id from the "@ + what@
                + " output via "@ + shown_text(pattern@) + ":\n"@ + output@,
            SchedulerError::Failed(status, output) => "command exited unsuccessfully ("@ + status@ + "):\n"@
                + output@,
            SchedulerError::SubmitFailed(status, output) => "the blocking submit exited unsuccessfully ("@
                + status@ + "):\n"@ + output@,
            SchedulerError::Interrupted => "interrupted before the scheduler reported a job id"@,
            SchedulerError::Wrap(e) => e.text(),
        }
    }

    /// The message for the user.
    pub fn message(&self) -> (r: String)
        ensures
            r@ == self.text(),
    {
        match self {
            SchedulerError::NoCommand(what) => cat3(
                "this machine's meta.toml defines no [scheduler].",
                what,
                " command",
            ),
            SchedulerError::Template(what, e) => cat4(
                "substituting the [scheduler].",
                what,
                " command: ",
                &e.message(),
            ),
            SchedulerError::BadPattern(what, pattern, m) => cat2(
                &cat5("invalid ", what, " ", &show_text(pattern), ": "),
                m,
            ),
            SchedulerError::NoJobId(what, pattern, output) => cat2(
                &cat5("could not parse a job id from the ", what, " output via ", &show_text(pattern), ":\n"),
                output,
            ),
            SchedulerError::Failed(status, output) => cat4(
                "command exited unsuccessfully (",
                status,
                "):\n",
                output,
            ),
            SchedulerError::SubmitFailed(status, output) => cat4(
                "the blocking submit exited unsuccessfully (",
                status,
                "):\n",
                output,
            ),
            SchedulerError::Interrupted => "interrupted before the scheduler reported a job id".to_owned(),
            SchedulerError::Wrap(e) => e.message(),
        }
    }
}

/// A pattern of the machine's with the job's id put in; none where the machine has none.
pub open spec fn job_pattern(pattern: Option<String>, job_id: Seq<char>) -> Option<Seq<char>> {
    match pattern {
        Some(p) => Some(replaced(p@, "@JOB_ID@"@, pattern_escaped(job_id))),
        None => None,
    }
}

/// Whether a pattern of the machine's matches a line. One that is missing matches nothing.
pub open spec fn finds(pattern: Option<Seq<char>>, line: Seq<char>) -> bool {
    match pattern {
        Some(p) => pattern_matches(p, line),
        None => false,
    }
}

/// What is wrong with a pattern of the machine's. Nothing is with one that is missing.
pub open spec fn fault_in(pattern: Option<Seq<char>>) -> Option<Seq<char>> {
    match pattern {
        Some(p) => pattern_fault(p),
        None => None,
    }
}

/// The positions of the lines that a pattern matches.
pub open spec fn matching_lines(all: Seq<Seq<char>>, pattern: Option<Seq<char>>) -> spec_fn(int) -> bool {
    |i: int| finds(pattern, all[i])
}

/// The state that a line of the queue shows, given which of the patterns match it: holding goes
/// before queued, and queued before running.
pub open spec fn judged(holding: bool, queued: bool, running: bool) -> JobStatus {
    if holding {
        JobStatus::Holding
    } else if queued {
        JobStatus::Queued
    } else if running {
        JobStatus::Running
    } else {
        JobStatus::Error
    }
}

/// The state that a line of the queue shows.
pub fn judge(holding: bool, queued: bool, running: bool) -> (r: JobStatus)
    ensures
        r == judged(holding, queued, running),
{
    if holding {
        JobStatus::Holding
    } else if queued {
        JobStatus::Queued
    } else if running {
        JobStatus::Running
    } else {
        JobStatus::Error
    }
}

/// What the output of a status query says of a job. A pattern that is none decides first; after
/// that, the first line that the status pattern matches does. Without one the job is not in the
/// queue.
pub open spec fn classified(meta: Meta, output: Seq<char>, job_id: Seq<char>) -> Result<JobStatus, SchedulerFault> {
    let sched = meta.scheduler;
    let status = job_pattern(sched.status_pattern, job_id);
    let holding = job_pattern(sched.holding_pattern, job_id);
    let queued = job_pattern(sched.queued_pattern, job_id);
    let running = job_pattern(sched.running_pattern, job_id);
    let all = lines_of(output);
    let k = first_where(all.len() as int, matching_lines(all, status));
    if fault_in(status) is Some {
        Err(SchedulerFault::BadPattern("status-pattern"@, status->0, fault_in(status)->0))
    } else if fault_in(holding) is Some {
        Err(SchedulerFault::BadPattern("holding-pattern"@, holding->0, fault_in(holding)->0))
    } else if fault_in(queued) is Some {
        Err(SchedulerFault::BadPattern("queued-pattern"@, queued->0, fault_in(queued)->0))
    } else if fault_in(running) is Some {
        Err(SchedulerFault::BadPattern("running-pattern"@, running->0, fault_in(running)->0))
    } else if k == all.len() {
        Ok(JobStatus::Unknown)
    } else {
        Ok(
            judged(
                finds(holding, all[k]),
                finds(queued, all[k]),
                finds(running, all[k]),
            ),
        )
    }
}

/// The pattern that was compiled, where there is one.
spec fn source_of(re: Option<Regex>) -> Option<Seq<char>> {
    match re {
        Some(re) => Some(pattern_of(re)),
        None => None,
    }
}

fn compile_for(what: &str, pattern: &Option<String>, job_id: &str) -> (r: Result<Option<Regex>, SchedulerError>)
    ensures
        ({
            let p = job_pattern(*pattern, job_id@);
            match fault_in(p) {
                None => r is Ok && source_of(r->Ok_0) == p,
                Some(m) => r is Err && r->Err_0@ == SchedulerFault::BadPattern(what@, p->0, m),
            }
        }),
{
    let raw: &str = match pattern {
        Some(p) => p.as_str(),
        None => {
            return Ok(None);
        },
    };
    proof {
        reveal_strlit("@JOB_ID@");
    }
    let full = replace(raw, "@JOB_ID@", &escape(job_id));
    match compile(&full) {
        Ok(re) => Ok(Some(re)),
        Err(m) => Err(SchedulerError::BadPattern(what.to_owned(), full, m)),
    }
}

fn found(re: &Option<Regex>, line: &str) -> (r: bool)
    ensures
        r == finds(source_of(*re), line@),
{
    match re {
        Some(re) => is_match(re, line),
        None => false,
    }
}

/// What the output of a status query says of a job.
pub fn classify(output: &str, job_id: &str, meta: &Meta) -> (r: Result<JobStatus, SchedulerError>)
    ensures
        match classified(*meta, output@, job_id@) {
            Ok(s) => r == Ok::<JobStatus, SchedulerError>(s),
            Err(f) => r is Err && r->Err_0@ == f,
        },
{
    let sched = &meta.scheduler;
    let status = match compile_for("status-pattern", &sched.status_pattern, job_id) {
        Ok(re) => re,
        Err(e) => {
            return Err(e);
        },
    };
    let holding = match compile_for("holding-pattern", &sched.holding_pattern, job_id) {
        Ok(re) => re,
        Err(e) => {
            return Err(e);
        },
    };
    let queued = match compile_for("queued-pattern", &sched.queued_pattern, job_id) {
        Ok(re) => re,
        Err(e) => {
            return Err(e);
        },
    };
    let running = match compile_for("running-pattern", &sched.running_pattern, job_id) {
        Ok(re) => re,
        Err(e) => {
            return Err(e);
        },
    };
    let all = lines(output);
    let ghost list = views(all@);
    let ghost p = matching_lines(list, source_of(status));
    let mut i: usize = 0;
    while i < all.len()
        invariant
            i <= all@.len(),
            list == views(all@),
            list == lines_of(output@),
            p == matching_lines(list, source_of(status)),
            forall|j: int| 0 <= j < i ==> !(#[trigger] p(j)),
            source_of(status) == job_pattern(meta.scheduler.status_pattern, job_id@),
            source_of(holding) == job_pattern(meta.scheduler.holding_pattern, job_id@),
            source_of(queued) == job_pattern(meta.scheduler.queued_pattern, job_id@),
            source_of(running) == job_pattern(meta.scheduler.running_pattern, job_id@),
            fault_in(source_of(status)) is None,
            fault_in(source_of(holding)) is None,
            fault_in(source_of(queued)) is None,
            fault_in(source_of(running)) is None,
        decreases all@.len() - i,
    {
        let line = &all[i];
        assert(list[i as int] == line@);
        if found(&status, line) {
            proof {
                assert(p(i as int));
                lemma_first_from_is(0, list.len() as int, p, i as int);
            }
            return Ok(judge(found(&holding, line), found(&queued, line), found(&running, line)));
        }
        assert(!p(i as int));
        i += 1;
    }
    proof {
        lemma_first_from_is(0, list.len() as int, p, list.len() as int);
    }
    Ok(JobStatus::Unknown)
}

/// Without a status pattern no line is about any job, so every job is unknown.
pub proof fn without_a_pattern_jobs_are_unknown(meta: Meta, output: Seq<char>, job_id: Seq<char>)
    requires
        meta.scheduler.status_pattern is None,
        fault_in(job_pattern(meta.scheduler.holding_pattern, job_id)) is None,
        fault_in(job_pattern(meta.scheduler.queued_pattern, job_id)) is None,
        fault_in(job_pattern(meta.scheduler.running_pattern, job_id)) is None,
    ensures
        classified(meta, output, job_id) == Ok::<JobStatus, SchedulerFault>(JobStatus::Unknown),
{
    let all = lines_of(output);
    lemma_first_from_is(0, all.len() as int, matching_lines(all, None), all.len() as int);
}

/// Whether a line of a listing is about a job: the job's id is its first word.
pub open spec fn is_about(line: Seq<char>, job_id: Seq<char>) -> bool {
    words_of(line).len() > 0 && words_of(line)[0] == job_id
}

/// The last line of a listing that is about a job.
pub open spec fn listing_line(all: Seq<Seq<char>>, job_id: Seq<char>) -> Option<Seq<char>>
    decreases all.len(),
{
    if all.len() == 0 {
        None
    } else if is_about(all.last(), job_id) {
        Some(all.last())
    } else {
        listing_line(all.drop_last(), job_id)
    }
}

/// What a listing of the queue says of a job: what the line about it says, taken alone. A job
/// without a line is not in the queue.
pub open spec fn listed_status(meta: Meta, output: Seq<char>, job_id: Seq<char>) -> Result<JobStatus, SchedulerFault> {
    match listing_line(lines_of(output), job_id) {
        Some(line) => classified(meta, line, job_id),
        None => Ok(JobStatus::Unknown),
    }
}

/// The positions of the jobs of which a listing says nothing that can be read.
pub open spec fn unreadable(meta: Meta, output: Seq<char>, ids: Seq<Seq<char>>) -> spec_fn(int) -> bool {
    |i: int| listed_status(meta, output, ids[i]) is Err
}

/// The states of some jobs, each under its id.
pub open spec fn listed_statuses(meta: Meta, output: Seq<char>, ids: Seq<Seq<char>>) -> Seq<(Seq<char>, JobStatus)>
    decreases ids.len(),
{
    if ids.len() == 0 {
        Seq::empty()
    } else {
        inserted(
            listed_statuses(meta, output, ids.drop_last()),
            ids.last(),
            listed_status(meta, output, ids.last())->Ok_0,
        )
    }
}

fn find_line<'a>(all: &'a Vec<String>, job_id: &str) -> (r: Option<&'a String>)
    ensures
        match listing_line(views(all@), job_id@) {
            Some(line) => r is Some && r->0@ == line,
            None => r is None,
        },
{
    let ghost list = views(all@);
    let mut n: usize = all.len();
    assert(list.take(n as int) == list);
    while n > 0
        invariant
            n <= all@.len(),
            list == views(all@),
            listing_line(list, job_id@) == listing_line(list.take(n as int), job_id@),
        decreases n,
    {
        let line = &all[n - 1];
        let fields = words(line);
        proof {
            assert(list.take(n as int).last() == line@);
            assert(list.take(n as int).drop_last() == list.take(n - 1));
            assert(fields@.len() == words_of(line@).len());
            if fields@.len() > 0 {
                assert(views(fields@)[0] == fields@[0]@);
            }
        }
        if fields.len() > 0 && same(&fields[0], job_id) {
            return Some(line);
        }
        n -= 1;
    }
    assert(list.take(0).len() == 0);
    None
}

/// The state of each job by one listing of the queue. The first job whose line cannot be read
/// fails the whole.
pub fn status_listing(output: &str, ids: &Vec<String>, meta: &Meta) -> (r: Result<Table<JobStatus>, SchedulerError>)
    ensures
        ({
            let list = views(ids@);
            let k = first_where(list.len() as int, unreadable(*meta, output@, list));
            if k < list.len() {
                r is Err && listed_status(*meta, output@, list[k]) == Err::<JobStatus, SchedulerFault>(r->Err_0@)
            } else {
                r is Ok && r->Ok_0@ == listed_statuses(*meta, output@, list)
            }
        }),
{
    let all = lines(output);
    let ghost list = views(ids@);
    let ghost p = unreadable(*meta, output@, list);
    let mut out: Table<JobStatus> = Table::new();
    let mut i: usize = 0;
    assert(list.take(0) == Seq::<Seq<char>>::empty());
    while i < ids.len()
        invariant
            i <= ids@.len(),
            list == views(ids@),
            views(all@) == lines_of(output@),
            p == unreadable(*meta, output@, list),
            forall|j: int| 0 <= j < i ==> !(#[trigger] p(j)),
            out@ == listed_statuses(*meta, output@, list.take(i as int)),
        decreases ids@.len() - i,
    {
        let id = &ids[i];
        assert(list[i as int] == id@);
        let status: Result<JobStatus, SchedulerError> = match find_line(&all, id) {
            Some(line) => classify(line, id, meta),
            None => Ok(JobStatus::Unknown),
        };
        match status {
            Ok(s) => {
                proof {
                    assert(!p(i as int));
                    assert(list.take(i + 1).drop_last() == list.take(i as int));
                    assert(list.take(i + 1).last() == id@);
                }
                out.insert(id.clone(), s);
            },
            Err(e) => {
                proof {
                    assert(p(i as int));
                    lemma_first_from_is(0, list.len() as int, p, i as int);
                }
                return Err(e);
            },
        }
        i += 1;
    }
    proof {
        lemma_first_from_is(0, list.len() as int, p, list.len() as int);
        assert(list.take(i as int) == list);
    }
    Ok(out)
}

proof fn lemma_lines_append(s: Seq<char>, line: Seq<char>)
    requires
        s.len() == 0 || s.last() == '\n',
        forall|i: int| 0 <= i < line.len() ==> line[i] != '\n',
        line.len() > 0,
    ensures
        lines_of(s + line) == lines_of(s).push(line),
    decreases s.len(),
{
    crate::text::lemma_index_of(s, '\n');
    crate::text::lemma_index_of(s + line, '\n');
    let n = crate::text::index_of(s + line, '\n');
    if s.len() == 0 {
        assert(s + line == line);
        assert(lines_of(s).push(line) =~= seq![line]);
    } else {
        let k = crate::text::index_of(s, '\n');
        assert((s + line)[s.len() - 1] == '\n');
        if k == s.len() {
            assert(s[s.len() - 1] != '\n');
        }
        crate::text::lemma_index_of_is(s + line, '\n', k);
        assert((s + line).take(k) == s.take(k));
        assert((s + line).skip(k + 1) == s.skip(k + 1) + line);
        if s.skip(k + 1).len() > 0 {
            assert(s.skip(k + 1).last() == s.last());
        }
        lemma_lines_append(s.skip(k + 1), line);
        assert(lines_of(s + line) =~= lines_of(s).push(line));
    }
}

/// No job answers for another: a line about some other job, added to a listing, changes nothing
/// of what the listing says of this one.
pub proof fn listings_keep_jobs_apart(meta: Meta, output: Seq<char>, line: Seq<char>, job_id: Seq<char>)
    requires
        output.len() == 0 || output.last() == '\n',
        line.len() > 0,
        forall|i: int| 0 <= i < line.len() ==> line[i] != '\n',
        !is_about(line, job_id),
    ensures
        listed_status(meta, output + line, job_id) == listed_status(meta, output, job_id),
{
    lemma_lines_append(output, line);
    assert(lines_of(output + line).drop_last() == lines_of(output));
    assert(lines_of(output + line).last() == line);
}

/// A job that no line of a listing is about is not in the queue, whatever the patterns.
pub proof fn unlisted_jobs_are_unknown(meta: Meta, output: Seq<char>, job_id: Seq<char>)
    requires
        forall|i: int| 0 <= i < lines_of(output).len() ==> !is_about(#[trigger] lines_of(output)[i], job_id),
    ensures
        listed_status(meta, output, job_id) == Ok::<JobStatus, SchedulerFault>(JobStatus::Unknown),
{
    lemma_no_listing_line(lines_of(output), job_id);
}

proof fn lemma_no_listing_line(all: Seq<Seq<char>>, job_id: Seq<char>)
    requires
        forall|i: int| 0 <= i < all.len() ==> !is_about(#[trigger] all[i], job_id),
    ensures
        listing_line(all, job_id) is None,
    decreases all.len(),
{
    if all.len() > 0 {
        assert(!is_about(all[all.len() - 1], job_id));
        assert forall|i: int| 0 <= i < all.drop_last().len() implies !is_about(
            #[trigger] all.drop_last()[i],
            job_id,
        ) by {
            assert(!is_about(all[i], job_id));
        }
        lemma_no_listing_line(all.drop_last(), job_id);
    }
}

/// A line that the status pattern does not match says nothing: in front of an output, it leaves what
/// the output says of the job as it is.
pub proof fn lines_about_others_do_not_matter(meta: Meta, line: Seq<char>, output: Seq<char>, job_id: Seq<char>)
    requires
        forall|i: int| 0 <= i < line.len() ==> line[i] != '\n' && line[i] != '\r',
        !finds(job_pattern(meta.scheduler.status_pattern, job_id), line),
    ensures
        classified(meta, line + seq!['\n'] + output, job_id) == classified(meta, output, job_id),
{
    let status = job_pattern(meta.scheduler.status_pattern, job_id);
    newlines_end_lines(line, output);
    let rest = lines_of(output);
    let all = lines_of(line + seq!['\n'] + output);
    let p = matching_lines(rest, status);
    let q = matching_lines(all, status);
    let n = rest.len() as int;
    lemma_first_from(0, n, p);
    let k = first_where(n, p);
    assert forall|j: int| 0 <= j < k + 1 implies !(#[trigger] q(j)) by {
        if j > 0 {
            assert(!p(j - 1));
            assert(all[j] == rest[j - 1]);
        }
    }
    if k < n {
        assert(p(k));
        assert(all[k + 1] == rest[k]);
    }
    lemma_first_from_is(0, n + 1, q, k + 1);
}

/// The first line that the status pattern matches tells the job's state, whatever follows it: held
/// where the pattern for that matches the line, else queued, else running, and an error where none of
/// the three does. Patterns that are none come first.
pub proof fn the_matching_line_tells_the_state(meta: Meta, line: Seq<char>, rest: Seq<char>, job_id: Seq<char>)
    requires
        line.len() > 0,
        forall|i: int| 0 <= i < line.len() ==> line[i] != '\n' && line[i] != '\r',
        rest.len() > 0 ==> rest[0] == '\n',
        finds(job_pattern(meta.scheduler.status_pattern, job_id), line),
        fault_in(job_pattern(meta.scheduler.status_pattern, job_id)) is None,
        fault_in(job_pattern(meta.scheduler.holding_pattern, job_id)) is None,
        fault_in(job_pattern(meta.scheduler.queued_pattern, job_id)) is None,
        fault_in(job_pattern(meta.scheduler.running_pattern, job_id)) is None,
    ensures
        ({
            let holding = finds(job_pattern(meta.scheduler.holding_pattern, job_id), line);
            let queued = finds(job_pattern(meta.scheduler.queued_pattern, job_id), line);
            let running = finds(job_pattern(meta.scheduler.running_pattern, job_id), line);
            let state = classified(meta, line + rest, job_id);
            &&& holding ==> state == Ok::<JobStatus, SchedulerFault>(JobStatus::Holding)
            &&& !holding && queued ==> state == Ok::<JobStatus, SchedulerFault>(JobStatus::Queued)
            &&& !holding && !queued && running ==> state == Ok::<JobStatus, SchedulerFault>(JobStatus::Running)
            &&& !holding && !queued && !running ==> state == Ok::<JobStatus, SchedulerFault>(JobStatus::Error)
        }),
{
    let status = job_pattern(meta.scheduler.status_pattern, job_id);
    let output = line + rest;
    let all = lines_of(output);
    if rest.len() == 0 {
        newlines_end_lines(line, rest);
        assert(output =~= line);
    } else {
        newlines_end_lines(line, rest.skip(1));
        assert(output =~= line + seq!['\n'] + rest.skip(1));
    }
    assert(all[0] == line);
    let p = matching_lines(all, status);
    assert(p(0));
    lemma_first_from_is(0, all.len() as int, p, 0);
}

/// A job is only unknown where no line is about it, and it is unknown then.
pub proof fn unmatched_jobs_are_unknown(meta: Meta, output: Seq<char>, job_id: Seq<char>)
    ensures
        classified(meta, output, job_id) == Ok::<JobStatus, SchedulerFault>(JobStatus::Unknown) ==> forall|i: int|
            0 <= i < lines_of(output).len() ==> !finds(
                job_pattern(meta.scheduler.status_pattern, job_id),
                #[trigger] lines_of(output)[i],
            ),
        (forall|i: int|
            0 <= i < lines_of(output).len() ==> !finds(
                job_pattern(meta.scheduler.status_pattern, job_id),
                #[trigger] lines_of(output)[i],
            )) && classified(meta, output, job_id) is Ok ==> classified(meta, output, job_id) == Ok::<
            JobStatus,
            SchedulerFault,
        >(JobStatus::Unknown),
{
    let all = lines_of(output);
    let status = job_pattern(meta.scheduler.status_pattern, job_id);
    let p = matching_lines(all, status);
    let n = all.len() as int;
    lemma_first_from(0, n, p);
    let k = first_where(n, p);
    if k == n {
        assert forall|i: int| 0 <= i < n implies !finds(status, #[trigger] all[i]) by {
            assert(!p(i));
        }
    } else {
        assert(p(k));
        assert(finds(status, all[k]));
    }
}

/// A pattern that is none is an error, whatever the output, and nothing else is; the status pattern is
/// looked at first, then those for held, queued and running jobs.
pub proof fn bad_patterns_are_errors(meta: Meta, output: Seq<char>, job_id: Seq<char>)
    ensures
        ({
            let status = job_pattern(meta.scheduler.status_pattern, job_id);
            let holding = job_pattern(meta.scheduler.holding_pattern, job_id);
            let queued = job_pattern(meta.scheduler.queued_pattern, job_id);
            let running = job_pattern(meta.scheduler.running_pattern, job_id);
            let state = classified(meta, output, job_id);
            &&& state is Err <==> fault_in(status) is Some || fault_in(holding) is Some || fault_in(queued) is Some
                || fault_in(running) is Some
            &&& fault_in(status) is Some ==> state == Err::<JobStatus, SchedulerFault>(
                SchedulerFault::BadPattern("status-pattern"@, status->0, fault_in(status)->0),
            )
            &&& fault_in(status) is None && fault_in(holding) is Some ==> state == Err::<JobStatus, SchedulerFault>(
                SchedulerFault::BadPattern("holding-pattern"@, holding->0, fault_in(holding)->0),
            )
            &&& fault_in(status) is None && fault_in(holding) is None && fault_in(queued) is Some ==> state == Err::<
                JobStatus,
                SchedulerFault,
            >(SchedulerFault::BadPattern("queued-pattern"@, queued->0, fault_in(queued)->0))
        }),
{
}

/// The job's id takes the place that a pattern has for it and matches only itself there.
pub proof fn patterns_take_the_job_id(front: Seq<char>, rest: Seq<char>, pattern: String, job_id: Seq<char>)
    requires
        pattern@ == front + "@JOB_ID@"@ + rest,
        forall|i: int| 0 <= i < front.len() ==> !stands_at(front + "@JOB_ID@"@ + rest, "@JOB_ID@"@, i),
        !holds(rest, "@JOB_ID@"@),
    ensures
        job_pattern(Some(pattern), job_id) == Some(front + pattern_escaped(job_id) + rest),
        job_pattern(None, job_id) is None,
{
    reveal_strlit("@JOB_ID@");
    replacements_stand_in_place(front, "@JOB_ID@"@, pattern_escaped(job_id), rest);
    other_texts_are_not_replaced(rest, "@JOB_ID@"@, pattern_escaped(job_id));
}

/// Of the lines of a listing, the last one about a job counts, and it is read as if it were alone.
pub proof fn the_last_line_about_a_job_counts(meta: Meta, output: Seq<char>, line: Seq<char>, job_id: Seq<char>)
    requires
        output.len() == 0 || output.last() == '\n',
        line.len() > 0,
        forall|i: int| 0 <= i < line.len() ==> line[i] != '\n',
        is_about(line, job_id),
    ensures
        listed_status(meta, output + line, job_id) == classified(meta, line, job_id),
{
    lemma_lines_append(output, line);
    assert(lines_of(output + line).last() == line);
}

/// A line is about the job that its first word names, whatever stands in front of it or behind.
pub proof fn lines_name_their_job_first(gap: Seq<char>, word: Seq<char>, rest: Seq<char>, job_id: Seq<char>)
    requires
        forall|i: int| 0 <= i < gap.len() ==> is_space(gap[i]),
        forall|i: int| 0 <= i < word.len() ==> !is_space(word[i]),
        word.len() > 0,
        rest.len() > 0 ==> is_space(rest[0]),
    ensures
        is_about(gap + word + rest, job_id) <==> word == job_id,
        !is_about(gap, job_id),
{
    white_space_parts_words(gap, word, rest);
}

/// The variables that a query of the scheduler can refer to.
pub open spec fn query_texts(job_id: Seq<char>, user: Seq<char>) -> Seq<(Seq<char>, Seq<char>)> {
    seq![("JOB_ID"@, job_id), ("USER"@, user)]
}

/// The variables that a query of the scheduler can refer to: the job's id and the user, over the
/// environment `env`.
pub fn query_vars(job_id: &str, user: &str, env: Table<String>) -> (r: VarSet)
    ensures
        r.texts() == query_texts(job_id@, user@),
        r.env == env,
{
    let mut vars = VarSet::new();
    vars.env = env;
    vars.set("JOB_ID", text_value(job_id));
    proof {
        reveal_strlit("JOB_ID");
        reveal_strlit("USER");
        assert("JOB_ID"@.len() != "USER"@.len());
        assert(vars.vars@.len() == 1);
        assert(vars.vars@[0].0 == "JOB_ID"@);
    }
    vars.set("USER", text_value(user));
    assert(vars.texts() =~= query_texts(job_id@, user@));
    vars
}

/// What filling in one of the machine's commands comes to: the environment of submissions, then
/// the command on a line of its own.
pub open spec fn command_text(
    meta: Meta,
    what: Seq<char>,
    template: Option<Seq<char>>,
    vars: VarSet,
    universe: Option<Seq<char>>,
) -> Result<Seq<char>, SchedulerFault> {
    match template {
        None => Err(SchedulerFault::NoCommand(what)),
        Some(t) => match filled(t, vars.texts(), vars.env_texts()) {
            Filled::Text(cmd) => {
                let env = meta.env_text(universe, Phase::Submit);
                if env.len() == 0 {
                    Ok(cmd)
                } else {
                    Ok(env + "\n"@ + cmd)
                }
            },
            failure => Err(SchedulerFault::Template(what, failure)),
        },
    }
}

/// A command of the machine's, put into a universe where one is given.
pub open spec fn command_wrapped(
    command: Result<Seq<char>, SchedulerFault>,
    universe: Option<Universe>,
    vars: VarSet,
) -> Result<Wrapped, SchedulerFault> {
    match command {
        Err(f) => Err(f),
        Ok(cmd) => match universe {
            None => Ok(Wrapped::Shell(cmd)),
            Some(u) => match wrapped(u, vars, cmd) {
                Ok(w) => Ok(w),
                Err(f) => Err(SchedulerFault::Wrap(f)),
            },
        },
    }
}

/// The text of an optional string, for contracts.
pub open spec fn opt_text(s: Option<String>) -> Option<Seq<char>> {
    match s {
        Some(x) => Some(x@),
        None => None,
    }
}

/// The name of an optional universe.
pub open spec fn universe_name(universe: Option<(&str, &Universe)>) -> Option<Seq<char>> {
    match universe {
        Some(u) => Some(u.0@),
        None => None,
    }
}

/// The value of an optional universe.
pub open spec fn universe_value(universe: Option<(&str, &Universe)>) -> Option<Universe> {
    match universe {
        Some(u) => Some(*u.1),
        None => None,
    }
}

/// The pattern by which a job's id is found in the output of a submission; one that is missing
/// takes the first line.
pub open spec fn submit_pattern(meta: Meta) -> Seq<char> {
    match meta.scheduler.submit_pattern {
        Some(p) => p@,
        None => "(.*)"@,
    }
}

/// The id in what a pattern's first group held: without the white space around it, and not empty.
pub open spec fn id_in(group: Option<Seq<char>>) -> Option<Seq<char>> {
    match group {
        Some(g) => if trimmed(g).len() > 0 {
            Some(trimmed(g))
        } else {
            None
        },
        None => None,
    }
}

/// The id in what a pattern's first group held.
pub fn job_id_in(group: Option<String>) -> (r: Option<String>)
    ensures
        opt_text(r) == id_in(opt_text(group)),
{
    match group {
        Some(g) => {
            let id = trim(&g);
            if id.as_str().is_empty() {
                None
            } else {
                Some(id)
            }
        },
        None => None,
    }
}

/// The job that the output of a submission names.
pub open spec fn job_submitted(meta: Meta, output: Seq<char>) -> Result<Seq<char>, SchedulerFault> {
    let pattern = submit_pattern(meta);
    match pattern_fault(pattern) {
        Some(m) => Err(SchedulerFault::BadPattern("submit-pattern"@, pattern, m)),
        None => match id_in(pattern_group(pattern, trimmed(output))) {
            Some(id) => Ok(id),
            None => Err(SchedulerFault::NoJobId("submit"@, pattern, output)),
        },
    }
}

/// The host that the output of a query names.
pub open spec fn host_named(meta: Meta, output: Seq<char>) -> Result<Option<Seq<char>>, SchedulerFault> {
    let pattern = match meta.scheduler.exec_host_pattern {
        Some(p) => p@,
        None => "(.*)"@,
    };
    match pattern_fault(pattern) {
        Some(m) => Err(SchedulerFault::BadPattern("exec-host-pattern"@, pattern, m)),
        None => match pattern_group(pattern, trimmed(output)) {
            Some(g) => Ok(Some(trimmed(g))),
            None => Ok(None),
        },
    }
}

/// A command of the machine's is what its template is filled in as, and comes last, on a line of its
/// own behind the environment of submissions where there is one.
pub proof fn commands_come_after_their_environment(
    meta: Meta,
    what: Seq<char>,
    template: Option<Seq<char>>,
    vars: VarSet,
    universe: Option<Seq<char>>,
)
    ensures
        ({
            let r = command_text(meta, what, template, vars, universe);
            let text = filled(template->0, vars.texts(), vars.env_texts());
            let env = meta.env_text(universe, Phase::Submit);
            &&& template is None ==> r == Err::<Seq<char>, SchedulerFault>(SchedulerFault::NoCommand(what))
            &&& r is Ok <==> template is Some && text is Text
            &&& r is Ok ==> {
                let cmd = text->Text_0;
                let at = r->Ok_0.len() - cmd.len();
                &&& at >= 0
                &&& r->Ok_0.skip(at) == cmd
                &&& env.len() == 0 ==> at == 0
                &&& env.len() > 0 ==> at == env.len() + 1 && r->Ok_0.take(at) == env.push('\n')
            }
            &&& template is Some && text !is Text ==> r == Err::<Seq<char>, SchedulerFault>(
                SchedulerFault::Template(what, text),
            )
        }),
{
    reveal_strlit("\n");
    if let Some(t) = template {
        if let Filled::Text(cmd) = filled(t, vars.texts(), vars.env_texts()) {
            let env = meta.env_text(universe, Phase::Submit);
            let r = command_text(meta, what, template, vars, universe)->Ok_0;
            let at = r.len() - cmd.len();
            assert(r.skip(at) =~= cmd);
            if env.len() > 0 {
                assert(r.take(at) =~= env.push('\n'));
            }
        }
    }
}

/// A job is submitted only where the output of the submission names it: its id is what the first
/// group of the machine's pattern holds, of all the output where it has no pattern, without the white
/// space around it, and never empty.
pub proof fn submitted_jobs_have_an_id(meta: Meta, output: Seq<char>)
    ensures
        ({
            let pattern = if meta.scheduler.submit_pattern is Some {
                meta.scheduler.submit_pattern->0@
            } else {
                "(.*)"@
            };
            let group = pattern_group(pattern, trimmed(output));
            let r = job_submitted(meta, output);
            &&& pattern_fault(pattern) is Some ==> r == Err::<Seq<char>, SchedulerFault>(
                SchedulerFault::BadPattern("submit-pattern"@, pattern, pattern_fault(pattern)->0),
            )
            &&& pattern_fault(pattern) is None ==> (r is Ok <==> group is Some && trimmed(group->0).len() > 0)
            &&& r is Ok ==> r->Ok_0 == trimmed(group->0) && !is_space(r->Ok_0[0]) && !is_space(r->Ok_0.last())
        }),
{
    let group = pattern_group(submit_pattern(meta), trimmed(output));
    if group is Some {
        trimming_takes_white_space_only(group->0);
    }
}

/// An active simulation shows the state of its job. Where the job is not in the queue, or there is
/// none, it shows as finished once it has terminated and as active before. A simulation that is not
/// active shows as presubmitted exactly where its job waits in a chain.
pub proof fn simulations_show_their_job(active: bool, status: Option<JobStatus>, chained: bool, terminated: bool)
    ensures
        ({
            let s = shown(active, status, chained, terminated);
            &&& s == DisplayState::Running <==> active && status == Some(JobStatus::Running)
            &&& s == DisplayState::Queued <==> active && status == Some(JobStatus::Queued)
            &&& s == DisplayState::Holding <==> active && status == Some(JobStatus::Holding)
            &&& s == DisplayState::Error <==> active && status == Some(JobStatus::Error)
            &&& s == DisplayState::Finished <==> active && terminated && (status is None || status == Some(
                JobStatus::Unknown,
            ))
            &&& s == DisplayState::Active <==> active && !terminated && (status is None || status == Some(
                JobStatus::Unknown,
            ))
            &&& s == DisplayState::Presubmitted <==> !active && chained && (status == Some(JobStatus::Queued) || status
                == Some(JobStatus::Holding))
        }),
{
}

/// How a submission that waits for its job came to an end.
#[derive(Debug)]
pub enum Waited {
    /// The command exited, with this status and output.
    Exited { success: bool, status: String, output: String },
    /// The user cut the wait short.
    Interrupted,
}

/// How long, in milliseconds, a command may take to end by itself after the user has broken it off.
pub const WIND_DOWN_MILLIS: u64 = 2000;

/// What is to be done with a command that is waited for.
#[derive(Debug, Clone, Copy, PartialEq, Eq, Structural)]
pub enum WaitStep {
    /// It has ended.
    Ended,
    /// It has had its time.
    Kill,
    Wait,
}

/// A wait for a command's end: the moment, in milliseconds from its start, at which the user was
/// first seen to break it off, if that was so.
#[derive(Debug)]
pub struct Wait {
    pub broken_off: Option<u64>,
}

impl Wait {
    /// A wait that was not broken off.
    pub fn new() -> (r: Wait)
        ensures
            r.broken_off is None,
    {
        Wait { broken_off: None }
    }

    /// Looks at a command: whether it has exited, whether the user breaks it off, and how many
    /// milliseconds it has run. One that is broken off gets some time to end by itself.
    pub fn look(&mut self, exited: bool, interrupted: bool, now: u64) -> (r: WaitStep)
        ensures
            final(self).broken_off == (if exited || !interrupted || old(self).broken_off is Some {
                old(self).broken_off
            } else {
                Some(now)
            }),
            r == (if exited {
                WaitStep::Ended
            } else if interrupted && now - final(self).broken_off->0 > WIND_DOWN_MILLIS {
                WaitStep::Kill
            } else {
                WaitStep::Wait
            }),
    {
        if exited {
            return WaitStep::Ended;
        }
        if !interrupted {
            return WaitStep::Wait;
        }
        let since: u64 = match self.broken_off {
            Some(t) => t,
            None => now,
        };
        self.broken_off = Some(since);
        if now > since && now - since > WIND_DOWN_MILLIS {
            WaitStep::Kill
        } else {
            WaitStep::Wait
        }
    }

    /// How the wait came to an end, given how the command exited: one that was broken off says
    /// nothing of the job.
    pub fn end(self, success: bool, status: String, output: String) -> (r: Waited)
        ensures
            r == (if self.broken_off is Some {
                Waited::Interrupted
            } else {
                Waited::Exited { success, status, output }
            }),
    {
        match self.broken_off {
            Some(_) => Waited::Interrupted,
            None => Waited::Exited { success, status, output },
        }
    }
}

/// A submission that waits for its job: it looks for the job's id in each line of the command's
/// output until it has one.
pub struct Watch {
    pattern: String,
    regex: Regex,
    id: Option<String>,
}

impl Watch {
    /// The pattern by which the id is found.
    pub closed spec fn pattern(self) -> Seq<char> {
        self.pattern@
    }

    /// The id, once it was found.
    pub closed spec fn id(self) -> Option<Seq<char>> {
        opt_text(self.id)
    }

    #[verifier::type_invariant]
    spec fn inv(self) -> bool {
        pattern_of(self.regex) == self.pattern@
    }

    /// Takes one line of output. Gives the id back where this is the line that names it first.
    pub fn line(&mut self, line: &str) -> (r: Option<String>)
        ensures
            final(self).pattern() == old(self).pattern(),
            old(self).id() is Some ==> r is None && final(self).id() == old(self).id(),
            old(self).id() is None ==> opt_text(r) == id_in(pattern_group(old(self).pattern(), trimmed(line@)))
                && final(self).id() == opt_text(r),
    {
        proof {
            use_type_invariant(&*self);
        }
        if self.id.is_some() {
            return None;
        }
        let found = job_id_in(first_group(&self.regex, &trim(line)));
        self.id = match &found {
            Some(id) => Some(id.clone()),
            None => None,
        };
        found
    }

    /// The job that was submitted, once the command has ended. How the command ended matters
    /// only where no job was named.
    pub fn finish(self, waited: Waited) -> (r: Result<String, SchedulerError>)
        ensures
            match self.id() {
                Some(id) => r is Ok && r->Ok_0@ == id,
                None => r is Err && r->Err_0@ == (match waited {
                    Waited::Interrupted => SchedulerFault::Interrupted,
                    Waited::Exited { success, status, output } => if success {
                        SchedulerFault::NoJobId("blocking-submit"@, self.pattern(), output@)
                    } else {
                        SchedulerFault::SubmitFailed(status@, output@)
                    },
                }),
            },
    {
        match self.id {
            Some(id) => Ok(id),
            None => match waited {
                Waited::Interrupted => Err(SchedulerError::Interrupted),
                Waited::Exited { success, status, output } => if success {
                    Err(SchedulerError::NoJobId("blocking-submit".to_owned(), self.pattern, output))
                } else {
                    Err(SchedulerError::SubmitFailed(status, output))
                },
            },
        }
    }
}

/// The output of a command, both streams together; its failure is an error unless it is
/// tolerated.
pub fn collect_output(stdout: &str, stderr: &str, success: bool, status: &str, tolerate_failure: bool) -> (r: Result<
    String,
    SchedulerError,
>)
    ensures
        r is Ok <==> success || tolerate_failure,
        r is Ok ==> r->Ok_0@ == stdout@ + stderr@,
        r is Err ==> r->Err_0@ == SchedulerFault::Failed(status@, stdout@ + stderr@),
{
    let combined = cat2(stdout, stderr);
    if !success && !tolerate_failure {
        return Err(SchedulerError::Failed(status.to_owned(), combined));
    }
    Ok(combined)
}

/// The ids of a list, each once, in the order of their first appearance.
pub open spec fn each_once(ids: Seq<Seq<char>>) -> Seq<Seq<char>>
    decreases ids.len(),
{
    if ids.len() == 0 {
        Seq::empty()
    } else if ids.drop_last().contains(ids.last()) {
        each_once(ids.drop_last())
    } else {
        each_once(ids.drop_last()).push(ids.last())
    }
}

/// `each_once` keeps what a list holds, and repeats nothing.
pub proof fn each_once_keeps_all(ids: Seq<Seq<char>>)
    ensures
        forall|x: Seq<char>| each_once(ids).contains(x) <==> ids.contains(x),
        each_once(ids).no_duplicates(),
    decreases ids.len(),
{
    if ids.len() > 0 {
        let init = ids.drop_last();
        let kept = each_once(init);
        each_once_keeps_all(init);
        assert forall|x: Seq<char>| each_once(ids).contains(x) <==> ids.contains(x) by {
            assert(each_once(init).contains(x) <==> init.contains(x));
            if ids.contains(x) {
                let i = choose|i: int| 0 <= i < ids.len() && ids[i] == x;
                if i < init.len() {
                    assert(init[i] == x);
                    assert(init.contains(x));
                    let j = choose|j: int| 0 <= j < kept.len() && kept[j] == x;
                    assert(each_once(ids)[j] == x);
                } else if !init.contains(ids.last()) {
                    assert(each_once(ids)[kept.len() as int] == x);
                }
            }
            if each_once(ids).contains(x) {
                let j = choose|j: int| 0 <= j < each_once(ids).len() && each_once(ids)[j] == x;
                if j < kept.len() {
                    assert(kept[j] == x);
                    assert(kept.contains(x));
                    assert(init.contains(x));
                    let i = choose|i: int| 0 <= i < init.len() && init[i] == x;
                    assert(ids[i] == x);
                } else {
                    assert(ids[ids.len() - 1] == x);
                }
            }
        }
        if !init.contains(ids.last()) {
            assert(!kept.contains(ids.last()));
            assert forall|i: int, j: int|
                0 <= i < each_once(ids).len() && 0 <= j < each_once(ids).len() && i != j implies each_once(ids)[i]
                != each_once(ids)[j] by {
                if i < kept.len() && j < kept.len() {
                    assert(kept[i] != kept[j]);
                } else if i < kept.len() {
                    assert(kept.contains(kept[i]));
                } else {
                    assert(kept.contains(kept[j]));
                }
            }
        }
    }
}

fn dedupe(ids: &Vec<String>) -> (r: Vec<String>)
    ensures
        views(r@) == each_once(views(ids@)),
{
    let ghost list = views(ids@);
    let mut out: Vec<String> = Vec::new();
    let mut i: usize = 0;
    proof {
        assert(list.take(0) == Seq::<Seq<char>>::empty());
        assert(views(out@) =~= each_once(list.take(0)));
    }
    while i < ids.len()
        invariant
            i <= ids@.len(),
            list == views(ids@),
            views(out@) == each_once(list.take(i as int)),
        decreases ids@.len() - i,
    {
        let seen = crate::text::is_listed(&out, &ids[i]);
        let ghost before = out@;
        proof {
            let id = ids@[i as int]@;
            assert(list.take(i + 1).drop_last() == list.take(i as int));
            assert(list.take(i + 1).last() == id);
            each_once_keeps_all(list.take(i as int));
            if seen {
                let j = choose|j: int| 0 <= j < out@.len() && (#[trigger] out@[j])@ == id;
                assert(views(out@)[j] == id);
            }
            if views(out@).contains(id) {
                let j = choose|j: int| 0 <= j < views(out@).len() && views(out@)[j] == id;
                assert(out@[j]@ == id);
            }
        }
        if !seen {
            let id = ids[i].clone();
            out.push(id);
            proof {
                lemma_views_push(before, id);
            }
        }
        i += 1;
    }
    assert(list.take(i as int) == list);
    out
}

/// How the states of some jobs are found out.
#[derive(Debug)]
pub enum StatusPlan {
    /// There is nothing to ask.
    Nothing,
    /// One command lists the queue for all of these jobs.
    Listing(String, Vec<String>),
    /// Each of these jobs is asked for on its own.
    Each(Vec<String>),
}

/// How the states of some jobs are found out, as texts.
pub enum Plan {
    Nothing,
    Listing(Seq<char>, Seq<Seq<char>>),
    Each(Seq<Seq<char>>),
}

impl View for StatusPlan {
    type V = Plan;

    open spec fn view(&self) -> Plan {
        match *self {
            StatusPlan::Nothing => Plan::Nothing,
            StatusPlan::Listing(command, ids) => Plan::Listing(command@, views(ids@)),
            StatusPlan::Each(ids) => Plan::Each(views(ids@)),
        }
    }
}

/// How to find out the states of some jobs: by one listing where the machine has a command for it
/// that can be filled in, else job by job. Every job is asked for once.
pub open spec fn planned(meta: Meta, ids: Seq<Seq<char>>, vars: VarSet) -> Plan {
    let once = each_once(ids);
    if once.len() == 0 {
        Plan::Nothing
    } else {
        match command_text(
            meta,
            "get-status-many"@,
            opt_text(meta.scheduler.get_status_many),
            vars,
            None,
        ) {
            Ok(command) => Plan::Listing(command, once),
            Err(_) => Plan::Each(once),
        }
    }
}

/// Whether a listing of the queue can be read for all of some jobs.
pub open spec fn is_readable(meta: Meta, output: Seq<char>, ids: Seq<Seq<char>>) -> bool {
    first_where(ids.len() as int, unreadable(meta, output, ids)) == ids.len()
}

/// The states of some jobs by the listing that was asked for; where the listing cannot be read,
/// the jobs to ask for one by one.
pub fn answer_listing(output: &str, ids: Vec<String>, meta: &Meta) -> (r: Result<Table<JobStatus>, Vec<String>>)
    ensures
        ({
            let list = views(ids@);
            if is_readable(*meta, output@, list) {
                r is Ok && r->Ok_0@ == listed_statuses(*meta, output@, list)
            } else {
                r is Err && r->Err_0 == ids
            }
        }),
{
    proof {
        let list = views(ids@);
        lemma_first_from(0, list.len() as int, unreadable(*meta, output@, list));
    }
    match status_listing(output, &ids, meta) {
        Ok(table) => Ok(table),
        Err(_) => Err(ids),
    }
}

/// The states of the jobs that were asked for one by one: a job whose query failed has none.
pub open spec fn answered_each(ids: Seq<Seq<char>>, outcomes: Seq<Option<JobStatus>>) -> Seq<(Seq<char>, JobStatus)>
    decreases ids.len(),
{
    if ids.len() == 0 {
        Seq::empty()
    } else {
        let before = answered_each(ids.drop_last(), outcomes.drop_last());
        match outcomes.last() {
            Some(status) => inserted(before, ids.last(), status),
            None => before,
        }
    }
}

/// The states of the jobs that were asked for one by one, from the outcome of each query.
pub fn answer_each(ids: &Vec<String>, outcomes: &Vec<Option<JobStatus>>) -> (r: Table<JobStatus>)
    requires
        ids@.len() == outcomes@.len(),
    ensures
        r@ == answered_each(views(ids@), outcomes@),
{
    let ghost list = views(ids@);
    let mut out: Table<JobStatus> = Table::new();
    let mut i: usize = 0;
    while i < ids.len()
        invariant
            i <= ids@.len(),
            ids@.len() == outcomes@.len(),
            list == views(ids@),
            out@ == answered_each(list.take(i as int), outcomes@.take(i as int)),
        decreases ids@.len() - i,
    {
        proof {
            assert(list.take(i + 1).drop_last() == list.take(i as int));
            assert(list.take(i + 1).last() == ids@[i as int]@);
            assert(outcomes@.take(i + 1).drop_last() == outcomes@.take(i as int));
            assert(outcomes@.take(i + 1).last() == outcomes@[i as int]);
        }
        match outcomes[i] {
            Some(status) => {
                out.insert(ids[i].clone(), status);
            },
            None => {},
        }
        i += 1;
    }
    proof {
        assert(list.take(i as int) == list);
        assert(outcomes@.take(i as int) == outcomes@);
    }
    out
}

/// What asking for the states of some jobs comes to, given the output of the listing, where it
/// ran, and what the query of a job alone finds out.
pub open spec fn queried(
    meta: Meta,
    ids: Seq<Seq<char>>,
    vars: VarSet,
    listing: Option<Seq<char>>,
    outcome: spec_fn(Seq<char>) -> Option<JobStatus>,
) -> Seq<(Seq<char>, JobStatus)> {
    match planned(meta, ids, vars) {
        Plan::Nothing => Seq::empty(),
        Plan::Each(list) => answered_each(list, list.map_values(outcome)),
        Plan::Listing(_, list) => match listing {
            Some(output) => if is_readable(meta, output, list) {
                listed_statuses(meta, output, list)
            } else {
                answered_each(list, list.map_values(outcome))
            },
            None => answered_each(list, list.map_values(outcome)),
        },
    }
}

/// Whether one listing answers for all of some jobs.
pub open spec fn by_listing(meta: Meta, ids: Seq<Seq<char>>, vars: VarSet, listing: Option<Seq<char>>) -> bool {
    planned(meta, ids, vars) is Listing && listing is Some && is_readable(meta, listing->0, each_once(ids))
}

/// Only the jobs that are asked for get a state, and no job is asked for twice. One listing that
/// can be read answers for all of them, and a job that none of its lines is about is unknown.
/// Without it a job has a state exactly where its own query finds one out, and has that one.
/// Where no job is asked for, nothing is run.
pub proof fn status_queries_answer_each_job(
    meta: Meta,
    ids: Seq<Seq<char>>,
    vars: VarSet,
    listing: Option<Seq<char>>,
    outcome: spec_fn(Seq<char>) -> Option<JobStatus>,
    id: Seq<char>,
)
    ensures
        ids.len() == 0 ==> planned(meta, ids, vars) is Nothing,
        match planned(meta, ids, vars) {
            Plan::Nothing => ids.len() == 0,
            Plan::Listing(_, list) => list.no_duplicates() && (list.contains(id) <==> ids.contains(id)),
            Plan::Each(list) => list.no_duplicates() && (list.contains(id) <==> ids.contains(id)),
        },
        ({
            let result = queried(meta, ids, vars, listing, outcome);
            &&& distinct(result)
            &&& has_name(result, id) ==> ids.contains(id)
            &&& by_listing(meta, ids, vars, listing) && ids.contains(id) ==> {
                &&& has_name(result, id)
                &&& listed_status(meta, listing->0, id) == Ok::<JobStatus, SchedulerFault>(value_of(result, id))
                &&& (forall|i: int|
                    0 <= i < lines_of(listing->0).len() ==> !is_about(#[trigger] lines_of(listing->0)[i], id))
                    ==> value_of(result, id) == JobStatus::Unknown
            }
            &&& !by_listing(meta, ids, vars, listing) && ids.contains(id) ==> {
                &&& has_name(result, id) <==> outcome(id) is Some
                &&& outcome(id) is Some ==> outcome(id) == Some(value_of(result, id))
            }
        }),
{
    let once = each_once(ids);
    each_once_keeps_all(ids);
    if ids.len() > 0 {
        assert(ids.contains(ids[0]));
        assert(once.contains(ids[0]));
    }
    lemma_answered_each(once, outcome, id);
    if by_listing(meta, ids, vars, listing) {
        let output = listing->0;
        let p = unreadable(meta, output, once);
        lemma_first_from(0, once.len() as int, p);
        assert forall|i: int| 0 <= i < once.len() implies listed_status(meta, output, #[trigger] once[i]) is Ok by {
            assert(!p(i));
        }
        lemma_listed_statuses(meta, output, once, id);
        if forall|i: int| 0 <= i < lines_of(output).len() ==> !is_about(#[trigger] lines_of(output)[i], id) {
            unlisted_jobs_are_unknown(meta, output, id);
        }
    } else if once.len() == 0 {
        assert(!ids.contains(id));
    }
}

proof fn lemma_answered_each(ids: Seq<Seq<char>>, outcome: spec_fn(Seq<char>) -> Option<JobStatus>, id: Seq<char>)
    ensures
        ({
            let result = answered_each(ids, ids.map_values(outcome));
            &&& distinct(result)
            &&& has_name(result, id) <==> ids.contains(id) && outcome(id) is Some
            &&& has_name(result, id) ==> outcome(id) == Some(value_of(result, id))
        }),
    decreases ids.len(),
{
    if ids.len() > 0 {
        let init = ids.drop_last();
        lemma_answered_each(init, outcome, id);
        assert(ids.map_values(outcome).drop_last() == init.map_values(outcome));
        assert(ids == init.push(ids.last()));
        assert(ids.contains(id) <==> init.contains(id) || ids.last() == id) by {
            lemma_contains_push(init, ids.last(), id);
        }
        match outcome(ids.last()) {
            Some(status) => {
                lemma_inserted_lookup(
                    answered_each(init, init.map_values(outcome)),
                    ids.last(),
                    status,
                    id,
                );
            },
            None => {},
        }
    }
}

proof fn lemma_listed_statuses(meta: Meta, output: Seq<char>, ids: Seq<Seq<char>>, id: Seq<char>)
    requires
        forall|i: int| 0 <= i < ids.len() ==> listed_status(meta, output, #[trigger] ids[i]) is Ok,
    ensures
        ({
            let result = listed_statuses(meta, output, ids);
            &&& distinct(result)
            &&& has_name(result, id) <==> ids.contains(id)
            &&& has_name(result, id) ==> listed_status(meta, output, id) == Ok::<JobStatus, SchedulerFault>(
                value_of(result, id),
            )
        }),
    decreases ids.len(),
{
    if ids.len() > 0 {
        let init = ids.drop_last();
        assert forall|i: int| 0 <= i < init.len() implies listed_status(meta, output, #[trigger] init[i]) is Ok by {
            assert(listed_status(meta, output, ids[i]) is Ok);
        }
        lemma_listed_statuses(meta, output, init, id);
        assert(ids == init.push(ids.last()));
        assert(ids.contains(id) <==> init.contains(id) || ids.last() == id) by {
            lemma_contains_push(init, ids.last(), id);
        }
        assert(listed_status(meta, output, ids[ids.len() - 1]) is Ok);
        lemma_inserted_lookup(
            listed_statuses(meta, output, init),
            ids.last(),
            listed_status(meta, output, ids.last())->Ok_0,
            id,
        );
    }
}

proof fn lemma_contains_push(s: Seq<Seq<char>>, x: Seq<char>, y: Seq<char>)
    ensures
        s.push(x).contains(y) <==> s.contains(y) || x == y,
{
    if s.contains(y) {
        let i = choose|i: int| 0 <= i < s.len() && s[i] == y;
        assert(s.push(x)[i] == y);
    }
    assert(s.push(x)[s.len() as int] == x);
    if s.push(x).contains(y) {
        let i = choose|i: int| 0 <= i < s.push(x).len() && s.push(x)[i] == y;
        if i < s.len() {
            assert(s[i] == y);
        }
    }
}

/// The driver of one machine's scheduler.
pub struct Scheduler<'m> {
    pub meta: &'m Meta,
}

impl<'m> Scheduler<'m> {
    /// The driver of a machine's scheduler.
    pub fn new(meta: &'m Meta) -> (r: Scheduler<'m>)
        ensures
            *r.meta == *meta,
    {
        Scheduler { meta }
    }

    fn command_for(&self, what: &str, template: &Option<String>, vars: &VarSet, universe: Option<&str>) -> (r: Result<
        String,
        SchedulerError,
    >)
        ensures
            match command_text(*self.meta, what@, opt_text(*template), *vars, match universe {
                Some(u) => Some(u@),
                None => None,
            }) {
                Ok(cmd) => r is Ok && r->Ok_0@ == cmd,
                Err(f) => r is Err && r->Err_0@ == f,
            },
    {
        match template {
            None => Err(SchedulerError::NoCommand(what.to_owned())),
            Some(t) => match vars.substitute(t) {
                Err(e) => Err(SchedulerError::Template(what.to_owned(), e)),
                Ok(cmd) => {
                    let env = self.meta.effective_env(universe, Phase::Submit);
                    if env.as_str().is_empty() {
                        Ok(cmd)
                    } else {
                        Ok(cat3(&env, "\n", &cmd))
                    }
                },
            },
        }
    }

    fn command_in(&self, command: Result<String, SchedulerError>, universe: Option<&Universe>, vars: &VarSet) -> (r: Result<
        WrappedCommand,
        SchedulerError,
    >)
        ensures
            match command_wrapped(
                match command {
                    Ok(s) => Ok(s@),
                    Err(e) => Err(e@),
                },
                match universe {
                    Some(u) => Some(*u),
                    None => None,
                },
                *vars,
            ) {
                Ok(w) => r is Ok && r->Ok_0@ == w,
                Err(f) => r is Err && r->Err_0@ == f,
            },
    {
        match command {
            Err(e) => Err(e),
            Ok(inner) => match universe {
                None => Ok(WrappedCommand::Shell(inner)),
                Some(u) => match u.wrap(vars, &inner) {
                    Ok(w) => Ok(w),
                    Err(e) => Err(SchedulerError::Wrap(e)),
                },
            },
        }
    }

    /// The command that submits a job, in the universe of the submission where there is one.
    pub fn submit(&self, vars: &VarSet, universe: Option<(&str, &Universe)>) -> (r: Result<
        WrappedCommand,
        SchedulerError,
    >)
        ensures
            match command_wrapped(
                command_text(
                    *self.meta,
                    "submit"@,
                    opt_text(self.meta.scheduler.submit),
                    *vars,
                    universe_name(universe),
                ),
                universe_value(universe),
                *vars,
            ) {
                Ok(w) => r is Ok && r->Ok_0@ == w,
                Err(f) => r is Err && r->Err_0@ == f,
            },
    {
        let (name, value) = match universe {
            Some((n, u)) => (Some(n), Some(u)),
            None => (None, None),
        };
        let command = self.command_for("submit", &self.meta.scheduler.submit, vars, name);
        self.command_in(command, value, vars)
    }

    /// The job that the output of a submission names.
    pub fn submitted(&self, output: &str) -> (r: Result<String, SchedulerError>)
        ensures
            match job_submitted(*self.meta, output@) {
                Ok(id) => r is Ok && r->Ok_0@ == id,
                Err(f) => r is Err && r->Err_0@ == f,
            },
    {
        let pattern: &str = match &self.meta.scheduler.submit_pattern {
            Some(p) => p.as_str(),
            None => "(.*)",
        };
        match compile(pattern) {
            Err(m) => Err(SchedulerError::BadPattern("submit-pattern".to_owned(), pattern.to_owned(), m)),
            Ok(regex) => match job_id_in(first_group(&regex, &trim(output))) {
                Some(id) => Ok(id),
                None => Err(SchedulerError::NoJobId("submit".to_owned(), pattern.to_owned(), output.to_owned())),
            },
        }
    }

    /// The command that submits a job and waits for it, with the watch to follow its output by.
    pub fn submit_blocking(&self, vars: &VarSet, universe: Option<(&str, &Universe)>) -> (r: Result<
        (WrappedCommand, Watch),
        SchedulerError,
    >)
        ensures
            match command_wrapped(
                command_text(
                    *self.meta,
                    "blocking-submit"@,
                    opt_text(self.meta.scheduler.blocking_submit),
                    *vars,
                    universe_name(universe),
                ),
                universe_value(universe),
                *vars,
            ) {
                Err(f) => r is Err && r->Err_0@ == f,
                Ok(w) => match pattern_fault(submit_pattern(*self.meta)) {
                    Some(m) => r is Err && r->Err_0@ == SchedulerFault::BadPattern(
                        "submit-pattern"@,
                        submit_pattern(*self.meta),
                        m,
                    ),
                    None => {
                        &&& r is Ok
                        &&& (r->Ok_0).0@ == w
                        &&& (r->Ok_0).1.pattern() == submit_pattern(*self.meta)
                        &&& (r->Ok_0).1.id() is None
                    },
                },
            },
    {
        let (name, value) = match universe {
            Some((n, u)) => (Some(n), Some(u)),
            None => (None, None),
        };
        let command = self.command_for("blocking-submit", &self.meta.scheduler.blocking_submit, vars, name);
        let wrapped_command = match self.command_in(command, value, vars) {
            Ok(w) => w,
            Err(e) => {
                return Err(e);
            },
        };
        let pattern: &str = match &self.meta.scheduler.submit_pattern {
            Some(p) => p.as_str(),
            None => "(.*)",
        };
        match compile(pattern) {
            Err(m) => Err(SchedulerError::BadPattern("submit-pattern".to_owned(), pattern.to_owned(), m)),
            Ok(regex) => Ok((wrapped_command, Watch { pattern: pattern.to_owned(), regex, id: None })),
        }
    }

    /// The command that asks for the state of one job. `classify` reads its output; that it
    /// fails is no error.
    pub fn get_status(&self, vars: &VarSet) -> (r: Result<String, SchedulerError>)
        ensures
            match command_text(
                *self.meta,
                "get-status"@,
                opt_text(self.meta.scheduler.get_status),
                *vars,
                None,
            ) {
                Ok(cmd) => r is Ok && r->Ok_0@ == cmd,
                Err(f) => r is Err && r->Err_0@ == f,
            },
    {
        self.command_for("get-status", &self.meta.scheduler.get_status, vars, None)
    }

    /// How to find out the states of some jobs: by one listing where the machine has a command
    /// for it that can be filled in, else job by job. Every job is asked for once.
    pub fn get_statuses(&self, ids: &Vec<String>, vars: &VarSet) -> (r: StatusPlan)
        ensures
            r@ == planned(*self.meta, views(ids@), *vars),
    {
        let once = dedupe(ids);
        assert(once@.len() == views(once@).len());
        if once.len() == 0 {
            return StatusPlan::Nothing;
        }
        match self.command_for("get-status-many", &self.meta.scheduler.get_status_many, vars, None) {
            Ok(cmd) => StatusPlan::Listing(cmd, once),
            Err(_) => StatusPlan::Each(once),
        }
    }

    /// The command that stops a job.
    pub fn stop(&self, vars: &VarSet) -> (r: Result<String, SchedulerError>)
        ensures
            match command_text(*self.meta, "stop"@, opt_text(self.meta.scheduler.stop), *vars, None) {
                Ok(cmd) => r is Ok && r->Ok_0@ == cmd,
                Err(f) => r is Err && r->Err_0@ == f,
            },
    {
        self.command_for("stop", &self.meta.scheduler.stop, vars, None)
    }

    /// The command that asks for the host that a job runs on; nothing where the machine has
    /// none.
    pub fn exec_host(&self, vars: &VarSet) -> (r: Result<Option<String>, SchedulerError>)
        ensures
            match self.meta.scheduler.exec_host {
                None => r == Ok::<Option<String>, SchedulerError>(None),
                Some(t) => match command_text(*self.meta, "exec-host"@, Some(t@), *vars, None) {
                    Ok(cmd) => r is Ok && opt_text(r->Ok_0) == Some(cmd),
                    Err(f) => r is Err && r->Err_0@ == f,
                },
            },
    {
        if self.meta.scheduler.exec_host.is_none() {
            return Ok(None);
        }
        match self.command_for("exec-host", &self.meta.scheduler.exec_host, vars, None) {
            Ok(cmd) => Ok(Some(cmd)),
            Err(e) => Err(e),
        }
    }

    /// The host that the output of the query names.
    pub fn host_in(&self, output: &str) -> (r: Result<Option<String>, SchedulerError>)
        ensures
            match host_named(*self.meta, output@) {
                Ok(host) => r is Ok && opt_text(r->Ok_0) == host,
                Err(f) => r is Err && r->Err_0@ == f,
            },
    {
        let pattern: &str = match &self.meta.scheduler.exec_host_pattern {
            Some(p) => p.as_str(),
            None => "(.*)",
        };
        match compile(pattern) {
            Err(m) => Err(SchedulerError::BadPattern("exec-host-pattern".to_owned(), pattern.to_owned(), m)),
            Ok(regex) => match first_group(&regex, &trim(output)) {
                Some(g) => Ok(Some(trim(&g))),
                None => Ok(None),
            },
        }
    }
}

/// In one listing every job has its own state: the one that the listing gives it alone.
pub proof fn listed_jobs_have_their_own_state(meta: Meta, output: Seq<char>, ids: Seq<Seq<char>>, id: Seq<char>)
    ensures
        distinct(listed_statuses(meta, output, ids)),
        has_name(listed_statuses(meta, output, ids), id) <==> ids.contains(id),
        ids.contains(id) ==> value_of(listed_statuses(meta, output, ids), id) == listed_status(meta, output, id)->Ok_0,
    decreases ids.len(),
{
    if ids.len() > 0 {
        let (front, last) = (ids.drop_last(), ids.last());
        listed_jobs_have_their_own_state(meta, output, front, id);
        lemma_inserted_lookup(listed_statuses(meta, output, front), last, listed_status(meta, output, last)->Ok_0, id);
        assert(ids[ids.len() - 1] == last);
        if ids.contains(id) {
            let i = choose|i: int| 0 <= i < ids.len() && ids[i] == id;
            if i < front.len() {
                assert(front[i] == id);
            }
        }
        if front.contains(id) {
            let i = choose|i: int| 0 <= i < front.len() && front[i] == id;
            assert(ids[i] == id);
        }
    }
}

/// Where jobs are asked for one by one, each that was answered has its own answer, and one that was not
/// is left out.
pub proof fn asked_jobs_have_their_own_state(ids: Seq<Seq<char>>, outcomes: Seq<Option<JobStatus>>, k: int)
    requires
        ids.len() == outcomes.len(),
        0 <= k < ids.len(),
        forall|i: int, j: int| #![trigger ids[i], ids[j]] 0 <= i < j < ids.len() ==> ids[i] != ids[j],
    ensures
        outcomes[k] is Some ==> {
            &&& has_name(answered_each(ids, outcomes), ids[k])
            &&& value_of(answered_each(ids, outcomes), ids[k]) == outcomes[k]->0
        },
        outcomes[k] is None ==> !has_name(answered_each(ids, outcomes), ids[k]),
{
    lemma_answered(ids, outcomes, ids[k]);
    assert(ids.contains(ids[k]));
}

proof fn lemma_answered(ids: Seq<Seq<char>>, outcomes: Seq<Option<JobStatus>>, id: Seq<char>)
    requires
        ids.len() == outcomes.len(),
        forall|i: int, j: int| #![trigger ids[i], ids[j]] 0 <= i < j < ids.len() ==> ids[i] != ids[j],
    ensures
        distinct(answered_each(ids, outcomes)),
        !ids.contains(id) ==> !has_name(answered_each(ids, outcomes), id),
        forall|k: int| 0 <= k < ids.len() && #[trigger] ids[k] == id ==> {
            &&& has_name(answered_each(ids, outcomes), id) == (outcomes[k] is Some)
            &&& outcomes[k] is Some ==> value_of(answered_each(ids, outcomes), id) == outcomes[k]->0
        },
    decreases ids.len(),
{
    if ids.len() > 0 {
        let (front, last) = (ids.drop_last(), ids.last());
        let said = outcomes.drop_last();
        let before = answered_each(front, said);
        assert forall|i: int, j: int| #![trigger front[i], front[j]] 0 <= i < j < front.len() implies front[i]
            != front[j] by {
            assert(ids[i] != ids[j]);
        }
        lemma_answered(front, said, id);
        if outcomes.last() is Some {
            lemma_inserted_lookup(before, last, outcomes.last()->0, id);
        }
        assert(ids[ids.len() - 1] == last);
        if front.contains(id) {
            let i = choose|i: int| 0 <= i < front.len() && front[i] == id;
            assert(ids[i] == id);
        }
        assert forall|k: int| 0 <= k < ids.len() && #[trigger] ids[k] == id implies {
            &&& has_name(answered_each(ids, outcomes), id) == (outcomes[k] is Some)
            &&& outcomes[k] is Some ==> value_of(answered_each(ids, outcomes), id) == outcomes[k]->0
        } by {
            if k < front.len() {
                assert(front[k] == id && said[k] == outcomes[k]);
                assert(ids[k] != ids[ids.len() - 1]);
            } else {
                if front.contains(id) {
                    let i = choose|i: int| 0 <= i < front.len() && front[i] == id;
                    assert(ids[i] != ids[k]);
                }
            }
        }
    }
}

/// The host that a job runs on is what the pattern takes out of the answer, blanks aside; without a
/// pattern of the machine's own it is all of the answer's first line that the general one takes. A bad
/// pattern is an error.
pub proof fn hosts_are_taken_by_pattern(meta: Meta, output: Seq<char>)
    ensures
        ({
            let own = meta.scheduler.exec_host_pattern;
            let pattern = if own is Some {
                own->0@
            } else {
                seq!['(', '.', '*', ')']
            };
            let group = pattern_group(pattern, trimmed(output));
            let r = host_named(meta, output);
            &&& pattern_fault(pattern) is Some <==> r is Err
            &&& r is Ok && group is None ==> r->Ok_0 is None
            &&& r is Ok && group is Some ==> r->Ok_0 == Some(trimmed(group->0))
        }),
{
    reveal_strlit("(.*)");
    assert("(.*)"@ =~= seq!['(', '.', '*', ')']);
}

/// A command that cannot be written is an error; one that can goes to the shell as it is, unless there
/// is a universe, whose wrapper then gets it.
pub proof fn universes_wrap_commands(cmd: Seq<char>, u: Universe, vars: VarSet, f: SchedulerFault)
    ensures
        command_wrapped(Err(f), Some(u), vars) == Err::<Wrapped, SchedulerFault>(f),
        command_wrapped(Ok(cmd), None, vars) == Ok::<Wrapped, SchedulerFault>(Wrapped::Shell(cmd)),
        wrapped(u, vars, cmd) is Ok ==> command_wrapped(Ok(cmd), Some(u), vars) == Ok::<Wrapped, SchedulerFault>(
            wrapped(u, vars, cmd)->Ok_0,
        ),
        wrapped(u, vars, cmd) is Err ==> command_wrapped(Ok(cmd), Some(u), vars) == Err::<Wrapped, SchedulerFault>(
            SchedulerFault::Wrap(wrapped(u, vars, cmd)->Err_0),
        ),
{
}

} // verus!
