//! Looking after simulations: what is shown of them, and how they are stopped, cleaned up and
//! deleted.

use crate::mdb::meta::opt_view;
use crate::scheduler::{display_state, shown, DisplayState, JobStatus};
use crate::sim::restart::{dir_name, dir_text, job_of, restart_dir, RestartMeta, NO_JOB_ID};
use crate::sim::vars::ref_view;
use crate::sim::Simulation;
use crate::table::{has_name, value_of, Table};
use crate::text::{
    begins_with, cat2, cat3, cat4, cat5, cat7, decimal, decimal_of, ends, ends_with, join, joined, lemma_views_push, path_join,
    path_of, same, views,
};
use crate::toml_text::{dict_of, field, get_field, lemma_toml_of, Toml, TomlValue};
use vstd::prelude::*;

verus! {

/// How the active restart is stopped.
#[derive(Debug)]
pub enum StopPlan {
    /// There is none.
    Nothing,
    /// The run is asked to end, by writing into this file; the restart's id.
    Graceful(String, u32),
    /// The job is taken from the scheduler, where there is one; the restart's id.
    Forced(Option<String>, u32),
}

/// Where a run looks whether it is asked to end.
pub open spec fn terminate_text(sim_dir: Seq<char>, id: nat) -> Seq<char> {
    path_of(path_of(sim_dir, dir_text(id)), "TERMINATE"@)
}

/// Where a run looks whether it is asked to end.
pub fn terminate_path(sim_dir: &str, id: u32) -> (r: String)
    ensures
        r@ == terminate_text(sim_dir@, id as nat),
{
    path_join(&restart_dir(sim_dir, id), "TERMINATE")
}

/// How the active restart of a simulation is stopped, given its id and job and whether the file is
/// there by which its run can be asked to end. That is preferred, unless forced.
pub fn stop(sim_dir: &str, active: Option<(u32, &str)>, has_terminate: bool, force: bool) -> (r: StopPlan)
    ensures
        match active {
            None => r is Nothing,
            Some(a) => if has_terminate && !force {
                r matches StopPlan::Graceful(path, id) && path@ == terminate_text(sim_dir@, a.0 as nat) && id == a.0
            } else {
                r matches StopPlan::Forced(job, id) && id == a.0 && opt_view(job) == (if a.1@ == NO_JOB_ID@ {
                    None
                } else {
                    Some(a.1@)
                })
            },
        },
{
    match active {
        None => StopPlan::Nothing,
        Some((id, job)) => if has_terminate && !force {
            StopPlan::Graceful(terminate_path(sim_dir, id), id)
        } else if same(job, NO_JOB_ID) {
            StopPlan::Forced(None, id)
        } else {
            StopPlan::Forced(Some(job.to_owned()), id)
        },
    }
}

/// What the log says of a stop; nothing where there was nothing to stop. A restart without a job is
/// shown with the id that stands for none.
pub fn stop_text(plan: &StopPlan) -> (r: Option<String>)
    ensures
        match plan {
            StopPlan::Nothing => r is None,
            StopPlan::Graceful(_, id) => r is Some && r->0@ == "graceful termination of "@ + dir_text(*id as nat)
                + " requested"@,
            StopPlan::Forced(job, id) => r is Some && r->0@ == "stopped job "@ + (match job {
                Some(j) => j@,
                None => NO_JOB_ID@,
            }) + " ("@ + dir_text(*id as nat) + ")"@,
        },
{
    match plan {
        StopPlan::Nothing => None,
        StopPlan::Graceful(_, id) => Some(cat3("graceful termination of ", &dir_name(*id), " requested")),
        StopPlan::Forced(job, id) => {
            let name: &str = match job {
                Some(j) => j.as_str(),
                None => NO_JOB_ID,
            };
            Some(cat5("stopped job ", name, " (", &dir_name(*id), ")"))
        },
    }
}

/// How small, in bytes, a tarball has to be to be left alone.
pub const DEDUP_MIN_BYTES: u64 = 1000;

/// The ids below one of them, the largest first, given the ids in ascending order.
pub open spec fn earlier_first(ids: Seq<u32>, id: u32) -> Seq<u32>
    decreases ids.len(),
{
    if ids.len() == 0 {
        Seq::empty()
    } else if ids.last() < id {
        seq![ids.last()] + earlier_first(ids.drop_last(), id)
    } else {
        earlier_first(ids.drop_last(), id)
    }
}

/// Whether a file is a tarball that is worth sharing between restarts.
pub open spec fn is_shareable(path: Seq<char>, size: Option<u64>) -> bool {
    ends_with(path, ".tar.gz"@) && size is Some && size->0 >= DEDUP_MIN_BYTES
}

/// The restarts whose copy of a file is compared with this restart's, in their order; the first
/// whose copy is the same is shared. None where the file is no tarball, or too small.
pub fn dedup_formaline(path: &str, size: Option<u64>, ids: &Vec<u32>, id: u32) -> (r: Vec<u32>)
    ensures
        r@ == (if is_shareable(path@, size) {
            earlier_first(ids@, id)
        } else {
            Seq::empty()
        }),
{
    let mut out: Vec<u32> = Vec::new();
    if !ends(path, ".tar.gz") {
        return out;
    }
    match size {
        None => {
            return out;
        },
        Some(n) => {
            if n < DEDUP_MIN_BYTES {
                return out;
            }
        },
    }
    let mut k: usize = ids.len();
    assert(ids@.take(k as int) =~= ids@);
    while k > 0
        invariant
            k <= ids@.len(),
            earlier_first(ids@, id) == out@ + earlier_first(ids@.take(k as int), id),
        decreases k,
    {
        let ghost whole = ids@.take(k as int);
        assert(whole.drop_last() =~= ids@.take(k - 1));
        assert(whole.last() == ids@[k - 1]);
        if ids[k - 1] < id {
            let ghost before = out@;
            out.push(ids[k - 1]);
            proof {
                let rest = earlier_first(ids@.take(k - 1), id);
                assert(before + (seq![ids@[k - 1]] + rest) =~= out@ + rest);
            }
        }
        k -= 1;
    }
    assert(out@ + earlier_first(ids@.take(0), id) =~= out@);
    out
}

/// The restarts that a file is compared with all come before this one.
pub proof fn only_earlier_restarts_are_shared(ids: Seq<u32>, id: u32, i: int)
    requires
        0 <= i < earlier_first(ids, id).len(),
    ensures
        earlier_first(ids, id)[i] < id,
        ids.contains(earlier_first(ids, id)[i]),
    decreases ids.len(),
{
    if ids.len() > 0 {
        let rest = ids.drop_last();
        let all = earlier_first(ids, id);
        if ids.last() < id {
            if i == 0 {
                assert(ids[ids.len() - 1] == all[0]);
            } else {
                assert(all[i] == earlier_first(rest, id)[i - 1]);
                only_earlier_restarts_are_shared(rest, id, i - 1);
                let j = choose|j: int| 0 <= j < rest.len() && rest[j] == all[i];
                assert(ids[j] == all[i]);
            }
        } else {
            only_earlier_restarts_are_shared(rest, id, i);
            let j = choose|j: int| 0 <= j < rest.len() && rest[j] == all[i];
            assert(ids[j] == all[i]);
        }
    }
}

/// A file is compared with the copy of every earlier restart, the nearest first; and only tarballs of a
/// thousand bytes or more are.
pub proof fn the_nearest_restart_comes_first(ids: Seq<u32>, id: u32)
    requires
        forall|i: int, j: int| 0 <= i < j < ids.len() ==> ids[i] < ids[j],
    ensures
        forall|k: int| 0 <= k < ids.len() && ids[k] < id ==> earlier_first(ids, id).contains(#[trigger] ids[k]),
        forall|i: int, j: int|
            0 <= i < j < earlier_first(ids, id).len() ==> earlier_first(ids, id)[i] > earlier_first(ids, id)[j],
        forall|path: Seq<char>, size: Option<u64>| #[trigger]
            is_shareable(path, size) <==> ends_with(path, ".tar.gz"@) && size is Some && size->0 >= 1000,
    decreases ids.len(),
{
    if ids.len() > 0 {
        let rest = ids.drop_last();
        let all = earlier_first(ids, id);
        let fewer = earlier_first(rest, id);
        let last = ids.last();
        the_nearest_restart_comes_first(rest, id);
        assert forall|k: int| 0 <= k < ids.len() && ids[k] < id implies all.contains(#[trigger] ids[k]) by {
            if k < rest.len() {
                assert(rest[k] == ids[k]);
                assert(fewer.contains(rest[k]));
                let n = choose|n: int| 0 <= n < fewer.len() && fewer[n] == ids[k];
                if last < id {
                    assert(all[n + 1] == ids[k]);
                } else {
                    assert(all[n] == ids[k]);
                }
            } else {
                assert(all[0] == last);
            }
        }
        assert forall|i: int, j: int| 0 <= i < j < all.len() implies all[i] > all[j] by {
            if last < id {
                assert(all[j] == fewer[j - 1]);
                if i > 0 {
                    assert(all[i] == fewer[i - 1]);
                } else {
                    only_earlier_restarts_are_shared(rest, id, j - 1);
                    let k = choose|k: int| 0 <= k < rest.len() && rest[k] == fewer[j - 1];
                    assert(ids[k] < ids[ids.len() - 1]);
                }
            }
        }
    }
}

/// What the deletion of a simulation begins with.
#[derive(Debug)]
pub enum DeleteStep {
    /// The directory is gone: only the registry is put right.
    Prune(String),
    /// The directory is there.
    Remove(String),
}

/// Why a simulation cannot be deleted.
pub enum DeleteFault {
    Unknown(Seq<char>),
    Live(Seq<char>, Seq<(nat, Seq<char>)>),
}

/// Why a simulation cannot be deleted.
#[derive(Debug)]
pub enum DeleteError {
    Unknown(String),
    /// It has restarts whose jobs are in the queue.
    Live(String, Vec<(u32, String)>),
}

/// Restarts with their jobs, as values.
pub open spec fn live_views(live: Seq<(u32, String)>) -> Seq<(nat, Seq<char>)> {
    live.map_values(|l: (u32, String)| (l.0 as nat, l.1@))
}

impl View for DeleteError {
    type V = DeleteFault;

    open spec fn view(&self) -> DeleteFault {
        match *self {
            DeleteError::Unknown(name) => DeleteFault::Unknown(name@),
            DeleteError::Live(name, live) => DeleteFault::Live(name@, live_views(live@)),
        }
    }
}

/// Restarts with their jobs, in words.
pub open spec fn live_texts(live: Seq<(u32, String)>) -> Seq<Seq<char>> {
    live.map_values(|l: (u32, String)| dir_text(l.0 as nat) + " = job "@ + l.1@)
}

fn live_names(live: &Vec<(u32, String)>) -> (r: Vec<String>)
    ensures
        views(r@) == live_texts(live@),
{
    let mut out: Vec<String> = Vec::new();
    let mut i: usize = 0;
    while i < live.len()
        invariant
            i <= live@.len(),
            views(out@) == live_texts(live@).take(i as int),
        decreases live@.len() - i,
    {
        let ghost before = out@;
        let text = cat3(&dir_name(live[i].0), " = job ", &live[i].1);
        out.push(text);
        i += 1;
        proof {
            lemma_views_push(before, text);
            assert(live_texts(live@).take(i as int) == live_texts(live@).take(i - 1).push(text@));
        }
    }
    assert(live_texts(live@).take(i as int) == live_texts(live@));
    out
}

impl DeleteError {
    /// The message for the user, as text.
    pub open spec fn text(self) -> Seq<char> {
        match self {
            DeleteError::Unknown(name) => "no simulation named \""@ + name@ + "\" (see `cactup sim list`)"@,
            DeleteError::Live(name, live) => "simulation \""@ + name@ + "\" has live jobs ("@ + joined(
                live_texts(live@),
                ", "@,
            ) + "); `cactup sim stop "@ + name@ + "` first, or use -f to stop and delete"@,
        }
    }

    /// The message for the user.
    pub fn message(&self) -> (r: String)
        ensures
            r@ == self.text(),
    {
        match self {
            DeleteError::Unknown(name) => cat3(
                "no simulation named \"",
                name,
                "\" (see `cactup sim list`)",
            ),
            DeleteError::Live(name, live) => cat7(
                "simulation \"",
                name,
                "\" has live jobs (",
                &join(&live_names(live), ", "),
                "); `cactup sim stop ",
                name,
                "` first, or use -f to stop and delete",
            ),
        }
    }
}

/// What the deletion of a simulation begins with, given the directory on record and whether it is
/// there.
pub fn delete_step(name: &str, registered: Option<&str>, is_dir: bool) -> (r: Result<DeleteStep, DeleteError>)
    ensures
        match registered {
            None => r is Err && r->Err_0@ == DeleteFault::Unknown(name@),
            Some(dir) => if is_dir {
                r matches Ok(DeleteStep::Remove(d)) && d@ == dir@
            } else {
                r matches Ok(DeleteStep::Prune(d)) && d@ == dir@
            },
        },
{
    match registered {
        None => Err(DeleteError::Unknown(name.to_owned())),
        Some(dir) => if is_dir {
            Ok(DeleteStep::Remove(dir.to_owned()))
        } else {
            Ok(DeleteStep::Prune(dir.to_owned()))
        },
    }
}

/// Whether a restart can have a job in the queue: it has one, and has not ended.
pub open spec fn may_be_live(meta: RestartMeta) -> bool {
    meta.job_id@ != NO_JOB_ID@ && !meta.terminated
}

/// Whether a job is in the queue.
pub open spec fn in_queue(status: JobStatus) -> bool {
    status == JobStatus::Running || status == JobStatus::Queued || status == JobStatus::Holding
}

/// The job that has to be asked for before a simulation is deleted, where there is one.
pub fn job_to_check(meta: &RestartMeta) -> (r: Option<&str>)
    ensures
        r is Some <==> may_be_live(*meta),
        r is Some ==> r->0@ == meta.job_id@,
{
    if meta.terminated {
        None
    } else {
        job_of(meta)
    }
}

/// Whether a job is in the queue.
pub fn is_live(status: JobStatus) -> (r: bool)
    ensures
        r == in_queue(status),
{
    match status {
        JobStatus::Running | JobStatus::Queued | JobStatus::Holding => true,
        _ => false,
    }
}

/// The restarts with jobs in the queue, of all of a simulation's with the status of each.
pub open spec fn live_of(all: Seq<(u32, String, JobStatus)>) -> Seq<(nat, Seq<char>)>
    decreases all.len(),
{
    if all.len() == 0 {
        Seq::empty()
    } else if in_queue(all.last().2) {
        live_of(all.drop_last()).push((all.last().0 as nat, all.last().1@))
    } else {
        live_of(all.drop_last())
    }
}

/// Decides on the deletion of a simulation, given the restarts that can have jobs in the queue with
/// the status of each: refused where one has, unless forced; then the jobs that are to be stopped.
pub fn delete(name: &str, all: &Vec<(u32, String, JobStatus)>, force: bool) -> (r: Result<
    Vec<(u32, String)>,
    DeleteError,
>)
    ensures
        if live_of(all@).len() > 0 && !force {
            r is Err && r->Err_0@ == DeleteFault::Live(name@, live_of(all@))
        } else {
            r is Ok && live_views(r->Ok_0@) == live_of(all@)
        },
{
    let mut live: Vec<(u32, String)> = Vec::new();
    let mut i: usize = 0;
    assert(all@.take(0) =~= Seq::empty());
    assert(live_views(live@) =~= Seq::empty());
    while i < all.len()
        invariant
            i <= all@.len(),
            live_views(live@) == live_of(all@.take(i as int)),
        decreases all@.len() - i,
    {
        assert(all@.take(i + 1).drop_last() =~= all@.take(i as int));
        if is_live(all[i].2) {
            let ghost before = live@;
            let job = all[i].1.clone();
            live.push((all[i].0, job));
            assert(live_views(live@) =~= live_views(before).push((all@[i as int].0 as nat, job@)));
        }
        i += 1;
    }
    assert(all@.take(i as int) =~= all@);
    assert(live@.len() == live_views(live@).len());
    if live.len() > 0 && !force {
        return Err(DeleteError::Live(name.to_owned(), live));
    }
    Ok(live)
}

/// The jobs that stand in the way of a deletion are those of the simulation that run, wait or are held,
/// each with its restart; jobs that the queue does not have, or has with an error, do not.
pub proof fn live_jobs_stand_in_the_way(all: Seq<(u32, String, JobStatus)>, id: nat, job: Seq<char>)
    ensures
        live_of(all).contains((id, job)) <==> exists|i: int|
            0 <= i < all.len() && (#[trigger] all[i]).0 == id && all[i].1@ == job && (all[i].2 == JobStatus::Running
                || all[i].2 == JobStatus::Queued || all[i].2 == JobStatus::Holding),
        live_of(all).len() <= all.len(),
    decreases all.len(),
{
    if all.len() > 0 {
        let rest = all.drop_last();
        let last = all.len() - 1;
        let fewer = live_of(rest);
        let live = live_of(all);
        live_jobs_stand_in_the_way(rest, id, job);
        if live.contains((id, job)) {
            let k = choose|k: int| 0 <= k < live.len() && live[k] == (id, job);
            if k < fewer.len() {
                assert(fewer[k] == (id, job));
                let i = choose|i: int|
                    0 <= i < rest.len() && (#[trigger] rest[i]).0 == id && rest[i].1@ == job && (rest[i].2
                        == JobStatus::Running || rest[i].2 == JobStatus::Queued || rest[i].2 == JobStatus::Holding);
                assert(all[i] == rest[i]);
            } else {
                assert(all[last].0 == id && all[last].1@ == job);
            }
        }
        if exists|i: int|
            0 <= i < all.len() && (#[trigger] all[i]).0 == id && all[i].1@ == job && (all[i].2 == JobStatus::Running
                || all[i].2 == JobStatus::Queued || all[i].2 == JobStatus::Holding) {
            let i = choose|i: int|
                0 <= i < all.len() && (#[trigger] all[i]).0 == id && all[i].1@ == job && (all[i].2
                    == JobStatus::Running || all[i].2 == JobStatus::Queued || all[i].2 == JobStatus::Holding);
            if i < last {
                assert(rest[i] == all[i]);
                let k = choose|k: int| 0 <= k < fewer.len() && fewer[k] == (id, job);
                assert(live[k] == (id, job));
            } else {
                assert(live[fewer.len() as int] == (id, job));
            }
        }
    }
}

/// Only a restart that has a job and has not ended has its job asked for before a deletion.
pub proof fn ended_restarts_are_not_asked_for(meta: RestartMeta)
    ensures
        meta.terminated ==> !may_be_live(meta),
        meta.job_id@ == NO_JOB_ID@ ==> !may_be_live(meta),
        !meta.terminated && meta.job_id@ != NO_JOB_ID@ ==> may_be_live(meta),
{
}

/// What the log says of a deletion.
pub fn delete_text(force: bool) -> (r: &'static str)
    ensures
        r@ == (if force {
            "purging simulation"@
        } else {
            "moving simulation to TRASH"@
        }),
{
    if force {
        "purging simulation"
    } else {
        "moving simulation to TRASH"
    }
}

/// What is shown of a simulation, but for what the queue still has to say.
#[derive(Debug)]
pub struct SimState {
    /// The restart that decides: the active one, or else the newest.
    pub subject: Option<u32>,
    pub job: Option<String>,
    pub active: bool,
    pub chained: bool,
    pub terminated: bool,
    /// Decided whatever the queue says.
    pub decided: Option<DisplayState>,
}

impl SimState {
    /// The job whose status can still change what is shown.
    pub open spec fn asks_for(self) -> Option<Seq<char>> {
        if self.decided is Some || !(self.active || self.chained) {
            None
        } else {
            opt_view(self.job)
        }
    }

    /// What is shown, given the status of the job that had to be asked for.
    pub open spec fn shows(self, status: Option<JobStatus>) -> DisplayState {
        match self.decided {
            Some(d) => d,
            None => shown(self.active, status, self.chained, self.terminated),
        }
    }

    /// The state of a simulation of which nothing is known.
    pub fn nothing() -> (r: SimState)
        ensures
            r.subject is None,
            r.job is None,
            !r.active,
            !r.chained,
            !r.terminated,
            r.decided == Some(DisplayState::Inactive),
    {
        SimState {
            subject: None,
            job: None,
            active: false,
            chained: false,
            terminated: false,
            decided: Some(DisplayState::Inactive),
        }
    }

    /// The job whose status can still change what is shown: that of an active restart, or of one
    /// that waits in a chain.
    pub fn job_to_query(&self) -> (r: Option<&str>)
        ensures
            ref_view(r) == self.asks_for(),
    {
        if self.decided.is_some() || !(self.active || self.chained) {
            return None;
        }
        match &self.job {
            Some(j) => Some(j.as_str()),
            None => None,
        }
    }

    /// What is shown, given the status of the job that had to be asked for.
    pub fn state(&self, status: Option<JobStatus>) -> (r: DisplayState)
        ensures
            r == self.shows(status),
    {
        match self.decided {
            Some(d) => d,
            None => display_state(self.active, status, self.chained, self.terminated),
        }
    }
}

/// Where no job has to be asked for although the restart has one, no status would change what is
/// shown.
pub proof fn unasked_jobs_do_not_matter(s: SimState, a: Option<JobStatus>, b: Option<JobStatus>)
    requires
        s.asks_for() is None,
        s.job is Some,
    ensures
        s.shows(a) == s.shows(b),
{
}

/// The queue is asked for the job of a restart that is active or waits in a chain, where it has one and
/// nothing else has decided; and for no other.
pub proof fn jobs_are_asked_for_where_they_matter(s: SimState)
    ensures
        s.decided is Some ==> s.asks_for() is None,
        !s.active && !s.chained ==> s.asks_for() is None,
        s.job is None ==> s.asks_for() is None,
        s.decided is None && (s.active || s.chained) && s.job is Some ==> s.asks_for() == Some((s.job->0)@),
        s.decided is Some ==> forall|status: Option<JobStatus>| #[trigger] s.shows(status) == s.decided->0,
{
}

/// The state of a simulation from its restarts: the active one decides, or else the newest; one
/// without a record decides nothing.
pub fn sim_state(active: Option<u32>, latest: Option<u32>, record: Option<&RestartMeta>) -> (r: SimState)
    ensures
        ({
            let subject = if active is Some {
                active
            } else {
                latest
            };
            &&& r.subject == subject
            &&& if subject is None || record is None {
                r.decided == Some(DisplayState::Inactive) && r.job is None && !r.active && !r.chained && !r.terminated
            } else {
                &&& r.decided is None
                &&& opt_view(r.job) == (if record->0.job_id@ == NO_JOB_ID@ {
                    None
                } else {
                    Some(record->0.job_id@)
                })
                &&& r.active == active is Some
                &&& r.chained == record->0.chained_job_id is Some
                &&& r.terminated == record->0.terminated
            }
        }),
{
    let subject: Option<u32> = if active.is_some() { active } else { latest };
    if subject.is_none() {
        return SimState::nothing();
    }
    match record {
        None => {
            let mut s = SimState::nothing();
            s.subject = subject;
            s
        },
        Some(meta) => {
            let job = match job_of(meta) {
                Some(j) => Some(j.to_owned()),
                None => None,
            };
            SimState {
                subject,
                job,
                active: active.is_some(),
                chained: meta.chained_job_id.is_some(),
                terminated: meta.terminated,
                decided: None,
            }
        },
    }
}

/// The word for what is shown.
pub open spec fn state_text(state: DisplayState) -> Seq<char> {
    match state {
        DisplayState::Presubmitted => "PRESUBMITTED"@,
        DisplayState::Running => "RUNNING"@,
        DisplayState::Queued => "QUEUED"@,
        DisplayState::Holding => "HOLDING"@,
        DisplayState::Active => "ACTIVE"@,
        DisplayState::Finished => "FINISHED"@,
        DisplayState::Error => "ERROR"@,
        DisplayState::Inactive => "INACTIVE"@,
    }
}

/// The word for what is shown.
pub fn state_str(state: DisplayState) -> (r: &'static str)
    ensures
        r@ == state_text(state),
{
    match state {
        DisplayState::Presubmitted => "PRESUBMITTED",
        DisplayState::Running => "RUNNING",
        DisplayState::Queued => "QUEUED",
        DisplayState::Holding => "HOLDING",
        DisplayState::Active => "ACTIVE",
        DisplayState::Finished => "FINISHED",
        DisplayState::Error => "ERROR",
        DisplayState::Inactive => "INACTIVE",
    }
}

/// A simulation in a list.
#[derive(Debug)]
pub enum Row {
    /// Its directory is gone.
    Missing(String),
    /// Its directory holds no simulation; the reason.
    Broken(String),
    /// Its configuration, how many restarts it has, its directory, and its state.
    Listed(String, usize, String, SimState),
}

impl Row {
    /// The job whose status can still change what is shown.
    pub open spec fn asks_for(self) -> Option<Seq<char>> {
        match self {
            Row::Listed(_, _, _, state) => state.asks_for(),
            _ => None,
        }
    }

    /// The job whose status can still change what is shown.
    pub fn job_to_query(&self) -> (r: Option<&str>)
        ensures
            ref_view(r) == self.asks_for(),
    {
        match self {
            Row::Listed(_, _, _, state) => state.job_to_query(),
            _ => None,
        }
    }
}

/// The jobs that have to be asked for, row by row.
pub open spec fn asked_for(rows: Seq<Row>) -> Seq<Seq<char>>
    decreases rows.len(),
{
    if rows.len() == 0 {
        Seq::empty()
    } else {
        match rows.last().asks_for() {
            Some(job) => asked_for(rows.drop_last()).push(job),
            None => asked_for(rows.drop_last()),
        }
    }
}

/// The jobs that a list of simulations asks the scheduler for, all in one go.
pub fn list(rows: &Vec<Row>) -> (r: Vec<String>)
    ensures
        views(r@) == asked_for(rows@),
{
    let mut out: Vec<String> = Vec::new();
    let mut i: usize = 0;
    assert(rows@.take(0) =~= Seq::empty());
    while i < rows.len()
        invariant
            i <= rows@.len(),
            views(out@) == asked_for(rows@.take(i as int)),
        decreases rows@.len() - i,
    {
        assert(rows@.take(i + 1).drop_last() =~= rows@.take(i as int));
        if let Some(job) = rows[i].job_to_query() {
            let ghost before = out@;
            let item = job.to_owned();
            out.push(item);
            proof {
                lemma_views_push(before, item);
            }
        }
        i += 1;
    }
    assert(rows@.take(i as int) =~= rows@);
    out
}

/// The status of a job that was asked for, where the answer has it.
pub open spec fn status_in(statuses: Seq<(Seq<char>, JobStatus)>, job: Option<Seq<char>>) -> Option<JobStatus> {
    match job {
        Some(j) => if has_name(statuses, j) {
            Some(value_of(statuses, j))
        } else {
            None
        },
        None => None,
    }
}

fn look_up(statuses: &Table<JobStatus>, job: Option<&str>) -> (r: Option<JobStatus>)
    ensures
        r == status_in(statuses@, ref_view(job)),
{
    match job {
        Some(j) => match statuses.get(j) {
            Some(s) => Some(*s),
            None => None,
        },
        None => None,
    }
}

/// What a row of a list says in its second and its last column.
pub open spec fn row_columns(name: Seq<char>, row: Row, statuses: Seq<(Seq<char>, JobStatus)>, long: bool) -> (
    Seq<char>,
    Seq<char>,
) {
    match row {
        Row::Missing(dir) => ("MISSING"@, dir@ + " (prune with `cactup sim delete "@ + name + "`)"@),
        Row::Broken(reason) => ("BROKEN"@, reason@),
        Row::Listed(config, restarts, dir, state) => (
            state_text(state.shows(status_in(statuses, state.asks_for()))),
            "config "@ + config@ + ", "@ + decimal_of(restarts as nat) + " restart(s)"@ + (match state.job {
                Some(job) => ", job "@ + job@,
                None => ""@,
            }) + (if long {
                (match state.subject {
                    Some(id) => ", latest "@ + dir_text(id as nat),
                    None => ""@,
                }) + (", "@ + dir@)
            } else {
                ""@
            }),
        ),
    }
}

/// What a row of a list says in its second and its last column, given the statuses of the jobs
/// that were asked for.
pub fn row_text(name: &str, row: &Row, statuses: &Table<JobStatus>, long: bool) -> (r: (String, String))
    ensures
        r.0@ == row_columns(name@, *row, statuses@, long).0,
        r.1@ == row_columns(name@, *row, statuses@, long).1,
{
    match row {
        Row::Missing(dir) => (
            "MISSING".to_owned(),
            cat4(dir, " (prune with `cactup sim delete ", name, "`)"),
        ),
        Row::Broken(reason) => ("BROKEN".to_owned(), reason.clone()),
        Row::Listed(config, restarts, dir, state) => {
            let status = look_up(statuses, state.job_to_query());
            let head = cat5("config ", config, ", ", &decimal(*restarts as u64), " restart(s)");
            let job = match &state.job {
                Some(j) => cat2(", job ", j),
                None => "".to_owned(),
            };
            let more = if long {
                let latest = match state.subject {
                    Some(id) => cat2(", latest ", &dir_name(id)),
                    None => "".to_owned(),
                };
                cat2(&latest, &cat2(", ", dir))
            } else {
                "".to_owned()
            };
            (state_str(state.state(status)).to_owned(), cat3(&head, &job, &more))
        },
    }
}

/// A list asks for the jobs of its rows that matter, and for no others; and each row is shown by the
/// status of its own job.
pub proof fn rows_are_shown_by_their_own_job(rows: Seq<Row>, job: Seq<char>)
    ensures
        asked_for(rows).contains(job) <==> exists|i: int|
            0 <= i < rows.len() && (#[trigger] rows[i]).asks_for() == Some(job),
        forall|statuses: Seq<(Seq<char>, JobStatus)>|
            has_name(statuses, job) ==> #[trigger] status_in(statuses, Some(job)) == Some(value_of(statuses, job)),
        forall|statuses: Seq<(Seq<char>, JobStatus)>|
            !has_name(statuses, job) ==> #[trigger] status_in(statuses, Some(job)) is None,
    decreases rows.len(),
{
    if rows.len() > 0 {
        let rest = rows.drop_last();
        let last = rows.len() - 1;
        let fewer = asked_for(rest);
        let all = asked_for(rows);
        rows_are_shown_by_their_own_job(rest, job);
        if all.contains(job) {
            let k = choose|k: int| 0 <= k < all.len() && all[k] == job;
            if k < fewer.len() {
                assert(fewer[k] == job);
                let i = choose|i: int| 0 <= i < rest.len() && (#[trigger] rest[i]).asks_for() == Some(job);
                assert(rows[i].asks_for() == Some(job));
            } else {
                assert(rows[last].asks_for() == Some(job));
            }
        }
        if exists|i: int| 0 <= i < rows.len() && (#[trigger] rows[i]).asks_for() == Some(job) {
            let i = choose|i: int| 0 <= i < rows.len() && (#[trigger] rows[i]).asks_for() == Some(job);
            if i < last {
                assert(rest[i].asks_for() == Some(job));
                let k = choose|k: int| 0 <= k < fewer.len() && fewer[k] == job;
                assert(all[k] == job);
            } else {
                assert(all[fewer.len() as int] == job);
            }
        }
    }
}

/// A simulation whose directory is gone, or holds none, is listed as such; any other by its state.
pub proof fn rows_say_what_is_wrong(
    name: Seq<char>,
    row: Row,
    statuses: Seq<(Seq<char>, JobStatus)>,
    long: bool,
)
    ensures
        row is Missing ==> row_columns(name, row, statuses, long).0 == "MISSING"@,
        row is Broken ==> row_columns(name, row, statuses, long).0 == "BROKEN"@,
        row matches Row::Broken(reason) ==> row_columns(name, row, statuses, long).1 == reason@,
        row matches Row::Listed(_, _, _, state) ==> row_columns(name, row, statuses, long).0 == state_text(
            state.shows(status_in(statuses, state.asks_for())),
        ),
{
}

/// The word for a state is its name.
pub proof fn states_are_called_by_name()
    ensures
        state_text(DisplayState::Presubmitted) == "PRESUBMITTED"@,
        state_text(DisplayState::Running) == "RUNNING"@,
        state_text(DisplayState::Queued) == "QUEUED"@,
        state_text(DisplayState::Holding) == "HOLDING"@,
        state_text(DisplayState::Active) == "ACTIVE"@,
        state_text(DisplayState::Finished) == "FINISHED"@,
        state_text(DisplayState::Error) == "ERROR"@,
        state_text(DisplayState::Inactive) == "INACTIVE"@,
{
}

/// A line of a list of simulations.
#[derive(Debug, Clone, Copy, PartialEq, Eq, Structural)]
pub enum ListLine {
    /// There are no simulations.
    Nothing,
    /// The name of an installation, by its position.
    Heading(usize),
    /// A simulation, by the position of its row.
    Row(usize),
}

/// The lines on rows that belong to these installations, by their positions: one for each row, in
/// order, and a heading before the first of each installation where more than one is listed.
pub open spec fn lines_on(owners: Seq<usize>, all: bool) -> Seq<ListLine>
    decreases owners.len(),
{
    if owners.len() == 0 {
        Seq::empty()
    } else {
        let n = owners.len() - 1;
        lines_on(owners.drop_last(), all) + (if all && (n == 0 || owners[n - 1] != owners[n]) {
            seq![ListLine::Heading(owners[n])]
        } else {
            Seq::empty()
        }) + seq![ListLine::Row(n as usize)]
    }
}

/// The lines of a list of simulations, given the installation that each row belongs to.
pub fn list_lines(owners: &Vec<usize>, all: bool) -> (r: Vec<ListLine>)
    ensures
        r@ == (if owners@.len() == 0 {
            seq![ListLine::Nothing]
        } else {
            lines_on(owners@, all)
        }),
{
    let mut out: Vec<ListLine> = Vec::new();
    if owners.len() == 0 {
        out.push(ListLine::Nothing);
        assert(out@ =~= seq![ListLine::Nothing]);
        return out;
    }
    let mut i: usize = 0;
    assert(owners@.take(0) =~= Seq::empty());
    while i < owners.len()
        invariant
            i <= owners@.len(),
            out@ == lines_on(owners@.take(i as int), all),
        decreases owners@.len() - i,
    {
        let ghost before = out@;
        assert(owners@.take(i + 1).drop_last() =~= owners@.take(i as int));
        if all && (i == 0 || owners[i - 1] != owners[i]) {
            out.push(ListLine::Heading(owners[i]));
        }
        out.push(ListLine::Row(i));
        assert(out@ =~= lines_on(owners@.take(i + 1), all));
        i += 1;
    }
    assert(owners@.take(i as int) =~= owners@);
    out
}

/// Every row has its line, in order; and where more than one installation is listed, the first row of
/// each comes behind a heading with its name.
pub proof fn headings_come_before_their_rows(owners: Seq<usize>, owner: usize, all: bool)
    requires
        owners.len() <= usize::MAX,
    ensures
        ({
            let row = ListLine::Row(owners.len() as usize);
            let before = lines_on(owners, all);
            let after = lines_on(owners.push(owner), all);
            let starts = owners.len() == 0 || owners.last() != owner;
            &&& !all || !starts ==> after == before.push(row)
            &&& all && starts ==> after == before.push(ListLine::Heading(owner)).push(row)
        }),
{
    let more = owners.push(owner);
    let row = ListLine::Row(owners.len() as usize);
    let before = lines_on(owners, all);
    assert(more.drop_last() =~= owners);
    let after = lines_on(more, all);
    if all && (owners.len() == 0 || owners.last() != owner) {
        assert(after =~= before.push(ListLine::Heading(owner)).push(row));
    } else {
        assert(after =~= before.push(row));
    }
}

/// The jobs of the restarts that have both a record and a job.
pub open spec fn jobs_of(records: Seq<Option<RestartMeta>>) -> Seq<Seq<char>>
    decreases records.len(),
{
    if records.len() == 0 {
        Seq::empty()
    } else {
        match records.last() {
            Some(meta) if meta.job_id@ != NO_JOB_ID@ => jobs_of(records.drop_last()).push(meta.job_id@),
            _ => jobs_of(records.drop_last()),
        }
    }
}

/// The jobs that the details of a simulation ask the scheduler for, all in one go.
pub fn show(records: &Vec<Option<RestartMeta>>) -> (r: Vec<String>)
    ensures
        views(r@) == jobs_of(records@),
{
    let mut out: Vec<String> = Vec::new();
    let mut i: usize = 0;
    assert(records@.take(0) =~= Seq::empty());
    while i < records.len()
        invariant
            i <= records@.len(),
            views(out@) == jobs_of(records@.take(i as int)),
        decreases records@.len() - i,
    {
        assert(records@.take(i + 1).drop_last() =~= records@.take(i as int));
        if let Some(meta) = &records[i] {
            if let Some(job) = job_of(meta) {
                let ghost before = out@;
                let item = job.to_owned();
                out.push(item);
                proof {
                    lemma_views_push(before, item);
                }
            }
        }
        i += 1;
    }
    assert(records@.take(i as int) =~= records@);
    out
}

/// What is said of a file that was copied from the build, or of its absence.
pub open spec fn provenance(dir: Seq<char>, file: Seq<char>, missing: Seq<char>) -> Seq<char> {
    if file.len() == 0 {
        missing
    } else {
        path_of(path_of(dir, ".cactup/cfg"@), file)
    }
}

fn provenance_of(dir: &str, file: &str, missing: &str) -> (r: String)
    ensures
        r@ == provenance(dir@, file@, missing@),
{
    if file.is_empty() {
        missing.to_owned()
    } else {
        path_join(&path_join(dir, ".cactup/cfg"), file)
    }
}

/// The lines that head the details of a simulation, below its name. `state` is what is shown of it,
/// and `missing` stands for what is not on record; both may hold colors.
pub open spec fn head_lines(sim: Simulation, state: Seq<char>, missing: Seq<char>, long: bool) -> Seq<Seq<char>> {
    let common = seq![
        "  state:         "@ + state,
        "  directory:     "@ + sim.dir@,
        "  configuration: "@ + sim.meta.configuration@ + " (build-id "@ + sim.meta.build_id@ + ")"@,
        "  machine:       "@ + sim.meta.machine@,
        "  parfile:       "@ + sim.meta.parfile@,
        "  simulation-id: "@ + sim.meta.simulation_id@,
    ];
    if long {
        common + seq![
            "  optionlist:    "@ + provenance(sim.dir@, sim.meta.optionlist@, missing),
            "  thornlist:     "@ + provenance(sim.dir@, sim.meta.thornlist@, missing),
        ]
    } else {
        common
    }
}

/// The lines that head the details of a simulation, below its name.
pub fn show_one(sim: &Simulation, state: &str, missing: &str, long: bool) -> (r: Vec<String>)
    ensures
        views(r@) == head_lines(*sim, state@, missing@, long),
{
    let mut out: Vec<String> = Vec::new();
    out.push(cat2("  state:         ", state));
    out.push(cat2("  directory:     ", &sim.dir));
    out.push(cat5("  configuration: ", &sim.meta.configuration, " (build-id ", &sim.meta.build_id, ")"));
    out.push(cat2("  machine:       ", &sim.meta.machine));
    out.push(cat2("  parfile:       ", &sim.meta.parfile));
    out.push(cat2("  simulation-id: ", &sim.meta.simulation_id));
    if long {
        out.push(cat2("  optionlist:    ", &provenance_of(&sim.dir, &sim.meta.optionlist, missing)));
        out.push(cat2("  thornlist:     ", &provenance_of(&sim.dir, &sim.meta.thornlist, missing)));
    }
    assert(views(out@) =~= head_lines(*sim, state@, missing@, long));
    out
}

/// The details of a simulation ask for the jobs of its restarts that are on record and have one.
pub proof fn recorded_jobs_are_asked_for(records: Seq<Option<RestartMeta>>, job: Seq<char>)
    ensures
        jobs_of(records).contains(job) <==> job != NO_JOB_ID@ && exists|i: int|
            0 <= i < records.len() && (#[trigger] records[i]) is Some && (records[i]->0).job_id@ == job,
    decreases records.len(),
{
    if records.len() > 0 {
        let rest = records.drop_last();
        let last = records.len() - 1;
        let fewer = jobs_of(rest);
        let all = jobs_of(records);
        recorded_jobs_are_asked_for(rest, job);
        if all.contains(job) {
            let k = choose|k: int| 0 <= k < all.len() && all[k] == job;
            if k < fewer.len() {
                assert(fewer[k] == job);
                let i = choose|i: int|
                    0 <= i < rest.len() && (#[trigger] rest[i]) is Some && (rest[i]->0).job_id@ == job;
                assert(records[i] is Some && (records[i]->0).job_id@ == job);
            } else {
                assert(records[last] is Some && (records[last]->0).job_id@ == job);
            }
        }
        if job != NO_JOB_ID@ && exists|i: int|
            0 <= i < records.len() && (#[trigger] records[i]) is Some && (records[i]->0).job_id@ == job {
            let i = choose|i: int|
                0 <= i < records.len() && (#[trigger] records[i]) is Some && (records[i]->0).job_id@ == job;
            if i < last {
                assert(rest[i] is Some && (rest[i]->0).job_id@ == job);
                let k = choose|k: int| 0 <= k < fewer.len() && fewer[k] == job;
                assert(all[k] == job);
            } else {
                assert(all[fewer.len() as int] == job);
            }
        }
    }
}

/// The details of a simulation say where it stands, what it was made from and on which machine, each in
/// a line of its own; the lists of the build only in the long form.
pub proof fn details_say_what_is_recorded(sim: Simulation, state: Seq<char>, missing: Seq<char>, long: bool)
    ensures
        ({
            let lines = head_lines(sim, state, missing, long);
            &&& lines.len() == (if long {
                8int
            } else {
                6
            })
            &&& lines[0] == "  state:         "@ + state
            &&& lines[1] == "  directory:     "@ + sim.dir@
            &&& lines[2] == "  configuration: "@ + sim.meta.configuration@ + " (build-id "@ + sim.meta.build_id@ + ")"@
            &&& lines[3] == "  machine:       "@ + sim.meta.machine@
            &&& lines[4] == "  parfile:       "@ + sim.meta.parfile@
            &&& lines[5] == "  simulation-id: "@ + sim.meta.simulation_id@
            &&& long && sim.meta.optionlist@.len() == 0 ==> lines[6] == "  optionlist:    "@ + missing
            &&& long && sim.meta.optionlist@.len() > 0 ==> lines[6] == "  optionlist:    "@ + path_of(
                path_of(sim.dir@, ".cactup/cfg"@),
                sim.meta.optionlist@,
            )
            &&& long && sim.meta.thornlist@.len() == 0 ==> lines[7] == "  thornlist:     "@ + missing
            &&& long && sim.meta.thornlist@.len() > 0 ==> lines[7] == "  thornlist:     "@ + path_of(
                path_of(sim.dir@, ".cactup/cfg"@),
                sim.meta.thornlist@,
            )
        }),
{
}

/// What is shown of one restart among the details of its simulation, given its job's status.
pub fn restart_state(active: bool, meta: &RestartMeta, statuses: &Table<JobStatus>) -> (r: (
    DisplayState,
    Option<JobStatus>,
))
    ensures
        r.1 == status_in(statuses@, Some(meta.job_id@)),
        r.0 == shown(active, r.1, meta.chained_job_id is Some, meta.terminated),
{
    let status = look_up(statuses, Some(meta.job_id.as_str()));
    (display_state(active, status, meta.chained_job_id.is_some(), meta.terminated), status)
}

/// What a long line on a restart says besides: the job that it waits for, its universe, the
/// scheduler's own letter, and where it runs.
pub open spec fn long_part(meta: RestartMeta, status: Option<JobStatus>, host: Option<Seq<char>>) -> Seq<char> {
    (match meta.chained_job_id {
        Some(c) => ", after job "@ + c@,
        None => ""@,
    }) + (match meta.universe {
        Some(u) => ", universe "@ + u.name@,
        None => ""@,
    }) + (match status {
        Some(s) => ", sched "@ + seq![letter_of(s)] + (if s == JobStatus::Running && host is Some {
            ", host "@ + host->0
        } else {
            ""@
        }),
        None => ""@,
    })
}

/// The letter that stands for a job's state.
pub open spec fn letter_of(s: JobStatus) -> char {
    match s {
        JobStatus::Running => 'R',
        JobStatus::Queued => 'Q',
        JobStatus::Holding => 'H',
        JobStatus::Unknown => 'U',
        JobStatus::Error => 'E',
    }
}

fn long_text(meta: &RestartMeta, status: Option<JobStatus>, host: Option<&str>) -> (r: String)
    ensures
        r@ == long_part(*meta, status, ref_view(host)),
{
    let after = match &meta.chained_job_id {
        Some(c) => cat2(", after job ", c),
        None => "".to_owned(),
    };
    let universe = match &meta.universe {
        Some(u) => cat2(", universe ", &u.name),
        None => "".to_owned(),
    };
    let sched = match status {
        Some(s) => {
            let mut letter = String::new();
            letter.push(s.letter());
            assert(letter@ =~= seq![letter_of(s)]);
            let place = match (s, host) {
                (JobStatus::Running, Some(h)) => cat2(", host ", h),
                _ => "".to_owned(),
            };
            cat3(", sched ", &letter, &place)
        },
        None => "".to_owned(),
    };
    cat3(&after, &universe, &sched)
}

/// The line on a restart with a record. `state` is what is shown of it and may hold colors.
pub open spec fn restart_text(
    id: nat,
    active: bool,
    state: Seq<char>,
    meta: RestartMeta,
    status: Option<JobStatus>,
    host: Option<Seq<char>>,
    long: bool,
) -> Seq<char> {
    ("    "@ + dir_text(id) + (if active {
        " (active)"@
    } else {
        ""@
    }) + ": "@ + state + " — job "@ + meta.job_id@) + ", queue "@ + meta.queue@ + ", wall "@ + meta.walltime.written()
        + (if long {
        long_part(meta, status, host)
    } else {
        ""@
    })
}

/// The line on a restart with a record.
pub fn restart_line(
    id: u32,
    active: bool,
    state: &str,
    meta: &RestartMeta,
    status: Option<JobStatus>,
    host: Option<&str>,
    long: bool,
) -> (r: String)
    ensures
        r@ == restart_text(id as nat, active, state@, *meta, status, ref_view(host), long),
{
    let head = cat7(
        "    ",
        &dir_name(id),
        if active {
            " (active)"
        } else {
            ""
        },
        ": ",
        state,
        " — job ",
        &meta.job_id,
    );
    let more = if long {
        long_text(meta, status, host)
    } else {
        "".to_owned()
    };
    let body = cat5(&head, ", queue ", &meta.queue, ", wall ", &meta.walltime.canonical());
    cat2(&body, &more)
}

/// The line on a restart without a record.
pub open spec fn bare_text(id: nat, active: bool) -> Seq<char> {
    "    "@ + dir_text(id) + (if active {
        " (active)"@
    } else {
        ""@
    }) + ": (no metadata)"@
}

/// The line on a restart without a record.
pub fn bare_line(id: u32, active: bool) -> (r: String)
    ensures
        r@ == bare_text(id as nat, active),
{
    cat4(
        "    ",
        &dir_name(id),
        if active {
            " (active)"
        } else {
            ""
        },
        ": (no metadata)",
    )
}

/// How each state is shown, in colors perhaps.
#[derive(Debug)]
pub struct Palette {
    pub presubmitted: String,
    pub running: String,
    pub queued: String,
    pub holding: String,
    pub active: String,
    pub finished: String,
    pub error: String,
    pub inactive: String,
}

impl Palette {
    /// How a state is shown, as text.
    pub open spec fn shows(self, state: DisplayState) -> Seq<char> {
        match state {
            DisplayState::Presubmitted => self.presubmitted@,
            DisplayState::Running => self.running@,
            DisplayState::Queued => self.queued@,
            DisplayState::Holding => self.holding@,
            DisplayState::Active => self.active@,
            DisplayState::Finished => self.finished@,
            DisplayState::Error => self.error@,
            DisplayState::Inactive => self.inactive@,
        }
    }

    /// How a state is shown.
    pub fn show(&self, state: DisplayState) -> (r: &str)
        ensures
            r@ == self.shows(state),
    {
        match state {
            DisplayState::Presubmitted => self.presubmitted.as_str(),
            DisplayState::Running => self.running.as_str(),
            DisplayState::Queued => self.queued.as_str(),
            DisplayState::Holding => self.holding.as_str(),
            DisplayState::Active => self.active.as_str(),
            DisplayState::Finished => self.finished.as_str(),
            DisplayState::Error => self.error.as_str(),
            DisplayState::Inactive => self.inactive.as_str(),
        }
    }
}

/// Whether the host of a job is asked for: in long lines, where the job runs.
pub fn asks_host(status: Option<JobStatus>, long: bool) -> (r: bool)
    ensures
        r == (long && status == Some(JobStatus::Running)),
{
    match status {
        Some(JobStatus::Running) => long,
        _ => false,
    }
}

/// The line on a restart, with or without a record. `host` is where its job runs, as far as that is
/// known.
pub open spec fn line_of(
    id: u32,
    active: Option<u32>,
    record: Option<RestartMeta>,
    statuses: Seq<(Seq<char>, JobStatus)>,
    host: Option<Seq<char>>,
    palette: Palette,
    long: bool,
) -> Seq<char> {
    let is_active = active == Some(id);
    match record {
        Some(meta) => {
            let status = status_in(statuses, Some(meta.job_id@));
            let state = shown(is_active, status, meta.chained_job_id is Some, meta.terminated);
            restart_text(id as nat, is_active, palette.shows(state), meta, status, host, long)
        },
        None => bare_text(id as nat, is_active),
    }
}

/// The lines on the restarts of a simulation: a heading, and a line for each in the order of their
/// ids; one line where there are none.
pub open spec fn restart_block(
    ids: Seq<u32>,
    active: Option<u32>,
    records: Seq<Option<RestartMeta>>,
    statuses: Seq<(Seq<char>, JobStatus)>,
    hosts: Seq<Option<String>>,
    palette: Palette,
    long: bool,
) -> Seq<Seq<char>> {
    if ids.len() == 0 {
        seq!["  restarts:      none"@]
    } else {
        seq!["  restarts:"@] + Seq::new(
            ids.len(),
            |i: int| line_of(ids[i], active, records[i], statuses, opt_view(hosts[i]), palette, long),
        )
    }
}

/// The lines on the restarts of a simulation, below those that head its details, given the record of
/// each restart, where it has one, and the host that its job runs on, where that is known.
pub fn restart_lines(
    ids: &Vec<u32>,
    active: Option<u32>,
    records: &Vec<Option<RestartMeta>>,
    statuses: &Table<JobStatus>,
    hosts: &Vec<Option<String>>,
    palette: &Palette,
    long: bool,
) -> (r: Vec<String>)
    requires
        records@.len() == ids@.len(),
        hosts@.len() == ids@.len(),
    ensures
        views(r@) == restart_block(ids@, active, records@, statuses@, hosts@, *palette, long),
{
    let mut out: Vec<String> = Vec::new();
    if ids.len() == 0 {
        out.push("  restarts:      none".to_owned());
        assert(views(out@) =~= seq!["  restarts:      none"@]);
        return out;
    }
    out.push("  restarts:".to_owned());
    let ghost block = restart_block(ids@, active, records@, statuses@, hosts@, *palette, long);
    let mut i: usize = 0;
    assert(views(out@) =~= block.take(1));
    while i < ids.len()
        invariant
            i <= ids@.len(),
            ids@.len() > 0,
            records@.len() == ids@.len(),
            hosts@.len() == ids@.len(),
            block == restart_block(ids@, active, records@, statuses@, hosts@, *palette, long),
            views(out@) == block.take(i + 1),
        decreases ids@.len() - i,
    {
        let ghost before = out@;
        let id: u32 = ids[i];
        let is_active = match active {
            Some(a) => a == id,
            None => false,
        };
        let host: Option<&str> = match &hosts[i] {
            Some(h) => Some(h.as_str()),
            None => None,
        };
        let line = match &records[i] {
            Some(meta) => {
                let (state, status) = restart_state(is_active, meta, statuses);
                restart_line(id, is_active, palette.show(state), meta, status, host, long)
            },
            None => bare_line(id, is_active),
        };
        out.push(line);
        proof {
            lemma_views_push(before, line);
            assert(block[i + 1] == line@);
            assert(block.take(i + 2) =~= block.take(i + 1).push(line@));
        }
        i += 1;
    }
    assert(block.take(i + 1) =~= block);
    out
}

/// Every restart has one line, below the heading, and it begins with the restart's directory.
pub proof fn every_restart_has_its_line(
    ids: Seq<u32>,
    active: Option<u32>,
    records: Seq<Option<RestartMeta>>,
    statuses: Seq<(Seq<char>, JobStatus)>,
    hosts: Seq<Option<String>>,
    palette: Palette,
    long: bool,
    i: int,
)
    requires
        0 <= i < ids.len(),
    ensures
        ({
            let block = restart_block(ids, active, records, statuses, hosts, palette, long);
            &&& block.len() == ids.len() + 1
            &&& begins_with(block[i + 1], "    "@ + dir_text(ids[i] as nat))
        }),
{
    let line = restart_block(ids, active, records, statuses, hosts, palette, long)[i + 1];
    let front = "    "@ + dir_text(ids[i] as nat);
    assert(line.take(front.len() as int) =~= front);
}

/// The line on a restart shows its own job, queue and walltime, and its state by the status of its own
/// job; the active restart is marked. Where the job runs is only said of one that does.
pub proof fn lines_show_their_own_restart(
    id: u32,
    active: Option<u32>,
    meta: RestartMeta,
    statuses: Seq<(Seq<char>, JobStatus)>,
    host: Option<Seq<char>>,
    palette: Palette,
    long: bool,
)
    ensures
        ({
            let status = if has_name(statuses, meta.job_id@) {
                Some(value_of(statuses, meta.job_id@))
            } else {
                None
            };
            let state = shown(active == Some(id), status, meta.chained_job_id is Some, meta.terminated);
            let mark = if active == Some(id) {
                " (active)"@
            } else {
                ""@
            };
            let short = "    "@ + dir_text(id as nat) + mark + ": "@ + palette.shows(state) + " — job "@ + meta.job_id@
                + ", queue "@ + meta.queue@ + ", wall "@ + meta.walltime.written();
            let line = line_of(id, active, Some(meta), statuses, host, palette, long);
            &&& !long ==> line == short
            &&& long ==> line == short + long_part(meta, status, host)
            &&& line_of(id, active, None, statuses, host, palette, long) == "    "@ + dir_text(id as nat) + mark
                + ": (no metadata)"@
        }),
        ({
            let after = if meta.chained_job_id is Some {
                ", after job "@ + (meta.chained_job_id->0)@
            } else {
                ""@
            };
            let place = if meta.universe is Some {
                ", universe "@ + (meta.universe->0).name@
            } else {
                ""@
            };
            &&& long_part(meta, None, host) == after + place + ""@
            &&& long_part(meta, Some(JobStatus::Queued), host) == after + place + (", sched "@ + seq!['Q'] + ""@)
            &&& long_part(meta, Some(JobStatus::Holding), host) == after + place + (", sched "@ + seq!['H'] + ""@)
            &&& long_part(meta, Some(JobStatus::Unknown), host) == after + place + (", sched "@ + seq!['U'] + ""@)
            &&& long_part(meta, Some(JobStatus::Error), host) == after + place + (", sched "@ + seq!['E'] + ""@)
            &&& long_part(meta, Some(JobStatus::Running), None) == after + place + (", sched "@ + seq!['R'] + ""@)
            &&& host is Some ==> long_part(meta, Some(JobStatus::Running), host) == after + place + (", sched "@
                + seq!['R'] + (", host "@ + host->0))
        }),
{
    let status = status_in(statuses, Some(meta.job_id@));
    let line = line_of(id, active, Some(meta), statuses, host, palette, long);
    let state = shown(active == Some(id), status, meta.chained_job_id is Some, meta.terminated);
    let mark = if active == Some(id) {
        " (active)"@
    } else {
        ""@
    };
    let short = "    "@ + dir_text(id as nat) + mark + ": "@ + palette.shows(state) + " — job "@ + meta.job_id@
        + ", queue "@ + meta.queue@ + ", wall "@ + meta.walltime.written();
    reveal_strlit("");
    if long {
        assert(line =~= short + long_part(meta, status, host));
    } else {
        assert(line =~= short);
    }
}

/// The restart that a command looks at: the active one, or else the newest.
pub open spec fn looked_at(active: Option<u32>, latest: Option<u32>) -> Option<u32> {
    if active is Some {
        active
    } else {
        latest
    }
}

/// The directory of the restart that is asked for, or else of the active one, or else of the newest.
pub fn output_dir(
    name: &str,
    sim_dir: &str,
    asked: Option<u32>,
    active: Option<u32>,
    latest: Option<u32>,
) -> (r: Result<(u32, String), String>)
    ensures
        match (if asked is Some {
            asked
        } else {
            looked_at(active, latest)
        }) {
            Some(id) => r matches Ok(d) && d.0 == id && d.1@ == path_of(sim_dir@, dir_text(id as nat)),
            None => r matches Err(m) && m@ == "simulation \""@ + name@ + "\" has no restarts yet"@,
        },
{
    let chosen: Option<u32> = if asked.is_some() {
        asked
    } else if active.is_some() {
        active
    } else {
        latest
    };
    match chosen {
        Some(id) => Ok((id, restart_dir(sim_dir, id))),
        None => Err(cat3("simulation \"", name, "\" has no restarts yet")),
    }
}

/// The text that a record holds under a name, where it holds one.
pub open spec fn recorded_text(vars: Seq<(Seq<char>, Toml)>, name: Seq<char>) -> Option<Seq<char>> {
    match field(vars, name) {
        Some(Toml::Str(s)) => Some(s),
        _ => None,
    }
}

fn text_in(vars: &Vec<(String, TomlValue)>, name: &str, other: String) -> (r: String)
    ensures
        r@ == (match recorded_text(dict_of(vars@), name@) {
            Some(s) => s,
            None => other@,
        }),
{
    match get_field(vars, name) {
        Some(v) => {
            proof {
                lemma_toml_of(*v);
            }
            match v {
                TomlValue::Str(s) => s.clone(),
                _ => other,
            }
        },
        None => other,
    }
}

/// Where a restart's output and errors go: where its record says, or else into its directory, under
/// the simulation's name.
pub open spec fn log_files(
    name: Seq<char>,
    sim_dir: Seq<char>,
    id: nat,
    vars: Seq<(Seq<char>, Toml)>,
) -> (Seq<char>, Seq<char>) {
    let dir = path_of(sim_dir, dir_text(id));
    (
        match recorded_text(vars, "STDOUT_FILE"@) {
            Some(s) => s,
            None => path_of(dir, name + ".out"@),
        },
        match recorded_text(vars, "STDERR_FILE"@) {
            Some(s) => s,
            None => path_of(dir, name + ".err"@),
        },
    )
}

/// A restart's output and errors are looked for where its record says they go, each on its own; where
/// it says nothing, in the restart's directory, under the simulation's name. The active restart is
/// looked at before the newest.
pub proof fn output_is_looked_for_where_it_goes(
    name: Seq<char>,
    sim_dir: Seq<char>,
    id: nat,
    vars: Seq<(Seq<char>, Toml)>,
    active: Option<u32>,
    latest: Option<u32>,
)
    ensures
        ({
            let files = log_files(name, sim_dir, id, vars);
            let dir = path_of(sim_dir, dir_text(id));
            &&& field(vars, "STDOUT_FILE"@) matches Some(Toml::Str(s)) ==> files.0 == s
            &&& field(vars, "STDOUT_FILE"@) is None ==> files.0 == path_of(dir, name + ".out"@)
            &&& field(vars, "STDERR_FILE"@) matches Some(Toml::Str(s)) ==> files.1 == s
            &&& field(vars, "STDERR_FILE"@) is None ==> files.1 == path_of(dir, name + ".err"@)
        }),
        active is Some ==> looked_at(active, latest) == active,
        active is None ==> looked_at(active, latest) == latest,
{
}

/// The restart whose output is shown, and where its output and errors go. `vars` are those of its
/// record, none where it has no record.
pub fn log_cmd(
    name: &str,
    sim_dir: &str,
    active: Option<u32>,
    latest: Option<u32>,
    vars: &Vec<(String, TomlValue)>,
) -> (r: Result<(u32, String, String), String>)
    ensures
        match looked_at(active, latest) {
            Some(id) => r matches Ok(l) && l.0 == id && (l.1@, l.2@) == log_files(
                name@,
                sim_dir@,
                id as nat,
                dict_of(vars@),
            ),
            None => r matches Err(m) && m@ == "simulation \""@ + name@
                + "\" has no restarts yet (nothing to show)"@,
        },
{
    let chosen: Option<u32> = if active.is_some() { active } else { latest };
    match chosen {
        Some(id) => {
            let dir = restart_dir(sim_dir, id);
            let out = text_in(vars, "STDOUT_FILE", path_join(&dir, &cat2(name, ".out")));
            let err = text_in(vars, "STDERR_FILE", path_join(&dir, &cat2(name, ".err")));
            Ok((id, out, err))
        },
        None => Err(cat3("simulation \"", name, "\" has no restarts yet (nothing to show)")),
    }
}

/// A job that runs, waits or is held is in the queue, and no other is.
pub proof fn live_states_are_in_the_queue(status: JobStatus)
    ensures
        in_queue(JobStatus::Running),
        in_queue(JobStatus::Queued),
        in_queue(JobStatus::Holding),
        in_queue(status) ==> status != JobStatus::Unknown && status != JobStatus::Error,
{
}

/// A file that a simulation was made from is shown where the simulation keeps its copy; one that it does
/// not know is shown as missing.
pub proof fn kept_copies_are_shown(dir: Seq<char>, file: Seq<char>, missing: Seq<char>)
    ensures
        provenance(dir, Seq::empty(), missing) == missing,
        file.len() > 0 ==> provenance(dir, file, missing) == path_of(path_of(dir, ".cactup/cfg"@), file),
{
}

} // verus!
