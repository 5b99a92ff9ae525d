//! Restarts: the numbered directories of a simulation, the marker of the active one, what is
//! recorded of each, and when a stale one may be cleared away.

use crate::mdb::meta::{copy_list, Environment};
use crate::mdb::universe::{wrapped, Universe};
use crate::scheduler::JobStatus;
use crate::search::{first_where, lemma_first_from_is};
use crate::sim::{stem_of, Simulation, SCHEMA};
use crate::table::{distinct, inserted};
use crate::template::{set_all, var_views, VarSet, VarText, VarValue};
use crate::text::{
    all_digits, begins_with, cat2, cat3, cat4, cat5, chars_of, decimal, decimal_of, decimal_reads_back, ends,
    ends_with, is_digit, join, joined, lemma_views_push, number_of, parse_number, path_join, path_of, same, starts,
    string_of, unsigned_part, views,
};
use crate::toml_text::{dict_of, frozen, frozen_value, toml_of, Toml, TomlValue};
use crate::walltime::Walltime;
use vstd::prelude::*;

verus! {

/// The job id on record where no submission has given one.
pub const NO_JOB_ID: &'static str = "-1";

/// The largest restart id.
pub const MAX_ID: u32 = 9999;

/// The texts of an optional list.
pub open spec fn opt_list(list: Option<Vec<String>>) -> Option<Seq<Seq<char>>> {
    match list {
        Some(l) => Some(views(l@)),
        None => None,
    }
}

fn copy_opt_list(list: &Option<Vec<String>>) -> (r: Option<Vec<String>>)
    ensures
        opt_list(r) == opt_list(*list),
{
    match list {
        Some(l) => Some(copy_list(l)),
        None => None,
    }
}

/// A universe as it is recorded with a restart: its name and its wrapper, not filled in. The
/// environment is not kept, since the generated scripts hold it.
#[derive(Debug)]
pub struct UniverseSpec {
    pub name: String,
    pub wrapper_argv: Option<Vec<String>>,
    pub wrapper: Option<String>,
}

impl UniverseSpec {
    /// The record of a universe.
    pub fn from_universe(name: &str, u: &Universe) -> (r: UniverseSpec)
        ensures
            r.name@ == name@,
            opt_list(r.wrapper_argv) == opt_list(u.wrapper_argv),
            r.wrapper == u.wrapper,
    {
        UniverseSpec {
            name: name.to_owned(),
            wrapper_argv: copy_opt_list(&u.wrapper_argv),
            wrapper: u.wrapper.clone(),
        }
    }

    /// The universe that a record stands for; it has no environment of its own.
    pub fn to_universe(&self) -> (r: Universe)
        ensures
            opt_list(r.wrapper_argv) == opt_list(self.wrapper_argv),
            r.wrapper == self.wrapper,
            r.kind is None,
            r.environment.env_setup is None,
            r.environment.env_build_setup is None,
            r.environment.env_submit_setup is None,
            r.environment.env_run_setup is None,
    {
        Universe {
            kind: None,
            wrapper_argv: copy_opt_list(&self.wrapper_argv),
            wrapper: self.wrapper.clone(),
            environment: Environment {
                env_setup: None,
                env_build_setup: None,
                env_submit_setup: None,
                env_run_setup: None,
            },
        }
    }
}

/// A universe that was recorded and read back wraps every command as the universe itself does.
pub proof fn recorded_universes_wrap_alike(u: Universe, s: UniverseSpec, back: Universe, vars: VarSet, inner: Seq<char>)
    requires
        opt_list(s.wrapper_argv) == opt_list(u.wrapper_argv),
        s.wrapper == u.wrapper,
        opt_list(back.wrapper_argv) == opt_list(s.wrapper_argv),
        back.wrapper == s.wrapper,
    ensures
        wrapped(back, vars, inner) == wrapped(u, vars, inner),
{
    assert(u.wrapper_argv is Some == back.wrapper_argv is Some);
}

/// What is recorded of a restart.
pub struct RestartMeta {
    pub schema: u32,
    /// When the restart was made, as the record writes it.
    pub created: String,
    pub started: Option<String>,
    pub finished: Option<String>,
    pub nodes: u32,
    pub tasks: u32,
    pub tpn: u32,
    pub cpus: u32,
    pub queue: String,
    pub allocation: Option<String>,
    /// What the scheduler allows this job.
    pub walltime: Walltime,
    pub checkpt_buffer: Walltime,
    pub job_id: String,
    /// The job that this restart's job waits for.
    pub chained_job_id: Option<String>,
    /// The last status that was seen.
    pub status: Option<String>,
    /// The run has ended, or was stopped or cleaned up.
    pub terminated: bool,
    /// The universe of the run; none for bare execution.
    pub universe: Option<UniverseSpec>,
    /// The variables that the run is prepared with.
    pub vars: Vec<(String, TomlValue)>,
}

/// A restart and its directory.
pub struct Restart {
    pub id: u32,
    pub dir: String,
    pub meta: RestartMeta,
}

impl Restart {
    /// Where the restart's own bookkeeping stands, as text.
    pub open spec fn own_dir(self) -> Seq<char> {
        path_of(self.dir@, ".cactup"@)
    }

    /// Where the restart's own bookkeeping stands.
    pub fn cactup_dir(&self) -> (r: String)
        ensures
            r@ == self.own_dir(),
    {
        path_join(&self.dir, ".cactup")
    }

    /// The file that a live run holds.
    pub fn running_lock_path(&self) -> (r: String)
        ensures
            r@ == path_of(self.own_dir(), "running.lock"@),
    {
        path_join(&self.cactup_dir(), "running.lock")
    }

    /// The file that a live run keeps touching.
    pub fn heartbeat_path(&self) -> (r: String)
        ensures
            r@ == path_of(self.own_dir(), "heartbeat"@),
    {
        path_join(&self.cactup_dir(), "heartbeat")
    }
}

/// Why something cannot be done with a restart.
pub enum RestartFault {
    NoMeta(nat, Seq<char>),
    Schema(Seq<char>, nat),
    BadVar(Seq<char>, Seq<char>),
    ManyActive(Seq<char>, Seq<Seq<char>>),
    TooMany,
    AlreadyActive(nat, nat),
}

/// Why something cannot be done with a restart.
#[derive(Debug)]
pub enum RestartError {
    /// The restart has no record at this path.
    NoMeta(u32, String),
    /// The record at this path has a layout that is too new.
    Schema(String, u32),
    /// The record's variable has a value of this type.
    BadVar(String, String),
    /// The simulation in this directory has several active restarts; their directories.
    ManyActive(String, Vec<String>),
    /// No restart id is left.
    TooMany,
    /// The first cannot be made active, since the second is.
    AlreadyActive(u32, u32),
}

impl View for RestartError {
    type V = RestartFault;

    open spec fn view(&self) -> RestartFault {
        match *self {
            RestartError::NoMeta(id, path) => RestartFault::NoMeta(id as nat, path@),
            RestartError::Schema(path, schema) => RestartFault::Schema(path@, schema as nat),
            RestartError::BadVar(name, kind) => RestartFault::BadVar(name@, kind@),
            RestartError::ManyActive(dir, names) => RestartFault::ManyActive(dir@, views(names@)),
            RestartError::TooMany => RestartFault::TooMany,
            RestartError::AlreadyActive(id, existing) => RestartFault::AlreadyActive(id as nat, existing as nat),
        }
    }
}

impl RestartError {
    /// The message for the user, as text.
    pub open spec fn text(self) -> Seq<char> {
        match self {
            RestartError::NoMeta(id, path) => "restart "@ + dir_text(id as nat) + " has no metadata at "@ + path@,
            RestartError::Schema(path, schema) => path@ + " has schema "@ + decimal_of(schema as nat)
                + " but this cactup understands at most schema "@ + decimal_of(SCHEMA as nat)
                + "; please upgrade cactup"@,
            RestartError::BadVar(name, kind) => "restart.toml var "@ + name@ + " has unsupported type "@ + kind@,
            RestartError::ManyActive(dir, names) => "simulation at "@ + dir@
                + " has more than one active restart ("@ + joined(views(names@), ", "@)
                + ") — this must be repaired by hand"@,
            RestartError::TooMany => "maximum number of restarts reached"@,
            RestartError::AlreadyActive(id, existing) => "cannot activate "@ + dir_text(id as nat) + ": "@
                + dir_text(existing as nat) + " is already active"@,
        }
    }

    /// The message for the user.
    pub fn message(&self) -> (r: String)
        ensures
            r@ == self.text(),
    {
        match self {
            RestartError::NoMeta(id, path) => cat4("restart ", &dir_name(*id), " has no metadata at ", path),
            RestartError::Schema(path, schema) => cat2(
                &cat5(
                    path,
                    " has schema ",
                    &decimal(*schema as u64),
                    " but this cactup understands at most schema ",
                    &decimal(SCHEMA as u64),
                ),
                "; please upgrade cactup",
            ),
            RestartError::BadVar(name, kind) => cat4("restart.toml var ", name, " has unsupported type ", kind),
            RestartError::ManyActive(dir, names) => cat5(
                "simulation at ",
                dir,
                " has more than one active restart (",
                &join(names, ", "),
                ") — this must be repaired by hand",
            ),
            RestartError::TooMany => "maximum number of restarts reached".to_owned(),
            RestartError::AlreadyActive(id, existing) => cat5(
                "cannot activate ",
                &dir_name(*id),
                ": ",
                &dir_name(*existing),
                " is already active",
            ),
        }
    }
}

/// A row of zeros.
pub open spec fn zeros(n: nat) -> Seq<char> {
    Seq::new(n, |i: int| '0')
}

/// The name of a restart's directory: `output-` and the id, at least four digits wide.
pub open spec fn dir_text(id: nat) -> Seq<char> {
    let digits = decimal_of(id);
    if digits.len() < 4 {
        "output-"@ + zeros((4 - digits.len()) as nat) + digits
    } else {
        "output-"@ + digits
    }
}

/// The name of a restart's directory.
pub fn dir_name(id: u32) -> (r: String)
    ensures
        r@ == dir_text(id as nat),
{
    let digits = decimal(id as u64);
    let n: usize = chars_of(&digits).len();
    proof {
        decimal_reads_back(id as nat);
        reveal_strlit("000");
        reveal_strlit("00");
        reveal_strlit("0");
        assert(zeros(3) =~= "000"@);
        assert(zeros(2) =~= "00"@);
        assert(zeros(1) =~= "0"@);
    }
    if n == 1 {
        cat3("output-", "000", &digits)
    } else if n == 2 {
        cat3("output-", "00", &digits)
    } else if n == 3 {
        cat3("output-", "0", &digits)
    } else {
        cat2("output-", &digits)
    }
}

/// The directory of a restart.
pub fn restart_dir(sim_dir: &str, id: u32) -> (r: String)
    ensures
        r@ == path_of(sim_dir@, dir_text(id as nat)),
{
    path_join(sim_dir, &dir_name(id))
}

/// The id in the name of a restart's directory: `output-` and at least four digits.
pub open spec fn id_of(name: Seq<char>) -> Option<u32> {
    let digits = name.skip(7);
    if begins_with(name, "output-"@) && digits.len() >= 4 && all_digits(digits) && number_of(digits) <= u32::MAX {
        Some(number_of(digits) as u32)
    } else {
        None
    }
}

/// The id in the name of a restart's directory.
pub fn parse_dir_name(name: &str) -> (r: Option<u32>)
    ensures
        r == id_of(name@),
{
    proof {
        reveal_strlit("output-");
    }
    if !starts(name, "output-") {
        return None;
    }
    let cs = chars_of(name);
    let digits = string_of(&cs, 7, cs.len());
    assert(digits@ == name@.skip(7));
    if cs.len() < 11 {
        return None;
    }
    if cs[7] == '+' {
        assert(!is_digit(digits@[0]));
        return None;
    }
    assert(digits@[0] != '+');
    assert(unsigned_part(digits@) == digits@);
    match parse_number(&digits, 4294967295) {
        Some(n) => Some(n as u32),
        None => None,
    }
}

/// Leading zeros change no number.
proof fn lemma_zeros(n: nat, digits: Seq<char>)
    requires
        all_digits(digits),
    ensures
        all_digits(zeros(n) + digits),
        number_of(zeros(n) + digits) == number_of(digits),
    decreases digits.len() + n,
{
    let s = zeros(n) + digits;
    assert forall|i: int| 0 <= i < s.len() implies is_digit(#[trigger] s[i]) by {
        if i >= n {
            assert(s[i] == digits[i - n]);
        }
    }
    if digits.len() > 0 {
        assert(s.drop_last() =~= zeros(n) + digits.drop_last());
        assert(all_digits(digits.drop_last()));
        lemma_zeros(n, digits.drop_last());
        assert(s.last() == digits.last());
    } else if n > 0 {
        assert(s.drop_last() =~= zeros((n - 1) as nat) + digits);
        lemma_zeros((n - 1) as nat, digits);
        assert(s.last() == '0');
    } else {
        assert(s =~= digits);
    }
}

/// The name of a restart's directory reads back as its id, so no two restarts share a directory.
pub proof fn directory_names_read_back(id: u32)
    ensures
        id_of(dir_text(id as nat)) == Some(id),
{
    reveal_strlit("output-");
    let digits = decimal_of(id as nat);
    let name = dir_text(id as nat);
    decimal_reads_back(id as nat);
    if digits.len() < 4 {
        let n = (4 - digits.len()) as nat;
        lemma_zeros(n, digits);
        assert(name.skip(7) =~= zeros(n) + digits);
    } else {
        assert(name.skip(7) =~= digits);
    }
    assert(name.take(7) =~= "output-"@);
}

/// The id that a name marks as active: that of a directory's name before `-active`. A name that
/// is a directory's itself marks nothing.
pub open spec fn marked_id(name: Seq<char>) -> Option<u32> {
    if id_of(name) is None && ends_with(name, "-active"@) {
        id_of(name.take(name.len() - 7))
    } else {
        None
    }
}

/// The ids of the restarts among the names of a directory, each with whether it is a directory,
/// in their order.
pub open spec fn ids_of(entries: Seq<(Seq<char>, bool)>) -> Seq<u32>
    decreases entries.len(),
{
    if entries.len() == 0 {
        Seq::empty()
    } else {
        let rest = ids_of(entries.drop_last());
        match id_of(entries.last().0) {
            Some(id) if entries.last().1 => rest.push(id),
            _ => rest,
        }
    }
}

/// The ids that are marked as active among the names of a directory, in their order.
pub open spec fn actives_of(entries: Seq<(Seq<char>, bool)>) -> Seq<u32>
    decreases entries.len(),
{
    if entries.len() == 0 {
        Seq::empty()
    } else {
        let rest = actives_of(entries.drop_last());
        match marked_id(entries.last().0) {
            Some(id) => rest.push(id),
            None => rest,
        }
    }
}

/// The names of a directory, each with whether it is a directory.
pub open spec fn listing_of(entries: Seq<(String, bool)>) -> Seq<(Seq<char>, bool)> {
    Seq::new(entries.len(), |i: int| (entries[i].0@, entries[i].1))
}

/// Whether the numbers never fall.
pub open spec fn ascending(s: Seq<u32>) -> bool {
    forall|i: int, j: int| 0 <= i < j < s.len() ==> s[i] <= s[j]
}

/// What a look into a simulation's directory shows: which restarts there are, and which are
/// marked as active.
#[derive(Debug)]
pub struct Scan {
    /// The ids of the restarts, ascending.
    pub ids: Vec<u32>,
    /// The ids that are marked as active; more than one is a fault.
    pub actives: Vec<u32>,
}

/// Puts a number into its place.
fn insert_ascending(ids: &mut Vec<u32>, id: u32)
    requires
        ascending(old(ids)@),
    ensures
        ascending(final(ids)@),
        final(ids)@.to_multiset() == old(ids)@.to_multiset().insert(id),
{
    let mut k: usize = ids.len();
    while k > 0 && ids[k - 1] > id
        invariant
            k <= ids@.len(),
            ids@ == old(ids)@,
            forall|j: int| k <= j < ids@.len() ==> #[trigger] ids@[j] > id,
        decreases k,
    {
        k -= 1;
    }
    let ghost before = ids@;
    ids.insert(k, id);
    proof {
        let after = ids@;
        assert(after == before.insert(k as int, id));
        assert forall|i: int, j: int| 0 <= i < j < after.len() implies after[i] <= after[j] by {
            if i < k {
                assert(before[i] <= id) by {
                    assert(before[i] <= before[k - 1]);
                }
            }
        }
        assert(after.remove(k as int) =~= before);
        after.to_multiset_ensures();
        assert(after.to_multiset().remove(after[k as int]) =~= before.to_multiset());
        assert(after.contains(after[k as int]));
        assert(after.to_multiset().count(id) > 0);
        assert(after.to_multiset() =~= before.to_multiset().insert(id));
    }
}

/// Looks through the names of a simulation's directory, each with whether it is a directory.
pub fn scan(entries: &Vec<(String, bool)>) -> (r: Scan)
    ensures
        ascending(r.ids@),
        r.ids@.to_multiset() == ids_of(listing_of(entries@)).to_multiset(),
        r.actives@ == actives_of(listing_of(entries@)),
{
    let ghost all = listing_of(entries@);
    let mut ids: Vec<u32> = Vec::new();
    let mut actives: Vec<u32> = Vec::new();
    let mut i: usize = 0;
    assert(all.take(0) == Seq::<(Seq<char>, bool)>::empty());
    proof {
        reveal_strlit("-active");
    }
    while i < entries.len()
        invariant
            i <= entries@.len(),
            all == listing_of(entries@),
            "-active"@.len() == 7,
            ascending(ids@),
            ids@.to_multiset() == ids_of(all.take(i as int)).to_multiset(),
            actives@ == actives_of(all.take(i as int)),
        decreases entries@.len() - i,
    {
        let name: &str = entries[i].0.as_str();
        proof {
            assert(all.take(i + 1).drop_last() == all.take(i as int));
            assert(all.take(i + 1).last() == all[i as int]);
            ids_of(all.take(i as int)).to_multiset_ensures();
        }
        match parse_dir_name(name) {
            Some(id) => {
                if entries[i].1 {
                    insert_ascending(&mut ids, id);
                }
            },
            None => {
                if ends(name, "-active") {
                    let cs = chars_of(name);
                    let base = string_of(&cs, 0, cs.len() - 7);
                    assert(base@ == name@.take(name@.len() - 7));
                    if let Some(id) = parse_dir_name(&base) {
                        actives.push(id);
                    }
                }
            },
        }
        i += 1;
    }
    assert(all.take(i as int) == all);
    Scan { ids, actives }
}

/// The directory of a restart is called `output-` and its id, with zeros in front of it that make it
/// four digits; longer ids have no zeros.
pub proof fn directories_are_numbered(id: nat)
    ensures
        dir_text(id).take(7) == "output-"@,
        all_digits(dir_text(id).skip(7)),
        number_of(dir_text(id).skip(7)) == id,
        decimal_of(id).len() >= 4 ==> dir_text(id).skip(7) == decimal_of(id),
        decimal_of(id).len() < 4 ==> dir_text(id).len() == 11,
{
    reveal_strlit("output-");
    let digits = decimal_of(id);
    let name = dir_text(id);
    decimal_reads_back(id);
    if digits.len() < 4 {
        let n = (4 - digits.len()) as nat;
        lemma_zeros(n, digits);
        assert(name.skip(7) =~= zeros(n) + digits);
    } else {
        assert(name.skip(7) =~= digits);
    }
    assert(name.take(7) =~= "output-"@);
}

/// A name has an id exactly where it is `output-` and four digits or more, and the id is what they
/// write down; a name marks a restart as active where `-active` comes behind that.
pub proof fn names_are_read_as_written(digits: Seq<char>)
    requires
        all_digits(digits),
        number_of(digits) <= u32::MAX,
    ensures
        digits.len() >= 4 ==> id_of("output-"@ + digits) == Some(number_of(digits) as u32),
        digits.len() < 4 ==> id_of("output-"@ + digits) is None,
        digits.len() >= 4 ==> marked_id("output-"@ + digits + "-active"@) == Some(number_of(digits) as u32),
        marked_id("output-"@ + digits) is None,
{
    reveal_strlit("output-");
    reveal_strlit("-active");
    let name = "output-"@ + digits;
    assert(name.take(7) =~= "output-"@);
    assert(name.skip(7) =~= digits);
    let m = name + "-active"@;
    assert(m.take(m.len() - 7) =~= name);
    assert(m.skip(m.len() - 7) =~= "-active"@);
    assert(m.skip(7).last() == 'e');
    assert(!is_digit(m.skip(7)[m.skip(7).len() - 1]));
    if digits.len() < 4 && ends_with(name, "-active"@) {
        let at = name.len() - 7;
        assert(name.skip(at)[6] == "-active"@[6]);
        assert(name[name.len() - 1] == 'e');
        if digits.len() > 0 {
            assert(is_digit(digits[digits.len() - 1]));
        }
    }
}

/// The restarts of a simulation are the directories whose name has an id, and those that are active are
/// the ids that a name marks; no other name counts.
pub proof fn only_names_with_ids_count(entries: Seq<(Seq<char>, bool)>, id: u32)
    ensures
        ids_of(entries).contains(id) <==> exists|i: int|
            0 <= i < entries.len() && (#[trigger] entries[i]).1 && id_of(entries[i].0) == Some(id),
        actives_of(entries).contains(id) <==> exists|i: int|
            0 <= i < entries.len() && marked_id((#[trigger] entries[i]).0) == Some(id),
    decreases entries.len(),
{
    if entries.len() > 0 {
        let rest = entries.drop_last();
        let last = entries.len() - 1;
        only_names_with_ids_count(rest, id);
        let a = ids_of(rest);
        let b = actives_of(rest);
        if ids_of(entries).contains(id) {
            let k = choose|k: int| 0 <= k < ids_of(entries).len() && ids_of(entries)[k] == id;
            if k < a.len() {
                assert(a[k] == id);
                let i = choose|i: int| 0 <= i < rest.len() && (#[trigger] rest[i]).1 && id_of(rest[i].0) == Some(id);
                assert(entries[i].1 && id_of(entries[i].0) == Some(id));
            } else {
                assert(entries[last].1 && id_of(entries[last].0) == Some(id));
            }
        }
        if exists|i: int| 0 <= i < entries.len() && (#[trigger] entries[i]).1 && id_of(entries[i].0) == Some(id) {
            let i = choose|i: int|
                0 <= i < entries.len() && (#[trigger] entries[i]).1 && id_of(entries[i].0) == Some(id);
            if i < last {
                assert(rest[i].1 && id_of(rest[i].0) == Some(id));
                let k = choose|k: int| 0 <= k < a.len() && a[k] == id;
                assert(ids_of(entries)[k] == id);
            } else {
                assert(ids_of(entries)[a.len() as int] == id);
            }
        }
        if actives_of(entries).contains(id) {
            let k = choose|k: int| 0 <= k < actives_of(entries).len() && actives_of(entries)[k] == id;
            if k < b.len() {
                assert(b[k] == id);
                let i = choose|i: int| 0 <= i < rest.len() && marked_id((#[trigger] rest[i]).0) == Some(id);
                assert(marked_id(entries[i].0) == Some(id));
            } else {
                assert(marked_id(entries[last].0) == Some(id));
            }
        }
        if exists|i: int| 0 <= i < entries.len() && marked_id((#[trigger] entries[i]).0) == Some(id) {
            let i = choose|i: int| 0 <= i < entries.len() && marked_id((#[trigger] entries[i]).0) == Some(id);
            if i < last {
                assert(marked_id(rest[i].0) == Some(id));
                let k = choose|k: int| 0 <= k < b.len() && b[k] == id;
                assert(actives_of(entries)[k] == id);
            } else {
                assert(actives_of(entries)[b.len() as int] == id);
            }
        }
    }
}

/// One restart that is marked is the active one, none is where none is marked, and more than one is a
/// fault that names them all.
pub proof fn at_most_one_restart_is_active(actives: Seq<u32>, id: u32, sim_dir: Seq<char>)
    ensures
        active_of(Seq::empty(), sim_dir) == Ok::<Option<u32>, RestartFault>(None),
        active_of(seq![id], sim_dir) == Ok::<Option<u32>, RestartFault>(Some(id)),
        actives.len() > 1 ==> active_of(actives, sim_dir) == Err::<Option<u32>, RestartFault>(
            RestartFault::ManyActive(sim_dir, dir_texts(actives)),
        ) && dir_texts(actives).len() == actives.len() && forall|i: int|
            0 <= i < actives.len() ==> #[trigger] dir_texts(actives)[i] == dir_text(actives[i] as nat),
{
}

/// The names of the directories of restarts.
pub open spec fn dir_texts(ids: Seq<u32>) -> Seq<Seq<char>> {
    ids.map_values(|id: u32| dir_text(id as nat))
}

fn dir_names(ids: &Vec<u32>) -> (r: Vec<String>)
    ensures
        views(r@) == dir_texts(ids@),
{
    let mut out: Vec<String> = Vec::new();
    let mut i: usize = 0;
    while i < ids.len()
        invariant
            i <= ids@.len(),
            views(out@) == dir_texts(ids@).take(i as int),
        decreases ids@.len() - i,
    {
        let ghost before = out@;
        let name = dir_name(ids[i]);
        out.push(name);
        i += 1;
        proof {
            lemma_views_push(before, name);
            assert(dir_texts(ids@).take(i as int) == dir_texts(ids@).take(i - 1).push(name@));
        }
    }
    assert(dir_texts(ids@).take(i as int) == dir_texts(ids@));
    out
}

/// Which restart is active, given the ids that are marked so: at most one may be.
pub open spec fn active_of(actives: Seq<u32>, sim_dir: Seq<char>) -> Result<Option<u32>, RestartFault> {
    if actives.len() == 0 {
        Ok(None)
    } else if actives.len() == 1 {
        Ok(Some(actives[0]))
    } else {
        Err(RestartFault::ManyActive(sim_dir, dir_texts(actives)))
    }
}

/// Whether a result is what is expected of it.
pub open spec fn gives<T>(r: Result<T, RestartError>, expected: Result<T, RestartFault>) -> bool {
    match expected {
        Ok(v) => r is Ok && r->Ok_0 == v,
        Err(f) => r is Err && r->Err_0@ == f,
    }
}

impl Scan {
    /// The active restart; an error where several are marked as active.
    pub fn active_id(&self, sim_dir: &str) -> (r: Result<Option<u32>, RestartError>)
        ensures
            gives(r, active_of(self.actives@, sim_dir@)),
    {
        if self.actives.len() == 0 {
            Ok(None)
        } else if self.actives.len() == 1 {
            Ok(Some(self.actives[0]))
        } else {
            Err(RestartError::ManyActive(sim_dir.to_owned(), dir_names(&self.actives)))
        }
    }

    /// The newest restart.
    pub fn latest(&self) -> (r: Option<u32>)
        ensures
            r == (if self.ids@.len() == 0 {
                None
            } else {
                Some(self.ids@.last())
            }),
    {
        if self.ids.len() == 0 {
            None
        } else {
            Some(self.ids[self.ids.len() - 1])
        }
    }
}

/// The ids of a simulation's restarts, ascending.
pub fn list_ids(entries: &Vec<(String, bool)>) -> (r: Vec<u32>)
    ensures
        ascending(r@),
        r@.to_multiset() == ids_of(listing_of(entries@)).to_multiset(),
{
    scan(entries).ids
}

/// Whether no restart among these has a larger id than `id`, and one has it.
pub open spec fn is_largest(ids: Seq<u32>, id: u32) -> bool {
    ids.contains(id) && forall|i: int| 0 <= i < ids.len() ==> #[trigger] ids[i] <= id
}

/// The next restart's id: one more than the largest, zero for the first. There is none past 9999.
pub fn next_id(entries: &Vec<(String, bool)>) -> (r: Result<u32, RestartError>)
    ensures
        ({
            let ids = ids_of(listing_of(entries@));
            match r {
                Ok(next) => next <= MAX_ID && if next == 0 {
                    ids.len() == 0
                } else {
                    is_largest(ids, (next - 1) as u32)
                },
                Err(e) => e@ == RestartFault::TooMany && exists|i: int| 0 <= i < ids.len() && #[trigger] ids[i] >= MAX_ID,
            }
        }),
{
    let ids = list_ids(entries);
    let ghost found = ids_of(listing_of(entries@));
    proof {
        found.to_multiset_ensures();
        ids@.to_multiset_ensures();
    }
    if ids.len() == 0 {
        return Ok(0);
    }
    let max: u32 = ids[ids.len() - 1];
    proof {
        assert(ids@.contains(max));
        assert(found.to_multiset().count(max) > 0);
        assert(found.contains(max));
        assert forall|i: int| 0 <= i < found.len() implies #[trigger] found[i] <= max by {
            assert(found.contains(found[i]));
            assert(ids@.to_multiset().count(found[i]) > 0);
            assert(ids@.contains(found[i]));
            let j = choose|j: int| 0 <= j < ids@.len() && ids@[j] == found[i];
            assert(ids@[j] <= ids@[ids@.len() - 1]);
        }
    }
    if max >= MAX_ID {
        return Err(RestartError::TooMany);
    }
    assert(is_largest(found, max));
    Ok(max + 1)
}

/// The id that `next_id` gives is that of no restart that there is.
pub proof fn next_ids_are_new(ids: Seq<u32>, next: u32)
    requires
        if next == 0 {
            ids.len() == 0
        } else {
            is_largest(ids, (next - 1) as u32)
        },
    ensures
        !ids.contains(next),
{
}

/// The active restart of a simulation; an error where several are marked as active.
pub fn active_id(entries: &Vec<(String, bool)>, sim_dir: &str) -> (r: Result<Option<u32>, RestartError>)
    ensures
        gives(r, active_of(actives_of(listing_of(entries@)), sim_dir@)),
{
    scan(entries).active_id(sim_dir)
}

/// The name of the marker of an active restart.
pub open spec fn marker_text(id: nat) -> Seq<char> {
    dir_text(id) + "-active"@
}

/// The path of the marker of an active restart.
pub fn active_link(sim_dir: &str, id: u32) -> (r: String)
    ensures
        r@ == path_of(sim_dir@, marker_text(id as nat)),
{
    path_join(sim_dir, &cat2(&dir_name(id), "-active"))
}

/// A symbolic link to be made: what it points at, and where it stands.
#[derive(Debug)]
pub struct Link {
    pub target: String,
    pub path: String,
}

impl Link {
    /// Whether this is the marker of a restart: it points at the restart's directory, by name.
    pub open spec fn marks(self, sim_dir: Seq<char>, id: nat) -> bool {
        self.target@ == dir_text(id) && self.path@ == path_of(sim_dir, marker_text(id))
    }
}

fn marker(sim_dir: &str, id: u32) -> (r: Link)
    ensures
        r.marks(sim_dir@, id as nat),
{
    Link { target: dir_name(id), path: active_link(sim_dir, id) }
}

/// The marker that makes a restart active; refused where one is active already.
pub fn make_active(entries: &Vec<(String, bool)>, sim_dir: &str, id: u32) -> (r: Result<Link, RestartError>)
    ensures
        match active_of(actives_of(listing_of(entries@)), sim_dir@) {
            Ok(None) => r is Ok && r->Ok_0.marks(sim_dir@, id as nat),
            Ok(Some(existing)) => r is Err && r->Err_0@ == RestartFault::AlreadyActive(id as nat, existing as nat),
            Err(f) => r is Err && r->Err_0@ == f,
        },
{
    match active_id(entries, sim_dir) {
        Ok(None) => Ok(marker(sim_dir, id)),
        Ok(Some(existing)) => Err(RestartError::AlreadyActive(id, existing)),
        Err(e) => Err(e),
    }
}

/// The restart that is active and the path of its marker, which is to be removed.
pub fn deactivate(entries: &Vec<(String, bool)>, sim_dir: &str) -> (r: Result<Option<(u32, String)>, RestartError>)
    ensures
        match active_of(actives_of(listing_of(entries@)), sim_dir@) {
            Ok(None) => r is Ok && r->Ok_0 is None,
            Ok(Some(id)) => r is Ok && r->Ok_0 is Some && (r->Ok_0->0).0 == id && (r->Ok_0->0).1@ == path_of(
                sim_dir@,
                marker_text(id as nat),
            ),
            Err(f) => r is Err && r->Err_0@ == f,
        },
{
    match active_id(entries, sim_dir) {
        Ok(None) => Ok(None),
        Ok(Some(id)) => Ok(Some((id, active_link(sim_dir, id)))),
        Err(e) => Err(e),
    }
}

/// How a restart takes over from the one before it.
#[derive(Debug)]
pub enum Handoff {
    /// The restart is active already.
    Keep,
    /// The marker at the first path, if any, is removed, and then this one made.
    Switch(Option<String>, Link),
}

/// How a restart takes over: whichever other one is active loses its marker before this one gets
/// its own, so that two are never active at once.
pub fn handoff_active(entries: &Vec<(String, bool)>, sim_dir: &str, id: u32) -> (r: Result<Handoff, RestartError>)
    ensures
        match active_of(actives_of(listing_of(entries@)), sim_dir@) {
            Ok(None) => r matches Ok(Handoff::Switch(gone, link)) && gone is None && link.marks(sim_dir@, id as nat),
            Ok(Some(existing)) => if existing == id {
                r matches Ok(Handoff::Keep)
            } else {
                r matches Ok(Handoff::Switch(gone, link)) && gone is Some && gone->0@ == path_of(
                    sim_dir@,
                    marker_text(existing as nat),
                ) && link.marks(sim_dir@, id as nat)
            },
            Err(f) => r is Err && r->Err_0@ == f,
        },
{
    match active_id(entries, sim_dir) {
        Ok(None) => Ok(Handoff::Switch(None, marker(sim_dir, id))),
        Ok(Some(existing)) => if existing == id {
            Ok(Handoff::Keep)
        } else {
            Ok(Handoff::Switch(Some(active_link(sim_dir, existing)), marker(sim_dir, id)))
        },
        Err(e) => Err(e),
    }
}

/// The marker of a restart marks it, and it alone.
pub proof fn markers_read_back(id: u32)
    ensures
        marked_id(marker_text(id as nat)) == Some(id),
        id_of(marker_text(id as nat)) is None,
{
    reveal_strlit("-active");
    reveal_strlit("output-");
    directory_names_read_back(id);
    let name = dir_text(id as nat);
    let m = marker_text(id as nat);
    assert(m.take(m.len() - 7) =~= name);
    assert(m.skip(m.len() - 7) =~= "-active"@);
    assert(m.skip(7).last() == 'e');
    assert(!is_digit(m.skip(7)[m.skip(7).len() - 1]));
}

/// A directory's names without one of them.
pub open spec fn removed(entries: Seq<(Seq<char>, bool)>, name: Seq<char>) -> Seq<(Seq<char>, bool)>
    decreases entries.len(),
{
    if entries.len() == 0 {
        entries
    } else if entries.last().0 == name {
        removed(entries.drop_last(), name)
    } else {
        removed(entries.drop_last(), name).push(entries.last())
    }
}

/// Whether every restart that is marked as active is so under the marker's own name.
pub open spec fn plainly_marked(entries: Seq<(Seq<char>, bool)>) -> bool {
    forall|i: int| #![trigger entries[i]]
        0 <= i < entries.len() && marked_id(entries[i].0) is Some ==> entries[i].0 == marker_text(
            marked_id(entries[i].0)->0 as nat,
        )
}

proof fn lemma_removed(entries: Seq<(Seq<char>, bool)>, id: u32)
    requires
        plainly_marked(entries),
        actives_of(entries).len() == 0 || (actives_of(entries).len() == 1 && actives_of(entries)[0] == id),
    ensures
        actives_of(removed(entries, marker_text(id as nat))).len() == 0,
    decreases entries.len(),
{
    if entries.len() > 0 {
        let rest = entries.drop_last();
        let name = marker_text(id as nat);
        markers_read_back(id);
        assert(plainly_marked(rest)) by {
            assert forall|i: int| #![trigger rest[i]]
                0 <= i < rest.len() && marked_id(rest[i].0) is Some implies rest[i].0 == marker_text(
                marked_id(rest[i].0)->0 as nat,
            ) by {
                assert(rest[i] == entries[i]);
            }
        }
        if marked_id(entries.last().0) is Some {
            assert(entries[entries.len() - 1].0 == marker_text(marked_id(entries.last().0)->0 as nat));
            assert(actives_of(entries).last() == marked_id(entries.last().0)->0);
            assert(actives_of(rest).len() == 0);
        }
        lemma_removed(rest, id);
        if entries.last().0 != name {
            let kept = removed(rest, name);
            assert(kept.push(entries.last()).drop_last() =~= kept);
        }
    }
}

/// After a restart has taken over, it and no other is active: with the marker of the one before it
/// removed, none is, and with its own marker made, it alone is.
pub proof fn handing_over_leaves_one_active(entries: Seq<(Seq<char>, bool)>, before: u32, id: u32)
    requires
        plainly_marked(entries),
        actives_of(entries) == seq![before] || actives_of(entries) == Seq::<u32>::empty(),
    ensures
        actives_of(removed(entries, marker_text(before as nat))) == Seq::<u32>::empty(),
        actives_of(removed(entries, marker_text(before as nat)).push((marker_text(id as nat), false))) == seq![id],
{
    lemma_removed(entries, before);
    markers_read_back(id);
    let gone = removed(entries, marker_text(before as nat));
    let made = gone.push((marker_text(id as nat), false));
    assert(made.drop_last() =~= gone);
    assert(actives_of(gone) =~= Seq::<u32>::empty());
    assert(actives_of(made) =~= seq![id]);
}

/// Where the program of a restart runs: below the restart's directory, under the parameter
/// file's name.
pub fn workdir(sim: &Simulation, id: u32) -> (r: String)
    ensures
        r@ == path_of(path_of(sim.dir@, dir_text(id as nat)), stem_of(sim.meta.parfile@)),
{
    path_join(&restart_dir(&sim.dir, id), &sim.parfile_stem())
}

/// The variables as they are recorded, with their types.
pub fn freeze_vars(vars: &VarSet) -> (r: Vec<(String, TomlValue)>)
    ensures
        dict_of(r@) == frozen(var_views(vars.vars@)),
{
    let ghost all = frozen(var_views(vars.vars@));
    let mut out: Vec<(String, TomlValue)> = Vec::new();
    let mut i: usize = 0;
    while i < vars.vars.len()
        invariant
            i <= vars.vars@.len(),
            all == frozen(var_views(vars.vars@)),
            dict_of(out@) == all.take(i as int),
        decreases vars.vars@.len() - i,
    {
        let value = match vars.vars.at(i) {
            VarValue::Str(s) => TomlValue::Str(s.clone()),
            VarValue::Int(n) => TomlValue::Int(*n),
            VarValue::Bool(b) => TomlValue::Bool(*b),
        };
        let ghost before = out@;
        let name = vars.vars.name_at(i).to_owned();
        out.push((name, value));
        i += 1;
        proof {
            assert(all[i - 1] == (name@, toml_of(value)));
            assert(dict_of(out@) =~= dict_of(before).push((name@, toml_of(value))));
            assert(all.take(i as int) == all.take(i - 1).push(all[i - 1]));
        }
    }
    assert(all.take(i as int) == all);
    out
}

/// The value that a record's entry stands for; only texts, integers and booleans do.
pub open spec fn thawed_value(t: Toml) -> Option<VarText> {
    match t {
        Toml::Str(s) => Some(VarText::Str(s)),
        Toml::Int(n) => Some(VarText::Int(n)),
        Toml::Bool(b) => Some(VarText::Bool(b)),
        _ => None,
    }
}

/// The name of a value's type.
pub open spec fn type_text(t: Toml) -> Seq<char> {
    match t {
        Toml::Str(_) => "string"@,
        Toml::Int(_) => "integer"@,
        Toml::Bool(_) => "boolean"@,
        Toml::Float => "float"@,
        Toml::Datetime => "datetime"@,
        Toml::List(_) => "array"@,
        Toml::Dict(_) => "table"@,
    }
}

/// The positions of a record's entries that stand for no variable.
pub open spec fn unusable(entries: Seq<(Seq<char>, Toml)>) -> spec_fn(int) -> bool {
    |i: int| thawed_value(entries[i].1) is None
}

/// A record's entries as variables.
pub open spec fn thawed(entries: Seq<(Seq<char>, Toml)>) -> Seq<(Seq<char>, VarText)> {
    entries.map_values(|e: (Seq<char>, Toml)| (e.0, thawed_value(e.1)->0))
}

/// The variables that a record holds; an error at the first entry that is none.
pub fn thaw_vars(entries: &Vec<(String, TomlValue)>) -> (r: Result<VarSet, RestartError>)
    ensures
        ({
            let all = dict_of(entries@);
            let k = first_where(all.len() as int, unusable(all));
            if k < all.len() {
                r is Err && r->Err_0@ == RestartFault::BadVar(all[k].0, type_text(all[k].1))
            } else {
                r is Ok && var_views(r->Ok_0.vars@) == set_all(Seq::empty(), thawed(all)) && r->Ok_0.env@.len() == 0
            }
        }),
{
    let ghost all = dict_of(entries@);
    let ghost bad = unusable(all);
    let mut block: Vec<(String, VarValue)> = Vec::new();
    let mut i: usize = 0;
    while i < entries.len()
        invariant
            i <= entries@.len(),
            all == dict_of(entries@),
            bad == unusable(all),
            forall|j: int| 0 <= j < i ==> !(#[trigger] bad(j)),
            crate::template::block_views(block@) == thawed(all).take(i as int),
        decreases entries@.len() - i,
    {
        assert(all[i as int] == (entries@[i as int].0@, toml_of(entries@[i as int].1)));
        let kind: &str = match &entries[i].1 {
            TomlValue::Str(_) => "string",
            TomlValue::Int(_) => "integer",
            TomlValue::Bool(_) => "boolean",
            TomlValue::Float => "float",
            TomlValue::Datetime => "datetime",
            TomlValue::List(_) => "array",
            TomlValue::Dict(_) => "table",
        };
        let value = match &entries[i].1 {
            TomlValue::Str(s) => VarValue::Str(s.clone()),
            TomlValue::Int(n) => VarValue::Int(*n),
            TomlValue::Bool(b) => VarValue::Bool(*b),
            _ => {
                proof {
                    assert(bad(i as int));
                    lemma_first_from_is(0, all.len() as int, bad, i as int);
                }
                return Err(RestartError::BadVar(entries[i].0.clone(), kind.to_owned()));
            },
        };
        assert(!bad(i as int));
        let ghost before = block@;
        let name = entries[i].0.clone();
        block.push((name, value));
        i += 1;
        proof {
            assert(thawed(all)[i - 1] == (name@, value@));
            assert(crate::template::block_views(block@) =~= crate::template::block_views(before).push((name@, value@)));
            assert(thawed(all).take(i as int) == thawed(all).take(i - 1).push(thawed(all)[i - 1]));
        }
    }
    proof {
        lemma_first_from_is(0, all.len() as int, bad, all.len() as int);
        assert(thawed(all).take(i as int) == thawed(all));
    }
    let mut vars = VarSet::new();
    assert(var_views(vars.vars@) =~= Seq::<(Seq<char>, VarText)>::empty());
    vars.set_block(block);
    Ok(vars)
}

/// Setting variables of distinct names, one by one, gives those variables.
proof fn lemma_set_distinct(vars: Seq<(Seq<char>, VarText)>)
    requires
        distinct(vars),
    ensures
        set_all(Seq::empty(), vars) == vars,
    decreases vars.len(),
{
    if vars.len() > 0 {
        let rest = vars.drop_last();
        assert(distinct(rest)) by {
            assert forall|i: int, j: int| #![trigger rest[i], rest[j]] 0 <= i < j < rest.len() implies rest[i].0
                != rest[j].0 by {
                assert(vars[i].0 != vars[j].0);
            }
        }
        lemma_set_distinct(rest);
        assert forall|i: int| 0 <= i < rest.len() implies (#[trigger] rest[i]).0 != vars.last().0 by {
            assert(vars[i].0 != vars[vars.len() - 1].0);
        }
        assert(inserted(rest, vars.last().0, vars.last().1) =~= vars);
    } else {
        assert(vars =~= Seq::empty());
    }
}

/// Variables that were recorded and read back are the same, in number, order, type and value.
pub proof fn recorded_variables_read_back(vars: Seq<(Seq<char>, VarText)>)
    requires
        distinct(vars),
    ensures
        first_where(frozen(vars).len() as int, unusable(frozen(vars))) == vars.len(),
        set_all(Seq::empty(), thawed(frozen(vars))) == vars,
{
    let bad = unusable(frozen(vars));
    assert forall|j: int| 0 <= j < vars.len() implies !(#[trigger] bad(j)) by {
        assert(frozen(vars)[j].1 == frozen_value(vars[j].1));
    }
    lemma_first_from_is(0, vars.len() as int, bad, vars.len() as int);
    assert(thawed(frozen(vars)) =~= vars);
    lemma_set_distinct(vars);
}

/// How old a simulation has to be, in seconds, before a restart of it is cleared away.
pub const REAP_MIN_SIM_AGE_SECS: u64 = 60;

/// How long, in seconds, nothing is cleared away after something was.
pub const REAP_RECLEAN_SECS: u64 = 30;

/// Whether it is time to look for a stale restart, given the ages of the simulation's record and
/// of the last clearing. What has no age does not stand in the way.
pub fn reap_due(sim_age: Option<u64>, cleaned_age: Option<u64>) -> (r: bool)
    ensures
        r == (!(sim_age is Some && sim_age->0 < REAP_MIN_SIM_AGE_SECS) && !(cleaned_age is Some && cleaned_age->0
            < REAP_RECLEAN_SECS)),
{
    if let Some(age) = sim_age {
        if age < REAP_MIN_SIM_AGE_SECS {
            return false;
        }
    }
    if let Some(age) = cleaned_age {
        if age < REAP_RECLEAN_SECS {
            return false;
        }
    }
    true
}

/// Whether a run shows a sign of life: its job is in the queue, it holds its lock, or it has
/// neither ended nor let its heartbeat grow older than `stale_after` seconds.
pub open spec fn shows_life(
    status: JobStatus,
    lock_held: bool,
    terminated: bool,
    heartbeat_age: Option<u64>,
    stale_after: u64,
) -> bool {
    ||| !(status is Unknown)
    ||| lock_held
    ||| (!terminated && heartbeat_age is Some && heartbeat_age->0 < stale_after)
}

/// Whether the active restart is stale and may be cleared away: only where its run shows no sign
/// of life. One that has no heartbeat never started.
pub fn reap_stale(
    status: JobStatus,
    lock_held: bool,
    terminated: bool,
    heartbeat_age: Option<u64>,
    stale_after: u64,
) -> (r: bool)
    ensures
        r == !shows_life(status, lock_held, terminated, heartbeat_age, stale_after),
{
    match status {
        JobStatus::Unknown => {},
        _ => {
            return false;
        },
    }
    if lock_held {
        return false;
    }
    if !terminated {
        if let Some(age) = heartbeat_age {
            if age < stale_after {
                return false;
            }
        }
    }
    true
}

/// A restart is only taken for dead where its job is not in the queue, nothing holds its lock, and its
/// run has ended or let its heartbeat go by; and it is then.
pub proof fn living_restarts_are_left_alone(
    status: JobStatus,
    lock_held: bool,
    terminated: bool,
    heartbeat_age: Option<u64>,
    stale_after: u64,
)
    ensures
        status != JobStatus::Unknown ==> shows_life(status, lock_held, terminated, heartbeat_age, stale_after),
        lock_held ==> shows_life(status, lock_held, terminated, heartbeat_age, stale_after),
        status == JobStatus::Unknown && !lock_held ==> {
            let alive = shows_life(status, lock_held, terminated, heartbeat_age, stale_after);
            &&& terminated ==> !alive
            &&& heartbeat_age is None ==> !alive
            &&& heartbeat_age is Some && heartbeat_age->0 >= stale_after ==> !alive
            &&& !terminated && heartbeat_age is Some && heartbeat_age->0 < stale_after ==> alive
        },
{
}

/// Only texts, integers and booleans are read as variables, each as what it is.
pub proof fn variables_keep_their_types(t: Toml)
    ensures
        t matches Toml::Str(s) ==> thawed_value(t) == Some(VarText::Str(s)),
        t matches Toml::Int(n) ==> thawed_value(t) == Some(VarText::Int(n)),
        t matches Toml::Bool(b) ==> thawed_value(t) == Some(VarText::Bool(b)),
        thawed_value(t) is None <==> t is Float || t is Datetime || t is List || t is Dict,
{
}

/// The job of a restart, where it has one.
pub fn job_of(meta: &RestartMeta) -> (r: Option<&str>)
    ensures
        meta.job_id@ == NO_JOB_ID@ ==> r is None,
        meta.job_id@ != NO_JOB_ID@ ==> r is Some && r->0@ == meta.job_id@,
{
    if same(&meta.job_id, NO_JOB_ID) {
        None
    } else {
        Some(meta.job_id.as_str())
    }
}

impl RestartMeta {
    /// Records that the run has begun.
    pub fn mark_started(&mut self, now: String)
        ensures
            final(self).status matches Some(s) && s@ == "R"@,
            *final(self) == (RestartMeta { started: Some(now), status: final(self).status, ..*old(self) }),
    {
        self.started = Some(now);
        self.status = Some("R".to_owned());
    }

    /// Records that the run has ended, whatever came of it.
    pub fn mark_finished(&mut self, now: String)
        ensures
            final(self).status matches Some(s) && s@ == "U"@,
            *final(self) == (RestartMeta {
                finished: Some(now),
                terminated: true,
                status: final(self).status,
                ..*old(self)
            }),
    {
        self.finished = Some(now);
        self.terminated = true;
        self.status = Some("U".to_owned());
    }

    /// Records that the run was brought to an end from outside.
    pub fn mark_stopped(&mut self, now: String)
        ensures
            *final(self) == (RestartMeta { finished: Some(now), terminated: true, ..*old(self) }),
    {
        self.terminated = true;
        self.finished = Some(now);
    }

    /// Records that the restart was cleaned up; one that had ended keeps its record. Gives whether
    /// anything was recorded.
    pub fn mark_cleaned(&mut self, now: String) -> (r: bool)
        ensures
            r == !old(self).terminated,
            r ==> *final(self) == (RestartMeta { finished: Some(now), terminated: true, ..*old(self) }),
            !r ==> *final(self) == *old(self),
    {
        if self.terminated {
            return false;
        }
        self.mark_stopped(now);
        true
    }

    /// Records the job that the restart was submitted as.
    pub fn mark_submitted(&mut self, job_id: String)
        ensures
            *final(self) == (RestartMeta { job_id, status: None, ..*old(self) }),
    {
        self.job_id = job_id;
        self.status = None;
    }
}

/// Checks the record of a restart: that it is there, and that its layout is known.
pub fn check_record(id: u32, path: &str, schema: Option<u32>) -> (r: Result<(), RestartError>)
    ensures
        match schema {
            None => r is Err && r->Err_0@ == RestartFault::NoMeta(id as nat, path@),
            Some(s) => if s > SCHEMA {
                r is Err && r->Err_0@ == RestartFault::Schema(path@, s as nat)
            } else {
                r is Ok
            },
        },
{
    match schema {
        None => Err(RestartError::NoMeta(id, path.to_owned())),
        Some(s) => if s > SCHEMA {
            Err(RestartError::Schema(path.to_owned(), s))
        } else {
            Ok(())
        },
    }
}

/// A marker of a restart is called by the restart's own number, stands in the simulation's directory,
/// and leads to the restart's directory.
pub proof fn markers_lead_to_their_restart(m: Link, sim_dir: Seq<char>, id: nat)
    ensures
        m.marks(sim_dir, id) <==> m.target@ == dir_text(id) && m.path@ == path_of(sim_dir, dir_text(id) + "-active"@),
{
}

} // verus!
