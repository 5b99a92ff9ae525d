//! The model of a machine's `meta.toml`: its validation, and how queues, script variants and
//! universes are resolved against it.

use crate::mdb::universe::Universe;
use crate::search::{first_from, first_where, lemma_first_from, lemma_first_from_is};
use crate::table::{distinct, has_name, names_of, place, value_of, Table};
use crate::template::{filled, Filled, TemplateError, VarSet};
use crate::text::{
    cat2, cat3, cat4, cat5, cat7, chars_of, contains, is_listed, join, joined, lemma_views_push, listed, same, views,
};
use crate::walltime::Walltime;
use vstd::prelude::*;

verus! {

/// The walltime ceiling, in seconds, where neither the queue nor the machine sets one: a year.
pub const FALLBACK_MAX_WALLTIME: u64 = 31536000;

/// The name of the universe that stands for bare execution on the host: always a legal
/// reference, declared or not.
pub const HOST_UNIVERSE: &'static str = "host";

/// The phases that an `env-<phase>-setup` key can target.
#[derive(Debug, Clone, Copy, PartialEq, Eq, Structural)]
pub enum Phase {
    Build,
    Submit,
    Run,
}

/// The two kinds of script that a queue selects.
#[derive(Debug, Clone, Copy, PartialEq, Eq, Structural)]
pub enum ScriptKind {
    Submit,
    Run,
}

impl ScriptKind {
    /// The directory of the scripts of this kind, as text.
    pub open spec fn dir_text(self) -> Seq<char> {
        match self {
            ScriptKind::Submit => "submitscripts"@,
            ScriptKind::Run => "runscripts"@,
        }
    }

    /// The table that declares the variants of this kind, as text.
    pub open spec fn table_text(self) -> Seq<char> {
        match self {
            ScriptKind::Submit => "variants.submitscript"@,
            ScriptKind::Run => "variants.runscript"@,
        }
    }

    /// The directory of the scripts of this kind.
    pub fn dir_name(&self) -> (r: &'static str)
        ensures
            r@ == self.dir_text(),
    {
        match self {
            ScriptKind::Submit => "submitscripts",
            ScriptKind::Run => "runscripts",
        }
    }

    /// The table that declares the variants of this kind.
    pub fn table_name(&self) -> (r: &'static str)
        ensures
            r@ == self.table_text(),
    {
        match self {
            ScriptKind::Submit => "variants.submitscript",
            ScriptKind::Run => "variants.runscript",
        }
    }
}

/// What a machine says of itself.
#[derive(Debug)]
pub struct MachineInfo {
    pub name: Option<String>,
    pub nickname: Option<String>,
    pub status: Option<String>,
    pub hostname: Option<String>,
    pub location: Option<String>,
    pub description: Option<String>,
}

/// The roots that a machine keeps things under.
#[derive(Debug)]
pub struct Paths {
    pub install_home: Option<String>,
    pub simulation_home: Option<String>,
    pub test_home: Option<String>,
    pub scratch_home: Option<String>,
}

/// The hardware facts that submit and run scripts are fed. The `max_` keys say what a node has;
/// the `default_` keys say what a request asks for where it does not say.
#[derive(Debug, Clone, Copy)]
pub struct Hardware {
    /// Fill the missing core and memory values from the operating system.
    pub autodetect: bool,
    pub max_cpus_per_node: Option<u32>,
    pub default_cpus_per_task: Option<u32>,
    pub max_gpus_per_node: Option<u32>,
    pub default_gpus_per_task: Option<u32>,
    pub threads_per_cpu: Option<u32>,
    /// Megabytes per node.
    pub memory: Option<u64>,
}

/// `a`, or `b` where `a` holds nothing.
pub open spec fn or_else<T>(a: Option<T>, b: Option<T>) -> Option<T> {
    if a is Some {
        a
    } else {
        b
    }
}

/// `a`, or `b` where `a` holds nothing.
pub fn or_copy<T: Copy>(a: Option<T>, b: Option<T>) -> (r: Option<T>)
    ensures
        r == or_else(a, b),
{
    if a.is_some() {
        a
    } else {
        b
    }
}

impl Hardware {
    /// Hardware threads per core; one where the machine does not say.
    pub fn threads_per_cpu(&self) -> (r: u32)
        ensures
            r == (match self.threads_per_cpu {
                Some(n) => n,
                None => 1,
            }),
    {
        match self.threads_per_cpu {
            Some(n) => n,
            None => 1,
        }
    }
}

/// Build settings.
#[derive(Debug)]
pub struct Build {
    pub make: Option<String>,
    pub make_jobs: Option<u32>,
    pub enabled_thorns: Vec<String>,
    pub disabled_thorns: Vec<String>,
    /// The machine's default universe for builds.
    pub universe: Option<String>,
}

/// Shell text that sets up the environment, for all phases and for each one.
#[derive(Debug)]
pub struct Environment {
    pub env_setup: Option<String>,
    pub env_build_setup: Option<String>,
    pub env_submit_setup: Option<String>,
    pub env_run_setup: Option<String>,
}

/// The characters of an optional string.
pub open spec fn opt_view(s: Option<String>) -> Option<Seq<char>> {
    match s {
        Some(x) => Some(x@),
        None => None,
    }
}

/// Two blocks one after the other, each on lines of its own; a missing block adds nothing.
pub open spec fn two_blocks(first: Option<Seq<char>>, second: Option<Seq<char>>) -> Seq<char> {
    match (first, second) {
        (None, None) => Seq::empty(),
        (Some(a), None) => a,
        (None, Some(b)) => b,
        (Some(a), Some(b)) => if a.len() == 0 || a.last() == '\n' {
            a + b
        } else {
            a + "\n"@ + b
        },
    }
}

impl Environment {
    /// The block of one phase.
    pub open spec fn phase_block(self, phase: Phase) -> Option<Seq<char>> {
        match phase {
            Phase::Build => opt_view(self.env_build_setup),
            Phase::Submit => opt_view(self.env_submit_setup),
            Phase::Run => opt_view(self.env_run_setup),
        }
    }

    /// The environment of a phase: the block of all phases, then the phase's own.
    pub fn effective(&self, phase: Phase) -> (r: String)
        ensures
            r@ == two_blocks(opt_view(self.env_setup), self.phase_block(phase)),
    {
        let extra: &Option<String> = match phase {
            Phase::Build => &self.env_build_setup,
            Phase::Submit => &self.env_submit_setup,
            Phase::Run => &self.env_run_setup,
        };
        blocks(&self.env_setup, extra)
    }
}

/// Two blocks one after the other, each on lines of its own.
fn blocks(first: &Option<String>, second: &Option<String>) -> (r: String)
    ensures
        r@ == two_blocks(opt_view(*first), opt_view(*second)),
{
    match (first, second) {
        (None, None) => String::new(),
        (Some(a), None) => a.clone(),
        (None, Some(b)) => b.clone(),
        (Some(a), Some(b)) => {
            let cs = chars_of(a);
            if cs.len() == 0 || cs[cs.len() - 1] == '\n' {
                cat2(a, b)
            } else {
                cat3(a, "\n", b)
            }
        },
    }
}

/// The commands and patterns by which the machine's scheduler is driven.
#[derive(Debug)]
pub struct Scheduler {
    pub submit: Option<String>,
    /// A submit command that runs until the job is over.
    pub blocking_submit: Option<String>,
    pub interactive_cmd: Option<String>,
    pub get_status: Option<String>,
    /// One command that lists every live job of the user, the job id first on each line.
    pub get_status_many: Option<String>,
    pub stop: Option<String>,
    pub submit_pattern: Option<String>,
    pub status_pattern: Option<String>,
    pub queued_pattern: Option<String>,
    pub running_pattern: Option<String>,
    pub holding_pattern: Option<String>,
    pub exec_host: Option<String>,
    pub exec_host_pattern: Option<String>,
    pub stdout: Option<String>,
    pub stderr: Option<String>,
    pub stdout_follow: Option<String>,
    pub max_queue_slots: Option<u32>,
    /// The ceiling for queues that set none of their own.
    pub max_walltime: Option<Walltime>,
    /// Environment variables that are set inside a job's allocation.
    pub allocation_env: Vec<String>,
}

/// A queue.
#[derive(Debug)]
pub struct Queue {
    pub gpu: bool,
    pub max_walltime: Option<Walltime>,
    /// The queue that is used where none is named.
    pub default: bool,
    /// The scheduler's own name for the queue, where it differs from the key.
    pub name: Option<String>,
    /// The build universes that the queue serves; all of them where there is no list.
    pub build_universes: Option<Vec<String>>,
    pub max_cpus_per_node: Option<u32>,
    pub default_cpus_per_task: Option<u32>,
    pub max_gpus_per_node: Option<u32>,
    pub default_gpus_per_task: Option<u32>,
    pub threads_per_cpu: Option<u32>,
    pub memory: Option<u64>,
}

/// Whether a list of build universes admits `universe`; a missing list admits every one.
pub open spec fn admits(list: Option<Vec<String>>, universe: Seq<char>) -> bool {
    match list {
        None => true,
        Some(l) => listed(l@, universe),
    }
}

fn list_admits(list: &Option<Vec<String>>, universe: &str) -> (r: bool)
    ensures
        r == admits(*list, universe@),
{
    match list {
        None => true,
        Some(l) => is_listed(l, universe),
    }
}

impl Queue {
    /// Whether the queue may serve a configuration built in `universe`.
    pub fn compatible_with(&self, universe: &str) -> (r: bool)
        ensures
            r == admits(self.build_universes, universe@),
    {
        list_admits(&self.build_universes, universe)
    }
}

/// The script variants and optionlists that a machine declares.
pub struct Variants {
    pub submitscript: ScriptVariants,
    pub runscript: ScriptVariants,
    pub optionlist: OptionlistVariants,
}

/// The names of the machine's optionlists.
#[derive(Debug)]
pub struct OptionlistVariants {
    pub variants: Vec<String>,
}

/// The script variants of one kind.
pub struct ScriptVariants {
    pub variants: Table<VariantEntry>,
    /// The universe of the variants that name none.
    pub default_universe: Option<String>,
}

/// One script variant.
#[derive(Debug)]
pub struct VariantEntry {
    pub queues: Vec<String>,
    pub universe: Option<String>,
    /// The build universes that the variant serves; all of them where there is no list.
    pub build_universes: Option<Vec<String>>,
    pub test: bool,
    pub default: bool,
    /// The task count for runs that ask for no process layout of their own.
    pub tasks: Option<u32>,
}

impl VariantEntry {
    /// Whether the variant may serve a configuration built in `universe`.
    pub fn compatible_with(&self, universe: &str) -> (r: bool)
        ensures
            r == admits(self.build_universes, universe@),
    {
        list_admits(&self.build_universes, universe)
    }
}

/// Where a machine's entry was copied from.
#[derive(Debug)]
pub struct CactupMeta {
    pub origin: Option<Origin>,
    /// The generation of the database that the entry was written for.
    pub mdb_generation: Option<u32>,
}

/// The entry that another was copied from.
#[derive(Debug)]
pub struct Origin {
    pub from: String,
    pub hash: String,
}

/// A machine's `meta.toml`.
pub struct Meta {
    pub machine: MachineInfo,
    pub paths: Paths,
    pub hardware: Hardware,
    pub build: Build,
    pub environment: Environment,
    pub scheduler: Scheduler,
    pub queues: Table<Queue>,
    pub variants: Variants,
    pub universes: Table<Universe>,
    pub cactup: CactupMeta,
}

impl Meta {
    /// The script variants of one kind, as a value.
    pub open spec fn scripts(self, kind: ScriptKind) -> ScriptVariants {
        match kind {
            ScriptKind::Submit => self.variants.submitscript,
            ScriptKind::Run => self.variants.runscript,
        }
    }

    /// The script variants of one kind.
    pub fn script_variants(&self, kind: ScriptKind) -> (r: &ScriptVariants)
        ensures
            *r == self.scripts(kind),
    {
        match kind {
            ScriptKind::Submit => &self.variants.submitscript,
            ScriptKind::Run => &self.variants.runscript,
        }
    }
}

/// A variant of one partition (test or normal) that may serve `universe`.
pub open spec fn is_candidate(e: VariantEntry, test: bool, universe: Seq<char>) -> bool {
    e.test == test && admits(e.build_universes, universe)
}

/// The positions of the candidates.
pub open spec fn candidates(
    entries: Seq<(Seq<char>, VariantEntry)>,
    test: bool,
    universe: Seq<char>,
) -> spec_fn(int) -> bool {
    |i: int| is_candidate(entries[i].1, test, universe)
}

/// The positions of the candidates that are marked default.
pub open spec fn default_candidates(
    entries: Seq<(Seq<char>, VariantEntry)>,
    test: bool,
    universe: Seq<char>,
) -> spec_fn(int) -> bool {
    |i: int| is_candidate(entries[i].1, test, universe) && entries[i].1.default
}

/// Whether a variant is a candidate that maps `queue`.
pub open spec fn serves(e: VariantEntry, test: bool, universe: Seq<char>, queue: Seq<char>) -> bool {
    is_candidate(e, test, universe) && listed(e.queues@, queue)
}

/// The positions of the candidates that map `queue`.
pub open spec fn serving(
    entries: Seq<(Seq<char>, VariantEntry)>,
    test: bool,
    universe: Seq<char>,
    queue: Seq<char>,
) -> spec_fn(int) -> bool {
    |i: int| serves(entries[i].1, test, universe, queue)
}

/// The position of a partition's default: its only candidate, or else the first one that is
/// marked default; the number of entries where there is none.
pub open spec fn default_place(entries: Seq<(Seq<char>, VariantEntry)>, test: bool, universe: Seq<char>) -> int {
    let n = entries.len() as int;
    let p = candidates(entries, test, universe);
    let first = first_where(n, p);
    if first < n && first_from(first + 1, n, p) == n {
        first
    } else {
        first_where(n, default_candidates(entries, test, universe))
    }
}

/// Why no variant can be selected.
pub enum SelectFault {
    NoVariant(Seq<char>, Seq<Seq<char>>),
    NotTest(Seq<char>),
    TestOnly(Seq<char>),
    Incompatible(Seq<char>, Seq<char>, Seq<Seq<char>>),
    Unserved(bool, Seq<char>, Seq<char>),
}

/// What a selection comes to: the position of a variant, or the reason why there is none.
pub enum Selection {
    Chosen(int),
    Refused(SelectFault),
}

/// The texts of an optional list; none where there is no list.
pub open spec fn opt_views(list: Option<Vec<String>>) -> Seq<Seq<char>> {
    match list {
        Some(l) => views(l@),
        None => Seq::empty(),
    }
}

/// The variant that serves `queue` for a configuration built in `universe`. A test command takes
/// its candidates from the test partition, where that has any. A variant that is named is taken
/// if it belongs to the right partition and universe; else the first candidate that maps the
/// queue is taken, or else the default of the candidates.
pub open spec fn selection(
    entries: Seq<(Seq<char>, VariantEntry)>,
    queue: Seq<char>,
    universe: Seq<char>,
    prefer_test: bool,
    explicit: Option<Seq<char>>,
) -> Selection {
    let n = entries.len() as int;
    let use_test = prefer_test && first_where(n, candidates(entries, true, universe)) < n;
    match explicit {
        Some(name) => {
            let e = value_of(entries, name);
            if !has_name(entries, name) {
                Selection::Refused(SelectFault::NoVariant(name, names_of(entries)))
            } else if use_test && !e.test {
                Selection::Refused(SelectFault::NotTest(name))
            } else if !prefer_test && e.test {
                Selection::Refused(SelectFault::TestOnly(name))
            } else if !admits(e.build_universes, universe) {
                Selection::Refused(SelectFault::Incompatible(name, universe, opt_views(e.build_universes)))
            } else {
                Selection::Chosen(place(entries, name))
            }
        },
        None => {
            let k = first_where(n, serving(entries, use_test, universe, queue));
            let d = default_place(entries, use_test, universe);
            if k < n {
                Selection::Chosen(k)
            } else if d < n {
                Selection::Chosen(d)
            } else {
                Selection::Refused(SelectFault::Unserved(use_test, universe, queue))
            }
        },
    }
}

/// Why no variant can be selected.
#[derive(Debug)]
pub enum SelectError {
    /// No variant has the name that was asked for; the names that there are.
    NoVariant(String, Vec<String>),
    /// The variant is not marked for tests, though the machine has variants that are.
    NotTest(String),
    /// The variant is for tests only.
    TestOnly(String),
    /// The variant does not serve the universe; the universes that it does serve.
    Incompatible(String, String, Vec<String>),
    /// No variant of the partition serves the universe and the queue.
    Unserved(bool, String, String),
}

impl View for SelectError {
    type V = SelectFault;

    open spec fn view(&self) -> SelectFault {
        match *self {
            SelectError::NoVariant(name, known) => SelectFault::NoVariant(name@, views(known@)),
            SelectError::NotTest(name) => SelectFault::NotTest(name@),
            SelectError::TestOnly(name) => SelectFault::TestOnly(name@),
            SelectError::Incompatible(name, universe, list) => SelectFault::Incompatible(
                name@,
                universe@,
                views(list@),
            ),
            SelectError::Unserved(test, universe, queue) => SelectFault::Unserved(test, universe@, queue@),
        }
    }
}

impl SelectError {
    /// The message for the user, as text.
    pub open spec fn text(self) -> Seq<char> {
        match self {
            SelectError::NoVariant(name, known) => "no variant named \""@ + name@ + "\" (known: "@ + joined(
                views(known@),
                ", "@,
            ) + ")"@,
            SelectError::NotTest(name) => "variant \""@ + name@
                + "\" is not test-marked, but this machine has test variants (§11.2)"@,
            SelectError::TestOnly(name) => "variant \""@ + name@
                + "\" is test-only (test = true) and cannot serve a normal run (§11.2)"@,
            SelectError::Incompatible(name, universe, list) => "variant \""@ + name@
                + "\" is not compatible with build universe \""@ + universe@ + "\" (build-universes = ["@ + joined(
                views(list@),
                ", "@,
            ) + "]) (§4.4)"@,
            SelectError::Unserved(test, universe, queue) => (if test {
                "no test variant compatible with universe \""@
            } else {
                "no variant compatible with universe \""@
            }) + universe@ + "\" serves queue \""@ + queue@ + "\" and none is a compatible default"@,
        }
    }

    /// The message for the user.
    pub fn message(&self) -> (r: String)
        ensures
            r@ == self.text(),
    {
        match self {
            SelectError::NoVariant(name, known) => cat5(
                "no variant named \"",
                name,
                "\" (known: ",
                &join(known, ", "),
                ")",
            ),
            SelectError::NotTest(name) => cat3(
                "variant \"",
                name,
                "\" is not test-marked, but this machine has test variants (§11.2)",
            ),
            SelectError::TestOnly(name) => cat3(
                "variant \"",
                name,
                "\" is test-only (test = true) and cannot serve a normal run (§11.2)",
            ),
            SelectError::Incompatible(name, universe, list) => cat7(
                "variant \"",
                name,
                "\" is not compatible with build universe \"",
                universe,
                "\" (build-universes = [",
                &join(list, ", "),
                "]) (§4.4)",
            ),
            SelectError::Unserved(test, universe, queue) => cat5(
                if *test {
                    "no test variant compatible with universe \""
                } else {
                    "no variant compatible with universe \""
                },
                universe,
                "\" serves queue \"",
                queue,
                "\" and none is a compatible default",
            ),
        }
    }
}

/// A copy of a list of strings.
pub fn copy_list(list: &Vec<String>) -> (r: Vec<String>)
    ensures
        views(r@) == views(list@),
{
    let mut out: Vec<String> = Vec::new();
    let mut i: usize = 0;
    while i < list.len()
        invariant
            i <= list@.len(),
            views(out@) == views(list@).take(i as int),
        decreases list@.len() - i,
    {
        let ghost before = out@;
        let item = list[i].clone();
        out.push(item);
        i += 1;
        proof {
            lemma_views_push(before, item);
            assert(views(list@).take(i as int) == views(list@).take(i - 1).push(item@));
        }
    }
    assert(views(list@).take(i as int) == views(list@));
    out
}

impl ScriptVariants {
    /// The variants of one partition that may serve `universe`, as names and entries.
    pub open spec fn members(self, test: bool, universe: Seq<char>) -> Seq<(Seq<char>, VariantEntry)> {
        self.variants@.filter(|e: (Seq<char>, VariantEntry)| is_candidate(e.1, test, universe))
    }

    /// The first position from `from` on that is a candidate; the number of entries where none
    /// is.
    fn next_candidate(&self, from: usize, test: bool, universe: &str) -> (k: usize)
        requires
            from <= self.variants@.len(),
        ensures
            k == first_from(from as int, self.variants@.len() as int, candidates(self.variants@, test, universe@)),
            from <= k <= self.variants@.len(),
    {
        let ghost p = candidates(self.variants@, test, universe@);
        let mut k: usize = from;
        while k < self.variants.len()
            invariant
                from <= k <= self.variants@.len(),
                p == candidates(self.variants@, test, universe@),
                forall|j: int| from <= j < k ==> !(#[trigger] p(j)),
            ensures
                k < self.variants@.len() ==> p(k as int),
            decreases self.variants@.len() - k,
        {
            let e = self.variants.at(k);
            if e.test == test && e.compatible_with(universe) {
                assert(p(k as int));
                break;
            }
            assert(!p(k as int));
            k += 1;
        }
        proof {
            lemma_first_from_is(from as int, self.variants@.len() as int, p, k as int);
        }
        k
    }

    /// The variants of one partition that may serve `universe`, in order.
    pub fn partition<'s>(&'s self, test: bool, universe: &str) -> (r: Vec<(&'s str, &'s VariantEntry)>)
        ensures
            r@.len() == self.members(test, universe@).len(),
            forall|i: int|
                0 <= i < r@.len() ==> (#[trigger] r@[i]).0@ == self.members(test, universe@)[i].0 && *r@[i].1
                    == self.members(test, universe@)[i].1,
    {
        let ghost p = |e: (Seq<char>, VariantEntry)| is_candidate(e.1, test, universe@);
        let ghost all = self.variants@;
        let mut out: Vec<(&'s str, &'s VariantEntry)> = Vec::new();
        let mut i: usize = 0;
        proof {
            reveal(Seq::filter);
            assert(all.take(0) == Seq::<(Seq<char>, VariantEntry)>::empty());
        }
        while i < self.variants.len()
            invariant
                i <= self.variants@.len(),
                all == self.variants@,
                p == (|e: (Seq<char>, VariantEntry)| is_candidate(e.1, test, universe@)),
                out@.len() == all.take(i as int).filter(p).len(),
                forall|j: int|
                    0 <= j < out@.len() ==> (#[trigger] out@[j]).0@ == all.take(i as int).filter(p)[j].0
                        && *out@[j].1 == all.take(i as int).filter(p)[j].1,
            decreases self.variants@.len() - i,
        {
            let e = self.variants.at(i);
            proof {
                reveal(Seq::filter);
                assert(all.take(i + 1).drop_last() == all.take(i as int));
                assert(all.take(i + 1).last() == all[i as int]);
            }
            if e.test == test && e.compatible_with(universe) {
                out.push((self.variants.name_at(i), e));
            }
            i += 1;
        }
        assert(all.take(i as int) == all);
        out
    }

    /// The default variant of a partition: its only candidate, or the one marked default.
    pub fn partition_default<'s>(&'s self, test: bool, universe: &str) -> (r: Option<(&'s str, &'s VariantEntry)>)
        ensures
            ({
                let d = default_place(self.variants@, test, universe@);
                if d < self.variants@.len() {
                    0 <= d && r is Some && (r->0).0@ == self.variants@[d].0 && *(r->0).1 == self.variants@[d].1
                } else {
                    r is None
                }
            }),
    {
        let n: usize = self.variants.len();
        let ghost p = default_candidates(self.variants@, test, universe@);
        let first: usize = self.next_candidate(0, test, universe);
        if first < n && self.next_candidate(first + 1, test, universe) == n {
            return Some((self.variants.name_at(first), self.variants.at(first)));
        }
        let mut k: usize = 0;
        while k < n
            invariant
                k <= n,
                n == self.variants@.len(),
                p == default_candidates(self.variants@, test, universe@),
                forall|j: int| 0 <= j < k ==> !(#[trigger] p(j)),
                first == first_where(n as int, candidates(self.variants@, test, universe@)),
                !(first < n && first_from(first + 1, n as int, candidates(self.variants@, test, universe@)) == n),
            decreases n - k,
        {
            let e = self.variants.at(k);
            if e.test == test && e.compatible_with(universe) && e.default {
                proof {
                    assert(p(k as int));
                    lemma_first_from_is(0, n as int, p, k as int);
                }
                return Some((self.variants.name_at(k), e));
            }
            assert(!p(k as int));
            k += 1;
        }
        proof {
            lemma_first_from_is(0, n as int, p, n as int);
        }
        None
    }

    /// Selects the variant that serves `queue` for a configuration built in `universe`.
    pub fn select<'s>(&'s self, queue: &str, universe: &str, prefer_test: bool, explicit: Option<&str>) -> (r: Result<
        (&'s str, &'s VariantEntry),
        SelectError,
    >)
        ensures
            match selection(self.variants@, queue@, universe@, prefer_test, match explicit {
                Some(name) => Some(name@),
                None => None,
            }) {
                Selection::Chosen(i) => 0 <= i < self.variants@.len() && r is Ok && (r->Ok_0).0@
                    == self.variants@[i].0 && *(r->Ok_0).1 == self.variants@[i].1,
                Selection::Refused(f) => r matches Err(e) && e@ == f,
            },
    {
        let n: usize = self.variants.len();
        let use_test = prefer_test && self.next_candidate(0, true, universe) < n;
        match explicit {
            Some(name) => match self.variants.get(name) {
                None => Err(SelectError::NoVariant(name.to_owned(), self.variants.names())),
                Some(entry) => {
                    if use_test && !entry.test {
                        return Err(SelectError::NotTest(name.to_owned()));
                    }
                    if !prefer_test && entry.test {
                        return Err(SelectError::TestOnly(name.to_owned()));
                    }
                    if !entry.compatible_with(universe) {
                        let list = match &entry.build_universes {
                            Some(l) => copy_list(l),
                            None => Vec::new(),
                        };
                        return Err(SelectError::Incompatible(name.to_owned(), universe.to_owned(), list));
                    }
                    let at: usize = self.variants.find(name);
                    Ok((self.variants.name_at(at), entry))
                },
            },
            None => {
                let ghost p = serving(self.variants@, use_test, universe@, queue@);
                let mut k: usize = 0;
                while k < n
                    invariant
                        k <= n,
                        n == self.variants@.len(),
                        explicit is None,
                        use_test == (prefer_test && first_where(
                            n as int,
                            candidates(self.variants@, true, universe@),
                        ) < n),
                        p == serving(self.variants@, use_test, universe@, queue@),
                        forall|j: int| 0 <= j < k ==> !(#[trigger] p(j)),
                    decreases n - k,
                {
                    let e = self.variants.at(k);
                    if e.test == use_test && e.compatible_with(universe) && is_listed(&e.queues, queue) {
                        proof {
                            assert(p(k as int));
                            lemma_first_from_is(0, n as int, p, k as int);
                        }
                        return Ok((self.variants.name_at(k), e));
                    }
                    assert(!p(k as int));
                    k += 1;
                }
                proof {
                    lemma_first_from_is(0, n as int, p, n as int);
                }
                match self.partition_default(use_test, universe) {
                    Some(found) => Ok(found),
                    None => Err(SelectError::Unserved(use_test, universe.to_owned(), queue.to_owned())),
                }
            },
        }
    }
}

/// Why a name cannot be resolved against a machine.
pub enum ResolveFault {
    NoQueue(Seq<char>, Seq<Seq<char>>),
    NoUniverse(Seq<char>, Seq<Seq<char>>),
}

/// Why a name cannot be resolved against a machine.
#[derive(Debug)]
pub enum ResolveError {
    /// No queue has the name; the queues that there are.
    NoQueue(String, Vec<String>),
    /// No universe has the name; the universes that there are.
    NoUniverse(String, Vec<String>),
}

impl View for ResolveError {
    type V = ResolveFault;

    open spec fn view(&self) -> ResolveFault {
        match *self {
            ResolveError::NoQueue(name, known) => ResolveFault::NoQueue(name@, views(known@)),
            ResolveError::NoUniverse(name, known) => ResolveFault::NoUniverse(name@, views(known@)),
        }
    }
}

impl ResolveError {
    /// The message for the user, as text.
    pub open spec fn text(self) -> Seq<char> {
        match self {
            ResolveError::NoQueue(name, known) => "no queue named \""@ + name@ + "\" (known: "@ + joined(
                views(known@),
                ", "@,
            ) + ")"@,
            ResolveError::NoUniverse(name, known) => "no universe named \""@ + name@
                + "\" on this machine (known: "@ + joined(views(known@), ", "@) + ")"@,
        }
    }

    /// The message for the user.
    pub fn message(&self) -> (r: String)
        ensures
            r@ == self.text(),
    {
        match self {
            ResolveError::NoQueue(name, known) => cat5(
                "no queue named \"",
                name,
                "\" (known: ",
                &join(known, ", "),
                ")",
            ),
            ResolveError::NoUniverse(name, known) => cat5(
                "no universe named \"",
                name,
                "\" on this machine (known: ",
                &join(known, ", "),
                ")",
            ),
        }
    }
}

/// The positions of the queues that serve `universe`.
pub open spec fn open_queues(queues: Seq<(Seq<char>, Queue)>, universe: Seq<char>) -> spec_fn(int) -> bool {
    |i: int| admits(queues[i].1.build_universes, universe)
}

/// The positions of the queues that serve `universe` and are marked default.
pub open spec fn open_default_queues(queues: Seq<(Seq<char>, Queue)>, universe: Seq<char>) -> spec_fn(int) -> bool {
    |i: int| queues[i].1.default && admits(queues[i].1.build_universes, universe)
}

/// The position of the queue that is used where none is named: the only one that serves the
/// universe, or else the first of those that is marked default; the number of queues where there
/// is none.
pub open spec fn default_queue_place(queues: Seq<(Seq<char>, Queue)>, universe: Seq<char>) -> int {
    let n = queues.len() as int;
    let p = open_queues(queues, universe);
    let first = first_where(n, p);
    if first < n && first_from(first + 1, n, p) == n {
        first
    } else {
        first_where(n, open_default_queues(queues, universe))
    }
}

/// The hardware in effect on a queue: the queue's own values, and the machine's for the rest.
pub open spec fn queue_hardware(machine: Hardware, q: Queue) -> Hardware {
    Hardware {
        autodetect: machine.autodetect,
        max_cpus_per_node: or_else(q.max_cpus_per_node, machine.max_cpus_per_node),
        default_cpus_per_task: or_else(q.default_cpus_per_task, machine.default_cpus_per_task),
        max_gpus_per_node: or_else(q.max_gpus_per_node, machine.max_gpus_per_node),
        default_gpus_per_task: or_else(q.default_gpus_per_task, machine.default_gpus_per_task),
        threads_per_cpu: or_else(q.threads_per_cpu, machine.threads_per_cpu),
        memory: or_else(q.memory, machine.memory),
    }
}

/// The names of the universes that can be resolved, `host` at the end where it is not declared.
pub open spec fn known_universes(universes: Seq<(Seq<char>, Universe)>) -> Seq<Seq<char>> {
    if has_name(universes, HOST_UNIVERSE@) {
        names_of(universes)
    } else {
        names_of(universes).push(HOST_UNIVERSE@)
    }
}

/// Whether a universe is the identity: no wrapper, and no environment of its own.
pub open spec fn is_identity(u: Universe) -> bool {
    &&& u.kind is None
    &&& u.wrapper_argv is None
    &&& u.wrapper is None
    &&& u.environment.env_setup is None
    &&& u.environment.env_build_setup is None
    &&& u.environment.env_submit_setup is None
    &&& u.environment.env_run_setup is None
}

impl Meta {
    /// What resolving a queue's name comes to where it fails.
    pub open spec fn no_queue(self, name: Seq<char>) -> ResolveFault {
        ResolveFault::NoQueue(name, names_of(self.queues@))
    }

    /// The queue named `name`.
    pub fn queue(&self, name: &str) -> (r: Result<&Queue, ResolveError>)
        ensures
            r is Ok <==> has_name(self.queues@, name@),
            r is Ok ==> *r->Ok_0 == value_of(self.queues@, name@),
            r is Err ==> r->Err_0@ == self.no_queue(name@),
    {
        match self.queues.get(name) {
            Some(q) => Ok(q),
            None => Err(ResolveError::NoQueue(name.to_owned(), self.queues.names())),
        }
    }

    fn next_open_queue(&self, from: usize, universe: &str) -> (k: usize)
        requires
            from <= self.queues@.len(),
        ensures
            k == first_from(from as int, self.queues@.len() as int, open_queues(self.queues@, universe@)),
            from <= k <= self.queues@.len(),
    {
        let ghost p = open_queues(self.queues@, universe@);
        let mut k: usize = from;
        while k < self.queues.len()
            invariant
                from <= k <= self.queues@.len(),
                p == open_queues(self.queues@, universe@),
                forall|j: int| from <= j < k ==> !(#[trigger] p(j)),
            ensures
                k < self.queues@.len() ==> p(k as int),
            decreases self.queues@.len() - k,
        {
            if self.queues.at(k).compatible_with(universe) {
                assert(p(k as int));
                break;
            }
            assert(!p(k as int));
            k += 1;
        }
        proof {
            lemma_first_from_is(from as int, self.queues@.len() as int, p, k as int);
        }
        k
    }

    /// The queue that is used where none is named, among those that serve `universe`.
    pub fn default_queue(&self, universe: &str) -> (r: Option<&str>)
        ensures
            ({
                let d = default_queue_place(self.queues@, universe@);
                if d < self.queues@.len() {
                    0 <= d && r is Some && r->0@ == self.queues@[d].0
                } else {
                    r is None
                }
            }),
    {
        let n: usize = self.queues.len();
        let ghost p = open_default_queues(self.queues@, universe@);
        let first: usize = self.next_open_queue(0, universe);
        if first < n && self.next_open_queue(first + 1, universe) == n {
            return Some(self.queues.name_at(first));
        }
        let mut k: usize = 0;
        while k < n
            invariant
                k <= n,
                n == self.queues@.len(),
                p == open_default_queues(self.queues@, universe@),
                forall|j: int| 0 <= j < k ==> !(#[trigger] p(j)),
                first == first_where(n as int, open_queues(self.queues@, universe@)),
                !(first < n && first_from(first + 1, n as int, open_queues(self.queues@, universe@)) == n),
            decreases n - k,
        {
            let q = self.queues.at(k);
            if q.default && q.compatible_with(universe) {
                proof {
                    assert(p(k as int));
                    lemma_first_from_is(0, n as int, p, k as int);
                }
                return Some(self.queues.name_at(k));
            }
            assert(!p(k as int));
            k += 1;
        }
        proof {
            lemma_first_from_is(0, n as int, p, n as int);
        }
        None
    }

    /// The scheduler's name for the queue `key`: the queue's own, or else the key.
    pub fn scheduler_queue_name<'a>(&'a self, key: &'a str) -> (r: Result<&'a str, ResolveError>)
        ensures
            r is Ok <==> has_name(self.queues@, key@),
            r is Ok ==> r->Ok_0@ == (match value_of(self.queues@, key@).name {
                Some(name) => name@,
                None => key@,
            }),
            r is Err ==> r->Err_0@ == self.no_queue(key@),
    {
        match self.queue(key) {
            Ok(q) => match &q.name {
                Some(name) => Ok(name.as_str()),
                None => Ok(key),
            },
            Err(e) => Err(e),
        }
    }

    /// The hardware in effect on a queue.
    pub fn effective_hardware(&self, queue: &str) -> (r: Result<Hardware, ResolveError>)
        ensures
            r is Ok <==> has_name(self.queues@, queue@),
            r is Ok ==> r->Ok_0 == queue_hardware(self.hardware, value_of(self.queues@, queue@)),
            r is Err ==> r->Err_0@ == self.no_queue(queue@),
    {
        match self.queue(queue) {
            Ok(q) => Ok(
                Hardware {
                    autodetect: self.hardware.autodetect,
                    max_cpus_per_node: or_copy(q.max_cpus_per_node, self.hardware.max_cpus_per_node),
                    default_cpus_per_task: or_copy(q.default_cpus_per_task, self.hardware.default_cpus_per_task),
                    max_gpus_per_node: or_copy(q.max_gpus_per_node, self.hardware.max_gpus_per_node),
                    default_gpus_per_task: or_copy(q.default_gpus_per_task, self.hardware.default_gpus_per_task),
                    threads_per_cpu: or_copy(q.threads_per_cpu, self.hardware.threads_per_cpu),
                    memory: or_copy(q.memory, self.hardware.memory),
                },
            ),
            Err(e) => Err(e),
        }
    }

    /// The walltime ceiling of a queue, as a value: the queue's, the machine's, or a year.
    pub open spec fn ceiling(self, q: Queue) -> Walltime {
        match or_else(q.max_walltime, self.scheduler.max_walltime) {
            Some(w) => w,
            None => Walltime(FALLBACK_MAX_WALLTIME),
        }
    }

    /// The walltime ceiling of a queue.
    pub fn effective_max_walltime(&self, queue: &str) -> (r: Result<Walltime, ResolveError>)
        ensures
            r is Ok <==> has_name(self.queues@, queue@),
            r is Ok ==> r->Ok_0 == self.ceiling(value_of(self.queues@, queue@)),
            r is Err ==> r->Err_0@ == self.no_queue(queue@),
    {
        match self.queue(queue) {
            Ok(q) => match or_copy(q.max_walltime, self.scheduler.max_walltime) {
                Some(w) => Ok(w),
                None => Ok(Walltime(FALLBACK_MAX_WALLTIME)),
            },
            Err(e) => Err(e),
        }
    }

    /// The universe named `name`. `host` always resolves: to the declared universe, or else to
    /// the identity.
    pub fn universe(&self, name: &str) -> (r: Result<&Universe, ResolveError>)
        ensures
            r is Ok <==> has_name(self.universes@, name@) || name@ == HOST_UNIVERSE@,
            has_name(self.universes@, name@) ==> *r->Ok_0 == value_of(self.universes@, name@),
            r is Ok && !has_name(self.universes@, name@) ==> is_identity(*r->Ok_0),
            r is Err ==> r->Err_0@ == ResolveFault::NoUniverse(name@, known_universes(self.universes@)),
    {
        match self.universes.get(name) {
            Some(u) => Ok(u),
            None => if same(name, HOST_UNIVERSE) {
                Ok(
                    &Universe {
                        kind: None,
                        wrapper_argv: None,
                        wrapper: None,
                        environment: Environment {
                            env_setup: None,
                            env_build_setup: None,
                            env_submit_setup: None,
                            env_run_setup: None,
                        },
                    },
                )
            } else {
                let mut known = self.universes.names();
                if !self.universes.contains(HOST_UNIVERSE) {
                    let ghost before = known@;
                    let host = HOST_UNIVERSE.to_owned();
                    known.push(host);
                    proof {
                        lemma_views_push(before, host);
                    }
                }
                Err(ResolveError::NoUniverse(name.to_owned(), known))
            },
        }
    }

    /// The declared host universe; nothing where the machine leaves it implicit.
    pub fn declared_host(&self) -> (r: Option<&Universe>)
        ensures
            r is Some <==> has_name(self.universes@, HOST_UNIVERSE@),
            r is Some ==> *r->0 == value_of(self.universes@, HOST_UNIVERSE@),
    {
        self.universes.get(HOST_UNIVERSE)
    }

    /// The environment of a phase inside a universe: the universe's keys replace the machine's
    /// one by one. A universe that is not declared changes nothing.
    pub open spec fn env_text(self, universe: Option<Seq<char>>, phase: Phase) -> Seq<char> {
        let base = self.environment;
        match universe {
            Some(name) => if has_name(self.universes@, name) {
                let over = value_of(self.universes@, name).environment;
                two_blocks(
                    or_else(opt_view(over.env_setup), opt_view(base.env_setup)),
                    or_else(over.phase_block(phase), base.phase_block(phase)),
                )
            } else {
                two_blocks(opt_view(base.env_setup), base.phase_block(phase))
            },
            None => two_blocks(opt_view(base.env_setup), base.phase_block(phase)),
        }
    }

    /// The environment of a phase inside a universe.
    pub fn effective_env(&self, universe: Option<&str>, phase: Phase) -> (r: String)
        ensures
            r@ == self.env_text(
                match universe {
                    Some(u) => Some(u@),
                    None => None,
                },
                phase,
            ),
    {
        let base = &self.environment;
        let declared = match universe {
            Some(name) => self.universes.get(name),
            None => None,
        };
        match declared {
            None => base.effective(phase),
            Some(u) => {
                let over = &u.environment;
                let (over_phase, base_phase) = match phase {
                    Phase::Build => (&over.env_build_setup, &base.env_build_setup),
                    Phase::Submit => (&over.env_submit_setup, &base.env_submit_setup),
                    Phase::Run => (&over.env_run_setup, &base.env_run_setup),
                };
                blocks(pick(&over.env_setup, &base.env_setup), pick(over_phase, base_phase))
            },
        }
    }

    /// Whether the process runs inside one of the machine's allocations, given which of the
    /// variables that the machine names are set and not empty. Nothing where it names none.
    pub fn allocation_status(&self, set: &Vec<String>) -> (r: Option<bool>)
        ensures
            r is None <==> self.scheduler.allocation_env@.len() == 0,
            r is Some ==> r->0 == (exists|i: int|
                0 <= i < self.scheduler.allocation_env@.len() && listed(
                    set@,
                    (#[trigger] self.scheduler.allocation_env@[i])@,
                )),
    {
        let vars = &self.scheduler.allocation_env;
        if vars.len() == 0 {
            return None;
        }
        let mut i: usize = 0;
        while i < vars.len()
            invariant
                i <= vars@.len(),
                vars@ == self.scheduler.allocation_env@,
                vars@.len() > 0,
                forall|j: int| 0 <= j < i ==> !listed(set@, (#[trigger] vars@[j])@),
            decreases vars@.len() - i,
        {
            if is_listed(set, &vars[i]) {
                return Some(true);
            }
            i += 1;
        }
        Some(false)
    }
}

/// Whether an environment sets a variable to something.
pub open spec fn is_set(env: Seq<(Seq<char>, String)>, name: Seq<char>) -> bool {
    has_name(env, name) && value_of(env, name)@.len() > 0
}

impl Meta {
    /// Whether the process runs inside one of the machine's allocations: whether its environment
    /// sets one of the variables that the machine names. Nothing where it names none.
    pub fn in_allocation(&self, env: &Table<String>) -> (r: Option<bool>)
        ensures
            r is None <==> self.scheduler.allocation_env@.len() == 0,
            r is Some ==> r->0 == (exists|i: int|
                0 <= i < self.scheduler.allocation_env@.len() && is_set(
                    env@,
                    (#[trigger] self.scheduler.allocation_env@[i])@,
                )),
    {
        let vars = &self.scheduler.allocation_env;
        let mut set: Vec<String> = Vec::new();
        let mut i: usize = 0;
        while i < vars.len()
            invariant
                i <= vars@.len(),
                vars@ == self.scheduler.allocation_env@,
                forall|j: int| 0 <= j < set@.len() ==> is_set(env@, (#[trigger] set@[j])@),
                forall|j: int| 0 <= j < i && is_set(env@, (#[trigger] vars@[j])@) ==> listed(set@, vars@[j]@),
            decreases vars@.len() - i,
        {
            if let Some(value) = env.get(&vars[i]) {
                if !value.as_str().is_empty() {
                    let ghost before = set@;
                    set.push(vars[i].clone());
                    proof {
                        assert(set@[before.len() as int]@ == vars@[i as int]@);
                        assert forall|j: int| 0 <= j < i && is_set(env@, (#[trigger] vars@[j])@) implies listed(
                            set@,
                            vars@[j]@,
                        ) by {
                            let k = choose|k: int| 0 <= k < before.len() && (#[trigger] before[k])@ == vars@[j]@;
                            assert(set@[k]@ == vars@[j]@);
                        }
                    }
                }
            }
            i += 1;
        }
        let r = self.allocation_status(&set);
        proof {
            if r is Some && r->0 {
                let k = choose|k: int| 0 <= k < vars@.len() && listed(set@, (#[trigger] vars@[k])@);
                assert(is_set(env@, self.scheduler.allocation_env@[k]@));
            }
        }
        r
    }
}

/// Names with the texts that stand for them.
pub type Texts = Seq<(Seq<char>, Seq<char>)>;

/// What filling in an optional path comes to: nothing where there is none.
pub open spec fn filled_path(path: Option<String>, texts: Texts, env: Texts) -> Option<Filled> {
    match path {
        Some(p) => Some(filled(p@, texts, env)),
        None => None,
    }
}

/// Whether a path can be filled in, where there is one.
pub open spec fn path_fills(path: Option<String>, texts: Texts, env: Texts) -> bool {
    filled_path(path, texts, env) matches Some(f) ==> f is Text
}

/// What stands against filling in the paths of a machine: the first that cannot be, by its key, and
/// why not.
pub open spec fn path_fault(paths: Paths, texts: Texts, env: Texts) -> Option<(Seq<char>, Filled)> {
    if !path_fills(paths.install_home, texts, env) {
        Some(("install-home"@, filled_path(paths.install_home, texts, env)->0))
    } else if !path_fills(paths.simulation_home, texts, env) {
        Some(("simulation-home"@, filled_path(paths.simulation_home, texts, env)->0))
    } else if !path_fills(paths.test_home, texts, env) {
        Some(("test-home"@, filled_path(paths.test_home, texts, env)->0))
    } else if !path_fills(paths.scratch_home, texts, env) {
        Some(("scratch-home"@, filled_path(paths.scratch_home, texts, env)->0))
    } else {
        None
    }
}

/// A path of a machine that cannot be filled in: its key, and why.
#[derive(Debug)]
pub struct PathError {
    pub key: String,
    pub error: TemplateError,
}

impl PathError {
    /// The message for the user, as text.
    pub open spec fn text(self) -> Seq<char> {
        "in [paths]."@ + self.key@ + ": "@ + self.error.text()
    }

    /// The message for the user.
    pub fn message(&self) -> (r: String)
        ensures
            r@ == self.text(),
    {
        cat4("in [paths].", &self.key, ": ", &self.error.message())
    }
}

fn fill_path(key: &str, path: &Option<String>, vars: &VarSet) -> (r: Result<Option<String>, PathError>)
    ensures
        match filled_path(*path, vars.texts(), vars.env_texts()) {
            None => r is Ok && r->Ok_0 is None,
            Some(Filled::Text(t)) => r is Ok && r->Ok_0 is Some && r->Ok_0->0@ == t,
            Some(f) => r is Err && r->Err_0.key@ == key@ && r->Err_0.error@ == f,
        },
{
    match path {
        None => Ok(None),
        Some(p) => match vars.substitute(p) {
            Ok(t) => Ok(Some(t)),
            Err(e) => Err(PathError { key: key.to_owned(), error: e }),
        },
    }
}

/// Whether a path is what filling in another one gives.
pub open spec fn is_filled(r: Option<String>, path: Option<String>, texts: Texts, env: Texts) -> bool {
    match filled_path(path, texts, env) {
        Some(Filled::Text(t)) => r is Some && r->0@ == t,
        _ => r is None,
    }
}

impl Meta {
    /// The paths of the machine, filled in for use; the error of the first that cannot be. The
    /// machine itself keeps them as they are written, so that it can be read on any host.
    pub fn resolved_paths(&self, vars: &VarSet) -> (r: Result<Paths, PathError>)
        ensures
            match path_fault(self.paths, vars.texts(), vars.env_texts()) {
                Some(f) => r matches Err(e) && e.key@ == f.0 && e.error@ == f.1,
                None => r matches Ok(p) && {
                    &&& is_filled(p.install_home, self.paths.install_home, vars.texts(), vars.env_texts())
                    &&& is_filled(p.simulation_home, self.paths.simulation_home, vars.texts(), vars.env_texts())
                    &&& is_filled(p.test_home, self.paths.test_home, vars.texts(), vars.env_texts())
                    &&& is_filled(p.scratch_home, self.paths.scratch_home, vars.texts(), vars.env_texts())
                },
            },
    {
        let install_home = match fill_path("install-home", &self.paths.install_home, vars) {
            Ok(p) => p,
            Err(e) => {
                return Err(e);
            },
        };
        let simulation_home = match fill_path("simulation-home", &self.paths.simulation_home, vars) {
            Ok(p) => p,
            Err(e) => {
                return Err(e);
            },
        };
        let test_home = match fill_path("test-home", &self.paths.test_home, vars) {
            Ok(p) => p,
            Err(e) => {
                return Err(e);
            },
        };
        let scratch_home = match fill_path("scratch-home", &self.paths.scratch_home, vars) {
            Ok(p) => p,
            Err(e) => {
                return Err(e);
            },
        };
        Ok(Paths { install_home, simulation_home, test_home, scratch_home })
    }
}

fn pick<'a>(over: &'a Option<String>, base: &'a Option<String>) -> (r: &'a Option<String>)
    ensures
        opt_view(*r) == or_else(opt_view(*over), opt_view(*base)),
{
    if over.is_some() {
        over
    } else {
        base
    }
}

/// What a queue says of its hardware holds on it, and what it leaves open is the machine's.
pub proof fn queues_override_the_machine(machine: Hardware, q: Queue)
    ensures
        ({
            let hw = queue_hardware(machine, q);
            &&& hw.max_cpus_per_node == (if q.max_cpus_per_node is Some {
                q.max_cpus_per_node
            } else {
                machine.max_cpus_per_node
            })
            &&& hw.default_cpus_per_task == (if q.default_cpus_per_task is Some {
                q.default_cpus_per_task
            } else {
                machine.default_cpus_per_task
            })
            &&& hw.max_gpus_per_node == (if q.max_gpus_per_node is Some {
                q.max_gpus_per_node
            } else {
                machine.max_gpus_per_node
            })
            &&& hw.default_gpus_per_task == (if q.default_gpus_per_task is Some {
                q.default_gpus_per_task
            } else {
                machine.default_gpus_per_task
            })
            &&& hw.threads_per_cpu == (if q.threads_per_cpu is Some {
                q.threads_per_cpu
            } else {
                machine.threads_per_cpu
            })
            &&& hw.memory == (if q.memory is Some {
                q.memory
            } else {
                machine.memory
            })
            &&& hw.autodetect == machine.autodetect
        }),
{
}

/// A queue's own walltime ceiling wins over the machine's, and a year stands in for both.
pub proof fn queue_ceilings_win(meta: Meta, q: Queue)
    ensures
        q.max_walltime is Some ==> meta.ceiling(q) == q.max_walltime->0,
        q.max_walltime is None && meta.scheduler.max_walltime is Some ==> meta.ceiling(q)
            == meta.scheduler.max_walltime->0,
        q.max_walltime is None && meta.scheduler.max_walltime is None ==> meta.ceiling(q).0 == 365 * 86400,
{
}

/// A queue that is used although none is named serves the universe; and it is the only one that does,
/// or it is marked default and no queue before it that serves the universe is. There is none only
/// where no queue that serves the universe is marked, and not just one serves it.
pub proof fn default_queues_are_meant(queues: Seq<(Seq<char>, Queue)>, universe: Seq<char>)
    ensures
        ({
            let d = default_queue_place(queues, universe);
            let n = queues.len();
            &&& 0 <= d <= n
            &&& d < n ==> admits(queues[d].1.build_universes, universe)
            &&& d < n ==> {
                ||| forall|i: int|
                    0 <= i < n && i != d ==> !admits((#[trigger] queues[i]).1.build_universes, universe)
                ||| queues[d].1.default && forall|i: int|
                    0 <= i < d && (#[trigger] queues[i]).1.default ==> !admits(queues[i].1.build_universes, universe)
            }
            &&& d == n ==> forall|i: int|
                0 <= i < n && (#[trigger] queues[i]).1.default ==> !admits(queues[i].1.build_universes, universe)
            &&& d == n ==> forall|i: int|
                0 <= i < n && admits((#[trigger] queues[i]).1.build_universes, universe) ==> exists|j: int|
                    0 <= j < n && j != i && admits((#[trigger] queues[j]).1.build_universes, universe)
            &&& forall|i: int|
                0 <= i < n && admits((#[trigger] queues[i]).1.build_universes, universe) && (forall|j: int|
                    0 <= j < n && j != i ==> !admits((#[trigger] queues[j]).1.build_universes, universe)) ==> d == i
        }),
{
    let n = queues.len() as int;
    let p = open_queues(queues, universe);
    let q = open_default_queues(queues, universe);
    let d = default_queue_place(queues, universe);
    let first = first_where(n, p);
    lemma_first_from(0, n, p);
    lemma_first_from(0, n, q);
    if first < n {
        lemma_first_from(first + 1, n, p);
        let second = first_from(first + 1, n, p);
        if second == n {
            assert forall|i: int| 0 <= i < n && i != d implies !admits(
                (#[trigger] queues[i]).1.build_universes,
                universe,
            ) by {
                assert(!p(i));
            }
        } else {
            assert(p(first) && p(second));
            assert forall|i: int|
                0 <= i < n && admits((#[trigger] queues[i]).1.build_universes, universe) implies exists|j: int|
                0 <= j < n && j != i && admits((#[trigger] queues[j]).1.build_universes, universe) by {
                if i == first {
                    assert(admits(queues[second].1.build_universes, universe));
                } else {
                    assert(admits(queues[first].1.build_universes, universe));
                }
            }
            assert forall|i: int| 0 <= i < d && (#[trigger] queues[i]).1.default implies !admits(
                queues[i].1.build_universes,
                universe,
            ) by {
                assert(!q(i));
            }
        }
    } else {
        assert forall|i: int| 0 <= i < n implies !admits((#[trigger] queues[i]).1.build_universes, universe) by {
            assert(!p(i));
        }
        if d < n {
            assert(q(d));
        }
    }
}

/// The environment of a phase is the block of all phases and then that of the phase, each from the
/// universe where it has one, else from the machine; a block begins on a line of its own.
pub proof fn environments_are_layered(meta: Meta, universe: Option<Seq<char>>, phase: Phase)
    ensures
        ({
            let base = meta.environment;
            let inside = universe is Some && has_name(meta.universes@, universe->0);
            let over = value_of(meta.universes@, universe->0).environment;
            let all = if inside && over.env_setup is Some {
                over.env_setup
            } else {
                base.env_setup
            };
            let own = if phase is Build {
                if inside && over.env_build_setup is Some {
                    over.env_build_setup
                } else {
                    base.env_build_setup
                }
            } else if phase is Submit {
                if inside && over.env_submit_setup is Some {
                    over.env_submit_setup
                } else {
                    base.env_submit_setup
                }
            } else {
                if inside && over.env_run_setup is Some {
                    over.env_run_setup
                } else {
                    base.env_run_setup
                }
            };
            let text = meta.env_text(universe, phase);
            &&& all is None && own is None ==> text.len() == 0
            &&& all is Some && own is None ==> text == all->0@
            &&& all is None && own is Some ==> text == own->0@
            &&& all is Some && own is Some ==> {
                let gap = text.len() - all->0@.len() - own->0@.len();
                &&& text.take(all->0@.len() as int) == all->0@
                &&& text.skip(text.len() - own->0@.len()) == own->0@
                &&& all->0@.len() == 0 || all->0@.last() == '\n' ==> gap == 0
                &&& all->0@.len() > 0 && all->0@.last() != '\n' ==> gap == 1 && text[all->0@.len() as int] == '\n'
            }
        }),
{
    reveal_strlit("\n");
    let base = meta.environment;
    let inside = universe is Some && has_name(meta.universes@, universe->0);
    let over = value_of(meta.universes@, universe->0).environment;
    let all = if inside {
        or_else(opt_view(over.env_setup), opt_view(base.env_setup))
    } else {
        opt_view(base.env_setup)
    };
    let own = if inside {
        or_else(over.phase_block(phase), base.phase_block(phase))
    } else {
        base.phase_block(phase)
    };
    let text = meta.env_text(universe, phase);
    assert(text == two_blocks(all, own));
    if all is Some && own is Some {
        assert(text.take(all->0.len() as int) =~= all->0);
        assert(text.skip(text.len() - own->0.len()) =~= own->0);
    }
}

/// A script is chosen among the variants of the right kind that serve the universe: a test takes those
/// that are marked for tests, where any of them serves the universe, and nothing else does. The first
/// that maps the queue is taken; only where none does, the one that is alone, or else the first that is
/// marked default.
pub proof fn scripts_are_chosen_by_queue(
    entries: Seq<(Seq<char>, VariantEntry)>,
    queue: Seq<char>,
    universe: Seq<char>,
    prefer_test: bool,
)
    ensures
        ({
            let r = selection(entries, queue, universe, prefer_test, None);
            let test = prefer_test && exists|i: int|
                0 <= i < entries.len() && (#[trigger] entries[i]).1.test && admits(
                    entries[i].1.build_universes,
                    universe,
                );
            let fits = |i: int| entries[i].1.test == test && admits(entries[i].1.build_universes, universe);
            let maps = |i: int| listed(entries[i].1.queues@, queue);
            &&& r matches Selection::Chosen(k) ==> {
                &&& 0 <= k < entries.len()
                &&& fits(k)
                &&& forall|i: int| 0 <= i < k ==> !(#[trigger] fits(i) && maps(i))
                &&& maps(k) || ((forall|i: int| 0 <= i < entries.len() ==> !(#[trigger] fits(i) && maps(i))) && ((
                forall|i: int| 0 <= i < entries.len() && i != k ==> !#[trigger] fits(i)) || (entries[k].1.default
                    && forall|i: int| 0 <= i < k ==> !(#[trigger] fits(i) && entries[i].1.default))))
            }
            &&& r matches Selection::Refused(f) ==> {
                &&& f == SelectFault::Unserved(test, universe, queue)
                &&& forall|i: int| 0 <= i < entries.len() ==> !(#[trigger] fits(i) && maps(i))
                &&& forall|i: int| 0 <= i < entries.len() ==> !(#[trigger] fits(i) && entries[i].1.default)
            }
        }),
{
    let n = entries.len() as int;
    let c = candidates(entries, true, universe);
    lemma_first_from(0, n, c);
    let first = first_where(n, c);
    let test = prefer_test && exists|i: int|
        0 <= i < entries.len() && (#[trigger] entries[i]).1.test && admits(entries[i].1.build_universes, universe);
    if first < n {
        assert(c(first));
        assert(entries[first].1.test && admits(entries[first].1.build_universes, universe));
    } else if exists|i: int|
        0 <= i < entries.len() && (#[trigger] entries[i]).1.test && admits(entries[i].1.build_universes, universe) {
        let i = choose|i: int|
            0 <= i < entries.len() && (#[trigger] entries[i]).1.test && admits(
                entries[i].1.build_universes,
                universe,
            );
        assert(!c(i));
    }
    assert(test == (prefer_test && first < n));
    let fits = |i: int| entries[i].1.test == test && admits(entries[i].1.build_universes, universe);
    let maps = |i: int| listed(entries[i].1.queues@, queue);
    let s = serving(entries, test, universe, queue);
    let p = candidates(entries, test, universe);
    let d = default_candidates(entries, test, universe);
    lemma_first_from(0, n, s);
    lemma_first_from(0, n, p);
    lemma_first_from(0, n, d);
    let k = first_where(n, s);
    assert forall|i: int| 0 <= i < k implies !(#[trigger] fits(i) && maps(i)) by {
        assert(!s(i));
    }
    if k < n {
        assert(s(k));
    } else {
        let a = first_where(n, p);
        if a < n {
            lemma_first_from(a + 1, n, p);
            assert(p(a));
            if first_from(a + 1, n, p) == n {
                assert forall|i: int| 0 <= i < n && i != a implies !#[trigger] fits(i) by {
                    assert(!p(i));
                }
            }
        }
        let b = first_where(n, d);
        assert forall|i: int| 0 <= i < b implies !(#[trigger] fits(i) && entries[i].1.default) by {
            assert(!d(i));
        }
        if b < n {
            assert(d(b));
        }
    }
}

/// A variant that is named is taken, whatever the queue, where it is there, serves the universe, and is
/// of the right kind: one for tests serves nothing else, and a test takes no other where there are some.
pub proof fn named_scripts_are_taken(
    entries: Seq<(Seq<char>, VariantEntry)>,
    queue: Seq<char>,
    universe: Seq<char>,
    prefer_test: bool,
    name: Seq<char>,
)
    requires
        distinct(entries),
    ensures
        ({
            let r = selection(entries, queue, universe, prefer_test, Some(name));
            let e = value_of(entries, name);
            &&& r matches Selection::Chosen(k) ==> 0 <= k < entries.len() && entries[k].0 == name && admits(
                entries[k].1.build_universes,
                universe,
            ) && (entries[k].1.test ==> prefer_test)
            &&& !has_name(entries, name) ==> r == Selection::Refused(SelectFault::NoVariant(name, names_of(entries)))
            &&& has_name(entries, name) && e.test && !prefer_test ==> r == Selection::Refused(
                SelectFault::TestOnly(name),
            )
            &&& has_name(entries, name) && admits(e.build_universes, universe) && e.test == prefer_test ==> r
                is Chosen
            &&& has_name(entries, name) && !admits(e.build_universes, universe) ==> r is Refused
            &&& has_name(entries, name) && !e.test && prefer_test && (exists|i: int|
                0 <= i < entries.len() && (#[trigger] entries[i]).1.test && admits(
                    entries[i].1.build_universes,
                    universe,
                )) ==> r == Selection::Refused(SelectFault::NotTest(name))
        }),
{
    let n = entries.len() as int;
    let c = candidates(entries, true, universe);
    lemma_first_from(0, n, c);
    let first = first_where(n, c);
    if first == n && exists|i: int|
        0 <= i < entries.len() && (#[trigger] entries[i]).1.test && admits(entries[i].1.build_universes, universe) {
        let i = choose|i: int|
            0 <= i < entries.len() && (#[trigger] entries[i]).1.test && admits(
                entries[i].1.build_universes,
                universe,
            );
        assert(!c(i));
    }
    if has_name(entries, name) {
        let k = place(entries, name);
        assert(entries[k].0 == name);
    }
}

/// The paths of a machine are filled in where they are there and every one of them can be; the first
/// that cannot, of the homes of installations, simulations, tests and scratch files, fails them all.
pub proof fn paths_are_filled_in_or_refused(paths: Paths, texts: Texts, env: Texts)
    ensures
        ({
            let fails = |p: Option<String>| p is Some && !(filled((p->0)@, texts, env) is Text);
            let f = path_fault(paths, texts, env);
            &&& f is None <==> !fails(paths.install_home) && !fails(paths.simulation_home) && !fails(paths.test_home)
                && !fails(paths.scratch_home)
            &&& fails(paths.install_home) ==> f == Some(
                ("install-home"@, filled((paths.install_home->0)@, texts, env)),
            )
            &&& !fails(paths.install_home) && fails(paths.simulation_home) ==> f == Some(
                ("simulation-home"@, filled((paths.simulation_home->0)@, texts, env)),
            )
            &&& !fails(paths.install_home) && !fails(paths.simulation_home) && fails(paths.test_home) ==> f == Some(
                ("test-home"@, filled((paths.test_home->0)@, texts, env)),
            )
            &&& !fails(paths.install_home) && !fails(paths.simulation_home) && !fails(paths.test_home) && fails(
                paths.scratch_home,
            ) ==> f == Some(("scratch-home"@, filled((paths.scratch_home->0)@, texts, env)))
        }),
        forall|r: Option<String>, p: Option<String>| #[trigger]
            is_filled(r, p, texts, env) ==> {
                &&& p is None ==> r is None
                &&& p is Some && filled((p->0)@, texts, env) is Text ==> r is Some && Filled::Text((r->0)@) == filled(
                    (p->0)@,
                    texts,
                    env,
                )
            },
{
}

} // verus!
