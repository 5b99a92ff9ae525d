//! Submitting and running: which scripts and universes a run takes, what the scripts hold, how
//! jobs are chained, and what is recorded of it all.

use crate::args::{SimStartArgs, UniverseFlags};
use crate::config::ConfigMeta;
use crate::mdb::meta::{
    is_identity, known_universes, opt_view, or_copy, or_else, selection, Meta, Phase, ResolveError, ResolveFault,
    ScriptKind, SelectError, SelectFault, Selection, VariantEntry, HOST_UNIVERSE,
};
use crate::mdb::universe::{wrapped, Universe, WrapError, Wrapped, WrappedCommand};
use crate::mdb::Machine;
use crate::scheduler::{command_text, command_wrapped, opt_text, Scheduler, SchedulerError};
use crate::shell::{quoted, shell_quote};
use crate::sim::restart::{
    dir_name, dir_text, freeze_vars, opt_list, RestartMeta, UniverseSpec, NO_JOB_ID,
};
use crate::sim::vars::{
    apply_tasks_default, chain_segments, config_fit, default_checkpt_buffer, default_tasks, is_topology, knob_of,
    queue_of, ref_view, request_computable, resolve_topology, segments_of, topology_fault, QueueFit, Topology,
    TopologyError, TopologyFault,
};
use crate::sim::{stem_of, Simulation, SCHEMA};
use crate::table::{has_name, inserted, lemma_mapped, value_of, Table};
use crate::template::{filled, reports, var_views, Filled, TemplateError, VarSet, VarText, VarValue};
use crate::text::{
    begins_with, cat2, cat3, cat4, cat5, cat7, chars_of, decimal, decimal_of, find, index_of, is_space, lemma_index_of,
    lemma_index_of_is, lemma_trimmed_start, path_join, path_of, same, starts, string_of, trim, trimmed, trimmed_end,
};
use crate::toml_text::{dict_of, frozen};
use crate::walltime::Walltime;
use vstd::prelude::*;

verus! {

/// How a simulation to be started is come by.
#[derive(Debug, Clone, Copy, PartialEq, Eq, Structural)]
pub enum Obtain {
    /// It is there.
    Locate,
    /// It is created.
    Create,
    /// It is created in place of the one that is there.
    Replace,
}

/// Why nothing can be started.
pub enum StartFault {
    NoSim(Seq<char>),
    Contradiction(Seq<char>),
    NoConfig(Seq<char>),
    Topology(TopologyFault),
    Stuck(nat, Seq<char>),
    Busy(Seq<char>, nat),
    Script(SelectFault),
    Universe(UniverseFault),
}

/// Why nothing can be started.
#[derive(Debug)]
pub enum StartError {
    /// There is no simulation of the name, and no parameter file to create it from.
    NoSim(String),
    /// There is a simulation of the name, and a parameter file too.
    Contradiction(String),
    /// The configuration of the simulation is gone.
    NoConfig(String),
    Topology(TopologyError),
    /// A restart of the simulation is active without a job.
    Stuck(u32, String),
    /// The simulation has an active restart.
    Busy(String, u32),
    Script(SelectError),
    Universe(UniverseError),
}

impl View for StartError {
    type V = StartFault;

    open spec fn view(&self) -> StartFault {
        match *self {
            StartError::NoSim(name) => StartFault::NoSim(name@),
            StartError::Contradiction(name) => StartFault::Contradiction(name@),
            StartError::NoConfig(name) => StartFault::NoConfig(name@),
            StartError::Topology(e) => StartFault::Topology(e@),
            StartError::Stuck(id, sim) => StartFault::Stuck(id as nat, sim@),
            StartError::Busy(sim, id) => StartFault::Busy(sim@, id as nat),
            StartError::Script(e) => StartFault::Script(e@),
            StartError::Universe(e) => StartFault::Universe(e@),
        }
    }
}

impl StartError {
    /// The message for the user, as text.
    pub open spec fn text(self) -> Seq<char> {
        match self {
            StartError::NoSim(name) => "no simulation named \""@ + name@ + "\" — pass a parfile to create it (§8.3)"@,
            StartError::Contradiction(name) => "simulation \""@ + name@
                + "\" already exists but a parfile was given; use --overwrite (or -f) to replace it"@,
            StartError::NoConfig(name) => "config \""@ + name@
                + "\" (which created this simulation) no longer exists"@,
            StartError::Topology(e) => e.text(),
            StartError::Stuck(id, sim) => "restart "@ + dir_text(id as nat)
                + " is active but has no job and is not reapable yet; try again shortly or `cactup sim stop "@ + sim@
                + "`"@,
            StartError::Busy(sim, id) => "simulation \""@ + sim@ + "\" already has an active restart ("@ + dir_text(
                id as nat,
            ) + "); wait for it, or `cactup sim stop "@ + sim@ + "` first"@,
            StartError::Script(e) => e.text(),
            StartError::Universe(e) => e.text(),
        }
    }

    /// The message for the user.
    pub fn message(&self) -> (r: String)
        ensures
            r@ == self.text(),
    {
        match self {
            StartError::NoSim(name) => cat3(
                "no simulation named \"",
                name,
                "\" — pass a parfile to create it (§8.3)",
            ),
            StartError::Contradiction(name) => cat3(
                "simulation \"",
                name,
                "\" already exists but a parfile was given; use --overwrite (or -f) to replace it",
            ),
            StartError::NoConfig(name) => cat3(
                "config \"",
                name,
                "\" (which created this simulation) no longer exists",
            ),
            StartError::Topology(e) => e.message(),
            StartError::Stuck(id, sim) => cat5(
                "restart ",
                &dir_name(*id),
                " is active but has no job and is not reapable yet; try again shortly or `cactup sim stop ",
                sim,
                "`",
            ),
            StartError::Busy(sim, id) => cat7(
                "simulation \"",
                sim,
                "\" already has an active restart (",
                &dir_name(*id),
                "); wait for it, or `cactup sim stop ",
                sim,
                "` first",
            ),
            StartError::Script(e) => e.message(),
            StartError::Universe(e) => e.message(),
        }
    }
}

/// How a simulation to be started is come by, given whether there is one of the name. A parameter
/// file never contradicts a simulation that is there in silence.
pub fn obtain_sim(args: &SimStartArgs, exists: bool) -> (r: Result<Obtain, StartError>)
    ensures
        match (args.parfile is Some, exists) {
            (false, true) => r == Ok::<Obtain, StartError>(Obtain::Locate),
            (false, false) => r is Err && r->Err_0@ == StartFault::NoSim(args.sim@),
            (true, false) => r == Ok::<Obtain, StartError>(Obtain::Create),
            (true, true) => if args.overwrite || args.force {
                r == Ok::<Obtain, StartError>(Obtain::Replace)
            } else {
                r is Err && r->Err_0@ == StartFault::Contradiction(args.sim@)
            },
        },
{
    if args.parfile.is_none() {
        if exists {
            Ok(Obtain::Locate)
        } else {
            Err(StartError::NoSim(args.sim.clone()))
        }
    } else if !exists {
        Ok(Obtain::Create)
    } else if args.overwrite || args.force {
        Ok(Obtain::Replace)
    } else {
        Err(StartError::Contradiction(args.sim.clone()))
    }
}

/// Why a universe cannot be had.
pub enum UniverseFault {
    Resolve(ResolveFault),
    Gone(Seq<char>, Seq<char>, ResolveFault),
}

/// Why a universe cannot be had.
#[derive(Debug)]
pub enum UniverseError {
    Resolve(ResolveError),
    /// The configuration was built in the universe, which the machine has no longer.
    Gone(String, String, ResolveError),
}

impl View for UniverseError {
    type V = UniverseFault;

    open spec fn view(&self) -> UniverseFault {
        match *self {
            UniverseError::Resolve(e) => UniverseFault::Resolve(e@),
            UniverseError::Gone(config, universe, e) => UniverseFault::Gone(config@, universe@, e@),
        }
    }
}

impl UniverseError {
    /// The message for the user, as text.
    pub open spec fn text(self) -> Seq<char> {
        match self {
            UniverseError::Resolve(e) => e.text(),
            UniverseError::Gone(config, universe, e) => "config \""@ + config@ + "\" was built in universe \""@
                + universe@ + "\", which this machine no longer defines; pass --no-universe or rebuild (§4.8): "@ + e.text(),
        }
    }

    /// The message for the user.
    pub fn message(&self) -> (r: String)
        ensures
            r@ == self.text(),
    {
        match self {
            UniverseError::Resolve(e) => e.message(),
            UniverseError::Gone(config, universe, e) => cat2(
                &cat5(
                    "config \"",
                    config,
                    "\" was built in universe \"",
                    universe,
                    "\", which this machine no longer defines; pass --no-universe or rebuild (§4.8): ",
                ),
                &e.message(),
            ),
        }
    }
}

/// Whether a universe's name can be resolved.
pub open spec fn is_universe_name(meta: Meta, name: Seq<char>) -> bool {
    has_name(meta.universes@, name) || name == HOST_UNIVERSE@
}

/// What resolving a universe's name comes to where it fails.
pub open spec fn no_universe(meta: Meta, name: Seq<char>) -> ResolveFault {
    ResolveFault::NoUniverse(name, known_universes(meta.universes@))
}

/// The universe that a script takes where nothing else decides: the variant's, or else the one of
/// the variants that name none, or else the declared host.
pub open spec fn script_universe(
    meta: Meta,
    variant: Option<Seq<char>>,
    default: Option<Seq<char>>,
) -> Result<Option<Seq<char>>, UniverseFault> {
    match or_else(variant, default) {
        Some(name) => if is_universe_name(meta, name) {
            Ok(Some(name))
        } else {
            Err(UniverseFault::Resolve(no_universe(meta, name)))
        },
        None => if has_name(meta.universes@, HOST_UNIVERSE@) {
            Ok(Some(HOST_UNIVERSE@))
        } else {
            Ok(None)
        },
    }
}

/// The universe of a run: none where that is asked for; else the one that is asked for; else that
/// of the build, where runs are to take it; else that of the script.
pub open spec fn run_universe(
    meta: Meta,
    cfg: ConfigMeta,
    cli: UniverseFlags,
    variant: Option<Seq<char>>,
    default: Option<Seq<char>>,
) -> Result<Option<Seq<char>>, UniverseFault> {
    if cli.no_universe {
        Ok(None)
    } else if cli.universe is Some {
        let name = cli.universe->0@;
        if is_universe_name(meta, name) {
            Ok(Some(name))
        } else {
            Err(UniverseFault::Resolve(no_universe(meta, name)))
        }
    } else if cfg.universe is Some && cfg.coerce_run_universe {
        let name = cfg.universe->0@;
        if is_universe_name(meta, name) {
            Ok(Some(name))
        } else {
            Err(UniverseFault::Gone(cfg.name@, name, no_universe(meta, name)))
        }
    } else {
        script_universe(meta, variant, default)
    }
}

/// Whether a universe is the one of a name: the declared one, or the identity for the host that is
/// not declared.
pub open spec fn is_universe(meta: Meta, name: Seq<char>, u: Universe) -> bool {
    if has_name(meta.universes@, name) {
        u == value_of(meta.universes@, name)
    } else {
        is_identity(u)
    }
}

/// Whether a universe with its name is the one that is chosen.
pub open spec fn is_chosen(
    r: Result<Option<(String, &Universe)>, UniverseError>,
    meta: Meta,
    chosen: Result<Option<Seq<char>>, UniverseFault>,
) -> bool {
    match chosen {
        Ok(Some(name)) => r matches Ok(Some(u)) && u.0@ == name && is_universe(meta, name, *u.1),
        Ok(None) => r matches Ok(None),
        Err(f) => r matches Err(e) && e@ == f,
    }
}

/// The universe of a run.
pub fn resolve_run_universe<'m>(
    meta: &'m Meta,
    cfg: &ConfigMeta,
    cli: &UniverseFlags,
    variant: Option<&str>,
    default: Option<&str>,
) -> (r: Result<Option<(String, &'m Universe)>, UniverseError>)
    ensures
        is_chosen(r, *meta, run_universe(*meta, *cfg, *cli, ref_view(variant), ref_view(default))),
{
    if cli.no_universe {
        return Ok(None);
    }
    if let Some(name) = &cli.universe {
        return match meta.universe(name) {
            Ok(u) => Ok(Some((name.clone(), u))),
            Err(e) => Err(UniverseError::Resolve(e)),
        };
    }
    if cfg.coerce_run_universe {
        if let Some(name) = &cfg.universe {
            return match meta.universe(name) {
                Ok(u) => Ok(Some((name.clone(), u))),
                Err(e) => Err(UniverseError::Gone(cfg.name.clone(), name.clone(), e)),
            };
        }
    }
    resolve_submit_universe(meta, variant, default)
}

/// The universe that a script takes where nothing else decides.
pub fn resolve_submit_universe<'m>(meta: &'m Meta, variant: Option<&str>, default: Option<&str>) -> (r: Result<
    Option<(String, &'m Universe)>,
    UniverseError,
>)
    ensures
        is_chosen(r, *meta, script_universe(*meta, ref_view(variant), ref_view(default))),
{
    let named: Option<&str> = or_copy(variant, default);
    match named {
        Some(name) => match meta.universe(name) {
            Ok(u) => Ok(Some((name.to_owned(), u))),
            Err(e) => Err(UniverseError::Resolve(e)),
        },
        None => match meta.declared_host() {
            Some(u) => Ok(Some((HOST_UNIVERSE.to_owned(), u))),
            None => Ok(None),
        },
    }
}

/// Whether the universe that is had is the one that is declared under a name.
pub open spec fn takes(r: Result<Option<(String, &Universe)>, UniverseError>, meta: Meta, name: Seq<char>) -> bool {
    r matches Ok(Some(u)) && u.0@ == name && has_name(meta.universes@, name) && *u.1 == value_of(meta.universes@, name)
}

/// A script is submitted or run in the universe that its variant names, whatever the default is. The
/// default only counts where the variant names none, and where there is no default either, the host
/// does, if it is declared. A name that is not declared is an error, except that of the host.
pub proof fn variants_choose_before_defaults(
    r: Result<Option<(String, &Universe)>, UniverseError>,
    meta: Meta,
    variant: Option<Seq<char>>,
    default: Option<Seq<char>>,
)
    requires
        is_chosen(r, meta, script_universe(meta, variant, default)),
    ensures
        ({
            let known = meta.universes@;
            &&& variant is Some && has_name(known, variant->0) ==> takes(r, meta, variant->0)
            &&& variant is Some && !has_name(known, variant->0) && variant->0 != "host"@ ==> r is Err && r->Err_0@
                == UniverseFault::Resolve(ResolveFault::NoUniverse(variant->0, known_universes(known)))
            &&& variant is None && default is Some && has_name(known, default->0) ==> takes(r, meta, default->0)
            &&& variant is None && default is Some && !has_name(known, default->0) && default->0 != "host"@ ==> r
                is Err && r->Err_0@ == UniverseFault::Resolve(
                ResolveFault::NoUniverse(default->0, known_universes(known)),
            )
            &&& variant is None && default is None && has_name(known, "host"@) ==> takes(r, meta, "host"@)
            &&& variant is None && default is None && !has_name(known, "host"@) ==> r is Ok && r->Ok_0 is None
        }),
{
}

/// A run is bare where that is asked for. Else it takes the universe that is asked for, whatever else
/// there is; else the one that its build was made in, where runs are to take it, whatever the script
/// names; and only then that of the script. A universe that cannot be had is an error: no other one is
/// taken in its place.
pub proof fn run_universes_are_taken_in_order(
    r: Result<Option<(String, &Universe)>, UniverseError>,
    meta: Meta,
    cfg: ConfigMeta,
    cli: UniverseFlags,
    variant: Option<Seq<char>>,
    default: Option<Seq<char>>,
)
    requires
        is_chosen(r, meta, run_universe(meta, cfg, cli, variant, default)),
    ensures
        cli.no_universe ==> r is Ok && r->Ok_0 is None,
        !cli.no_universe && cli.universe is Some ==> {
            let name = cli.universe->0@;
            &&& has_name(meta.universes@, name) ==> takes(r, meta, name)
            &&& !has_name(meta.universes@, name) && name != "host"@ ==> r is Err && r->Err_0@ is Resolve
        },
        !cli.no_universe && cli.universe is None && cfg.coerce_run_universe && cfg.universe is Some ==> {
            let name = cfg.universe->0@;
            &&& has_name(meta.universes@, name) ==> takes(r, meta, name)
            &&& !has_name(meta.universes@, name) && name != "host"@ ==> r is Err && r->Err_0@ is Gone
        },
        !cli.no_universe && cli.universe is None && (!cfg.coerce_run_universe || cfg.universe is None) ==> {
            let known = meta.universes@;
            &&& variant is Some && has_name(known, variant->0) ==> takes(r, meta, variant->0)
            &&& variant is None && default is Some && has_name(known, default->0) ==> takes(r, meta, default->0)
            &&& variant is None && default is None && has_name(known, "host"@) ==> takes(r, meta, "host"@)
            &&& variant is None && default is None && !has_name(known, "host"@) ==> r is Ok && r->Ok_0 is None
        },
{
}

/// What there is to note of the universe of a run: that the build's takes precedence over another
/// one that the script names.
pub fn universe_note(meta: &Meta, cfg: &ConfigMeta, cli: &UniverseFlags, variant: Option<&str>) -> (r: Option<String>)
    ensures
        r is Some <==> (!cli.no_universe && cli.universe is None && cfg.coerce_run_universe && cfg.universe is Some
            && is_universe_name(*meta, cfg.universe->0@) && variant is Some && variant->0@ != cfg.universe->0@),
        r is Some ==> r->0@ == "runscript variant names universe \""@ + variant->0@
            + "\" but the config's build universe \""@ + cfg.universe->0@ + "\" takes precedence (§4.8)"@,
{
    if cli.no_universe || cli.universe.is_some() || !cfg.coerce_run_universe {
        return None;
    }
    if let Some(built) = &cfg.universe {
        if meta.universe(built).is_err() {
            return None;
        }
        if let Some(v) = variant {
            if !same(v, built) {
                return Some(
                    cat5(
                        "runscript variant names universe \"",
                        v,
                        "\" but the config's build universe \"",
                        built,
                        "\" takes precedence (§4.8)",
                    ),
                );
            }
        }
    }
    None
}

/// Whether a line belongs to the head of a script: it is blank, or its first character is `#`.
pub open spec fn is_head_line(line: Seq<char>) -> bool {
    trimmed(line).len() == 0 || trimmed(line)[0] == '#'
}

/// The length of the first line of a text, its line break included.
pub open spec fn line_len(s: Seq<char>) -> int {
    let k = index_of(s, '\n');
    if k < s.len() {
        k + 1
    } else {
        s.len() as int
    }
}

/// The length of the head of a script: of the lines before the first that is neither blank nor a
/// comment.
pub open spec fn head_len(s: Seq<char>) -> int
    decreases s.len(),
    via head_len_decreases
{
    if s.len() == 0 || !is_head_line(s.take(line_len(s))) {
        0
    } else {
        line_len(s) + head_len(s.skip(line_len(s)))
    }
}

#[via_fn]
proof fn head_len_decreases(s: Seq<char>) {
    lemma_index_of(s, '\n');
}

proof fn lemma_head_len(s: Seq<char>)
    ensures
        0 <= head_len(s) <= s.len(),
    decreases s.len(),
{
    if s.len() > 0 && is_head_line(s.take(line_len(s))) {
        lemma_index_of(s, '\n');
        lemma_head_len(s.skip(line_len(s)));
    }
}

/// A script with the setup of the environment put into it: nothing where there is none. A run
/// script gets it behind its first line where that names the interpreter, else in front. A submit
/// script gets it behind its head, where the scheduler looks for directives.
pub open spec fn with_env(script: Seq<char>, env: Seq<char>, kind: ScriptKind) -> Seq<char> {
    if env.len() == 0 {
        script
    } else {
        match kind {
            ScriptKind::Run => if begins_with(script, "#!"@) {
                let k = index_of(script, '\n');
                if k < script.len() {
                    script.take(k + 1) + env + "\n"@ + script.skip(k + 1)
                } else {
                    script + "\n"@ + env + "\n"@
                }
            } else {
                env + "\n"@ + script
            },
            ScriptKind::Submit => {
                let k = head_len(script);
                if k == script.len() {
                    if script.len() == 0 || script.last() == '\n' {
                        script + env + "\n"@
                    } else {
                        script + "\n"@ + env + "\n"@
                    }
                } else {
                    script.take(k) + env + "\n"@ + script.skip(k)
                }
            },
        }
    }
}

/// The length of the head of a script.
fn head_end(cs: &Vec<char>) -> (r: usize)
    ensures
        r == head_len(cs@),
        r <= cs@.len(),
{
    let mut at: usize = 0;
    assert(cs@.skip(0) =~= cs@);
    while at < cs.len()
        invariant_except_break
            head_len(cs@) == at + head_len(cs@.skip(at as int)),
        invariant
            at <= cs@.len(),
        ensures
            head_len(cs@) == at,
        decreases cs@.len() - at,
    {
        let ghost rest = cs@.skip(at as int);
        let k: usize = find(cs, at, '\n');
        let end: usize = if k < cs.len() { k + 1 } else { cs.len() };
        let line = string_of(cs, at, end);
        proof {
            assert(line@ =~= rest.take(line_len(rest)));
        }
        let t = chars_of(&trim(&line));
        let head = t.len() == 0 || t[0] == '#';
        if !head {
            break;
        }
        proof {
            assert(rest.skip(line_len(rest)) =~= cs@.skip(end as int));
        }
        at = end;
    }
    at
}

/// Puts the setup of the environment into a script.
pub fn prepend_env(script: &str, env: &str, kind: ScriptKind) -> (r: String)
    ensures
        r@ == with_env(script@, env@, kind),
{
    if env.is_empty() {
        return script.to_owned();
    }
    let cs = chars_of(script);
    match kind {
        ScriptKind::Run => {
            if starts(script, "#!") {
                assert(cs@.skip(0) =~= cs@);
                let k: usize = find(&cs, 0, '\n');
                if k < cs.len() {
                    let head = string_of(&cs, 0, k + 1);
                    let body = string_of(&cs, k + 1, cs.len());
                    assert(head@ =~= script@.take(k + 1));
                    assert(body@ =~= script@.skip(k + 1));
                    cat4(&head, env, "\n", &body)
                } else {
                    cat4(script, "\n", env, "\n")
                }
            } else {
                cat3(env, "\n", script)
            }
        },
        ScriptKind::Submit => {
            let k: usize = head_end(&cs);
            if k == cs.len() {
                if cs.len() == 0 || cs[cs.len() - 1] == '\n' {
                    cat3(script, env, "\n")
                } else {
                    cat4(script, "\n", env, "\n")
                }
            } else {
                let head = string_of(&cs, 0, k);
                let body = string_of(&cs, k, cs.len());
                assert(head@ =~= script@.take(k as int));
                assert(body@ =~= script@.skip(k as int));
                cat4(&head, env, "\n", &body)
            }
        },
    }
}

/// The head of a submit script, with the directives for the scheduler, stays where it is, in front
/// of everything; and of a run script the line that names the interpreter does.
pub proof fn heads_stay_in_front(script: Seq<char>, env: Seq<char>)
    ensures
        with_env(script, env, ScriptKind::Submit).take(head_len(script)) == script.take(head_len(script)),
        begins_with(script, "#!"@) ==> begins_with(with_env(script, env, ScriptKind::Run), "#!"@),
{
    lemma_head_len(script);
    let k = head_len(script);
    assert(with_env(script, env, ScriptKind::Submit).take(k) =~= script.take(k));
    if begins_with(script, "#!"@) {
        reveal_strlit("#!");
        lemma_index_of(script, '\n');
        let n = index_of(script, '\n');
        let out = with_env(script, env, ScriptKind::Run);
        assert(script[0] == '#' && script[1] == '!') by {
            assert(script.take(2)[0] == "#!"@[0]);
            assert(script.take(2)[1] == "#!"@[1]);
        }
        if n < script.len() {
            assert(n >= 2);
        }
        assert(out.take(2) =~= "#!"@);
    }
}

/// Putting the setup into a script loses nothing of it: the script's own text stands before and
/// behind the setup.
pub proof fn scripts_keep_their_text(script: Seq<char>, env: Seq<char>, kind: ScriptKind)
    requires
        env.len() > 0,
    ensures
        exists|k: int, gap: Seq<char>| 0 <= k <= script.len() && gap.len() <= 1 && with_env(script, env, kind)
            == #[trigger] script.take(k) + #[trigger] (gap + env + "\n"@) + script.skip(k),
{
    lemma_head_len(script);
    lemma_index_of(script, '\n');
    reveal_strlit("\n");
    let n = script.len() as int;
    let out = with_env(script, env, kind);
    let none = Seq::<char>::empty();
    let line = "\n"@;
    match kind {
        ScriptKind::Run => {
            if begins_with(script, "#!"@) {
                let k = index_of(script, '\n');
                if k < n {
                    assert(out =~= script.take(k + 1) + (none + env + line) + script.skip(k + 1));
                } else {
                    assert(out =~= script.take(n) + (line + env + line) + script.skip(n));
                }
            } else {
                assert(out =~= script.take(0) + (none + env + line) + script.skip(0));
            }
        },
        ScriptKind::Submit => {
            let k = head_len(script);
            if k == n && n > 0 && script.last() != '\n' {
                assert(out =~= script.take(n) + (line + env + line) + script.skip(n));
            } else {
                assert(out =~= script.take(k) + (none + env + line) + script.skip(k));
            }
        },
    }
}

/// A line belongs to the head of a script exactly where it holds nothing but white space, or what
/// comes first after that is a `#`. The head ends before the first line that is neither.
pub proof fn heads_are_blanks_and_comments(gap: Seq<char>, c: char, tail: Seq<char>, rest: Seq<char>)
    requires
        forall|i: int| 0 <= i < gap.len() ==> is_space(gap[i]) && gap[i] != '\n',
        forall|i: int| 0 <= i < tail.len() ==> tail[i] != '\n',
        !is_space(c),
    ensures
        head_len(gap + seq!['\n'] + rest) == gap.len() + 1 + head_len(rest),
        c == '#' ==> head_len(gap + seq![c] + tail + seq!['\n'] + rest) == gap.len() + tail.len() + 2 + head_len(rest),
        c != '#' ==> head_len(gap + seq![c] + tail + seq!['\n'] + rest) == 0,
{
    let blank = gap + seq!['\n'] + rest;
    let n = gap.len() as int;
    assert(blank[n] == '\n');
    lemma_index_of_is(blank, '\n', n);
    let line = gap + seq!['\n'];
    assert(blank.take(n + 1) =~= line);
    assert(blank.skip(n + 1) =~= rest);
    assert forall|j: int| 0 <= j < line.len() implies is_space(line[j]) by {}
    lemma_trimmed_start(line, line.len() as int);
    assert(line.skip(line.len() as int) =~= Seq::<char>::empty());
    assert(trimmed(line).len() == 0);
    let full = gap + seq![c] + tail + seq!['\n'] + rest;
    let m = n + 1 + tail.len();
    assert(full[m] == '\n');
    lemma_index_of_is(full, '\n', m);
    let first = gap + seq![c] + tail + seq!['\n'];
    assert(full.take(m + 1) =~= first);
    assert(full.skip(m + 1) =~= rest);
    assert(first[n] == c);
    lemma_trimmed_start(first, n);
    let body = first.skip(n);
    assert(body[0] == c);
    lemma_trimmed_end_front(body);
}

proof fn lemma_trimmed_end_front(s: Seq<char>)
    requires
        s.len() > 0,
        !is_space(s[0]),
    ensures
        trimmed_end(s).len() > 0,
        trimmed_end(s)[0] == s[0],
    decreases s.len(),
{
    if is_space(s.last()) {
        lemma_trimmed_end_front(s.drop_last());
    }
}

/// The setup of a submission comes behind the head of its script, on lines of its own; that of a run
/// comes behind the first line where it names the interpreter, and else in front of everything. A
/// script without a setup stays as it is.
pub proof fn setups_have_their_place(first: Seq<char>, rest: Seq<char>, env: Seq<char>)
    requires
        forall|i: int| 0 <= i < first.len() ==> first[i] != '\n',
    ensures
        ({
            let script = first + seq!['\n'] + rest;
            let interpreted = first.len() >= 2 && first[0] == '#' && first[1] == '!';
            &&& env.len() == 0 ==> with_env(script, env, ScriptKind::Run) == script && with_env(
                script,
                env,
                ScriptKind::Submit,
            ) == script
            &&& env.len() > 0 && interpreted ==> with_env(script, env, ScriptKind::Run) == first + seq!['\n'] + env
                + seq!['\n'] + rest
            &&& env.len() > 0 && !interpreted ==> with_env(script, env, ScriptKind::Run) == env + seq!['\n'] + script
            &&& env.len() > 0 && head_len(script) < script.len() ==> with_env(script, env, ScriptKind::Submit)
                == script.take(head_len(script)) + env + seq!['\n'] + script.skip(head_len(script))
        }),
{
    reveal_strlit("\n");
    reveal_strlit("#!");
    let script = first + seq!['\n'] + rest;
    let n = first.len() as int;
    assert("\n"@ =~= seq!['\n']);
    assert(script[n] == '\n');
    lemma_index_of_is(script, '\n', n);
    assert(script.take(n + 1) =~= first + seq!['\n']);
    assert(script.skip(n + 1) =~= rest);
    if begins_with(script, "#!"@) {
        assert(script.take(2)[0] == "#!"@[0]);
        assert(script.take(2)[1] == "#!"@[1]);
        assert(script[0] == '#' && script[1] == '!');
        assert(n >= 2);
        assert(first[0] == script[0] && first[1] == script[1]);
    }
    if n >= 2 && first[0] == '#' && first[1] == '!' {
        assert(script.take(2) =~= "#!"@);
    }
}

/// What a script comes to: filled in, and with the environment of its phase and universe.
pub open spec fn generated(
    template: Seq<char>,
    vars: VarSet,
    env: Seq<char>,
    kind: ScriptKind,
) -> Filled {
    match filled(template, vars.texts(), vars.env_texts()) {
        Filled::Text(t) => Filled::Text(with_env(t, env, kind)),
        failure => failure,
    }
}

/// Makes a script from its template: fills it in, and puts in the environment of its phase and
/// universe.
pub fn generate_script(
    meta: &Meta,
    kind: ScriptKind,
    template: &str,
    vars: &VarSet,
    phase: Phase,
    universe: Option<&str>,
) -> (r: Result<String, TemplateError>)
    ensures
        reports(r, generated(template@, *vars, meta.env_text(ref_view(universe), phase), kind)),
{
    match vars.substitute(template) {
        Ok(t) => Ok(prepend_env(&t, &meta.effective_env(universe, phase), kind)),
        Err(e) => Err(e),
    }
}

/// Where the parameter file of a restart stands, ready to be run.
pub fn ready_parfile(sim: &Simulation, restart_dir: &str) -> (r: String)
    ensures
        r@ == path_of(restart_dir@, stem_of(sim.meta.parfile@) + ".par"@),
{
    path_join(restart_dir, &cat2(&sim.parfile_stem(), ".par"))
}

/// Who starts something, and where.
#[derive(Debug)]
pub struct Identity {
    pub hostname: String,
    pub user: String,
    pub email: String,
}

impl Identity {
    /// The identity that the knobs give, on a host.
    pub fn resolve(knobs: &Table<String>, hostname: &str) -> (r: Identity)
        ensures
            r.hostname@ == hostname@,
            r.user@ == (match knob_of(knobs@, "user"@) {
                Some(u) => u,
                None => "unknown"@,
            }),
            r.email@ == (match knob_of(knobs@, "email"@) {
                Some(e) => e,
                None => Seq::empty(),
            }),
    {
        let user = match knobs.get("user") {
            Some(u) => u.clone(),
            None => "unknown".to_owned(),
        };
        let email = match knobs.get("email") {
            Some(e) => e.clone(),
            None => String::new(),
        };
        Identity { hostname: hostname.to_owned(), user, email }
    }
}

/// What the selection of a script comes to for a run on a queue.
pub open spec fn script_choice(meta: Meta, kind: ScriptKind, queue: Seq<char>, universe: Seq<char>) -> Selection {
    selection(meta.scripts(kind).variants@, queue, universe, false, None)
}

/// The entry of the script that is chosen.
pub open spec fn chosen_entry(meta: Meta, kind: ScriptKind, queue: Seq<char>, universe: Seq<char>) -> (
    Seq<char>,
    VariantEntry,
) {
    match script_choice(meta, kind, queue, universe) {
        Selection::Chosen(i) => meta.scripts(kind).variants@[i],
        Selection::Refused(_) => arbitrary(),
    }
}

/// The universe of the submission of a run on a queue.
pub open spec fn submit_universe_on(meta: Meta, queue: Seq<char>, universe: Seq<char>) -> Result<
    Option<Seq<char>>,
    UniverseFault,
> {
    script_universe(
        meta,
        opt_view(chosen_entry(meta, ScriptKind::Submit, queue, universe).1.universe),
        opt_view(meta.scripts(ScriptKind::Submit).default_universe),
    )
}

/// The universe of a run on a queue.
pub open spec fn run_universe_on(
    meta: Meta,
    cfg: ConfigMeta,
    cli: UniverseFlags,
    queue: Seq<char>,
    universe: Seq<char>,
) -> Result<Option<Seq<char>>, UniverseFault> {
    run_universe(
        meta,
        cfg,
        cli,
        opt_view(chosen_entry(meta, ScriptKind::Run, queue, universe).1.universe),
        opt_view(meta.scripts(ScriptKind::Run).default_universe),
    )
}

/// Whether queues that a build does not go with are allowed.
pub open spec fn forced(args: SimStartArgs) -> bool {
    args.force_queue || args.force
}

/// What stands against a submission, given the active restart with its job. In this order: the
/// configuration is gone; the layout is refused; the active restart has no job to wait for; no
/// script serves the queue, for the submission or the run; or a universe cannot be had.
pub open spec fn submit_fault(
    args: SimStartArgs,
    sim: Simulation,
    machine: Machine,
    knobs: Seq<(Seq<char>, String)>,
    cfg: Option<ConfigMeta>,
    active: Option<(u32, Seq<char>)>,
) -> Option<StartFault> {
    match cfg {
        None => Some(StartFault::NoConfig(sim.meta.configuration@)),
        Some(cfg) => {
            let meta = machine.meta;
            let fit = config_fit(cfg);
            let queue = queue_of(args.topology, meta, knobs, fit.universe)->0;
            match topology_fault(args.topology, machine.name@, meta, knobs, fit, forced(args)) {
                Some(f) => Some(StartFault::Topology(f)),
                None => if active is Some && (active->0).1 == NO_JOB_ID@ {
                    Some(StartFault::Stuck((active->0).0 as nat, sim.name@))
                } else {
                    match (
                        script_choice(meta, ScriptKind::Submit, queue, fit.universe),
                        script_choice(meta, ScriptKind::Run, queue, fit.universe),
                    ) {
                        (Selection::Refused(f), _) => Some(StartFault::Script(f)),
                        (_, Selection::Refused(f)) => Some(StartFault::Script(f)),
                        _ => match (
                            submit_universe_on(meta, queue, fit.universe),
                            run_universe_on(meta, cfg, args.universe, queue, fit.universe),
                        ) {
                            (Err(f), _) => Some(StartFault::Universe(f)),
                            (_, Err(f)) => Some(StartFault::Universe(f)),
                            _ => None,
                        },
                    }
                },
            }
        },
    }
}

/// How a submission goes about it.
pub struct SubmitPlan<'m> {
    pub topo: Topology,
    pub submit_variant: String,
    pub run_variant: String,
    pub submit_universe: Option<(String, &'m Universe)>,
    pub run_universe: Option<(String, &'m Universe)>,
    /// The walltime ceiling of the queue.
    pub ceiling: Walltime,
    /// The walltime of each job.
    pub job_wall: Walltime,
    pub checkpt_buffer: Walltime,
    /// The jobs.
    pub chain: Chain,
}

/// Whether an optional universe with its name is the one that is chosen.
pub open spec fn is_chosen_universe(u: Option<(String, &Universe)>, meta: Meta, chosen: Option<Seq<char>>) -> bool {
    match chosen {
        Some(name) => u matches Some(v) && v.0@ == name && is_universe(meta, name, *v.1),
        None => u is None,
    }
}

/// The buffer of a job: the one that is asked for, or the default.
pub open spec fn buffer_of(flag: Option<Walltime>, wall: Walltime) -> Walltime {
    match flag {
        Some(b) => b,
        None => if wall.0 / 24 > 600 {
            Walltime((wall.0 / 24) as u64)
        } else {
            Walltime(600)
        },
    }
}

fn choose_buffer(flag: Option<Walltime>, wall: Walltime) -> (r: Walltime)
    ensures
        r == buffer_of(flag, wall),
{
    match flag {
        Some(b) => b,
        None => default_checkpt_buffer(wall),
    }
}

fn opt_str(s: &Option<String>) -> (r: Option<&str>)
    ensures
        ref_view(r) == opt_view(*s),
{
    match s {
        Some(t) => Some(t.as_str()),
        None => None,
    }
}

/// Plans a submission: the layout, the scripts and universes, and the chain of jobs that share the
/// walltime. Behind a live restart the chain waits for its job.
pub fn submit<'m>(
    args: &SimStartArgs,
    sim: &Simulation,
    machine: &'m Machine,
    knobs: &Table<String>,
    cfg: Option<&ConfigMeta>,
    active: Option<(u32, &str)>,
) -> (r: Result<SubmitPlan<'m>, StartError>)
    requires
        cfg matches Some(c) ==> request_computable(
            args.topology,
            machine.name@,
            machine.meta,
            knobs@,
            config_fit(*c),
            forced(*args),
        ),
    ensures
        match submit_fault(
            *args,
            *sim,
            *machine,
            knobs@,
            match cfg {
                Some(c) => Some(*c),
                None => None,
            },
            match active {
                Some(a) => Some((a.0, a.1@)),
                None => None,
            },
        ) {
            Some(f) => r is Err && r->Err_0@ == f,
            None => cfg is Some && r is Ok && {
                let plan = r->Ok_0;
                let meta = machine.meta;
                let fit = config_fit(*cfg->0);
                let queue = plan.topo.queue@;
                let submit = chosen_entry(meta, ScriptKind::Submit, queue, fit.universe);
                let run = chosen_entry(meta, ScriptKind::Run, queue, fit.universe);
                let tasks = default_tasks(args.topology, or_else(submit.1.tasks, run.1.tasks), None);
                let split = segments_of(plan.topo.total_wall, plan.ceiling);
                &&& is_topology(plan.topo, args.topology, meta, knobs@, fit, tasks)
                &&& plan.submit_variant@ == submit.0
                &&& plan.run_variant@ == run.0
                &&& is_chosen_universe(plan.submit_universe, meta, submit_universe_on(meta, queue, fit.universe)->Ok_0)
                &&& is_chosen_universe(
                    plan.run_universe,
                    meta,
                    run_universe_on(meta, *cfg->0, args.universe, queue, fit.universe)->Ok_0,
                )
                &&& plan.ceiling == meta.ceiling(value_of(meta.queues@, queue))
                &&& plan.job_wall == split.1
                &&& plan.checkpt_buffer == buffer_of(args.checkpt_buffer, split.1)
                &&& plan.chain@ == (ChainState {
                    left: split.0 as nat,
                    waits_for: match active {
                        Some(a) => Some(a.1@),
                        None => None,
                    },
                    activates: active is None,
                })
            },
        },
{
    let cfg = match cfg {
        Some(c) => c,
        None => {
            return Err(StartError::NoConfig(sim.meta.configuration.clone()));
        },
    };
    let meta = &machine.meta;
    let fit = QueueFit::from_config(cfg);
    let ghost want = config_fit(*cfg);
    let mut topo = match resolve_topology(&args.topology, machine, knobs, &fit, args.force_queue || args.force) {
        Ok(t) => t,
        Err(e) => {
            return Err(StartError::Topology(e));
        },
    };
    let waits_for: Option<String> = match active {
        Some((id, job)) => {
            if same(job, NO_JOB_ID) {
                return Err(StartError::Stuck(id, sim.name.clone()));
            }
            Some(job.to_owned())
        },
        None => None,
    };
    let universe: &str = match &cfg.universe {
        Some(u) => u.as_str(),
        None => HOST_UNIVERSE,
    };
    let submit_scripts = meta.script_variants(ScriptKind::Submit);
    let run_scripts = meta.script_variants(ScriptKind::Run);
    let (submit_variant, submit_entry) = match submit_scripts.select(&topo.queue, universe, false, None) {
        Ok(v) => v,
        Err(e) => {
            return Err(StartError::Script(e));
        },
    };
    let (run_variant, run_entry) = match run_scripts.select(&topo.queue, universe, false, None) {
        Ok(v) => v,
        Err(e) => {
            return Err(StartError::Script(e));
        },
    };
    let tasks: Option<u32> = or_copy(submit_entry.tasks, run_entry.tasks);
    apply_tasks_default(&mut topo, &args.topology, tasks, None);
    let submit_universe = match resolve_submit_universe(
        meta,
        opt_str(&submit_entry.universe),
        opt_str(&submit_scripts.default_universe),
    ) {
        Ok(u) => u,
        Err(e) => {
            return Err(StartError::Universe(e));
        },
    };
    let run_universe = match resolve_run_universe(
        meta,
        cfg,
        &args.universe,
        opt_str(&run_entry.universe),
        opt_str(&run_scripts.default_universe),
    ) {
        Ok(u) => u,
        Err(e) => {
            return Err(StartError::Universe(e));
        },
    };
    let ceiling = match meta.effective_max_walltime(&topo.queue) {
        Ok(w) => w,
        Err(e) => {
            return Err(StartError::Topology(TopologyError::Resolve(e)));
        },
    };
    let (segments, job_wall) = chain_segments(topo.total_wall, ceiling);
    let chain = Chain { left: segments, activates: waits_for.is_none(), waits_for };
    Ok(
        SubmitPlan {
            topo,
            submit_variant: submit_variant.to_owned(),
            run_variant: run_variant.to_owned(),
            submit_universe,
            run_universe,
            ceiling,
            job_wall,
            checkpt_buffer: choose_buffer(args.checkpt_buffer, job_wall),
            chain,
        },
    )
}

/// The jobs of a chain that are still to be submitted.
#[derive(Debug)]
pub struct Chain {
    /// How many.
    pub left: u32,
    /// The job that the next one waits for.
    pub waits_for: Option<String>,
    /// Whether the next one's restart becomes the active one.
    pub activates: bool,
}

/// The jobs of a chain that are still to be submitted, as values.
pub struct ChainState {
    pub left: nat,
    pub waits_for: Option<Seq<char>>,
    pub activates: bool,
}

impl View for Chain {
    type V = ChainState;

    open spec fn view(&self) -> ChainState {
        ChainState { left: self.left as nat, waits_for: opt_view(self.waits_for), activates: self.activates }
    }
}

/// A chain after its next job was submitted under an id: what follows waits for that job, and the
/// restart that runs first is not it.
pub open spec fn after_job(chain: ChainState, job: Seq<char>) -> ChainState {
    ChainState { left: (chain.left - 1) as nat, waits_for: Some(job), activates: false }
}

/// A chain after several jobs were submitted.
pub open spec fn after_jobs(chain: ChainState, jobs: Seq<Seq<char>>) -> ChainState
    decreases jobs.len(),
{
    if jobs.len() == 0 {
        chain
    } else {
        after_job(after_jobs(chain, jobs.drop_last()), jobs.last())
    }
}

impl Chain {
    /// Whether a job is still to be submitted.
    pub fn more(&self) -> (r: bool)
        ensures
            r == (self@.left > 0),
    {
        self.left > 0
    }

    /// Takes note of the id of the next job.
    pub fn submitted(&mut self, job_id: &str)
        requires
            old(self)@.left > 0,
        ensures
            final(self)@ == after_job(old(self)@, job_id@),
    {
        self.left = self.left - 1;
        self.waits_for = Some(job_id.to_owned());
        self.activates = false;
    }
}

/// Every job of a chain but the first waits for the one before it, and only the restart of the
/// first may become active; each submission leaves one job fewer.
pub proof fn chained_jobs_wait_in_line(chain: ChainState, jobs: Seq<Seq<char>>)
    requires
        0 < jobs.len() <= chain.left,
    ensures
        after_jobs(chain, jobs).waits_for == Some(jobs.last()),
        !after_jobs(chain, jobs).activates,
        after_jobs(chain, jobs).left == chain.left - jobs.len(),
    decreases jobs.len(),
{
    if jobs.len() > 1 {
        chained_jobs_wait_in_line(chain, jobs.drop_last());
    } else {
        reveal_with_fuel(after_jobs, 2);
        assert(jobs.drop_last().len() == 0);
    }
}

/// What the user is told of a submission that waits for a live restart.
pub fn chaining_text(id: u32, job: &str) -> (r: String)
    ensures
        r@ == "Restart "@ + dir_text(id as nat) + " is still live (job "@ + job@
            + "); chaining the new submission behind it"@,
{
    cat5("Restart ", &dir_name(id), " is still live (job ", job, "); chaining the new submission behind it")
}

/// What the user is told of a walltime that is split; nothing where one job is enough.
pub fn splitting_text(plan: &SubmitPlan) -> (r: Option<String>)
    ensures
        r is Some <==> plan.chain@.left > 1,
        r is Some ==> r->0@ == ("Total walltime "@ + plan.topo.total_wall.written() + " exceeds the "@
            + plan.ceiling.written() + " ceiling of queue \""@ + plan.topo.queue@ + "\": pre-submitting "@) + decimal_of(
            plan.chain@.left,
        ) + " chained jobs (§8.8)"@,
{
    if plan.chain.left > 1 {
        let head = cat7(
            "Total walltime ",
            &plan.topo.total_wall.canonical(),
            " exceeds the ",
            &plan.ceiling.canonical(),
            " ceiling of queue \"",
            &plan.topo.queue,
            "\": pre-submitting ",
        );
        Some(cat3(&head, &decimal(plan.chain.left as u64), " chained jobs (§8.8)"))
    } else {
        None
    }
}

/// What the log says of a job that was submitted.
pub fn submitted_text(id: u32, job_id: &str, queue: &str, wall: Walltime, chained: &Option<String>) -> (r: String)
    ensures
        r@ == ("submitted "@ + dir_text(id as nat) + " as job "@ + job_id@ + " (queue "@ + queue@ + ", wall "@)
            + wall.written() + (match chained {
            Some(c) => ", after job "@ + c@,
            None => ""@,
        }) + ")"@,
{
    let head = cat7("submitted ", &dir_name(id), " as job ", job_id, " (queue ", queue, ", wall ");
    let after = match chained {
        Some(c) => cat2(", after job ", c),
        None => "".to_owned(),
    };
    cat4(&head, &wall.canonical(), &after, ")")
}

/// Whether a record is that of a restart that was neither submitted nor run yet.
pub open spec fn is_record(
    r: RestartMeta,
    topo: Topology,
    walltime: Walltime,
    checkpt_buffer: Walltime,
    job_id: Seq<char>,
    chained: Option<Seq<char>>,
    universe: Option<(String, &Universe)>,
    vars: VarSet,
    created: Seq<char>,
) -> bool {
    &&& r.schema == SCHEMA
    &&& r.created@ == created
    &&& r.started is None
    &&& r.finished is None
    &&& r.nodes == topo.nodes
    &&& r.tasks == topo.tasks
    &&& r.tpn == topo.tpn
    &&& r.cpus == topo.cpus
    &&& r.queue@ == topo.queue@
    &&& opt_view(r.allocation) == opt_view(topo.allocation)
    &&& r.walltime == walltime
    &&& r.checkpt_buffer == checkpt_buffer
    &&& r.job_id@ == job_id
    &&& opt_view(r.chained_job_id) == chained
    &&& r.status is None
    &&& !r.terminated
    &&& match universe {
        Some(u) => r.universe matches Some(s) && s.name@ == u.0@ && opt_list(s.wrapper_argv) == opt_list(
            u.1.wrapper_argv,
        ) && s.wrapper == u.1.wrapper,
        None => r.universe is None,
    }
    &&& dict_of(r.vars@) == frozen(var_views(vars.vars@))
}

/// What is recorded of a restart before it is submitted or run. `created` is when it was made.
pub fn restart_record(
    topo: &Topology,
    walltime: Walltime,
    checkpt_buffer: Walltime,
    job_id: &str,
    chained: &Option<String>,
    universe: &Option<(String, &Universe)>,
    vars: &VarSet,
    created: String,
) -> (r: RestartMeta)
    ensures
        is_record(
            r,
            *topo,
            walltime,
            checkpt_buffer,
            job_id@,
            opt_view(*chained),
            *universe,
            *vars,
            created@,
        ),
{
    let recorded = match universe {
        Some(u) => Some(UniverseSpec::from_universe(&u.0, u.1)),
        None => None,
    };
    let allocation = match &topo.allocation {
        Some(a) => Some(a.clone()),
        None => None,
    };
    let chained_job_id = match chained {
        Some(c) => Some(c.clone()),
        None => None,
    };
    RestartMeta {
        schema: SCHEMA,
        created,
        started: None,
        finished: None,
        nodes: topo.nodes,
        tasks: topo.tasks,
        tpn: topo.tpn,
        cpus: topo.cpus,
        queue: topo.queue.clone(),
        allocation,
        walltime,
        checkpt_buffer,
        job_id: job_id.to_owned(),
        chained_job_id,
        status: None,
        terminated: false,
        universe: recorded,
        vars: freeze_vars(vars),
    }
}

/// A script before it is put in place: a template to be filled in, or what a program has written.
#[derive(Debug)]
pub enum ScriptSource {
    Template(String),
    Emitted(String),
}

/// What a script comes to.
pub open spec fn script_made(source: ScriptSource, vars: VarSet, env: Seq<char>, kind: ScriptKind) -> Filled {
    match source {
        ScriptSource::Template(t) => generated(t@, vars, env, kind),
        ScriptSource::Emitted(text) => Filled::Text(text@),
    }
}

fn make_script(
    meta: &Meta,
    kind: ScriptKind,
    source: &ScriptSource,
    vars: &VarSet,
    phase: Phase,
    universe: Option<&str>,
) -> (r: Result<String, TemplateError>)
    ensures
        reports(r, script_made(*source, *vars, meta.env_text(ref_view(universe), phase), kind)),
{
    match source {
        ScriptSource::Template(t) => generate_script(meta, kind, t, vars, phase, universe),
        ScriptSource::Emitted(text) => Ok(text.clone()),
    }
}

/// The record of a restart holds the layout as it is, each number under its own name, with the queue,
/// the walltime, the job, the job that it waits for, and the universe with its wrapper. A restart that
/// is only recorded has neither started nor finished.
pub proof fn records_hold_the_layout(
    r: RestartMeta,
    topo: Topology,
    walltime: Walltime,
    checkpt_buffer: Walltime,
    job_id: Seq<char>,
    chained: Option<Seq<char>>,
    universe: Option<(String, &Universe)>,
    vars: VarSet,
    created: Seq<char>,
)
    requires
        is_record(r, topo, walltime, checkpt_buffer, job_id, chained, universe, vars, created),
    ensures
        r.nodes == topo.nodes,
        r.tasks == topo.tasks,
        r.tpn == topo.tpn,
        r.cpus == topo.cpus,
        r.queue@ == topo.queue@,
        topo.allocation is Some ==> r.allocation is Some && r.allocation->0@ == topo.allocation->0@,
        topo.allocation is None ==> r.allocation is None,
        r.walltime == walltime,
        r.checkpt_buffer == checkpt_buffer,
        r.job_id@ == job_id,
        chained is Some ==> r.chained_job_id is Some && r.chained_job_id->0@ == chained->0,
        chained is None ==> r.chained_job_id is None,
        r.created@ == created,
        r.started is None && r.finished is None && r.status is None && !r.terminated,
        universe is None ==> r.universe is None,
        universe is Some ==> r.universe is Some && (r.universe->0).name@ == (universe->0).0@ && (r.universe->0).wrapper
            == (universe->0).1.wrapper,
{
}

/// A script that a program has written is taken as it is; one that is a template is filled in first,
/// and then gets its setup, so that nothing in the setup is filled in.
pub proof fn written_scripts_are_taken_as_they_are(source: ScriptSource, vars: VarSet, env: Seq<char>, kind: ScriptKind)
    ensures
        source matches ScriptSource::Emitted(text) ==> script_made(source, vars, env, kind) == Filled::Text(text@),
        source matches ScriptSource::Template(t) ==> {
            let text = filled(t@, vars.texts(), vars.env_texts());
            &&& text is Text ==> script_made(source, vars, env, kind) == Filled::Text(
                with_env(text->Text_0, env, kind),
            )
            &&& text !is Text ==> script_made(source, vars, env, kind) == text
        },
{
}

/// The name of a universe that was chosen.
pub open spec fn name_of(u: Option<(String, &Universe)>) -> Option<Seq<char>> {
    match u {
        Some(v) => Some(v.0@),
        None => None,
    }
}

/// The value of a universe that was chosen.
pub open spec fn choice_of(u: Option<(String, &Universe)>) -> Option<Universe> {
    match u {
        Some(v) => Some(*v.1),
        None => None,
    }
}

fn chosen_name<'a>(u: &'a Option<(String, &Universe)>) -> (r: Option<&'a str>)
    ensures
        ref_view(r) == name_of(*u),
{
    match u {
        Some(v) => Some(v.0.as_str()),
        None => None,
    }
}

/// The variables of a submission: those of the run, with the environment of the submission in place of
/// the run's.
pub fn submit_vars(vars: &VarSet, meta: &Meta, universe: Option<&str>) -> (r: VarSet)
    ensures
        var_views(r.vars@) == inserted(
            var_views(vars.vars@),
            "ENV_SETUP"@,
            VarText::Str(meta.env_text(ref_view(universe), Phase::Submit)),
        ),
        r.env@ == vars.env@,
{
    let mut out = vars.copy();
    let value = VarValue::Str(meta.effective_env(universe, Phase::Submit));
    proof {
        lemma_mapped(vars.vars@, |v: VarValue| v@, "ENV_SETUP"@, value);
    }
    out.set("ENV_SETUP", value);
    out
}

/// One job of a submission: what is put in place for it, and how it is submitted.
pub struct Segment {
    pub submit_script: String,
    pub run_script: String,
    pub record: RestartMeta,
    /// Whether its restart becomes the active one.
    pub activates: bool,
    pub command: Result<WrappedCommand, SchedulerError>,
}

/// Prepares the next job of a submission, given the variables of its restart and of its submission:
/// the scripts, filled in and with the environments of their phases; the record, which waits for the
/// job before it; and the command.
pub fn segment(
    plan: &SubmitPlan,
    meta: &Meta,
    vars: &VarSet,
    submit_vars: &VarSet,
    submit_source: &ScriptSource,
    run_source: &ScriptSource,
    created: String,
) -> (r: Result<Segment, TemplateError>)
    ensures
        match script_made(
            *submit_source,
            *submit_vars,
            meta.env_text(name_of(plan.submit_universe), Phase::Submit),
            ScriptKind::Submit,
        ) {
            Filled::Text(submit_script) => match script_made(
                *run_source,
                *vars,
                meta.env_text(name_of(plan.run_universe), Phase::Run),
                ScriptKind::Run,
            ) {
                Filled::Text(run_script) => r matches Ok(s) && {
                    &&& s.submit_script@ == submit_script
                    &&& s.run_script@ == run_script
                    &&& is_record(
                        s.record,
                        plan.topo,
                        plan.job_wall,
                        plan.checkpt_buffer,
                        NO_JOB_ID@,
                        plan.chain@.waits_for,
                        plan.run_universe,
                        *vars,
                        created@,
                    )
                    &&& s.activates == plan.chain@.activates
                    &&& match command_wrapped(
                        command_text(
                            *meta,
                            "submit"@,
                            opt_text(meta.scheduler.submit),
                            *submit_vars,
                            name_of(plan.submit_universe),
                        ),
                        choice_of(plan.submit_universe),
                        *submit_vars,
                    ) {
                        Ok(w) => s.command is Ok && s.command->Ok_0@ == w,
                        Err(f) => s.command is Err && s.command->Err_0@ == f,
                    }
                },
                failure => r matches Err(e) && e@ == failure,
            },
            failure => r matches Err(e) && e@ == failure,
        },
{
    let submit_script = match make_script(
        meta,
        ScriptKind::Submit,
        submit_source,
        submit_vars,
        Phase::Submit,
        chosen_name(&plan.submit_universe),
    ) {
        Ok(t) => t,
        Err(e) => {
            return Err(e);
        },
    };
    let run_script = match make_script(
        meta,
        ScriptKind::Run,
        run_source,
        vars,
        Phase::Run,
        chosen_name(&plan.run_universe),
    ) {
        Ok(t) => t,
        Err(e) => {
            return Err(e);
        },
    };
    let record = restart_record(
        &plan.topo,
        plan.job_wall,
        plan.checkpt_buffer,
        NO_JOB_ID,
        &plan.chain.waits_for,
        &plan.run_universe,
        vars,
        created,
    );
    let universe = match &plan.submit_universe {
        Some(u) => Some((u.0.as_str(), u.1)),
        None => None,
    };
    let command = Scheduler::new(meta).submit(submit_vars, universe);
    Ok(Segment { submit_script, run_script, record, activates: plan.chain.activates, command })
}

/// What stands against a run in the foreground, given the active restart. In this order: the
/// configuration is gone; the layout is refused; a restart is active; no script serves the queue; or
/// the universe cannot be had.
pub open spec fn run_fault(
    args: SimStartArgs,
    sim: Simulation,
    machine: Machine,
    knobs: Seq<(Seq<char>, String)>,
    cfg: Option<ConfigMeta>,
    active: Option<u32>,
) -> Option<StartFault> {
    match cfg {
        None => Some(StartFault::NoConfig(sim.meta.configuration@)),
        Some(cfg) => {
            let meta = machine.meta;
            let fit = config_fit(cfg);
            let queue = queue_of(args.topology, meta, knobs, fit.universe)->0;
            match topology_fault(args.topology, machine.name@, meta, knobs, fit, forced(args)) {
                Some(f) => Some(StartFault::Topology(f)),
                None => if active is Some {
                    Some(StartFault::Busy(sim.name@, active->0 as nat))
                } else {
                    match script_choice(meta, ScriptKind::Run, queue, fit.universe) {
                        Selection::Refused(f) => Some(StartFault::Script(f)),
                        _ => match run_universe_on(meta, cfg, args.universe, queue, fit.universe) {
                            Err(f) => Some(StartFault::Universe(f)),
                            _ => None,
                        },
                    }
                },
            }
        },
    }
}

/// How a run in the foreground goes about it.
pub struct RunPlan<'m> {
    pub topo: Topology,
    pub run_variant: String,
    pub run_universe: Option<(String, &'m Universe)>,
    pub job_wall: Walltime,
    pub checkpt_buffer: Walltime,
}

/// The shorter of two walltimes.
pub open spec fn shorter(a: Walltime, b: Walltime) -> Walltime {
    if b.0 < a.0 {
        b
    } else {
        a
    }
}

/// Plans a run in the foreground: the layout, the script and the universe. It is given the whole
/// walltime, but no more than the ceiling of the queue.
pub fn run<'m>(
    args: &SimStartArgs,
    sim: &Simulation,
    machine: &'m Machine,
    knobs: &Table<String>,
    cfg: Option<&ConfigMeta>,
    active: Option<u32>,
) -> (r: Result<RunPlan<'m>, StartError>)
    requires
        cfg matches Some(c) ==> request_computable(
            args.topology,
            machine.name@,
            machine.meta,
            knobs@,
            config_fit(*c),
            forced(*args),
        ),
    ensures
        match run_fault(
            *args,
            *sim,
            *machine,
            knobs@,
            match cfg {
                Some(c) => Some(*c),
                None => None,
            },
            active,
        ) {
            Some(f) => r is Err && r->Err_0@ == f,
            None => cfg is Some && r is Ok && {
                let plan = r->Ok_0;
                let meta = machine.meta;
                let fit = config_fit(*cfg->0);
                let queue = plan.topo.queue@;
                let run = chosen_entry(meta, ScriptKind::Run, queue, fit.universe);
                let wall = shorter(plan.topo.total_wall, meta.ceiling(value_of(meta.queues@, queue)));
                &&& is_topology(
                    plan.topo,
                    args.topology,
                    meta,
                    knobs@,
                    fit,
                    default_tasks(args.topology, run.1.tasks, None),
                )
                &&& plan.run_variant@ == run.0
                &&& is_chosen_universe(
                    plan.run_universe,
                    meta,
                    run_universe_on(meta, *cfg->0, args.universe, queue, fit.universe)->Ok_0,
                )
                &&& plan.job_wall == wall
                &&& plan.checkpt_buffer == buffer_of(args.checkpt_buffer, wall)
            },
        },
{
    let cfg = match cfg {
        Some(c) => c,
        None => {
            return Err(StartError::NoConfig(sim.meta.configuration.clone()));
        },
    };
    let meta = &machine.meta;
    let fit = QueueFit::from_config(cfg);
    let mut topo = match resolve_topology(&args.topology, machine, knobs, &fit, args.force_queue || args.force) {
        Ok(t) => t,
        Err(e) => {
            return Err(StartError::Topology(e));
        },
    };
    if let Some(id) = active {
        return Err(StartError::Busy(sim.name.clone(), id));
    }
    let universe: &str = match &cfg.universe {
        Some(u) => u.as_str(),
        None => HOST_UNIVERSE,
    };
    let scripts = meta.script_variants(ScriptKind::Run);
    let (variant, entry) = match scripts.select(&topo.queue, universe, false, None) {
        Ok(v) => v,
        Err(e) => {
            return Err(StartError::Script(e));
        },
    };
    apply_tasks_default(&mut topo, &args.topology, entry.tasks, None);
    let run_universe = match resolve_run_universe(
        meta,
        cfg,
        &args.universe,
        opt_str(&entry.universe),
        opt_str(&scripts.default_universe),
    ) {
        Ok(u) => u,
        Err(e) => {
            return Err(StartError::Universe(e));
        },
    };
    let ceiling = match meta.effective_max_walltime(&topo.queue) {
        Ok(w) => w,
        Err(e) => {
            return Err(StartError::Topology(TopologyError::Resolve(e)));
        },
    };
    let job_wall = if ceiling.0 < topo.total_wall.0 { ceiling } else { topo.total_wall };
    Ok(
        RunPlan {
            topo,
            run_variant: variant.to_owned(),
            run_universe,
            job_wall,
            checkpt_buffer: choose_buffer(args.checkpt_buffer, job_wall),
        },
    )
}

/// Nothing is submitted for a simulation whose configuration is gone, nor behind a restart that is
/// active without a job; what stands against the layout comes before the second.
pub proof fn submissions_are_refused_for_cause(
    args: SimStartArgs,
    sim: Simulation,
    machine: Machine,
    knobs: Seq<(Seq<char>, String)>,
    cfg: Option<ConfigMeta>,
    active: Option<(u32, Seq<char>)>,
)
    ensures
        ({
            let f = submit_fault(args, sim, machine, knobs, cfg, active);
            let layout = topology_fault(
                args.topology,
                machine.name@,
                machine.meta,
                knobs,
                config_fit(cfg->0),
                args.force_queue || args.force,
            );
            &&& cfg is None <==> f == Some(StartFault::NoConfig(sim.meta.configuration@))
            &&& cfg is Some && layout is Some ==> f == Some(StartFault::Topology(layout->0))
            &&& cfg is Some && layout is None && active is Some && (active->0).1 == NO_JOB_ID@ ==> f == Some(
                StartFault::Stuck((active->0).0 as nat, sim.name@),
            )
            &&& f matches Some(StartFault::Topology(_)) ==> layout is Some
            &&& f matches Some(StartFault::Stuck(_, _)) ==> active is Some && (active->0).1 == NO_JOB_ID@
            &&& !(f matches Some(StartFault::Busy(_, _)))
        }),
{
}

/// Nothing is run in the foreground for a simulation whose configuration is gone, nor beside an active
/// restart, whatever its job; what stands against the layout comes before the second.
pub proof fn runs_are_refused_for_cause(
    args: SimStartArgs,
    sim: Simulation,
    machine: Machine,
    knobs: Seq<(Seq<char>, String)>,
    cfg: Option<ConfigMeta>,
    active: Option<u32>,
)
    ensures
        ({
            let f = run_fault(args, sim, machine, knobs, cfg, active);
            let layout = topology_fault(
                args.topology,
                machine.name@,
                machine.meta,
                knobs,
                config_fit(cfg->0),
                args.force_queue || args.force,
            );
            &&& cfg is None <==> f == Some(StartFault::NoConfig(sim.meta.configuration@))
            &&& cfg is Some && layout is Some ==> f == Some(StartFault::Topology(layout->0))
            &&& cfg is Some && layout is None && active is Some ==> f == Some(
                StartFault::Busy(sim.name@, active->0 as nat),
            )
            &&& f is None ==> active is None
            &&& !(f matches Some(StartFault::Stuck(_, _)))
        }),
{
}

/// A job writes its checkpoint as long before its end as is asked for; where nothing is, so long that
/// it is at least ten minutes, and at least a part in 24 of its walltime, and no longer than it takes
/// for both. A run in the foreground is given the walltime or the ceiling, whichever is less.
pub proof fn jobs_keep_time_for_their_checkpoint(flag: Option<Walltime>, wall: Walltime, ceiling: Walltime)
    ensures
        flag is Some ==> buffer_of(flag, wall) == flag->0,
        flag is None ==> {
            let b = buffer_of(flag, wall).0;
            b >= 600 && b * 24 + 23 >= wall.0 && (b == 600 || b * 24 <= wall.0)
        },
        shorter(wall, ceiling).0 <= wall.0 && shorter(wall, ceiling).0 <= ceiling.0,
        shorter(wall, ceiling) == wall || shorter(wall, ceiling) == ceiling,
{
}

/// Prepares a run in the foreground, given the variables of its restart: the script, filled in and with
/// the environment of its phase; and the record, whose job is the process itself.
pub fn foreground(
    plan: &RunPlan,
    meta: &Meta,
    vars: &VarSet,
    run_source: &ScriptSource,
    pid: u32,
    created: String,
) -> (r: Result<(String, RestartMeta), TemplateError>)
    ensures
        match script_made(
            *run_source,
            *vars,
            meta.env_text(name_of(plan.run_universe), Phase::Run),
            ScriptKind::Run,
        ) {
            Filled::Text(run_script) => r matches Ok(p) && p.0@ == run_script && is_record(
                p.1,
                plan.topo,
                plan.job_wall,
                plan.checkpt_buffer,
                decimal_of(pid as nat),
                None,
                plan.run_universe,
                *vars,
                created@,
            ),
            failure => r matches Err(e) && e@ == failure,
        },
{
    let run_script = match make_script(
        meta,
        ScriptKind::Run,
        run_source,
        vars,
        Phase::Run,
        chosen_name(&plan.run_universe),
    ) {
        Ok(t) => t,
        Err(e) => {
            return Err(e);
        },
    };
    let record = restart_record(
        &plan.topo,
        plan.job_wall,
        plan.checkpt_buffer,
        &decimal(pid as u64),
        &None,
        &plan.run_universe,
        vars,
        created,
    );
    Ok((run_script, record))
}

/// The shell command that runs a stored script: the file itself where its first line names an
/// interpreter, else by `/bin/sh`.
pub open spec fn script_text(path: Seq<char>, text: Seq<char>) -> Seq<char> {
    if begins_with(text, "#!"@) {
        quoted(path)
    } else {
        "/bin/sh "@ + quoted(path)
    }
}

/// A script whose first line names an interpreter is run as the file that it is, and any other by the
/// shell; the path is quoted either way.
pub proof fn scripts_are_run_by_their_interpreter(path: Seq<char>, text: Seq<char>)
    ensures
        text.len() >= 2 && text[0] == '#' && text[1] == '!' ==> script_text(path, text) == quoted(path),
        !(text.len() >= 2 && text[0] == '#' && text[1] == '!') ==> script_text(path, text) == "/bin/sh "@ + quoted(path),
{
    reveal_strlit("#!");
    if begins_with(text, "#!"@) {
        assert(text.take(2)[0] == "#!"@[0]);
        assert(text.take(2)[1] == "#!"@[1]);
    }
    if text.len() >= 2 && text[0] == '#' && text[1] == '!' {
        assert(text.take(2) =~= "#!"@);
    }
}

/// The command that runs a stored script in a universe; bare where there is none.
pub fn script_command(path: &str, text: &str, universe: Option<&Universe>, vars: &VarSet) -> (r: Result<
    WrappedCommand,
    WrapError,
>)
    ensures
        match universe {
            None => r is Ok && r->Ok_0@ == Wrapped::Shell(script_text(path@, text@)),
            Some(u) => match wrapped(*u, *vars, script_text(path@, text@)) {
                Ok(w) => r is Ok && r->Ok_0@ == w,
                Err(f) => r is Err && r->Err_0@ == f,
            },
        },
{
    let inner = if starts(text, "#!") {
        shell_quote(path)
    } else {
        cat2("/bin/sh ", &shell_quote(path))
    };
    match universe {
        None => Ok(WrappedCommand::Shell(inner)),
        Some(u) => u.wrap(vars, &inner),
    }
}

/// How a run ended.
#[derive(Debug)]
pub enum RunEnd {
    Success,
    /// The script failed; its status in words.
    Failure(String),
    /// The script did not start; the reason.
    NotStarted(String),
}

/// What the log says of the end of a run.
pub fn end_text(id: u32, end: &RunEnd) -> (r: String)
    ensures
        r@ == (match end {
            RunEnd::Success => dir_text(id as nat) + " finished"@,
            RunEnd::Failure(status) => dir_text(id as nat) + " failed ("@ + status@ + ")"@,
            RunEnd::NotStarted(reason) => dir_text(id as nat) + " failed to start: "@ + reason@,
        }),
{
    match end {
        RunEnd::Success => cat2(&dir_name(id), " finished"),
        RunEnd::Failure(status) => cat4(&dir_name(id), " failed (", status, ")"),
        RunEnd::NotStarted(reason) => cat3(&dir_name(id), " failed to start: ", reason),
    }
}

/// What the end of a run means for the command that made it: nothing is wrong only where the script
/// succeeded.
pub fn execute_restart(end: &RunEnd) -> (r: Result<(), String>)
    ensures
        match end {
            RunEnd::Success => r is Ok,
            RunEnd::Failure(status) => r is Err && r->Err_0@ == "the run-script exited unsuccessfully ("@ + status@
                + ")"@,
            RunEnd::NotStarted(reason) => r is Err && r->Err_0@ == reason@,
        },
{
    match end {
        RunEnd::Success => Ok(()),
        RunEnd::Failure(status) => Err(cat3("the run-script exited unsuccessfully (", status, ")")),
        RunEnd::NotStarted(reason) => Err(reason.clone()),
    }
}

/// Whether the heartbeat is due, so many seconds after the start of a run: a whole period has gone
/// by since the last one, whose number is given. Gives the number of this one.
pub fn beat(elapsed: u64, period: u64, last: u64) -> (r: Option<u64>)
    requires
        period > 0,
    ensures
        r is Some <==> elapsed / period > last,
        r is Some ==> r->0 == elapsed / period,
{
    let n: u64 = elapsed / period;
    if n > last {
        Some(n)
    } else {
        None
    }
}

/// A script runs in a universe of its own kind: the submit script where the chosen submit variant says,
/// or else all submit scripts; the run script where the chosen run variant says, or else all run scripts.
pub proof fn scripts_run_in_universes_of_their_kind(
    meta: Meta,
    cfg: ConfigMeta,
    cli: UniverseFlags,
    queue: Seq<char>,
    universe: Seq<char>,
    i: int,
)
    ensures
        ({
            let submit = meta.variants.submitscript;
            selection(submit.variants@, queue, universe, false, None) == Selection::Chosen(i) ==> {
                &&& chosen_entry(meta, ScriptKind::Submit, queue, universe) == submit.variants@[i]
                &&& submit_universe_on(meta, queue, universe) == script_universe(
                    meta,
                    opt_view(submit.variants@[i].1.universe),
                    opt_view(submit.default_universe),
                )
            }
        }),
        ({
            let run = meta.variants.runscript;
            selection(run.variants@, queue, universe, false, None) == Selection::Chosen(i) ==> {
                &&& chosen_entry(meta, ScriptKind::Run, queue, universe) == run.variants@[i]
                &&& run_universe_on(meta, cfg, cli, queue, universe) == run_universe(
                    meta,
                    cfg,
                    cli,
                    opt_view(run.variants@[i].1.universe),
                    opt_view(run.default_universe),
                )
            }
        }),
{
}

/// A name stands for the universe that the machine declares under it; one that it does not declare
/// stands for a universe that changes nothing: no kind, no wrapper, no environment.
pub proof fn names_stand_for_declared_universes(meta: Meta, name: Seq<char>, u: Universe)
    ensures
        has_name(meta.universes@, name) ==> (is_universe(meta, name, u) <==> u == value_of(meta.universes@, name)),
        !has_name(meta.universes@, name) ==> (is_universe(meta, name, u) <==> {
            &&& u.kind is None && u.wrapper is None && u.wrapper_argv is None
            &&& u.environment.env_setup is None && u.environment.env_build_setup is None
            &&& u.environment.env_submit_setup is None && u.environment.env_run_setup is None
        }),
{
}

} // verus!
