//! Simulations: what a simulation's directory holds, and the checks that creating one makes.

pub mod cache;
pub mod manage;
pub mod restart;
pub mod start;
pub mod vars;

use crate::clock::{format_utc, utc_text, LOG_TIME, NAME_TIME};
use crate::mdb::meta::opt_view;
use crate::text::{
    cat2, cat3, cat4, cat5, cat7, chars_of, decimal, decimal_of, ends, ends_with, joined, path_join, path_of, same,
    string_of, views,
};
use vstd::prelude::*;

verus! {

/// The newest layout of the metadata files that this library knows.
pub const SCHEMA: u32 = 1;

/// What is recorded of a simulation when it is created.
#[derive(Debug)]
pub struct SimulationMeta {
    pub schema: u32,
    pub machine: String,
    pub simulation_id: String,
    /// The Cactus root that the configuration was built from.
    pub sourcedir: String,
    pub configuration: String,
    pub config_id: String,
    pub build_id: String,
    /// The simulation's own copy of the program.
    pub executable: String,
    /// The name of the optionlist's copy; empty where there is none.
    pub optionlist: String,
    /// The name of the thornlist's copy; empty where there is none.
    pub thornlist: String,
    /// The name of the parameter file's copy.
    pub parfile: String,
    /// The alias of the installation.
    pub alias: String,
}

/// A simulation and its directory.
#[derive(Debug)]
pub struct Simulation {
    pub name: String,
    pub dir: String,
    pub meta: SimulationMeta,
}

/// A parameter file's name without its one `.par` or `.py`.
pub open spec fn stem_of(basename: Seq<char>) -> Seq<char> {
    if ends_with(basename, ".par"@) {
        basename.take(basename.len() - 4)
    } else if ends_with(basename, ".py"@) {
        basename.take(basename.len() - 3)
    } else {
        basename
    }
}

/// A parameter file's name without its one `.par` or `.py`; other dots stay.
pub fn parfile_stem(basename: &str) -> (r: String)
    ensures
        r@ == stem_of(basename@),
{
    let cs = chars_of(basename);
    proof {
        reveal_strlit(".par");
        reveal_strlit(".py");
    }
    if ends(basename, ".par") {
        let r = string_of(&cs, 0, cs.len() - 4);
        assert(r@ == basename@.take(basename@.len() - 4));
        r
    } else if ends(basename, ".py") {
        let r = string_of(&cs, 0, cs.len() - 3);
        assert(r@ == basename@.take(basename@.len() - 3));
        r
    } else {
        basename.to_owned()
    }
}

impl Simulation {
    /// Where the simulation's own bookkeeping stands, as text.
    pub open spec fn own_dir(self) -> Seq<char> {
        path_of(self.dir@, ".cactup"@)
    }

    /// Where the simulation's own bookkeeping stands.
    pub fn cactup_dir(&self) -> (r: String)
        ensures
            r@ == self.own_dir(),
    {
        path_join(&self.dir, ".cactup")
    }

    /// The simulation's own copy of the program.
    pub fn exe(&self) -> (r: String)
        ensures
            r@ == path_of(self.own_dir(), "exe"@),
    {
        path_join(&self.cactup_dir(), "exe")
    }

    /// The simulation's own copy of the parameter file.
    pub fn master_parfile(&self) -> (r: String)
        ensures
            r@ == path_of(path_of(self.own_dir(), "par"@), self.meta.parfile@),
    {
        path_join(&path_join(&self.cactup_dir(), "par"), &self.meta.parfile)
    }

    /// The parameter file's name without its extension.
    pub fn parfile_stem(&self) -> (r: String)
        ensures
            r@ == stem_of(self.meta.parfile@),
    {
        parfile_stem(&self.meta.parfile)
    }

    /// Whether the parameter file is a program that writes it.
    pub fn is_python_parfile(&self) -> (r: bool)
        ensures
            r == ends_with(self.meta.parfile@, ".py"@),
    {
        ends(&self.meta.parfile, ".py")
    }

    /// The simulation's log.
    pub fn log_path(&self) -> (r: String)
        ensures
            r@ == path_of(self.dir@, "log.txt"@),
    {
        path_join(&self.dir, "log.txt")
    }

    /// Where the metadata stands.
    pub fn meta_path(&self) -> (r: String)
        ensures
            r@ == path_of(self.own_dir(), "simulation.toml"@),
    {
        path_join(&self.cactup_dir(), "simulation.toml")
    }

    /// The file whose presence locks the simulation.
    pub fn lock(&self) -> (r: String)
        ensures
            r@ == path_of(self.own_dir(), "sim.lock"@),
    {
        path_join(&self.cactup_dir(), "sim.lock")
    }
}

/// One line of a simulation's log, given the moment as text.
pub open spec fn log_text(time: Seq<char>, command: Seq<char>, message: Seq<char>) -> Seq<char> {
    "[LOG:"@ + time + "] "@ + command + "::"@ + message + "\n"@
}

/// One line of a simulation's log, given the moment as text.
pub fn log_line_at(time: &str, command: &str, message: &str) -> (r: String)
    ensures
        r@ == log_text(time@, command@, message@),
{
    cat7("[LOG:", time, "] ", command, "::", message, "\n")
}

/// One line of a simulation's log; nothing where the moment is out of the calendar's range.
pub fn log_line(seconds: i64, command: &str, message: &str) -> (r: Option<String>)
    ensures
        match utc_text(seconds as int, LOG_TIME@) {
            Some(t) => r is Some && r->0@ == log_text(t, command@, message@),
            None => r is None,
        },
{
    match format_utc(seconds, LOG_TIME) {
        Some(t) => Some(log_line_at(&t, command, message)),
        None => None,
    }
}

/// The id of a simulation, given the moment as text.
pub open spec fn id_text(
    name: Seq<char>,
    machine: Seq<char>,
    hostname: Seq<char>,
    user: Seq<char>,
    time: Seq<char>,
    pid: nat,
) -> Seq<char> {
    ("simulation-"@ + name + "-"@ + machine + "-"@ + hostname + "-"@) + user + "-"@ + time + "-"@ + decimal_of(pid)
}

/// The id of a simulation, given the moment as text.
pub fn simulation_id_at(name: &str, machine: &str, hostname: &str, user: &str, time: &str, pid: u32) -> (r: String)
    ensures
        r@ == id_text(name@, machine@, hostname@, user@, time@, pid as nat),
{
    let head = cat7("simulation-", name, "-", machine, "-", hostname, "-");
    cat2(&cat5(&head, user, "-", time, "-"), &decimal(pid as u64))
}

/// The id of a simulation that is created at a moment; nothing where the moment is out of the
/// calendar's range.
pub fn simulation_id(name: &str, machine: &str, hostname: &str, user: &str, seconds: i64, pid: u32) -> (r: Option<
    String,
>)
    ensures
        match utc_text(seconds as int, NAME_TIME@) {
            Some(t) => r is Some && r->0@ == id_text(name@, machine@, hostname@, user@, t, pid as nat),
            None => r is None,
        },
{
    match format_utc(seconds, NAME_TIME) {
        Some(t) => Some(simulation_id_at(name, machine, hostname, user, &t, pid)),
        None => None,
    }
}

/// Whether the stem of a parameter file would collide with the simulation's bookkeeping.
pub open spec fn is_reserved(stem: Seq<char>) -> bool {
    stem == ".cactup"@ || stem == "exe"@ || stem == "cfg"@ || stem == "par"@
}

/// Why a simulation cannot be created.
pub enum CreateFault {
    NoFileName(Seq<char>),
    Extension(Seq<char>),
    EmptyStem(Seq<char>),
    Reserved(Seq<char>),
    NoParfile(Seq<char>),
    NoConfig,
    InFlight(Seq<char>, Seq<char>),
    NeverBuilt(Seq<char>),
    NoExecutable(Seq<char>, Seq<char>),
    Racing(Seq<char>),
    Exists(Seq<char>, Seq<char>),
    DirExists(Seq<char>),
}

/// Why a simulation cannot be created.
#[derive(Debug)]
pub enum CreateError {
    /// The path names no file.
    NoFileName(String),
    /// The parameter file ends in neither `.par` nor `.py`.
    Extension(String),
    /// The parameter file has nothing but an extension.
    EmptyStem(String),
    /// The parameter file's stem is taken by the simulation's bookkeeping.
    Reserved(String),
    /// The parameter file does not exist.
    NoParfile(String),
    /// No configuration is named, and none is active.
    NoConfig,
    /// A build of the configuration is going on; what it is, and the configuration.
    InFlight(String, String),
    NeverBuilt(String),
    /// The configuration has no program at this path.
    NoExecutable(String, String),
    /// A build may be replacing the program.
    Racing(String),
    /// There is a simulation of the name, in this directory.
    Exists(String, String),
    /// The directory is there already.
    DirExists(String),
}

impl View for CreateError {
    type V = CreateFault;

    open spec fn view(&self) -> CreateFault {
        match *self {
            CreateError::NoFileName(p) => CreateFault::NoFileName(p@),
            CreateError::Extension(p) => CreateFault::Extension(p@),
            CreateError::EmptyStem(p) => CreateFault::EmptyStem(p@),
            CreateError::Reserved(s) => CreateFault::Reserved(s@),
            CreateError::NoParfile(p) => CreateFault::NoParfile(p@),
            CreateError::NoConfig => CreateFault::NoConfig,
            CreateError::InFlight(phrase, config) => CreateFault::InFlight(phrase@, config@),
            CreateError::NeverBuilt(config) => CreateFault::NeverBuilt(config@),
            CreateError::NoExecutable(config, path) => CreateFault::NoExecutable(config@, path@),
            CreateError::Racing(phrase) => CreateFault::Racing(phrase@),
            CreateError::Exists(name, dir) => CreateFault::Exists(name@, dir@),
            CreateError::DirExists(dir) => CreateFault::DirExists(dir@),
        }
    }
}

impl CreateError {
    /// The message for the user, as text.
    pub open spec fn text(self) -> Seq<char> {
        match self {
            CreateError::NoFileName(p) => "parfile path "@ + p@ + " has no valid file name"@,
            CreateError::Extension(p) => "parfile "@ + p@
                + " must end in .par (literal @NAME@ substitution) or .py (computed)"@,
            CreateError::EmptyStem(p) => "parfile "@ + p@ + " has an empty basename"@,
            CreateError::Reserved(s) => "parfile basename \""@ + s@
                + "\" is reserved (one of: .cactup, exe, cfg, par) — it would collide with cactup's metadata entries"@,
            CreateError::NoParfile(p) => "parfile "@ + p@ + " does not exist"@,
            CreateError::NoConfig => "no configuration given and none is active"@,
            CreateError::InFlight(phrase, config) => phrase@ + " — wait for it to finish (`cactup build log "@
                + config@ + "` / `cactup build show "@ + config@ + "`)"@,
            CreateError::NeverBuilt(config) => "config \""@ + config@
                + "\" has never been built (see `cactup config list`)"@,
            CreateError::NoExecutable(config, path) => "config \""@ + config@ + "\" has no executable at "@ + path@
                + " — build it first (`cactup build "@ + config@ + "`)"@,
            CreateError::Racing(phrase) => phrase@
                + " — hard-linking its executable while a build may still be replacing it risks freezing a corrupted copy into this simulation; wait for it to finish, or pass -f to proceed anyway"@,
            CreateError::Exists(name, dir) => "simulation \""@ + name@ + "\" already exists at "@ + dir@
                + " (use -f to replace it)"@,
            CreateError::DirExists(dir) => "directory "@ + dir@ + " already exists (use -f to replace it)"@,
        }
    }

    /// The message for the user.
    pub fn message(&self) -> (r: String)
        ensures
            r@ == self.text(),
    {
        match self {
            CreateError::NoFileName(p) => cat3("parfile path ", p, " has no valid file name"),
            CreateError::Extension(p) => cat3(
                "parfile ",
                p,
                " must end in .par (literal @NAME@ substitution) or .py (computed)",
            ),
            CreateError::EmptyStem(p) => cat3("parfile ", p, " has an empty basename"),
            CreateError::Reserved(s) => cat3(
                "parfile basename \"",
                s,
                "\" is reserved (one of: .cactup, exe, cfg, par) — it would collide with cactup's metadata entries",
            ),
            CreateError::NoParfile(p) => cat3("parfile ", p, " does not exist"),
            CreateError::NoConfig => "no configuration given and none is active".to_owned(),
            CreateError::InFlight(phrase, config) => cat2(
                &cat5(phrase, " — wait for it to finish (`cactup build log ", config, "` / `cactup build show ", config),
                "`)",
            ),
            CreateError::NeverBuilt(config) => cat3(
                "config \"",
                config,
                "\" has never been built (see `cactup config list`)",
            ),
            CreateError::NoExecutable(config, path) => cat7(
                "config \"",
                config,
                "\" has no executable at ",
                path,
                " — build it first (`cactup build ",
                config,
                "`)",
            ),
            CreateError::Racing(phrase) => cat2(
                phrase,
                " — hard-linking its executable while a build may still be replacing it risks freezing a corrupted copy into this simulation; wait for it to finish, or pass -f to proceed anyway",
            ),
            CreateError::Exists(name, dir) => cat5(
                "simulation \"",
                name,
                "\" already exists at ",
                dir,
                " (use -f to replace it)",
            ),
            CreateError::DirExists(dir) => cat3("directory ", dir, " already exists (use -f to replace it)"),
        }
    }
}

/// What the check of a parameter file comes to: the first rule that it breaks, if any. `shown` is
/// the path as the user gave it, and `basename` its last part, where it has one.
pub open spec fn parfile_fault(shown: Seq<char>, basename: Option<Seq<char>>, is_file: bool) -> Option<CreateFault> {
    match basename {
        None => Some(CreateFault::NoFileName(shown)),
        Some(base) => {
            let stem = stem_of(base);
            if !ends_with(base, ".par"@) && !ends_with(base, ".py"@) {
                Some(CreateFault::Extension(shown))
            } else if stem.len() == 0 {
                Some(CreateFault::EmptyStem(shown))
            } else if is_reserved(stem) {
                Some(CreateFault::Reserved(stem))
            } else if !is_file {
                Some(CreateFault::NoParfile(shown))
            } else {
                None
            }
        },
    }
}

/// A parameter file's name loses its ending, once, and other names lose nothing.
pub proof fn stems_lose_one_ending(stem: Seq<char>)
    ensures
        stem_of(stem + ".par"@) == stem,
        stem_of(stem + ".py"@) == stem,
        !ends_with(stem, ".par"@) && !ends_with(stem, ".py"@) ==> stem_of(stem) == stem,
{
    reveal_strlit(".par");
    reveal_strlit(".py");
    let a = stem + ".par"@;
    assert(a.skip(a.len() - 4) =~= ".par"@);
    assert(a.take(a.len() - 4) =~= stem);
    let b = stem + ".py"@;
    assert(b.skip(b.len() - 3) =~= ".py"@);
    assert(b.take(b.len() - 3) =~= stem);
    if ends_with(b, ".par"@) {
        assert(b.skip(b.len() - 4)[3] == ".par"@[3]);
        assert(b[b.len() - 1] == 'y');
    }
}

/// A parameter file is taken only where it is a file whose name ends in `.par` or `.py`, with more in
/// front of that than the names that the bookkeeping has for itself; and it is refused only where one
/// of these is not so.
pub proof fn parameter_files_are_checked(shown: Seq<char>, base: Seq<char>, is_file: bool)
    ensures
        ({
            let f = parfile_fault(shown, Some(base), is_file);
            let ended = ends_with(base, ".par"@) || ends_with(base, ".py"@);
            let stem = stem_of(base);
            let taken = stem == ".cactup"@ || stem == "exe"@ || stem == "cfg"@ || stem == "par"@;
            &&& f is None <==> ended && stem.len() > 0 && !taken && is_file
            &&& !ended <==> f == Some(CreateFault::Extension(shown))
            &&& ended && stem.len() == 0 ==> f == Some(CreateFault::EmptyStem(shown))
            &&& ended && stem.len() > 0 && taken ==> f == Some(CreateFault::Reserved(stem))
            &&& ended && stem.len() > 0 && !taken && !is_file ==> f == Some(CreateFault::NoParfile(shown))
        }),
        parfile_fault(shown, None, is_file) == Some(CreateFault::NoFileName(shown)),
{
}

/// Checks a parameter file and gives its name with and without the extension.
pub fn validate_parfile(shown: &str, basename: Option<&str>, is_file: bool) -> (r: Result<
    (String, String),
    CreateError,
>)
    ensures
        match parfile_fault(
            shown@,
            match basename {
                Some(b) => Some(b@),
                None => None,
            },
            is_file,
        ) {
            Some(f) => r is Err && r->Err_0@ == f,
            None => r is Ok && basename is Some && (r->Ok_0).0@ == basename->0@ && (r->Ok_0).1@ == stem_of(
                basename->0@,
            ),
        },
{
    match basename {
        None => Err(CreateError::NoFileName(shown.to_owned())),
        Some(base) => {
            if !ends(base, ".par") && !ends(base, ".py") {
                return Err(CreateError::Extension(shown.to_owned()));
            }
            let stem = parfile_stem(base);
            if stem.as_str().is_empty() {
                return Err(CreateError::EmptyStem(shown.to_owned()));
            }
            if same(&stem, ".cactup") || same(&stem, "exe") || same(&stem, "cfg") || same(&stem, "par") {
                return Err(CreateError::Reserved(stem));
            }
            if !is_file {
                return Err(CreateError::NoParfile(shown.to_owned()));
            }
            Ok((base.to_owned(), stem))
        },
    }
}

/// What is asked of the creation of a simulation.
#[derive(Debug)]
pub struct CreateRequest {
    /// Replace a simulation of the same name.
    pub force: bool,
    pub name: String,
    /// The parameter file, as the user gave it.
    pub parfile: String,
    /// The configuration; the active one where none is named.
    pub config: Option<String>,
    /// The directory, made absolute; one below the simulation home where none is named.
    pub sim_dir: Option<String>,
}

/// What the disk says of a configuration that a simulation is created from.
#[derive(Debug)]
pub struct ConfigFacts {
    /// Whether the configuration was ever built.
    pub built: bool,
    /// A build of it that is going on, in words.
    pub in_flight: Option<String>,
    /// The path of its program.
    pub executable: String,
    /// Whether the program is there.
    pub has_executable: bool,
    pub config_id: String,
    pub build_id: String,
}

/// The configuration of a simulation: the one named, or else the active one.
pub open spec fn config_of(req: CreateRequest, active: Option<Seq<char>>) -> Option<Seq<char>> {
    match req.config {
        Some(c) => Some(c@),
        None => active,
    }
}

/// The configuration of a simulation: the one named, or else the active one.
pub fn choose_config(req: &CreateRequest, active: Option<&str>) -> (r: Result<String, CreateError>)
    ensures
        match config_of(*req, match active {
            Some(a) => Some(a@),
            None => None,
        }) {
            Some(c) => r is Ok && r->Ok_0@ == c,
            None => r is Err && r->Err_0@ == CreateFault::NoConfig,
        },
{
    match &req.config {
        Some(c) => Ok(c.clone()),
        None => match active {
            Some(a) => Ok(a.to_owned()),
            None => Err(CreateError::NoConfig),
        },
    }
}

/// What stands against creating a simulation from a configuration: that it was never built, that
/// its program is missing, or, unless forced, that a build of it is going on.
pub open spec fn config_fault(config: Seq<char>, facts: ConfigFacts, force: bool) -> Option<CreateFault> {
    if !facts.built {
        match facts.in_flight {
            Some(phrase) => Some(CreateFault::InFlight(phrase@, config)),
            None => Some(CreateFault::NeverBuilt(config)),
        }
    } else if !facts.has_executable {
        match facts.in_flight {
            Some(phrase) => Some(CreateFault::InFlight(phrase@, config)),
            None => Some(CreateFault::NoExecutable(config, facts.executable@)),
        }
    } else if !force {
        match facts.in_flight {
            Some(phrase) => Some(CreateFault::Racing(phrase@)),
            None => None,
        }
    } else {
        None
    }
}

/// Checks the configuration that a simulation is created from.
pub fn check_config(config: &str, facts: &ConfigFacts, force: bool) -> (r: Result<(), CreateError>)
    ensures
        match config_fault(config@, *facts, force) {
            Some(f) => r is Err && r->Err_0@ == f,
            None => r is Ok,
        },
{
    if !facts.built {
        return match &facts.in_flight {
            Some(phrase) => Err(CreateError::InFlight(phrase.clone(), config.to_owned())),
            None => Err(CreateError::NeverBuilt(config.to_owned())),
        };
    }
    if !facts.has_executable {
        return match &facts.in_flight {
            Some(phrase) => Err(CreateError::InFlight(phrase.clone(), config.to_owned())),
            None => Err(CreateError::NoExecutable(config.to_owned(), facts.executable.clone())),
        };
    }
    if !force {
        if let Some(phrase) = &facts.in_flight {
            return Err(CreateError::Racing(phrase.clone()));
        }
    }
    Ok(())
}

/// The configuration that is asked for is taken, whatever the active one is.
pub proof fn requests_choose_the_configuration(req: CreateRequest, active: Option<Seq<char>>)
    ensures
        req.config is Some ==> config_of(req, active) == Some(req.config->0@),
        req.config is None ==> config_of(req, active) == active,
{
}

/// A simulation is only made from a configuration that was built and has its program. A build that is
/// under way is waited for, unless there is a program already and force is used; nothing else forces
/// the way.
pub proof fn configurations_are_checked(config: Seq<char>, facts: ConfigFacts, force: bool)
    ensures
        ({
            let f = config_fault(config, facts, force);
            let ready = facts.built && facts.has_executable;
            &&& f is None <==> ready && (force || facts.in_flight is None)
            &&& ready && !force && facts.in_flight is Some ==> f == Some(CreateFault::Racing((facts.in_flight->0)@))
            &&& !ready && facts.in_flight is Some ==> f == Some(
                CreateFault::InFlight((facts.in_flight->0)@, config),
            )
            &&& !facts.built && facts.in_flight is None ==> f == Some(CreateFault::NeverBuilt(config))
            &&& facts.built && !facts.has_executable && facts.in_flight is None ==> f == Some(
                CreateFault::NoExecutable(config, facts.executable@),
            )
        }),
{
}

/// The directory of a simulation: the one asked for, or one below the simulation home.
pub open spec fn dir_of(req: CreateRequest, sim_home: Seq<char>, config: Seq<char>) -> Seq<char> {
    match req.sim_dir {
        Some(d) => d@,
        None => path_of(path_of(sim_home, config), req.name@),
    }
}

/// The directory of a simulation.
pub fn choose_dir(req: &CreateRequest, sim_home: &str, config: &str) -> (r: String)
    ensures
        r@ == dir_of(*req, sim_home@, config@),
{
    match &req.sim_dir {
        Some(d) => d.clone(),
        None => path_join(&path_join(sim_home, config), &req.name),
    }
}

/// The registry's and the directory's fault: a simulation of the same name, or a directory that is
/// there, gives way only to a forced creation.
pub open spec fn place_fault(
    req: CreateRequest,
    registered: Option<Seq<char>>,
    dir: Seq<char>,
    dir_exists: bool,
) -> Option<CreateFault> {
    if req.force {
        None
    } else if registered is Some {
        Some(CreateFault::Exists(req.name@, registered->0))
    } else if dir_exists {
        Some(CreateFault::DirExists(dir))
    } else {
        None
    }
}

fn check_place(req: &CreateRequest, registered: &Option<String>, dir: &str, dir_exists: bool) -> (r: Result<
    (),
    CreateError,
>)
    ensures
        match place_fault(*req, opt_view(*registered), dir@, dir_exists) {
            Some(f) => r is Err && r->Err_0@ == f,
            None => r is Ok,
        },
{
    if req.force {
        return Ok(());
    }
    if let Some(old) = registered {
        return Err(CreateError::Exists(req.name.clone(), old.clone()));
    }
    if dir_exists {
        return Err(CreateError::DirExists(dir.to_owned()));
    }
    Ok(())
}

/// The optionlist that was fed to the build, and the one that it was made from.
pub const OPTIONLIST_RENDERED: &'static str = "cactup-optionlist.cfg";
pub const OPTIONLIST_SOURCE: &'static str = "cactup-optionlist.toml";

/// The thornlist that was fed to the build, and the one that it was made from.
pub const THORNLIST_PROCESSED: &'static str = "cactup-thornlist.th";
pub const THORNLIST_SNAPSHOT: &'static str = "cactup-thornlist.src.th";

/// The name to record of a pair of files that are copied where they are there: the first that is.
pub open spec fn primary(first: Seq<char>, has_first: bool, second: Seq<char>, has_second: bool) -> Seq<char> {
    if has_first {
        first
    } else if has_second {
        second
    } else {
        Seq::empty()
    }
}

fn primary_copy(first: &str, has_first: bool, second: &str, has_second: bool) -> (r: String)
    ensures
        r@ == primary(first@, has_first, second@, has_second),
{
    if has_first {
        first.to_owned()
    } else if has_second {
        second.to_owned()
    } else {
        String::new()
    }
}

/// What the creation of a simulation finds around it.
#[derive(Debug)]
pub struct CreateFacts {
    pub machine: String,
    /// The alias of the installation.
    pub alias: String,
    pub sim_home: String,
    pub cactus_root: String,
    pub simulation_id: String,
    pub config: ConfigFacts,
    /// The last part of the parameter file's path.
    pub parfile_name: Option<String>,
    pub parfile_exists: bool,
    /// Which of the configuration's files are there.
    pub has_rendered_optionlist: bool,
    pub has_source_optionlist: bool,
    pub has_processed_thornlist: bool,
    pub has_thornlist_snapshot: bool,
    /// The directory of the simulation that is registered under the name.
    pub registered: Option<String>,
    /// Whether the directory of the new simulation is there.
    pub dir_exists: bool,
}

/// A simulation to be set up.
#[derive(Debug)]
pub struct Creation {
    /// The directories to be removed first, where they are there.
    pub removed: Vec<String>,
    /// The simulation whose directory is to be filled.
    pub simulation: Simulation,
    /// What the simulation's log says of it.
    pub logged: String,
}

/// What stands against the creation of a simulation: first the configuration, next the parameter
/// file, then the place.
pub open spec fn create_fault(req: CreateRequest, config: Seq<char>, facts: CreateFacts) -> Option<CreateFault> {
    let c = config_fault(config, facts.config, req.force);
    let p = parfile_fault(req.parfile@, opt_view(facts.parfile_name), facts.parfile_exists);
    if c is Some {
        c
    } else if p is Some {
        p
    } else {
        place_fault(req, opt_view(facts.registered), dir_of(req, facts.sim_home@, config), facts.dir_exists)
    }
}

/// The directories that give way to a new simulation: that of the one it replaces, and its own.
pub open spec fn given_way(req: CreateRequest, registered: Option<Seq<char>>, dir: Seq<char>) -> Seq<Seq<char>> {
    if !req.force {
        Seq::empty()
    } else {
        match registered {
            Some(old) => seq![old, dir],
            None => seq![dir],
        }
    }
}

/// Decides on the creation of a simulation from a configuration: what stands against it, or else
/// the simulation with its record.
pub fn create(req: &CreateRequest, config: &str, facts: &CreateFacts) -> (r: Result<Creation, CreateError>)
    ensures
        match create_fault(*req, config@, *facts) {
            Some(f) => r is Err && r->Err_0@ == f,
            None => r matches Ok(c) && {
                let dir = dir_of(*req, facts.sim_home@, config@);
                let meta = c.simulation.meta;
                &&& views(c.removed@) == given_way(*req, opt_view(facts.registered), dir)
                &&& c.simulation.name@ == req.name@
                &&& c.simulation.dir@ == dir
                &&& meta.schema == SCHEMA
                &&& meta.machine@ == facts.machine@
                &&& meta.simulation_id@ == facts.simulation_id@
                &&& meta.sourcedir@ == facts.cactus_root@
                &&& meta.configuration@ == config@
                &&& meta.config_id@ == facts.config.config_id@
                &&& meta.build_id@ == facts.config.build_id@
                &&& meta.executable@ == path_of(path_of(dir, ".cactup"@), "exe"@)
                &&& meta.optionlist@ == primary(
                    OPTIONLIST_RENDERED@,
                    facts.has_rendered_optionlist,
                    OPTIONLIST_SOURCE@,
                    facts.has_source_optionlist,
                )
                &&& meta.thornlist@ == primary(
                    THORNLIST_PROCESSED@,
                    facts.has_processed_thornlist,
                    THORNLIST_SNAPSHOT@,
                    facts.has_thornlist_snapshot,
                )
                &&& facts.parfile_name is Some && meta.parfile@ == facts.parfile_name->0@
                &&& meta.alias@ == facts.alias@
                &&& c.logged@ == "created simulation (config "@ + config@ + ", build-id "@ + facts.config.build_id@
                    + ")"@
            },
        },
{
    match check_config(config, &facts.config, req.force) {
        Ok(()) => {},
        Err(e) => {
            return Err(e);
        },
    }
    let basename: Option<&str> = match &facts.parfile_name {
        Some(n) => Some(n.as_str()),
        None => None,
    };
    let parfile = match validate_parfile(&req.parfile, basename, facts.parfile_exists) {
        Ok((name, _)) => name,
        Err(e) => {
            return Err(e);
        },
    };
    let dir = choose_dir(req, &facts.sim_home, config);
    match check_place(req, &facts.registered, &dir, facts.dir_exists) {
        Ok(()) => {},
        Err(e) => {
            return Err(e);
        },
    }
    let mut removed: Vec<String> = Vec::new();
    if req.force {
        if let Some(old) = &facts.registered {
            removed.push(old.clone());
        }
        removed.push(dir.clone());
    }
    proof {
        assert(views(removed@) =~= given_way(*req, opt_view(facts.registered), dir@));
    }
    let meta = SimulationMeta {
        schema: SCHEMA,
        machine: facts.machine.clone(),
        simulation_id: facts.simulation_id.clone(),
        sourcedir: facts.cactus_root.clone(),
        configuration: config.to_owned(),
        config_id: facts.config.config_id.clone(),
        build_id: facts.config.build_id.clone(),
        executable: path_join(&path_join(&dir, ".cactup"), "exe"),
        optionlist: primary_copy(
            OPTIONLIST_RENDERED,
            facts.has_rendered_optionlist,
            OPTIONLIST_SOURCE,
            facts.has_source_optionlist,
        ),
        thornlist: primary_copy(
            THORNLIST_PROCESSED,
            facts.has_processed_thornlist,
            THORNLIST_SNAPSHOT,
            facts.has_thornlist_snapshot,
        ),
        parfile,
        alias: facts.alias.clone(),
    };
    let logged = cat5("created simulation (config ", config, ", build-id ", &facts.config.build_id, ")");
    Ok(Creation { removed, simulation: Simulation { name: req.name.clone(), dir, meta }, logged })
}

/// A simulation that is created over another one never leaves the other's directory behind, and
/// one that is not forced removes nothing.
pub proof fn creations_replace_only_by_force(req: CreateRequest, registered: Option<Seq<char>>, dir: Seq<char>)
    ensures
        !req.force ==> given_way(req, registered, dir).len() == 0,
        req.force && registered is Some ==> given_way(req, registered, dir).contains(registered->0),
{
    let gone = given_way(req, registered, dir);
    if req.force && registered is Some {
        assert(gone[0] == registered->0);
    }
}

/// A simulation stands where it is asked to, and else below the home of simulations, under its
/// configuration and its name. What is there already is only replaced by force: then both the directory
/// that is registered under the name, if any, and the one where it is to stand give way.
pub proof fn places_are_taken_with_care(
    req: CreateRequest,
    sim_home: Seq<char>,
    config: Seq<char>,
    registered: Option<Seq<char>>,
    dir_exists: bool,
)
    ensures
        ({
            let dir = dir_of(req, sim_home, config);
            let f = place_fault(req, registered, dir, dir_exists);
            let gone = given_way(req, registered, dir);
            &&& req.sim_dir is Some ==> dir == (req.sim_dir->0)@
            &&& req.sim_dir is None ==> dir == path_of(path_of(sim_home, config), req.name@)
            &&& f is None <==> req.force || (registered is None && !dir_exists)
            &&& !req.force && registered is Some ==> f == Some(CreateFault::Exists(req.name@, registered->0))
            &&& !req.force && registered is None && dir_exists ==> f == Some(CreateFault::DirExists(dir))
            &&& !req.force ==> gone == Seq::<Seq<char>>::empty()
            &&& req.force && registered is None ==> gone == seq![dir]
            &&& req.force && registered is Some ==> gone == seq![registered->0, dir]
        }),
{
}

/// The configuration is looked at before the parameter file, and both before the place.
pub proof fn creations_are_refused_in_order(req: CreateRequest, config: Seq<char>, facts: CreateFacts)
    ensures
        ({
            let c = config_fault(config, facts.config, req.force);
            let p = parfile_fault(
                req.parfile@,
                if facts.parfile_name is Some {
                    Some((facts.parfile_name->0)@)
                } else {
                    None
                },
                facts.parfile_exists,
            );
            let f = create_fault(req, config, facts);
            &&& c is Some ==> f == c
            &&& c is None && p is Some ==> f == p
            &&& c is None && p is None && !req.force && facts.registered is Some ==> f == Some(
                CreateFault::Exists(req.name@, (facts.registered->0)@),
            )
            &&& c is None && p is None && req.force ==> f is None
            &&& c is None && p is None && facts.registered is None && !facts.dir_exists ==> f is None
        }),
{
}

/// The first copy of a list counts where it is there, the second where only that is, and none where
/// neither is.
pub proof fn first_copies_count(first: Seq<char>, has_first: bool, second: Seq<char>, has_second: bool)
    ensures
        has_first ==> primary(first, has_first, second, has_second) == first,
        !has_first && has_second ==> primary(first, has_first, second, has_second) == second,
        !has_first && !has_second ==> primary(first, has_first, second, has_second).len() == 0,
{
}

/// The id of a simulation names it, its machine, the host and the user that made it, when, and by which
/// process, in this order, with a dash between each two.
pub proof fn simulation_ids_say_where_from(
    name: Seq<char>,
    machine: Seq<char>,
    hostname: Seq<char>,
    user: Seq<char>,
    time: Seq<char>,
    pid: nat,
)
    ensures
        id_text(name, machine, hostname, user, time, pid) == joined(
            seq!["simulation"@, name, machine, hostname, user, time, decimal_of(pid)],
            "-"@,
        ),
{
    reveal_strlit("simulation-");
    reveal_strlit("simulation");
    reveal_strlit("-");
    let all = seq!["simulation"@, name, machine, hostname, user, time, decimal_of(pid)];
    let a6 = all.drop_last();
    let a5 = a6.drop_last();
    let a4 = a5.drop_last();
    let a3 = a4.drop_last();
    let a2 = a3.drop_last();
    let a1 = a2.drop_last();
    assert(joined(a1, "-"@) =~= "simulation"@);
    assert(joined(a2, "-"@) =~= "simulation"@ + "-"@ + name);
    assert(joined(a3, "-"@) =~= joined(a2, "-"@) + "-"@ + machine);
    assert(joined(a4, "-"@) =~= joined(a3, "-"@) + "-"@ + hostname);
    assert(joined(a5, "-"@) =~= joined(a4, "-"@) + "-"@ + user);
    assert(joined(a6, "-"@) =~= joined(a5, "-"@) + "-"@ + time);
    assert(joined(all, "-"@) =~= joined(a6, "-"@) + "-"@ + decimal_of(pid));
    assert("simulation-"@ =~= "simulation"@ + "-"@);
    assert(id_text(name, machine, hostname, user, time, pid) =~= joined(all, "-"@));
}

/// Why a simulation cannot be found.
pub enum LocateFault {
    Unknown(Seq<char>, Seq<char>),
    Missing(Seq<char>, Seq<char>),
    NotOne(Seq<char>, Seq<char>),
    Schema(Seq<char>, nat),
}

/// Why a simulation cannot be found.
#[derive(Debug)]
pub enum LocateError {
    /// The installation knows no simulation of the name; the name and the alias.
    Unknown(String, String),
    /// The directory of the simulation is gone.
    Missing(String, String),
    /// The directory holds no simulation; the directory and the file that it lacks.
    NotOne(String, String),
    /// The record at this path has a layout that is too new.
    Schema(String, u32),
}

impl View for LocateError {
    type V = LocateFault;

    open spec fn view(&self) -> LocateFault {
        match *self {
            LocateError::Unknown(name, alias) => LocateFault::Unknown(name@, alias@),
            LocateError::Missing(name, dir) => LocateFault::Missing(name@, dir@),
            LocateError::NotOne(dir, path) => LocateFault::NotOne(dir@, path@),
            LocateError::Schema(path, schema) => LocateFault::Schema(path@, schema as nat),
        }
    }
}

impl LocateError {
    /// The message for the user, as text.
    pub open spec fn text(self) -> Seq<char> {
        match self {
            LocateError::Unknown(name, alias) => "no simulation named \""@ + name@ + "\" in installation \""@ + alias@
                + "\" (see `cactup sim list`)"@,
            LocateError::Missing(name, dir) => "simulation \""@ + name@ + "\" is registered at "@ + dir@
                + " but that directory is missing;\nrun `cactup sim delete "@ + name@
                + "` to drop the stale registry entry"@,
            LocateError::NotOne(dir, path) => dir@ + " is not a cactup simulation ("@ + path@ + " does not exist)"@,
            LocateError::Schema(path, schema) => path@ + " has schema "@ + decimal_of(schema as nat)
                + " but this cactup understands at most schema "@ + decimal_of(SCHEMA as nat)
                + "; please upgrade cactup"@,
        }
    }

    /// The message for the user.
    pub fn message(&self) -> (r: String)
        ensures
            r@ == self.text(),
    {
        match self {
            LocateError::Unknown(name, alias) => cat5(
                "no simulation named \"",
                name,
                "\" in installation \"",
                alias,
                "\" (see `cactup sim list`)",
            ),
            LocateError::Missing(name, dir) => cat7(
                "simulation \"",
                name,
                "\" is registered at ",
                dir,
                " but that directory is missing;\nrun `cactup sim delete ",
                name,
                "` to drop the stale registry entry",
            ),
            LocateError::NotOne(dir, path) => cat4(dir, " is not a cactup simulation (", path, " does not exist)"),
            LocateError::Schema(path, schema) => cat2(
                &cat5(
                    path,
                    " has schema ",
                    &decimal(*schema as u64),
                    " but this cactup understands at most schema ",
                    &decimal(SCHEMA as u64),
                ),
                "; please upgrade cactup",
            ),
        }
    }
}

impl Simulation {
    /// The simulation in a directory, given the record that was read there; there is none without
    /// a record.
    pub fn open(name: &str, dir: &str, record: Option<SimulationMeta>) -> (r: Result<Simulation, LocateError>)
        ensures
            ({
                let path = path_of(path_of(dir@, ".cactup"@), "simulation.toml"@);
                match record {
                    None => r is Err && r->Err_0@ == LocateFault::NotOne(dir@, path),
                    Some(meta) => if meta.schema > SCHEMA {
                        r is Err && r->Err_0@ == LocateFault::Schema(path, meta.schema as nat)
                    } else {
                        r is Ok && r->Ok_0.name@ == name@ && r->Ok_0.dir@ == dir@ && r->Ok_0.meta == meta
                    },
                }
            }),
    {
        let path = path_join(&path_join(dir, ".cactup"), "simulation.toml");
        match record {
            None => Err(LocateError::NotOne(dir.to_owned(), path)),
            Some(meta) => if meta.schema > SCHEMA {
                Err(LocateError::Schema(path, meta.schema))
            } else {
                Ok(Simulation { name: name.to_owned(), dir: dir.to_owned(), meta })
            },
        }
    }

    /// The directory of the simulation of a name, given the one that the installation has on
    /// record and whether it is there.
    pub fn locate(alias: &str, name: &str, registered: Option<&str>, is_dir: bool) -> (r: Result<String, LocateError>)
        ensures
            match registered {
                None => r is Err && r->Err_0@ == LocateFault::Unknown(name@, alias@),
                Some(dir) => if is_dir {
                    r is Ok && r->Ok_0@ == dir@
                } else {
                    r is Err && r->Err_0@ == LocateFault::Missing(name@, dir@)
                },
            },
    {
        match registered {
            None => Err(LocateError::Unknown(name.to_owned(), alias.to_owned())),
            Some(dir) => if is_dir {
                Ok(dir.to_owned())
            } else {
                Err(LocateError::Missing(name.to_owned(), dir.to_owned()))
            },
        }
    }
}

} // verus!
