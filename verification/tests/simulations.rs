//! Simulations: creating, starting, following and clearing them away.

use cactup::args::{SimStartArgs, TopologyFlags, UniverseFlags};
use cactup::config::ConfigMeta;
use cactup::mdb::meta::{
    Build, CactupMeta, Environment, Hardware, MachineInfo, Meta, OptionlistVariants, Paths, Phase, Queue, Scheduler,
    ScriptKind, ScriptVariants, Variants,
};
use cactup::mdb::universe::{Universe, WrappedCommand};
use cactup::mdb::variants::string_or_seq;
use cactup::mdb::{Layer, Machine};
use cactup::scheduler::{display_state, query_vars, DisplayState, JobStatus, Scheduler as JobScheduler, StatusPlan};
use cactup::shell::shell_quote;
use cactup::sim::cache::{cache_dir, cache_entry, gc, temp_name, trash_dir, trash_entry, CacheEntry};
use cactup::sim::manage::{
    asks_host, bare_line, dedup_formaline, delete, delete_step, delete_text, is_live, job_to_check, list, list_lines,
    log_cmd, output_dir, restart_line, restart_lines, restart_state, row_text, show, show_one, sim_state, state_str, stop, stop_text, terminate_path, DeleteError,
    DeleteStep, ListLine, Palette, Row, SimState, StopPlan,
};
use cactup::sim::restart::{
    active_id, check_record, deactivate, dir_name, freeze_vars, handoff_active, job_of, list_ids, make_active, next_id,
    parse_dir_name, reap_due, reap_stale, scan, thaw_vars, workdir, Handoff, Restart, RestartError, RestartMeta, UniverseSpec,
    NO_JOB_ID,
};
use cactup::sim::start::{
    beat, chaining_text, end_text, execute_restart, foreground, generate_script, obtain_sim, prepend_env, ready_parfile,
    resolve_run_universe, resolve_submit_universe, run, script_command, segment, splitting_text, submit, submit_vars,
    submitted_text, universe_note, Identity, Obtain, RunEnd, ScriptSource, StartError,
};
use cactup::sim::vars::{assemble, RestartVarsInput};
use cactup::sim::{
    choose_config, create, log_line, log_line_at, parfile_stem, simulation_id, simulation_id_at, validate_parfile,
    ConfigFacts, CreateError, CreateFacts, CreateRequest, LocateError, Simulation, SimulationMeta,
};
use cactup::table::Table;
use cactup::template::{number_value, text_value, VarSet, VarValue};
use cactup::toml_text::{get_field, read_toml, TomlValue};
use cactup::walltime::Walltime;

type Items = Vec<(String, TomlValue)>;

fn items<'a>(all: &'a Items, key: &str) -> Option<&'a Items> {
    match get_field(all, key) {
        Some(TomlValue::Dict(inner)) => Some(inner),
        Some(_) => panic!("{key} is no table"),
        None => None,
    }
}

fn text(all: &Items, key: &str) -> Option<String> {
    match get_field(all, key) {
        Some(TomlValue::Str(s)) => Some(s.clone()),
        Some(_) => panic!("{key} is no text"),
        None => None,
    }
}

fn texts(all: &Items, key: &str) -> Option<Vec<String>> {
    get_field(all, key).map(|v| string_or_seq(v).expect("a list of texts"))
}

fn flag(all: &Items, key: &str) -> bool {
    matches!(get_field(all, key), Some(TomlValue::Bool(true)))
}

fn number(all: &Items, key: &str) -> Option<u32> {
    match get_field(all, key) {
        Some(TomlValue::Int(n)) => Some(*n as u32),
        Some(_) => panic!("{key} is no number"),
        None => None,
    }
}

fn wall(all: &Items, key: &str) -> Option<Walltime> {
    text(all, key).map(|s| Walltime::parse(&s).expect("a walltime"))
}

fn environment(all: &Items) -> Environment {
    Environment {
        env_setup: text(all, "env-setup"),
        env_build_setup: text(all, "env-build-setup"),
        env_submit_setup: text(all, "env-submit-setup"),
        env_run_setup: text(all, "env-run-setup"),
    }
}

/// The machine that a `meta.toml` describes.
fn machine(source: &str) -> Meta {
    let none: Items = Vec::new();
    let TomlValue::Dict(doc) = read_toml(source).expect("a TOML document") else { panic!("a document is a table") };
    let at = |key: &str| items(&doc, key).unwrap_or(&none);
    let (info, paths, hw, build, sched, variants) =
        (at("machine"), at("paths"), at("hardware"), at("build"), at("scheduler"), at("variants"));
    let mut queues: Table<Queue> = Table::new();
    for (name, value) in at("queues") {
        let TomlValue::Dict(q) = value else { panic!("a queue is a table") };
        let queue = Queue {
            gpu: flag(q, "gpu"),
            max_walltime: wall(q, "max-walltime"),
            default: flag(q, "default"),
            name: text(q, "name"),
            build_universes: texts(q, "build-universes"),
            max_cpus_per_node: number(q, "max-cpus-per-node"),
            default_cpus_per_task: number(q, "default-cpus-per-task"),
            max_gpus_per_node: number(q, "max-gpus-per-node"),
            default_gpus_per_task: number(q, "default-gpus-per-task"),
            threads_per_cpu: number(q, "threads-per-cpu"),
            memory: number(q, "memory").map(u64::from),
        };
        queues.insert(name.clone(), queue);
    }
    let mut universes: Table<Universe> = Table::new();
    for (name, value) in at("universes") {
        let TomlValue::Dict(u) = value else { panic!("a universe is a table") };
        let universe = Universe {
            kind: text(u, "kind"),
            wrapper_argv: texts(u, "wrapper-argv"),
            wrapper: text(u, "wrapper"),
            environment: environment(u),
        };
        universes.insert(name.clone(), universe);
    }
    Meta {
        machine: MachineInfo {
            name: text(info, "name"),
            nickname: text(info, "nickname"),
            status: text(info, "status"),
            hostname: text(info, "hostname"),
            location: text(info, "location"),
            description: text(info, "description"),
        },
        paths: Paths {
            install_home: text(paths, "install-home"),
            simulation_home: text(paths, "simulation-home"),
            test_home: text(paths, "test-home"),
            scratch_home: text(paths, "scratch-home"),
        },
        hardware: Hardware {
            autodetect: flag(hw, "autodetect"),
            max_cpus_per_node: number(hw, "max-cpus-per-node"),
            default_cpus_per_task: number(hw, "default-cpus-per-task"),
            max_gpus_per_node: number(hw, "max-gpus-per-node"),
            default_gpus_per_task: number(hw, "default-gpus-per-task"),
            threads_per_cpu: number(hw, "threads-per-cpu"),
            memory: number(hw, "memory").map(u64::from),
        },
        build: Build {
            make: text(build, "make"),
            make_jobs: number(build, "make-jobs"),
            enabled_thorns: texts(build, "enabled-thorns").unwrap_or_default(),
            disabled_thorns: texts(build, "disabled-thorns").unwrap_or_default(),
            universe: text(build, "universe"),
        },
        environment: environment(at("environment")),
        scheduler: Scheduler {
            submit: text(sched, "submit"),
            blocking_submit: text(sched, "blocking-submit"),
            interactive_cmd: text(sched, "interactive-cmd"),
            get_status: text(sched, "get-status"),
            get_status_many: text(sched, "get-status-many"),
            stop: text(sched, "stop"),
            submit_pattern: text(sched, "submit-pattern"),
            status_pattern: text(sched, "status-pattern"),
            queued_pattern: text(sched, "queued-pattern"),
            running_pattern: text(sched, "running-pattern"),
            holding_pattern: text(sched, "holding-pattern"),
            exec_host: text(sched, "exec-host"),
            exec_host_pattern: text(sched, "exec-host-pattern"),
            stdout: text(sched, "stdout"),
            stderr: text(sched, "stderr"),
            stdout_follow: text(sched, "stdout-follow"),
            max_queue_slots: number(sched, "max-queue-slots"),
            max_walltime: wall(sched, "max-walltime"),
            allocation_env: texts(sched, "allocation-env").unwrap_or_default(),
        },
        queues,
        variants: Variants {
            submitscript: ScriptVariants::from_toml(items(variants, "submitscript").unwrap_or(&none)).unwrap_or_else(|e| panic!("{}", e.message())),
            runscript: ScriptVariants::from_toml(items(variants, "runscript").unwrap_or(&none)).unwrap_or_else(|e| panic!("{}", e.message())),
            optionlist: OptionlistVariants {
                variants: items(variants, "optionlist").and_then(|o| texts(o, "variants")).unwrap_or_default(),
            },
        },
        universes,
        cactup: CactupMeta { origin: None, mdb_generation: None },
    }
}

#[test]
fn parfile_stem_strips_one_extension() {
    assert_eq!(parfile_stem("bbh.par"), "bbh");
    assert_eq!(parfile_stem("q1.5.par"), "q1.5");
    assert_eq!(parfile_stem("q1.5.py"), "q1.5");
    assert_eq!(parfile_stem("noext"), "noext");
}

#[test]
fn parfile_validation() {
    let check = |name: &str, is_file: bool| validate_parfile(&format!("/tmp/{name}"), Some(name), is_file);
    let (base, stem) = check("q1.5.par", true).unwrap();
    assert_eq!((base.as_str(), stem.as_str()), ("q1.5.par", "q1.5"));

    // Wrong extension.
    assert!(matches!(check("a.txt", true).unwrap_err(), CreateError::Extension(_)));

    // Reserved names.
    for reserved in ["exe.par", "cfg.py", "par.par", ".cactup.par"] {
        let err = check(reserved, true).unwrap_err().message();
        assert!(err.contains("reserved"), "{reserved}: {err}");
    }

    // Missing file.
    assert!(matches!(check("ghost.par", false).unwrap_err(), CreateError::NoParfile(_)));
    assert!(matches!(check(".par", true).unwrap_err(), CreateError::EmptyStem(_)));
    assert!(matches!(validate_parfile("/", None, false).unwrap_err(), CreateError::NoFileName(_)));
}

#[test]
fn simulation_id_format() {
    let id = simulation_id("bbh", "mel5", "mel5.cct.lsu.edu", "alice", 1_717_243_384, 77).unwrap();
    assert!(id.starts_with("simulation-bbh-mel5-mel5.cct.lsu.edu-"), "{id}");
    assert!(id.split('-').count() >= 7, "{id}");
    assert_eq!(id, "simulation-bbh-mel5-mel5.cct.lsu.edu-alice-2024.06.01-12.03.04-77");
    assert_eq!(simulation_id("bbh", "mel5", "h", "u", i64::MAX, 1), None);
    assert_eq!(simulation_id_at("a", "b", "c", "d", "T", 1), "simulation-a-b-c-d-T-1");
}

#[test]
fn log_lines_carry_the_time() {
    let line = log_line(1_717_243_384, "submit", "submitted output-0000").unwrap();
    assert_eq!(line, "[LOG:2024-06-01 12:03:04] submit::submitted output-0000\n");
    assert_eq!(log_line_at("T", "a", "b"), "[LOG:T] a::b\n");
}

#[test]
fn dir_names_and_discovery() {
    assert_eq!(dir_name(0), "output-0000");
    assert_eq!(dir_name(123), "output-0123");
    assert_eq!(parse_dir_name("output-0007"), Some(7));
    assert_eq!(parse_dir_name("output-12345"), Some(12345));
    assert_eq!(parse_dir_name("output-12"), None);
    assert_eq!(parse_dir_name("output-00x7"), None);
    assert_eq!(parse_dir_name("putput-0007"), None);
}

/// A simulation's directory: its entries, and whether each is a directory.
fn entries(list: &[(&str, bool)]) -> Vec<(String, bool)> {
    list.iter().map(|(name, is_dir)| (name.to_string(), *is_dir)).collect()
}

const DIR: &str = "/sim/bbh";

#[test]
fn id_allocation_and_active_symlink() {
    assert_eq!(next_id(&entries(&[])).unwrap(), 0);
    let two = entries(&[("output-0000", true), ("output-0001", true)]);
    assert_eq!(list_ids(&two), vec![0, 1]);
    assert_eq!(next_id(&two).unwrap(), 2);

    assert_eq!(active_id(&two, DIR).unwrap(), None);
    let link = make_active(&two, DIR, 1).unwrap();
    // A relative link.
    assert_eq!((link.target.as_str(), link.path.as_str()), ("output-0001", "/sim/bbh/output-0001-active"));
    let active = entries(&[("output-0000", true), ("output-0001", true), ("output-0001-active", true)]);
    assert_eq!(active_id(&active, DIR).unwrap(), Some(1));
    // A second activation is refused.
    assert!(matches!(make_active(&active, DIR, 0), Err(RestartError::AlreadyActive(_, _))));

    assert_eq!(deactivate(&active, DIR).unwrap(), Some((1, "/sim/bbh/output-0001-active".to_owned())));
    assert_eq!(deactivate(&two, DIR).unwrap(), None);
    // The numbers are finite.
    let full = entries(&[("output-9999", true)]);
    assert!(matches!(next_id(&full), Err(RestartError::TooMany)));
}

#[test]
fn handoff_replaces_predecessor() {
    let three = entries(&[("output-0003", true), ("output-0004", true), ("output-0003-active", true)]);
    let Handoff::Switch(Some(old), link) = handoff_active(&three, DIR, 4).unwrap() else { panic!("kept") };
    assert_eq!((old.as_str(), link.path.as_str()), ("/sim/bbh/output-0003-active", "/sim/bbh/output-0004-active"));
    assert_eq!(link.target, "output-0004");
    // Nothing to do where it is active already.
    let ours = entries(&[("output-0003", true), ("output-0004", true), ("output-0004-active", true)]);
    assert!(matches!(handoff_active(&ours, DIR, 4).unwrap(), Handoff::Keep));
    // No predecessor at all.
    let none = entries(&[("output-0003", true), ("output-0004", true)]);
    assert!(matches!(handoff_active(&none, DIR, 4).unwrap(), Handoff::Switch(None, _)));
}

#[test]
fn scan_reports_ids_and_active_together() {
    // What is named like a restart but is no directory is passed over.
    let all = entries(&[
        ("output-0002", true),
        ("output-0000", true),
        ("output-0001", false),
        ("output-0000-active", true),
    ]);
    let found = scan(&all);
    assert_eq!(found.ids, vec![0, 2]);
    assert_eq!(found.latest(), Some(2));
    assert_eq!(found.active_id(DIR).unwrap(), Some(0));
}

#[test]
fn scan_active_id_errors_on_two_actives_but_list_ids_still_succeeds() {
    let all = entries(&[
        ("output-0000", true),
        ("output-0001", true),
        ("output-0000-active", true),
        ("output-0001-active", true),
    ]);
    let err = scan(&all).active_id(DIR).unwrap_err();
    assert!(matches!(&err, RestartError::ManyActive(_, _)), "{}", err.message());
    assert_eq!(list_ids(&all), vec![0, 1]);
}

#[test]
fn vars_freeze_thaw_roundtrip() {
    let mut vars = VarSet::new();
    vars.set("NODES", number_value(4));
    vars.set("QUEUE", text_value("checkpt"));
    vars.set("GPU", VarValue::Bool(false));
    let frozen = freeze_vars(&vars);
    let thawed = thaw_vars(&frozen).ok().unwrap();
    assert_eq!(thawed.get("NODES"), Some(&VarValue::Int(4)));
    assert_eq!(thawed.get("QUEUE"), Some(&VarValue::Str("checkpt".into())));
    assert_eq!(thawed.get("GPU"), Some(&VarValue::Bool(false)));
    let odd = vec![("X".to_owned(), TomlValue::Float)];
    assert!(matches!(thaw_vars(&odd).err().unwrap(), RestartError::BadVar(name, _) if name == "X"));
}

/// Stale restarts are reaped only once nothing speaks for them.
#[test]
fn only_dead_restarts_are_reaped() {
    assert!(!reap_stale(JobStatus::Running, false, false, None, 300));
    assert!(!reap_stale(JobStatus::Unknown, true, false, None, 300));
    assert!(!reap_stale(JobStatus::Unknown, false, false, Some(10), 300));
    assert!(reap_stale(JobStatus::Unknown, false, false, Some(300), 300));
    assert!(reap_stale(JobStatus::Unknown, false, false, None, 300));
    assert!(reap_stale(JobStatus::Unknown, false, true, Some(10), 300));
    assert!(!reap_due(Some(1), None) && reap_due(Some(3600), None) && !reap_due(Some(3600), Some(1)));
}

#[test]
fn cache_populate_link_and_gc() {
    assert_eq!(cache_dir("/home"), "/home/CACHE/exe");
    assert_eq!(cache_entry("/home", "build-1"), "/home/CACHE/exe/build-1");
    let file = |name: &str, links: u64| CacheEntry { name: name.to_owned(), is_file: true, links };
    // One that a simulation still links to is kept, an orphan goes.
    assert_eq!(gc(&vec![file("build-1", 2), file("build-0", 1)], None), ["build-0"]);
    // One that is asked for is kept all the same.
    assert!(gc(&vec![file("build-1", 1)], Some("build-1")).is_empty());
    assert_eq!(gc(&vec![file("build-1", 1)], None), ["build-1"]);
    // A copy that is being made is left alone, and so is what is no file.
    assert!(gc(&vec![file(&temp_name("build-1", 7), 1)], None).is_empty());
    assert!(gc(&vec![CacheEntry { name: "d".to_owned(), is_file: false, links: 1 }], None).is_empty());
}

#[test]
fn trash_move() {
    assert_eq!(trash_entry("/home", "simulation-bbh-x"), format!("{}/simulation-bbh-x", trash_dir("/home")));
}

fn sim_at(dir: &str) -> Simulation {
    Simulation {
        name: "bbh".to_owned(),
        dir: dir.to_owned(),
        meta: SimulationMeta {
            schema: 1,
            machine: "mel5".to_owned(),
            simulation_id: "simulation-bbh-x".to_owned(),
            sourcedir: String::new(),
            configuration: "sim".to_owned(),
            config_id: "c".to_owned(),
            build_id: "b".to_owned(),
            executable: String::new(),
            optionlist: String::new(),
            thornlist: "cactup-thornlist.th".to_owned(),
            parfile: "bbh.par".to_owned(),
            alias: "et".to_owned(),
        },
    }
}

#[test]
fn formaline_dedup_links_identical_only() {
    let ids = vec![0, 1];
    // A big tarball is compared with the earlier restart's; a small one, or another file, is not.
    assert_eq!(dedup_formaline("cactus/src.tar.gz", Some(2000), &ids, 1), [0]);
    assert!(dedup_formaline("cactus/tiny.tar.gz", Some(3), &ids, 1).is_empty());
    assert!(dedup_formaline("cactus/other.h5", Some(2000), &ids, 1).is_empty());
    assert!(dedup_formaline("cactus/src.tar.gz", None, &ids, 1).is_empty());
    // The latest earlier one first.
    assert_eq!(dedup_formaline("a.tar.gz", Some(1000), &vec![0, 1, 2, 3], 3), [2, 1, 0]);
    assert_eq!(workdir(&sim_at(DIR), 1), "/sim/bbh/output-0001/bbh");
}

fn record(job_id: &str, chained: Option<&str>, terminated: bool) -> RestartMeta {
    RestartMeta {
        schema: 1,
        created: "2024-01-01T00:00:00Z".to_owned(),
        started: None,
        finished: None,
        nodes: 1,
        tasks: 1,
        tpn: 1,
        cpus: 1,
        queue: "debug".to_owned(),
        allocation: None,
        walltime: Walltime::parse("24:00:00").unwrap(),
        checkpt_buffer: Walltime::parse("00:10:00").unwrap(),
        job_id: job_id.to_owned(),
        chained_job_id: chained.map(str::to_owned),
        status: None,
        terminated,
        universe: None,
        vars: Vec::new(),
    }
}

#[test]
fn clean_active_tidies_the_restart() {
    let all = entries(&[("output-0000", true), ("output-0000-active", true)]);
    assert_eq!(deactivate(&all, DIR).unwrap(), Some((0, "/sim/bbh/output-0000-active".to_owned())));
    let mut meta = record("7", None, false);
    assert!(meta.mark_cleaned("now".to_owned()));
    assert_eq!(meta.finished.as_deref(), Some("now"));
    // A second cleaning changes nothing.
    assert!(!meta.mark_cleaned("later".to_owned()));
    assert_eq!(meta.finished.as_deref(), Some("now"));
    assert_eq!(terminate_path(DIR, 0), "/sim/bbh/output-0000/TERMINATE");
}

fn fake_sim(job_id: &str, active: bool, chained: Option<&str>, terminated: bool) -> Row {
    let meta = record(job_id, chained, terminated);
    let state = sim_state(if active { Some(0) } else { None }, Some(0), Some(&meta));
    Row::Listed("sim".to_owned(), 1, DIR.to_owned(), state)
}

fn listed_state(row: &Row) -> &SimState {
    match row {
        Row::Listed(_, _, _, state) => state,
        _ => panic!("expected a listed row"),
    }
}

#[test]
fn list_rows_query_only_the_live_simulations() {
    let rows = vec![
        fake_sim("100", false, None, true),
        fake_sim("101", false, None, true),
        fake_sim("200", true, None, false),
        fake_sim("300", false, Some("301"), false),
        fake_sim(NO_JOB_ID, true, None, false),
        Row::Missing("/sim/ghost".to_owned()),
        Row::Broken("no simulation.toml".to_owned()),
    ];
    assert_eq!(list(&rows), ["200", "300"], "a finished history must cost no query at all");
    let none = Table::new();
    assert_eq!(row_text("ghost", &rows[5], &none, false).0, "MISSING");
    assert_eq!(row_text("broken", &rows[6], &none, false).0, "BROKEN");
    let (state, text) = row_text("live", &rows[2], &none, true);
    assert_eq!(state, "ACTIVE");
    assert_eq!(text, "config sim, 1 restart(s), job 200, latest output-0000, /sim/bbh");
}

#[test]
fn deferred_states_match_the_derivation() {
    let live = fake_sim("200", true, None, false);
    assert_eq!(listed_state(&live).state(Some(JobStatus::Running)), DisplayState::Running);
    assert_eq!(listed_state(&live).state(None), DisplayState::Active, "the query failed or never ran");
    let hist = fake_sim("100", false, None, true);
    assert_eq!(listed_state(&hist).state(None), DisplayState::Inactive);
    let chain = fake_sim("300", false, Some("301"), false);
    assert_eq!(listed_state(&chain).state(Some(JobStatus::Queued)), DisplayState::Presubmitted);
    let nojob = fake_sim(NO_JOB_ID, true, None, false);
    assert_eq!(listed_state(&nojob).state(None), display_state(true, None, false, false));
    assert_eq!(SimState::nothing().job_to_query(), None);
}

#[test]
fn batched_status_query_runs_one_command_per_pending_job() {
    let m = machine(
        r#"
        [scheduler]
        get-status = "echo @JOB_ID@"
        status-pattern = "^@JOB_ID@ "
        running-pattern = "^"
        "#,
    );
    let pending: Vec<String> = ["10", "20", "10", "30"].iter().map(|s| s.to_string()).collect();
    let vars = query_vars("", "alice", Table::new());
    let StatusPlan::Each(each) = JobScheduler::new(&m).get_statuses(&pending, &vars) else { panic!("no plan") };
    assert_eq!(each, ["10", "20", "30"]);
    // Nothing pending: no command at all.
    assert!(matches!(JobScheduler::new(&m).get_statuses(&vec![], &vars), StatusPlan::Nothing));
}

#[test]
fn stopping_is_graceful_where_it_can_be() {
    let plan = stop(DIR, Some((3, "42")), true, false);
    assert!(matches!(&plan, StopPlan::Graceful(path, 3) if path == "/sim/bbh/output-0003/TERMINATE"));
    assert_eq!(stop_text(&plan).unwrap(), "graceful termination of output-0003 requested");
    let plan = stop(DIR, Some((3, "42")), true, true);
    assert!(matches!(&plan, StopPlan::Forced(Some(job), 3) if job == "42"));
    assert_eq!(stop_text(&plan).unwrap(), "stopped job 42 (output-0003)");
    assert!(matches!(stop(DIR, Some((3, NO_JOB_ID)), false, false), StopPlan::Forced(None, 3)));
    assert!(matches!(stop(DIR, None, false, false), StopPlan::Nothing));
}

#[test]
fn live_jobs_stand_against_deletion() {
    let all = vec![(0, "10".to_owned(), JobStatus::Unknown), (1, "11".to_owned(), JobStatus::Running)];
    let err = delete("bbh", &all, false).unwrap_err();
    assert!(matches!(&err, DeleteError::Live(_, live) if live.len() == 1));
    assert!(err.message().contains("live jobs"), "{}", err.message());
    assert_eq!(delete("bbh", &all, true).unwrap(), [(1, "11".to_owned())]);
    assert!(matches!(delete_step("bbh", None, false), Err(DeleteError::Unknown(_))));
    assert!(matches!(delete_step("bbh", Some(DIR), true), Ok(DeleteStep::Remove(d)) if d == DIR));
    assert!(matches!(delete_step("bbh", Some(DIR), false), Ok(DeleteStep::Prune(d)) if d == DIR));
    assert!(is_live(JobStatus::Queued) && !is_live(JobStatus::Unknown));
    assert_eq!(job_to_check(&record("7", None, false)), Some("7"));
    assert_eq!(job_to_check(&record(NO_JOB_ID, None, false)), None);
}

#[test]
fn a_simulation_is_shown_line_by_line() {
    let lines = show_one(&sim_at(DIR), "ACTIVE", "(not recorded)", true);
    assert_eq!(lines[0], "  state:         ACTIVE");
    assert_eq!(lines[2], "  configuration: sim (build-id b)");
    assert_eq!(lines.len(), 8);
    assert!(lines[6].ends_with("(not recorded)") && lines[7].contains("cactup-thornlist.th"), "{lines:?}");
    assert_eq!(show_one(&sim_at(DIR), "ACTIVE", "-", false).len(), 6);
    let meta = record("7", None, false);
    assert_eq!(
        restart_line(1, true, "RUNNING", &meta, Some(JobStatus::Running), None, false),
        "    output-0001 (active): RUNNING \u{2014} job 7, queue debug, wall 01-00:00:00"
    );
    let mut statuses = Table::new();
    statuses.insert("7".to_owned(), JobStatus::Running);
    assert_eq!(restart_state(true, &meta, &statuses), (DisplayState::Running, Some(JobStatus::Running)));
    assert_eq!(show(&vec![Some(meta), None]), ["7"]);
    assert!(bare_line(2, false).contains("output-0002"));
    assert_eq!(state_str(DisplayState::Presubmitted), "PRESUBMITTED");
}

#[test]
fn every_restart_has_its_line() {
    let show = |state| state_str(state).to_lowercase();
    let palette = Palette {
        presubmitted: show(DisplayState::Presubmitted),
        running: show(DisplayState::Running),
        queued: show(DisplayState::Queued),
        holding: show(DisplayState::Holding),
        active: show(DisplayState::Active),
        finished: show(DisplayState::Finished),
        error: show(DisplayState::Error),
        inactive: show(DisplayState::Inactive),
    };
    let none: Table<JobStatus> = Table::new();
    assert_eq!(restart_lines(&vec![], None, &vec![], &none, &vec![], &palette, true), ["  restarts:      none"]);
    let mut statuses = Table::new();
    statuses.insert("7".to_owned(), JobStatus::Running);
    statuses.insert("8".to_owned(), JobStatus::Queued);
    let records = vec![None, Some(record("7", None, false)), Some(record("8", Some("7"), false))];
    let hosts = vec![None, Some("node12".to_owned()), None];
    let lines = restart_lines(&vec![0, 1, 2], Some(1), &records, &statuses, &hosts, &palette, true);
    assert_eq!(
        lines,
        [
            "  restarts:",
            "    output-0000: (no metadata)",
            "    output-0001 (active): running \u{2014} job 7, queue debug, wall 01-00:00:00, sched R, host node12",
            "    output-0002: presubmitted \u{2014} job 8, queue debug, wall 01-00:00:00, after job 7, sched Q",
        ]
    );
    let short = restart_lines(&vec![0, 1, 2], Some(1), &records, &statuses, &hosts, &palette, false);
    assert!(short[2].ends_with("wall 01-00:00:00"), "{short:?}");
    assert!(asks_host(Some(JobStatus::Running), true));
    assert!(!asks_host(Some(JobStatus::Running), false) && !asks_host(Some(JobStatus::Queued), true));
    assert!(!asks_host(None, true));
}

#[test]
fn lists_have_a_line_for_every_simulation() {
    let (heading, row) = (ListLine::Heading, ListLine::Row);
    assert_eq!(list_lines(&vec![], true), [ListLine::Nothing]);
    assert_eq!(list_lines(&vec![0, 0], false), [row(0), row(1)]);
    // The second installation has none.
    assert_eq!(list_lines(&vec![0, 0, 2], true), [heading(0), row(0), row(1), heading(2), row(2)]);
}

#[test]
fn the_latest_output_is_looked_at() {
    assert_eq!(output_dir("bbh", DIR, Some(7), Some(1), Some(2)).unwrap(), (7, "/sim/bbh/output-0007".to_owned()));
    assert_eq!(output_dir("bbh", DIR, None, Some(1), Some(2)).unwrap().0, 1);
    assert_eq!(output_dir("bbh", DIR, None, None, None).unwrap_err(), "simulation \"bbh\" has no restarts yet");
    let (id, out, err) = log_cmd("bbh", DIR, None, Some(2), &vec![]).unwrap();
    assert_eq!((id, out.as_str(), err.as_str()), (2, "/sim/bbh/output-0002/bbh.out", "/sim/bbh/output-0002/bbh.err"));
    let vars = vec![("STDOUT_FILE".to_owned(), TomlValue::Str("/tmp/o".to_owned()))];
    assert_eq!(log_cmd("bbh", DIR, Some(1), None, &vars).unwrap().1, "/tmp/o");
    assert!(log_cmd("bbh", DIR, None, None, &vec![]).is_err());
}

fn fake_machine() -> Machine {
    let meta = machine(
        r#"
        [machine]
        name = "fake"

        [hardware]
        max-cpus-per-node = 8

        [environment]
        env-setup = "export CACTUP_TEST_ENV=1"

        [scheduler]
        submit = "echo submitted as [JOB-@RESTART_ID@]"
        submit-pattern = '\[(JOB-[^\]]*)\]'
        get-status = "true"
        status-pattern = "$^"
        queued-pattern = "$^"
        running-pattern = "$^"
        holding-pattern = "$^"
        stop = "true"

        [queues.batch]
        default = true
        max-walltime = "24:00:00"

        [variants.submitscript]
        "default" = { queues = ["batch"], default = true }

        [variants.runscript]
        "default" = { queues = ["batch"], default = true }

        [variants.optionlist]
        variants = []
        "#,
    );
    Machine { name: "fake".to_owned(), dir: "/mdb/fake".to_owned(), layer: Layer::System, meta }
}

const SUBMITSCRIPT: &str = "#!/bin/sh\n# chained: @CHAINED_JOB_ID@\n\
    exec @CACTUP@ sim run @SIMULATION_NAME@ --installation=@ALIAS@ \
    --sim-dir=@SIMULATION_DIR@ --machine=@MACHINE@ --restart-id=@RESTART_ID@\n";

const RUNSCRIPT: &str = "#!/bin/sh\ncd @RUNDIR@-active\n\
    echo \"ran @SIMULATION_NAME@ tasks=@TASKS@\" > ran.txt\n\
    grep -q . @PARFILE@ || exit 3\n";

fn config() -> ConfigMeta {
    ConfigMeta {
        name: "sim".to_owned(),
        variant: "default".to_owned(),
        gpu: false,
        compatible_queues: vec![],
        universe: None,
        coerce_run_universe: true,
        thornlist: "einsteintoolkit.th".to_owned(),
        machine: "fake".to_owned(),
        config_id: "config-sim-1".to_owned(),
        build_id: "build-sim-1".to_owned(),
    }
}

fn request(force: bool) -> CreateRequest {
    CreateRequest {
        force,
        name: "bbh".to_owned(),
        parfile: "/tmp/bbh.par".to_owned(),
        config: None,
        sim_dir: None,
    }
}

fn facts() -> CreateFacts {
    CreateFacts {
        machine: "fake".to_owned(),
        alias: "et".to_owned(),
        sim_home: "/simhome".to_owned(),
        cactus_root: "/inst/Cactus".to_owned(),
        simulation_id: "simulation-bbh-x".to_owned(),
        config: ConfigFacts {
            built: true,
            in_flight: None,
            executable: "/inst/Cactus/exe/cactus_sim".to_owned(),
            has_executable: true,
            config_id: "config-sim-1".to_owned(),
            build_id: "build-sim-1".to_owned(),
        },
        parfile_name: Some("bbh.par".to_owned()),
        parfile_exists: true,
        has_rendered_optionlist: true,
        has_source_optionlist: true,
        has_processed_thornlist: true,
        has_thornlist_snapshot: true,
        registered: None,
        dir_exists: false,
    }
}

fn start_args(sim: &str, wall: &str) -> SimStartArgs {
    SimStartArgs {
        sim: sim.to_owned(),
        parfile: None,
        config: None,
        overwrite: false,
        force: false,
        force_queue: false,
        checkpt_buffer: None,
        topology: TopologyFlags {
            allocation: None,
            queue: None,
            mail: None,
            mail_type: None,
            nodes: None,
            tasks: None,
            tpn: None,
            cpus: None,
            gpu: false,
            gpus_per_task: None,
            job_name: None,
            wall_time: Some(Walltime::parse(wall).unwrap()),
            out: None,
            err: None,
        },
        universe: UniverseFlags { universe: None, no_universe: false },
    }
}

#[test]
fn submit_chains_and_compute_run_executes() {
    let machine = fake_machine();
    let name = choose_config(&request(false), Some("sim")).unwrap();
    let made = create(&request(false), &name, &facts()).unwrap();
    let sim = made.simulation;
    // What the build was made from travels with the simulation.
    assert_eq!(sim.meta.optionlist, "cactup-optionlist.cfg");
    assert_eq!(sim.meta.thornlist, "cactup-thornlist.th");
    assert_eq!(sim.exe(), format!("{}/.cactup/exe", sim.dir));
    assert_eq!(made.logged, "created simulation (config sim, build-id build-sim-1)");

    // 50 h on a 24 h ceiling: three chained segments.
    let knobs: Table<String> = Table::new();
    let cfg = config();
    let mut plan = submit(&start_args("bbh", "50:00:00"), &sim, &machine, &knobs, Some(&cfg), None).ok().unwrap();
    assert_eq!((plan.submit_variant.as_str(), plan.run_variant.as_str()), ("default", "default"));
    assert!(splitting_text(&plan).unwrap().ends_with("pre-submitting 3 chained jobs (§8.8)"));
    // Each segment reserves the ceiling, and keeps an hour of it.
    assert_eq!(plan.job_wall, Walltime::parse("24:00:00").unwrap());
    assert_eq!(plan.checkpt_buffer, Walltime(3600));

    let mut listing = entries(&[]);
    let mut records = Vec::new();
    let mut run_scripts = Vec::new();
    while plan.chain.more() {
        let id = next_id(&listing).unwrap();
        let waits_for = plan.chain.waits_for.clone();
        let input = RestartVarsInput {
            sim: &sim,
            machine: &machine,
            topo: &plan.topo,
            sim_home: "/simhome",
            restart_id: id,
            job_wall: plan.job_wall,
            checkpt_buffer: plan.checkpt_buffer,
            chained_job_id: waits_for.as_deref().unwrap_or(""),
            hostname: "testhost",
            user: "alice",
            email: "",
            run_universe: None,
            debug: false,
            cactup: "cactup",
        };
        let vars = assemble(&input, Table::new()).ok().unwrap();
        let for_submit = submit_vars(&vars, &machine.meta, None);
        assert_eq!(for_submit.get("ENV_SETUP").unwrap().canonical(), "export CACTUP_TEST_ENV=1");
        let part = segment(
            &plan,
            &machine.meta,
            &vars,
            &for_submit,
            &ScriptSource::Template(SUBMITSCRIPT.to_owned()),
            &ScriptSource::Template(RUNSCRIPT.to_owned()),
            "now".to_owned(),
        )
        .ok()
        .unwrap();
        if id == 1 {
            let script = &part.submit_script;
            assert!(script.contains("--restart-id=1") && script.contains("--sim-dir="), "{script}");
            assert!(
                script.starts_with("#!/bin/sh\n# chained: JOB-0\nexport CACTUP_TEST_ENV=1\nexec"),
                "the environment follows the directives: {script}"
            );
        }
        let mut meta = part.record;
        assert_eq!((meta.job_id.as_str(), meta.created.as_str()), (NO_JOB_ID, "now"));
        listing.push((dir_name(id), true));
        assert_eq!(part.activates, id == 0);
        if part.activates {
            let marker = make_active(&listing, &sim.dir, id).unwrap().path;
            listing.push((marker.rsplit('/').next().unwrap().to_owned(), true));
        }
        let Ok(WrappedCommand::Shell(command)) = part.command else { panic!("no shell command") };
        assert!(command.ends_with(&format!("echo submitted as [JOB-{id}]")), "{command}");
        let job = JobScheduler::new(&machine.meta).submitted(&format!("submitted as [JOB-{id}]\n")).unwrap();
        meta.mark_submitted(job.clone());
        plan.chain.submitted(&job);
        records.push((id, meta));
        run_scripts.push(part.run_script);
    }
    assert_eq!(list_ids(&listing), vec![0, 1, 2]);
    // Only the first restart of the chain is active.
    assert_eq!(active_id(&listing, &sim.dir).unwrap(), Some(0));
    assert_eq!(records[0].1.job_id, "JOB-0");
    assert_eq!(records[0].1.chained_job_id.as_deref(), None);
    assert_eq!(records[1].1.chained_job_id.as_deref(), Some("JOB-0"));
    assert_eq!(records[2].1.chained_job_id.as_deref(), Some("JOB-1"));
    assert_eq!(records[1].1.walltime, Walltime::parse("24:00:00").unwrap());

    // What is recorded is enough to go on from.
    let vars = thaw_vars(&records[2].1.vars).ok().unwrap();
    assert_eq!(vars.get("RESTART_ID").unwrap().canonical(), "2");
    assert_eq!(vars.get("QUEUE").unwrap().canonical(), "batch");
    assert_eq!(vars.get("TASKS").unwrap().canonical(), "8", "the node is filled");

    // On the compute node, the second restart takes over.
    let Handoff::Switch(Some(old), link) = handoff_active(&listing, &sim.dir, 1).unwrap() else { panic!("kept") };
    assert!(old.ends_with("output-0000-active") && link.path.ends_with("output-0001-active"));
    let vars = thaw_vars(&records[1].1.vars).ok().unwrap();
    let script = run_scripts[1].clone();
    assert_eq!(
        script,
        generate_script(&machine.meta, ScriptKind::Run, RUNSCRIPT, &vars, Phase::Run, None).unwrap(),
        "the record gives the same script again"
    );
    assert!(script.contains("echo \"ran bbh tasks=8\" > ran.txt"), "{script}");
    let par = vars.substitute("ActiveThorns = \"IOUtil\"\n# sim @SIMULATION_NAME@ t=@TASKS@ lit=@@\n").unwrap();
    assert!(par.contains("# sim bbh t=8 lit=@"), "{par}");
    assert_eq!(ready_parfile(&sim, "/r"), "/r/bbh.par");
    let WrappedCommand::Shell(run) = script_command("/r/run-script", &script, None, &vars).unwrap() else {
        panic!("no shell command")
    };
    assert_eq!(run, "'/r/run-script'");
    let mut meta = record("JOB-1", Some("JOB-0"), false);
    meta.mark_started("then".to_owned());
    meta.mark_finished("now".to_owned());
    assert!(meta.terminated && meta.finished.is_some());
    assert_eq!(execute_restart(&RunEnd::Success), Ok(()));
    assert_eq!(end_text(1, &RunEnd::Failure("exit status: 3".to_owned())), "output-0001 failed (exit status: 3)");
    assert!(submitted_text(0, "JOB-0", "batch", plan.job_wall, &None).starts_with("submitted output-0000 as job JOB-0"));
}

#[test]
fn a_run_in_the_foreground_is_its_own_job() {
    let machine = fake_machine();
    let sim = create(&request(false), "sim", &facts()).unwrap().simulation;
    let knobs: Table<String> = Table::new();
    let cfg = config();
    let plan = run(&start_args("bbh", "50:00:00"), &sim, &machine, &knobs, Some(&cfg), None).ok().unwrap();
    // It has the ceiling at most, and no chain.
    assert_eq!(plan.job_wall, Walltime::parse("24:00:00").unwrap());
    let mut vars = VarSet::new();
    vars.set("RUNDIR", text_value("/r"));
    vars.set("SIMULATION_NAME", text_value("bbh"));
    vars.set("TASKS", number_value(8));
    vars.set("PARFILE", text_value("/r/bbh.par"));
    let source = ScriptSource::Template(RUNSCRIPT.to_owned());
    let (script, meta) = foreground(&plan, &machine.meta, &vars, &source, 4242, "now".to_owned()).ok().unwrap();
    assert!(script.starts_with("#!/bin/sh\nexport CACTUP_TEST_ENV=1\ncd /r-active\n"), "{script}");
    assert_eq!((meta.job_id.as_str(), meta.chained_job_id.as_deref()), ("4242", None));
    assert_eq!((meta.queue.as_str(), meta.walltime), ("batch", plan.job_wall));
    assert!(!meta.terminated && meta.started.is_none());

    // What a script writes itself is taken as it is, and a template that asks for more is refused.
    let emitted = ScriptSource::Emitted("#!/bin/sh\ntrue @HERE@\n".to_owned());
    let (script, _) = foreground(&plan, &machine.meta, &vars, &emitted, 1, "now".to_owned()).ok().unwrap();
    assert_eq!(script, "#!/bin/sh\ntrue @HERE@\n");
    let source = ScriptSource::Template("@HERE@".to_owned());
    assert!(foreground(&plan, &machine.meta, &vars, &source, 1, "now".to_owned()).is_err());
}

#[test]
fn what_a_simulation_keeps_has_its_place() {
    let sim = create(&request(false), "sim", &facts()).unwrap().simulation;
    assert_eq!(sim.master_parfile(), format!("{}/.cactup/par/bbh.par", sim.dir));
    assert_eq!(sim.meta_path(), format!("{}/.cactup/simulation.toml", sim.dir));
    assert_eq!(sim.log_path(), format!("{}/log.txt", sim.dir));
    let dir = format!("{}/output-0003", sim.dir);
    let restart = Restart { id: 3, dir: dir.clone(), meta: record("7", None, false) };
    assert_eq!(restart.cactup_dir(), format!("{dir}/.cactup"));
    assert_eq!(restart.running_lock_path(), format!("{dir}/.cactup/running.lock"));
    assert_eq!(restart.heartbeat_path(), format!("{dir}/.cactup/heartbeat"));
    assert_eq!((delete_text(true), delete_text(false)), ("purging simulation", "moving simulation to TRASH"));
}

#[test]
fn resubmit_allocates_a_fresh_restart_and_leaves_checkpoints_alone() {
    let machine = fake_machine();
    let sim = create(&request(false), "sim", &facts()).unwrap().simulation;
    let listing = entries(&[("output-0000", true), ("output-0001", true)]);
    let knobs: Table<String> = Table::new();
    let cfg = config();
    let plan = submit(&start_args("bbh", "1:00:00"), &sim, &machine, &knobs, Some(&cfg), None).ok().unwrap();
    assert!(splitting_text(&plan).is_none() && plan.chain.activates);
    assert_eq!(next_id(&listing).unwrap(), 2);
    assert_eq!(make_active(&listing, &sim.dir, 2).unwrap().target, "output-0002");
}

#[test]
fn submit_conflicting_parfile_needs_overwrite() {
    let mut args = start_args("bbh", "1:00:00");
    args.parfile = Some("/tmp/bbh.par".to_owned());
    let err = obtain_sim(&args, true).err().unwrap().message();
    assert!(err.contains("--overwrite"), "{err}");
    args.overwrite = true;
    assert!(matches!(obtain_sim(&args, true), Ok(Obtain::Replace)));
    // No simulation and no parfile: guidance.
    let ghost = start_args("ghost", "1:00:00");
    let err = obtain_sim(&ghost, false).err().unwrap().message();
    assert!(err.contains("parfile"), "{err}");
    assert!(matches!(obtain_sim(&args, false), Ok(Obtain::Create)));
    assert!(matches!(obtain_sim(&ghost, true), Ok(Obtain::Locate)));
}

fn universe(argv: Option<&[&str]>, run_setup: Option<&str>) -> Universe {
    Universe {
        kind: None,
        wrapper_argv: argv.map(|list| list.iter().map(|s| s.to_string()).collect()),
        wrapper: None,
        environment: Environment {
            env_setup: None,
            env_build_setup: None,
            env_submit_setup: None,
            env_run_setup: run_setup.map(str::to_owned),
        },
    }
}

#[test]
fn run_universe_precedence() {
    let mut machine = fake_machine();
    machine.meta.universes.insert("sif".to_owned(), universe(Some(&["apptainer", "exec", "img.sif"]), None));
    machine.meta.universes.insert("other".to_owned(), universe(Some(&["env"]), None));
    let cfg_plain = config();
    let mut cfg_coerced = config();
    cfg_coerced.universe = Some("sif".to_owned());
    let mut cfg_optout = config();
    cfg_optout.universe = Some("sif".to_owned());
    cfg_optout.coerce_run_universe = false;
    let no_flags = UniverseFlags { universe: None, no_universe: false };
    let no_uni = UniverseFlags { universe: None, no_universe: true };
    let pick = |meta: &Meta, cfg: &ConfigMeta, cli: &UniverseFlags, variant: Option<&str>, default: Option<&str>| {
        resolve_run_universe(meta, cfg, cli, variant, default).ok().unwrap().map(|(name, _)| name)
    };
    let meta = &machine.meta;

    // The command line wins.
    let cli = UniverseFlags { universe: Some("other".to_owned()), no_universe: false };
    assert_eq!(pick(meta, &cfg_coerced, &cli, None, None).as_deref(), Some("other"));
    assert_eq!(pick(meta, &cfg_coerced, &no_uni, None, None), None);
    // The build's universe beats the variant's own.
    assert_eq!(pick(meta, &cfg_coerced, &no_flags, Some("other"), None).as_deref(), Some("sif"));
    assert!(universe_note(meta, &cfg_coerced, &no_flags, Some("other")).is_some());
    // Where it is not coerced, the variant's is taken.
    assert_eq!(pick(meta, &cfg_optout, &no_flags, Some("other"), None).as_deref(), Some("other"));
    // The variant, then the default, then none.
    assert_eq!(pick(meta, &cfg_plain, &no_flags, None, Some("sif")).as_deref(), Some("sif"));
    assert_eq!(pick(meta, &cfg_plain, &no_flags, None, None), None);
    // Unknown names are errors that list the known ones.
    let bad = UniverseFlags { universe: Some("ghost".to_owned()), no_universe: false };
    let err = resolve_run_universe(meta, &cfg_plain, &bad, None, None).err().unwrap().message();
    assert!(err.contains("sif"), "{err}");

    // A host that is declared is the last resort of both.
    machine.meta.universes.insert("host".to_owned(), universe(None, Some("module load x")));
    let meta = &machine.meta;
    assert_eq!(pick(meta, &cfg_plain, &no_flags, None, None).as_deref(), Some("host"));
    assert_eq!(pick(meta, &cfg_plain, &no_uni, None, None), None);
    let got = resolve_submit_universe(meta, None, None).ok().unwrap();
    assert_eq!(got.unwrap().0, "host");
    let got = resolve_submit_universe(meta, Some("sif"), None).ok().unwrap();
    assert_eq!(got.unwrap().0, "sif");
}

#[test]
fn env_prepend_placement_per_script_kind() {
    // A runscript: right after the first line.
    let script = "#!/bin/bash\necho hi\n";
    let out = prepend_env(script, "module load x", ScriptKind::Run);
    assert_eq!(out, "#!/bin/bash\nmodule load x\necho hi\n");
    assert_eq!(prepend_env("echo hi\n", "E", ScriptKind::Run), "E\necho hi\n");
    assert_eq!(prepend_env(script, "", ScriptKind::Run), script);
    // A submitscript: after the whole leading block of comments and blank lines.
    let sub = "#!/bin/bash\n#SBATCH -N 1\n\n#SBATCH -p gpu\necho go\n";
    assert_eq!(
        prepend_env(sub, "E", ScriptKind::Submit),
        "#!/bin/bash\n#SBATCH -N 1\n\n#SBATCH -p gpu\nE\necho go\n"
    );
    assert_eq!(prepend_env(sub, "", ScriptKind::Submit), sub);
    assert_eq!(prepend_env("echo go\n", "E", ScriptKind::Submit), "E\necho go\n");
    // Nothing but the block: at the end.
    assert_eq!(
        prepend_env("#!/bin/sh\n# nothing else\n", "E", ScriptKind::Submit),
        "#!/bin/sh\n# nothing else\nE\n"
    );
    assert_eq!(prepend_env("#c", "E", ScriptKind::Submit), "#c\nE\n");
}

#[test]
fn shell_quoting() {
    assert_eq!(shell_quote("/a b/c"), "'/a b/c'");
    assert_eq!(shell_quote("it's"), "'it'\\''s'");
}

#[test]
fn a_second_start_is_refused_or_chained() {
    let machine = fake_machine();
    let sim = create(&request(false), "sim", &facts()).unwrap().simulation;
    let knobs: Table<String> = Table::new();
    let cfg = config();
    let args = start_args("bbh", "1:00:00");
    // A submission waits for the job that is there.
    let plan = submit(&args, &sim, &machine, &knobs, Some(&cfg), Some((0, "77"))).ok().unwrap();
    assert_eq!(plan.chain.waits_for.as_deref(), Some("77"));
    assert!(!plan.chain.activates);
    assert!(chaining_text(0, "77").contains("77"));
    // One without a job is in the way.
    let err = submit(&args, &sim, &machine, &knobs, Some(&cfg), Some((0, NO_JOB_ID))).err().unwrap();
    assert!(matches!(&err, StartError::Stuck(0, _)), "{}", err.message());
    // A run is refused.
    let err = run(&args, &sim, &machine, &knobs, Some(&cfg), Some(0)).err().unwrap();
    assert!(matches!(&err, StartError::Busy(_, 0)), "{}", err.message());
    let plan = run(&args, &sim, &machine, &knobs, Some(&cfg), None).ok().unwrap();
    assert_eq!((plan.run_variant.as_str(), plan.job_wall), ("default", Walltime(3600)));
    let err = submit(&args, &sim, &machine, &knobs, None, None).err().unwrap();
    assert!(matches!(&err, StartError::NoConfig(_)), "{}", err.message());
}

#[test]
fn creation_is_refused_for_each_reason() {
    let refused = |change: &dyn Fn(&mut CreateFacts)| {
        let mut f = facts();
        change(&mut f);
        create(&request(false), "sim", &f).err().unwrap()
    };
    assert!(matches!(refused(&|f| f.config.built = false), CreateError::NeverBuilt(_)));
    let building = |f: &mut CreateFacts| f.config.in_flight = Some("pid 7".to_owned());
    assert!(matches!(refused(&building), CreateError::Racing(_)));
    assert!(matches!(
        refused(&|f| {
            f.config.built = false;
            building(f)
        }),
        CreateError::InFlight(_, _)
    ));
    assert!(matches!(refused(&|f| f.config.has_executable = false), CreateError::NoExecutable(_, _)));
    assert!(matches!(refused(&|f| f.registered = Some("/old".to_owned())), CreateError::Exists(_, _)));
    assert!(matches!(refused(&|f| f.dir_exists = true), CreateError::DirExists(_)));
    assert!(matches!(refused(&|f| f.parfile_exists = false), CreateError::NoParfile(_)));
    assert!(matches!(choose_config(&request(false), None), Err(CreateError::NoConfig)));
    // By force, what is there gives way.
    let mut f = facts();
    f.registered = Some("/old".to_owned());
    f.dir_exists = true;
    let made = create(&request(true), "sim", &f).unwrap();
    assert_eq!(made.removed, ["/old".to_owned(), made.simulation.dir]);
}

#[test]
fn simulations_are_found_where_they_are_registered() {
    assert_eq!(Simulation::locate("et", "bbh", Some(DIR), true).unwrap(), DIR);
    assert!(matches!(Simulation::locate("et", "bbh", Some(DIR), false), Err(LocateError::Missing(_, _))));
    assert!(matches!(Simulation::locate("et", "bbh", None, false), Err(LocateError::Unknown(_, _))));
    assert!(matches!(Simulation::open("bbh", DIR, None), Err(LocateError::NotOne(_, _))));
    let mut newer = sim_at(DIR).meta;
    newer.schema = 99;
    assert!(matches!(Simulation::open("bbh", DIR, Some(newer)), Err(LocateError::Schema(_, 99))));
    let sim = Simulation::open("bbh", DIR, Some(sim_at(DIR).meta)).unwrap();
    assert_eq!(sim.meta_path(), "/sim/bbh/.cactup/simulation.toml");
    assert!(!sim.is_python_parfile());
}

/// A universe that is recorded wraps a command as the declared one does.
#[test]
fn recorded_universes_wrap() {
    let u = universe(Some(&["env", "-i"]), None);
    let spec = UniverseSpec::from_universe("sif", &u);
    assert_eq!(spec.name, "sif");
    let vars = VarSet::new();
    assert_eq!(spec.to_universe().wrap(&vars, "make").unwrap(), u.wrap(&vars, "make").unwrap());
}

#[test]
fn the_heart_beats_once_a_period() {
    assert_eq!(beat(9, 10, 0), None);
    assert_eq!(beat(10, 10, 0), Some(1));
    assert_eq!(beat(19, 10, 1), None);
    assert_eq!(beat(35, 10, 1), Some(3));
}

#[test]
fn identities_come_from_the_knobs() {
    let mut knobs = Table::new();
    knobs.insert("user".to_owned(), "alice".to_owned());
    let id = Identity::resolve(&knobs, "host");
    assert_eq!((id.hostname.as_str(), id.user.as_str(), id.email.as_str()), ("host", "alice", ""));
}

#[test]
fn records_of_restarts_are_checked() {
    assert!(check_record(1, "/p", Some(1)).is_ok());
    assert!(matches!(check_record(1, "/p", None), Err(RestartError::NoMeta(1, _))));
    assert!(matches!(check_record(1, "/p", Some(99)), Err(RestartError::Schema(_, 99))));
    assert_eq!(job_of(&record("7", None, false)), Some("7"));
    let mut meta = record("7", None, false);
    meta.mark_stopped("now".to_owned());
    assert!(meta.terminated);
}
