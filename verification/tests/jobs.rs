//! Jobs: submitting them, and reading what the scheduler says of them.

use cactup::mdb::meta::{
    Build, CactupMeta, Environment, Hardware, MachineInfo, Meta, OptionlistVariants, Paths, Queue, Scheduler as SchedulerMeta,
    ScriptVariants, Variants,
};
use cactup::mdb::universe::{Universe, WrappedCommand};
use cactup::mdb::variants::string_or_seq;
use cactup::scheduler::{
    answer_each, answer_listing, classify, collect_output, display_state, job_id_in, judge, query_vars, status_listing, DisplayState, JobStatus, Scheduler, SchedulerError, StatusPlan, Wait, WaitStep, Waited,
};
use cactup::table::Table;
use cactup::template::{text_value, VarSet};
use cactup::toml_text::{get_field, read_toml, TomlValue};
use cactup::walltime::Walltime;

type Items = Vec<(String, TomlValue)>;

fn items<'a>(all: &'a Items, key: &str) -> Option<&'a Items> {
    match get_field(all, key) {
        Some(TomlValue::Dict(inner)) => Some(inner),
        Some(_) => panic!("{key} is no table"),
        None => None,
    }
}

fn text(all: &Items, key: &str) -> Option<String> {
    match get_field(all, key) {
        Some(TomlValue::Str(s)) => Some(s.clone()),
        Some(_) => panic!("{key} is no text"),
        None => None,
    }
}

fn texts(all: &Items, key: &str) -> Option<Vec<String>> {
    get_field(all, key).map(|v| string_or_seq(v).expect("a list of texts"))
}

fn flag(all: &Items, key: &str) -> bool {
    matches!(get_field(all, key), Some(TomlValue::Bool(true)))
}

fn number(all: &Items, key: &str) -> Option<u32> {
    match get_field(all, key) {
        Some(TomlValue::Int(n)) => Some(*n as u32),
        Some(_) => panic!("{key} is no number"),
        None => None,
    }
}

fn wall(all: &Items, key: &str) -> Option<Walltime> {
    text(all, key).map(|s| Walltime::parse(&s).expect("a walltime"))
}

fn environment(all: &Items) -> Environment {
    Environment {
        env_setup: text(all, "env-setup"),
        env_build_setup: text(all, "env-build-setup"),
        env_submit_setup: text(all, "env-submit-setup"),
        env_run_setup: text(all, "env-run-setup"),
    }
}

/// The machine that a `meta.toml` describes.
fn machine(source: &str) -> Meta {
    let none: Items = Vec::new();
    let TomlValue::Dict(doc) = read_toml(source).expect("a TOML document") else { panic!("a document is a table") };
    let at = |key: &str| items(&doc, key).unwrap_or(&none);
    let (info, paths, hw, build, sched, variants) =
        (at("machine"), at("paths"), at("hardware"), at("build"), at("scheduler"), at("variants"));
    let mut queues: Table<Queue> = Table::new();
    for (name, value) in at("queues") {
        let TomlValue::Dict(q) = value else { panic!("a queue is a table") };
        let queue = Queue {
            gpu: flag(q, "gpu"),
            max_walltime: wall(q, "max-walltime"),
            default: flag(q, "default"),
            name: text(q, "name"),
            build_universes: texts(q, "build-universes"),
            max_cpus_per_node: number(q, "max-cpus-per-node"),
            default_cpus_per_task: number(q, "default-cpus-per-task"),
            max_gpus_per_node: number(q, "max-gpus-per-node"),
            default_gpus_per_task: number(q, "default-gpus-per-task"),
            threads_per_cpu: number(q, "threads-per-cpu"),
            memory: number(q, "memory").map(u64::from),
        };
        queues.insert(name.clone(), queue);
    }
    let mut universes: Table<Universe> = Table::new();
    for (name, value) in at("universes") {
        let TomlValue::Dict(u) = value else { panic!("a universe is a table") };
        let universe = Universe {
            kind: text(u, "kind"),
            wrapper_argv: texts(u, "wrapper-argv"),
            wrapper: text(u, "wrapper"),
            environment: environment(u),
        };
        universes.insert(name.clone(), universe);
    }
    Meta {
        machine: MachineInfo {
            name: text(info, "name"),
            nickname: text(info, "nickname"),
            status: text(info, "status"),
            hostname: text(info, "hostname"),
            location: text(info, "location"),
            description: text(info, "description"),
        },
        paths: Paths {
            install_home: text(paths, "install-home"),
            simulation_home: text(paths, "simulation-home"),
            test_home: text(paths, "test-home"),
            scratch_home: text(paths, "scratch-home"),
        },
        hardware: Hardware {
            autodetect: flag(hw, "autodetect"),
            max_cpus_per_node: number(hw, "max-cpus-per-node"),
            default_cpus_per_task: number(hw, "default-cpus-per-task"),
            max_gpus_per_node: number(hw, "max-gpus-per-node"),
            default_gpus_per_task: number(hw, "default-gpus-per-task"),
            threads_per_cpu: number(hw, "threads-per-cpu"),
            memory: number(hw, "memory").map(u64::from),
        },
        build: Build {
            make: text(build, "make"),
            make_jobs: number(build, "make-jobs"),
            enabled_thorns: texts(build, "enabled-thorns").unwrap_or_default(),
            disabled_thorns: texts(build, "disabled-thorns").unwrap_or_default(),
            universe: text(build, "universe"),
        },
        environment: environment(at("environment")),
        scheduler: SchedulerMeta {
            submit: text(sched, "submit"),
            blocking_submit: text(sched, "blocking-submit"),
            interactive_cmd: text(sched, "interactive-cmd"),
            get_status: text(sched, "get-status"),
            get_status_many: text(sched, "get-status-many"),
            stop: text(sched, "stop"),
            submit_pattern: text(sched, "submit-pattern"),
            status_pattern: text(sched, "status-pattern"),
            queued_pattern: text(sched, "queued-pattern"),
            running_pattern: text(sched, "running-pattern"),
            holding_pattern: text(sched, "holding-pattern"),
            exec_host: text(sched, "exec-host"),
            exec_host_pattern: text(sched, "exec-host-pattern"),
            stdout: text(sched, "stdout"),
            stderr: text(sched, "stderr"),
            stdout_follow: text(sched, "stdout-follow"),
            max_queue_slots: number(sched, "max-queue-slots"),
            max_walltime: wall(sched, "max-walltime"),
            allocation_env: texts(sched, "allocation-env").unwrap_or_default(),
        },
        queues,
        variants: Variants {
            submitscript: ScriptVariants::from_toml(items(variants, "submitscript").unwrap_or(&none)).unwrap_or_else(|e| panic!("{}", e.message())),
            runscript: ScriptVariants::from_toml(items(variants, "runscript").unwrap_or(&none)).unwrap_or_else(|e| panic!("{}", e.message())),
            optionlist: OptionlistVariants {
                variants: items(variants, "optionlist").and_then(|o| texts(o, "variants")).unwrap_or_default(),
            },
        },
        universes,
        cactup: CactupMeta { origin: None, mdb_generation: None },
    }
}

fn meta(scheduler_toml: &str) -> Meta {
    machine(&format!(
        r#"
        [machine]
        nickname = "fake"
        [scheduler]
        {scheduler_toml}
        [queues.local]
        default = true
        [variants.submitscript]
        "default" = ["local"]
        [variants.runscript]
        "default" = ["local"]
        [variants.optionlist]
        variants = ["default"]
        "#
    ))
}

fn scriptfile(name: &str) -> VarSet {
    let mut vars = VarSet::new();
    vars.set("SCRIPTFILE", text_value(name));
    vars
}

fn shell(command: &str) -> WrappedCommand {
    WrappedCommand::Shell(command.to_owned())
}

fn exited(success: bool, output: &str) -> Waited {
    let status = if success { "exit status: 0" } else { "exit status: 1" };
    Waited::Exited { success, status: status.to_owned(), output: output.to_owned() }
}

#[test]
fn submit_parses_job_id_and_prepends_env() {
    let mut m = meta(
        r#"
        submit = "echo submitted as $CACTUP_TEST_MARKER-@SCRIPTFILE@"
        submit-pattern = "as (.*)"
        "#,
    );
    m.environment.env_setup = Some("CACTUP_TEST_MARKER=77".to_owned());
    let sched = Scheduler::new(&m);
    assert_eq!(
        sched.submit(&scriptfile("run.sh"), None).unwrap(),
        shell("CACTUP_TEST_MARKER=77\necho submitted as $CACTUP_TEST_MARKER-run.sh")
    );
    assert_eq!(sched.submitted("submitted as 77-run.sh\n").unwrap(), "77-run.sh");
}

#[test]
fn submit_inside_a_universe() {
    let mut m = meta(r#"submit = "echo id=@SCRIPTFILE@""#);
    let universe = Universe {
        kind: None,
        wrapper_argv: Some(vec!["env".to_owned(), "IGNORED=1".to_owned()]),
        wrapper: None,
        environment: environment(&Vec::new()),
    };
    m.universes.insert("sif".to_owned(), universe);
    let sched = Scheduler::new(&m);
    let universe = m.universes.get("sif").unwrap();
    let argv = ["env", "IGNORED=1", "/bin/sh", "-c", "echo id=s.sh"];
    assert_eq!(
        sched.submit(&scriptfile("s.sh"), Some(("sif", universe))).unwrap(),
        WrappedCommand::Argv(argv.iter().map(|s| s.to_string()).collect())
    );
    // The pattern defaults to the whole of the trimmed output.
    assert_eq!(sched.submitted("id=s.sh\n").unwrap(), "id=s.sh");
}

#[test]
fn submit_env_follows_the_submit_universe() {
    let mut m = meta(r#"submit = "echo id=@SCRIPTFILE@-$CACTUP_SUB_ENV""#);
    m.environment.env_submit_setup = Some("CACTUP_SUB_ENV=base".to_owned());
    let mut inner = environment(&Vec::new());
    inner.env_submit_setup = Some("CACTUP_SUB_ENV=uni".to_owned());
    m.universes.insert(
        "u".to_owned(),
        Universe { kind: None, wrapper_argv: None, wrapper: None, environment: inner },
    );
    let sched = Scheduler::new(&m);
    let vars = scriptfile("s.sh");
    assert_eq!(
        sched.submit(&vars, None).unwrap(),
        shell("CACTUP_SUB_ENV=base\necho id=s.sh-$CACTUP_SUB_ENV")
    );
    assert_eq!(
        sched.submit(&vars, Some(("u", m.universes.get("u").unwrap()))).unwrap(),
        shell("CACTUP_SUB_ENV=uni\necho id=s.sh-$CACTUP_SUB_ENV")
    );
    assert_eq!(sched.submitted("id=s.sh-base\n").unwrap(), "id=s.sh-base");
    assert_eq!(sched.submitted("id=s.sh-uni\n").unwrap(), "id=s.sh-uni");
}

/// The id reaches the caller with the line that holds it, while the command still runs.
#[test]
fn blocking_submit_reports_the_job_id_before_the_command_returns() {
    let m = meta(
        r#"
        blocking-submit = "echo 'Submitted batch job 4242'; sleep 0.4"
        submit-pattern = 'Submitted batch job ([0-9]+)'
        "#,
    );
    let (command, mut watch) = Scheduler::new(&m).submit_blocking(&VarSet::new(), None).unwrap();
    assert_eq!(command, shell("echo 'Submitted batch job 4242'; sleep 0.4"));
    assert_eq!(watch.line("sbatch: waiting"), None);
    assert_eq!(watch.line("Submitted batch job 4242"), Some("4242".to_owned()));
    // Only the first id counts.
    assert_eq!(watch.line("Submitted batch job 4243"), None);
    assert_eq!(watch.finish(exited(true, "")).unwrap(), "4242");
}

#[test]
fn blocking_submit_ignores_a_nonzero_exit_once_it_has_a_job_id() {
    let m = meta(
        r#"
        blocking-submit = "echo '[JOB-7]'; exit 3"
        submit-pattern = '\[(JOB-[^\]]*)\]'
        "#,
    );
    let (_, mut watch) = Scheduler::new(&m).submit_blocking(&VarSet::new(), None).unwrap();
    assert_eq!(watch.line("[JOB-7]"), Some("JOB-7".to_owned()));
    assert_eq!(watch.finish(exited(false, "[JOB-7]\n")).unwrap(), "JOB-7");
}

#[test]
fn blocking_submit_without_a_job_id_reports_the_submission_failure() {
    let m = meta(
        r#"
        blocking-submit = "echo 'sbatch: error: invalid partition' >&2; exit 1"
        submit-pattern = 'Submitted batch job ([0-9]+)'
        "#,
    );
    let (_, mut watch) = Scheduler::new(&m).submit_blocking(&VarSet::new(), None).unwrap();
    assert_eq!(watch.line("sbatch: error: invalid partition"), None);
    let err = watch.finish(exited(false, "sbatch: error: invalid partition\n")).unwrap_err().message();
    assert!(err.contains("exited unsuccessfully"), "{err}");
    assert!(err.contains("invalid partition"), "{err}");
}

#[test]
fn blocking_submit_that_prints_no_job_id_says_which_pattern_missed() {
    let m = meta(
        r#"
        blocking-submit = "echo nothing useful here"
        submit-pattern = 'Submitted batch job ([0-9]+)'
        "#,
    );
    let (_, mut watch) = Scheduler::new(&m).submit_blocking(&VarSet::new(), None).unwrap();
    assert_eq!(watch.line("nothing useful here"), None);
    let err = watch.finish(exited(true, "nothing useful here\n")).unwrap_err().message();
    assert!(err.contains("could not parse a job id"), "{err}");
    assert!(err.contains("Submitted batch job"), "{err}");
}

/// What was broken off has no id, unless one was seen before.
#[test]
fn an_interrupted_submission_keeps_an_id_that_was_seen() {
    let m = meta(r#"blocking-submit = "true""#);
    let (_, watch) = Scheduler::new(&m).submit_blocking(&VarSet::new(), None).unwrap();
    assert!(matches!(watch.finish(Waited::Interrupted).unwrap_err(), SchedulerError::Interrupted));
    let (_, mut watch) = Scheduler::new(&m).submit_blocking(&VarSet::new(), None).unwrap();
    assert_eq!(watch.line(" 7 "), Some("7".to_owned()));
    assert_eq!(watch.finish(Waited::Interrupted).unwrap(), "7");
}

#[test]
fn blocking_submit_names_the_missing_key() {
    let m = meta(r#"submit = "echo 1""#);
    let err = Scheduler::new(&m).submit_blocking(&VarSet::new(), None).err().unwrap().message();
    assert!(err.contains("[scheduler].blocking-submit"), "{err}");
}

#[test]
fn blocking_submit_substitutes_and_prepends_env_like_submit() {
    let mut m = meta(
        r#"
        blocking-submit = "echo submitted as $CACTUP_TEST_MARKER-@SCRIPTFILE@"
        submit-pattern = "as (.*)"
        "#,
    );
    m.environment.env_setup = Some("CACTUP_TEST_MARKER=77".to_owned());
    let (command, mut watch) = Scheduler::new(&m).submit_blocking(&scriptfile("build.sh"), None).unwrap();
    assert_eq!(command, shell("CACTUP_TEST_MARKER=77\necho submitted as $CACTUP_TEST_MARKER-build.sh"));
    assert_eq!(watch.line("submitted as 77-build.sh"), Some("77-build.sh".to_owned()));
    assert_eq!(watch.finish(exited(true, "")).unwrap(), "77-build.sh");
}

#[test]
fn status_classification_ps_style() {
    let m = meta(
        r#"
        get-status = "true"
        status-pattern = "^ *@JOB_ID@ "
        queued-pattern = "$^"
        running-pattern = "^"
        holding-pattern = "$^"
        "#,
    );
    let ps = "    PID TTY  TIME CMD\n  12345 ?    0:01 cactus_sim\n";
    assert_eq!(classify(ps, "12345", &m).unwrap(), JobStatus::Running);
    assert_eq!(classify(ps, "999", &m).unwrap(), JobStatus::Unknown);
    assert_eq!(classify("", "12345", &m).unwrap(), JobStatus::Unknown);
}

#[test]
fn status_classification_batch_style() {
    let m = meta(
        r#"
        get-status = "true"
        status-pattern = "^@JOB_ID@ "
        queued-pattern = " PD "
        running-pattern = " R "
        holding-pattern = " H "
        "#,
    );
    assert_eq!(classify("42  R  0:10\n", "4", &m).unwrap(), JobStatus::Unknown);
    assert_eq!(classify("42 R 0:10\n", "42", &m).unwrap(), JobStatus::Running);
    assert_eq!(classify("42 PD 0:00\n", "42", &m).unwrap(), JobStatus::Queued);
    assert_eq!(classify("42 H 0:00\n", "42", &m).unwrap(), JobStatus::Holding);
    assert_eq!(classify("42 X 0:00\n", "42", &m).unwrap(), JobStatus::Error);
}

/// A pattern that the machine does not have matches nothing, not even an empty line.
#[test]
fn missing_patterns_match_nothing() {
    for output in ["", "\n", "\n\n", "1 R\n"] {
        assert_eq!(classify(output, "1", &meta("")).unwrap(), JobStatus::Unknown, "{output:?}");
    }
    // A line of the job's that none of the others is there to match.
    let m = meta(r#"status-pattern = "^""#);
    assert_eq!(classify("\n", "1", &m).unwrap(), JobStatus::Error);
    let m = meta("status-pattern = '^'\nrunning-pattern = '^$'");
    assert_eq!(classify("\n", "1", &m).unwrap(), JobStatus::Running);
}

/// An id stands for itself in a pattern, whatever its characters mean there.
#[test]
fn ids_are_taken_literally() {
    let m = meta(
        r#"
        status-pattern = "^@JOB_ID@ "
        running-pattern = " R"
        "#,
    );
    assert_eq!(classify("1.2[] R\n", "1.2[]", &m).unwrap(), JobStatus::Running);
    assert_eq!(classify("1x2 R\n", "1.2", &m).unwrap(), JobStatus::Unknown);
    let bad = meta(r#"running-pattern = "(""#);
    let err = classify("", "1", &bad).unwrap_err();
    assert!(matches!(&err, SchedulerError::BadPattern(what, pattern, _) if what == "running-pattern" && pattern == "("));
    assert!(err.message().starts_with("invalid running-pattern \"(\": "), "{}", err.message());
    assert_eq!(judge(true, true, true), JobStatus::Holding);
    assert_eq!(judge(false, true, true), JobStatus::Queued);
    assert_eq!(judge(false, false, true), JobStatus::Running);
    assert_eq!(judge(false, false, false), JobStatus::Error);
}

#[test]
fn live_get_status_tolerates_nonzero_exit() {
    let m = meta(
        r#"
        get-status = "echo 'header'; exit 1"
        status-pattern = "^ *@JOB_ID@ "
        "#,
    );
    let vars = query_vars("31337", "alice", Table::new());
    assert_eq!(Scheduler::new(&m).get_status(&vars).unwrap(), "echo 'header'; exit 1");
    let output = collect_output("header\n", "", false, "exit status: 1", true).unwrap();
    assert_eq!(classify(&output, "31337", &m).unwrap(), JobStatus::Unknown);
}

fn ids(list: &[&str]) -> Vec<String> {
    list.iter().map(|s| s.to_string()).collect()
}

fn nobody() -> VarSet {
    query_vars("", "alice", Table::new())
}

#[test]
fn get_statuses_dedupes_and_runs_concurrently() {
    let m = meta(
        r#"
        get-status = "status @JOB_ID@"
        status-pattern = "^@JOB_ID@ "
        queued-pattern = " Q"
        running-pattern = " R"
        holding-pattern = " H"
        "#,
    );
    // "5" appears twice: it is queried once.
    let asked = ids(&["1", "2", "3", "4", "5", "6", "7", "8", "9", "10", "11", "12", "5"]);
    let StatusPlan::Each(each) = Scheduler::new(&m).get_statuses(&asked, &nobody()) else { panic!("no plan") };
    assert_eq!(each.len(), 12);
    let mut outcomes = Vec::new();
    for id in &each {
        let n: u32 = id.parse().unwrap();
        let (letter, want) =
            [("R", JobStatus::Running), ("Q", JobStatus::Queued), ("H", JobStatus::Holding)][(n % 3) as usize];
        let vars = query_vars(id, "alice", Table::new());
        assert_eq!(Scheduler::new(&m).get_status(&vars).unwrap(), format!("status {id}"));
        outcomes.push(classify(&format!("{id} {letter}\n"), id, &m).ok());
        assert_eq!(outcomes.last(), Some(&Some(want)), "job {id}");
    }
    let statuses = answer_each(&each, &outcomes);
    assert_eq!(statuses.len(), 12);
    for (id, outcome) in each.iter().zip(&outcomes) {
        assert_eq!(statuses.get(id).copied(), *outcome, "job {id}");
    }
}

/// A job whose query failed has no state; the others have theirs.
#[test]
fn failed_queries_are_left_out() {
    let outcomes = vec![Some(JobStatus::Running), None, Some(JobStatus::Unknown)];
    let statuses = answer_each(&ids(&["1", "2", "3"]), &outcomes);
    assert_eq!(statuses.len(), 2);
    assert_eq!(statuses.get("1").copied(), Some(JobStatus::Running));
    assert_eq!(statuses.get("2").copied(), None);
    assert_eq!(statuses.get("3").copied(), Some(JobStatus::Unknown));
    assert_eq!(answer_each(&vec![], &vec![]).len(), 0);
}

#[test]
fn get_statuses_handles_empty_and_singleton_input() {
    let m = meta(
        r#"
        get-status = "echo '@JOB_ID@ R'"
        status-pattern = "^@JOB_ID@ "
        running-pattern = " R"
        "#,
    );
    let sched = Scheduler::new(&m);
    assert!(matches!(sched.get_statuses(&vec![], &nobody()), StatusPlan::Nothing));
    let StatusPlan::Each(each) = sched.get_statuses(&ids(&["7"]), &nobody()) else { panic!("no plan") };
    assert_eq!(each, ["7"]);
    assert_eq!(classify("7 R\n", "7", &m).unwrap(), JobStatus::Running);
}

#[test]
fn stop_propagates_failure() {
    let vars = query_vars("1", "alice", Table::new());
    let ok = meta(r#"stop = "true""#);
    assert_eq!(Scheduler::new(&ok).stop(&vars).unwrap(), "true");
    collect_output("", "", true, "exit status: 0", false).unwrap();
    let err = collect_output("", "no permission\n", false, "exit status: 1", false).unwrap_err().message();
    assert!(err.contains("no permission"), "{err}");
    assert_eq!(err, "command exited unsuccessfully (exit status: 1):\nno permission\n");
    let missing = meta("");
    let err = Scheduler::new(&missing).stop(&vars).unwrap_err();
    assert_eq!(err.message(), "this machine's meta.toml defines no [scheduler].stop command");
}

const SLURM: &str = r#"
        status-pattern  = '@JOB_ID@ '
        queued-pattern  = ' PD '
        running-pattern = ' (CF|CG|R|TO) '
        holding-pattern = '\(JobHeldUser\)'
"#;

#[test]
fn status_listing_classifies_every_id_from_one_call() {
    let m = meta(&format!("get-status-many = 'listing of @USER@'\n{SLURM}"));
    let asked = ids(&["3774765", "3774766", "3774767", "9999999"]);
    let StatusPlan::Listing(command, all) = Scheduler::new(&m).get_statuses(&asked, &nobody()) else {
        panic!("no listing")
    };
    assert_eq!(command, "listing of alice");
    let output = "3774765 R (None)\n3774766 PD (Priority)\n3774767 PD (JobHeldUser)\n";
    let statuses = answer_listing(output, all, &m).ok().unwrap();
    assert_eq!(statuses.get("3774765").copied(), Some(JobStatus::Running));
    assert_eq!(statuses.get("3774766").copied(), Some(JobStatus::Queued));
    assert_eq!(statuses.get("3774767").copied(), Some(JobStatus::Holding));
    // Not in the listing at all: unknown, not absent.
    assert_eq!(statuses.get("9999999").copied(), Some(JobStatus::Unknown));
}

#[test]
fn status_listing_runs_the_command_exactly_once() {
    let m = meta(&format!("get-status-many = 'listing'\n{SLURM}"));
    let asked = ids(&["1", "2", "3", "4", "5", "6", "7", "8", "9", "10"]);
    // One command answers for all of them.
    let StatusPlan::Listing(command, all) = Scheduler::new(&m).get_statuses(&asked, &nobody()) else {
        panic!("no listing")
    };
    assert_eq!((command.as_str(), all.len()), ("listing", 10));
    assert_eq!(answer_listing("1 R (None)\n", all, &m).ok().unwrap().len(), 10);
}

#[test]
fn status_listing_never_lets_one_job_answer_for_another() {
    let m = meta(SLURM);
    let statuses = status_listing("3774765 R (None)\n", &ids(&["3774765", "774765"]), &m).ok().unwrap();
    assert_eq!(statuses.get("3774765").copied(), Some(JobStatus::Running));
    assert_eq!(statuses.get("774765").copied(), Some(JobStatus::Unknown));
}

#[test]
fn status_listing_failure_falls_back_to_per_job_queries() {
    let m = meta(
        r#"
        get-status-many = "echo @NOT_A_VAR@"
        get-status      = "status @JOB_ID@"
        status-pattern  = "^@JOB_ID@ "
        queued-pattern  = " PD"
        running-pattern = " R"
        "#,
    );
    let sched = Scheduler::new(&m);
    let StatusPlan::Each(each) = sched.get_statuses(&ids(&["1", "2"]), &nobody()) else { panic!("no fallback") };
    assert_eq!(each, ["1", "2"]);
    assert_eq!(classify("1 R", "1", &m).unwrap(), JobStatus::Running);
    assert_eq!(classify("2 PD", "2", &m).unwrap(), JobStatus::Queued);
    // Patterns that cannot be read send every job back too.
    let bad = meta("get-status-many = 'x'\nstatus-pattern = '('");
    assert_eq!(answer_listing("1 R\n", ids(&["1"]), &bad).err().unwrap(), ["1"]);
}

#[test]
fn the_host_of_a_job_is_read_from_the_output() {
    let m = meta("exec-host = 'where @JOB_ID@'\nexec-host-pattern = 'on (\\S+)'");
    let sched = Scheduler::new(&m);
    let vars = query_vars("9", "alice", Table::new());
    assert_eq!(sched.exec_host(&vars).unwrap(), Some("where 9".to_owned()));
    assert_eq!(sched.host_in("9 runs on node12 now\n").unwrap(), Some("node12".to_owned()));
    assert_eq!(sched.host_in("9 waits\n").unwrap(), None);
    let none = meta("");
    assert_eq!(Scheduler::new(&none).exec_host(&vars).unwrap(), None);
}

#[test]
fn a_submission_without_an_id_says_so() {
    let m = meta("submit = 'x @NOPE@'\nsubmit-pattern = 'id ([0-9]+)'");
    let sched = Scheduler::new(&m);
    assert!(matches!(sched.submit(&VarSet::new(), None).unwrap_err(), SchedulerError::Template(_, _)));
    let err = sched.submitted("no such thing\n").unwrap_err();
    assert!(err.message().starts_with("could not parse a job id from the submit output via \"id ([0-9]+)\":\n"));
    assert_eq!(job_id_in(Some("  ".to_owned())), None);
    assert_eq!(job_id_in(Some(" 7\n".to_owned())), Some("7".to_owned()));
    assert_eq!(JobStatus::Running.letter(), 'R');
    assert_eq!(JobStatus::Unknown.letter(), 'U');
}

#[test]
fn display_state_matrix() {
    // Chained, not active, queued or held.
    assert_eq!(display_state(false, Some(JobStatus::Queued), true, false), DisplayState::Presubmitted);
    assert_eq!(display_state(false, Some(JobStatus::Holding), true, false), DisplayState::Presubmitted);
    assert_eq!(display_state(false, Some(JobStatus::Queued), false, false), DisplayState::Inactive);
    assert_eq!(display_state(false, None, false, false), DisplayState::Inactive);
    // An active restart follows the live status.
    assert_eq!(display_state(true, Some(JobStatus::Running), false, false), DisplayState::Running);
    assert_eq!(display_state(true, Some(JobStatus::Queued), false, false), DisplayState::Queued);
    assert_eq!(display_state(true, Some(JobStatus::Holding), true, false), DisplayState::Holding);
    assert_eq!(display_state(true, Some(JobStatus::Error), false, false), DisplayState::Error);
    // Gone from the queue: finished where it was terminated, active where it was not.
    assert_eq!(display_state(true, Some(JobStatus::Unknown), false, true), DisplayState::Finished);
    assert_eq!(display_state(true, Some(JobStatus::Unknown), true, false), DisplayState::Active);
    assert_eq!(display_state(true, None, false, true), DisplayState::Finished);
}

/// A command that the user breaks off gets two seconds to end by itself.
#[test]
fn a_broken_off_wait_winds_down() {
    let mut wait = Wait::new();
    assert_eq!(wait.look(false, false, 100), WaitStep::Wait);
    assert_eq!(wait.look(true, false, 200), WaitStep::Ended);
    assert!(matches!(wait.end(true, "ok".to_owned(), "out".to_owned()), Waited::Exited { success: true, .. }));
    let mut wait = Wait::new();
    assert_eq!(wait.look(false, true, 1000), WaitStep::Wait);
    assert_eq!(wait.look(false, true, 3000), WaitStep::Wait);
    assert_eq!(wait.look(false, true, 3001), WaitStep::Kill);
    assert_eq!(wait.look(true, true, 3002), WaitStep::Ended);
    assert!(matches!(wait.end(false, "killed".to_owned(), String::new()), Waited::Interrupted));
}
