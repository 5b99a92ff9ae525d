//! Machines: selection, universes, and what a machine has to declare.

use cactup::mdb::meta::{
    Build, CactupMeta, Environment, Hardware, MachineInfo, Meta, OptionlistVariants, Paths, Phase, Queue, Scheduler,
    ScriptKind, ScriptVariants, Variants, HOST_UNIVERSE,
};
use cactup::mdb::universe::{command_token_in_quotes, Universe, WrappedCommand};
use cactup::mdb::variants::string_or_seq;
use cactup::mdb::autodetect::DetectedHardware;
use cactup::mdb::{path_vars, whoami, FileError, Layer, Machine, OptionlistChoiceError};
use cactup::table::Table;
use cactup::template::{text_value, VarSet};
use cactup::toml_text::{get_field, read_toml, TomlValue};
use cactup::walltime::Walltime;

type Items = Vec<(String, TomlValue)>;

fn items<'a>(all: &'a Items, key: &str) -> Option<&'a Items> {
    match get_field(all, key) {
        Some(TomlValue::Dict(inner)) => Some(inner),
        Some(_) => panic!("{key} is no table"),
        None => None,
    }
}

fn text(all: &Items, key: &str) -> Option<String> {
    match get_field(all, key) {
        Some(TomlValue::Str(s)) => Some(s.clone()),
        Some(_) => panic!("{key} is no text"),
        None => None,
    }
}

fn texts(all: &Items, key: &str) -> Option<Vec<String>> {
    get_field(all, key).map(|v| string_or_seq(v).expect("a list of texts"))
}

fn flag(all: &Items, key: &str) -> bool {
    matches!(get_field(all, key), Some(TomlValue::Bool(true)))
}

fn number(all: &Items, key: &str) -> Option<u32> {
    match get_field(all, key) {
        Some(TomlValue::Int(n)) => Some(*n as u32),
        Some(_) => panic!("{key} is no number"),
        None => None,
    }
}

fn wall(all: &Items, key: &str) -> Option<Walltime> {
    text(all, key).map(|s| Walltime::parse(&s).expect("a walltime"))
}

fn environment(all: &Items) -> Environment {
    Environment {
        env_setup: text(all, "env-setup"),
        env_build_setup: text(all, "env-build-setup"),
        env_submit_setup: text(all, "env-submit-setup"),
        env_run_setup: text(all, "env-run-setup"),
    }
}

/// The machine that a `meta.toml` describes.
fn machine(source: &str) -> Meta {
    let none: Items = Vec::new();
    let TomlValue::Dict(doc) = read_toml(source).expect("a TOML document") else { panic!("a document is a table") };
    let at = |key: &str| items(&doc, key).unwrap_or(&none);
    let (info, paths, hw, build, sched, variants) =
        (at("machine"), at("paths"), at("hardware"), at("build"), at("scheduler"), at("variants"));
    let mut queues: Table<Queue> = Table::new();
    for (name, value) in at("queues") {
        let TomlValue::Dict(q) = value else { panic!("a queue is a table") };
        let queue = Queue {
            gpu: flag(q, "gpu"),
            max_walltime: wall(q, "max-walltime"),
            default: flag(q, "default"),
            name: text(q, "name"),
            build_universes: texts(q, "build-universes"),
            max_cpus_per_node: number(q, "max-cpus-per-node"),
            default_cpus_per_task: number(q, "default-cpus-per-task"),
            max_gpus_per_node: number(q, "max-gpus-per-node"),
            default_gpus_per_task: number(q, "default-gpus-per-task"),
            threads_per_cpu: number(q, "threads-per-cpu"),
            memory: number(q, "memory").map(u64::from),
        };
        queues.insert(name.clone(), queue);
    }
    let mut universes: Table<Universe> = Table::new();
    for (name, value) in at("universes") {
        let TomlValue::Dict(u) = value else { panic!("a universe is a table") };
        let universe = Universe {
            kind: text(u, "kind"),
            wrapper_argv: texts(u, "wrapper-argv"),
            wrapper: text(u, "wrapper"),
            environment: environment(u),
        };
        universes.insert(name.clone(), universe);
    }
    Meta {
        machine: MachineInfo {
            name: text(info, "name"),
            nickname: text(info, "nickname"),
            status: text(info, "status"),
            hostname: text(info, "hostname"),
            location: text(info, "location"),
            description: text(info, "description"),
        },
        paths: Paths {
            install_home: text(paths, "install-home"),
            simulation_home: text(paths, "simulation-home"),
            test_home: text(paths, "test-home"),
            scratch_home: text(paths, "scratch-home"),
        },
        hardware: Hardware {
            autodetect: flag(hw, "autodetect"),
            max_cpus_per_node: number(hw, "max-cpus-per-node"),
            default_cpus_per_task: number(hw, "default-cpus-per-task"),
            max_gpus_per_node: number(hw, "max-gpus-per-node"),
            default_gpus_per_task: number(hw, "default-gpus-per-task"),
            threads_per_cpu: number(hw, "threads-per-cpu"),
            memory: number(hw, "memory").map(u64::from),
        },
        build: Build {
            make: text(build, "make"),
            make_jobs: number(build, "make-jobs"),
            enabled_thorns: texts(build, "enabled-thorns").unwrap_or_default(),
            disabled_thorns: texts(build, "disabled-thorns").unwrap_or_default(),
            universe: text(build, "universe"),
        },
        environment: environment(at("environment")),
        scheduler: Scheduler {
            submit: text(sched, "submit"),
            blocking_submit: text(sched, "blocking-submit"),
            interactive_cmd: text(sched, "interactive-cmd"),
            get_status: text(sched, "get-status"),
            get_status_many: text(sched, "get-status-many"),
            stop: text(sched, "stop"),
            submit_pattern: text(sched, "submit-pattern"),
            status_pattern: text(sched, "status-pattern"),
            queued_pattern: text(sched, "queued-pattern"),
            running_pattern: text(sched, "running-pattern"),
            holding_pattern: text(sched, "holding-pattern"),
            exec_host: text(sched, "exec-host"),
            exec_host_pattern: text(sched, "exec-host-pattern"),
            stdout: text(sched, "stdout"),
            stderr: text(sched, "stderr"),
            stdout_follow: text(sched, "stdout-follow"),
            max_queue_slots: number(sched, "max-queue-slots"),
            max_walltime: wall(sched, "max-walltime"),
            allocation_env: texts(sched, "allocation-env").unwrap_or_default(),
        },
        queues,
        variants: Variants {
            submitscript: ScriptVariants::from_toml(items(variants, "submitscript").unwrap_or(&none)).unwrap_or_else(|e| panic!("{}", e.message())),
            runscript: ScriptVariants::from_toml(items(variants, "runscript").unwrap_or(&none)).unwrap_or_else(|e| panic!("{}", e.message())),
            optionlist: OptionlistVariants {
                variants: items(variants, "optionlist").and_then(|o| texts(o, "variants")).unwrap_or_default(),
            },
        },
        universes,
        cactup: CactupMeta { origin: None, mdb_generation: None },
    }
}

/// A multi-queue, multi-variant machine exercising the  features
/// (modeled on the spec's `mike` example).
const MIKE: &str = r#"
        [machine]
        name = "mike"
        status = "production"
        hostname = "mike.hpc.lsu.edu"

        [paths]
        simulation-home = "/work/@USER@/simulations"

        [hardware]
        max-cpus-per-node = 16
        memory = 64000

        [scheduler]
        submit = "sbatch @SCRIPTFILE@ 2>&1"
        get-status = "squeue -j @JOB_ID@"
        max-walltime = "48:00:00"

        [environment]
        env-setup = "module load gcc/11 openmpi/4"
        env-build-setup = "module load cmake/3.27"

        [queues.checkpt]
        gpu = false
        max-walltime = "72:00:00"
        default = true

        [queues.single]
        gpu = false

        [queues.gpu]
        gpu = true
        max-walltime = "24:00:00"
        # Per-queue hardware overrides ; unset keys inherit [hardware].
        max-cpus-per-node = 64
        threads-per-cpu = 2

        [variants.submitscript]
        "slurm-cpu" = { queues = ["checkpt", "single"], default = true }
        "slurm-gpu" = ["gpu"]
        "slurm-test" = { queues = ["checkpt", "single"], test = true, default = true }

        [variants.runscript]
        "cpu" = { queues = ["checkpt", "single"], default = true }
        "gpu-sing" = { queues = ["gpu"], universe = "et-sif" }
        "test-cpu" = { queues = ["checkpt", "single"], test = true, default = true, tasks = 2 }

        [variants.optionlist]
        variants = ["cpu", "gpu", "test-cpu"]

        [universes.et-sif]
        kind = "apptainer"
        wrapper-argv = ["apptainer", "exec", "--bind", "@SOURCEDIR@", "/work/@USER@/et.sif"]
    "#;

/// The environment of one user.
fn alice() -> Table<String> {
    let mut env = Table::new();
    env.insert("USER".to_owned(), "alice".to_owned());
    env
}

fn mike() -> Meta {
    let meta = machine(MIKE);
    meta.validate("mike").unwrap();
    meta
}

#[test]
fn parses_and_validates_the_spec_example() {
    let meta = mike();
    assert_eq!(meta.machine.name.as_deref(), Some("mike"));
    assert_eq!(meta.default_queue(HOST_UNIVERSE), Some("checkpt"));
    assert!(meta.queues.get("gpu").unwrap().gpu);
    assert_eq!(meta.variants.optionlist.variants, ["cpu", "gpu", "test-cpu"]);
    // Array shorthand and inline-table forms normalize identically.
    let sv = &meta.variants.submitscript.variants;
    assert_eq!(sv.get("slurm-gpu").unwrap().queues, ["gpu"]);
    assert!(!sv.get("slurm-gpu").unwrap().test && !sv.get("slurm-gpu").unwrap().default);
    assert!(sv.get("slurm-test").unwrap().test && sv.get("slurm-test").unwrap().default);
}

#[test]
fn scheduler_queue_name_honors_override() {
    // @QUEUE@ resolves to the queue key by default…
    assert_eq!(mike().scheduler_queue_name("gpu").unwrap(), "gpu");
    // …and to the `name` override when set (e.g. several cactup queues
    // over one real partition, or an intentionally-empty scheduler name).
    let toml_text = MIKE.replace("[queues.gpu]\n        gpu = true", "[queues.gpu]\n        name = \"gpu-v100\"\n        gpu = true");
    let meta = machine(&toml_text);
    meta.validate("mike").unwrap();
    assert_eq!(meta.scheduler_queue_name("gpu").unwrap(), "gpu-v100");
    assert!(meta.scheduler_queue_name("nope").is_err());
}

#[test]
fn effective_hardware_inherits_and_overrides() {
    let meta = mike();
    // Queue with no overrides: pure inheritance from [hardware].
    let hw = meta.effective_hardware("checkpt").unwrap();
    assert_eq!((hw.max_cpus_per_node, hw.memory, hw.threads_per_cpu()), (Some(16), Some(64000), 1));
    // Queue overrides win key-by-key; unset keys still inherit.
    let hw = meta.effective_hardware("gpu").unwrap();
    assert_eq!((hw.max_cpus_per_node, hw.memory, hw.threads_per_cpu()), (Some(64), Some(64000), 2));
    assert!(meta.effective_hardware("nope").is_err());
}

#[test]
fn hardware_table_is_optional_when_queues_define_it() {
    // No top-level [hardware] at all: queue-level keys carry the load.
    let toml_text = MIKE
        .replace("[hardware]\n        max-cpus-per-node = 16\n        memory = 64000", "")
        .replace("[queues.checkpt]", "[queues.checkpt]\nmax-cpus-per-node = 32\nmemory = 128000");
    let meta = machine(&toml_text);
    meta.validate("mike").unwrap();
    let hw = meta.effective_hardware("checkpt").unwrap();
    assert_eq!((hw.max_cpus_per_node, hw.memory), (Some(32), Some(128000)));
    // A queue defining nothing gets the (empty) machine-wide values.
    let hw = meta.effective_hardware("single").unwrap();
    assert_eq!((hw.max_cpus_per_node, hw.memory), (None, None));
}

#[test]
fn walltime_ceiling_precedence() {
    let meta = mike();
    // Queue value wins; machine [scheduler] fallback; built-in one year.
    assert_eq!(meta.effective_max_walltime("checkpt").unwrap(), Walltime(72 * 3600));
    assert_eq!(meta.effective_max_walltime("single").unwrap(), Walltime(48 * 3600));
    let mut meta = meta;
    meta.scheduler.max_walltime = None;
    assert_eq!(meta.effective_max_walltime("single").unwrap(), Walltime(365 * 86400));
    assert!(meta.effective_max_walltime("nope").is_err());
}

#[test]
fn env_setup_phases_append() {
    let env = mike().environment;
    assert_eq!(env.effective(Phase::Run), "module load gcc/11 openmpi/4");
    assert_eq!(
        env.effective(Phase::Build),
        "module load gcc/11 openmpi/4\nmodule load cmake/3.27"
    );
}

#[test]
fn script_selection_follows_queue_then_default() {
    let meta = mike();
    let rs = meta.script_variants(ScriptKind::Run);
    assert_eq!(rs.select("gpu", "host", false, None).unwrap().0, "gpu-sing");
    assert_eq!(rs.select("single", "host", false, None).unwrap().0, "cpu");
    // Test commands get the test partition; normal never does .
    assert_eq!(rs.select("single", "host", true, None).unwrap().0, "test-cpu");
    assert!(rs.select("single", "host", false, Some("test-cpu")).is_err());
    // With a non-empty test set, --variant must name a test variant.
    assert!(rs.select("single", "host", true, Some("cpu")).is_err());
    assert!(rs.select("single", "host", false, Some("nope")).is_err());
    // gpu-sing carries its universe association .
    assert_eq!(rs.select("gpu", "host", false, None).unwrap().1.universe.as_deref(), Some("et-sif"));
    // test-cpu carries its default-tasks setting ; cpu has none.
    assert_eq!(rs.select("single", "host", true, None).unwrap().1.tasks, Some(2));
    assert_eq!(rs.select("single", "host", false, None).unwrap().1.tasks, None);
}

#[test]
fn test_partition_falls_back_to_normal_when_empty() {
    let meta = machine(&MIKE.replace(
        "\"test-cpu\" = { queues = [\"checkpt\", \"single\"], test = true, default = true, tasks = 2 }",
        "",
    ));
    assert!(!meta.variants.runscript.variants.contains("test-cpu"));
    let rs = meta.script_variants(ScriptKind::Run);
    assert_eq!(rs.select("single", "host", true, None).unwrap().0, "cpu");
    // And --variant may then name a normal variant.
    assert_eq!(rs.select("gpu", "host", true, Some("gpu-sing")).unwrap().0, "gpu-sing");
}

#[test]
fn validation_rejects_uncovered_queue() {
    let broken = MIKE.replace("\"slurm-cpu\" = { queues = [\"checkpt\", \"single\"], default = true }",
                              "\"slurm-cpu\" = [\"checkpt\"]");
    let meta = machine(&broken);
    let err = meta.validate("mike").err().unwrap().message();
    assert!(err.contains("\"single\""), "unexpected error: {err}");
}

#[test]
fn validation_rejects_double_default_and_double_mapping() {
    let double_default = MIKE.replace("\"slurm-gpu\" = [\"gpu\"]",
                                      "\"slurm-gpu\" = { queues = [\"gpu\"], default = true }");
    let meta = machine(&double_default);
    assert!(meta.validate("mike").is_err());

    let double_map = MIKE.replace("\"slurm-gpu\" = [\"gpu\"]",
                                  "\"slurm-gpu\" = [\"gpu\", \"single\"]");
    let meta = machine(&double_map);
    let err = meta.validate("mike").err().unwrap().message();
    assert!(err.contains("more than one"), "unexpected error: {err}");
}

#[test]
fn validation_rejects_unknown_queue_and_unknown_universe() {
    let bad_queue = MIKE.replace("\"slurm-gpu\" = [\"gpu\"]", "\"slurm-gpu\" = [\"nope\"]");
    let meta = machine(&bad_queue);
    assert!(meta.validate("mike").is_err());

    let bad_universe = MIKE.replace("universe = \"et-sif\"", "universe = \"missing\"");
    let meta = machine(&bad_universe);
    let err = meta.validate("mike").err().unwrap().message();
    assert!(err.contains("missing"), "unexpected error: {err}");
}

#[test]
fn validation_rejects_bad_universe_forms() {
    let both = format!("{MIKE}\nwrapper = \"ssh h '@COMMAND@'\"\n");
    let meta = machine(&both);
    assert!(meta.validate("mike").is_err());

    let no_command = MIKE.replace(
        "wrapper-argv = [\"apptainer\", \"exec\", \"--bind\", \"@SOURCEDIR@\", \"/work/@USER@/et.sif\"]",
        "wrapper = \"ssh headnode bash\"",
    );
    let meta = machine(&no_command);
    let err = meta.validate("mike").err().unwrap().message();
    assert!(err.contains("@COMMAND@"), "unexpected error: {err}");
}

#[test]
fn validation_rejects_command_token_inside_template_quotes() {
    // The Deep Bayou bug: @COMMAND@ nested inside the template's own quotes.
    // wrap() already shell-quotes it, so this collapses once the command
    // carries quotes. Swap et-sif's wrapper-argv for such a template.
    let quoted = MIKE.replace(
        "wrapper-argv = [\"apptainer\", \"exec\", \"--bind\", \"@SOURCEDIR@\", \"/work/@USER@/et.sif\"]",
        "wrapper = \"bash -lc 'module load foo && @COMMAND@'\"",
    );
    let meta = machine(&quoted);
    let err = meta.validate("mike").err().unwrap().message();
    assert!(err.contains("inside a quoted string"), "unexpected error: {err}");

    // The fixed spelling (token outside the quotes) validates.
    let ok = MIKE.replace(
        "wrapper-argv = [\"apptainer\", \"exec\", \"--bind\", \"@SOURCEDIR@\", \"/work/@USER@/et.sif\"]",
        "wrapper = \"bash -lc 'module load foo && '@COMMAND@\"",
    );
    let meta = machine(&ok);
    meta.validate("mike").unwrap();
}

/// A template runs its command once, so it holds one token for it.
#[test]
fn validation_rejects_a_second_command_token() {
    let with = |template: &str| {
        MIKE.replace(
            "wrapper-argv = [\"apptainer\", \"exec\", \"--bind\", \"@SOURCEDIR@\", \"/work/@USER@/et.sif\"]",
            &format!("wrapper = \"{template}\""),
        )
    };
    machine(&with("sh -c @COMMAND@")).validate("mike").unwrap();
    let err = machine(&with("sh -c @COMMAND@ && sh -c @COMMAND@")).validate("mike").err().unwrap();
    assert!(
        err.message().ends_with("universe \"et-sif\"'s wrapper template contains more than one @COMMAND@"),
        "{}",
        err.message()
    );
    // One that stands in quotes is named first.
    let err = machine(&with("sh -c '@COMMAND@' && sh -c @COMMAND@")).validate("mike").err().unwrap();
    assert!(err.message().contains("inside a quoted string"), "{}", err.message());
}

#[test]
fn command_token_quote_scan() {
    // Outside all quotes: fine.
    assert_eq!(command_token_in_quotes("ssh h 'cd /x && '@COMMAND@"), None);
    assert_eq!(command_token_in_quotes("@COMMAND@"), None);
    // Inside single quotes: flagged (the db1 bug).
    assert!(command_token_in_quotes("bash -lc 'a && @COMMAND@'").is_some());
    // Inside double quotes: also flagged.
    assert!(command_token_in_quotes("sh -c \"@COMMAND@\"").is_some());
    // A closed quote run before the token leaves it unquoted.
    assert_eq!(command_token_in_quotes("'a''b' @COMMAND@"), None);
    // An escaped quote does not open a quote run, so the token stays free.
    assert_eq!(command_token_in_quotes("echo \\' @COMMAND@"), None);
}

#[test]
fn universe_wrapping_both_forms() {
    let meta = mike();
    let mut vars = VarSet::new();
    vars.set("SOURCEDIR", text_value("/src"));
    vars.set("USER", text_value("alice"));

    let wrapped = meta.universe("et-sif").unwrap().wrap(&vars, "make -j4").unwrap();
    assert_eq!(
        wrapped,
        WrappedCommand::Argv(vec![
            "apptainer".into(), "exec".into(), "--bind".into(), "/src".into(),
            "/work/alice/et.sif".into(), "/bin/sh".into(), "-c".into(), "make -j4".into(),
        ])
    );

    let ssh = Universe {
        kind: None,
        wrapper_argv: None,
        wrapper: Some("ssh headnode 'cd @SOURCEDIR@ && '@COMMAND@".to_owned()),
        environment: environment(&Vec::new()),
    };
    let WrappedCommand::Shell(cmd) = ssh.wrap(&vars, "echo it's here").unwrap() else {
        panic!("expected shell form");
    };
    assert_eq!(cmd, "ssh headnode 'cd /src && ''echo it'\\''s here'");
}

#[test]
fn default_universe_key_is_a_setting_not_a_variant() {
    let with_default = MIKE.replace(
        "[variants.runscript]",
        "[variants.runscript]\ndefault-universe = \"et-sif\"",
    );
    let meta = machine(&with_default);
    meta.validate("mike").unwrap();
    let rs = meta.script_variants(ScriptKind::Run);
    assert_eq!(rs.default_universe.as_deref(), Some("et-sif"));
    assert!(!rs.variants.contains("default-universe"));
}

#[test]
fn paths_resolution_only_touches_paths() {
    let meta = mike();
    let user = whoami(&alice());
    let paths = meta.resolved_paths(&path_vars(alice())).unwrap();
    assert_eq!(
        paths.simulation_home.as_deref(),
        Some(format!("/work/{user}/simulations").as_str())
    );
    // The stored meta keeps its tokens (resolution is on-demand)…
    assert_eq!(meta.paths.simulation_home.as_deref(), Some("/work/@USER@/simulations"));
    // …and scheduler templates keep theirs for use-time substitution.
    assert_eq!(meta.scheduler.submit.as_deref(), Some("sbatch @SCRIPTFILE@ 2>&1"));
}

/// A single-queue machine routing configs to scripts by build universe
/// via `build-universes` lists .
const DB: &str = r#"
        [machine]
        name = "db"

        [environment]
        env-setup = "export BASE=1"
        env-build-setup = "module load base-build"

        [queues.gpu]
        gpu = true

        [variants.submitscript]
        "default"   = { queues = ["gpu"], build-universes = ["host"] }
        "sing"      = { queues = ["gpu"], build-universes = ["et-sing", "et-sing-cpu"] }
        "test"      = { queues = ["gpu"], build-universes = ["host"], test = true }
        "sing-test" = { queues = ["gpu"], build-universes = ["et-sing", "et-sing-cpu"], test = true }

        [variants.runscript]
        "default"   = { queues = ["gpu"], build-universes = ["host"] }
        "sing"      = { queues = ["gpu"], build-universes = ["et-sing", "et-sing-cpu"] }

        [variants.optionlist]
        variants = ["native"]

        # Identity universe : no wrapper, just a build-env override.
        [universes.host]
        env-build-setup = "module load gcc/9"

        [universes.et-sing]
        wrapper-argv = ["apptainer", "exec", "--nv", "et.sif"]

        [universes.et-sing-cpu]
        wrapper-argv = ["apptainer", "exec", "et.sif"]
    "#;

fn db() -> Meta {
    let meta = machine(DB);
    meta.validate("db").unwrap();
    meta
}

#[test]
fn universes_lists_filter_selection() {
    let meta = db();
    let sv = meta.script_variants(ScriptKind::Submit);
    // One queue, four variants: the build universe picks the script .
    assert_eq!(sv.select("gpu", "host", false, None).unwrap().0, "default");
    assert_eq!(sv.select("gpu", "et-sing", false, None).unwrap().0, "sing");
    assert_eq!(sv.select("gpu", "et-sing-cpu", false, None).unwrap().0, "sing");
    assert_eq!(sv.select("gpu", "host", true, None).unwrap().0, "test");
    assert_eq!(sv.select("gpu", "et-sing", true, None).unwrap().0, "sing-test");
    // Runscripts have no test partition: tests borrow normal ,
    // still universe-filtered.
    let rs = meta.script_variants(ScriptKind::Run);
    assert_eq!(rs.select("gpu", "et-sing-cpu", true, None).unwrap().0, "sing");
}

#[test]
fn universe_miss_is_a_selection_time_error() {
    // A declared universe no variant lists: loads fine (coverage is a
    // load-time obligation only for host — )…
    let extra = format!("{DB}\n[universes.other]\nwrapper-argv = [\"env\"]\n");
    let meta = machine(&extra);
    meta.validate("db").unwrap();
    // …but selecting under it fails, naming universe and queue.
    let err = meta.script_variants(ScriptKind::Run).select("gpu", "other", false, None).err().unwrap().message();
    assert!(err.contains("\"other\"") && err.contains("\"gpu\""), "{err}");

    // Missing HOST coverage is still a load-time error.
    let no_host = DB
        .replace("\"default\"   = { queues = [\"gpu\"], build-universes = [\"host\"] }\n        \"sing\"      = { queues = [\"gpu\"], build-universes = [\"et-sing\", \"et-sing-cpu\"] }\n\n        [variants.optionlist]",
                 "\"sing\"      = { queues = [\"gpu\"], build-universes = [\"et-sing\", \"et-sing-cpu\"] }\n\n        [variants.optionlist]");
    let meta = machine(&no_host);
    let err = meta.validate("db").err().unwrap().message();
    assert!(err.contains("served by no"), "{err}");
}

#[test]
fn explicit_variant_incompatible_with_universe_errors() {
    let meta = db();
    let sv = meta.script_variants(ScriptKind::Submit);
    // --variant may pick any compatible variant…
    assert_eq!(sv.select("gpu", "et-sing", false, Some("sing")).unwrap().0, "sing");
    // …but naming an incompatible one is a hard error naming the universe.
    let err = sv.select("gpu", "host", false, Some("sing")).err().unwrap().message();
    assert!(err.contains("\"host\"") && err.contains("et-sing"), "{err}");
}

#[test]
fn per_universe_ambiguity_is_rejected() {
    // Making the runscript "default" compatible with ALL universes (list
    // omitted) makes queue gpu doubly served in the et-sing context.
    let ambiguous = DB.replace(
        "[variants.runscript]\n        \"default\"   = { queues = [\"gpu\"], build-universes = [\"host\"] }",
        "[variants.runscript]\n        \"default\"   = { queues = [\"gpu\"] }",
    );
    let meta = machine(&ambiguous);
    let err = meta.validate("db").err().unwrap().message();
    assert!(err.contains("more than one") && err.contains("et-sing"), "{err}");
}

#[test]
fn universes_list_names_are_validated() {
    let empty = DB.replace("build-universes = [\"et-sing\", \"et-sing-cpu\"] }\n        \"test\"",
                           "build-universes = [] }\n        \"test\"");
    let meta = machine(&empty);
    let err = meta.validate("db").err().unwrap().message();
    assert!(err.contains("empty build-universes list"), "{err}");

    let unknown = DB.replace("build-universes = [\"et-sing\", \"et-sing-cpu\"] }\n        \"test\"",
                             "build-universes = [\"ghost\"] }\n        \"test\"");
    let meta = machine(&unknown);
    let err = meta.validate("db").err().unwrap().message();
    assert!(err.contains("\"ghost\""), "{err}");
}

/// A two-queue machine whose queues are gated by build universe the same
/// way scripts are : `host-only` serves host builds, `sing` serves
/// the Singularity flavors.
const GATED_QUEUES: &str = r#"
        [machine]
        name = "gq"

        [queues.host-only]
        build-universes = ["host"]
        default = true

        [queues.sing]
        gpu = true
        build-universes = ["et-sing"]

        [variants.submitscript]
        "s" = { queues = ["host-only", "sing"] }

        [variants.runscript]
        "r" = { queues = ["host-only", "sing"] }

        [variants.optionlist]
        variants = ["native"]

        [universes.et-sing]
        wrapper-argv = ["apptainer", "exec", "et.sif"]
    "#;

#[test]
fn queue_build_universes_gate_selection() {
    let meta = machine(GATED_QUEUES);
    meta.validate("gq").unwrap();

    let host = meta.queues.get("host-only").unwrap();
    let sing = meta.queues.get("sing").unwrap();
    assert!(host.compatible_with("host") && !host.compatible_with("et-sing"));
    assert!(sing.compatible_with("et-sing") && !sing.compatible_with("host"));

    // The default queue is chosen among the universe-compatible queues:
    // "host-only" for host builds, and (as the sole compatible one) "sing"
    // for et-sing builds even though it is not marked default.
    assert_eq!(meta.default_queue("host"), Some("host-only"));
    assert_eq!(meta.default_queue("et-sing"), Some("sing"));
}

#[test]
fn queue_build_universes_lists_are_validated() {
    let empty = GATED_QUEUES.replace("build-universes = [\"host\"]", "build-universes = []");
    let err = machine(&empty).validate("gq").err().unwrap().message();
    assert!(err.contains("empty build-universes list"), "{err}");

    let unknown = GATED_QUEUES.replace("build-universes = [\"host\"]", "build-universes = [\"ghost\"]");
    let err = machine(&unknown).validate("gq").err().unwrap().message();
    assert!(err.contains("\"ghost\"") && err.contains("host-only"), "{err}");
}

#[test]
fn identity_universe_wraps_as_bare_shell() {
    let meta = db();
    // Declared host has no wrapper: identity wrapping .
    let host = meta.universe("host").unwrap();
    assert!(host.wrapper.is_none() && host.wrapper_argv.is_none());
    let vars = VarSet::new();
    assert_eq!(
        host.wrap(&vars, "make -j4").unwrap(),
        WrappedCommand::Shell("make -j4".to_owned())
    );
}

#[test]
fn host_universe_is_always_resolvable() {
    // mike declares no host: `universe("host")` yields the implicit
    // identity universe, and declared_host stays None .
    let meta = mike();
    assert!(meta.declared_host().is_none());
    let host = meta.universe("host").unwrap();
    assert_eq!(
        host.wrap(&VarSet::new(), "true").unwrap(),
        WrappedCommand::Shell("true".to_owned())
    );
    // Unknown names still error, with host in the known list.
    let err = meta.universe("ghost").err().unwrap().message();
    assert!(err.contains("host") && err.contains("et-sif"), "{err}");
    // "host" is a legal reference even when undeclared.
    let with_ref = MIKE.replace("[variants.runscript]", "[variants.runscript]\ndefault-universe = \"host\"");
    let meta = machine(&with_ref);
    meta.validate("mike").unwrap();
    // A declared host is returned as-is.
    assert!(db().declared_host().is_some());
}

#[test]
fn effective_env_overrides_key_by_key() {
    let meta = db();
    // No universe: the machine [environment] as before.
    assert_eq!(meta.effective_env(None, Phase::Build), "export BASE=1\nmodule load base-build");
    // host overrides env-build-setup only; env-setup is inherited .
    assert_eq!(meta.effective_env(Some("host"), Phase::Build), "export BASE=1\nmodule load gcc/9");
    // Unset phase keys inherit, concatenation semantics unchanged.
    assert_eq!(meta.effective_env(Some("host"), Phase::Run), "export BASE=1");
    // A universe with no env keys inherits everything.
    assert_eq!(meta.effective_env(Some("et-sing"), Phase::Build), "export BASE=1\nmodule load base-build");
    // Unknown names fall back to the machine env (resolution errors first).
    assert_eq!(meta.effective_env(Some("nope"), Phase::Build), "export BASE=1\nmodule load base-build");
}

#[test]
fn allocation_env_parses_and_reports_status() {
    // Undeclared: unknowable, no check applies.
    assert_eq!(mike().in_allocation(&alice()), None);
    assert!(mike().scheduler.allocation_env.is_empty());

    // String form → single-element list.
    let one = MIKE.replace(
        "max-walltime = \"48:00:00\"",
        "max-walltime = \"48:00:00\"\n        allocation-env = \"SLURM_JOB_ID\"",
    );
    let meta = machine(&one);
    meta.validate("mike").unwrap();
    assert_eq!(meta.scheduler.allocation_env, ["SLURM_JOB_ID"]);
    // Outside an allocation (no listed var set) → Some(false); inside → Some(true).
    assert_eq!(meta.allocation_status(&Vec::new()), Some(false));
    assert_eq!(meta.allocation_status(&vec!["SLURM_JOB_ID".to_owned()]), Some(true));

    // List form → any-of semantics.
    let many = MIKE.replace(
        "max-walltime = \"48:00:00\"",
        "max-walltime = \"48:00:00\"\n        allocation-env = [\"SLURM_JOB_ID\", \"PBS_JOBID\"]",
    );
    let meta = machine(&many);
    assert_eq!(meta.scheduler.allocation_env, ["SLURM_JOB_ID", "PBS_JOBID"]);
    assert_eq!(meta.allocation_status(&vec!["PBS_JOBID".to_owned()]), Some(true));
    assert_eq!(meta.allocation_status(&Vec::new()), Some(false));
}

#[test]
fn env_token_in_paths_errors_when_unset() {
    let mut meta = mike();
    meta.paths.test_home = Some("@ENV(CACTUP_TEST_SURELY_UNSET)@/tests".into());
    let err = meta.resolved_paths(&path_vars(alice())).err().unwrap().message();
    assert!(
        err.contains("test-home") && err.contains("CACTUP_TEST_SURELY_UNSET"),
        "key and env var named: {err}"
    );
}

const BROKEN: &str = r#"
    [machine]
    nickname = "broken"
    [queues.local]
    default = true
    [variants.submitscript]
    "default" = ["local"]
    [variants.runscript]
    "default" = ["local"]
    [variants.optionlist]
    variants = ["default"]
"#;

/// A machine with its directory, without anything detected.
fn at_root(name: &str, source: &str) -> Machine {
    let found = DetectedHardware { cores: 4, threads_per_cpu: None, memory_mb: Some(8000), gpus: None };
    Machine::load(name, &format!("/mdb/{name}"), Layer::System, machine(source), &found).ok().unwrap()
}

#[test]
fn load_reports_missing_variant_files() {
    let broken = at_root("broken", BROKEN);
    let err = broken.validate_files(&Vec::new()).unwrap_err().message();
    assert!(err.contains("default"), "unexpected error: {err}");

    // With its files it is complete; each of them is missed where it is not there.
    let files: Vec<String> = ["submitscripts/default.sh", "runscripts/default.py", "optionlists/default.toml"]
        .iter()
        .map(|file| format!("/mdb/broken/{file}"))
        .collect();
    assert!(broken.validate_files(&files).is_ok());
    for i in 0..3 {
        let mut fewer = files.clone();
        fewer.remove(i);
        let err = broken.validate_files(&fewer).unwrap_err();
        assert!(err.message().contains("/mdb/broken/"), "{}", err.message());
        assert_eq!(matches!(err, FileError::NoOptionlist(..)), i == 2);
    }
    let mut more = files.clone();
    more.push("/mdb/broken/runscripts/default.sh".to_owned());
    assert!(matches!(broken.validate_files(&more).unwrap_err(), FileError::Both(..)));

    let script = broken.script_path(ScriptKind::Run, "default", false, true).unwrap();
    assert_eq!((script.path.as_str(), script.python), ("/mdb/broken/runscripts/default.py", true));
    let script = broken.script_path(ScriptKind::Submit, "default", true, false).unwrap();
    assert_eq!((script.path.as_str(), script.python), ("/mdb/broken/submitscripts/default.sh", false));
    assert!(matches!(broken.script_path(ScriptKind::Run, "x", false, false).unwrap_err(), FileError::Neither(..)));
}

#[test]
fn the_marked_optionlist_is_chosen() {
    let marked = |names: &[&str]| -> Vec<String> { names.iter().map(|n| n.to_string()).collect() };
    let one = at_root("one", BROKEN);
    assert_eq!(one.select_optionlist(None, &marked(&[])).unwrap(), "default");
    assert!(matches!(
        one.select_optionlist(Some("debug"), &marked(&[])).unwrap_err(),
        OptionlistChoiceError::Unknown(..)
    ));
    let two = at_root("two", &BROKEN.replace("variants = [\"default\"]", "variants = [\"default\", \"debug\"]"));
    assert_eq!(two.select_optionlist(Some("debug"), &marked(&["default"])).unwrap(), "debug");
    assert_eq!(two.select_optionlist(None, &marked(&["default"])).unwrap(), "default");
    assert!(matches!(
        two.select_optionlist(None, &marked(&[])).unwrap_err(),
        OptionlistChoiceError::NoDefault(..)
    ));
    let err = two.select_optionlist(None, &marked(&["default", "debug"])).unwrap_err();
    assert!(err.message().contains("(default, debug)"), "{}", err.message());
    assert!(matches!(err, OptionlistChoiceError::ManyDefaults(..)));
}

/// A command goes into a template as one word, whatever it holds.
#[test]
fn commands_are_put_in_whole() {
    let universe = Universe {
        kind: None,
        wrapper_argv: None,
        wrapper: Some("nice sh -c @COMMAND@; true".to_owned()),
        environment: environment(&Vec::new()),
    };
    let mut vars = VarSet::new();
    vars.set("USER", text_value("alice"));
    vars.set("COMMAND", text_value("another"));
    let WrappedCommand::Shell(text) = universe.wrap(&vars, "echo '@USER@' @COMMAND@").unwrap() else {
        panic!("no shell command")
    };
    assert_eq!(text, "nice sh -c 'echo '\\''@USER@'\\'' @COMMAND@'; true");
}
