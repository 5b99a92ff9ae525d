//! Process layouts, and the variables that scripts are filled with.

use cactup::args::TopologyFlags;
use cactup::config::ConfigMeta;
use cactup::mdb::meta::{
    Build, CactupMeta, Environment, Hardware, MachineInfo, Meta, OptionlistVariants, Paths, Queue, Scheduler,
    ScriptVariants, Variants,
};
use cactup::mdb::universe::Universe;
use cactup::mdb::variants::string_or_seq;
use cactup::mdb::{Layer, Machine};
use cactup::sim::restart::restart_dir;
use cactup::sim::vars::{
    apply_tasks_default, assemble, can_lay_out, can_resolve, chain_segments, check_gpus_per_node, check_queue,
    default_checkpt_buffer, gpu_note, lay_out, resolve_topology, set_machine_vars, set_topology_vars, set_wall_only_vars, set_walltime_vars,
    short_sim_name, AssembleError, QueueFit, RestartVarsInput, TopologyError,
};
use cactup::sim::{Simulation, SimulationMeta};
use cactup::table::Table;
use cactup::template::VarSet;
use cactup::toml_text::{get_field, read_toml, TomlValue};
use cactup::walltime::Walltime;

type Items = Vec<(String, TomlValue)>;

fn items<'a>(all: &'a Items, key: &str) -> Option<&'a Items> {
    match get_field(all, key) {
        Some(TomlValue::Dict(inner)) => Some(inner),
        Some(_) => panic!("{key} is no table"),
        None => None,
    }
}

fn text(all: &Items, key: &str) -> Option<String> {
    match get_field(all, key) {
        Some(TomlValue::Str(s)) => Some(s.clone()),
        Some(_) => panic!("{key} is no text"),
        None => None,
    }
}

fn texts(all: &Items, key: &str) -> Option<Vec<String>> {
    get_field(all, key).map(|v| string_or_seq(v).expect("a list of texts"))
}

fn flag(all: &Items, key: &str) -> bool {
    matches!(get_field(all, key), Some(TomlValue::Bool(true)))
}

fn number(all: &Items, key: &str) -> Option<u32> {
    match get_field(all, key) {
        Some(TomlValue::Int(n)) => Some(*n as u32),
        Some(_) => panic!("{key} is no number"),
        None => None,
    }
}

fn wall(all: &Items, key: &str) -> Option<Walltime> {
    text(all, key).map(|s| Walltime::parse(&s).expect("a walltime"))
}

fn environment(all: &Items) -> Environment {
    Environment {
        env_setup: text(all, "env-setup"),
        env_build_setup: text(all, "env-build-setup"),
        env_submit_setup: text(all, "env-submit-setup"),
        env_run_setup: text(all, "env-run-setup"),
    }
}

/// The machine that a `meta.toml` describes.
fn machine(source: &str) -> Meta {
    let none: Items = Vec::new();
    let TomlValue::Dict(doc) = read_toml(source).expect("a TOML document") else { panic!("a document is a table") };
    let at = |key: &str| items(&doc, key).unwrap_or(&none);
    let (info, paths, hw, build, sched, variants) =
        (at("machine"), at("paths"), at("hardware"), at("build"), at("scheduler"), at("variants"));
    let mut queues: Table<Queue> = Table::new();
    for (name, value) in at("queues") {
        let TomlValue::Dict(q) = value else { panic!("a queue is a table") };
        let queue = Queue {
            gpu: flag(q, "gpu"),
            max_walltime: wall(q, "max-walltime"),
            default: flag(q, "default"),
            name: text(q, "name"),
            build_universes: texts(q, "build-universes"),
            max_cpus_per_node: number(q, "max-cpus-per-node"),
            default_cpus_per_task: number(q, "default-cpus-per-task"),
            max_gpus_per_node: number(q, "max-gpus-per-node"),
            default_gpus_per_task: number(q, "default-gpus-per-task"),
            threads_per_cpu: number(q, "threads-per-cpu"),
            memory: number(q, "memory").map(u64::from),
        };
        queues.insert(name.clone(), queue);
    }
    let mut universes: Table<Universe> = Table::new();
    for (name, value) in at("universes") {
        let TomlValue::Dict(u) = value else { panic!("a universe is a table") };
        let universe = Universe {
            kind: text(u, "kind"),
            wrapper_argv: texts(u, "wrapper-argv"),
            wrapper: text(u, "wrapper"),
            environment: environment(u),
        };
        universes.insert(name.clone(), universe);
    }
    Meta {
        machine: MachineInfo {
            name: text(info, "name"),
            nickname: text(info, "nickname"),
            status: text(info, "status"),
            hostname: text(info, "hostname"),
            location: text(info, "location"),
            description: text(info, "description"),
        },
        paths: Paths {
            install_home: text(paths, "install-home"),
            simulation_home: text(paths, "simulation-home"),
            test_home: text(paths, "test-home"),
            scratch_home: text(paths, "scratch-home"),
        },
        hardware: Hardware {
            autodetect: flag(hw, "autodetect"),
            max_cpus_per_node: number(hw, "max-cpus-per-node"),
            default_cpus_per_task: number(hw, "default-cpus-per-task"),
            max_gpus_per_node: number(hw, "max-gpus-per-node"),
            default_gpus_per_task: number(hw, "default-gpus-per-task"),
            threads_per_cpu: number(hw, "threads-per-cpu"),
            memory: number(hw, "memory").map(u64::from),
        },
        build: Build {
            make: text(build, "make"),
            make_jobs: number(build, "make-jobs"),
            enabled_thorns: texts(build, "enabled-thorns").unwrap_or_default(),
            disabled_thorns: texts(build, "disabled-thorns").unwrap_or_default(),
            universe: text(build, "universe"),
        },
        environment: environment(at("environment")),
        scheduler: Scheduler {
            submit: text(sched, "submit"),
            blocking_submit: text(sched, "blocking-submit"),
            interactive_cmd: text(sched, "interactive-cmd"),
            get_status: text(sched, "get-status"),
            get_status_many: text(sched, "get-status-many"),
            stop: text(sched, "stop"),
            submit_pattern: text(sched, "submit-pattern"),
            status_pattern: text(sched, "status-pattern"),
            queued_pattern: text(sched, "queued-pattern"),
            running_pattern: text(sched, "running-pattern"),
            holding_pattern: text(sched, "holding-pattern"),
            exec_host: text(sched, "exec-host"),
            exec_host_pattern: text(sched, "exec-host-pattern"),
            stdout: text(sched, "stdout"),
            stderr: text(sched, "stderr"),
            stdout_follow: text(sched, "stdout-follow"),
            max_queue_slots: number(sched, "max-queue-slots"),
            max_walltime: wall(sched, "max-walltime"),
            allocation_env: texts(sched, "allocation-env").unwrap_or_default(),
        },
        queues,
        variants: Variants {
            submitscript: ScriptVariants::from_toml(items(variants, "submitscript").unwrap_or(&none)).unwrap_or_else(|e| panic!("{}", e.message())),
            runscript: ScriptVariants::from_toml(items(variants, "runscript").unwrap_or(&none)).unwrap_or_else(|e| panic!("{}", e.message())),
            optionlist: OptionlistVariants {
                variants: items(variants, "optionlist").and_then(|o| texts(o, "variants")).unwrap_or_default(),
            },
        },
        universes,
        cactup: CactupMeta { origin: None, mdb_generation: None },
    }
}

fn test_machine() -> Machine {
    let meta = machine(
        r#"
        [machine]
        name = "testbox"

        [hardware]
        max-cpus-per-node = 16
        memory = 64000
        threads-per-cpu = 2

        [queues.batch]
        default = true
        max-walltime = "24:00:00"

        [queues.gpuq]
        gpu = true
        max-walltime = "12:00:00"
        # Real scheduler name override: @QUEUE@ resolves to this.
        name = "gpu_part"
        # Per-queue hardware override: the GPU nodes are fatter.
        max-cpus-per-node = 32

        [queues.fillq]
        max-walltime = "24:00:00"
        # Deep-Bayou-style node: 48 CPUs, 24 CPUs/task by default → the
        # no-`-c` fill resolves to 2 tasks/node × 24 CPUs.
        max-cpus-per-node = 48
        default-cpus-per-task = 24

        [queues.gpucap]
        gpu = true
        max-walltime = "24:00:00"
        # qbd-gpu4 shape: 64 CPUs at 32/task = 2 tasks/node, on a 4-GPU
        # node. `max-gpus-per-node` never feeds the GPUs-per-task
        # default, which is a flat 1 GPU/task; it is a ceiling on the layout
        # and a bound on a derived tasks-per-node (here 2 < 4, so no-op).
        max-cpus-per-node = 64
        default-cpus-per-task = 32
        max-gpus-per-node = 4

        [queues.gpudef]
        gpu = true
        max-walltime = "24:00:00"
        # Same node, but this partition hands each rank two devices — the
        # one way to depart from the global 1.
        max-cpus-per-node = 64
        default-cpus-per-task = 32
        max-gpus-per-node = 4
        default-gpus-per-task = 2

        [variants.submitscript]
        "default" = { queues = ["batch", "gpuq", "fillq", "gpucap", "gpudef"], default = true }

        [variants.runscript]
        "default" = { queues = ["batch", "gpuq", "fillq", "gpucap", "gpudef"], default = true }

        [variants.optionlist]
        variants = ["default"]
        "#,
    );
    Machine {
        name: "testbox".to_owned(),
        dir: "/nonexistent".to_owned(),
        layer: Layer::System,
        meta,
    }
}

fn config(gpu: bool, compat: &[&str], machine: &str, universe: Option<&str>) -> ConfigMeta {
    ConfigMeta {
        name: "sim".to_owned(),
        variant: "default".to_owned(),
        gpu,
        compatible_queues: compat.iter().map(|q| q.to_string()).collect(),
        universe: universe.map(str::to_owned),
        coerce_run_universe: true,
        thornlist: "installation-default.th".to_owned(),
        machine: machine.to_owned(),
        config_id: "c1".to_owned(),
        build_id: "b1".to_owned(),
    }
}

fn test_cfg(gpu: bool, compat: &[&str]) -> ConfigMeta {
    config(gpu, compat, "testbox", None)
}

fn test_fit(gpu: bool, compat: &[&str]) -> QueueFit {
    QueueFit::from_config(&test_cfg(gpu, compat))
}

fn flags() -> TopologyFlags {
    TopologyFlags {
        allocation: None,
        queue: None,
        mail: None,
        mail_type: None,
        nodes: None,
        tasks: None,
        tpn: None,
        cpus: None,
        gpu: false,
        gpus_per_task: None,
        job_name: None,
        wall_time: None,
        out: None,
        err: None,
    }
}

#[test]
fn topology_defaults_fill_the_node() {
    let machine = test_machine();
    let db: Table<String> = Table::new();
    let topo = resolve_topology(&flags(), &machine, &db, &test_fit(false, &[]), false).unwrap();
    assert_eq!(topo.queue, "batch");
    // No `name` override: the scheduler-facing name is the key itself.
    assert_eq!(topo.scheduler_queue, "batch");
    assert_eq!((topo.nodes, topo.cpus, topo.tpn, topo.tasks), (1, 1, 16, 16));
    assert_eq!(topo.total_wall, Walltime::parse("24:00:00").unwrap());
}

#[test]
fn topology_derivation_with_flags_and_knobs() {
    let machine = test_machine();
    let mut db: Table<String> = Table::new();
    db.insert("allocation".to_owned(), "hpc_alloc".to_owned());
    db.insert("queue".to_owned(), "gpuq".to_owned());

    let mut f = flags();
    f.nodes = Some(4);
    f.cpus = Some(4);
    // Knob queue is gpuq; the config must be gpu-built to pass the check.
    let topo = resolve_topology(&f, &machine, &db, &test_fit(true, &[]), false).unwrap();
    assert_eq!(topo.queue, "gpuq");
    // The queue's `name` override is what the scheduler (@QUEUE@) sees.
    assert_eq!(topo.scheduler_queue, "gpu_part");
    assert!(topo.gpu, "queue gpu flag infers GPU");
    // The queue's max-cpus-per-node override (32) drives the layout, not [hardware]'s
    // 16: tpn = floor(32/4) = 8; tasks = 4 nodes * 8.
    assert_eq!((topo.tpn, topo.tasks), (8, 32));
    assert_eq!(topo.allocation.as_deref(), Some("hpc_alloc"));
    assert_eq!(topo.mail_type, "all");
}

#[test]
fn topology_fills_node_via_default_cpus_per_task() {
    // availability-vs-request: a machine/queue `default-cpus-per-task`
    // seeds CPUS_PER_TASK when `-c` is omitted, so the fill-the-node default
    // divides max-cpus-per-node by it.
    let machine = test_machine();
    let db: Table<String> = Table::new();
    let mut f = flags();
    f.queue = Some("fillq".to_owned());

    // No `-c`: cpus defaults to the queue's 24 → tpn = floor(48/24) = 2.
    let topo = resolve_topology(&f, &machine, &db, &test_fit(false, &[]), false).unwrap();
    assert_eq!((topo.nodes, topo.tasks, topo.tpn, topo.cpus), (1, 2, 2, 24));

    // An explicit `-c 1` request overrides the machine default → full-node
    // single-threaded fill: tpn = floor(48/1) = 48.
    f.cpus = Some(1);
    let topo = resolve_topology(&f, &machine, &db, &test_fit(false, &[]), false).unwrap();
    assert_eq!((topo.nodes, topo.tasks, topo.tpn, topo.cpus), (1, 48, 48, 1));
}

#[test]
fn explicit_tasks_caps_tasks_per_node() {
    // An explicit `--tasks` replaces the fill-the-node TASKS, so the derived
    // TASKS_PER_NODE must be capped with it: `--tasks=1` is 1 task on 1 node,
    // never `TASKS=1, TASKS_PER_NODE=16`.
    let machine = test_machine();
    let db: Table<String> = Table::new();

    let mut f = flags();
    f.tasks = Some(1);
    let topo = resolve_topology(&f, &machine, &db, &test_fit(false, &[]), false).unwrap();
    assert_eq!((topo.nodes, topo.tasks, topo.tpn), (1, 1, 1));

    // Below the fill-the-node value but above 1.
    f.tasks = Some(3);
    let topo = resolve_topology(&f, &machine, &db, &test_fit(false, &[]), false).unwrap();
    assert_eq!((topo.nodes, topo.tasks, topo.tpn), (1, 3, 3));

    // Multi-node: the cap is per node, and never below the ranks a node holds.
    f.nodes = Some(2);
    f.tasks = Some(3);
    let topo = resolve_topology(&f, &machine, &db, &test_fit(false, &[]), false).unwrap();
    assert_eq!((topo.nodes, topo.tasks, topo.tpn), (2, 3, 2));

    // The fill-the-node default is untouched (tasks == nodes * tpn).
    f.nodes = Some(2);
    f.tasks = None;
    let topo = resolve_topology(&f, &machine, &db, &test_fit(false, &[]), false).unwrap();
    assert_eq!((topo.nodes, topo.tasks, topo.tpn), (2, 32, 16));

    // An explicit `--tpn` stays authoritative even when it exceeds `--tasks`.
    f.nodes = None;
    f.tasks = Some(1);
    f.tpn = Some(4);
    let topo = resolve_topology(&f, &machine, &db, &test_fit(false, &[]), false).unwrap();
    assert_eq!((topo.tasks, topo.tpn), (1, 4));
}

#[test]
fn tasks_default_chain() {
    let machine = test_machine();
    let db: Table<String> = Table::new();
    let base = || resolve_topology(&flags(), &machine, &db, &test_fit(false, &[]), false).unwrap();

    // Script setting wins over the fallback; tpn is capped to match.
    let mut topo = base();
    apply_tasks_default(&mut topo, &flags(), Some(4), Some(2));
    assert_eq!((topo.tasks, topo.tpn), (4, 4));

    // No script setting → fallback (the testsuite 2).
    let mut topo = base();
    apply_tasks_default(&mut topo, &flags(), None, Some(2));
    assert_eq!((topo.tasks, topo.tpn), (2, 2));

    // Neither → the fill-the-node value stays.
    let mut topo = base();
    apply_tasks_default(&mut topo, &flags(), None, None);
    assert_eq!((topo.tasks, topo.tpn), (16, 16));

    // Any explicit process-layout flag disables the chain entirely.
    for set in [
        (&|f: &mut TopologyFlags| f.tasks = Some(8)) as &dyn Fn(&mut TopologyFlags),
        &|f| f.tpn = Some(8),
        &|f| f.nodes = Some(2),
    ] {
        let mut f = flags();
        set(&mut f);
        let mut topo = resolve_topology(&f, &machine, &db, &test_fit(false, &[]), false).unwrap();
        let before = (topo.tasks, topo.tpn);
        apply_tasks_default(&mut topo, &f, Some(4), Some(2));
        assert_eq!((topo.tasks, topo.tpn), before, "flags win over defaults");
    }
}

#[test]
fn gpus_per_task_derivation() {
    let machine = test_machine();
    let db: Table<String> = Table::new();
    let cfg = test_fit(false, &[]);
    let topo = |f: &TopologyFlags| resolve_topology(f, &machine, &db, &cfg, false).unwrap();

    // Non-GPU run: the variable is 0, never 1 — a script must be able to
    // tell "no GPUs" from "one GPU" using this alone.
    assert_eq!(topo(&flags()).gpus_per_task, 0);

    // One GPU per rank is the default, even on a 4-GPU node running 2
    // ranks: `max-gpus-per-node` is a ceiling, NOT a target to fill.
    let mut f = flags();
    f.queue = Some("gpucap".to_owned());
    let t = topo(&f);
    assert_eq!((t.tpn, t.gpus_per_task), (2, 1));

    // …and it stays 1 regardless of how the ranks are laid out, so a job
    // that shrinks for unrelated reasons never silently grabs more devices.
    f.tpn = Some(1);
    assert_eq!(topo(&f).gpus_per_task, 1);
    f.tpn = Some(4);
    assert_eq!(topo(&f).gpus_per_task, 1);

    // An explicit flag wins, up to what the node holds.
    f.tpn = None;
    f.gpus_per_task = Some(2);
    assert_eq!(topo(&f).gpus_per_task, 2);

    // `default-gpus-per-task` is the one way to depart from the global 1.
    let mut f = flags();
    f.queue = Some("gpudef".to_owned());
    assert_eq!(topo(&f).gpus_per_task, 2, "queue default outranks the global 1");
    f.gpus_per_task = Some(1);
    assert_eq!(topo(&f).gpus_per_task, 1, "the flag still wins");

    // A GPU queue that declares no GPU count also gets 1 — and with no
    // ceiling to check, a big explicit request is nobody's business to
    // refuse.
    let mut f = flags();
    f.queue = Some("gpuq".to_owned());
    assert_eq!(topo(&f).gpus_per_task, 1);
    f.gpus_per_task = Some(64);
    assert_eq!(topo(&f).gpus_per_task, 64);
}

/// The GPUs of a node may be more than a number of 32 bits; they are too many all the same.
#[test]
fn huge_gpu_requests_are_refused() {
    let hw = |max: Option<u32>| Hardware {
        autodetect: false,
        max_cpus_per_node: None,
        default_cpus_per_task: None,
        max_gpus_per_node: max,
        default_gpus_per_task: None,
        threads_per_cpu: None,
        memory: None,
    };
    let err = check_gpus_per_node(65536, 65536, &hw(Some(4)), "q").unwrap_err();
    assert!(matches!(&err, TopologyError::TooManyGpus(65536, 65536, q, 4) if q == "q"));
    assert!(err.message().starts_with("this layout needs 4294967296 GPUs per node"), "{}", err.message());
    check_gpus_per_node(65536, 65536, &hw(None), "q").unwrap();
    check_gpus_per_node(0, 65536, &hw(Some(4)), "q").unwrap();
    check_gpus_per_node(2, 2, &hw(Some(4)), "q").unwrap();
    check_gpus_per_node(u32::MAX, 1, &hw(Some(u32::MAX)), "q").unwrap();
    assert!(check_gpus_per_node(u32::MAX, u32::MAX, &hw(Some(u32::MAX)), "q").is_err());
}

#[test]
fn gpus_per_node_capacity_is_enforced() {
    // Unlike CPUs, GPUs cannot be oversubscribed: a layout needing more of
    // them per node than the queue has is refused up front rather than
    // submitted to sit unschedulable (or to land with ranks fighting over
    // one device).
    let machine = test_machine();
    let db: Table<String> = Table::new();
    let cfg = test_fit(false, &[]);
    let err = |f: &TopologyFlags| resolve_topology(f, &machine, &db, &cfg, false).err().unwrap().message();

    // 4 GPUs, but 8 ranks per node want one each.
    let mut f = flags();
    f.queue = Some("gpucap".to_owned());
    f.tpn = Some(8);
    let e = err(&f);
    assert!(e.contains("8 GPUs per node") && e.contains("has 4"), "{e}");

    // At 1 GPU per rank there is nothing left to lower, so the advice must
    // point at the layout instead of at --gpus-per-task.
    assert!(e.contains("already takes one GPU") && e.contains("--tpn"), "{e}");

    // An explicit `--gpus-per-task` the node can still honor is NOT an
    // error any more: 3 each × the CPU rule's 2 ranks would need 6, but the
    // derived rank count is bounded by the GPU budget (4/3 = 1 rank), so it
    // resolves to a layout that fits instead of being refused.
    let mut f = flags();
    f.queue = Some("gpucap".to_owned());
    f.gpus_per_task = Some(3);
    let t = resolve_topology(&f, &machine, &db, &cfg, false).unwrap();
    assert_eq!((t.tpn, t.gpus_per_task), (1, 3));

    // An over-request no layout can satisfy — more GPUs per rank than the
    // whole node holds — is still refused, and there the advice DOES name
    // the flag the user turned.
    f.gpus_per_task = Some(5);
    let e = err(&f);
    assert!(e.contains("5 GPUs per node") && e.contains("--gpus-per-task 4"), "{e}");

    // Exactly filling the node is fine — the check is a ceiling, not a cap
    // on using everything (2 each × 2 ranks = 4).
    f.gpus_per_task = Some(2);
    assert!(resolve_topology(&f, &machine, &db, &cfg, false).is_ok());

    // A queue whose `default-gpus-per-task` overshoots its own node is
    // caught too: gpudef hands out 2 each, so 4 ranks would need 8.
    let mut f = flags();
    f.queue = Some("gpudef".to_owned());
    f.tpn = Some(4);
    assert!(err(&f).contains("8 GPUs per node"), "{}", err(&f));

    // Shrinking the layout afterwards leaves GPUS_PER_TASK alone — it is
    // per-task, so fewer ranks simply need fewer GPUs.
    let mut f = flags();
    f.queue = Some("gpudef".to_owned());
    let mut topo = resolve_topology(&f, &machine, &db, &cfg, false).unwrap();
    apply_tasks_default(&mut topo, &f, Some(1), None);
    assert_eq!((topo.tpn, topo.gpus_per_task), (1, 2));
}

#[test]
fn gpus_per_task_requires_a_gpu_run() {
    let machine = test_machine();
    let db: Table<String> = Table::new();
    let mut f = flags();
    f.gpus_per_task = Some(2);
    // Default queue `batch` is not GPU-flagged: refused, not ignored.
    let err = resolve_topology(&f, &machine, &db, &test_fit(false, &[]), false)
        .err()
        .unwrap()
        .message();
    assert!(err.contains("--gpus-per-task"), "{err}");
    // `--gpu` alone is enough to make it meaningful again.
    f.gpu = true;
    assert_eq!(resolve_topology(&f, &machine, &db, &test_fit(false, &[]), false).unwrap().gpus_per_task, 2);
}

#[test]
fn queue_and_gpu_guards() {
    let machine = test_machine();
    let db: Table<String> = Table::new();

    // compatible-queues mismatch refused…
    let cfg = test_fit(false, &["gpuq"]);
    let err = resolve_topology(&flags(), &machine, &db, &cfg, false).err().unwrap().message();
    assert!(err.contains("--force-queue"), "{err}");
    // …unless forced.
    assert!(resolve_topology(&flags(), &machine, &db, &cfg, true).is_ok());

    // GPU cross-check is one-directional: a GPU binary in a non-GPU
    // context (default queue batch) is refused…
    let err = resolve_topology(&flags(), &machine, &db, &test_fit(true, &[]), false)
        .err()
        .unwrap()
        .message();
    assert!(err.contains("GPU"), "{err}");
    // …unless forced.
    assert!(resolve_topology(&flags(), &machine, &db, &test_fit(true, &[]), true).is_ok());
    // A non-GPU binary on a GPU queue is allowed (advisory only).
    let mut f = flags();
    f.queue = Some("gpuq".to_owned());
    let topo = resolve_topology(&f, &machine, &db, &test_fit(false, &[]), false).unwrap();
    assert!(topo.gpu);
}

#[test]
fn queue_build_universe_gate() {
    // A machine whose two queues are gated by build universe:
    // "host-only" serves host builds, "sing" serves et-sing builds.
    let meta = machine(
        r#"
        [machine]
        name = "gq"

        [queues.host-only]
        default = true
        build-universes = ["host"]

        [queues.sing]
        build-universes = ["et-sing"]

        [variants.submitscript]
        "s" = { queues = ["host-only", "sing"] }

        [variants.runscript]
        "r" = { queues = ["host-only", "sing"] }

        [variants.optionlist]
        variants = ["default"]

        [universes.et-sing]
        wrapper-argv = ["apptainer", "exec", "et.sif"]
        "#,
    );
    meta.validate("gq").unwrap();
    let machine =
        Machine { name: "gq".to_owned(), dir: "/nonexistent".to_owned(), layer: Layer::System, meta };
    let db: Table<String> = Table::new();

    let cfg_in = |universe: &str| QueueFit::from_config(&config(false, &[], "gq", Some(universe)));

    // A host build cannot be routed to the et-sing-gated queue — a hard
    // error even with --force-queue (unlike the compatible-queues guard).
    let mut f = flags();
    f.queue = Some("sing".to_owned());
    let err = resolve_topology(&f, &machine, &db, &cfg_in("host"), true).err().unwrap().message();
    assert!(err.contains("build universe") && err.contains("\"sing\""), "{err}");

    // Each build flavor's default resolves to its sole compatible queue.
    assert_eq!(resolve_topology(&flags(), &machine, &db, &cfg_in("host"), false).unwrap().queue, "host-only");
    assert_eq!(resolve_topology(&flags(), &machine, &db, &cfg_in("et-sing"), false).unwrap().queue, "sing");
}

#[test]
fn chaining_math() {
    let h24 = Walltime::parse("24:00:00").unwrap();
    let h100 = Walltime::parse("100:00:00").unwrap();
    // 100 h on a 24 h queue → 5 segments of 24 h.
    assert_eq!(chain_segments(h100, h24), (5, h24));
    // Fits → one segment at the requested wall.
    let h2 = Walltime::parse("2:00:00").unwrap();
    assert_eq!(chain_segments(h2, h24), (1, h2));
    assert_eq!(chain_segments(h24, h24), (1, h24));
}

#[test]
fn checkpoint_buffer_default() {
    // 24 h reservation → 1 h margin; 2 h → the 10-minute floor.
    assert_eq!(default_checkpt_buffer(Walltime(24 * 3600)), Walltime(3600));
    assert_eq!(default_checkpt_buffer(Walltime(2 * 3600)), Walltime(600));
}

#[test]
fn short_name_rules() {
    assert_eq!(short_sim_name("bbh", 3), "bbh-3");
    assert_eq!(short_sim_name("my sim", 0), "my_sim-0");
    assert_eq!(short_sim_name("0numeric", 1), "J0numeric-1");
    assert_eq!(short_sim_name("averylongsimulationname", 12).len(), 15);
}

#[test]
fn env_setup_follows_the_run_universe() {
    let mut machine = test_machine();
    machine.meta.environment.env_setup = Some("export M=1".to_owned());
    // An identity universe carrying only a run-phase env override.
    let sing = Universe {
        kind: None,
        wrapper_argv: None,
        wrapper: None,
        environment: Environment {
            env_setup: None,
            env_build_setup: None,
            env_submit_setup: None,
            env_run_setup: Some("module load sing".to_owned()),
        },
    };
    machine.meta.universes.insert("sing".to_owned(), sing);

    let mut v = VarSet::new();
    set_machine_vars(&mut v, &machine.meta, "batch", None).unwrap();
    assert_eq!(v.get("ENV_SETUP").unwrap().canonical(), "export M=1");
    let mut v = VarSet::new();
    set_machine_vars(&mut v, &machine.meta, "batch", Some("sing")).unwrap();
    assert_eq!(v.get("ENV_SETUP").unwrap().canonical(), "export M=1\nmodule load sing");
}


#[test]
fn assembles_full_var_set() {
    let machine = test_machine();
    let meta = SimulationMeta {
        schema: 1,
        machine: String::new(),
        simulation_id: "simulation-bbh-x".to_owned(),
        sourcedir: "/opt/Cactus".to_owned(),
        configuration: "sim".to_owned(),
        config_id: String::new(),
        build_id: String::new(),
        executable: String::new(),
        optionlist: String::new(),
        thornlist: String::new(),
        parfile: "bbh.par".to_owned(),
        alias: "et".to_owned(),
    };
    let sim = Simulation { name: "bbh".to_owned(), dir: "/home/sim/bbh".to_owned(), meta };
    let db: Table<String> = Table::new();
    let topo = resolve_topology(&flags(), &machine, &db, &test_fit(false, &[]), false).unwrap();
    let wall = Walltime::parse("1-01:30:45").unwrap();
    let input = RestartVarsInput {
        sim: &sim,
        machine: &machine,
        topo: &topo,
        sim_home: "/home",
        restart_id: 2,
        job_wall: wall,
        checkpt_buffer: Walltime(3600),
        chained_job_id: "1234",
        hostname: "host.example",
        user: "alice",
        email: "a@example.org",
        run_universe: None,
        debug: false,
        cactup: "/usr/bin/cactup",
    };
    let vars = assemble(&input, Table::new()).ok().unwrap();

    let line = vars
        .substitute(
            "@CACTUP@ sim run @SIMULATION_NAME@ --installation=@ALIAS@ \
             --sim-dir=@SIMULATION_DIR@ --machine=@MACHINE@ --restart-id=@RESTART_ID@ \
             # @WALLTIME@ @CHECKPOINT_WALLTIME@ w=@WALLTIME_HH@:@WALLTIME_MM@ \
             q=@QUEUE@ n=@NODES@ t=@TASKS@ chained=@CHAINED_JOB_ID@ smt=@THREADS_PER_CPU@ mem=@MEMORY@",
        )
        .unwrap();
    assert!(line.starts_with("/usr/bin/cactup sim run"), "{line}");
    assert!(line.contains("sim run bbh --installation=et"), "{line}");
    assert!(line.contains("--restart-id=2"), "{line}");
    // 25 h 30 min 45 s of hard wall; the hint is an hour less; the hours fold the days in.
    assert!(line.contains("# 01-01:30:45 01-00:30:45 w=25:30"), "{line}");
    assert!(line.contains("chained=1234 smt=2 mem=64000"), "{line}");

    assert_eq!(vars.get("RUNDIR").unwrap().canonical(), restart_dir(&sim.dir, 2));
    assert_eq!(vars.get("SIM_HOME").unwrap().canonical(), "/home");
    assert!(vars.get("EXECUTABLE").unwrap().canonical().ends_with(".cactup/exe"));
    assert!(vars.get("PARFILE").unwrap().canonical().ends_with("output-0002/bbh.par"));

    // A queue that the machine lacks, or a path that cannot be filled, is reported.
    let mut lost = test_machine();
    lost.meta.paths.scratch_home = Some("@ENV(NOWHERE)@".to_owned());
    let err = assemble(&RestartVarsInput { machine: &lost, ..input }, Table::new()).err().unwrap();
    assert!(matches!(&err, AssembleError::Path(e) if e.key == "scratch-home"), "{}", err.message());
}

fn batch_of(name: &str, hardware: &str, queues: &str, served: &str) -> Machine {
    let meta = machine(&format!(
        "[machine]\nname = \"{name}\"\n[hardware]\n{hardware}\n{queues}\n[variants.submitscript]\n\"default\" = \
         [{served}]\n[variants.runscript]\n\"default\" = [{served}]\n[variants.optionlist]\nvariants = [\"default\"]\n"
    ));
    meta.validate(name).unwrap();
    Machine { name: name.to_owned(), dir: "/nonexistent".to_owned(), layer: Layer::System, meta }
}

/// A request without flags uses the whole node that it is given, on partitions of either width.
#[test]
fn qbd_defaults_fill_each_partition() {
    let machine = batch_of(
        "qbd",
        "max-cpus-per-node = 64\ndefault-cpus-per-task = 32\nmax-gpus-per-node = 2",
        "[queues.gpu2]\ngpu = true\ndefault = true\n[queues.gpu4]\ngpu = true\ndefault-cpus-per-task = 16\n\
         max-gpus-per-node = 4",
        "\"gpu2\", \"gpu4\"",
    );
    let db: Table<String> = Table::new();
    let fit = QueueFit::from_config(&config(true, &[], "qbd", None));

    for (queue, gpus) in [("gpu2", 2), ("gpu4", 4)] {
        let mut f = flags();
        f.queue = Some(queue.to_owned());
        let t = resolve_topology(&f, &machine, &db, &fit, false).unwrap();
        let hw = machine.meta.effective_hardware(queue).unwrap();
        assert_eq!(hw.max_gpus_per_node, Some(gpus), "{queue}");
        assert_eq!(t.gpus_per_task, 1, "{queue}");
        assert_eq!(t.tpn, gpus, "{queue}: a rank per GPU");
        assert_eq!(t.tpn * t.gpus_per_task, gpus, "{queue}: no idle GPUs");
        assert_eq!(t.tpn * t.cpus, hw.max_cpus_per_node.unwrap(), "{queue}: no idle cores");
    }

    let mut f = flags();
    f.queue = Some("gpu4".to_owned());
    f.tasks = Some(8);
    let t = resolve_topology(&f, &machine, &db, &fit, false).unwrap();
    assert_eq!((t.tasks, t.tpn, t.cpus, t.gpus_per_task), (8, 4, 16, 1));
}

/// Where no number of GPUs is declared, the cores alone fill the node.
#[test]
fn db1_layouts_are_untouched_by_the_gpu_bound() {
    let machine = batch_of(
        "db1.hpc.lsu.edu",
        "max-cpus-per-node = 48\ndefault-cpus-per-task = 24",
        "[queues.gpu]\ngpu = true\ndefault = true",
        "\"gpu\"",
    );
    let db: Table<String> = Table::new();
    let fit = QueueFit::from_config(&config(true, &[], "db1.hpc.lsu.edu", None));
    let hw = machine.meta.effective_hardware("gpu").unwrap();
    assert_eq!(hw.max_gpus_per_node, None);

    let t = resolve_topology(&flags(), &machine, &db, &fit, false).unwrap();
    assert_eq!((t.tasks, t.tpn, t.cpus, t.gpus_per_task), (2, 2, 24, 1));

    let mut f = flags();
    f.tasks = Some(4);
    let t = resolve_topology(&f, &machine, &db, &fit, false).unwrap();
    assert_eq!((t.tasks, t.tpn), (4, 2));
}

/// A node with one GPU is not filled: the ranks are bounded by what it has of them.
#[test]
fn omnia_default_is_one_rank_and_does_not_fill_the_node() {
    let machine = batch_of(
        "omnia",
        "max-cpus-per-node = 72\ndefault-cpus-per-task = 8\nmax-gpus-per-node = 1",
        "[queues.local]\ngpu = true\ndefault = true",
        "\"local\"",
    );
    let db: Table<String> = Table::new();
    let fit = QueueFit::from_config(&config(true, &[], "omnia", None));
    let hw = machine.meta.effective_hardware("local").unwrap();
    assert_eq!(
        (hw.max_cpus_per_node, hw.default_cpus_per_task, hw.max_gpus_per_node),
        (Some(72), Some(8), Some(1))
    );

    let t = resolve_topology(&flags(), &machine, &db, &fit, false).unwrap();
    assert_eq!((t.tasks, t.tpn, t.cpus, t.gpus_per_task), (1, 1, 8, 1));
    assert!(t.tpn * t.cpus < hw.max_cpus_per_node.unwrap(), "the whole point: idle cores");

    let mut f = flags();
    f.cpus = Some(72);
    let t = resolve_topology(&f, &machine, &db, &fit, false).unwrap();
    assert_eq!((t.tasks, t.tpn, t.cpus), (1, 1, 72));

    // An explicit count is refused rather than quietly bounded.
    let mut f = flags();
    f.tpn = Some(4);
    let err = resolve_topology(&f, &machine, &db, &fit, false).err().unwrap().message();
    assert!(err.contains("needs 4 GPUs per node") && err.contains("--tpn/--tasks"), "{err}");

    let mut f = flags();
    f.tasks = Some(10);
    let err = resolve_topology(&f, &machine, &db, &fit, false).err().unwrap().message();
    assert!(err.contains("needs 9 GPUs per node") && err.contains("--tpn/--tasks"), "{err}");

    let mut f = flags();
    f.tasks = Some(1);
    let t = resolve_topology(&f, &machine, &db, &fit, false).unwrap();
    assert_eq!((t.tasks, t.tpn), (1, 1));
}

/// Templates can name the number of GPUs to a task.
#[test]
fn real_templates_naming_gpus_per_task_substitute() {
    let machine = test_machine();
    let topo = resolve_topology(&flags(), &machine, &Table::new(), &test_fit(false, &[]), false).unwrap();
    let mut v = VarSet::new();
    set_topology_vars(&mut v, &topo, "job");
    let body = "#SBATCH --gpus-per-task=@GPUS_PER_TASK@\nmpirun -np @TASKS@\n";
    assert_eq!(v.substitute(body).unwrap(), "#SBATCH --gpus-per-task=0\nmpirun -np 16\n");
    // On a queue whose nodes have four GPUs, and on one that gives two to a task.
    for (queue, want) in [("gpucap", 1), ("gpudef", 2)] {
        let mut f = flags();
        f.queue = Some(queue.to_owned());
        let topo = resolve_topology(&f, &machine, &Table::new(), &test_fit(false, &[]), false).unwrap();
        let mut v = VarSet::new();
        set_topology_vars(&mut v, &topo, "job");
        let filled = format!("#SBATCH --gpus-per-task={want}\nmpirun -np 2\n");
        assert_eq!(v.substitute(body).unwrap(), filled, "{queue}");
    }
}

/// Requests whose numbers are too large to compute with can be told beforehand.
#[test]
fn layouts_that_cannot_be_computed_are_told_apart() {
    let machine = test_machine();
    let db: Table<String> = Table::new();
    let fit = test_fit(false, &[]);
    assert!(can_resolve(&flags(), &machine, &db, &fit, false));
    let mut f = flags();
    f.nodes = Some(u32::MAX);
    assert!(!can_resolve(&f, &machine, &db, &fit, false));
    let hw = machine.meta.effective_hardware("batch").unwrap();
    assert!(can_lay_out(&flags(), &hw, false) && !can_lay_out(&f, &hw, false));
    let l = lay_out(&flags(), &hw, false);
    assert_eq!((l.nodes, l.tasks, l.tpn, l.cpus, l.gpus_per_task), (1, 16, 16, 1, 0));
}

/// Every reason to refuse a request names what is wrong.
#[test]
fn refused_requests_say_why() {
    let machine = test_machine();
    let db: Table<String> = Table::new();
    let mut f = flags();
    f.queue = Some("nope".to_owned());
    let err = resolve_topology(&f, &machine, &db, &test_fit(false, &[]), false).err().unwrap();
    assert!(matches!(&err, TopologyError::Resolve(_)), "{}", err.message());
    let bare = machine_without_default();
    let err = resolve_topology(&flags(), &bare, &db, &test_fit(false, &[]), false).err().unwrap();
    assert!(matches!(&err, TopologyError::NoQueue(_, _)), "{}", err.message());
    assert!(matches!(
        check_queue(&flags(), &machine, &db, &test_fit(false, &["gpuq"]), false),
        Err(TopologyError::Incompatible(_, _, _))
    ));
    assert!(matches!(
        check_queue(&flags(), &machine, &db, &test_fit(true, &[]), false),
        Err(TopologyError::NeedsGpu(_, _))
    ));
}

fn machine_without_default() -> Machine {
    batch_of("two", "max-cpus-per-node = 4", "[queues.a]\n[queues.b]", "\"a\", \"b\"")
}

/// A build without GPUs on a queue that has them is noted where there is another.
#[test]
fn idle_gpus_are_noted() {
    let machine = test_machine();
    let db: Table<String> = Table::new();
    let mut f = flags();
    f.queue = Some("gpuq".to_owned());
    let topo = resolve_topology(&f, &machine, &db, &test_fit(false, &[]), false).unwrap();
    assert!(gpu_note(&test_fit(false, &[]), &topo, &machine.meta).is_some());
    assert!(gpu_note(&test_fit(true, &[]), &topo, &machine.meta).is_none());
}

/// The walltime variables, whole and in parts.
#[test]
fn walltimes_are_spelled_in_every_form() {
    let mut v = VarSet::new();
    set_walltime_vars(&mut v, Walltime(25 * 3600 + 30 * 60 + 45), Walltime(3600));
    let get = |name: &str| v.get(name).unwrap().canonical();
    assert_eq!((get("WALLTIME"), get("CHECKPOINT_WALLTIME")), ("01-01:30:45".to_owned(), "01-00:30:45".to_owned()));
    let mut w = VarSet::new();
    set_wall_only_vars(&mut w, Walltime(90));
    assert_eq!(w.get("WALLTIME").unwrap().canonical(), "00-00:01:30");
    assert!(w.get("CHECKPOINT_WALLTIME").is_none());
}
