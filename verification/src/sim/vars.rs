//! From a request for nodes, tasks and cores to the layout of a run, and from there to the
//! variables that its scripts are filled in with.

use crate::args::TopologyFlags;
use crate::config::ConfigMeta;
use crate::mdb::meta::{
    admits, copy_list, default_queue_place, default_queues_are_meant, filled_path, opt_view, opt_views, or_copy, or_else, path_fault,
    queue_hardware, Hardware, Meta, PathError, Phase, Queue, ResolveError, ResolveFault, Texts, HOST_UNIVERSE,
};
use crate::mdb::{path_texts, path_vars, Machine};
use crate::sim::restart::{dir_text, restart_dir};
use crate::sim::{stem_of, Simulation};
use crate::table::{distinct, has_name, value_of, Table};
use crate::template::{
    block_views, env_of, lemma_set_all_add, number_text, number_value, set_all, set_variables_read_back, text_value,
    var, var_views, Filled, VarSet, VarText, VarValue,
};
use crate::text::{
    cat2, cat3, cat5, cat7, chars_of, decimal, decimal_of, is_listed, is_space, join, joined, lemma_listed, path_join,
    path_of, space, views,
};
use crate::walltime::{two_digits, Walltime};
use vstd::prelude::*;

verus! {

/// The layout of a run, with the queue that it goes to and what else the scheduler is told.
#[derive(Debug)]
pub struct Topology {
    pub nodes: u32,
    pub tasks: u32,
    /// Tasks per node.
    pub tpn: u32,
    /// Cores per task.
    pub cpus: u32,
    pub gpu: bool,
    /// None on a run without GPUs.
    pub gpus_per_task: u32,
    pub queue: String,
    /// The scheduler's name for the queue.
    pub scheduler_queue: String,
    pub allocation: Option<String>,
    pub mail: Option<String>,
    pub mail_type: String,
    pub job_name: Option<String>,
    /// The walltime of the whole simulation.
    pub total_wall: Walltime,
    pub out: Option<String>,
    pub err: Option<String>,
}

/// What a build says of the queues that it may run on.
#[derive(Debug)]
pub struct QueueFit {
    pub universe: Option<String>,
    pub compatible_queues: Vec<String>,
    pub gpu: bool,
    /// The name of the build, for messages.
    pub label: String,
}

/// What a build says of the queues that it may run on, as values: the universe that it was made in,
/// `host` where it names none, and the queues, all of them where there is none in the list.
pub struct Fit {
    pub universe: Seq<char>,
    pub queues: Seq<Seq<char>>,
    pub gpu: bool,
    pub label: Seq<char>,
}

/// The universe of a build: `host` where it names none.
pub open spec fn built_in(universe: Option<String>) -> Seq<char> {
    match universe {
        Some(u) => u@,
        None => HOST_UNIVERSE@,
    }
}

impl View for QueueFit {
    type V = Fit;

    open spec fn view(&self) -> Fit {
        Fit {
            universe: built_in(self.universe),
            queues: views(self.compatible_queues@),
            gpu: self.gpu,
            label: self.label@,
        }
    }
}

/// What a configuration says of the queues that it may run on.
pub open spec fn config_fit(cfg: ConfigMeta) -> Fit {
    Fit {
        universe: built_in(cfg.universe),
        queues: views(cfg.compatible_queues@),
        gpu: cfg.gpu,
        label: cfg.name@,
    }
}

impl QueueFit {
    /// What a configuration says of the queues that it may run on.
    pub fn from_config(cfg: &ConfigMeta) -> (r: QueueFit)
        ensures
            r@ == config_fit(*cfg),
    {
        QueueFit {
            universe: cfg.universe.clone(),
            compatible_queues: copy_list(&cfg.compatible_queues),
            gpu: cfg.gpu,
            label: cfg.name.clone(),
        }
    }
}

/// Why a run cannot have the layout that it asks for.
pub enum TopologyFault {
    NoQueue(Seq<char>, Seq<char>),
    Resolve(ResolveFault),
    Universe(Seq<char>, Seq<char>, Seq<Seq<char>>),
    Incompatible(Seq<char>, Seq<Seq<char>>, Seq<char>),
    NeedsGpu(Seq<char>, Seq<char>),
    NotGpu(Seq<char>),
    TooManyGpus(nat, nat, Seq<char>, nat),
}

/// Why a run cannot have the layout that it asks for.
#[derive(Debug)]
pub enum TopologyError {
    /// No queue is named, and the machine has no default for the universe.
    NoQueue(String, String),
    Resolve(ResolveError),
    /// The queue does not serve builds of the universe; those that it serves.
    Universe(String, String, Vec<String>),
    /// The build may run on these queues only, not on this one.
    Incompatible(String, Vec<String>, String),
    /// The build needs GPUs, and the run on this queue has none.
    NeedsGpu(String, String),
    /// GPUs per task are asked for on a queue without GPUs.
    NotGpu(String),
    /// This many GPUs per task and tasks per node are too many for the queue's nodes, which have
    /// the last number.
    TooManyGpus(u32, u32, String, u32),
}

impl View for TopologyError {
    type V = TopologyFault;

    open spec fn view(&self) -> TopologyFault {
        match *self {
            TopologyError::NoQueue(machine, universe) => TopologyFault::NoQueue(machine@, universe@),
            TopologyError::Resolve(e) => TopologyFault::Resolve(e@),
            TopologyError::Universe(queue, universe, list) => TopologyFault::Universe(
                queue@,
                universe@,
                views(list@),
            ),
            TopologyError::Incompatible(label, list, queue) => TopologyFault::Incompatible(
                label@,
                views(list@),
                queue@,
            ),
            TopologyError::NeedsGpu(label, queue) => TopologyFault::NeedsGpu(label@, queue@),
            TopologyError::NotGpu(queue) => TopologyFault::NotGpu(queue@),
            TopologyError::TooManyGpus(per_task, tpn, queue, max) => TopologyFault::TooManyGpus(
                per_task as nat,
                tpn as nat,
                queue@,
                max as nat,
            ),
        }
    }
}

/// What can be done about too many GPUs per node: whichever of the two numbers can still be
/// lowered so that the layout fits.
pub open spec fn gpu_fix(per_task: u32, tpn: u32, queue: Seq<char>, max: u32) -> Seq<char> {
    if max == 0 {
        "queue \""@ + queue + "\" has no GPUs at all; run without GPUs or pick another queue"@
    } else if per_task > max {
        "--gpus-per-task "@ + decimal_of(max as nat) + " or lower fits this layout"@
    } else if per_task > 1 && tpn > 0 && max / tpn >= 1 {
        "--gpus-per-task "@ + decimal_of((max / tpn) as nat) + " or lower fits this layout"@
    } else if per_task > 1 {
        "lower --tpn/--tasks to put at most "@ + decimal_of((max / per_task) as nat) + " ranks on a node"@
    } else {
        "each rank already takes one GPU, so lower --tpn/--tasks to put at most "@ + decimal_of(max as nat)
            + " on a node"@
    }
}

fn gpu_advice(per_task: u32, tpn: u32, queue: &str, max: u32) -> (r: String)
    ensures
        r@ == gpu_fix(per_task, tpn, queue@, max),
{
    if max == 0 {
        cat3("queue \"", queue, "\" has no GPUs at all; run without GPUs or pick another queue")
    } else if per_task > max {
        cat3("--gpus-per-task ", &decimal(max as u64), " or lower fits this layout")
    } else if per_task > 1 && tpn > 0 && max / tpn >= 1 {
        cat3("--gpus-per-task ", &decimal((max / tpn) as u64), " or lower fits this layout")
    } else if per_task > 1 {
        cat3("lower --tpn/--tasks to put at most ", &decimal((max / per_task) as u64), " ranks on a node")
    } else {
        cat3(
            "each rank already takes one GPU, so lower --tpn/--tasks to put at most ",
            &decimal(max as u64),
            " on a node",
        )
    }
}

impl TopologyError {
    /// The message for the user, as text.
    pub open spec fn text(self) -> Seq<char> {
        match self {
            TopologyError::NoQueue(machine, universe) =>
                "no queue given (-q), no `queue` knob set, and machine \""@ + machine@
                + "\" has no default queue compatible with build universe \""@ + universe@ + "\""@,
            TopologyError::Resolve(e) => e.text(),
            TopologyError::Universe(queue, universe, list) => "queue \""@ + queue@
                + "\" is not compatible with build universe \""@ + universe@ + "\" (build-universes = ["@ + joined(
                views(list@),
                ", "@,
            ) + "])"@,
            TopologyError::Incompatible(label, list, queue) => "config \""@ + label@
                + "\" is only compatible with queue(s) "@ + joined(views(list@), ", "@) + " (not \""@ + queue@
                + "\"); use --force-queue to override"@,
            TopologyError::NeedsGpu(label, queue) => "config \""@ + label@
                + "\" was built with GPU support but this run is non-GPU (queue \""@ + queue@
                + "\"); use --force-queue to override"@,
            TopologyError::NotGpu(queue) => "--gpus-per-task is only meaningful on a GPU run, but queue \""@ + queue@
                + "\" is not GPU-flagged and --gpu was not given"@,
            TopologyError::TooManyGpus(per_task, tpn, queue, max) => ("this layout needs "@ + decimal_of(
                (per_task * tpn) as nat,
            ) + " GPUs per node ("@ + decimal_of(per_task as nat) + " per task × "@ + decimal_of(tpn as nat)
                + " tasks/node) but queue \""@) + queue@ + "\" has "@ + decimal_of(max as nat) + "; "@ + gpu_fix(
                per_task,
                tpn,
                queue@,
                max,
            ),
        }
    }

    /// The message for the user.
    pub fn message(&self) -> (r: String)
        ensures
            r@ == self.text(),
    {
        match self {
            TopologyError::NoQueue(machine, universe) => cat5(
                "no queue given (-q), no `queue` knob set, and machine \"",
                machine,
                "\" has no default queue compatible with build universe \"",
                universe,
                "\"",
            ),
            TopologyError::Resolve(e) => e.message(),
            TopologyError::Universe(queue, universe, list) => cat7(
                "queue \"",
                queue,
                "\" is not compatible with build universe \"",
                universe,
                "\" (build-universes = [",
                &join(list, ", "),
                "])",
            ),
            TopologyError::Incompatible(label, list, queue) => cat7(
                "config \"",
                label,
                "\" is only compatible with queue(s) ",
                &join(list, ", "),
                " (not \"",
                queue,
                "\"); use --force-queue to override",
            ),
            TopologyError::NeedsGpu(label, queue) => cat5(
                "config \"",
                label,
                "\" was built with GPU support but this run is non-GPU (queue \"",
                queue,
                "\"); use --force-queue to override",
            ),
            TopologyError::NotGpu(queue) => cat3(
                "--gpus-per-task is only meaningful on a GPU run, but queue \"",
                queue,
                "\" is not GPU-flagged and --gpu was not given",
            ),
            TopologyError::TooManyGpus(per_task, tpn, queue, max) => {
                assert(0 <= *per_task * *tpn <= 4294967295 * 4294967295) by (nonlinear_arith)
                    requires
                        0 <= *per_task <= 4294967295,
                        0 <= *tpn <= 4294967295,
                ;
                let needed: u64 = *per_task as u64 * *tpn as u64;
                let head = cat7(
                    "this layout needs ",
                    &decimal(needed),
                    " GPUs per node (",
                    &decimal(*per_task as u64),
                    " per task × ",
                    &decimal(*tpn as u64),
                    " tasks/node) but queue \"",
                );
                let tail = cat2("; ", &gpu_advice(*per_task, *tpn, queue, *max));
                let r = cat5(&head, queue, "\" has ", &decimal(*max as u64), &tail);
                assert(r@ =~= self.text());
                r
            },
        }
    }
}

/// A number, but one in place of zero.
pub open spec fn or_one(n: u32) -> u32 {
    if n == 0 {
        1
    } else {
        n
    }
}

fn at_least_one(n: u32) -> (r: u32)
    ensures
        r == or_one(n),
{
    if n == 0 {
        1
    } else {
        n
    }
}

/// What is asked for, or else what is the default, or else one; but one in place of zero.
pub open spec fn asked(flag: Option<u32>, default: Option<u32>) -> u32 {
    match or_else(flag, default) {
        Some(n) => or_one(n),
        None => 1,
    }
}

fn asked_for(flag: Option<u32>, default: Option<u32>) -> (r: u32)
    ensures
        r == asked(flag, default),
{
    match or_copy(flag, default) {
        Some(n) => at_least_one(n),
        None => 1,
    }
}

/// The smaller of two numbers.
pub open spec fn smaller(a: u32, b: u32) -> u32 {
    if a < b {
        a
    } else {
        b
    }
}

/// How often `b` goes into `a`, the last time perhaps in part.
pub open spec fn ceil_div(a: int, b: int) -> int {
    if a % b == 0 {
        a / b
    } else {
        a / b + 1
    }
}

/// GPUs per task: none on a run without GPUs; else what is asked for, the default, or one.
pub open spec fn gpus_per_task_of(flags: TopologyFlags, hw: Hardware, gpu: bool) -> u32 {
    if gpu {
        asked(flags.gpus_per_task, hw.default_gpus_per_task)
    } else {
        0
    }
}

/// How many tasks of so many cores a node has room for; at least one.
pub open spec fn tasks_by_cpus(hw: Hardware, cpus: u32) -> u32 {
    match hw.max_cpus_per_node {
        Some(max) => or_one((max / cpus) as u32),
        None => or_one((1u32 / cpus) as u32),
    }
}

/// Tasks per node that fill the node: those that are asked for; else as many as there are cores
/// for, and, where neither they nor the tasks are asked for, no more than there are GPUs for.
pub open spec fn filling(flags: TopologyFlags, hw: Hardware, gpu: bool) -> u32 {
    let cpus = asked(flags.cpus, hw.default_cpus_per_task);
    let by_cpus = tasks_by_cpus(hw, cpus);
    match flags.tpn {
        Some(t) => t,
        None => match hw.max_gpus_per_node {
            Some(max) => if gpu && flags.tasks is None {
                smaller(by_cpus, or_one((max / gpus_per_task_of(flags, hw, gpu)) as u32))
            } else {
                by_cpus
            },
            None => by_cpus,
        },
    }
}

/// The nodes: those that are asked for, or one.
pub open spec fn nodes_of(flags: TopologyFlags) -> u32 {
    match flags.nodes {
        Some(n) => n,
        None => 1,
    }
}

/// The tasks: those that are asked for, or as many as fill the nodes.
pub open spec fn tasks_of(flags: TopologyFlags, hw: Hardware, gpu: bool) -> int {
    match flags.tasks {
        Some(t) => t as int,
        None => nodes_of(flags) * filling(flags, hw, gpu),
    }
}

/// Tasks per node: those that are asked for; else those that fill the node, but no more than the
/// tasks need when they are spread over the nodes.
pub open spec fn tpn_of(flags: TopologyFlags, hw: Hardware, gpu: bool) -> u32 {
    if flags.tpn is Some {
        flags.tpn->0
    } else {
        smaller(
            filling(flags, hw, gpu),
            or_one(ceil_div(tasks_of(flags, hw, gpu), nodes_of(flags) as int) as u32),
        )
    }
}

/// Whether a layout can be computed: there is a node to spread tasks over, and the tasks are a
/// number of 32 bits.
pub open spec fn computable(flags: TopologyFlags, hw: Hardware, gpu: bool) -> bool {
    &&& flags.tpn is None ==> nodes_of(flags) > 0
    &&& tasks_of(flags, hw, gpu) <= u32::MAX
}

/// Whether a layout's GPUs per node are more than a node has.
pub open spec fn too_many_gpus(per_task: u32, tpn: u32, hw: Hardware) -> bool {
    per_task > 0 && hw.max_gpus_per_node is Some && per_task * or_one(tpn) > hw.max_gpus_per_node->0
}

/// How many tasks with how many cores and GPUs go on how many nodes.
#[derive(Debug, Clone, Copy)]
pub struct Layout {
    pub nodes: u32,
    pub tasks: u32,
    pub tpn: u32,
    pub cpus: u32,
    pub gpus_per_task: u32,
}

/// The layout that a request comes to on given hardware.
pub open spec fn layout_of(flags: TopologyFlags, hw: Hardware, gpu: bool) -> Layout {
    Layout {
        nodes: nodes_of(flags),
        tasks: tasks_of(flags, hw, gpu) as u32,
        tpn: tpn_of(flags, hw, gpu),
        cpus: asked(flags.cpus, hw.default_cpus_per_task),
        gpus_per_task: gpus_per_task_of(flags, hw, gpu),
    }
}

fn derive_gpus_per_task(flags: &TopologyFlags, hw: &Hardware, gpu: bool) -> (r: u32)
    ensures
        r == gpus_per_task_of(*flags, *hw, gpu),
{
    if !gpu {
        return 0;
    }
    asked_for(flags.gpus_per_task, hw.default_gpus_per_task)
}

fn fill(flags: &TopologyFlags, hw: &Hardware, gpu: bool) -> (r: u32)
    ensures
        r == filling(*flags, *hw, gpu),
{
    let cpus: u32 = asked_for(flags.cpus, hw.default_cpus_per_task);
    let per_task: u32 = derive_gpus_per_task(flags, hw, gpu);
    let room: u32 = match hw.max_cpus_per_node {
        Some(max) => max,
        None => 1,
    };
    let by_cpus: u32 = at_least_one(room / cpus);
    match flags.tpn {
        Some(t) => t,
        None => match hw.max_gpus_per_node {
            Some(max) => if gpu && flags.tasks.is_none() {
                let by_gpus: u32 = at_least_one(max / per_task);
                if by_cpus < by_gpus {
                    by_cpus
                } else {
                    by_gpus
                }
            } else {
                by_cpus
            },
            None => by_cpus,
        },
    }
}

/// Tasks that are spread over one or more nodes need no more per node than there are.
proof fn lemma_ceil_div(a: int, b: int)
    requires
        0 <= a,
        0 < b,
    ensures
        0 <= ceil_div(a, b) <= a,
        ceil_div(a, b) * b >= a,
        a > 0 ==> (ceil_div(a, b) - 1) * b < a,
{
    vstd::arithmetic::div_mod::lemma_fundamental_div_mod(a, b);
    vstd::arithmetic::div_mod::lemma_div_pos_is_pos(a, b);
    let q = a / b;
    let m = a % b;
    assert(a == b * q + m);
    assert(0 <= m < b);
    if m == 0 {
        assert(b * q == q * b) by (nonlinear_arith);
        assert(q <= q * b) by (nonlinear_arith)
            requires
                q >= 0,
                b >= 1,
        ;
        assert((q - 1) * b == q * b - b) by (nonlinear_arith);
    } else {
        assert((q + 1) * b == b * q + b) by (nonlinear_arith);
        assert(b * q == q * b) by (nonlinear_arith);
        assert(q + 1 <= b * q + m) by (nonlinear_arith)
            requires
                q >= 0,
                b >= 1,
                m >= 1,
        ;
    }
}

/// The layout that a request comes to on given hardware.
pub fn lay_out(flags: &TopologyFlags, hw: &Hardware, gpu: bool) -> (r: Layout)
    requires
        computable(*flags, *hw, gpu),
    ensures
        r == layout_of(*flags, *hw, gpu),
{
    let filled: u32 = fill(flags, hw, gpu);
    let nodes: u32 = match flags.nodes {
        Some(n) => n,
        None => 1,
    };
    let tasks: u32 = match flags.tasks {
        Some(t) => t,
        None => nodes * filled,
    };
    let tpn: u32 = match flags.tpn {
        Some(t) => t,
        None => {
            proof {
                lemma_ceil_div(tasks as int, nodes as int);
            }
            let per_node: u32 = if tasks % nodes == 0 {
                tasks / nodes
            } else {
                tasks / nodes + 1
            };
            let needed: u32 = at_least_one(per_node);
            if filled < needed {
                filled
            } else {
                needed
            }
        },
    };
    Layout {
        nodes,
        tasks,
        tpn,
        cpus: asked_for(flags.cpus, hw.default_cpus_per_task),
        gpus_per_task: derive_gpus_per_task(flags, hw, gpu),
    }
}

/// Whether the layout that a request comes to can be computed.
pub fn can_lay_out(flags: &TopologyFlags, hw: &Hardware, gpu: bool) -> (r: bool)
    ensures
        r == computable(*flags, *hw, gpu),
{
    let filled: u32 = fill(flags, hw, gpu);
    let nodes: u32 = match flags.nodes {
        Some(n) => n,
        None => 1,
    };
    if flags.tpn.is_none() && nodes == 0 {
        return false;
    }
    if flags.tasks.is_none() {
        assert(0 <= nodes * filled <= 4294967295 * 4294967295) by (nonlinear_arith)
            requires
                0 <= nodes <= 4294967295,
                0 <= filled <= 4294967295,
        ;
        let product: u64 = nodes as u64 * filled as u64;
        if product > 4294967295 {
            return false;
        }
    }
    true
}

/// The queue of a run: the one that is named, that of the knob, or the machine's default for the
/// universe of the build.
pub open spec fn queue_of(
    flags: TopologyFlags,
    meta: Meta,
    knobs: Seq<(Seq<char>, String)>,
    universe: Seq<char>,
) -> Option<Seq<char>> {
    let d = default_queue_place(meta.queues@, universe);
    if flags.queue is Some {
        Some(flags.queue->0@)
    } else if has_name(knobs, "queue"@) {
        Some(value_of(knobs, "queue"@)@)
    } else if d < meta.queues@.len() {
        Some(meta.queues@[d].0)
    } else {
        None
    }
}

/// The text of a knob, where it is set.
pub open spec fn knob_of(knobs: Seq<(Seq<char>, String)>, name: Seq<char>) -> Option<Seq<char>> {
    if has_name(knobs, name) {
        Some(value_of(knobs, name)@)
    } else {
        None
    }
}

/// The hardware that a run on a queue is laid out for.
pub open spec fn hardware_on(meta: Meta, queue: Seq<char>) -> Hardware {
    queue_hardware(meta.hardware, value_of(meta.queues@, queue))
}

/// Whether a run on a queue has GPUs: it asks for them, or the queue has them.
pub open spec fn gpu_on(flags: TopologyFlags, meta: Meta, queue: Seq<char>) -> bool {
    flags.gpu || value_of(meta.queues@, queue).gpu
}

/// What stands against a run before its layout is computed. In this order: there is no queue; the
/// queue is unknown; it does not serve the universe of the build, which nothing overrides; unless
/// forced, the build may not run on it, or needs GPUs that the run has not; and GPUs per task are
/// asked for on a run without GPUs.
pub open spec fn queue_fault(
    flags: TopologyFlags,
    machine: Seq<char>,
    meta: Meta,
    knobs: Seq<(Seq<char>, String)>,
    fit: Fit,
    force: bool,
) -> Option<TopologyFault> {
    let universe = fit.universe;
    match queue_of(flags, meta, knobs, universe) {
        None => Some(TopologyFault::NoQueue(machine, universe)),
        Some(queue) => {
            let q = value_of(meta.queues@, queue);
            let gpu = gpu_on(flags, meta, queue);
            if !has_name(meta.queues@, queue) {
                Some(TopologyFault::Resolve(meta.no_queue(queue)))
            } else if !admits(q.build_universes, universe) {
                Some(TopologyFault::Universe(queue, universe, opt_views(q.build_universes)))
            } else if fit.queues.len() > 0 && !fit.queues.contains(queue) && !force {
                Some(TopologyFault::Incompatible(fit.label, fit.queues, queue))
            } else if fit.gpu && !gpu && !force {
                Some(TopologyFault::NeedsGpu(fit.label, queue))
            } else if flags.gpus_per_task is Some && !gpu {
                Some(TopologyFault::NotGpu(queue))
            } else {
                None
            }
        },
    }
}

/// What stands against a run: what does so before its layout is computed, or else more GPUs per
/// node than the nodes of the queue have.
pub open spec fn topology_fault(
    flags: TopologyFlags,
    machine: Seq<char>,
    meta: Meta,
    knobs: Seq<(Seq<char>, String)>,
    fit: Fit,
    force: bool,
) -> Option<TopologyFault> {
    match queue_fault(flags, machine, meta, knobs, fit, force) {
        Some(f) => Some(f),
        None => {
            let queue = queue_of(flags, meta, knobs, fit.universe)->0;
            let hw = hardware_on(meta, queue);
            let layout = layout_of(flags, hw, gpu_on(flags, meta, queue));
            if too_many_gpus(layout.gpus_per_task, layout.tpn, hw) {
                Some(
                    TopologyFault::TooManyGpus(
                        layout.gpus_per_task as nat,
                        or_one(layout.tpn) as nat,
                        queue,
                        hw.max_gpus_per_node->0 as nat,
                    ),
                )
            } else {
                None
            }
        },
    }
}

/// Checks that a layout's GPUs per node are no more than a node of the queue has.
pub fn check_gpus_per_node(per_task: u32, tpn: u32, hw: &Hardware, queue: &str) -> (r: Result<(), TopologyError>)
    ensures
        if too_many_gpus(per_task, tpn, *hw) {
            r is Err && r->Err_0@ == TopologyFault::TooManyGpus(
                per_task as nat,
                or_one(tpn) as nat,
                queue@,
                hw.max_gpus_per_node->0 as nat,
            )
        } else {
            r is Ok
        },
{
    if per_task == 0 {
        return Ok(());
    }
    let on_node: u32 = at_least_one(tpn);
    if let Some(max) = hw.max_gpus_per_node {
        assert(0 <= per_task * on_node <= 4294967295 * 4294967295) by (nonlinear_arith)
            requires
                0 <= per_task <= 4294967295,
                0 <= on_node <= 4294967295,
        ;
        if per_task as u64 * on_node as u64 > max as u64 {
            return Err(TopologyError::TooManyGpus(per_task, on_node, queue.to_owned(), max));
        }
    }
    Ok(())
}

fn copy_opt(s: &Option<String>) -> (r: Option<String>)
    ensures
        opt_view(r) == opt_view(*s),
{
    match s {
        Some(t) => Some(t.clone()),
        None => None,
    }
}

fn flag_or_knob(flag: &Option<String>, knobs: &Table<String>, name: &str) -> (r: Option<String>)
    ensures
        opt_view(r) == or_else(opt_view(*flag), knob_of(knobs@, name@)),
{
    match flag {
        Some(f) => Some(f.clone()),
        None => match knobs.get(name) {
            Some(k) => Some(k.clone()),
            None => None,
        },
    }
}

fn choose_queue(flags: &TopologyFlags, meta: &Meta, knobs: &Table<String>, universe: &str) -> (r: Option<String>)
    ensures
        opt_view(r) == queue_of(*flags, *meta, knobs@, universe@),
{
    match flag_or_knob(&flags.queue, knobs, "queue") {
        Some(q) => Some(q),
        None => match meta.default_queue(universe) {
            Some(q) => Some(q.to_owned()),
            None => None,
        },
    }
}

/// Checks all that stands against a run before its layout is computed, and gives its queue and
/// whether it has GPUs.
pub fn check_queue(
    flags: &TopologyFlags,
    machine: &Machine,
    knobs: &Table<String>,
    fit: &QueueFit,
    force: bool,
) -> (r: Result<(String, bool), TopologyError>)
    ensures
        match queue_fault(*flags, machine.name@, machine.meta, knobs@, fit@, force) {
            Some(f) => r is Err && r->Err_0@ == f,
            None => r matches Ok(q) && Some(q.0@) == queue_of(*flags, machine.meta, knobs@, fit@.universe) && q.1
                == gpu_on(*flags, machine.meta, q.0@) && has_name(machine.meta.queues@, q.0@),
        },
{
    let universe: &str = match &fit.universe {
        Some(u) => u.as_str(),
        None => HOST_UNIVERSE,
    };
    let queue = match choose_queue(flags, &machine.meta, knobs, universe) {
        Some(q) => q,
        None => {
            return Err(TopologyError::NoQueue(machine.name.clone(), universe.to_owned()));
        },
    };
    let def = match machine.meta.queue(&queue) {
        Ok(q) => q,
        Err(e) => {
            return Err(TopologyError::Resolve(e));
        },
    };
    if !def.compatible_with(universe) {
        let served = match &def.build_universes {
            Some(l) => copy_list(l),
            None => Vec::new(),
        };
        proof {
            assert(views(served@) =~= opt_views(def.build_universes));
        }
        return Err(TopologyError::Universe(queue, universe.to_owned(), served));
    }
    proof {
        lemma_listed(fit.compatible_queues@, queue@);
    }
    if fit.compatible_queues.len() > 0 && !is_listed(&fit.compatible_queues, &queue) && !force {
        return Err(TopologyError::Incompatible(fit.label.clone(), copy_list(&fit.compatible_queues), queue));
    }
    let gpu = flags.gpu || def.gpu;
    if fit.gpu && !gpu && !force {
        return Err(TopologyError::NeedsGpu(fit.label.clone(), queue));
    }
    if flags.gpus_per_task.is_some() && !gpu {
        return Err(TopologyError::NotGpu(queue));
    }
    Ok((queue, gpu))
}

/// Whether the layout of a run can be computed, where nothing stands against the run before that.
pub open spec fn request_computable(
    flags: TopologyFlags,
    machine: Seq<char>,
    meta: Meta,
    knobs: Seq<(Seq<char>, String)>,
    fit: Fit,
    force: bool,
) -> bool {
    queue_fault(flags, machine, meta, knobs, fit, force) is None ==> {
        let queue = queue_of(flags, meta, knobs, fit.universe)->0;
        computable(flags, hardware_on(meta, queue), gpu_on(flags, meta, queue))
    }
}

/// Whether the layout of a run can be computed, where nothing stands against the run before that.
pub fn can_resolve(
    flags: &TopologyFlags,
    machine: &Machine,
    knobs: &Table<String>,
    fit: &QueueFit,
    force: bool,
) -> (r: bool)
    ensures
        r == request_computable(*flags, machine.name@, machine.meta, knobs@, fit@, force),
{
    match check_queue(flags, machine, knobs, fit, force) {
        Err(_) => true,
        Ok((queue, gpu)) => match machine.meta.effective_hardware(&queue) {
            Ok(hw) => can_lay_out(flags, &hw, gpu),
            Err(_) => true,
        },
    }
}

/// Whether a topology is what a request comes to on a machine, with the tasks that a script gives
/// it, if any.
pub open spec fn is_topology(
    t: Topology,
    flags: TopologyFlags,
    meta: Meta,
    knobs: Seq<(Seq<char>, String)>,
    fit: Fit,
    tasks: Option<u32>,
) -> bool {
    let queue = t.queue@;
    let q = value_of(meta.queues@, queue);
    let gpu = gpu_on(flags, meta, queue);
    let layout = layout_of(flags, hardware_on(meta, queue), gpu);
    &&& Some(queue) == queue_of(flags, meta, knobs, fit.universe)
    &&& has_name(meta.queues@, queue)
    &&& t.nodes == layout.nodes
    &&& t.tasks == (match tasks {
        Some(n) => n,
        None => layout.tasks,
    })
    &&& t.tpn == (match tasks {
        Some(n) => smaller(layout.tpn, n),
        None => layout.tpn,
    })
    &&& t.cpus == layout.cpus
    &&& t.gpu == gpu
    &&& t.gpus_per_task == layout.gpus_per_task
    &&& t.scheduler_queue@ == (match q.name {
        Some(name) => name@,
        None => queue,
    })
    &&& opt_view(t.allocation) == or_else(opt_view(flags.allocation), knob_of(knobs, "allocation"@))
    &&& opt_view(t.mail) == or_else(opt_view(flags.mail), knob_of(knobs, "mail"@))
    &&& t.mail_type@ == (match or_else(opt_view(flags.mail_type), knob_of(knobs, "mail-type"@)) {
        Some(m) => m,
        None => "all"@,
    })
    &&& opt_view(t.job_name) == opt_view(flags.job_name)
    &&& t.total_wall == (match flags.wall_time {
        Some(w) => w,
        None => meta.ceiling(q),
    })
    &&& opt_view(t.out) == opt_view(flags.out)
    &&& opt_view(t.err) == opt_view(flags.err)
}

/// Works out the layout of a run on a machine, from what is asked for, the knobs, and the
/// machine's defaults; refused where the queue and the build do not go together, or the nodes have
/// not enough GPUs.
pub fn resolve_topology(
    flags: &TopologyFlags,
    machine: &Machine,
    knobs: &Table<String>,
    fit: &QueueFit,
    force: bool,
) -> (r: Result<Topology, TopologyError>)
    requires
        request_computable(*flags, machine.name@, machine.meta, knobs@, fit@, force),
    ensures
        match topology_fault(*flags, machine.name@, machine.meta, knobs@, fit@, force) {
            Some(f) => r is Err && r->Err_0@ == f,
            None => r matches Ok(t) && is_topology(t, *flags, machine.meta, knobs@, fit@, None),
        },
{
    let (queue, gpu) = match check_queue(flags, machine, knobs, fit, force) {
        Ok(q) => q,
        Err(e) => {
            return Err(e);
        },
    };
    let hw = match machine.meta.effective_hardware(&queue) {
        Ok(hw) => hw,
        Err(e) => {
            return Err(TopologyError::Resolve(e));
        },
    };
    let layout = lay_out(flags, &hw, gpu);
    match check_gpus_per_node(layout.gpus_per_task, layout.tpn, &hw, &queue) {
        Ok(()) => {},
        Err(e) => {
            return Err(e);
        },
    }
    let total_wall = match flags.wall_time {
        Some(w) => w,
        None => match machine.meta.effective_max_walltime(&queue) {
            Ok(w) => w,
            Err(e) => {
                return Err(TopologyError::Resolve(e));
            },
        },
    };
    let scheduler_queue = match machine.meta.scheduler_queue_name(&queue) {
        Ok(name) => name.to_owned(),
        Err(e) => {
            return Err(TopologyError::Resolve(e));
        },
    };
    let mail_type = match flag_or_knob(&flags.mail_type, knobs, "mail-type") {
        Some(m) => m,
        None => "all".to_owned(),
    };
    Ok(
        Topology {
            nodes: layout.nodes,
            tasks: layout.tasks,
            tpn: layout.tpn,
            cpus: layout.cpus,
            gpu,
            gpus_per_task: layout.gpus_per_task,
            queue,
            scheduler_queue,
            allocation: flag_or_knob(&flags.allocation, knobs, "allocation"),
            mail: flag_or_knob(&flags.mail, knobs, "mail"),
            mail_type,
            job_name: copy_opt(&flags.job_name),
            total_wall,
            out: copy_opt(&flags.out),
            err: copy_opt(&flags.err),
        },
    )
}

/// Whether a build without GPU support takes up nodes with GPUs although the machine has others.
pub open spec fn wastes_gpus(fit: Fit, gpu: bool, queues: Seq<(Seq<char>, Queue)>) -> bool {
    !fit.gpu && gpu && exists|i: int| 0 <= i < queues.len() && !(#[trigger] queues[i]).1.gpu
}

/// What there is to note of a run: that a build without GPU support takes up nodes with GPUs
/// although the machine has others.
pub fn gpu_note(fit: &QueueFit, topo: &Topology, meta: &Meta) -> (r: Option<String>)
    ensures
        r is Some <==> wastes_gpus(fit@, topo.gpu, meta.queues@),
        r is Some ==> r->0@ == "config \""@ + fit.label@ + "\" was built without GPU support but queue \""@ + topo.queue@
            + "\" is GPU-flagged; this machine also has non-GPU queue(s) (D12)"@,
{
    if fit.gpu || !topo.gpu {
        return None;
    }
    let mut i: usize = 0;
    while i < meta.queues.len()
        invariant
            i <= meta.queues@.len(),
            !fit.gpu,
            topo.gpu,
            forall|j: int| 0 <= j < i ==> (#[trigger] meta.queues@[j]).1.gpu,
        decreases meta.queues@.len() - i,
    {
        if !meta.queues.at(i).gpu {
            assert(!meta.queues@[i as int].1.gpu);
            return Some(
                cat5(
                    "config \"",
                    &fit.label,
                    "\" was built without GPU support but queue \"",
                    &topo.queue,
                    "\" is GPU-flagged; this machine also has non-GPU queue(s) (D12)",
                ),
            );
        }
        i += 1;
    }
    None
}

/// A layout of which neither the tasks nor the tasks per node are asked for fits its nodes: it
/// takes no more cores than a node has, where one task does not already, and no more GPUs, where
/// one task does not already.
pub proof fn derived_layouts_fit(flags: TopologyFlags, hw: Hardware, gpu: bool)
    requires
        computable(flags, hw, gpu),
        flags.tpn is None,
        flags.tasks is None,
    ensures
        hw.max_cpus_per_node matches Some(max) ==> asked(flags.cpus, hw.default_cpus_per_task) <= max
            ==> layout_of(flags, hw, gpu).tpn * layout_of(flags, hw, gpu).cpus <= max,
        hw.max_gpus_per_node matches Some(max) ==> gpus_per_task_of(flags, hw, gpu) <= max ==> !too_many_gpus(
            layout_of(flags, hw, gpu).gpus_per_task,
            layout_of(flags, hw, gpu).tpn,
            hw,
        ),
{
    let cpus = asked(flags.cpus, hw.default_cpus_per_task);
    let per_task = gpus_per_task_of(flags, hw, gpu);
    let tpn = tpn_of(flags, hw, gpu);
    let filled = filling(flags, hw, gpu);
    lemma_ceil_div(tasks_of(flags, hw, gpu), nodes_of(flags) as int);
    assert(tpn <= filled);
    assert(filled >= 1);
    if let Some(max) = hw.max_cpus_per_node {
        if cpus <= max {
            vstd::arithmetic::div_mod::lemma_fundamental_div_mod(max as int, cpus as int);
            let q = max as int / cpus as int;
            assert(q >= 1) by (nonlinear_arith)
                requires
                    q == max as int / cpus as int,
                    cpus <= max,
                    cpus >= 1,
            ;
            assert(filled <= q);
            assert(tpn * cpus <= q * cpus) by (nonlinear_arith)
                requires
                    tpn <= q,
                    cpus >= 1,
            ;
            assert(q * cpus == cpus * q) by (nonlinear_arith);
        }
    }
    if let Some(max) = hw.max_gpus_per_node {
        if gpu && per_task <= max {
            vstd::arithmetic::div_mod::lemma_fundamental_div_mod(max as int, per_task as int);
            let q = max as int / per_task as int;
            assert(q >= 1) by (nonlinear_arith)
                requires
                    q == max as int / per_task as int,
                    per_task <= max,
                    per_task >= 1,
            ;
            assert(filled <= q);
            assert(or_one(tpn) <= q);
            assert(per_task * or_one(tpn) <= per_task * q) by (nonlinear_arith)
                requires
                    or_one(tpn) <= q,
                    per_task >= 1,
            ;
        }
    }
}

/// Tasks per node that are not asked for are no more than the tasks need: spread over the nodes,
/// they leave no node with more, and one for each when there are none.
pub proof fn tasks_per_node_match_tasks(flags: TopologyFlags, hw: Hardware, gpu: bool)
    requires
        computable(flags, hw, gpu),
        flags.tpn is None,
    ensures
        ({
            let l = layout_of(flags, hw, gpu);
            l.tpn >= 1 && (l.tasks >= 1 ==> l.tpn <= l.tasks && (l.tpn - 1) * l.nodes < l.tasks)
        }),
{
    let tasks = tasks_of(flags, hw, gpu);
    let nodes = nodes_of(flags) as int;
    assert(filling(flags, hw, gpu) >= 1);
    assert(tasks >= 0) by {
        if flags.tasks is None {
            assert(nodes_of(flags) * filling(flags, hw, gpu) >= 0) by (nonlinear_arith);
        }
    }
    lemma_ceil_div(tasks, nodes);
    let tpn = tpn_of(flags, hw, gpu);
    if tasks >= 1 {
        let c = ceil_div(tasks, nodes);
        assert(c >= 1) by (nonlinear_arith)
            requires
                c * nodes >= tasks,
                tasks >= 1,
                nodes >= 1,
        ;
        assert(tpn <= c);
        assert((tpn - 1) * nodes <= (c - 1) * nodes) by (nonlinear_arith)
            requires
                tpn <= c,
                nodes >= 1,
        ;
    }
}

/// A run without GPUs gives none to its tasks, and one with GPUs gives each at least one.
pub proof fn only_gpu_runs_take_gpus(flags: TopologyFlags, hw: Hardware, gpu: bool)
    ensures
        layout_of(flags, hw, gpu).gpus_per_task == 0 <==> !gpu,
{
}

/// The tasks of a run that asks for no layout of its own: those of the script variant, or else the
/// fallback; otherwise the run keeps what it has.
pub open spec fn default_tasks(flags: TopologyFlags, script: Option<u32>, fallback: Option<u32>) -> Option<u32> {
    if flags.nodes is Some || flags.tasks is Some || flags.tpn is Some {
        None
    } else {
        match or_else(script, fallback) {
            Some(t) => Some(or_one(t)),
            None => None,
        }
    }
}

/// Gives a run that asks for no layout of its own the tasks of the script variant, or else the
/// fallback. Tasks per node go down with them where they have to; nothing else changes.
pub fn apply_tasks_default(topo: &mut Topology, flags: &TopologyFlags, script: Option<u32>, fallback: Option<u32>)
    ensures
        match default_tasks(*flags, script, fallback) {
            None => *final(topo) == *old(topo),
            Some(t) => *final(topo) == (Topology { tasks: t, tpn: smaller(old(topo).tpn, t), ..*old(topo) }),
        },
{
    if flags.nodes.is_some() || flags.tasks.is_some() || flags.tpn.is_some() {
        return;
    }
    if let Some(t) = or_copy(script, fallback) {
        let tasks: u32 = at_least_one(t);
        topo.tasks = tasks;
        if tasks < topo.tpn {
            topo.tpn = tasks;
        }
    }
}

/// Default tasks never breach the GPUs of a node: a layout that fits still does with fewer tasks
/// per node.
pub proof fn default_tasks_keep_the_ceiling(per_task: u32, tpn: u32, tasks: u32, hw: Hardware)
    requires
        !too_many_gpus(per_task, tpn, hw),
        tasks >= 1,
    ensures
        !too_many_gpus(per_task, smaller(tpn, tasks), hw),
        smaller(tpn, tasks) <= tpn,
{
    let less = or_one(smaller(tpn, tasks));
    assert(less <= or_one(tpn));
    assert(per_task * less <= per_task * or_one(tpn)) by (nonlinear_arith)
        requires
            less <= or_one(tpn),
            per_task >= 0,
    ;
}

/// How many jobs a walltime is split into, and how long each may take: one where the ceiling
/// allows it, else as many as it takes, each as long as the ceiling.
pub open spec fn segments_of(total: Walltime, ceiling: Walltime) -> (u32, Walltime) {
    if total.0 <= ceiling.0 || ceiling.0 == 0 {
        (1, total)
    } else {
        (ceil_div(total.0 as int, ceiling.0 as int) as u64 as u32, ceiling)
    }
}

/// How many jobs a walltime is split into, and how long each may take.
pub fn chain_segments(total: Walltime, ceiling: Walltime) -> (r: (u32, Walltime))
    ensures
        r == segments_of(total, ceiling),
{
    if total.0 <= ceiling.0 || ceiling.0 == 0 {
        (1, total)
    } else {
        proof {
            lemma_ceil_div(total.0 as int, ceiling.0 as int);
        }
        let n: u64 = if total.0 % ceiling.0 == 0 {
            total.0 / ceiling.0
        } else {
            total.0 / ceiling.0 + 1
        };
        (n as u32, ceiling)
    }
}

/// The jobs of a chain together are given the whole walltime, and one job fewer would not be;
/// none is given more than the ceiling.
pub proof fn chains_cover_the_walltime(total: Walltime, ceiling: Walltime)
    requires
        ceiling.0 > 0,
        ceil_div(total.0 as int, ceiling.0 as int) <= u32::MAX,
    ensures
        ({
            let (n, wall) = segments_of(total, ceiling);
            &&& n >= 1
            &&& n * wall.0 >= total.0
            &&& n > 1 ==> (n - 1) * wall.0 < total.0
            &&& wall.0 <= ceiling.0
        }),
{
    let (n, wall) = segments_of(total, ceiling);
    if total.0 > ceiling.0 {
        let c = ceil_div(total.0 as int, ceiling.0 as int);
        lemma_ceil_div(total.0 as int, ceiling.0 as int);
        assert(c >= 1) by (nonlinear_arith)
            requires
                c * ceiling.0 >= total.0,
                total.0 > 0,
                ceiling.0 > 0,
        ;
        assert(n == c);
    }
}

/// What is asked for on the command line is what a run gets, whatever the knobs hold; what is not
/// asked for there comes from the knobs; and only what neither names comes from the machine. So the
/// queue is the one that is typed, else that of the knob, else one that serves the universe of the
/// build and is the only one to do so or marked default.
pub proof fn requests_win_over_knobs(
    t: Topology,
    flags: TopologyFlags,
    meta: Meta,
    knobs: Seq<(Seq<char>, String)>,
    fit: Fit,
    tasks: Option<u32>,
)
    requires
        is_topology(t, flags, meta, knobs, fit, tasks),
    ensures
        flags.queue is Some ==> t.queue@ == flags.queue->0@,
        flags.queue is None && has_name(knobs, "queue"@) ==> t.queue@ == value_of(knobs, "queue"@)@,
        flags.queue is None && !has_name(knobs, "queue"@) ==> exists|d: int|
            #![trigger meta.queues@[d]]
            {
                let queues = meta.queues@;
                &&& 0 <= d < queues.len()
                &&& queues[d].0 == t.queue@
                &&& admits(queues[d].1.build_universes, fit.universe)
                &&& queues[d].1.default || forall|i: int|
                    0 <= i < queues.len() && i != d ==> !admits((#[trigger] queues[i]).1.build_universes, fit.universe)
            },
        flags.allocation is Some ==> opt_view(t.allocation) == Some(flags.allocation->0@),
        flags.allocation is None && has_name(knobs, "allocation"@) ==> opt_view(t.allocation) == Some(
            value_of(knobs, "allocation"@)@,
        ),
        flags.allocation is None && !has_name(knobs, "allocation"@) ==> t.allocation is None,
        flags.mail is Some ==> opt_view(t.mail) == Some(flags.mail->0@),
        flags.mail is None && has_name(knobs, "mail"@) ==> opt_view(t.mail) == Some(value_of(knobs, "mail"@)@),
        flags.mail is None && !has_name(knobs, "mail"@) ==> t.mail is None,
        flags.mail_type is Some ==> t.mail_type@ == flags.mail_type->0@,
        flags.mail_type is None && has_name(knobs, "mail-type"@) ==> t.mail_type@ == value_of(knobs, "mail-type"@)@,
        flags.mail_type is None && !has_name(knobs, "mail-type"@) ==> t.mail_type@ == "all"@,
        flags.job_name is Some ==> opt_view(t.job_name) == Some(flags.job_name->0@),
        flags.job_name is None ==> t.job_name is None,
        flags.out is Some ==> opt_view(t.out) == Some(flags.out->0@),
        flags.out is None ==> t.out is None,
        flags.err is Some ==> opt_view(t.err) == Some(flags.err->0@),
        flags.err is None ==> t.err is None,
{
    default_queues_are_meant(meta.queues@, fit.universe);
    if flags.queue is None && !has_name(knobs, "queue"@) {
        let d = default_queue_place(meta.queues@, fit.universe);
        assert(meta.queues@[d].0 == t.queue@);
    }
}

/// What a queue says holds of the runs on it: the scheduler knows it by the name that it gives, else
/// by its own; a run has GPUs where they are asked for or the queue has them; and where no walltime is
/// asked for, it is the queue's ceiling, else the machine's.
pub proof fn runs_follow_their_queue(
    t: Topology,
    flags: TopologyFlags,
    meta: Meta,
    knobs: Seq<(Seq<char>, String)>,
    fit: Fit,
    tasks: Option<u32>,
)
    requires
        is_topology(t, flags, meta, knobs, fit, tasks),
    ensures
        has_name(meta.queues@, t.queue@),
        ({
            let q = value_of(meta.queues@, t.queue@);
            &&& q.name is Some ==> t.scheduler_queue@ == q.name->0@
            &&& q.name is None ==> t.scheduler_queue@ == t.queue@
            &&& t.gpu <==> flags.gpu || q.gpu
            &&& flags.wall_time is Some ==> t.total_wall == flags.wall_time->0
            &&& flags.wall_time is None && q.max_walltime is Some ==> t.total_wall == q.max_walltime->0
            &&& flags.wall_time is None && q.max_walltime is None && meta.scheduler.max_walltime is Some
                ==> t.total_wall == meta.scheduler.max_walltime->0
        }),
        flags.nodes is Some ==> t.nodes == flags.nodes->0,
        flags.nodes is None ==> t.nodes == 1,
        tasks is None && flags.tasks is Some ==> t.tasks == flags.tasks->0,
        tasks is None && flags.tpn is Some ==> t.tpn == flags.tpn->0,
        tasks is Some ==> t.tasks == tasks->0 && t.tpn <= tasks->0,
        flags.cpus is Some && flags.cpus->0 > 0 ==> t.cpus == flags.cpus->0,
        flags.gpus_per_task is Some && flags.gpus_per_task->0 > 0 && t.gpu ==> t.gpus_per_task
            == flags.gpus_per_task->0,
        !t.gpu ==> t.gpus_per_task == 0,
{
}

/// A layout keeps what is asked for and derives the rest. Cores and GPUs per task that are not asked
/// for are the defaults of the hardware, or one each, and no GPUs on a run without them. Where neither
/// the tasks nor the tasks per node are asked for, the nodes are full: all have as many tasks as the
/// layout says, and one more on a node would want for cores, or for GPUs on a run that has them. Where
/// only the tasks are, they all have a place, or else the cores are used up.
pub proof fn layouts_keep_what_is_asked(flags: TopologyFlags, hw: Hardware, gpu: bool)
    requires
        computable(flags, hw, gpu),
    ensures
        ({
            let l = layout_of(flags, hw, gpu);
            let cores = if hw.max_cpus_per_node is Some {
                hw.max_cpus_per_node->0 as int
            } else {
                1
            };
            &&& flags.nodes is Some ==> l.nodes == flags.nodes->0
            &&& flags.nodes is None ==> l.nodes == 1
            &&& flags.tasks is Some ==> l.tasks == flags.tasks->0
            &&& flags.tpn is Some ==> l.tpn == flags.tpn->0
            &&& flags.cpus is Some && flags.cpus->0 > 0 ==> l.cpus == flags.cpus->0
            &&& flags.cpus is None && hw.default_cpus_per_task is Some && hw.default_cpus_per_task->0 > 0 ==> l.cpus
                == hw.default_cpus_per_task->0
            &&& flags.cpus is None && hw.default_cpus_per_task is None ==> l.cpus == 1
            &&& l.cpus >= 1
            &&& gpu && flags.gpus_per_task is Some && flags.gpus_per_task->0 > 0 ==> l.gpus_per_task
                == flags.gpus_per_task->0
            &&& gpu && flags.gpus_per_task is None && hw.default_gpus_per_task is Some && hw.default_gpus_per_task->0
                > 0 ==> l.gpus_per_task == hw.default_gpus_per_task->0
            &&& gpu && flags.gpus_per_task is None && hw.default_gpus_per_task is None ==> l.gpus_per_task == 1
            &&& gpu ==> l.gpus_per_task >= 1
            &&& !gpu ==> l.gpus_per_task == 0
            &&& flags.tasks is None ==> l.tasks == l.nodes * l.tpn
            &&& flags.tasks is None && flags.tpn is None ==> (l.tpn + 1) * l.cpus > cores || (gpu
                && hw.max_gpus_per_node is Some && (l.tpn + 1) * l.gpus_per_task > hw.max_gpus_per_node->0)
            &&& flags.tasks is Some && flags.tpn is None ==> l.nodes * l.tpn >= l.tasks || (l.tpn + 1) * l.cpus
                > cores
        }),
{
    let l = layout_of(flags, hw, gpu);
    let cpus = l.cpus as int;
    let cores: int = if hw.max_cpus_per_node is Some {
        hw.max_cpus_per_node->0 as int
    } else {
        1
    };
    let by_cpus = tasks_by_cpus(hw, l.cpus) as int;
    vstd::arithmetic::div_mod::lemma_fundamental_div_mod(cores, cpus);
    let q = cores / cpus;
    assert(by_cpus >= q);
    assert((q + 1) * cpus > cores) by (nonlinear_arith)
        requires
            cores == cpus * q + cores % cpus,
            0 <= cores % cpus < cpus,
    ;
    assert((by_cpus + 1) * cpus >= (q + 1) * cpus) by (nonlinear_arith)
        requires
            by_cpus >= q,
            cpus >= 1,
    ;
    let fill = filling(flags, hw, gpu);
    let nodes = nodes_of(flags) as int;
    let tasks = tasks_of(flags, hw, gpu);
    assert(tasks >= 0) by {
        if flags.tasks is None {
            assert(nodes_of(flags) * fill >= 0) by (nonlinear_arith);
        }
    }
    if flags.tpn is None {
        lemma_ceil_div(tasks, nodes);
        let c = ceil_div(tasks, nodes);
        assert(nodes * c == c * nodes) by (nonlinear_arith);
        if flags.tasks is None {
            assert(fill >= 1);
            assert(c >= fill) by (nonlinear_arith)
                requires
                    c * nodes >= nodes * fill,
                    nodes >= 1,
            ;
            assert(l.tpn == fill);
            if gpu && hw.max_gpus_per_node is Some {
                let max = hw.max_gpus_per_node->0 as int;
                let per_task = l.gpus_per_task as int;
                vstd::arithmetic::div_mod::lemma_fundamental_div_mod(max, per_task);
                let g = max / per_task;
                assert((g + 1) * per_task > max) by (nonlinear_arith)
                    requires
                        max == per_task * g + max % per_task,
                        0 <= max % per_task < per_task,
                ;
                if fill < by_cpus {
                    assert(fill >= g);
                    assert((fill + 1) * per_task >= (g + 1) * per_task) by (nonlinear_arith)
                        requires
                            fill >= g,
                            per_task >= 1,
                    ;
                }
            }
        } else {
            assert(l.tpn == fill || l.tpn == or_one(c as u32));
            if l.tpn != fill {
                if c > 0 {
                    assert(l.nodes * l.tpn == nodes * c);
                } else {
                    assert(tasks <= 0) by (nonlinear_arith)
                        requires
                            c * nodes >= tasks,
                            c == 0,
                    ;
                    assert(l.nodes * l.tpn >= 0) by (nonlinear_arith);
                }
            }
        }
    }
}

/// A run that is let through goes with its queue: the queue is there and serves the universe of the
/// build, whatever is forced; unless forced, it is one of those that the build may run on, where it
/// names any, and a build for GPUs has them; GPUs per task are only asked for where there are GPUs;
/// and the tasks of a node take no more GPUs than it has.
pub proof fn accepted_runs_fit_their_queue(
    flags: TopologyFlags,
    machine: Seq<char>,
    meta: Meta,
    knobs: Seq<(Seq<char>, String)>,
    fit: Fit,
    force: bool,
    t: Topology,
)
    requires
        topology_fault(flags, machine, meta, knobs, fit, force) is None,
        is_topology(t, flags, meta, knobs, fit, None),
    ensures
        has_name(meta.queues@, t.queue@),
        admits(value_of(meta.queues@, t.queue@).build_universes, fit.universe),
        !force && fit.queues.len() > 0 ==> fit.queues.contains(t.queue@),
        !force && fit.gpu ==> t.gpu,
        flags.gpus_per_task is Some ==> t.gpu,
        ({
            let q = value_of(meta.queues@, t.queue@);
            let max = if q.max_gpus_per_node is Some {
                q.max_gpus_per_node
            } else {
                meta.hardware.max_gpus_per_node
            };
            max is Some ==> t.gpus_per_task * t.tpn <= max->0
        }),
{
    if t.tpn == 0 {
        assert(t.gpus_per_task * t.tpn == 0) by (nonlinear_arith)
            requires
                t.tpn == 0,
        ;
    } else if t.gpus_per_task == 0 {
        assert(t.gpus_per_task * t.tpn == 0) by (nonlinear_arith)
            requires
                t.gpus_per_task == 0,
        ;
    }
}

/// A run is only refused for cause, and forcing it only does away with what it is meant for: a queue
/// that the build does not list, and a build for GPUs on a run without. A refusal under force comes
/// without it too, if not first.
pub proof fn refusals_have_a_cause(
    flags: TopologyFlags,
    machine: Seq<char>,
    meta: Meta,
    knobs: Seq<(Seq<char>, String)>,
    fit: Fit,
    force: bool,
)
    ensures
        ({
            let queue = if flags.queue is Some {
                Some(flags.queue->0@)
            } else if has_name(knobs, "queue"@) {
                Some(value_of(knobs, "queue"@)@)
            } else {
                queue_of(flags, meta, knobs, fit.universe)
            };
            let q = value_of(meta.queues@, queue->0);
            let gpu = flags.gpu || q.gpu;
            match topology_fault(flags, machine, meta, knobs, fit, force) {
                Some(TopologyFault::NoQueue(m, u)) => queue is None && m == machine && u == fit.universe,
                Some(TopologyFault::Resolve(_)) => queue is Some && !has_name(meta.queues@, queue->0),
                Some(TopologyFault::Universe(name, u, _)) => {
                    &&& queue == Some(name)
                    &&& u == fit.universe
                    &&& !admits(q.build_universes, fit.universe)
                },
                Some(TopologyFault::Incompatible(label, list, name)) => {
                    &&& !force
                    &&& queue == Some(name)
                    &&& label == fit.label
                    &&& list == fit.queues
                    &&& !fit.queues.contains(name)
                },
                Some(TopologyFault::NeedsGpu(label, name)) => {
                    &&& !force
                    &&& queue == Some(name)
                    &&& label == fit.label
                    &&& fit.gpu
                    &&& !gpu
                },
                Some(TopologyFault::NotGpu(name)) => queue == Some(name) && flags.gpus_per_task is Some && !gpu,
                Some(TopologyFault::TooManyGpus(per_task, tpn, name, max)) => {
                    &&& queue == Some(name)
                    &&& per_task * tpn > max
                    &&& gpu
                },
                None => queue is Some && has_name(meta.queues@, queue->0),
            }
        }),
        topology_fault(flags, machine, meta, knobs, fit, true) is Some ==> topology_fault(
            flags,
            machine,
            meta,
            knobs,
            fit,
            false,
        ) is Some,
{
}

/// A run that asks for any of nodes, tasks and tasks per node keeps them. Another has the tasks of its
/// script variant, else the fallback, but at least one; where there is neither, it keeps what it has.
pub proof fn script_tasks_are_only_defaults(flags: TopologyFlags, script: Option<u32>, fallback: Option<u32>)
    ensures
        flags.nodes is Some || flags.tasks is Some || flags.tpn is Some ==> default_tasks(flags, script, fallback)
            is None,
        flags.nodes is None && flags.tasks is None && flags.tpn is None ==> {
            let d = default_tasks(flags, script, fallback);
            &&& script is Some && script->0 > 0 ==> d == script
            &&& script is None && fallback is Some && fallback->0 > 0 ==> d == fallback
            &&& script is None && fallback is None ==> d is None
            &&& d is Some ==> d->0 >= 1
            &&& script is Some || fallback is Some ==> d is Some
        },
{
}

/// A walltime within the ceiling is one job of that length, and a longer one takes jobs as long as the
/// ceiling.
pub proof fn short_walltimes_are_not_split(total: Walltime, ceiling: Walltime)
    ensures
        total.0 <= ceiling.0 ==> segments_of(total, ceiling) == (1u32, total),
        ceiling.0 == 0 ==> segments_of(total, ceiling) == (1u32, total),
        0 < ceiling.0 < total.0 ==> segments_of(total, ceiling).1 == ceiling,
{
}

/// How long before the end of its walltime a job is to write its checkpoint, where nothing else is
/// asked for: a part in 24 of it, but at least ten minutes.
pub fn default_checkpt_buffer(job_wall: Walltime) -> (r: Walltime)
    ensures
        r.0 == (if job_wall.0 / 24 > 600 {
            (job_wall.0 / 24) as u64
        } else {
            600
        }),
{
    let part: u64 = job_wall.0 / 24;
    if part > 600 {
        Walltime(part)
    } else {
        Walltime(600)
    }
}

/// Whether a character can be printed: one of ASCII's, blanks aside.
pub open spec fn is_graphic(c: char) -> bool {
    '!' <= c <= '~'
}

/// Whether a character is one of ASCII's letters.
pub open spec fn is_letter(c: char) -> bool {
    'a' <= c <= 'z' || 'A' <= c <= 'Z'
}

/// A text with its blanks made underscores, and without what cannot be printed.
pub open spec fn printable(s: Seq<char>) -> Seq<char>
    decreases s.len(),
{
    if s.len() == 0 {
        Seq::empty()
    } else if is_space(s.last()) {
        printable(s.drop_last()).push('_')
    } else if is_graphic(s.last()) {
        printable(s.drop_last()).push(s.last())
    } else {
        printable(s.drop_last())
    }
}

/// A short name for a restart: the simulation's name and the restart's id, with only what can be
/// printed, a letter in front, and at most 15 characters.
pub open spec fn short_text(name: Seq<char>, id: nat) -> Seq<char> {
    let clean = printable(name + "-"@ + decimal_of(id));
    let led = if clean.len() > 0 && is_letter(clean[0]) {
        clean
    } else {
        seq!['J'] + clean
    };
    if led.len() > 15 {
        led.take(15)
    } else {
        led
    }
}

/// A short name for a restart.
pub fn short_sim_name(name: &str, restart_id: u32) -> (r: String)
    ensures
        r@ == short_text(name@, restart_id as nat),
{
    let raw = cat3(name, "-", &decimal(restart_id as u64));
    let cs = chars_of(&raw);
    let mut clean: Vec<char> = Vec::new();
    let mut i: usize = 0;
    assert(raw@.take(0) =~= Seq::empty());
    while i < cs.len()
        invariant
            i <= cs@.len(),
            cs@ == raw@,
            clean@ == printable(raw@.take(i as int)),
        decreases cs@.len() - i,
    {
        assert(raw@.take(i + 1).drop_last() =~= raw@.take(i as int));
        let c: char = cs[i];
        if space(c) {
            clean.push('_');
        } else if '!' <= c && c <= '~' {
            clean.push(c);
        }
        i += 1;
    }
    assert(raw@.take(i as int) =~= raw@);
    let ghost kept = clean@;
    let led = clean.len() > 0 && (('a' <= clean[0] && clean[0] <= 'z') || ('A' <= clean[0] && clean[0] <= 'Z'));
    if !led {
        clean.insert(0, 'J');
        assert(clean@ =~= seq!['J'] + kept);
    }
    let n: usize = if clean.len() > 15 { 15 } else { clean.len() };
    let r = crate::text::string_of(&clean, 0, n);
    assert(clean@.subrange(0, n as int) =~= (if clean@.len() > 15 {
        clean@.take(15)
    } else {
        clean@
    }));
    r
}

/// What is left of a text can all be printed.
proof fn lemma_printable(s: Seq<char>)
    ensures
        forall|i: int| 0 <= i < printable(s).len() ==> is_graphic(#[trigger] printable(s)[i]),
    decreases s.len(),
{
    if s.len() > 0 {
        let rest = printable(s.drop_last());
        lemma_printable(s.drop_last());
        assert forall|i: int| 0 <= i < printable(s).len() implies is_graphic(#[trigger] printable(s)[i]) by {
            if i < rest.len() {
                assert(printable(s)[i] == rest[i]);
            }
        }
    }
}

/// The short name of a restart begins with a letter, can all be printed, and has at most 15
/// characters, whatever the simulation is called.
pub proof fn short_names_suit_schedulers(name: Seq<char>, id: nat)
    ensures
        1 <= short_text(name, id).len() <= 15,
        is_letter(short_text(name, id)[0]),
        forall|i: int| 0 <= i < short_text(name, id).len() ==> is_graphic(#[trigger] short_text(name, id)[i]),
{
    let clean = printable(name + "-"@ + decimal_of(id));
    lemma_printable(name + "-"@ + decimal_of(id));
    let led = if clean.len() > 0 && is_letter(clean[0]) {
        clean
    } else {
        seq!['J'] + clean
    };
    assert forall|i: int| 0 <= i < led.len() implies is_graphic(#[trigger] led[i]) by {
        if led.len() != clean.len() {
            if i > 0 {
                assert(led[i] == clean[i - 1]);
            }
        }
    }
}

/// What an optional text holds, or nothing.
pub open spec fn text_or_empty(s: Option<String>) -> Seq<char> {
    match s {
        Some(t) => t@,
        None => ""@,
    }
}

/// The variables of a layout.
pub open spec fn topology_block(topo: Topology, default_job_name: Seq<char>) -> Seq<(Seq<char>, VarText)> {
    seq![
        ("NODES"@, number_text(topo.nodes as nat)),
        ("TASKS"@, number_text(topo.tasks as nat)),
        ("TASKS_PER_NODE"@, number_text(topo.tpn as nat)),
        ("CPUS_PER_TASK"@, number_text(topo.cpus as nat)),
        ("GPU"@, VarText::Bool(topo.gpu)),
        ("GPUS_PER_TASK"@, number_text(topo.gpus_per_task as nat)),
        ("ALLOCATION"@, VarText::Str(text_or_empty(topo.allocation))),
        ("QUEUE"@, VarText::Str(topo.scheduler_queue@)),
        ("MAIL"@, VarText::Str(text_or_empty(topo.mail))),
        ("MAIL_TYPE"@, VarText::Str(topo.mail_type@)),
        (
            "JOB_NAME"@,
            VarText::Str(
                match topo.job_name {
                    Some(n) => n@,
                    None => default_job_name,
                },
            ),
        ),
    ]
}

fn str_or<'a>(s: &'a Option<String>, other: &'a str) -> (r: &'a str)
    ensures
        r@ == (match s {
            Some(t) => t@,
            None => other@,
        }),
{
    match s {
        Some(t) => t.as_str(),
        None => other,
    }
}

/// Sets the variables of a layout.
pub fn set_topology_vars(v: &mut VarSet, topo: &Topology, default_job_name: &str)
    ensures
        var_views(final(v).vars@) == set_all(var_views(old(v).vars@), topology_block(*topo, default_job_name@)),
        final(v).env == old(v).env,
{
    let mut b: Vec<(String, VarValue)> = Vec::new();
    b.push(var("NODES", number_value(topo.nodes as u64)));
    b.push(var("TASKS", number_value(topo.tasks as u64)));
    b.push(var("TASKS_PER_NODE", number_value(topo.tpn as u64)));
    b.push(var("CPUS_PER_TASK", number_value(topo.cpus as u64)));
    b.push(var("GPU", VarValue::Bool(topo.gpu)));
    b.push(var("GPUS_PER_TASK", number_value(topo.gpus_per_task as u64)));
    b.push(var("ALLOCATION", text_value(str_or(&topo.allocation, ""))));
    b.push(var("QUEUE", text_value(&topo.scheduler_queue)));
    b.push(var("MAIL", text_value(str_or(&topo.mail, ""))));
    b.push(var("MAIL_TYPE", text_value(&topo.mail_type)));
    b.push(var("JOB_NAME", text_value(str_or(&topo.job_name, default_job_name))));
    assert(block_views(b@) =~= topology_block(*topo, default_job_name@));
    v.set_block(b);
}

/// The variables of a walltime alone.
pub open spec fn wall_block(wall: Walltime) -> Seq<(Seq<char>, VarText)> {
    seq![
        ("WALLTIME"@, VarText::Str(wall.written())),
        ("WALLTIME_HH"@, VarText::Str(two_digits((wall.0 / 3600) as nat))),
        ("WALLTIME_MM"@, VarText::Str(two_digits((wall.0 / 60 % 60) as nat))),
        ("WALLTIME_SS"@, VarText::Str(two_digits((wall.0 % 60) as nat))),
        ("WALLTIME_SECONDS"@, number_text(wall.0 as nat)),
        ("WALLTIME_MINUTES"@, number_text((wall.0 / 60) as nat)),
        ("WALLTIME_HOURS"@, number_text((wall.0 / 3600) as nat)),
    ]
}

/// Sets the variables of a walltime alone.
pub fn set_wall_only_vars(v: &mut VarSet, wall: Walltime)
    ensures
        var_views(final(v).vars@) == set_all(var_views(old(v).vars@), wall_block(wall)),
        final(v).env == old(v).env,
{
    let mut b: Vec<(String, VarValue)> = Vec::new();
    b.push(var("WALLTIME", text_value(&wall.canonical())));
    b.push(var("WALLTIME_HH", text_value(&wall.component_hours())));
    b.push(var("WALLTIME_MM", text_value(&wall.component_minutes())));
    b.push(var("WALLTIME_SS", text_value(&wall.component_seconds())));
    b.push(var("WALLTIME_SECONDS", number_value(wall.total_seconds())));
    b.push(var("WALLTIME_MINUTES", number_value(wall.total_minutes())));
    b.push(var("WALLTIME_HOURS", number_value(wall.total_hours())));
    assert(block_views(b@) =~= wall_block(wall));
    v.set_block(b);
}

/// When a job is to write its checkpoint, counted from its start: so long before the end.
pub open spec fn hint_of(wall: Walltime, buffer: Walltime) -> Walltime {
    if buffer.0 < wall.0 {
        Walltime((wall.0 - buffer.0) as u64)
    } else {
        Walltime(0)
    }
}

/// The variables of a walltime and of the checkpoint before its end.
pub open spec fn walltime_block(wall: Walltime, buffer: Walltime) -> Seq<(Seq<char>, VarText)> {
    wall_block(wall) + checkpoint_block(hint_of(wall, buffer))
}

/// The variables of the moment for a checkpoint.
pub open spec fn checkpoint_block(hint: Walltime) -> Seq<(Seq<char>, VarText)> {
    seq![
        ("CHECKPOINT_WALLTIME"@, VarText::Str(hint.written())),
        ("CHECKPOINT_WALLTIME_SECONDS"@, number_text(hint.0 as nat)),
        ("CHECKPOINT_WALLTIME_HOURS"@, number_text((hint.0 / 3600) as nat)),
    ]
}

/// Sets the variables of a walltime and of the checkpoint before its end.
pub fn set_walltime_vars(v: &mut VarSet, wall: Walltime, buffer: Walltime)
    ensures
        var_views(final(v).vars@) == set_all(var_views(old(v).vars@), walltime_block(wall, buffer)),
        final(v).env == old(v).env,
{
    let ghost start = var_views(v.vars@);
    set_wall_only_vars(v, wall);
    let hint = if buffer.0 < wall.0 { Walltime(wall.0 - buffer.0) } else { Walltime(0) };
    let mut b: Vec<(String, VarValue)> = Vec::new();
    b.push(var("CHECKPOINT_WALLTIME", text_value(&hint.canonical())));
    b.push(var("CHECKPOINT_WALLTIME_SECONDS", number_value(hint.total_seconds())));
    b.push(var("CHECKPOINT_WALLTIME_HOURS", number_value(hint.total_hours())));
    assert(block_views(b@) =~= checkpoint_block(hint));
    v.set_block(b);
    proof {
        lemma_set_all_add(start, wall_block(wall), checkpoint_block(hint));
    }
}

/// The variables of a machine, for a queue and the universe of the run.
pub open spec fn machine_block(meta: Meta, hw: Hardware, universe: Option<Seq<char>>) -> Seq<(Seq<char>, VarText)> {
    seq![
        (
            "MAX_CPUS_PER_NODE"@,
            number_text(
                match hw.max_cpus_per_node {
                    Some(n) => n as nat,
                    None => 1,
                },
            ),
        ),
        (
            "MAX_GPUS_PER_NODE"@,
            number_text(
                match hw.max_gpus_per_node {
                    Some(n) => n as nat,
                    None => 0,
                },
            ),
        ),
        (
            "MEMORY"@,
            number_text(
                match hw.memory {
                    Some(n) => n as nat,
                    None => 0,
                },
            ),
        ),
        (
            "THREADS_PER_CPU"@,
            number_text(
                match hw.threads_per_cpu {
                    Some(n) => n as nat,
                    None => 1,
                },
            ),
        ),
        ("ENV_SETUP"@, VarText::Str(meta.env_text(universe, Phase::Run))),
    ]
}

/// The text behind an optional reference.
pub open spec fn ref_view(s: Option<&str>) -> Option<Seq<char>> {
    match s {
        Some(t) => Some(t@),
        None => None,
    }
}

/// Sets the variables of a machine, for a queue and the universe of the run. Where there is no such
/// queue, none is set.
pub fn set_machine_vars(v: &mut VarSet, meta: &Meta, queue: &str, run_universe: Option<&str>) -> (r: Result<
    (),
    ResolveError,
>)
    ensures
        r is Ok <==> has_name(meta.queues@, queue@),
        r is Ok ==> var_views(final(v).vars@) == set_all(
            var_views(old(v).vars@),
            machine_block(*meta, hardware_on(*meta, queue@), ref_view(run_universe)),
        ),
        r is Err ==> r->Err_0@ == meta.no_queue(queue@) && final(v).vars == old(v).vars,
        final(v).env == old(v).env,
{
    let hw = match meta.effective_hardware(queue) {
        Ok(hw) => hw,
        Err(e) => {
            return Err(e);
        },
    };
    let cpus: u32 = match hw.max_cpus_per_node {
        Some(n) => n,
        None => 1,
    };
    let gpus: u32 = match hw.max_gpus_per_node {
        Some(n) => n,
        None => 0,
    };
    let memory: u64 = match hw.memory {
        Some(n) => n,
        None => 0,
    };
    let mut b: Vec<(String, VarValue)> = Vec::new();
    b.push(var("MAX_CPUS_PER_NODE", number_value(cpus as u64)));
    b.push(var("MAX_GPUS_PER_NODE", number_value(gpus as u64)));
    b.push(var("MEMORY", number_value(memory)));
    b.push(var("THREADS_PER_CPU", number_value(hw.threads_per_cpu() as u64)));
    b.push(var("ENV_SETUP", text_value(&meta.effective_env(run_universe, Phase::Run))));
    assert(block_views(b@) =~= machine_block(*meta, hw, ref_view(run_universe)));
    v.set_block(b);
    Ok(())
}

/// All that goes into the variables of a restart.
pub struct RestartVarsInput<'a> {
    pub sim: &'a Simulation,
    pub machine: &'a Machine,
    pub topo: &'a Topology,
    /// Where the simulations of the installation stand; a simulation may stand elsewhere.
    pub sim_home: &'a str,
    pub restart_id: u32,
    /// What the scheduler allows this job.
    pub job_wall: Walltime,
    pub checkpt_buffer: Walltime,
    /// The job that this one waits for; empty for none.
    pub chained_job_id: &'a str,
    pub hostname: &'a str,
    pub user: &'a str,
    pub email: &'a str,
    /// The universe of the run; none for bare execution.
    pub run_universe: Option<&'a str>,
    pub debug: bool,
    /// The path of this program.
    pub cactup: &'a str,
}

/// The variables that say which restart this is and where things stand, given the machine's
/// scratch directory.
pub open spec fn identity_block(input: RestartVarsInput, scratch: Seq<char>) -> Seq<(Seq<char>, VarText)> {
    let sim = *input.sim;
    let dir = path_of(sim.dir@, dir_text(input.restart_id as nat));
    seq![
        (
            "STDOUT_FILE"@,
            VarText::Str(
                match input.topo.out {
                    Some(o) => o@,
                    None => path_of(dir, sim.name@ + ".out"@),
                },
            ),
        ),
        (
            "STDERR_FILE"@,
            VarText::Str(
                match input.topo.err {
                    Some(e) => e@,
                    None => path_of(dir, sim.name@ + ".err"@),
                },
            ),
        ),
        ("SIMULATION_NAME"@, VarText::Str(sim.name@)),
        ("SHORT_SIMULATION_NAME"@, VarText::Str(short_text(sim.name@, input.restart_id as nat))),
        ("SIMULATION_ID"@, VarText::Str(sim.meta.simulation_id@)),
        ("RESTART_ID"@, number_text(input.restart_id as nat)),
        ("RUNDIR"@, VarText::Str(dir)),
        ("SOURCEDIR"@, VarText::Str(sim.meta.sourcedir@)),
        ("EXECUTABLE"@, VarText::Str(path_of(sim.own_dir(), "exe"@))),
        ("PARFILE"@, VarText::Str(path_of(dir, stem_of(sim.meta.parfile@) + ".par"@))),
        ("SCRIPTFILE"@, VarText::Str(path_of(path_of(dir, ".cactup"@), "submit-script"@))),
        ("CONFIGURATION"@, VarText::Str(sim.meta.configuration@)),
        ("SIM_HOME"@, VarText::Str(input.sim_home@)),
        ("SIMULATION_DIR"@, VarText::Str(sim.dir@)),
        ("SCRATCH_HOME"@, VarText::Str(scratch)),
        ("ALIAS"@, VarText::Str(sim.meta.alias@)),
        ("CACTUP"@, VarText::Str(input.cactup@)),
        ("MACHINE"@, VarText::Str(input.machine.name@)),
        ("HOSTNAME"@, VarText::Str(input.hostname@)),
        ("USER"@, VarText::Str(input.user@)),
        ("EMAIL"@, VarText::Str(input.email@)),
        ("EXECHOST"@, VarText::Str(""@)),
        ("JOB_ID"@, VarText::Str(""@)),
        ("CHAINED_JOB_ID"@, VarText::Str(input.chained_job_id@)),
    ]
}

/// The variables for debugging.
pub open spec fn debug_block(debug: bool) -> Seq<(Seq<char>, VarText)> {
    seq![("RUNDEBUG"@, VarText::Bool(debug)), ("DEBUGGER"@, VarText::Str("gdb"@))]
}

/// All the variables of a restart, in the order in which they are set.
pub open spec fn restart_block(input: RestartVarsInput, scratch: Seq<char>) -> Seq<(Seq<char>, VarText)> {
    topology_block(*input.topo, input.sim.name@) + walltime_block(input.job_wall, input.checkpt_buffer)
        + identity_block(input, scratch) + machine_block(
        input.machine.meta,
        hardware_on(input.machine.meta, input.topo.queue@),
        ref_view(input.run_universe),
    ) + debug_block(input.debug)
}

fn set_identity_vars(v: &mut VarSet, input: &RestartVarsInput, scratch: &str)
    ensures
        var_views(final(v).vars@) == set_all(var_views(old(v).vars@), identity_block(*input, scratch@)),
        final(v).env == old(v).env,
{
    let sim = input.sim;
    let dir = restart_dir(&sim.dir, input.restart_id);
    let out = path_join(&dir, &cat2(&sim.name, ".out"));
    let err = path_join(&dir, &cat2(&sim.name, ".err"));
    let mut b: Vec<(String, VarValue)> = Vec::new();
    b.push(var("STDOUT_FILE", text_value(str_or(&input.topo.out, &out))));
    b.push(var("STDERR_FILE", text_value(str_or(&input.topo.err, &err))));
    b.push(var("SIMULATION_NAME", text_value(&sim.name)));
    b.push(var("SHORT_SIMULATION_NAME", text_value(&short_sim_name(&sim.name, input.restart_id))));
    b.push(var("SIMULATION_ID", text_value(&sim.meta.simulation_id)));
    b.push(var("RESTART_ID", number_value(input.restart_id as u64)));
    b.push(var("RUNDIR", text_value(&dir)));
    b.push(var("SOURCEDIR", text_value(&sim.meta.sourcedir)));
    b.push(var("EXECUTABLE", text_value(&sim.exe())));
    b.push(var("PARFILE", text_value(&path_join(&dir, &cat2(&sim.parfile_stem(), ".par")))));
    b.push(var("SCRIPTFILE", text_value(&path_join(&path_join(&dir, ".cactup"), "submit-script"))));
    b.push(var("CONFIGURATION", text_value(&sim.meta.configuration)));
    b.push(var("SIM_HOME", text_value(input.sim_home)));
    b.push(var("SIMULATION_DIR", text_value(&sim.dir)));
    b.push(var("SCRATCH_HOME", text_value(scratch)));
    b.push(var("ALIAS", text_value(&sim.meta.alias)));
    b.push(var("CACTUP", text_value(input.cactup)));
    b.push(var("MACHINE", text_value(&input.machine.name)));
    b.push(var("HOSTNAME", text_value(input.hostname)));
    b.push(var("USER", text_value(input.user)));
    b.push(var("EMAIL", text_value(input.email)));
    b.push(var("EXECHOST", text_value("")));
    b.push(var("JOB_ID", text_value("")));
    b.push(var("CHAINED_JOB_ID", text_value(input.chained_job_id)));
    assert(block_views(b@) =~= identity_block(*input, scratch@));
    v.set_block(b);
}

/// Why the variables of a restart cannot be put together.
#[derive(Debug)]
pub enum AssembleError {
    /// One of the machine's paths cannot be filled in.
    Path(PathError),
    Queue(ResolveError),
}

impl AssembleError {
    /// The message for the user.
    pub fn message(&self) -> (r: String)
        ensures
            r@ == (match self {
                AssembleError::Path(e) => e.text(),
                AssembleError::Queue(e) => e.text(),
            }),
    {
        match self {
            AssembleError::Path(e) => e.message(),
            AssembleError::Queue(e) => e.message(),
        }
    }
}

/// The scratch directory of a machine, filled in; nothing where it has none.
pub open spec fn scratch_of(meta: Meta, texts: Texts, env: Texts) -> Seq<char> {
    match filled_path(meta.paths.scratch_home, texts, env) {
        Some(Filled::Text(t)) => t,
        _ => ""@,
    }
}

/// Puts together the variables of a restart; they read the environment that is given. The
/// environment text among them is that of the run.
pub fn assemble(input: &RestartVarsInput, env: Table<String>) -> (r: Result<VarSet, AssembleError>)
    ensures
        ({
            let meta = input.machine.meta;
            let texts = path_texts(env@);
            match path_fault(meta.paths, texts, env_of(env@)) {
                Some(f) => r matches Err(AssembleError::Path(e)) && e.key@ == f.0 && e.error@ == f.1,
                None => if has_name(meta.queues@, input.topo.queue@) {
                    r matches Ok(v) && v.env == env && var_views(v.vars@) == set_all(
                        Seq::empty(),
                        restart_block(*input, scratch_of(meta, texts, env_of(env@))),
                    )
                } else {
                    r matches Err(AssembleError::Queue(e)) && e@ == meta.no_queue(input.topo.queue@)
                },
            }
        }),
{
    let site = path_vars(env);
    let paths = match input.machine.meta.resolved_paths(&site) {
        Ok(p) => p,
        Err(e) => {
            return Err(AssembleError::Path(e));
        },
    };
    let mut v = VarSet::new();
    v.env = site.env;
    assert(var_views(v.vars@) =~= Seq::<(Seq<char>, VarText)>::empty());
    set_topology_vars(&mut v, input.topo, &input.sim.name);
    set_walltime_vars(&mut v, input.job_wall, input.checkpt_buffer);
    let scratch: &str = str_or(&paths.scratch_home, "");
    set_identity_vars(&mut v, input, scratch);
    match set_machine_vars(&mut v, &input.machine.meta, &input.topo.queue, input.run_universe) {
        Ok(()) => {},
        Err(e) => {
            return Err(AssembleError::Queue(e));
        },
    }
    let mut b: Vec<(String, VarValue)> = Vec::new();
    b.push(var("RUNDEBUG", VarValue::Bool(input.debug)));
    b.push(var("DEBUGGER", text_value("gdb")));
    assert(block_views(b@) =~= debug_block(input.debug));
    v.set_block(b);
    proof {
        let none = Seq::<(Seq<char>, VarText)>::empty();
        let t = topology_block(*input.topo, input.sim.name@);
        let w = walltime_block(input.job_wall, input.checkpt_buffer);
        let i = identity_block(*input, scratch@);
        let m = machine_block(
            input.machine.meta,
            hardware_on(input.machine.meta, input.topo.queue@),
            ref_view(input.run_universe),
        );
        lemma_set_all_add(none, t, w);
        lemma_set_all_add(none, t + w, i);
        lemma_set_all_add(none, t + w + i, m);
        lemma_set_all_add(none, t + w + i + m, debug_block(input.debug));
    }
    Ok(v)
}

/// Where a variable stands among those of a restart.
spec fn rank(name: Seq<char>) -> int {
    if name == "NODES"@ {
        0
    } else if name == "TASKS"@ {
        1
    } else if name == "TASKS_PER_NODE"@ {
        2
    } else if name == "CPUS_PER_TASK"@ {
        3
    } else if name == "GPU"@ {
        4
    } else if name == "GPUS_PER_TASK"@ {
        5
    } else if name == "ALLOCATION"@ {
        6
    } else if name == "QUEUE"@ {
        7
    } else if name == "MAIL"@ {
        8
    } else if name == "MAIL_TYPE"@ {
        9
    } else if name == "JOB_NAME"@ {
        10
    } else if name == "WALLTIME"@ {
        11
    } else if name == "WALLTIME_HH"@ {
        12
    } else if name == "WALLTIME_MM"@ {
        13
    } else if name == "WALLTIME_SS"@ {
        14
    } else if name == "WALLTIME_SECONDS"@ {
        15
    } else if name == "WALLTIME_MINUTES"@ {
        16
    } else if name == "WALLTIME_HOURS"@ {
        17
    } else if name == "CHECKPOINT_WALLTIME"@ {
        18
    } else if name == "CHECKPOINT_WALLTIME_SECONDS"@ {
        19
    } else if name == "CHECKPOINT_WALLTIME_HOURS"@ {
        20
    } else if name == "STDOUT_FILE"@ {
        21
    } else if name == "STDERR_FILE"@ {
        22
    } else if name == "SIMULATION_NAME"@ {
        23
    } else if name == "SHORT_SIMULATION_NAME"@ {
        24
    } else if name == "SIMULATION_ID"@ {
        25
    } else if name == "RESTART_ID"@ {
        26
    } else if name == "RUNDIR"@ {
        27
    } else if name == "SOURCEDIR"@ {
        28
    } else if name == "EXECUTABLE"@ {
        29
    } else if name == "PARFILE"@ {
        30
    } else if name == "SCRIPTFILE"@ {
        31
    } else if name == "CONFIGURATION"@ {
        32
    } else if name == "SIM_HOME"@ {
        33
    } else if name == "SIMULATION_DIR"@ {
        34
    } else if name == "SCRATCH_HOME"@ {
        35
    } else if name == "ALIAS"@ {
        36
    } else if name == "CACTUP"@ {
        37
    } else if name == "MACHINE"@ {
        38
    } else if name == "HOSTNAME"@ {
        39
    } else if name == "USER"@ {
        40
    } else if name == "EMAIL"@ {
        41
    } else if name == "EXECHOST"@ {
        42
    } else if name == "JOB_ID"@ {
        43
    } else if name == "CHAINED_JOB_ID"@ {
        44
    } else if name == "MAX_CPUS_PER_NODE"@ {
        45
    } else if name == "MAX_GPUS_PER_NODE"@ {
        46
    } else if name == "MEMORY"@ {
        47
    } else if name == "THREADS_PER_CPU"@ {
        48
    } else if name == "ENV_SETUP"@ {
        49
    } else if name == "RUNDEBUG"@ {
        50
    } else if name == "DEBUGGER"@ {
        51
    } else {
        -1
    }
}

/// The variables of a restart have names of their own.
#[verifier::rlimit(50)]
proof fn lemma_ranks()
    ensures
        rank("NODES"@) == 0,
        rank("TASKS"@) == 1,
        rank("TASKS_PER_NODE"@) == 2,
        rank("CPUS_PER_TASK"@) == 3,
        rank("GPU"@) == 4,
        rank("GPUS_PER_TASK"@) == 5,
        rank("ALLOCATION"@) == 6,
        rank("QUEUE"@) == 7,
        rank("MAIL"@) == 8,
        rank("MAIL_TYPE"@) == 9,
        rank("JOB_NAME"@) == 10,
        rank("WALLTIME"@) == 11,
        rank("WALLTIME_HH"@) == 12,
        rank("WALLTIME_MM"@) == 13,
        rank("WALLTIME_SS"@) == 14,
        rank("WALLTIME_SECONDS"@) == 15,
        rank("WALLTIME_MINUTES"@) == 16,
        rank("WALLTIME_HOURS"@) == 17,
        rank("CHECKPOINT_WALLTIME"@) == 18,
        rank("CHECKPOINT_WALLTIME_SECONDS"@) == 19,
        rank("CHECKPOINT_WALLTIME_HOURS"@) == 20,
        rank("STDOUT_FILE"@) == 21,
        rank("STDERR_FILE"@) == 22,
        rank("SIMULATION_NAME"@) == 23,
        rank("SHORT_SIMULATION_NAME"@) == 24,
        rank("SIMULATION_ID"@) == 25,
        rank("RESTART_ID"@) == 26,
        rank("RUNDIR"@) == 27,
        rank("SOURCEDIR"@) == 28,
        rank("EXECUTABLE"@) == 29,
        rank("PARFILE"@) == 30,
        rank("SCRIPTFILE"@) == 31,
        rank("CONFIGURATION"@) == 32,
        rank("SIM_HOME"@) == 33,
        rank("SIMULATION_DIR"@) == 34,
        rank("SCRATCH_HOME"@) == 35,
        rank("ALIAS"@) == 36,
        rank("CACTUP"@) == 37,
        rank("MACHINE"@) == 38,
        rank("HOSTNAME"@) == 39,
        rank("USER"@) == 40,
        rank("EMAIL"@) == 41,
        rank("EXECHOST"@) == 42,
        rank("JOB_ID"@) == 43,
        rank("CHAINED_JOB_ID"@) == 44,
        rank("MAX_CPUS_PER_NODE"@) == 45,
        rank("MAX_GPUS_PER_NODE"@) == 46,
        rank("MEMORY"@) == 47,
        rank("THREADS_PER_CPU"@) == 48,
        rank("ENV_SETUP"@) == 49,
        rank("RUNDEBUG"@) == 50,
        rank("DEBUGGER"@) == 51,
{
    reveal_strlit("NODES");
    reveal_strlit("TASKS");
    reveal_strlit("TASKS_PER_NODE");
    reveal_strlit("CPUS_PER_TASK");
    reveal_strlit("GPU");
    reveal_strlit("GPUS_PER_TASK");
    reveal_strlit("ALLOCATION");
    reveal_strlit("QUEUE");
    reveal_strlit("MAIL");
    reveal_strlit("MAIL_TYPE");
    reveal_strlit("JOB_NAME");
    reveal_strlit("WALLTIME");
    reveal_strlit("WALLTIME_HH");
    reveal_strlit("WALLTIME_MM");
    reveal_strlit("WALLTIME_SS");
    reveal_strlit("WALLTIME_SECONDS");
    reveal_strlit("WALLTIME_MINUTES");
    reveal_strlit("WALLTIME_HOURS");
    reveal_strlit("CHECKPOINT_WALLTIME");
    reveal_strlit("CHECKPOINT_WALLTIME_SECONDS");
    reveal_strlit("CHECKPOINT_WALLTIME_HOURS");
    reveal_strlit("STDOUT_FILE");
    reveal_strlit("STDERR_FILE");
    reveal_strlit("SIMULATION_NAME");
    reveal_strlit("SHORT_SIMULATION_NAME");
    reveal_strlit("SIMULATION_ID");
    reveal_strlit("RESTART_ID");
    reveal_strlit("RUNDIR");
    reveal_strlit("SOURCEDIR");
    reveal_strlit("EXECUTABLE");
    reveal_strlit("PARFILE");
    reveal_strlit("SCRIPTFILE");
    reveal_strlit("CONFIGURATION");
    reveal_strlit("SIM_HOME");
    reveal_strlit("SIMULATION_DIR");
    reveal_strlit("SCRATCH_HOME");
    reveal_strlit("ALIAS");
    reveal_strlit("CACTUP");
    reveal_strlit("MACHINE");
    reveal_strlit("HOSTNAME");
    reveal_strlit("USER");
    reveal_strlit("EMAIL");
    reveal_strlit("EXECHOST");
    reveal_strlit("JOB_ID");
    reveal_strlit("CHAINED_JOB_ID");
    reveal_strlit("MAX_CPUS_PER_NODE");
    reveal_strlit("MAX_GPUS_PER_NODE");
    reveal_strlit("MEMORY");
    reveal_strlit("THREADS_PER_CPU");
    reveal_strlit("ENV_SETUP");
    reveal_strlit("RUNDEBUG");
    reveal_strlit("DEBUGGER");
    assert("NODES"@.len() == 5);
    assert("TASKS"@.len() == 5);
    assert("TASKS_PER_NODE"@.len() == 14);
    assert("CPUS_PER_TASK"@.len() == 13);
    assert("GPU"@.len() == 3);
    assert("GPUS_PER_TASK"@.len() == 13);
    assert("ALLOCATION"@.len() == 10);
    assert("QUEUE"@.len() == 5);
    assert("MAIL"@.len() == 4);
    assert("MAIL_TYPE"@.len() == 9);
    assert("JOB_NAME"@.len() == 8);
    assert("WALLTIME"@.len() == 8);
    assert("WALLTIME_HH"@.len() == 11);
    assert("WALLTIME_MM"@.len() == 11);
    assert("WALLTIME_SS"@.len() == 11);
    assert("WALLTIME_SECONDS"@.len() == 16);
    assert("WALLTIME_MINUTES"@.len() == 16);
    assert("WALLTIME_HOURS"@.len() == 14);
    assert("CHECKPOINT_WALLTIME"@.len() == 19);
    assert("CHECKPOINT_WALLTIME_SECONDS"@.len() == 27);
    assert("CHECKPOINT_WALLTIME_HOURS"@.len() == 25);
    assert("STDOUT_FILE"@.len() == 11);
    assert("STDERR_FILE"@.len() == 11);
    assert("SIMULATION_NAME"@.len() == 15);
    assert("SHORT_SIMULATION_NAME"@.len() == 21);
    assert("SIMULATION_ID"@.len() == 13);
    assert("RESTART_ID"@.len() == 10);
    assert("RUNDIR"@.len() == 6);
    assert("SOURCEDIR"@.len() == 9);
    assert("EXECUTABLE"@.len() == 10);
    assert("PARFILE"@.len() == 7);
    assert("SCRIPTFILE"@.len() == 10);
    assert("CONFIGURATION"@.len() == 13);
    assert("SIM_HOME"@.len() == 8);
    assert("SIMULATION_DIR"@.len() == 14);
    assert("SCRATCH_HOME"@.len() == 12);
    assert("ALIAS"@.len() == 5);
    assert("CACTUP"@.len() == 6);
    assert("MACHINE"@.len() == 7);
    assert("HOSTNAME"@.len() == 8);
    assert("USER"@.len() == 4);
    assert("EMAIL"@.len() == 5);
    assert("EXECHOST"@.len() == 8);
    assert("JOB_ID"@.len() == 6);
    assert("CHAINED_JOB_ID"@.len() == 14);
    assert("MAX_CPUS_PER_NODE"@.len() == 17);
    assert("MAX_GPUS_PER_NODE"@.len() == 17);
    assert("MEMORY"@.len() == 6);
    assert("THREADS_PER_CPU"@.len() == 15);
    assert("ENV_SETUP"@.len() == 9);
    assert("RUNDEBUG"@.len() == 8);
    assert("DEBUGGER"@.len() == 8);
    assert("MAIL"@[0] == 'M');
    assert("USER"@[0] == 'U');
    assert("NODES"@[0] == 'N');
    assert("TASKS"@[0] == 'T');
    assert("QUEUE"@[0] == 'Q');
    assert("ALIAS"@[0] == 'A');
    assert("EMAIL"@[0] == 'E');
    assert("RUNDIR"@[0] == 'R');
    assert("CACTUP"@[0] == 'C');
    assert("JOB_ID"@[0] == 'J');
    assert("MEMORY"@[0] == 'M');
    assert("PARFILE"@[0] == 'P');
    assert("MACHINE"@[0] == 'M');
    assert("JOB_NAME"@[0] == 'J');
    assert("WALLTIME"@[0] == 'W');
    assert("SIM_HOME"@[0] == 'S');
    assert("HOSTNAME"@[0] == 'H');
    assert("EXECHOST"@[0] == 'E');
    assert("RUNDEBUG"@[0] == 'R');
    assert("DEBUGGER"@[0] == 'D');
    assert("MAIL_TYPE"@[0] == 'M');
    assert("SOURCEDIR"@[0] == 'S');
    assert("ENV_SETUP"@[0] == 'E');
    assert("ALLOCATION"@[0] == 'A');
    assert("RESTART_ID"@[0] == 'R');
    assert("EXECUTABLE"@[0] == 'E');
    assert("SCRIPTFILE"@[0] == 'S');
    assert("WALLTIME_HH"@[3] == 'L' && "WALLTIME_HH"@[9] == 'H');
    assert("WALLTIME_MM"@[3] == 'L' && "WALLTIME_MM"@[9] == 'M');
    assert("WALLTIME_SS"@[3] == 'L' && "WALLTIME_SS"@[9] == 'S');
    assert("STDOUT_FILE"@[3] == 'O' && "STDOUT_FILE"@[9] == 'L');
    assert("STDERR_FILE"@[3] == 'E' && "STDERR_FILE"@[9] == 'L');
    assert("CPUS_PER_TASK"@[0] == 'C' && "CPUS_PER_TASK"@[1] == 'P');
    assert("GPUS_PER_TASK"@[0] == 'G' && "GPUS_PER_TASK"@[1] == 'P');
    assert("SIMULATION_ID"@[0] == 'S' && "SIMULATION_ID"@[1] == 'I');
    assert("CONFIGURATION"@[0] == 'C' && "CONFIGURATION"@[1] == 'O');
    assert("TASKS_PER_NODE"@[0] == 'T');
    assert("WALLTIME_HOURS"@[0] == 'W');
    assert("SIMULATION_DIR"@[0] == 'S');
    assert("CHAINED_JOB_ID"@[0] == 'C');
    assert("SIMULATION_NAME"@[0] == 'S');
    assert("THREADS_PER_CPU"@[0] == 'T');
    assert("WALLTIME_SECONDS"@[9] == 'S');
    assert("WALLTIME_MINUTES"@[9] == 'M');
    assert("MAX_CPUS_PER_NODE"@[4] == 'C');
    assert("MAX_GPUS_PER_NODE"@[4] == 'G');
}

/// The places of the variables of a layout.
proof fn lemma_topology_block_ranks(topo: Topology, default_job_name: Seq<char>)
    ensures
        topology_block(topo, default_job_name).len() == 11,
        forall|j: int| 0 <= j < 11 ==> rank((#[trigger] topology_block(topo, default_job_name)[j]).0) == j + 0,
{
    lemma_ranks();
    let b = topology_block(topo, default_job_name);
    assert forall|j: int| 0 <= j < 11 implies rank((#[trigger] b[j]).0) == j + 0 by {
        assert(b[0].0 == "NODES"@);
        assert(b[1].0 == "TASKS"@);
        assert(b[2].0 == "TASKS_PER_NODE"@);
        assert(b[3].0 == "CPUS_PER_TASK"@);
        assert(b[4].0 == "GPU"@);
        assert(b[5].0 == "GPUS_PER_TASK"@);
        assert(b[6].0 == "ALLOCATION"@);
        assert(b[7].0 == "QUEUE"@);
        assert(b[8].0 == "MAIL"@);
        assert(b[9].0 == "MAIL_TYPE"@);
        assert(b[10].0 == "JOB_NAME"@);
        assert(j == 0 || j == 1 || j == 2 || j == 3 || j == 4 || j == 5 || j == 6 || j == 7 || j == 8
            || j == 9 || j == 10);
    }
}

/// The places of the variables of a walltime.
proof fn lemma_wall_block_ranks(wall: Walltime)
    ensures
        wall_block(wall).len() == 7,
        forall|j: int| 0 <= j < 7 ==> rank((#[trigger] wall_block(wall)[j]).0) == j + 11,
{
    lemma_ranks();
    let b = wall_block(wall);
    assert forall|j: int| 0 <= j < 7 implies rank((#[trigger] b[j]).0) == j + 11 by {
        assert(b[0].0 == "WALLTIME"@);
        assert(b[1].0 == "WALLTIME_HH"@);
        assert(b[2].0 == "WALLTIME_MM"@);
        assert(b[3].0 == "WALLTIME_SS"@);
        assert(b[4].0 == "WALLTIME_SECONDS"@);
        assert(b[5].0 == "WALLTIME_MINUTES"@);
        assert(b[6].0 == "WALLTIME_HOURS"@);
        assert(j == 0 || j == 1 || j == 2 || j == 3 || j == 4 || j == 5 || j == 6);
    }
}

/// The places of the variables of the moment for a checkpoint.
proof fn lemma_checkpoint_block_ranks(hint: Walltime)
    ensures
        checkpoint_block(hint).len() == 3,
        forall|j: int| 0 <= j < 3 ==> rank((#[trigger] checkpoint_block(hint)[j]).0) == j + 18,
{
    lemma_ranks();
    let b = checkpoint_block(hint);
    assert forall|j: int| 0 <= j < 3 implies rank((#[trigger] b[j]).0) == j + 18 by {
        assert(b[0].0 == "CHECKPOINT_WALLTIME"@);
        assert(b[1].0 == "CHECKPOINT_WALLTIME_SECONDS"@);
        assert(b[2].0 == "CHECKPOINT_WALLTIME_HOURS"@);
        assert(j == 0 || j == 1 || j == 2);
    }
}

/// The places of the variables that say which restart this is.
proof fn lemma_identity_block_ranks(input: RestartVarsInput, scratch: Seq<char>)
    ensures
        identity_block(input, scratch).len() == 24,
        forall|j: int| 0 <= j < 24 ==> rank((#[trigger] identity_block(input, scratch)[j]).0) == j + 21,
{
    lemma_ranks();
    let b = identity_block(input, scratch);
    assert forall|j: int| 0 <= j < 24 implies rank((#[trigger] b[j]).0) == j + 21 by {
        assert(b[0].0 == "STDOUT_FILE"@);
        assert(b[1].0 == "STDERR_FILE"@);
        assert(b[2].0 == "SIMULATION_NAME"@);
        assert(b[3].0 == "SHORT_SIMULATION_NAME"@);
        assert(b[4].0 == "SIMULATION_ID"@);
        assert(b[5].0 == "RESTART_ID"@);
        assert(b[6].0 == "RUNDIR"@);
        assert(b[7].0 == "SOURCEDIR"@);
        assert(b[8].0 == "EXECUTABLE"@);
        assert(b[9].0 == "PARFILE"@);
        assert(b[10].0 == "SCRIPTFILE"@);
        assert(b[11].0 == "CONFIGURATION"@);
        assert(b[12].0 == "SIM_HOME"@);
        assert(b[13].0 == "SIMULATION_DIR"@);
        assert(b[14].0 == "SCRATCH_HOME"@);
        assert(b[15].0 == "ALIAS"@);
        assert(b[16].0 == "CACTUP"@);
        assert(b[17].0 == "MACHINE"@);
        assert(b[18].0 == "HOSTNAME"@);
        assert(b[19].0 == "USER"@);
        assert(b[20].0 == "EMAIL"@);
        assert(b[21].0 == "EXECHOST"@);
        assert(b[22].0 == "JOB_ID"@);
        assert(b[23].0 == "CHAINED_JOB_ID"@);
        assert(j == 0 || j == 1 || j == 2 || j == 3 || j == 4 || j == 5 || j == 6 || j == 7 || j == 8
            || j == 9 || j == 10 || j == 11 || j == 12 || j == 13 || j == 14 || j == 15 || j == 16 || j == 17
            || j == 18 || j == 19 || j == 20 || j == 21 || j == 22 || j == 23);
    }
}

/// The places of the variables of a machine.
proof fn lemma_machine_block_ranks(meta: Meta, hw: Hardware, universe: Option<Seq<char>>)
    ensures
        machine_block(meta, hw, universe).len() == 5,
        forall|j: int| 0 <= j < 5 ==> rank((#[trigger] machine_block(meta, hw, universe)[j]).0) == j + 45,
{
    lemma_ranks();
    let b = machine_block(meta, hw, universe);
    assert forall|j: int| 0 <= j < 5 implies rank((#[trigger] b[j]).0) == j + 45 by {
        assert(b[0].0 == "MAX_CPUS_PER_NODE"@);
        assert(b[1].0 == "MAX_GPUS_PER_NODE"@);
        assert(b[2].0 == "MEMORY"@);
        assert(b[3].0 == "THREADS_PER_CPU"@);
        assert(b[4].0 == "ENV_SETUP"@);
        assert(j == 0 || j == 1 || j == 2 || j == 3 || j == 4);
    }
}

/// The places of the variables for debugging.
proof fn lemma_debug_block_ranks(debug: bool)
    ensures
        debug_block(debug).len() == 2,
        forall|j: int| 0 <= j < 2 ==> rank((#[trigger] debug_block(debug)[j]).0) == j + 50,
{
    lemma_ranks();
    let b = debug_block(debug);
    assert forall|j: int| 0 <= j < 2 implies rank((#[trigger] b[j]).0) == j + 50 by {
        assert(b[0].0 == "RUNDEBUG"@);
        assert(b[1].0 == "DEBUGGER"@);
        assert(j == 0 || j == 1);
    }
}

/// The places of all the variables of a restart.
proof fn lemma_restart_ranks(input: RestartVarsInput, scratch: Seq<char>)
    ensures
        restart_block(input, scratch).len() == 52,
        forall|j: int| 0 <= j < 52 ==> rank((#[trigger] restart_block(input, scratch)[j]).0) == j,
{
    let meta = input.machine.meta;
    let hw = hardware_on(meta, input.topo.queue@);
    lemma_topology_block_ranks(*input.topo, input.sim.name@);
    lemma_wall_block_ranks(input.job_wall);
    lemma_checkpoint_block_ranks(hint_of(input.job_wall, input.checkpt_buffer));
    lemma_identity_block_ranks(input, scratch);
    lemma_machine_block_ranks(meta, hw, ref_view(input.run_universe));
    lemma_debug_block_ranks(input.debug);
    let b = restart_block(input, scratch);
    let t = topology_block(*input.topo, input.sim.name@);
    let w = wall_block(input.job_wall);
    let c = checkpoint_block(hint_of(input.job_wall, input.checkpt_buffer));
    let i = identity_block(input, scratch);
    let m = machine_block(meta, hw, ref_view(input.run_universe));
    let d = debug_block(input.debug);
    assert(b =~= t + (w + c) + i + m + d);
    assert forall|j: int| 0 <= j < 52 implies rank((#[trigger] b[j]).0) == j by {
        if j < 11 {
            assert(b[j] == t[j]);
        } else if j < 18 {
            assert(b[j] == w[j - 11]);
        } else if j < 21 {
            assert(b[j] == c[j - 18]);
        } else if j < 45 {
            assert(b[j] == i[j - 21]);
        } else if j < 50 {
            assert(b[j] == m[j - 45]);
        } else {
            assert(b[j] == d[j - 50]);
        }
    }
}

/// A template gets each number of a layout, and each thing that the scheduler is told, under its own name.
pub proof fn layouts_read_back(
    set: VarSet,
    start: Seq<(Seq<char>, VarText)>,
    topo: Topology,
    default_job_name: Seq<char>,
)
    requires
        distinct(start),
        var_views(set.vars@) == set_all(start, topology_block(topo, default_job_name)),
    ensures
        set.reads("NODES"@, decimal_of(topo.nodes as nat)),
        set.reads("TASKS"@, decimal_of(topo.tasks as nat)),
        set.reads("TASKS_PER_NODE"@, decimal_of(topo.tpn as nat)),
        set.reads("CPUS_PER_TASK"@, decimal_of(topo.cpus as nat)),
        set.reads("GPU"@, if topo.gpu { "1"@ } else { "0"@ }),
        set.reads("GPUS_PER_TASK"@, decimal_of(topo.gpus_per_task as nat)),
        set.reads("ALLOCATION"@, if topo.allocation is Some { topo.allocation->0@ } else { ""@ }),
        set.reads("QUEUE"@, topo.scheduler_queue@),
        set.reads("MAIL"@, if topo.mail is Some { topo.mail->0@ } else { ""@ }),
        set.reads("MAIL_TYPE"@, topo.mail_type@),
        set.reads("JOB_NAME"@, if topo.job_name is Some { topo.job_name->0@ } else { default_job_name }),
{
    let b = topology_block(topo, default_job_name);
    lemma_topology_block_ranks(topo, default_job_name);
    set_variables_read_back(set, start, b);
    assert(b[0].0 == "NODES"@);
    assert(b[1].0 == "TASKS"@);
    assert(b[2].0 == "TASKS_PER_NODE"@);
    assert(b[3].0 == "CPUS_PER_TASK"@);
    assert(b[4].0 == "GPU"@);
    assert(b[5].0 == "GPUS_PER_TASK"@);
    assert(b[6].0 == "ALLOCATION"@);
    assert(b[7].0 == "QUEUE"@);
    assert(b[8].0 == "MAIL"@);
    assert(b[9].0 == "MAIL_TYPE"@);
    assert(b[10].0 == "JOB_NAME"@);
}

/// A template gets a walltime as it is written, its parts, and its length in each unit.
pub proof fn walltimes_read_back(set: VarSet, start: Seq<(Seq<char>, VarText)>, wall: Walltime)
    requires
        distinct(start),
        var_views(set.vars@) == set_all(start, wall_block(wall)),
    ensures
        set.reads("WALLTIME"@, wall.written()),
        set.reads("WALLTIME_HH"@, two_digits((wall.0 / 3600) as nat)),
        set.reads("WALLTIME_MM"@, two_digits((wall.0 / 60 % 60) as nat)),
        set.reads("WALLTIME_SS"@, two_digits((wall.0 % 60) as nat)),
        set.reads("WALLTIME_SECONDS"@, decimal_of(wall.0 as nat)),
        set.reads("WALLTIME_MINUTES"@, decimal_of((wall.0 / 60) as nat)),
        set.reads("WALLTIME_HOURS"@, decimal_of((wall.0 / 3600) as nat)),
{
    let b = wall_block(wall);
    lemma_wall_block_ranks(wall);
    set_variables_read_back(set, start, b);
    assert(b[0].0 == "WALLTIME"@);
    assert(b[1].0 == "WALLTIME_HH"@);
    assert(b[2].0 == "WALLTIME_MM"@);
    assert(b[3].0 == "WALLTIME_SS"@);
    assert(b[4].0 == "WALLTIME_SECONDS"@);
    assert(b[5].0 == "WALLTIME_MINUTES"@);
    assert(b[6].0 == "WALLTIME_HOURS"@);
}

/// A template gets the hardware of the queue, with one core, one thread and nothing else where it is not known.
pub proof fn machines_read_back(
    set: VarSet,
    start: Seq<(Seq<char>, VarText)>,
    meta: Meta,
    hw: Hardware,
    universe: Option<Seq<char>>,
)
    requires
        distinct(start),
        var_views(set.vars@) == set_all(start, machine_block(meta, hw, universe)),
    ensures
        set.reads(
            "MAX_CPUS_PER_NODE"@,
            decimal_of(if hw.max_cpus_per_node is Some { hw.max_cpus_per_node->0 as nat } else { 1 }),
        ),
        set.reads(
            "MAX_GPUS_PER_NODE"@,
            decimal_of(if hw.max_gpus_per_node is Some { hw.max_gpus_per_node->0 as nat } else { 0 }),
        ),
        set.reads("MEMORY"@, decimal_of(if hw.memory is Some { hw.memory->0 as nat } else { 0 })),
        set.reads(
            "THREADS_PER_CPU"@,
            decimal_of(if hw.threads_per_cpu is Some { hw.threads_per_cpu->0 as nat } else { 1 }),
        ),
        set.reads("ENV_SETUP"@, meta.env_text(universe, Phase::Run)),
{
    let b = machine_block(meta, hw, universe);
    lemma_machine_block_ranks(meta, hw, universe);
    set_variables_read_back(set, start, b);
    assert(b[0].0 == "MAX_CPUS_PER_NODE"@);
    assert(b[1].0 == "MAX_GPUS_PER_NODE"@);
    assert(b[2].0 == "MEMORY"@);
    assert(b[3].0 == "THREADS_PER_CPU"@);
    assert(b[4].0 == "ENV_SETUP"@);
}

/// A template gets everything that is known of a restart under its own name: the layout, the walltime and
/// the time left for the run before its checkpoint, the simulation and its files, the machine and the
/// hardware of the queue, and whether the run is debugged.
#[verifier::rlimit(60)]
pub proof fn restarts_read_back(set: VarSet, input: RestartVarsInput, scratch: Seq<char>)
    requires
        var_views(set.vars@) == set_all(Seq::empty(), restart_block(input, scratch)),
    ensures
        ({
            let topo = *input.topo;
            let wall = input.job_wall;
            let buffer = input.checkpt_buffer;
            let left = if buffer.0 < wall.0 { wall.0 - buffer.0 } else { 0 };
            let sim = *input.sim;
            let dir = path_of(input.sim.dir@, dir_text(input.restart_id as nat));
            let meta = input.machine.meta;
            let hw = hardware_on(input.machine.meta, input.topo.queue@);
            let universe = ref_view(input.run_universe);
            &&& set.reads("NODES"@, decimal_of(topo.nodes as nat))
            &&& set.reads("TASKS"@, decimal_of(topo.tasks as nat))
            &&& set.reads("TASKS_PER_NODE"@, decimal_of(topo.tpn as nat))
            &&& set.reads("CPUS_PER_TASK"@, decimal_of(topo.cpus as nat))
            &&& set.reads("GPU"@, if topo.gpu { "1"@ } else { "0"@ })
            &&& set.reads("GPUS_PER_TASK"@, decimal_of(topo.gpus_per_task as nat))
            &&& set.reads("ALLOCATION"@, if topo.allocation is Some { topo.allocation->0@ } else { ""@ })
            &&& set.reads("QUEUE"@, topo.scheduler_queue@)
            &&& set.reads("MAIL"@, if topo.mail is Some { topo.mail->0@ } else { ""@ })
            &&& set.reads("MAIL_TYPE"@, topo.mail_type@)
            &&& set.reads("JOB_NAME"@, if topo.job_name is Some { topo.job_name->0@ } else { sim.name@ })
            &&& set.reads("WALLTIME"@, wall.written())
            &&& set.reads("WALLTIME_HH"@, two_digits((wall.0 / 3600) as nat))
            &&& set.reads("WALLTIME_MM"@, two_digits((wall.0 / 60 % 60) as nat))
            &&& set.reads("WALLTIME_SS"@, two_digits((wall.0 % 60) as nat))
            &&& set.reads("WALLTIME_SECONDS"@, decimal_of(wall.0 as nat))
            &&& set.reads("WALLTIME_MINUTES"@, decimal_of((wall.0 / 60) as nat))
            &&& set.reads("WALLTIME_HOURS"@, decimal_of((wall.0 / 3600) as nat))
            &&& set.reads("CHECKPOINT_WALLTIME"@, Walltime(left as u64).written())
            &&& set.reads("CHECKPOINT_WALLTIME_SECONDS"@, decimal_of(left as nat))
            &&& set.reads("CHECKPOINT_WALLTIME_HOURS"@, decimal_of((left / 3600) as nat))
            &&& set.reads(
                "STDOUT_FILE"@,
                if input.topo.out is Some { input.topo.out->0@ } else { path_of(dir, sim.name@ + ".out"@) },
            )
            &&& set.reads(
                "STDERR_FILE"@,
                if input.topo.err is Some { input.topo.err->0@ } else { path_of(dir, sim.name@ + ".err"@) },
            )
            &&& set.reads("SIMULATION_NAME"@, sim.name@)
            &&& set.reads("SHORT_SIMULATION_NAME"@, short_text(sim.name@, input.restart_id as nat))
            &&& set.reads("SIMULATION_ID"@, sim.meta.simulation_id@)
            &&& set.reads("RESTART_ID"@, decimal_of(input.restart_id as nat))
            &&& set.reads("RUNDIR"@, dir)
            &&& set.reads("SOURCEDIR"@, sim.meta.sourcedir@)
            &&& set.reads("EXECUTABLE"@, path_of(path_of(sim.dir@, ".cactup"@), "exe"@))
            &&& set.reads("PARFILE"@, path_of(dir, stem_of(sim.meta.parfile@) + ".par"@))
            &&& set.reads("SCRIPTFILE"@, path_of(path_of(dir, ".cactup"@), "submit-script"@))
            &&& set.reads("CONFIGURATION"@, sim.meta.configuration@)
            &&& set.reads("SIM_HOME"@, input.sim_home@)
            &&& set.reads("SIMULATION_DIR"@, sim.dir@)
            &&& set.reads("SCRATCH_HOME"@, scratch)
            &&& set.reads("ALIAS"@, sim.meta.alias@)
            &&& set.reads("CACTUP"@, input.cactup@)
            &&& set.reads("MACHINE"@, input.machine.name@)
            &&& set.reads("HOSTNAME"@, input.hostname@)
            &&& set.reads("USER"@, input.user@)
            &&& set.reads("EMAIL"@, input.email@)
            &&& set.reads("EXECHOST"@, ""@)
            &&& set.reads("JOB_ID"@, ""@)
            &&& set.reads("CHAINED_JOB_ID"@, input.chained_job_id@)
            &&& set.reads(
                "MAX_CPUS_PER_NODE"@,
                decimal_of(if hw.max_cpus_per_node is Some { hw.max_cpus_per_node->0 as nat } else { 1 }),
            )
            &&& set.reads(
                "MAX_GPUS_PER_NODE"@,
                decimal_of(if hw.max_gpus_per_node is Some { hw.max_gpus_per_node->0 as nat } else { 0 }),
            )
            &&& set.reads("MEMORY"@, decimal_of(if hw.memory is Some { hw.memory->0 as nat } else { 0 }))
            &&& set.reads(
                "THREADS_PER_CPU"@,
                decimal_of(if hw.threads_per_cpu is Some { hw.threads_per_cpu->0 as nat } else { 1 }),
            )
            &&& set.reads("ENV_SETUP"@, meta.env_text(universe, Phase::Run))
            &&& set.reads("RUNDEBUG"@, if input.debug { "1"@ } else { "0"@ })
            &&& set.reads("DEBUGGER"@, "gdb"@)
        }),
{
    let b = restart_block(input, scratch);
    lemma_restart_ranks(input, scratch);
    set_variables_read_back(set, Seq::empty(), b);
    assert(b[0].0 == "NODES"@);
    assert(b[1].0 == "TASKS"@);
    assert(b[2].0 == "TASKS_PER_NODE"@);
    assert(b[3].0 == "CPUS_PER_TASK"@);
    assert(b[4].0 == "GPU"@);
    assert(b[5].0 == "GPUS_PER_TASK"@);
    assert(b[6].0 == "ALLOCATION"@);
    assert(b[7].0 == "QUEUE"@);
    assert(b[8].0 == "MAIL"@);
    assert(b[9].0 == "MAIL_TYPE"@);
    assert(b[10].0 == "JOB_NAME"@);
    assert(b[11].0 == "WALLTIME"@);
    assert(b[12].0 == "WALLTIME_HH"@);
    assert(b[13].0 == "WALLTIME_MM"@);
    assert(b[14].0 == "WALLTIME_SS"@);
    assert(b[15].0 == "WALLTIME_SECONDS"@);
    assert(b[16].0 == "WALLTIME_MINUTES"@);
    assert(b[17].0 == "WALLTIME_HOURS"@);
    assert(b[18].0 == "CHECKPOINT_WALLTIME"@);
    assert(b[19].0 == "CHECKPOINT_WALLTIME_SECONDS"@);
    assert(b[20].0 == "CHECKPOINT_WALLTIME_HOURS"@);
    assert(b[21].0 == "STDOUT_FILE"@);
    assert(b[22].0 == "STDERR_FILE"@);
    assert(b[23].0 == "SIMULATION_NAME"@);
    assert(b[24].0 == "SHORT_SIMULATION_NAME"@);
    assert(b[25].0 == "SIMULATION_ID"@);
    assert(b[26].0 == "RESTART_ID"@);
    assert(b[27].0 == "RUNDIR"@);
    assert(b[28].0 == "SOURCEDIR"@);
    assert(b[29].0 == "EXECUTABLE"@);
    assert(b[30].0 == "PARFILE"@);
    assert(b[31].0 == "SCRIPTFILE"@);
    assert(b[32].0 == "CONFIGURATION"@);
    assert(b[33].0 == "SIM_HOME"@);
    assert(b[34].0 == "SIMULATION_DIR"@);
    assert(b[35].0 == "SCRATCH_HOME"@);
    assert(b[36].0 == "ALIAS"@);
    assert(b[37].0 == "CACTUP"@);
    assert(b[38].0 == "MACHINE"@);
    assert(b[39].0 == "HOSTNAME"@);
    assert(b[40].0 == "USER"@);
    assert(b[41].0 == "EMAIL"@);
    assert(b[42].0 == "EXECHOST"@);
    assert(b[43].0 == "JOB_ID"@);
    assert(b[44].0 == "CHAINED_JOB_ID"@);
    assert(b[45].0 == "MAX_CPUS_PER_NODE"@);
    assert(b[46].0 == "MAX_GPUS_PER_NODE"@);
    assert(b[47].0 == "MEMORY"@);
    assert(b[48].0 == "THREADS_PER_CPU"@);
    assert(b[49].0 == "ENV_SETUP"@);
    assert(b[50].0 == "RUNDEBUG"@);
    assert(b[51].0 == "DEBUGGER"@);
}

/// What is proposed where a layout asks for too many GPUs fits the queue: so many GPUs for each task, or
/// so many tasks on a node, as the node has GPUs for, and one more would not.
pub proof fn proposed_layouts_fit(per_task: u32, tpn: u32, queue: Seq<char>, max: u32)
    requires
        per_task * tpn > max,
        max > 0,
    ensures
        per_task > max ==> gpu_fix(per_task, tpn, queue, max) == "--gpus-per-task "@ + decimal_of(max as nat)
            + " or lower fits this layout"@,
        1 < per_task <= max && tpn <= max ==> exists|k: nat|
            {
                &&& k >= 1
                &&& k * tpn <= max < (k + 1) * tpn
                &&& gpu_fix(per_task, tpn, queue, max) == "--gpus-per-task "@ + #[trigger] decimal_of(k)
                    + " or lower fits this layout"@
            },
        1 < per_task <= max && tpn > max ==> exists|k: nat|
            {
                &&& k >= 1
                &&& k * per_task <= max < (k + 1) * per_task
                &&& gpu_fix(per_task, tpn, queue, max) == "lower --tpn/--tasks to put at most "@
                    + #[trigger] decimal_of(k) + " ranks on a node"@
            },
        per_task == 1 ==> gpu_fix(per_task, tpn, queue, max)
            == "each rank already takes one GPU, so lower --tpn/--tasks to put at most "@ + decimal_of(max as nat)
            + " on a node"@,
{
    assert(per_task > 0 && tpn > 0) by (nonlinear_arith)
        requires
            per_task * tpn > 0,
            per_task >= 0,
            tpn >= 0,
    ;
    let by_task = (max / tpn) as nat;
    let by_rank = (max / per_task) as nat;
    vstd::arithmetic::div_mod::lemma_fundamental_div_mod(max as int, tpn as int);
    vstd::arithmetic::div_mod::lemma_fundamental_div_mod(max as int, per_task as int);
    assert(by_task * tpn == tpn * by_task) by (nonlinear_arith);
    assert((by_task + 1) * tpn == tpn * by_task + tpn) by (nonlinear_arith);
    assert(by_rank * per_task == per_task * by_rank) by (nonlinear_arith);
    assert((by_rank + 1) * per_task == per_task * by_rank + per_task) by (nonlinear_arith);
    if tpn <= max {
        assert(by_task >= 1) by (nonlinear_arith)
            requires
                (by_task + 1) * tpn > max,
                tpn <= max,
                tpn > 0,
        ;
    }
    if per_task <= max {
        assert(by_rank >= 1) by (nonlinear_arith)
            requires
                (by_rank + 1) * per_task > max,
                per_task <= max,
                per_task > 0,
        ;
    }
    if tpn > max {
        assert(by_task == 0) by (nonlinear_arith)
            requires
                by_task * tpn <= max,
                tpn > max,
        ;
    }
    let by_task_text = decimal_of(by_task);
    let by_rank_text = decimal_of(by_rank);
}

/// A run is noted for the GPUs that it does not use where it gets nodes with GPUs, its build cannot use
/// them, and the machine has a queue without; else it is not.
pub proof fn unused_gpus_are_noted(fit: Fit, queues: Seq<(Seq<char>, Queue)>, k: int)
    ensures
        !wastes_gpus(fit, false, queues),
        fit.gpu ==> !wastes_gpus(fit, true, queues),
        !fit.gpu && 0 <= k < queues.len() && !queues[k].1.gpu ==> wastes_gpus(fit, true, queues),
        (forall|i: int| 0 <= i < queues.len() ==> (#[trigger] queues[i]).1.gpu) ==> !wastes_gpus(fit, true, queues),
{
}

} // verus!
