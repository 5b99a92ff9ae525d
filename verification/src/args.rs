//! What the command line asks for.

use crate::walltime::Walltime;
use vstd::prelude::*;

verus! {

/// The process layout and the queue that a run asks for.
#[derive(Debug)]
pub struct TopologyFlags {
    pub allocation: Option<String>,
    pub queue: Option<String>,
    pub mail: Option<String>,
    pub mail_type: Option<String>,
    pub nodes: Option<u32>,
    pub tasks: Option<u32>,
    /// Tasks per node.
    pub tpn: Option<u32>,
    /// Cores per task.
    pub cpus: Option<u32>,
    pub gpu: bool,
    pub gpus_per_task: Option<u32>,
    pub job_name: Option<String>,
    /// The walltime of the whole simulation.
    pub wall_time: Option<Walltime>,
    pub out: Option<String>,
    pub err: Option<String>,
}

/// The universe that a run asks for.
#[derive(Debug)]
pub struct UniverseFlags {
    pub universe: Option<String>,
    /// Run bare.
    pub no_universe: bool,
}

/// What a submission or a run asks for.
#[derive(Debug)]
pub struct SimStartArgs {
    pub sim: String,
    /// The parameter file to create the simulation from.
    pub parfile: Option<String>,
    pub config: Option<String>,
    /// Replace the simulation.
    pub overwrite: bool,
    pub force: bool,
    /// Run on a queue that the build does not go with.
    pub force_queue: bool,
    pub checkpt_buffer: Option<Walltime>,
    pub topology: TopologyFlags,
    pub universe: UniverseFlags,
}

} // verus!
