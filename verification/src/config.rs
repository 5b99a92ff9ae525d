//! What is recorded of a build.

use vstd::prelude::*;

verus! {

/// The record of a configuration that was built.
#[derive(Debug)]
pub struct ConfigMeta {
    pub name: String,
    /// The optionlist variant that it was built with.
    pub variant: String,
    pub gpu: bool,
    /// The queues that it may run on; all of them where there is none in the list.
    pub compatible_queues: Vec<String>,
    /// The universe that it was built in.
    pub universe: Option<String>,
    /// Runs take place in the universe of the build.
    pub coerce_run_universe: bool,
    pub thornlist: String,
    pub machine: String,
    pub config_id: String,
    pub build_id: String,
}

} // verus!
