//! How many workers a parallel walk gets.

use vstd::prelude::*;

verus! {

/// The most workers that a walk gets, so that a shared file system is not flooded.
pub const MAX_WORKERS: usize = 8;

/// The workers for so many items on a machine that runs so many threads at once, where that is
/// known: one at least, eight at most, and no more than there are items.
pub fn workers_for(parallelism: Option<usize>, items: usize) -> (r: usize)
    ensures
        ({
            let threads: usize = match parallelism {
                Some(n) => n,
                None => 4,
            };
            let wanted: usize = if threads < 1 {
                1
            } else if threads > MAX_WORKERS {
                MAX_WORKERS
            } else {
                threads
            };
            r == (if items == 0 {
                1
            } else if items < wanted {
                items
            } else {
                wanted
            })
        }),
        1 <= r <= MAX_WORKERS,
{
    let threads: usize = match parallelism {
        Some(n) => n,
        None => 4,
    };
    let wanted: usize = if threads < 1 {
        1
    } else if threads > MAX_WORKERS {
        MAX_WORKERS
    } else {
        threads
    };
    if items == 0 {
        1
    } else if items < wanted {
        items
    } else {
        wanted
    }
}

} // verus!
