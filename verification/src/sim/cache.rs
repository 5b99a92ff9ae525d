//! The cache of programs that simulations share, and the trash that deleted ones go to.

use crate::text::{begins_with, cat4, decimal, decimal_of, lemma_views_push, path_join, path_of, same, starts, views};
use vstd::prelude::*;

verus! {

/// Where the programs are kept, one for each build.
pub fn cache_dir(sim_home: &str) -> (r: String)
    ensures
        r@ == path_of(path_of(sim_home@, "CACHE"@), "exe"@),
{
    path_join(&path_join(sim_home, "CACHE"), "exe")
}

/// Where deleted simulations go.
pub fn trash_dir(sim_home: &str) -> (r: String)
    ensures
        r@ == path_of(sim_home@, "TRASH"@),
{
    path_join(sim_home, "TRASH")
}

/// Where the program of a build is kept.
pub fn cache_entry(sim_home: &str, build_id: &str) -> (r: String)
    ensures
        r@ == path_of(path_of(path_of(sim_home@, "CACHE"@), "exe"@), build_id@),
{
    path_join(&cache_dir(sim_home), build_id)
}

/// The name under which a program is copied into the cache before it takes its own.
pub open spec fn temp_text(build_id: Seq<char>, pid: nat) -> Seq<char> {
    "."@ + build_id + "."@ + decimal_of(pid)
}

/// The name under which a program is copied into the cache before it takes its own.
pub fn temp_name(build_id: &str, pid: u32) -> (r: String)
    ensures
        r@ == temp_text(build_id@, pid as nat),
{
    cat4(".", build_id, ".", &decimal(pid as u64))
}

/// Where a deleted simulation goes.
pub fn trash_entry(sim_home: &str, simulation_id: &str) -> (r: String)
    ensures
        r@ == path_of(path_of(sim_home@, "TRASH"@), simulation_id@),
{
    path_join(&trash_dir(sim_home), simulation_id)
}

/// An entry of the cache's directory.
#[derive(Debug)]
pub struct CacheEntry {
    pub name: String,
    pub is_file: bool,
    /// How many names the file has.
    pub links: u64,
}

/// Whether an entry is to be removed: it is a program that no simulation has, and neither one that
/// is being copied nor the one to be kept.
pub open spec fn is_orphan(e: CacheEntry, keep: Option<Seq<char>>) -> bool {
    !begins_with(e.name@, "."@) && keep != Some(e.name@) && e.is_file && e.links == 1
}

/// The entries that are to be removed, in their order.
pub open spec fn orphans(entries: Seq<CacheEntry>, keep: Option<Seq<char>>) -> Seq<Seq<char>>
    decreases entries.len(),
{
    if entries.len() == 0 {
        Seq::empty()
    } else if is_orphan(entries.last(), keep) {
        orphans(entries.drop_last(), keep).push(entries.last().name@)
    } else {
        orphans(entries.drop_last(), keep)
    }
}

/// The entries of the cache that are to be removed: the programs whose only name is the cache's
/// own, since no simulation has them, be it in the trash. `keep` names one that is about to be used.
pub fn gc(entries: &Vec<CacheEntry>, keep: Option<&str>) -> (r: Vec<String>)
    ensures
        views(r@) == orphans(
            entries@,
            match keep {
                Some(k) => Some(k@),
                None => None,
            },
        ),
{
    let ghost kept = match keep {
        Some(k) => Some(k@),
        None => None,
    };
    let mut out: Vec<String> = Vec::new();
    let mut i: usize = 0;
    assert(entries@.take(0) =~= Seq::empty());
    while i < entries.len()
        invariant
            i <= entries@.len(),
            kept == (match keep {
                Some(k) => Some(k@),
                None => None,
            }),
            views(out@) == orphans(entries@.take(i as int), kept),
        decreases entries@.len() - i,
    {
        assert(entries@.take(i + 1).drop_last() =~= entries@.take(i as int));
        let e = &entries[i];
        let is_kept = match keep {
            Some(k) => same(k, &e.name),
            None => false,
        };
        if !starts(&e.name, ".") && !is_kept && e.is_file && e.links == 1 {
            let ghost before = out@;
            let name = e.name.clone();
            out.push(name);
            proof {
                lemma_views_push(before, name);
            }
        }
        i += 1;
    }
    assert(entries@.take(i as int) =~= entries@);
    out
}

/// Nothing is removed that is not an orphan: neither a program that a simulation has, nor the one
/// to be kept, nor one that is being copied.
pub proof fn only_orphans_are_removed(entries: Seq<CacheEntry>, keep: Option<Seq<char>>, name: Seq<char>)
    requires
        orphans(entries, keep).contains(name),
    ensures
        keep != Some(name),
        !begins_with(name, "."@),
        exists|i: int| 0 <= i < entries.len() && (#[trigger] entries[i]).name@ == name && is_orphan(entries[i], keep),
    decreases entries.len(),
{
    if entries.len() > 0 {
        let rest = entries.drop_last();
        let last = entries.len() - 1;
        if is_orphan(entries.last(), keep) && entries.last().name@ == name {
            assert(entries[last].name@ == name);
        } else {
            let all = orphans(entries, keep);
            let k = choose|k: int| 0 <= k < all.len() && all[k] == name;
            assert(orphans(rest, keep)[k] == name);
            only_orphans_are_removed(rest, keep, name);
            let i = choose|i: int| 0 <= i < rest.len() && (#[trigger] rest[i]).name@ == name && is_orphan(rest[i], keep);
            assert(entries[i].name@ == name);
        }
    }
}

/// A program is removed exactly where it is a file with no name but the cache's own, is not being
/// copied, and is not the one to be kept.
pub proof fn unused_programs_are_removed(entries: Seq<CacheEntry>, keep: Option<Seq<char>>, i: int)
    requires
        0 <= i < entries.len(),
        forall|k: int| 0 <= k < entries.len() && k != i ==> (#[trigger] entries[k]).name@ != entries[i].name@,
    ensures
        ({
            let e = entries[i];
            let hidden = e.name@.len() > 0 && e.name@[0] == '.';
            orphans(entries, keep).contains(e.name@) <==> e.is_file && e.links == 1 && !hidden && keep != Some(e.name@)
        }),
    decreases entries.len(),
{
    reveal_strlit(".");
    let e = entries[i];
    let rest = entries.drop_last();
    let all = orphans(entries, keep);
    let fewer = orphans(rest, keep);
    let last = entries.last();
    if begins_with(e.name@, "."@) {
        assert(e.name@.take(1)[0] == '.');
    }
    if e.name@.len() > 0 && e.name@[0] == '.' {
        assert(e.name@.take(1) =~= "."@);
    }
    if i < rest.len() {
        assert(rest[i] == e);
        assert forall|k: int| 0 <= k < rest.len() && k != i implies (#[trigger] rest[k]).name@ != rest[i].name@ by {
            assert(entries[k].name@ != entries[i].name@);
        }
        unused_programs_are_removed(rest, keep, i);
        assert(entries[entries.len() - 1].name@ != e.name@);
        if fewer.contains(e.name@) {
            let k = choose|k: int| 0 <= k < fewer.len() && fewer[k] == e.name@;
            assert(all[k] == e.name@);
        }
        if all.contains(e.name@) {
            let k = choose|k: int| 0 <= k < all.len() && all[k] == e.name@;
            if k < fewer.len() {
                assert(fewer[k] == e.name@);
            }
        }
    } else {
        if fewer.contains(e.name@) {
            only_orphans_are_removed(rest, keep, e.name@);
            let k = choose|k: int|
                0 <= k < rest.len() && (#[trigger] rest[k]).name@ == e.name@ && is_orphan(rest[k], keep);
            assert(entries[k].name@ == e.name@);
        }
        if is_orphan(e, keep) {
            assert(all[fewer.len() as int] == e.name@);
        } else {
            assert(all == fewer);
        }
    }
}

/// A program that is being copied is never taken for an orphan.
pub proof fn copies_in_progress_stay(build_id: Seq<char>, pid: nat)
    ensures
        begins_with(temp_text(build_id, pid), "."@),
{
    reveal_strlit(".");
    assert(temp_text(build_id, pid).take(1) =~= "."@);
}

} // verus!
