//! Hardware facts from what the operating system says of the host.

use crate::search::{first_where, lemma_first_from_is};
use crate::text::{
    all_digits, begins_with, chars_of, ends, ends_with, find, index_of, is_digit, is_number, lemma_index_of_is,
    lemma_trimmed_end, lemma_trimmed_start, lines, lines_of, number_of, parse_number, same, starts, string_of, trim,
    trimmed, unsigned_part, views,
};
use vstd::prelude::*;

verus! {

/// The hardware of a host, as far as it can be told.
#[derive(Debug, Clone, Copy)]
pub struct DetectedHardware {
    /// Cores, not hardware threads; at least one.
    pub cores: u32,
    /// Hardware threads per core, where that is known.
    pub threads_per_cpu: Option<u32>,
    pub memory_mb: Option<u64>,
    /// None where no probe found any.
    pub gpus: Option<u32>,
}

/// What stands before the first colon of a line and after it.
pub open spec fn halves(line: Seq<char>) -> Option<(Seq<char>, Seq<char>)> {
    let k = index_of(line, ':');
    if k < line.len() {
        Some((line.take(k), line.skip(k + 1)))
    } else {
        None
    }
}

/// The number that a line `<key> : <number>` gives, blanks aside.
pub open spec fn number_field(line: Seq<char>, key: Seq<char>) -> Option<u32> {
    match halves(line) {
        Some(h) => if trimmed(h.0) == key && is_number(trimmed(h.1), u32::MAX as nat) {
            Some(number_of(unsigned_part(trimmed(h.1))) as u32)
        } else {
            None
        },
        None => None,
    }
}

fn field(line: &str, key: &str) -> (r: Option<u32>)
    ensures
        r == number_field(line@, key@),
{
    let cs = chars_of(line);
    let k: usize = find(&cs, 0, ':');
    assert(cs@.skip(0) =~= cs@);
    if k >= cs.len() {
        return None;
    }
    let name = string_of(&cs, 0, k);
    let value = string_of(&cs, k + 1, cs.len());
    assert(name@ =~= line@.take(k as int));
    assert(value@ =~= line@.skip(k + 1));
    if !same(&trim(&name), key) {
        return None;
    }
    match parse_number(&trim(&value), 4294967295) {
        Some(n) => Some(n as u32),
        None => None,
    }
}

/// What the lines of `/proc/cpuinfo` have told so far.
pub struct Counted {
    /// The hardware threads.
    pub threads: nat,
    /// The socket and the core of the block that is being read.
    pub socket: Option<u32>,
    pub core: Option<u32>,
    /// The cores, each with its socket, of the blocks before.
    pub cores: Set<(u32, u32)>,
}

/// The cores once the block that is being read is done.
pub open spec fn banked(c: Counted) -> Set<(u32, u32)> {
    if c.socket is Some && c.core is Some {
        c.cores.insert((c.socket->0, c.core->0))
    } else {
        c.cores
    }
}

/// What one more line tells: a blank line ends a block; otherwise a `processor` line is a thread,
/// and the first `physical id` and `core id` of the block are its socket and core.
pub open spec fn counting(c: Counted, line: Seq<char>) -> Counted {
    if trimmed(line).len() == 0 {
        Counted { threads: c.threads, socket: None, core: None, cores: banked(c) }
    } else {
        Counted {
            threads: if begins_with(line, "processor"@) && number_field(line, "processor"@) is Some {
                c.threads + 1
            } else {
                c.threads
            },
            socket: if c.socket is Some {
                c.socket
            } else {
                number_field(line, "physical id"@)
            },
            core: if c.core is Some {
                c.core
            } else {
                number_field(line, "core id"@)
            },
            cores: c.cores,
        }
    }
}

/// What the lines of `/proc/cpuinfo` tell.
pub open spec fn counted(all: Seq<Seq<char>>) -> Counted
    decreases all.len(),
{
    if all.len() == 0 {
        Counted { threads: 0, socket: None, core: None, cores: Set::empty() }
    } else {
        counting(counted(all.drop_last()), all.last())
    }
}

/// The cores and the threads per core: nothing where no thread is listed; one core per thread, and
/// nothing said of threads per core, where no core is; no threads per core where the threads do
/// not spread evenly.
pub open spec fn topology(c: Counted) -> Option<(u32, Option<u32>)> {
    let n = banked(c).len();
    if c.threads == 0 {
        None
    } else if n == 0 {
        Some((c.threads as u32, None))
    } else if c.threads % n == 0 && c.threads / n > 0 {
        Some((n as u32, Some((c.threads / n) as u32)))
    } else {
        Some((n as u32, None))
    }
}

/// Whether a list holds each core of a set once.
spec fn holds_cores(list: Seq<(u32, u32)>, set: Set<(u32, u32)>) -> bool {
    list.no_duplicates() && list.to_set() == set
}

/// Adds a core to the list where it is new.
fn add_core(list: &mut Vec<(u32, u32)>, core: (u32, u32))
    requires
        old(list)@.no_duplicates(),
    ensures
        final(list)@.no_duplicates(),
        final(list)@.to_set() == old(list)@.to_set().insert(core),
        final(list)@.len() <= old(list)@.len() + 1,
{
    let ghost before = list@;
    let mut i: usize = 0;
    while i < list.len()
        invariant
            i <= list@.len(),
            list@ == before,
            before == old(list)@,
            before.no_duplicates(),
            forall|j: int| 0 <= j < i ==> before[j] != core,
        decreases list@.len() - i,
    {
        if list[i].0 == core.0 && list[i].1 == core.1 {
            proof {
                assert(before.contains(before[i as int]));
                assert(before.to_set().insert(core) =~= before.to_set());
            }
            return;
        }
        i += 1;
    }
    list.push(core);
    proof {
        assert(list@.no_duplicates());
        assert forall|x: (u32, u32)| #[trigger] list@.to_set().contains(x) == before.to_set().insert(core).contains(x) by {
            if before.contains(x) {
                let j = choose|j: int| 0 <= j < before.len() && before[j] == x;
                assert(list@[j] == x);
            }
            if x == core {
                assert(list@[before.len() as int] == x);
            }
        }
        assert(list@.to_set() =~= before.to_set().insert(core));
    }
}

/// The cores and the threads per core that `/proc/cpuinfo` tells of. Threads of one core share a
/// socket and a core id.
pub fn cpu_topology(cpuinfo: &str) -> (r: Option<(u32, Option<u32>)>)
    requires
        lines_of(cpuinfo@).len() < u32::MAX,
    ensures
        r == topology(counted(lines_of(cpuinfo@))),
        r matches Some(t) ==> (t.1 matches Some(n) ==> n >= 1),
{
    let ghost all = lines_of(cpuinfo@);
    let rows = lines(cpuinfo);
    let mut cores: Vec<(u32, u32)> = Vec::new();
    let mut threads: u32 = 0;
    let mut socket: Option<u32> = None;
    let mut core: Option<u32> = None;
    let mut i: usize = 0;
    proof {
        assert(all.take(0) =~= Seq::empty());
        assert(Seq::<(u32, u32)>::empty().to_set() =~= Set::empty());
    }
    while i < rows.len()
        invariant
            i <= rows@.len(),
            all == views(rows@),
            all.len() < u32::MAX,
            threads <= i,
            cores@.len() <= i,
            threads == counted(all.take(i as int)).threads,
            socket == counted(all.take(i as int)).socket,
            core == counted(all.take(i as int)).core,
            holds_cores(cores@, counted(all.take(i as int)).cores),
        decreases rows@.len() - i,
    {
        let line: &str = rows[i].as_str();
        let ghost so_far = counted(all.take(i as int));
        proof {
            assert(all.take(i + 1).drop_last() =~= all.take(i as int));
            assert(all.take(i + 1).last() == line@);
            assert(counted(all.take(i + 1)) == counting(so_far, line@));
        }
        if trim(line).as_str().is_empty() {
            if let (Some(s), Some(c)) = (socket, core) {
                add_core(&mut cores, (s, c));
            }
            socket = None;
            core = None;
        } else {
            if starts(line, "processor") && field(line, "processor").is_some() {
                threads += 1;
            }
            if socket.is_none() {
                socket = field(line, "physical id");
            }
            if core.is_none() {
                core = field(line, "core id");
            }
        }
        i += 1;
    }
    proof {
        assert(all.take(i as int) =~= all);
    }
    if let (Some(s), Some(c)) = (socket, core) {
        add_core(&mut cores, (s, c));
    }
    proof {
        cores@.unique_seq_to_set();
    }
    if threads == 0 {
        return None;
    }
    if cores.len() == 0 {
        return Some((threads, None));
    }
    let n: u32 = cores.len() as u32;
    if threads % n == 0 && threads / n > 0 {
        Some((n, Some(threads / n)))
    } else {
        Some((n, None))
    }
}

/// A text without the suffixes at its end.
pub open spec fn without_suffixes(s: Seq<char>, suffix: Seq<char>) -> Seq<char>
    decreases s.len(),
{
    if suffix.len() > 0 && ends_with(s, suffix) {
        without_suffixes(s.take(s.len() - suffix.len()), suffix)
    } else {
        s
    }
}

/// The lines that begin with a prefix.
pub open spec fn prefixed_lines(all: Seq<Seq<char>>, prefix: Seq<char>) -> spec_fn(int) -> bool {
    |i: int| begins_with(all[i], prefix)
}

/// What follows a prefix on the first line that begins with it.
pub open spec fn first_after(all: Seq<Seq<char>>, prefix: Seq<char>) -> Option<Seq<char>> {
    let k = first_where(all.len() as int, prefixed_lines(all, prefix));
    if k < all.len() {
        Some(all[k].skip(prefix.len() as int))
    } else {
        None
    }
}

fn after_prefix(text: &str, prefix: &str) -> (r: Option<String>)
    ensures
        match first_after(lines_of(text@), prefix@) {
            Some(t) => r is Some && r->0@ == t,
            None => r is None,
        },
{
    let rows = lines(text);
    let ghost all = lines_of(text@);
    let ghost p = prefixed_lines(all, prefix@);
    let n: usize = chars_of(prefix).len();
    let mut i: usize = 0;
    while i < rows.len()
        invariant
            i <= rows@.len(),
            all == views(rows@),
            all == lines_of(text@),
            n == prefix@.len(),
            p == prefixed_lines(all, prefix@),
            forall|j: int| 0 <= j < i ==> !(#[trigger] p(j)),
        decreases rows@.len() - i,
    {
        assert(all[i as int] == rows@[i as int]@);
        if starts(&rows[i], prefix) {
            let cs = chars_of(&rows[i]);
            let rest = string_of(&cs, n, cs.len());
            proof {
                assert(p(i as int));
                lemma_first_from_is(0, all.len() as int, p, i as int);
                assert(rest@ =~= all[i as int].skip(n as int));
            }
            return Some(rest);
        }
        assert(!p(i as int));
        i += 1;
    }
    proof {
        lemma_first_from_is(0, all.len() as int, p, all.len() as int);
    }
    None
}

/// The memory in megabytes that `/proc/meminfo` tells of.
pub open spec fn memory_of(meminfo: Seq<char>) -> Option<u64> {
    match first_after(lines_of(meminfo), "MemTotal:"@) {
        Some(rest) => {
            let digits = trimmed(without_suffixes(trimmed(rest), "kB"@));
            if is_number(digits, u64::MAX as nat) {
                Some((number_of(unsigned_part(digits)) / 1024) as u64)
            } else {
                None
            }
        },
        None => None,
    }
}

/// The memory in megabytes that `/proc/meminfo` tells of.
pub fn memory_mb(meminfo: &str) -> (r: Option<u64>)
    ensures
        r == memory_of(meminfo@),
{
    proof {
        reveal_strlit("kB");
    }
    match after_prefix(meminfo, "MemTotal:") {
        None => None,
        Some(rest) => {
            let mut value = trim(&rest);
            let ghost whole = value@;
            while ends(&value, "kB")
                invariant
                    "kB"@.len() == 2,
                    without_suffixes(value@, "kB"@) == without_suffixes(whole, "kB"@),
                decreases value@.len(),
            {
                let cs = chars_of(&value);
                let shorter = string_of(&cs, 0, cs.len() - 2);
                assert(shorter@ =~= value@.take(value@.len() - 2));
                value = shorter;
            }
            match parse_number(&trim(&value), 18446744073709551615) {
                Some(kb) => Some(kb / 1024),
                None => None,
            }
        },
    }
}

/// How many of the numbers below `n` satisfy `p`.
pub open spec fn count_where(n: nat, p: spec_fn(int) -> bool) -> nat
    decreases n,
{
    if n == 0 {
        0
    } else if p(n - 1) {
        count_where((n - 1) as nat, p) + 1
    } else {
        count_where((n - 1) as nat, p)
    }
}

/// Whether the properties of an `amdkfd` node are those of a GPU: it has a nonzero `simd_count`.
pub open spec fn has_simds(properties: Seq<char>) -> bool {
    match first_after(lines_of(properties), "simd_count "@) {
        Some(rest) => is_number(trimmed(rest), u32::MAX as nat) && number_of(unsigned_part(trimmed(rest))) > 0,
        None => false,
    }
}

fn is_gpu_node(properties: &str) -> (r: bool)
    ensures
        r == has_simds(properties@),
{
    match after_prefix(properties, "simd_count ") {
        None => false,
        Some(rest) => match parse_number(&trim(&rest), 4294967295) {
            Some(n) => n > 0,
            None => false,
        },
    }
}

/// Whether a PCI class is that of an accelerator without a display.
pub open spec fn is_accelerator(class: Seq<char>) -> bool {
    begins_with(trimmed(class), "0x0302"@)
}

/// The entries that are directories.
pub open spec fn true_at(entries: Seq<bool>) -> spec_fn(int) -> bool {
    |i: int| entries[i]
}

/// The GPUs of NVIDIA's driver: the entries of its directory that are directories.
pub fn gpus_nvidia(entries: &Vec<bool>) -> (r: u32)
    requires
        entries@.len() <= u32::MAX,
    ensures
        r == count_where(entries@.len(), true_at(entries@)),
{
    let ghost p = true_at(entries@);
    let mut n: u32 = 0;
    let mut i: usize = 0;
    while i < entries.len()
        invariant
            i <= entries@.len(),
            entries@.len() <= u32::MAX,
            p == true_at(entries@),
            n <= i,
            n == count_where(i as nat, p),
        decreases entries@.len() - i,
    {
        assert(p(i as int) == entries@[i as int]);
        if entries[i] {
            n += 1;
        }
        i += 1;
    }
    n
}

/// The texts that could be read and are the properties of a GPU.
pub open spec fn gpu_nodes(entries: Seq<Option<String>>) -> spec_fn(int) -> bool {
    |i: int| entries[i] is Some && has_simds(entries[i]->0@)
}

/// The GPUs of AMD's driver: the nodes whose properties are those of a GPU.
pub fn gpus_amd(entries: &Vec<Option<String>>) -> (r: u32)
    requires
        entries@.len() <= u32::MAX,
    ensures
        r == count_where(entries@.len(), gpu_nodes(entries@)),
{
    let ghost p = gpu_nodes(entries@);
    let mut n: u32 = 0;
    let mut i: usize = 0;
    while i < entries.len()
        invariant
            i <= entries@.len(),
            entries@.len() <= u32::MAX,
            p == gpu_nodes(entries@),
            n <= i,
            n == count_where(i as nat, p),
        decreases entries@.len() - i,
    {
        let is_gpu = match &entries[i] {
            Some(properties) => is_gpu_node(properties),
            None => false,
        };
        assert(p(i as int) == is_gpu);
        if is_gpu {
            n += 1;
        }
        i += 1;
    }
    n
}

/// The texts that could be read and are the class of an accelerator.
pub open spec fn accelerators(entries: Seq<Option<String>>) -> spec_fn(int) -> bool {
    |i: int| entries[i] is Some && is_accelerator(entries[i]->0@)
}

/// The GPUs on the PCI bus: the devices whose class is that of an accelerator.
pub fn gpus_pci(entries: &Vec<Option<String>>) -> (r: u32)
    requires
        entries@.len() <= u32::MAX,
    ensures
        r == count_where(entries@.len(), accelerators(entries@)),
{
    let ghost p = accelerators(entries@);
    let mut n: u32 = 0;
    let mut i: usize = 0;
    while i < entries.len()
        invariant
            i <= entries@.len(),
            entries@.len() <= u32::MAX,
            p == accelerators(entries@),
            n <= i,
            n == count_where(i as nat, p),
        decreases entries@.len() - i,
    {
        let found = match &entries[i] {
            Some(class) => starts(&trim(class), "0x0302"),
            None => false,
        };
        assert(p(i as int) == found);
        if found {
            n += 1;
        }
        i += 1;
    }
    n
}

/// The GPUs of a host: what the probe that finds the most finds; nothing where none finds any.
pub fn gpus_under(nvidia: u32, amd: u32, pci: u32) -> (r: Option<u32>)
    ensures
        r is None <==> nvidia == 0 && amd == 0 && pci == 0,
        r matches Some(n) ==> (n == nvidia || n == amd || n == pci) && n >= nvidia && n >= amd && n >= pci,
{
    let mut n: u32 = nvidia;
    if amd > n {
        n = amd;
    }
    if pci > n {
        n = pci;
    }
    if n > 0 {
        Some(n)
    } else {
        None
    }
}

/// The number that `sysctl` prints, where it prints one that is no more than `max`.
pub open spec fn printed_number(output: Option<&str>, max: nat) -> Option<nat> {
    match output {
        Some(text) => if is_number(trimmed(text@), max) {
            Some(number_of(unsigned_part(trimmed(text@))))
        } else {
            None
        },
        None => None,
    }
}

fn read_printed(output: Option<&str>, max: u64) -> (r: Option<u64>)
    ensures
        match printed_number(output, max as nat) {
            Some(n) => r == Some(n as u64) && n <= max,
            None => r is None,
        },
{
    match output {
        Some(text) => parse_number(&trim(text), max),
        None => None,
    }
}

/// The cores and the threads per core that `sysctl` tells of: nothing where it does not tell the
/// cores; no threads per core where the threads do not spread evenly.
pub open spec fn sysctl_topology_of(physical: Option<&str>, logical: Option<&str>) -> Option<(u32, Option<u32>)> {
    match printed_number(physical, u32::MAX as nat) {
        Some(cores) => Some(
            (
                cores as u32,
                match printed_number(logical, u32::MAX as nat) {
                    Some(threads) => if cores > 0 && threads > 0 && threads % cores == 0 {
                        Some((threads / cores) as u32)
                    } else {
                        None
                    },
                    None => None,
                },
            ),
        ),
        None => None,
    }
}

/// The cores and the threads per core that `sysctl` tells of, from what it prints for
/// `hw.physicalcpu` and `hw.logicalcpu`.
pub fn sysctl_topology(physical: Option<&str>, logical: Option<&str>) -> (r: Option<(u32, Option<u32>)>)
    ensures
        r == sysctl_topology_of(physical, logical),
        r matches Some(t) ==> (t.1 matches Some(n) ==> n >= 1),
{
    match read_printed(physical, 4294967295) {
        Some(cores) => {
            let smt = match read_printed(logical, 4294967295) {
                Some(threads) => if cores > 0 && threads > 0 && threads % cores == 0 {
                    proof {
                        vstd::arithmetic::div_mod::lemma_fundamental_div_mod(threads as int, cores as int);
                    }
                    assert(1 <= threads / cores <= threads) by (nonlinear_arith)
                        requires
                            cores > 0,
                            threads > 0,
                            threads as int == cores as int * (threads as int / cores as int),
                    ;
                    Some((threads / cores) as u32)
                } else {
                    None
                },
                None => None,
            };
            Some((cores as u32, smt))
        },
        None => None,
    }
}

/// The memory in megabytes that `sysctl` tells of, from what it prints for `hw.memsize`.
pub fn sysctl_memory_mb(memsize: Option<&str>) -> (r: Option<u64>)
    ensures
        r == (match printed_number(memsize, u64::MAX as nat) {
            Some(bytes) => Some((bytes / 1048576) as u64),
            None => None,
        }),
{
    match read_printed(memsize, 18446744073709551615) {
        Some(bytes) => Some(bytes / 1048576),
        None => None,
    }
}

/// What a host tells of its hardware, as far as it does.
#[derive(Debug, Clone, Copy)]
pub enum Reports<'a> {
    /// `/proc/cpuinfo` and `/proc/meminfo`.
    Proc(Option<&'a str>, Option<&'a str>),
    /// What `sysctl` prints for `hw.physicalcpu`, `hw.logicalcpu` and `hw.memsize`.
    Sysctl(Option<&'a str>, Option<&'a str>, Option<&'a str>),
    /// Nothing that can be read.
    Silent,
}

/// The cores and the threads per core that a host tells of.
pub open spec fn told_topology(reports: Reports) -> Option<(u32, Option<u32>)> {
    match reports {
        Reports::Proc(Some(cpuinfo), _) => topology(counted(lines_of(cpuinfo@))),
        Reports::Sysctl(physical, logical, _) => sysctl_topology_of(physical, logical),
        _ => None,
    }
}

/// The memory in megabytes that a host tells of.
pub open spec fn told_memory(reports: Reports) -> Option<u64> {
    match reports {
        Reports::Proc(_, Some(meminfo)) => memory_of(meminfo@),
        Reports::Sysctl(_, _, memsize) => match printed_number(memsize, u64::MAX as nat) {
            Some(bytes) => Some((bytes / 1048576) as u64),
            None => None,
        },
        _ => None,
    }
}

/// The hardware that a host and the GPU probes tell of. Where the host says nothing of its cores,
/// the threads that the process may use stand for them.
pub fn detect(reports: Reports, parallelism: u32, gpus: Option<u32>) -> (r: DetectedHardware)
    requires
        reports matches Reports::Proc(Some(text), _) ==> lines_of(text@).len() < u32::MAX,
    ensures
        ({
            let (cores, threads) = match told_topology(reports) {
                Some(t) => t,
                None => (parallelism, None),
            };
            &&& r.cores == (if cores == 0 {
                1
            } else {
                cores
            })
            &&& r.threads_per_cpu == threads
        }),
        r.memory_mb == told_memory(reports),
        r.gpus == gpus,
        r.cores >= 1,
        r.threads_per_cpu matches Some(n) ==> n >= 1,
{
    let told = match reports {
        Reports::Proc(Some(cpuinfo), _) => cpu_topology(cpuinfo),
        Reports::Sysctl(physical, logical, _) => sysctl_topology(physical, logical),
        _ => None,
    };
    let (cores, threads_per_cpu) = match told {
        Some(t) => t,
        None => (parallelism, None),
    };
    let memory = match reports {
        Reports::Proc(_, Some(meminfo)) => memory_mb(meminfo),
        Reports::Sysctl(_, _, memsize) => sysctl_memory_mb(memsize),
        _ => None,
    };
    DetectedHardware { cores: if cores == 0 { 1 } else { cores }, threads_per_cpu, memory_mb: memory, gpus }
}

/// What is told of threads per core fits what is told of cores: together they are the threads.
pub proof fn threads_spread_over_cores(c: Counted)
    requires
        c.threads <= u32::MAX,
        banked(c).len() <= u32::MAX,
    ensures
        topology(c) matches Some(t) ==> (t.1 matches Some(smt) ==> smt >= 1 && t.0 * smt == c.threads),
{
    let n = banked(c).len();
    if n > 0 && c.threads % n == 0 {
        vstd::arithmetic::div_mod::lemma_fundamental_div_mod(c.threads as int, n as int);
        assert(c.threads / n <= c.threads) by (nonlinear_arith)
            requires
                n > 0,
        ;
    }
}

/// A field of a report is the number behind the first colon of a line, under the name in front of it;
/// white space around either does not matter.
pub proof fn fields_are_named_in_front_of_the_colon(name: Seq<char>, value: Seq<char>, key: Seq<char>)
    requires
        forall|i: int| 0 <= i < name.len() ==> name[i] != ':',
    ensures
        ({
            let found = number_field(name + seq![':'] + value, key);
            let fits = trimmed(name) == key && is_number(trimmed(value), u32::MAX as nat);
            &&& fits ==> found == Some(number_of(unsigned_part(trimmed(value))) as u32)
            &&& !fits ==> found is None
        }),
        number_field(name, key) is None,
{
    let line = name + seq![':'] + value;
    let n = name.len() as int;
    assert(line[n] == ':');
    lemma_index_of_is(line, ':', n);
    assert(line.take(n) =~= name);
    assert(line.skip(n + 1) =~= value);
    lemma_index_of_is(name, ':', n);
}

/// A blank line ends the block of a thread: its core is taken down where the block names both socket and
/// core, and the next block begins with neither. Within a block the first socket and the first core
/// count, and every line that numbers a processor is one thread.
pub proof fn blocks_are_counted_one_by_one(all: Seq<Seq<char>>, line: Seq<char>)
    ensures
        ({
            let c = counted(all);
            let d = counted(all.push(line));
            let blank = trimmed(line).len() == 0;
            &&& blank ==> d.socket is None && d.core is None && d.threads == c.threads
            &&& blank && c.socket is Some && c.core is Some ==> d.cores == c.cores.insert((c.socket->0, c.core->0))
            &&& blank && !(c.socket is Some && c.core is Some) ==> d.cores == c.cores
            &&& !blank ==> d.cores == c.cores
            &&& !blank && c.socket is Some ==> d.socket == c.socket
            &&& !blank && c.socket is None ==> d.socket == number_field(line, "physical id"@)
            &&& !blank && c.core is Some ==> d.core == c.core
            &&& !blank && c.core is None ==> d.core == number_field(line, "core id"@)
            &&& !blank && begins_with(line, "processor"@) && number_field(line, "processor"@) is Some ==> d.threads
                == c.threads + 1
            &&& !blank && !(begins_with(line, "processor"@) && number_field(line, "processor"@) is Some) ==> d.threads
                == c.threads
        }),
        counted(Seq::empty()).threads == 0,
        counted(Seq::empty()).cores == Set::<(u32, u32)>::empty(),
{
    let more = all.push(line);
    assert(more.drop_last() =~= all);
    assert(more.last() == line);
}

/// Cores are what is counted, not threads: where cores are told apart there are as many as that, whatever
/// the threads; where they are not, each thread stands for one, and nothing is said of threads per core.
/// Where nothing numbers a processor, nothing is told.
pub proof fn cores_are_counted_not_threads(c: Counted)
    requires
        c.threads <= u32::MAX,
        banked(c).len() <= u32::MAX,
    ensures
        c.threads == 0 <==> topology(c) is None,
        c.threads > 0 && banked(c).len() > 0 ==> (topology(c)->0).0 == banked(c).len(),
        c.threads > 0 && banked(c).len() == 0 ==> topology(c) == Some((c.threads as u32, None::<u32>)),
        c.threads > 0 && banked(c).len() > 0 && c.threads % banked(c).len() != 0 ==> (topology(c)->0).1 is None,
        c.socket is Some && c.core is Some ==> banked(c).contains((c.socket->0, c.core->0)),
{
}

proof fn lemma_trimmed_digits(digits: Seq<char>)
    requires
        digits.len() > 0,
        all_digits(digits),
    ensures
        trimmed(digits + seq![' ']) == digits,
        trimmed(digits) == digits,
        unsigned_part(digits) == digits,
{
    assert(is_digit(digits[0]));
    assert(is_digit(digits[digits.len() - 1]));
    let s = digits + seq![' '];
    lemma_trimmed_start(s, 0);
    assert(s.skip(0) =~= s);
    lemma_trimmed_end(s, digits.len() as int);
    assert(s.take(digits.len() as int) =~= digits);
    lemma_trimmed_start(digits, 0);
    assert(digits.skip(0) =~= digits);
    lemma_trimmed_end(digits, digits.len() as int);
    assert(digits.take(digits.len() as int) =~= digits);
}

/// The memory is what the first line on it says, in kilobytes, told in megabytes; without such a line
/// nothing is told.
pub proof fn memory_is_told_in_megabytes(meminfo: Seq<char>, k: int, digits: Seq<char>)
    requires
        0 <= k < lines_of(meminfo).len(),
        begins_with(lines_of(meminfo)[k], "MemTotal:"@),
        forall|j: int| 0 <= j < k ==> !begins_with(#[trigger] lines_of(meminfo)[j], "MemTotal:"@),
        digits.len() > 0,
        all_digits(digits),
        trimmed(lines_of(meminfo)[k].skip(9)) == digits + " kB"@,
    ensures
        number_of(digits) <= u64::MAX ==> memory_of(meminfo) == Some((number_of(digits) / 1024) as u64),
        number_of(digits) > u64::MAX ==> memory_of(meminfo) is None,
{
    reveal_strlit("MemTotal:");
    reveal_strlit(" kB");
    reveal_strlit("kB");
    let all = lines_of(meminfo);
    let p = prefixed_lines(all, "MemTotal:"@);
    assert forall|j: int| 0 <= j < k implies !(#[trigger] p(j)) by {
        assert(!begins_with(all[j], "MemTotal:"@));
    }
    assert(p(k));
    lemma_first_from_is(0, all.len() as int, p, k);
    let s = digits + " kB"@;
    let t = digits + seq![' '];
    assert(s.skip(s.len() - 2) =~= "kB"@);
    assert(s.take(s.len() - 2) =~= t);
    if ends_with(t, "kB"@) {
        assert(t.skip(t.len() - 2)[1] == "kB"@[1]);
        assert(t[t.len() - 1] == ' ');
    }
    assert(without_suffixes(t, "kB"@) == t);
    assert(without_suffixes(s, "kB"@) == t);
    lemma_trimmed_digits(digits);
}

/// Devices are counted one by one: each that fits is one, and no other is any.
pub proof fn devices_are_counted_one_by_one(n: nat, p: spec_fn(int) -> bool)
    ensures
        p(n as int) ==> count_where(n + 1, p) == count_where(n, p) + 1,
        !p(n as int) ==> count_where(n + 1, p) == count_where(n, p),
        count_where(0, p) == 0,
{
}

/// A node of the topology is a GPU where it has more than no units that compute, and a device is an
/// accelerator where it is of the class of those that show nothing on a screen.
pub proof fn accelerators_are_told_by_class(class: Seq<char>, properties: Seq<char>, k: int, digits: Seq<char>)
    requires
        0 <= k < lines_of(properties).len(),
        begins_with(lines_of(properties)[k], "simd_count "@),
        forall|j: int| 0 <= j < k ==> !begins_with(#[trigger] lines_of(properties)[j], "simd_count "@),
        digits.len() > 0,
        all_digits(digits),
        number_of(digits) <= u32::MAX,
        trimmed(lines_of(properties)[k].skip(11)) == digits,
    ensures
        has_simds(properties) <==> number_of(digits) > 0,
        is_accelerator(class) <==> trimmed(class).len() >= 6 && trimmed(class).take(6) == "0x0302"@,
{
    reveal_strlit("simd_count ");
    reveal_strlit("0x0302");
    let all = lines_of(properties);
    let p = prefixed_lines(all, "simd_count "@);
    assert forall|j: int| 0 <= j < k implies !(#[trigger] p(j)) by {
        assert(!begins_with(all[j], "simd_count "@));
    }
    assert(p(k));
    lemma_first_from_is(0, all.len() as int, p, k);
    lemma_trimmed_digits(digits);
}

/// What `sysctl` tells is the cores, and the threads per core where the threads are a multiple of them;
/// where it does not tell the cores, nothing is told.
pub proof fn sysctl_tells_cores_first(physical: Option<&str>, logical: Option<&str>)
    ensures
        ({
            let cores = printed_number(physical, u32::MAX as nat);
            let threads = printed_number(logical, u32::MAX as nat);
            let t = sysctl_topology_of(physical, logical);
            &&& cores is None <==> t is None
            &&& cores is Some ==> (t->0).0 == cores->0
            &&& cores is Some && (t->0).1 is Some ==> threads is Some && cores->0 * (t->0).1->0 == threads->0
                && threads->0 > 0
            &&& cores is Some && threads is None ==> (t->0).1 is None
            &&& cores is Some && threads is Some && cores->0 > 0 && threads->0 > 0 && threads->0 % cores->0 == 0
                ==> (t->0).1 is Some
        }),
{
    if let Some(cores) = printed_number(physical, u32::MAX as nat) {
        if let Some(threads) = printed_number(logical, u32::MAX as nat) {
            if cores > 0 && threads > 0 && threads % cores == 0 {
                vstd::arithmetic::div_mod::lemma_fundamental_div_mod(threads as int, cores as int);
                assert(0 <= threads / cores <= threads) by (nonlinear_arith)
                    requires
                        cores > 0,
                        threads as int == cores as int * (threads as int / cores as int),
                ;
            }
        }
    }
}

/// What a host tells of its cores comes from the report on its processors, and what it tells of its
/// memory from the report on its memory, in megabytes of 1048576 bytes: one that is missing takes
/// nothing away from the other.
pub proof fn reports_tell_of_their_own(
    cpuinfo: &str,
    meminfo: &str,
    other: Option<&str>,
    memsize: Option<&str>,
    bytes: nat,
)
    ensures
        told_topology(Reports::Proc(Some(cpuinfo), other)) == topology(counted(lines_of(cpuinfo@))),
        told_memory(Reports::Proc(other, Some(meminfo))) == memory_of(meminfo@),
        told_topology(Reports::Proc(None, other)) is None,
        told_memory(Reports::Proc(other, None)) is None,
        told_topology(Reports::Sysctl(Some(cpuinfo), other, memsize)) == sysctl_topology_of(Some(cpuinfo), other),
        told_memory(Reports::Sysctl(other, Some(cpuinfo), memsize)) == told_memory(Reports::Sysctl(None, None, memsize)),
        printed_number(memsize, u64::MAX as nat) == Some(bytes) && bytes <= u64::MAX ==> is_megabytes_of(
            told_memory(Reports::Sysctl(other, other, memsize)),
            bytes,
        ),
        told_topology(Reports::Silent) is None && told_memory(Reports::Silent) is None,
{
}

/// Whether a number of megabytes is what a number of bytes fills.
pub open spec fn is_megabytes_of(told: Option<u64>, bytes: nat) -> bool {
    told is Some && told->0 * 1048576 <= bytes < (told->0 + 1) * 1048576
}

} // verus!
