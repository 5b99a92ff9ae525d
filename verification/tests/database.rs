//! The machine database: its layers and generations, discovery, hardware, and how it is kept current.

use cactup::mdb::autodetect::{
    cpu_topology, detect, gpus_amd, gpus_nvidia, gpus_pci, gpus_under, memory_mb, sysctl_memory_mb, sysctl_topology,
    DetectedHardware, Reports,
};
use cactup::mdb::discover::{
    is_machine, load_regexp, probe_all, regexp_claims, regexp_verdict, resolve_hostname, short_name, AskError,
    BatchError, PatternFile, ProbeError, ProbeRun, RegexpError, PROBE,
};
use cactup::mdb::sync::{
    check_revision, commit_generation, copy_date, env_proxy, export_tree, fetch_again, find_generation, fresh_link,
    generation_notice, git_config_proxy, is_safe_path, is_stale_lock, keep_stamp, link_path, newer_generation_notice,
    preflight, probe_step, probe_target, prune, read_stamp, resolve_link, short, stamp_path, swap_link, sync_at,
    sync_locked, system_root, walk_step, write_stamp, EntryKind, Export, FetchEvent, FetchOutcome, FetchStep, FetchWait, Mode, ProbeEvent, PruneEntry, Scheme,
    SyncAction, SyncError, SyncStamp, SyncStep, UrlParts, Walk, PREFLIGHT_TIMEOUT_SECS, SYNC_INTERVAL_SECS,
};
use cactup::mdb::{
    check_overlay_generation, parse_generation, pending_scripts, read_generation, Candidate, GenerationError, Layer,
    Mdb, OverlayGenerationError,
};
use cactup::table::Table;

fn own(list: &[&str]) -> Vec<String> {
    list.iter().map(|s| s.to_string()).collect()
}

/// A `cpu` is a core: it is counted by distinct pairs of socket and core, and the thread count only
/// supplies the factor. Two sockets of two cores with two threads each.
#[test]
fn cpuinfo_is_counted_in_cores_not_threads() {
    let mut cpuinfo = String::new();
    for cpu in 0..8 {
        cpuinfo.push_str(&format!(
            "processor\t: {cpu}\nmodel name\t: Intel(R) Xeon(R) Platinum 8352V CPU @ 2.10GHz\n\
             physical id\t: {}\ncore id\t\t: {}\nsiblings\t: 4\ncpu cores\t: 2\n\n",
            cpu / 4,
            (cpu / 2) % 2,
        ));
    }
    assert_eq!(cpu_topology(&cpuinfo), Some((4, Some(2))));

    // One thread to a core: the factor is one rather than absent.
    let single = "processor\t: 0\nphysical id\t: 0\ncore id\t\t: 0\n\n\
                  processor\t: 1\nphysical id\t: 0\ncore id\t\t: 1\n";
    assert_eq!(cpu_topology(single), Some((2, Some(1))));

    // No topology: one core per thread, and nothing claimed about the factor.
    let bare = "processor\t: 0\nBogoMIPS\t: 50.00\n\nprocessor\t: 1\nBogoMIPS\t: 50.00\n";
    assert_eq!(cpu_topology(bare), Some((2, None)));

    // Something else altogether.
    assert_eq!(cpu_topology("MemTotal: 12 kB\n"), None);
}

#[test]
fn detects_plausible_values() {
    let cpuinfo = "processor\t: 0\nphysical id\t: 0\ncore id\t\t: 0\n\n\
                   processor\t: 1\nphysical id\t: 0\ncore id\t\t: 0\n";
    let meminfo = "MemTotal:       16303428 kB\nMemFree:          431060 kB\n";
    let hw = detect(Reports::Proc(Some(cpuinfo), Some(meminfo)), 4, None);
    assert!(hw.cores >= 1);
    if let Some(smt) = hw.threads_per_cpu {
        assert!(smt >= 1, "implausible factor: {smt}");
    }
    let mem = hw.memory_mb.expect("memory detection should work");
    assert!(mem > 256, "implausible memory: {mem} MB");
    assert_eq!((hw.cores, hw.threads_per_cpu, mem, hw.gpus), (1, Some(2), 15921, None));
    // Without a list of processors, what the system says it can run at once.
    let hw = detect(Reports::Proc(None, None), 4, Some(2));
    assert_eq!((hw.cores, hw.threads_per_cpu, hw.memory_mb, hw.gpus), (4, None, None, Some(2)));
}

#[test]
fn sysctl_tells_of_cores_and_memory() {
    assert_eq!(sysctl_topology(Some("8\n"), Some("16\n")), Some((8, Some(2))));
    // Threads that do not spread evenly, or are not told of, say nothing of the factor.
    assert_eq!(sysctl_topology(Some("6\n"), Some("16\n")), Some((6, None)));
    assert_eq!(sysctl_topology(Some("6\n"), Some("many\n")), Some((6, None)));
    assert_eq!(sysctl_topology(Some("6\n"), None), Some((6, None)));
    assert_eq!(sysctl_topology(Some("0\n"), Some("16\n")), Some((0, None)));
    assert_eq!(sysctl_topology(Some("6\n"), Some("0\n")), Some((6, None)));
    assert_eq!(sysctl_topology(Some("unknown oid\n"), Some("16\n")), None);
    assert_eq!(sysctl_topology(None, Some("16\n")), None);
    assert_eq!(sysctl_memory_mb(Some("17179869184\n")), Some(16384));
    assert_eq!(sysctl_memory_mb(Some("\n")), None);
    assert_eq!(sysctl_memory_mb(None), None);
    let hw = detect(Reports::Sysctl(Some("8\n"), Some("8\n"), Some("1048576\n")), 4, None);
    assert_eq!((hw.cores, hw.threads_per_cpu, hw.memory_mb, hw.gpus), (8, Some(1), Some(1), None));
    let hw = detect(Reports::Sysctl(Some("0\n"), None, None), 4, None);
    assert_eq!((hw.cores, hw.threads_per_cpu, hw.memory_mb), (1, None, None));
    let hw = detect(Reports::Silent, 4, None);
    assert_eq!((hw.cores, hw.threads_per_cpu, hw.memory_mb), (4, None, None));
}

#[test]
fn gpu_probes_read_the_kernel_trees() {
    // Nothing there at all: absent, not zero.
    assert_eq!(gpus_under(gpus_nvidia(&vec![]), gpus_amd(&vec![]), gpus_pci(&vec![])), None);

    // One directory per card.
    let nvidia = gpus_nvidia(&vec![true, true]);
    assert_eq!(gpus_under(nvidia, 0, 0), Some(2));
    assert_eq!(gpus_nvidia(&vec![true, false]), 1);

    // Agents without compute units are processors, and do not count.
    let agents: Vec<Option<String>> =
        [0, 256, 256, 256].iter().map(|simd| Some(format!("cpu_cores_count 8\nsimd_count {simd}\n"))).collect();
    let amd = gpus_amd(&agents);
    assert_eq!(gpus_under(nvidia, amd, 0), Some(3));

    // Controllers count, the display adapter does not.
    let classes = ["0x030000", "0x030200", "0x030200", "0x030200", "0x030200", "0x060100"];
    let pci = gpus_pci(&classes.iter().map(|class| Some(format!("{class}\n"))).collect());
    assert_eq!(pci, 4, "display adapters and other devices excluded");
    assert_eq!(gpus_under(nvidia, amd, pci), Some(4));
    // What cannot be read does not count.
    assert_eq!((gpus_amd(&vec![None]), gpus_pci(&vec![None])), (0, 0));
}

#[test]
fn memory_is_counted_in_megabytes() {
    assert_eq!(memory_mb("MemTotal:       16303428 kB\n"), Some(15921));
    assert_eq!(memory_mb("MemFree: 1 kB\n"), None);
    assert_eq!(memory_mb("MemTotal: lots kB\n"), None);
}

#[test]
fn regexp_claims_fqdn_and_short_name() {
    let file = PatternFile::Text("^ln[1-4]$\n".to_owned());
    let verdict = |host: &str| regexp_verdict("m/hostname.regexp", &file, host).claims;
    assert_eq!(verdict("ln1"), Some(true));
    assert_eq!(verdict("ln3.cosma.dur.ac.uk"), Some(true));
    assert_eq!(verdict("ln5"), Some(false));
    assert_eq!(verdict("xln1"), Some(false));
    assert_eq!(regexp_verdict("m/hostname.regexp", &PatternFile::Absent, "ln1").claims, None);
    let re = load_regexp("m/hostname.regexp", " ^ln[1-4]$ \n").unwrap();
    assert!(regexp_claims(&re, "ln2.cosma.dur.ac.uk") && !regexp_claims(&re, "cosma"));
}

#[test]
fn invalid_or_empty_regexp_is_a_nonmatch() {
    let verdict = |text: &str| regexp_verdict("m/hostname.regexp", &PatternFile::Text(text.to_owned()), "ln1");
    let broken = verdict("^ln[1-4\n");
    assert_eq!(broken.claims, Some(false));
    assert!(matches!(broken.warning, Some(RegexpError::Invalid(path, _)) if path == "m/hostname.regexp"));
    let empty = verdict("  \n");
    assert_eq!(empty.claims, Some(false));
    assert!(matches!(empty.warning, Some(RegexpError::Empty(_))));
    let unreadable = regexp_verdict("m/hostname.regexp", &PatternFile::Unreadable("denied".to_owned()), "ln1");
    assert_eq!(unreadable.claims, Some(false));
    assert!(matches!(unreadable.warning, Some(RegexpError::Unreadable(_))));
    assert!(verdict("^ln1$").warning.is_none());
}

/// What running the scripts gave.
fn answered(stdout: &str) -> ProbeRun {
    ProbeRun {
        interrupted: false,
        success: true,
        status: "exit status: 0".to_owned(),
        stdout: stdout.to_owned(),
        stderr: String::new(),
    }
}

#[test]
fn single_script_matches_fqdn_and_short_name_only() {
    let ask = |host: &str, answer: &str| is_machine("discover.py", host, &answered(answer)).unwrap();
    assert!(ask("melete05.cct.lsu.edu", "0 1\n"));
    assert!(ask("melete05", "0 1\n"));
    assert!(!ask("mike.hpc.lsu.edu", "0 0\n"));
    assert!(PROBE.contains("is_machine"));
}

#[test]
fn batch_isolates_raising_printing_and_exiting_scripts() {
    let scripts = own(&["yes.py", "boom.py", "noisy.py", "exits.py", "nofn.py", "silent.py"]);
    let stdout = "0 1\n1 ERuntimeError: boom\n2 0\n3 ESystemExit: 3\n4 EKeyError: 'is_machine'\n";
    let results = probe_all(&scripts, "host", &answered(stdout)).unwrap();
    assert_eq!(results.len(), 6);
    assert!(results[0].as_ref().unwrap());
    let err = results[1].as_ref().unwrap_err().message();
    assert!(err.contains("boom"), "{err}");
    assert!(!results[2].as_ref().unwrap());
    assert!(results[3].as_ref().unwrap_err().message().contains("SystemExit"));
    assert!(results[4].as_ref().unwrap_err().message().contains("KeyError"));
    assert!(matches!(&results[5], Err(ProbeError::Silent(path)) if path == "silent.py"));
}

#[test]
fn empty_batch_spawns_nothing() {
    assert!(probe_all(&vec![], "host", &answered("")).unwrap().is_empty());
}

#[test]
fn a_batch_that_breaks_off_answers_nothing() {
    let mut run = answered("0 1\n");
    run.interrupted = true;
    assert!(matches!(probe_all(&own(&["a.py"]), "host", &run), Err(BatchError::Interrupted)));
    let mut run = answered("");
    run.success = false;
    run.status = "exit status: 1".to_owned();
    run.stderr = "no python\n".to_owned();
    let err = is_machine("a.py", "host", &run).err().unwrap();
    assert!(matches!(&err, AskError::Batch(BatchError::Failed(_, _))));
    assert!(err.message().contains("exit status: 1"), "{}", err.message());
}

#[test]
fn hostname_override_wins() {
    assert_eq!(resolve_hostname(Some("forced.example"), None, "system"), "forced.example");
    assert!(!resolve_hostname(None, None, "system").is_empty());
    assert_eq!(short_name("a.b.c"), "a");
    assert_eq!(short_name("bare"), "bare");
}

#[test]
fn user_layer_shadows_system_layer() {
    let machines = Mdb::machines(&own(&["box", "solo"]), &own(&["box"]), true);
    // The generic machine is always there, even though neither layer has it.
    let names: Vec<&str> = machines.iter().map(|(name, _)| name.as_str()).collect();
    assert_eq!(names, ["box", "generic", "solo"]);
    let layers: Vec<Layer> = machines.iter().map(|(_, layer)| *layer).collect();
    assert_eq!(layers, [Layer::User, Layer::System, Layer::System]);

    let mdb = Mdb::with_roots("/sys".to_owned(), "/user".to_owned());
    assert_eq!(mdb.machine_dir("box", true, true, None), Some(("/user/box".to_owned(), Layer::User)));
    assert_eq!(mdb.machine_dir("solo", false, true, None), Some(("/sys/solo".to_owned(), Layer::System)));
    assert_eq!(mdb.machine_dir("ghost", false, false, None), None);
}

fn candidate(name: &str, regexp: Option<bool>, script: Option<&str>) -> Candidate {
    Candidate { name: name.to_owned(), regexp, script: script.map(str::to_owned) }
}

/// A pattern that claims the host settles it; one that does not hands over to the script.
#[test]
fn regexp_short_circuits_discover_py() {
    let file = PatternFile::Text("^fast\\.example$\n".to_owned());
    let look = |host: &str| {
        let claims = regexp_verdict("box/hostname.regexp", &file, host).claims;
        vec![candidate("box", claims, Some("box/discover.py"))]
    };
    let all = look("fast.example");
    assert!(pending_scripts(&all).is_empty(), "the pattern matched, the script must not run");
    assert_eq!(Mdb::discover(&all, &vec![]), ["box"]);
    let all = look("slow.example");
    assert_eq!(pending_scripts(&all), ["box/discover.py"]);
    assert_eq!(Mdb::discover(&all, &vec![Ok(true)]), ["box"]);
    assert!(Mdb::discover(&look("neither.example"), &vec![Ok(false)]).is_empty());
    assert!(Mdb::discover(&look("neither.example"), &vec![Err(ProbeError::Silent("box".to_owned()))]).is_empty());
}

#[test]
fn verification_asks_the_pattern_and_then_the_script() {
    assert!(Mdb::verify(true, Some(true), None));
    assert!(Mdb::verify(true, Some(false), Some(Some(true))));
    assert!(!Mdb::verify(true, Some(false), Some(None)));
    assert!(!Mdb::verify(true, None, None));
    assert!(!Mdb::verify(false, Some(true), Some(Some(true))));
}

#[test]
fn user_overlays_are_gated_on_their_generation() {
    let want = 3;
    let generation = |n: u32| format!("[cactup]\nmdb-generation = {n}\n");
    let mdb = Mdb::with_roots("/sys".to_owned(), "/user".to_owned());
    let site = "https://example.org/docs";
    let guide = mdb.generations_guide(false, site);
    let check = |name: &str, text: &str| {
        check_overlay_generation(name, &format!("/user/{name}/meta.toml"), text, &guide, want)
    };
    assert!(check("current", &generation(want)).is_ok());
    assert!(check("unmarked", "").is_ok());

    // Older, and with a key that is no longer known: the generation is what gets reported.
    let e: OverlayGenerationError =
        check("older", "[cactup]\nmdb-generation = 0\nretired-key = 1\n").err().unwrap();
    assert_eq!((e.found, e.want), (0, want));
    assert_eq!(e.path, "/user/older/meta.toml");
    let text = e.message();
    assert!(text.contains("authors/mdb-generations.html"), "{text}");
    assert!(text.contains(&format!("mdb-generation = {want}")), "{text}");
    assert!(e.brief().contains("machine show older"));

    let e = check("newer", &generation(want + 1)).err().unwrap();
    assert_eq!(e.found, want + 1);
    assert!(e.message().contains("cactup update"), "{}", e.message());
    assert!(e.brief().contains("cactup update"));

    // A database that describes its generations is pointed at.
    let guide = mdb.generations_guide(true, site);
    let e = check_overlay_generation("older", "p", "[cactup]\nmdb-generation = 0\n", &guide, want).err().unwrap();
    assert_eq!(e.guide, "/sys/GENERATIONS.md");
}

#[test]
fn a_generation_file_is_one_positive_integer() {
    assert_eq!(parse_generation("1\n"), Some(1));
    assert_eq!(parse_generation(" 12 "), Some(12));
    for bad in ["", "0", "-1", "one", "1 2"] {
        assert_eq!(parse_generation(bad), None, "{bad:?}");
    }
    assert_eq!(read_generation("/sys/GENERATION", Some("3\n")).unwrap(), Some(3));
    assert_eq!(read_generation("/sys/GENERATION", None).unwrap(), None);
}

#[test]
fn an_mdb_path_override_must_match_the_generation() {
    let want = 3;
    let open = |text: Option<&str>| {
        let found = read_generation("/forced/GENERATION", text)?;
        Mdb::open(Some("/forced"), found, want, "/handed/out", "/home/me/.cactup")
    };
    // No file: accepted silently.
    let mdb = open(None).unwrap();
    assert_eq!((mdb.system_root.as_str(), mdb.user_root.as_str()), ("/forced", "/home/me/.cactup/machines"));
    open(Some("3\n")).unwrap();
    for (other, hint) in [(want + 1, true), (want - 1, false)] {
        let err = open(Some(&format!("{other}\n"))).err().unwrap().message();
        assert!(err.contains(&format!("generation {other}")), "{err}");
        assert_eq!(err.contains("cactup update"), hint, "{err}");
    }
    let garbage = open(Some("garbage")).err().unwrap();
    assert!(matches!(&garbage, GenerationError::NotOne(path, _) if path == "/forced/GENERATION"));
    assert!(garbage.message().contains("\"garbage\""), "{}", garbage.message());
    assert_eq!(Mdb::open(None, None, want, "/handed/out", "/c").unwrap().system_root, "/handed/out");
}

#[test]
fn missing_hardware_is_filled_in() {
    let found = DetectedHardware { cores: 8, threads_per_cpu: Some(2), memory_mb: Some(32000), gpus: Some(1) };
    let hw = cactup::mdb::meta::Hardware {
        autodetect: true,
        max_cpus_per_node: Some(4),
        default_cpus_per_task: None,
        max_gpus_per_node: None,
        default_gpus_per_task: None,
        threads_per_cpu: None,
        memory: None,
    };
    let full = cactup::mdb::complete(&hw, &found);
    assert_eq!((full.max_cpus_per_node, full.memory, full.max_gpus_per_node), (Some(4), Some(32000), Some(1)));
}

#[test]
fn find_generation_walks_back_to_the_newest_commit_of_a_generation() {
    // From the tip back.
    let history = vec![2, 2, 1, 1];
    assert_eq!(find_generation(&history, 1), Some(2));
    assert_eq!(find_generation(&history, 2), Some(0));
    assert_eq!(find_generation(&history, 3), None);

    // History from before generations existed ends the walk.
    let history = vec![2, commit_generation(None)];
    assert_eq!(find_generation(&history, 1), None);
    assert_eq!((commit_generation(Some("2\n")), commit_generation(Some("two"))), (2, 0));
    assert_eq!(walk_step(3, 2), Walk::Continue);
    assert_eq!(walk_step(2, 2), Walk::Found);
    assert_eq!(walk_step(1, 2), Walk::Stop);
}

const FIRST: &str = "1111111111111111111111111111111111111111";
const SECOND: &str = "2222222222222222222222222222222222222222";

#[test]
fn install_exports_the_tree_and_links_it() {
    assert_eq!(link_path("/mdb", 1), "/mdb/gen-1");
    assert_eq!(stamp_path("/mdb", 1), "/mdb/.synced-1");
    // The first tree: nothing to retire.
    let swap = swap_link(FIRST, None).unwrap();
    assert_eq!((swap.unretired, swap.retired), (format!("{FIRST}.retired"), None));
    assert_eq!(resolve_link("/mdb", Some(FIRST), true), Some(format!("/mdb/{FIRST}")));
    assert_eq!(resolve_link("/mdb", Some(FIRST), false), None);
    assert_eq!(resolve_link("/mdb", None, true), None);
    assert_eq!(export_tree("generic/meta.toml", EntryKind::Blob), Ok(Export::WriteFile(false)));
    assert_eq!(export_tree("generic/bin/probe", EntryKind::BlobExecutable), Ok(Export::WriteFile(true)));
    assert_eq!(export_tree("generic/alias", EntryKind::Link), Ok(Export::MakeLink));
    assert_eq!(export_tree("generic", EntryKind::Tree), Ok(Export::MakeDir));

    // Installing it again changes nothing.
    assert!(swap_link(FIRST, Some(FIRST)).is_none());

    // However the path to it is written.
    for target in [format!("{FIRST}/"), format!("{FIRST}//"), format!("{FIRST}/."), format!("{FIRST}/./")] {
        assert!(swap_link(FIRST, Some(&target)).is_none(), "{target}");
    }
    // A path that begins with a dot, or elsewhere, is another one.
    for target in [format!("./{FIRST}"), format!("/{FIRST}"), format!("x/{FIRST}"), format!("x/../{FIRST}")] {
        let swap = swap_link(FIRST, Some(&target)).unwrap();
        assert_eq!(swap.retired, Some(format!("{FIRST}.retired")), "{target}");
    }
    for target in ["", "/", ".", "./", "..", "x/.."] {
        assert_eq!(swap_link(FIRST, Some(target)).unwrap().retired, None, "{target}");
    }

    // Moving on retires the old tree.
    let swap = swap_link(SECOND, Some(FIRST)).unwrap();
    assert_eq!(swap.retired, Some(format!("{FIRST}.retired")));

    // Swapping back un-retires it.
    let swap = swap_link(FIRST, Some(SECOND)).unwrap();
    assert_eq!((swap.unretired, swap.retired), (format!("{FIRST}.retired"), Some(format!("{SECOND}.retired"))));
}

#[test]
fn paths_out_of_the_tree_are_refused() {
    for path in ["/etc/passwd", "../up", "a/../b", "./a", "a/.."] {
        assert!(!is_safe_path(path), "{path}");
        let err = export_tree(path, EntryKind::Blob).unwrap_err();
        assert_eq!(err, format!("unsafe path {path} in the MDB"));
    }
    assert!(is_safe_path("a/b.c") && is_safe_path("a/./b") && is_safe_path("..a/b.."));
    assert_eq!(export_tree("sub", EntryKind::Commit).unwrap_err(), "the MDB may not contain submodules");
}

#[test]
fn a_generation_mismatch_leaves_nothing_behind() {
    let err = check_revision(2, 1, SECOND).unwrap_err();
    assert!(err.contains("publishing error"), "{err}");
    assert_eq!(err, "publishing error: MDB commit 2222222 says it is generation 2, not 1");
    assert!(check_revision(1, 1, FIRST).is_ok());
}

fn entry(name: &str, days: u64, target: Option<&str>) -> PruneEntry {
    let age = Some(u128::from(days) * 24 * 3600 * 1_000_000_000);
    PruneEntry { name: name.to_owned(), age, target: target.map(str::to_owned) }
}

#[test]
fn prune_removes_old_retired_trees_and_temp_leftovers() {
    let retired = |name: &str| format!("{name}.retired");
    let listing = |days: u64| {
        vec![
            entry("gen-1", 9, Some(SECOND)),
            entry(FIRST, 9, None),
            entry(SECOND, 9, None),
            entry(&retired(FIRST), days, None),
            entry("abandoned.tmp-x", days, None),
        ]
    };
    // Fresh marks: nothing goes yet.
    assert!(prune(&listing(0)).is_empty());
    // Marks past their grace.
    assert_eq!(prune(&listing(2)), [FIRST.to_owned(), retired(FIRST), "abandoned.tmp-x".to_owned()]);
    // A retired tree that a link points at again is kept, and its mark goes.
    let again = vec![entry("gen-1", 9, Some(SECOND)), entry(SECOND, 9, None), entry(&retired(SECOND), 2, None)];
    assert_eq!(prune(&again), [retired(SECOND)]);
    let spelled = format!("{SECOND}/");
    let again = vec![entry("gen-1", 9, Some(&spelled)), entry(SECOND, 9, None), entry(&retired(SECOND), 2, None)];
    assert_eq!(prune(&again), [retired(SECOND)]);
    // An age that is not known is no great age.
    let unknown = PruneEntry { name: retired(FIRST), age: None, target: None };
    assert!(prune(&vec![unknown]).is_empty());
}

#[test]
fn the_notice_reads_the_stamp() {
    assert_eq!(generation_notice(&None, 1), None);
    assert_eq!(newer_generation_notice(None, 1), None);
    let stamp = |tip_generation| SyncStamp { tip_generation, tip: "t".into(), commit: "c".into() };
    let kept = write_stamp(&stamp(1));
    assert_eq!(newer_generation_notice(Some(&kept), 1), None);
    let kept = write_stamp(&stamp(3));
    let notice = newer_generation_notice(Some(&kept), 1).unwrap();
    assert!(notice.contains("moved to generation 3"), "{notice}");
    assert!(notice.contains("this cactup (generation 1)"), "{notice}");
    assert!(notice.contains("cactup update"), "{notice}");
    assert_eq!(newer_generation_notice(Some("not a record"), 1), None);
}

/// A record reads back as what was written.
#[test]
fn stamps_read_back() {
    let stamp = SyncStamp { tip_generation: 7, tip: FIRST.to_owned(), commit: SECOND.to_owned() };
    let text = write_stamp(&stamp);
    assert_eq!(text, format!("tip_generation = 7\ntip = \"{FIRST}\"\ncommit = \"{SECOND}\"\n"));
    let back = read_stamp(&text).unwrap();
    assert_eq!((back.tip_generation, back.tip.as_str(), back.commit.as_str()), (7, FIRST, SECOND));
    assert!(read_stamp("tip_generation = -1\ntip = \"a\"\ncommit = \"b\"\n").is_none());
    assert!(read_stamp("tip_generation = 1\ntip = \"a\"\n").is_none());
}

#[test]
fn the_lock_sweep_removes_lock_files_only() {
    let stale =
        ["HEAD.lock", "config.lock", "packed-refs.lock", "refs/mdb/head.lock", "objects/pack/pack-1.keep.lock"];
    let kept = ["HEAD", "config", "refs/mdb/head", "objects/pack/pack-1.pack", "objects/ab.lock"];
    for name in stale {
        assert!(is_stale_lock(name), "{name} survived");
    }
    for name in kept {
        assert!(!is_stale_lock(name), "{name} was removed");
    }
    assert!(!is_stale_lock(".lock"));
}

#[test]
fn a_git_config_proxy_skips_the_preflight() {
    let none: Table<String> = Table::new();
    let url = "https://127.0.0.1:1/cactup.git";
    assert_eq!(preflight(url, &none, git_config_proxy(&vec![])), Some(("127.0.0.1".to_owned(), 1)));
    let values = own(&["http://proxy.invalid:3128"]);
    assert!(git_config_proxy(&values) && !git_config_proxy(&own(&[" "])));
    assert_eq!(preflight(url, &none, git_config_proxy(&values)), None);
}

#[test]
fn only_hosts_that_are_reached_directly_are_probed() {
    let none: Table<String> = Table::new();
    assert_eq!(
        preflight("https://example.org/cactup.git", &none, false),
        Some(("example.org".to_owned(), 443))
    );
    assert_eq!(preflight("http://example.org/cactup.git", &none, false), Some(("example.org".to_owned(), 80)));
    assert_eq!(preflight("/srv/published.git", &none, false), None);
    assert_eq!(preflight("ssh://git@example.org/cactup.git", &none, false), None);
    for (name, value, proxied) in [("https_proxy", "p", true), ("ALL_PROXY", "p", true), ("HTTP_PROXY", "", false)] {
        let mut env: Table<String> = Table::new();
        env.insert(name.to_owned(), value.to_owned());
        assert_eq!(env_proxy(&env), proxied, "{name}");
        assert_eq!(preflight("https://example.org/x", &env, false).is_none(), proxied, "{name}");
    }
    let parts = |scheme: Scheme, host: Option<&str>, port| Some(UrlParts { scheme, host: host.map(str::to_owned), port });
    assert_eq!(probe_target(&parts(Scheme::Https, Some("h"), None), false), Some(("h".to_owned(), 443)));
    assert_eq!(probe_target(&parts(Scheme::Http, Some("h"), Some(80)), false), Some(("h".to_owned(), 80)));
    assert_eq!(probe_target(&parts(Scheme::Http, None, Some(80)), false), None);
    assert_eq!(probe_target(&parts(Scheme::Https, Some("h"), None), true), None);
    let others = [
        Scheme::File,
        Scheme::Git,
        Scheme::Ssh,
        Scheme::Ext,
        Scheme::Helper("x".to_owned()),
        Scheme::HelperUrl("x".to_owned()),
    ];
    for scheme in others {
        assert_eq!(probe_target(&parts(scheme, Some("h"), Some(22)), false), None);
    }
    assert_eq!(probe_target(&None, false), None);
}

#[test]
fn a_probe_ends_in_time() {
    let step = |event: ProbeEvent| probe_step(&event, "h", 443);
    assert_eq!(step(ProbeEvent::Connected), Some(Ok(())));
    assert_eq!(step(ProbeEvent::Refused("no".to_owned())), Some(Err("no".to_owned())));
    assert_eq!(step(ProbeEvent::Gone), Some(Err("the connection check for h:443 failed".to_owned())));
    assert_eq!(step(ProbeEvent::Waiting(true, 0)), Some(Err("interrupted".to_owned())));
    assert_eq!(step(ProbeEvent::Waiting(false, PREFLIGHT_TIMEOUT_SECS * 1000 - 1)), None);
    assert_eq!(
        step(ProbeEvent::Waiting(false, PREFLIGHT_TIMEOUT_SECS * 1000)),
        Some(Err("no connection to h:443 within 5s".to_owned()))
    );
}

const BOGUS: &str = "/nonexistent/cactup-test/published.git";

#[test]
fn an_older_binary_syncs_the_last_commit_of_its_generation() {
    // The branch has moved on to generation 2; what reads generation 1 keeps its last revision.
    let found = find_generation(&vec![2, 2, 1, 1], 1).map(|k| [FIRST, SECOND, "3333", "4444"][k].to_owned());
    let outcome = FetchOutcome::Fetched(FIRST.to_owned(), 2, found);
    let step = sync_locked("/mdb", "url", 1, None, "", &outcome).unwrap();
    let SyncStep::Install(commit, stamp) = step else { panic!("nothing was put in place") };
    assert_eq!(commit, "3333");
    assert_eq!((stamp.tip_generation, stamp.tip.as_str(), stamp.commit.as_str()), (2, FIRST, "3333"));
    assert!(generation_notice(&Some(stamp), 1).unwrap().contains("generation 2"));

    // A generation that nobody published is a hard error without a copy.
    let outcome = FetchOutcome::Fetched(FIRST.to_owned(), 2, None);
    let err = sync_locked("/mdb", "url", 5, None, "", &outcome).unwrap_err().message();
    assert!(err.contains("never published MDB generation 5"), "{err}");
    assert!(err.ends_with("A release may still be propagating; retry later."), "{err}");
    let err = sync_locked("/mdb", "url", 1, None, "", &outcome).unwrap_err();
    assert!(matches!(&err, SyncError::NeverPublished(_, 1, 2)));
    assert!(err.message().ends_with("Run `cactup update` to get a cactup that reads the newer generation."));
    // With one, it is kept, and the tip is learned.
    let step = sync_locked("/mdb", "url", 1, Some("/mdb/c"), "2024-06-01", &outcome).unwrap();
    let SyncStep::Keep(dir, tip, warning) = step else { panic!("something was put in place") };
    assert_eq!((dir.as_str(), tip), ("/mdb/c", Some((2, FIRST.to_owned()))));
    assert_eq!(warning, "url no longer carries MDB generation 1; using the copy from 2024-06-01");
}

#[test]
fn a_fresh_stamp_skips_the_fetch_and_a_failed_one_keeps_the_copy() {
    // Within the interval the place is never asked.
    let interval = u128::from(SYNC_INTERVAL_SECS) * 1_000_000_000;
    assert_eq!(fresh_link(Mode::Throttled, Some("/mdb/c"), Some(interval - 1)), Some("/mdb/c".to_owned()));
    assert_eq!(fresh_link(Mode::Throttled, Some("/mdb/c"), Some(interval)), None);
    assert_eq!(fresh_link(Mode::Throttled, None, Some(0)), None);
    assert_eq!(fresh_link(Mode::Throttled, Some("/mdb/c"), None), None);
    assert_eq!(fresh_link(Mode::Force, Some("/mdb/c"), Some(0)), None);

    // Forced, a place that cannot be reached keeps the copy and what the record knew.
    let outcome = FetchOutcome::Failed("failed to connect\nbecause".to_owned());
    let step = sync_locked("/mdb", BOGUS, 1, Some("/mdb/c"), "2024-06-01", &outcome).unwrap();
    let SyncStep::Keep(dir, tip, warning) = step else { panic!("something was put in place") };
    assert_eq!((dir.as_str(), &tip), ("/mdb/c", &None));
    assert_eq!(warning, format!("could not reach {BOGUS} (failed to connect); using the copy from 2024-06-01"));
    let known = SyncStamp { tip_generation: 4, tip: "t".to_owned(), commit: "old".to_owned() };
    let kept = keep_stamp(&Some(known), &None, 1, "c", &tip);
    assert_eq!((kept.tip_generation, kept.tip.as_str(), kept.commit.as_str()), (4, "t", "c"));
    // Without a record, what the cache knows, or the copy itself.
    let kept = keep_stamp(&None, &Some((2, "tip".to_owned())), 1, "c", &None);
    assert_eq!((kept.tip_generation, kept.tip.as_str(), kept.commit.as_str()), (2, "tip", "c"));
    let kept = keep_stamp(&None, &None, 1, "c", &None);
    assert_eq!((kept.tip_generation, kept.tip.as_str(), kept.commit.as_str()), (1, "c", "c"));
    let kept = keep_stamp(&None, &None, 1, "c", &Some((3, "new".to_owned())));
    assert_eq!((kept.tip_generation, kept.tip.as_str(), kept.commit.as_str()), (3, "new", "c"));
}

#[test]
fn no_copy_and_no_remote_is_a_hard_error() {
    let outcome = FetchOutcome::Failed("failed to connect".to_owned());
    let err = sync_locked("/mdb", BOGUS, 1, None, "", &outcome).unwrap_err().message();
    assert!(err.contains("cactup update"), "{err}");
    assert!(err.contains("--mdb-path"), "{err}");
    assert!(err.starts_with(&format!("could not fetch the machine database from {BOGUS}: failed to connect\n")));
    let outcome = FetchOutcome::Interrupted("interrupted".to_owned());
    let err = sync_locked("/mdb", BOGUS, 1, Some("/mdb/c"), "", &outcome).unwrap_err().message();
    assert_eq!(err, "interrupted");
}

#[test]
fn a_stale_gix_lock_does_not_wedge_the_cache() {
    let stale = ["refs/mdb/head.lock", "packed-refs.lock", "HEAD.lock", "objects/pack/x.lock"];
    for name in stale {
        assert!(is_stale_lock(name), "{name} survived");
    }
    assert!(!is_stale_lock("marker"), "the cache is not rebuilt");
    // One that cannot be removed stops the fetch, which is tried once more in a new cache.
    assert!(fetch_again(true, false, true));
    assert!(!fetch_again(true, true, true) && !fetch_again(true, false, false) && !fetch_again(false, false, true));
}

#[test]
fn another_process_is_waited_for_only_without_a_copy() {
    let used = |action: SyncAction| match action {
        SyncAction::Use(dir) => dir,
        SyncAction::Wait => "wait".to_owned(),
        SyncAction::Sync => "sync".to_owned(),
    };
    assert_eq!(used(sync_at(false, false, Some("/c"), None)), "/c");
    assert_eq!(used(sync_at(false, false, None, None)), "wait");
    assert_eq!(used(sync_at(true, true, Some("/c"), None)), "/c");
    assert_eq!(used(sync_at(true, true, None, None)), "sync");
    assert_eq!(used(sync_at(true, false, Some("/c"), None)), "sync");
    assert_eq!(used(sync_at(true, false, Some("/c"), Some("/c"))), "/c");
    assert_eq!(used(system_root(Mode::Throttled, Some("/before"), None)), "/before");
    assert_eq!(used(system_root(Mode::Force, Some("/before"), None)), "sync");
    assert_eq!(used(system_root(Mode::Throttled, None, Some("/c"))), "/c");
}

#[test]
fn copies_are_called_by_their_day() {
    assert_eq!(copy_date(Some(1_717_200_000), FIRST), "2024-06-01");
    assert_eq!(copy_date(None, FIRST), "1111111");
    assert_eq!(copy_date(Some(i64::MAX), "ab"), "ab");
    assert_eq!(short(SECOND), "2222222");
}

/// A fetch that the user breaks off gets two seconds to clear up, and has failed however it ends.
#[test]
fn a_broken_off_fetch_winds_down() {
    let mut wait = FetchWait::new();
    assert!(matches!(wait.step(FetchEvent::Waiting(false, 100)), FetchStep::Wait));
    assert!(matches!(wait.step(FetchEvent::Reported), FetchStep::Take));
    let FetchStep::Fail(m) = wait.step(FetchEvent::Gone) else { panic!("no failure") };
    assert_eq!(m, "the machine database fetch stopped unexpectedly");
    assert!(matches!(wait.step(FetchEvent::Waiting(true, 1000)), FetchStep::Wait));
    assert!(matches!(wait.step(FetchEvent::Waiting(true, 2999)), FetchStep::Wait));
    assert!(matches!(wait.step(FetchEvent::Waiting(true, 3000)), FetchStep::Fail(m) if m == "interrupted"));
    assert!(matches!(wait.step(FetchEvent::Reported), FetchStep::Fail(m) if m == "interrupted"));
}
