//! Keeping the handed-out machine database current: which revision a program reads, when it is
//! fetched again, and what is cleared away.

use crate::clock::{format_utc, utc_text, DAY};
use crate::mdb::meta::{is_set, opt_view};
use crate::mdb::{generation_in, parse_generation};
use crate::search::{first_where, lemma_first_from_is};
use crate::sim::vars::ref_view;
use crate::table::{distinct, has_name, value_of, Table};
use crate::template::{block_views, text_value, var, VarText, VarValue};
use crate::text::{
    begins_with, cat2, cat3, cat4, cat5, cat7, chars_of, contains, decimal, decimal_of, ends, ends_with, file_name,
    file_name_of, holds, is_same_path, lines, lines_of, newlines_end_lines, path_join, path_of, pieces,
    pieces_make_up_the_text, pieces_of, same, same_path, starts,
    string_of, trim, trimmed, views,
};
use crate::toml_text::{
    dict_of, field, frozen, get_field, is_plain_table, is_plain_text, lemma_toml_of, read_toml, toml_of, toml_read,
    toml_written, write_toml, Toml, TomlValue,
};
use vstd::prelude::*;

verus! {

/// How long, in seconds, an attempt is trusted before the next one.
pub const SYNC_INTERVAL_SECS: u64 = 21600;

/// How long, in seconds, another process is waited for where there is no copy to fall back on.
pub const LOCK_WAIT_SECS: u64 = 120;

/// How long, in seconds, a host may take to accept a connection.
pub const PREFLIGHT_TIMEOUT_SECS: u64 = 5;

/// How long, in seconds, a fetch that is broken off may take to wind down.
pub const FETCH_WIND_DOWN_SECS: u64 = 2;

/// How long, in seconds, a tree outlives the link that pointed at it.
pub const RETIRED_GRACE_SECS: u64 = 86400;

/// How old, in seconds, a leftover has to be before it is taken for abandoned.
pub const TEMP_GRACE_SECS: u64 = 3600;

/// The branch that is fetched, and where it goes.
pub const REFSPEC: &'static str = "+refs/heads/mdb:refs/mdb/head";

pub const MDB_REF: &'static str = "refs/mdb/head";

/// What the progress line is called.
pub const HEADLINE: &'static str = "machine database";

/// Whether an attempt may be skipped because the last one is recent.
#[derive(Debug, Clone, Copy, PartialEq, Eq, Structural)]
pub enum Mode {
    /// Skip it while the last one is recent and there is a copy.
    Throttled,
    /// Always ask.
    Force,
}

/// What is recorded of the last attempt.
#[derive(Debug)]
pub struct SyncStamp {
    /// The generation of the branch's tip.
    pub tip_generation: u32,
    /// The branch's tip.
    pub tip: String,
    /// The revision that is in place.
    pub commit: String,
}

/// What is recorded of an attempt, as values.
pub struct StampState {
    pub tip_generation: u32,
    pub tip: Seq<char>,
    pub commit: Seq<char>,
}

impl View for SyncStamp {
    type V = StampState;

    open spec fn view(&self) -> StampState {
        StampState { tip_generation: self.tip_generation, tip: self.tip@, commit: self.commit@ }
    }
}

/// The record of an attempt that a document holds.
pub open spec fn stamp_in(doc: Toml) -> Option<StampState> {
    match doc {
        Toml::Dict(entries) => match (
            field(entries, "tip_generation"@),
            field(entries, "tip"@),
            field(entries, "commit"@),
        ) {
            (Some(Toml::Int(n)), Some(Toml::Str(tip)), Some(Toml::Str(commit))) => if 0 <= n <= u32::MAX {
                Some(StampState { tip_generation: n as u32, tip, commit })
            } else {
                None
            },
            _ => None,
        },
        _ => None,
    }
}

/// The record of an attempt, where there is one.
pub open spec fn opt_stamp(s: Option<SyncStamp>) -> Option<StampState> {
    match s {
        Some(t) => Some(t@),
        None => None,
    }
}

fn text_field(entries: &Vec<(String, TomlValue)>, key: &str) -> (r: Option<String>)
    ensures
        opt_view(r) == (match field(dict_of(entries@), key@) {
            Some(Toml::Str(s)) => Some(s),
            _ => None,
        }),
{
    match get_field(entries, key) {
        Some(v) => {
            proof {
                lemma_toml_of(*v);
            }
            match v {
                TomlValue::Str(s) => Some(s.clone()),
                _ => None,
            }
        },
        None => None,
    }
}

/// The record of an attempt that a document holds.
pub fn stamp_of(doc: &TomlValue) -> (r: Option<SyncStamp>)
    ensures
        opt_stamp(r) == stamp_in(toml_of(*doc)),
{
    proof {
        lemma_toml_of(*doc);
    }
    match doc {
        TomlValue::Dict(entries) => {
            let generation: Option<u32> = match get_field(entries, "tip_generation") {
                Some(v) => {
                    proof {
                        lemma_toml_of(*v);
                    }
                    match v {
                        TomlValue::Int(n) => if 0 <= *n && *n <= 4294967295 {
                            Some(*n as u32)
                        } else {
                            None
                        },
                        _ => None,
                    }
                },
                None => None,
            };
            match (generation, text_field(entries, "tip"), text_field(entries, "commit")) {
                (Some(tip_generation), Some(tip), Some(commit)) => Some(SyncStamp { tip_generation, tip, commit }),
                _ => None,
            }
        },
        _ => None,
    }
}

/// The record of an attempt that a text holds.
pub open spec fn stamp_by(text: Seq<char>) -> Option<StampState> {
    match toml_read(text) {
        Ok(doc) => stamp_in(doc),
        Err(_) => None,
    }
}

/// Reads the record of an attempt; none where the text holds none.
pub fn read_stamp(text: &str) -> (r: Option<SyncStamp>)
    ensures
        opt_stamp(r) == stamp_by(text@),
{
    match read_toml(text) {
        Ok(doc) => stamp_of(&doc),
        Err(_) => None,
    }
}

/// The entries of a record.
pub open spec fn stamp_block(s: StampState) -> Seq<(Seq<char>, VarText)> {
    seq![
        ("tip_generation"@, VarText::Int(s.tip_generation as int)),
        ("tip"@, VarText::Str(s.tip)),
        ("commit"@, VarText::Str(s.commit)),
    ]
}

/// Writes the record of an attempt. Reading it gives the record back where revisions are named by
/// plain texts.
pub fn write_stamp(stamp: &SyncStamp) -> (r: String)
    ensures
        r@ == toml_written(stamp_block(stamp@)),
        is_plain_text(stamp.tip@) && is_plain_text(stamp.commit@) ==> stamp_by(r@) == Some(stamp@),
{
    let mut b: Vec<(String, VarValue)> = Vec::new();
    b.push(var("tip_generation", VarValue::Int(stamp.tip_generation as i64)));
    b.push(var("tip", text_value(&stamp.tip)));
    b.push(var("commit", text_value(&stamp.commit)));
    proof {
        assert(block_views(b@) =~= stamp_block(stamp@));
        lemma_stamp_block(stamp@);
    }
    write_toml(&b)
}

/// The entries of a record are found under their names.
proof fn lemma_stamp_block(s: StampState)
    ensures
        distinct(stamp_block(s)),
        is_plain_text(s.tip) && is_plain_text(s.commit) ==> is_plain_table(stamp_block(s)),
        stamp_in(Toml::Dict(frozen(stamp_block(s)))) == Some(s),
{
    reveal_strlit("tip_generation");
    reveal_strlit("tip");
    reveal_strlit("commit");
    let b = stamp_block(s);
    let f = frozen(b);
    assert("tip_generation"@.len() == 14);
    assert("tip"@.len() == 3);
    assert("commit"@.len() == 6);
    assert(f[0] == ("tip_generation"@, Toml::Int(s.tip_generation as int)));
    assert(f[1] == ("tip"@, Toml::Str(s.tip)));
    assert(f[2] == ("commit"@, Toml::Str(s.commit)));
    let p = crate::toml_text::under(f, "tip_generation"@);
    assert(p(0));
    lemma_first_from_is(0, 3, p, 0);
    let p = crate::toml_text::under(f, "tip"@);
    assert(!p(0) && p(1));
    lemma_first_from_is(0, 3, p, 1);
    let p = crate::toml_text::under(f, "commit"@);
    assert(!p(0) && !p(1) && p(2));
    lemma_first_from_is(0, 3, p, 2);
}

/// What the user is told where the database has moved past the generation that is read.
pub open spec fn notice_text(tip_generation: nat, generation: nat) -> Seq<char> {
    ("the machine database has moved to generation "@ + decimal_of(tip_generation)
        + "; this cactup (generation "@ + decimal_of(generation) + ") keeps using the last generation-"@ + decimal_of(
        generation,
    )
        + " revision. Run `cactup update` (if that reports up to date, a release is still propagating; retry later)"@)
}

/// What the user is told where the database has moved past the generation that is read, going by
/// the record of the last attempt.
pub fn generation_notice(stamp: &Option<SyncStamp>, generation: u32) -> (r: Option<String>)
    ensures
        match stamp {
            Some(s) => if s.tip_generation > generation {
                r is Some && r->0@ == notice_text(s.tip_generation as nat, generation as nat)
            } else {
                r is None
            },
            None => r is None,
        },
{
    match stamp {
        Some(s) => if s.tip_generation > generation {
            let own = decimal(generation as u64);
            Some(
                cat7(
                    "the machine database has moved to generation ",
                    &decimal(s.tip_generation as u64),
                    "; this cactup (generation ",
                    &own,
                    ") keeps using the last generation-",
                    &own,
                    " revision. Run `cactup update` (if that reports up to date, a release is still propagating; retry later)",
                ),
            )
        } else {
            None
        },
        None => None,
    }
}

/// What the user is told where the database has moved past the generation that is read, going by
/// the text of the record, where there is one.
pub fn newer_generation_notice(stamp: Option<&str>, generation: u32) -> (r: Option<String>)
    ensures
        opt_view(r) == (match stamp {
            Some(text) => match stamp_by(text@) {
                Some(s) => if s.tip_generation > generation {
                    Some(notice_text(s.tip_generation as nat, generation as nat))
                } else {
                    None
                },
                None => None,
            },
            None => None,
        }),
{
    let read = match stamp {
        Some(text) => read_stamp(text),
        None => None,
    };
    generation_notice(&read, generation)
}

/// The link to the tree that programs of a generation read.
pub fn link_path(root: &str, generation: u32) -> (r: String)
    ensures
        r@ == path_of(root@, "gen-"@ + decimal_of(generation as nat)),
{
    path_join(root, &cat2("gen-", &decimal(generation as u64)))
}

/// Where the record of the last attempt stands.
pub fn stamp_path(root: &str, generation: u32) -> (r: String)
    ensures
        r@ == path_of(root@, ".synced-"@ + decimal_of(generation as nat)),
{
    path_join(root, &cat2(".synced-", &decimal(generation as u64)))
}

/// The tree that a link points at, given its target, where there is one, and whether that is a
/// directory.
pub fn resolve_link(root: &str, target: Option<&str>, is_dir: bool) -> (r: Option<String>)
    ensures
        opt_view(r) == (if is_dir && target is Some {
            Some(path_of(root@, target->0@))
        } else {
            None
        }),
{
    match target {
        Some(t) => if is_dir {
            Some(path_join(root, t))
        } else {
            None
        },
        None => None,
    }
}

/// Nanoseconds in so many seconds.
pub open spec fn nanos(seconds: u64) -> int {
    seconds * 1_000_000_000
}

/// Whether a copy may be used as it is: asking again is not forced, there is a copy, and the last
/// attempt, of this age in nanoseconds, is recent.
pub open spec fn is_fresh(mode: Mode, has_copy: bool, age: Option<u128>) -> bool {
    mode == Mode::Throttled && has_copy && age is Some && age->0 < nanos(SYNC_INTERVAL_SECS)
}

/// The copy, where it may be used as it is.
pub fn fresh_link(mode: Mode, dir: Option<&str>, age: Option<u128>) -> (r: Option<String>)
    ensures
        opt_view(r) == (if is_fresh(mode, dir is Some, age) {
            ref_view(dir)
        } else {
            None
        }),
{
    match mode {
        Mode::Force => None,
        Mode::Throttled => match (dir, age) {
            (Some(d), Some(a)) => if a < SYNC_INTERVAL_SECS as u128 * 1_000_000_000 {
                Some(d.to_owned())
            } else {
                None
            },
            _ => None,
        },
    }
}

/// What is to be done about the database.
#[derive(Debug)]
pub enum SyncAction {
    /// Read this tree.
    Use(String),
    /// Wait for the process that is at it.
    Wait,
    /// Ask for the newest revision.
    Sync,
}

/// Which tree a program reads, given the one that it has read before, if any, and the copy where it
/// may be used as it is.
pub fn system_root(mode: Mode, read_before: Option<&str>, fresh: Option<&str>) -> (r: SyncAction)
    ensures
        if mode == Mode::Throttled && read_before is Some {
            r matches SyncAction::Use(d) && d@ == read_before->0@
        } else if fresh is Some {
            r matches SyncAction::Use(d) && d@ == fresh->0@
        } else {
            r is Sync
        },
{
    match (mode, read_before) {
        (Mode::Throttled, Some(d)) => {
            return SyncAction::Use(d.to_owned());
        },
        _ => {},
    }
    match fresh {
        Some(d) => SyncAction::Use(d.to_owned()),
        None => SyncAction::Sync,
    }
}

/// What is to be done once the lock was tried for. One that got it at once, or after another process
/// was done and left no copy, syncs, unless the copy has become fresh meanwhile. One that did not get
/// it uses the copy that there is, or waits for one.
pub fn sync_at(locked: bool, waited: bool, copy: Option<&str>, fresh: Option<&str>) -> (r: SyncAction)
    ensures
        if (!locked || waited) && copy is Some {
            r matches SyncAction::Use(d) && d@ == copy->0@
        } else if !locked {
            r is Wait
        } else if fresh is Some {
            r matches SyncAction::Use(d) && d@ == fresh->0@
        } else {
            r is Sync
        },
{
    if !locked || waited {
        if let Some(d) = copy {
            return SyncAction::Use(d.to_owned());
        }
    }
    if !locked {
        return SyncAction::Wait;
    }
    match fresh {
        Some(d) => SyncAction::Use(d.to_owned()),
        None => SyncAction::Sync,
    }
}

/// The first line of a text; all of it where it has none.
pub open spec fn first_line_of(s: Seq<char>) -> Seq<char> {
    if lines_of(s).len() == 0 {
        s
    } else {
        lines_of(s)[0]
    }
}

fn first_line(s: &str) -> (r: String)
    ensures
        r@ == first_line_of(s@),
{
    let rows = lines(s);
    assert(rows@.len() == views(rows@).len());
    if rows.len() == 0 {
        s.to_owned()
    } else {
        assert(views(rows@)[0] == rows@[0]@);
        rows[0].clone()
    }
}

/// The first seven characters of a text.
pub open spec fn short_of(id: Seq<char>) -> Seq<char> {
    if id.len() > 7 {
        id.take(7)
    } else {
        id
    }
}

/// A revision's name, shortened.
pub fn short(id: &str) -> (r: String)
    ensures
        r@ == short_of(id@),
{
    let cs = chars_of(id);
    let n: usize = if cs.len() > 7 { 7 } else { cs.len() };
    let r = string_of(&cs, 0, n);
    assert(r@ =~= short_of(id@));
    r
}

/// What a copy is called in a warning: the day of its revision, or the shortened name where that is
/// not known.
pub fn copy_date(seconds: Option<i64>, name: &str) -> (r: String)
    ensures
        r@ == (match seconds {
            Some(s) => match utc_text(s as int, DAY@) {
                Some(d) => d,
                None => short_of(name@),
            },
            None => short_of(name@),
        }),
{
    match seconds {
        Some(s) => match format_utc(s, DAY) {
            Some(d) => d,
            None => short(name),
        },
        None => short(name),
    }
}

/// What came of the attempt to fetch the branch.
#[derive(Debug)]
pub enum FetchOutcome {
    /// The user broke it off.
    Interrupted(String),
    /// It failed; the reason.
    Failed(String),
    /// The branch's tip with its generation, and the newest revision of the generation that is read.
    Fetched(String, u32, Option<String>),
}

/// Why there is no database.
pub enum SyncFault {
    Interrupted(Seq<char>),
    Unreachable(Seq<char>, Seq<char>, Seq<char>),
    NeverPublished(Seq<char>, nat, nat),
}

/// Why there is no database.
#[derive(Debug)]
pub enum SyncError {
    Interrupted(String),
    /// It cannot be fetched from this place, for this reason, and there is no copy at this root.
    Unreachable(String, String, String),
    /// This place never had the generation; its newest is the last.
    NeverPublished(String, u32, u32),
}

impl View for SyncError {
    type V = SyncFault;

    open spec fn view(&self) -> SyncFault {
        match *self {
            SyncError::Interrupted(reason) => SyncFault::Interrupted(reason@),
            SyncError::Unreachable(url, reason, root) => SyncFault::Unreachable(url@, reason@, root@),
            SyncError::NeverPublished(url, generation, tip) => SyncFault::NeverPublished(
                url@,
                generation as nat,
                tip as nat,
            ),
        }
    }
}

impl SyncError {
    /// The message for the user, as text.
    pub open spec fn text(self) -> Seq<char> {
        match self {
            SyncError::Interrupted(reason) => reason@,
            SyncError::Unreachable(url, reason, root) => "could not fetch the machine database from "@ + url@ + ": "@
                + reason@
                + "\nThis cactup has no copy of it yet, and without one it cannot know which machine it is on. Run `cactup update` on a host with network access (the copy in "@
                + root@
                + " serves every host that shares this home directory), or pass --mdb-path with the path of a machine database on disk."@,
            SyncError::NeverPublished(url, generation, tip) => url@ + " has never published MDB generation "@
                + decimal_of(generation as nat) + " (its newest is generation "@ + decimal_of(tip as nat)
                + "), which this cactup needs. "@ + (if tip > generation {
                "Run `cactup update` to get a cactup that reads the newer generation."@
            } else {
                "A release may still be propagating; retry later."@
            }),
        }
    }

    /// The message for the user.
    pub fn message(&self) -> (r: String)
        ensures
            r@ == self.text(),
    {
        match self {
            SyncError::Interrupted(reason) => reason.clone(),
            SyncError::Unreachable(url, reason, root) => cat7(
                "could not fetch the machine database from ",
                url,
                ": ",
                reason,
                "\nThis cactup has no copy of it yet, and without one it cannot know which machine it is on. Run `cactup update` on a host with network access (the copy in ",
                root,
                " serves every host that shares this home directory), or pass --mdb-path with the path of a machine database on disk.",
            ),
            SyncError::NeverPublished(url, generation, tip) => cat7(
                url,
                " has never published MDB generation ",
                &decimal(*generation as u64),
                " (its newest is generation ",
                &decimal(*tip as u64),
                "), which this cactup needs. ",
                if *tip > *generation {
                    "Run `cactup update` to get a cactup that reads the newer generation."
                } else {
                    "A release may still be propagating; retry later."
                },
            ),
        }
    }
}

/// What follows from an attempt.
#[derive(Debug)]
pub enum SyncStep {
    /// Keep the copy in this directory, record the tip where it was learned, and warn.
    Keep(String, Option<(u32, String)>, String),
    /// Put this revision in place, and record this.
    Install(String, SyncStamp),
}

/// Whether a fetch that failed is tried once more, on a cache made anew: a lock file was in its way,
/// and the user did not break it off.
pub fn fetch_again(failed: bool, interrupted: bool, lock_error: bool) -> (r: bool)
    ensures
        r == (failed && !interrupted && lock_error),
{
    failed && !interrupted && lock_error
}

/// Decides what follows from an attempt to fetch the branch. With a copy, in the directory that is
/// given and called by the date that is given, a failure keeps it; without one, it is an error.
pub fn sync_locked(
    root: &str,
    url: &str,
    generation: u32,
    copy: Option<&str>,
    date: &str,
    outcome: &FetchOutcome,
) -> (r: Result<SyncStep, SyncError>)
    ensures
        match outcome {
            FetchOutcome::Interrupted(reason) => r is Err && r->Err_0@ == SyncFault::Interrupted(reason@),
            FetchOutcome::Failed(reason) => match copy {
                None => r is Err && r->Err_0@ == SyncFault::Unreachable(url@, reason@, root@),
                Some(dir) => r matches Ok(SyncStep::Keep(d, tip, warning)) && d@ == dir@ && tip is None && warning@
                    == "could not reach "@ + url@ + " ("@ + first_line_of(reason@) + "); using the copy from "@ + date@,
            },
            FetchOutcome::Fetched(tip, tip_generation, found) => match found {
                Some(commit) => r matches Ok(SyncStep::Install(c, stamp)) && c@ == commit@ && stamp@ == (StampState {
                    tip_generation: *tip_generation,
                    tip: tip@,
                    commit: commit@,
                }),
                None => match copy {
                    None => r is Err && r->Err_0@ == SyncFault::NeverPublished(
                        url@,
                        generation as nat,
                        *tip_generation as nat,
                    ),
                    Some(dir) => r matches Ok(SyncStep::Keep(d, t, warning)) && d@ == dir@ && t is Some && (t->0).0
                        == *tip_generation && (t->0).1@ == tip@ && warning@ == url@ + " no longer carries MDB generation "@
                        + decimal_of(generation as nat) + "; using the copy from "@ + date@,
                },
            },
        },
{
    match outcome {
        FetchOutcome::Interrupted(reason) => Err(SyncError::Interrupted(reason.clone())),
        FetchOutcome::Failed(reason) => match copy {
            None => Err(SyncError::Unreachable(url.to_owned(), reason.clone(), root.to_owned())),
            Some(dir) => {
                let head = cat4("could not reach ", url, " (", &first_line(reason));
                Ok(SyncStep::Keep(dir.to_owned(), None, cat3(&head, "); using the copy from ", date)))
            },
        },
        FetchOutcome::Fetched(tip, tip_generation, found) => match found {
            Some(commit) => {
                let stamp = SyncStamp { tip_generation: *tip_generation, tip: tip.clone(), commit: commit.clone() };
                Ok(SyncStep::Install(commit.clone(), stamp))
            },
            None => match copy {
                None => Err(SyncError::NeverPublished(url.to_owned(), generation, *tip_generation)),
                Some(dir) => {
                    let warning = cat5(
                        url,
                        " no longer carries MDB generation ",
                        &decimal(generation as u64),
                        "; using the copy from ",
                        date,
                    );
                    Ok(SyncStep::Keep(dir.to_owned(), Some((*tip_generation, tip.clone())), warning))
                },
            },
        },
    }
}

/// The record after an attempt that put nothing in place: what is on record is kept, or else what the
/// cache knows of the tip, or else the copy itself; and a tip that was learned is recorded.
pub open spec fn kept_stamp(
    known: Option<StampState>,
    cached: Option<(u32, Seq<char>)>,
    generation: u32,
    commit: Seq<char>,
    tip: Option<(u32, Seq<char>)>,
) -> StampState {
    let (tip_generation, tip_name) = match tip {
        Some(t) => t,
        None => match known {
            Some(s) => (s.tip_generation, s.tip),
            None => match cached {
                Some(c) => c,
                None => (generation, commit),
            },
        },
    };
    StampState { tip_generation, tip: tip_name, commit }
}

/// A generation with a revision, as values.
pub open spec fn tip_view(t: Option<(u32, String)>) -> Option<(u32, Seq<char>)> {
    match t {
        Some(x) => Some((x.0, x.1@)),
        None => None,
    }
}

/// The record after an attempt that put nothing in place.
pub fn keep_stamp(
    known: &Option<SyncStamp>,
    cached: &Option<(u32, String)>,
    generation: u32,
    commit: &str,
    tip: &Option<(u32, String)>,
) -> (r: SyncStamp)
    ensures
        r@ == kept_stamp(opt_stamp(*known), tip_view(*cached), generation, commit@, tip_view(*tip)),
{
    let (tip_generation, tip_name) = match tip {
        Some(t) => (t.0, t.1.clone()),
        None => match known {
            Some(s) => (s.tip_generation, s.tip.clone()),
            None => match cached {
                Some(c) => (c.0, c.1.clone()),
                None => (generation, commit.to_owned()),
            },
        },
    };
    SyncStamp { tip_generation, tip: tip_name, commit: commit.to_owned() }
}

/// The generation of a revision, given the text of its file `GENERATION`: zero where there is none,
/// or it holds none.
pub open spec fn revision_generation(text: Option<Seq<char>>) -> u32 {
    match text {
        Some(t) => match generation_in(t) {
            Some(n) => n,
            None => 0,
        },
        None => 0,
    }
}

/// The generation of a revision.
pub fn commit_generation(text: Option<&str>) -> (r: u32)
    ensures
        r == revision_generation(ref_view(text)),
{
    match text {
        Some(t) => match parse_generation(t) {
            Some(n) => n,
            None => 0,
        },
        None => 0,
    }
}

/// The revisions, from the tip back, that are of a generation or older.
pub open spec fn not_newer(generations: Seq<u32>, generation: u32) -> spec_fn(int) -> bool {
    |i: int| generations[i] <= generation
}

/// Where the newest revision of a generation stands among the generations of the revisions, from the
/// tip back. Generations never go down, so the search ends at the first that is older.
pub open spec fn generation_place(generations: Seq<u32>, generation: u32) -> Option<int> {
    let k = first_where(generations.len() as int, not_newer(generations, generation));
    if k < generations.len() && generations[k] == generation {
        Some(k)
    } else {
        None
    }
}

/// How the search for a revision goes on.
#[derive(Debug, Clone, Copy, PartialEq, Eq, Structural)]
pub enum Walk {
    /// This is the one.
    Found,
    /// There is none.
    Stop,
    Continue,
}

/// How the search for the newest revision of a generation goes on, at a revision of some generation.
pub fn walk_step(found: u32, generation: u32) -> (r: Walk)
    ensures
        r == (if found == generation {
            Walk::Found
        } else if found < generation {
            Walk::Stop
        } else {
            Walk::Continue
        }),
{
    if found == generation {
        Walk::Found
    } else if found < generation {
        Walk::Stop
    } else {
        Walk::Continue
    }
}

/// Where the newest revision of a generation stands among the revisions, from the tip back.
pub fn find_generation(generations: &Vec<u32>, generation: u32) -> (r: Option<usize>)
    ensures
        match generation_place(generations@, generation) {
            Some(k) => r is Some && r->0 == k,
            None => r is None,
        },
{
    let ghost p = not_newer(generations@, generation);
    let mut i: usize = 0;
    while i < generations.len()
        invariant
            i <= generations@.len(),
            p == not_newer(generations@, generation),
            forall|j: int| 0 <= j < i ==> !(#[trigger] p(j)),
        decreases generations@.len() - i,
    {
        match walk_step(generations[i], generation) {
            Walk::Found => {
                proof {
                    assert(p(i as int));
                    lemma_first_from_is(0, generations@.len() as int, p, i as int);
                }
                return Some(i);
            },
            Walk::Stop => {
                proof {
                    assert(p(i as int));
                    lemma_first_from_is(0, generations@.len() as int, p, i as int);
                }
                return None;
            },
            Walk::Continue => {
                assert(!p(i as int));
            },
        }
        i += 1;
    }
    proof {
        lemma_first_from_is(0, generations@.len() as int, p, generations@.len() as int);
    }
    None
}

/// Where generations never go down along the branch, the search finds the newest revision of the
/// generation, and finds one wherever there is one.
pub proof fn the_search_finds_the_newest(generations: Seq<u32>, generation: u32, i: int)
    requires
        forall|a: int, b: int| 0 <= a < b < generations.len() ==> generations[a] >= generations[b],
        0 <= i < generations.len(),
        generations[i] == generation,
    ensures
        generation_place(generations, generation) matches Some(k) && 0 <= k <= i && generations[k] == generation,
{
    let n = generations.len() as int;
    let p = not_newer(generations, generation);
    crate::search::lemma_first_from(0, n, p);
    let k = first_where(n, p);
    assert(p(i));
    if i < k {
        assert(!p(i));
    }
    if k < i {
        assert(generations[k] >= generations[i]);
    }
}

/// Checks that a revision is of the generation for which it is put in place.
pub fn check_revision(found: u32, generation: u32, id: &str) -> (r: Result<(), String>)
    ensures
        if found == generation {
            r is Ok
        } else {
            r is Err && r->Err_0@ == "publishing error: MDB commit "@ + short_of(id@) + " says it is generation "@
                + decimal_of(found as nat) + ", not "@ + decimal_of(generation as nat)
        },
{
    if found == generation {
        Ok(())
    } else {
        Err(
            cat2(
                &cat5(
                    "publishing error: MDB commit ",
                    &short(id),
                    " says it is generation ",
                    &decimal(found as u64),
                    ", not ",
                ),
                &decimal(generation as u64),
            ),
        )
    }
}

/// Whether a path stays below the directory that it is put into: it does not begin at the root or
/// with `.`, and nowhere goes up.
pub open spec fn is_safe(path: Seq<char>) -> bool {
    let parts = pieces_of(path, '/');
    &&& !begins_with(path, "/"@)
    &&& parts.len() > 0 ==> parts[0] != "."@
    &&& forall|i: int| 0 <= i < parts.len() ==> #[trigger] parts[i] != ".."@
}

/// Whether a path stays below the directory that it is put into.
pub fn is_safe_path(path: &str) -> (r: bool)
    ensures
        r == is_safe(path@),
{
    if starts(path, "/") {
        return false;
    }
    let parts = pieces(path, '/');
    let ghost all = pieces_of(path@, '/');
    assert(parts@.len() == all.len());
    if parts.len() > 0 {
        assert(all[0] == parts@[0]@);
        if same(&parts[0], ".") {
            return false;
        }
    }
    let mut i: usize = 0;
    while i < parts.len()
        invariant
            i <= parts@.len(),
            all == views(parts@),
            all == pieces_of(path@, '/'),
            !begins_with(path@, "/"@),
            all.len() > 0 ==> all[0] != "."@,
            forall|j: int| 0 <= j < i ==> #[trigger] all[j] != ".."@,
        decreases parts@.len() - i,
    {
        assert(all[i as int] == parts@[i as int]@);
        if same(&parts[i], "..") {
            return false;
        }
        i += 1;
    }
    true
}

/// A kind of entry in a revision's tree.
#[derive(Debug, Clone, Copy, PartialEq, Eq, Structural)]
pub enum EntryKind {
    Tree,
    Blob,
    BlobExecutable,
    Link,
    Commit,
}

/// What is made of an entry.
#[derive(Debug, Clone, Copy, PartialEq, Eq, Structural)]
pub enum Export {
    MakeDir,
    /// A file, and whether it can be executed.
    WriteFile(bool),
    MakeLink,
}

/// What is made of an entry of a revision's tree: refused where its path would lead elsewhere, or
/// where it is a submodule.
pub fn export_tree(path: &str, kind: EntryKind) -> (r: Result<Export, String>)
    ensures
        if !is_safe(path@) {
            r is Err && r->Err_0@ == "unsafe path "@ + path@ + " in the MDB"@
        } else {
            match kind {
                EntryKind::Tree => r == Ok::<Export, String>(Export::MakeDir),
                EntryKind::Blob => r == Ok::<Export, String>(Export::WriteFile(false)),
                EntryKind::BlobExecutable => r == Ok::<Export, String>(Export::WriteFile(true)),
                EntryKind::Link => r == Ok::<Export, String>(Export::MakeLink),
                EntryKind::Commit => r is Err && r->Err_0@ == "the MDB may not contain submodules"@,
            }
        },
{
    if !is_safe_path(path) {
        return Err(cat3("unsafe path ", path, " in the MDB"));
    }
    match kind {
        EntryKind::Tree => Ok(Export::MakeDir),
        EntryKind::Blob => Ok(Export::WriteFile(false)),
        EntryKind::BlobExecutable => Ok(Export::WriteFile(true)),
        EntryKind::Link => Ok(Export::MakeLink),
        EntryKind::Commit => Err("the MDB may not contain submodules".to_owned()),
    }
}

/// How a link is moved to another tree.
#[derive(Debug)]
pub struct Swap {
    /// The mark of retirement to be taken from the tree that is current again.
    pub unretired: String,
    /// The mark of retirement to be given to the tree that was current.
    pub retired: Option<String>,
}

/// The mark of retirement of a tree.
pub open spec fn retired_text(name: Seq<char>) -> Seq<char> {
    name + ".retired"@
}

/// The name of the tree that a link points at, given its target.
pub open spec fn linked_tree(target: Option<Seq<char>>) -> Option<Seq<char>> {
    match target {
        Some(t) => file_name_of(t),
        None => None,
    }
}

/// How a link is moved to a tree, given its target; not at all where it points at the tree already,
/// however the path to it is written.
pub fn swap_link(name: &str, target: Option<&str>) -> (r: Option<Swap>)
    ensures
        if target is Some && is_same_path(target->0@, name@) {
            r is None
        } else {
            r matches Some(s) && s.unretired@ == retired_text(name@) && opt_view(s.retired) == (match linked_tree(
                ref_view(target),
            ) {
                Some(old) => Some(retired_text(old)),
                None => None,
            })
        },
{
    let mut retired: Option<String> = None;
    if let Some(t) = target {
        if same_path(t, name) {
            return None;
        }
        if let Some(old) = file_name(t) {
            retired = Some(cat2(&old, ".retired"));
        }
    }
    Some(Swap { unretired: cat2(name, ".retired"), retired })
}

/// An entry of the database's directory.
#[derive(Debug)]
pub struct PruneEntry {
    pub name: String,
    /// Its age in nanoseconds, where that is known.
    pub age: Option<u128>,
    /// The path that it points at, where it is a link.
    pub target: Option<String>,
}

/// Whether an entry is older than so many seconds.
pub open spec fn is_older(e: PruneEntry, seconds: u64) -> bool {
    e.age is Some && e.age->0 > nanos(seconds)
}

/// Whether an entry is a generation's link to a tree.
pub open spec fn links_to(e: PruneEntry, tree: Seq<char>) -> bool {
    begins_with(e.name@, "gen-"@) && linked_tree(opt_view(e.target)) == Some(tree)
}

/// Whether a link points at a tree.
pub open spec fn is_current(entries: Seq<PruneEntry>, tree: Seq<char>) -> bool {
    exists|i: int| 0 <= i < entries.len() && links_to(#[trigger] entries[i], tree)
}

fn current(entries: &Vec<PruneEntry>, tree: &str) -> (r: bool)
    ensures
        r == is_current(entries@, tree@),
{
    let mut i: usize = 0;
    while i < entries.len()
        invariant
            i <= entries@.len(),
            forall|j: int| 0 <= j < i ==> !links_to(#[trigger] entries@[j], tree@),
        decreases entries@.len() - i,
    {
        let e = &entries[i];
        if starts(&e.name, "gen-") {
            if let Some(target) = &e.target {
                if let Some(linked) = file_name(target) {
                    if same(&linked, tree) {
                        assert(links_to(entries@[i as int], tree@));
                        return true;
                    }
                }
            }
        }
        i += 1;
    }
    false
}

/// What is removed on account of an entry: a leftover that is old; a mark of retirement whose tree is
/// current again; and a tree that was retired long ago, with its mark.
pub open spec fn removed_for(e: PruneEntry, all: Seq<PruneEntry>) -> Seq<Seq<char>> {
    let name = e.name@;
    let tree = name.take(name.len() - 8);
    if holds(name, ".tmp-"@) {
        if is_older(e, TEMP_GRACE_SECS) {
            seq![name]
        } else {
            Seq::empty()
        }
    } else if ends_with(name, ".retired"@) {
        if is_current(all, tree) {
            seq![name]
        } else if is_older(e, RETIRED_GRACE_SECS) {
            seq![tree, name]
        } else {
            Seq::empty()
        }
    } else {
        Seq::empty()
    }
}

/// What is removed on account of some of all entries, in their order.
pub open spec fn removed_all(entries: Seq<PruneEntry>, all: Seq<PruneEntry>) -> Seq<Seq<char>>
    decreases entries.len(),
{
    if entries.len() == 0 {
        Seq::empty()
    } else {
        removed_all(entries.drop_last(), all) + removed_for(entries.last(), all)
    }
}

fn older(e: &PruneEntry, seconds: u64) -> (r: bool)
    ensures
        r == is_older(*e, seconds),
{
    match e.age {
        Some(a) => a > seconds as u128 * 1_000_000_000,
        None => false,
    }
}

/// What is removed from the database's directory, given its entries.
pub fn prune(entries: &Vec<PruneEntry>) -> (r: Vec<String>)
    ensures
        views(r@) == removed_all(entries@, entries@),
{
    proof {
        reveal_strlit(".retired");
    }
    let mut out: Vec<String> = Vec::new();
    let mut i: usize = 0;
    assert(entries@.take(0) =~= Seq::empty());
    assert(views(out@) =~= Seq::empty());
    while i < entries.len()
        invariant
            i <= entries@.len(),
            ".retired"@.len() == 8,
            views(out@) == removed_all(entries@.take(i as int), entries@),
        decreases entries@.len() - i,
    {
        let e = &entries[i];
        let ghost earlier = views(out@);
        assert(entries@.take(i + 1).drop_last() =~= entries@.take(i as int));
        if contains(&e.name, ".tmp-") {
            if older(e, TEMP_GRACE_SECS) {
                out.push(e.name.clone());
            }
        } else if ends(&e.name, ".retired") {
            let cs = chars_of(&e.name);
            let tree = string_of(&cs, 0, cs.len() - 8);
            assert(tree@ =~= e.name@.take(e.name@.len() - 8));
            if current(entries, &tree) {
                out.push(e.name.clone());
            } else if older(e, RETIRED_GRACE_SECS) {
                out.push(tree);
                out.push(e.name.clone());
            }
        }
        assert(views(out@) =~= earlier + removed_for(*e, entries@));
        i += 1;
    }
    assert(entries@.take(i as int) =~= entries@);
    out
}

/// No tree that a link points at is ever removed: what is removed is a leftover, a mark, or a tree
/// that no link points at.
pub proof fn current_trees_stay(entries: Seq<PruneEntry>, all: Seq<PruneEntry>, i: int)
    requires
        0 <= i < removed_all(entries, all).len(),
    ensures
        ({
            let gone = removed_all(entries, all)[i];
            holds(gone, ".tmp-"@) || ends_with(gone, ".retired"@) || !is_current(all, gone)
        }),
    decreases entries.len(),
{
    if entries.len() > 0 {
        let rest = removed_all(entries.drop_last(), all);
        if i < rest.len() {
            assert(removed_all(entries, all)[i] == rest[i]);
            current_trees_stay(entries.drop_last(), all, i);
        } else {
            assert(removed_all(entries, all)[i] == removed_for(entries.last(), all)[i - rest.len()]);
        }
    }
}

/// Whether a path below the fetch cache is one where a fetch leaves its lock files: the top, anywhere
/// under `refs`, and beside the packs.
pub open spec fn is_lock_place(parts: Seq<Seq<char>>) -> bool {
    ||| parts.len() == 1
    ||| parts.len() > 1 && parts[0] == "refs"@
    ||| parts.len() == 3 && parts[0] == "objects"@ && parts[1] == "pack"@
}

/// Whether a file of the fetch cache, by its path there, is a lock file that a fetch has left behind.
pub fn is_stale_lock(path: &str) -> (r: bool)
    ensures
        r == ({
            let parts = pieces_of(path@, '/');
            &&& is_lock_place(parts)
            &&& ends_with(parts.last(), ".lock"@)
            &&& parts.last().len() > 5
        }),
{
    let parts = pieces(path, '/');
    let ghost all = pieces_of(path@, '/');
    assert(parts@.len() == all.len());
    let n: usize = parts.len();
    if n == 0 {
        return false;
    }
    assert(all[0] == parts@[0]@);
    assert(all.last() == parts@[n - 1]@);
    let placed = if n == 1 || same(&parts[0], "refs") {
        true
    } else if n == 3 {
        assert(all[1] == parts@[1]@);
        same(&parts[0], "objects") && same(&parts[1], "pack")
    } else {
        false
    };
    placed && ends(&parts[n - 1], ".lock") && chars_of(&parts[n - 1]).len() > 5
}

/// How a place to fetch from is reached.
#[derive(Debug)]
pub enum Scheme {
    File,
    Git,
    Ssh,
    Http,
    Https,
    Ext,
    /// By a helper of this name, which gets the address.
    Helper(String),
    /// By a helper of this name, which gets the whole URL.
    HelperUrl(String),
}

/// How a place to fetch from is reached, with names as texts.
pub enum Transport {
    File,
    Git,
    Ssh,
    Http,
    Https,
    Ext,
    Helper(Seq<char>),
    HelperUrl(Seq<char>),
}

impl View for Scheme {
    type V = Transport;

    open spec fn view(&self) -> Transport {
        match *self {
            Scheme::File => Transport::File,
            Scheme::Git => Transport::Git,
            Scheme::Ssh => Transport::Ssh,
            Scheme::Http => Transport::Http,
            Scheme::Https => Transport::Https,
            Scheme::Ext => Transport::Ext,
            Scheme::Helper(name) => Transport::Helper(name@),
            Scheme::HelperUrl(name) => Transport::HelperUrl(name@),
        }
    }
}

/// What a place to fetch from is, as far as `gix` can read it: how it is reached, its host, and its
/// port or the usual one.
pub uninterp spec fn url_parts(url: Seq<char>) -> Option<(Transport, Option<Seq<char>>, Option<u16>)>;

/// What a place to fetch from is.
#[derive(Debug)]
pub struct UrlParts {
    pub scheme: Scheme,
    pub host: Option<String>,
    pub port: Option<u16>,
}

/// `gix::url::parse`, then `Url::scheme`, `Url::host` and `Url::port_or_default`: what the place is;
/// none where it cannot be read. The result is named.
#[verifier::external_body]
fn parse_url(url: &str) -> (r: Option<UrlParts>)
    ensures
        parts_view(r) == url_parts(url@),
{
    let parsed = gix::url::parse(gix::bstr::BStr::new(url)).ok()?;
    let (host, port) = (parsed.host().map(str::to_owned), parsed.port_or_default());
    let scheme = match parsed.scheme {
        gix::url::Scheme::File => Scheme::File,
        gix::url::Scheme::Git => Scheme::Git,
        gix::url::Scheme::Ssh => Scheme::Ssh,
        gix::url::Scheme::Http => Scheme::Http,
        gix::url::Scheme::Https => Scheme::Https,
        gix::url::Scheme::Ext => Scheme::Ext,
        gix::url::Scheme::Helper(name) => Scheme::Helper(name),
        gix::url::Scheme::HelperUrl(name) => Scheme::HelperUrl(name),
    };
    Some(UrlParts { scheme, host, port })
}

/// The variables that name a proxy.
pub open spec fn proxy_names() -> Seq<Seq<char>> {
    seq!["https_proxy"@, "HTTPS_PROXY"@, "http_proxy"@, "HTTP_PROXY"@, "all_proxy"@, "ALL_PROXY"@]
}

/// Whether an environment names a proxy.
pub open spec fn names_proxy(env: Seq<(Seq<char>, String)>) -> bool {
    exists|i: int| 0 <= i < proxy_names().len() && is_set(env, #[trigger] proxy_names()[i])
}

fn sets(env: &Table<String>, name: &str) -> (r: bool)
    ensures
        r == is_set(env@, name@),
{
    match env.get(name) {
        Some(v) => !v.as_str().is_empty(),
        None => false,
    }
}

/// Whether an environment names a proxy.
pub fn env_proxy(env: &Table<String>) -> (r: bool)
    ensures
        r == names_proxy(env@),
{
    proof {
        let p = proxy_names();
        assert(p[0] == "https_proxy"@);
        assert(p[1] == "HTTPS_PROXY"@);
        assert(p[2] == "http_proxy"@);
        assert(p[3] == "HTTP_PROXY"@);
        assert(p[4] == "all_proxy"@);
        assert(p[5] == "ALL_PROXY"@);
    }
    sets(env, "https_proxy") || sets(env, "HTTPS_PROXY") || sets(env, "http_proxy") || sets(env, "HTTP_PROXY") || sets(
        env,
        "all_proxy",
    ) || sets(env, "ALL_PROXY")
}

/// Whether a configuration names a proxy, given the values that it has for one: one is not blank.
pub fn git_config_proxy(values: &Vec<String>) -> (r: bool)
    ensures
        r == exists|i: int| 0 <= i < values@.len() && trimmed((#[trigger] values@[i])@).len() > 0,
{
    let mut i: usize = 0;
    while i < values.len()
        invariant
            i <= values@.len(),
            forall|j: int| 0 <= j < i ==> trimmed((#[trigger] values@[j])@).len() == 0,
        decreases values@.len() - i,
    {
        if !trim(&values[i]).as_str().is_empty() {
            return true;
        }
        i += 1;
    }
    false
}

/// The host and port to be tried before a fetch, given what the place is; none where there is nothing
/// to try: it is not reached by HTTP, has no host, or is reached by way of a proxy.
pub open spec fn probed(parts: Option<(Transport, Option<Seq<char>>, Option<u16>)>, proxied: bool) -> Option<
    (Seq<char>, u16),
> {
    match parts {
        Some(p) => if (p.0 is Http || p.0 is Https) && !proxied && p.1 is Some {
            Some((
                p.1->0,
                match p.2 {
                    Some(n) => n,
                    None => 443,
                },
            ))
        } else {
            None
        },
        None => None,
    }
}

/// What a place is, as values.
pub open spec fn parts_view(p: Option<UrlParts>) -> Option<(Transport, Option<Seq<char>>, Option<u16>)> {
    match p {
        Some(u) => Some((u.scheme@, opt_view(u.host), u.port)),
        None => None,
    }
}

/// The host and port to be tried before a fetch, given what the place is.
pub fn probe_target(parts: &Option<UrlParts>, proxied: bool) -> (r: Option<(String, u16)>)
    ensures
        match probed(parts_view(*parts), proxied) {
            Some(t) => r matches Some(x) && x.0@ == t.0 && x.1 == t.1,
            None => r is None,
        },
{
    match parts {
        Some(u) => if matches!(u.scheme, Scheme::Http | Scheme::Https) && !proxied {
            match &u.host {
                Some(host) => {
                    let port: u16 = match u.port {
                        Some(n) => n,
                        None => 443,
                    };
                    Some((host.clone(), port))
                },
                None => None,
            }
        } else {
            None
        },
        None => None,
    }
}

/// The host and port to be tried before a fetch from a place.
pub fn preflight(url: &str, env: &Table<String>, config_proxy: bool) -> (r: Option<(String, u16)>)
    ensures
        match probed(url_parts(url@), names_proxy(env@) || config_proxy) {
            Some(t) => r matches Some(x) && x.0@ == t.0 && x.1 == t.1,
            None => r is None,
        },
{
    let parts = parse_url(url);
    probe_target(&parts, env_proxy(env) || config_proxy)
}

/// Something that happens while a connection is tried.
#[derive(Debug)]
pub enum ProbeEvent {
    Connected,
    /// It cannot be made; the reason.
    Refused(String),
    /// Whoever tried is gone.
    Gone,
    /// Nothing yet; whether the user broke it off, and how many milliseconds have passed.
    Waiting(bool, u64),
}

/// What an event means for a connection that is tried: an end, good or bad, or that it is waited on.
pub fn probe_step(event: &ProbeEvent, host: &str, port: u16) -> (r: Option<Result<(), String>>)
    ensures
        match event {
            ProbeEvent::Connected => r matches Some(Ok(())),
            ProbeEvent::Refused(reason) => r matches Some(Err(m)) && m@ == reason@,
            ProbeEvent::Gone => r matches Some(Err(m)) && m@ == "the connection check for "@ + host@ + ":"@ + decimal_of(
                port as nat,
            ) + " failed"@,
            ProbeEvent::Waiting(interrupted, millis) => if *interrupted {
                r matches Some(Err(m)) && m@ == "interrupted"@
            } else if *millis >= PREFLIGHT_TIMEOUT_SECS * 1000 {
                r matches Some(Err(m)) && m@ == "no connection to "@ + host@ + ":"@ + decimal_of(port as nat)
                    + " within "@ + decimal_of(PREFLIGHT_TIMEOUT_SECS as nat) + "s"@
            } else {
                r is None
            },
        },
{
    match event {
        ProbeEvent::Connected => Some(Ok(())),
        ProbeEvent::Refused(reason) => Some(Err(reason.clone())),
        ProbeEvent::Gone => Some(
            Err(cat5("the connection check for ", host, ":", &decimal(port as u64), " failed")),
        ),
        ProbeEvent::Waiting(interrupted, millis) => if *interrupted {
            Some(Err("interrupted".to_owned()))
        } else if *millis >= PREFLIGHT_TIMEOUT_SECS * 1000 {
            Some(
                Err(
                    cat7(
                        "no connection to ",
                        host,
                        ":",
                        &decimal(port as u64),
                        " within ",
                        &decimal(PREFLIGHT_TIMEOUT_SECS),
                        "s",
                    ),
                ),
            )
        } else {
            None
        },
    }
}

/// Something that happens while a fetch is waited for.
#[derive(Debug, Clone, Copy, PartialEq, Eq, Structural)]
pub enum FetchEvent {
    /// It is done, well or badly.
    Reported,
    /// Whoever fetched is gone.
    Gone,
    /// Nothing yet; whether the user broke it off, and how many milliseconds have passed.
    Waiting(bool, u64),
}

/// What follows from an event while a fetch is waited for.
#[derive(Debug)]
pub enum FetchStep {
    Wait,
    /// What was reported stands.
    Take,
    /// The fetch has failed; the reason.
    Fail(String),
}

/// A wait for a fetch: the moment, in milliseconds from its start, at which the user broke it off, if
/// that was so.
#[derive(Debug)]
pub struct FetchWait {
    pub broken_off: Option<u64>,
}

impl FetchWait {
    /// A wait that was not broken off.
    pub fn new() -> (r: FetchWait)
        ensures
            r.broken_off is None,
    {
        FetchWait { broken_off: None }
    }

    /// Takes note of an event. A fetch that is broken off gets some time to clear up after itself, and
    /// counts as broken off however it ends.
    pub fn step(&mut self, event: FetchEvent) -> (r: FetchStep)
        ensures
            match old(self).broken_off {
                None => match event {
                    FetchEvent::Reported => r is Take && *final(self) == *old(self),
                    FetchEvent::Gone => r matches FetchStep::Fail(m) && m@
                        == "the machine database fetch stopped unexpectedly"@ && *final(self) == *old(self),
                    FetchEvent::Waiting(interrupted, now) => r is Wait && final(self).broken_off == (if interrupted {
                        Some(now)
                    } else {
                        None
                    }),
                },
                Some(since) => *final(self) == *old(self) && match event {
                    FetchEvent::Waiting(_, now) if now - since < FETCH_WIND_DOWN_SECS * 1000 => r is Wait,
                    _ => r matches FetchStep::Fail(m) && m@ == "interrupted"@,
                },
            },
    {
        match self.broken_off {
            None => match event {
                FetchEvent::Reported => FetchStep::Take,
                FetchEvent::Gone => FetchStep::Fail("the machine database fetch stopped unexpectedly".to_owned()),
                FetchEvent::Waiting(interrupted, now) => {
                    if interrupted {
                        self.broken_off = Some(now);
                    }
                    FetchStep::Wait
                },
            },
            Some(since) => match event {
                FetchEvent::Waiting(_, now) => if now < since || now - since < FETCH_WIND_DOWN_SECS * 1000 {
                    FetchStep::Wait
                } else {
                    FetchStep::Fail("interrupted".to_owned())
                },
                _ => FetchStep::Fail("interrupted".to_owned()),
            },
        }
    }
}

/// A record is read out of a document entry by entry, each under its own key, and only where each is
/// there and of its type.
pub proof fn records_are_read_by_key(entries: Seq<(Seq<char>, Toml)>, s: StampState)
    ensures
        stamp_in(Toml::Dict(entries)) == Some(s) <==> {
            &&& field(entries, "tip_generation"@) == Some(Toml::Int(s.tip_generation as int))
            &&& field(entries, "tip"@) == Some(Toml::Str(s.tip))
            &&& field(entries, "commit"@) == Some(Toml::Str(s.commit))
        },
{
}

/// A copy is used as it is for six hours after the last attempt and no longer, never where asking is
/// forced, and never where there is no copy or no attempt on record.
pub proof fn recent_copies_are_used(mode: Mode, has_copy: bool, age: Option<u128>)
    ensures
        !is_fresh(Mode::Force, has_copy, age),
        !is_fresh(mode, false, age),
        !is_fresh(mode, has_copy, None),
        age is Some ==> is_fresh(Mode::Throttled, true, age) == (age->0 < 6 * 60 * 60 * 1_000_000_000),
        age is Some && is_fresh(mode, has_copy, age) ==> forall|sooner: u128|
            sooner <= age->0 ==> #[trigger] is_fresh(mode, has_copy, Some(sooner)),
{
}

/// A revision's shortened name is where its full name begins, and seven characters of it where it has
/// that many.
pub proof fn short_names_begin_the_full_ones(id: Seq<char>)
    ensures
        short_of(id).len() <= 7,
        begins_with(id, short_of(id)),
        id.len() >= 7 ==> short_of(id).len() == 7,
        id.len() <= 7 ==> short_of(id) == id,
{
    assert(id.take(id.len() as int) =~= id);
}

/// Of a reason only what comes before its first newline is shown.
pub proof fn reasons_are_cut_at_the_newline(line: Seq<char>, rest: Seq<char>)
    requires
        forall|i: int| 0 <= i < line.len() ==> line[i] != '\n',
        line.len() == 0 || line.last() != '\r',
    ensures
        first_line_of(line + seq!['\n'] + rest) == line,
        first_line_of(line) == line,
{
    newlines_end_lines(line, rest);
    if line.len() == 0 {
        assert(line =~= Seq::empty());
    }
}

/// After an attempt that put nothing in place, the copy's own revision stays on record. The tip on
/// record is the one that was learned; else the one on record before, whatever the cache says; else the
/// cached one; and where nothing at all is known of a tip, the copy itself stands for it.
pub proof fn learned_tips_are_recorded_first(
    known: Option<StampState>,
    cached: Option<(u32, Seq<char>)>,
    generation: u32,
    commit: Seq<char>,
    tip: (u32, Seq<char>),
)
    ensures
        kept_stamp(known, cached, generation, commit, Some(tip)) == (StampState {
            tip_generation: tip.0,
            tip: tip.1,
            commit,
        }),
        known is Some ==> kept_stamp(known, cached, generation, commit, None) == (StampState {
            tip_generation: known->0.tip_generation,
            tip: known->0.tip,
            commit,
        }),
        kept_stamp(None, Some(tip), generation, commit, None) == (StampState {
            tip_generation: tip.0,
            tip: tip.1,
            commit,
        }),
        kept_stamp(None, None, generation, commit, None) == (StampState {
            tip_generation: generation,
            tip: commit,
            commit,
        }),
{
}

/// A revision is of the generation that its file names, and of none, which is zero, where there is no
/// such file or it names none.
pub proof fn revisions_name_their_generation(text: Seq<char>, n: u32)
    ensures
        revision_generation(None) == 0,
        generation_in(text) is None ==> revision_generation(Some(text)) == 0,
        generation_in(text) == Some(n) ==> revision_generation(Some(text)) == n,
{
}

/// The search for a generation ends at a revision exactly where that one is of the generation and every
/// one between it and the tip is of a newer one.
pub proof fn searches_pass_newer_revisions_only(generations: Seq<u32>, generation: u32, k: int)
    ensures
        generation_place(generations, generation) == Some(k) <==> {
            &&& 0 <= k < generations.len()
            &&& generations[k] == generation
            &&& forall|j: int| 0 <= j < k ==> #[trigger] generations[j] > generation
        },
{
    let n = generations.len() as int;
    let p = not_newer(generations, generation);
    crate::search::lemma_first_from(0, n, p);
    let f = first_where(n, p);
    if generation_place(generations, generation) == Some(k) {
        assert forall|j: int| 0 <= j < k implies #[trigger] generations[j] > generation by {
            assert(!p(j));
        }
    }
    if 0 <= k < n && generations[k] == generation && (forall|j: int|
        0 <= j < k ==> #[trigger] generations[j] > generation) {
        assert(p(k));
        lemma_first_from_is(0, n, p, k);
    }
}

/// No path that is taken begins with a slash, has two dots for one of its parts, or one dot for its
/// first; and every path that does none of that is taken.
pub proof fn safe_paths_do_not_go_up(path: Seq<char>)
    ensures
        is_safe(path) <==> {
            &&& path.len() > 0 ==> path[0] != '/'
            &&& pieces_of(path, '/')[0] != seq!['.']
            &&& !pieces_of(path, '/').contains(seq!['.', '.'])
        },
{
    reveal_strlit("/");
    reveal_strlit(".");
    reveal_strlit("..");
    pieces_make_up_the_text(path, '/');
    assert("."@ =~= seq!['.']);
    assert(".."@ =~= seq!['.', '.']);
    assert("/"@ =~= seq!['/']);
    if path.len() > 0 {
        assert(path.take(1)[0] == path[0]);
        if path[0] == '/' {
            assert(path.take(1) =~= "/"@);
        }
    }
}

/// A mark of retirement goes with the tree that it names. While a link points at the tree, the mark
/// alone is removed. Else tree and mark are removed together, once the mark is more than a day old, and
/// until then neither is.
pub proof fn retired_trees_are_kept_for_a_day(e: PruneEntry, all: Seq<PruneEntry>, tree: Seq<char>)
    requires
        e.name@ == tree + seq!['.', 'r', 'e', 't', 'i', 'r', 'e', 'd'],
        !holds(e.name@, seq!['.', 't', 'm', 'p', '-']),
    ensures
        is_current(all, tree) ==> removed_for(e, all) == seq![e.name@],
        !is_current(all, tree) && e.age is Some && e.age->0 > 24 * 60 * 60 * 1_000_000_000 ==> removed_for(e, all)
            == seq![tree, e.name@],
        !is_current(all, tree) && (e.age is None || e.age->0 <= 24 * 60 * 60 * 1_000_000_000) ==> removed_for(e, all)
            == Seq::<Seq<char>>::empty(),
{
    reveal_strlit(".retired");
    reveal_strlit(".tmp-");
    assert(".retired"@ =~= seq!['.', 'r', 'e', 't', 'i', 'r', 'e', 'd']);
    assert(".tmp-"@ =~= seq!['.', 't', 'm', 'p', '-']);
    assert(e.name@.skip(tree.len() as int) =~= ".retired"@);
    assert(e.name@.take(tree.len() as int) =~= tree);
}

/// A leftover is removed once it is more than an hour old, and not before; what is neither a leftover
/// nor a mark of retirement is the cause of no removal.
pub proof fn leftovers_are_kept_for_an_hour(e: PruneEntry, all: Seq<PruneEntry>)
    ensures
        holds(e.name@, seq!['.', 't', 'm', 'p', '-']) ==> removed_for(e, all) == (if e.age is Some && e.age->0 > 60 * 60
            * 1_000_000_000 {
            seq![e.name@]
        } else {
            Seq::empty()
        }),
        !holds(e.name@, seq!['.', 't', 'm', 'p', '-']) && !ends_with(
            e.name@,
            seq!['.', 'r', 'e', 't', 'i', 'r', 'e', 'd'],
        ) ==> removed_for(e, all) == Seq::<Seq<char>>::empty(),
{
    reveal_strlit(".retired");
    reveal_strlit(".tmp-");
    assert(".retired"@ =~= seq!['.', 'r', 'e', 't', 'i', 'r', 'e', 'd']);
    assert(".tmp-"@ =~= seq!['.', 't', 'm', 'p', '-']);
}

/// What is removed is what is removed on account of one entry or another.
pub proof fn entries_are_cleared_one_by_one(entries: Seq<PruneEntry>, all: Seq<PruneEntry>, gone: Seq<char>)
    ensures
        removed_all(entries, all).contains(gone) <==> exists|i: int|
            0 <= i < entries.len() && removed_for(#[trigger] entries[i], all).contains(gone),
    decreases entries.len(),
{
    if entries.len() > 0 {
        let front = entries.drop_last();
        let rest = removed_all(front, all);
        let own = removed_for(entries.last(), all);
        entries_are_cleared_one_by_one(front, all, gone);
        assert(entries[entries.len() - 1] == entries.last());
        if rest.contains(gone) {
            let i = choose|i: int| 0 <= i < front.len() && removed_for(#[trigger] front[i], all).contains(gone);
            assert(entries[i] == front[i]);
            let j = choose|j: int| 0 <= j < rest.len() && rest[j] == gone;
            assert((rest + own)[j] == gone);
        }
        if own.contains(gone) {
            let j = choose|j: int| 0 <= j < own.len() && own[j] == gone;
            assert((rest + own)[rest.len() + j] == gone);
        }
        if (rest + own).contains(gone) {
            let j = choose|j: int| 0 <= j < (rest + own).len() && (rest + own)[j] == gone;
            if j < rest.len() {
                assert(rest[j] == gone);
            } else {
                assert(own[j - rest.len()] == gone);
            }
        }
        assert forall|i: int| 0 <= i < entries.len() && removed_for(#[trigger] entries[i], all).contains(gone) implies (
        rest + own).contains(gone) by {
            if i < front.len() {
                assert(front[i] == entries[i]);
            }
        }
    } else {
        assert(removed_all(entries, all) =~= Seq::empty());
    }
}

/// A tree is current where a link of some generation leads to it, and only there: other entries that
/// lead to it do not keep it.
pub proof fn links_of_generations_keep_trees(e: PruneEntry, tree: Seq<char>, number: Seq<char>)
    requires
        e.target is Some,
        file_name_of(e.target->0@) == Some(tree),
    ensures
        e.name@ == seq!['g', 'e', 'n', '-'] + number ==> links_to(e, tree),
        !begins_with(e.name@, seq!['g', 'e', 'n', '-']) ==> !links_to(e, tree),
        forall|other: Seq<char>| other != tree ==> !(#[trigger] links_to(e, other)),
{
    reveal_strlit("gen-");
    assert("gen-"@ =~= seq!['g', 'e', 'n', '-']);
    if e.name@ == seq!['g', 'e', 'n', '-'] + number {
        assert(e.name@.take(4) =~= "gen-"@);
    }
}

/// Lock files are looked for at the top of the cache, anywhere below `refs`, and in `objects/pack`
/// itself: nowhere else.
pub proof fn locks_stand_where_fetches_leave_them(parts: Seq<Seq<char>>, name: Seq<char>)
    ensures
        is_lock_place(seq![name]),
        is_lock_place(seq!["objects"@, "pack"@, name]),
        parts.len() > 0 ==> is_lock_place(seq!["refs"@] + parts),
        parts.len() > 0 && name != "refs"@ && name != "objects"@ ==> !is_lock_place(seq![name] + parts),
        parts.len() > 0 && name != "pack"@ ==> !is_lock_place(seq!["objects"@, name] + parts),
        parts.len() > 1 ==> !is_lock_place(seq!["objects"@, "pack"@] + parts),
{
    reveal_strlit("refs");
    reveal_strlit("objects");
    reveal_strlit("pack");
    assert("refs"@.len() == 4);
    assert("objects"@.len() == 7);
    assert((seq!["refs"@] + parts)[0] == "refs"@);
    assert((seq![name] + parts)[0] == name);
    assert((seq!["objects"@, name] + parts)[0] == "objects"@);
    assert((seq!["objects"@, name] + parts)[1] == name);
    assert((seq!["objects"@, "pack"@] + parts)[0] == "objects"@);
}

/// A proxy is named by any of six variables, in small or capital letters, that is there and not empty.
pub proof fn proxies_are_named_by_the_environment(env: Seq<(Seq<char>, String)>)
    ensures
        names_proxy(env) <==> {
            ||| is_set(env, "http_proxy"@)
            ||| is_set(env, "https_proxy"@)
            ||| is_set(env, "all_proxy"@)
            ||| is_set(env, "HTTP_PROXY"@)
            ||| is_set(env, "HTTPS_PROXY"@)
            ||| is_set(env, "ALL_PROXY"@)
        },
        forall|name: Seq<char>| #[trigger]
            is_set(env, name) <==> has_name(env, name) && value_of(env, name)@ != Seq::<char>::empty(),
{
    let p = proxy_names();
    assert(p[0] == "https_proxy"@);
    assert(p[1] == "HTTPS_PROXY"@);
    assert(p[2] == "http_proxy"@);
    assert(p[3] == "HTTP_PROXY"@);
    assert(p[4] == "all_proxy"@);
    assert(p[5] == "ALL_PROXY"@);
    assert forall|name: Seq<char>| #[trigger] is_set(env, name) <==> has_name(env, name) && value_of(env, name)@
        != Seq::<char>::empty() by {
        if value_of(env, name)@.len() == 0 {
            assert(value_of(env, name)@ =~= Seq::empty());
        }
    }
}

/// Before a fetch the place's own host is tried, at its own port where it has one; nothing is tried
/// by way of a proxy, nor where the place has no host, nor where it is not reached over HTTP.
pub proof fn hosts_are_tried_at_their_port(secure: bool, host: Seq<char>, port: u16, other: Transport)
    ensures
        ({
            let over = if secure {
                Transport::Https
            } else {
                Transport::Http
            };
            &&& probed(Some((over, Some(host), Some(port))), false) == Some((host, port))
            &&& probed(Some((over, Some(host), None)), false) == Some((host, 443u16))
            &&& probed(Some((over, Some(host), Some(port))), true) is None
            &&& probed(Some((over, None, Some(port))), false) is None
        }),
        other !is Http && other !is Https ==> probed(Some((other, Some(host), Some(port))), false) is None,
        probed(None, false) is None,
{
}

} // verus!
