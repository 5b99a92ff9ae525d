//! Which machine a host belongs to: the host's name, and the two tests by which a machine can
//! claim it.

use crate::pattern::{compile, is_match, pattern_fault, pattern_matches, pattern_of};
use crate::text::{
    all_digits, begins_with, cat2, cat3, cat4, cat5, chars_of, find, index_of, is_digit, is_number, lemma_index_of_is,
    lines, lines_of, number_of, parse_number, same, show_text, shown_text, starts, string_of, trim, trimmed,
    unsigned_part, views,
};
use regex::Regex;
use vstd::prelude::*;

verus! {

/// The name of the host that is looked up: the one that is forced, or else what the file
/// `.hostname` holds, blanks aside, or else the system's.
pub fn resolve_hostname(forced: Option<&str>, file: Option<&str>, system: &str) -> (r: String)
    ensures
        r@ == (match forced {
            Some(h) => h@,
            None => match file {
                Some(text) => if trimmed(text@).len() > 0 {
                    trimmed(text@)
                } else {
                    system@
                },
                None => system@,
            },
        }),
{
    if let Some(h) = forced {
        return h.to_owned();
    }
    if let Some(text) = file {
        let name = trim(text);
        if !name.as_str().is_empty() {
            return name;
        }
    }
    system.to_owned()
}

/// The first label of a host's name.
pub open spec fn label_of(hostname: Seq<char>) -> Seq<char> {
    hostname.take(index_of(hostname, '.'))
}

/// The first label of a host's name: `mike1` of `mike1.hpc.lsu.edu`.
pub fn short_name(hostname: &str) -> (r: String)
    ensures
        r@ == label_of(hostname@),
{
    let cs = chars_of(hostname);
    assert(cs@.skip(0) =~= cs@);
    let k: usize = find(&cs, 0, '.');
    let r = string_of(&cs, 0, k);
    assert(r@ =~= hostname@.take(k as int));
    r
}

/// Why a machine's pattern for host names is of no use.
pub enum RegexpFault {
    Unreadable(Seq<char>),
    Empty(Seq<char>),
    Invalid(Seq<char>, Seq<char>),
}

/// Why a machine's pattern for host names is of no use.
#[derive(Debug)]
pub enum RegexpError {
    /// The file cannot be read; the reason.
    Unreadable(String),
    /// The file holds nothing.
    Empty(String),
    /// The file holds no pattern; the file and the reason.
    Invalid(String, String),
}

impl View for RegexpError {
    type V = RegexpFault;

    open spec fn view(&self) -> RegexpFault {
        match *self {
            RegexpError::Unreadable(reason) => RegexpFault::Unreadable(reason@),
            RegexpError::Empty(path) => RegexpFault::Empty(path@),
            RegexpError::Invalid(path, reason) => RegexpFault::Invalid(path@, reason@),
        }
    }
}

impl RegexpError {
    /// The message for the user, as text.
    pub open spec fn text(self) -> Seq<char> {
        match self {
            RegexpError::Unreadable(reason) => reason@,
            RegexpError::Empty(path) => path@ + " is empty"@,
            RegexpError::Invalid(path, reason) => path@ + " is not a valid regex: "@ + reason@,
        }
    }

    /// The message for the user.
    pub fn message(&self) -> (r: String)
        ensures
            r@ == self.text(),
    {
        match self {
            RegexpError::Unreadable(reason) => reason.clone(),
            RegexpError::Empty(path) => cat2(path, " is empty"),
            RegexpError::Invalid(path, reason) => cat3(path, " is not a valid regex: ", reason),
        }
    }
}

/// What stands against a pattern that a file holds, blanks aside: that it is empty, or no pattern.
pub open spec fn regexp_fault(path: Seq<char>, text: Seq<char>) -> Option<RegexpFault> {
    if trimmed(text).len() == 0 {
        Some(RegexpFault::Empty(path))
    } else {
        match pattern_fault(trimmed(text)) {
            Some(reason) => Some(RegexpFault::Invalid(path, reason)),
            None => None,
        }
    }
}

/// The pattern that a file holds: all of its text, blanks at both ends aside.
pub fn load_regexp(path: &str, text: &str) -> (r: Result<Regex, RegexpError>)
    ensures
        match regexp_fault(path@, text@) {
            Some(f) => r is Err && r->Err_0@ == f,
            None => r is Ok && pattern_of(r->Ok_0) == trimmed(text@),
        },
{
    let pattern = trim(text);
    if pattern.as_str().is_empty() {
        return Err(RegexpError::Empty(path.to_owned()));
    }
    match compile(&pattern) {
        Ok(re) => Ok(re),
        Err(reason) => Err(RegexpError::Invalid(path.to_owned(), reason)),
    }
}

/// Whether a pattern claims a host: by its whole name, or by its first label.
pub open spec fn claims(pattern: Seq<char>, hostname: Seq<char>) -> bool {
    pattern_matches(pattern, hostname) || pattern_matches(pattern, label_of(hostname))
}

/// Whether a pattern claims a host.
pub fn regexp_claims(re: &Regex, hostname: &str) -> (r: bool)
    ensures
        r == claims(pattern_of(*re), hostname@),
{
    is_match(re, hostname) || is_match(re, &short_name(hostname))
}

/// What became of the file of a machine's pattern.
#[derive(Debug)]
pub enum PatternFile {
    Absent,
    /// It is there but cannot be read; the reason.
    Unreadable(String),
    Text(String),
}

/// What a machine's pattern says of a host, with what there is to warn of.
#[derive(Debug)]
pub struct Verdict {
    /// None where the machine has no pattern.
    pub claims: Option<bool>,
    pub warning: Option<RegexpError>,
}

/// What a machine's pattern says of a host: nothing where there is no file; no where the file is of
/// no use, which is worth a warning.
pub fn regexp_verdict(path: &str, file: &PatternFile, hostname: &str) -> (r: Verdict)
    ensures
        match file {
            PatternFile::Absent => r.claims is None && r.warning is None,
            PatternFile::Unreadable(reason) => r.claims == Some(false) && r.warning is Some && r.warning->0@
                == RegexpFault::Unreadable(reason@),
            PatternFile::Text(text) => match regexp_fault(path@, text@) {
                Some(f) => r.claims == Some(false) && r.warning is Some && r.warning->0@ == f,
                None => r.claims == Some(claims(trimmed(text@), hostname@)) && r.warning is None,
            },
        },
{
    match file {
        PatternFile::Absent => Verdict { claims: None, warning: None },
        PatternFile::Unreadable(reason) => Verdict {
            claims: Some(false),
            warning: Some(RegexpError::Unreadable(reason.clone())),
        },
        PatternFile::Text(text) => match load_regexp(path, text) {
            Ok(re) => Verdict { claims: Some(regexp_claims(&re, hostname)), warning: None },
            Err(e) => Verdict { claims: Some(false), warning: Some(e) },
        },
    }
}

/// The program that asks every script, in one interpreter, whether it claims a host. It writes one
/// line per script: the script's number, a blank, and `1`, `0`, or `E` with what was raised.
pub const PROBE: &'static str = "import contextlib, runpy, sys
host = sys.argv[1]
out = sys.stdout
for i, path in enumerate(sys.argv[2:]):
    try:
        with contextlib.redirect_stdout(sys.stderr):
            mod = runpy.run_path(path)
            line = '1' if mod['is_machine'](host) else '0'
    except KeyboardInterrupt:
        raise
    except BaseException as e:
        line = 'E' + ('%s: %s' % (type(e).__name__, e)).replace('\\n', ' ')
    out.write('%d %s\\n' % (i, line))
";

/// Why a script gave no answer.
pub enum ProbeFault {
    Raised(Seq<char>, Seq<char>, Seq<char>),
    Silent(Seq<char>),
}

/// Why a script gave no answer.
#[derive(Debug)]
pub enum ProbeError {
    /// The script raised something when asked for the host.
    Raised(String, String, String),
    /// Nothing was heard of the script.
    Silent(String),
}

impl View for ProbeError {
    type V = ProbeFault;

    open spec fn view(&self) -> ProbeFault {
        match *self {
            ProbeError::Raised(script, host, what) => ProbeFault::Raised(script@, host@, what@),
            ProbeError::Silent(script) => ProbeFault::Silent(script@),
        }
    }
}

impl ProbeError {
    /// The message for the user, as text.
    pub open spec fn text(self) -> Seq<char> {
        match self {
            ProbeError::Raised(script, host, what) => script@ + " raised while evaluating is_machine("@ + shown_text(
                host@,
            ) + "): "@ + what@,
            ProbeError::Silent(script) => "no verdict from python3 for "@ + script@,
        }
    }

    /// The message for the user.
    pub fn message(&self) -> (r: String)
        ensures
            r@ == self.text(),
    {
        match self {
            ProbeError::Raised(script, host, what) => cat5(
                script,
                " raised while evaluating is_machine(",
                &show_text(host),
                "): ",
                what,
            ),
            ProbeError::Silent(script) => cat2("no verdict from python3 for ", script),
        }
    }
}

/// The script that a line of the probe's output is about, of `n`, and what it says of it.
pub open spec fn answer_on(line: Seq<char>, n: nat) -> Option<(int, Seq<char>)> {
    let k = index_of(line, ' ');
    if k < line.len() && is_number(line.take(k), u64::MAX as nat) && number_of(unsigned_part(line.take(k))) < n {
        Some((number_of(unsigned_part(line.take(k))) as int, line.skip(k + 1)))
    } else {
        None
    }
}

/// What the probe's output says of each of `n` scripts: the last line about it counts.
pub open spec fn answers(all: Seq<Seq<char>>, n: nat) -> Seq<Option<Seq<char>>>
    decreases all.len(),
{
    if all.len() == 0 {
        Seq::new(n, |i: int| None)
    } else {
        let rest = answers(all.drop_last(), n);
        match answer_on(all.last(), n) {
            Some(a) => rest.update(a.0, Some(a.1)),
            None => rest,
        }
    }
}

proof fn lemma_answers_len(all: Seq<Seq<char>>, n: nat)
    ensures
        answers(all, n).len() == n,
    decreases all.len(),
{
    if all.len() > 0 {
        lemma_answers_len(all.drop_last(), n);
    }
}

/// What an answer means: yes, no, or the message that follows the `E`.
pub open spec fn answer_means(
    answer: Option<Seq<char>>,
    script: Seq<char>,
    hostname: Seq<char>,
) -> Result<bool, ProbeFault> {
    match answer {
        None => Err(ProbeFault::Silent(script)),
        Some(a) => if a == "1"@ {
            Ok(true)
        } else if a == "0"@ {
            Ok(false)
        } else if begins_with(a, "E"@) {
            Err(ProbeFault::Raised(script, hostname, a.skip(1)))
        } else {
            Err(ProbeFault::Raised(script, hostname, a))
        },
    }
}

/// Whether a verdict is the one that is meant.
pub open spec fn is_verdict(r: Result<bool, ProbeError>, meant: Result<bool, ProbeFault>) -> bool {
    match meant {
        Ok(b) => r is Ok && r->Ok_0 == b,
        Err(f) => r is Err && r->Err_0@ == f,
    }
}

fn read_answer(answer: &Option<String>, script: &str, hostname: &str) -> (r: Result<bool, ProbeError>)
    ensures
        is_verdict(
            r,
            answer_means(
                match answer {
                    Some(a) => Some(a@),
                    None => None,
                },
                script@,
                hostname@,
            ),
        ),
{
    match answer {
        None => Err(ProbeError::Silent(script.to_owned())),
        Some(a) => {
            if same(a, "1") {
                Ok(true)
            } else if same(a, "0") {
                Ok(false)
            } else if starts(a, "E") {
                proof {
                    reveal_strlit("E");
                }
                let cs = chars_of(a);
                let what = string_of(&cs, 1, cs.len());
                assert(what@ =~= a@.skip(1));
                Err(ProbeError::Raised(script.to_owned(), hostname.to_owned(), what))
            } else {
                Err(ProbeError::Raised(script.to_owned(), hostname.to_owned(), a.clone()))
            }
        },
    }
}

/// The answers, as text.
pub open spec fn opt_texts(list: Seq<Option<String>>) -> Seq<Option<Seq<char>>> {
    list.map_values(
        |a: Option<String>|
            match a {
                Some(s) => Some(s@),
                None => None,
            },
    )
}

fn read_answers(output: &str, n: usize) -> (r: Vec<Option<String>>)
    ensures
        opt_texts(r@) == answers(lines_of(output@), n as nat),
        r@.len() == n,
{
    let rows = lines(output);
    let ghost all = lines_of(output@);
    let mut out: Vec<Option<String>> = Vec::new();
    let mut i: usize = 0;
    while i < n
        invariant
            i <= n,
            out@.len() == i,
            forall|j: int| 0 <= j < i ==> #[trigger] out@[j] is None,
        decreases n - i,
    {
        out.push(None);
        i += 1;
    }
    let mut k: usize = 0;
    proof {
        assert(all.take(0) =~= Seq::empty());
        assert(opt_texts(out@) =~= answers(all.take(0), n as nat));
    }
    while k < rows.len()
        invariant
            k <= rows@.len(),
            all == views(rows@),
            out@.len() == n,
            opt_texts(out@) == answers(all.take(k as int), n as nat),
        decreases rows@.len() - k,
    {
        let cs = chars_of(&rows[k]);
        assert(cs@.skip(0) =~= cs@);
        let at: usize = find(&cs, 0, ' ');
        proof {
            assert(all.take(k + 1).drop_last() =~= all.take(k as int));
            assert(all.take(k + 1).last() == cs@);
        }
        if at < cs.len() {
            let number = string_of(&cs, 0, at);
            assert(number@ =~= cs@.take(at as int));
            if let Some(index) = parse_number(&number, 18446744073709551615) {
                if index < n as u64 {
                    let rest = string_of(&cs, at + 1, cs.len());
                    assert(rest@ =~= cs@.skip(at + 1));
                    let ghost before = out@;
                    out.set(index as usize, Some(rest));
                    assert(opt_texts(out@) =~= opt_texts(before).update(index as int, Some(rest@)));
                }
            }
        }
        k += 1;
    }
    assert(all.take(k as int) =~= all);
    out
}

/// How a run of the probe ended.
#[derive(Debug)]
pub struct ProbeRun {
    /// The user broke it off.
    pub interrupted: bool,
    pub success: bool,
    /// The exit status, in words.
    pub status: String,
    pub stdout: String,
    pub stderr: String,
}

/// Why no script was asked.
pub enum BatchFault {
    Interrupted,
    Failed(Seq<char>, Seq<char>),
}

/// Why no script was asked.
#[derive(Debug)]
pub enum BatchError {
    Interrupted,
    /// The interpreter failed; its status and what it said.
    Failed(String, String),
}

impl View for BatchError {
    type V = BatchFault;

    open spec fn view(&self) -> BatchFault {
        match *self {
            BatchError::Interrupted => BatchFault::Interrupted,
            BatchError::Failed(status, said) => BatchFault::Failed(status@, said@),
        }
    }
}

impl BatchError {
    /// The message for the user, as text.
    pub open spec fn text(self) -> Seq<char> {
        match self {
            BatchError::Interrupted => "interrupted"@,
            BatchError::Failed(status, said) => "python3 failed while evaluating discover.py scripts ("@ + status@
                + "): "@ + said@,
        }
    }

    /// The message for the user.
    pub fn message(&self) -> (r: String)
        ensures
            r@ == self.text(),
    {
        match self {
            BatchError::Interrupted => "interrupted".to_owned(),
            BatchError::Failed(status, said) => cat4(
                "python3 failed while evaluating discover.py scripts (",
                status,
                "): ",
                said,
            ),
        }
    }
}

/// Whether verdicts are those that a run of the probe gave on the scripts.
pub open spec fn are_verdicts(
    r: Seq<Result<bool, ProbeError>>,
    scripts: Seq<String>,
    hostname: Seq<char>,
    output: Seq<char>,
) -> bool {
    let said = answers(lines_of(output), scripts.len());
    &&& r.len() == scripts.len()
    &&& forall|i: int| 0 <= i < r.len() ==> is_verdict(#[trigger] r[i], answer_means(said[i], scripts[i]@, hostname))
}

/// What a run of the probe says of each script. The whole run fails where it was broken off or the
/// interpreter failed; a script that raised something fails alone.
pub fn probe_all(scripts: &Vec<String>, hostname: &str, run: &ProbeRun) -> (r: Result<
    Vec<Result<bool, ProbeError>>,
    BatchError,
>)
    ensures
        if scripts@.len() == 0 {
            r is Ok && r->Ok_0@.len() == 0
        } else if run.interrupted {
            r is Err && r->Err_0@ == BatchFault::Interrupted
        } else if !run.success {
            r is Err && r->Err_0@ == BatchFault::Failed(run.status@, trimmed(run.stderr@))
        } else {
            r is Ok && are_verdicts(r->Ok_0@, scripts@, hostname@, run.stdout@)
        },
{
    if scripts.len() == 0 {
        return Ok(Vec::new());
    }
    if run.interrupted {
        return Err(BatchError::Interrupted);
    }
    if !run.success {
        return Err(BatchError::Failed(run.status.clone(), trim(&run.stderr)));
    }
    let said = read_answers(&run.stdout, scripts.len());
    let ghost expected = answers(lines_of(run.stdout@), scripts@.len());
    let mut out: Vec<Result<bool, ProbeError>> = Vec::new();
    let mut i: usize = 0;
    while i < scripts.len()
        invariant
            i <= scripts@.len(),
            said@.len() == scripts@.len(),
            opt_texts(said@) == expected,
            out@.len() == i,
            forall|j: int| 0 <= j < i ==> is_verdict(
                #[trigger] out@[j],
                answer_means(expected[j], scripts@[j]@, hostname@),
            ),
        decreases scripts@.len() - i,
    {
        assert(expected[i as int] == opt_texts(said@)[i as int]);
        out.push(read_answer(&said[i], &scripts[i], hostname));
        i += 1;
    }
    Ok(out)
}

/// Why one script gave no answer.
#[derive(Debug)]
pub enum AskError {
    Batch(BatchError),
    Script(ProbeError),
}

impl AskError {
    /// The message for the user.
    pub fn message(&self) -> (r: String)
        ensures
            r@ == (match self {
                AskError::Batch(e) => e.text(),
                AskError::Script(e) => e.text(),
            }),
    {
        match self {
            AskError::Batch(e) => e.message(),
            AskError::Script(e) => e.message(),
        }
    }
}

/// What a run of the probe on one script says.
pub fn is_machine(script: &str, hostname: &str, run: &ProbeRun) -> (r: Result<bool, AskError>)
    ensures
        if run.interrupted {
            r matches Err(AskError::Batch(e)) && e@ == BatchFault::Interrupted
        } else if !run.success {
            r matches Err(AskError::Batch(e)) && e@ == BatchFault::Failed(run.status@, trimmed(run.stderr@))
        } else {
            match answer_means(answers(lines_of(run.stdout@), 1)[0], script@, hostname@) {
                Ok(b) => r is Ok && r->Ok_0 == b,
                Err(f) => r matches Err(AskError::Script(e)) && e@ == f,
            }
        },
{
    let mut scripts: Vec<String> = Vec::new();
    scripts.push(script.to_owned());
    match probe_all(&scripts, hostname, run) {
        Err(e) => Err(AskError::Batch(e)),
        Ok(mut verdicts) => {
            assert(is_verdict(
                verdicts@[0],
                answer_means(answers(lines_of(run.stdout@), 1)[0], scripts@[0]@, hostname@),
            ));
            match verdicts.pop() {
                Some(Ok(b)) => Ok(b),
                Some(Err(e)) => Err(AskError::Script(e)),
                None => Err(AskError::Batch(BatchError::Interrupted)),
            }
        },
    }
}

/// A script's verdict rests on the last line about it alone: a later line about another script
/// changes nothing.
pub proof fn answers_keep_scripts_apart(all: Seq<Seq<char>>, line: Seq<char>, n: nat, i: int)
    requires
        0 <= i < n,
        answer_on(line, n) matches Some(a) ==> a.0 != i,
    ensures
        answers(all.push(line), n)[i] == answers(all, n)[i],
{
    assert(all.push(line).drop_last() =~= all);
    lemma_answers_len(all, n);
}

/// The first label of a host's name ends before the first dot; a name without one is its own label.
pub proof fn labels_end_at_the_first_dot(label: Seq<char>, rest: Seq<char>)
    requires
        forall|i: int| 0 <= i < label.len() ==> label[i] != '.',
    ensures
        label_of(label + seq!['.'] + rest) == label,
        label_of(label) == label,
{
    let s = label + seq!['.'] + rest;
    let n = label.len() as int;
    assert(s[n] == '.');
    lemma_index_of_is(s, '.', n);
    assert(s.take(n) =~= label);
    lemma_index_of_is(label, '.', n);
    assert(label.take(n) =~= label);
}

/// A machine's pattern claims a host by the whole of its name or by its first label; either is enough,
/// and nothing else is.
pub proof fn hosts_are_claimed_by_name_or_label(pattern: Seq<char>, label: Seq<char>, rest: Seq<char>)
    requires
        forall|i: int| 0 <= i < label.len() ==> label[i] != '.',
    ensures
        claims(pattern, label + seq!['.'] + rest) <==> pattern_matches(pattern, label + seq!['.'] + rest)
            || pattern_matches(pattern, label),
        claims(pattern, label) <==> pattern_matches(pattern, label),
{
    labels_end_at_the_first_dot(label, rest);
}

/// A pattern is of use exactly where it is not blank and can be read; what is around it does not matter.
pub proof fn blank_patterns_are_of_no_use(path: Seq<char>, text: Seq<char>)
    ensures
        trimmed(text).len() == 0 ==> regexp_fault(path, text) == Some(RegexpFault::Empty(path)),
        trimmed(text).len() > 0 && pattern_fault(trimmed(text)) is None ==> regexp_fault(path, text) is None,
        trimmed(text).len() > 0 && pattern_fault(trimmed(text)) is Some ==> regexp_fault(path, text) == Some(
            RegexpFault::Invalid(path, pattern_fault(trimmed(text))->0),
        ),
{
}

/// A line of the probe's output answers for the script whose number it begins with, with all that comes
/// behind the blank, and replaces what was said of it before.
pub proof fn answers_go_by_number(all: Seq<Seq<char>>, number: Seq<char>, said: Seq<char>, n: nat)
    requires
        number.len() > 0,
        all_digits(number),
        number_of(number) < n,
        n <= u64::MAX,
    ensures
        ({
            let line = number + seq![' '] + said;
            &&& answers(all.push(line), n).len() == n
            &&& answers(all.push(line), n)[number_of(number) as int] == Some(said)
            &&& forall|i: int|
                0 <= i < n && i != number_of(number) ==> #[trigger] answers(all.push(line), n)[i] == answers(all, n)[i]
        }),
{
    let line = number + seq![' '] + said;
    let k = number.len() as int;
    assert forall|j: int| 0 <= j < k implies line[j] != ' ' by {
        assert(line[j] == number[j]);
        assert(is_digit(number[j]));
    }
    assert(line[k] == ' ');
    lemma_index_of_is(line, ' ', k);
    assert(line.take(k) =~= number);
    assert(line.skip(k + 1) =~= said);
    assert(is_digit(number[0]));
    assert(unsigned_part(number) == number);
    let more = all.push(line);
    assert(more.drop_last() =~= all);
    assert(more.last() == line);
    lemma_answers_len(all, n);
}

/// Of a script, `1` says that the host is the machine's, `0` that it is not, and anything else that the
/// script failed, with the message behind an `E`. A script of which nothing is said gave no verdict.
pub proof fn answers_mean_what_they_say(said: Seq<char>, script: Seq<char>, hostname: Seq<char>)
    ensures
        answer_means(Some(seq!['1']), script, hostname) == Ok::<bool, ProbeFault>(true),
        answer_means(Some(seq!['0']), script, hostname) == Ok::<bool, ProbeFault>(false),
        answer_means(Some(seq!['E'] + said), script, hostname) == Err::<bool, ProbeFault>(
            ProbeFault::Raised(script, hostname, said),
        ),
        answer_means(None, script, hostname) == Err::<bool, ProbeFault>(ProbeFault::Silent(script)),
        said != seq!['1'] && said != seq!['0'] ==> answer_means(Some(said), script, hostname) is Err,
{
    reveal_strlit("1");
    reveal_strlit("0");
    reveal_strlit("E");
    assert(seq!['1'] =~= "1"@);
    assert(seq!['0'] =~= "0"@);
    assert("0"@[0] != "1"@[0]);
    let e = seq!['E'] + said;
    assert(e[0] == 'E');
    assert(e.take(1) =~= "E"@);
    assert(e.skip(1) =~= said);
}

/// A line without a blank answers nothing, and neither does one that does not begin with the number of
/// one of the scripts.
pub proof fn lines_without_a_number_answer_nothing(line: Seq<char>, front: Seq<char>, rest: Seq<char>, n: nat)
    requires
        forall|i: int| 0 <= i < line.len() ==> line[i] != ' ',
        forall|i: int| 0 <= i < front.len() ==> front[i] != ' ',
    ensures
        answer_on(line, n) is None,
        !is_number(front, u64::MAX as nat) ==> answer_on(front + seq![' '] + rest, n) is None,
        is_number(front, u64::MAX as nat) && number_of(unsigned_part(front)) >= n ==> answer_on(
            front + seq![' '] + rest,
            n,
        ) is None,
{
    lemma_index_of_is(line, ' ', line.len() as int);
    let other = front + seq![' '] + rest;
    assert(other[front.len() as int] == ' ');
    lemma_index_of_is(other, ' ', front.len() as int);
    assert(other.take(front.len() as int) =~= front);
}

/// A verdict is what was meant: the same answer, or the same fault.
pub proof fn verdicts_are_what_was_meant(r: Result<bool, ProbeError>, claims: bool, f: ProbeFault)
    ensures
        is_verdict(Ok(claims), Ok(claims)),
        is_verdict(r, Ok(claims)) ==> r == Ok::<bool, ProbeError>(claims),
        is_verdict(r, Err(f)) <==> r is Err && r->Err_0@ == f,
{
}

} // verus!
