//! Telling the spellings of an optionlist apart.

use crate::search::{first_where, lemma_first_from, lemma_first_from_is};
use crate::text::{
    begins_with, cat4, cat5, chars_of, contains, decimal, decimal_of, ends, ends_with, find, holds, index_of, is_space,
    lemma_index_of, lemma_index_of_is, lemma_trimmed_start_len, lines, lines_of, same, show_text, shown_text, skip_space,
    space, starts, string_of, trim, trimmed, trimmed_end, trimmed_start, views,
};
use vstd::prelude::*;

verus! {

/// The accepted spellings of an optionlist.
#[derive(Debug, Clone, Copy, PartialEq, Eq, Structural)]
pub enum OptionlistFormat {
    /// A `[cactup]` header and an `[options]` table.
    MdbToml,
    /// Only the options, as TOML, with or without an `[options]` header.
    OptionsToml,
    /// Cactus's own `NAME = value` lines.
    Cfg,
}

/// The quotes and the bracket depth at a place of a TOML array.
pub struct Brackets {
    pub double: bool,
    pub single: bool,
    pub depth: int,
}

/// The brackets after one more character outside quotes and comments.
pub open spec fn after_char(b: Brackets, c: char) -> Brackets {
    if b.double {
        Brackets { double: c != '"', ..b }
    } else if b.single {
        Brackets { single: c != '\'', ..b }
    } else if c == '"' {
        Brackets { double: true, ..b }
    } else if c == '\'' {
        Brackets { single: true, ..b }
    } else if c == '[' {
        Brackets { depth: b.depth + 1, ..b }
    } else if c == ']' {
        Brackets { depth: b.depth - 1, ..b }
    } else {
        b
    }
}

/// The brackets after one more line: quoted brackets do not count, nor does what follows a `#`
/// outside quotes.
pub open spec fn after_line(b: Brackets, line: Seq<char>) -> Brackets
    decreases line.len(),
{
    if line.len() == 0 || (line[0] == '#' && !b.double && !b.single) {
        b
    } else {
        after_line(after_char(b, line[0]), line.skip(1))
    }
}

/// The quotes and the bracket depth, for the program to carry.
struct Scan {
    double: bool,
    single: bool,
    depth: i128,
}

impl Scan {
    spec fn state(self) -> Brackets {
        Brackets { double: self.double, single: self.single, depth: self.depth as int }
    }
}

/// How far one line can move the depth.
proof fn lemma_after_line_depth(b: Brackets, line: Seq<char>)
    ensures
        b.depth - line.len() <= after_line(b, line).depth <= b.depth + line.len(),
    decreases line.len(),
{
    if line.len() > 0 && !(line[0] == '#' && !b.double && !b.single) {
        lemma_after_line_depth(after_char(b, line[0]), line.skip(1));
    }
}

/// Follows the brackets through one line of a TOML array.
fn scan_brackets(line: &str, from: Scan) -> (r: Scan)
    requires
        i128::MIN + line@.len() <= from.depth <= i128::MAX - line@.len(),
    ensures
        r.state() == after_line(from.state(), line@),
{
    let cs = chars_of(line);
    let ghost whole = after_line(from.state(), line@);
    let mut s = from;
    let mut i: usize = 0;
    assert(cs@.skip(0) == cs@);
    while i < cs.len()
        invariant
            i <= cs@.len(),
            cs@ == line@,
            i128::MIN + line@.len() <= from.depth <= i128::MAX - line@.len(),
            from.depth - i <= s.depth <= from.depth + i,
            whole == after_line(from.state(), line@),
            whole == after_line(s.state(), cs@.skip(i as int)),
        decreases cs@.len() - i,
    {
        let ghost rest = cs@.skip(i as int);
        let ghost before = s.state();
        let c: char = cs[i];
        assert(rest[0] == c);
        assert(rest.skip(1) == cs@.skip(i + 1));
        if s.double {
            s.double = c != '"';
        } else if s.single {
            s.single = c != '\'';
        } else if c == '#' {
            return s;
        } else if c == '"' {
            s.double = true;
        } else if c == '\'' {
            s.single = true;
        } else if c == '[' {
            s.depth = s.depth + 1;
        } else if c == ']' {
            s.depth = s.depth - 1;
        }
        assert(s.state() == after_char(before, c));
        i += 1;
    }
    assert(cs@.skip(i as int).len() == 0);
    s
}

/// A value without its trailing comment: a `#` counts only outside quotes, at the start of the
/// value or after white space.
pub open spec fn uncommented(s: Seq<char>, double: bool, single: bool, after_space: bool) -> Seq<char>
    decreases s.len(),
{
    if s.len() == 0 || (s[0] == '#' && !double && !single && after_space) {
        Seq::empty()
    } else {
        let c = s[0];
        seq![c] + uncommented(
            s.skip(1),
            if c == '"' && !single {
                !double
            } else {
                double
            },
            if c == '\'' && !double {
                !single
            } else {
                single
            },
            is_space(c),
        )
    }
}

/// The value without its trailing comment.
pub fn strip_trailing_comment(value: &str) -> (r: String)
    ensures
        r@ == uncommented(value@, false, false, true),
{
    let cs = chars_of(value);
    let mut double = false;
    let mut single = false;
    let mut after_space = true;
    let mut out = String::new();
    let mut i: usize = 0;
    let ghost whole = uncommented(value@, false, false, true);
    proof {
        assert(cs@.skip(0) == cs@);
        assert(Seq::<char>::empty() + whole == whole);
    }
    while i < cs.len()
        invariant
            i <= cs@.len(),
            cs@ == value@,
            whole == uncommented(value@, false, false, true),
            whole == out@ + uncommented(cs@.skip(i as int), double, single, after_space),
        decreases cs@.len() - i,
    {
        let ghost rest = cs@.skip(i as int);
        let ghost before = out@;
        let c: char = cs[i];
        assert(rest[0] == c);
        assert(rest.skip(1) == cs@.skip(i + 1));
        if c == '#' && !double && !single && after_space {
            assert(out@ + Seq::<char>::empty() == out@);
            return out;
        }
        let was_double = double;
        if c == '"' && !single {
            double = !double;
        }
        if c == '\'' && !was_double {
            single = !single;
        }
        after_space = space(c);
        out.push(c);
        i += 1;
        proof {
            assert(out@ =~= before + seq![c]);
            assert(before + (seq![c] + uncommented(cs@.skip(i as int), double, single, after_space)) =~= out@
                + uncommented(cs@.skip(i as int), double, single, after_space));
        }
    }
    assert(cs@.skip(i as int).len() == 0);
    assert(out@ + Seq::<char>::empty() == out@);
    out
}

/// A character of a number after its first digit.
pub open spec fn is_number_char(c: char) -> bool {
    '0' <= c <= '9' || c == '_'
}

/// A value without its sign.
pub open spec fn without_sign(s: Seq<char>) -> Seq<char> {
    if s.len() > 0 && (s[0] == '+' || s[0] == '-') {
        s.skip(1)
    } else {
        s
    }
}

/// Whether a value is a bare integer: an optional sign, a digit, then digits and underscores.
pub open spec fn is_bare_integer(s: Seq<char>) -> bool {
    let digits = without_sign(s);
    &&& digits.len() > 0
    &&& '0' <= digits[0] <= '9'
    &&& forall|i: int| 0 <= i < digits.len() ==> is_number_char(#[trigger] digits[i])
}

/// Whether a value is a bare integer.
pub fn looks_like_integer(value: &str) -> (r: bool)
    ensures
        r == is_bare_integer(value@),
{
    let cs = chars_of(value);
    let from: usize = if cs.len() > 0 && (cs[0] == '+' || cs[0] == '-') { 1 } else { 0 };
    let ghost digits = without_sign(value@);
    assert(digits =~= cs@.skip(from as int));
    if from == cs.len() || !('0' <= cs[from] && cs[from] <= '9') {
        return false;
    }
    let mut i: usize = from;
    while i < cs.len()
        invariant
            from <= i <= cs@.len(),
            digits == without_sign(value@),
            digits.len() > 0 && '0' <= digits[0] <= '9',
            digits == cs@.skip(from as int),
            forall|j: int| 0 <= j < i - from ==> is_number_char(#[trigger] digits[j]),
        decreases cs@.len() - i,
    {
        let c: char = cs[i];
        assert(digits[i - from] == c);
        if !(('0' <= c && c <= '9') || c == '_') {
            assert(!is_number_char(digits[i - from]));
            return false;
        }
        i += 1;
    }
    true
}

/// What a line of an optionlist is.
pub enum LineKind {
    Blank,
    /// A table header, with its name.
    Table(Seq<char>),
    /// Neither a header nor a `KEY = VALUE` line.
    Stray,
    /// A value that opens with this triple quote; the rest of the line after it.
    Text(Seq<char>, Seq<char>),
    /// A value that opens a TOML array, from the bracket on.
    Array(Seq<char>),
    /// A value that only TOML can mean.
    Toml,
    /// A value that means the same either way.
    Neutral,
    /// A value of Cactus's own.
    Native,
}

/// The value of a `KEY = VALUE` line, without the white space in front.
pub open spec fn value_part(line: Seq<char>) -> Seq<char> {
    trimmed_start(line.skip(index_of(line, '=') + 1))
}

/// What a value that stands on one line is.
pub open spec fn value_kind(value: Seq<char>) -> LineKind {
    let v = trimmed(uncommented(value, false, false, true));
    if begins_with(v, "\""@) || begins_with(v, "'"@) || v == "true"@ || v == "false"@ {
        LineKind::Toml
    } else if is_bare_integer(v) {
        LineKind::Neutral
    } else {
        LineKind::Native
    }
}

/// What a line is, given without the white space on either side.
pub open spec fn line_kind(line: Seq<char>) -> LineKind {
    let value = value_part(line);
    if line.len() == 0 || begins_with(line, "#"@) {
        LineKind::Blank
    } else if line.len() >= 2 && begins_with(line, "["@) && ends_with(line, "]"@) {
        LineKind::Table(trimmed(line.subrange(1, line.len() - 1)))
    } else if index_of(line, '=') == line.len() {
        LineKind::Stray
    } else if begins_with(value, "\"\"\""@) {
        LineKind::Text("\"\"\""@, value.skip(3))
    } else if begins_with(value, "'''"@) {
        LineKind::Text("'''"@, value.skip(3))
    } else if begins_with(value, "["@) {
        LineKind::Array(value)
    } else {
        value_kind(value)
    }
}

/// The positions of the lines that hold `part`.
pub open spec fn holding(all: Seq<Seq<char>>, part: Seq<char>) -> spec_fn(int) -> bool {
    |i: int| holds(all[i], part)
}

/// The line on which an array that goes on after line `k` is closed; the last line where it
/// never is.
pub open spec fn array_end(all: Seq<Seq<char>>, k: int, b: Brackets) -> int
    decreases all.len() - k,
{
    if b.depth <= 0 || k + 1 >= all.len() {
        k
    } else {
        array_end(all, k + 1, after_line(b, all[k + 1]))
    }
}

/// No quotes, no brackets.
pub open spec fn no_brackets() -> Brackets {
    Brackets { double: false, single: false, depth: 0 }
}

/// The line after the entry that starts on line `i`: a triple-quoted text goes on to the line
/// that closes it, an array to the line that closes its brackets.
pub open spec fn entry_end(all: Seq<Seq<char>>, i: int) -> int {
    match line_kind(trimmed(all[i])) {
        LineKind::Text(delim, rest) => if holds(rest, delim) {
            i + 1
        } else {
            first_from_line(all, i + 1, delim) + 1
        },
        LineKind::Array(value) => array_end(all, i, after_line(no_brackets(), value)) + 1,
        _ => i + 1,
    }
}

/// The first line from `i` on that holds `delim`; the number of lines where none does.
pub open spec fn first_from_line(all: Seq<Seq<char>>, i: int, delim: Seq<char>) -> int
    decreases all.len() - i,
{
    if i >= all.len() || holds(all[i], delim) {
        i
    } else {
        first_from_line(all, i + 1, delim)
    }
}

proof fn lemma_first_from_line(all: Seq<Seq<char>>, i: int, delim: Seq<char>)
    ensures
        first_from_line(all, i, delim) >= i,
    decreases all.len() - i,
{
    if i < all.len() && !holds(all[i], delim) {
        lemma_first_from_line(all, i + 1, delim);
    }
}

proof fn lemma_array_end(all: Seq<Seq<char>>, k: int, b: Brackets)
    ensures
        array_end(all, k, b) >= k,
    decreases all.len() - k,
{
    if b.depth > 0 && k + 1 < all.len() {
        lemma_array_end(all, k + 1, after_line(b, all[k + 1]));
    }
}

proof fn lemma_entry_end(all: Seq<Seq<char>>, i: int)
    ensures
        entry_end(all, i) > i,
{
    match line_kind(trimmed(all[i])) {
        LineKind::Text(delim, rest) => {
            lemma_first_from_line(all, i + 1, delim);
        },
        LineKind::Array(value) => {
            lemma_array_end(all, i, after_line(no_brackets(), value));
        },
        _ => {},
    }
}

/// The lines on which the entries start, from line `i` on.
pub open spec fn entry_starts(all: Seq<Seq<char>>, i: int) -> Seq<int>
    decreases (if i < all.len() { all.len() - i } else { 0 }),
    via entry_starts_decreases
{
    if i >= all.len() {
        Seq::empty()
    } else {
        seq![i] + entry_starts(all, entry_end(all, i))
    }
}

#[via_fn]
proof fn entry_starts_decreases(all: Seq<Seq<char>>, i: int) {
    lemma_entry_end(all, i);
}

/// What the entry that starts on a line is.
pub open spec fn kind_at(all: Seq<Seq<char>>, i: int) -> LineKind {
    line_kind(trimmed(all[i]))
}

/// A table that an optionlist can have.
pub open spec fn is_known_table(name: Seq<char>) -> bool {
    name == "cactup"@ || name == "options"@
}

/// The entries that no optionlist can have.
pub open spec fn wrong_entries(all: Seq<Seq<char>>, starts: Seq<int>) -> spec_fn(int) -> bool {
    |k: int|
        match kind_at(all, starts[k]) {
            LineKind::Stray => true,
            LineKind::Table(name) => !is_known_table(name),
            _ => false,
        }
}

/// The entries that only TOML can mean.
pub open spec fn toml_entries(all: Seq<Seq<char>>, starts: Seq<int>) -> spec_fn(int) -> bool {
    |k: int|
        match kind_at(all, starts[k]) {
            LineKind::Text(_, _) => true,
            LineKind::Array(_) => true,
            LineKind::Toml => true,
            _ => false,
        }
}

/// The entries of Cactus's own.
pub open spec fn native_entries(all: Seq<Seq<char>>, starts: Seq<int>) -> spec_fn(int) -> bool {
    |k: int| kind_at(all, starts[k]) is Native
}

/// The entries that are options.
pub open spec fn option_entries(all: Seq<Seq<char>>, starts: Seq<int>) -> spec_fn(int) -> bool {
    |k: int| !(kind_at(all, starts[k]) is Blank || kind_at(all, starts[k]) is Table)
}

/// The headers of one table.
pub open spec fn headers(all: Seq<Seq<char>>, starts: Seq<int>, name: Seq<char>) -> spec_fn(int) -> bool {
    |k: int| kind_at(all, starts[k]) == LineKind::Table(name)
}

/// Why a text is no optionlist. Lines are counted from one.
pub enum SniffFault {
    UnknownTable(Seq<char>, nat),
    Stray(Seq<char>, nat),
    Mixed(nat, Seq<char>, nat, Seq<char>),
    NoOptions,
    NoOptionsTable,
    TableOverNative,
}

/// The spelling of an optionlist, given its lines. An entry that no optionlist can have decides
/// first. After that, the spellings must not be mixed and there must be options; a `[cactup]`
/// header asks for an `[options]` table, and Cactus's own values admit no such table.
pub open spec fn spelling(all: Seq<Seq<char>>) -> Result<OptionlistFormat, SniffFault> {
    let starts = entry_starts(all, 0);
    let n = starts.len() as int;
    let wrong = first_where(n, wrong_entries(all, starts));
    let toml = first_where(n, toml_entries(all, starts));
    let native = first_where(n, native_entries(all, starts));
    let has_cactup = first_where(n, headers(all, starts, "cactup"@)) < n;
    let has_options = first_where(n, headers(all, starts, "options"@)) < n;
    if wrong < n {
        match kind_at(all, starts[wrong]) {
            LineKind::Table(name) => Err(SniffFault::UnknownTable(name, (starts[wrong] + 1) as nat)),
            _ => Err(SniffFault::Stray(trimmed(all[starts[wrong]]), (starts[wrong] + 1) as nat)),
        }
    } else if toml < n && native < n {
        Err(
            SniffFault::Mixed(
                (starts[toml] + 1) as nat,
                trimmed(all[starts[toml]]),
                (starts[native] + 1) as nat,
                trimmed(all[starts[native]]),
            ),
        )
    } else if first_where(n, option_entries(all, starts)) == n {
        Err(SniffFault::NoOptions)
    } else if has_cactup {
        if has_options {
            Ok(OptionlistFormat::MdbToml)
        } else {
            Err(SniffFault::NoOptionsTable)
        }
    } else if native < n {
        if has_options {
            Err(SniffFault::TableOverNative)
        } else {
            Ok(OptionlistFormat::Cfg)
        }
    } else {
        Ok(OptionlistFormat::OptionsToml)
    }
}

/// Why a text is no optionlist. Lines are counted from one.
#[derive(Debug)]
pub enum SniffError {
    /// A table header with an unknown name.
    UnknownTable(String, u64),
    /// A line that is neither a header nor a `KEY = VALUE` line.
    Stray(String, u64),
    /// A line of TOML and a line of Cactus's own.
    Mixed(u64, String, u64, String),
    NoOptions,
    /// A `[cactup]` header without an `[options]` table.
    NoOptionsTable,
    /// An `[options]` header over Cactus's own values.
    TableOverNative,
}

impl View for SniffError {
    type V = SniffFault;

    open spec fn view(&self) -> SniffFault {
        match *self {
            SniffError::UnknownTable(name, line) => SniffFault::UnknownTable(name@, line as nat),
            SniffError::Stray(text, line) => SniffFault::Stray(text@, line as nat),
            SniffError::Mixed(a, at, b, bt) => SniffFault::Mixed(a as nat, at@, b as nat, bt@),
            SniffError::NoOptions => SniffFault::NoOptions,
            SniffError::NoOptionsTable => SniffFault::NoOptionsTable,
            SniffError::TableOverNative => SniffFault::TableOverNative,
        }
    }
}

impl SniffError {
    /// The message for the user, as text.
    pub open spec fn text(self) -> Seq<char> {
        match self {
            SniffError::UnknownTable(name, line) => "unknown table header ["@ + name@ + "] at line "@ + decimal_of(
                line as nat,
            ) + "; only [cactup] and [options] are recognized in an optionlist"@,
            SniffError::Stray(text, line) => "line "@ + decimal_of(line as nat)
                + " is neither a table header nor a KEY = VALUE line: "@ + shown_text(text@),
            SniffError::Mixed(a, at, b, bt) => ("optionlist mixes TOML and native-Cactus value spellings (line "@
                + decimal_of(a as nat) + ": \""@ + at@ + "\" looks like TOML, line "@) + decimal_of(b as nat)
                + ": \""@ + bt@
                + "\" looks like native Cactus); the three accepted forms — mdb TOML, options-only TOML, and a native .cfg — may not be intermixed in one file"@,
            SniffError::NoOptions => "optionlist declares no options"@,
            SniffError::NoOptionsTable =>
                "[cactup] header present but no [options] table; an mdb-style optionlist needs both"@,
            SniffError::TableOverNative =>
                "a [options] TOML table header appears over unquoted, native-Cactus-looking values; the three accepted forms — mdb TOML, options-only TOML, and a native .cfg — may not be intermixed in one file"@,
        }
    }

    /// The message for the user.
    pub fn message(&self) -> (r: String)
        ensures
            r@ == self.text(),
    {
        match self {
            SniffError::UnknownTable(name, line) => cat5(
                "unknown table header [",
                name,
                "] at line ",
                &decimal(*line),
                "; only [cactup] and [options] are recognized in an optionlist",
            ),
            SniffError::Stray(text, line) => cat4(
                "line ",
                &decimal(*line),
                " is neither a table header nor a KEY = VALUE line: ",
                &show_text(text),
            ),
            SniffError::Mixed(a, at, b, bt) => cat5(
                &cat5(
                    "optionlist mixes TOML and native-Cactus value spellings (line ",
                    &decimal(*a),
                    ": \"",
                    at,
                    "\" looks like TOML, line ",
                ),
                &decimal(*b),
                ": \"",
                bt,
                "\" looks like native Cactus); the three accepted forms — mdb TOML, options-only TOML, and a native .cfg — may not be intermixed in one file",
            ),
            SniffError::NoOptions => "optionlist declares no options".to_owned(),
            SniffError::NoOptionsTable =>
                "[cactup] header present but no [options] table; an mdb-style optionlist needs both".to_owned(),
            SniffError::TableOverNative =>
                "a [options] TOML table header appears over unquoted, native-Cactus-looking values; the three accepted forms — mdb TOML, options-only TOML, and a native .cfg — may not be intermixed in one file".to_owned(),
        }
    }
}

/// What a line is, for the program to branch on.
enum Line {
    Blank,
    Table(String),
    Stray,
    Text(&'static str, String),
    Array(String),
    Toml,
    Neutral,
    Native,
}

impl Line {
    spec fn kind(self) -> LineKind {
        match self {
            Line::Blank => LineKind::Blank,
            Line::Table(name) => LineKind::Table(name@),
            Line::Stray => LineKind::Stray,
            Line::Text(delim, rest) => LineKind::Text(delim@, rest@),
            Line::Array(value) => LineKind::Array(value@),
            Line::Toml => LineKind::Toml,
            Line::Neutral => LineKind::Neutral,
            Line::Native => LineKind::Native,
        }
    }
}

/// Tells what a line is, given without the white space on either side.
fn read_line(line: &str) -> (r: Line)
    ensures
        r.kind() == line_kind(line@),
{
    let cs = chars_of(line);
    if cs.len() == 0 || starts(line, "#") {
        return Line::Blank;
    }
    if cs.len() >= 2 && starts(line, "[") && ends(line, "]") {
        return Line::Table(trim(&string_of(&cs, 1, cs.len() - 1)));
    }
    let eq: usize = find(&cs, 0, '=');
    assert(cs@.skip(0) == cs@);
    if eq == cs.len() {
        return Line::Stray;
    }
    let from: usize = skip_space(&cs, eq + 1);
    let value = string_of(&cs, from, cs.len());
    assert(value@ == value_part(line@)) by {
        assert(cs@.subrange(from as int, cs@.len() as int) == cs@.skip(from as int));
    }
    proof {
        reveal_strlit("\"\"\"");
        reveal_strlit("'''");
    }
    if starts(&value, "\"\"\"") {
        let rest = string_of(&cs, from + 3, cs.len());
        assert(rest@ == value@.skip(3));
        return Line::Text("\"\"\"", rest);
    }
    if starts(&value, "'''") {
        let rest = string_of(&cs, from + 3, cs.len());
        assert(rest@ == value@.skip(3));
        return Line::Text("'''", rest);
    }
    if starts(&value, "[") {
        return Line::Array(value);
    }
    let v = trim(&strip_trailing_comment(&value));
    if starts(&v, "\"") || starts(&v, "'") || same(&v, "true") || same(&v, "false") {
        Line::Toml
    } else if looks_like_integer(&v) {
        Line::Neutral
    } else {
        Line::Native
    }
}

/// The number of characters in some lines.
spec fn total_len(list: Seq<Seq<char>>) -> nat
    decreases list.len(),
{
    if list.len() == 0 {
        0
    } else {
        total_len(list.drop_last()) + list.last().len()
    }
}

proof fn lemma_total_len_front(first: Seq<char>, list: Seq<Seq<char>>)
    ensures
        total_len(seq![first] + list) == first.len() + total_len(list),
    decreases list.len(),
{
    let whole = seq![first] + list;
    if list.len() == 0 {
        assert(whole.drop_last() == Seq::<Seq<char>>::empty());
        assert(total_len(whole.drop_last()) == 0);
    } else {
        assert(whole.drop_last() == seq![first] + list.drop_last());
        lemma_total_len_front(first, list.drop_last());
    }
}

/// The lines of a text hold no more characters than the text.
proof fn lemma_lines_total(s: Seq<char>)
    ensures
        total_len(lines_of(s)) <= s.len(),
    decreases s.len(),
{
    if s.len() > 0 {
        let n = index_of(s, '\n');
        lemma_index_of(s, '\n');
        if n < s.len() {
            lemma_lines_total(s.skip(n + 1));
            lemma_total_len_front(crate::text::without_cr(s.take(n)), lines_of(s.skip(n + 1)));
        } else {
            lemma_total_len_front(s, Seq::empty());
            assert(seq![s] + Seq::<Seq<char>>::empty() == seq![s]);
        }
    }
}

proof fn lemma_total_len_take(list: Seq<Seq<char>>, k: int)
    requires
        0 <= k <= list.len(),
    ensures
        total_len(list.take(k)) <= total_len(list),
        k < list.len() ==> total_len(list.take(k + 1)) == total_len(list.take(k)) + list[k].len(),
    decreases list.len() - k,
{
    if k < list.len() {
        assert(list.take(k + 1).drop_last() == list.take(k));
        lemma_total_len_take(list, k + 1);
    } else {
        assert(list.take(k) == list);
    }
}

proof fn lemma_trimmed_end_len(s: Seq<char>)
    ensures
        trimmed_end(s).len() <= s.len(),
    decreases s.len(),
{
    if s.len() > 0 && is_space(s.last()) {
        lemma_trimmed_end_len(s.drop_last());
    }
}

/// The line after the array that starts on line `i`.
fn skip_array(all: &Vec<String>, i: usize, value: &str) -> (r: usize)
    requires
        i < all@.len(),
        total_len(views(all@)) <= usize::MAX,
        value@.len() <= all@[i as int]@.len(),
    ensures
        r == array_end(views(all@), i as int, after_line(no_brackets(), value@)) + 1,
        i < r <= all@.len(),
{
    let ghost list = views(all@);
    let ghost end = array_end(list, i as int, after_line(no_brackets(), value@));
    proof {
        lemma_total_len_take(list, i as int);
        lemma_total_len_take(list, i + 1);
        assert(list[i as int].len() == all@[i as int]@.len());
        lemma_after_line_depth(no_brackets(), value@);
    }
    let mut s = scan_brackets(value, Scan { double: false, single: false, depth: 0 });
    let mut k: usize = i;
    while s.depth > 0 && k + 1 < all.len()
        invariant
            i <= k < all.len(),
            list == views(all@),
            total_len(list) <= usize::MAX,
            end == array_end(list, k as int, s.state()),
            -(total_len(list.take(k + 1)) as int) <= s.depth <= total_len(list.take(k + 1)),
        decreases all@.len() - k,
    {
        proof {
            lemma_total_len_take(list, k + 1);
            lemma_total_len_take(list, k + 2);
            assert(list[k + 1] == all@[k + 1]@);
            lemma_after_line_depth(s.state(), all@[k + 1]@);
        }
        s = scan_brackets(&all[k + 1], s);
        k += 1;
    }
    k + 1
}

/// The line after the triple-quoted text that is not closed on the line before `i`.
fn skip_text(all: &Vec<String>, i: usize, delim: &str) -> (r: usize)
    requires
        i <= all@.len(),
    ensures
        r == first_from_line(views(all@), i as int, delim@),
        i <= r <= all@.len(),
{
    let ghost list = views(all@);
    let mut k: usize = i;
    while k < all.len()
        invariant
            i <= k <= all@.len(),
            list == views(all@),
            first_from_line(list, i as int, delim@) == first_from_line(list, k as int, delim@),
        decreases all@.len() - k,
    {
        assert(list[k as int] == all@[k as int]@);
        if contains(&all[k], delim) {
            return k;
        }
        k += 1;
    }
    k
}

/// Tells the spelling of an optionlist.
pub fn sniff(source: &str) -> (r: Result<OptionlistFormat, SniffError>)
    ensures
        match spelling(lines_of(source@)) {
            Ok(f) => r == Ok::<OptionlistFormat, SniffError>(f),
            Err(f) => r is Err && r->Err_0@ == f,
        },
{
    let all = lines(source);
    let ghost list = views(all@);
    let ghost at = entry_starts(list, 0);
    let ghost n = at.len() as int;
    let ghost wrong_p = wrong_entries(list, at);
    let ghost toml_p = toml_entries(list, at);
    let ghost native_p = native_entries(list, at);
    let ghost option_p = option_entries(list, at);
    let ghost cactup_p = headers(list, at, "cactup"@);
    let ghost options_p = headers(list, at, "options"@);
    let whole_len: usize = chars_of(source).len();
    proof {
        lemma_lines_total(source@);
        assert(at.skip(0) == at);
    }
    let mut has_cactup = false;
    let mut has_options = false;
    let mut any_option = false;
    let mut toml_line: Option<(u64, String)> = None;
    let mut native_line: Option<(u64, String)> = None;
    let ghost mut m: int = 0;
    let ghost mut toml_k: int = 0;
    let ghost mut native_k: int = 0;
    let mut i: usize = 0;
    while i < all.len()
        invariant
            list == views(all@),
            list == lines_of(source@),
            at == entry_starts(list, 0),
            n == at.len(),
            0 <= m <= n,
            entry_starts(list, i as int) == at.skip(m),
            total_len(list) <= usize::MAX,
            wrong_p == wrong_entries(list, at),
            toml_p == toml_entries(list, at),
            native_p == native_entries(list, at),
            option_p == option_entries(list, at),
            cactup_p == headers(list, at, "cactup"@),
            options_p == headers(list, at, "options"@),
            forall|j: int| 0 <= j < m ==> !(#[trigger] wrong_p(j)),
            has_cactup == (exists|j: int| 0 <= j < m && #[trigger] cactup_p(j)),
            has_options == (exists|j: int| 0 <= j < m && #[trigger] options_p(j)),
            any_option == (exists|j: int| 0 <= j < m && #[trigger] option_p(j)),
            toml_line is None ==> forall|j: int| 0 <= j < m ==> !(#[trigger] toml_p(j)),
            toml_line is Some ==> {
                &&& 0 <= toml_k < m
                &&& toml_p(toml_k)
                &&& forall|j: int| 0 <= j < toml_k ==> !(#[trigger] toml_p(j))
                &&& (toml_line->0).0 == at[toml_k] + 1
                &&& (toml_line->0).1@ == trimmed(list[at[toml_k]])
            },
            native_line is None ==> forall|j: int| 0 <= j < m ==> !(#[trigger] native_p(j)),
            native_line is Some ==> {
                &&& 0 <= native_k < m
                &&& native_p(native_k)
                &&& forall|j: int| 0 <= j < native_k ==> !(#[trigger] native_p(j))
                &&& (native_line->0).0 == at[native_k] + 1
                &&& (native_line->0).1@ == trimmed(list[at[native_k]])
            },
        decreases all@.len() - i,
    {
        let text = trim(&all[i]);
        let kind = read_line(&text);
        let lineno: u64 = (i as u64) + 1;
        proof {
            assert(list[i as int] == all@[i as int]@);
            assert(at.skip(m).len() > 0);
            assert(at.skip(m)[0] == i);
            assert(at[m] == i);
            assert(kind.kind() == kind_at(list, at[m]));
            lemma_entry_end(list, i as int);
            assert(at.skip(m + 1) =~= entry_starts(list, entry_end(list, i as int))) by {
                assert(at.skip(m) == seq![i as int] + entry_starts(list, entry_end(list, i as int)));
                assert(at.skip(m + 1) =~= at.skip(m).skip(1));
            }
        }
        let next: usize;
        let is_toml: bool;
        let is_native: bool;
        let is_option: bool;
        match kind {
            Line::Blank => {
                next = i + 1;
                is_toml = false;
                is_native = false;
                is_option = false;
            },
            Line::Table(name) => {
                if same(&name, "cactup") {
                    has_cactup = true;
                    assert(cactup_p(m));
                } else if same(&name, "options") {
                    has_options = true;
                    assert(options_p(m));
                } else {
                    proof {
                        assert(wrong_p(m));
                        lemma_first_from_is(0, n, wrong_p, m);
                    }
                    return Err(SniffError::UnknownTable(name, lineno));
                }
                next = i + 1;
                is_toml = false;
                is_native = false;
                is_option = false;
            },
            Line::Stray => {
                proof {
                    assert(wrong_p(m));
                    lemma_first_from_is(0, n, wrong_p, m);
                }
                return Err(SniffError::Stray(text, lineno));
            },
            Line::Text(delim, rest) => {
                is_toml = true;
                is_native = false;
                is_option = true;
                if contains(&rest, delim) {
                    next = i + 1;
                } else {
                    let k: usize = skip_text(&all, i + 1, delim);
                    next = if k < all.len() {
                        k + 1
                    } else {
                        k
                    };
                    proof {
                        if k == all.len() {
                            assert(entry_starts(list, k as int) =~= entry_starts(list, k + 1));
                        }
                    }
                }
            },
            Line::Array(value) => {
                is_toml = true;
                is_native = false;
                is_option = true;
                proof {
                    lemma_index_of(text@, '=');
                    lemma_value_len(list[i as int]);
                }
                next = skip_array(&all, i, &value);
            },
            Line::Toml => {
                next = i + 1;
                is_toml = true;
                is_native = false;
                is_option = true;
            },
            Line::Neutral => {
                next = i + 1;
                is_toml = false;
                is_native = false;
                is_option = true;
            },
            Line::Native => {
                next = i + 1;
                is_toml = false;
                is_native = true;
                is_option = true;
            },
        }
        assert(!wrong_p(m));
        assert(is_toml == toml_p(m));
        assert(is_native == native_p(m));
        assert(is_option == option_p(m));
        if is_option {
            any_option = true;
        }
        if is_toml && toml_line.is_none() {
            toml_line = Some((lineno, text.clone()));
            proof {
                toml_k = m;
            }
        }
        if is_native && native_line.is_none() {
            native_line = Some((lineno, text));
            proof {
                native_k = m;
            }
        }
        proof {
            reveal_strlit("cactup");
            reveal_strlit("options");
            assert("cactup"@.len() != "options"@.len());
            assert(cactup_p(m) ==> has_cactup);
            assert(options_p(m) ==> has_options);
            m = m + 1;
        }
        i = next;
    }
    proof {
        assert(at.skip(m).len() == 0);
        assert(m == n);
        lemma_first_from_is(0, n, wrong_p, n);
        lemma_first_from_is(
            0,
            n,
            toml_p,
            if toml_line is Some {
                toml_k
            } else {
                n
            },
        );
        lemma_first_from_is(
            0,
            n,
            native_p,
            if native_line is Some {
                native_k
            } else {
                n
            },
        );
        lemma_first_from(0, n, option_p);
        lemma_first_from(0, n, cactup_p);
        lemma_first_from(0, n, options_p);
    }
    if let (Some((tl, tt)), Some((cl, ct))) = (&toml_line, &native_line) {
        return Err(SniffError::Mixed(*tl, tt.clone(), *cl, ct.clone()));
    }
    if !any_option {
        return Err(SniffError::NoOptions);
    }
    if has_cactup {
        if !has_options {
            return Err(SniffError::NoOptionsTable);
        }
        return Ok(OptionlistFormat::MdbToml);
    }
    if native_line.is_some() {
        if has_options {
            return Err(SniffError::TableOverNative);
        }
        return Ok(OptionlistFormat::Cfg);
    }
    Ok(OptionlistFormat::OptionsToml)
}

/// A line's value is no longer than the line.
proof fn lemma_value_len(line: Seq<char>)
    requires
        index_of(trimmed(line), '=') < trimmed(line).len(),
    ensures
        value_part(trimmed(line)).len() <= line.len(),
{
    let t = trimmed(line);
    lemma_trimmed_start_len(line);
    lemma_trimmed_end_len(trimmed_start(line));
    lemma_index_of(t, '=');
    let after = t.skip(index_of(t, '=') + 1);
    lemma_trimmed_start_len(after);
}

/// What holds neither quotes nor a `#` stays in front of what follows.
proof fn lemma_uncommented_front(front: Seq<char>, rest: Seq<char>, after_space: bool)
    requires
        forall|i: int| 0 <= i < front.len() ==> front[i] != '"' && front[i] != '\'' && front[i] != '#',
    ensures
        front.len() == 0 ==> uncommented(front + rest, false, false, after_space) == uncommented(
            rest,
            false,
            false,
            after_space,
        ),
        front.len() > 0 ==> uncommented(front + rest, false, false, after_space) == front + uncommented(
            rest,
            false,
            false,
            is_space(front.last()),
        ),
    decreases front.len(),
{
    let s = front + rest;
    if front.len() == 0 {
        assert(s =~= rest);
    } else {
        let fewer = front.skip(1);
        assert forall|i: int| 0 <= i < fewer.len() implies fewer[i] != '"' && fewer[i] != '\'' && fewer[i] != '#' by {
            assert(fewer[i] == front[i + 1]);
        }
        assert(s[0] == front[0]);
        assert(s.skip(1) =~= fewer + rest);
        lemma_uncommented_front(fewer, rest, is_space(front[0]));
        if fewer.len() == 0 {
            assert(front.last() == front[0]);
            assert(seq![front[0]] =~= front);
        } else {
            assert(fewer.last() == front.last());
            let tail = uncommented(rest, false, false, is_space(front.last()));
            assert(seq![front[0]] + (fewer + tail) =~= front + tail);
        }
    }
}

/// What is in quotes stays whole, whatever it holds.
proof fn lemma_uncommented_quoted(body: Seq<char>, rest: Seq<char>, quote: char, after_space: bool)
    requires
        quote == '"' || quote == '\'',
        forall|i: int| 0 <= i < body.len() ==> body[i] != quote,
    ensures
        uncommented(body + seq![quote] + rest, quote == '"', quote == '\'', after_space) == body + seq![quote]
            + uncommented(rest, false, false, false),
    decreases body.len(),
{
    let s = body + seq![quote] + rest;
    if body.len() == 0 {
        assert(s[0] == quote);
        assert(s.skip(1) =~= rest);
        assert(!is_space(quote));
        assert(seq![quote] =~= body + seq![quote]);
    } else {
        let fewer = body.skip(1);
        assert forall|i: int| 0 <= i < fewer.len() implies fewer[i] != quote by {
            assert(fewer[i] == body[i + 1]);
        }
        assert(s[0] == body[0]);
        assert(s.skip(1) =~= fewer + seq![quote] + rest);
        lemma_uncommented_quoted(fewer, rest, quote, is_space(body[0]));
        let tail = uncommented(rest, false, false, false);
        assert(seq![body[0]] + (fewer + seq![quote] + tail) =~= body + seq![quote] + tail);
    }
}

/// A comment begins at a `#` behind white space, or at the very beginning, and takes all that follows; a
/// `#` behind anything else is part of the value, and so is all that is in quotes.
pub proof fn comments_are_cut_off(front: Seq<char>, body: Seq<char>, rest: Seq<char>, quote: char)
    requires
        forall|i: int| 0 <= i < front.len() ==> front[i] != '"' && front[i] != '\'' && front[i] != '#',
        quote == '"' || quote == '\'',
        forall|i: int| 0 <= i < body.len() ==> body[i] != quote,
    ensures
        front.len() == 0 || is_space(front.last()) ==> uncommented(front + seq!['#'] + rest, false, false, true)
            == front,
        front.len() > 0 && !is_space(front.last()) ==> uncommented(front + seq!['#'] + rest, false, false, true)
            == front + seq!['#'] + uncommented(rest, false, false, false),
        uncommented(front, false, false, true) == front,
        uncommented(front + seq![quote] + body + seq![quote] + rest, false, false, true) == front + seq![quote] + body
            + seq![quote] + uncommented(rest, false, false, false),
{
    let none = Seq::<char>::empty();
    lemma_uncommented_front(front, none, true);
    assert(front + none =~= front);
    let t = seq!['#'] + rest;
    assert(front + seq!['#'] + rest =~= front + t);
    lemma_uncommented_front(front, t, true);
    assert(t[0] == '#');
    assert(t.skip(1) =~= rest);
    if front.len() == 0 || is_space(front.last()) {
        assert(uncommented(t, false, false, true) =~= none);
        assert(front + none =~= front);
    } else {
        let tail = uncommented(rest, false, false, false);
        assert(front + (seq!['#'] + tail) =~= front + seq!['#'] + tail);
    }
    let q = seq![quote] + (body + seq![quote] + rest);
    assert(front + seq![quote] + body + seq![quote] + rest =~= front + q);
    lemma_uncommented_front(front, q, true);
    lemma_uncommented_quoted(body, rest, quote, false);
    assert(q[0] == quote);
    assert(q.skip(1) =~= body + seq![quote] + rest);
    assert(!is_space(quote));
    let tail = uncommented(rest, false, false, false);
    assert(front + (seq![quote] + (body + seq![quote] + tail)) =~= front + seq![quote] + body + seq![quote] + tail);
    assert(front.len() == 0 ==> front + (seq![quote] + (body + seq![quote] + tail)) =~= seq![quote] + (body + seq![quote]
        + tail));
}

/// An option's line shows its spelling by its value: texts in quotes, switches and arrays are TOML's, a
/// bare number is anyone's, and everything else, nothing included, is native.
pub proof fn values_show_their_spelling(key: Seq<char>, value: Seq<char>)
    requires
        key.len() > 0,
        key[0] != '#' && key[0] != '[',
        forall|i: int| 0 <= i < key.len() ==> key[i] != '=',
    ensures
        ({
            let kind = line_kind(key + seq!['='] + value);
            let v = trimmed_start(value);
            let clean = trimmed(uncommented(v, false, false, true));
            let long = begins_with(v, "\"\"\""@) || begins_with(v, "'''"@);
            &&& begins_with(v, "\"\"\""@) ==> kind == LineKind::Text("\"\"\""@, v.skip(3))
            &&& begins_with(v, "'''"@) && !begins_with(v, "\"\"\""@) ==> kind == LineKind::Text("'''"@, v.skip(3))
            &&& v.len() > 0 && v[0] == '[' ==> kind == LineKind::Array(v)
            &&& !long && clean.len() > 0 && (clean[0] == '"' || clean[0] == '\'') && !(v.len() > 0 && v[0] == '[')
                ==> kind is Toml
            &&& !long && (clean == "true"@ || clean == "false"@) && !(v.len() > 0 && v[0] == '[') ==> kind is Toml
            &&& !long && clean.len() == 0 && !(v.len() > 0 && v[0] == '[') ==> kind is Native
            &&& kind is Neutral ==> is_bare_integer(clean)
            &&& kind is Native ==> clean != "true"@ && clean != "false"@ && !is_bare_integer(clean) && !(clean.len() > 0
                && (clean[0] == '"' || clean[0] == '\''))
        }),
        forall|line: Seq<char>|
            line.len() > 0 && line[0] != '#' && line[0] != '[' && (forall|i: int|
                0 <= i < line.len() ==> line[i] != '=') ==> (#[trigger] line_kind(line)) is Stray,
        forall|line: Seq<char>|
            line.len() == 0 || line[0] == '#' ==> (#[trigger] line_kind(line)) is Blank,
        forall|name: Seq<char>| #[trigger]
            line_kind(seq!['['] + name + seq![']']) == LineKind::Table(trimmed(name)),
{
    reveal_strlit("#");
    reveal_strlit("[");
    reveal_strlit("]");
    reveal_strlit("\"");
    reveal_strlit("'");
    reveal_strlit("true");
    reveal_strlit("false");
    reveal_strlit("\"\"\"");
    reveal_strlit("'''");
    let line = key + seq!['='] + value;
    let n = key.len() as int;
    assert(line[n] == '=');
    lemma_index_of_is(line, '=', n);
    assert(line.skip(n + 1) =~= value);
    assert(line[0] == key[0]);
    if begins_with(line, "#"@) {
        assert(line.take(1)[0] == '#');
    }
    if begins_with(line, "["@) {
        assert(line.take(1)[0] == '[');
    }
    let v = trimmed_start(value);
    let clean = trimmed(uncommented(v, false, false, true));
    if begins_with(v, "\"\"\""@) {
        assert(v.take(3)[0] == '"');
    }
    if begins_with(v, "'''"@) {
        assert(v.take(3)[0] == '\'');
    }
    if begins_with(v, "["@) {
        assert(v.take(1)[0] == '[');
    }
    if v.len() > 0 && v[0] == '[' {
        assert(v.take(1) =~= "["@);
    }
    if clean.len() > 0 && clean[0] == '"' {
        assert(clean.take(1) =~= "\""@);
    }
    if clean.len() > 0 && clean[0] == '\'' {
        assert(clean.take(1) =~= "'"@);
    }
    if begins_with(clean, "\""@) {
        assert(clean.take(1)[0] == '"');
    }
    if begins_with(clean, "'"@) {
        assert(clean.take(1)[0] == '\'');
    }
    assert forall|line: Seq<char>|
        line.len() > 0 && line[0] != '#' && line[0] != '[' && (forall|i: int|
            0 <= i < line.len() ==> line[i] != '=') implies (#[trigger] line_kind(line)) is Stray by {
        lemma_index_of_is(line, '=', line.len() as int);
        if begins_with(line, "#"@) {
            assert(line.take(1)[0] == '#');
        }
        if begins_with(line, "["@) {
            assert(line.take(1)[0] == '[');
        }
    }
    assert forall|line: Seq<char>| line.len() == 0 || line[0] == '#' implies (#[trigger] line_kind(line)) is Blank by {
        if line.len() > 0 {
            assert(line.take(1) =~= "#"@);
        }
    }
    assert forall|name: Seq<char>| #[trigger] line_kind(seq!['['] + name + seq![']']) == LineKind::Table(
        trimmed(name),
    ) by {
        let t = seq!['['] + name + seq![']'];
        assert(t.take(1) =~= "["@);
        assert(t.skip(t.len() - 1) =~= "]"@);
        assert(t.subrange(1, t.len() - 1) =~= name);
        if begins_with(t, "#"@) {
            assert(t.take(1)[0] == '#');
        }
    }
}

/// Brackets count where they are outside quotes and comments: each that opens goes one deeper, and each
/// that closes comes back; nothing else matters to the depth.
pub proof fn brackets_count_outside_quotes(b: Brackets, body: Seq<char>, rest: Seq<char>, quote: char, c: char)
    requires
        !b.double && !b.single,
        quote == '"' || quote == '\'',
        forall|i: int| 0 <= i < body.len() ==> body[i] != quote,
        c != '"' && c != '\'' && c != '[' && c != ']' && c != '#',
    ensures
        after_line(b, seq!['['] + rest) == after_line(Brackets { depth: b.depth + 1, ..b }, rest),
        after_line(b, seq![']'] + rest) == after_line(Brackets { depth: b.depth - 1, ..b }, rest),
        after_line(b, seq!['#'] + rest) == b,
        after_line(b, seq![c] + rest) == after_line(b, rest),
        after_line(b, seq![quote] + body + seq![quote] + rest) == after_line(b, rest),
        after_line(b, Seq::empty()) == b,
{
    assert((seq!['['] + rest).skip(1) =~= rest);
    assert((seq![']'] + rest).skip(1) =~= rest);
    assert((seq!['#'] + rest)[0] == '#');
    assert((seq![c] + rest).skip(1) =~= rest);
    let s = seq![quote] + body + seq![quote] + rest;
    assert(s.skip(1) =~= body + seq![quote] + rest);
    assert(s[0] == quote);
    let inside = Brackets { double: quote == '"', single: quote == '\'', depth: b.depth };
    assert(after_char(b, quote) == inside);
    lemma_quoted_brackets(inside, body, rest, quote);
    assert(Brackets { double: false, single: false, depth: b.depth } == b);
}

proof fn lemma_quoted_brackets(b: Brackets, body: Seq<char>, rest: Seq<char>, quote: char)
    requires
        quote == '"' || quote == '\'',
        b.double == (quote == '"'),
        b.single == (quote == '\''),
        forall|i: int| 0 <= i < body.len() ==> body[i] != quote,
    ensures
        after_line(b, body + seq![quote] + rest) == after_line(
            Brackets { double: false, single: false, depth: b.depth },
            rest,
        ),
    decreases body.len(),
{
    let s = body + seq![quote] + rest;
    if body.len() == 0 {
        assert(s[0] == quote);
        assert(s.skip(1) =~= rest);
    } else {
        let fewer = body.skip(1);
        assert forall|i: int| 0 <= i < fewer.len() implies fewer[i] != quote by {
            assert(fewer[i] == body[i + 1]);
        }
        assert(s[0] == body[0]);
        assert(s.skip(1) =~= fewer + seq![quote] + rest);
        assert(after_char(b, body[0]) == b);
        lemma_quoted_brackets(b, fewer, rest, quote);
    }
}

/// The spelling of an optionlist is told by its entries. Where all of them can be read, and TOML's and
/// native ones are not mixed, it is a document where both tables have their headings; native where an
/// entry is and no heading is there; and options alone where neither is so. It needs options, and a
/// heading of its own needs that of the options and no native values.
pub proof fn entries_tell_the_spelling(all: Seq<Seq<char>>)
    ensures
        ({
            let starts = entry_starts(all, 0);
            let n = starts.len() as int;
            let stray = exists|k: int| 0 <= k < n && kind_at(all, #[trigger] starts[k]) is Stray;
            let unknown = exists|k: int|
                0 <= k < n && kind_at(all, #[trigger] starts[k]) is Table && kind_at(all, starts[k])->Table_0
                    != "cactup"@ && kind_at(all, starts[k])->Table_0 != "options"@;
            let toml = exists|k: int|
                0 <= k < n && (kind_at(all, #[trigger] starts[k]) is Text || kind_at(all, starts[k]) is Array || kind_at(
                    all,
                    starts[k],
                ) is Toml);
            let native = exists|k: int| 0 <= k < n && kind_at(all, #[trigger] starts[k]) is Native;
            let options = exists|k: int|
                0 <= k < n && !(kind_at(all, #[trigger] starts[k]) is Blank || kind_at(all, starts[k]) is Table);
            let cactup_table = exists|k: int|
                0 <= k < n && kind_at(all, #[trigger] starts[k]) == LineKind::Table("cactup"@);
            let options_table = exists|k: int|
                0 <= k < n && kind_at(all, #[trigger] starts[k]) == LineKind::Table("options"@);
            let wrong = stray || unknown;
            let r = spelling(all);
            let fine = !wrong && !(toml && native) && options;
            &&& wrong ==> r is Err && (r->Err_0 is Stray || r->Err_0 is UnknownTable)
            &&& !wrong && toml && native ==> r is Err && r->Err_0 is Mixed
            &&& !wrong && !(toml && native) && !options ==> r == Err::<OptionlistFormat, SniffFault>(
                SniffFault::NoOptions,
            )
            &&& fine && cactup_table && options_table ==> r == Ok::<OptionlistFormat, SniffFault>(
                OptionlistFormat::MdbToml,
            )
            &&& fine && cactup_table && !options_table ==> r == Err::<OptionlistFormat, SniffFault>(
                SniffFault::NoOptionsTable,
            )
            &&& fine && !cactup_table && native && options_table ==> r == Err::<OptionlistFormat, SniffFault>(
                SniffFault::TableOverNative,
            )
            &&& fine && !cactup_table && native && !options_table ==> r == Ok::<OptionlistFormat, SniffFault>(
                OptionlistFormat::Cfg,
            )
            &&& fine && !cactup_table && !native ==> r == Ok::<OptionlistFormat, SniffFault>(
                OptionlistFormat::OptionsToml,
            )
        }),
{
    let starts = entry_starts(all, 0);
    let n = starts.len() as int;
    let w = wrong_entries(all, starts);
    let t = toml_entries(all, starts);
    let v = native_entries(all, starts);
    let o = option_entries(all, starts);
    let c = headers(all, starts, "cactup"@);
    let h = headers(all, starts, "options"@);
    lemma_first_from(0, n, w);
    lemma_first_from(0, n, t);
    lemma_first_from(0, n, v);
    lemma_first_from(0, n, o);
    lemma_first_from(0, n, c);
    lemma_first_from(0, n, h);
    let fw = first_where(n, w);
    let ft = first_where(n, t);
    let fv = first_where(n, v);
    let fo = first_where(n, o);
    let fc = first_where(n, c);
    let fh = first_where(n, h);
    assert forall|k: int| 0 <= k < n implies {
        &&& fw == n ==> !w(k)
        &&& ft == n ==> !t(k)
        &&& fv == n ==> !v(k)
        &&& fo == n ==> !o(k)
        &&& fc == n ==> !c(k)
        &&& fh == n ==> !h(k)
    } && {
        let kind = kind_at(all, #[trigger] starts[k]);
        &&& w(k) == (kind is Stray || (kind is Table && kind->Table_0 != "cactup"@ && kind->Table_0 != "options"@))
        &&& t(k) == (kind is Text || kind is Array || kind is Toml)
        &&& v(k) == (kind is Native)
        &&& o(k) == !(kind is Blank || kind is Table)
        &&& c(k) == (kind == LineKind::Table("cactup"@))
        &&& h(k) == (kind == LineKind::Table("options"@))
    } by {}
    if fw < n {
        assert(w(fw) && starts[fw] == starts[fw]);
    }
    if ft < n {
        assert(t(ft) && starts[ft] == starts[ft]);
    }
    if fv < n {
        assert(v(fv) && starts[fv] == starts[fv]);
    }
    if fo < n {
        assert(o(fo) && starts[fo] == starts[fo]);
    }
    if fc < n {
        assert(c(fc) && starts[fc] == starts[fc]);
    }
    if fh < n {
        assert(h(fh) && starts[fh] == starts[fh]);
    }
}

/// A long text goes on to the first line that holds its closing quotes, and an array to the line on which
/// its last bracket closes; every other entry is one line.
pub proof fn long_values_end_where_they_close(all: Seq<Seq<char>>, i: int, j: int)
    requires
        0 <= i < all.len(),
    ensures
        ({
            let kind = kind_at(all, i);
            &&& kind !is Text && kind !is Array ==> entry_end(all, i) == i + 1
            &&& kind matches LineKind::Text(delim, rest) ==> holds(rest, delim) ==> entry_end(all, i) == i + 1
            &&& kind matches LineKind::Text(delim, rest) ==> !holds(rest, delim) && i < j < all.len() && holds(
                all[j],
                delim,
            ) && (forall|k: int| i < k < j ==> !holds(#[trigger] all[k], delim)) ==> entry_end(all, i) == j + 1
            &&& kind matches LineKind::Array(value) ==> after_line(no_brackets(), value).depth <= 0 ==> entry_end(all, i)
                == i + 1
            &&& kind matches LineKind::Array(value) ==> after_line(no_brackets(), value).depth > 0 && i + 1 < all.len()
                && after_line(after_line(no_brackets(), value), all[i + 1]).depth <= 0 ==> entry_end(all, i) == i + 2
        }),
{
    match kind_at(all, i) {
        LineKind::Text(delim, rest) => {
            if !holds(rest, delim) && i < j < all.len() && holds(all[j], delim) && (forall|k: int|
                i < k < j ==> !holds(#[trigger] all[k], delim)) {
                lemma_first_from_line_is(all, i + 1, delim, j);
            }
        },
        LineKind::Array(value) => {
            reveal_with_fuel(array_end, 3);
        },
        _ => {},
    }
}

proof fn lemma_first_from_line_is(all: Seq<Seq<char>>, i: int, delim: Seq<char>, j: int)
    requires
        i <= j < all.len(),
        holds(all[j], delim),
        forall|k: int| i <= k < j ==> !holds(#[trigger] all[k], delim),
    ensures
        first_from_line(all, i, delim) == j,
    decreases j - i,
{
    if i < j {
        assert(!holds(all[i], delim));
        lemma_first_from_line_is(all, i + 1, delim, j);
    }
}

/// A row of digits is a bare integer, with or without a sign, and with underscores behind the first
/// digit; what begins otherwise, or holds anything else, is none.
pub proof fn digits_are_bare_integers(digits: Seq<char>, c: char, rest: Seq<char>)
    ensures
        digits.len() > 0 && (forall|i: int| 0 <= i < digits.len() ==> '0' <= #[trigger] digits[i] <= '9') ==> {
            &&& is_bare_integer(digits)
            &&& is_bare_integer(seq!['-'] + digits)
            &&& is_bare_integer(seq!['+'] + digits)
            &&& is_bare_integer(digits + seq!['_'] + digits)
            &&& !is_bare_integer(seq!['_'] + digits)
            &&& !is_bare_integer(digits + seq!['.'] + rest)
        },
        !('0' <= c <= '9') && c != '+' && c != '-' ==> !is_bare_integer(seq![c] + rest),
        !is_bare_integer(Seq::empty()) && !is_bare_integer(seq!['-']),
{
    if digits.len() > 0 && (forall|i: int| 0 <= i < digits.len() ==> '0' <= #[trigger] digits[i] <= '9') {
        assert('0' <= digits[0] <= '9');
        assert((seq!['-'] + digits).skip(1) =~= digits);
        assert((seq!['+'] + digits).skip(1) =~= digits);
        let parted = digits + seq!['_'] + digits;
        assert(parted[0] == digits[0]);
        assert forall|i: int| 0 <= i < parted.len() implies is_number_char(#[trigger] parted[i]) by {
            if i < digits.len() {
                assert(parted[i] == digits[i]);
            } else if i > digits.len() {
                assert(parted[i] == digits[i - digits.len() - 1]);
            }
        }
        let broken = digits + seq!['.'] + rest;
        assert(broken[0] == digits[0]);
        assert(!is_number_char(broken[digits.len() as int]));
        assert((seq!['_'] + digits)[0] == '_');
    }
    assert((seq![c] + rest)[0] == c);
    assert(seq!['-'].skip(1).len() == 0);
}

} // verus!
