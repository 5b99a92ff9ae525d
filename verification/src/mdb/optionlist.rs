//! Optionlists: reading each of their spellings, and rendering Cactus's own.

use crate::mdb::sniff::{sniff, spelling, strip_trailing_comment, uncommented, OptionlistFormat, SniffError};
use crate::search::{first_where, lemma_first_from, lemma_first_from_is};
use crate::table::{distinct, has_name, inserted, lemma_mapped, mapped, place, value_of, Table};
use crate::text::{
    begins_with, cat2, cat3, cat4, cat5, chars_of, decimal, decimal_of, ends, ends_with, find, index_of,
    lemma_index_of_is, lemma_views_push, lines, lines_of, same, show_text, shown_text, signed_decimal, signed_decimal_of, starts,
    string_of, trim, trimmed, views,
};
use crate::toml_text::{
    dict_of, field, get_field, lemma_toml_of, list_of, read_toml, toml_of, toml_read, Toml, TomlValue,
};
use vstd::prelude::*;

verus! {

/// The `[cactup]` header of an optionlist, which Cactus never sees.
#[derive(Debug)]
pub struct OptionlistHeader {
    /// Whether the build runs on GPUs.
    pub gpu: bool,
    /// The queues that the build may be submitted to; all of them where the list is empty.
    pub compatible_queues: Vec<String>,
    /// The one to take where a machine lists several and none is named.
    pub default: bool,
    /// For the reader only.
    pub description: Option<String>,
    /// The universe to build in.
    pub universe: Option<String>,
    /// Whether simulations run in the universe of the build.
    pub coerce_run_universe: bool,
    pub enabled_thorns: Vec<String>,
    pub disabled_thorns: Vec<String>,
}

/// What a header holds.
pub struct HeaderView {
    pub gpu: bool,
    pub compatible_queues: Seq<Seq<char>>,
    pub default: bool,
    pub description: Option<Seq<char>>,
    pub universe: Option<Seq<char>>,
    pub coerce_run_universe: bool,
    pub enabled_thorns: Seq<Seq<char>>,
    pub disabled_thorns: Seq<Seq<char>>,
}

impl View for OptionlistHeader {
    type V = HeaderView;

    open spec fn view(&self) -> HeaderView {
        HeaderView {
            gpu: self.gpu,
            compatible_queues: views(self.compatible_queues@),
            default: self.default,
            description: match self.description {
                Some(s) => Some(s@),
                None => None,
            },
            universe: match self.universe {
                Some(s) => Some(s@),
                None => None,
            },
            coerce_run_universe: self.coerce_run_universe,
            enabled_thorns: views(self.enabled_thorns@),
            disabled_thorns: views(self.disabled_thorns@),
        }
    }
}

/// The header of an optionlist that has none.
pub open spec fn plain_header() -> HeaderView {
    HeaderView {
        gpu: false,
        compatible_queues: Seq::empty(),
        default: false,
        description: None,
        universe: None,
        coerce_run_universe: true,
        enabled_thorns: Seq::empty(),
        disabled_thorns: Seq::empty(),
    }
}

/// The value of an option.
#[derive(Debug, PartialEq)]
pub enum OptionValue {
    Str(String),
    Bool(bool),
    Int(i64),
}

/// What an option's value holds.
pub enum OptionText {
    Str(Seq<char>),
    Bool(bool),
    Int(int),
}

impl View for OptionValue {
    type V = OptionText;

    open spec fn view(&self) -> OptionText {
        match *self {
            OptionValue::Str(s) => OptionText::Str(s@),
            OptionValue::Bool(b) => OptionText::Bool(b),
            OptionValue::Int(n) => OptionText::Int(n as int),
        }
    }
}

impl OptionText {
    /// Cactus's spelling: text as it is, `yes` or `no`, a number in decimal.
    pub open spec fn spelled(self) -> Seq<char> {
        match self {
            OptionText::Str(s) => s,
            OptionText::Bool(b) => if b {
                "yes"@
            } else {
                "no"@
            },
            OptionText::Int(n) => signed_decimal_of(n),
        }
    }
}

impl OptionValue {
    /// Cactus's spelling of the value.
    pub fn render(&self) -> (r: String)
        ensures
            r@ == self@.spelled(),
    {
        match self {
            OptionValue::Str(s) => s.clone(),
            OptionValue::Bool(b) => if *b {
                "yes".to_owned()
            } else {
                "no".to_owned()
            },
            OptionValue::Int(n) => signed_decimal(*n),
        }
    }
}

/// An optionlist.
pub struct Optionlist {
    pub header: OptionlistHeader,
    /// The options, in the order of the document.
    pub options: Table<OptionValue>,
    /// The text that the optionlist was read from.
    pub source: String,
}

/// The options with what their values hold.
pub open spec fn options_of(options: Seq<(Seq<char>, OptionValue)>) -> Seq<(Seq<char>, OptionText)> {
    mapped(options, |v: OptionValue| v@)
}

/// Why an optionlist cannot be read.
pub enum OptionlistFault {
    Sniff(crate::mdb::sniff::SniffFault),
    Toml(Seq<char>),
    Shape(Seq<char>),
    Float(Seq<char>),
    Kind(Seq<char>, Seq<char>),
    NoVersion,
    NoVersionKey,
    CfgTable(Seq<char>, nat),
    CfgStray(Seq<char>, nat),
}

/// Why an optionlist cannot be read.
#[derive(Debug)]
pub enum OptionlistError {
    /// The text is in none of the accepted spellings.
    Sniff(SniffError),
    /// The text is no TOML document; the reader's message.
    Toml(String),
    /// The document lacks this key, or holds something of the wrong kind under it.
    Shape(String),
    /// The option is a float.
    Float(String),
    /// The option is of this kind, which no option is.
    Kind(String, String),
    /// The `[options]` table has no `VERSION`.
    NoVersion,
    /// The file has no `VERSION`.
    NoVersionKey,
    /// A native file has a table header on this line.
    CfgTable(String, u64),
    /// A native file has a line that is no option.
    CfgStray(String, u64),
}

impl View for OptionlistError {
    type V = OptionlistFault;

    open spec fn view(&self) -> OptionlistFault {
        match *self {
            OptionlistError::Sniff(e) => OptionlistFault::Sniff(e@),
            OptionlistError::Toml(m) => OptionlistFault::Toml(m@),
            OptionlistError::Shape(key) => OptionlistFault::Shape(key@),
            OptionlistError::Float(key) => OptionlistFault::Float(key@),
            OptionlistError::Kind(key, kind) => OptionlistFault::Kind(key@, kind@),
            OptionlistError::NoVersion => OptionlistFault::NoVersion,
            OptionlistError::NoVersionKey => OptionlistFault::NoVersionKey,
            OptionlistError::CfgTable(line, n) => OptionlistFault::CfgTable(line@, n as nat),
            OptionlistError::CfgStray(line, n) => OptionlistFault::CfgStray(line@, n as nat),
        }
    }
}

impl OptionlistError {
    /// The message for the user, as text.
    pub open spec fn text(self) -> Seq<char> {
        match self {
            OptionlistError::Sniff(e) => e.text(),
            OptionlistError::Toml(m) => "Failed to parse optionlist TOML: "@ + m@,
            OptionlistError::Shape(key) => "Failed to parse optionlist TOML: "@ + key@
                + " is missing or of the wrong type"@,
            OptionlistError::Float(key) => "[options]."@ + key@
                + " is a float; Cactus options are never floats — quote it as a string if the dotted value is intended"@,
            OptionlistError::Kind(key, kind) => "[options]."@ + key@
                + " must be a string, boolean, or integer (got "@ + kind@ + ")"@,
            OptionlistError::NoVersion =>
                "[options] must declare VERSION (emitted first; a change forces a full rebuild)"@,
            OptionlistError::NoVersionKey =>
                "optionlist must declare VERSION (emitted first; a change forces a full rebuild)"@,
            OptionlistError::CfgTable(line, n) => "line "@ + decimal_of(n as nat)
                + " is a TOML-style table header, not valid in a native .cfg optionlist: "@ + shown_text(line@),
            OptionlistError::CfgStray(line, n) => "line "@ + decimal_of(n as nat)
                + " is not a KEY = VALUE line: "@ + shown_text(line@),
        }
    }

    /// The message for the user.
    pub fn message(&self) -> (r: String)
        ensures
            r@ == self.text(),
    {
        match self {
            OptionlistError::Sniff(e) => e.message(),
            OptionlistError::Toml(m) => cat2("Failed to parse optionlist TOML: ", m),
            OptionlistError::Shape(key) => cat3(
                "Failed to parse optionlist TOML: ",
                key,
                " is missing or of the wrong type",
            ),
            OptionlistError::Float(key) => cat3(
                "[options].",
                key,
                " is a float; Cactus options are never floats — quote it as a string if the dotted value is intended",
            ),
            OptionlistError::Kind(key, kind) => cat5(
                "[options].",
                key,
                " must be a string, boolean, or integer (got ",
                kind,
                ")",
            ),
            OptionlistError::NoVersion =>
                "[options] must declare VERSION (emitted first; a change forces a full rebuild)".to_owned(),
            OptionlistError::NoVersionKey =>
                "optionlist must declare VERSION (emitted first; a change forces a full rebuild)".to_owned(),
            OptionlistError::CfgTable(line, n) => cat4(
                "line ",
                &decimal(*n),
                " is a TOML-style table header, not valid in a native .cfg optionlist: ",
                &show_text(line),
            ),
            OptionlistError::CfgStray(line, n) => cat4(
                "line ",
                &decimal(*n),
                " is not a KEY = VALUE line: ",
                &show_text(line),
            ),
        }
    }
}

/// What an optionlist holds.
pub struct OptionlistView {
    pub header: HeaderView,
    pub options: Seq<(Seq<char>, OptionText)>,
    pub source: Seq<char>,
}

impl View for Optionlist {
    type V = OptionlistView;

    open spec fn view(&self) -> OptionlistView {
        OptionlistView { header: self.header@, options: options_of(self.options@), source: self.source@ }
    }
}

/// A line of a native file that says nothing.
pub open spec fn is_blank(line: Seq<char>) -> bool {
    line.len() == 0 || begins_with(line, "#"@)
}

/// A line with the shape of a table header.
pub open spec fn is_header(line: Seq<char>) -> bool {
    begins_with(line, "["@) && ends_with(line, "]"@)
}

/// The positions of the lines that no native file can have.
pub open spec fn bad_cfg_lines(all: Seq<Seq<char>>) -> spec_fn(int) -> bool {
    |i: int|
        {
            let line = trimmed(all[i]);
            !is_blank(line) && (is_header(line) || index_of(line, '=') == line.len())
        }
}

/// The key of an option of a native file.
pub open spec fn cfg_key(line: Seq<char>) -> Seq<char> {
    trimmed(line.take(index_of(line, '=')))
}

/// The value of an option of a native file: what follows the sign, without comment and white
/// space, and otherwise as it is.
pub open spec fn cfg_value(line: Seq<char>) -> Seq<char> {
    trimmed(uncommented(line.skip(index_of(line, '=') + 1), false, false, true))
}

/// The options of a native file: a repeated key keeps its first place and gets its last value.
pub open spec fn cfg_options(all: Seq<Seq<char>>) -> Seq<(Seq<char>, OptionText)>
    decreases all.len(),
{
    if all.len() == 0 {
        Seq::empty()
    } else {
        let before = cfg_options(all.drop_last());
        let line = trimmed(all.last());
        if is_blank(line) {
            before
        } else {
            inserted(before, cfg_key(line), OptionText::Str(cfg_value(line)))
        }
    }
}

/// What a native file comes to.
pub open spec fn cfg_read(source: Seq<char>) -> Result<OptionlistView, OptionlistFault> {
    let all = lines_of(source);
    let bad = first_where(all.len() as int, bad_cfg_lines(all));
    if bad < all.len() {
        let line = trimmed(all[bad]);
        if is_header(line) {
            Err(OptionlistFault::CfgTable(line, (bad + 1) as nat))
        } else {
            Err(OptionlistFault::CfgStray(line, (bad + 1) as nat))
        }
    } else if !has_name(cfg_options(all), "VERSION"@) {
        Err(OptionlistFault::NoVersionKey)
    } else {
        Ok(OptionlistView { header: plain_header(), options: cfg_options(all), source })
    }
}

/// Whether `r` reports what reading an optionlist came to.
pub open spec fn reads(
    r: Result<Optionlist, OptionlistError>,
    expected: Result<OptionlistView, OptionlistFault>,
) -> bool {
    match expected {
        Ok(v) => r is Ok && r->Ok_0@ == v,
        Err(f) => r is Err && r->Err_0@ == f,
    }
}

impl OptionlistHeader {
    /// The header of an optionlist that has none.
    pub fn plain() -> (r: OptionlistHeader)
        ensures
            r@ == plain_header(),
    {
        let r = OptionlistHeader {
            gpu: false,
            compatible_queues: Vec::new(),
            default: false,
            description: None,
            universe: None,
            coerce_run_universe: true,
            enabled_thorns: Vec::new(),
            disabled_thorns: Vec::new(),
        };
        assert(r@.compatible_queues =~= Seq::empty());
        assert(r@.enabled_thorns =~= Seq::empty());
        assert(r@.disabled_thorns =~= Seq::empty());
        r
    }
}

/// Reads a native optionlist. Its values are text, taken as they are.
pub fn parse_cfg(source: &str) -> (r: Result<Optionlist, OptionlistError>)
    ensures
        reads(r, cfg_read(source@)),
        r is Ok ==> has_name(r->Ok_0.options@, "VERSION"@),
{
    let all = lines(source);
    let ghost list = views(all@);
    let ghost p = bad_cfg_lines(list);
    let mut options: Table<OptionValue> = Table::new();
    let mut i: usize = 0;
    proof {
        assert(list.take(0) == Seq::<Seq<char>>::empty());
        assert(options_of(options@) =~= Seq::empty());
    }
    while i < all.len()
        invariant
            i <= all@.len(),
            list == views(all@),
            list == lines_of(source@),
            p == bad_cfg_lines(list),
            forall|j: int| 0 <= j < i ==> !(#[trigger] p(j)),
            options_of(options@) == cfg_options(list.take(i as int)),
            distinct(options@),
        decreases all@.len() - i,
    {
        let line = trim(&all[i]);
        let cs = chars_of(&line);
        let lineno: u64 = (i as u64) + 1;
        proof {
            assert(list[i as int] == all@[i as int]@);
            assert(list.take(i + 1).drop_last() == list.take(i as int));
            assert(list.take(i + 1).last() == list[i as int]);
        }
        if cs.len() == 0 || starts(&line, "#") {
            assert(!p(i as int));
            i += 1;
            continue;
        }
        let eq: usize = find(&cs, 0, '=');
        assert(cs@.skip(0) == cs@);
        if starts(&line, "[") && ends(&line, "]") {
            proof {
                assert(p(i as int));
                lemma_first_from_is(0, list.len() as int, p, i as int);
            }
            return Err(OptionlistError::CfgTable(line, lineno));
        }
        if eq == cs.len() {
            proof {
                assert(p(i as int));
                lemma_first_from_is(0, list.len() as int, p, i as int);
            }
            return Err(OptionlistError::CfgStray(line, lineno));
        }
        assert(!p(i as int));
        let key = trim(&string_of(&cs, 0, eq));
        let tail = string_of(&cs, eq + 1, cs.len());
        let value = trim(&strip_trailing_comment(&tail));
        proof {
            assert(cs@.subrange(0, eq as int) == line@.take(eq as int));
            assert(tail@ == line@.skip(eq + 1));
            lemma_mapped(options@, |v: OptionValue| v@, key@, OptionValue::Str(value));
            crate::table::lemma_inserted_lookup(options@, key@, OptionValue::Str(value), key@);
        }
        options.insert(key, OptionValue::Str(value));
        i += 1;
    }
    proof {
        lemma_first_from_is(0, list.len() as int, p, list.len() as int);
        assert(list.take(i as int) == list);
        lemma_mapped(options@, |v: OptionValue| v@, "VERSION"@, OptionValue::Bool(true));
    }
    if !options.contains("VERSION") {
        return Err(OptionlistError::NoVersionKey);
    }
    Ok(Optionlist { header: OptionlistHeader::plain(), options, source: source.to_owned() })
}

/// The positions of the items that are not text.
pub open spec fn not_text(items: Seq<Toml>) -> spec_fn(int) -> bool {
    |i: int| !(items[i] is Str)
}

/// Whether a header's key holds what the header takes: nothing, or a value of the right kind.
pub open spec fn fits(header: Seq<(Seq<char>, Toml)>, key: Seq<char>, kind: FieldKind) -> bool {
    match field(header, key) {
        None => true,
        Some(v) => match kind {
            FieldKind::Flag => v is Bool,
            FieldKind::Text => v is Str,
            FieldKind::Texts => v is List && first_where(v->List_0.len() as int, not_text(v->List_0))
                == v->List_0.len(),
        },
    }
}

/// The kinds of value that a header's keys take.
#[derive(Debug, Clone, Copy, PartialEq, Eq, Structural)]
pub enum FieldKind {
    Flag,
    Text,
    Texts,
}

/// The flag under a key.
pub open spec fn flag_of(header: Seq<(Seq<char>, Toml)>, key: Seq<char>, default: bool) -> bool {
    match field(header, key) {
        Some(Toml::Bool(b)) => b,
        _ => default,
    }
}

/// The text under a key.
pub open spec fn text_of(header: Seq<(Seq<char>, Toml)>, key: Seq<char>) -> Option<Seq<char>> {
    match field(header, key) {
        Some(Toml::Str(s)) => Some(s),
        _ => None,
    }
}

/// The texts under a key.
pub open spec fn texts_of(header: Seq<(Seq<char>, Toml)>, key: Seq<char>) -> Seq<Seq<char>> {
    match field(header, key) {
        Some(Toml::List(items)) => Seq::new(items.len(), |i: int| items[i]->Str_0),
        _ => Seq::empty(),
    }
}

/// The header that a `[cactup]` table writes down, or the first of its keys whose value is of the
/// wrong kind. Keys that a header does not have are passed over.
pub open spec fn header_read(t: Seq<(Seq<char>, Toml)>) -> Result<HeaderView, Seq<char>> {
    if !fits(t, "gpu"@, FieldKind::Flag) {
        Err("gpu"@)
    } else if !fits(t, "compatible-queues"@, FieldKind::Texts) {
        Err("compatible-queues"@)
    } else if !fits(t, "default"@, FieldKind::Flag) {
        Err("default"@)
    } else if !fits(t, "description"@, FieldKind::Text) {
        Err("description"@)
    } else if !fits(t, "universe"@, FieldKind::Text) {
        Err("universe"@)
    } else if !fits(t, "coerce-run-universe"@, FieldKind::Flag) {
        Err("coerce-run-universe"@)
    } else if !fits(t, "enabled-thorns"@, FieldKind::Texts) {
        Err("enabled-thorns"@)
    } else if !fits(t, "disabled-thorns"@, FieldKind::Texts) {
        Err("disabled-thorns"@)
    } else {
        Ok(
            HeaderView {
                gpu: flag_of(t, "gpu"@, false),
                compatible_queues: texts_of(t, "compatible-queues"@),
                default: flag_of(t, "default"@, false),
                description: text_of(t, "description"@),
                universe: text_of(t, "universe"@),
                coerce_run_universe: flag_of(t, "coerce-run-universe"@, true),
                enabled_thorns: texts_of(t, "enabled-thorns"@),
                disabled_thorns: texts_of(t, "disabled-thorns"@),
            },
        )
    }
}

pub(crate) fn read_flag(items: &Vec<(String, TomlValue)>, key: &str, default: bool) -> (r: Result<bool, String>)
    ensures
        r is Ok <==> fits(dict_of(items@), key@, FieldKind::Flag),
        r is Ok ==> r->Ok_0 == flag_of(dict_of(items@), key@, default),
        r is Err ==> r->Err_0@ == key@,
{
    match get_field(items, key) {
        None => Ok(default),
        Some(v) => match v {
            TomlValue::Bool(b) => Ok(*b),
            _ => Err(key.to_owned()),
        },
    }
}

pub(crate) fn read_text(items: &Vec<(String, TomlValue)>, key: &str) -> (r: Result<Option<String>, String>)
    ensures
        r is Ok <==> fits(dict_of(items@), key@, FieldKind::Text),
        r is Ok ==> match r->Ok_0 {
            Some(s) => text_of(dict_of(items@), key@) == Some(s@),
            None => text_of(dict_of(items@), key@) is None,
        },
        r is Err ==> r->Err_0@ == key@,
{
    match get_field(items, key) {
        None => Ok(None),
        Some(v) => match v {
            TomlValue::Str(s) => Ok(Some(s.clone())),
            _ => Err(key.to_owned()),
        },
    }
}

pub(crate) fn read_texts(items: &Vec<(String, TomlValue)>, key: &str) -> (r: Result<Vec<String>, String>)
    ensures
        r is Ok <==> fits(dict_of(items@), key@, FieldKind::Texts),
        r is Ok ==> views(r->Ok_0@) == texts_of(dict_of(items@), key@),
        r is Err ==> r->Err_0@ == key@,
{
    match get_field(items, key) {
        None => {
            let out: Vec<String> = Vec::new();
            assert(views(out@) =~= Seq::empty());
            Ok(out)
        },
        Some(v) => {
            proof {
                lemma_toml_of(*v);
            }
            match v {
                TomlValue::List(list) => {
                    let ghost held = list_of(list@);
                    let ghost p = not_text(held);
                    let ghost texts = texts_of(dict_of(items@), key@);
                    let mut out: Vec<String> = Vec::new();
                    let mut i: usize = 0;
                    assert(views(out@) =~= texts.take(0));
                    while i < list.len()
                        invariant
                            i <= list@.len(),
                            held == list_of(list@),
                            p == not_text(held),
                            texts.len() == held.len(),
                            field(dict_of(items@), key@) == Some(Toml::List(held)),
                            forall|j: int| 0 <= j < held.len() ==> texts[j] == (#[trigger] held[j])->Str_0,
                            forall|j: int| 0 <= j < i ==> !(#[trigger] p(j)),
                            views(out@) == texts.take(i as int),
                        decreases list@.len() - i,
                    {
                        assert(held[i as int] == toml_of(list@[i as int]));
                        match &list[i] {
                            TomlValue::Str(s) => {
                                let ghost before = out@;
                                let item = s.clone();
                                out.push(item);
                                proof {
                                    assert(!p(i as int));
                                    lemma_views_push(before, item);
                                    assert(texts.take(i + 1) == texts.take(i as int).push(item@));
                                }
                                i += 1;
                            },
                            _ => {
                                proof {
                                    assert(p(i as int));
                                    lemma_first_from_is(0, held.len() as int, p, i as int);
                                }
                                return Err(key.to_owned());
                            },
                        }
                    }
                    proof {
                        lemma_first_from_is(0, held.len() as int, p, held.len() as int);
                        assert(texts.take(i as int) == texts);
                    }
                    Ok(out)
                },
                _ => Err(key.to_owned()),
            }
        },
    }
}

impl OptionlistHeader {
    /// Reads the header that a `[cactup]` table writes down; the error names the key.
    pub fn from_toml(items: &Vec<(String, TomlValue)>) -> (r: Result<OptionlistHeader, String>)
        ensures
            match header_read(dict_of(items@)) {
                Ok(h) => r is Ok && r->Ok_0@ == h,
                Err(key) => r is Err && r->Err_0@ == key,
            },
    {
        let gpu = match read_flag(items, "gpu", false) {
            Ok(v) => v,
            Err(e) => {
                return Err(e);
            },
        };
        let compatible_queues = match read_texts(items, "compatible-queues") {
            Ok(v) => v,
            Err(e) => {
                return Err(e);
            },
        };
        let default = match read_flag(items, "default", false) {
            Ok(v) => v,
            Err(e) => {
                return Err(e);
            },
        };
        let description = match read_text(items, "description") {
            Ok(v) => v,
            Err(e) => {
                return Err(e);
            },
        };
        let universe = match read_text(items, "universe") {
            Ok(v) => v,
            Err(e) => {
                return Err(e);
            },
        };
        let coerce_run_universe = match read_flag(items, "coerce-run-universe", true) {
            Ok(v) => v,
            Err(e) => {
                return Err(e);
            },
        };
        let enabled_thorns = match read_texts(items, "enabled-thorns") {
            Ok(v) => v,
            Err(e) => {
                return Err(e);
            },
        };
        let disabled_thorns = match read_texts(items, "disabled-thorns") {
            Ok(v) => v,
            Err(e) => {
                return Err(e);
            },
        };
        Ok(
            OptionlistHeader {
                gpu,
                compatible_queues,
                default,
                description,
                universe,
                coerce_run_universe,
                enabled_thorns,
                disabled_thorns,
            },
        )
    }
}

/// The positions of the options whose value no option has.
pub open spec fn bad_options(t: Seq<(Seq<char>, Toml)>) -> spec_fn(int) -> bool {
    |i: int| !(t[i].1 is Str || t[i].1 is Bool || t[i].1 is Int)
}

/// What a TOML value is called in a message.
pub open spec fn kind_name(v: Toml) -> Seq<char> {
    match v {
        Toml::Str(_) => "string"@,
        Toml::Int(_) => "integer"@,
        Toml::Bool(_) => "boolean"@,
        Toml::Float => "float"@,
        Toml::Datetime => "datetime"@,
        Toml::List(_) => "array"@,
        Toml::Dict(_) => "table"@,
    }
}

/// The value of an option.
pub open spec fn option_text(v: Toml) -> OptionText {
    match v {
        Toml::Str(s) => OptionText::Str(s),
        Toml::Bool(b) => OptionText::Bool(b),
        Toml::Int(n) => OptionText::Int(n),
        _ => OptionText::Int(0),
    }
}

/// The options that an `[options]` table writes down.
pub open spec fn toml_options(t: Seq<(Seq<char>, Toml)>) -> Seq<(Seq<char>, OptionText)>
    decreases t.len(),
{
    if t.len() == 0 {
        Seq::empty()
    } else {
        inserted(toml_options(t.drop_last()), t.last().0, option_text(t.last().1))
    }
}

/// The `[cactup]` table of a document; an empty one where the document has none.
pub open spec fn header_table(t: Seq<(Seq<char>, Toml)>) -> Result<Seq<(Seq<char>, Toml)>, Seq<char>> {
    match field(t, "cactup"@) {
        None => Ok(Seq::empty()),
        Some(Toml::Dict(h)) => Ok(h),
        Some(_) => Err("cactup"@),
    }
}

/// What a document comes to as an optionlist read from `source`: a fault of its shape, or else
/// the first option whose value no option has, or else a missing `VERSION`.
pub open spec fn document_read(
    t: Seq<(Seq<char>, Toml)>,
    source: Seq<char>,
) -> Result<OptionlistView, OptionlistFault> {
    match header_table(t) {
        Err(key) => Err(OptionlistFault::Shape(key)),
        Ok(h) => match header_read(h) {
            Err(key) => Err(OptionlistFault::Shape(key)),
            Ok(header) => match field(t, "options"@) {
                Some(Toml::Dict(options)) => {
                    let bad = first_where(options.len() as int, bad_options(options));
                    if bad < options.len() {
                        if options[bad].1 is Float {
                            Err(OptionlistFault::Float(options[bad].0))
                        } else {
                            Err(OptionlistFault::Kind(options[bad].0, kind_name(options[bad].1)))
                        }
                    } else if !has_name(toml_options(options), "VERSION"@) {
                        Err(OptionlistFault::NoVersion)
                    } else {
                        Ok(OptionlistView { header, options: toml_options(options), source })
                    }
                },
                _ => Err(OptionlistFault::Shape("options"@)),
            },
        },
    }
}

fn kind_text(v: &TomlValue) -> (r: &'static str)
    ensures
        r@ == kind_name(toml_of(*v)),
{
    match v {
        TomlValue::Str(_) => "string",
        TomlValue::Int(_) => "integer",
        TomlValue::Bool(_) => "boolean",
        TomlValue::Float => "float",
        TomlValue::Datetime => "datetime",
        TomlValue::List(_) => "array",
        TomlValue::Dict(_) => "table",
    }
}

fn read_options(items: &Vec<(String, TomlValue)>) -> (r: Result<Table<OptionValue>, OptionlistError>)
    ensures
        ({
            let t = dict_of(items@);
            let bad = first_where(t.len() as int, bad_options(t));
            if bad < t.len() {
                r is Err && r->Err_0@ == (if t[bad].1 is Float {
                    OptionlistFault::Float(t[bad].0)
                } else {
                    OptionlistFault::Kind(t[bad].0, kind_name(t[bad].1))
                })
            } else {
                r is Ok && options_of(r->Ok_0@) == toml_options(t)
            }
        }),
{
    let ghost t = dict_of(items@);
    let ghost p = bad_options(t);
    let mut options: Table<OptionValue> = Table::new();
    let mut i: usize = 0;
    proof {
        assert(t.take(0) == Seq::<(Seq<char>, Toml)>::empty());
        assert(options_of(options@) =~= Seq::empty());
    }
    while i < items.len()
        invariant
            i <= items@.len(),
            t == dict_of(items@),
            p == bad_options(t),
            forall|j: int| 0 <= j < i ==> !(#[trigger] p(j)),
            options_of(options@) == toml_options(t.take(i as int)),
            distinct(options@),
        decreases items@.len() - i,
    {
        assert(t[i as int] == (items@[i as int].0@, toml_of(items@[i as int].1)));
        let value: OptionValue = match &items[i].1 {
            TomlValue::Str(s) => OptionValue::Str(s.clone()),
            TomlValue::Bool(b) => OptionValue::Bool(*b),
            TomlValue::Int(n) => OptionValue::Int(*n),
            other => {
                proof {
                    assert(p(i as int));
                    lemma_first_from_is(0, t.len() as int, p, i as int);
                }
                let key = items[i].0.clone();
                return match other {
                    TomlValue::Float => Err(OptionlistError::Float(key)),
                    _ => Err(OptionlistError::Kind(key, kind_text(other).to_owned())),
                };
            },
        };
        let key = items[i].0.clone();
        proof {
            assert(!p(i as int));
            assert(value@ == option_text(t[i as int].1));
            assert(t.take(i + 1).drop_last() == t.take(i as int));
            assert(t.take(i + 1).last() == t[i as int]);
            lemma_mapped(options@, |v: OptionValue| v@, key@, value);
            crate::table::lemma_inserted_lookup(options@, key@, value, key@);
        }
        options.insert(key, value);
        i += 1;
    }
    proof {
        lemma_first_from_is(0, t.len() as int, p, t.len() as int);
        assert(t.take(i as int) == t);
    }
    Ok(options)
}

/// The text of the lines of all options but `VERSION`.
pub open spec fn rendered_rest(options: Seq<(Seq<char>, OptionText)>) -> Seq<char>
    decreases options.len(),
{
    if options.len() == 0 {
        Seq::empty()
    } else if options.last().0 == "VERSION"@ {
        rendered_rest(options.drop_last())
    } else {
        rendered_rest(options.drop_last()) + (options.last().0 + " = "@ + options.last().1.spelled() + "\n"@)
    }
}

/// The native file of some options: `VERSION` first, then the others in order.
pub open spec fn rendered(options: Seq<(Seq<char>, OptionText)>) -> Seq<char> {
    "VERSION = "@ + value_of(options, "VERSION"@).spelled() + "\n"@ + rendered_rest(options)
}

/// Whether some line reads `[options]`.
pub open spec fn names_options(all: Seq<Seq<char>>) -> bool {
    exists|i: int| 0 <= i < all.len() && trimmed(#[trigger] all[i]) == "[options]"@
}

/// Whether some line of the text reads `[options]`.
pub fn has_literal_options_header(source: &str) -> (r: bool)
    ensures
        r == names_options(lines_of(source@)),
{
    let all = lines(source);
    let ghost list = views(all@);
    let mut i: usize = 0;
    while i < all.len()
        invariant
            i <= all@.len(),
            list == views(all@),
            list == lines_of(source@),
            forall|j: int| 0 <= j < i ==> trimmed(#[trigger] list[j]) != "[options]"@,
        decreases all@.len() - i,
    {
        assert(list[i as int] == all@[i as int]@);
        if same(&trim(&all[i]), "[options]") {
            return true;
        }
        i += 1;
    }
    false
}

/// What a TOML text comes to as an optionlist read from `source`.
pub open spec fn toml_optionlist(text: Seq<char>, source: Seq<char>) -> Result<OptionlistView, OptionlistFault> {
    match toml_read(text) {
        Err(m) => Err(OptionlistFault::Toml(m)),
        Ok(t) => document_read(t->Dict_0, source),
    }
}

/// What a text comes to as an optionlist in whichever spelling it has.
pub open spec fn any_optionlist(source: Seq<char>) -> Result<OptionlistView, OptionlistFault> {
    match spelling(lines_of(source)) {
        Err(f) => Err(OptionlistFault::Sniff(f)),
        Ok(OptionlistFormat::MdbToml) => toml_optionlist(source, source),
        Ok(OptionlistFormat::OptionsToml) => if names_options(lines_of(source)) {
            toml_optionlist(source, source)
        } else {
            toml_optionlist("[options]\n"@ + source, source)
        },
        Ok(OptionlistFormat::Cfg) => cfg_read(source),
    }
}

/// The header of a document; its defaults where the document has none.
pub open spec fn document_header(t: Seq<(Seq<char>, Toml)>) -> Result<HeaderView, OptionlistFault> {
    match header_table(t) {
        Err(key) => Err(OptionlistFault::Shape(key)),
        Ok(h) => match header_read(h) {
            Err(key) => Err(OptionlistFault::Shape(key)),
            Ok(header) => Ok(header),
        },
    }
}

fn read_header(items: &Vec<(String, TomlValue)>) -> (r: Result<OptionlistHeader, OptionlistError>)
    ensures
        match document_header(dict_of(items@)) {
            Ok(h) => r is Ok && r->Ok_0@ == h,
            Err(f) => r is Err && r->Err_0@ == f,
        },
{
    let header = match get_field(items, "cactup") {
        None => {
            let none: Vec<(String, TomlValue)> = Vec::new();
            assert(dict_of(none@) =~= Seq::empty());
            OptionlistHeader::from_toml(&none)
        },
        Some(v) => {
            proof {
                lemma_toml_of(*v);
            }
            match v {
                TomlValue::Dict(h) => OptionlistHeader::from_toml(h),
                _ => {
                    return Err(OptionlistError::Shape("cactup".to_owned()));
                },
            }
        },
    };
    match header {
        Ok(h) => Ok(h),
        Err(key) => Err(OptionlistError::Shape(key)),
    }
}

/// What a text comes to where only the header is asked for.
pub open spec fn header_in(source: Seq<char>) -> Result<HeaderView, OptionlistFault> {
    match toml_read(source) {
        Err(m) => Err(OptionlistFault::Toml(m)),
        Ok(t) => document_header(t->Dict_0),
    }
}

/// Reads the header alone, whatever the options are.
pub fn load_header(source: &str) -> (r: Result<OptionlistHeader, OptionlistError>)
    ensures
        match header_in(source@) {
            Ok(h) => r is Ok && r->Ok_0@ == h,
            Err(f) => r is Err && r->Err_0@ == f,
        },
{
    match read_toml(source) {
        Err(m) => Err(OptionlistError::Toml(m)),
        Ok(v) => {
            proof {
                lemma_toml_of(v);
            }
            match v {
                TomlValue::Dict(items) => read_header(&items),
                _ => Err(OptionlistError::Shape("cactup".to_owned())),
            }
        },
    }
}

impl Optionlist {
    /// Makes an optionlist of a document that was read from `source`.
    pub fn from_toml(items: &Vec<(String, TomlValue)>, source: &str) -> (r: Result<Optionlist, OptionlistError>)
        ensures
            reads(r, document_read(dict_of(items@), source@)),
            r is Ok ==> has_name(r->Ok_0.options@, "VERSION"@),
    {
        let header = match read_header(items) {
            Ok(h) => h,
            Err(e) => {
                return Err(e);
            },
        };
        match get_field(items, "options") {
            None => Err(OptionlistError::Shape("options".to_owned())),
            Some(v) => {
                proof {
                    lemma_toml_of(*v);
                }
                match v {
                    TomlValue::Dict(o) => match read_options(o) {
                        Err(e) => Err(e),
                        Ok(options) => {
                            let found = options.contains("VERSION");
                            let n: usize = options.len();
                            proof {
                                lemma_mapped(options@, |v: OptionValue| v@, "VERSION"@, OptionValue::Bool(true));
                            }
                            if found {
                                Ok(Optionlist { header, options, source: source.to_owned() })
                            } else {
                                Err(OptionlistError::NoVersion)
                            }
                        },
                    },
                    _ => Err(OptionlistError::Shape("options".to_owned())),
                }
            },
        }
    }

    fn parse_from(text: &str, source: &str) -> (r: Result<Optionlist, OptionlistError>)
        ensures
            reads(r, toml_optionlist(text@, source@)),
            r is Ok ==> has_name(r->Ok_0.options@, "VERSION"@),
    {
        match read_toml(text) {
            Err(m) => Err(OptionlistError::Toml(m)),
            Ok(v) => {
                proof {
                    lemma_toml_of(v);
                }
                match v {
                    TomlValue::Dict(items) => Optionlist::from_toml(&items, source),
                    _ => Err(OptionlistError::Shape("options".to_owned())),
                }
            },
        }
    }

    /// Reads an optionlist of the machine database.
    pub fn parse(source: &str) -> (r: Result<Optionlist, OptionlistError>)
        ensures
            reads(r, toml_optionlist(source@, source@)),
            r is Ok ==> has_name(r->Ok_0.options@, "VERSION"@),
    {
        Optionlist::parse_from(source, source)
    }

    /// Reads an optionlist in whichever spelling it has. Its `source` is the text as given.
    pub fn parse_any(source: &str) -> (r: Result<Optionlist, OptionlistError>)
        ensures
            reads(r, any_optionlist(source@)),
            r is Ok ==> has_name(r->Ok_0.options@, "VERSION"@),
    {
        match sniff(source) {
            Err(e) => Err(OptionlistError::Sniff(e)),
            Ok(format) => match format {
                OptionlistFormat::MdbToml => Optionlist::parse(source),
                OptionlistFormat::OptionsToml => {
                    if has_literal_options_header(source) {
                        Optionlist::parse(source)
                    } else {
                        Optionlist::parse_from(&cat2("[options]\n", source), source)
                    }
                },
                OptionlistFormat::Cfg => parse_cfg(source),
            },
        }
    }

    /// Renders the native file: `VERSION` first, then the other options in order.
    pub fn render(&self) -> (r: String)
        requires
            has_name(self.options@, "VERSION"@),
        ensures
            r@ == rendered(options_of(self.options@)),
    {
        let ghost all = options_of(self.options@);
        let n: usize = self.options.len();
        let at: usize = self.options.find("VERSION");
        proof {
            lemma_mapped(self.options@, |v: OptionValue| v@, "VERSION"@, OptionValue::Bool(true));
        }
        let head = cat3("VERSION = ", &self.options.at(at).render(), "\n");
        let mut rest = String::new();
        let mut i: usize = 0;
        assert(all.take(0) == Seq::<(Seq<char>, OptionText)>::empty());
        while i < n
            invariant
                i <= n,
                n == self.options@.len(),
                all == options_of(self.options@),
                rest@ == rendered_rest(all.take(i as int)),
            decreases n - i,
        {
            let name = self.options.name_at(i);
            proof {
                assert(all.take(i + 1).drop_last() == all.take(i as int));
                assert(all.take(i + 1).last() == all[i as int]);
                assert(all[i as int] == (name@, self.options@[i as int].1@));
            }
            if !same(name, "VERSION") {
                rest.append(&cat4(name, " = ", &self.options.at(i).render(), "\n"));
            }
            i += 1;
        }
        assert(all.take(i as int) == all);
        cat2(&head, &rest)
    }
}

/// The native file of any options begins with the line that declares `VERSION`, wherever the
/// document had it.
pub proof fn version_comes_first(options: Seq<(Seq<char>, OptionText)>)
    ensures
        begins_with(rendered(options), "VERSION = "@ + value_of(options, "VERSION"@).spelled() + "\n"@),
{
    let head = "VERSION = "@ + value_of(options, "VERSION"@).spelled() + "\n"@;
    assert(rendered(options).take(head.len() as int) =~= head);
}

proof fn lemma_cfg_options_text(all: Seq<Seq<char>>, i: int)
    requires
        0 <= i < cfg_options(all).len(),
    ensures
        cfg_options(all)[i].1 is Str,
    decreases all.len(),
{
    if all.len() > 0 {
        let before = cfg_options(all.drop_last());
        let line = trimmed(all.last());
        if is_blank(line) {
            lemma_cfg_options_text(all.drop_last(), i);
        } else if has_name(before, cfg_key(line)) {
            let p = place(before, cfg_key(line));
            if i != p {
                lemma_cfg_options_text(all.drop_last(), i);
            }
        } else if i < before.len() {
            lemma_cfg_options_text(all.drop_last(), i);
        }
    }
}

/// A native file's values stay text, spelled as the file spells them: none turns into a flag or
/// a number.
pub proof fn native_values_stay_text(source: Seq<char>, i: int)
    requires
        cfg_read(source) is Ok,
        0 <= i < cfg_read(source)->Ok_0.options.len(),
    ensures
        cfg_read(source)->Ok_0.options[i].1 is Str,
        cfg_read(source)->Ok_0.options[i].1.spelled() == cfg_read(source)->Ok_0.options[i].1->Str_0,
{
    lemma_cfg_options_text(lines_of(source), i);
}

/// Whatever the spelling, an optionlist keeps the text that it was read from as it was, and
/// declares a `VERSION`.
pub proof fn sources_are_kept(source: Seq<char>)
    ensures
        any_optionlist(source) matches Ok(v) ==> v.source == source && has_name(v.options, "VERSION"@),
{
}

/// A header says of an optionlist what is under each of its keys. A key that is missing has its
/// default: no GPUs, any queue, no default, no description, no universe, no thorns; but that runs take
/// the universe of the build. A value of the wrong kind is refused.
pub proof fn headers_are_read_by_key(t: Seq<(Seq<char>, Toml)>)
    ensures
        ({
            let r = header_read(t);
            &&& r is Ok ==> {
                let h = r->Ok_0;
                &&& field(t, "gpu"@) is None ==> !h.gpu
                &&& field(t, "gpu"@) is Some ==> field(t, "gpu"@)->0 == Toml::Bool(h.gpu)
                &&& field(t, "default"@) is None ==> !h.default
                &&& field(t, "default"@) is Some ==> field(t, "default"@)->0 == Toml::Bool(h.default)
                &&& field(t, "coerce-run-universe"@) is None ==> h.coerce_run_universe
                &&& field(t, "coerce-run-universe"@) is Some ==> field(t, "coerce-run-universe"@)->0 == Toml::Bool(
                    h.coerce_run_universe,
                )
                &&& field(t, "description"@) is None <==> h.description is None
                &&& h.description is Some ==> field(t, "description"@) == Some(Toml::Str(h.description->0))
                &&& field(t, "universe"@) is None <==> h.universe is None
                &&& h.universe is Some ==> field(t, "universe"@) == Some(Toml::Str(h.universe->0))
                &&& holds_texts(field(t, "compatible-queues"@), h.compatible_queues)
                &&& holds_texts(field(t, "enabled-thorns"@), h.enabled_thorns)
                &&& holds_texts(field(t, "disabled-thorns"@), h.disabled_thorns)
            }
            &&& field(t, "gpu"@) is Some && field(t, "gpu"@)->0 !is Bool ==> r == Err::<HeaderView, Seq<char>>("gpu"@)
            &&& field(t, "default"@) is Some && field(t, "default"@)->0 !is Bool ==> r is Err
            &&& field(t, "coerce-run-universe"@) is Some && field(t, "coerce-run-universe"@)->0 !is Bool ==> r is Err
            &&& field(t, "universe"@) is Some && field(t, "universe"@)->0 !is Str ==> r is Err
            &&& field(t, "description"@) is Some && field(t, "description"@)->0 !is Str ==> r is Err
            &&& field(t, "compatible-queues"@) is Some && field(t, "compatible-queues"@)->0 !is List ==> r is Err
        }),
{
    lemma_texts(t, "compatible-queues"@);
    lemma_texts(t, "enabled-thorns"@);
    lemma_texts(t, "disabled-thorns"@);
}

/// Whether a value is a list of just these texts, or missing where there are none.
pub open spec fn holds_texts(v: Option<Toml>, texts: Seq<Seq<char>>) -> bool {
    match v {
        None => texts.len() == 0,
        Some(t) => t matches Toml::List(items) && items.len() == texts.len() && forall|i: int|
            0 <= i < items.len() ==> (#[trigger] items[i]) == Toml::Str(texts[i]),
    }
}

pub(crate) proof fn lemma_texts(t: Seq<(Seq<char>, Toml)>, key: Seq<char>)
    ensures
        fits(t, key, FieldKind::Texts) ==> holds_texts(field(t, key), texts_of(t, key)),
{
    if field(t, key) is Some && field(t, key)->0 is List {
        let items = field(t, key)->0->List_0;
        let p = not_text(items);
        lemma_first_from(0, items.len() as int, p);
        if fits(t, key, FieldKind::Texts) {
            assert forall|i: int| 0 <= i < items.len() implies (#[trigger] items[i]) == Toml::Str(
                texts_of(t, key)[i],
            ) by {
                assert(!p(i));
            }
        }
    }
}

/// The options of a table are its entries, in their order, each as what it is.
pub proof fn options_are_read_as_written(t: Seq<(Seq<char>, Toml)>)
    requires
        distinct(t),
    ensures
        toml_options(t).len() == t.len(),
        forall|i: int|
            #![trigger t[i]]
            0 <= i < t.len() ==> {
                &&& toml_options(t)[i].0 == t[i].0
                &&& t[i].1 matches Toml::Str(s) ==> toml_options(t)[i].1 == OptionText::Str(s)
                &&& t[i].1 matches Toml::Bool(b) ==> toml_options(t)[i].1 == OptionText::Bool(b)
                &&& t[i].1 matches Toml::Int(n) ==> toml_options(t)[i].1 == OptionText::Int(n)
            },
    decreases t.len(),
{
    if t.len() > 0 {
        let rest = t.drop_last();
        assert forall|i: int, j: int| #![trigger rest[i], rest[j]] 0 <= i < j < rest.len() implies rest[i].0
            != rest[j].0 by {
            assert(t[i].0 != t[j].0);
        }
        options_are_read_as_written(rest);
        let before = toml_options(rest);
        assert forall|i: int| 0 <= i < before.len() implies (#[trigger] before[i]).0 != t.last().0 by {
            assert(rest[i].0 == before[i].0);
            assert(t[i].0 != t[t.len() - 1].0);
        }
        assert(!has_name(before, t.last().0));
        assert forall|i: int| #![trigger t[i]] 0 <= i < t.len() implies {
            &&& toml_options(t)[i].0 == t[i].0
            &&& t[i].1 matches Toml::Str(s) ==> toml_options(t)[i].1 == OptionText::Str(s)
            &&& t[i].1 matches Toml::Bool(b) ==> toml_options(t)[i].1 == OptionText::Bool(b)
            &&& t[i].1 matches Toml::Int(n) ==> toml_options(t)[i].1 == OptionText::Int(n)
        } by {
            if i < rest.len() {
                assert(rest[i] == t[i]);
                assert(toml_options(t)[i] == before[i]);
            }
        }
    }
}

/// An optionlist is read from a document only where it has options, all of them texts, numbers or
/// switches, and `VERSION` is one; its header is the document's own.
pub proof fn documents_need_options(t: Seq<(Seq<char>, Toml)>, source: Seq<char>)
    ensures
        ({
            let r = document_read(t, source);
            let header = header_table(t);
            &&& r is Ok ==> {
                &&& field(t, "options"@) is Some && field(t, "options"@)->0 is Dict
                &&& r->Ok_0.options == toml_options(field(t, "options"@)->0->Dict_0)
                &&& has_name(r->Ok_0.options, "VERSION"@)
                &&& r->Ok_0.source == source
                &&& header is Ok && header_read(header->Ok_0) == Ok::<HeaderView, Seq<char>>(r->Ok_0.header)
            }
            &&& field(t, "cactup"@) is Some && field(t, "cactup"@)->0 !is Dict ==> r == Err::<
                OptionlistView,
                OptionlistFault,
            >(OptionlistFault::Shape("cactup"@))
            &&& field(t, "cactup"@) is None ==> header == Ok::<Seq<(Seq<char>, Toml)>, Seq<char>>(Seq::empty())
            &&& field(t, "cactup"@) matches Some(Toml::Dict(h)) ==> header == Ok::<
                Seq<(Seq<char>, Toml)>,
                Seq<char>,
            >(h)
            &&& field(t, "options"@) is None ==> r is Err
        }),
        forall|options: Seq<(Seq<char>, Toml)>|
            field(t, "options"@) == Some(Toml::Dict(options)) && document_read(t, source) is Ok ==> forall|i: int|
                0 <= i < options.len() ==> {
                    ||| (#[trigger] options[i]).1 is Str
                    ||| options[i].1 is Bool
                    ||| options[i].1 is Int
                },
{
    assert forall|options: Seq<(Seq<char>, Toml)>|
        field(t, "options"@) == Some(Toml::Dict(options)) && document_read(t, source) is Ok implies forall|i: int|
        0 <= i < options.len() ==> {
            ||| (#[trigger] options[i]).1 is Str
            ||| options[i].1 is Bool
            ||| options[i].1 is Int
        } by {
        let p = bad_options(options);
        lemma_first_from(0, options.len() as int, p);
        assert forall|i: int| 0 <= i < options.len() implies {
            ||| (#[trigger] options[i]).1 is Str
            ||| options[i].1 is Bool
            ||| options[i].1 is Int
        } by {
            assert(!p(i));
        }
    }
}

/// Every option has its line behind that of the version, in order: its name, an equals sign and its
/// value. A switch is spelled `yes` or `no`, and the version is not repeated.
pub proof fn options_are_rendered_line_by_line(options: Seq<(Seq<char>, OptionText)>, name: Seq<char>, value: OptionText)
    ensures
        name != "VERSION"@ ==> rendered_rest(options.push((name, value))) == rendered_rest(options) + (name + " = "@
            + value.spelled() + "\n"@),
        name == "VERSION"@ ==> rendered_rest(options.push((name, value))) == rendered_rest(options),
        rendered(options) == "VERSION = "@ + value_of(options, "VERSION"@).spelled() + "\n"@ + rendered_rest(options),
        OptionText::Bool(true).spelled() == "yes"@,
        OptionText::Bool(false).spelled() == "no"@,
        value matches OptionText::Str(s) ==> value.spelled() == s,
        value matches OptionText::Int(n) ==> n >= 0 ==> value.spelled() == decimal_of(n as nat),
{
    let more = options.push((name, value));
    assert(more.drop_last() =~= options);
    assert(more.last() == (name, value));
}

/// A native line names its option in front of the first equals sign and gives its value behind it, up to
/// a comment; white space around either is not part of it. Blank lines and comments say nothing, and a
/// later line replaces an earlier one of the same name.
pub proof fn native_lines_set_options(all: Seq<Seq<char>>, key: Seq<char>, rest: Seq<char>)
    requires
        forall|i: int| 0 <= i < key.len() ==> key[i] != '=',
    ensures
        cfg_key(key + seq!['='] + rest) == trimmed(key),
        cfg_value(key + seq!['='] + rest) == trimmed(uncommented(rest, false, false, true)),
        forall|line: Seq<char>|
            trimmed(line).len() == 0 || trimmed(line)[0] == '#' ==> cfg_options(#[trigger] all.push(line)) == cfg_options(
                all,
            ),
        forall|line: Seq<char>|
            trimmed(line).len() > 0 && trimmed(line)[0] != '#' ==> cfg_options(#[trigger] all.push(line)) == inserted(
                cfg_options(all),
                cfg_key(trimmed(line)),
                OptionText::Str(cfg_value(trimmed(line))),
            ),
{
    reveal_strlit("#");
    let line = key + seq!['='] + rest;
    let n = key.len() as int;
    assert(line[n] == '=');
    lemma_index_of_is(line, '=', n);
    assert(line.take(n) =~= key);
    assert(line.skip(n + 1) =~= rest);
    assert forall|line: Seq<char>| trimmed(line).len() == 0 || trimmed(line)[0] == '#' implies cfg_options(
        #[trigger] all.push(line),
    ) == cfg_options(all) by {
        assert(all.push(line).drop_last() =~= all);
        if trimmed(line).len() > 0 {
            assert(trimmed(line).take(1) =~= "#"@);
        }
    }
    assert forall|line: Seq<char>| trimmed(line).len() > 0 && trimmed(line)[0] != '#' implies cfg_options(
        #[trigger] all.push(line),
    ) == inserted(cfg_options(all), cfg_key(trimmed(line)), OptionText::Str(cfg_value(trimmed(line)))) by {
        assert(all.push(line).drop_last() =~= all);
        if begins_with(trimmed(line), "#"@) {
            assert(trimmed(line).take(1)[0] == '#');
        }
    }
}

/// An optionlist is read by its spelling: a document as it is, options that lack their heading behind
/// one, and a native file line by line.
pub proof fn optionlists_are_read_by_their_spelling(source: Seq<char>)
    ensures
        ({
            let s = spelling(lines_of(source));
            let named = exists|i: int| 0 <= i < lines_of(source).len() && trimmed(#[trigger] lines_of(source)[i])
                == "[options]"@;
            &&& s is Err ==> any_optionlist(source) == Err::<OptionlistView, OptionlistFault>(
                OptionlistFault::Sniff(s->Err_0),
            )
            &&& s == Ok::<OptionlistFormat, crate::mdb::sniff::SniffFault>(OptionlistFormat::MdbToml)
                ==> any_optionlist(source) == toml_optionlist(source, source)
            &&& s == Ok::<OptionlistFormat, crate::mdb::sniff::SniffFault>(OptionlistFormat::OptionsToml) && named
                ==> any_optionlist(source) == toml_optionlist(source, source)
            &&& s == Ok::<OptionlistFormat, crate::mdb::sniff::SniffFault>(OptionlistFormat::OptionsToml) && !named
                ==> any_optionlist(source) == toml_optionlist("[options]\n"@ + source, source)
            &&& s == Ok::<OptionlistFormat, crate::mdb::sniff::SniffFault>(OptionlistFormat::Cfg) ==> any_optionlist(
                source,
            ) == cfg_read(source)
        }),
{
}

/// A header whose entries are all of their kind, or missing, is read; the key that is named where one
/// is not is the first that is not, in the order of the header's entries; and an empty header is the
/// plain one.
pub proof fn sound_headers_are_read(
    t: Seq<(Seq<char>, Toml)>,
    queues: Seq<Seq<char>>,
    enabled: Seq<Seq<char>>,
    disabled: Seq<Seq<char>>,
)
    requires
        holds_texts(field(t, "compatible-queues"@), queues),
        holds_texts(field(t, "enabled-thorns"@), enabled),
        holds_texts(field(t, "disabled-thorns"@), disabled),
    ensures
        ({
            let flags = |key: Seq<char>| field(t, key) is Some ==> field(t, key)->0 is Bool;
            let texts = |key: Seq<char>| field(t, key) is Some ==> field(t, key)->0 is Str;
            let r = header_read(t);
            &&& flags("gpu"@) && flags("default"@) && flags("coerce-run-universe"@) && texts("description"@) && texts(
                "universe"@,
            ) ==> r is Ok
            &&& flags("gpu"@) && !flags("default"@) ==> r == Err::<HeaderView, Seq<char>>("default"@)
            &&& flags("gpu"@) && flags("default"@) && !texts("description"@) ==> r == Err::<HeaderView, Seq<char>>(
                "description"@,
            )
            &&& flags("gpu"@) && flags("default"@) && texts("description"@) && !texts("universe"@) ==> r == Err::<
                HeaderView,
                Seq<char>,
            >("universe"@)
        }),
        header_read(Seq::empty()) == Ok::<HeaderView, Seq<char>>(plain_header()),
        !plain_header().gpu && !plain_header().default && plain_header().coerce_run_universe,
        header_table(Seq::empty()) == Ok::<Seq<(Seq<char>, Toml)>, Seq<char>>(Seq::empty()),
        field(t, "cactup"@) is Some && field(t, "cactup"@)->0 is Dict ==> header_table(t) == Ok::<
            Seq<(Seq<char>, Toml)>,
            Seq<char>,
        >(field(t, "cactup"@)->0->Dict_0),
{
    lemma_texts_fit(t, "compatible-queues"@, queues);
    lemma_texts_fit(t, "enabled-thorns"@, enabled);
    lemma_texts_fit(t, "disabled-thorns"@, disabled);
    let none = Seq::<(Seq<char>, Toml)>::empty();
    assert forall|key: Seq<char>| (#[trigger] field(none, key)) is None by {
        lemma_first_from(0, 0, crate::toml_text::under(none, key));
    }
    let h = header_read(none);
    assert(h->Ok_0.compatible_queues =~= Seq::empty());
    assert(h->Ok_0.enabled_thorns =~= Seq::empty());
    assert(h->Ok_0.disabled_thorns =~= Seq::empty());
}

/// A key that holds a list of texts fits.
pub(crate) proof fn lemma_texts_fit(t: Seq<(Seq<char>, Toml)>, key: Seq<char>, texts: Seq<Seq<char>>)
    requires
        holds_texts(field(t, key), texts),
    ensures
        fits(t, key, FieldKind::Texts),
{
    if field(t, key) is Some {
        let items = field(t, key)->0->List_0;
        let p = not_text(items);
        assert forall|i: int| 0 <= i < items.len() implies !(#[trigger] p(i)) by {
            assert(items[i] == Toml::Str(texts[i]));
        }
        lemma_first_from_is(0, items.len() as int, p, items.len() as int);
    }
}

/// An optionlist whose header is sound and which has options is refused for its first option that is
/// neither a text nor a switch nor a whole number, and else only for want of `VERSION`.
pub proof fn options_are_texts_switches_or_numbers(
    t: Seq<(Seq<char>, Toml)>,
    source: Seq<char>,
    options: Seq<(Seq<char>, Toml)>,
    k: int,
)
    requires
        field(t, "options"@) == Some(Toml::Dict(options)),
        header_table(t) is Ok,
        header_read(header_table(t)->Ok_0) is Ok,
    ensures
        ({
            let r = document_read(t, source);
            let good = |v: Toml| v is Str || v is Bool || v is Int;
            &&& (forall|i: int| 0 <= i < options.len() ==> good((#[trigger] options[i]).1)) ==> (r is Ok <==> has_name(
                toml_options(options),
                "VERSION"@,
            )) && (r is Err ==> r->Err_0 is NoVersion)
            &&& 0 <= k < options.len() && !good(options[k].1) && (forall|i: int|
                0 <= i < k ==> good((#[trigger] options[i]).1)) ==> {
                &&& r is Err
                &&& options[k].1 is Float ==> r->Err_0 == OptionlistFault::Float(options[k].0)
                &&& options[k].1 !is Float ==> r->Err_0 == OptionlistFault::Kind(options[k].0, kind_name(options[k].1))
            }
        }),
{
    let n = options.len() as int;
    let p = bad_options(options);
    lemma_first_from(0, n, p);
    let f = first_where(n, p);
    if f < n {
        assert(p(f));
        assert(!(options[f].1 is Str || options[f].1 is Bool || options[f].1 is Int));
    }
    if 0 <= k < n && p(k) && (forall|i: int|
        0 <= i < k ==> (#[trigger] options[i]).1 is Str || options[i].1 is Bool || options[i].1 is Int) {
        assert forall|i: int| 0 <= i < k implies !(#[trigger] p(i)) by {
            assert(options[i].1 is Str || options[i].1 is Bool || options[i].1 is Int);
        }
        lemma_first_from_is(0, n, p, k);
    }
}

} // verus!
