//! TOML documents as plain values.

use crate::search::{first_where, lemma_first_from, lemma_first_from_is};
use crate::table::distinct;
use crate::template::{block_views, VarText, VarValue};
use crate::text::same;
use vstd::prelude::*;

verus! {

/// A TOML value.
pub enum TomlValue {
    Str(String),
    Int(i64),
    Bool(bool),
    Float,
    Datetime,
    List(Vec<TomlValue>),
    Dict(Vec<(String, TomlValue)>),
}

/// What a TOML value holds.
pub enum Toml {
    Str(Seq<char>),
    Int(int),
    Bool(bool),
    Float,
    Datetime,
    List(Seq<Toml>),
    Dict(Seq<(Seq<char>, Toml)>),
}

/// What a TOML value holds.
pub open spec fn toml_of(v: TomlValue) -> Toml
    decreases v,
{
    match v {
        TomlValue::Str(s) => Toml::Str(s@),
        TomlValue::Int(n) => Toml::Int(n as int),
        TomlValue::Bool(b) => Toml::Bool(b),
        TomlValue::Float => Toml::Float,
        TomlValue::Datetime => Toml::Datetime,
        TomlValue::List(items) => Toml::List(
            Seq::new(
                items@.len(),
                |i: int|
                    if 0 <= i < items@.len() {
                        toml_of(items@[i])
                    } else {
                        Toml::Float
                    },
            ),
        ),
        TomlValue::Dict(items) => Toml::Dict(
            Seq::new(
                items@.len(),
                |i: int|
                    if 0 <= i < items@.len() {
                        (items@[i].0@, toml_of(items@[i].1))
                    } else {
                        (Seq::empty(), Toml::Float)
                    },
            ),
        ),
    }
}

/// `toml::Value`, carried as an opaque value.
#[verifier::external_type_specification]
#[verifier::external_body]
pub struct ExValue(toml::Value);

/// What a `toml::Value` holds.
pub uninterp spec fn content(v: toml::Value) -> Toml;

/// What `toml` makes of a document: its table, or the message of the error.
pub uninterp spec fn toml_read(text: Seq<char>) -> Result<Toml, Seq<char>>;

/// Reads a document with `toml::Table`'s `FromStr`. The result is named; of a document that
/// parses it is a table.
#[verifier::external_body]
fn parse_document(text: &str) -> (r: Result<toml::Value, String>)
    ensures
        match toml_read(text@) {
            Ok(t) => r is Ok && content(r->Ok_0) == t && content(r->Ok_0) is Dict,
            Err(m) => r is Err && r->Err_0@ == m,
        },
{
    match text.parse::<toml::Table>() {
        Ok(table) => Ok(toml::Value::Table(table)),
        Err(e) => Err(e.to_string()),
    }
}

/// Takes a `toml::Value` apart, variant by variant: the plain value holds what it held.
#[verifier::external_body]
fn plain(v: toml::Value) -> (r: TomlValue)
    ensures
        toml_of(r) == content(v),
{
    match v {
        toml::Value::String(s) => TomlValue::Str(s),
        toml::Value::Integer(n) => TomlValue::Int(n),
        toml::Value::Boolean(b) => TomlValue::Bool(b),
        toml::Value::Float(_) => TomlValue::Float,
        toml::Value::Datetime(_) => TomlValue::Datetime,
        toml::Value::Array(items) => TomlValue::List(items.into_iter().map(plain).collect()),
        toml::Value::Table(items) => TomlValue::Dict(items.into_iter().map(|(k, v)| (k, plain(v))).collect()),
    }
}

/// Reads a document as plain values; the error is the reader's own message.
pub fn read_toml(text: &str) -> (r: Result<TomlValue, String>)
    ensures
        match toml_read(text@) {
            Ok(t) => r is Ok && toml_of(r->Ok_0) == t && t is Dict,
            Err(m) => r is Err && r->Err_0@ == m,
        },
{
    match parse_document(text) {
        Ok(v) => Ok(plain(v)),
        Err(e) => Err(e),
    }
}

/// The entries of a table, as what they hold.
pub open spec fn dict_of(items: Seq<(String, TomlValue)>) -> Seq<(Seq<char>, Toml)> {
    Seq::new(items.len(), |i: int| (items[i].0@, toml_of(items[i].1)))
}

/// The items of a list, as what they hold.
pub open spec fn list_of(items: Seq<TomlValue>) -> Seq<Toml> {
    Seq::new(items.len(), |i: int| toml_of(items[i]))
}

/// A table holds its entries, and a list its items.
pub proof fn lemma_toml_of(v: TomlValue)
    ensures
        v matches TomlValue::Dict(items) ==> toml_of(v) == Toml::Dict(dict_of(items@)),
        v matches TomlValue::List(items) ==> toml_of(v) == Toml::List(list_of(items@)),
{
    match v {
        TomlValue::Dict(items) => {
            assert(toml_of(v)->Dict_0 =~= dict_of(items@));
        },
        TomlValue::List(items) => {
            assert(toml_of(v)->List_0 =~= list_of(items@));
        },
        _ => {},
    }
}

/// The positions of the entries under `key`.
pub open spec fn under(entries: Seq<(Seq<char>, Toml)>, key: Seq<char>) -> spec_fn(int) -> bool {
    |i: int| entries[i].0 == key
}

/// What a table holds under `key`.
pub open spec fn field(entries: Seq<(Seq<char>, Toml)>, key: Seq<char>) -> Option<Toml> {
    let k = first_where(entries.len() as int, under(entries, key));
    if k < entries.len() {
        Some(entries[k].1)
    } else {
        None
    }
}

/// The value under `key`.
pub fn get_field<'a>(items: &'a Vec<(String, TomlValue)>, key: &str) -> (r: Option<&'a TomlValue>)
    ensures
        match field(dict_of(items@), key@) {
            Some(t) => r is Some && toml_of(*r->0) == t,
            None => r is None,
        },
{
    let ghost entries = dict_of(items@);
    let ghost p = under(entries, key@);
    let mut i: usize = 0;
    while i < items.len()
        invariant
            i <= items@.len(),
            entries == dict_of(items@),
            p == under(entries, key@),
            forall|j: int| 0 <= j < i ==> !(#[trigger] p(j)),
        decreases items@.len() - i,
    {
        if same(&items[i].0, key) {
            proof {
                assert(p(i as int));
                lemma_first_from_is(0, entries.len() as int, p, i as int);
            }
            return Some(&items[i].1);
        }
        assert(!p(i as int));
        i += 1;
    }
    proof {
        lemma_first_from_is(0, entries.len() as int, p, entries.len() as int);
    }
    None
}

/// A variable's value as a record holds it.
pub open spec fn frozen_value(v: VarText) -> Toml {
    match v {
        VarText::Str(s) => Toml::Str(s),
        VarText::Int(n) => Toml::Int(n),
        VarText::Bool(b) => Toml::Bool(b),
    }
}

/// Variables as a record holds them.
pub open spec fn frozen(vars: Seq<(Seq<char>, VarText)>) -> Seq<(Seq<char>, Toml)> {
    vars.map_values(|e: (Seq<char>, VarText)| (e.0, frozen_value(e.1)))
}

/// What `toml` writes for a table of these entries.
pub uninterp spec fn toml_written(entries: Seq<(Seq<char>, VarText)>) -> Seq<char>;

/// Whether a text can stand between quotes as it is.
pub open spec fn is_plain_text(s: Seq<char>) -> bool {
    forall|i: int| 0 <= i < s.len() ==> ' ' <= #[trigger] s[i] <= '~' && s[i] != '"' && s[i] != '\\'
}

/// Whether the names and texts of a table can all stand between quotes as they are.
pub open spec fn is_plain_table(entries: Seq<(Seq<char>, VarText)>) -> bool {
    forall|i: int| #![trigger entries[i]]
        0 <= i < entries.len() ==> is_plain_text(entries[i].0) && (entries[i].1 matches VarText::Str(s) ==> is_plain_text(s))
}

/// Whether a document holds just these entries, in their order.
pub open spec fn reads_as(text: Seq<char>, entries: Seq<(Seq<char>, VarText)>) -> bool {
    toml_read(text) == Ok::<Toml, Seq<char>>(Toml::Dict(frozen(entries)))
}

/// `Display` of `toml::Table`, which is `toml::to_string`: a document that holds the entries. Its
/// text is named. Where all names and texts can stand between quotes as they are, and no name
/// occurs twice, reading the document gives the entries back, in their order; of other texts that
/// is left unsaid.
#[verifier::external_body]
fn write_table(entries: &Vec<(String, VarValue)>) -> (r: String)
    ensures
        r@ == toml_written(block_views(entries@)),
        distinct(block_views(entries@)) && is_plain_table(block_views(entries@)) ==> reads_as(r@, block_views(entries@)),
{
    let mut table = toml::Table::new();
    for (name, value) in entries {
        let value = match value {
            VarValue::Str(s) => toml::Value::String(s.clone()),
            VarValue::Int(n) => toml::Value::Integer(*n),
            VarValue::Bool(b) => toml::Value::Boolean(*b),
        };
        table.insert(name.clone(), value);
    }
    table.to_string()
}

/// A document that holds the entries.
pub fn write_toml(entries: &Vec<(String, VarValue)>) -> (r: String)
    ensures
        r@ == toml_written(block_views(entries@)),
        distinct(block_views(entries@)) && is_plain_table(block_views(entries@)) ==> reads_as(r@, block_views(entries@)),
{
    write_table(entries)
}

/// What a table holds under a key is the value of the first entry that has it, and nothing where none
/// has.
pub proof fn fields_are_found_by_their_key(entries: Seq<(Seq<char>, Toml)>, key: Seq<char>)
    ensures
        forall|i: int|
            0 <= i < entries.len() && (#[trigger] entries[i]).0 == key && (forall|j: int|
                0 <= j < i ==> (#[trigger] entries[j]).0 != key) ==> field(entries, key) == Some(entries[i].1),
        (forall|i: int| 0 <= i < entries.len() ==> (#[trigger] entries[i]).0 != key) <==> field(entries, key) is None,
{
    let n = entries.len() as int;
    let p = under(entries, key);
    lemma_first_from(0, n, p);
    let k = first_where(n, p);
    assert forall|i: int|
        0 <= i < n && (#[trigger] entries[i]).0 == key && (forall|j: int| 0 <= j < i ==> (#[trigger] entries[j]).0 != key)
            implies field(entries, key) == Some(entries[i].1) by {
        assert(p(i));
        assert forall|j: int| 0 <= j < i implies !(#[trigger] p(j)) by {
            assert(entries[j].0 != key);
        }
        lemma_first_from_is(0, n, p, i);
    }
    if k < n {
        assert(p(k));
        assert(entries[k].0 == key);
    } else {
        assert forall|i: int| 0 <= i < n implies (#[trigger] entries[i]).0 != key by {
            assert(!p(i));
        }
    }
}

/// Variables are recorded one for one, each under its name and as what it is.
pub proof fn variables_are_recorded_as_they_are(vars: Seq<(Seq<char>, VarText)>, i: int)
    requires
        0 <= i < vars.len(),
    ensures
        frozen(vars).len() == vars.len(),
        frozen(vars)[i].0 == vars[i].0,
        vars[i].1 matches VarText::Str(s) ==> frozen(vars)[i].1 == Toml::Str(s),
        vars[i].1 matches VarText::Int(n) ==> frozen(vars)[i].1 == Toml::Int(n),
        vars[i].1 matches VarText::Bool(b) ==> frozen(vars)[i].1 == Toml::Bool(b),
{
}

} // verus!
