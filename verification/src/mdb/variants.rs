//! Reading the script variants that a machine declares, and the keys that hold one text or several.

use crate::mdb::meta::{opt_view, ScriptVariants, VariantEntry};
use crate::mdb::optionlist::{
    fits, flag_of, holds_texts, lemma_texts, lemma_texts_fit, not_text, read_flag, read_text, read_texts, text_of,
    texts_of, FieldKind,
};
use crate::search::{first_where, lemma_first_from, lemma_first_from_is};
use crate::table::{
    distinct, has_name, inserted, lemma_inserted_lookup, lemma_mapped, mapped, value_of, Table,
};
use crate::text::{cat3, lemma_views_push, same, views};
use crate::toml_text::{dict_of, field, get_field, lemma_toml_of, list_of, toml_of, Toml, TomlValue};
use vstd::prelude::*;

verus! {

/// The key of a table of variants that names no variant.
pub const DEFAULT_UNIVERSE: &'static str = "default-universe";

/// What a script variant holds.
pub struct EntryView {
    pub queues: Seq<Seq<char>>,
    pub universe: Option<Seq<char>>,
    pub build_universes: Option<Seq<Seq<char>>>,
    pub test: bool,
    pub default: bool,
    pub tasks: Option<u32>,
}

impl View for VariantEntry {
    type V = EntryView;

    open spec fn view(&self) -> EntryView {
        EntryView {
            queues: views(self.queues@),
            universe: opt_view(self.universe),
            build_universes: match self.build_universes {
                Some(l) => Some(views(l@)),
                None => None,
            },
            test: self.test,
            default: self.default,
            tasks: self.tasks,
        }
    }
}

/// Whether all items of a list are texts.
pub open spec fn all_texts(items: Seq<Toml>) -> bool {
    first_where(items.len() as int, not_text(items)) == items.len()
}

/// The items of a list, as texts.
pub open spec fn item_texts(items: Seq<Toml>) -> Seq<Seq<char>> {
    Seq::new(items.len(), |i: int| items[i]->Str_0)
}

/// What a value that is one text or a list of them holds.
pub open spec fn texts_in(v: Toml) -> Option<Seq<Seq<char>>> {
    match v {
        Toml::Str(s) => Some(seq![s]),
        Toml::List(items) => if all_texts(items) {
            Some(item_texts(items))
        } else {
            None
        },
        _ => None,
    }
}

/// The texts of a list; none where it holds anything else.
fn list_texts(list: &Vec<TomlValue>) -> (r: Option<Vec<String>>)
    ensures
        r is Some <==> all_texts(list_of(list@)),
        r is Some ==> views(r->0@) == item_texts(list_of(list@)),
{
    let ghost held = list_of(list@);
    let ghost p = not_text(held);
    let ghost texts = item_texts(held);
    let mut out: Vec<String> = Vec::new();
    let mut i: usize = 0;
    assert(views(out@) =~= texts.take(0));
    while i < list.len()
        invariant
            i <= list@.len(),
            held == list_of(list@),
            p == not_text(held),
            texts == item_texts(held),
            forall|j: int| 0 <= j < i ==> !(#[trigger] p(j)),
            views(out@) == texts.take(i as int),
        decreases list@.len() - i,
    {
        assert(held[i as int] == toml_of(list@[i as int]));
        match &list[i] {
            TomlValue::Str(s) => {
                let ghost before = out@;
                let item = s.clone();
                out.push(item);
                proof {
                    assert(!p(i as int));
                    lemma_views_push(before, item);
                    assert(texts.take(i + 1) == texts.take(i as int).push(item@));
                }
                i += 1;
            },
            _ => {
                proof {
                    assert(p(i as int));
                    lemma_first_from_is(0, held.len() as int, p, i as int);
                }
                return None;
            },
        }
    }
    proof {
        lemma_first_from_is(0, held.len() as int, p, held.len() as int);
        assert(texts.take(i as int) == texts);
    }
    Some(out)
}

/// Reads a value that is one text or a list of them.
pub fn string_or_seq(v: &TomlValue) -> (r: Option<Vec<String>>)
    ensures
        match texts_in(toml_of(*v)) {
            Some(t) => r is Some && views(r->0@) == t,
            None => r is None,
        },
{
    proof {
        lemma_toml_of(*v);
    }
    match v {
        TomlValue::Str(s) => {
            let mut out: Vec<String> = Vec::new();
            let one = s.clone();
            out.push(one);
            assert(views(out@) =~= seq![s@]);
            Some(out)
        },
        TomlValue::List(list) => list_texts(list),
        _ => None,
    }
}

/// Whether a variant's `tasks`, where it is there, is a number of tasks.
pub open spec fn tasks_fit(t: Seq<(Seq<char>, Toml)>) -> bool {
    match field(t, "tasks"@) {
        None => true,
        Some(Toml::Int(n)) => 0 <= n <= u32::MAX,
        Some(_) => false,
    }
}

/// A variant as it is written down: a list of its queues, or a table that has one.
pub open spec fn entry_read(v: Toml) -> Option<EntryView> {
    match v {
        Toml::List(items) => if all_texts(items) {
            Some(
                EntryView {
                    queues: item_texts(items),
                    universe: None,
                    build_universes: None,
                    test: false,
                    default: false,
                    tasks: None,
                },
            )
        } else {
            None
        },
        Toml::Dict(t) => if field(t, "queues"@) is Some && fits(t, "queues"@, FieldKind::Texts) && fits(
            t,
            "universe"@,
            FieldKind::Text,
        ) && fits(t, "build-universes"@, FieldKind::Texts) && fits(t, "test"@, FieldKind::Flag) && fits(
            t,
            "default"@,
            FieldKind::Flag,
        ) && tasks_fit(t) {
            Some(
                EntryView {
                    queues: texts_of(t, "queues"@),
                    universe: text_of(t, "universe"@),
                    build_universes: if field(t, "build-universes"@) is Some {
                        Some(texts_of(t, "build-universes"@))
                    } else {
                        None
                    },
                    test: flag_of(t, "test"@, false),
                    default: flag_of(t, "default"@, false),
                    tasks: match field(t, "tasks"@) {
                        Some(Toml::Int(n)) => Some(n as u32),
                        _ => None,
                    },
                },
            )
        } else {
            None
        },
        _ => None,
    }
}

fn read_tasks(items: &Vec<(String, TomlValue)>) -> (r: Result<Option<u32>, ()>)
    ensures
        r is Ok <==> tasks_fit(dict_of(items@)),
        r is Ok ==> r->Ok_0 == (match field(dict_of(items@), "tasks"@) {
            Some(Toml::Int(n)) => Some(n as u32),
            _ => None,
        }),
{
    match get_field(items, "tasks") {
        None => Ok(None),
        Some(v) => match v {
            TomlValue::Int(n) => if 0 <= *n && *n <= 4294967295 {
                Ok(Some(*n as u32))
            } else {
                Err(())
            },
            _ => Err(()),
        },
    }
}

/// Reads a variant as it is written down.
pub fn read_entry(v: &TomlValue) -> (r: Option<VariantEntry>)
    ensures
        match entry_read(toml_of(*v)) {
            Some(e) => r is Some && r->0@ == e,
            None => r is None,
        },
{
    proof {
        lemma_toml_of(*v);
    }
    match v {
        TomlValue::List(list) => match list_texts(list) {
            Some(queues) => Some(
                VariantEntry {
                    queues,
                    universe: None,
                    build_universes: None,
                    test: false,
                    default: false,
                    tasks: None,
                },
            ),
            None => None,
        },
        TomlValue::Dict(items) => {
            if get_field(items, "queues").is_none() {
                return None;
            }
            let limited = get_field(items, "build-universes").is_some();
            match (
                read_texts(items, "queues"),
                read_text(items, "universe"),
                read_texts(items, "build-universes"),
                read_flag(items, "test", false),
                read_flag(items, "default", false),
                read_tasks(items),
            ) {
                (Ok(queues), Ok(universe), Ok(list), Ok(test), Ok(default), Ok(tasks)) => {
                    let build_universes = if limited {
                        Some(list)
                    } else {
                        None
                    };
                    Some(VariantEntry { queues, universe, build_universes, test, default, tasks })
                },
                _ => None,
            }
        },
        _ => None,
    }
}

/// Why a table of variants cannot be read.
pub enum VariantsFault {
    DefaultUniverse,
    Entry(Seq<char>),
}

/// Why a table of variants cannot be read.
#[derive(Debug)]
pub enum VariantsError {
    /// The default universe is not a text.
    DefaultUniverse,
    /// The variant of this name is neither a list of queues nor a table that has one.
    Entry(String),
}

impl View for VariantsError {
    type V = VariantsFault;

    open spec fn view(&self) -> VariantsFault {
        match *self {
            VariantsError::DefaultUniverse => VariantsFault::DefaultUniverse,
            VariantsError::Entry(name) => VariantsFault::Entry(name@),
        }
    }
}

impl VariantsError {
    /// The message for the user, as text.
    pub open spec fn text(self) -> Seq<char> {
        match self {
            VariantsError::DefaultUniverse => "default-universe must be a string"@,
            VariantsError::Entry(name) => "variant \""@ + name@
                + "\" must be a [\"queue\", …] array or a { queues = […], universe = \"…\", build-universes = […], test = …, default = …, tasks = … } table"@,
        }
    }

    /// The message for the user.
    pub fn message(&self) -> (r: String)
        ensures
            r@ == self.text(),
    {
        match self {
            VariantsError::DefaultUniverse => "default-universe must be a string".to_owned(),
            VariantsError::Entry(name) => cat3(
                "variant \"",
                name,
                "\" must be a [\"queue\", …] array or a { queues = […], universe = \"…\", build-universes = […], test = …, default = …, tasks = … } table",
            ),
        }
    }
}

/// The positions of the entries that a table of variants cannot have.
pub open spec fn bad_variants(t: Seq<(Seq<char>, Toml)>) -> spec_fn(int) -> bool {
    |i: int|
        if t[i].0 == DEFAULT_UNIVERSE@ {
            !(t[i].1 is Str)
        } else {
            entry_read(t[i].1) is None
        }
}

/// The variants that a table declares: every key names one, but for the one that names the default
/// universe.
pub open spec fn variants_in(t: Seq<(Seq<char>, Toml)>) -> Seq<(Seq<char>, EntryView)>
    decreases t.len(),
{
    if t.len() == 0 {
        Seq::empty()
    } else if t.last().0 == DEFAULT_UNIVERSE@ {
        variants_in(t.drop_last())
    } else {
        inserted(variants_in(t.drop_last()), t.last().0, entry_read(t.last().1)->0)
    }
}

/// The variants of a table with what they hold.
pub open spec fn variants_of(entries: Seq<(Seq<char>, VariantEntry)>) -> Seq<(Seq<char>, EntryView)> {
    mapped(entries, |e: VariantEntry| e@)
}

impl ScriptVariants {
    /// Reads the variants of one kind, and the universe of those that name none; the error is that
    /// of the first entry that cannot be read.
    pub fn from_toml(items: &Vec<(String, TomlValue)>) -> (r: Result<ScriptVariants, VariantsError>)
        ensures
            ({
                let t = dict_of(items@);
                let bad = first_where(t.len() as int, bad_variants(t));
                if bad < t.len() {
                    r is Err && r->Err_0@ == (if t[bad].0 == DEFAULT_UNIVERSE@ {
                        VariantsFault::DefaultUniverse
                    } else {
                        VariantsFault::Entry(t[bad].0)
                    })
                } else {
                    r is Ok && variants_of(r->Ok_0.variants@) == variants_in(t) && opt_view(r->Ok_0.default_universe)
                        == text_of(t, DEFAULT_UNIVERSE@)
                }
            }),
    {
        let ghost t = dict_of(items@);
        let ghost p = bad_variants(t);
        let mut variants: Table<VariantEntry> = Table::new();
        let mut i: usize = 0;
        proof {
            assert(t.take(0) == Seq::<(Seq<char>, Toml)>::empty());
            assert(variants_of(variants@) =~= Seq::empty());
        }
        while i < items.len()
            invariant
                i <= items@.len(),
                t == dict_of(items@),
                p == bad_variants(t),
                forall|j: int| 0 <= j < i ==> !(#[trigger] p(j)),
                variants_of(variants@) == variants_in(t.take(i as int)),
                crate::table::distinct(variants@),
            decreases items@.len() - i,
        {
            assert(t[i as int] == (items@[i as int].0@, toml_of(items@[i as int].1)));
            proof {
                assert(t.take(i + 1).drop_last() == t.take(i as int));
                assert(t.take(i + 1).last() == t[i as int]);
            }
            if same(&items[i].0, DEFAULT_UNIVERSE) {
                let is_text = match &items[i].1 {
                    TomlValue::Str(_) => true,
                    _ => false,
                };
                if !is_text {
                    proof {
                        assert(p(i as int));
                        lemma_first_from_is(0, t.len() as int, p, i as int);
                    }
                    return Err(VariantsError::DefaultUniverse);
                }
                assert(!p(i as int));
            } else {
                match read_entry(&items[i].1) {
                    None => {
                        proof {
                            assert(p(i as int));
                            lemma_first_from_is(0, t.len() as int, p, i as int);
                        }
                        return Err(VariantsError::Entry(items[i].0.clone()));
                    },
                    Some(entry) => {
                        let name = items[i].0.clone();
                        proof {
                            assert(!p(i as int));
                            lemma_mapped(variants@, |e: VariantEntry| e@, name@, entry);
                            lemma_inserted_lookup(variants@, name@, entry, name@);
                        }
                        variants.insert(name, entry);
                    },
                }
            }
            i += 1;
        }
        proof {
            lemma_first_from_is(0, t.len() as int, p, t.len() as int);
            assert(t.take(i as int) == t);
        }
        let default_universe = match read_text(items, DEFAULT_UNIVERSE) {
            Ok(u) => u,
            Err(_) => {
                proof {
                    let k = first_where(t.len() as int, crate::toml_text::under(t, DEFAULT_UNIVERSE@));
                    crate::search::lemma_first_from(0, t.len() as int, crate::toml_text::under(t, DEFAULT_UNIVERSE@));
                    assert(!p(k));
                }
                None
            },
        };
        Ok(ScriptVariants { variants, default_universe })
    }
}

/// A variant that is a list names its queues and nothing else; one that is a table has each setting
/// under its key, none of them for the others. A variant without queues, or with a number of tasks that
/// is none, is refused.
pub proof fn variants_are_read_by_key(v: Toml)
    ensures
        v matches Toml::List(items) && entry_read(v) is Some ==> {
            let e = entry_read(v)->0;
            &&& holds_texts(Some(v), e.queues)
            &&& e.universe is None && e.build_universes is None && !e.test && !e.default && e.tasks is None
        },
        v matches Toml::Dict(t) ==> {
            let r = entry_read(v);
            &&& field(t, "queues"@) is None ==> r is None
            &&& field(t, "tasks"@) matches Some(Toml::Int(n)) ==> (n < 0 || n > u32::MAX) ==> r is None
            &&& r is Some ==> {
                let e = r->0;
                &&& holds_texts(field(t, "queues"@), e.queues)
                &&& field(t, "universe"@) is None <==> e.universe is None
                &&& e.universe is Some ==> field(t, "universe"@) == Some(Toml::Str(e.universe->0))
                &&& field(t, "build-universes"@) is None <==> e.build_universes is None
                &&& e.build_universes is Some ==> holds_texts(field(t, "build-universes"@), e.build_universes->0)
                &&& field(t, "test"@) is None ==> !e.test
                &&& field(t, "test"@) is Some ==> field(t, "test"@)->0 == Toml::Bool(e.test)
                &&& field(t, "default"@) is None ==> !e.default
                &&& field(t, "default"@) is Some ==> field(t, "default"@)->0 == Toml::Bool(e.default)
                &&& field(t, "tasks"@) is None <==> e.tasks is None
                &&& e.tasks is Some ==> field(t, "tasks"@) == Some(Toml::Int(e.tasks->0 as int))
            }
        },
        v !is List && v !is Dict ==> entry_read(v) is None,
{
    match v {
        Toml::List(items) => {
            let p = not_text(items);
            lemma_first_from(0, items.len() as int, p);
            if all_texts(items) {
                assert forall|i: int| 0 <= i < items.len() implies (#[trigger] items[i]) == Toml::Str(
                    item_texts(items)[i],
                ) by {
                    assert(!p(i));
                }
            }
        },
        Toml::Dict(t) => {
            lemma_texts(t, "queues"@);
            lemma_texts(t, "build-universes"@);
        },
        _ => {},
    }
}

/// Every key of a table of variants names one, but for that of the default universe, which names none;
/// and each has what its own entry says.
pub proof fn keys_name_their_variants(t: Seq<(Seq<char>, Toml)>, i: int)
    requires
        distinct(t),
        0 <= i < t.len(),
    ensures
        distinct(variants_in(t)),
        t[i].0 != "default-universe"@ ==> has_name(variants_in(t), t[i].0) && value_of(variants_in(t), t[i].0)
            == entry_read(t[i].1)->0,
        !has_name(variants_in(t), "default-universe"@),
        forall|name: Seq<char>| #[trigger]
            has_name(variants_in(t), name) ==> exists|k: int| 0 <= k < t.len() && (#[trigger] t[k]).0 == name,
    decreases t.len(),
{
    let rest = t.drop_last();
    let last = t.last();
    assert forall|a: int, b: int| #![trigger rest[a], rest[b]] 0 <= a < b < rest.len() implies rest[a].0
        != rest[b].0 by {
        assert(t[a].0 != t[b].0);
    }
    let before = variants_in(rest);
    if rest.len() > 0 {
        keys_name_their_variants(rest, if i < rest.len() {
            i
        } else {
            0
        });
    }
    assert(t[t.len() - 1] == last);
    if last.0 != DEFAULT_UNIVERSE@ {
        lemma_inserted_lookup(before, last.0, entry_read(last.1)->0, t[i].0);
        lemma_inserted_lookup(before, last.0, entry_read(last.1)->0, "default-universe"@);
    }
    if i < rest.len() {
        assert(rest[i] == t[i]);
        assert(t[i].0 != t[t.len() - 1].0);
    }
    assert forall|name: Seq<char>| #[trigger] has_name(variants_in(t), name) implies exists|k: int|
        0 <= k < t.len() && (#[trigger] t[k]).0 == name by {
        if last.0 != DEFAULT_UNIVERSE@ {
            lemma_inserted_lookup(before, last.0, entry_read(last.1)->0, name);
        }
        if has_name(before, name) {
            assert(rest.len() > 0);
            let k = choose|k: int| 0 <= k < rest.len() && (#[trigger] rest[k]).0 == name;
            assert(t[k].0 == name);
        } else {
            assert(t[t.len() - 1].0 == name);
        }
    }
}

/// A variant whose entries are all of their kind, with a list of queues and all else there or missing,
/// is read, and so is one that is a list of queues alone.
pub proof fn sound_variants_are_read(
    t: Seq<(Seq<char>, Toml)>,
    queues: Seq<Seq<char>>,
    universes: Seq<Seq<char>>,
    items: Seq<Toml>,
)
    requires
        field(t, "queues"@) is Some,
        holds_texts(field(t, "queues"@), queues),
        holds_texts(field(t, "build-universes"@), universes),
        holds_texts(Some(Toml::List(items)), queues),
    ensures
        ({
            let flags = |key: Seq<char>| field(t, key) is Some ==> field(t, key)->0 is Bool;
            &&& flags("test"@) && flags("default"@) && (field(t, "universe"@) is Some ==> field(t, "universe"@)->0 is Str)
                && field(t, "tasks"@) is None ==> entry_read(Toml::Dict(t)) is Some
            &&& flags("test"@) && flags("default"@) && field(t, "universe"@) is None && field(t, "tasks"@) is Some
                && field(t, "tasks"@)->0 is Int && 0 <= field(t, "tasks"@)->0->Int_0 <= u32::MAX ==> entry_read(
                Toml::Dict(t),
            ) is Some
            &&& !flags("test"@) || !flags("default"@) ==> entry_read(Toml::Dict(t)) is None
            &&& field(t, "tasks"@) is Some && field(t, "tasks"@)->0 !is Int ==> entry_read(Toml::Dict(t)) is None
        }),
        entry_read(Toml::List(items)) is Some,
        texts_in(Toml::List(items)) == Some(queues),
        forall|s: Seq<char>| #[trigger] texts_in(Toml::Str(s)) == Some(seq![s]),
        forall|v: Toml| v !is Str && v !is List ==> (#[trigger] texts_in(v)) is None,
{
    lemma_texts_fit(t, "queues"@, queues);
    lemma_texts_fit(t, "build-universes"@, universes);
    let p = not_text(items);
    assert forall|i: int| 0 <= i < items.len() implies !(#[trigger] p(i)) by {
        assert(items[i] == Toml::Str(queues[i]));
    }
    lemma_first_from_is(0, items.len() as int, p, items.len() as int);
    assert(item_texts(items) =~= queues) by {
        assert forall|i: int| 0 <= i < items.len() implies item_texts(items)[i] == queues[i] by {
            assert(items[i] == Toml::Str(queues[i]));
        }
    }
}

/// An entry of a table of variants is at fault where it is no variant, unless it names the default
/// universe, which has to be a text.
pub proof fn entries_are_variants_or_the_default_universe(t: Seq<(Seq<char>, Toml)>, i: int)
    ensures
        t[i].0 == "default-universe"@ ==> bad_variants(t)(i) == (t[i].1 !is Str),
        t[i].0 != "default-universe"@ ==> bad_variants(t)(i) == (entry_read(t[i].1) is None),
{
}

} // verus!
