//! Validation of a machine's metadata, and what holds of every machine that passes it.

use crate::mdb::meta::{
    admits, candidates, default_candidates, default_place, is_candidate, opt_view, selection, serves, serving,
    Meta, Queue, ScriptKind, ScriptVariants, Selection, VariantEntry, HOST_UNIVERSE,
};
use crate::mdb::universe::{command_token_in_quotes, quoted_token, Quotes, Universe};
use crate::search::{first_where, lemma_first_from, lemma_first_from_is};
use crate::table::{has_name, lemma_names_where_step, names_of, names_where, Table};
use crate::text::{
    cat2, cat3, cat4, cat5, contains, decimal, decimal_of, holds, is_listed, is_repeated, join, joined, lemma_views_push,
    listed, repeats, same, views,
};
use vstd::prelude::*;
use vstd::utf8::encode_utf8;

verus! {

/// What is wrong with a list of build universes.
pub enum GateFault {
    Empty,
    Unknown(Seq<char>),
}

/// What is wrong with the script variants of one kind.
pub enum ScriptFault {
    UnknownQueue(Seq<char>, Seq<char>),
    Gate(Seq<char>, GateFault),
    NoVariants,
    ManyDefaults(bool, Seq<Seq<char>>),
    Ambiguous(Seq<char>, bool, Seq<char>, Seq<Seq<char>>),
    Uncovered(Seq<char>, bool),
}

/// What is wrong with a machine's metadata.
pub enum MetaFault {
    NoQueues,
    ManyDefaultQueues(Seq<Seq<char>>),
    QueueGate(Seq<char>, GateFault),
    NoOptionlists,
    Script(ScriptKind, ScriptFault),
    BothForms(Seq<char>),
    NoCommand(Seq<char>),
    QuotedCommand(Seq<char>, nat),
    ManyCommands(Seq<char>),
    UnknownUniverse(Seq<char>, Seq<char>, Seq<Seq<char>>),
}

/// What is wrong with a list of build universes.
#[derive(Debug)]
pub enum GateError {
    /// The list admits nothing.
    Empty,
    /// The list names a universe that the machine does not have.
    Unknown(String),
}

/// What is wrong with the script variants of one kind.
#[derive(Debug)]
pub enum ScriptError {
    /// A variant maps a queue that the machine does not have.
    UnknownQueue(String, String),
    /// A variant's list of build universes is at fault.
    Gate(String, GateError),
    /// There are no variants for normal runs.
    NoVariants,
    /// More than one variant of a partition is marked default.
    ManyDefaults(bool, Vec<String>),
    /// In one universe, more than one variant of a partition maps the same queue.
    Ambiguous(String, bool, String, Vec<String>),
    /// On the host, no variant of a partition serves the queue.
    Uncovered(String, bool),
}

/// What is wrong with a machine's metadata.
#[derive(Debug)]
pub enum MetaError {
    NoQueues,
    ManyDefaultQueues(Vec<String>),
    /// A queue's list of build universes is at fault.
    QueueGate(String, GateError),
    NoOptionlists,
    /// The script variants of a kind are at fault.
    Script(ScriptKind, ScriptError),
    /// A universe defines both wrapper forms.
    BothForms(String),
    /// A universe's template holds no `@COMMAND@`.
    NoCommand(String),
    /// A universe's template holds `@COMMAND@` inside quotes, at this byte.
    QuotedCommand(String, u64),
    /// A universe's template holds more than one `@COMMAND@`.
    ManyCommands(String),
    /// Something names a universe that the machine does not have.
    UnknownUniverse(String, String, Vec<String>),
}

impl View for GateError {
    type V = GateFault;

    open spec fn view(&self) -> GateFault {
        match *self {
            GateError::Empty => GateFault::Empty,
            GateError::Unknown(u) => GateFault::Unknown(u@),
        }
    }
}

impl View for ScriptError {
    type V = ScriptFault;

    open spec fn view(&self) -> ScriptFault {
        match *self {
            ScriptError::UnknownQueue(variant, queue) => ScriptFault::UnknownQueue(variant@, queue@),
            ScriptError::Gate(variant, e) => ScriptFault::Gate(variant@, e@),
            ScriptError::NoVariants => ScriptFault::NoVariants,
            ScriptError::ManyDefaults(test, names) => ScriptFault::ManyDefaults(test, views(names@)),
            ScriptError::Ambiguous(queue, test, universe, names) => ScriptFault::Ambiguous(
                queue@,
                test,
                universe@,
                views(names@),
            ),
            ScriptError::Uncovered(queue, test) => ScriptFault::Uncovered(queue@, test),
        }
    }
}

impl View for MetaError {
    type V = MetaFault;

    open spec fn view(&self) -> MetaFault {
        match *self {
            MetaError::NoQueues => MetaFault::NoQueues,
            MetaError::ManyDefaultQueues(names) => MetaFault::ManyDefaultQueues(views(names@)),
            MetaError::QueueGate(queue, e) => MetaFault::QueueGate(queue@, e@),
            MetaError::NoOptionlists => MetaFault::NoOptionlists,
            MetaError::Script(kind, e) => MetaFault::Script(kind, e@),
            MetaError::BothForms(u) => MetaFault::BothForms(u@),
            MetaError::NoCommand(u) => MetaFault::NoCommand(u@),
            MetaError::QuotedCommand(u, at) => MetaFault::QuotedCommand(u@, at as nat),
            MetaError::ManyCommands(u) => MetaFault::ManyCommands(u@),
            MetaError::UnknownUniverse(what, name, known) => MetaFault::UnknownUniverse(what@, name@, views(known@)),
        }
    }
}

/// How the test partition is called in a message.
pub open spec fn partition_label(test: bool) -> Seq<char> {
    if test {
        "test-partition "@
    } else {
        ""@
    }
}

fn label(test: bool) -> (r: &'static str)
    ensures
        r@ == partition_label(test),
{
    if test {
        "test-partition "
    } else {
        ""
    }
}

impl GateError {
    /// The message for the user, given the subject of the sentence, as text.
    pub open spec fn text(self, subject: Seq<char>) -> Seq<char> {
        match self {
            GateError::Empty => subject
                + " declares an empty build-universes list; omit the key to be compatible with all universes (§4.4)"@,
            GateError::Unknown(u) => subject + " lists unknown build universe \""@ + u@ + "\""@,
        }
    }

    fn message(&self, subject: &str) -> (r: String)
        ensures
            r@ == self.text(subject@),
    {
        match self {
            GateError::Empty => cat2(
                subject,
                " declares an empty build-universes list; omit the key to be compatible with all universes (§4.4)",
            ),
            GateError::Unknown(u) => cat4(subject, " lists unknown build universe \"", u, "\""),
        }
    }
}

impl ScriptError {
    /// The message for the user, as text.
    pub open spec fn text(self) -> Seq<char> {
        match self {
            ScriptError::UnknownQueue(variant, queue) => "variant \""@ + variant@ + "\" maps unknown queue \""@
                + queue@ + "\""@,
            ScriptError::Gate(variant, e) => e.text("variant \""@ + variant@ + "\""@),
            ScriptError::NoVariants => "no normal variants declared"@,
            ScriptError::ManyDefaults(test, names) => "more than one "@ + partition_label(test)
                + "variant is marked default = true: "@ + joined(views(names@), ", "@),
            ScriptError::Ambiguous(queue, test, universe, names) => ("queue \""@ + queue@
                + "\" is mapped by more than one "@ + partition_label(test)
                + "variant compatible with universe \""@) + universe@ + "\": "@ + joined(views(names@), ", "@),
            ScriptError::Uncovered(queue, test) => "queue \""@ + queue@ + "\" is served by no "@ + partition_label(
                test,
            ) + "variant and none is marked default = true (§4.2)"@,
        }
    }

    /// The message for the user.
    pub fn message(&self) -> (r: String)
        ensures
            r@ == self.text(),
    {
        match self {
            ScriptError::UnknownQueue(variant, queue) => cat5(
                "variant \"",
                variant,
                "\" maps unknown queue \"",
                queue,
                "\"",
            ),
            ScriptError::Gate(variant, e) => e.message(&cat3("variant \"", variant, "\"")),
            ScriptError::NoVariants => "no normal variants declared".to_owned(),
            ScriptError::ManyDefaults(test, names) => cat4(
                "more than one ",
                label(*test),
                "variant is marked default = true: ",
                &join(names, ", "),
            ),
            ScriptError::Ambiguous(queue, test, universe, names) => cat4(
                &cat5(
                    "queue \"",
                    queue,
                    "\" is mapped by more than one ",
                    label(*test),
                    "variant compatible with universe \"",
                ),
                universe,
                "\": ",
                &join(names, ", "),
            ),
            ScriptError::Uncovered(queue, test) => cat5(
                "queue \"",
                queue,
                "\" is served by no ",
                label(*test),
                "variant and none is marked default = true (§4.2)",
            ),
        }
    }
}

impl MetaError {
    /// The message for the user, as text.
    pub open spec fn text(self) -> Seq<char> {
        match self {
            MetaError::NoQueues => "no [queues.*] declared; every machine needs at least one queue"@,
            MetaError::ManyDefaultQueues(names) => "more than one queue is marked default = true: "@ + joined(
                views(names@),
                ", "@,
            ),
            MetaError::QueueGate(queue, e) => e.text("queue \""@ + queue@ + "\""@),
            MetaError::NoOptionlists =>
                "[variants.optionlist] lists no variants; at least one optionlist is required"@,
            MetaError::Script(kind, e) => "in ["@ + kind.table_text() + "]: "@ + e.text(),
            MetaError::BothForms(u) => "universe \""@ + u@ + "\" defines both wrapper-argv and wrapper; pick one (§4.8)"@,
            MetaError::NoCommand(u) => "universe \""@ + u@
                + "\"'s wrapper template does not contain @COMMAND@ (§4.8)"@,
            MetaError::QuotedCommand(u, at) => "universe \""@ + u@
                + "\"'s wrapper template puts @COMMAND@ inside a quoted string (byte "@ + decimal_of(at as nat)
                + "); wrap() supplies @COMMAND@ already shell-quoted, so it must sit OUTSIDE the template's own quotes — e.g. `bash -lc '… && '@COMMAND@` (§4.8)"@,
            MetaError::ManyCommands(u) => "universe \""@ + u@
                + "\"'s wrapper template contains more than one @COMMAND@"@,
            MetaError::UnknownUniverse(what, name, known) => what@ + " names unknown universe \""@ + name@
                + "\" (known: "@ + joined(views(known@), ", "@) + ")"@,
        }
    }

    /// The message for the user.
    pub fn message(&self) -> (r: String)
        ensures
            r@ == self.text(),
    {
        match self {
            MetaError::NoQueues => "no [queues.*] declared; every machine needs at least one queue".to_owned(),
            MetaError::ManyDefaultQueues(names) => cat2(
                "more than one queue is marked default = true: ",
                &join(names, ", "),
            ),
            MetaError::QueueGate(queue, e) => e.message(&cat3("queue \"", queue, "\"")),
            MetaError::NoOptionlists =>
                "[variants.optionlist] lists no variants; at least one optionlist is required".to_owned(),
            MetaError::Script(kind, e) => cat4("in [", kind.table_name(), "]: ", &e.message()),
            MetaError::BothForms(u) => cat3(
                "universe \"",
                u,
                "\" defines both wrapper-argv and wrapper; pick one (§4.8)",
            ),
            MetaError::NoCommand(u) => cat3(
                "universe \"",
                u,
                "\"'s wrapper template does not contain @COMMAND@ (§4.8)",
            ),
            MetaError::QuotedCommand(u, at) => cat5(
                "universe \"",
                u,
                "\"'s wrapper template puts @COMMAND@ inside a quoted string (byte ",
                &decimal(*at),
                "); wrap() supplies @COMMAND@ already shell-quoted, so it must sit OUTSIDE the template's own quotes — e.g. `bash -lc '… && '@COMMAND@` (§4.8)",
            ),
            MetaError::ManyCommands(u) => cat3(
                "universe \"",
                u,
                "\"'s wrapper template contains more than one @COMMAND@",
            ),
            MetaError::UnknownUniverse(what, name, known) => cat2(
                &cat5(what, " names unknown universe \"", name, "\" (known: ", &join(known, ", ")),
                ")",
            ),
        }
    }
}

/// Whether a name can be referred to as a universe: declared, or `host`.
pub open spec fn is_known(universes: Seq<(Seq<char>, Universe)>, name: Seq<char>) -> bool {
    name == HOST_UNIVERSE@ || has_name(universes, name)
}

/// The positions of the names that cannot be referred to as universes.
pub open spec fn unknown_names(universes: Seq<(Seq<char>, Universe)>, list: Seq<String>) -> spec_fn(int) -> bool {
    |i: int| !is_known(universes, list[i]@)
}

/// What is wrong with a list of build universes: that it is empty, or else its first unknown
/// name.
pub open spec fn gate_fault(universes: Seq<(Seq<char>, Universe)>, list: Option<Vec<String>>) -> Option<GateFault> {
    match list {
        None => None,
        Some(l) => {
            let k = first_where(l@.len() as int, unknown_names(universes, l@));
            if l@.len() == 0 {
                Some(GateFault::Empty)
            } else if k < l@.len() {
                Some(GateFault::Unknown(l@[k]@))
            } else {
                None
            }
        },
    }
}

/// The positions of the queues whose list of build universes is at fault.
pub open spec fn bad_gates(
    universes: Seq<(Seq<char>, Universe)>,
    queues: Seq<(Seq<char>, Queue)>,
) -> spec_fn(int) -> bool {
    |i: int| gate_fault(universes, queues[i].1.build_universes) is Some
}

/// The positions of the queues that a variant maps and the machine does not have.
pub open spec fn unknown_queues(queues: Seq<(Seq<char>, Queue)>, list: Seq<String>) -> spec_fn(int) -> bool {
    |i: int| !has_name(queues, list[i]@)
}

/// What is wrong with one variant on its own: its first unknown queue, or else its list of build
/// universes.
pub open spec fn variant_fault(
    queues: Seq<(Seq<char>, Queue)>,
    universes: Seq<(Seq<char>, Universe)>,
    name: Seq<char>,
    e: VariantEntry,
) -> Option<ScriptFault> {
    let k = first_where(e.queues@.len() as int, unknown_queues(queues, e.queues@));
    if k < e.queues@.len() {
        Some(ScriptFault::UnknownQueue(name, e.queues@[k]@))
    } else {
        match gate_fault(universes, e.build_universes) {
            Some(g) => Some(ScriptFault::Gate(name, g)),
            None => None,
        }
    }
}

/// The positions of the variants that are wrong on their own.
pub open spec fn bad_variants(
    queues: Seq<(Seq<char>, Queue)>,
    universes: Seq<(Seq<char>, Universe)>,
    entries: Seq<(Seq<char>, VariantEntry)>,
) -> spec_fn(int) -> bool {
    |i: int| variant_fault(queues, universes, entries[i].0, entries[i].1) is Some
}

/// The universes that a selection can run under: `host` first, then the declared ones.
pub open spec fn contexts_of(universes: Seq<(Seq<char>, Universe)>) -> Seq<Seq<char>> {
    seq![HOST_UNIVERSE@] + names_of(universes).filter(|name: Seq<char>| name != HOST_UNIVERSE@)
}

/// A variant of a partition.
pub open spec fn in_partition(test: bool) -> spec_fn(VariantEntry) -> bool {
    |e: VariantEntry| e.test == test
}

/// A variant of a partition that is marked default.
pub open spec fn marked_default(test: bool) -> spec_fn(VariantEntry) -> bool {
    |e: VariantEntry| e.test == test && e.default
}

/// A candidate that maps a queue.
pub open spec fn server(test: bool, universe: Seq<char>, queue: Seq<char>) -> spec_fn(VariantEntry) -> bool {
    |e: VariantEntry| serves(e, test, universe, queue)
}

/// A queue that is marked default.
pub open spec fn default_queue_mark() -> spec_fn(Queue) -> bool {
    |q: Queue| q.default
}

/// What is wrong with how a partition serves one queue in one universe: more than one variant
/// does, or, on the host, none does and there is no default. A queue that does not serve the
/// universe is owed nothing.
pub open spec fn pair_fault(
    entries: Seq<(Seq<char>, VariantEntry)>,
    test: bool,
    universe: Seq<char>,
    name: Seq<char>,
    q: Queue,
) -> Option<ScriptFault> {
    let servers = names_where(entries, server(test, universe, name));
    if !admits(q.build_universes, universe) {
        None
    } else if servers.len() > 1 {
        Some(ScriptFault::Ambiguous(name, test, universe, servers))
    } else if universe == HOST_UNIVERSE@ && servers.len() == 0 && default_place(entries, test, universe)
        == entries.len() {
        Some(ScriptFault::Uncovered(name, test))
    } else {
        None
    }
}

/// The positions of the queues that a partition serves wrongly in one universe.
pub open spec fn bad_pairs(
    queues: Seq<(Seq<char>, Queue)>,
    entries: Seq<(Seq<char>, VariantEntry)>,
    test: bool,
    universe: Seq<char>,
) -> spec_fn(int) -> bool {
    |i: int| pair_fault(entries, test, universe, queues[i].0, queues[i].1) is Some
}

/// The positions of the universes in which a partition serves some queue wrongly.
pub open spec fn bad_contexts(
    queues: Seq<(Seq<char>, Queue)>,
    contexts: Seq<Seq<char>>,
    entries: Seq<(Seq<char>, VariantEntry)>,
    test: bool,
) -> spec_fn(int) -> bool {
    |i: int| first_where(queues.len() as int, bad_pairs(queues, entries, test, contexts[i])) < queues.len()
}

/// What is wrong with a partition: that it is empty, though the normal one must not be; that
/// more than one variant is its default; or else the first universe, and the first queue in it,
/// that it serves wrongly.
pub open spec fn partition_fault(
    queues: Seq<(Seq<char>, Queue)>,
    universes: Seq<(Seq<char>, Universe)>,
    entries: Seq<(Seq<char>, VariantEntry)>,
    test: bool,
) -> Option<ScriptFault> {
    let contexts = contexts_of(universes);
    let defaults = names_where(entries, marked_default(test));
    let c = first_where(contexts.len() as int, bad_contexts(queues, contexts, entries, test));
    if names_where(entries, in_partition(test)).len() == 0 {
        if test || queues.len() == 0 {
            None
        } else {
            Some(ScriptFault::NoVariants)
        }
    } else if defaults.len() > 1 {
        Some(ScriptFault::ManyDefaults(test, defaults))
    } else if c < contexts.len() {
        let q = first_where(queues.len() as int, bad_pairs(queues, entries, test, contexts[c]));
        pair_fault(entries, test, contexts[c], queues[q].0, queues[q].1)
    } else {
        None
    }
}

/// What is wrong with the script variants of one kind: the first variant that is wrong on its
/// own, or else the normal partition, or else the test partition.
pub open spec fn script_fault(
    queues: Seq<(Seq<char>, Queue)>,
    universes: Seq<(Seq<char>, Universe)>,
    entries: Seq<(Seq<char>, VariantEntry)>,
) -> Option<ScriptFault> {
    let k = first_where(entries.len() as int, bad_variants(queues, universes, entries));
    if k < entries.len() {
        variant_fault(queues, universes, entries[k].0, entries[k].1)
    } else {
        match partition_fault(queues, universes, entries, false) {
            Some(f) => Some(f),
            None => partition_fault(queues, universes, entries, true),
        }
    }
}

/// What is wrong with a universe's wrapper.
pub open spec fn wrapper_fault(name: Seq<char>, u: Universe) -> Option<MetaFault> {
    match (u.wrapper_argv, u.wrapper) {
        (Some(_), Some(_)) => Some(MetaFault::BothForms(name)),
        (None, Some(t)) => if !holds(t@, "@COMMAND@"@) {
            Some(MetaFault::NoCommand(name))
        } else {
            match quoted_token(t@, Quotes::Outside) {
                Some(at) => Some(
                    MetaFault::QuotedCommand(name, (encode_utf8(t@.take(at)).len() as usize) as nat),
                ),
                None => if repeats(t@, "@COMMAND@"@) {
                    Some(MetaFault::ManyCommands(name))
                } else {
                    None
                },
            }
        },
        _ => None,
    }
}

/// The positions of the universes whose wrapper is at fault.
pub open spec fn bad_wrappers(universes: Seq<(Seq<char>, Universe)>) -> spec_fn(int) -> bool {
    |i: int| wrapper_fault(universes[i].0, universes[i].1) is Some
}

/// The universes that a table of script variants refers to, each with where it does so: the
/// default universe first, then variant by variant.
pub open spec fn script_refs(kind: ScriptKind, sv: ScriptVariants) -> Seq<(Seq<char>, Option<Seq<char>>)> {
    seq![("["@ + kind.table_text() + "].default-universe"@, opt_view(sv.default_universe))] + Seq::new(
        sv.variants@.len(),
        |i: int|
            (
                "["@ + kind.table_text() + "] variant \""@ + sv.variants@[i].0 + "\""@,
                opt_view(sv.variants@[i].1.universe),
            ),
    )
}

/// The universes that a machine refers to, each with where it does so.
pub open spec fn refs_of(m: Meta) -> Seq<(Seq<char>, Option<Seq<char>>)> {
    seq![("[build].universe"@, opt_view(m.build.universe))] + script_refs(
        ScriptKind::Submit,
        m.variants.submitscript,
    ) + script_refs(ScriptKind::Run, m.variants.runscript)
}

/// The positions of the references to universes that the machine does not have.
pub open spec fn bad_refs(
    universes: Seq<(Seq<char>, Universe)>,
    refs: Seq<(Seq<char>, Option<Seq<char>>)>,
) -> spec_fn(int) -> bool {
    |i: int| refs[i].1 is Some && !is_known(universes, refs[i].1->0)
}

/// The universes that a message lists as known.
pub open spec fn listed_universes(universes: Seq<(Seq<char>, Universe)>) -> Seq<Seq<char>> {
    if universes.len() == 0 {
        seq![HOST_UNIVERSE@]
    } else {
        names_of(universes)
    }
}

/// What is wrong with a machine's metadata; the first fault in the order in which the parts are
/// looked at. Nothing where the metadata is valid.
pub open spec fn meta_fault(m: Meta) -> Option<MetaFault> {
    let queues = m.queues@;
    let universes = m.universes@;
    let defaults = names_where(queues, default_queue_mark());
    let g = first_where(queues.len() as int, bad_gates(universes, queues));
    let submit = script_fault(queues, universes, m.variants.submitscript.variants@);
    let run = script_fault(queues, universes, m.variants.runscript.variants@);
    let w = first_where(universes.len() as int, bad_wrappers(universes));
    let refs = refs_of(m);
    let r = first_where(refs.len() as int, bad_refs(universes, refs));
    if queues.len() == 0 {
        Some(MetaFault::NoQueues)
    } else if defaults.len() > 1 {
        Some(MetaFault::ManyDefaultQueues(defaults))
    } else if g < queues.len() {
        Some(MetaFault::QueueGate(queues[g].0, gate_fault(universes, queues[g].1.build_universes)->0))
    } else if m.variants.optionlist.variants@.len() == 0 {
        Some(MetaFault::NoOptionlists)
    } else if submit is Some {
        Some(MetaFault::Script(ScriptKind::Submit, submit->0))
    } else if run is Some {
        Some(MetaFault::Script(ScriptKind::Run, run->0))
    } else if w < universes.len() {
        wrapper_fault(universes[w].0, universes[w].1)
    } else if r < refs.len() {
        Some(MetaFault::UnknownUniverse(refs[r].0, refs[r].1->0, listed_universes(universes)))
    } else {
        None
    }
}

impl Meta {
    /// Whether a name can be referred to as a universe.
    pub fn is_known_universe(&self, name: &str) -> (r: bool)
        ensures
            r == is_known(self.universes@, name@),
    {
        same(name, HOST_UNIVERSE) || self.universes.contains(name)
    }

    fn gate_error(&self, list: &Option<Vec<String>>) -> (r: Option<GateError>)
        ensures
            match gate_fault(self.universes@, *list) {
                Some(f) => r is Some && r->0@ == f,
                None => r is None,
            },
    {
        match list {
            None => None,
            Some(l) => {
                let ghost p = unknown_names(self.universes@, l@);
                if l.len() == 0 {
                    return Some(GateError::Empty);
                }
                let mut i: usize = 0;
                while i < l.len()
                    invariant
                        i <= l@.len(),
                        l@.len() > 0,
                        *list == Some(*l),
                        p == unknown_names(self.universes@, l@),
                        forall|j: int| 0 <= j < i ==> !(#[trigger] p(j)),
                    decreases l@.len() - i,
                {
                    if !self.is_known_universe(&l[i]) {
                        proof {
                            assert(p(i as int));
                            lemma_first_from_is(0, l@.len() as int, p, i as int);
                        }
                        return Some(GateError::Unknown(l[i].clone()));
                    }
                    assert(!p(i as int));
                    i += 1;
                }
                proof {
                    lemma_first_from_is(0, l@.len() as int, p, l@.len() as int);
                }
                None
            },
        }
    }

    fn variant_error(&self, name: &str, e: &VariantEntry) -> (r: Option<ScriptError>)
        ensures
            match variant_fault(self.queues@, self.universes@, name@, *e) {
                Some(f) => r is Some && r->0@ == f,
                None => r is None,
            },
    {
        let ghost p = unknown_queues(self.queues@, e.queues@);
        let mut i: usize = 0;
        while i < e.queues.len()
            invariant
                i <= e.queues@.len(),
                p == unknown_queues(self.queues@, e.queues@),
                forall|j: int| 0 <= j < i ==> !(#[trigger] p(j)),
            decreases e.queues@.len() - i,
        {
            if !self.queues.contains(&e.queues[i]) {
                proof {
                    assert(p(i as int));
                    lemma_first_from_is(0, e.queues@.len() as int, p, i as int);
                }
                return Some(ScriptError::UnknownQueue(name.to_owned(), e.queues[i].clone()));
            }
            assert(!p(i as int));
            i += 1;
        }
        proof {
            lemma_first_from_is(0, e.queues@.len() as int, p, e.queues@.len() as int);
        }
        match self.gate_error(&e.build_universes) {
            Some(g) => Some(ScriptError::Gate(name.to_owned(), g)),
            None => None,
        }
    }

    fn contexts(&self) -> (r: Vec<String>)
        ensures
            views(r@) == contexts_of(self.universes@),
    {
        let ghost p = |name: Seq<char>| name != HOST_UNIVERSE@;
        let ghost names = names_of(self.universes@);
        let mut out: Vec<String> = Vec::new();
        let host = HOST_UNIVERSE.to_owned();
        out.push(host);
        let mut i: usize = 0;
        proof {
            reveal(Seq::filter);
            assert(names.take(0) == Seq::<Seq<char>>::empty());
            assert(views(out@) =~= seq![HOST_UNIVERSE@] + names.take(0).filter(p));
        }
        while i < self.universes.len()
            invariant
                i <= self.universes@.len(),
                names == names_of(self.universes@),
                p == (|name: Seq<char>| name != HOST_UNIVERSE@),
                views(out@) == seq![HOST_UNIVERSE@] + names.take(i as int).filter(p),
            decreases self.universes@.len() - i,
        {
            let name = self.universes.name_at(i);
            let ghost before = out@;
            proof {
                reveal(Seq::filter);
                assert(names.take(i + 1).drop_last() == names.take(i as int));
                assert(names.take(i + 1).last() == name@);
            }
            if !same(name, HOST_UNIVERSE) {
                let item = name.to_owned();
                out.push(item);
                proof {
                    lemma_views_push(before, item);
                    assert(views(out@) =~= seq![HOST_UNIVERSE@] + names.take(i + 1).filter(p));
                }
            }
            i += 1;
        }
        assert(names.take(i as int) == names);
        out
    }

    /// The first thing that is wrong with the metadata, if anything is.
    fn validate_inner(&self) -> (r: Result<(), MetaError>)
        ensures
            match meta_fault(*self) {
                Some(f) => r is Err && r->Err_0@ == f,
                None => r is Ok,
            },
    {
        if self.queues.len() == 0 {
            return Err(MetaError::NoQueues);
        }
        let defaults = default_queues(&self.queues);
        assert(defaults@.len() == views(defaults@).len());
        if defaults.len() > 1 {
            return Err(MetaError::ManyDefaultQueues(defaults));
        }
        if let Some((queue, e)) = self.queue_gate_error() {
            return Err(MetaError::QueueGate(queue, e));
        }
        if self.variants.optionlist.variants.len() == 0 {
            return Err(MetaError::NoOptionlists);
        }
        if let Err(e) = self.validate_script_kind(ScriptKind::Submit) {
            return Err(MetaError::Script(ScriptKind::Submit, e));
        }
        if let Err(e) = self.validate_script_kind(ScriptKind::Run) {
            return Err(MetaError::Script(ScriptKind::Run, e));
        }
        if let Some(e) = wrapper_error(&self.universes) {
            return Err(e);
        }
        self.validate_refs()
    }

    fn queue_gate_error(&self) -> (r: Option<(String, GateError)>)
        ensures
            ({
                let g = first_where(self.queues@.len() as int, bad_gates(self.universes@, self.queues@));
                if g < self.queues@.len() {
                    r is Some && (r->0).0@ == self.queues@[g].0 && (r->0).1@ == gate_fault(
                        self.universes@,
                        self.queues@[g].1.build_universes,
                    )->0
                } else {
                    r is None
                }
            }),
    {
        let ghost p = bad_gates(self.universes@, self.queues@);
        let ghost n = self.queues@.len() as int;
        let mut i: usize = 0;
        while i < self.queues.len()
            invariant
                i <= self.queues@.len(),
                n == self.queues@.len(),
                p == bad_gates(self.universes@, self.queues@),
                forall|j: int| 0 <= j < i ==> !(#[trigger] p(j)),
            decreases self.queues@.len() - i,
        {
            if let Some(e) = self.gate_error(&self.queues.at(i).build_universes) {
                proof {
                    assert(p(i as int));
                    lemma_first_from_is(0, n, p, i as int);
                }
                return Some((self.queues.name_at(i).to_owned(), e));
            }
            assert(!p(i as int));
            i += 1;
        }
        proof {
            lemma_first_from_is(0, n, p, n);
        }
        None
    }

    fn validate_refs(&self) -> (r: Result<(), MetaError>)
        ensures
            ({
                let refs = refs_of(*self);
                let k = first_where(refs.len() as int, bad_refs(self.universes@, refs));
                if k < refs.len() {
                    r is Err && r->Err_0@ == MetaFault::UnknownUniverse(
                        refs[k].0,
                        refs[k].1->0,
                        listed_universes(self.universes@),
                    )
                } else {
                    r is Ok
                }
            }),
    {
        let ghost refs = refs_of(*self);
        let ghost p = bad_refs(self.universes@, refs);
        let ghost n = refs.len() as int;
        let ghost submit = script_refs(ScriptKind::Submit, self.variants.submitscript);
        let ghost run = script_refs(ScriptKind::Run, self.variants.runscript);
        assert(refs[0] == ("[build].universe"@, opt_view(self.build.universe)));
        if let Some(name) = &self.build.universe {
            if !self.is_known_universe(name) {
                proof {
                    assert(p(0));
                    lemma_first_from_is(0, n, p, 0);
                }
                return Err(self.unknown_universe("[build].universe".to_owned(), name));
            }
        }
        assert(!p(0));
        match self.script_ref_error(ScriptKind::Submit) {
            Some((at, e)) => {
                proof {
                    let k = at@;
                    assert(refs[1 + k] == submit[k]);
                    assert forall|j: int| 0 <= j < 1 + k implies !(#[trigger] p(j)) by {
                        if j > 0 {
                            assert(refs[j] == submit[j - 1]);
                            assert(!bad_refs(self.universes@, submit)(j - 1));
                        }
                    }
                    assert(bad_refs(self.universes@, submit)(k));
                    assert(p(1 + k));
                    lemma_first_from_is(0, n, p, 1 + k);
                }
                return Err(e);
            },
            None => {},
        }
        match self.script_ref_error(ScriptKind::Run) {
            Some((at, e)) => {
                proof {
                    let k = at@;
                    let before = 1 + submit.len() as int;
                    assert(refs[before + k] == run[k]);
                    assert forall|j: int| 0 <= j < before + k implies !(#[trigger] p(j)) by {
                        if 0 < j < before {
                            assert(refs[j] == submit[j - 1]);
                            assert(!bad_refs(self.universes@, submit)(j - 1));
                        } else if j >= before {
                            assert(refs[j] == run[j - before]);
                            assert(!bad_refs(self.universes@, run)(j - before));
                        }
                    }
                    assert(bad_refs(self.universes@, run)(k));
                    assert(p(before + k));
                    lemma_first_from_is(0, n, p, before + k);
                }
                return Err(e);
            },
            None => {},
        }
        proof {
            let before = 1 + submit.len() as int;
            assert forall|j: int| 0 <= j < n implies !(#[trigger] p(j)) by {
                if 0 < j < before {
                    assert(refs[j] == submit[j - 1]);
                    assert(!bad_refs(self.universes@, submit)(j - 1));
                } else if j >= before {
                    assert(refs[j] == run[j - before]);
                    assert(!bad_refs(self.universes@, run)(j - before));
                }
            }
            lemma_first_from_is(0, n, p, n);
        }
        Ok(())
    }

    fn unknown_universe(&self, what: String, name: &str) -> (e: MetaError)
        ensures
            e@ == MetaFault::UnknownUniverse(what@, name@, listed_universes(self.universes@)),
    {
        let known = if self.universes.len() == 0 {
            let mut v: Vec<String> = Vec::new();
            v.push(HOST_UNIVERSE.to_owned());
            assert(views(v@) =~= seq![HOST_UNIVERSE@]);
            v
        } else {
            self.universes.names()
        };
        MetaError::UnknownUniverse(what, name.to_owned(), known)
    }

    /// The first bad reference of a table of script variants, with its position.
    fn script_ref_error(&self, kind: ScriptKind) -> (r: Option<(Ghost<int>, MetaError)>)
        ensures
            ({
                let refs = script_refs(kind, self.scripts(kind));
                let p = bad_refs(self.universes@, refs);
                match r {
                    Some((at, e)) => {
                        &&& 0 <= at@ < refs.len()
                        &&& p(at@)
                        &&& forall|j: int| 0 <= j < at@ ==> !(#[trigger] p(j))
                        &&& e@ == MetaFault::UnknownUniverse(
                            refs[at@].0,
                            refs[at@].1->0,
                            listed_universes(self.universes@),
                        )
                    },
                    None => forall|j: int| 0 <= j < refs.len() ==> !(#[trigger] p(j)),
                }
            }),
    {
        let sv = self.script_variants(kind);
        let ghost refs = script_refs(kind, *sv);
        let ghost p = bad_refs(self.universes@, refs);
        assert(refs[0] == ("["@ + kind.table_text() + "].default-universe"@, opt_view(sv.default_universe)));
        if let Some(name) = &sv.default_universe {
            if !self.is_known_universe(name) {
                assert(p(0));
                let what = cat3("[", kind.table_name(), "].default-universe");
                return Some((Ghost(0int), self.unknown_universe(what, name)));
            }
        }
        assert(!p(0));
        let mut i: usize = 0;
        while i < sv.variants.len()
            invariant
                i <= sv.variants@.len(),
                *sv == self.scripts(kind),
                refs == script_refs(kind, *sv),
                p == bad_refs(self.universes@, refs),
                forall|j: int| 0 <= j < i + 1 ==> !(#[trigger] p(j)),
            decreases sv.variants@.len() - i,
        {
            assert(refs[i + 1] == (
                "["@ + kind.table_text() + "] variant \""@ + sv.variants@[i as int].0 + "\""@,
                opt_view(sv.variants@[i as int].1.universe),
            ));
            if let Some(name) = &sv.variants.at(i).universe {
                if !self.is_known_universe(name) {
                    assert(p(i + 1));
                    let what = cat5("[", kind.table_name(), "] variant \"", sv.variants.name_at(i), "\"");
                    return Some((Ghost(i + 1), self.unknown_universe(what, name)));
                }
            }
            assert(!p(i + 1));
            i += 1;
        }
        None
    }

    /// The first thing that is wrong with the script variants of one kind, if anything is.
    fn validate_script_kind(&self, kind: ScriptKind) -> (r: Result<(), ScriptError>)
        ensures
            match script_fault(self.queues@, self.universes@, self.scripts(kind).variants@) {
                Some(f) => r is Err && r->Err_0@ == f,
                None => r is Ok,
            },
    {
        let sv = self.script_variants(kind);
        let ghost entries = sv.variants@;
        let ghost p = bad_variants(self.queues@, self.universes@, entries);
        let mut i: usize = 0;
        while i < sv.variants.len()
            invariant
                i <= sv.variants@.len(),
                *sv == self.scripts(kind),
                entries == sv.variants@,
                p == bad_variants(self.queues@, self.universes@, entries),
                forall|j: int| 0 <= j < i ==> !(#[trigger] p(j)),
            decreases sv.variants@.len() - i,
        {
            if let Some(e) = self.variant_error(sv.variants.name_at(i), sv.variants.at(i)) {
                proof {
                    assert(p(i as int));
                    lemma_first_from_is(0, entries.len() as int, p, i as int);
                }
                return Err(e);
            }
            assert(!p(i as int));
            i += 1;
        }
        proof {
            lemma_first_from_is(0, entries.len() as int, p, entries.len() as int);
        }
        let contexts = self.contexts();
        if let Err(e) = self.validate_partition(sv, &contexts, false) {
            return Err(e);
        }
        self.validate_partition(sv, &contexts, true)
    }

    fn validate_partition(&self, sv: &ScriptVariants, contexts: &Vec<String>, test: bool) -> (r: Result<
        (),
        ScriptError,
    >)
        requires
            views(contexts@) == contexts_of(self.universes@),
        ensures
            match partition_fault(self.queues@, self.universes@, sv.variants@, test) {
                Some(f) => r is Err && r->Err_0@ == f,
                None => r is Ok,
            },
    {
        let members = partition_names(&sv.variants, test);
        assert(members@.len() == views(members@).len());
        if members.len() == 0 {
            return if test || self.queues.len() == 0 {
                Ok(())
            } else {
                Err(ScriptError::NoVariants)
            };
        }
        let defaults = default_names(&sv.variants, test);
        assert(defaults@.len() == views(defaults@).len());
        if defaults.len() > 1 {
            return Err(ScriptError::ManyDefaults(test, defaults));
        }
        let ghost ctx = views(contexts@);
        let ghost p = bad_contexts(self.queues@, ctx, sv.variants@, test);
        let mut c: usize = 0;
        while c < contexts.len()
            invariant
                c <= contexts@.len(),
                ctx == views(contexts@),
                ctx == contexts_of(self.universes@),
                p == bad_contexts(self.queues@, ctx, sv.variants@, test),
                forall|j: int| 0 <= j < c ==> !(#[trigger] p(j)),
                names_where(sv.variants@, in_partition(test)).len() > 0,
                names_where(sv.variants@, marked_default(test)).len() <= 1,
            decreases contexts@.len() - c,
        {
            assert(ctx[c as int] == contexts@[c as int]@);
            if let Some(e) = self.context_error(sv, &contexts[c], test) {
                proof {
                    assert(p(c as int));
                    lemma_first_from_is(0, ctx.len() as int, p, c as int);
                }
                return Err(e);
            }
            assert(!p(c as int));
            c += 1;
        }
        proof {
            lemma_first_from_is(0, ctx.len() as int, p, ctx.len() as int);
        }
        Ok(())
    }

    fn context_error(&self, sv: &ScriptVariants, universe: &str, test: bool) -> (r: Option<ScriptError>)
        ensures
            ({
                let q = first_where(
                    self.queues@.len() as int,
                    bad_pairs(self.queues@, sv.variants@, test, universe@),
                );
                if q < self.queues@.len() {
                    r is Some && pair_fault(
                        sv.variants@,
                        test,
                        universe@,
                        self.queues@[q].0,
                        self.queues@[q].1,
                    ) == Some(r->0@)
                } else {
                    r is None
                }
            }),
    {
        let ghost p = bad_pairs(self.queues@, sv.variants@, test, universe@);
        let ghost n = self.queues@.len() as int;
        let mut i: usize = 0;
        while i < self.queues.len()
            invariant
                i <= self.queues@.len(),
                n == self.queues@.len(),
                p == bad_pairs(self.queues@, sv.variants@, test, universe@),
                forall|j: int| 0 <= j < i ==> !(#[trigger] p(j)),
            decreases self.queues@.len() - i,
        {
            if let Some(e) = pair_error(sv, test, universe, self.queues.name_at(i), self.queues.at(i)) {
                proof {
                    assert(p(i as int));
                    lemma_first_from_is(0, n, p, i as int);
                }
                return Some(e);
            }
            assert(!p(i as int));
            i += 1;
        }
        proof {
            lemma_first_from_is(0, n, p, n);
        }
        None
    }

    /// Validates the metadata. The error names the first thing that is wrong with it.
    pub fn validate(&self, machine: &str) -> (r: Result<(), MachineError>)
        ensures
            match meta_fault(*self) {
                Some(f) => r is Err && r->Err_0.machine@ == machine@ && r->Err_0.error@ == f,
                None => r is Ok,
            },
    {
        match self.validate_inner() {
            Ok(()) => Ok(()),
            Err(error) => Err(MachineError { machine: machine.to_owned(), error }),
        }
    }
}

/// What is wrong with the metadata of a machine.
#[derive(Debug)]
pub struct MachineError {
    pub machine: String,
    pub error: MetaError,
}

impl MachineError {
    /// The message for the user, as text.
    pub open spec fn text(self) -> Seq<char> {
        "invalid meta.toml for machine \""@ + self.machine@ + "\": "@ + self.error.text()
    }

    /// The message for the user.
    pub fn message(&self) -> (r: String)
        ensures
            r@ == self.text(),
    {
        cat4("invalid meta.toml for machine \"", &self.machine, "\": ", &self.error.message())
    }
}

fn pair_error(sv: &ScriptVariants, test: bool, universe: &str, name: &str, q: &Queue) -> (r: Option<ScriptError>)
    ensures
        match pair_fault(sv.variants@, test, universe@, name@, *q) {
            Some(f) => r is Some && r->0@ == f,
            None => r is None,
        },
{
    if !q.compatible_with(universe) {
        return None;
    }
    let servers = server_names(&sv.variants, test, universe, name);
    assert(servers@.len() == views(servers@).len());
    if servers.len() > 1 {
        return Some(ScriptError::Ambiguous(name.to_owned(), test, universe.to_owned(), servers));
    }
    let ghost d = default_place(sv.variants@, test, universe@);
    proof {
        lemma_default_place(sv.variants@, test, universe@);
    }
    if same(universe, HOST_UNIVERSE) && servers.len() == 0 && sv.partition_default(test, universe).is_none() {
        return Some(ScriptError::Uncovered(name.to_owned(), test));
    }
    None
}

/// The default of a partition stands among the entries, or nowhere.
proof fn lemma_default_place(entries: Seq<(Seq<char>, VariantEntry)>, test: bool, universe: Seq<char>)
    ensures
        0 <= default_place(entries, test, universe) <= entries.len(),
        default_place(entries, test, universe) < entries.len() ==> is_candidate(
            entries[default_place(entries, test, universe)].1,
            test,
            universe,
        ),
{
    let n = entries.len() as int;
    lemma_first_from(0, n, candidates(entries, test, universe));
    lemma_first_from(0, n, default_candidates(entries, test, universe));
}

fn default_queues(queues: &Table<Queue>) -> (r: Vec<String>)
    ensures
        views(r@) == names_where(queues@, default_queue_mark()),
{
    let ghost p = default_queue_mark();
    let mut out: Vec<String> = Vec::new();
    let mut i: usize = 0;
    assert(views(out@) =~= names_where(queues@.take(0), p));
    while i < queues.len()
        invariant
            i <= queues@.len(),
            p == default_queue_mark(),
            views(out@) == names_where(queues@.take(i as int), p),
        decreases queues@.len() - i,
    {
        let ghost before = out@;
        proof {
            lemma_names_where_step(queues@, p, i as int);
        }
        if queues.at(i).default {
            let name = queues.name_at(i).to_owned();
            out.push(name);
            proof {
                lemma_views_push(before, name);
            }
        }
        i += 1;
    }
    assert(queues@.take(i as int) == queues@);
    out
}

fn partition_names(variants: &Table<VariantEntry>, test: bool) -> (r: Vec<String>)
    ensures
        views(r@) == names_where(variants@, in_partition(test)),
{
    let ghost p = in_partition(test);
    let mut out: Vec<String> = Vec::new();
    let mut i: usize = 0;
    assert(views(out@) =~= names_where(variants@.take(0), p));
    while i < variants.len()
        invariant
            i <= variants@.len(),
            p == in_partition(test),
            views(out@) == names_where(variants@.take(i as int), p),
        decreases variants@.len() - i,
    {
        let ghost before = out@;
        proof {
            lemma_names_where_step(variants@, p, i as int);
        }
        if variants.at(i).test == test {
            let name = variants.name_at(i).to_owned();
            out.push(name);
            proof {
                lemma_views_push(before, name);
            }
        }
        i += 1;
    }
    assert(variants@.take(i as int) == variants@);
    out
}

fn default_names(variants: &Table<VariantEntry>, test: bool) -> (r: Vec<String>)
    ensures
        views(r@) == names_where(variants@, marked_default(test)),
{
    let ghost p = marked_default(test);
    let mut out: Vec<String> = Vec::new();
    let mut i: usize = 0;
    assert(views(out@) =~= names_where(variants@.take(0), p));
    while i < variants.len()
        invariant
            i <= variants@.len(),
            p == marked_default(test),
            views(out@) == names_where(variants@.take(i as int), p),
        decreases variants@.len() - i,
    {
        let ghost before = out@;
        proof {
            lemma_names_where_step(variants@, p, i as int);
        }
        if variants.at(i).test == test && variants.at(i).default {
            let name = variants.name_at(i).to_owned();
            out.push(name);
            proof {
                lemma_views_push(before, name);
            }
        }
        i += 1;
    }
    assert(variants@.take(i as int) == variants@);
    out
}

fn server_names(variants: &Table<VariantEntry>, test: bool, universe: &str, queue: &str) -> (r: Vec<String>)
    ensures
        views(r@) == names_where(variants@, server(test, universe@, queue@)),
{
    let ghost p = server(test, universe@, queue@);
    let mut out: Vec<String> = Vec::new();
    let mut i: usize = 0;
    assert(views(out@) =~= names_where(variants@.take(0), p));
    while i < variants.len()
        invariant
            i <= variants@.len(),
            p == server(test, universe@, queue@),
            views(out@) == names_where(variants@.take(i as int), p),
        decreases variants@.len() - i,
    {
        let ghost before = out@;
        proof {
            lemma_names_where_step(variants@, p, i as int);
        }
        let e = variants.at(i);
        if e.test == test && e.compatible_with(universe) && is_listed(&e.queues, queue) {
            let name = variants.name_at(i).to_owned();
            out.push(name);
            proof {
                lemma_views_push(before, name);
            }
        }
        i += 1;
    }
    assert(variants@.take(i as int) == variants@);
    out
}

fn wrapper_error(universes: &Table<Universe>) -> (r: Option<MetaError>)
    ensures
        ({
            let w = first_where(universes@.len() as int, bad_wrappers(universes@));
            if w < universes@.len() {
                r is Some && wrapper_fault(universes@[w].0, universes@[w].1) == Some(r->0@)
            } else {
                r is None
            }
        }),
{
    let ghost p = bad_wrappers(universes@);
    let ghost n = universes@.len() as int;
    let mut i: usize = 0;
    while i < universes.len()
        invariant
            i <= universes@.len(),
            n == universes@.len(),
            p == bad_wrappers(universes@),
            forall|j: int| 0 <= j < i ==> !(#[trigger] p(j)),
        decreases universes@.len() - i,
    {
        let name = universes.name_at(i);
        let u = universes.at(i);
        let found: Option<MetaError> = match (&u.wrapper_argv, &u.wrapper) {
            (Some(_), Some(_)) => Some(MetaError::BothForms(name.to_owned())),
            (None, Some(t)) => if !contains(t, "@COMMAND@") {
                Some(MetaError::NoCommand(name.to_owned()))
            } else {
                match command_token_in_quotes(t) {
                    Some(at) => Some(MetaError::QuotedCommand(name.to_owned(), at as u64)),
                    None => if is_repeated(t, "@COMMAND@") {
                        Some(MetaError::ManyCommands(name.to_owned()))
                    } else {
                        None
                    },
                }
            },
            _ => None,
        };
        match found {
            Some(e) => {
                proof {
                    assert(p(i as int));
                    lemma_first_from_is(0, n, p, i as int);
                }
                return Some(e);
            },
            None => {},
        }
        assert(!p(i as int));
        i += 1;
    }
    proof {
        lemma_first_from_is(0, n, p, n);
    }
    None
}

/// Names are found exactly where some entry satisfies the condition, and more than one where two
/// do.
proof fn lemma_names_where<V>(entries: Seq<(Seq<char>, V)>, p: spec_fn(V) -> bool)
    ensures
        names_where(entries, p).len() > 0 <==> exists|i: int| 0 <= i < entries.len() && p((#[trigger] entries[i]).1),
        forall|i: int, j: int|
            0 <= i < j < entries.len() && p((#[trigger] entries[i]).1) && p((#[trigger] entries[j]).1)
                ==> names_where(entries, p).len() > 1,
    decreases entries.len(),
{
    if entries.len() > 0 {
        let init = entries.drop_last();
        lemma_names_where(init, p);
        assert forall|i: int, j: int|
            0 <= i < j < entries.len() && p((#[trigger] entries[i]).1) && p(
                (#[trigger] entries[j]).1,
            ) implies names_where(entries, p).len() > 1 by {
            assert(init[i] == entries[i]);
            if j < init.len() {
                assert(init[j] == entries[j]);
            }
        }
        if exists|i: int| 0 <= i < entries.len() && p((#[trigger] entries[i]).1) {
            let i = choose|i: int| 0 <= i < entries.len() && p((#[trigger] entries[i]).1);
            if i < init.len() {
                assert(init[i] == entries[i]);
            }
        }
        if names_where(entries, p).len() > 0 {
            if p(entries.last().1) {
                assert(p(entries[entries.len() - 1].1));
            } else {
                let i = choose|i: int| 0 <= i < init.len() && p((#[trigger] init[i]).1);
                assert(entries[i] == init[i]);
            }
        }
    }
}

/// A valid machine's partitions are sound.
proof fn lemma_valid_partitions(m: Meta, kind: ScriptKind)
    requires
        meta_fault(m) is None,
    ensures
        m.queues@.len() > 0,
        partition_fault(m.queues@, m.universes@, m.scripts(kind).variants@, false) is None,
        partition_fault(m.queues@, m.universes@, m.scripts(kind).variants@, true) is None,
{
    let entries = m.scripts(kind).variants@;
    let bad = bad_variants(m.queues@, m.universes@, entries);
    lemma_first_from(0, entries.len() as int, bad);
    assert(script_fault(m.queues@, m.universes@, entries) is None);
}

/// In a sound partition with members, no queue is served wrongly in any universe.
proof fn lemma_sound_pair(
    queues: Seq<(Seq<char>, Queue)>,
    universes: Seq<(Seq<char>, Universe)>,
    entries: Seq<(Seq<char>, VariantEntry)>,
    test: bool,
    universe: Seq<char>,
    q: int,
)
    requires
        partition_fault(queues, universes, entries, test) is None,
        names_where(entries, in_partition(test)).len() > 0,
        is_known(universes, universe),
        0 <= q < queues.len(),
    ensures
        pair_fault(entries, test, universe, queues[q].0, queues[q].1) is None,
{
    let contexts = contexts_of(universes);
    let bad = bad_contexts(queues, contexts, entries, test);
    lemma_first_from(0, contexts.len() as int, bad);
    let first = first_where(contexts.len() as int, bad);
    if first < contexts.len() {
        let pairs = bad_pairs(queues, entries, test, contexts[first]);
        lemma_first_from(0, queues.len() as int, pairs);
        assert(bad(first));
        assert(pairs(first_where(queues.len() as int, pairs)));
    }
    let at = if universe == HOST_UNIVERSE@ {
        0
    } else {
        let p = |name: Seq<char>| name != HOST_UNIVERSE@;
        let names = names_of(universes);
        let i = choose|i: int| 0 <= i < universes.len() && (#[trigger] universes[i]).0 == universe;
        assert(names[i] == universe);
        names.lemma_filter_contains(p, i);
        let k = choose|k: int| 0 <= k < names.filter(p).len() && names.filter(p)[k] == universe;
        assert(contexts[1 + k] == universe);
        1 + k
    };
    assert(contexts[at] == universe);
    assert(!bad(at));
    let pairs = bad_pairs(queues, entries, test, universe);
    lemma_first_from(0, queues.len() as int, pairs);
    assert(!pairs(q));
}

/// On the host, a valid machine has a script for every queue that serves the host, for normal
/// runs and for tests alike.
pub proof fn valid_machines_serve_the_host(m: Meta, kind: ScriptKind, q: int, prefer_test: bool)
    requires
        meta_fault(m) is None,
        0 <= q < m.queues@.len(),
        admits(m.queues@[q].1.build_universes, HOST_UNIVERSE@),
    ensures
        selection(m.scripts(kind).variants@, m.queues@[q].0, HOST_UNIVERSE@, prefer_test, None) is Chosen,
{
    let entries = m.scripts(kind).variants@;
    let n = entries.len() as int;
    let host = HOST_UNIVERSE@;
    let queue = m.queues@[q].0;
    let tests = candidates(entries, true, host);
    let use_test = prefer_test && first_where(n, tests) < n;
    lemma_valid_partitions(m, kind);
    lemma_first_from(0, n, tests);
    lemma_names_where(entries, in_partition(use_test));
    if use_test {
        let i = first_where(n, tests);
        assert(in_partition(true)(entries[i].1));
    }
    lemma_sound_pair(m.queues@, m.universes@, entries, use_test, host, q);
    lemma_names_where(entries, server(use_test, host, queue));
    let p = serving(entries, use_test, host, queue);
    lemma_first_from(0, n, p);
    lemma_default_place(entries, use_test, host);
    if names_where(entries, server(use_test, host, queue)).len() > 0 {
        let i = choose|i: int|
            0 <= i < entries.len() && server(use_test, host, queue)((#[trigger] entries[i]).1);
        assert(p(i));
    }
}

/// In a valid machine, no two variants of a partition compete for a queue in any universe.
pub proof fn valid_machines_are_unambiguous(
    m: Meta,
    kind: ScriptKind,
    q: int,
    universe: Seq<char>,
    test: bool,
    i: int,
    j: int,
)
    requires
        meta_fault(m) is None,
        0 <= q < m.queues@.len(),
        is_known(m.universes@, universe),
        admits(m.queues@[q].1.build_universes, universe),
        0 <= i < m.scripts(kind).variants@.len(),
        0 <= j < m.scripts(kind).variants@.len(),
        serves(m.scripts(kind).variants@[i].1, test, universe, m.queues@[q].0),
        serves(m.scripts(kind).variants@[j].1, test, universe, m.queues@[q].0),
    ensures
        i == j,
{
    let entries = m.scripts(kind).variants@;
    lemma_valid_partitions(m, kind);
    lemma_names_where(entries, in_partition(test));
    assert(in_partition(test)(entries[i].1));
    lemma_sound_pair(m.queues@, m.universes@, entries, test, universe, q);
    let p = server(test, universe, m.queues@[q].0);
    lemma_names_where(entries, p);
    assert(p(entries[i].1));
    assert(p(entries[j].1));
}

/// Every universe that a valid machine refers to can be resolved.
pub proof fn valid_references_resolve(m: Meta, k: int)
    requires
        meta_fault(m) is None,
        0 <= k < refs_of(m).len(),
        refs_of(m)[k].1 is Some,
    ensures
        is_known(m.universes@, refs_of(m)[k].1->0),
{
    let refs = refs_of(m);
    let bad = bad_refs(m.universes@, refs);
    let wrappers = bad_wrappers(m.universes@);
    lemma_first_from(0, m.universes@.len() as int, wrappers);
    lemma_first_from(0, refs.len() as int, bad);
    assert(!bad(k));
}

/// A valid machine's universes have at most one wrapper form; one with a template has the token
/// for the command in it exactly once, and outside the template's own quotes.
pub proof fn valid_universes_can_wrap(m: Meta, k: int)
    requires
        meta_fault(m) is None,
        0 <= k < m.universes@.len(),
    ensures
        m.universes@[k].1.wrapper_argv is None || m.universes@[k].1.wrapper is None,
        m.universes@[k].1.wrapper matches Some(t) ==> holds(t@, "@COMMAND@"@) && !repeats(t@, "@COMMAND@"@)
            && quoted_token(t@, Quotes::Outside) is None,
{
    let bad = bad_wrappers(m.universes@);
    lemma_first_from(0, m.universes@.len() as int, bad);
    assert(!bad(k));
}

/// A selected variant serves the configuration's universe, and a normal run never gets a variant
/// that is for tests.
pub proof fn selections_fit(
    entries: Seq<(Seq<char>, VariantEntry)>,
    queue: Seq<char>,
    universe: Seq<char>,
    prefer_test: bool,
    explicit: Option<Seq<char>>,
)
    ensures
        selection(entries, queue, universe, prefer_test, explicit) matches Selection::Chosen(i) ==> {
            &&& 0 <= i < entries.len()
            &&& admits(entries[i].1.build_universes, universe)
            &&& !prefer_test ==> !entries[i].1.test
        },
{
    let n = entries.len() as int;
    let use_test = prefer_test && first_where(n, candidates(entries, true, universe)) < n;
    lemma_first_from(0, n, serving(entries, use_test, universe, queue));
    lemma_default_place(entries, use_test, universe);
}

/// Whether a list of build universes is as it has to be: missing, or not empty and of universes that
/// the machine has.
pub open spec fn is_sound_gate(universes: Seq<(Seq<char>, Universe)>, list: Option<Vec<String>>) -> bool {
    list is Some ==> list->0@.len() > 0 && forall|i: int|
        0 <= i < list->0@.len() ==> is_known(universes, (#[trigger] list->0@[i])@)
}

/// A list of build universes is refused where it is empty, or else for its first name that is neither
/// `host` nor declared; and for nothing else.
pub proof fn gates_admit_known_universes(universes: Seq<(Seq<char>, Universe)>, list: Option<Vec<String>>, name: Seq<char>)
    ensures
        is_known(universes, name) <==> name == "host"@ || has_name(universes, name),
        gate_fault(universes, list) is None <==> is_sound_gate(universes, list),
        gate_fault(universes, list) == Some(GateFault::Empty) <==> list is Some && list->0@.len() == 0,
        gate_fault(universes, list) == Some(GateFault::Unknown(name)) ==> {
            &&& list is Some
            &&& listed(list->0@, name)
            &&& name != "host"@ && !has_name(universes, name)
        },
        list is Some && list->0@.len() > 0 && !is_known(universes, list->0@[0]@) ==> gate_fault(universes, list) == Some(
            GateFault::Unknown(list->0@[0]@),
        ),
{
    if list is Some {
        let l = list->0@;
        let p = unknown_names(universes, l);
        let n = l.len() as int;
        lemma_first_from(0, n, p);
        let k = first_where(n, p);
        if k < n {
            assert(p(k));
            assert(!is_known(universes, l[k]@));
        } else {
            assert forall|i: int| 0 <= i < n implies is_known(universes, (#[trigger] l[i])@) by {
                assert(!p(i));
            }
        }
        if n > 0 && !is_known(universes, l[0]@) {
            assert(p(0));
        }
    }
}

/// A variant is as it has to be on its own exactly where the machine has every queue that it maps, and
/// its build universes are as they have to be; a queue that the machine lacks is what is said first.
pub proof fn variants_map_known_queues(
    queues: Seq<(Seq<char>, Queue)>,
    universes: Seq<(Seq<char>, Universe)>,
    name: Seq<char>,
    e: VariantEntry,
    k: int,
)
    ensures
        variant_fault(queues, universes, name, e) is None <==> {
            &&& forall|i: int| 0 <= i < e.queues@.len() ==> has_name(queues, (#[trigger] e.queues@[i])@)
            &&& is_sound_gate(universes, e.build_universes)
        },
        variant_fault(queues, universes, name, e) matches Some(ScriptFault::UnknownQueue(v, q)) ==> v == name && listed(
            e.queues@,
            q,
        ) && !has_name(queues, q),
        variant_fault(queues, universes, name, e) matches Some(ScriptFault::Gate(v, g)) ==> v == name && gate_fault(
            universes,
            e.build_universes,
        ) == Some(g),
        0 <= k < e.queues@.len() && !has_name(queues, e.queues@[k]@) && (forall|j: int|
            0 <= j < k ==> has_name(queues, (#[trigger] e.queues@[j])@)) ==> variant_fault(queues, universes, name, e)
            == Some(ScriptFault::UnknownQueue(name, e.queues@[k]@)),
{
    let l = e.queues@;
    let p = unknown_queues(queues, l);
    let n = l.len() as int;
    lemma_first_from(0, n, p);
    let f = first_where(n, p);
    gates_admit_known_universes(universes, e.build_universes, name);
    if f < n {
        assert(p(f));
        assert(!has_name(queues, l[f]@));
    } else {
        assert forall|i: int| 0 <= i < n implies has_name(queues, (#[trigger] l[i])@) by {
            assert(!p(i));
        }
    }
    if 0 <= k < n && !has_name(queues, l[k]@) && (forall|j: int| 0 <= j < k ==> has_name(queues, (#[trigger] l[j])@)) {
        assert forall|j: int| 0 <= j < k implies !(#[trigger] p(j)) by {
            assert(has_name(queues, l[j]@));
        }
        assert(p(k));
        lemma_first_from_is(0, n, p, k);
    }
}

/// The names that satisfy a condition are those of the entries that do, and there are more than one
/// only where two entries do.
pub proof fn names_are_of_entries_that_fit<V>(entries: Seq<(Seq<char>, V)>, p: spec_fn(V) -> bool, name: Seq<char>)
    ensures
        names_where(entries, p).contains(name) <==> exists|i: int|
            0 <= i < entries.len() && p((#[trigger] entries[i]).1) && entries[i].0 == name,
        names_where(entries, p).len() > 1 <==> exists|i: int, j: int|
            #![trigger entries[i], entries[j]]
            0 <= i < j < entries.len() && p(entries[i].1) && p(entries[j].1),
        names_where(entries, p).len() > 0 <==> exists|i: int| 0 <= i < entries.len() && p((#[trigger] entries[i]).1),
    decreases entries.len(),
{
    lemma_names_where(entries, p);
    let all = names_where(entries, p);
    if entries.len() > 0 {
        let init = entries.drop_last();
        let (last, few) = (entries.last(), names_where(init, p));
        names_are_of_entries_that_fit(init, p, name);
        assert(entries[entries.len() - 1] == last);
        assert(all == if p(last.1) {
            few.push(last.0)
        } else {
            few
        });
        if few.contains(name) {
            let k = choose|k: int| 0 <= k < few.len() && few[k] == name;
            assert(all[k] == name);
            let i = choose|i: int| 0 <= i < init.len() && p((#[trigger] init[i]).1) && init[i].0 == name;
            assert(entries[i] == init[i]);
        }
        if p(last.1) {
            assert(all[few.len() as int] == last.0);
        }
        if all.contains(name) {
            let k = choose|k: int| 0 <= k < all.len() && all[k] == name;
            if k < few.len() {
                assert(few[k] == name);
            }
        }
        assert forall|i: int| 0 <= i < entries.len() && p((#[trigger] entries[i]).1) && entries[i].0 == name implies
            all.contains(name) by {
            if i < init.len() {
                assert(init[i] == entries[i]);
            }
        }
        if all.len() > 1 {
            if few.len() > 1 {
                let (i, j) = choose|i: int, j: int|
                    #![trigger init[i], init[j]]
                    0 <= i < j < init.len() && p(init[i].1) && p(init[j].1);
                assert(entries[i] == init[i] && entries[j] == init[j]);
            } else {
                let i = choose|i: int| 0 <= i < init.len() && p((#[trigger] init[i]).1);
                assert(entries[i] == init[i]);
                assert(p(entries[entries.len() - 1].1));
            }
        }
    }
}

/// Of one queue in one universe: a queue that does not serve the universe is owed nothing; two variants
/// that map it are one too many; one that maps it is enough; and where none does, only the host asks for
/// a default.
pub proof fn queues_are_served_once(
    entries: Seq<(Seq<char>, VariantEntry)>,
    test: bool,
    universe: Seq<char>,
    name: Seq<char>,
    q: Queue,
    i: int,
    j: int,
)
    ensures
        !admits(q.build_universes, universe) ==> pair_fault(entries, test, universe, name, q) is None,
        admits(q.build_universes, universe) && 0 <= i < j < entries.len() && serves(entries[i].1, test, universe, name)
            && serves(entries[j].1, test, universe, name) ==> {
            &&& pair_fault(entries, test, universe, name, q) is Some
            &&& pair_fault(entries, test, universe, name, q)->0 is Ambiguous
        },
        pair_fault(entries, test, universe, name, q) matches Some(f) ==> (f matches ScriptFault::Ambiguous(n, t, u, l)
            ==> n == name && t == test && u == universe && l == names_where(entries, server(test, universe, name))),
        0 <= i < entries.len() && serves(entries[i].1, test, universe, name) && (forall|k: int|
            0 <= k < entries.len() && k != i ==> !serves((#[trigger] entries[k]).1, test, universe, name)) ==> pair_fault(
            entries,
            test,
            universe,
            name,
            q,
        ) is None,
        (forall|k: int| 0 <= k < entries.len() ==> !serves((#[trigger] entries[k]).1, test, universe, name)) && admits(
            q.build_universes,
            universe,
        ) ==> pair_fault(entries, test, universe, name, q) == (if universe == "host"@ && default_place(
            entries,
            test,
            universe,
        ) == entries.len() {
            Some(ScriptFault::Uncovered(name, test))
        } else {
            None
        }),
{
    let p = server(test, universe, name);
    names_are_of_entries_that_fit(entries, p, name);
}

/// The universes in which a machine is looked at are `host`, first, and all that it declares.
pub proof fn every_universe_is_looked_at(universes: Seq<(Seq<char>, Universe)>, name: Seq<char>)
    ensures
        contexts_of(universes)[0] == "host"@,
        contexts_of(universes).contains(name) <==> is_known(universes, name),
{
    let f = |n: Seq<char>| n != HOST_UNIVERSE@;
    let names = names_of(universes);
    let rest = names.filter(f);
    let all = contexts_of(universes);
    assert(all =~= seq![HOST_UNIVERSE@] + rest);
    assert(all[0] == HOST_UNIVERSE@);
    if name != HOST_UNIVERSE@ && has_name(universes, name) {
        let i = choose|i: int| 0 <= i < universes.len() && (#[trigger] universes[i]).0 == name;
        assert(names[i] == name);
        names.lemma_filter_contains(f, i);
        let k = choose|k: int| 0 <= k < rest.len() && rest[k] == name;
        assert(all[k + 1] == name);
    }
    if all.contains(name) && name != HOST_UNIVERSE@ {
        let k = choose|k: int| 0 <= k < all.len() && all[k] == name;
        assert(rest[k - 1] == name);
        names.lemma_filter_contains_rev(f, name);
        let i = choose|i: int| 0 <= i < names.len() && names[i] == name;
        assert(universes[i].0 == name);
    }
}

/// Test variants may be missing altogether, and so may all variants where there are no queues; variants
/// for normal runs may not. Of those that there are, no two are the default; and in every universe every
/// queue is served as it has to be. Where that holds, nothing is wrong.
pub proof fn partitions_are_refused_for_cause(
    queues: Seq<(Seq<char>, Queue)>,
    universes: Seq<(Seq<char>, Universe)>,
    entries: Seq<(Seq<char>, VariantEntry)>,
    test: bool,
)
    ensures
        (forall|i: int| 0 <= i < entries.len() ==> (#[trigger] entries[i]).1.test != test) ==> partition_fault(
            queues,
            universes,
            entries,
            test,
        ) == (if test || queues.len() == 0 {
            None
        } else {
            Some(ScriptFault::NoVariants)
        }),
        (exists|i: int, j: int|
            #![trigger entries[i], entries[j]]
            0 <= i < j < entries.len() && entries[i].1.test == test && entries[i].1.default && entries[j].1.test == test
                && entries[j].1.default) <==> {
            &&& partition_fault(queues, universes, entries, test) is Some
            &&& partition_fault(queues, universes, entries, test)->0 is ManyDefaults
        },
        (exists|i: int| 0 <= i < entries.len() && (#[trigger] entries[i]).1.test == test) && partition_fault(
            queues,
            universes,
            entries,
            test,
        ) is None ==> forall|u: Seq<char>, q: int|
            is_known(universes, u) && 0 <= q < queues.len() ==> #[trigger] pair_fault(
                entries,
                test,
                u,
                queues[q].0,
                queues[q].1,
            ) is None,
        partition_fault(queues, universes, entries, test) matches Some(f) ==> f is NoVariants || f is ManyDefaults || exists|
            u: Seq<char>,
            q: int,
        |
            is_known(universes, u) && 0 <= q < queues.len() && #[trigger] pair_fault(
                entries,
                test,
                u,
                queues[q].0,
                queues[q].1,
            ) == Some(f),
{
    let members = in_partition(test);
    let marks = marked_default(test);
    names_are_of_entries_that_fit(entries, members, Seq::empty());
    names_are_of_entries_that_fit(entries, marks, Seq::empty());
    let contexts = contexts_of(universes);
    let bad = bad_contexts(queues, contexts, entries, test);
    lemma_first_from(0, contexts.len() as int, bad);
    let c = first_where(contexts.len() as int, bad);
    if names_where(entries, marks).len() > 1 {
        let (i, j) = choose|i: int, j: int|
            #![trigger entries[i], entries[j]]
            0 <= i < j < entries.len() && marks(entries[i].1) && marks(entries[j].1);
        assert(members(entries[i].1));
        assert(entries[i].1.test == test && entries[i].1.default && entries[j].1.test == test && entries[j].1.default);
    }
    if c < contexts.len() {
        let u = contexts[c];
        let pairs = bad_pairs(queues, entries, test, u);
        lemma_first_from(0, queues.len() as int, pairs);
        let q = first_where(queues.len() as int, pairs);
        assert(bad(c));
        assert(pairs(q));
        assert(contexts.contains(u));
        every_universe_is_looked_at(universes, u);
        assert(pair_fault(entries, test, u, queues[q].0, queues[q].1) is Some);
    }
    if names_where(entries, members).len() > 0 && partition_fault(queues, universes, entries, test) is None {
        assert forall|u: Seq<char>, q: int| is_known(universes, u) && 0 <= q < queues.len() implies #[trigger] pair_fault(
            entries,
            test,
            u,
            queues[q].0,
            queues[q].1,
        ) is None by {
            lemma_sound_pair(queues, universes, entries, test, u, q);
        }
    }
    if exists|i: int| 0 <= i < entries.len() && (#[trigger] entries[i]).1.test == test {
        let i = choose|i: int| 0 <= i < entries.len() && (#[trigger] entries[i]).1.test == test;
        assert(members(entries[i].1));
    }
}

/// The script variants of a kind are as they have to be exactly where each is so on its own and both
/// partitions are; a variant that is not is what is said first, then the partition for normal runs.
pub proof fn scripts_are_looked_at_one_by_one(
    queues: Seq<(Seq<char>, Queue)>,
    universes: Seq<(Seq<char>, Universe)>,
    entries: Seq<(Seq<char>, VariantEntry)>,
    k: int,
)
    ensures
        script_fault(queues, universes, entries) is None <==> {
            &&& forall|i: int|
                0 <= i < entries.len() ==> variant_fault(queues, universes, (#[trigger] entries[i]).0, entries[i].1) is None
            &&& partition_fault(queues, universes, entries, false) is None
            &&& partition_fault(queues, universes, entries, true) is None
        },
        0 <= k < entries.len() && variant_fault(queues, universes, entries[k].0, entries[k].1) is Some && (forall|j: int|
            0 <= j < k ==> variant_fault(queues, universes, (#[trigger] entries[j]).0, entries[j].1) is None)
            ==> script_fault(queues, universes, entries) == variant_fault(
            queues,
            universes,
            entries[k].0,
            entries[k].1,
        ),
        (forall|j: int|
            0 <= j < entries.len() ==> variant_fault(queues, universes, (#[trigger] entries[j]).0, entries[j].1) is None)
            && partition_fault(queues, universes, entries, false) is Some ==> script_fault(queues, universes, entries)
            == partition_fault(queues, universes, entries, false),
{
    let n = entries.len() as int;
    let bad = bad_variants(queues, universes, entries);
    lemma_first_from(0, n, bad);
    let f = first_where(n, bad);
    if f < n {
        assert(bad(f));
        assert(variant_fault(queues, universes, entries[f].0, entries[f].1) is Some);
    } else {
        assert forall|i: int| 0 <= i < n implies variant_fault(
            queues,
            universes,
            (#[trigger] entries[i]).0,
            entries[i].1,
        ) is None by {
            assert(!bad(i));
        }
    }
    if 0 <= k < n && variant_fault(queues, universes, entries[k].0, entries[k].1) is Some && (forall|j: int|
        0 <= j < k ==> variant_fault(queues, universes, (#[trigger] entries[j]).0, entries[j].1) is None) {
        assert forall|j: int| 0 <= j < k implies !(#[trigger] bad(j)) by {
            assert(variant_fault(queues, universes, entries[j].0, entries[j].1) is None);
        }
        assert(bad(k));
        lemma_first_from_is(0, n, bad, k);
    }
}

/// A universe without a template has nothing wrong with its wrapper; two forms are one too many; and a
/// template needs the token for the command, once, where quotes do not hide it.
pub proof fn templates_hold_the_command_once(name: Seq<char>, u: Universe)
    ensures
        u.wrapper is None ==> wrapper_fault(name, u) is None,
        u.wrapper is Some && u.wrapper_argv is Some ==> wrapper_fault(name, u) == Some(MetaFault::BothForms(name)),
        u.wrapper is Some && u.wrapper_argv is None && !holds(u.wrapper->0@, "@COMMAND@"@) ==> wrapper_fault(name, u)
            == Some(MetaFault::NoCommand(name)),
        u.wrapper is Some && u.wrapper_argv is None && holds(u.wrapper->0@, "@COMMAND@"@) && quoted_token(
            u.wrapper->0@,
            Quotes::Outside,
        ) is None ==> wrapper_fault(name, u) == (if repeats(u.wrapper->0@, "@COMMAND@"@) {
            Some(MetaFault::ManyCommands(name))
        } else {
            None
        }),
        u.wrapper is Some && u.wrapper_argv is None && holds(u.wrapper->0@, "@COMMAND@"@) && quoted_token(
            u.wrapper->0@,
            Quotes::Outside,
        ) is Some ==> wrapper_fault(name, u) is Some && wrapper_fault(name, u)->0 is QuotedCommand,
{
}

/// A machine refers to universes where its builds run, where either kind of script runs by default, and
/// in each script variant: all of these are looked at, in that order, the submit scripts first.
pub proof fn references_are_all_looked_at(m: Meta, i: int)
    ensures
        ({
            let refs = refs_of(m);
            let submit = m.variants.submitscript;
            let run = m.variants.runscript;
            let n = submit.variants@.len() as int;
            &&& refs.len() == 3 + n + run.variants@.len()
            &&& refs[0].1 == opt_view(m.build.universe)
            &&& refs[1].1 == opt_view(submit.default_universe)
            &&& 0 <= i < n ==> refs[2 + i].1 == opt_view(submit.variants@[i].1.universe)
            &&& refs[2 + n].1 == opt_view(run.default_universe)
            &&& 0 <= i < run.variants@.len() ==> refs[3 + n + i].1 == opt_view(run.variants@[i].1.universe)
        }),
{
}

/// A machine is valid exactly where it has queues, of which one at most is the default, and
/// optionlists; where the build universes of every queue are as they have to be, the script variants of
/// both kinds, and every universe's wrapper; and where it has every universe that it refers to.
pub proof fn valid_machines_are_sound(m: Meta)
    ensures
        meta_fault(m) is None <==> {
            &&& m.queues@.len() > 0
            &&& forall|i: int, j: int|
                #![trigger m.queues@[i], m.queues@[j]]
                0 <= i < j < m.queues@.len() ==> !(m.queues@[i].1.default && m.queues@[j].1.default)
            &&& forall|i: int|
                0 <= i < m.queues@.len() ==> is_sound_gate(m.universes@, (#[trigger] m.queues@[i]).1.build_universes)
            &&& m.variants.optionlist.variants@.len() > 0
            &&& script_fault(m.queues@, m.universes@, m.variants.submitscript.variants@) is None
            &&& script_fault(m.queues@, m.universes@, m.variants.runscript.variants@) is None
            &&& forall|i: int|
                0 <= i < m.universes@.len() ==> wrapper_fault((#[trigger] m.universes@[i]).0, m.universes@[i].1) is None
            &&& forall|i: int|
                0 <= i < refs_of(m).len() && (#[trigger] refs_of(m)[i]).1 is Some ==> is_known(
                    m.universes@,
                    refs_of(m)[i].1->0,
                )
        },
{
    let (queues, universes, refs) = (m.queues@, m.universes@, refs_of(m));
    let marks = default_queue_mark();
    names_are_of_entries_that_fit(queues, marks, Seq::empty());
    if names_where(queues, marks).len() > 1 {
        let (i, j) = choose|i: int, j: int|
            #![trigger queues[i], queues[j]]
            0 <= i < j < queues.len() && marks(queues[i].1) && marks(queues[j].1);
        assert(queues[i].1.default && queues[j].1.default);
    } else {
        assert forall|i: int, j: int| #![trigger queues[i], queues[j]] 0 <= i < j < queues.len() implies !(
        queues[i].1.default && queues[j].1.default) by {
            assert(!(marks(queues[i].1) && marks(queues[j].1)));
        }
    }
    let gates = bad_gates(universes, queues);
    lemma_first_from(0, queues.len() as int, gates);
    let g = first_where(queues.len() as int, gates);
    if g < queues.len() {
        assert(gates(g));
        gates_admit_known_universes(universes, queues[g].1.build_universes, Seq::empty());
        assert(!is_sound_gate(universes, queues[g].1.build_universes));
    } else {
        assert forall|i: int| 0 <= i < queues.len() implies is_sound_gate(
            universes,
            (#[trigger] queues[i]).1.build_universes,
        ) by {
            assert(!gates(i));
            gates_admit_known_universes(universes, queues[i].1.build_universes, Seq::empty());
        }
    }
    let wrappers = bad_wrappers(universes);
    lemma_first_from(0, universes.len() as int, wrappers);
    let w = first_where(universes.len() as int, wrappers);
    if w < universes.len() {
        assert(wrappers(w));
        assert(wrapper_fault(universes[w].0, universes[w].1) is Some);
    } else {
        assert forall|i: int| 0 <= i < universes.len() implies wrapper_fault(
            (#[trigger] universes[i]).0,
            universes[i].1,
        ) is None by {
            assert(!wrappers(i));
        }
    }
    let bad = bad_refs(universes, refs);
    lemma_first_from(0, refs.len() as int, bad);
    let r = first_where(refs.len() as int, bad);
    if r < refs.len() {
        assert(bad(r));
        assert(refs[r].1 is Some && !is_known(universes, refs[r].1->0));
    } else {
        assert forall|i: int| 0 <= i < refs.len() && (#[trigger] refs[i]).1 is Some implies is_known(
            universes,
            refs[i].1->0,
        ) by {
            assert(!bad(i));
        }
    }
}

/// What is said of a machine is true of it, and what comes earlier in the order in which the parts are
/// looked at is then as it has to be: the queues, the optionlists, the submit scripts, the run scripts,
/// the universes, and the references to them.
pub proof fn machines_are_refused_in_order(m: Meta)
    ensures
        meta_fault(m) == Some(MetaFault::NoQueues) <==> m.queues@.len() == 0,
        meta_fault(m) matches Some(MetaFault::ManyDefaultQueues(l)) ==> l.len() > 1 && forall|n: Seq<char>|
            #[trigger] l.contains(n) ==> exists|i: int|
                0 <= i < m.queues@.len() && (#[trigger] m.queues@[i]).0 == n && m.queues@[i].1.default,
        meta_fault(m) matches Some(MetaFault::QueueGate(n, f)) ==> exists|i: int|
            {
                &&& 0 <= i < m.queues@.len()
                &&& (#[trigger] m.queues@[i]).0 == n
                &&& gate_fault(m.universes@, m.queues@[i].1.build_universes) == Some(f)
            },
        meta_fault(m) == Some(MetaFault::NoOptionlists) ==> m.variants.optionlist.variants@.len() == 0,
        meta_fault(m) matches Some(MetaFault::Script(kind, f)) ==> {
            &&& script_fault(m.queues@, m.universes@, m.scripts(kind).variants@) == Some(f)
            &&& m.queues@.len() > 0 && m.variants.optionlist.variants@.len() > 0
            &&& kind == ScriptKind::Run ==> script_fault(
                m.queues@,
                m.universes@,
                m.variants.submitscript.variants@,
            ) is None
        },
        meta_fault(m) matches Some(MetaFault::UnknownUniverse(at, n, l)) ==> {
            &&& !is_known(m.universes@, n)
            &&& exists|i: int| 0 <= i < refs_of(m).len() && #[trigger] refs_of(m)[i] == (at, Some(n))
            &&& m.universes@.len() == 0 ==> l == seq!["host"@]
            &&& m.universes@.len() > 0 ==> l == names_of(m.universes@)
            &&& script_fault(m.queues@, m.universes@, m.variants.submitscript.variants@) is None
            &&& script_fault(m.queues@, m.universes@, m.variants.runscript.variants@) is None
            &&& forall|i: int|
                0 <= i < m.universes@.len() ==> wrapper_fault((#[trigger] m.universes@[i]).0, m.universes@[i].1) is None
        },
        m.queues@.len() > 0 && m.variants.optionlist.variants@.len() == 0 && meta_fault(m) != Some(
            MetaFault::NoOptionlists,
        ) ==> meta_fault(m) is Some && (meta_fault(m)->0 is ManyDefaultQueues || meta_fault(m)->0 is QueueGate),
{
    let (queues, universes, refs) = (m.queues@, m.universes@, refs_of(m));
    let marks = default_queue_mark();
    let l = names_where(queues, marks);
    assert forall|n: Seq<char>| #[trigger] l.contains(n) implies exists|i: int|
        0 <= i < queues.len() && (#[trigger] queues[i]).0 == n && queues[i].1.default by {
        names_are_of_entries_that_fit(queues, marks, n);
        let i = choose|i: int| 0 <= i < queues.len() && marks((#[trigger] queues[i]).1) && queues[i].0 == n;
        assert(queues[i].0 == n && queues[i].1.default);
    }
    let gates = bad_gates(universes, queues);
    lemma_first_from(0, queues.len() as int, gates);
    let g = first_where(queues.len() as int, gates);
    if g < queues.len() {
        assert(gates(g));
        assert(queues[g].0 == queues[g].0);
    }
    let wrappers = bad_wrappers(universes);
    lemma_first_from(0, universes.len() as int, wrappers);
    let w = first_where(universes.len() as int, wrappers);
    if w < universes.len() {
        assert(wrappers(w));
    } else {
        assert forall|i: int| 0 <= i < universes.len() implies wrapper_fault(
            (#[trigger] universes[i]).0,
            universes[i].1,
        ) is None by {
            assert(!wrappers(i));
        }
    }
    let bad = bad_refs(universes, refs);
    lemma_first_from(0, refs.len() as int, bad);
    let r = first_where(refs.len() as int, bad);
    if r < refs.len() {
        assert(bad(r));
        assert(refs[r] == (refs[r].0, Some(refs[r].1->0)));
    }
}

} // verus!
