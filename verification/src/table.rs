//! A table of named values that keeps the order in which the names were added.

use indexmap::IndexMap;
use vstd::prelude::*;

verus! {

/// `indexmap::IndexMap`, carried as an opaque value.
#[verifier::external_type_specification]
#[verifier::external_body]
#[verifier::reject_recursive_types(K)]
#[verifier::reject_recursive_types(V)]
#[verifier::reject_recursive_types(S)]
pub struct ExIndexMap<K, V, S>(indexmap::IndexMap<K, V, S>);

/// The entries of an `IndexMap` from names to slots, in the map's own order.
pub uninterp spec fn slots(map: IndexMap<String, usize>) -> Seq<(Seq<char>, usize)>;

/// `IndexMap::new`: a map without entries.
#[verifier::external_body]
fn slots_new() -> (map: IndexMap<String, usize>)
    ensures
        slots(map) == Seq::<(Seq<char>, usize)>::empty(),
{
    IndexMap::new()
}

/// `IndexMap::insert`: a new name goes to the end; a name that is there already keeps its place
/// and gets the new slot.
#[verifier::external_body]
fn slots_insert(map: &mut IndexMap<String, usize>, name: String, slot: usize)
    ensures
        (forall|i: int| 0 <= i < slots(*old(map)).len() ==> (#[trigger] slots(*old(map))[i]).0 != name@)
            ==> slots(*final(map)) == slots(*old(map)).push((name@, slot)),
        forall|i: int|
            0 <= i < slots(*old(map)).len() && (#[trigger] slots(*old(map))[i]).0 == name@
                ==> slots(*final(map)) == slots(*old(map)).update(i, (name@, slot)),
{
    map.insert(name, slot);
}

/// `IndexMap::get`: the slot of the entry under `name`, where there is one.
#[verifier::external_body]
fn slots_get(map: &IndexMap<String, usize>, name: &str) -> (slot: Option<usize>)
    ensures
        slot is Some ==> slots(*map).contains((name@, slot->0)),
        slot is None ==> forall|i: int| 0 <= i < slots(*map).len() ==> (#[trigger] slots(*map)[i]).0 != name@,
{
    map.get(name).copied()
}

/// `IndexMap::get_index`: the name of the entry at position `i`.
#[verifier::external_body]
fn slots_name_at(map: &IndexMap<String, usize>, i: usize) -> (name: Option<&String>)
    ensures
        name is Some <==> i < slots(*map).len(),
        name is Some ==> name->0@ == slots(*map)[i as int].0,
{
    map.get_index(i).map(|entry| entry.0)
}

/// No two entries share a name.
pub open spec fn distinct<V>(entries: Seq<(Seq<char>, V)>) -> bool {
    forall|i: int, j: int|
        #![trigger entries[i], entries[j]]
        0 <= i < j < entries.len() ==> entries[i].0 != entries[j].0
}

/// Whether some entry is named `name`.
pub open spec fn has_name<V>(entries: Seq<(Seq<char>, V)>, name: Seq<char>) -> bool {
    exists|i: int| 0 <= i < entries.len() && (#[trigger] entries[i]).0 == name
}

/// The position of the entry named `name`.
pub open spec fn place<V>(entries: Seq<(Seq<char>, V)>, name: Seq<char>) -> int {
    choose|i: int| 0 <= i < entries.len() && (#[trigger] entries[i]).0 == name
}

/// The value of the entry named `name`.
pub open spec fn value_of<V>(entries: Seq<(Seq<char>, V)>, name: Seq<char>) -> V {
    entries[place(entries, name)].1
}

/// The names of the entries, in order.
pub open spec fn names_of<V>(entries: Seq<(Seq<char>, V)>) -> Seq<Seq<char>> {
    entries.map_values(|e: (Seq<char>, V)| e.0)
}

/// In a table without repeated names, the entry found under a name is the one that has it.
pub proof fn lemma_place<V>(entries: Seq<(Seq<char>, V)>, i: int)
    requires
        distinct(entries),
        0 <= i < entries.len(),
    ensures
        has_name(entries, entries[i].0),
        place(entries, entries[i].0) == i,
        value_of(entries, entries[i].0) == entries[i].1,
{
    let p = place(entries, entries[i].0);
    assert(0 <= p < entries.len() && entries[p].0 == entries[i].0);
}

/// The entries after `value` was put under `name`: at the end where the name is new, in its old
/// place where it is not.
pub open spec fn inserted<V>(entries: Seq<(Seq<char>, V)>, name: Seq<char>, value: V) -> Seq<(Seq<char>, V)> {
    if has_name(entries, name) {
        entries.update(place(entries, name), (name, value))
    } else {
        entries.push((name, value))
    }
}

/// After an insertion, the name has the new value and every other name has what it had.
pub proof fn lemma_inserted_lookup<V>(
    entries: Seq<(Seq<char>, V)>,
    name: Seq<char>,
    value: V,
    other: Seq<char>,
)
    requires
        distinct(entries),
    ensures
        distinct(inserted(entries, name, value)),
        has_name(inserted(entries, name, value), other) == (other == name || has_name(entries, other)),
        other == name ==> value_of(inserted(entries, name, value), other) == value,
        other != name && has_name(entries, other) ==> value_of(inserted(entries, name, value), other) == value_of(
            entries,
            other,
        ),
{
    let after = inserted(entries, name, value);
    if has_name(entries, name) {
        let p = place(entries, name);
        assert(after[p].0 == name);
        lemma_place(after, p);
    } else {
        assert(after[entries.len() as int].0 == name);
        lemma_place(after, entries.len() as int);
    }
    if other != name && has_name(entries, other) {
        let p = place(entries, other);
        assert(after[p] == entries[p]);
        lemma_place(after, p);
    }
    if other != name && has_name(after, other) {
        let p = place(after, other);
        assert(entries[p].0 == other);
    }
}

/// The entries with what `f` makes of their values.
pub open spec fn mapped<V, W>(entries: Seq<(Seq<char>, V)>, f: spec_fn(V) -> W) -> Seq<(Seq<char>, W)> {
    entries.map_values(|e: (Seq<char>, V)| (e.0, f(e.1)))
}

/// Lookups in mapped entries find what `f` makes of what lookups in the entries find, and an
/// insertion can be made on either side.
pub proof fn lemma_mapped<V, W>(entries: Seq<(Seq<char>, V)>, f: spec_fn(V) -> W, name: Seq<char>, value: V)
    requires
        distinct(entries),
    ensures
        distinct(mapped(entries, f)),
        has_name(mapped(entries, f), name) == has_name(entries, name),
        has_name(entries, name) ==> place(mapped(entries, f), name) == place(entries, name),
        has_name(entries, name) ==> value_of(mapped(entries, f), name) == f(value_of(entries, name)),
        mapped(inserted(entries, name, value), f) == inserted(mapped(entries, f), name, f(value)),
{
    let image = mapped(entries, f);
    assert forall|i: int, j: int| #![trigger image[i], image[j]] 0 <= i < j < image.len() implies image[i].0
        != image[j].0 by {
        assert(entries[i].0 != entries[j].0);
    }
    if has_name(entries, name) {
        let p = place(entries, name);
        assert(image[p].0 == name);
        lemma_place(image, p);
    }
    if has_name(image, name) {
        let p = place(image, name);
        assert(entries[p].0 == name);
    }
    assert(mapped(inserted(entries, name, value), f) =~= inserted(image, name, f(value)));
}

/// The names of the entries whose value satisfies `p`, in order.
pub open spec fn names_where<V>(entries: Seq<(Seq<char>, V)>, p: spec_fn(V) -> bool) -> Seq<Seq<char>>
    decreases entries.len(),
{
    if entries.len() == 0 {
        Seq::empty()
    } else if p(entries.last().1) {
        names_where(entries.drop_last(), p).push(entries.last().0)
    } else {
        names_where(entries.drop_last(), p)
    }
}

/// How `names_where` grows with one more entry.
pub proof fn lemma_names_where_step<V>(entries: Seq<(Seq<char>, V)>, p: spec_fn(V) -> bool, i: int)
    requires
        0 <= i < entries.len(),
    ensures
        p(entries[i].1) ==> names_where(entries.take(i + 1), p) == names_where(entries.take(i), p).push(entries[i].0),
        !p(entries[i].1) ==> names_where(entries.take(i + 1), p) == names_where(entries.take(i), p),
{
    assert(entries.take(i + 1).drop_last() == entries.take(i));
}

/// Named values in the order in which the names were added; no name occurs twice.
pub struct Table<V> {
    index: IndexMap<String, usize>,
    values: Vec<V>,
}

impl<V> Table<V> {
    #[verifier::type_invariant]
    spec fn inv(self) -> bool {
        &&& slots(self.index).len() == self.values@.len()
        &&& forall|i: int| 0 <= i < self.values@.len() ==> (#[trigger] slots(self.index)[i]).1 == i
        &&& distinct(slots(self.index))
    }
}

impl<V> View for Table<V> {
    type V = Seq<(Seq<char>, V)>;

    closed spec fn view(&self) -> Seq<(Seq<char>, V)> {
        Seq::new(self.values@.len(), |i: int| (slots(self.index)[i].0, self.values@[i]))
    }
}

impl<V> Table<V> {
    /// A table without entries.
    pub fn new() -> (r: Self)
        ensures
            r@ == Seq::<(Seq<char>, V)>::empty(),
    {
        let r = Table { index: slots_new(), values: Vec::new() };
        assert(r@ =~= Seq::empty());
        r
    }

    /// How many entries there are.
    pub fn len(&self) -> (n: usize)
        ensures
            n == self@.len(),
            distinct(self@),
    {
        proof {
            use_type_invariant(self);
        }
        self.values.len()
    }

    /// The name of entry `i`.
    pub fn name_at(&self, i: usize) -> (r: &str)
        requires
            i < self@.len(),
        ensures
            r@ == self@[i as int].0,
    {
        proof {
            use_type_invariant(self);
        }
        match slots_name_at(&self.index, i) {
            Some(name) => name.as_str(),
            None => "",
        }
    }

    /// The value of entry `i`.
    pub fn at(&self, i: usize) -> (r: &V)
        requires
            i < self@.len(),
        ensures
            *r == self@[i as int].1,
    {
        &self.values[i]
    }

    /// The value under `name`.
    pub fn get(&self, name: &str) -> (r: Option<&V>)
        ensures
            r is Some <==> has_name(self@, name@),
            r is Some ==> *r->0 == value_of(self@, name@),
            distinct(self@),
    {
        let slot: usize = self.find(name);
        if slot < self.values.len() {
            Some(&self.values[slot])
        } else {
            None
        }
    }

    /// The position of the entry named `name`; the number of entries where there is none.
    pub fn find(&self, name: &str) -> (r: usize)
        ensures
            has_name(self@, name@) ==> r < self@.len() && r == place(self@, name@) && self@[r as int].0 == name@,
            !has_name(self@, name@) ==> r == self@.len(),
            distinct(self@),
    {
        proof {
            use_type_invariant(self);
        }
        match slots_get(&self.index, name) {
            Some(slot) => {
                proof {
                    let i = choose|i: int| 0 <= i < slots(self.index).len() && slots(self.index)[i] == (name@, slot);
                    assert(slots(self.index)[i].1 == i);
                    lemma_place(self@, i);
                }
                slot
            },
            None => {
                assert forall|i: int| 0 <= i < self@.len() implies (#[trigger] self@[i]).0 != name@ by {
                    assert(slots(self.index)[i].0 != name@);
                }
                self.values.len()
            },
        }
    }

    /// Whether some entry is named `name`.
    pub fn contains(&self, name: &str) -> (r: bool)
        ensures
            r == has_name(self@, name@),
    {
        self.get(name).is_some()
    }

    /// The names, in order.
    pub fn names(&self) -> (r: Vec<String>)
        ensures
            crate::text::views(r@) == names_of(self@),
    {
        let mut out: Vec<String> = Vec::new();
        let mut i: usize = 0;
        while i < self.len()
            invariant
                i <= self@.len(),
                crate::text::views(out@) == names_of(self@).take(i as int),
            decreases self@.len() - i,
        {
            let ghost before = out@;
            let name = self.name_at(i).to_owned();
            out.push(name);
            i += 1;
            proof {
                crate::text::lemma_views_push(before, name);
                assert(names_of(self@).take(i as int) == names_of(self@).take(i - 1).push(self@[i - 1].0));
            }
        }
        assert(names_of(self@).take(i as int) == names_of(self@));
        out
    }

    /// Puts `value` under `name`: at the end where the name is new, in its old place where it is
    /// not.
    pub fn insert(&mut self, name: String, value: V)
        ensures
            final(self)@ == inserted(old(self)@, name@, value),
    {
        let mut whole = Table::new();
        std::mem::swap(self, &mut whole);
        proof {
            use_type_invariant(&whole);
        }
        let ghost before = whole@;
        let Table { mut index, mut values } = whole;
        match slots_get(&index, &name) {
            Some(slot) => {
                proof {
                    let i = choose|i: int| 0 <= i < slots(index).len() && slots(index)[i] == (name@, slot);
                    assert(slots(index)[i].1 == i);
                    lemma_place(before, i);
                }
                values.set(slot, value);
                *self = Table { index, values };
                assert(self@ =~= before.update(slot as int, (name@, value)));
            },
            None => {
                let slot: usize = values.len();
                let ghost names = slots(index);
                proof {
                    assert forall|i: int| 0 <= i < before.len() implies (#[trigger] before[i]).0 != name@ by {
                        assert(names[i].0 != name@);
                    }
                }
                slots_insert(&mut index, name, slot);
                values.push(value);
                *self = Table { index, values };
                assert(self@ =~= before.push((name@, value)));
            },
        }
    }
}

} // verus!
