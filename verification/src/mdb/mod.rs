//! The machine database: its two layers, the generations that it comes in, and the machines in it.

pub mod autodetect;
pub mod discover;
pub mod meta;
pub mod native;
pub mod optionlist;
pub mod sniff;
pub mod sync;
pub mod universe;
pub mod validate;
pub mod variants;

use crate::mdb::autodetect::DetectedHardware;
use crate::mdb::discover::ProbeError;
use crate::mdb::meta::{copy_list, or_copy, or_else, Hardware, Meta, Queue, ScriptKind, Texts};
use crate::mdb::validate::MachineError;
use crate::order::{before, in_order, insert_in_order, is_before, lemma_before_irreflexive, lemma_before_total, lemma_before_transitive};
use crate::search::{first_where, lemma_first_from_is};
use crate::table::{has_name, names_of, value_of, Table};
use crate::template::{text_value, VarSet};
use crate::text::{
    cat2, cat3, cat4, cat5, cat7, decimal, decimal_of, decimal_reads_back, is_digit, is_listed, is_number, join, joined, lemma_listed, lemma_views_push,
    listed,
    number_of, parse_number, path_join, path_of, same, show_text, shown_text, trim, trimmed, unsigned_part, views,
};
use crate::toml_text::{field, get_field, lemma_toml_of, read_toml, toml_of, toml_read, Toml, TomlValue};
use vstd::prelude::*;

verus! {

/// The layer of the database that a machine comes from.
#[derive(Debug, Clone, Copy, PartialEq, Eq, Structural)]
pub enum Layer {
    /// The one that is handed out.
    System,
    /// The user's own, which wins where both have a machine of a name.
    User,
}

/// The name of the machine that is always there.
pub const GENERIC: &'static str = "generic";

/// The machine database: the directories that hold the machines of each layer.
#[derive(Debug)]
pub struct Mdb {
    pub system_root: String,
    pub user_root: String,
}

/// Whether a list of machines holds one under a name in a layer.
pub open spec fn holds_machine(list: Seq<(String, Layer)>, name: Seq<char>, layer: Layer) -> bool {
    exists|i: int| 0 <= i < list.len() && (#[trigger] list[i]).0@ == name && list[i].1 == layer
}

/// Whether each machine's name stands before the next one's.
pub open spec fn by_name(list: Seq<(String, Layer)>) -> bool {
    forall|i: int, j: int| #![trigger list[i], list[j]] 0 <= i < j < list.len() ==> before(list[i].0@, list[j].0@)
}

/// The layer that a machine comes from, given the names in each layer and whether the generic
/// machine is built in: the user's layer wins.
pub open spec fn layer_of(
    system: Seq<String>,
    user: Seq<String>,
    builtin: bool,
    name: Seq<char>,
) -> Option<Layer> {
    if listed(user, name) {
        Some(Layer::User)
    } else if listed(system, name) || (builtin && name == GENERIC@) {
        Some(Layer::System)
    } else {
        None
    }
}

/// Puts a machine into its place; one of the same name gives way.
fn add_machine(list: &mut Vec<(String, Layer)>, name: &str, layer: Layer)
    requires
        by_name(old(list)@),
    ensures
        by_name(final(list)@),
        forall|n: Seq<char>, l: Layer| #[trigger]
            holds_machine(final(list)@, n, l) <==> if n == name@ {
                l == layer
            } else {
                holds_machine(old(list)@, n, l)
            },
{
    let ghost earlier = list@;
    let mut k: usize = 0;
    while k < list.len()
        invariant
            k <= list@.len(),
            list@ == earlier,
            forall|j: int| 0 <= j < k ==> before((#[trigger] earlier[j]).0@, name@),
        ensures
            k < earlier.len() ==> !before(earlier[k as int].0@, name@),
        decreases list@.len() - k,
    {
        if !is_before(&list[k].0, name) {
            break;
        }
        k += 1;
    }
    if k < list.len() && same(&list[k].0, name) {
        let entry = (name.to_owned(), layer);
        list.set(k, entry);
        proof {
            assert forall|n: Seq<char>, l: Layer| #[trigger]
                holds_machine(list@, n, l) <==> if n == name@ {
                    l == layer
                } else {
                    holds_machine(earlier, n, l)
                } by {
                if n == name@ {
                    assert(list@[k as int].0@ == n);
                    if holds_machine(list@, n, l) {
                        let i = choose|i: int| 0 <= i < list@.len() && (#[trigger] list@[i]).0@ == n && list@[i].1 == l;
                        if i < k {
                            assert(before(earlier[i].0@, n));
                            lemma_before_irreflexive(n);
                        } else if i > k {
                            assert(before(earlier[k as int].0@, earlier[i].0@));
                            lemma_before_irreflexive(n);
                        }
                    }
                } else {
                    if holds_machine(earlier, n, l) {
                        let i = choose|i: int| 0 <= i < earlier.len() && (#[trigger] earlier[i]).0@ == n && earlier[i].1 == l;
                        assert(list@[i] == earlier[i]);
                    }
                    if holds_machine(list@, n, l) {
                        let i = choose|i: int| 0 <= i < list@.len() && (#[trigger] list@[i]).0@ == n && list@[i].1 == l;
                        assert(list@[i] == earlier[i]);
                    }
                }
            }
        }
        return;
    }
    proof {
        if k < earlier.len() {
            lemma_before_total(earlier[k as int].0@, name@);
        }
    }
    list.insert(k, (name.to_owned(), layer));
    proof {
        let after = list@;
        assert forall|i: int, j: int| #![trigger after[i], after[j]] 0 <= i < j < after.len() implies before(
            after[i].0@,
            after[j].0@,
        ) by {
            if i == k && j > k {
                if j - 1 > k {
                    assert(before(earlier[k as int].0@, earlier[j - 1].0@));
                    lemma_before_transitive(name@, earlier[k as int].0@, earlier[j - 1].0@);
                }
            } else if i < k && j > k {
                assert(before(earlier[i].0@, earlier[j - 1].0@));
            } else if i > k {
                assert(before(earlier[i - 1].0@, earlier[j - 1].0@));
            }
        }
        assert forall|n: Seq<char>, l: Layer| #[trigger]
            holds_machine(after, n, l) <==> if n == name@ {
                l == layer
            } else {
                holds_machine(earlier, n, l)
            } by {
            if n == name@ {
                assert(after[k as int].0@ == n);
                if holds_machine(after, n, l) {
                    let i = choose|i: int| 0 <= i < after.len() && (#[trigger] after[i]).0@ == n && after[i].1 == l;
                    if i != k {
                        if i < k {
                            assert(before(after[i].0@, after[k as int].0@));
                        } else {
                            assert(before(after[k as int].0@, after[i].0@));
                        }
                        lemma_before_irreflexive(n);
                    }
                }
            } else {
                if holds_machine(earlier, n, l) {
                    let i = choose|i: int| 0 <= i < earlier.len() && (#[trigger] earlier[i]).0@ == n && earlier[i].1 == l;
                    if i < k {
                        assert(after[i] == earlier[i]);
                    } else {
                        assert(after[i + 1] == earlier[i]);
                    }
                }
                if holds_machine(after, n, l) {
                    let i = choose|i: int| 0 <= i < after.len() && (#[trigger] after[i]).0@ == n && after[i].1 == l;
                    if i < k {
                        assert(after[i] == earlier[i]);
                    } else {
                        assert(after[i] == earlier[i - 1]);
                    }
                }
            }
        }
    }
}

/// Puts the machines of one layer into their places.
fn add_layer(list: &mut Vec<(String, Layer)>, names: &Vec<String>, layer: Layer)
    requires
        by_name(old(list)@),
    ensures
        by_name(final(list)@),
        forall|n: Seq<char>, l: Layer| #[trigger]
            holds_machine(final(list)@, n, l) <==> if listed(names@, n) {
                l == layer
            } else {
                holds_machine(old(list)@, n, l)
            },
{
    let mut i: usize = 0;
    while i < names.len()
        invariant
            i <= names@.len(),
            by_name(list@),
            forall|n: Seq<char>, l: Layer| #[trigger]
                holds_machine(list@, n, l) <==> if listed(names@.take(i as int), n) {
                    l == layer
                } else {
                    holds_machine(old(list)@, n, l)
                },
        decreases names@.len() - i,
    {
        add_machine(list, &names[i], layer);
        proof {
            assert forall|n: Seq<char>| #[trigger] listed(names@.take(i + 1), n) == (n == names@[i as int]@ || listed(
                names@.take(i as int),
                n,
            )) by {
                if n == names@[i as int]@ {
                    assert(names@.take(i + 1)[i as int]@ == n);
                }
                if listed(names@.take(i as int), n) {
                    let j = choose|j: int| 0 <= j < i && (#[trigger] names@.take(i as int)[j])@ == n;
                    assert(names@.take(i + 1)[j]@ == n);
                }
                if listed(names@.take(i + 1), n) {
                    let j = choose|j: int| 0 <= j < i + 1 && (#[trigger] names@.take(i + 1)[j])@ == n;
                    if j < i {
                        assert(names@.take(i as int)[j]@ == n);
                    }
                }
            }
        }
        i += 1;
    }
    assert(names@.take(i as int) =~= names@);
}

impl Mdb {
    /// The database of two given directories.
    pub fn with_roots(system_root: String, user_root: String) -> (r: Mdb)
        ensures
            r.system_root == system_root,
            r.user_root == user_root,
    {
        Mdb { system_root, user_root }
    }

    /// The database to be used: at a path that is forced, where its generation must be the one
    /// that is read, if it says; or else at the path that is handed out. The user's layer stands in
    /// `machines` below the program's own directory.
    pub fn open(
        forced: Option<&str>,
        found: Option<u32>,
        want: u32,
        handed_out: &str,
        cactup_root: &str,
    ) -> (r: Result<Mdb, GenerationError>)
        ensures
            match forced {
                Some(path) => match generation_fault(path@, found, want) {
                    Some(f) => r is Err && r->Err_0@ == f,
                    None => r is Ok && r->Ok_0.system_root@ == path@ && r->Ok_0.user_root@ == path_of(
                        cactup_root@,
                        "machines"@,
                    ),
                },
                None => r is Ok && r->Ok_0.system_root@ == handed_out@ && r->Ok_0.user_root@ == path_of(
                    cactup_root@,
                    "machines"@,
                ),
            },
    {
        let user_root = path_join(cactup_root, "machines");
        match forced {
            Some(path) => match check_root_generation(path, found, want) {
                Ok(()) => Ok(Mdb::with_roots(path.to_owned(), user_root)),
                Err(e) => Err(e),
            },
            None => Ok(Mdb::with_roots(handed_out.to_owned(), user_root)),
        }
    }

    /// The machines with the layers that they come from, by name, given the names that each layer
    /// holds. The generic machine is among them where it is built in.
    pub fn machines(system: &Vec<String>, user: &Vec<String>, builtin: bool) -> (r: Vec<(String, Layer)>)
        ensures
            by_name(r@),
            forall|n: Seq<char>, l: Layer| #[trigger]
                holds_machine(r@, n, l) <==> layer_of(system@, user@, builtin, n) == Some(l),
    {
        let mut list: Vec<(String, Layer)> = Vec::new();
        assert(forall|n: Seq<char>, l: Layer| !(#[trigger] holds_machine(list@, n, l)));
        add_layer(&mut list, system, Layer::System);
        add_layer(&mut list, user, Layer::User);
        if builtin && !is_listed(system, GENERIC) && !is_listed(user, GENERIC) {
            add_machine(&mut list, GENERIC, Layer::System);
        }
        list
    }

    /// The directory of a machine with the layer that it comes from, given which layers have it
    /// and where the built-in generic machine stands.
    pub fn machine_dir(&self, name: &str, in_user: bool, in_system: bool, builtin: Option<&str>) -> (r: Option<
        (String, Layer),
    >)
        ensures
            if in_user {
                r matches Some(m) && m.0@ == path_of(self.user_root@, name@) && m.1 == Layer::User
            } else if in_system {
                r matches Some(m) && m.0@ == path_of(self.system_root@, name@) && m.1 == Layer::System
            } else if name@ == GENERIC@ && builtin is Some {
                r matches Some(m) && m.0@ == builtin->0@ && m.1 == Layer::System
            } else {
                r is None
            },
    {
        if in_user {
            return Some((path_join(&self.user_root, name), Layer::User));
        }
        if in_system {
            return Some((path_join(&self.system_root, name), Layer::System));
        }
        if same(name, GENERIC) {
            if let Some(dir) = builtin {
                return Some((dir.to_owned(), Layer::System));
            }
        }
        None
    }

    /// Where the changes between generations are described: in the database itself where it has
    /// the file, else on the documentation's site.
    pub fn generations_guide(&self, has_local: bool, site: &str) -> (r: String)
        ensures
            r@ == (if has_local {
                path_of(self.system_root@, "GENERATIONS.md"@)
            } else {
                site@ + "/authors/mdb-generations.html"@
            }),
    {
        if has_local {
            path_join(&self.system_root, "GENERATIONS.md")
        } else {
            cat2(site, "/authors/mdb-generations.html")
        }
    }

    /// Whether a machine claims a host: by its pattern, or else by its script, given the script's
    /// verdict. A script that fails claims nothing.
    pub fn verify(exists: bool, regexp: Option<bool>, script: Option<Option<bool>>) -> (r: bool)
        ensures
            r == (exists && (regexp == Some(true) || script == Some(Some(true)))),
    {
        if !exists {
            return false;
        }
        if let Some(claims) = regexp {
            if claims {
                return true;
            }
        }
        match script {
            Some(Some(claims)) => claims,
            _ => false,
        }
    }
}

/// A machine in a search for the one that claims a host.
#[derive(Debug)]
pub struct Candidate {
    pub name: String,
    /// What its pattern says.
    pub regexp: Option<bool>,
    /// Where its script stands, if it has one.
    pub script: Option<String>,
}

/// Whether a machine's script has to be asked: it has one, and its pattern does not claim the host.
pub open spec fn to_ask(c: Candidate) -> bool {
    c.regexp != Some(true) && c.script is Some
}

/// The scripts that have to be asked, in the machines' order.
pub open spec fn scripts_of(all: Seq<Candidate>) -> Seq<Seq<char>>
    decreases all.len(),
{
    if all.len() == 0 {
        Seq::empty()
    } else if to_ask(all.last()) {
        scripts_of(all.drop_last()).push(all.last().script->0@)
    } else {
        scripts_of(all.drop_last())
    }
}

fn asks(c: &Candidate) -> (r: bool)
    ensures
        r == to_ask(*c),
{
    match c.regexp {
        Some(true) => false,
        _ => c.script.is_some(),
    }
}

/// The scripts that have to be asked, in the machines' order.
pub fn pending_scripts(all: &Vec<Candidate>) -> (r: Vec<String>)
    ensures
        views(r@) == scripts_of(all@),
{
    let mut out: Vec<String> = Vec::new();
    let mut i: usize = 0;
    assert(all@.take(0) =~= Seq::empty());
    while i < all.len()
        invariant
            i <= all@.len(),
            views(out@) == scripts_of(all@.take(i as int)),
        decreases all@.len() - i,
    {
        proof {
            assert(all@.take(i + 1).drop_last() =~= all@.take(i as int));
        }
        if asks(&all[i]) {
            if let Some(script) = &all[i].script {
                let ghost earlier = out@;
                let item = script.clone();
                out.push(item);
                proof {
                    lemma_views_push(earlier, item);
                }
            }
        }
        i += 1;
    }
    assert(all@.take(i as int) =~= all@);
    out
}

/// The machines that claim the host, in their order, given the scripts' verdicts: those whose
/// pattern does, and those whose script was asked and does.
pub open spec fn claiming(all: Seq<Candidate>, verdicts: Seq<Result<bool, ProbeError>>) -> Seq<Seq<char>>
    decreases all.len(),
{
    if all.len() == 0 {
        Seq::empty()
    } else {
        let rest = claiming(all.drop_last(), verdicts);
        let asked = scripts_of(all.drop_last()).len() as int;
        if all.last().regexp == Some(true) || (to_ask(all.last()) && asked < verdicts.len() && verdicts[asked] == Ok::<
            bool,
            ProbeError,
        >(true)) {
            rest.push(all.last().name@)
        } else {
            rest
        }
    }
}

impl Mdb {
    /// The machines that claim the host, in the order of their names, given the verdicts on the
    /// scripts that had to be asked.
    pub fn discover(all: &Vec<Candidate>, verdicts: &Vec<Result<bool, ProbeError>>) -> (r: Vec<String>)
        ensures
            in_order(views(r@)),
            views(r@).to_multiset() == claiming(all@, verdicts@).to_multiset(),
    {
        let mut out: Vec<String> = Vec::new();
        let mut asked: usize = 0;
        let mut i: usize = 0;
        assert(all@.take(0) =~= Seq::empty());
        assert(views(out@) =~= Seq::empty());
        while i < all.len()
            invariant
                i <= all@.len(),
                asked <= i,
                asked == scripts_of(all@.take(i as int)).len(),
                in_order(views(out@)),
                views(out@).to_multiset() == claiming(all@.take(i as int), verdicts@).to_multiset(),
            decreases all@.len() - i,
        {
            proof {
                assert(all@.take(i + 1).drop_last() =~= all@.take(i as int));
                claiming(all@.take(i as int), verdicts@).to_multiset_ensures();
            }
            let by_pattern = match all[i].regexp {
                Some(true) => true,
                _ => false,
            };
            if asks(&all[i]) {
                let by_script = if asked < verdicts.len() {
                    match &verdicts[asked] {
                        Ok(b) => *b,
                        Err(_) => false,
                    }
                } else {
                    false
                };
                if by_script {
                    insert_in_order(&mut out, all[i].name.clone());
                }
                asked += 1;
            } else if by_pattern {
                insert_in_order(&mut out, all[i].name.clone());
            }
            i += 1;
        }
        assert(all@.take(i as int) =~= all@);
        out
    }
}

/// The scripts to ask are those of the machines one after the other.
proof fn lemma_scripts_add(a: Seq<Candidate>, b: Seq<Candidate>)
    ensures
        scripts_of(a + b) == scripts_of(a) + scripts_of(b),
    decreases b.len(),
{
    if b.len() == 0 {
        assert(a + b =~= a);
        assert(scripts_of(a) + scripts_of(b) =~= scripts_of(a));
    } else {
        lemma_scripts_add(a, b.drop_last());
        assert((a + b).drop_last() =~= a + b.drop_last());
        assert((a + b).last() == b.last());
        assert(scripts_of(a + b) =~= scripts_of(a) + scripts_of(b));
    }
}

/// The machines that claim the host are those of the first part and those of the second, which is
/// told by the verdicts that the first part leaves.
proof fn lemma_claiming_add(a: Seq<Candidate>, b: Seq<Candidate>, verdicts: Seq<Result<bool, ProbeError>>)
    requires
        scripts_of(a).len() <= verdicts.len(),
    ensures
        claiming(a + b, verdicts) == claiming(a, verdicts) + claiming(b, verdicts.skip(scripts_of(a).len() as int)),
    decreases b.len(),
{
    let left = verdicts.skip(scripts_of(a).len() as int);
    if b.len() == 0 {
        assert(a + b =~= a);
        assert(claiming(a, verdicts) + claiming(b, left) =~= claiming(a, verdicts));
    } else {
        lemma_claiming_add(a, b.drop_last(), verdicts);
        lemma_scripts_add(a, b.drop_last());
        assert((a + b).drop_last() =~= a + b.drop_last());
        assert((a + b).last() == b.last());
        let asked = scripts_of(b.drop_last()).len() as int;
        if asked < left.len() {
            assert(left[asked] == verdicts[scripts_of(a).len() + asked]);
        }
        assert(claiming(a + b, verdicts) =~= claiming(a, verdicts) + claiming(b, left));
    }
}

proof fn lemma_alone(c: Candidate, verdicts: Seq<Result<bool, ProbeError>>)
    ensures
        to_ask(c) ==> scripts_of(seq![c]) == seq![c.script->0@],
        !to_ask(c) ==> scripts_of(seq![c]) == Seq::<Seq<char>>::empty(),
        claiming(seq![c], verdicts) == (if c.regexp == Some(true) || (to_ask(c) && verdicts.len() > 0 && verdicts[0]
            == Ok::<bool, ProbeError>(true)) {
            seq![c.name@]
        } else {
            Seq::<Seq<char>>::empty()
        }),
{
    let one = seq![c];
    assert(one.drop_last() =~= Seq::<Candidate>::empty());
    assert(scripts_of(one.drop_last()) =~= Seq::<Seq<char>>::empty());
    assert(claiming(one.drop_last(), verdicts) =~= Seq::<Seq<char>>::empty());
    assert(one.last() == c);
    assert(Seq::<Seq<char>>::empty().push(c.name@) =~= seq![c.name@]);
    assert(Seq::<Seq<char>>::empty().push(c.script->0@) =~= seq![c.script->0@]);
}

proof fn lemma_claiming_names(all: Seq<Candidate>, verdicts: Seq<Result<bool, ProbeError>>, name: Seq<char>)
    requires
        forall|k: int| 0 <= k < all.len() ==> (#[trigger] all[k]).name@ != name,
    ensures
        !claiming(all, verdicts).contains(name),
    decreases all.len(),
{
    if all.len() > 0 {
        let init = all.drop_last();
        assert forall|k: int| 0 <= k < init.len() implies (#[trigger] init[k]).name@ != name by {
            assert(all[k].name@ != name);
        }
        lemma_claiming_names(init, verdicts, name);
        assert(all[all.len() - 1].name@ != name);
        let before = claiming(init, verdicts);
        if claiming(all, verdicts).contains(name) {
            let i = choose|i: int| 0 <= i < claiming(all, verdicts).len() && claiming(all, verdicts)[i] == name;
            if i < before.len() {
                assert(before[i] == name);
            }
        }
    }
}

/// What neither the front nor the back of a list holds, the list holds where its middle does.
proof fn lemma_middle(front: Seq<Seq<char>>, middle: Seq<Seq<char>>, back: Seq<Seq<char>>, name: Seq<char>)
    requires
        !front.contains(name),
        !back.contains(name),
        middle.len() == 0 || middle == seq![name],
    ensures
        (front + (middle + back)).contains(name) <==> middle.len() > 0,
{
    let whole = front + (middle + back);
    if middle.len() > 0 {
        assert(whole[front.len() as int] == name);
    } else if whole.contains(name) {
        let k = choose|k: int| 0 <= k < whole.len() && whole[k] == name;
        if k < front.len() {
            assert(front[k] == name);
        } else {
            assert(back[k - front.len()] == name);
        }
    }
}

/// Lists of the same items hold the same.
proof fn lemma_same_items(a: Seq<Seq<char>>, b: Seq<Seq<char>>, name: Seq<char>)
    requires
        a.to_multiset() == b.to_multiset(),
    ensures
        a.contains(name) <==> b.contains(name),
{
    a.to_multiset_ensures();
    b.to_multiset_ensures();
    assert(a.contains(name) <==> a.to_multiset().count(name) > 0);
    assert(b.contains(name) <==> b.to_multiset().count(name) > 0);
}

/// A machine is found where its pattern claims the host. Where the pattern does not, its script is
/// asked, and it is found exactly where the verdict on that very script is that it claims the host:
/// the verdict that stands where the script stands among those to be asked. A machine without a
/// script to ask, and one whose script could not tell, are not found.
#[verifier::spinoff_prover]
#[verifier::rlimit(40)]
pub proof fn machines_are_found_by_their_own_verdict(
    all: Seq<Candidate>,
    verdicts: Seq<Result<bool, ProbeError>>,
    found: Seq<Seq<char>>,
    i: int,
)
    requires
        0 <= i < all.len(),
        forall|k: int| 0 <= k < all.len() && k != i ==> (#[trigger] all[k]).name@ != all[i].name@,
        verdicts.len() == scripts_of(all).len(),
        found.to_multiset() == claiming(all, verdicts).to_multiset(),
    ensures
        ({
            let c = all[i];
            let j = scripts_of(all.take(i)).len() as int;
            &&& c.regexp == Some(true) ==> found.contains(c.name@)
            &&& c.regexp != Some(true) && c.script is None ==> !found.contains(c.name@)
            &&& c.regexp != Some(true) && c.script is Some ==> {
                &&& j < scripts_of(all).len()
                &&& scripts_of(all)[j] == c.script->0@
                &&& found.contains(c.name@) <==> verdicts[j] == Ok::<bool, ProbeError>(true)
            }
        }),
{
    let c = all[i];
    let front = all.take(i);
    let back = all.skip(i + 1);
    let one = seq![c];
    let j = scripts_of(front).len() as int;
    assert(all =~= front + (one + back));
    lemma_scripts_add(front, one + back);
    lemma_scripts_add(one, back);
    lemma_claiming_add(front, one + back, verdicts);
    let left = verdicts.skip(j);
    lemma_alone(c, left);
    assert(scripts_of(one).len() <= left.len());
    lemma_claiming_add(one, back, left);
    let before = claiming(front, verdicts);
    let here = claiming(one, left);
    let after = claiming(back, left.skip(scripts_of(one).len() as int));
    lemma_claiming_names(front, verdicts, c.name@);
    lemma_claiming_names(back, left.skip(scripts_of(one).len() as int), c.name@);
    let whole = claiming(all, verdicts);
    assert(whole == before + (here + after));
    lemma_middle(before, here, after, c.name@);
    lemma_same_items(found, whole, c.name@);
    if c.regexp != Some(true) && c.script is Some {
        assert(scripts_of(one).len() == 1);
        assert(left[0] == verdicts[j]);
        assert(scripts_of(all)[j] == (scripts_of(one) + scripts_of(back))[0]);
    }
}

/// A machine that is not asked changes nothing for the others: added anywhere, it leaves the scripts
/// to ask as they are, and the machines that are found, itself aside.
pub proof fn machines_not_asked_change_nothing(
    front: Seq<Candidate>,
    c: Candidate,
    back: Seq<Candidate>,
    verdicts: Seq<Result<bool, ProbeError>>,
)
    requires
        c.regexp == Some(true) || c.script is None,
        scripts_of(front).len() <= verdicts.len(),
    ensures
        scripts_of(front + seq![c] + back) == scripts_of(front + back),
        c.regexp != Some(true) ==> claiming(front + seq![c] + back, verdicts) == claiming(front + back, verdicts),
        c.regexp == Some(true) ==> claiming(front + seq![c] + back, verdicts).to_multiset() == claiming(
            front + back,
            verdicts,
        ).to_multiset().insert(c.name@),
{
    let one = seq![c];
    let left = verdicts.skip(scripts_of(front).len() as int);
    lemma_alone(c, left);
    assert(front + one + back =~= front + (one + back));
    lemma_scripts_add(front, one + back);
    lemma_scripts_add(one, back);
    lemma_scripts_add(front, back);
    assert(scripts_of(one) =~= Seq::<Seq<char>>::empty());
    assert(scripts_of(one) + scripts_of(back) =~= scripts_of(back));
    lemma_claiming_add(front, one + back, verdicts);
    lemma_claiming_add(one, back, left);
    lemma_claiming_add(front, back, verdicts);
    assert(left.skip(0) =~= left);
    let a = claiming(front, verdicts);
    let b = claiming(back, left);
    let here = claiming(one, left);
    if c.regexp != Some(true) {
        assert(here =~= Seq::<Seq<char>>::empty());
        assert(here + b =~= b);
    } else {
        assert(here =~= seq![c.name@]);
        let whole = a + (here + b);
        whole.to_multiset_ensures();
        assert(whole[a.len() as int] == c.name@);
        assert(whole.remove(a.len() as int) =~= a + b);
        assert(whole.to_multiset().count(c.name@) > 0);
        assert(whole.to_multiset() =~= (a + b).to_multiset().insert(c.name@));
    }
}

/// The generation that a text holds: one positive number, blanks aside.
pub open spec fn generation_in(text: Seq<char>) -> Option<u32> {
    let t = trimmed(text);
    if is_number(t, u32::MAX as nat) && number_of(unsigned_part(t)) >= 1 {
        Some(number_of(unsigned_part(t)) as u32)
    } else {
        None
    }
}

/// The generation that a text holds.
pub fn parse_generation(text: &str) -> (r: Option<u32>)
    ensures
        r == generation_in(text@),
{
    match parse_number(&trim(text), 4294967295) {
        Some(n) => if n >= 1 {
            Some(n as u32)
        } else {
            None
        },
        None => None,
    }
}

/// Why a database's generation stands in the way.
pub enum GenerationFault {
    NotOne(Seq<char>, Seq<char>),
    Other(Seq<char>, nat, nat),
}

/// Why a database's generation stands in the way.
#[derive(Debug)]
pub enum GenerationError {
    /// The file holds this text, which is no generation.
    NotOne(String, String),
    /// The database at this path is of the first generation, and the second is read.
    Other(String, u32, u32),
}

impl View for GenerationError {
    type V = GenerationFault;

    open spec fn view(&self) -> GenerationFault {
        match *self {
            GenerationError::NotOne(path, text) => GenerationFault::NotOne(path@, text@),
            GenerationError::Other(root, found, want) => GenerationFault::Other(root@, found as nat, want as nat),
        }
    }
}

impl GenerationError {
    /// The message for the user, as text.
    pub open spec fn text(self) -> Seq<char> {
        match self {
            GenerationError::NotOne(path, text) => path@ + " does not hold an MDB generation (one positive integer): "@
                + shown_text(text@),
            GenerationError::Other(root, found, want) => ("the MDB at "@ + root@ + " is generation "@ + decimal_of(
                found as nat,
            ) + ", but this cactup reads generation "@ + decimal_of(want as nat)
                + "; point --mdb-path at a generation-"@) + decimal_of(want as nat) + " MDB"@ + (if found > want {
                " or run `cactup update`"@
            } else {
                ""@
            }),
        }
    }

    /// The message for the user.
    pub fn message(&self) -> (r: String)
        ensures
            r@ == self.text(),
    {
        match self {
            GenerationError::NotOne(path, text) => cat3(
                path,
                " does not hold an MDB generation (one positive integer): ",
                &show_text(text),
            ),
            GenerationError::Other(root, found, want) => {
                let head = cat7(
                    "the MDB at ",
                    root,
                    " is generation ",
                    &decimal(*found as u64),
                    ", but this cactup reads generation ",
                    &decimal(*want as u64),
                    "; point --mdb-path at a generation-",
                );
                cat4(
                    &head,
                    &decimal(*want as u64),
                    " MDB",
                    if *found > *want {
                        " or run `cactup update`"
                    } else {
                        ""
                    },
                )
            },
        }
    }
}

/// The generation that the file `GENERATION` of a database holds; none where there is no file.
pub fn read_generation(path: &str, text: Option<&str>) -> (r: Result<Option<u32>, GenerationError>)
    ensures
        match text {
            None => r is Ok && r->Ok_0 is None,
            Some(t) => match generation_in(t@) {
                Some(n) => r is Ok && r->Ok_0 == Some(n),
                None => r is Err && r->Err_0@ == GenerationFault::NotOne(path@, t@),
            },
        },
{
    match text {
        None => Ok(None),
        Some(t) => match parse_generation(t) {
            Some(n) => Ok(Some(n)),
            None => Err(GenerationError::NotOne(path.to_owned(), t.to_owned())),
        },
    }
}

/// What stands against a database at a path that is forced: a generation other than the one that
/// is read. One that does not say which it is passes.
pub open spec fn generation_fault(root: Seq<char>, found: Option<u32>, want: u32) -> Option<GenerationFault> {
    match found {
        Some(n) => if n != want {
            Some(GenerationFault::Other(root, n as nat, want as nat))
        } else {
            None
        },
        None => None,
    }
}

fn check_root_generation(root: &str, found: Option<u32>, want: u32) -> (r: Result<(), GenerationError>)
    ensures
        match generation_fault(root@, found, want) {
            Some(f) => r is Err && r->Err_0@ == f,
            None => r is Ok,
        },
{
    match found {
        Some(n) => if n != want {
            Err(GenerationError::Other(root.to_owned(), n, want))
        } else {
            Ok(())
        },
        None => Ok(()),
    }
}

/// A machine of the user's that was written for another generation than the one that is read.
#[derive(Debug)]
pub struct OverlayGenerationError {
    /// The name of the machine.
    pub name: String,
    /// Its `meta.toml`.
    pub path: String,
    /// The generation that it was written for.
    pub found: u32,
    /// The generation that is read.
    pub want: u32,
    /// Where the changes between generations are described.
    pub guide: String,
}

impl OverlayGenerationError {
    /// The short form, as text.
    pub open spec fn brief_text(self) -> Seq<char> {
        if self.found < self.want {
            "written for MDB generation "@ + decimal_of(self.found as nat) + ", this cactup reads "@ + decimal_of(
                self.want as nat,
            ) + "; `cactup machine show "@ + self.name@ + "` explains"@
        } else {
            "needs MDB generation "@ + decimal_of(self.found as nat) + "; run `cactup update`"@
        }
    }

    /// The short form, for a list of machines.
    pub fn brief(&self) -> (r: String)
        ensures
            r@ == self.brief_text(),
    {
        if self.found < self.want {
            cat7(
                "written for MDB generation ",
                &decimal(self.found as u64),
                ", this cactup reads ",
                &decimal(self.want as u64),
                "; `cactup machine show ",
                &self.name,
                "` explains",
            )
        } else {
            cat3("needs MDB generation ", &decimal(self.found as u64), "; run `cactup update`")
        }
    }

    /// The message for the user, as text.
    pub open spec fn text(self) -> Seq<char> {
        let head = "user-MDB machine \""@ + self.name@ + "\" ("@ + self.path@
            + ") was written for MDB generation "@ + decimal_of(self.found as nat);
        if self.found < self.want {
            ((head + ", but this cactup reads generation "@ + decimal_of(self.want as nat)
                + ". Bring it forward as described in "@ + self.guide@ + " and then set `mdb-generation = "@ + decimal_of(
                self.want as nat,
            )) + "` under [cactup], or re-create it with `cactup machine delete "@ + self.name@
                + "` followed by `cactup machine create "@ + self.name@) + "`."@
        } else {
            head + ", which requires a newer cactup than this one (generation "@ + decimal_of(self.want as nat)
                + "); run `cactup update`."@
        }
    }

    /// The message for the user.
    pub fn message(&self) -> (r: String)
        ensures
            r@ == self.text(),
    {
        let want = decimal(self.want as u64);
        let head = cat2(
            &cat5("user-MDB machine \"", &self.name, "\" (", &self.path, ") was written for MDB generation "),
            &decimal(self.found as u64),
        );
        if self.found < self.want {
            let first = cat7(
                &head,
                ", but this cactup reads generation ",
                &want,
                ". Bring it forward as described in ",
                &self.guide,
                " and then set `mdb-generation = ",
                &want,
            );
            let second = cat5(
                &first,
                "` under [cactup], or re-create it with `cactup machine delete ",
                &self.name,
                "` followed by `cactup machine create ",
                &self.name,
            );
            cat2(&second, "`.")
        } else {
            cat4(
                &head,
                ", which requires a newer cactup than this one (generation ",
                &want,
                "); run `cactup update`.",
            )
        }
    }
}

/// What a machine of the user's says of its generation.
#[derive(Debug, Clone, Copy, PartialEq, Eq, Structural)]
pub enum Recorded {
    /// It says nothing.
    Nothing,
    /// It says something that is no generation.
    Unusable,
    Generation(u32),
}

/// What the document of a machine says of its generation, under `mdb-generation` in `[cactup]`.
pub open spec fn recorded_in(doc: Toml) -> Recorded {
    match doc {
        Toml::Dict(entries) => match field(entries, "cactup"@) {
            Some(Toml::Dict(own)) => match field(own, "mdb-generation"@) {
                Some(Toml::Int(n)) => if 0 <= n <= u32::MAX {
                    Recorded::Generation(n as u32)
                } else {
                    Recorded::Unusable
                },
                Some(_) => Recorded::Unusable,
                None => Recorded::Nothing,
            },
            _ => Recorded::Nothing,
        },
        _ => Recorded::Nothing,
    }
}

/// What the document of a machine says of its generation.
pub fn recorded_generation(doc: &TomlValue) -> (r: Recorded)
    ensures
        r == recorded_in(toml_of(*doc)),
{
    proof {
        lemma_toml_of(*doc);
    }
    match doc {
        TomlValue::Dict(entries) => match get_field(entries, "cactup") {
            Some(own) => {
                proof {
                    lemma_toml_of(*own);
                }
                match own {
                    TomlValue::Dict(own) => match get_field(own, "mdb-generation") {
                        Some(TomlValue::Int(n)) => if 0 <= *n && *n <= 4294967295 {
                            Recorded::Generation(*n as u32)
                        } else {
                            Recorded::Unusable
                        },
                        Some(_) => Recorded::Unusable,
                        None => Recorded::Nothing,
                    },
                    _ => Recorded::Nothing,
                }
            },
            None => Recorded::Nothing,
        },
        _ => Recorded::Nothing,
    }
}

/// Checks what a machine of the user's says of its generation. Gives whether it says nothing, which
/// is worth a warning. What is no generation passes here, and fails where the machine is read.
pub fn check_recorded(name: &str, path: &str, recorded: Recorded, guide: &str, want: u32) -> (r: Result<
    bool,
    OverlayGenerationError,
>)
    ensures
        match recorded {
            Recorded::Nothing => r == Ok::<bool, OverlayGenerationError>(true),
            Recorded::Unusable => r == Ok::<bool, OverlayGenerationError>(false),
            Recorded::Generation(n) => if n == want {
                r == Ok::<bool, OverlayGenerationError>(false)
            } else {
                r matches Err(e) && e.name@ == name@ && e.path@ == path@ && e.found == n && e.want == want && e.guide@
                    == guide@
            },
        },
{
    match recorded {
        Recorded::Nothing => Ok(true),
        Recorded::Unusable => Ok(false),
        Recorded::Generation(n) => if n == want {
            Ok(false)
        } else {
            Err(
                OverlayGenerationError {
                    name: name.to_owned(),
                    path: path.to_owned(),
                    found: n,
                    want,
                    guide: guide.to_owned(),
                },
            )
        },
    }
}

/// What the text of a machine's `meta.toml` says of its generation; one that cannot be read says
/// nothing that could be used.
pub open spec fn recorded_by(text: Seq<char>) -> Recorded {
    match toml_read(text) {
        Ok(doc) => recorded_in(doc),
        Err(_) => Recorded::Unusable,
    }
}

/// Checks the generation that the `meta.toml` of a machine of the user's was written for, before
/// anything else is read of it. Gives whether it says nothing, which is worth a warning.
pub fn check_overlay_generation(name: &str, path: &str, text: &str, guide: &str, want: u32) -> (r: Result<
    bool,
    OverlayGenerationError,
>)
    ensures
        match recorded_by(text@) {
            Recorded::Nothing => r == Ok::<bool, OverlayGenerationError>(true),
            Recorded::Unusable => r == Ok::<bool, OverlayGenerationError>(false),
            Recorded::Generation(n) => if n == want {
                r == Ok::<bool, OverlayGenerationError>(false)
            } else {
                r matches Err(e) && e.name@ == name@ && e.path@ == path@ && e.found == n && e.want == want && e.guide@
                    == guide@
            },
        },
{
    let recorded = match read_toml(text) {
        Ok(doc) => recorded_generation(&doc),
        Err(_) => Recorded::Unusable,
    };
    check_recorded(name, path, recorded, guide, want)
}

/// A machine.
pub struct Machine {
    pub name: String,
    pub dir: String,
    pub layer: Layer,
    pub meta: Meta,
}

/// Whether a queue would be left without a core count or a memory size.
pub open spec fn lacks(q: Queue, hw: Hardware) -> bool {
    or_else(q.max_cpus_per_node, hw.max_cpus_per_node) is None || or_else(q.memory, hw.memory) is None
}

/// Whether the hardware of the host has to be looked up for a machine: it asks for that, or one of
/// its queues lacks something.
pub open spec fn wants_detection(meta: Meta) -> bool {
    meta.hardware.autodetect || exists|i: int|
        0 <= i < meta.queues@.len() && lacks((#[trigger] meta.queues@[i]).1, meta.hardware)
}

/// Whether the hardware of the host has to be looked up for a machine.
pub fn needs_detection(meta: &Meta) -> (r: bool)
    ensures
        r == wants_detection(*meta),
{
    if meta.hardware.autodetect {
        return true;
    }
    let mut i: usize = 0;
    while i < meta.queues.len()
        invariant
            i <= meta.queues@.len(),
            !meta.hardware.autodetect,
            forall|j: int| 0 <= j < i ==> !lacks((#[trigger] meta.queues@[j]).1, meta.hardware),
        decreases meta.queues@.len() - i,
    {
        let q = meta.queues.at(i);
        assert(q == meta.queues@[i as int].1);
        if or_copy(q.max_cpus_per_node, meta.hardware.max_cpus_per_node).is_none() || or_copy(
            q.memory,
            meta.hardware.memory,
        ).is_none() {
            return true;
        }
        i += 1;
    }
    false
}

/// Hardware with what it lacks filled in from what was detected; what is there stays.
pub open spec fn completed(hw: Hardware, found: DetectedHardware) -> Hardware {
    Hardware {
        autodetect: hw.autodetect,
        max_cpus_per_node: or_else(hw.max_cpus_per_node, Some(found.cores)),
        default_cpus_per_task: hw.default_cpus_per_task,
        max_gpus_per_node: or_else(hw.max_gpus_per_node, found.gpus),
        default_gpus_per_task: hw.default_gpus_per_task,
        threads_per_cpu: or_else(hw.threads_per_cpu, found.threads_per_cpu),
        memory: or_else(hw.memory, found.memory_mb),
    }
}

/// Hardware with what it lacks filled in from what was detected.
pub fn complete(hw: &Hardware, found: &DetectedHardware) -> (r: Hardware)
    ensures
        r == completed(*hw, *found),
{
    Hardware {
        autodetect: hw.autodetect,
        max_cpus_per_node: or_copy(hw.max_cpus_per_node, Some(found.cores)),
        default_cpus_per_task: hw.default_cpus_per_task,
        max_gpus_per_node: or_copy(hw.max_gpus_per_node, found.gpus),
        default_gpus_per_task: hw.default_gpus_per_task,
        threads_per_cpu: or_copy(hw.threads_per_cpu, found.threads_per_cpu),
        memory: or_copy(hw.memory, found.memory_mb),
    }
}

/// What a machine declares stays as it is whatever is detected, and afterwards every queue has a
/// core count.
pub proof fn declared_hardware_wins(hw: Hardware, found: DetectedHardware, q: Queue)
    ensures
        hw.max_cpus_per_node is Some ==> completed(hw, found).max_cpus_per_node == hw.max_cpus_per_node,
        hw.memory is Some ==> completed(hw, found).memory == hw.memory,
        hw.max_gpus_per_node is Some ==> completed(hw, found).max_gpus_per_node == hw.max_gpus_per_node,
        hw.threads_per_cpu is Some ==> completed(hw, found).threads_per_cpu == hw.threads_per_cpu,
        or_else(q.max_cpus_per_node, completed(hw, found).max_cpus_per_node) is Some,
{
}

/// A script variant's file.
#[derive(Debug)]
pub struct ScriptFile {
    pub path: String,
    /// A program that writes the script, not the script itself.
    pub python: bool,
}

/// Why a machine's files are not as they have to be.
pub enum FileFault {
    Both(Seq<char>, Seq<char>, Seq<char>),
    Neither(Seq<char>, Seq<char>, Seq<char>, Seq<char>, Seq<char>),
    NoOptionlist(Seq<char>, Seq<char>, Seq<char>),
}

/// Why a machine's files are not as they have to be.
#[derive(Debug)]
pub enum FileError {
    /// The machine has both files of a script variant.
    Both(String, String, String),
    /// The machine has neither: the machine, the kind of script, the variant, and the two files.
    Neither(String, String, String, String, String),
    /// The machine lists an optionlist whose file is not there.
    NoOptionlist(String, String, String),
}

impl View for FileError {
    type V = FileFault;

    open spec fn view(&self) -> FileFault {
        match *self {
            FileError::Both(machine, sh, py) => FileFault::Both(machine@, sh@, py@),
            FileError::Neither(machine, kind, variant, sh, py) => FileFault::Neither(
                machine@,
                kind@,
                variant@,
                sh@,
                py@,
            ),
            FileError::NoOptionlist(machine, variant, path) => FileFault::NoOptionlist(machine@, variant@, path@),
        }
    }
}

impl FileError {
    /// The message for the user, as text.
    pub open spec fn text(self) -> Seq<char> {
        match self {
            FileError::Both(machine, sh, py) => "machine \""@ + machine@ + "\" has both "@ + sh@ + " and "@ + py@
                + " — a variant may be .sh or .py, not both"@,
            FileError::Neither(machine, kind, variant, sh, py) => ("machine \""@ + machine@ + "\" declares "@ + kind@
                + " variant \""@ + variant@ + "\" but neither "@) + sh@ + " nor "@ + py@ + " exists"@,
            FileError::NoOptionlist(machine, variant, path) => "machine \""@ + machine@
                + "\" lists optionlist variant \""@ + variant@ + "\" but "@ + path@ + " does not exist"@,
        }
    }

    /// The message for the user.
    pub fn message(&self) -> (r: String)
        ensures
            r@ == self.text(),
    {
        match self {
            FileError::Both(machine, sh, py) => cat7(
                "machine \"",
                machine,
                "\" has both ",
                sh,
                " and ",
                py,
                " — a variant may be .sh or .py, not both",
            ),
            FileError::Neither(machine, kind, variant, sh, py) => {
                let head = cat7(
                    "machine \"",
                    machine,
                    "\" declares ",
                    kind,
                    " variant \"",
                    variant,
                    "\" but neither ",
                );
                cat5(&head, sh, " nor ", py, " exists")
            },
            FileError::NoOptionlist(machine, variant, path) => cat7(
                "machine \"",
                machine,
                "\" lists optionlist variant \"",
                variant,
                "\" but ",
                path,
                " does not exist",
            ),
        }
    }
}

/// Why no optionlist can be chosen.
pub enum OptionlistFault {
    Unknown(Seq<char>, Seq<Seq<char>>),
    NoneListed(Seq<char>),
    NoDefault(Seq<char>, Seq<Seq<char>>),
    ManyDefaults(Seq<char>, Seq<Seq<char>>),
}

/// Why no optionlist can be chosen.
#[derive(Debug)]
pub enum OptionlistChoiceError {
    /// The machine has none of the name; those that it has.
    Unknown(String, Vec<String>),
    /// The machine has none.
    NoneListed(String),
    /// The machine has several, and none is marked.
    NoDefault(String, Vec<String>),
    /// The machine marks several.
    ManyDefaults(String, Vec<String>),
}

impl View for OptionlistChoiceError {
    type V = OptionlistFault;

    open spec fn view(&self) -> OptionlistFault {
        match *self {
            OptionlistChoiceError::Unknown(name, known) => OptionlistFault::Unknown(name@, views(known@)),
            OptionlistChoiceError::NoneListed(machine) => OptionlistFault::NoneListed(machine@),
            OptionlistChoiceError::NoDefault(machine, all) => OptionlistFault::NoDefault(machine@, views(all@)),
            OptionlistChoiceError::ManyDefaults(machine, marked) => OptionlistFault::ManyDefaults(
                machine@,
                views(marked@),
            ),
        }
    }
}

impl OptionlistChoiceError {
    /// The message for the user, as text.
    pub open spec fn text(self) -> Seq<char> {
        match self {
            OptionlistChoiceError::Unknown(name, known) => "no optionlist variant named \""@ + name@ + "\" (known: "@
                + joined(views(known@), ", "@) + ")"@,
            OptionlistChoiceError::NoneListed(machine) => "machine \""@ + machine@
                + "\" has no optionlist variant"@,
            OptionlistChoiceError::NoDefault(machine, all) => "machine \""@ + machine@
                + "\" has several optionlist variants ("@ + joined(views(all@), ", "@)
                + ") and none is marked default = true; pick one with --variant"@,
            OptionlistChoiceError::ManyDefaults(machine, marked) => "machine \""@ + machine@
                + "\" marks several optionlist variants default = true ("@ + joined(views(marked@), ", "@)
                + "); pick one with --variant"@,
        }
    }

    /// The message for the user.
    pub fn message(&self) -> (r: String)
        ensures
            r@ == self.text(),
    {
        match self {
            OptionlistChoiceError::Unknown(name, known) => cat5(
                "no optionlist variant named \"",
                name,
                "\" (known: ",
                &join(known, ", "),
                ")",
            ),
            OptionlistChoiceError::NoneListed(machine) => cat3(
                "machine \"",
                machine,
                "\" has no optionlist variant",
            ),
            OptionlistChoiceError::NoDefault(machine, all) => cat5(
                "machine \"",
                machine,
                "\" has several optionlist variants (",
                &join(all, ", "),
                ") and none is marked default = true; pick one with --variant",
            ),
            OptionlistChoiceError::ManyDefaults(machine, marked) => cat5(
                "machine \"",
                machine,
                "\" marks several optionlist variants default = true (",
                &join(marked, ", "),
                "); pick one with --variant",
            ),
        }
    }
}

/// The names of a list that are marked, in their order.
pub open spec fn marked_of(list: Seq<Seq<char>>, marked: Seq<String>) -> Seq<Seq<char>>
    decreases list.len(),
{
    if list.len() == 0 {
        Seq::empty()
    } else if listed(marked, list.last()) {
        marked_of(list.drop_last(), marked).push(list.last())
    } else {
        marked_of(list.drop_last(), marked)
    }
}

fn keep_marked(list: &Vec<String>, marked: &Vec<String>) -> (r: Vec<String>)
    ensures
        views(r@) == marked_of(views(list@), marked@),
{
    let ghost all = views(list@);
    let mut out: Vec<String> = Vec::new();
    let mut i: usize = 0;
    assert(all.take(0) =~= Seq::empty());
    while i < list.len()
        invariant
            i <= list@.len(),
            all == views(list@),
            views(out@) == marked_of(all.take(i as int), marked@),
        decreases list@.len() - i,
    {
        assert(all.take(i + 1).drop_last() =~= all.take(i as int));
        if is_listed(marked, &list[i]) {
            let ghost earlier = out@;
            let item = list[i].clone();
            out.push(item);
            proof {
                lemma_views_push(earlier, item);
            }
        }
        i += 1;
    }
    assert(all.take(i as int) =~= all);
    out
}

/// Which optionlist a build uses: the one that is named, the only one, or the only one that is
/// marked.
pub open spec fn optionlist_choice(
    machine: Seq<char>,
    list: Seq<Seq<char>>,
    marked: Seq<String>,
    named: Option<Seq<char>>,
) -> Result<Seq<char>, OptionlistFault> {
    let defaults = marked_of(list, marked);
    match named {
        Some(name) => if list.contains(name) {
            Ok(name)
        } else {
            Err(OptionlistFault::Unknown(name, list))
        },
        None => if list.len() == 1 {
            Ok(list[0])
        } else if defaults.len() == 1 {
            Ok(defaults[0])
        } else if list.len() == 0 {
            Err(OptionlistFault::NoneListed(machine))
        } else if defaults.len() == 0 {
            Err(OptionlistFault::NoDefault(machine, list))
        } else {
            Err(OptionlistFault::ManyDefaults(machine, defaults))
        },
    }
}

impl Machine {
    /// The path of a script variant's file.
    pub open spec fn script_text(self, kind: ScriptKind, variant: Seq<char>, ending: Seq<char>) -> Seq<char> {
        path_of(path_of(self.dir@, kind.dir_text()), variant + ending)
    }

    /// What stands against a script variant's files: exactly one of the two has to be there.
    pub open spec fn script_fault(
        self,
        kind: ScriptKind,
        variant: Seq<char>,
        has_sh: bool,
        has_py: bool,
    ) -> Option<FileFault> {
        let sh = self.script_text(kind, variant, ".sh"@);
        let py = self.script_text(kind, variant, ".py"@);
        if has_sh && has_py {
            Some(FileFault::Both(self.name@, sh, py))
        } else if !has_sh && !has_py {
            Some(FileFault::Neither(self.name@, kind.dir_text(), variant, sh, py))
        } else {
            None
        }
    }

    /// The path of a script variant's file.
    pub fn script_file(&self, kind: ScriptKind, variant: &str, ending: &str) -> (r: String)
        ensures
            r@ == self.script_text(kind, variant@, ending@),
    {
        path_join(&path_join(&self.dir, kind.dir_name()), &cat2(variant, ending))
    }

    /// The file of a script variant, given which of the two are there.
    pub fn script_path(&self, kind: ScriptKind, variant: &str, has_sh: bool, has_py: bool) -> (r: Result<
        ScriptFile,
        FileError,
    >)
        ensures
            match self.script_fault(kind, variant@, has_sh, has_py) {
                Some(f) => r is Err && r->Err_0@ == f,
                None => r is Ok && r->Ok_0.python == has_py && r->Ok_0.path@ == self.script_text(
                    kind,
                    variant@,
                    if has_py {
                        ".py"@
                    } else {
                        ".sh"@
                    },
                ),
            },
    {
        let sh = self.script_file(kind, variant, ".sh");
        let py = self.script_file(kind, variant, ".py");
        if has_sh && has_py {
            Err(FileError::Both(self.name.clone(), sh, py))
        } else if has_sh {
            Ok(ScriptFile { path: sh, python: false })
        } else if has_py {
            Ok(ScriptFile { path: py, python: true })
        } else {
            Err(
                FileError::Neither(
                    self.name.clone(),
                    kind.dir_name().to_owned(),
                    variant.to_owned(),
                    sh,
                    py,
                ),
            )
        }
    }

    /// The path of an optionlist.
    pub open spec fn optionlist_text(self, variant: Seq<char>) -> Seq<char> {
        path_of(path_of(self.dir@, "optionlists"@), variant + ".toml"@)
    }

    /// The path of an optionlist.
    pub fn optionlist_path(&self, variant: &str) -> (r: String)
        ensures
            r@ == self.optionlist_text(variant@),
    {
        path_join(&path_join(&self.dir, "optionlists"), &cat2(variant, ".toml"))
    }

    /// What stands against the files of each script variant of a kind.
    pub open spec fn script_faults(self, kind: ScriptKind, files: Seq<String>) -> Seq<Option<FileFault>> {
        names_of(self.meta.scripts(kind).variants@).map_values(
            |v: Seq<char>|
                self.script_fault(
                    kind,
                    v,
                    listed(files, self.script_text(kind, v, ".sh"@)),
                    listed(files, self.script_text(kind, v, ".py"@)),
                ),
        )
    }

    /// What stands against the file of each optionlist.
    pub open spec fn optionlist_faults(self, files: Seq<String>) -> Seq<Option<FileFault>> {
        views(self.meta.variants.optionlist.variants@).map_values(
            |v: Seq<char>|
                if listed(files, self.optionlist_text(v)) {
                    None
                } else {
                    Some(FileFault::NoOptionlist(self.name@, v, self.optionlist_text(v)))
                },
        )
    }

    /// What stands against the machine's files, given those that are there: of the submit scripts,
    /// the run scripts and the optionlists, in that order, the first.
    pub open spec fn file_fault(self, files: Seq<String>) -> Option<FileFault> {
        let submit = first_fault(self.script_faults(ScriptKind::Submit, files));
        let run = first_fault(self.script_faults(ScriptKind::Run, files));
        if submit is Some {
            submit
        } else if run is Some {
            run
        } else {
            first_fault(self.optionlist_faults(files))
        }
    }

    fn check_scripts(&self, kind: ScriptKind, files: &Vec<String>) -> (r: Result<(), FileError>)
        ensures
            match first_fault(self.script_faults(kind, files@)) {
                Some(f) => r is Err && r->Err_0@ == f,
                None => r is Ok,
            },
    {
        let ghost faults = self.script_faults(kind, files@);
        let ghost p = faulty(faults);
        let scripts = self.meta.script_variants(kind);
        let mut i: usize = 0;
        while i < scripts.variants.len()
            invariant
                i <= scripts.variants@.len(),
                *scripts == self.meta.scripts(kind),
                faults == self.script_faults(kind, files@),
                p == faulty(faults),
                forall|j: int| 0 <= j < i ==> !(#[trigger] p(j)),
            decreases scripts.variants@.len() - i,
        {
            let variant = scripts.variants.name_at(i);
            assert(names_of(scripts.variants@)[i as int] == variant@);
            let has_sh = is_listed(files, &self.script_file(kind, variant, ".sh"));
            let has_py = is_listed(files, &self.script_file(kind, variant, ".py"));
            match self.script_path(kind, variant, has_sh, has_py) {
                Ok(_) => {},
                Err(e) => {
                    proof {
                        assert(p(i as int));
                        lemma_first_from_is(0, faults.len() as int, p, i as int);
                    }
                    return Err(e);
                },
            }
            assert(!p(i as int));
            i += 1;
        }
        proof {
            lemma_first_from_is(0, faults.len() as int, p, faults.len() as int);
        }
        Ok(())
    }

    /// Checks that every variant that the machine declares has its file, given the files that are
    /// there.
    pub fn validate_files(&self, files: &Vec<String>) -> (r: Result<(), FileError>)
        ensures
            match self.file_fault(files@) {
                Some(f) => r is Err && r->Err_0@ == f,
                None => r is Ok,
            },
    {
        match self.check_scripts(ScriptKind::Submit, files) {
            Ok(()) => {},
            Err(e) => {
                return Err(e);
            },
        }
        match self.check_scripts(ScriptKind::Run, files) {
            Ok(()) => {},
            Err(e) => {
                return Err(e);
            },
        }
        let ghost faults = self.optionlist_faults(files@);
        let ghost p = faulty(faults);
        let names = &self.meta.variants.optionlist.variants;
        let mut i: usize = 0;
        while i < names.len()
            invariant
                i <= names@.len(),
                names@ == self.meta.variants.optionlist.variants@,
                faults == self.optionlist_faults(files@),
                p == faulty(faults),
                forall|j: int| 0 <= j < i ==> !(#[trigger] p(j)),
                first_fault(self.script_faults(ScriptKind::Submit, files@)) is None,
                first_fault(self.script_faults(ScriptKind::Run, files@)) is None,
            decreases names@.len() - i,
        {
            let path = self.optionlist_path(&names[i]);
            assert(views(names@)[i as int] == names@[i as int]@);
            if !is_listed(files, &path) {
                proof {
                    assert(p(i as int));
                    lemma_first_from_is(0, faults.len() as int, p, i as int);
                }
                return Err(FileError::NoOptionlist(self.name.clone(), names[i].clone(), path));
            }
            assert(!p(i as int));
            i += 1;
        }
        proof {
            lemma_first_from_is(0, faults.len() as int, p, faults.len() as int);
        }
        Ok(())
    }

    /// The optionlist of a build: the one that is named, the only one, or the only one whose header
    /// marks it as the default. `marked` names those.
    pub fn select_optionlist(&self, named: Option<&str>, marked: &Vec<String>) -> (r: Result<
        String,
        OptionlistChoiceError,
    >)
        ensures
            match optionlist_choice(
                self.name@,
                views(self.meta.variants.optionlist.variants@),
                marked@,
                match named {
                    Some(n) => Some(n@),
                    None => None,
                },
            ) {
                Ok(v) => r is Ok && r->Ok_0@ == v,
                Err(f) => r is Err && r->Err_0@ == f,
            },
    {
        let list = &self.meta.variants.optionlist.variants;
        if let Some(name) = named {
            proof {
                lemma_listed(list@, name@);
            }
            return if is_listed(list, name) {
                Ok(name.to_owned())
            } else {
                Err(OptionlistChoiceError::Unknown(name.to_owned(), copy_list(list)))
            };
        }
        if list.len() == 1 {
            return Ok(list[0].clone());
        }
        let defaults = keep_marked(list, marked);
        assert(defaults@.len() == views(defaults@).len());
        if defaults.len() == 1 {
            assert(views(defaults@)[0] == defaults@[0]@);
            Ok(defaults[0].clone())
        } else if list.len() == 0 {
            Err(OptionlistChoiceError::NoneListed(self.name.clone()))
        } else if defaults.len() == 0 {
            Err(OptionlistChoiceError::NoDefault(self.name.clone(), copy_list(list)))
        } else {
            Err(OptionlistChoiceError::ManyDefaults(self.name.clone(), defaults))
        }
    }

    /// A machine from its `meta.toml`, checked, and with what its hardware lacks filled in where
    /// the host's has to be looked up.
    pub fn load(name: &str, dir: &str, layer: Layer, meta: Meta, found: &DetectedHardware) -> (r: Result<
        Machine,
        MachineError,
    >)
        ensures
            match crate::mdb::validate::meta_fault(meta) {
                Some(f) => r matches Err(e) && e.machine@ == name@ && e.error@ == f,
                None => r matches Ok(m) && {
                    &&& m.name@ == name@
                    &&& m.dir@ == dir@
                    &&& m.layer == layer
                    &&& m.meta == (Meta {
                        hardware: if wants_detection(meta) {
                            completed(meta.hardware, *found)
                        } else {
                            meta.hardware
                        },
                        ..meta
                    })
                },
            },
    {
        match meta.validate(name) {
            Ok(()) => {},
            Err(e) => {
                return Err(e);
            },
        }
        let mut meta = meta;
        if needs_detection(&meta) {
            meta.hardware = complete(&meta.hardware, found);
        }
        Ok(Machine { name: name.to_owned(), dir: dir.to_owned(), layer, meta })
    }
}

/// The positions of the faults.
pub open spec fn faulty(faults: Seq<Option<FileFault>>) -> spec_fn(int) -> bool {
    |i: int| faults[i] is Some
}

/// The first fault, if there is any.
pub open spec fn first_fault(faults: Seq<Option<FileFault>>) -> Option<FileFault> {
    let k = first_where(faults.len() as int, faulty(faults));
    if k < faults.len() {
        faults[k]
    } else {
        None
    }
}

/// The name of the user: `USER`, or else `LOGNAME`, of the environment.
pub open spec fn user_of(env: Seq<(Seq<char>, String)>) -> Seq<char> {
    if has_name(env, "USER"@) {
        value_of(env, "USER"@)@
    } else if has_name(env, "LOGNAME"@) {
        value_of(env, "LOGNAME"@)@
    } else {
        "unknown"@
    }
}

/// The name of the user, from the environment.
pub fn whoami(env: &Table<String>) -> (r: String)
    ensures
        r@ == user_of(env@),
{
    match env.get("USER") {
        Some(u) => u.clone(),
        None => match env.get("LOGNAME") {
            Some(u) => u.clone(),
            None => "unknown".to_owned(),
        },
    }
}

/// The texts that a machine's paths are filled in with: the user's name.
pub open spec fn path_texts(env: Seq<(Seq<char>, String)>) -> Texts {
    seq![("USER"@, user_of(env))]
}

/// The variables that a machine's paths are filled in with: `USER`, beside the environment.
pub fn path_vars(env: Table<String>) -> (r: VarSet)
    ensures
        r.texts() == path_texts(env@),
        r.env == env,
{
    let user = whoami(&env);
    let mut vars = VarSet::new();
    vars.env = env;
    vars.set("USER", text_value(&user));
    assert(vars.texts() =~= path_texts(env@));
    vars
}

/// A machine that the user has comes from the user's layer, whatever else has it; else one that is
/// handed out comes from there; the generic machine is there wherever it is built in; and nothing else
/// is.
pub proof fn the_users_machines_win(system: Seq<String>, user: Seq<String>, builtin: bool, name: Seq<char>)
    ensures
        listed(user, name) ==> layer_of(system, user, builtin, name) == Some(Layer::User),
        !listed(user, name) && listed(system, name) ==> layer_of(system, user, builtin, name) == Some(Layer::System),
        !listed(user, GENERIC@) ==> layer_of(system, user, true, GENERIC@) == Some(Layer::System),
        !listed(user, name) && !listed(system, name) && name != GENERIC@ ==> layer_of(system, user, builtin, name)
            is None,
        !listed(user, name) && !listed(system, name) ==> layer_of(system, user, false, name) is None,
        GENERIC@ == seq!['g', 'e', 'n', 'e', 'r', 'i', 'c'],
{
    reveal_strlit("generic");
    assert(GENERIC@ =~= seq!['g', 'e', 'n', 'e', 'r', 'i', 'c']);
}

/// A generation that is written down is read back, with blanks around it or a plus sign before it;
/// no text holds the generation zero or one with too many digits.
pub proof fn generations_read_back(text: Seq<char>, n: nat)
    requires
        trimmed(text) == decimal_of(n) || trimmed(text) == seq!['+'] + decimal_of(n),
    ensures
        generation_in(text) == (if 1 <= n <= u32::MAX {
            Some(n as u32)
        } else {
            None
        }),
{
    decimal_reads_back(n);
    let t = trimmed(text);
    if t == decimal_of(n) {
        assert(is_digit(t[0]));
    } else {
        assert(t.skip(1) =~= decimal_of(n));
    }
}

/// A database is refused where it is of another generation than the one that is read, and what is
/// said names both; one of the same generation, or of none that is known, is not.
pub proof fn other_generations_are_refused(root: Seq<char>, found: u32, want: u32)
    ensures
        generation_fault(root, None, want) is None,
        generation_fault(root, Some(want), want) is None,
        found != want ==> generation_fault(root, Some(found), want) == Some(
            GenerationFault::Other(root, found as nat, want as nat),
        ),
{
}

/// The generation of a machine of the user's is the number under `mdb-generation` in its table
/// `cactup`; one that is no number, or out of range, is of no use; without the table or the entry there
/// is nothing on record.
pub proof fn recorded_generations_are_read_by_key(
    entries: Seq<(Seq<char>, Toml)>,
    own: Seq<(Seq<char>, Toml)>,
    n: u32,
    other: Toml,
)
    ensures
        recorded_in(Toml::Dict(entries)) == Recorded::Generation(n) <==> {
            &&& field(entries, "cactup"@) is Some
            &&& field(entries, "cactup"@)->0 is Dict
            &&& field(field(entries, "cactup"@)->0->Dict_0, "mdb-generation"@) == Some(Toml::Int(n as int))
        },
        field(entries, "cactup"@) is None ==> recorded_in(Toml::Dict(entries)) == Recorded::Nothing,
        field(entries, "cactup"@) == Some(Toml::Dict(own)) && field(own, "mdb-generation"@) is None ==> recorded_in(
            Toml::Dict(entries),
        ) == Recorded::Nothing,
        field(entries, "cactup"@) == Some(Toml::Dict(own)) && field(own, "mdb-generation"@) == Some(other) && (
        other !is Int || other->Int_0 < 0 || other->Int_0 > u32::MAX) ==> recorded_in(Toml::Dict(entries))
            == Recorded::Unusable,
{
}

/// The host is looked at where the machine asks for it, or where some queue has neither a number of
/// cores of its own nor the machine's, or neither a memory of its own nor the machine's. A machine that
/// says both needs nothing for its queues' sake.
pub proof fn missing_hardware_is_looked_up(meta: Meta, k: int)
    ensures
        meta.hardware.autodetect ==> wants_detection(meta),
        0 <= k < meta.queues@.len() && meta.queues@[k].1.max_cpus_per_node is None
            && meta.hardware.max_cpus_per_node is None ==> wants_detection(meta),
        0 <= k < meta.queues@.len() && meta.queues@[k].1.memory is None && meta.hardware.memory is None
            ==> wants_detection(meta),
        !meta.hardware.autodetect && meta.hardware.max_cpus_per_node is Some && meta.hardware.memory is Some
            ==> !wants_detection(meta),
        !meta.hardware.autodetect && (forall|i: int|
            0 <= i < meta.queues@.len() ==> (#[trigger] meta.queues@[i]).1.max_cpus_per_node is Some
                && meta.queues@[i].1.memory is Some) ==> !wants_detection(meta),
{
    if 0 <= k < meta.queues@.len() {
        let q = meta.queues@[k];
    }
}

/// What a machine does not say of its hardware is what was found on the host, each in its place; what
/// is not looked for stays as the machine says it.
pub proof fn gaps_are_filled_from_the_host(hw: Hardware, found: DetectedHardware)
    ensures
        hw.max_cpus_per_node is None ==> completed(hw, found).max_cpus_per_node == Some(found.cores),
        hw.memory is None ==> completed(hw, found).memory == found.memory_mb,
        hw.max_gpus_per_node is None ==> completed(hw, found).max_gpus_per_node == found.gpus,
        hw.threads_per_cpu is None ==> completed(hw, found).threads_per_cpu == found.threads_per_cpu,
        completed(hw, found).autodetect == hw.autodetect,
        completed(hw, found).default_cpus_per_task == hw.default_cpus_per_task,
        completed(hw, found).default_gpus_per_task == hw.default_gpus_per_task,
{
}

/// The names that are marked are those of the list that are among the marked ones, in the list's
/// order.
pub proof fn marked_names_keep_their_order(a: Seq<Seq<char>>, name: Seq<char>, marked: Seq<String>)
    ensures
        marked_of(a + seq![name], marked) == (if listed(marked, name) {
            marked_of(a, marked) + seq![name]
        } else {
            marked_of(a, marked)
        }),
        marked_of(Seq::empty(), marked) == Seq::<Seq<char>>::empty(),
        forall|x: Seq<char>| #[trigger] marked_of(a, marked).contains(x) <==> a.contains(x) && listed(marked, x),
    decreases a.len(),
{
    let all = a + seq![name];
    assert(all.drop_last() =~= a);
    assert(marked_of(a, marked).push(name) =~= marked_of(a, marked) + seq![name]);
    if a.len() == 0 {
        assert(marked_of(a, marked) =~= Seq::empty());
    } else {
        let front = a.drop_last();
        let last = a.last();
        let m = marked_of(front, marked);
        marked_names_keep_their_order(front, last, marked);
        assert forall|x: Seq<char>| #[trigger] marked_of(a, marked).contains(x) <==> a.contains(x) && listed(
            marked,
            x,
        ) by {
            assert(m.contains(x) <==> front.contains(x) && listed(marked, x));
            assert(a =~= front.push(last));
            if a.contains(x) {
                let i = choose|i: int| 0 <= i < a.len() && a[i] == x;
                if i < front.len() {
                    assert(front[i] == x);
                }
            }
            if front.contains(x) {
                let i = choose|i: int| 0 <= i < front.len() && front[i] == x;
                assert(a[i] == x);
            }
            assert(a[a.len() - 1] == last);
            if m.contains(x) {
                let i = choose|i: int| 0 <= i < m.len() && m[i] == x;
                assert(m.push(last)[i] == x);
            }
            assert(m.push(last)[m.len() as int] == last);
            if m.push(last).contains(x) {
                let i = choose|i: int| 0 <= i < m.push(last).len() && m.push(last)[i] == x;
                if i < m.len() {
                    assert(m[i] == x);
                }
            }
        }
    }
}

/// The optionlist that is named is used, marked or not, or refused where there is none of the name.
/// Without a name, the only one is used, marked or not; else the only marked one is. Whichever is used
/// is in the list.
pub proof fn named_optionlists_are_used(
    machine: Seq<char>,
    list: Seq<Seq<char>>,
    marked: Seq<String>,
    name: Seq<char>,
)
    ensures
        list.contains(name) ==> optionlist_choice(machine, list, marked, Some(name)) == Ok::<_, OptionlistFault>(name),
        !list.contains(name) ==> optionlist_choice(machine, list, marked, Some(name)) == Err::<Seq<char>, _>(
            OptionlistFault::Unknown(name, list),
        ),
        list == seq![name] ==> optionlist_choice(machine, list, marked, None) == Ok::<_, OptionlistFault>(name),
        list.len() > 1 && marked_of(list, marked) == seq![name] ==> optionlist_choice(machine, list, marked, None) == Ok::<
            _,
            OptionlistFault,
        >(name),
        optionlist_choice(machine, list, marked, None) == Ok::<_, OptionlistFault>(name) ==> list.contains(name) && (
        list.len() == 1 || listed(marked, name)),
        list.len() == 0 ==> optionlist_choice(machine, list, marked, None) == Err::<Seq<char>, _>(
            OptionlistFault::NoneListed(machine),
        ),
        list.len() > 1 && (forall|x: Seq<char>| list.contains(x) ==> !(#[trigger] listed(marked, x)))
            ==> optionlist_choice(machine, list, marked, None) == Err::<Seq<char>, _>(
            OptionlistFault::NoDefault(machine, list),
        ),
        list.len() > 1 && marked_of(list, marked).len() > 1 ==> optionlist_choice(machine, list, marked, None) == Err::<
            Seq<char>,
            _,
        >(OptionlistFault::ManyDefaults(machine, marked_of(list, marked))),
{
    let m = marked_of(list, marked);
    marked_names_keep_their_order(list, name, marked);
    assert(m.len() > 0 ==> m.contains(m[0]));
    assert(list.len() > 0 ==> list.contains(list[0]));
    if list.len() == 0 {
        assert(list =~= Seq::empty());
    }
}

/// A script variant has one file, with either ending, in the directory of its kind: what is said
/// where it has both or none names the two paths.
pub proof fn scripts_have_one_file(m: Machine, variant: Seq<char>, kind: ScriptKind, has_sh: bool, has_py: bool)
    ensures
        m.script_fault(kind, variant, has_sh, has_py) is None <==> has_sh != has_py,
        m.script_fault(kind, variant, true, true) == Some(
            FileFault::Both(
                m.name@,
                m.script_text(kind, variant, seq!['.', 's', 'h']),
                m.script_text(kind, variant, seq!['.', 'p', 'y']),
            ),
        ),
        m.script_fault(kind, variant, false, false) == Some(
            FileFault::Neither(
                m.name@,
                kind.dir_text(),
                variant,
                m.script_text(kind, variant, seq!['.', 's', 'h']),
                m.script_text(kind, variant, seq!['.', 'p', 'y']),
            ),
        ),
        m.script_text(ScriptKind::Submit, variant, seq!['.', 's', 'h']) == path_of(
            path_of(m.dir@, "submitscripts"@),
            variant + seq!['.', 's', 'h'],
        ),
        m.script_text(ScriptKind::Run, variant, seq!['.', 's', 'h']) == path_of(
            path_of(m.dir@, "runscripts"@),
            variant + seq!['.', 's', 'h'],
        ),
{
    reveal_strlit(".sh");
    reveal_strlit(".py");
    assert(".sh"@ =~= seq!['.', 's', 'h']);
    assert(".py"@ =~= seq!['.', 'p', 'y']);
}

/// A machine's files are as they have to be exactly where every script variant of either kind has one
/// of its two files, and every optionlist its file.
pub proof fn sound_machines_have_their_files(m: Machine, files: Seq<String>)
    ensures
        m.file_fault(files) is None <==> {
            &&& forall|i: int|
                0 <= i < m.meta.scripts(ScriptKind::Submit).variants@.len() ==> one_file(
                    m,
                    ScriptKind::Submit,
                    (#[trigger] m.meta.scripts(ScriptKind::Submit).variants@[i]).0,
                    files,
                )
            &&& forall|i: int|
                0 <= i < m.meta.scripts(ScriptKind::Run).variants@.len() ==> one_file(
                    m,
                    ScriptKind::Run,
                    (#[trigger] m.meta.scripts(ScriptKind::Run).variants@[i]).0,
                    files,
                )
            &&& forall|i: int|
                0 <= i < m.meta.variants.optionlist.variants@.len() ==> listed(
                    files,
                    path_of(
                        path_of(m.dir@, "optionlists"@),
                        (#[trigger] m.meta.variants.optionlist.variants@[i])@ + ".toml"@,
                    ),
                )
        },
{
    lemma_script_faults(m, ScriptKind::Submit, files);
    lemma_script_faults(m, ScriptKind::Run, files);
    let names = m.meta.variants.optionlist.variants@;
    let faults = m.optionlist_faults(files);
    assert(faults.len() == names.len());
    assert forall|i: int| 0 <= i < names.len() implies ((#[trigger] faults[i]) is None) == listed(
        files,
        m.optionlist_text(names[i]@),
    ) by {
        assert(views(names)[i] == names[i]@);
    }
    first_faults_come_first(faults);
    if first_fault(faults) is None {
        assert forall|i: int| 0 <= i < names.len() implies listed(
            files,
            path_of(path_of(m.dir@, "optionlists"@), (#[trigger] names[i])@ + ".toml"@),
        ) by {
            assert(faults[i] is None);
        }
    } else {
        let k = choose|k: int| 0 <= k < faults.len() && (#[trigger] faults[k]) is Some;
        assert(!listed(files, m.optionlist_text(names[k]@)));
    }
}

/// Whether a script variant has one of its two files, and not the other.
pub open spec fn one_file(m: Machine, kind: ScriptKind, variant: Seq<char>, files: Seq<String>) -> bool {
    listed(files, m.script_text(kind, variant, ".sh"@)) != listed(files, m.script_text(kind, variant, ".py"@))
}

/// The first of the faults is one that no fault comes before, and there is one wherever there is any.
pub proof fn first_faults_come_first(faults: Seq<Option<FileFault>>)
    ensures
        first_fault(faults) is None <==> forall|i: int| 0 <= i < faults.len() ==> (#[trigger] faults[i]) is None,
        first_fault(faults) is Some ==> exists|k: int|
            {
                &&& 0 <= k < faults.len()
                &&& #[trigger] faults[k] == first_fault(faults)
                &&& forall|j: int| 0 <= j < k ==> (#[trigger] faults[j]) is None
            },
        first_fault(faults) is Some ==> exists|k: int| 0 <= k < faults.len() && (#[trigger] faults[k]) is Some,
{
    let n = faults.len() as int;
    let p = faulty(faults);
    crate::search::lemma_first_from(0, n, p);
    let k = first_where(n, p);
    assert forall|j: int| 0 <= j < k implies (#[trigger] faults[j]) is None by {
        assert(!p(j));
    }
    if k < n {
        assert(p(k));
        assert(faults[k] == first_fault(faults));
    }
}

proof fn lemma_script_faults(m: Machine, kind: ScriptKind, files: Seq<String>)
    ensures
        first_fault(m.script_faults(kind, files)) is None <==> forall|i: int|
            0 <= i < m.meta.scripts(kind).variants@.len() ==> one_file(
                m,
                kind,
                (#[trigger] m.meta.scripts(kind).variants@[i]).0,
                files,
            ),
{
    let all = m.meta.scripts(kind).variants@;
    let faults = m.script_faults(kind, files);
    assert(faults.len() == all.len());
    assert forall|i: int| 0 <= i < all.len() implies ((#[trigger] faults[i]) is None) == one_file(
        m,
        kind,
        all[i].0,
        files,
    ) by {
        assert(names_of(all)[i] == all[i].0);
    }
    first_faults_come_first(faults);
    if first_fault(faults) is None {
        assert forall|i: int| 0 <= i < all.len() implies one_file(m, kind, (#[trigger] all[i]).0, files) by {
            assert(faults[i] is None);
        }
    } else {
        let k = choose|k: int| 0 <= k < faults.len() && (#[trigger] faults[k]) is Some;
        assert(!one_file(m, kind, all[k].0, files));
    }
}

/// What is wrong with a machine's submit scripts is said first, then what is wrong with its run
/// scripts, and then what is wrong with its optionlists.
pub proof fn submit_scripts_are_looked_at_first(m: Machine, files: Seq<String>)
    ensures
        first_fault(m.script_faults(ScriptKind::Submit, files)) is Some ==> m.file_fault(files) == first_fault(
            m.script_faults(ScriptKind::Submit, files),
        ),
        first_fault(m.script_faults(ScriptKind::Submit, files)) is None && first_fault(
            m.script_faults(ScriptKind::Run, files),
        ) is Some ==> m.file_fault(files) == first_fault(m.script_faults(ScriptKind::Run, files)),
        first_fault(m.script_faults(ScriptKind::Submit, files)) is None && first_fault(
            m.script_faults(ScriptKind::Run, files),
        ) is None ==> m.file_fault(files) == first_fault(m.optionlist_faults(files)),
{
}

/// The user's name is the variable `USER` where there is one, whatever `LOGNAME` is; else `LOGNAME`.
/// A machine's paths have that name under `USER`, and no other variable but the environment's.
pub proof fn users_are_named_by_the_environment(env: Seq<(Seq<char>, String)>)
    ensures
        has_name(env, "USER"@) ==> user_of(env) == value_of(env, "USER"@)@,
        !has_name(env, "USER"@) && has_name(env, "LOGNAME"@) ==> user_of(env) == value_of(env, "LOGNAME"@)@,
        !has_name(env, "USER"@) && !has_name(env, "LOGNAME"@) ==> user_of(env) == "unknown"@,
        has_name(path_texts(env), "USER"@),
        value_of(path_texts(env), "USER"@) == user_of(env),
        forall|name: Seq<char>| name != "USER"@ ==> !(#[trigger] has_name(path_texts(env), name)),
{
    let t = path_texts(env);
    assert(t[0].0 == "USER"@);
    crate::table::lemma_place(t, 0);
}

} // verus!
