//! One line per unit of work: which of the phases that are reported underneath names the line, and
//! which fills its bar.

use crate::text::{
    cat2, cat4, chars_of, decimal, decimal_of, same, string_of, trim, trimmed, views,
};
use vstd::prelude::*;

verus! {

/// How deep below a line a child may still name it or fill its bar.
pub const MAX_PHASE_DEPTH: u8 = 1;

/// What a child of a line may do to it.
#[derive(Debug, Clone, Copy, PartialEq, Eq, Structural)]
pub enum Role {
    /// Name it, and fill its bar.
    Drive,
    /// Name it.
    Label,
    /// Nothing.
    Mute,
}

/// What a child of a name may do, and the name that is shown in place of its own.
pub open spec fn role_by_name(name: Seq<char>) -> (Role, Option<Seq<char>>) {
    if name == "remote"@ {
        (Role::Drive, None)
    } else if name == "read pack"@ {
        (Role::Drive, Some("receiving pack"@))
    } else if name == "create index file"@ {
        (Role::Label, Some("indexing pack"@))
    } else if name == "checkout"@ {
        (Role::Drive, Some("checking out"@))
    } else if name == "writing"@ {
        (Role::Mute, None)
    } else {
        (Role::Label, None)
    }
}

/// The text behind an optional literal.
pub open spec fn fixed_view(s: Option<&'static str>) -> Option<Seq<char>> {
    match s {
        Some(t) => Some(t@),
        None => None,
    }
}

/// What a child of a name may do, and the name that is shown in place of its own. One that is not
/// known may name the line, but never fills a bar.
pub fn role_of(name: &str) -> (r: (Role, Option<&'static str>))
    ensures
        (r.0, fixed_view(r.1)) == role_by_name(name@),
{
    if same(name, "remote") {
        (Role::Drive, None)
    } else if same(name, "read pack") {
        (Role::Drive, Some("receiving pack"))
    } else if same(name, "create index file") {
        (Role::Label, Some("indexing pack"))
    } else if same(name, "checkout") {
        (Role::Drive, Some("checking out"))
    } else if same(name, "writing") {
        (Role::Mute, None)
    } else {
        (Role::Label, None)
    }
}

/// The depth below one of so much.
pub open spec fn deeper(depth: u8) -> u8 {
    if depth < u8::MAX {
        (depth + 1) as u8
    } else {
        depth
    }
}

/// What a child of a name below a handle of some depth may do; all that is deeper than the phases is
/// mute.
pub fn child_role(depth: u8, name: &str) -> (r: (u8, Role, Option<&'static str>))
    ensures
        r.0 == deeper(depth),
        if deeper(depth) <= MAX_PHASE_DEPTH {
            (r.1, fixed_view(r.2)) == role_by_name(name@)
        } else {
            r.1 == Role::Mute && r.2 is None
        },
{
    let below: u8 = if depth < 255 { depth + 1 } else { depth };
    if below <= MAX_PHASE_DEPTH {
        let (role, fixed) = role_of(name);
        (below, role, fixed)
    } else {
        (below, Role::Mute, None)
    }
}

/// How wide the column of names may grow.
pub const MAX_NAME_COLUMN: usize = 24;

/// The columns of a batch of lines.
#[derive(Debug, Clone, Copy)]
pub struct Layout {
    /// The width of the column of names.
    pub name: usize,
    /// Whether escapes for colors may be written.
    pub colours: bool,
}

/// The length of the longest of several texts.
pub open spec fn longest(names: Seq<Seq<char>>) -> nat
    decreases names.len(),
{
    if names.len() == 0 {
        0
    } else if names.last().len() > longest(names.drop_last()) {
        names.last().len()
    } else {
        longest(names.drop_last())
    }
}

/// So many blanks.
pub open spec fn blanks(n: nat) -> Seq<char> {
    Seq::new(n, |i: int| ' ')
}

fn push_blanks(out: &mut String, n: usize)
    ensures
        final(out)@ == old(out)@ + blanks(n as nat),
{
    let mut i: usize = 0;
    assert(out@ + blanks(0) =~= out@);
    while i < n
        invariant
            i <= n,
            out@ == old(out)@ + blanks(i as nat),
        decreases n - i,
    {
        out.push(' ');
        i += 1;
        assert(old(out)@ + blanks(i as nat) =~= (old(out)@ + blanks((i - 1) as nat)).push(' '));
    }
}

impl Layout {
    /// How many blanks fill the column behind a name.
    pub open spec fn gap(self, name: Seq<char>) -> nat {
        if name.len() < self.name {
            (self.name - name.len()) as nat
        } else {
            0
        }
    }

    /// A line's name for a phase: the name of the work, in its column, and the phase behind it. Where
    /// colors are written, the emphasis ends behind the column.
    pub open spec fn labelled(self, name: Seq<char>, phase: Seq<char>) -> Seq<char> {
        name + blanks(self.gap(name)) + (if self.colours {
            "\x1b[m"@
        } else {
            ""@
        }) + (if phase.len() == 0 {
            ""@
        } else {
            "  "@ + phase
        })
    }

    /// The columns of a batch of lines of these names: as wide as the widest, up to a limit.
    pub fn for_names(names: &Vec<String>, colours: bool) -> (r: Layout)
        ensures
            r.colours == colours,
            r.name == (if longest(views(names@)) > MAX_NAME_COLUMN {
                MAX_NAME_COLUMN as nat
            } else {
                longest(views(names@))
            }),
    {
        let ghost all = views(names@);
        let mut widest: usize = 0;
        let mut i: usize = 0;
        assert(all.take(0) =~= Seq::empty());
        while i < names.len()
            invariant
                i <= names@.len(),
                all == views(names@),
                widest == longest(all.take(i as int)),
            decreases names@.len() - i,
        {
            assert(all.take(i + 1).drop_last() =~= all.take(i as int));
            let n: usize = chars_of(&names[i]).len();
            if n > widest {
                widest = n;
            }
            i += 1;
        }
        assert(all.take(i as int) =~= all);
        Layout { name: if widest > MAX_NAME_COLUMN { MAX_NAME_COLUMN } else { widest }, colours }
    }

    /// A line's name where it has no phase.
    pub fn headline(&self, name: &str) -> (r: String)
        ensures
            r@ == self.labelled(name@, ""@),
    {
        self.label(name, "")
    }

    fn gap_of(&self, name: &str) -> (r: usize)
        ensures
            r == self.gap(name@),
    {
        let n: usize = chars_of(name).len();
        if n < self.name {
            self.name - n
        } else {
            0
        }
    }

    /// The name under which a line is left in the history, such that its columns are those of the
    /// lines above.
    pub fn origin(&self, name: &str) -> (r: String)
        requires
            self.name < usize::MAX,
        ensures
            r@ == " "@ + name@ + blanks(self.gap(name@) + 1),
    {
        let mut out = cat2(" ", name);
        push_blanks(&mut out, self.gap_of(name) + 1);
        out
    }

    /// A line's name for a phase.
    pub fn label(&self, name: &str, phase: &str) -> (r: String)
        ensures
            r@ == self.labelled(name@, phase@),
    {
        let mut column = name.to_owned();
        push_blanks(&mut column, self.gap_of(name));
        let ending = if self.colours {
            "\x1b[m"
        } else {
            ""
        };
        if phase.is_empty() {
            let r = cat4(&column, ending, "", "");
            proof {
                reveal_strlit("");
                assert(r@ =~= self.labelled(name@, phase@));
            }
            r
        } else {
            let r = cat4(&column, ending, "  ", phase);
            assert(r@ =~= self.labelled(name@, phase@));
            r
        }
    }
}

/// On lines of one layout the phases all begin in the same place, whatever the work is called, unless
/// the name is wider than its column.
pub proof fn phases_line_up(layout: Layout, a: Seq<char>, b: Seq<char>)
    requires
        a.len() <= layout.name,
        b.len() <= layout.name,
    ensures
        (a + blanks(layout.gap(a))).len() == (b + blanks(layout.gap(b))).len(),
{
}

/// What stands behind the last colon of a text, blanks aside: all of it where there is none.
pub open spec fn last_action(s: Seq<char>) -> Seq<char> {
    trimmed(behind_last(s, ':'))
}

/// What stands behind the last occurrence of a character; all of it where there is none.
pub open spec fn behind_last(s: Seq<char>, c: char) -> Seq<char>
    decreases s.len(),
{
    if s.len() == 0 || s.last() == c {
        Seq::empty()
    } else {
        behind_last(s.drop_last(), c).push(s.last())
    }
}

/// The action that a phase's name ends in: a chain of actions, with colons between them, is named
/// for the last.
pub fn current_action(phase: &str) -> (r: String)
    ensures
        r@ == last_action(phase@),
{
    let cs = chars_of(phase);
    let mut k: usize = cs.len();
    assert(cs@.take(k as int) =~= cs@);
    assert(cs@.skip(k as int) =~= Seq::empty());
    while k > 0 && cs[k - 1] != ':'
        invariant
            k <= cs@.len(),
            cs@ == phase@,
            behind_last(phase@, ':') == behind_last(cs@.take(k as int), ':') + cs@.skip(k as int),
        decreases k,
    {
        proof {
            let whole = cs@.take(k as int);
            assert(whole.drop_last() =~= cs@.take(k - 1));
            assert(whole.last() == cs@[k - 1]);
            assert(behind_last(cs@.take(k - 1), ':').push(cs@[k - 1]) + cs@.skip(k as int) =~= behind_last(
                cs@.take(k - 1),
                ':',
            ) + cs@.skip(k - 1));
        }
        k -= 1;
    }
    proof {
        let whole = cs@.take(k as int);
        if k > 0 {
            assert(whole.last() == ':');
        }
        assert(behind_last(whole, ':') =~= Seq::empty());
        assert(Seq::<char>::empty() + cs@.skip(k as int) =~= cs@.skip(k as int));
    }
    let tail = string_of(&cs, k, cs.len());
    assert(tail@ =~= cs@.skip(k as int));
    trim(&tail)
}

/// The shape of a bar: how far it goes, and the number under which its unit is kept, as far as these
/// are known.
pub type Shape = (Option<usize>, Option<usize>);

/// A phase of the work on a line.
#[derive(Debug)]
pub struct Phase {
    pub token: u64,
    /// It may fill the bar.
    pub drives: bool,
    /// It may change its name.
    pub live_name: bool,
    pub name: String,
    /// The shape that it has announced; it is drawn once the phase moves.
    pub announced: Option<Shape>,
}

/// A phase, as values.
pub struct PhaseState {
    pub token: u64,
    pub drives: bool,
    pub live_name: bool,
    pub name: Seq<char>,
    pub announced: Option<Shape>,
}

impl View for Phase {
    type V = PhaseState;

    open spec fn view(&self) -> PhaseState {
        PhaseState {
            token: self.token,
            drives: self.drives,
            live_name: self.live_name,
            name: self.name@,
            announced: self.announced,
        }
    }
}

/// The phases, as values.
pub open spec fn phase_states(phases: Seq<Phase>) -> Seq<PhaseState> {
    phases.map_values(|p: Phase| p@)
}

/// The state of a line.
#[derive(Debug)]
pub struct Board {
    next_token: u64,
    phases: Vec<Phase>,
    bar: Option<u64>,
    high_water: u64,
    label_high_water: u64,
    root_phase: String,
}

/// The state of a line, as values.
pub struct BoardState {
    /// The token of the next phase.
    pub next: u64,
    /// The phases that are alive, in the order in which they began.
    pub phases: Seq<PhaseState>,
    /// The phase that fills the bar.
    pub bar: Option<u64>,
    /// The newest phase that ever filled the bar.
    pub high: u64,
    /// The newest phase that ever named the line.
    pub label_high: u64,
    /// What the line's own handle was last called.
    pub root: Seq<char>,
}

impl View for Board {
    type V = BoardState;

    closed spec fn view(&self) -> BoardState {
        BoardState {
            next: self.next_token,
            phases: phase_states(self.phases@),
            bar: self.bar,
            high: self.high_water,
            label_high: self.label_high_water,
            root: self.root_phase@,
        }
    }
}

/// Whether a phase of this token is alive.
pub open spec fn alive(phases: Seq<PhaseState>, token: u64) -> bool {
    exists|i: int| 0 <= i < phases.len() && (#[trigger] phases[i]).token == token
}

/// Whether the state of a line is in order: phases stand in the order of their tokens, which are all
/// below the next one, and the bar is filled by a phase that is alive and is the newest that ever
/// filled it.
pub open spec fn in_order(b: BoardState) -> bool {
    &&& forall|i: int, j: int| #![trigger b.phases[i], b.phases[j]]
        0 <= i < j < b.phases.len() ==> b.phases[i].token < b.phases[j].token
    &&& forall|i: int| 0 <= i < b.phases.len() ==> 0 < (#[trigger] b.phases[i]).token < b.next
    &&& b.high < b.next
    &&& b.label_high < b.next
    &&& b.next > 0
    &&& b.bar matches Some(t) ==> t == b.high && alive(b.phases, t)
}

/// The position of the phase of a token; the number of phases where there is none.
pub open spec fn place_of(phases: Seq<PhaseState>, token: u64) -> int
    decreases phases.len(),
{
    if phases.len() == 0 {
        0
    } else if phases[0].token == token {
        0
    } else {
        1 + place_of(phases.skip(1), token)
    }
}

proof fn lemma_place_of(phases: Seq<PhaseState>, token: u64, k: int)
    requires
        0 <= k <= phases.len(),
        forall|i: int| 0 <= i < k ==> (#[trigger] phases[i]).token != token,
        k < phases.len() ==> phases[k].token == token,
    ensures
        place_of(phases, token) == k,
    decreases k,
{
    if k > 0 {
        let rest = phases.skip(1);
        assert(phases[0].token != token);
        assert forall|i: int| 0 <= i < k - 1 implies (#[trigger] rest[i]).token != token by {
            assert(rest[i] == phases[i + 1]);
        }
        lemma_place_of(rest, token, k - 1);
    }
}

proof fn lemma_place_bounds(phases: Seq<PhaseState>, token: u64)
    ensures
        0 <= place_of(phases, token) <= phases.len(),
        place_of(phases, token) < phases.len() ==> phases[place_of(phases, token)].token == token,
    decreases phases.len(),
{
    if phases.len() > 0 && phases[0].token != token {
        lemma_place_bounds(phases.skip(1), token);
    }
}

/// The name that the line shows for its phase, and the line's state after that: the phase that fills
/// the bar names it; where none does, the newest phase, unless a newer one has named it before; and
/// where there is none, the line's own handle, if that is allowed. Nothing where the name stays.
pub open spec fn relabelled(b: BoardState, root_fallback: bool) -> (BoardState, Option<Seq<char>>) {
    let k = if b.bar is Some {
        place_of(b.phases, b.bar->0)
    } else {
        b.phases.len() as int
    };
    if b.bar is Some && k < b.phases.len() {
        let t = b.phases[k].token;
        (
            BoardState {
                label_high: if t > b.label_high {
                    t
                } else {
                    b.label_high
                },
                ..b
            },
            Some(last_action(b.phases[k].name)),
        )
    } else if b.phases.len() > 0 {
        let newest = b.phases.last();
        if newest.token >= b.label_high {
            (BoardState { label_high: newest.token, ..b }, Some(last_action(newest.name)))
        } else {
            (b, None)
        }
    } else if root_fallback {
        (b, Some(last_action(b.root)))
    } else {
        (b, None)
    }
}

/// A line stays in order when its name is decided anew.
proof fn lemma_relabelled(b: BoardState, root_fallback: bool)
    requires
        in_order(b),
    ensures
        in_order(relabelled(b, root_fallback).0),
{
    if b.bar is Some {
        lemma_place_bounds(b.phases, b.bar->0);
        let k = place_of(b.phases, b.bar->0);
        if k < b.phases.len() {
            assert(b.phases[k].token < b.next);
        }
    }
    if b.phases.len() > 0 {
        assert(b.phases[b.phases.len() - 1].token < b.next);
    }
}

/// The phases without the one of a token.
pub open spec fn without(phases: Seq<PhaseState>, token: u64) -> Seq<PhaseState>
    decreases phases.len(),
{
    if phases.len() == 0 {
        phases
    } else if phases.last().token == token {
        without(phases.drop_last(), token)
    } else {
        without(phases.drop_last(), token).push(phases.last())
    }
}

/// The text behind an optional string.
pub open spec fn shown_name(s: Option<String>) -> Option<Seq<char>> {
    match s {
        Some(t) => Some(t@),
        None => None,
    }
}

/// What became of a phase's wish to fill the bar.
#[derive(Debug)]
pub enum Claim {
    /// It has just taken the bar over, whose shape is this now, and whose count starts again; and the
    /// line's name, where it changes.
    JustTaken(Shape, Option<String>),
    /// It has the bar already.
    Drawing,
    /// The bar is another's.
    No,
}

/// Which handle of a line something is reported through.
#[derive(Debug, Clone, Copy, PartialEq, Eq, Structural)]
pub enum Handle {
    /// The line's own.
    Root,
    Phase(u64),
    Muted,
}

/// Whether a phase may take the bar over: it is alive, may fill a bar at all, and is newer than all
/// that ever filled it.
pub open spec fn claimable(b: BoardState, token: u64) -> bool {
    let k = place_of(b.phases, token);
    k < b.phases.len() && b.phases[k].drives && token > b.high
}

/// A line after a phase has taken the bar over.
pub open spec fn taken(b: BoardState, token: u64) -> BoardState {
    BoardState { bar: Some(token), high: token, ..b }
}

impl Board {
    #[verifier::type_invariant]
    spec fn well_formed(self) -> bool {
        in_order(self@)
    }
}

/// The position of the phase of a token; the number of phases where there is none.
fn find_phase(phases: &Vec<Phase>, token: u64) -> (k: usize)
    ensures
        k == place_of(phase_states(phases@), token),
        k <= phases@.len(),
        k < phases@.len() ==> phases@[k as int].token == token,
        alive(phase_states(phases@), token) <==> k < phases@.len(),
{
    let ghost all = phase_states(phases@);
    let mut k: usize = 0;
    while k < phases.len() && phases[k].token != token
        invariant
            k <= phases@.len(),
            all == phase_states(phases@),
            forall|i: int| 0 <= i < k ==> (#[trigger] all[i]).token != token,
        decreases phases@.len() - k,
    {
        assert(all[k as int].token == phases@[k as int].token);
        k += 1;
    }
    proof {
        if k < phases.len() {
            assert(all[k as int].token == phases@[k as int].token);
        }
        lemma_place_of(all, token, k as int);
    }
    k
}

fn copy_phase(p: &Phase) -> (r: Phase)
    ensures
        r@ == p@,
{
    Phase {
        token: p.token,
        drives: p.drives,
        live_name: p.live_name,
        name: p.name.clone(),
        announced: p.announced,
    }
}

/// The newest phase that ever named the line, and the line's name, after it was decided anew.
fn name_line(phases: &Vec<Phase>, bar: Option<u64>, label_high: u64, root: &str, root_fallback: bool) -> (r: (
    u64,
    Option<String>,
))
    ensures
        forall|b: BoardState|
            b.phases == phase_states(phases@) && b.bar == bar && b.label_high == label_high && b.root == root@ ==> (
            #[trigger] relabelled(b, root_fallback)) == (BoardState { label_high: r.0, ..b }, shown_name(r.1)),
{
    let ghost all = phase_states(phases@);
    if let Some(token) = bar {
        let k: usize = find_phase(phases, token);
        if k < phases.len() {
            assert(all[k as int].token == token);
            let high: u64 = if token > label_high { token } else { label_high };
            let name = current_action(&phases[k].name);
            assert(all[k as int].name == phases@[k as int].name@);
            return (high, Some(name));
        }
    }
    if phases.len() > 0 {
        let newest = &phases[phases.len() - 1];
        assert(all.last() == newest@);
        if newest.token >= label_high {
            return (newest.token, Some(current_action(&newest.name)));
        }
        return (label_high, None);
    }
    if root_fallback {
        (label_high, Some(current_action(root)))
    } else {
        (label_high, None)
    }
}

/// A phase that goes leaves the others as they are, in their order.
proof fn lemma_without(phases: Seq<PhaseState>, token: u64)
    ensures
        forall|i: int| 0 <= i < without(phases, token).len() ==> phases.contains(#[trigger] without(phases, token)[i]),
        forall|i: int| 0 <= i < without(phases, token).len() ==> (#[trigger] without(phases, token)[i]).token != token,
        forall|t: u64| t != token && alive(phases, t) ==> #[trigger] alive(without(phases, token), t),
        (forall|i: int, j: int| #![trigger phases[i], phases[j]]
            0 <= i < j < phases.len() ==> phases[i].token < phases[j].token) ==> (forall|i: int, j: int|
            #![trigger without(phases, token)[i], without(phases, token)[j]]
            0 <= i < j < without(phases, token).len() ==> without(phases, token)[i].token < without(phases, token)[j].token),
    decreases phases.len(),
{
    if phases.len() > 0 {
        let rest = phases.drop_last();
        let kept = without(rest, token);
        let out = without(phases, token);
        lemma_without(rest, token);
        let last = phases.len() - 1;
        assert forall|i: int| 0 <= i < out.len() implies phases.contains(#[trigger] out[i]) by {
            if i < kept.len() {
                assert(rest.contains(kept[i]));
                let j = choose|j: int| 0 <= j < rest.len() && rest[j] == kept[i];
                assert(phases[j] == out[i]);
            } else {
                assert(phases[last] == out[i]);
            }
        }
        assert forall|i: int| 0 <= i < out.len() implies (#[trigger] out[i]).token != token by {
            if i < kept.len() {
                assert(kept[i].token != token);
            }
        }
        assert forall|t: u64| t != token && alive(phases, t) implies #[trigger] alive(out, t) by {
            let j = choose|j: int| 0 <= j < phases.len() && (#[trigger] phases[j]).token == t;
            if j < last {
                assert(rest[j].token == t);
                assert(alive(rest, t));
                assert(alive(kept, t));
                let m = choose|m: int| 0 <= m < kept.len() && (#[trigger] kept[m]).token == t;
                assert(out[m].token == t);
            } else {
                assert(out[out.len() - 1].token == t);
            }
        }
        if forall|i: int, j: int| #![trigger phases[i], phases[j]]
            0 <= i < j < phases.len() ==> phases[i].token < phases[j].token {
            assert forall|i: int, j: int| #![trigger rest[i], rest[j]] 0 <= i < j < rest.len() implies rest[i].token
                < rest[j].token by {
                assert(phases[i].token < phases[j].token);
            }
            assert forall|i: int, j: int| #![trigger out[i], out[j]] 0 <= i < j < out.len() implies out[i].token
                < out[j].token by {
                if j < kept.len() {
                    assert(kept[i].token < kept[j].token);
                } else {
                    assert(rest.contains(kept[i]));
                    let m = choose|m: int| 0 <= m < rest.len() && rest[m] == kept[i];
                    assert(phases[m].token < phases[last].token);
                }
            }
        }
    }
}

impl Board {
    /// A line without phases.
    pub fn new() -> (r: Board)
        ensures
            r@ == (BoardState {
                next: 1,
                phases: Seq::empty(),
                bar: None,
                high: 0,
                label_high: 0,
                root: Seq::empty(),
            }),
            in_order(r@),
    {
        let phases: Vec<Phase> = Vec::new();
        let root = String::new();
        assert(phase_states(phases@) =~= Seq::<PhaseState>::empty());
        assert(root@ =~= Seq::<char>::empty());
        Board { next_token: 1, phases, bar: None, high_water: 0, label_high_water: 0, root_phase: root }
    }

    /// Whether there is a token left for another phase.
    pub fn has_room(&self) -> (r: bool)
        ensures
            r == (self@.next < u64::MAX),
    {
        self.next_token < u64::MAX
    }

    /// Takes up a new phase, and gives its token and the line's name, where it changes.
    pub fn add(&mut self, name: &str, drives: bool, live_name: bool) -> (r: (u64, Option<String>))
        requires
            old(self)@.next < u64::MAX,
        ensures
            r.0 == old(self)@.next,
            (final(self)@, shown_name(r.1)) == relabelled(
                BoardState {
                    next: (old(self)@.next + 1) as u64,
                    phases: old(self)@.phases.push(
                        PhaseState { token: old(self)@.next, drives, live_name, name: name@, announced: None },
                    ),
                    ..old(self)@
                },
                true,
            ),
            in_order(final(self)@),
    {
        let mut whole = Board::new();
        std::mem::swap(self, &mut whole);
        proof {
            use_type_invariant(&whole);
        }
        let ghost before = whole@;
        let Board { next_token, mut phases, bar, high_water, label_high_water, root_phase } = whole;
        let token: u64 = next_token;
        let ghost earlier = phases@;
        let phase = Phase { token, drives, live_name, name: name.to_owned(), announced: None };
        phases.push(phase);
        assert(phase_states(phases@) =~= phase_states(earlier).push(phase@));
        let (label_high, shown) = name_line(&phases, bar, label_high_water, &root_phase, true);
        proof {
            let b = BoardState { next: (token + 1) as u64, phases: phase_states(phases@), ..before };
            assert(relabelled(b, true).1 == shown_name(shown));
            let all = phase_states(phases@);
            assert forall|i: int| 0 <= i < all.len() implies 0 < (#[trigger] all[i]).token < token + 1 by {
                if i < earlier.len() {
                    assert(all[i] == before.phases[i]);
                }
            }
            assert forall|i: int, j: int| #![trigger all[i], all[j]] 0 <= i < j < all.len() implies all[i].token
                < all[j].token by {
                assert(all[i] == before.phases[i]);
                if j < earlier.len() {
                    assert(all[j] == before.phases[j]);
                }
            }
            if bar is Some {
                let j = choose|j: int| 0 <= j < before.phases.len() && (#[trigger] before.phases[j]).token == bar->0;
                assert(all[j].token == bar->0);
            }
            lemma_relabelled(b, true);
        }
        *self =
        Board { next_token: token + 1, phases, bar, high_water, label_high_water: label_high, root_phase };
        (token, shown)
    }

    /// Takes leave of a phase that has ended. Gives whether the bar is empty now because of that, and
    /// the line's name, where it changes; that never goes back to what the line's own handle says.
    pub fn remove(&mut self, token: u64) -> (r: (bool, Option<String>))
        ensures
            r.0 == (old(self)@.bar == Some(token)),
            (final(self)@, shown_name(r.1)) == relabelled(
                BoardState {
                    phases: without(old(self)@.phases, token),
                    bar: if old(self)@.bar == Some(token) {
                        None
                    } else {
                        old(self)@.bar
                    },
                    ..old(self)@
                },
                false,
            ),
            in_order(final(self)@),
    {
        let mut whole = Board::new();
        std::mem::swap(self, &mut whole);
        proof {
            use_type_invariant(&whole);
        }
        let ghost before = whole@;
        let Board { next_token, phases, bar, high_water, label_high_water, root_phase } = whole;
        let ghost all = phase_states(phases@);
        let mut kept: Vec<Phase> = Vec::new();
        let mut i: usize = 0;
        assert(all.take(0) =~= Seq::<PhaseState>::empty());
        assert(phase_states(kept@) =~= without(all.take(0), token));
        while i < phases.len()
            invariant
                i <= phases@.len(),
                all == phase_states(phases@),
                phase_states(kept@) == without(all.take(i as int), token),
            decreases phases@.len() - i,
        {
            proof {
                assert(all.take(i + 1).drop_last() =~= all.take(i as int));
                assert(all.take(i + 1).last() == phases@[i as int]@);
            }
            if phases[i].token != token {
                let ghost earlier = kept@;
                let p = copy_phase(&phases[i]);
                kept.push(p);
                assert(phase_states(kept@) =~= phase_states(earlier).push(p@));
            }
            i += 1;
        }
        assert(all.take(i as int) =~= all);
        let cleared = match bar {
            Some(t) => t == token,
            None => false,
        };
        let bar_left: Option<u64> = if cleared { None } else { bar };
        let (label_high, shown) = name_line(&kept, bar_left, label_high_water, &root_phase, false);
        proof {
            lemma_without(all, token);
            let now = phase_states(kept@);
            let b = BoardState { phases: now, bar: bar_left, ..before };
            assert(relabelled(b, false).1 == shown_name(shown));
            assert forall|i: int| 0 <= i < now.len() implies 0 < (#[trigger] now[i]).token < next_token by {
                assert(all.contains(now[i]));
                let j = choose|j: int| 0 <= j < all.len() && all[j] == now[i];
                assert(0 < all[j].token < next_token);
            }
            if bar_left is Some {
                assert(alive(now, bar_left->0));
            }
            lemma_relabelled(b, false);
        }
        *self =
        Board { next_token, phases: kept, bar: bar_left, high_water, label_high_water: label_high, root_phase };
        (cleared, shown)
    }

    /// Whether a phase that moves fills the bar, which it takes over first where the work has moved on
    /// to it.
    pub fn holds_bar(&mut self, token: u64) -> (r: Claim)
        ensures
            if old(self)@.bar == Some(token) {
                r is Drawing && final(self)@ == old(self)@
            } else if !claimable(old(self)@, token) {
                r is No && final(self)@ == old(self)@
            } else {
                r matches Claim::JustTaken(shape, name) && {
                    let k = place_of(old(self)@.phases, token);
                    &&& shape == (match old(self)@.phases[k].announced {
                        Some(s) => s,
                        None => (None, None),
                    })
                    &&& (final(self)@, shown_name(name)) == relabelled(taken(old(self)@, token), true)
                }
            },
            in_order(final(self)@),
    {
        proof {
            use_type_invariant(&*self);
        }
        if let Some(t) = self.bar {
            if t == token {
                return Claim::Drawing;
            }
        }
        let k: usize = find_phase(&self.phases, token);
        proof {
            if k < self.phases@.len() {
                assert(self@.phases[k as int] == self.phases@[k as int]@);
            }
        }
        if k >= self.phases.len() || !self.phases[k].drives || token <= self.high_water {
            return Claim::No;
        }
        let shape: Shape = match self.phases[k].announced {
            Some(s) => s,
            None => (None, None),
        };
        let mut whole = Board::new();
        std::mem::swap(self, &mut whole);
        let ghost before = whole@;
        proof {
            use_type_invariant(&whole);
        }
        let Board { next_token, phases, bar, high_water, label_high_water, root_phase } = whole;
        let (label_high, shown) = name_line(&phases, Some(token), label_high_water, &root_phase, true);
        proof {
            let b = taken(before, token);
            assert(relabelled(b, true).1 == shown_name(shown));
            assert(before.phases[k as int].token == token);
            lemma_relabelled(b, true);
        }
        *self =
        Board {
            next_token,
            phases,
            bar: Some(token),
            high_water: token,
            label_high_water: label_high,
            root_phase,
        };
        Claim::JustTaken(shape, shown)
    }

    /// Remembers the shape of a phase's bar, and gives whether it is to be drawn at once, since the
    /// phase fills the bar.
    pub fn announce(&mut self, token: u64, shape: Shape) -> (r: bool)
        ensures
            r == (old(self)@.bar == Some(token)),
            ({
                let k = place_of(old(self)@.phases, token);
                final(self)@ == (if k < old(self)@.phases.len() {
                    BoardState {
                        phases: old(self)@.phases.update(
                            k,
                            PhaseState { announced: Some(shape), ..old(self)@.phases[k] },
                        ),
                        ..old(self)@
                    }
                } else {
                    old(self)@
                })
            }),
            in_order(final(self)@),
    {
        proof {
            use_type_invariant(&*self);
        }
        let drawing = match self.bar {
            Some(t) => t == token,
            None => false,
        };
        let k: usize = find_phase(&self.phases, token);
        if k >= self.phases.len() {
            return drawing;
        }
        let mut whole = Board::new();
        std::mem::swap(self, &mut whole);
        let ghost before = whole@;
        let Board { next_token, mut phases, bar, high_water, label_high_water, root_phase } = whole;
        let ghost earlier = phases@;
        let p = &phases[k];
        let changed = Phase {
            token: p.token,
            drives: p.drives,
            live_name: p.live_name,
            name: p.name.clone(),
            announced: Some(shape),
        };
        phases.set(k, changed);
        proof {
            assert(phase_states(phases@) =~= before.phases.update(
                k as int,
                PhaseState { announced: Some(shape), ..before.phases[k as int] },
            ));
            lemma_same_tokens(before, phase_states(phases@));
        }
        *self = Board { next_token, phases, bar, high_water, label_high_water, root_phase };
        drawing
    }

    /// The shape that a phase has announced.
    pub fn announced(&self, token: u64) -> (r: Option<Shape>)
        ensures
            ({
                let k = place_of(self@.phases, token);
                r == (if k < self@.phases.len() {
                    self@.phases[k].announced
                } else {
                    None
                })
            }),
    {
        let k: usize = find_phase(&self.phases, token);
        if k < self.phases.len() {
            assert(self@.phases[k as int] == self.phases@[k as int]@);
            self.phases[k].announced
        } else {
            None
        }
    }

    /// Takes note of a new name for a handle, and gives the line's name, where it changes. A phase of
    /// a fixed name keeps it.
    pub fn rename(&mut self, handle: Handle, name: &str) -> (r: Option<String>)
        ensures
            match handle {
                Handle::Root => (final(self)@, shown_name(r)) == relabelled(
                    BoardState { root: name@, ..old(self)@ },
                    true,
                ),
                Handle::Phase(token) => {
                    let k = place_of(old(self)@.phases, token);
                    if k < old(self)@.phases.len() && old(self)@.phases[k].live_name {
                        (final(self)@, shown_name(r)) == relabelled(
                            BoardState {
                                phases: old(self)@.phases.update(
                                    k,
                                    PhaseState { name: name@, ..old(self)@.phases[k] },
                                ),
                                ..old(self)@
                            },
                            true,
                        )
                    } else {
                        final(self)@ == old(self)@ && r is None
                    }
                },
                Handle::Muted => final(self)@ == old(self)@ && r is None,
            },
            in_order(final(self)@),
    {
        proof {
            use_type_invariant(&*self);
        }
        let mut at: Option<usize> = None;
        match handle {
            Handle::Muted => {
                return None;
            },
            Handle::Phase(token) => {
                let k: usize = find_phase(&self.phases, token);
                proof {
                    if k < self.phases@.len() {
                        assert(self@.phases[k as int] == self.phases@[k as int]@);
                    }
                }
                if k >= self.phases.len() || !self.phases[k].live_name {
                    return None;
                }
                at = Some(k);
            },
            Handle::Root => {},
        }
        let mut whole = Board::new();
        std::mem::swap(self, &mut whole);
        let ghost before = whole@;
        let Board { next_token, mut phases, bar, high_water, label_high_water, mut root_phase } = whole;
        match at {
            Some(k) => {
                let p = &phases[k];
                let changed = Phase {
                    token: p.token,
                    drives: p.drives,
                    live_name: p.live_name,
                    name: name.to_owned(),
                    announced: p.announced,
                };
                phases.set(k, changed);
                proof {
                    assert(phase_states(phases@) =~= before.phases.update(
                        k as int,
                        PhaseState { name: name@, ..before.phases[k as int] },
                    ));
                    lemma_same_tokens(before, phase_states(phases@));
                }
            },
            None => {
                root_phase = name.to_owned();
            },
        }
        let (label_high, shown) = name_line(&phases, bar, label_high_water, &root_phase, true);
        proof {
            let b = BoardState { phases: phase_states(phases@), root: root_phase@, ..before };
            assert(relabelled(b, true).1 == shown_name(shown));
            lemma_relabelled(b, true);
        }
        *self = Board { next_token, phases, bar, high_water, label_high_water: label_high, root_phase };
        shown
    }

    /// What a handle is called; nothing for one that is mute or gone.
    pub fn phase_name(&self, handle: Handle) -> (r: Option<String>)
        ensures
            shown_name(r) == (match handle {
                Handle::Root => Some(self@.root),
                Handle::Phase(token) => {
                    let k = place_of(self@.phases, token);
                    if k < self@.phases.len() {
                        Some(self@.phases[k].name)
                    } else {
                        None
                    }
                },
                Handle::Muted => None,
            }),
    {
        match handle {
            Handle::Root => Some(self.root_phase.clone()),
            Handle::Phase(token) => {
                let k: usize = find_phase(&self.phases, token);
                if k < self.phases.len() {
                    assert(self@.phases[k as int] == self.phases@[k as int]@);
                    Some(self.phases[k].name.clone())
                } else {
                    None
                }
            },
            Handle::Muted => None,
        }
    }

    /// Decides the line's name anew.
    pub fn relabel(&mut self) -> (r: Option<String>)
        ensures
            (final(self)@, shown_name(r)) == relabelled(old(self)@, true),
            in_order(final(self)@),
    {
        let mut whole = Board::new();
        std::mem::swap(self, &mut whole);
        proof {
            use_type_invariant(&whole);
        }
        let ghost before = whole@;
        let Board { next_token, phases, bar, high_water, label_high_water, root_phase } = whole;
        let (label_high, shown) = name_line(&phases, bar, label_high_water, &root_phase, true);
        proof {
            assert(relabelled(before, true).1 == shown_name(shown));
            lemma_relabelled(before, true);
        }
        *self = Board { next_token, phases, bar, high_water, label_high_water: label_high, root_phase };
        shown
    }

    /// Whether the line's own handle fills the bar: it is one that counts, and no phase does.
    pub fn root_fills(&self, root_draws: bool) -> (r: bool)
        ensures
            r == (root_draws && self@.bar is None),
    {
        root_draws && self.bar.is_none()
    }
}

/// A line stays in order where only names and shapes change.
proof fn lemma_same_tokens(b: BoardState, phases: Seq<PhaseState>)
    requires
        in_order(b),
        phases.len() == b.phases.len(),
        forall|i: int| 0 <= i < phases.len() ==> (#[trigger] phases[i]).token == b.phases[i].token,
    ensures
        in_order(BoardState { phases, ..b }),
{
    assert forall|i: int, j: int| #![trigger phases[i], phases[j]] 0 <= i < j < phases.len() implies phases[i].token
        < phases[j].token by {
        assert(b.phases[i].token < b.phases[j].token);
    }
    assert forall|i: int| 0 <= i < phases.len() implies 0 < (#[trigger] phases[i]).token < b.next by {
        assert(0 < b.phases[i].token < b.next);
    }
    if b.bar is Some {
        let j = choose|j: int| 0 <= j < b.phases.len() && (#[trigger] b.phases[j]).token == b.bar->0;
        assert(phases[j].token == b.bar->0);
    }
}

/// The bar only moves on to newer phases: whoever takes it over is newer than all that ever had it, so
/// one that has lost it never gets it back.
pub proof fn the_bar_only_moves_on(b: BoardState, token: u64, other: u64)
    requires
        claimable(b, token),
        other <= token,
    ensures
        taken(b, token).high > b.high,
        !claimable(taken(b, token), other),
{
}

/// The line's name only moves on to newer phases, whatever ends in between.
pub proof fn the_label_only_moves_on(b: BoardState, root_fallback: bool)
    requires
        in_order(b),
    ensures
        relabelled(b, root_fallback).0.label_high >= b.label_high,
        relabelled(b, root_fallback).0.bar == b.bar,
        relabelled(b, root_fallback).0.phases == b.phases,
{
}

/// The nearest multiple of a unit to a number; of two that are equally near, the even one.
pub open spec fn nearest(n: nat, unit: nat) -> nat {
    let q = n / unit;
    let rest = n % unit;
    if 2 * rest > unit || (2 * rest == unit && q % 2 == 1) {
        (q + 1) * unit
    } else {
        q * unit
    }
}

/// A whole number as a binary fraction of 53 digits holds it: the nearest multiple of the smallest
/// power of two that leaves no more digits.
pub open spec fn in_53_digits(n: nat, unit: nat) -> nat
    decreases n / unit,
    via in_53_digits_decreases
{
    if unit == 0 || n / unit < 0x20_0000_0000_0000 {
        nearest(n, unit)
    } else {
        in_53_digits(n, unit * 2)
    }
}

#[via_fn]
proof fn in_53_digits_decreases(n: nat, unit: nat) {
    assert(unit > 0 && n / unit >= 1 ==> n / (unit * 2) < n / unit) by (nonlinear_arith);
}

/// A number of units, written with one decimal.
pub open spec fn one_decimal(n: nat, unit: nat) -> Seq<char> {
    let tenths = nearest(n * 10, unit) / unit;
    decimal_of(tenths / 10) + "."@ + decimal_of(tenths % 10)
}

/// A count of bytes as text: in bytes below 1024, else with one decimal in the largest of the units
/// that it fills.
pub open spec fn size_text(n: nat) -> Seq<char> {
    let v = in_53_digits(n, 1);
    if n < 1024 {
        decimal_of(n) + " B"@
    } else if v < 0x10_0000 {
        one_decimal(v, 0x400) + " KiB"@
    } else if v < 0x4000_0000 {
        one_decimal(v, 0x10_0000) + " MiB"@
    } else if v < 0x100_0000_0000 {
        one_decimal(v, 0x4000_0000) + " GiB"@
    } else {
        one_decimal(v, 0x100_0000_0000) + " TiB"@
    }
}

/// How many units the nearest multiple of a unit is.
fn nearest_count(n: u128, unit: u128) -> (r: u128)
    requires
        unit > 0,
        n < 0x1_0000_0000_0000_0000_0000,
    ensures
        r == nearest(n as nat, unit as nat) / unit as nat,
        nearest(n as nat, unit as nat) == r * unit,
        r <= n + 1,
        unit >= 0x400 ==> r <= n / 0x400 + 1,
{
    let q: u128 = n / unit;
    let rest: u128 = n % unit;
    proof {
        assert(q <= n) by (nonlinear_arith)
            requires
                q == n / unit,
                unit > 0,
        ;
        if unit >= 0x400 {
            assert(q <= n / 0x400) by (nonlinear_arith)
                requires
                    q == n / unit,
                    unit >= 0x400,
            ;
        }
    }
    let up = rest > unit - rest || (rest == unit - rest && q % 2 == 1);
    let r: u128 = if up { q + 1 } else { q };
    proof {
        vstd::arithmetic::div_mod::lemma_div_by_multiple(r as int, unit as int);
    }
    r
}

fn decimal_tenths(n: u128, unit: u128) -> (r: String)
    requires
        unit >= 0x400,
        n < 0x2_0000_0000_0000_0000,
    ensures
        r@ == one_decimal(n as nat, unit as nat),
{
    let tenths: u128 = nearest_count(n * 10, unit);
    let whole: u64 = (tenths / 10) as u64;
    let part: u64 = (tenths % 10) as u64;
    crate::text::cat3(&decimal(whole), ".", &decimal(part))
}

/// A count of bytes as text.
pub fn bytes(n: usize) -> (r: String)
    ensures
        r@ == size_text(n as nat),
{
    if n < 1024 {
        return cat2(&decimal(n as u64), " B");
    }
    let whole: u128 = n as u128;
    let mut unit: u128 = 1;
    while whole / unit >= 0x20_0000_0000_0000
        invariant
            unit > 0,
            unit <= 0x1000,
            whole < 0x1_0000_0000_0000_0000,
            in_53_digits(whole as nat, 1) == in_53_digits(whole as nat, unit as nat),
        decreases whole / unit,
    {
        proof {
            assert(unit <= 0x7ff) by (nonlinear_arith)
                requires
                    whole / unit >= 0x20_0000_0000_0000,
                    whole < 0x1_0000_0000_0000_0000,
                    unit > 0,
            ;
            let (w, u) = (whole as nat, unit as nat);
            assert(w / (u * 2) < w / u) by (nonlinear_arith)
                requires
                    w / u >= 1,
                    u > 0,
            ;
        }
        unit = unit * 2;
    }
    let count: u128 = nearest_count(whole, unit);
    proof {
        assert(count * unit <= whole + unit) by {
            let q = whole as nat / unit as nat;
            vstd::arithmetic::div_mod::lemma_fundamental_div_mod(whole as int, unit as int);
            assert(q * unit <= whole) by (nonlinear_arith)
                requires
                    whole == unit * q + whole % unit,
                    whole % unit >= 0,
            ;
            assert((q + 1) * unit == q * unit + unit) by (nonlinear_arith);
        }
    }
    let v: u128 = count * unit;
    assert(v == in_53_digits(n as nat, 1));
    if v < 0x10_0000 {
        cat2(&decimal_tenths(v, 0x400), " KiB")
    } else if v < 0x4000_0000 {
        cat2(&decimal_tenths(v, 0x10_0000), " MiB")
    } else if v < 0x100_0000_0000 {
        cat2(&decimal_tenths(v, 0x4000_0000), " GiB")
    } else {
        cat2(&decimal_tenths(v, 0x100_0000_0000), " TiB")
    }
}

/// Only a phase that counts what the user waits for fills the bar: the remote's, that of the pack, and
/// that of the checkout. One that writes names nothing, and one that is not known goes by its own name.
pub proof fn phases_play_their_part(name: Seq<char>)
    ensures
        role_by_name(name).0 == Role::Drive <==> name == "remote"@ || name == "read pack"@ || name == "checkout"@,
        role_by_name(name).0 == Role::Mute <==> name == "writing"@,
        role_by_name(name).1 is Some <==> name == "read pack"@ || name == "create index file"@ || name == "checkout"@,
        role_by_name("read pack"@).1 == Some("receiving pack"@),
        role_by_name("create index file"@).1 == Some("indexing pack"@),
        role_by_name("checkout"@).1 == Some("checking out"@),
{
    reveal_strlit("remote");
    reveal_strlit("read pack");
    reveal_strlit("create index file");
    reveal_strlit("checkout");
    reveal_strlit("writing");
    assert("remote"@.len() == 6);
    assert("read pack"@.len() == 9);
    assert("create index file"@.len() == 17);
    assert("checkout"@.len() == 8);
    assert("writing"@.len() == 7);
}

/// The longest of several texts is as long as one of them, and none is longer.
pub proof fn no_name_is_longer_than_the_longest(names: Seq<Seq<char>>)
    ensures
        forall|i: int| 0 <= i < names.len() ==> (#[trigger] names[i]).len() <= longest(names),
        names.len() > 0 ==> exists|i: int| 0 <= i < names.len() && (#[trigger] names[i]).len() == longest(names),
        names.len() == 0 ==> longest(names) == 0,
    decreases names.len(),
{
    if names.len() > 0 {
        let front = names.drop_last();
        no_name_is_longer_than_the_longest(front);
        assert forall|i: int| 0 <= i < names.len() implies (#[trigger] names[i]).len() <= longest(names) by {
            if i < front.len() {
                assert(front[i] == names[i]);
            }
        }
        assert(names[names.len() - 1] == names.last());
        if names.last().len() <= longest(front) && front.len() > 0 {
            let i = choose|i: int| 0 <= i < front.len() && (#[trigger] front[i]).len() == longest(front);
            assert(names[i] == front[i]);
        }
    }
}

/// A line without colors is its name, blanks up to the end of the column, and two more in front of the
/// phase where there is one.
pub proof fn lines_show_name_and_phase(layout: Layout, name: Seq<char>, phase: Seq<char>)
    requires
        !layout.colours,
        name.len() <= layout.name,
    ensures
        layout.labelled(name, Seq::empty()).len() == layout.name,
        phase.len() > 0 ==> layout.labelled(name, phase).len() == layout.name + 2 + phase.len(),
        phase.len() > 0 ==> layout.labelled(name, phase).skip(layout.name + 2) == phase,
        layout.labelled(name, phase).take(name.len() as int) == name,
        forall|i: int|
            name.len() <= i < layout.labelled(name, phase).len() - phase.len() ==> #[trigger] layout.labelled(
                name,
                phase,
            )[i] == ' ',
{
    reveal_strlit("");
    reveal_strlit("  ");
    assert("  "@ =~= seq![' ', ' ']);
    assert(""@ =~= Seq::empty());
    let line = layout.labelled(name, phase);
    assert(line.take(name.len() as int) =~= name);
    if phase.len() > 0 {
        assert(line.skip(layout.name + 2) =~= phase);
    }
}

/// A chain of actions is named for what follows its last colon, blanks aside; what has no colon is one
/// action.
pub proof fn chains_are_named_for_the_last_action(front: Seq<char>, action: Seq<char>)
    requires
        forall|i: int| 0 <= i < action.len() ==> action[i] != ':',
    ensures
        last_action(front + seq![':'] + action) == trimmed(action),
        last_action(action) == trimmed(action),
{
    lemma_behind_last(front + seq![':'], action, ':');
    lemma_behind_last(Seq::empty(), action, ':');
    assert(Seq::<char>::empty() + action =~= action);
    assert(behind_last(front + seq![':'], ':') =~= Seq::empty());
    assert(Seq::<char>::empty() + action =~= action);
}

proof fn lemma_behind_last(front: Seq<char>, action: Seq<char>, c: char)
    requires
        forall|i: int| 0 <= i < action.len() ==> action[i] != c,
    ensures
        behind_last(front + action, c) == behind_last(front, c) + action,
    decreases action.len(),
{
    let whole = front + action;
    if action.len() == 0 {
        assert(whole =~= front);
        assert(behind_last(front, c) + action =~= behind_last(front, c));
    } else {
        let rest = action.drop_last();
        lemma_behind_last(front, rest, c);
        assert(whole.drop_last() =~= front + rest);
        assert((behind_last(front, c) + rest).push(action.last()) =~= behind_last(front, c) + action);
    }
}

/// The phase that fills the bar names the line, whatever began after it.
pub proof fn the_bar_names_the_line(b: BoardState, k: int, root_fallback: bool)
    requires
        in_order(b),
        0 <= k < b.phases.len(),
        b.bar == Some(b.phases[k].token),
    ensures
        relabelled(b, root_fallback).1 == Some(last_action(b.phases[k].name)),
        relabelled(b, root_fallback).0.label_high >= b.phases[k].token,
{
    assert forall|i: int| 0 <= i < k implies (#[trigger] b.phases[i]).token != b.phases[k].token by {
        assert(b.phases[i].token < b.phases[k].token);
    }
    lemma_place_of(b.phases, b.phases[k].token, k);
}

/// While nothing fills the bar, the newest phase names the line, unless a newer one has named it before:
/// then the name stays. Where there is no phase at all, the line's own handle may name it.
pub proof fn the_newest_phase_names_the_line(b: BoardState, root_fallback: bool)
    requires
        b.bar is None,
    ensures
        b.phases.len() > 0 && b.phases.last().token >= b.label_high ==> {
            &&& relabelled(b, root_fallback).1 == Some(last_action(b.phases.last().name))
            &&& relabelled(b, root_fallback).0 == (BoardState { label_high: b.phases.last().token, ..b })
        },
        b.phases.len() > 0 && b.phases.last().token < b.label_high ==> relabelled(b, root_fallback) == (
            b,
            None::<Seq<char>>,
        ),
        b.phases.len() == 0 ==> relabelled(b, true) == (b, Some(last_action(b.root))),
        b.phases.len() == 0 ==> relabelled(b, false) == (b, None::<Seq<char>>),
{
}

/// Taking one phase away leaves all the others, in their order.
pub proof fn other_phases_stay(phases: Seq<PhaseState>, next: PhaseState, token: u64)
    ensures
        without(phases.push(next), token) == (if next.token == token {
            without(phases, token)
        } else {
            without(phases, token).push(next)
        }),
        !alive(without(phases, token), token),
        forall|other: u64|
            other != token ==> #[trigger] alive(without(phases, token), other) == alive(phases, other),
    decreases phases.len(),
{
    assert(phases.push(next).drop_last() =~= phases);
    let left = without(phases, token);
    if phases.len() > 0 {
        let (front, last) = (phases.drop_last(), phases.last());
        let few = without(front, token);
        other_phases_stay(front, last, token);
        assert(phases =~= front.push(last));
        assert(phases[phases.len() - 1] == last);
        if alive(left, token) {
            let i = choose|i: int| 0 <= i < left.len() && (#[trigger] left[i]).token == token;
            if i < few.len() {
                assert(few[i].token == token);
            }
        }
        assert forall|other: u64| other != token implies #[trigger] alive(left, other) == alive(phases, other) by {
            assert(alive(few, other) == alive(front, other));
            if alive(left, other) {
                let i = choose|i: int| 0 <= i < left.len() && (#[trigger] left[i]).token == other;
                if i < few.len() {
                    assert(few[i].token == other);
                    let j = choose|j: int| 0 <= j < front.len() && (#[trigger] front[j]).token == other;
                    assert(phases[j].token == other);
                }
            }
            if alive(phases, other) {
                let i = choose|i: int| 0 <= i < phases.len() && (#[trigger] phases[i]).token == other;
                if i < front.len() {
                    assert(front[i].token == other);
                    let j = choose|j: int| 0 <= j < few.len() && (#[trigger] few[j]).token == other;
                    assert(left[j].token == other);
                } else {
                    assert(left[left.len() - 1].token == other);
                }
            }
        }
    }
}

/// A phase takes the bar over exactly where it is alive, may fill a bar, and is newer than all that ever
/// filled it; the bar is then its own, and nothing else of the line changes.
pub proof fn newer_drivers_take_the_bar(b: BoardState, k: int, token: u64)
    requires
        in_order(b),
    ensures
        0 <= k < b.phases.len() ==> claimable(b, b.phases[k].token) == (b.phases[k].drives && b.phases[k].token > b.high),
        !alive(b.phases, token) ==> !claimable(b, token),
        taken(b, token).bar == Some(token),
        taken(b, token).high == token,
        taken(b, token).phases == b.phases,
        taken(b, token).label_high == b.label_high,
        taken(b, token).next == b.next,
        taken(b, token).root == b.root,
{
    if 0 <= k < b.phases.len() {
        assert forall|i: int| 0 <= i < k implies (#[trigger] b.phases[i]).token != b.phases[k].token by {
            assert(b.phases[i].token < b.phases[k].token);
        }
        lemma_place_of(b.phases, b.phases[k].token, k);
    }
    lemma_place_bounds(b.phases, token);
}

/// A number is rounded to a multiple of the unit that is no farther away than half a unit; of two that
/// are, to the even one.
pub proof fn numbers_are_rounded_to_the_nearest(n: nat, unit: nat)
    requires
        unit > 0,
    ensures
        nearest(n, unit) % unit == 0,
        2 * nearest(n, unit) <= 2 * n + unit,
        2 * n <= 2 * nearest(n, unit) + unit,
        2 * nearest(n, unit) == 2 * n + unit || 2 * n == 2 * nearest(n, unit) + unit ==> nearest(n, unit) / unit % 2
            == 0,
{
    let q = n / unit;
    let rest = n % unit;
    vstd::arithmetic::div_mod::lemma_fundamental_div_mod(n as int, unit as int);
    assert(n == q * unit + rest) by (nonlinear_arith)
        requires
            n == unit * q + rest,
    ;
    assert((q + 1) * unit == q * unit + unit) by (nonlinear_arith);
    vstd::arithmetic::div_mod::lemma_mod_multiples_basic(q as int, unit as int);
    vstd::arithmetic::div_mod::lemma_mod_multiples_basic(q as int + 1, unit as int);
    vstd::arithmetic::div_mod::lemma_div_by_multiple(q as int, unit as int);
    vstd::arithmetic::div_mod::lemma_div_by_multiple(q as int + 1, unit as int);
}

/// How a number of tenths of a unit is written.
pub open spec fn tenths_text(tenths: nat, unit: Seq<char>) -> Seq<char> {
    decimal_of(tenths / 10) + "."@ + decimal_of(tenths % 10) + unit
}

/// Whether a number of tenths of a unit is as near to a count as one can be.
pub open spec fn is_near(tenths: nat, unit: nat, n: nat) -> bool {
    2 * tenths * unit <= 20 * n + unit && 20 * n <= 2 * tenths * unit + unit
}

/// A size is written out below 1024 bytes, and else in the largest unit that it fills, each 1024 times
/// the one before, to the nearest tenth.
pub proof fn sizes_are_shown_in_the_largest_unit(n: nat)
    requires
        n < 0x20_0000_0000_0000,
    ensures
        n < 1024 ==> size_text(n) == decimal_of(n) + " B"@,
        1024 <= n < 1024 * 1024 ==> exists|t: nat| size_text(n) == #[trigger] tenths_text(t, " KiB"@) && is_near(t, 1024, n),
        1024 * 1024 <= n < 1024 * 1024 * 1024 ==> exists|t: nat|
            size_text(n) == #[trigger] tenths_text(t, " MiB"@) && is_near(t, 1024 * 1024, n),
        1024 * 1024 * 1024 <= n < 1024 * 1024 * 1024 * 1024 ==> exists|t: nat|
            size_text(n) == #[trigger] tenths_text(t, " GiB"@) && is_near(t, 1024 * 1024 * 1024, n),
        1024 * 1024 * 1024 * 1024 <= n ==> exists|t: nat|
            size_text(n) == #[trigger] tenths_text(t, " TiB"@) && is_near(t, 1024 * 1024 * 1024 * 1024, n),
{
    assert(in_53_digits(n, 1) == n) by {
        assert(nearest(n, 1) == n);
    }
    let unit: nat = if n < 0x10_0000 {
        0x400
    } else if n < 0x4000_0000 {
        0x10_0000
    } else if n < 0x100_0000_0000 {
        0x4000_0000
    } else {
        0x100_0000_0000
    };
    let near = nearest(n * 10, unit);
    let t = near / unit;
    numbers_are_rounded_to_the_nearest(n * 10, unit);
    vstd::arithmetic::div_mod::lemma_fundamental_div_mod(near as int, unit as int);
    assert(2 * t * unit == 2 * near) by (nonlinear_arith)
        requires
            near == unit * t + near % unit,
            near % unit == 0,
    ;
    assert(is_near(t, unit, n));
    assert(size_text(n) == if n < 1024 {
        decimal_of(n) + " B"@
    } else if n < 0x10_0000 {
        tenths_text(t, " KiB"@)
    } else if n < 0x4000_0000 {
        tenths_text(t, " MiB"@)
    } else if n < 0x100_0000_0000 {
        tenths_text(t, " GiB"@)
    } else {
        tenths_text(t, " TiB"@)
    });
}

} // verus!
