//! Universes: the contexts that a command can be run in.

use crate::mdb::meta::Environment;
use crate::search::{first_where, lemma_first_from_is};
use crate::shell::{quoted, shell_quote};
use crate::table::{distinct, inserted, lemma_inserted_lookup};
use crate::template::{
    doubled_texts_fill_in_as_themselves, filled, is_name_char, is_plain_name, lemma_filled_front, Filled,
    TemplateError, VarSet,
};
use crate::text::{
    begins_with, cat2, chars_of, lemma_index_of_is, lemma_views_push, matches_at, string_of, views,
};
use vstd::prelude::*;
use vstd::utf8::encode_utf8;

verus! {

/// How a universe runs a command: at most one of the two wrapper forms. Neither makes it the
/// identity universe, which runs the command bare.
#[derive(Debug)]
pub struct Universe {
    /// For the reader only.
    pub kind: Option<String>,
    /// Prefix form: the words that go before `/bin/sh -c <command>`.
    pub wrapper_argv: Option<Vec<String>>,
    /// Template form: a shell command with exactly one `@COMMAND@` in it.
    pub wrapper: Option<String>,
    /// The environment keys that replace the machine's.
    pub environment: Environment,
}

/// A command in its universe, ready to be spawned.
#[derive(Debug, PartialEq)]
pub enum WrappedCommand {
    /// The program and its arguments.
    Argv(Vec<String>),
    /// A command for `sh -c`.
    Shell(String),
}

/// A command in its universe, as text.
pub enum Wrapped {
    Argv(Seq<Seq<char>>),
    Shell(Seq<char>),
}

impl View for WrappedCommand {
    type V = Wrapped;

    open spec fn view(&self) -> Wrapped {
        match *self {
            WrappedCommand::Argv(argv) => Wrapped::Argv(views(argv@)),
            WrappedCommand::Shell(s) => Wrapped::Shell(s@),
        }
    }
}

/// Why a command cannot be put into a universe.
pub enum WrapFault {
    Argv(Filled),
    Template(Filled),
    BothForms,
}

impl View for WrapError {
    type V = WrapFault;

    open spec fn view(&self) -> WrapFault {
        match *self {
            WrapError::Argv(e) => WrapFault::Argv(e@),
            WrapError::Template(e) => WrapFault::Template(e@),
            WrapError::BothForms => WrapFault::BothForms,
        }
    }
}

/// Why a command cannot be put into a universe.
#[derive(Debug)]
pub enum WrapError {
    /// A word of the prefix form cannot be filled in.
    Argv(TemplateError),
    /// The template form cannot be filled in.
    Template(TemplateError),
    /// The universe declares both forms.
    BothForms,
}

impl WrapError {
    /// The message for the user, as text.
    pub open spec fn text(self) -> Seq<char> {
        match self {
            WrapError::Argv(e) => "Failed to substitute universe wrapper-argv: "@ + e.text(),
            WrapError::Template(e) => "Failed to substitute universe wrapper template: "@ + e.text(),
            WrapError::BothForms => "universe declares both wrapper-argv and wrapper"@,
        }
    }

    /// The message for the user.
    pub fn message(&self) -> (r: String)
        ensures
            r@ == self.text(),
    {
        match self {
            WrapError::Argv(e) => cat2("Failed to substitute universe wrapper-argv: ", &e.message()),
            WrapError::Template(e) => cat2("Failed to substitute universe wrapper template: ", &e.message()),
            WrapError::BothForms => "universe declares both wrapper-argv and wrapper".to_owned(),
        }
    }
}

/// The quotes that a position of a shell command stands in.
#[derive(Debug, Clone, Copy, PartialEq, Eq, Structural)]
pub enum Quotes {
    Outside,
    Single,
    Double,
}

/// The quotes after one more character.
pub open spec fn quotes_after(q: Quotes, c: char) -> Quotes {
    match q {
        Quotes::Outside => if c == '\'' {
            Quotes::Single
        } else if c == '"' {
            Quotes::Double
        } else {
            q
        },
        Quotes::Single => if c == '\'' {
            Quotes::Outside
        } else {
            q
        },
        Quotes::Double => if c == '"' {
            Quotes::Outside
        } else {
            q
        },
    }
}

/// A position found in a text from which `n` characters were taken off.
pub open spec fn shifted(n: int, found: Option<int>) -> Option<int> {
    match found {
        Some(k) => Some(n + k),
        None => None,
    }
}

/// Where the first `@COMMAND@` stands that is inside quotes, in a command that starts within the
/// quotes `q`. Outside single quotes a backslash takes the next character with it.
pub open spec fn quoted_token(s: Seq<char>, q: Quotes) -> Option<int>
    decreases s.len(),
{
    proof {
        reveal_strlit("@COMMAND@");
    }
    if s.len() == 0 {
        None
    } else if begins_with(s, "@COMMAND@"@) {
        if q != Quotes::Outside {
            Some(0)
        } else {
            shifted(9, quoted_token(s.skip(9), q))
        }
    } else if q != Quotes::Single && s[0] == '\\' {
        if s.len() == 1 {
            None
        } else {
            shifted(2, quoted_token(s.skip(2), q))
        }
    } else {
        shifted(1, quoted_token(s.skip(1), quotes_after(q, s[0])))
    }
}

/// The byte offset of the first `@COMMAND@` that stands inside the template's own quotes.
/// `Universe::wrap` fills in a command that is quoted already, so the token belongs outside.
pub fn command_token_in_quotes(template: &str) -> (r: Option<usize>)
    ensures
        match quoted_token(template@, Quotes::Outside) {
            Some(k) => r == Some(encode_utf8(template@.take(k)).len() as usize),
            None => r is None,
        },
{
    let cs = chars_of(template);
    let token = chars_of("@COMMAND@");
    proof {
        reveal_strlit("@COMMAND@");
        assert(cs@.skip(0) == cs@);
        assert(shifted(0, quoted_token(cs@, Quotes::Outside)) == quoted_token(cs@, Quotes::Outside));
    }
    let mut state = Quotes::Outside;
    let mut i: usize = 0;
    while i < cs.len()
        invariant
            i <= cs@.len(),
            cs@ == template@,
            token@ == "@COMMAND@"@,
            token@.len() == 9,
            quoted_token(template@, Quotes::Outside) == shifted(i as int, quoted_token(cs@.skip(i as int), state)),
        decreases cs@.len() - i,
    {
        let ghost rest = cs@.skip(i as int);
        proof {
            assert(rest[0] == cs@[i as int]);
            assert(rest.skip(1) == cs@.skip(i + 1));
            if rest.len() >= 9 {
                assert(rest.take(9) == cs@.subrange(i as int, i + 9));
            }
        }
        if matches_at(&cs, &token, i) {
            if state != Quotes::Outside {
                let head = string_of(&cs, 0, i);
                assert(head@ == template@.take(i as int));
                return Some(head.as_str().len());
            }
            assert(rest.skip(9) == cs@.skip(i + 9));
            i += 9;
        } else if state != Quotes::Single && cs[i] == '\\' {
            if i + 1 == cs.len() {
                return None;
            }
            assert(rest.skip(2) == cs@.skip(i + 2));
            i += 2;
        } else {
            let c: char = cs[i];
            state = match state {
                Quotes::Outside => if c == '\'' {
                    Quotes::Single
                } else if c == '"' {
                    Quotes::Double
                } else {
                    state
                },
                Quotes::Single => if c == '\'' {
                    Quotes::Outside
                } else {
                    state
                },
                Quotes::Double => if c == '"' {
                    Quotes::Outside
                } else {
                    state
                },
            };
            i += 1;
        }
    }
    assert(cs@.skip(i as int).len() == 0);
    None
}

/// The words that cannot be filled in.
pub open spec fn unfillable(argv: Seq<Seq<char>>, vars: VarSet) -> spec_fn(int) -> bool {
    |i: int| !(filled(argv[i], vars.texts(), vars.env_texts()) is Text)
}

/// The words, filled in.
pub open spec fn filled_words(argv: Seq<Seq<char>>, vars: VarSet) -> Seq<Seq<char>> {
    argv.map_values(|a: Seq<char>| filled(a, vars.texts(), vars.env_texts())->Text_0)
}

/// The prefix form of a command: the words of the prefix, then `/bin/sh -c <inner>`.
pub open spec fn prefixed(words: Seq<Seq<char>>, inner: Seq<char>) -> Seq<Seq<char>> {
    words + seq!["/bin/sh"@, "-c"@, inner]
}

fn prefixed_argv(argv: &Vec<String>, vars: &VarSet, inner: &str) -> (r: Result<Vec<String>, TemplateError>)
    ensures
        ({
            let words = views(argv@);
            let k = first_where(words.len() as int, unfillable(words, *vars));
            if k < words.len() {
                r is Err && r->Err_0@ == filled(words[k], vars.texts(), vars.env_texts())
            } else {
                r matches Ok(cmd) && views(cmd@) == prefixed(filled_words(words, *vars), inner@)
            }
        }),
{
    let ghost words = views(argv@);
    let ghost bad = unfillable(words, *vars);
    let mut cmd: Vec<String> = Vec::new();
    let mut i: usize = 0;
    while i < argv.len()
        invariant
            i <= argv@.len(),
            words == views(argv@),
            bad == unfillable(words, *vars),
            forall|j: int| 0 <= j < i ==> !(#[trigger] bad(j)),
            views(cmd@) == filled_words(words, *vars).take(i as int),
        decreases argv@.len() - i,
    {
        assert(words[i as int] == argv@[i as int]@);
        match vars.substitute(&argv[i]) {
            Ok(word) => {
                let ghost before = cmd@;
                assert(!bad(i as int));
                cmd.push(word);
                proof {
                    lemma_views_push(before, word);
                    assert(filled_words(words, *vars).take(i + 1) == filled_words(words, *vars).take(i as int).push(
                        word@,
                    ));
                }
                i += 1;
            },
            Err(e) => {
                proof {
                    assert(bad(i as int));
                    lemma_first_from_is(0, words.len() as int, bad, i as int);
                }
                return Err(e);
            },
        }
    }
    proof {
        lemma_first_from_is(0, words.len() as int, bad, words.len() as int);
        assert(filled_words(words, *vars).take(i as int) == filled_words(words, *vars));
    }
    let ghost before = cmd@;
    cmd.push("/bin/sh".to_owned());
    cmd.push("-c".to_owned());
    cmd.push(inner.to_owned());
    assert(views(cmd@) =~= prefixed(views(before), inner@));
    Ok(cmd)
}

/// What putting `inner` into a universe comes to. The prefix form fails at its first word that
/// cannot be filled in; the template form has the quoted command stand for `@COMMAND@`; the
/// identity universe runs the command bare.
pub open spec fn wrapped(u: Universe, vars: VarSet, inner: Seq<char>) -> Result<Wrapped, WrapFault> {
    match (u.wrapper_argv, u.wrapper) {
        (Some(argv), None) => {
            let words = views(argv@);
            let k = first_where(words.len() as int, unfillable(words, vars));
            if k < words.len() {
                Err(WrapFault::Argv(filled(words[k], vars.texts(), vars.env_texts())))
            } else {
                Ok(Wrapped::Argv(prefixed(filled_words(words, vars), inner)))
            }
        },
        (None, Some(template)) => match filled(
            template@,
            inserted(vars.texts(), "COMMAND"@, quoted(inner)),
            vars.env_texts(),
        ) {
            Filled::Text(t) => Ok(Wrapped::Shell(t)),
            failure => Err(WrapFault::Template(failure)),
        },
        (None, None) => Ok(Wrapped::Shell(inner)),
        (Some(_), Some(_)) => Err(WrapFault::BothForms),
    }
}

impl Universe {
    /// Puts `inner`, a shell command that is filled in already, into this universe. The wrapper
    /// is filled in with `vars`; `@COMMAND@` stands for the quoted command and is not scanned
    /// again.
    pub fn wrap(&self, vars: &VarSet, inner: &str) -> (r: Result<WrappedCommand, WrapError>)
        ensures
            match wrapped(*self, *vars, inner@) {
                Ok(w) => r is Ok && r->Ok_0@ == w,
                Err(f) => r is Err && r->Err_0@ == f,
            },
    {
        match (&self.wrapper_argv, &self.wrapper) {
            (Some(argv), None) => match prefixed_argv(argv, vars, inner) {
                Ok(cmd) => Ok(WrappedCommand::Argv(cmd)),
                Err(e) => Err(WrapError::Argv(e)),
            },
            (None, Some(template)) => match vars.substitute_with(template, "COMMAND", &shell_quote(inner)) {
                Ok(s) => Ok(WrappedCommand::Shell(s)),
                Err(e) => Err(WrapError::Template(e)),
            },
            (None, None) => Ok(WrappedCommand::Shell(inner.to_owned())),
            (Some(_), Some(_)) => Err(WrapError::BothForms),
        }
    }
}

/// A command is put into a template as one word, whatever it holds: nothing in it is filled in, and
/// the template is as it was around it.
pub proof fn commands_are_put_in_whole(u: Universe, vars: VarSet, inner: Seq<char>, before: Seq<char>, behind: Seq<char>)
    requires
        u.wrapper_argv is None,
        u.wrapper matches Some(template) && template@ == before + "@COMMAND@"@ + behind,
        forall|i: int| 0 <= i < before.len() ==> before[i] != '@',
        forall|i: int| 0 <= i < behind.len() ==> behind[i] != '@',
        distinct(vars.texts()),
    ensures
        wrapped(u, vars, inner) == Ok::<Wrapped, WrapFault>(Wrapped::Shell(before + quoted(inner) + behind)),
{
    reveal_strlit("@COMMAND@");
    reveal_strlit("COMMAND");
    let env = vars.env_texts();
    let texts = inserted(vars.texts(), "COMMAND"@, quoted(inner));
    let rest = "@COMMAND@"@ + behind;
    assert(before + "@COMMAND@"@ + behind =~= before + rest);
    lemma_filled_front(before, rest, texts, env);
    let n: int = 7;
    assert forall|j: int| 0 <= j < n implies rest.skip(1)[j] != '@' by {
        assert(rest.skip(1)[j] == "@COMMAND@"@[j + 1]);
    }
    assert(rest.skip(1)[n] == '@');
    lemma_index_of_is(rest.skip(1), '@', n);
    let token = rest.subrange(1, 1 + n);
    assert(token =~= "COMMAND"@);
    assert(is_plain_name(token)) by {
        assert forall|i: int| 0 <= i < token.len() implies is_name_char(#[trigger] token[i]) by {
            assert(token[i] == "COMMAND"@[i]);
        }
    }
    lemma_inserted_lookup(vars.texts(), "COMMAND"@, quoted(inner), "COMMAND"@);
    assert(rest.skip(n + 2) =~= behind);
    doubled_texts_fill_in_as_themselves(behind, texts, env);
    assert(before + (quoted(inner) + behind) =~= before + quoted(inner) + behind);
}

/// A prefix comes in front of the command, word by word, each filled in, and the command is one word
/// behind `/bin/sh -c`, as it is. The first word that cannot be filled in fails it all.
pub proof fn prefixes_come_before_the_command(u: Universe, vars: VarSet, inner: Seq<char>)
    requires
        u.wrapper_argv is Some,
        u.wrapper is None,
    ensures
        ({
            let words = views((u.wrapper_argv->0)@);
            let n = words.len() as int;
            let r = wrapped(u, vars, inner);
            &&& (forall|i: int|
                0 <= i < n ==> filled(#[trigger] words[i], vars.texts(), vars.env_texts()) is Text) ==> {
                &&& r is Ok && r->Ok_0 is Argv
                &&& r->Ok_0->Argv_0.len() == n + 3
                &&& forall|i: int|
                    0 <= i < n ==> filled(words[i], vars.texts(), vars.env_texts()) == Filled::Text(
                        #[trigger] r->Ok_0->Argv_0[i],
                    )
                &&& r->Ok_0->Argv_0[n] == "/bin/sh"@
                &&& r->Ok_0->Argv_0[n + 1] == "-c"@
                &&& r->Ok_0->Argv_0[n + 2] == inner
            }
            &&& forall|k: int|
                0 <= k < n && filled(#[trigger] words[k], vars.texts(), vars.env_texts()) !is Text && (forall|i: int|
                    0 <= i < k ==> filled(#[trigger] words[i], vars.texts(), vars.env_texts()) is Text) ==> r == Err::<
                    Wrapped,
                    WrapFault,
                >(WrapFault::Argv(filled(words[k], vars.texts(), vars.env_texts())))
        }),
{
    let words = views((u.wrapper_argv->0)@);
    let n = words.len() as int;
    let bad = unfillable(words, vars);
    if forall|i: int| 0 <= i < n ==> filled(#[trigger] words[i], vars.texts(), vars.env_texts()) is Text {
        assert forall|j: int| 0 <= j < n implies !(#[trigger] bad(j)) by {
            assert(filled(words[j], vars.texts(), vars.env_texts()) is Text);
        }
        lemma_first_from_is(0, n, bad, n);
        let out = prefixed(filled_words(words, vars), inner);
        assert forall|i: int| 0 <= i < n implies filled(words[i], vars.texts(), vars.env_texts()) == Filled::Text(
            #[trigger] out[i],
        ) by {
            assert(out[i] == filled_words(words, vars)[i]);
        }
    }
    assert forall|k: int|
        0 <= k < n && filled(#[trigger] words[k], vars.texts(), vars.env_texts()) !is Text && (forall|i: int|
            0 <= i < k ==> filled(#[trigger] words[i], vars.texts(), vars.env_texts()) is Text) implies wrapped(
        u,
        vars,
        inner,
    ) == Err::<Wrapped, WrapFault>(WrapFault::Argv(filled(words[k], vars.texts(), vars.env_texts()))) by {
        assert forall|j: int| 0 <= j < k implies !(#[trigger] bad(j)) by {
            assert(filled(words[j], vars.texts(), vars.env_texts()) is Text);
        }
        assert(bad(k));
        lemma_first_from_is(0, n, bad, k);
    }
}

/// A universe without a wrapper runs a command as it is, and one with two wrappers runs nothing.
pub proof fn bare_universes_change_nothing(u: Universe, vars: VarSet, inner: Seq<char>)
    ensures
        u.wrapper_argv is None && u.wrapper is None ==> wrapped(u, vars, inner) == Ok::<Wrapped, WrapFault>(
            Wrapped::Shell(inner),
        ),
        u.wrapper_argv is Some && u.wrapper is Some ==> wrapped(u, vars, inner) == Err::<Wrapped, WrapFault>(
            WrapFault::BothForms,
        ),
{
}

/// Plain text does not matter to where the command stands.
proof fn lemma_plain_front(front: Seq<char>, rest: Seq<char>, q: Quotes)
    requires
        forall|i: int|
            0 <= i < front.len() ==> front[i] != '\'' && front[i] != '"' && front[i] != '\\' && front[i] != '@',
    ensures
        quoted_token(front + rest, q) == shifted(front.len() as int, quoted_token(rest, q)),
    decreases front.len(),
{
    reveal_strlit("@COMMAND@");
    let s = front + rest;
    if front.len() == 0 {
        assert(s =~= rest);
    } else {
        let fewer = front.skip(1);
        assert forall|i: int| 0 <= i < fewer.len() implies fewer[i] != '\'' && fewer[i] != '"' && fewer[i] != '\\'
            && fewer[i] != '@' by {
            assert(fewer[i] == front[i + 1]);
        }
        assert(s[0] == front[0]);
        if begins_with(s, "@COMMAND@"@) {
            assert(s.take(9)[0] == "@COMMAND@"@[0]);
        }
        assert(s.skip(1) =~= fewer + rest);
        lemma_plain_front(fewer, rest, q);
    }
}

/// The command is found where it stands inside a pair of quotes of either kind, whatever plain text is
/// around it, and not where it stands outside; a quote of the other kind, or one behind a backslash,
/// closes nothing.
pub proof fn quotes_around_the_command_are_seen(before: Seq<char>, within: Seq<char>, behind: Seq<char>)
    requires
        forall|i: int|
            0 <= i < before.len() ==> before[i] != '\'' && before[i] != '"' && before[i] != '\\' && before[i] != '@',
        forall|i: int|
            0 <= i < within.len() ==> within[i] != '\'' && within[i] != '"' && within[i] != '\\' && within[i] != '@',
        forall|i: int|
            0 <= i < behind.len() ==> behind[i] != '\'' && behind[i] != '"' && behind[i] != '\\' && behind[i] != '@',
    ensures
        quoted_token(before + "@COMMAND@"@ + behind, Quotes::Outside) is None,
        quoted_token(before + seq!['\''] + within + ("@COMMAND@"@ + behind), Quotes::Outside) == Some(
            (before.len() + 1 + within.len()) as int,
        ),
        quoted_token(before + seq!['"'] + within + ("@COMMAND@"@ + behind), Quotes::Outside) == Some(
            (before.len() + 1 + within.len()) as int,
        ),
        quoted_token(before + seq!['\''] + within + seq!['\''] + ("@COMMAND@"@ + behind), Quotes::Outside) is None,
        quoted_token(before + seq!['"'] + within + seq!['"'] + ("@COMMAND@"@ + behind), Quotes::Outside) is None,
        quoted_token(before + seq!['\''] + within + seq!['"'] + ("@COMMAND@"@ + behind), Quotes::Outside) == Some(
            (before.len() + 2 + within.len()) as int,
        ),
        quoted_token(before + seq!['"'] + within + seq!['\\', '"'] + ("@COMMAND@"@ + behind), Quotes::Outside) == Some(
            (before.len() + 3 + within.len()) as int,
        ),
        quoted_token(before + seq!['\\', '\''] + within + ("@COMMAND@"@ + behind), Quotes::Outside) is None,
{
    let t = "@COMMAND@"@ + behind;
    lemma_token(behind, Quotes::Outside);
    lemma_token(behind, Quotes::Single);
    lemma_token(behind, Quotes::Double);
    lemma_plain_front(before, t, Quotes::Outside);
    assert(before + "@COMMAND@"@ + behind =~= before + t);
    lemma_plain_front(within, t, Quotes::Outside);
    lemma_plain_front(within, t, Quotes::Single);
    lemma_plain_front(within, t, Quotes::Double);
    let wt = within + t;
    lemma_step('\'', wt, Quotes::Outside);
    lemma_step('"', wt, Quotes::Outside);
    lemma_plain_front(before, seq!['\''] + wt, Quotes::Outside);
    lemma_plain_front(before, seq!['"'] + wt, Quotes::Outside);
    assert(before + seq!['\''] + within + t =~= before + (seq!['\''] + wt));
    assert(before + seq!['"'] + within + t =~= before + (seq!['"'] + wt));
    lemma_step('\'', t, Quotes::Single);
    lemma_step('"', t, Quotes::Double);
    lemma_step('"', t, Quotes::Single);
    lemma_plain_front(within, seq!['\''] + t, Quotes::Single);
    lemma_plain_front(within, seq!['"'] + t, Quotes::Double);
    lemma_plain_front(within, seq!['"'] + t, Quotes::Single);
    let ws = within + (seq!['\''] + t);
    let wd = within + (seq!['"'] + t);
    lemma_step('\'', ws, Quotes::Outside);
    lemma_step('"', wd, Quotes::Outside);
    lemma_step('\'', wd, Quotes::Outside);
    lemma_plain_front(before, seq!['\''] + ws, Quotes::Outside);
    lemma_plain_front(before, seq!['"'] + wd, Quotes::Outside);
    lemma_plain_front(before, seq!['\''] + wd, Quotes::Outside);
    assert(before + seq!['\''] + within + seq!['\''] + t =~= before + (seq!['\''] + ws));
    assert(before + seq!['"'] + within + seq!['"'] + t =~= before + (seq!['"'] + wd));
    assert(before + seq!['\''] + within + seq!['"'] + t =~= before + (seq!['\''] + wd));
    lemma_escape('"', t, Quotes::Double);
    let we = within + (seq!['\\', '"'] + t);
    lemma_plain_front(within, seq!['\\', '"'] + t, Quotes::Double);
    lemma_step('"', we, Quotes::Outside);
    lemma_plain_front(before, seq!['"'] + we, Quotes::Outside);
    assert(before + seq!['"'] + within + seq!['\\', '"'] + t =~= before + (seq!['"'] + we));
    lemma_escape('\'', wt, Quotes::Outside);
    lemma_plain_front(before, seq!['\\', '\''] + wt, Quotes::Outside);
    assert(before + seq!['\\', '\''] + within + t =~= before + (seq!['\\', '\''] + wt));
}

proof fn lemma_token(behind: Seq<char>, q: Quotes)
    requires
        forall|i: int|
            0 <= i < behind.len() ==> behind[i] != '\'' && behind[i] != '"' && behind[i] != '\\' && behind[i] != '@',
    ensures
        q != Quotes::Outside ==> quoted_token("@COMMAND@"@ + behind, q) == Some(0int),
        q == Quotes::Outside ==> quoted_token("@COMMAND@"@ + behind, q) is None,
{
    reveal_strlit("@COMMAND@");
    let s = "@COMMAND@"@ + behind;
    assert(s.take(9) =~= "@COMMAND@"@);
    assert(s.skip(9) =~= behind);
    let none = Seq::<char>::empty();
    lemma_plain_front(behind, none, q);
    assert(behind + none =~= behind);
}

proof fn lemma_step(c: char, rest: Seq<char>, q: Quotes)
    requires
        c == '\'' || c == '"',
    ensures
        quoted_token(seq![c] + rest, q) == shifted(1, quoted_token(rest, quotes_after(q, c))),
{
    reveal_strlit("@COMMAND@");
    let s = seq![c] + rest;
    if begins_with(s, "@COMMAND@"@) {
        assert(s.take(9)[0] == "@COMMAND@"@[0]);
    }
    assert(s.skip(1) =~= rest);
}

proof fn lemma_escape(c: char, rest: Seq<char>, q: Quotes)
    requires
        q != Quotes::Single,
    ensures
        quoted_token(seq!['\\', c] + rest, q) == shifted(2, quoted_token(rest, q)),
{
    reveal_strlit("@COMMAND@");
    let s = seq!['\\', c] + rest;
    if begins_with(s, "@COMMAND@"@) {
        assert(s.take(9)[0] == "@COMMAND@"@[0]);
    }
    assert(s.skip(2) =~= rest);
}

} // verus!
