//! Shell text: quoting, the trace line of a command, and the expansions that a prompt owes its
//! user.

use crate::table::{has_name, value_of, Table};
use crate::text::{
    begins_with, cat4, chars_of, find, index_of, join, joined, lemma_index_of, lemma_index_of_is, lemma_views_push,
    path_join, path_of, same, starts, string_of, views,
};
use vstd::prelude::*;

verus! {

/// One character of a single-quoted word: a quote closes the word, stands escaped, and opens
/// it again.
pub open spec fn escaped_char(c: char) -> Seq<char> {
    if c == '\'' {
        seq!['\'', '\\', '\'', '\'']
    } else {
        seq![c]
    }
}

/// The inside of a single-quoted word that stands for `s`.
pub open spec fn escaped(s: Seq<char>) -> Seq<char>
    decreases s.len(),
{
    if s.len() == 0 {
        Seq::empty()
    } else {
        escaped(s.drop_last()) + escaped_char(s.last())
    }
}

/// `s` as one single-quoted word.
pub open spec fn quoted(s: Seq<char>) -> Seq<char> {
    seq!['\''] + escaped(s) + seq!['\'']
}

/// `s` as one single-quoted word for `/bin/sh`.
pub fn shell_quote(s: &str) -> (r: String)
    ensures
        r@ == quoted(s@),
{
    let cs = chars_of(s);
    let mut out = String::new();
    out.push('\'');
    let mut i: usize = 0;
    assert(cs@.take(0) == Seq::<char>::empty());
    while i < cs.len()
        invariant
            i <= cs@.len(),
            out@ == seq!['\''] + escaped(cs@.take(i as int)),
        decreases cs@.len() - i,
    {
        let ghost before = out@;
        let c: char = cs[i];
        if c == '\'' {
            out.push('\'');
            out.push('\\');
            out.push('\'');
            out.push('\'');
        } else {
            out.push(c);
        }
        i += 1;
        proof {
            assert(cs@.take(i as int).drop_last() == cs@.take(i - 1));
            assert(out@ =~= before + escaped_char(c));
            assert(out@ =~= seq!['\''] + escaped(cs@.take(i as int)));
        }
    }
    assert(cs@.take(i as int) == cs@);
    out.push('\'');
    assert(out@ =~= quoted(s@));
    out
}

/// A character that needs no quoting.
pub open spec fn is_safe_char(c: char) -> bool {
    ||| 'a' <= c <= 'z'
    ||| 'A' <= c <= 'Z'
    ||| '0' <= c <= '9'
    ||| c == '_' || c == '-' || c == '/' || c == '.' || c == '=' || c == ':' || c == '@' || c == '%' || c == '+'
        || c == ','
}

/// Whether `s` can stand in a command line as it is.
pub open spec fn is_safe(s: Seq<char>) -> bool {
    s.len() > 0 && forall|i: int| 0 <= i < s.len() ==> is_safe_char(#[trigger] s[i])
}

/// One argument of a traced command: bare where it is safe, else single-quoted.
pub open spec fn traced_word(s: Seq<char>) -> Seq<char> {
    if is_safe(s) {
        s
    } else {
        quoted(s)
    }
}

/// One argument of a traced command.
pub fn sh_quote(s: &str) -> (r: String)
    ensures
        r@ == traced_word(s@),
{
    let cs = chars_of(s);
    let mut i: usize = 0;
    let mut safe = cs.len() > 0;
    while safe && i < cs.len()
        invariant
            i <= cs@.len(),
            cs@ == s@,
            safe ==> cs@.len() > 0 && forall|j: int| 0 <= j < i ==> is_safe_char(#[trigger] cs@[j]),
            !safe ==> !is_safe(s@),
        decreases cs@.len() - i + (if safe { 1int } else { 0 }),
    {
        let c: char = cs[i];
        if ('a' <= c && c <= 'z') || ('A' <= c && c <= 'Z') || ('0' <= c && c <= '9') || c == '_' || c == '-'
            || c == '/' || c == '.' || c == '=' || c == ':' || c == '@' || c == '%' || c == '+' || c == ',' {
            i += 1;
        } else {
            assert(!is_safe_char(cs@[i as int]));
            safe = false;
        }
    }
    if safe {
        s.to_owned()
    } else {
        shell_quote(s)
    }
}

/// What a shell takes the text of one word for: single quotes keep everything between them, and
/// outside them a backslash keeps the next character.
pub open spec fn word_read(s: Seq<char>, inside: bool) -> Seq<char>
    decreases s.len(),
{
    if s.len() == 0 {
        Seq::empty()
    } else if s[0] == '\'' {
        word_read(s.skip(1), !inside)
    } else if !inside && s[0] == '\\' && s.len() > 1 {
        seq![s[1]] + word_read(s.skip(2), false)
    } else {
        seq![s[0]] + word_read(s.skip(1), inside)
    }
}

proof fn lemma_escaped_push_front(c: char, s: Seq<char>)
    ensures
        escaped(seq![c] + s) == escaped_char(c) + escaped(s),
    decreases s.len(),
{
    if s.len() == 0 {
        let one = seq![c] + s;
        assert(one.drop_last() == Seq::<char>::empty());
        assert(one.last() == c);
        assert(escaped(one.drop_last()) == Seq::<char>::empty());
        assert(escaped(one) =~= escaped_char(c));
        assert(escaped_char(c) + escaped(s) =~= escaped_char(c));
    } else {
        let t = seq![c] + s;
        assert(t.drop_last() == seq![c] + s.drop_last());
        lemma_escaped_push_front(c, s.drop_last());
        assert((escaped_char(c) + escaped(s.drop_last())) + escaped_char(s.last()) =~= escaped_char(c) + escaped(s));
    }
}

/// Inside its quotes, an escaped text reads back as the text.
proof fn lemma_escaped_reads_back(s: Seq<char>)
    ensures
        word_read(escaped(s) + seq!['\''], true) == s,
    decreases s.len(),
{
    reveal_with_fuel(word_read, 5);
    if s.len() == 0 {
        let t = escaped(s) + seq!['\''];
        assert(t.skip(1) =~= Seq::<char>::empty());
    } else {
        let c = s[0];
        let rest = s.skip(1);
        assert(s == seq![c] + rest);
        lemma_escaped_push_front(c, rest);
        lemma_escaped_reads_back(rest);
        let tail = escaped(rest) + seq!['\''];
        let t = escaped(s) + seq!['\''];
        assert(t =~= escaped_char(c) + tail);
        if c == '\'' {
            assert(t.skip(1).skip(2) =~= seq!['\''] + tail);
            assert((seq!['\''] + tail).skip(1) =~= tail);
            assert(t.skip(1)[0] == '\\' && t.skip(1)[1] == '\'');
        } else {
            assert(t.skip(1) =~= tail);
        }
    }
}

/// Quoting loses nothing: a shell reads the quoted word back as the text, for every text.
pub proof fn quoting_reads_back(s: Seq<char>)
    ensures
        word_read(quoted(s), false) == s,
{
    lemma_escaped_reads_back(s);
    assert(quoted(s).skip(1) =~= escaped(s) + seq!['\'']);
}

proof fn lemma_safe_reads_back(s: Seq<char>)
    requires
        forall|i: int| 0 <= i < s.len() ==> is_safe_char(#[trigger] s[i]),
    ensures
        word_read(s, false) == s,
    decreases s.len(),
{
    if s.len() > 0 {
        assert(is_safe_char(s[0]));
        assert forall|i: int| 0 <= i < s.skip(1).len() implies is_safe_char(#[trigger] s.skip(1)[i]) by {
            assert(is_safe_char(s[i + 1]));
        }
        lemma_safe_reads_back(s.skip(1));
        assert(seq![s[0]] + s.skip(1) =~= s);
    }
}

/// A traced argument can be pasted into a shell: it reads back as the argument, for every
/// argument.
pub proof fn traced_word_reads_back(s: Seq<char>)
    ensures
        word_read(traced_word(s), false) == s,
{
    if is_safe(s) {
        lemma_safe_reads_back(s);
    } else {
        quoting_reads_back(s);
    }
}

/// The words of a traced command.
pub open spec fn traced_words(argv: Seq<Seq<char>>) -> Seq<Seq<char>> {
    argv.map_values(|a: Seq<char>| traced_word(a))
}

/// The line that traces a command: its words, after a `cd` where it has a directory of its own.
pub open spec fn trace_text(argv: Seq<Seq<char>>, dir: Option<Seq<char>>) -> Seq<char> {
    let line = joined(traced_words(argv), " "@);
    match dir {
        Some(d) => "cd "@ + traced_word(d) + " && "@ + line,
        None => line,
    }
}

/// The line that traces a command, given its program and arguments.
pub fn trace_line(argv: &Vec<String>, dir: Option<&str>) -> (r: String)
    ensures
        r@ == trace_text(views(argv@), match dir {
            Some(d) => Some(d@),
            None => None,
        }),
{
    let mut parts: Vec<String> = Vec::new();
    let mut i: usize = 0;
    while i < argv.len()
        invariant
            i <= argv@.len(),
            views(parts@) == traced_words(views(argv@)).take(i as int),
        decreases argv@.len() - i,
    {
        let word = sh_quote(&argv[i]);
        let ghost before = parts@;
        parts.push(word);
        i += 1;
        proof {
            lemma_views_push(before, word);
            assert(traced_words(views(argv@)).take(i as int) == traced_words(views(argv@)).take(i - 1).push(
                word@,
            ));
        }
    }
    assert(traced_words(views(argv@)).take(i as int) == traced_words(views(argv@)));
    let line = join(&parts, " ");
    match dir {
        Some(d) => cat4("cd ", &sh_quote(d), " && ", &line),
        None => line,
    }
}

/// A word of nothing but safe characters is traced as it is, and any other in quotes.
pub proof fn safe_words_are_traced_bare(s: Seq<char>)
    ensures
        s.len() > 0 && (forall|i: int| 0 <= i < s.len() ==> is_safe_char(#[trigger] s[i])) ==> traced_word(s) == s,
        s.len() == 0 ==> traced_word(s) == seq!['\'', '\''],
        (exists|i: int| 0 <= i < s.len() && !is_safe_char(#[trigger] s[i])) ==> traced_word(s) != s && traced_word(
            s,
        )[0] == '\'' && traced_word(s).last() == '\'' && traced_word(s).len() >= s.len() + 2,
{
    if s.len() == 0 {
        assert(traced_word(s) =~= seq!['\'', '\'']);
    }
    lemma_escaped_len(s);
}

proof fn lemma_escaped_len(s: Seq<char>)
    ensures
        escaped(s).len() >= s.len(),
    decreases s.len(),
{
    if s.len() > 0 {
        lemma_escaped_len(s.drop_last());
    }
}

/// A command is traced word by word, in order, with one blank between each two, behind a change to the
/// directory where it has one of its own.
pub proof fn traces_show_every_word(argv: Seq<Seq<char>>, last: Seq<char>, dir: Option<Seq<char>>)
    ensures
        argv.len() > 0 ==> trace_text(argv.push(last), None) == trace_text(argv, None) + " "@ + traced_word(last),
        trace_text(seq![last], None) == traced_word(last),
        dir is Some ==> trace_text(argv, dir) == "cd "@ + traced_word(dir->0) + " && "@ + trace_text(argv, None),
{
    let all = argv.push(last);
    assert(traced_words(all).drop_last() =~= traced_words(argv));
    assert(traced_words(all).last() == traced_word(last));
    assert(traced_words(seq![last]) =~= seq![traced_word(last)]);
}

/// A character that can start a variable's name.
pub open spec fn starts_name(c: char) -> bool {
    ||| c == '_'
    ||| 'a' <= c <= 'z'
    ||| 'A' <= c <= 'Z'
}

/// A character that can go on with a variable's name.
pub open spec fn continues_name(c: char) -> bool {
    starts_name(c) || '0' <= c <= '9'
}

/// The length of the name that `s` begins with.
pub open spec fn name_len(s: Seq<char>) -> int
    decreases s.len(),
{
    if s.len() > 0 && continues_name(s[0]) {
        1 + name_len(s.skip(1))
    } else {
        0
    }
}

proof fn lemma_name_len(s: Seq<char>, k: int)
    requires
        0 <= k <= s.len(),
        forall|j: int| 0 <= j < k ==> continues_name(#[trigger] s[j]),
        k < s.len() ==> !continues_name(s[k]),
    ensures
        name_len(s) == k,
    decreases k,
{
    if k > 0 {
        assert(continues_name(s[0]));
        assert forall|j: int| 0 <= j < k - 1 implies continues_name(#[trigger] s.skip(1)[j]) by {
            assert(continues_name(s[j + 1]));
        }
        lemma_name_len(s.skip(1), k - 1);
    }
}

proof fn lemma_name_len_bounds(s: Seq<char>)
    ensures
        0 <= name_len(s) <= s.len(),
    decreases s.len(),
{
    if s.len() > 0 && continues_name(s[0]) {
        lemma_name_len_bounds(s.skip(1));
    }
}

/// The value of an environment variable; nothing where it is unset.
pub open spec fn env_value(env: Seq<(Seq<char>, String)>, name: Seq<char>) -> Seq<char> {
    if has_name(env, name) {
        value_of(env, name)@
    } else {
        Seq::empty()
    }
}

/// `s` with every `$NAME` and `${NAME}` replaced by the variable's value. A `${` that is never
/// closed ends the expansion, and a `$` before anything else stays.
pub open spec fn env_expanded(s: Seq<char>, env: Seq<(Seq<char>, String)>) -> Seq<char>
    decreases s.len(),
    via env_expanded_decreases
{
    if s.len() == 0 {
        Seq::empty()
    } else if s[0] == '$' && s.len() > 1 && s[1] == '{' {
        let n = index_of(s.skip(2), '}');
        if 0 <= n && n + 2 < s.len() {
            env_value(env, s.subrange(2, n + 2)) + env_expanded(s.skip(n + 3), env)
        } else {
            s
        }
    } else if s[0] == '$' && s.len() > 1 && starts_name(s[1]) {
        let n = name_len(s.skip(1));
        env_value(env, s.subrange(1, n + 1)) + env_expanded(s.skip(n + 1), env)
    } else {
        s.take(1) + env_expanded(s.skip(1), env)
    }
}

#[via_fn]
proof fn env_expanded_decreases(s: Seq<char>, env: Seq<(Seq<char>, String)>) {
    if s.len() > 1 {
        lemma_name_len_bounds(s.skip(1));
        lemma_index_of(s.skip(2), '}');
    }
}

fn lookup(env: &Table<String>, name: &str) -> (r: String)
    ensures
        r@ == env_value(env@, name@),
{
    match env.get(name) {
        Some(value) => value.clone(),
        None => String::new(),
    }
}

/// Expands `$NAME` and `${NAME}` against the environment `env`.
pub fn expand_env_vars(input: &str, env: &Table<String>) -> (r: String)
    ensures
        r@ == env_expanded(input@, env@),
{
    let cs = chars_of(input);
    let mut out = String::new();
    let mut i: usize = 0;
    proof {
        assert(cs@.skip(0) == cs@);
        assert(Seq::<char>::empty() + env_expanded(cs@, env@) =~= env_expanded(cs@, env@));
    }
    while i < cs.len()
        invariant
            i <= cs@.len(),
            cs@ == input@,
            out@ + env_expanded(cs@.skip(i as int), env@) == env_expanded(cs@, env@),
        decreases cs@.len() - i,
    {
        let ghost rest = cs@.skip(i as int);
        let ghost before = out@;
        let c: char = cs[i];
        assert(rest[0] == c);
        if c == '$' && i + 1 < cs.len() && cs[i + 1] == '{' {
            assert(rest[1] == '{');
            assert(rest.skip(2) == cs@.skip(i + 2));
            let end: usize = find(&cs, i + 2, '}');
            if end < cs.len() {
                let name = string_of(&cs, i + 2, end);
                let value = lookup(env, &name);
                out.append(&value);
                proof {
                    assert(rest.subrange(2, end - i) == name@);
                    assert(rest.skip(end - i + 1) == cs@.skip(end + 1));
                    assert(before + (value@ + env_expanded(cs@.skip(end + 1), env@)) == out@ + env_expanded(
                        cs@.skip(end + 1),
                        env@,
                    ));
                }
                i = end + 1;
            } else {
                let tail = string_of(&cs, i, cs.len());
                out.append(&tail);
                assert(tail@ == rest);
                return out;
            }
        } else if c == '$' && i + 1 < cs.len() && (cs[i + 1] == '_' || ('a' <= cs[i + 1] && cs[i + 1] <= 'z') || (
        'A' <= cs[i + 1] && cs[i + 1] <= 'Z')) {
            let mut end: usize = i + 1;
            while end < cs.len() && (cs[end] == '_' || ('a' <= cs[end] && cs[end] <= 'z') || ('A' <= cs[end]
                && cs[end] <= 'Z') || ('0' <= cs[end] && cs[end] <= '9'))
                invariant
                    i + 1 <= end <= cs@.len(),
                    forall|j: int| i + 1 <= j < end ==> continues_name(#[trigger] cs@[j]),
                decreases cs@.len() - end,
            {
                end += 1;
            }
            let name = string_of(&cs, i + 1, end);
            let value = lookup(env, &name);
            out.append(&value);
            proof {
                assert(rest[1] == cs@[i + 1]);
                assert forall|j: int| 0 <= j < end - i - 1 implies continues_name(#[trigger] rest.skip(1)[j]) by {
                    assert(rest.skip(1)[j] == cs@[i + 1 + j]);
                }
                lemma_name_len(rest.skip(1), end - i - 1);
                assert(rest.subrange(1, end - i) == name@);
                assert(rest.skip(end - i) == cs@.skip(end as int));
                assert(before + (value@ + env_expanded(cs@.skip(end as int), env@)) == out@ + env_expanded(
                    cs@.skip(end as int),
                    env@,
                ));
            }
            i = end;
        } else {
            out.push(c);
            i += 1;
            proof {
                if rest.len() > 1 {
                    assert(rest[1] == cs@[i as int]);
                }
                assert(rest.skip(1) == cs@.skip(i as int));
                assert(rest.take(1) == seq![c]);
                assert(out@ =~= before + seq![c]);
                assert(before + (seq![c] + env_expanded(cs@.skip(i as int), env@)) =~= out@ + env_expanded(
                    cs@.skip(i as int),
                    env@,
                ));
            }
        }
    }
    assert(cs@.skip(i as int) == Seq::<char>::empty());
    assert(out@ + Seq::<char>::empty() == out@);
    out
}

/// `s` with a leading `~` replaced by the home directory, where there is one.
pub open spec fn home_expanded(s: Seq<char>, home: Option<Seq<char>>) -> Seq<char> {
    match home {
        None => s,
        Some(h) => if s == "~"@ {
            h
        } else if begins_with(s, "~/"@) {
            path_of(h, s.skip(2))
        } else {
            s
        },
    }
}

/// A text without variables stays as it is, whatever the environment.
pub proof fn texts_without_variables_stay(s: Seq<char>, env: Seq<(Seq<char>, String)>)
    requires
        forall|i: int| 0 <= i < s.len() ==> s[i] != '$',
    ensures
        env_expanded(s, env) == s,
    decreases s.len(),
{
    if s.len() > 0 {
        assert forall|i: int| 0 <= i < s.skip(1).len() implies s.skip(1)[i] != '$' by {
            assert(s.skip(1)[i] == s[i + 1]);
        }
        texts_without_variables_stay(s.skip(1), env);
        assert(s.take(1) + s.skip(1) =~= s);
    } else {
        assert(env_expanded(s, env) =~= s);
    }
}

/// What stands in front of the first `$` stays as it is.
proof fn lemma_expanded_front(front: Seq<char>, rest: Seq<char>, env: Seq<(Seq<char>, String)>)
    requires
        forall|i: int| 0 <= i < front.len() ==> front[i] != '$',
    ensures
        env_expanded(front + rest, env) == front + env_expanded(rest, env),
    decreases front.len(),
{
    let s = front + rest;
    if front.len() == 0 {
        assert(s =~= rest);
        assert(front + env_expanded(rest, env) =~= env_expanded(rest, env));
    } else {
        let fewer = front.skip(1);
        assert forall|i: int| 0 <= i < fewer.len() implies fewer[i] != '$' by {
            assert(fewer[i] == front[i + 1]);
        }
        assert(s[0] == front[0]);
        assert(s.skip(1) =~= fewer + rest);
        assert(s.take(1) =~= front.take(1));
        lemma_expanded_front(fewer, rest, env);
        assert(front.take(1) + (fewer + env_expanded(rest, env)) =~= front + env_expanded(rest, env));
    }
}

/// A variable stands for its value, in braces or bare, and for nothing where it is unset; a bare name
/// goes on as long as letters, digits and underscores do. What comes before and after is as it was,
/// and a brace that is never closed ends it all.
pub proof fn variables_stand_for_their_values(
    front: Seq<char>,
    name: Seq<char>,
    rest: Seq<char>,
    env: Seq<(Seq<char>, String)>,
)
    requires
        forall|i: int| 0 <= i < front.len() ==> front[i] != '$',
        forall|i: int| 0 <= i < name.len() ==> name[i] != '}',
    ensures
        ({
            let value = if has_name(env, name) {
                value_of(env, name)@
            } else {
                Seq::<char>::empty()
            };
            &&& env_expanded(front + seq!['$', '{'] + name + seq!['}'] + rest, env) == front + value + env_expanded(
                rest,
                env,
            )
            &&& name.len() > 0 && starts_name(name[0]) && (forall|i: int|
                0 <= i < name.len() ==> continues_name(#[trigger] name[i])) && (rest.len() > 0 ==> !continues_name(
                rest[0],
            )) ==> env_expanded(front + seq!['$'] + name + rest, env) == front + value + env_expanded(rest, env)
            &&& env_expanded(front + seq!['$', '{'] + name, env) == front + seq!['$', '{'] + name
        }),
{
    let value = env_value(env, name);
    let n = name.len() as int;
    let s = seq!['$', '{'] + name + seq!['}'] + rest;
    assert(front + seq!['$', '{'] + name + seq!['}'] + rest =~= front + s);
    lemma_expanded_front(front, s, env);
    assert forall|j: int| 0 <= j < n implies s.skip(2)[j] != '}' by {
        assert(s.skip(2)[j] == name[j]);
    }
    assert(s.skip(2)[n] == '}');
    lemma_index_of_is(s.skip(2), '}', n);
    assert(s.subrange(2, n + 2) =~= name);
    assert(s.skip(n + 3) =~= rest);
    assert(front + (value + env_expanded(rest, env)) =~= front + value + env_expanded(rest, env));
    if name.len() > 0 && starts_name(name[0]) && (forall|i: int|
        0 <= i < name.len() ==> continues_name(#[trigger] name[i])) && (rest.len() > 0 ==> !continues_name(rest[0])) {
        let t = seq!['$'] + name + rest;
        assert(front + seq!['$'] + name + rest =~= front + t);
        lemma_expanded_front(front, t, env);
        assert(t.skip(1) =~= name + rest);
        assert forall|j: int| 0 <= j < n implies continues_name(#[trigger] t.skip(1)[j]) by {
            assert(t.skip(1)[j] == name[j]);
        }
        if rest.len() > 0 {
            assert(t.skip(1)[n] == rest[0]);
        }
        lemma_name_len(t.skip(1), n);
        assert(t[1] == name[0]);
        assert(t.subrange(1, n + 1) =~= name);
        assert(t.skip(n + 1) =~= rest);
    }
    let u = seq!['$', '{'] + name;
    assert(front + seq!['$', '{'] + name =~= front + u);
    lemma_expanded_front(front, u, env);
    assert forall|j: int| 0 <= j < n implies u.skip(2)[j] != '}' by {
        assert(u.skip(2)[j] == name[j]);
    }
    lemma_index_of_is(u.skip(2), '}', n);
}

/// Only a tilde that is the whole path, or comes before its first slash, stands for the home directory.
pub proof fn tildes_stand_for_home(s: Seq<char>, home: Seq<char>)
    ensures
        home_expanded(seq!['~'], Some(home)) == home,
        home_expanded(seq!['~', '/'] + s, Some(home)) == path_of(home, s),
        s.len() == 0 || s[0] != '~' || (s.len() > 1 && s[1] != '/') ==> home_expanded(s, Some(home)) == s,
        home_expanded(s, None) == s,
{
    reveal_strlit("~");
    reveal_strlit("~/");
    assert(seq!['~'] =~= "~"@);
    let t = seq!['~', '/'] + s;
    assert(t.take(2) =~= "~/"@);
    assert(t.skip(2) =~= s);
    assert(t.len() != "~"@.len());
    if s == "~"@ {
        assert(s[0] == '~');
    }
    if begins_with(s, "~/"@) {
        assert(s.take(2)[0] == "~/"@[0]);
        assert(s.take(2)[1] == "~/"@[1]);
        assert(s[0] == '~' && s[1] == '/');
    }
}

/// Expands a path that the user typed: `$NAME` and `${NAME}`, then a leading `~`.
pub fn expand_path(input: &str, env: &Table<String>, home: Option<&str>) -> (r: String)
    ensures
        r@ == home_expanded(env_expanded(input@, env@), match home {
            Some(h) => Some(h@),
            None => None,
        }),
{
    let expanded = expand_env_vars(input, env);
    match home {
        None => expanded,
        Some(h) => {
            if same(&expanded, "~") {
                h.to_owned()
            } else if starts(&expanded, "~/") {
                let cs = chars_of(&expanded);
                proof {
                    reveal_strlit("~/");
                }
                let rest = string_of(&cs, 2, cs.len());
                assert(rest@ == expanded@.skip(2));
                path_join(h, &rest)
            } else {
                expanded
            }
        },
    }
}

} // verus!
