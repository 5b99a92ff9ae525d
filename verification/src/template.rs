//! Variable sets and the `@NAME@` templates they fill in.

use crate::table::{
    distinct, has_name, inserted, lemma_inserted_lookup, lemma_mapped, lemma_place, mapped, place, value_of, Table,
};
use crate::text::{
    cat3, chars_of, decimal, decimal_of, find, index_of, lemma_index_of_is, same, signed_decimal, signed_decimal_of, string_of,
};
use vstd::prelude::*;

verus! {

/// The value of one template variable.
#[derive(Debug, PartialEq)]
pub enum VarValue {
    Str(String),
    Int(i64),
    Bool(bool),
}

impl VarValue {
    /// What a template gets for this value: the text itself, the number in decimal, `1` or `0`.
    pub open spec fn text(self) -> Seq<char> {
        match self {
            VarValue::Str(s) => s@,
            VarValue::Int(n) => signed_decimal_of(n as int),
            VarValue::Bool(b) => if b {
                "1"@
            } else {
                "0"@
            },
        }
    }

    /// What a template gets for this value.
    pub fn canonical(&self) -> (r: String)
        ensures
            r@ == self.text(),
    {
        match self {
            VarValue::Str(s) => s.clone(),
            VarValue::Int(n) => signed_decimal(*n),
            VarValue::Bool(b) => if *b {
                "1".to_owned()
            } else {
                "0".to_owned()
            },
        }
    }

    /// A copy that holds the same.
    pub fn copy(&self) -> (r: VarValue)
        ensures
            r == *self,
    {
        match self {
            VarValue::Str(s) => VarValue::Str(s.clone()),
            VarValue::Int(n) => VarValue::Int(*n),
            VarValue::Bool(b) => VarValue::Bool(*b),
        }
    }
}

/// What a variable's value holds.
pub enum VarText {
    Str(Seq<char>),
    Int(int),
    Bool(bool),
}

impl View for VarValue {
    type V = VarText;

    open spec fn view(&self) -> VarText {
        match *self {
            VarValue::Str(s) => VarText::Str(s@),
            VarValue::Int(n) => VarText::Int(n as int),
            VarValue::Bool(b) => VarText::Bool(b),
        }
    }
}

/// The variables with what their values hold.
pub open spec fn var_views(vars: Seq<(Seq<char>, VarValue)>) -> Seq<(Seq<char>, VarText)> {
    mapped(vars, |v: VarValue| v@)
}

/// A text value.
pub fn text_value(s: &str) -> (r: VarValue)
    ensures
        r@ == VarText::Str(s@),
{
    VarValue::Str(s.to_owned())
}

/// Entries after each of a list was put under its name, in order.
pub open spec fn set_all(
    entries: Seq<(Seq<char>, VarText)>,
    block: Seq<(Seq<char>, VarText)>,
) -> Seq<(Seq<char>, VarText)>
    decreases block.len(),
{
    if block.len() == 0 {
        entries
    } else {
        inserted(set_all(entries, block.drop_last()), block.last().0, block.last().1)
    }
}

/// What is set last under a name is what the name then has, and names that are not set keep what
/// they had.
pub proof fn lemma_set_all_lookup(
    entries: Seq<(Seq<char>, VarText)>,
    block: Seq<(Seq<char>, VarText)>,
    name: Seq<char>,
)
    requires
        distinct(entries),
    ensures
        distinct(set_all(entries, block)),
        forall|i: int|
            #![trigger block[i]]
            0 <= i < block.len() && block[i].0 == name && (forall|j: int|
                i < j < block.len() ==> (#[trigger] block[j]).0 != name) ==> has_name(set_all(entries, block), name)
                && value_of(set_all(entries, block), name) == block[i].1,
        !has_name(block, name) ==> has_name(set_all(entries, block), name) == has_name(entries, name),
        !has_name(block, name) && has_name(entries, name) ==> value_of(set_all(entries, block), name) == value_of(
            entries,
            name,
        ),
    decreases block.len(),
{
    if block.len() > 0 {
        let fewer = block.drop_last();
        let last = block.last();
        lemma_set_all_lookup(entries, fewer, name);
        lemma_inserted_lookup(set_all(entries, fewer), last.0, last.1, name);
        assert forall|i: int|
            #![trigger block[i]]
            0 <= i < block.len() && block[i].0 == name && (forall|j: int|
                i < j < block.len() ==> (#[trigger] block[j]).0 != name) implies has_name(set_all(entries, block), name)
            && value_of(set_all(entries, block), name) == block[i].1 by {
            if i < block.len() - 1 {
                assert(block[block.len() - 1].0 != name);
                assert(fewer[i] == block[i]);
                assert forall|j: int| i < j < fewer.len() implies (#[trigger] fewer[j]).0 != name by {
                    assert(fewer[j] == block[j]);
                }
            }
        }
        if !has_name(block, name) {
            assert(block[block.len() - 1].0 != name);
            if has_name(fewer, name) {
                let i = choose|i: int| 0 <= i < fewer.len() && (#[trigger] fewer[i]).0 == name;
                assert(block[i].0 == name);
            }
        }
    }
}

/// Two blocks can be set one after the other.
pub proof fn lemma_set_all_add(
    entries: Seq<(Seq<char>, VarText)>,
    a: Seq<(Seq<char>, VarText)>,
    b: Seq<(Seq<char>, VarText)>,
)
    ensures
        set_all(set_all(entries, a), b) == set_all(entries, a + b),
    decreases b.len(),
{
    if b.len() == 0 {
        assert(a + b == a);
    } else {
        lemma_set_all_add(entries, a, b.drop_last());
        assert((a + b).drop_last() == a + b.drop_last());
        assert((a + b).last() == b.last());
    }
}

/// The names and values of a list, as what they hold.
pub open spec fn block_views(block: Seq<(String, VarValue)>) -> Seq<(Seq<char>, VarText)> {
    Seq::new(block.len(), |i: int| (block[i].0@, block[i].1@))
}

/// A name with a value.
pub fn var(name: &str, value: VarValue) -> (r: (String, VarValue))
    ensures
        r.0@ == name@,
        r.1 == value,
{
    (name.to_owned(), value)
}

/// An unsigned number: an integer where it fits one, else the text of its digits.
pub open spec fn number_text(n: nat) -> VarText {
    if n <= i64::MAX {
        VarText::Int(n as int)
    } else {
        VarText::Str(decimal_of(n))
    }
}

/// An unsigned number: an integer where it fits one, else the text of its digits.
pub fn number_value(n: u64) -> (r: VarValue)
    ensures
        r@ == number_text(n as nat),
        r.text() == decimal_of(n as nat),
{
    if n <= 9223372036854775807u64 {
        VarValue::Int(n as i64)
    } else {
        VarValue::Str(decimal(n))
    }
}

/// Why a template cannot be filled in.
#[derive(Debug)]
pub enum TemplateError {
    /// The template names a variable that the set does not hold.
    Unknown(String),
    /// The template reads an environment variable that is unset or empty.
    Unset(String),
}

impl TemplateError {
    /// The message for the user, as text.
    pub open spec fn text(self) -> Seq<char> {
        match self {
            TemplateError::Unknown(name) => "unknown variable @"@ + name@ + "@"@,
            TemplateError::Unset(name) => "environment variable "@ + name@ + " is unset or empty"@,
        }
    }

    /// The message for the user.
    pub fn message(&self) -> (r: String)
        ensures
            r@ == self.text(),
    {
        match self {
            TemplateError::Unknown(name) => cat3("unknown variable @", name, "@"),
            TemplateError::Unset(name) => cat3("environment variable ", name, " is unset or empty"),
        }
    }
}

/// What filling in a template comes to.
pub enum Filled {
    Text(Seq<char>),
    Unknown(Seq<char>),
    Unset(Seq<char>),
}

/// `head` in front of a filled-in rest; a failure of the rest stays that failure.
pub open spec fn after(head: Seq<char>, rest: Filled) -> Filled {
    match rest {
        Filled::Text(t) => Filled::Text(head + t),
        other => other,
    }
}

impl View for TemplateError {
    type V = Filled;

    open spec fn view(&self) -> Filled {
        match *self {
            TemplateError::Unknown(name) => Filled::Unknown(name@),
            TemplateError::Unset(name) => Filled::Unset(name@),
        }
    }
}

/// Whether `r` reports what filling in a template came to.
pub open spec fn reports(r: Result<String, TemplateError>, f: Filled) -> bool {
    match r {
        Ok(s) => f == Filled::Text(s@),
        Err(e) => f == e@,
    }
}

/// A character of a variable's name.
pub open spec fn is_name_char(c: char) -> bool {
    ||| 'a' <= c <= 'z'
    ||| 'A' <= c <= 'Z'
    ||| '0' <= c <= '9'
    ||| c == '_'
}

/// Whether `s` is a variable's name: one or more letters, digits and underscores.
pub open spec fn is_plain_name(s: Seq<char>) -> bool {
    s.len() > 0 && forall|i: int| 0 <= i < s.len() ==> is_name_char(#[trigger] s[i])
}

/// The environment variable that a token of the form `ENV(NAME)` reads.
pub open spec fn env_name(token: Seq<char>) -> Seq<char> {
    token.subrange(4, token.len() - 1)
}

/// Whether a token reads an environment variable.
pub open spec fn is_env_token(token: Seq<char>) -> bool {
    &&& token.len() > 5
    &&& token[0] == 'E'
    &&& token[1] == 'N'
    &&& token[2] == 'V'
    &&& token[3] == '('
    &&& token.last() == ')'
    &&& is_plain_name(env_name(token))
}

/// The value that a token stands for.
pub open spec fn token_value(
    token: Seq<char>,
    vars: Seq<(Seq<char>, Seq<char>)>,
    env: Seq<(Seq<char>, Seq<char>)>,
) -> Filled {
    if is_env_token(token) {
        let name = env_name(token);
        if has_name(env, name) && value_of(env, name).len() > 0 {
            Filled::Text(value_of(env, name))
        } else {
            Filled::Unset(name)
        }
    } else if has_name(vars, token) {
        Filled::Text(value_of(vars, token))
    } else {
        Filled::Unknown(token)
    }
}

/// `s` with every `@NAME@` replaced by the variable's value, every `@ENV(NAME)@` by the
/// environment's, and `@@` by one `@`. What is put in is not scanned again, and an `@` that
/// starts no token stays as it is. The first token without a value decides a failure.
pub open spec fn filled(
    s: Seq<char>,
    vars: Seq<(Seq<char>, Seq<char>)>,
    env: Seq<(Seq<char>, Seq<char>)>,
) -> Filled
    decreases s.len(),
{
    if s.len() == 0 {
        Filled::Text(Seq::empty())
    } else if s[0] != '@' {
        after(s.take(1), filled(s.skip(1), vars, env))
    } else {
        let n = index_of(s.skip(1), '@');
        let token = s.subrange(1, 1 + n);
        if 0 <= n && n + 1 < s.len() && n == 0 {
            after(s.take(1), filled(s.skip(2), vars, env))
        } else if 0 <= n && n + 1 < s.len() && (is_plain_name(token) || is_env_token(token)) {
            match token_value(token, vars, env) {
                Filled::Text(t) => after(t, filled(s.skip(n + 2), vars, env)),
                failure => failure,
            }
        } else {
            after(s.take(1), filled(s.skip(1), vars, env))
        }
    }
}

/// Whether `cs[from..to]` is a variable's name.
fn plain_name(cs: &Vec<char>, from: usize, to: usize) -> (r: bool)
    requires
        from <= to <= cs@.len(),
    ensures
        r == is_plain_name(cs@.subrange(from as int, to as int)),
{
    let ghost name = cs@.subrange(from as int, to as int);
    if from == to {
        return false;
    }
    let mut i: usize = from;
    while i < to
        invariant
            from <= i <= to <= cs@.len(),
            name == cs@.subrange(from as int, to as int),
            forall|j: int| 0 <= j < i - from ==> is_name_char(#[trigger] name[j]),
        decreases to - i,
    {
        let c: char = cs[i];
        assert(name[i - from] == c);
        if !(('a' <= c && c <= 'z') || ('A' <= c && c <= 'Z') || ('0' <= c && c <= '9') || c == '_') {
            return false;
        }
        i += 1;
    }
    true
}

/// Whether `cs[from..to]` reads an environment variable.
fn env_token(cs: &Vec<char>, from: usize, to: usize) -> (r: bool)
    requires
        from <= to <= cs@.len(),
    ensures
        r == is_env_token(cs@.subrange(from as int, to as int)),
{
    let ghost token = cs@.subrange(from as int, to as int);
    if to - from <= 5 {
        return false;
    }
    assert(env_name(token) == cs@.subrange(from + 4, to - 1));
    cs[from] == 'E' && cs[from + 1] == 'N' && cs[from + 2] == 'V' && cs[from + 3] == '(' && cs[to - 1] == ')'
        && plain_name(cs, from + 4, to - 1)
}

/// The variables with the text that each one puts into a template.
pub open spec fn texts_of(vars: Seq<(Seq<char>, VarValue)>) -> Seq<(Seq<char>, Seq<char>)> {
    mapped(vars, |v: VarValue| v.text())
}

/// An environment's variables with their values.
pub open spec fn env_of(env: Seq<(Seq<char>, String)>) -> Seq<(Seq<char>, Seq<char>)> {
    mapped(env, |s: String| s@)
}

/// Entries without repeated names can be put into a table one after the other.
proof fn lemma_next<V>(entries: Seq<(Seq<char>, V)>, i: int)
    requires
        distinct(entries),
        0 <= i < entries.len(),
    ensures
        inserted(entries.take(i), entries[i].0, entries[i].1) == entries.take(i + 1),
{
    let before = entries.take(i);
    if has_name(before, entries[i].0) {
        let p = place(before, entries[i].0);
        assert(entries[p].0 != entries[i].0);
    }
    assert(inserted(before, entries[i].0, entries[i].1) =~= entries.take(i + 1));
}

/// Named values for templates, with the environment that `@ENV(NAME)@` reads.
pub struct VarSet {
    pub vars: Table<VarValue>,
    pub env: Table<String>,
}

impl VarSet {
    /// The variables with the text that each one puts into a template.
    pub open spec fn texts(self) -> Seq<(Seq<char>, Seq<char>)> {
        texts_of(self.vars@)
    }

    /// The environment's variables with their values.
    pub open spec fn env_texts(self) -> Seq<(Seq<char>, Seq<char>)> {
        env_of(self.env@)
    }

    /// No variables, and an empty environment.
    pub fn new() -> (r: VarSet)
        ensures
            r.vars@ == Seq::<(Seq<char>, VarValue)>::empty(),
            r.env@ == Seq::<(Seq<char>, String)>::empty(),
    {
        VarSet { vars: Table::new(), env: Table::new() }
    }

    /// A copy that holds the same.
    pub fn copy(&self) -> (r: VarSet)
        ensures
            r.vars@ == self.vars@,
            r.env@ == self.env@,
            distinct(self.vars@),
    {
        let n: usize = self.vars.len();
        let m: usize = self.env.len();
        let mut vars: Table<VarValue> = Table::new();
        let mut i: usize = 0;
        assert(self.vars@.take(0) =~= vars@);
        while i < n
            invariant
                i <= n,
                n == self.vars@.len(),
                distinct(self.vars@),
                vars@ == self.vars@.take(i as int),
            decreases n - i,
        {
            let name = self.vars.name_at(i).to_owned();
            let value = self.vars.at(i).copy();
            proof {
                lemma_next(self.vars@, i as int);
            }
            vars.insert(name, value);
            i += 1;
        }
        assert(self.vars@.take(i as int) =~= self.vars@);
        let mut env: Table<String> = Table::new();
        let mut j: usize = 0;
        assert(self.env@.take(0) =~= env@);
        while j < m
            invariant
                j <= m,
                m == self.env@.len(),
                distinct(self.env@),
                env@ == self.env@.take(j as int),
            decreases m - j,
        {
            let name = self.env.name_at(j).to_owned();
            let value = self.env.at(j).clone();
            proof {
                lemma_next(self.env@, j as int);
            }
            env.insert(name, value);
            j += 1;
        }
        assert(self.env@.take(j as int) =~= self.env@);
        VarSet { vars, env }
    }

    /// Gives `name` the value `value`.
    pub fn set(&mut self, name: &str, value: VarValue)
        ensures
            final(self).vars@ == inserted(old(self).vars@, name@, value),
            final(self).env == old(self).env,
    {
        self.vars.insert(name.to_owned(), value);
    }

    /// Gives each name of a list its value, in order.
    pub fn set_block(&mut self, block: Vec<(String, VarValue)>)
        ensures
            var_views(final(self).vars@) == set_all(var_views(old(self).vars@), block_views(block@)),
            final(self).env == old(self).env,
            distinct(final(self).vars@),
    {
        let ghost start = var_views(self.vars@);
        let ghost all = block_views(block@);
        let mut i: usize = 0;
        let known: usize = self.vars.len();
        assert(all.take(0) == Seq::<(Seq<char>, VarText)>::empty());
        while i < block.len()
            invariant
                i <= block@.len(),
                all == block_views(block@),
                self.env == old(self).env,
                distinct(self.vars@),
                var_views(self.vars@) == set_all(start, all.take(i as int)),
            decreases block@.len() - i,
        {
            let value = block[i].1.copy();
            proof {
                let name = block@[i as int].0@;
                assert(all.take(i + 1).drop_last() == all.take(i as int));
                assert(all.take(i + 1).last() == all[i as int]);
                lemma_mapped(self.vars@, |v: VarValue| v@, name, value);
                lemma_inserted_lookup(self.vars@, name, value, name);
            }
            self.set(&block[i].0, value);
            i += 1;
        }
        assert(all.take(i as int) == all);
    }

    /// The value of `name`.
    pub fn get(&self, name: &str) -> (r: Option<&VarValue>)
        ensures
            r is Some <==> has_name(self.vars@, name@),
            r is Some ==> *r->0 == value_of(self.vars@, name@),
    {
        self.vars.get(name)
    }

    /// The texts of the variables once `extra` is among them.
    pub open spec fn texts_with(self, extra: Option<(&str, &str)>) -> Seq<(Seq<char>, Seq<char>)> {
        match extra {
            Some(e) => inserted(self.texts(), e.0@, e.1@),
            None => self.texts(),
        }
    }

    /// The value that the token `cs[from..to]` stands for.
    fn lookup(&self, cs: &Vec<char>, from: usize, to: usize, extra: Option<(&str, &str)>) -> (r: Result<
        String,
        TemplateError,
    >)
        requires
            from <= to <= cs@.len(),
        ensures
            reports(r, token_value(cs@.subrange(from as int, to as int), self.texts_with(extra), self.env_texts())),
    {
        let ghost token = cs@.subrange(from as int, to as int);
        if env_token(cs, from, to) {
            let name = string_of(cs, from + 4, to - 1);
            assert(name@ == env_name(token));
            let found = self.env.get(&name);
            proof {
                lemma_mapped(self.env@, |s: String| s@, name@, name);
            }
            match found {
                Some(value) => if value.as_str().is_empty() {
                    Err(TemplateError::Unset(name))
                } else {
                    Ok(value.clone())
                },
                None => Err(TemplateError::Unset(name)),
            }
        } else {
            let name = string_of(cs, from, to);
            let found = self.vars.get(&name);
            let ghost all = self.texts_with(extra);
            proof {
                lemma_mapped(self.vars@, |v: VarValue| v.text(), name@, VarValue::Bool(true));
                if extra is Some {
                    lemma_inserted_lookup(self.texts(), (extra->0).0@, (extra->0).1@, name@);
                }
            }
            if let Some((extra_name, extra_value)) = extra {
                if same(extra_name, &name) {
                    return Ok(extra_value.to_owned());
                }
            }
            match found {
                Some(value) => Ok(value.canonical()),
                None => Err(TemplateError::Unknown(name)),
            }
        }
    }

    /// Fills in a template.
    pub fn substitute(&self, template: &str) -> (r: Result<String, TemplateError>)
        ensures
            reports(r, filled(template@, self.texts(), self.env_texts())),
    {
        self.fill(template, None)
    }

    /// Fills in a template with `name` standing for `value`, whatever the set holds.
    pub fn substitute_with(&self, template: &str, name: &str, value: &str) -> (r: Result<String, TemplateError>)
        ensures
            reports(r, filled(template@, inserted(self.texts(), name@, value@), self.env_texts())),
    {
        self.fill(template, Some((name, value)))
    }

    fn fill(&self, template: &str, extra: Option<(&str, &str)>) -> (r: Result<String, TemplateError>)
        ensures
            reports(r, filled(template@, self.texts_with(extra), self.env_texts())),
    {
        let cs = chars_of(template);
        let mut out = String::new();
        let mut i: usize = 0;
        let ghost vars = self.texts_with(extra);
        let ghost env = self.env_texts();
        let ghost whole = filled(template@, vars, env);
        proof {
            assert(cs@.skip(0) == cs@);
            assert(whole is Text ==> Seq::<char>::empty() + whole->Text_0 == whole->Text_0);
        }
        while i < cs.len()
            invariant
                i <= cs@.len(),
                vars == self.texts_with(extra),
                env == self.env_texts(),
                whole == filled(template@, vars, env),
                whole == after(out@, filled(cs@.skip(i as int), vars, env)),
            decreases cs@.len() - i,
        {
            let ghost rest = cs@.skip(i as int);
            let ghost before = out@;
            let c: char = cs[i];
            assert(rest[0] == c);
            assert(rest.skip(1) == cs@.skip(i + 1));
            assert(rest.take(1) == seq![c]);
            if c != '@' {
                out.push(c);
                i += 1;
                proof {
                    lemma_after(before, seq![c], filled(cs@.skip(i as int), vars, env));
                    assert(out@ == before + seq![c]);
                }
                continue;
            }
            let end: usize = find(&cs, i + 1, '@');
            let ghost n = end - i - 1;
            assert(rest.subrange(1, 1 + n) == cs@.subrange(i + 1, end as int));
            if end < cs.len() && end == i + 1 {
                out.push('@');
                proof {
                    assert(rest.skip(2) == cs@.skip(i + 2));
                    lemma_after(before, seq!['@'], filled(cs@.skip(i + 2), vars, env));
                    assert(out@ == before + seq!['@']);
                }
                i += 2;
            } else if end < cs.len() && (plain_name(&cs, i + 1, end) || env_token(&cs, i + 1, end)) {
                let value = match self.lookup(&cs, i + 1, end, extra) {
                    Ok(value) => value,
                    Err(e) => {
                        return Err(e);
                    },
                };
                out.append(&value);
                proof {
                    assert(rest.skip(n + 2) == cs@.skip(end + 1));
                    lemma_after(before, value@, filled(cs@.skip(end + 1), vars, env));
                }
                i = end + 1;
            } else {
                out.push('@');
                i += 1;
                proof {
                    lemma_after(before, seq!['@'], filled(cs@.skip(i as int), vars, env));
                    assert(out@ == before + seq!['@']);
                }
            }
        }
        assert(cs@.skip(i as int) == Seq::<char>::empty());
        assert(out@ + Seq::<char>::empty() == out@);
        Ok(out)
    }
}

impl VarSet {
    /// Whether a template gets `text` for the variable `name`.
    pub open spec fn reads(self, name: Seq<char>, text: Seq<char>) -> bool {
        has_name(self.texts(), name) && value_of(self.texts(), name) == text
    }
}

/// What a template gets for what a variable's value holds.
pub open spec fn shown(value: VarText) -> Seq<char> {
    match value {
        VarText::Str(s) => s,
        VarText::Int(n) => signed_decimal_of(n),
        VarText::Bool(b) => if b {
            "1"@
        } else {
            "0"@
        },
    }
}

/// Once variables are set, each under a name of its own, a template gets for each the value that it
/// was set to; the others keep their values.
pub proof fn set_variables_read_back(
    set: VarSet,
    start: Seq<(Seq<char>, VarText)>,
    block: Seq<(Seq<char>, VarText)>,
)
    requires
        distinct(start),
        distinct(block),
        var_views(set.vars@) == set_all(start, block),
    ensures
        forall|i: int| 0 <= i < block.len() ==> set.reads((#[trigger] block[i]).0, shown(block[i].1)),
        forall|name: Seq<char>| #[trigger]
            has_name(start, name) && !has_name(block, name) ==> set.reads(name, shown(value_of(start, name))),
        forall|name: Seq<char>| #[trigger]
            has_name(set.texts(), name) ==> has_name(start, name) || has_name(block, name),
{
    assert forall|i: int| 0 <= i < block.len() implies set.reads((#[trigger] block[i]).0, shown(block[i].1)) by {
        let name = block[i].0;
        assert forall|j: int| i < j < block.len() implies (#[trigger] block[j]).0 != name by {
            assert(block[i].0 != block[j].0);
        }
        lemma_set_all_lookup(start, block, name);
        lemma_reads(set, name);
    }
    assert forall|name: Seq<char>| #[trigger] has_name(start, name) && !has_name(block, name) implies set.reads(
        name,
        shown(value_of(start, name)),
    ) by {
        lemma_set_all_lookup(start, block, name);
        lemma_reads(set, name);
    }
    assert forall|name: Seq<char>| #[trigger] has_name(set.texts(), name) implies has_name(start, name) || has_name(
        block,
        name,
    ) by {
        lemma_set_all_lookup(start, block, name);
        let p = place(set.texts(), name);
        assert(set.texts()[p].0 == name);
        assert(var_views(set.vars@)[p].0 == name);
    }
}

/// What a template gets for a variable comes from what its value holds.
proof fn lemma_reads(set: VarSet, name: Seq<char>)
    requires
        distinct(var_views(set.vars@)),
        has_name(var_views(set.vars@), name),
    ensures
        set.reads(name, shown(value_of(var_views(set.vars@), name))),
{
    let views = var_views(set.vars@);
    let p = place(views, name);
    assert(set.vars@[p].0 == name && set.vars@[p].1@ == views[p].1);
    assert forall|a: int, b: int| #![trigger set.vars@[a], set.vars@[b]] 0 <= a < b < set.vars@.len() implies
        set.vars@[a].0 != set.vars@[b].0 by {
        assert(views[a].0 != views[b].0);
    }
    lemma_mapped(set.vars@, |v: VarValue| v.text(), name, VarValue::Bool(true));
    lemma_place(set.vars@, p);
}

/// A token stands for its value: a template gets what the environment or the variables hold under the
/// name, unchanged and unscanned, between what is in front of the token and what comes after it.
pub proof fn tokens_stand_for_their_values(
    front: Seq<char>,
    name: Seq<char>,
    rest: Seq<char>,
    vars: Seq<(Seq<char>, Seq<char>)>,
    env: Seq<(Seq<char>, Seq<char>)>,
)
    requires
        forall|i: int| 0 <= i < front.len() ==> front[i] != '@',
        is_plain_name(name),
    ensures
        ({
            let all = filled(front + seq!['@'] + name + seq!['@'] + rest, vars, env);
            let tail = filled(rest, vars, env);
            &&& has_name(vars, name) && tail is Text ==> all == Filled::Text(
                front + value_of(vars, name) + tail->Text_0,
            )
            &&& !has_name(vars, name) ==> all == Filled::Unknown(name)
            &&& has_name(vars, name) && tail !is Text ==> all == tail
        }),
        ({
            let all = filled(front + "@ENV("@ + name + ")@"@ + rest, vars, env);
            let tail = filled(rest, vars, env);
            let is_there = has_name(env, name) && value_of(env, name) != Seq::<char>::empty();
            &&& is_there && tail is Text ==> all == Filled::Text(front + value_of(env, name) + tail->Text_0)
            &&& !is_there ==> all == Filled::Unset(name)
            &&& is_there && tail !is Text ==> all == tail
        }),
{
    let tail = filled(rest, vars, env);
    let s = seq!['@'] + name + seq!['@'] + rest;
    assert(front + seq!['@'] + name + seq!['@'] + rest =~= front + s);
    lemma_filled_front(front, s, vars, env);
    let t = s.skip(1);
    let n = name.len() as int;
    assert forall|j: int| 0 <= j < n implies t[j] != '@' by {
        assert(t[j] == name[j]);
        assert(is_name_char(name[j]));
    }
    assert(t[n] == '@');
    lemma_index_of_is(t, '@', n);
    assert(s.subrange(1, 1 + n) =~= name);
    assert(s.skip(n + 2) =~= rest);
    assert(!is_env_token(name)) by {
        if is_env_token(name) {
            assert(is_name_char(name[3]));
        }
    }
    if tail is Text {
        assert(front + (value_of(vars, name) + tail->Text_0) =~= front + value_of(vars, name) + tail->Text_0);
        assert(front + (value_of(env, name) + tail->Text_0) =~= front + value_of(env, name) + tail->Text_0);
    }
    reveal_strlit("@ENV(");
    reveal_strlit(")@");
    let e = "@ENV("@ + name + ")@"@ + rest;
    let token = seq!['E', 'N', 'V', '('] + name + seq![')'];
    assert(front + "@ENV("@ + name + ")@"@ + rest =~= front + e);
    assert(e =~= seq!['@'] + token + seq!['@'] + rest);
    lemma_filled_front(front, e, vars, env);
    let u = e.skip(1);
    let m = token.len() as int;
    assert forall|j: int| 0 <= j < m implies u[j] != '@' by {
        assert(u[j] == token[j]);
        if 4 <= j < m - 1 {
            assert(token[j] == name[j - 4]);
            assert(is_name_char(name[j - 4]));
        }
    }
    assert(u[m] == '@');
    lemma_index_of_is(u, '@', m);
    assert(e.subrange(1, 1 + m) =~= token);
    assert(e.skip(m + 2) =~= rest);
    assert(env_name(token) =~= name);
    assert(is_env_token(token));
    if has_name(env, name) && value_of(env, name).len() == 0 {
        assert(value_of(env, name) =~= Seq::<char>::empty());
    }
}

/// Prefixes add up.
proof fn lemma_after(a: Seq<char>, b: Seq<char>, rest: Filled)
    ensures
        after(a, after(b, rest)) == after(a + b, rest),
{
    if rest is Text {
        assert(a + (b + rest->Text_0) == (a + b) + rest->Text_0);
    }
}

/// A text with every `@` doubled.
pub open spec fn doubled(s: Seq<char>) -> Seq<char>
    decreases s.len(),
{
    if s.len() == 0 {
        Seq::empty()
    } else if s[0] == '@' {
        seq!['@', '@'] + doubled(s.skip(1))
    } else {
        s.take(1) + doubled(s.skip(1))
    }
}

/// Any text can be had from a template, whatever the variables: with every `@` doubled, it is filled
/// in as itself. So a text without any `@` stays as it is.
pub proof fn doubled_texts_fill_in_as_themselves(
    s: Seq<char>,
    vars: Seq<(Seq<char>, Seq<char>)>,
    env: Seq<(Seq<char>, Seq<char>)>,
)
    ensures
        filled(doubled(s), vars, env) == Filled::Text(s),
        (forall|i: int| 0 <= i < s.len() ==> s[i] != '@') ==> doubled(s) == s,
    decreases s.len(),
{
    if s.len() > 0 {
        let rest = doubled(s.skip(1));
        let t = doubled(s);
        doubled_texts_fill_in_as_themselves(s.skip(1), vars, env);
        assert(s.take(1) + s.skip(1) =~= s);
        if s[0] == '@' {
            assert(t.skip(1)[0] == '@');
            assert(index_of(t.skip(1), '@') == 0);
            assert(t.skip(2) =~= rest);
            assert(t.take(1) =~= s.take(1));
        } else {
            assert(t.skip(1) =~= rest);
            assert(t.take(1) =~= s.take(1));
            if forall|i: int| 0 <= i < s.len() ==> s[i] != '@' {
                assert forall|i: int| 0 <= i < s.skip(1).len() implies s.skip(1)[i] != '@' by {
                    assert(s.skip(1)[i] == s[i + 1]);
                }
            }
        }
    } else {
        assert(doubled(s) =~= s);
    }
}

/// What stands in front of the first `@` stays as it is.
pub proof fn lemma_filled_front(
    front: Seq<char>,
    rest: Seq<char>,
    vars: Seq<(Seq<char>, Seq<char>)>,
    env: Seq<(Seq<char>, Seq<char>)>,
)
    requires
        forall|i: int| 0 <= i < front.len() ==> front[i] != '@',
    ensures
        filled(front + rest, vars, env) == after(front, filled(rest, vars, env)),
    decreases front.len(),
{
    let s = front + rest;
    if front.len() == 0 {
        assert(s =~= rest);
        if filled(rest, vars, env) is Text {
            assert(front + filled(rest, vars, env)->Text_0 =~= filled(rest, vars, env)->Text_0);
        }
    } else {
        let fewer = front.skip(1);
        assert forall|i: int| 0 <= i < fewer.len() implies fewer[i] != '@' by {
            assert(fewer[i] == front[i + 1]);
        }
        assert(s[0] == front[0]);
        assert(s.skip(1) =~= fewer + rest);
        assert(s.take(1) =~= front.take(1));
        lemma_filled_front(fewer, rest, vars, env);
        if filled(rest, vars, env) is Text {
            let t = filled(rest, vars, env)->Text_0;
            assert(front.take(1) + (fewer + t) =~= front + t);
        }
    }
}

} // verus!
