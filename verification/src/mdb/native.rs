//! Native optionlists: what is taken for one reads as one, and what options are rendered to reads back
//! as the options.

use crate::mdb::optionlist::{
    any_optionlist, bad_cfg_lines, cfg_key, cfg_options, cfg_read, cfg_value, is_blank, is_header, rendered,
    rendered_rest, OptionText, OptionlistFault, OptionlistView,
};
use crate::mdb::sniff::{
    entry_end, entry_starts, headers, spelling, toml_entries, uncommented, wrong_entries, OptionlistFormat,
    SniffFault,
};
use crate::search::{lemma_first_from, lemma_first_from_is};
use crate::table::{distinct, has_name, inserted, lemma_inserted_lookup, lemma_place, value_of};
use crate::text::{
    begins_with, index_of, is_space, lemma_index_of, lemma_index_of_is, lemma_trimmed_end,
    lemma_trimmed_start, lines_of, trimmed, trimmed_end, trimmed_start, without_cr,
};
use vstd::prelude::*;

verus! {

/// Whether a character stands nowhere in a text.
pub open spec fn lacks(s: Seq<char>, c: char) -> bool {
    forall|i: int| 0 <= i < s.len() ==> #[trigger] s[i] != c
}

/// Whether a native file can have an option of this name.
pub open spec fn is_native_key(k: Seq<char>) -> bool {
    &&& trimmed(k) == k
    &&& lacks(k, '=')
    &&& lacks(k, '\n')
    &&& k.len() > 0 ==> k[0] != '#'
}

/// Whether a native file can have this value: on one line, without white space on either side, and
/// without anything that begins a comment.
pub open spec fn is_native_value(v: Seq<char>) -> bool {
    &&& trimmed(v) == v
    &&& lacks(v, '\n')
    &&& uncommented(v, false, false, true) == v
}

/// Whether the line of an option looks like the header of a table.
pub open spec fn looks_like_header(k: Seq<char>, v: Seq<char>) -> bool {
    k.len() > 0 && k[0] == '[' && v.len() > 0 && v.last() == ']'
}

/// Whether a native file can have these options.
pub open spec fn is_native(options: Seq<(Seq<char>, OptionText)>) -> bool {
    forall|i: int| #![trigger options[i]]
        0 <= i < options.len() ==> is_native_key(options[i].0) && is_native_value(options[i].1.spelled())
            && !looks_like_header(options[i].0, options[i].1.spelled())
}

/// The options but `VERSION`, as texts.
pub open spec fn others(options: Seq<(Seq<char>, OptionText)>) -> Seq<(Seq<char>, OptionText)>
    decreases options.len(),
{
    if options.len() == 0 {
        Seq::empty()
    } else if options.last().0 == "VERSION"@ {
        others(options.drop_last())
    } else {
        others(options.drop_last()).push((options.last().0, OptionText::Str(options.last().1.spelled())))
    }
}

/// The options as a native file has them: `VERSION` first, and every value as it is spelled.
pub open spec fn as_native(options: Seq<(Seq<char>, OptionText)>) -> Seq<(Seq<char>, OptionText)> {
    seq![("VERSION"@, OptionText::Str(value_of(options, "VERSION"@).spelled()))] + others(options)
}

/// The line of an option.
pub open spec fn line_of(e: (Seq<char>, OptionText)) -> Seq<char> {
    e.0 + " = "@ + e.1.spelled()
}

/// The lines of some options, each with its line break.
pub open spec fn text_of(entries: Seq<(Seq<char>, OptionText)>) -> Seq<char>
    decreases entries.len(),
{
    if entries.len() == 0 {
        Seq::empty()
    } else {
        text_of(entries.drop_last()) + line_of(entries.last()) + "\n"@
    }
}

/// The lines of some options.
pub open spec fn option_lines(entries: Seq<(Seq<char>, OptionText)>) -> Seq<Seq<char>> {
    Seq::new(entries.len(), |i: int| line_of(entries[i]))
}

proof fn lemma_trimmed_lens(s: Seq<char>)
    ensures
        trimmed_start(s).len() <= s.len(),
        trimmed_end(s).len() <= s.len(),
    decreases s.len(),
{
    if s.len() > 0 {
        lemma_trimmed_lens(s.skip(1));
        lemma_trimmed_lens(s.drop_last());
    }
}

/// A text that is trimmed has no white space on either side.
proof fn lemma_trimmed_sides(s: Seq<char>)
    requires
        trimmed(s) == s,
        s.len() > 0,
    ensures
        !is_space(s[0]),
        !is_space(s.last()),
{
    lemma_trimmed_lens(s);
    lemma_trimmed_lens(trimmed_start(s));
    if is_space(s[0]) {
        lemma_trimmed_lens(s.skip(1));
    } else if is_space(s.last()) {
        lemma_trimmed_lens(s.drop_last());
    }
}

/// A text without white space on either side is trimmed.
proof fn lemma_sides_trimmed(s: Seq<char>)
    requires
        s.len() > 0 ==> !is_space(s[0]) && !is_space(s.last()),
    ensures
        trimmed(s) == s,
{
}

proof fn lemma_trimmed_end_keeps_first(s: Seq<char>)
    requires
        s.len() > 0,
        !is_space(s[0]),
    ensures
        trimmed_end(s).len() > 0,
        trimmed_end(s)[0] == s[0],
    decreases s.len(),
{
    if is_space(s.last()) {
        lemma_trimmed_end_keeps_first(s.drop_last());
    }
}

proof fn lemma_trimmed_start_first(s: Seq<char>)
    ensures
        trimmed_start(s).len() > 0 ==> !is_space(trimmed_start(s)[0]),
    decreases s.len(),
{
    if s.len() > 0 && is_space(s[0]) {
        lemma_trimmed_start_first(s.skip(1));
    }
}

proof fn lemma_trimmed_end_last(s: Seq<char>)
    ensures
        trimmed_end(s).len() > 0 ==> !is_space(trimmed_end(s).last()),
    decreases s.len(),
{
    if s.len() > 0 && is_space(s.last()) {
        lemma_trimmed_end_last(s.drop_last());
    }
}

/// Trimming a trimmed text changes nothing.
proof fn lemma_trimmed_twice(s: Seq<char>)
    ensures
        trimmed(trimmed(s)) == trimmed(s),
{
    let t = trimmed_start(s);
    lemma_trimmed_start_first(s);
    lemma_trimmed_end_last(t);
    if t.len() > 0 {
        lemma_trimmed_end_keeps_first(t);
    } else {
        lemma_trimmed_lens(t);
    }
    lemma_sides_trimmed(trimmed(s));
}

/// Trimming brings in no new characters.
proof fn lemma_trimmed_lacks(s: Seq<char>, c: char)
    requires
        lacks(s, c),
    ensures
        lacks(trimmed_start(s), c),
        lacks(trimmed_end(s), c),
    decreases s.len(),
{
    if s.len() > 0 {
        assert forall|i: int| 0 <= i < s.skip(1).len() implies #[trigger] s.skip(1)[i] != c by {
            assert(s.skip(1)[i] == s[i + 1]);
        }
        lemma_trimmed_lacks(s.skip(1), c);
        lemma_trimmed_lacks(s.drop_last(), c);
    }
}

/// A value without its comment is how the value begins, and has no comment of its own; the same holds
/// of how it begins.
proof fn lemma_uncommented(s: Seq<char>, double: bool, single: bool, after_space: bool, k: int)
    requires
        0 <= k <= uncommented(s, double, single, after_space).len(),
    ensures
        uncommented(s, double, single, after_space).len() <= s.len(),
        uncommented(s, double, single, after_space) == s.take(
            uncommented(s, double, single, after_space).len() as int,
        ),
        uncommented(uncommented(s, double, single, after_space).take(k), double, single, after_space)
            == uncommented(s, double, single, after_space).take(k),
    decreases s.len(),
{
    let u = uncommented(s, double, single, after_space);
    if u.len() == 0 {
        assert(s.take(0) =~= u);
        assert(u.take(k) =~= Seq::<char>::empty());
    } else {
        let c = s[0];
        let double_next = if c == '"' && !single {
            !double
        } else {
            double
        };
        let single_next = if c == '\'' && !double {
            !single
        } else {
            single
        };
        let rest = uncommented(s.skip(1), double_next, single_next, is_space(c));
        assert(u == seq![c] + rest);
        let j = if k > 0 {
            k - 1
        } else {
            0
        };
        lemma_uncommented(s.skip(1), double_next, single_next, is_space(c), j);
        assert(u =~= s.take(u.len() as int)) by {
            assert forall|i: int| 0 <= i < u.len() implies u[i] == s[i] by {
                if i > 0 {
                    assert(u[i] == rest[i - 1]);
                    assert(rest[i - 1] == s.skip(1).take(rest.len() as int)[i - 1]);
                }
            }
        }
        if k == 0 {
            assert(u.take(0) =~= Seq::<char>::empty());
        } else {
            let t = u.take(k);
            assert(t[0] == c);
            assert(t.skip(1) =~= rest.take(j));
            assert(seq![c] + rest.take(j) =~= t);
        }
    }
}

/// White space in front of a value does not matter.
proof fn lemma_uncommented_start(s: Seq<char>)
    requires
        uncommented(s, false, false, true) == s,
    ensures
        uncommented(trimmed_start(s), false, false, true) == trimmed_start(s),
    decreases s.len(),
{
    if s.len() > 0 && is_space(s[0]) {
        let rest = uncommented(s.skip(1), false, false, true);
        assert(s == seq![s[0]] + rest);
        assert(s.skip(1) =~= rest);
        lemma_uncommented_start(s.skip(1));
    }
}

proof fn lemma_uncommented_end(s: Seq<char>)
    requires
        uncommented(s, false, false, true) == s,
    ensures
        uncommented(trimmed_end(s), false, false, true) == trimmed_end(s),
    decreases s.len(),
{
    if s.len() > 0 && is_space(s.last()) {
        lemma_uncommented(s, false, false, true, s.len() - 1);
        assert(s.take(s.len() - 1) =~= s.drop_last());
        lemma_uncommented_end(s.drop_last());
    }
}

/// The line of an option that a native file can have reads back as the option.
proof fn lemma_line(k: Seq<char>, v: Seq<char>)
    requires
        is_native_key(k),
        is_native_value(v),
        !looks_like_header(k, v),
    ensures
        ({
            let line = k + " = "@ + v;
            let t = trimmed(line);
            &&& lacks(line, '\n')
            &&& without_cr(line) == line
            &&& !is_blank(t)
            &&& !is_header(t)
            &&& index_of(t, '=') < t.len()
            &&& cfg_key(t) == k
            &&& cfg_value(t) == v
        }),
{
    reveal_strlit(" = ");
    reveal_strlit("#");
    reveal_strlit("[");
    reveal_strlit("]");
    let line = k + " = "@ + v;
    let n = k.len() as int;
    if k.len() > 0 {
        lemma_trimmed_sides(k);
    }
    if v.len() > 0 {
        lemma_trimmed_sides(v);
    }
    assert forall|i: int| 0 <= i < line.len() implies #[trigger] line[i] != '\n' by {
        if i < n {
            assert(line[i] == k[i]);
        } else if i >= n + 3 {
            assert(line[i] == v[i - n - 3]);
        }
    }
    assert(line[n] == ' ' && line[n + 1] == '=' && line[n + 2] == ' ');
    assert(line.last() == (if v.len() > 0 {
        v.last()
    } else {
        ' '
    }));
    let from: int = if n == 0 {
        1
    } else {
        0
    };
    let to: int = if v.len() == 0 {
        n + 2
    } else {
        line.len() as int
    };
    lemma_trimmed_start(line, from);
    let head = line.skip(from);
    assert forall|j: int| to - from <= j < head.len() implies is_space(head[j]) by {
        assert(head[j] == line[n + 2]);
    }
    lemma_trimmed_end(head, to - from);
    let t = trimmed(line);
    assert(t =~= line.subrange(from, to));
    let eq: int = n + 1 - from;
    assert forall|j: int| 0 <= j < eq implies t[j] != '=' by {
        assert(t[j] == line[j + from]);
        if j + from < n {
            assert(line[j + from] == k[j + from]);
        }
    }
    assert(t[eq] == '=');
    lemma_index_of_is(t, '=', eq);
    assert(t[0] == (if n == 0 {
        '='
    } else {
        k[0]
    }));
    assert(!is_blank(t)) by {
        if begins_with(t, "#"@) {
            assert(t.take(1)[0] == "#"@[0]);
        }
    }
    assert(!is_header(t)) by {
        if is_header(t) {
            assert(t.take(1)[0] == "["@[0]);
            assert(t.skip(t.len() - 1)[0] == "]"@[0]);
            assert(t.last() == ']');
        }
    }
    // The name: what stands before the sign, without the blank.
    if n == 0 {
        assert(t.take(eq) =~= k);
    } else {
        let before = t.take(eq);
        assert(before =~= k + seq![' ']);
        lemma_trimmed_start(before, 0);
        assert(before.skip(0) =~= before);
        lemma_trimmed_end(before, n);
        assert(before.take(n) =~= k);
    }
    // The value: what stands behind the sign, without the blank.
    let behind = t.skip(eq + 1);
    if v.len() == 0 {
        assert(behind =~= v);
    } else {
        assert(behind =~= seq![' '] + v);
        assert(behind.skip(1) =~= v);
        assert(uncommented(behind, false, false, true) == seq![' '] + v);
        lemma_trimmed_start(behind, 1);
        lemma_trimmed_end(v, v.len() as int);
        assert(v.take(v.len() as int) =~= v);
    }
}

/// A line that is added to a text of whole lines is the last of its lines.
proof fn lemma_lines_push(a: Seq<char>, line: Seq<char>)
    requires
        a.len() > 0 ==> a.last() == '\n',
        lacks(line, '\n'),
        without_cr(line) == line,
    ensures
        lines_of(a + line + seq!['\n']) == lines_of(a).push(line),
    decreases a.len(),
{
    let s = a + line + seq!['\n'];
    if a.len() == 0 {
        assert forall|j: int| 0 <= j < line.len() implies s[j] != '\n' by {
            assert(s[j] == line[j]);
        }
        lemma_index_of_is(s, '\n', line.len() as int);
        assert(s.take(line.len() as int) =~= line);
        assert(s.skip(line.len() as int + 1) =~= Seq::<char>::empty());
        assert(lines_of(Seq::<char>::empty()) =~= Seq::empty());
        assert(lines_of(s) =~= lines_of(a).push(line));
    } else {
        lemma_index_of(a, '\n');
        let n = index_of(a, '\n');
        assert(n < a.len()) by {
            if n == a.len() {
                assert(a[a.len() - 1] != '\n');
            }
        }
        assert forall|j: int| 0 <= j < n implies s[j] != '\n' by {
            assert(s[j] == a[j]);
        }
        lemma_index_of_is(s, '\n', n);
        let rest = a.skip(n + 1);
        assert(s.take(n) =~= a.take(n));
        assert(s.skip(n + 1) =~= rest + line + seq!['\n']);
        if rest.len() > 0 {
            assert(rest.last() == a.last());
        }
        lemma_lines_push(rest, line);
        assert(seq![without_cr(a.take(n))] + lines_of(rest).push(line) =~= (seq![without_cr(a.take(n))] + lines_of(
            rest,
        )).push(line));
    }
}

/// Options as texts that a native file can have.
spec fn is_native_text(entries: Seq<(Seq<char>, OptionText)>) -> bool {
    is_native(entries) && forall|i: int| 0 <= i < entries.len() ==> (#[trigger] entries[i]).1 is Str
}

/// The lines of options read back as the options.
proof fn lemma_lines(entries: Seq<(Seq<char>, OptionText)>)
    requires
        is_native_text(entries),
        distinct(entries),
    ensures
        text_of(entries).len() > 0 ==> text_of(entries).last() == '\n',
        lines_of(text_of(entries)) == option_lines(entries),
        cfg_options(option_lines(entries)) == entries,
    decreases entries.len(),
{
    reveal_strlit("\n");
    if entries.len() == 0 {
        assert(option_lines(entries) =~= Seq::empty());
        assert(entries =~= Seq::empty());
    } else {
        let fewer = entries.drop_last();
        let e = entries.last();
        assert forall|i: int| #![trigger fewer[i]] 0 <= i < fewer.len() implies is_native_key(fewer[i].0)
            && is_native_value(fewer[i].1.spelled()) && !looks_like_header(fewer[i].0, fewer[i].1.spelled())
            && fewer[i].1 is Str by {
            assert(fewer[i] == entries[i]);
        }
        assert(distinct(fewer)) by {
            assert forall|i: int, j: int|
                #![trigger fewer[i], fewer[j]]
                0 <= i < j < fewer.len() implies fewer[i].0 != fewer[j].0 by {
                assert(fewer[i] == entries[i] && fewer[j] == entries[j]);
            }
        }
        lemma_lines(fewer);
        assert(entries[entries.len() - 1] == e);
        lemma_line(e.0, e.1.spelled());
        assert("\n"@ =~= seq!['\n']);
        lemma_lines_push(text_of(fewer), line_of(e));
        assert(option_lines(entries) =~= option_lines(fewer).push(line_of(e)));
        assert(option_lines(entries).drop_last() =~= option_lines(fewer));
        assert(option_lines(entries).last() == line_of(e));
        assert(!has_name(fewer, e.0)) by {
            if has_name(fewer, e.0) {
                let i = choose|i: int| 0 <= i < fewer.len() && (#[trigger] fewer[i]).0 == e.0;
                assert(entries[i].0 == entries[entries.len() - 1].0);
            }
        }
        assert(fewer.push((e.0, OptionText::Str(e.1.spelled()))) =~= entries);
    }
}

/// The options but `VERSION` are distinct and native where all are, and do not hold `VERSION`.
proof fn lemma_others(options: Seq<(Seq<char>, OptionText)>)
    requires
        is_native(options),
        distinct(options),
    ensures
        is_native_text(others(options)),
        distinct(others(options)),
        forall|i: int| 0 <= i < others(options).len() ==> (#[trigger] others(options)[i]).0 != "VERSION"@ && has_name(
            options,
            others(options)[i].0,
        ),
    decreases options.len(),
{
    if options.len() > 0 {
        let fewer = options.drop_last();
        let e = options.last();
        assert forall|i: int| #![trigger fewer[i]] 0 <= i < fewer.len() implies is_native_key(fewer[i].0)
            && is_native_value(fewer[i].1.spelled()) && !looks_like_header(fewer[i].0, fewer[i].1.spelled()) by {
            assert(fewer[i] == options[i]);
        }
        assert forall|i: int, j: int|
            #![trigger fewer[i], fewer[j]]
            0 <= i < j < fewer.len() implies fewer[i].0 != fewer[j].0 by {
            assert(fewer[i] == options[i] && fewer[j] == options[j]);
        }
        lemma_others(fewer);
        let rest = others(fewer);
        let all = others(options);
        assert(options[options.len() - 1] == e);
        assert forall|i: int| 0 <= i < rest.len() implies has_name(options, (#[trigger] rest[i]).0) && rest[i].0
            != e.0 by {
            let j = choose|j: int| 0 <= j < fewer.len() && (#[trigger] fewer[j]).0 == rest[i].0;
            assert(options[j].0 == rest[i].0);
        }
        if e.0 != "VERSION"@ {
            assert forall|i: int| 0 <= i < all.len() implies is_native_key((#[trigger] all[i]).0) && is_native_value(
                all[i].1.spelled(),
            ) && !looks_like_header(all[i].0, all[i].1.spelled()) && all[i].1 is Str && all[i].0 != "VERSION"@
                && has_name(options, all[i].0) by {
                if i < rest.len() {
                    assert(all[i] == rest[i]);
                }
            }
            assert forall|i: int, j: int| #![trigger all[i], all[j]] 0 <= i < j < all.len() implies all[i].0
                != all[j].0 by {
                assert(all[i] == rest[i]);
                if j < rest.len() {
                    assert(all[j] == rest[j]);
                }
            }
        }
    }
}

/// What is rendered is the lines of the options as a native file has them.
proof fn lemma_rendered(first: (Seq<char>, OptionText), options: Seq<(Seq<char>, OptionText)>)
    ensures
        text_of(seq![first] + others(options)) == line_of(first) + "\n"@ + rendered_rest(options),
    decreases options.len(),
{
    if options.len() == 0 {
        assert(seq![first] + others(options) =~= seq![first]);
        assert(seq![first].drop_last() =~= Seq::empty());
        assert(text_of(seq![first].drop_last()) =~= Seq::empty());
        assert(text_of(seq![first]) =~= line_of(first) + "\n"@);
        assert(line_of(first) + "\n"@ + rendered_rest(options) =~= line_of(first) + "\n"@);
    } else {
        let fewer = options.drop_last();
        let e = options.last();
        lemma_rendered(first, fewer);
        if e.0 != "VERSION"@ {
            let added = (e.0, OptionText::Str(e.1.spelled()));
            let all = seq![first] + others(options);
            assert(all.drop_last() =~= seq![first] + others(fewer));
            assert(all.last() == added);
            assert(text_of(all) =~= line_of(first) + "\n"@ + rendered_rest(options));
        }
    }
}

/// The native file of some options says what they say: it reads back as them, with `VERSION` first and
/// every value as it is spelled.
pub proof fn native_files_read_back(options: Seq<(Seq<char>, OptionText)>)
    requires
        distinct(options),
        has_name(options, "VERSION"@),
        is_native(options),
    ensures
        cfg_read(rendered(options)) matches Ok(v) && v.options == as_native(options),
{
    reveal_strlit("VERSION");
    reveal_strlit("VERSION = ");
    reveal_strlit(" = ");
    let value = value_of(options, "VERSION"@);
    let p = choose|i: int| 0 <= i < options.len() && (#[trigger] options[i]).0 == "VERSION"@;
    lemma_place(options, p);
    let first = ("VERSION"@, OptionText::Str(value.spelled()));
    let all = as_native(options);
    let rest = others(options);
    lemma_others(options);
    assert forall|i: int| 0 <= i < all.len() implies is_native_key((#[trigger] all[i]).0) && is_native_value(
        all[i].1.spelled(),
    ) && !looks_like_header(all[i].0, all[i].1.spelled()) && all[i].1 is Str by {
        if i > 0 {
            assert(all[i] == rest[i - 1]);
        }
    }
    assert forall|i: int, j: int| #![trigger all[i], all[j]] 0 <= i < j < all.len() implies all[i].0 != all[j].0 by {
        assert(all[j] == rest[j - 1]);
        if i > 0 {
            assert(all[i] == rest[i - 1]);
        }
    }
    lemma_rendered(first, options);
    assert(line_of(first) =~= "VERSION = "@ + value.spelled());
    assert(rendered(options) == text_of(all));
    lemma_lines(all);
    let lines = option_lines(all);
    let bad = bad_cfg_lines(lines);
    assert forall|i: int| 0 <= i < lines.len() implies !(#[trigger] bad(i)) by {
        assert(is_native_key(all[i].0));
        lemma_line(all[i].0, all[i].1.spelled());
        assert(lines[i] == line_of(all[i]));
    }
    lemma_first_from_is(0, lines.len() as int, bad, lines.len() as int);
    assert(all[0].0 == "VERSION"@);
}

/// No line of a text holds a line break.
proof fn lemma_lines_lack(s: Seq<char>)
    ensures
        forall|i: int| 0 <= i < lines_of(s).len() ==> lacks(#[trigger] lines_of(s)[i], '\n'),
    decreases s.len(),
{
    if s.len() > 0 {
        lemma_index_of(s, '\n');
        let n = index_of(s, '\n');
        if n < s.len() {
            lemma_lines_lack(s.skip(n + 1));
            let first = without_cr(s.take(n));
            assert forall|i: int| 0 <= i < lines_of(s).len() implies lacks(#[trigger] lines_of(s)[i], '\n') by {
                if i == 0 {
                    assert forall|j: int| 0 <= j < first.len() implies #[trigger] first[j] != '\n' by {
                        assert(first[j] == s[j]);
                    }
                } else {
                    assert(lines_of(s)[i] == lines_of(s.skip(n + 1))[i - 1]);
                }
            }
        }
    }
}

/// The name and the value that are read from a line are ones that a native file can have.
proof fn lemma_read_line(line: Seq<char>)
    requires
        trimmed(line) == line,
        lacks(line, '\n'),
        !is_blank(line),
        index_of(line, '=') < line.len(),
    ensures
        is_native_key(cfg_key(line)),
        is_native_value(cfg_value(line)),
{
    reveal_strlit("#");
    lemma_index_of(line, '=');
    let eq = index_of(line, '=');
    let before = line.take(eq);
    let behind = line.skip(eq + 1);
    lemma_trimmed_twice(before);
    assert(lacks(before, '=')) by {
        assert forall|i: int| 0 <= i < before.len() implies #[trigger] before[i] != '=' by {
            assert(before[i] == line[i]);
        }
    }
    assert(lacks(before, '\n')) by {
        assert forall|i: int| 0 <= i < before.len() implies #[trigger] before[i] != '\n' by {
            assert(before[i] == line[i]);
        }
    }
    lemma_trimmed_lacks(before, '=');
    lemma_trimmed_lacks(trimmed_start(before), '=');
    lemma_trimmed_lacks(before, '\n');
    lemma_trimmed_lacks(trimmed_start(before), '\n');
    if before.len() > 0 {
        lemma_trimmed_sides(line);
        assert(before[0] == line[0]);
        lemma_trimmed_end_keeps_first(before);
        assert(cfg_key(line)[0] == line[0]);
        if line[0] == '#' {
            assert(line.take(1) =~= "#"@);
        }
    } else {
        lemma_trimmed_lens(before);
    }
    let u = uncommented(behind, false, false, true);
    lemma_uncommented(behind, false, false, true, u.len() as int);
    assert(u.take(u.len() as int) =~= u);
    lemma_uncommented_start(u);
    lemma_uncommented_end(trimmed_start(u));
    lemma_trimmed_twice(u);
    assert(lacks(u, '\n')) by {
        assert forall|i: int| 0 <= i < u.len() implies #[trigger] u[i] != '\n' by {
            assert(u[i] == behind.take(u.len() as int)[i]);
            assert(behind[i] == line[i + eq + 1]);
        }
    }
    lemma_trimmed_lacks(u, '\n');
    lemma_trimmed_lacks(trimmed_start(u), '\n');
}

/// The options that are read from lines are distinct, and are texts that a native file can have.
proof fn lemma_read(all: Seq<Seq<char>>)
    requires
        forall|i: int| 0 <= i < all.len() ==> lacks(#[trigger] all[i], '\n'),
        forall|i: int| 0 <= i < all.len() ==> !(#[trigger] bad_cfg_lines(all)(i)),
    ensures
        distinct(cfg_options(all)),
        forall|i: int| #![trigger cfg_options(all)[i]]
            0 <= i < cfg_options(all).len() ==> is_native_key(cfg_options(all)[i].0) && is_native_value(
                cfg_options(all)[i].1.spelled(),
            ) && cfg_options(all)[i].1 is Str,
    decreases all.len(),
{
    if all.len() > 0 {
        let fewer = all.drop_last();
        assert forall|i: int| 0 <= i < fewer.len() implies lacks(#[trigger] fewer[i], '\n') by {
            assert(fewer[i] == all[i]);
        }
        assert forall|i: int| 0 <= i < fewer.len() implies !(#[trigger] bad_cfg_lines(fewer)(i)) by {
            assert(fewer[i] == all[i]);
            assert(!bad_cfg_lines(all)(i));
        }
        lemma_read(fewer);
        let before = cfg_options(fewer);
        let n = all.len() - 1;
        assert(all[n] == all.last());
        assert(!bad_cfg_lines(all)(n));
        let line = trimmed(all.last());
        if !is_blank(line) {
            lemma_trimmed_twice(all.last());
            lemma_trimmed_lacks(all.last(), '\n');
            lemma_trimmed_lacks(trimmed_start(all.last()), '\n');
            lemma_index_of(line, '=');
            lemma_read_line(line);
            let key = cfg_key(line);
            let value = OptionText::Str(cfg_value(line));
            lemma_inserted_lookup(before, key, value, key);
            let after = inserted(before, key, value);
            assert forall|i: int| #![trigger after[i]] 0 <= i < after.len() implies is_native_key(after[i].0)
                && is_native_value(after[i].1.spelled()) && after[i].1 is Str by {
                if after[i] != (key, value) {
                    assert(after[i] == before[i]);
                }
            }
        }
    }
}

/// Options as a native file has them render as the options do.
proof fn lemma_rendered_again(options: Seq<(Seq<char>, OptionText)>)
    requires
        distinct(options),
        is_native(options),
    ensures
        rendered(as_native(options)) == rendered(options),
{
    let first = ("VERSION"@, OptionText::Str(value_of(options, "VERSION"@).spelled()));
    let rest = others(options);
    let all = as_native(options);
    lemma_others(options);
    assert forall|i: int, j: int| #![trigger all[i], all[j]] 0 <= i < j < all.len() implies all[i].0 != all[j].0 by {
        assert(all[j] == rest[j - 1]);
        if i > 0 {
            assert(all[i] == rest[i - 1]);
        }
    }
    lemma_place(all, 0);
    lemma_rest_again(first, rest);
    lemma_others_rest(options);
}

proof fn lemma_rest_again(first: (Seq<char>, OptionText), rest: Seq<(Seq<char>, OptionText)>)
    requires
        first.0 == "VERSION"@,
    ensures
        rendered_rest(seq![first] + rest) == rendered_rest(rest),
    decreases rest.len(),
{
    let all = seq![first] + rest;
    if rest.len() == 0 {
        assert(all =~= seq![first]);
        assert(all.drop_last() =~= Seq::empty());
        assert(rendered_rest(all.drop_last()) =~= Seq::empty());
    } else {
        lemma_rest_again(first, rest.drop_last());
        assert(all.drop_last() =~= seq![first] + rest.drop_last());
    }
}

proof fn lemma_others_rest(options: Seq<(Seq<char>, OptionText)>)
    ensures
        rendered_rest(others(options)) == rendered_rest(options),
    decreases options.len(),
{
    if options.len() > 0 {
        lemma_others_rest(options.drop_last());
        if options.last().0 != "VERSION"@ {
            assert(others(options).drop_last() =~= others(options.drop_last()));
        }
    }
}

/// A native file that is read and rendered says what it said: what is rendered reads back as the same
/// options, with `VERSION` first, and renders as the same text again. Left out is an option whose line,
/// without its comment, looks like the header of a table.
pub proof fn read_files_render_alike(source: Seq<char>)
    requires
        cfg_read(source) is Ok,
        forall|i: int| #![trigger cfg_read(source)->Ok_0.options[i]]
            0 <= i < cfg_read(source)->Ok_0.options.len() ==> !looks_like_header(
                cfg_read(source)->Ok_0.options[i].0,
                cfg_read(source)->Ok_0.options[i].1.spelled(),
            ),
    ensures
        cfg_read(rendered(cfg_read(source)->Ok_0.options)) matches Ok(v) && v.options == as_native(
            cfg_read(source)->Ok_0.options,
        ) && rendered(v.options) == rendered(cfg_read(source)->Ok_0.options),
{
    let all = lines_of(source);
    let options = cfg_options(all);
    let bad = bad_cfg_lines(all);
    lemma_lines_lack(source);
    lemma_first_from(0, all.len() as int, bad);
    lemma_read(all);
    native_files_read_back(options);
    lemma_rendered_again(options);
}

/// Where no entry of an optionlist goes on over several lines, every line is an entry.
proof fn lemma_every_line(all: Seq<Seq<char>>, i: int)
    requires
        0 <= i <= all.len(),
        forall|k: int| 0 <= k < entry_starts(all, i).len() ==> !(#[trigger] toml_entries(all, entry_starts(all, i))(
            k,
        )),
    ensures
        entry_starts(all, i).len() == all.len() - i,
        forall|k: int| 0 <= k < all.len() - i ==> #[trigger] entry_starts(all, i)[k] == i + k,
    decreases all.len() - i,
{
    if i < all.len() {
        let starts = entry_starts(all, i);
        let next = entry_end(all, i);
        let rest = entry_starts(all, next);
        assert(starts == seq![i] + rest);
        assert(starts[0] == i);
        assert(!toml_entries(all, starts)(0));
        assert(next == i + 1);
        assert forall|k: int| 0 <= k < rest.len() implies !(#[trigger] toml_entries(all, rest)(k)) by {
            assert(starts[k + 1] == rest[k]);
            assert(!toml_entries(all, starts)(k + 1));
        }
        lemma_every_line(all, i + 1);
        assert forall|k: int| 0 <= k < all.len() - i implies #[trigger] starts[k] == i + k by {
            if k > 0 {
                assert(starts[k] == rest[k - 1]);
            }
        }
    }
}

/// What is taken for a native file reads as one: no line of it is refused, and it only fails for want
/// of a `VERSION`.
pub proof fn native_spellings_read(source: Seq<char>)
    requires
        spelling(lines_of(source)) == Ok::<OptionlistFormat, SniffFault>(OptionlistFormat::Cfg),
    ensures
        any_optionlist(source) == cfg_read(source),
        cfg_read(source) is Ok || cfg_read(source) == Err::<OptionlistView, OptionlistFault>(
            OptionlistFault::NoVersionKey,
        ),
{
    let all = lines_of(source);
    let starts = entry_starts(all, 0);
    let n = starts.len() as int;
    let (wrong, toml) = (wrong_entries(all, starts), toml_entries(all, starts));
    let (cactup, options) = (headers(all, starts, "cactup"@), headers(all, starts, "options"@));
    lemma_first_from(0, n, wrong);
    lemma_first_from(0, n, toml);
    lemma_first_from(0, n, cactup);
    lemma_first_from(0, n, options);
    lemma_every_line(all, 0);
    let bad = bad_cfg_lines(all);
    assert forall|i: int| 0 <= i < all.len() implies !(#[trigger] bad(i)) by {
        assert(starts[i] == i);
        assert(!wrong(i) && !cactup(i) && !options(i));
        let line = trimmed(all[i]);
        if is_header(line) {
            reveal_strlit("[");
            reveal_strlit("]");
            assert(line.take(1)[0] == "["@[0]);
            assert(line.skip(line.len() - 1)[0] == "]"@[0]);
            assert(line[0] != line.last());
            assert(line.len() >= 2);
        }
    }
    lemma_first_from_is(0, all.len() as int, bad, all.len() as int);
}

} // verus!
