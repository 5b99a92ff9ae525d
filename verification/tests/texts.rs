//! Texts: quoting, templates, walltimes, tables, TOML, and following output.

use cactup::mdb::variants::{read_entry, string_or_seq, VariantsError};
use cactup::mdb::meta::ScriptVariants;
use cactup::order::{insert_in_order, is_before};
use cactup::par::{workers_for, MAX_WORKERS};
use cactup::shell::{expand_env_vars, expand_path, sh_quote, shell_quote, trace_line};
use cactup::table::Table;
use cactup::tail::{no_output_text, source_header, tail_lines, waiting_text, Follower, TAIL_LINES};
use cactup::template::{number_value, text_value, var, TemplateError, VarSet, VarValue};
use cactup::text::{
    contains, decimal, join, lines, parse_number, path_join, pieces, replace, signed_decimal, starts, trim, words,
};
use cactup::toml_text::{get_field, read_toml, write_toml, TomlValue};
use cactup::walltime::Walltime;

fn own(list: &[&str]) -> Vec<String> {
    list.iter().map(|s| s.to_string()).collect()
}

fn env(list: &[(&str, &str)]) -> Table<String> {
    let mut table = Table::new();
    for (name, value) in list {
        table.insert(name.to_string(), value.to_string());
    }
    table
}

#[test]
fn traced_words_are_quoted_only_where_needed() {
    assert_eq!(sh_quote("/bin/sh"), "/bin/sh");
    assert_eq!(sh_quote("a b"), "'a b'");
    assert_eq!(sh_quote(""), "''");
    assert_eq!(sh_quote("it's"), "'it'\\''s'");
    assert_eq!(shell_quote("plain"), "'plain'");
    let argv = own(&["/bin/sh", "-c", "echo hi"]);
    assert_eq!(trace_line(&argv, None), "/bin/sh -c 'echo hi'");
    assert_eq!(trace_line(&argv, Some("/a b")), "cd '/a b' && /bin/sh -c 'echo hi'");
}

#[test]
fn variables_of_the_environment_are_expanded() {
    let e = env(&[("USER", "alice"), ("HOME_1", "/h")]);
    assert_eq!(expand_env_vars("/work/$USER/x", &e), "/work/alice/x");
    assert_eq!(expand_env_vars("${HOME_1}x$HOME_1.y", &e), "/hx/h.y");
    assert_eq!(expand_env_vars("$NOPE-${NOPE}", &e), "-");
    assert_eq!(expand_env_vars("$5 $ ${open", &e), "$5 $ ${open");
    assert_eq!(expand_path("~/sims/$USER", &e, Some("/home/alice")), "/home/alice/sims/alice");
    assert_eq!(expand_path("~", &e, Some("/home/alice")), "/home/alice");
    assert_eq!(expand_path("~bob", &e, Some("/home/alice")), "~bob");
    assert_eq!(expand_path("~/x", &e, None), "~/x");
}

#[test]
fn templates_are_filled() {
    let mut vars = VarSet::new();
    vars.env = env(&[("SCRATCH", "/scratch"), ("EMPTY", "")]);
    vars.set("NODES", number_value(4));
    vars.set_block(vec![var("NAME", text_value("bbh")), var("GPU", VarValue::Bool(true))]);
    assert_eq!(vars.substitute("@NAME@-@NODES@ @@ @ENV(SCRATCH)@").unwrap(), "bbh-4 @ /scratch");
    assert!(matches!(vars.substitute("@NOPE@").unwrap_err(), TemplateError::Unknown(name) if name == "NOPE"));
    assert!(matches!(vars.substitute("@ENV(MISSING)@").unwrap_err(), TemplateError::Unset(name) if name == "MISSING"));
    assert!(matches!(vars.substitute("@ENV(EMPTY)@").unwrap_err(), TemplateError::Unset(_)));
    assert_eq!(vars.substitute_with("run @COMMAND@", "COMMAND", "'x'").unwrap(), "run 'x'");
    assert_eq!(VarValue::Int(-3).canonical(), "-3");
}

#[test]
fn walltimes_are_read_and_written() {
    assert_eq!(Walltime::parse("24:00:00"), Some(Walltime(86400)));
    assert_eq!(Walltime::parse("1-01:30:45"), Some(Walltime(91845)));
    assert_eq!(Walltime::parse("soon"), None);
    let w = Walltime(91845);
    assert_eq!(w.canonical(), "01-01:30:45");
    assert_eq!((w.total_hours(), w.total_minutes(), w.total_seconds()), (25, 1530, 91845));
    assert_eq!((w.component_hours(), w.component_minutes(), w.component_seconds()), ("25".into(), "30".into(), "45".into()));
    assert_eq!(Walltime::parse(&w.canonical()), Some(w));
}

#[test]
fn tables_keep_the_order_of_their_names() {
    let mut t: Table<u32> = Table::new();
    t.insert("b".to_owned(), 1);
    t.insert("a".to_owned(), 2);
    t.insert("b".to_owned(), 3);
    assert_eq!(t.names(), ["b", "a"]);
    assert_eq!((t.len(), t.get("b"), t.get("c"), t.find("a"), t.find("c")), (2, Some(&3), None, 1, 2));
    assert_eq!((t.name_at(0), *t.at(1), t.contains("a")), ("b", 2, true));
}

#[test]
fn documents_are_read_as_plain_values() {
    let TomlValue::Dict(doc) = read_toml("b = 1\na = [\"x\", 2.5]\nt = true\nd = 2024-01-01\n").unwrap() else {
        panic!("a document is a table")
    };
    let keys: Vec<&str> = doc.iter().map(|(k, _)| k.as_str()).collect();
    assert_eq!(keys, ["b", "a", "t", "d"]);
    assert!(matches!(get_field(&doc, "b"), Some(TomlValue::Int(1))));
    assert!(matches!(get_field(&doc, "d"), Some(TomlValue::Datetime)));
    let Some(TomlValue::List(items)) = get_field(&doc, "a") else { panic!("a is a list") };
    assert!(matches!(&items[0], TomlValue::Str(s) if s == "x") && matches!(&items[1], TomlValue::Float));
    assert!(get_field(&doc, "z").is_none());
    assert!(read_toml("b = ").err().unwrap().contains("TOML parse error"));
}

/// A table that is written reads back, in its order.
#[test]
fn documents_read_back() {
    let block = vec![var("z key", text_value("a b")), var("n", VarValue::Int(-7)), var("b", VarValue::Bool(false))];
    let text = write_toml(&block);
    assert_eq!(text, "\"z key\" = \"a b\"\nn = -7\nb = false\n");
    let TomlValue::Dict(doc) = read_toml(&text).unwrap() else { panic!("a document is a table") };
    assert!(matches!(&doc[0], (k, TomlValue::Str(s)) if k == "z key" && s == "a b"));
    assert!(matches!(&doc[1], (k, TomlValue::Int(-7)) if k == "n"));
    assert!(matches!(&doc[2], (k, TomlValue::Bool(false)) if k == "b"));
}

fn value(text: &str) -> TomlValue {
    match read_toml(&format!("v = {text}")).unwrap() {
        TomlValue::Dict(mut doc) => doc.remove(0).1,
        _ => panic!("a document is a table"),
    }
}

#[test]
fn variants_are_lists_of_queues_or_tables() {
    let short = read_entry(&value("[\"gpu\"]")).unwrap();
    assert_eq!(short.queues, ["gpu"]);
    assert!(short.universe.is_none() && short.build_universes.is_none() && !short.test && !short.default);
    let full = read_entry(&value(
        "{ queues = [\"a\", \"b\"], universe = \"u\", build-universes = [], test = true, default = true, tasks = 2 }",
    ))
    .unwrap();
    assert_eq!((full.queues.len(), full.universe.as_deref(), full.tasks), (2, Some("u"), Some(2)));
    assert!(full.build_universes.unwrap().is_empty() && full.test && full.default);
    for bad in ["1", "[1]", "{ test = true }", "{ queues = [], tasks = -1 }", "{ queues = [], universe = 1 }"] {
        assert!(read_entry(&value(bad)).is_none(), "{bad}");
    }
    let TomlValue::Dict(doc) = read_toml("default-universe = 1\nx = 2\n").unwrap() else { panic!("no table") };
    let err = ScriptVariants::from_toml(&doc).err().unwrap();
    assert!(matches!(&err, VariantsError::DefaultUniverse));
    assert_eq!(err.message(), "default-universe must be a string");
    let TomlValue::Dict(doc) = read_toml("x = 2\ndefault-universe = 1\n").unwrap() else { panic!("no table") };
    let err = ScriptVariants::from_toml(&doc).err().unwrap();
    assert!(err.message().starts_with("variant \"x\" must be a [\"queue\""), "{}", err.message());
    assert_eq!(string_or_seq(&value("\"one\"")).unwrap(), ["one"]);
    assert_eq!(string_or_seq(&value("[\"one\", \"two\"]")).unwrap(), ["one", "two"]);
    assert!(string_or_seq(&value("[1]")).is_none() && string_or_seq(&value("true")).is_none());
}

#[test]
fn names_are_kept_in_order() {
    let mut list = Vec::new();
    for name in ["mike", "box", "mel5", "Mike"] {
        insert_in_order(&mut list, name.to_owned());
    }
    assert_eq!(list, ["Mike", "box", "mel5", "mike"]);
    assert!(is_before("ab", "abc") && is_before("B", "a") && !is_before("a", "a"));
}

/// Numbers read back as what was written.
#[test]
fn numbers_read_back() {
    for n in [0, 7, 10, 4294967295, u64::MAX] {
        assert_eq!(parse_number(&decimal(n), u64::MAX), Some(n));
    }
    assert_eq!(decimal(1234), "1234");
    assert_eq!(signed_decimal(i64::MIN), "-9223372036854775808");
    assert_eq!(parse_number("256", 255), None);
    assert_eq!(parse_number("", 255), None);
    assert_eq!(parse_number("1x", 255), None);
}

#[test]
fn texts_are_taken_apart() {
    assert_eq!(lines("a\r\nb\n\nc"), ["a", "b", "", "c"]);
    assert_eq!(words("  a\tb \n c"), ["a", "b", "c"]);
    assert_eq!(trim(" \u{a0}x\n"), "x");
    assert_eq!(pieces("a//b", '/'), ["a", "", "b"]);
    assert_eq!(join(&own(&["a", "b"]), ", "), "a, b");
    assert_eq!(replace("aXbX", "X", "--"), "a--b--");
    assert_eq!(path_join("/a", "b"), "/a/b");
    assert_eq!(path_join("/a", "/b"), "/b");
    assert!(starts("output-0001", "output-") && contains("abc", "bc"));
}

/// Work is spread over as many workers as there are items, or as the machine has.
#[test]
fn preserves_input_order_and_covers_every_item() {
    assert_eq!(workers_for(Some(4), 100), 4);
    assert_eq!(workers_for(Some(64), 100), MAX_WORKERS);
    assert_eq!(workers_for(Some(4), 2), 2);
    assert_eq!(workers_for(None, 0), workers_for(Some(1), 0));
}

#[test]
fn the_tail_is_the_end_of_a_text() {
    let text: String = (0..250).map(|i| format!("line {i}\n")).collect();
    let tail = tail_lines(&text);
    assert_eq!((tail.len(), tail[0].as_str()), (TAIL_LINES, "line 150"));
    assert_eq!(tail_lines("a\nb\n"), ["a", "b"]);
    assert!(source_header("/a/x.out", "stdout").contains("/a/x.out"));
    assert!(no_output_text("bbh output-0000", "/a/x.out", "/a/x.err").contains("/a/x.err"));
}

/// What grows is shown once; what was cut short is shown from its start.
#[test]
fn growing_files_are_followed() {
    assert_eq!(waiting_text("bbh"), "Waiting for output from bbh (Ctrl-C to stop)…");
    let mut f = Follower::new(2);
    assert_eq!((f.offsets.clone(), f.last), (vec![0, 0], None));
    f.shown(1, 10);
    assert_eq!((f.offsets.clone(), f.last), (vec![0, 10], Some(1)));
    let mut f = Follower { offsets: f.offsets, last: None };
    assert_eq!(f.resume(0, 5), Some(0));
    assert!(f.advance(0, 5));
    assert_eq!(f.resume(0, 5), None);
    assert_eq!(f.resume(0, 8), Some(5));
    assert!(!f.advance(0, 3));
    assert_eq!(f.resume(1, 4), Some(0));
    assert!(f.advance(1, 4));
    assert_eq!(f.offsets, [8, 4]);
}

#[test]
fn what_is_written_reads_back() {
    for seconds in [0, 59, 60, 3599, 86399, 86400, 31536000, 4294967295 * 86400] {
        let w = Walltime(seconds);
        assert_eq!(Walltime::parse(&w.canonical()), Some(w), "{}", w.canonical());
    }
    // More days than a field holds are written, and not read.
    assert_eq!(Walltime::parse(&Walltime(4294967296 * 86400).canonical()), None);
}

#[test]
fn what_is_doubled_is_not_filled_in() {
    let mut vars = VarSet::new();
    vars.set("NAME", text_value("value"));
    assert_eq!(vars.substitute("mail @@NAME@@ to a@@b").unwrap(), "mail @NAME@ to a@b");
    assert_eq!(vars.substitute("nothing to do").unwrap(), "nothing to do");
    let mut env: Table<String> = Table::new();
    env.insert("HOME".to_owned(), "/home/a".to_owned());
    assert_eq!(expand_env_vars("no {HOME} here", &env), "no {HOME} here");
}
