//! Optionlists in each of their spellings.

use cactup::mdb::optionlist::{
    has_literal_options_header, load_header, parse_cfg, Optionlist, OptionlistError, OptionValue,
};
use cactup::mdb::sniff::{looks_like_integer, sniff, strip_trailing_comment, OptionlistFormat, SniffError};

const BASIC: &str = r#"
        [cactup]
        gpu = true
        compatible-queues = ["gpu"]
        universe = "et-sif"

        [options]
        VERSION = "2024-06-01"
        CC = "gcc"
        CFLAGS = "-O2 -g @SOME_TEMPLATED_VALUE@"
        DEBUG = false
        VECTORISE = true
        MAX_THINGS = 42
    "#;

#[test]
fn parses_header_and_renders_native_format() {
    let ol = Optionlist::parse(BASIC).unwrap();
    assert!(ol.header.gpu);
    assert_eq!(ol.header.compatible_queues, ["gpu"]);
    assert!(!ol.header.default);
    assert_eq!(ol.header.universe.as_deref(), Some("et-sif"));
    assert!(ol.header.coerce_run_universe); // defaults true
    assert!(ol.header.enabled_thorns.is_empty() && ol.header.disabled_thorns.is_empty());

    assert_eq!(
        ol.render(),
        "VERSION = 2024-06-01\n\
         CC = gcc\n\
         CFLAGS = -O2 -g @SOME_TEMPLATED_VALUE@\n\
         DEBUG = no\n\
         VECTORISE = yes\n\
         MAX_THINGS = 42\n"
    );
}

#[test]
fn version_is_emitted_first_regardless_of_position() {
    let ol = Optionlist::parse(
        "[options]\nCC = \"gcc\"\nVERSION = \"2020-01-01\"\n",
    )
    .unwrap();
    assert!(ol.render().starts_with("VERSION = 2020-01-01\nCC = gcc\n"));
    // And [cactup] may be omitted entirely (all defaults).
    assert!(!ol.header.gpu && ol.header.compatible_queues.is_empty());
}

#[test]
fn header_carries_per_variant_thorn_toggles() {
    // an optionlist variant may disable/enable thorns on top of the
    // machine lists (e.g. a CUDA variant dropping thorns nvcc can't build).
    let ol = Optionlist::parse(
        "[cactup]\ngpu = true\n\
         disabled-thorns = [\"ExternalLibraries/LORENE\", \"EinsteinInitialData/Meudon_Bin_BH\"]\n\
         enabled-thorns = [\"ExternalLibraries/OpenBLAS\"]\n\
         [options]\nVERSION = \"1\"\nCC = \"gcc\"\n",
    )
    .unwrap();
    assert_eq!(
        ol.header.disabled_thorns,
        ["ExternalLibraries/LORENE", "EinsteinInitialData/Meudon_Bin_BH"]
    );
    assert_eq!(ol.header.enabled_thorns, ["ExternalLibraries/OpenBLAS"]);
    // The toggles are not emitted to the native file.
    assert!(!ol.render().contains("LORENE"));
}

#[test]
fn rejects_floats_and_missing_version() {
    let err = Optionlist::parse("[options]\nVERSION = \"x\"\nBAD = 1.5\n").err().unwrap();
    assert!(err.message().contains("float"), "{}", err.message());

    let err = Optionlist::parse("[options]\nCC = \"gcc\"\n").err().unwrap();
    assert!(err.message().contains("VERSION"), "{}", err.message());
}

const OPTIONS_ONLY_HEADER: &str = r#"
        [options]
        VERSION = "2024-06-01"
        CC = "gcc"
    "#;

const OPTIONS_ONLY_NO_HEADER: &str = r#"
        VERSION = "2024-06-01"
        CC = "gcc"
    "#;

const CFG_SNIPPET: &str = r#"
        # Generated by configure
        # do not edit by hand
        VERSION = 2024-06-01
        CC = gcc
        CXXFLAGS = -g -std=gnu++17
        DEBUG = no
        CPPFLAGS =
        CC = gcc-12  # override the compiler
    "#;

#[test]
fn sniff_detects_all_three_forms() {
    assert_eq!(sniff(BASIC).unwrap(), OptionlistFormat::MdbToml);
    assert_eq!(sniff(OPTIONS_ONLY_HEADER).unwrap(), OptionlistFormat::OptionsToml);
    assert_eq!(sniff(OPTIONS_ONLY_NO_HEADER).unwrap(), OptionlistFormat::OptionsToml);
    assert_eq!(sniff(CFG_SNIPPET).unwrap(), OptionlistFormat::Cfg);
}

#[test]
fn options_only_matches_mdb_toml_and_gets_default_header() {
    let mdb_equivalent = Optionlist::parse(OPTIONS_ONLY_HEADER).unwrap();
    let with_header = Optionlist::parse_any(OPTIONS_ONLY_HEADER).unwrap();
    let no_header = Optionlist::parse_any(OPTIONS_ONLY_NO_HEADER).unwrap();

    assert_eq!(with_header.render(), mdb_equivalent.render());
    assert_eq!(no_header.render(), mdb_equivalent.render());
    assert_eq!(with_header.render(), "VERSION = 2024-06-01\nCC = gcc\n");

    // No [cactup] header in either input -> all defaults.
    assert!(!with_header.header.gpu && with_header.header.compatible_queues.is_empty());
    assert!(!no_header.header.gpu && no_header.header.compatible_queues.is_empty());

    // `source` is the verbatim input, not the header-prepended rewrite
    // used internally to parse the headerless form.
    assert_eq!(with_header.source, OPTIONS_ONLY_HEADER);
    assert_eq!(no_header.source, OPTIONS_ONLY_NO_HEADER);
}

#[test]
fn parses_a_realistic_cfg_snippet() {
    let ol = Optionlist::parse_any(CFG_SNIPPET).unwrap();
    assert!(!ol.header.gpu && ol.header.compatible_queues.is_empty()); // default header
    assert_eq!(
        ol.render(),
        "VERSION = 2024-06-01\n\
         CC = gcc-12\n\
         CXXFLAGS = -g -std=gnu++17\n\
         DEBUG = no\n\
         CPPFLAGS = \n"
    );
    // DEBUG must stay the literal `no`, never round-trip through a
    // bool and come back as `false`.
    assert!(ol.render().contains("DEBUG = no"));
    assert_eq!(ol.source, CFG_SNIPPET);
}

#[test]
fn mdb_toml_source_is_byte_identical_to_input() {
    let ol = Optionlist::parse_any(BASIC).unwrap();
    assert_eq!(ol.source, BASIC);
}

#[test]
fn mixing_toml_and_cfg_values_is_rejected() {
    let mixed = "CC = \"gcc\"\nCFLAGS = -O2\n";
    let err = Optionlist::parse_any(mixed).err().unwrap();
    let msg = err.message();
    assert!(msg.contains("line 1"), "{msg}");
    assert!(msg.contains("line 2"), "{msg}");
    assert!(msg.contains("CFLAGS = -O2"), "{msg}");
    assert!(msg.contains("not be intermixed") || msg.contains("not intermixed"), "{msg}");
}

#[test]
fn cactup_header_over_unquoted_values_errors() {
    // sniff itself accepts this as MdbToml (a literal [cactup] + literal
    // [options] header always means MdbToml, per the detection rules);
    // the bare, unquoted option values then fail the real TOML parser.
    let src = "[cactup]\n[options]\nVERSION = 2024-06-01\nCC = gcc\n";
    assert!(Optionlist::parse_any(src).is_err());
}

#[test]
fn unknown_table_header_is_rejected_and_named() {
    let err = sniff("[machine]\nVERSION = \"1\"\n").err().unwrap();
    assert!(err.message().contains("machine"));
}

#[test]
fn cfg_missing_version_errors() {
    let err = Optionlist::parse_any("CC = gcc\nDEBUG = no\n").err().unwrap();
    assert!(err.message().contains("VERSION"));
}

#[test]
fn empty_optionlist_is_rejected() {
    let err = sniff("   \n# just a comment\n").err().unwrap();
    assert!(err.message().contains("no options"));
    let err = Optionlist::parse_any("   \n# just a comment\n").err().unwrap();
    assert!(err.message().contains("no options"));
}

// Regression for a real shape (mdb/graham/optionlists/gpu.toml): a
// [cactup] array value that spans several lines, with #-commented
// entries interleaved. sniff must not choke on an interior line that has
// neither a table header nor a `=`.
const MULTILINE_ARRAY: &str = r#"
        [cactup]
        gpu = true
        disabled-thorns = [
            # CTThorns: code is CUDA-aware but lacks __host__ annotations
            "CTThorns/CT_Analytic",
            "CTThorns/CT_MultiLevel",
            # LORENE does not link
            "ExternalLibraries/LORENE",
        ]

        [options]
        VERSION = "graham-gpu-2021-03-11"
        CC = "gcc"
    "#;

#[test]
fn multiline_array_values_are_handled() {
    assert_eq!(sniff(MULTILINE_ARRAY).unwrap(), OptionlistFormat::MdbToml);

    let ol = Optionlist::parse_any(MULTILINE_ARRAY).unwrap();
    assert!(ol.header.gpu);
    assert_eq!(
        ol.header.disabled_thorns,
        ["CTThorns/CT_Analytic", "CTThorns/CT_MultiLevel", "ExternalLibraries/LORENE"]
    );
    assert_eq!(ol.render(), "VERSION = graham-gpu-2021-03-11\nCC = gcc\n");
    assert_eq!(ol.source, MULTILINE_ARRAY);
}

/// The header can be read of a file whose options cannot.
#[test]
fn a_header_is_read_alone() {
    let source = "[cactup]\ndefault = true\nuniverse = \"et-sing\"\n[options]\nBAD = 1.5\n";
    let header = load_header(source).unwrap();
    assert!(header.default && !header.gpu);
    assert_eq!(header.universe.as_deref(), Some("et-sing"));
    assert!(matches!(Optionlist::parse(source).err().unwrap(), OptionlistError::Float(key) if key == "BAD"));
    // Without a header, the defaults.
    assert!(load_header("[options]\nVERSION = \"1\"\n").unwrap().coerce_run_universe);
    let err = load_header("[cactup]\ngpu = 1\n").err().unwrap();
    assert_eq!(err.message(), "Failed to parse optionlist TOML: gpu is missing or of the wrong type");
    assert!(matches!(load_header("cactup = 1\n").err().unwrap(), OptionlistError::Shape(key) if key == "cactup"));
    assert!(matches!(load_header("[cactup").err().unwrap(), OptionlistError::Toml(_)));
}

/// Each way in which an optionlist can be wrong has its own report.
#[test]
fn unreadable_optionlists_are_told_apart() {
    let error = |source: &str| Optionlist::parse_any(source).err().unwrap();
    assert_eq!(
        error("[options]\nVERSION = \"1\"\nLIST = [\"a\"]\n").message(),
        "[options].LIST must be a string, boolean, or integer (got array)"
    );
    assert_eq!(
        Optionlist::parse("[options]\nVERSION = \"x\"\nBAD = 1.5\n").err().unwrap().message(),
        "[options].BAD is a float; Cactus options are never floats \u{2014} quote it as a string if the dotted value is intended"
    );
    assert!(matches!(Optionlist::parse("[cactup]\n").err().unwrap(), OptionlistError::Shape(key) if key == "options"));
    assert!(matches!(error("VERSION = 1 x\n[options]\n"), OptionlistError::CfgTable(_, _) | OptionlistError::Sniff(_)));
    assert!(matches!(error("CC = gcc\nno equals sign\n"), OptionlistError::Sniff(SniffError::Stray(_, 2))));
    assert!(matches!(sniff("[cactup]\nCC = gcc\n").err().unwrap(), SniffError::NoOptionsTable));
    assert!(matches!(sniff("[options]\nCC = gcc\n").err().unwrap(), SniffError::TableOverNative));
    assert!(matches!(error("CC = gcc\nDEBUG = no\n"), OptionlistError::NoVersionKey));
    assert!(matches!(parse_cfg("VERSION = 1\n[options]\n").err().unwrap(), OptionlistError::CfgTable(_, 2)));
    assert!(matches!(parse_cfg("VERSION = 1\nstray\n").err().unwrap(), OptionlistError::CfgStray(_, 2)));
}

/// Comments end a value only behind white space, and integers are neutral.
#[test]
fn values_are_read_to_their_comment() {
    assert_eq!(strip_trailing_comment("gcc-12  # override the compiler"), "gcc-12  ");
    assert_eq!(strip_trailing_comment("a#b"), "a#b");
    assert!(looks_like_integer("+1_000") && looks_like_integer("-7") && looks_like_integer("0"));
    assert!(!looks_like_integer("_1") && !looks_like_integer("1.5") && !looks_like_integer("+"));
    assert!(has_literal_options_header("a\n  [options]  \n") && !has_literal_options_header("[options] # no\n"));
}

/// A value is spelled as Cactus spells it.
#[test]
fn values_are_spelled_natively() {
    assert_eq!(OptionValue::Bool(true).render(), "yes");
    assert_eq!(OptionValue::Bool(false).render(), "no");
    assert_eq!(OptionValue::Int(-42).render(), "-42");
    assert_eq!(OptionValue::Str("-O2 -g".to_owned()).render(), "-O2 -g");
}

/// What a native file says, its rendered form says too, and rendering that changes nothing.
#[test]
fn native_files_read_back() {
    let source = "CC = gcc-12 # old\n\n# a remark\nVERSION = 2024 \nLIBS =\nF = -D'a # b'  # c\nCC = clang\n = x\n";
    let first = parse_cfg(source).ok().unwrap();
    let text = first.render();
    assert_eq!(text, "VERSION = 2024\nCC = clang\nLIBS = \nF = -D'a # b'\n = x\n");
    let second = parse_cfg(&text).ok().unwrap();
    assert_eq!(second.render(), text);
    assert_eq!(second.options.name_at(0), "VERSION");
    // Without its comment, this line is the header of a table.
    let odd = parse_cfg("VERSION = 1\n[a = b] # c\n").ok().unwrap();
    assert!(parse_cfg(&odd.render()).is_err());
}

/// A text that is taken for a native file is read as one, or lacks a `VERSION`.
#[test]
fn native_spellings_read() {
    for source in ["VERSION = x\nA = -O2\n", "VERSION = 1\nB = [x\n", "A = yes\n"] {
        match sniff(source) {
            Ok(OptionlistFormat::Cfg) => match parse_cfg(source) {
                Ok(_) => assert!(source.contains("VERSION")),
                Err(e) => assert!(matches!(e, OptionlistError::NoVersionKey)),
            },
            Ok(_) => assert!(source.contains('[')),
            Err(e) => panic!("{}", e.message()),
        }
    }
}
