use argparse::{AnyValue, ArgMatches, ArgParser, ParseError, Validator};
use vstd::seq::Seq;

struct IsInteger;

impl Validator for IsInteger {
    // Specification-only member of the trait: never called at run time.
    fn spec_accepts(&self, _value: Seq<char>) -> bool {
        unreachable!()
    }

    fn accepts(&self, value: &str) -> bool {
        value.parse::<i64>().is_ok()
    }
}

fn toks(items: &[&str]) -> Vec<String> {
    items.iter().map(|s| s.to_string()).collect()
}

fn pairs(items: &[(&str, &str)]) -> Vec<(String, String)> {
    items.iter().map(|(k, v)| (k.to_string(), v.to_string())).collect()
}

fn plain() -> ArgParser<AnyValue> {
    ArgParser::new()
}

#[test]
fn short_flag_sets_flag() {
    let p = plain().arg("verbose").short("verbose", 'v');
    let m = p.parse(&toks(&["prog", "-v"])).unwrap();
    assert_eq!(m.flags, toks(&["verbose"]));
    assert!(m.values.is_empty());
    assert!(m.positionals.is_empty());
    assert!(m.is_set("verbose"));
}

#[test]
fn short_option_takes_next_token() {
    let p = plain().arg("out").short("out", 'o').takes_value("out");
    let m = p.parse(&toks(&["prog", "-o", "file.txt"])).unwrap();
    assert_eq!(m.values, pairs(&[("out", "file.txt")]));
    assert_eq!(m.value_of("out"), Some(&"file.txt".to_string()));
}

#[test]
fn required_uses_default() {
    let p = plain().arg("out").takes_value("out").required("out").default("out", "a.txt");
    let m = p.parse(&toks(&["prog"])).unwrap();
    assert_eq!(m.values, pairs(&[("out", "a.txt")]));
}

#[test]
fn required_without_default_fails() {
    let p = plain().arg("out").takes_value("out").required("out");
    let r = p.parse(&toks(&["prog"]));
    assert_eq!(r.unwrap_err(), ParseError::MissingRequiredArgument("out".to_string()));
}

#[test]
fn validator_rejects_long_value() {
    let p = ArgParser::new().arg("n").long("n", "n").takes_value("n").validator("n", IsInteger);
    let r = p.parse(&toks(&["prog", "--n", "abc"]));
    assert_eq!(r.unwrap_err(), ParseError::InvalidValue("n".to_string()));
}

#[test]
fn validator_accepts_long_value() {
    let p = ArgParser::new().arg("n").long("n", "n").takes_value("n").validator("n", IsInteger);
    let m = p.parse(&toks(&["prog", "--n", "42"])).unwrap();
    assert_eq!(m.values, pairs(&[("n", "42")]));
}

#[test]
fn validator_rejects_short_value() {
    let p = ArgParser::new().arg("n").short("n", 'k').takes_value("n").validator("n", IsInteger);
    let r = p.parse(&toks(&["prog", "-k", "x1"]));
    assert_eq!(r.unwrap_err(), ParseError::InvalidValue("k".to_string()));
}

fn child() -> ArgParser<AnyValue> {
    plain().arg("target").long("target", "target").takes_value("target")
}

#[test]
fn subcommand_result_replaces_parent() {
    let parent = plain().arg("verbose").long("verbose", "verbose").subcommand("build", child());
    let got = parent.parse(&toks(&["prog", "--verbose", "build", "--target", "x"])).unwrap();
    let direct = child().parse(&toks(&["build", "--target", "x"])).unwrap();
    assert_eq!(got.values, direct.values);
    assert_eq!(got.flags, direct.flags);
    assert_eq!(got.positionals, direct.positionals);
    assert_eq!(got.values, pairs(&[("target", "x")]));
    assert!(got.flags.is_empty());
}

#[test]
fn positionals_keep_input_order() {
    let p = plain().arg("out").long("out", "out").takes_value("out").arg("q").short("q", 'q');
    let m = p.parse(&toks(&["prog", "a", "--out", "f", "b", "-q", "c"])).unwrap();
    assert_eq!(m.positionals, toks(&["a", "b", "c"]));
    assert_eq!(m.values, pairs(&[("out", "f")]));
    assert_eq!(m.flags, toks(&["q"]));
}

#[test]
fn long_flag_leaves_next_token() {
    let p = plain().arg("verbose").long("verbose", "verbose");
    let m = p.parse(&toks(&["prog", "--verbose", "file"])).unwrap();
    assert_eq!(m.flags, toks(&["verbose"]));
    assert_eq!(m.positionals, toks(&["file"]));
}

#[test]
fn repeated_parse_is_deterministic() {
    let build = || plain().arg("a").short("a", 'a').arg("b").long("b", "bee").takes_value("b");
    let t = toks(&["prog", "x", "-a", "--bee", "1", "y"]);
    let m1: ArgMatches = build().parse(&t).unwrap();
    let m2: ArgMatches = build().parse(&t).unwrap();
    assert_eq!(m1.values, m2.values);
    assert_eq!(m1.flags, m2.flags);
    assert_eq!(m1.positionals, m2.positionals);
}

#[test]
fn unknown_options_are_dropped() {
    let p = plain().arg("a").short("a", 'a');
    let m = p.parse(&toks(&["prog", "--nope", "-zx", "p"])).unwrap();
    assert!(m.flags.is_empty());
    assert!(m.values.is_empty());
    assert_eq!(m.positionals, toks(&["p"]));
}

#[test]
fn valued_option_at_end_is_skipped() {
    let p = plain().arg("out").long("out", "out").takes_value("out");
    let m = p.parse(&toks(&["prog", "--out"])).unwrap();
    assert!(m.values.is_empty());
    assert!(m.positionals.is_empty());
}

#[test]
fn cluster_value_is_next_token() {
    let p = plain().arg("x").short("x", 'x').takes_value("x").arg("y").short("y", 'y');
    let m = p.parse(&toks(&["prog", "-xy", "val", "rest"])).unwrap();
    assert_eq!(m.values, pairs(&[("x", "val")]));
    assert_eq!(m.flags, toks(&["y"]));
    assert_eq!(m.positionals, toks(&["rest"]));
}

#[test]
fn later_value_overwrites_earlier() {
    let p = plain().arg("o").short("o", 'o').takes_value("o");
    let m = p.parse(&toks(&["prog", "-o", "1", "-o", "2"])).unwrap();
    assert_eq!(m.values, pairs(&[("o", "2")]));
}

#[test]
fn config_of_unknown_name_is_noop() {
    let p = plain().arg("a").short("missing", 'a').takes_value("missing").required("missing");
    let m = p.parse(&toks(&["prog", "-a"])).unwrap();
    assert!(m.flags.is_empty());
    assert!(m.values.is_empty());
}

#[test]
fn required_flag_is_not_enforced() {
    let p = plain().arg("f").short("f", 'f').required("f");
    let m = p.parse(&toks(&["prog"])).unwrap();
    assert!(m.flags.is_empty());
    assert!(m.values.is_empty());
}

#[test]
fn empty_token_list_parses() {
    let m = plain().parse(&[]).unwrap();
    assert!(m.values.is_empty());
    assert!(m.flags.is_empty());
    assert!(m.positionals.is_empty());
}

#[test]
fn subcommand_can_be_replaced() {
    let first = plain().arg("a").short("a", 'a');
    let second = plain().arg("b").short("b", 'b');
    let p = plain().subcommand("go", first).subcommand("go", second);
    let m = p.parse(&toks(&["prog", "go", "-a", "-b"])).unwrap();
    assert_eq!(m.flags, toks(&["b"]));
}

#[test]
fn subcommand_errors_propagate() {
    let sub = plain().arg("need").takes_value("need").required("need");
    let p = plain().arg("keep").takes_value("keep").required("keep").default("keep", "d").subcommand("run", sub);
    let r = p.parse(&toks(&["prog", "run"]));
    assert_eq!(r.unwrap_err(), ParseError::MissingRequiredArgument("need".to_string()));
}

#[test]
fn flag_set_twice_is_recorded_once() {
    let p = plain().arg("v").short("v", 'v').long("v", "verbose");
    let m = p.parse(&toks(&["prog", "-vv", "--verbose"])).unwrap();
    assert_eq!(m.flags, toks(&["v"]));
}

#[test]
fn flag_never_in_values_and_value_never_in_flags() {
    let p = plain().arg("f").long("f", "f").arg("v").long("v", "v").takes_value("v");
    let m = p.parse(&toks(&["prog", "--f", "--v", "--f", "x"])).unwrap();
    assert_eq!(m.values, pairs(&[("v", "--f")]));
    assert!(m.value_of("f").is_none());
    assert!(!m.is_set("v"));
    assert_eq!(m.positionals, toks(&["x"]));
}

#[test]
fn matches_have_debug_output() {
    let p = plain().arg("a").short("a", 'a');
    let m = p.parse(&toks(&["prog", "-a"])).unwrap();
    let text = format!("{:?}", m);
    assert!(text.contains("flags"));
}
