use cli::{build_rules, parse, Argument, BindingKind, Options, ParseError, Parsed, ParsedArguments, Value};

fn strings(v: &[&str]) -> Vec<String> {
    v.iter().map(|s| s.to_string()).collect()
}

fn bound(options: Vec<Options>, arguments: Vec<Argument>, tokens: &[&str]) -> ParsedArguments {
    let rules = build_rules(&options, true);
    match parse(&rules, &arguments, &strings(tokens)) {
        Ok(Parsed::Bound(p)) => p,
        other => panic!("unexpected {:?}", other),
    }
}

fn failure(options: Vec<Options>, arguments: Vec<Argument>, tokens: &[&str]) -> ParseError {
    let rules = build_rules(&options, true);
    match parse(&rules, &arguments, &strings(tokens)) {
        Err(e) => e,
        other => panic!("unexpected {:?}", other),
    }
}

fn flag(short: &'static str, long: &'static str, default: Option<&'static str>) -> Options {
    Options::new(short, long, "", true, true, false, false, default)
}

fn text(p: &ParsedArguments, name: &str) -> Option<String> {
    match p.get(name) {
        Some(Value::Text(t)) => t.clone(),
        other => panic!("unexpected {:?}", other),
    }
}

#[test]
fn binding_kinds_follow_the_switches() {
    let k = |f, b, m, r| Options::new("a", "aa", "", f, b, m, r, None).binding_kind();
    assert_eq!(k(true, false, false, false), BindingKind::FlagWithOptionalValue);
    assert_eq!(k(true, true, true, false), BindingKind::RepeatableFlag);
    assert_eq!(k(true, true, false, false), BindingKind::Flag);
    assert_eq!(k(false, false, false, true), BindingKind::RequiredValue);
    assert_eq!(k(false, false, true, false), BindingKind::MultiValue);
    assert_eq!(k(false, false, false, false), BindingKind::OptionalValue);
}

#[test]
fn rules_are_built_in_order_with_help_last() {
    let options = vec![flag("v", "verbose", None)];
    let rules = build_rules(&options, true);
    assert_eq!(rules.len(), 2);
    assert_eq!(rules[0].option.long_name, "verbose");
    assert!(!rules[0].is_help);
    assert_eq!(rules[1].option.long_name, "help");
    assert!(rules[1].is_help);
    assert_eq!(build_rules(&options, false).len(), 1);
}

#[test]
fn boolean_flag_round_trip() {
    let p = bound(vec![flag("v", "verbose", None)], Vec::new(), &["--verbose"]);
    assert!(matches!(p.get("verbose"), Some(Value::Flag(true))));
    let p = bound(vec![flag("v", "verbose", None)], Vec::new(), &["-v"]);
    assert!(matches!(p.get("verbose"), Some(Value::Flag(true))));
    let p = bound(vec![flag("v", "verbose", None)], Vec::new(), &[]);
    assert!(matches!(p.get("verbose"), Some(Value::Flag(false))));
    let p = bound(vec![flag("v", "verbose", Some("true"))], Vec::new(), &[]);
    assert!(matches!(p.get("verbose"), Some(Value::Flag(true))));
}

#[test]
fn repeatable_flag_counts_occurrences() {
    let o = Options::new("v", "verbose", "", true, true, true, false, None);
    let p = bound(vec![o], Vec::new(), &["-v", "-v", "--verbose"]);
    assert!(matches!(p.get("verbose"), Some(Value::Count(3))));
    let p = bound(vec![o], Vec::new(), &[]);
    assert!(matches!(p.get("verbose"), Some(Value::Count(0))));
}

#[test]
fn flag_with_optional_value() {
    let o = Options::new("o", "output", "", true, false, false, false, Some("out.txt"));
    let v = flag("v", "verbose", None);
    let p = bound(vec![o, v], Vec::new(), &["--output", "x.txt"]);
    assert_eq!(text(&p, "output"), Some("x.txt".to_string()));
    let p = bound(vec![o, v], Vec::new(), &["--output"]);
    assert_eq!(text(&p, "output"), Some("out.txt".to_string()));
    let p = bound(vec![o, v], Vec::new(), &["--output", "--verbose"]);
    assert_eq!(text(&p, "output"), Some("out.txt".to_string()));
    assert!(matches!(p.get("verbose"), Some(Value::Flag(true))));
}

#[test]
fn optional_value_uses_default_or_nothing() {
    let with = Options::new("c", "color", "", false, false, false, false, Some("auto"));
    let without = Options::new("m", "mode", "", false, false, false, false, None);
    let p = bound(vec![with, without], Vec::new(), &[]);
    assert_eq!(text(&p, "color"), Some("auto".to_string()));
    assert_eq!(text(&p, "mode"), None);
    let p = bound(vec![with, without], Vec::new(), &["-c", "never", "--mode", "fast", "-c", "always"]);
    assert_eq!(text(&p, "color"), Some("always".to_string()));
    assert_eq!(text(&p, "mode"), Some("fast".to_string()));
}

#[test]
fn multi_value_without_occurrence_takes_default() {
    let o = Options::new("t", "tag", "", false, false, true, false, Some("none"));
    let p = bound(vec![o], Vec::new(), &[]);
    match p.get("tag") {
        Some(Value::List(v)) => assert_eq!(v.clone(), vec!["none".to_string()]),
        other => panic!("unexpected {:?}", other),
    }
}

#[test]
fn missing_value_for_required_and_multi_kinds() {
    let req = Options::new("n", "name", "", false, false, false, true, None);
    let e = failure(vec![req], Vec::new(), &["--name"]);
    assert!(matches!(e, ParseError::MissingValue(ref n) if n == "name"));
    let e = failure(vec![req], Vec::new(), &["--name", "--help"]);
    assert!(matches!(e, ParseError::MissingValue(ref n) if n == "name"));
    let multi = Options::new("t", "tag", "", false, false, true, false, None);
    let e = failure(vec![multi], Vec::new(), &["-t"]);
    assert!(matches!(e, ParseError::MissingValue(ref n) if n == "tag"));
}

#[test]
fn unknown_options_are_rejected() {
    let e = failure(Vec::new(), Vec::new(), &["--bogus"]);
    assert!(matches!(e, ParseError::UnknownOption(ref t) if t == "--bogus"));
    let e = failure(Vec::new(), vec![Argument::new("n", true, None)], &["-5"]);
    assert!(matches!(e, ParseError::UnknownOption(ref t) if t == "-5"));
    let e = failure(Vec::new(), Vec::new(), &["--bogus", "--help"]);
    assert!(matches!(e, ParseError::UnknownOption(_)));
}

#[test]
fn help_short_circuits_the_scan() {
    let req = Options::new("n", "name", "", false, false, false, true, None);
    let rules = build_rules(&vec![req], true);
    assert!(matches!(parse(&rules, &Vec::new(), &strings(&["--help"])), Ok(Parsed::Help)));
    assert!(matches!(parse(&rules, &Vec::new(), &strings(&["-h", "--bogus"])), Ok(Parsed::Help)));
    let rules = build_rules(&vec![req], false);
    assert!(matches!(
        parse(&rules, &Vec::new(), &strings(&["--help"])),
        Err(ParseError::UnknownOption(_))
    ));
}

#[test]
fn positional_tokens_bind_in_order() {
    let args = vec![Argument::new("src", true, None), Argument::new("dst", true, None)];
    let p = bound(Vec::new(), args.clone(), &["a", "b"]);
    assert_eq!(p.len(), 2);
    assert_eq!(text(&p, "src"), Some("a".to_string()));
    assert_eq!(text(&p, "dst"), Some("b".to_string()));
    let e = failure(Vec::new(), args.clone(), &["a", "b", "c"]);
    assert!(matches!(e, ParseError::TooManyArguments(ref t) if t == "c"));
    let e = failure(Vec::new(), args, &["a"]);
    assert!(matches!(e, ParseError::MissingRequiredArgument(ref n) if n == "dst"));
}

#[test]
fn missing_argument_with_default_is_filled() {
    let args = vec![Argument::new("src", true, None), Argument::new("dst", false, Some("."))];
    let p = bound(Vec::new(), args, &["a"]);
    assert_eq!(text(&p, "dst"), Some(".".to_string()));
}

#[test]
fn dash_words_are_positional() {
    let p = bound(Vec::new(), vec![Argument::new("x", true, None)], &["-abc"]);
    assert_eq!(text(&p, "x"), Some("-abc".to_string()));
}

#[test]
fn options_and_arguments_mix() {
    let opts = vec![flag("v", "verbose", None), Options::new("o", "out", "", false, false, false, false, None)];
    let args = vec![Argument::new("file", true, None)];
    let p = bound(opts, args, &["in.txt", "-v", "--out", "o.txt"]);
    assert_eq!(p.len(), 3);
    assert_eq!(text(&p, "file"), Some("in.txt".to_string()));
    assert_eq!(text(&p, "out"), Some("o.txt".to_string()));
    assert!(p.get("help").is_none());
}
