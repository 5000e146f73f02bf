use cli::{Command, Options, ParsedArguments};

#[test]
fn make_parser_registers_every_kind() {
    let mut cmd = Command::new("greet", |_p: ParsedArguments| {});
    cmd.option("n", "name", "Name to greet.", false, false, false, true, None).unwrap();
    cmd.option("t", "tag", "", false, false, true, false, None).unwrap();
    cmd.option("v", "verbose", "", true, true, true, false, None).unwrap();
    cmd.option("o", "output", "", true, false, false, false, None).unwrap();
    cmd.option("c", "color", "", false, false, false, false, None).unwrap();
    cmd.option("q", "quiet", "", true, true, false, false, None).unwrap();
    let parser = cmd.make_parser();
    let m = parser
        .parse(&["-n", "Ada", "-t", "a", "-t", "b", "-v", "-v", "--output", "-q", "--color", "red"])
        .unwrap();
    assert_eq!(m.opt_str("name"), Some("Ada".to_string()));
    assert_eq!(m.opt_strs("tag"), vec!["a".to_string(), "b".to_string()]);
    assert_eq!(m.opt_count("verbose"), 2);
    assert!(m.opt_present("output"));
    assert!(m.opt_present("quiet"));
    assert_eq!(m.opt_str("color"), Some("red".to_string()));
    assert!(!m.opt_present("help"));
    assert!(parser.parse(&["-q"]).is_err());
    assert!(parser.parse(&["-h", "-n", "x"]).unwrap().opt_present("help"));
}

#[test]
fn add_to_parser_appends_one_group() {
    let mut p = getopts::Options::new();
    Options::new("a", "alpha", "First letter.", false, false, false, false, None).add_to_parser(&mut p);
    let usage = p.usage("brief");
    assert!(usage.contains("-a, --alpha alpha"));
    assert!(usage.contains("First letter."));
}

#[test]
fn parser_without_help_option() {
    let mut cmd = Command::new("c", |_p: ParsedArguments| {});
    cmd.set_help_option(false).unwrap();
    let parser = cmd.make_parser();
    assert!(parser.parse(&["--help"]).is_err());
}
