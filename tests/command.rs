use cli::{Command, Invocation, ParseError, ParsedArguments, RegistrationError, Value};
use std::cell::RefCell;

fn text_of(p: &ParsedArguments, name: &str) -> Option<String> {
    match p.get(name) {
        Some(Value::Text(t)) => t.clone(),
        _ => None,
    }
}

fn strings(v: &[&str]) -> Vec<String> {
    v.iter().map(|s| s.to_string()).collect()
}

#[test]
fn required_option_binds_and_runs_callback_once() {
    let seen: RefCell<Vec<String>> = RefCell::new(Vec::new());
    let mut cmd = Command::new("greet", |p: ParsedArguments| {
        seen.borrow_mut().push(text_of(&p, "name").unwrap_or_default());
    });
    cmd.option("n", "name", "Name to greet.", false, false, false, true, None).unwrap();
    let r = cmd.invoke("greet".to_string(), strings(&["--name", "Ada"]));
    assert!(matches!(r, Invocation::Completed));
    assert_eq!(r.exit_status(), 0);
    assert_eq!(seen.borrow().clone(), vec!["Ada".to_string()]);
}

#[test]
fn help_option_renders_help_without_callback() {
    let calls = RefCell::new(0usize);
    let mut cmd = Command::new("greet", |_p: ParsedArguments| {
        *calls.borrow_mut() += 1;
    });
    cmd.option("n", "name", "Name to greet.", false, false, false, true, None).unwrap();
    let r = cmd.invoke("greet".to_string(), strings(&["--help"]));
    assert_eq!(r.exit_status(), 0);
    match r {
        Invocation::HelpShown(page) => assert_eq!(
            page,
            "Usage: greet [OPTIONS]\n\nOptions:\n  -n, --name  Name to greet.  [required]\n  -h, --help  Show this message and exit.\n"
        ),
        other => panic!("unexpected {:?}", other),
    }
    assert_eq!(*calls.borrow(), 0);
}

#[test]
fn missing_required_option_fails_without_callback() {
    let calls = RefCell::new(0usize);
    let mut cmd = Command::new("greet", |_p: ParsedArguments| {
        *calls.borrow_mut() += 1;
    });
    cmd.option("n", "name", "Name to greet.", false, false, false, true, None).unwrap();
    let r = cmd.invoke("greet".to_string(), Vec::new());
    assert_ne!(r.exit_status(), 0);
    match r {
        Invocation::UsageError(report, ParseError::MissingRequiredOption(name)) => {
            assert_eq!(name, "name");
            assert_eq!(report, "Usage: greet [OPTIONS]\nError: missing option --name\n");
        }
        other => panic!("unexpected {:?}", other),
    }
    assert_eq!(*calls.borrow(), 0);
}

#[test]
fn multi_valued_option_keeps_order() {
    let seen: RefCell<Vec<Vec<String>>> = RefCell::new(Vec::new());
    let mut cmd = Command::new("tagger", |p: ParsedArguments| {
        if let Some(Value::List(tags)) = p.get("tag") {
            seen.borrow_mut().push(tags.clone());
        }
    });
    cmd.option("t", "tag", "A tag.", false, false, true, false, None).unwrap();
    let r = cmd.invoke("tagger".to_string(), strings(&["--tag", "a", "--tag", "b"]));
    assert!(matches!(r, Invocation::Completed));
    assert_eq!(seen.borrow().clone(), vec![vec!["a".to_string(), "b".to_string()]]);
}

#[test]
fn usage_line_for_optional_argument() {
    let mut cmd = Command::new("greet", |_p: ParsedArguments| {});
    cmd.argument("name", false, None).unwrap();
    assert_eq!(cmd.get_usage(), "Usage: greet [OPTIONS] [name]\n");
}

#[test]
fn usage_line_for_required_argument() {
    let mut cmd = Command::new("cp", |_p: ParsedArguments| {});
    cmd.argument("src", true, None).unwrap();
    cmd.argument("dst", false, Some(".")).unwrap();
    assert_eq!(cmd.get_usage(), "Usage: cp [OPTIONS] src [dst]\n");
}

#[test]
fn help_page_with_text_and_epilog() {
    let mut cmd = Command::new("greet", |_p: ParsedArguments| {});
    cmd.option("l", "loud", "Shout.", true, true, false, false, None).unwrap();
    cmd.set_help("Greets people.");
    cmd.set_epilog("Bye.");
    assert_eq!(
        cmd.get_help(),
        "Usage: greet [OPTIONS]\n\n  Greets people.\n\nOptions:\n  -l, --loud  Shout.\n  -h, --help  Show this message and exit.\n\n  Bye.\n"
    );
}

#[test]
fn help_page_without_any_option() {
    let mut cmd = Command::new("bare", |_p: ParsedArguments| {});
    cmd.set_help_option(false).unwrap();
    assert_eq!(cmd.get_help(), "Usage: bare [OPTIONS]\n");
}

#[test]
fn invoke_uses_program_name_in_reports() {
    let cmd = Command::new("greet", |_p: ParsedArguments| {});
    match cmd.invoke("hello".to_string(), strings(&["extra"])) {
        Invocation::UsageError(report, ParseError::TooManyArguments(t)) => {
            assert_eq!(t, "extra");
            assert_eq!(report, "Usage: hello [OPTIONS]\nError: unexpected extra argument extra\n");
        }
        other => panic!("unexpected {:?}", other),
    }
}

#[test]
fn registration_rejects_duplicate_names() {
    let mut cmd = Command::new("c", |_p: ParsedArguments| {});
    cmd.option("v", "verbose", "", true, true, false, false, None).unwrap();
    assert_eq!(
        cmd.option("v", "version", "", true, true, false, false, None),
        Err(RegistrationError::DuplicateName("version"))
    );
    assert_eq!(
        cmd.option("x", "verbose", "", true, true, false, false, None),
        Err(RegistrationError::DuplicateName("verbose"))
    );
}

#[test]
fn registration_rejects_help_names() {
    let mut cmd = Command::new("c", |_p: ParsedArguments| {});
    assert_eq!(
        cmd.option("h", "host", "", false, false, false, false, None),
        Err(RegistrationError::HelpNameCollision("host"))
    );
    cmd.set_help_option(false).unwrap();
    cmd.option("h", "host", "", false, false, false, false, None).unwrap();
    assert_eq!(cmd.set_help_option(true), Err(RegistrationError::HelpNameCollision("host")));
}

#[test]
fn registration_rejects_required_with_default() {
    let mut cmd = Command::new("c", |_p: ParsedArguments| {});
    assert_eq!(
        cmd.option("n", "name", "", false, false, false, true, Some("x")),
        Err(RegistrationError::RequiredWithDefault("name"))
    );
}

#[test]
fn registration_rejects_invalid_names() {
    let mut cmd = Command::new("c", |_p: ParsedArguments| {});
    assert_eq!(
        cmd.option("ab", "name", "", false, false, false, false, None),
        Err(RegistrationError::InvalidName("ab"))
    );
    assert_eq!(
        cmd.option("-", "name", "", false, false, false, false, None),
        Err(RegistrationError::InvalidName("-"))
    );
    assert_eq!(
        cmd.option("n", "n", "", false, false, false, false, None),
        Err(RegistrationError::InvalidName("n"))
    );
}

#[test]
fn registration_rejects_bool_flag_that_is_no_flag() {
    let mut cmd = Command::new("c", |_p: ParsedArguments| {});
    assert_eq!(
        cmd.option("q", "quiet", "", false, true, false, false, None),
        Err(RegistrationError::InconsistentFlags("quiet"))
    );
}

#[test]
fn registration_rejects_required_argument_after_optional() {
    let mut cmd = Command::new("c", |_p: ParsedArguments| {});
    cmd.argument("first", false, None).unwrap();
    assert_eq!(
        cmd.argument("second", true, None),
        Err(RegistrationError::RequiredAfterOptional("second"))
    );
    cmd.argument("third", false, None).unwrap();
}

#[test]
fn error_messages_name_their_subject() {
    assert_eq!(ParseError::UnknownOption("--x".to_string()).message(), "no such option: --x");
    assert_eq!(
        ParseError::MissingValue("name".to_string()).message(),
        "option --name requires a value"
    );
    assert_eq!(
        ParseError::MissingRequiredArgument("file".to_string()).message(),
        "missing argument file"
    );
}
