use cli::{wrap_text, HelpFormatter, Options, Argument};

#[test]
fn wrap_text_fills_greedily() {
    assert_eq!(wrap_text("aaa bbb ccc", 7, "", ""), "aaa bbb\nccc");
    assert_eq!(wrap_text("aaa bbb ccc", 7, "> ", "  "), "> aaa bbb\n  ccc");
    assert_eq!(wrap_text("abcdefghijkl x", 5, "", ""), "abcdefghijkl\nx");
    assert_eq!(wrap_text("", 5, "> ", ""), "");
}

#[test]
fn wrap_text_keeps_gaps_within_a_line() {
    assert_eq!(wrap_text("a  b", 10, "", ""), "a  b");
    assert_eq!(wrap_text("  a\tb \n", 10, "", ""), "a b");
}

#[test]
fn paragraph_only_after_content() {
    let mut f = HelpFormatter::new(80, 2);
    f.write_paragraph();
    assert_eq!(f.getvalue(), "");
    f.write("x".to_string());
    f.write_paragraph();
    assert_eq!(f.getvalue(), "x\n");
}

#[test]
fn getvalue_is_idempotent() {
    let mut f = HelpFormatter::new(80, 2);
    f.write("abc".to_string());
    f.write_heading("Head");
    let first = f.getvalue();
    let second = f.getvalue();
    assert_eq!(first, second);
    assert_eq!(first, "abcHead\n");
}

#[test]
fn heading_and_text_follow_indentation() {
    let mut f = HelpFormatter::new(20, 2);
    f.indent();
    f.write_heading("Options:");
    f.write_text("one two three four five six".to_string());
    f.dedent();
    f.write_text("end".to_string());
    assert_eq!(f.getvalue(), "  Options:\n  one two three four\n  five six\nend\n");
}

#[test]
fn sections_indent_and_restore() {
    let mut f = HelpFormatter::new(80, 2);
    f.write("a".to_string());
    f.enter_section("S");
    f.write_text("t".to_string());
    f.exit_section();
    f.write_text("u".to_string());
    assert_eq!(f.getvalue(), "a\nS\n  t\nu\n");
}

#[test]
fn narrow_text_keeps_ten_columns() {
    let mut f = HelpFormatter::new(12, 4);
    f.indent();
    f.write_text("aaaa bbbb cccc".to_string());
    assert_eq!(f.getvalue(), "    aaaa bbbb\n    cccc\n");
}

#[test]
fn definition_list_aligns_second_column() {
    let mut f = HelpFormatter::new(80, 2);
    f.write_dl(vec![
        ("-a".to_string(), "alpha".to_string()),
        ("--bb".to_string(), "".to_string()),
        ("-c".to_string(), "gamma".to_string()),
    ]);
    assert_eq!(f.getvalue(), "-a    alpha\n--bb\n-c    gamma\n");
}

#[test]
fn definition_list_wraps_under_second_column() {
    let mut f = HelpFormatter::new(20, 2);
    f.write_dl(vec![("-x".to_string(), "aa bb cc dd ee ff".to_string())]);
    assert_eq!(f.getvalue(), "-x  aa bb cc dd ee\n    ff\n");
}

#[test]
fn usage_wraps_under_first_argument() {
    let mut f = HelpFormatter::new(30, 2);
    f.write_usage("prog", "[OPTIONS] alpha beta gamma delta".to_string(), "Usage: ");
    assert_eq!(f.getvalue(), "Usage: prog [OPTIONS] alpha\n            beta gamma delta\n");
}

#[test]
fn usage_without_arguments() {
    let mut f = HelpFormatter::new(80, 2);
    f.write_usage("prog", "".to_string(), "Usage: ");
    assert_eq!(f.getvalue(), "Usage: prog\n");
}

#[test]
fn help_record_with_default() {
    let o = Options::new("c", "count", "How many.", false, false, false, false, Some("3"));
    assert_eq!(o.get_help_record(), ("-c, --count".to_string(), "How many.  [default: 3]".to_string()));
}

#[test]
fn help_record_when_required() {
    let o = Options::new("n", "name", "Name to greet.", false, false, false, true, None);
    assert_eq!(o.get_help_record(), ("-n, --name".to_string(), "Name to greet.  [required]".to_string()));
}

#[test]
fn help_record_without_help_or_metadata() {
    let o = Options::new("q", "quiet", "", true, true, false, false, None);
    assert_eq!(o.get_help_record(), ("-q, --quiet".to_string(), "".to_string()));
    let o = Options::new("q", "quiet", "", true, true, false, true, Some("x"));
    assert_eq!(o.get_help_record().1, "[default: x; required]");
}

#[test]
fn usage_pieces_bracket_optional_arguments() {
    assert_eq!(Argument::new("file", true, None).get_usage_piece(), "file");
    assert_eq!(Argument::new("file", false, None).get_usage_piece(), "[file]");
}
