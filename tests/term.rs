use cli::{build_prompt_text, confirm_answer, confirm_line, confirm_question, prompt, Color, PromptReply, Style};

#[test]
fn color_codes() {
    assert_eq!(Color::Red.get_fg_str(), "\x1b[31m");
    assert_eq!(Color::White.get_fg_str(), "\x1b[37m");
    assert_eq!(Color::Black.get_bg_str(), "\x1b[40m");
    assert_eq!(Color::Cyan.get_bg_str(), "\x1b[46m");
}

#[test]
fn style_renders_codes_then_text_then_reset() {
    let mut s = Style::new("hi".to_string());
    assert_eq!(s.render(), "hi\x1b[0m");
    s.fg(Color::Red);
    s.bg(Color::Blue);
    s.bold(true);
    s.underline(false);
    assert_eq!(s.render(), "\x1b[31m\x1b[44m\x1b[1m\x1b[24mhi\x1b[0m");
    s.dim(true);
    s.blink(true);
    s.reverse(false);
    assert_eq!(s.render(), "\x1b[31m\x1b[44m\x1b[1m\x1b[2m\x1b[24m\x1b[5m\x1b[27mhi\x1b[0m");
}

#[test]
fn prompt_text_shows_default() {
    assert_eq!(build_prompt_text("Name", ": ", true, Some("Ada")), "Name [Ada]: ");
    assert_eq!(build_prompt_text("Name", ": ", false, Some("Ada")), "Name: ");
    assert_eq!(build_prompt_text("Name", ": ", true, None), "Name: ");
}

#[test]
fn prompt_takes_default_on_empty_answer() {
    let mut p = prompt("Name", Some("Ada"), false, false, ": ", true);
    assert_eq!(p.question(), "Name [Ada]: ");
    assert!(matches!(p.answer(String::new()), PromptReply::Accept(ref v) if v == "Ada"));
}

#[test]
fn prompt_asks_again_without_default() {
    let mut p = prompt("Name", None, false, false, ": ", true);
    assert!(matches!(p.answer(String::new()), PromptReply::Ask(ref q) if q == "Name: "));
    assert!(matches!(p.answer("Bob".to_string()), PromptReply::Accept(ref v) if v == "Bob"));
}

#[test]
fn prompt_with_confirmation() {
    let mut p = prompt("Password", None, true, true, ": ", false);
    assert!(p.hides_input());
    assert!(matches!(p.answer("s3".to_string()), PromptReply::Ask(ref q) if q == "Repeat for confirmation: "));
    assert!(matches!(p.answer(String::new()), PromptReply::Ask(_)));
    assert!(matches!(p.answer("s3".to_string()), PromptReply::Accept(ref v) if v == "s3"));
    let mut p = prompt("Password", None, true, true, ": ", false);
    p.answer("a".to_string());
    assert!(matches!(p.answer("b".to_string()), PromptReply::Mismatch));
}

#[test]
fn confirm_answers() {
    assert_eq!(confirm_answer("y", false), Some(true));
    assert_eq!(confirm_answer("yes", false), Some(true));
    assert_eq!(confirm_answer("n", true), Some(false));
    assert_eq!(confirm_answer("no", true), Some(false));
    assert_eq!(confirm_answer("", true), Some(true));
    assert_eq!(confirm_answer("maybe", true), None);
    assert_eq!(confirm_question("Continue?", true, " ", true), "Continue? [Y/n] ");
    assert_eq!(confirm_question("Continue?", false, " ", true), "Continue? [y/N] ");
}

#[test]
fn confirm_lines_are_lowered_and_trimmed() {
    assert_eq!(confirm_line("  YES \n", false), Some(true));
    assert_eq!(confirm_line("No", true), Some(false));
    assert_eq!(confirm_line("   ", false), Some(false));
    assert_eq!(confirm_line("Nope", true), None);
}
