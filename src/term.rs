//! Terminal helpers: ANSI styling, and the decisions of interactive prompts.
use vstd::prelude::*;
use crate::parser::same_text;

verus! {

/// The eight ANSI colors.
#[derive(Clone, Copy, PartialEq, Eq, Structural, Debug)]
pub enum Color {
    Black,
    Red,
    Green,
    Yellow,
    Blue,
    Magenta,
    Cyan,
    White,
}

/// The digit that numbers a color in ANSI codes.
pub open spec fn color_digit(c: Color) -> char {
    match c {
        Color::Black => '0',
        Color::Red => '1',
        Color::Green => '2',
        Color::Yellow => '3',
        Color::Blue => '4',
        Color::Magenta => '5',
        Color::Cyan => '6',
        Color::White => '7',
    }
}

/// The ANSI code that selects a color for the foreground (`base` is `3`) or the
/// background (`base` is `4`).
pub open spec fn color_code(c: Color, base: char) -> Seq<char> {
    seq!['\x1b', '[', base, color_digit(c), 'm']
}

impl Color {
    /// The ANSI code that sets this color as foreground.
    pub fn get_fg_str(&self) -> (r: &'static str)
        ensures
            r@ == color_code(*self, '3'),
    {
        let r = match *self {
            Color::Black => "\x1b[30m",
            Color::Red => "\x1b[31m",
            Color::Green => "\x1b[32m",
            Color::Yellow => "\x1b[33m",
            Color::Blue => "\x1b[34m",
            Color::Magenta => "\x1b[35m",
            Color::Cyan => "\x1b[36m",
            Color::White => "\x1b[37m",
        };
        proof {
            reveal_strlit("\x1b[30m");
            reveal_strlit("\x1b[31m");
            reveal_strlit("\x1b[32m");
            reveal_strlit("\x1b[33m");
            reveal_strlit("\x1b[34m");
            reveal_strlit("\x1b[35m");
            reveal_strlit("\x1b[36m");
            reveal_strlit("\x1b[37m");
        }
        assert(r@ =~= color_code(*self, '3'));
        r
    }

    /// The ANSI code that sets this color as background.
    pub fn get_bg_str(&self) -> (r: &'static str)
        ensures
            r@ == color_code(*self, '4'),
    {
        let r = match *self {
            Color::Black => "\x1b[40m",
            Color::Red => "\x1b[41m",
            Color::Green => "\x1b[42m",
            Color::Yellow => "\x1b[43m",
            Color::Blue => "\x1b[44m",
            Color::Magenta => "\x1b[45m",
            Color::Cyan => "\x1b[46m",
            Color::White => "\x1b[47m",
        };
        proof {
            reveal_strlit("\x1b[40m");
            reveal_strlit("\x1b[41m");
            reveal_strlit("\x1b[42m");
            reveal_strlit("\x1b[43m");
            reveal_strlit("\x1b[44m");
            reveal_strlit("\x1b[45m");
            reveal_strlit("\x1b[46m");
            reveal_strlit("\x1b[47m");
        }
        assert(r@ =~= color_code(*self, '4'));
        r
    }
}

/// The styles that a text may carry; an attribute left unset emits no code.
pub struct StyleSpec {
    pub text: Seq<char>,
    pub fg: Option<Color>,
    pub bg: Option<Color>,
    pub bold: Option<bool>,
    pub dim: Option<bool>,
    pub underline: Option<bool>,
    pub blink: Option<bool>,
    pub reverse: Option<bool>,
}

/// The ANSI code `ESC [ n m` for a code number of one or two digits.
pub open spec fn sgr(digits: Seq<char>) -> Seq<char> {
    seq!['\x1b', '['] + digits + seq!['m']
}

/// The code of an attribute: `on` when set, `off` when cleared, nothing when unset.
pub open spec fn switch_code(v: Option<bool>, on: Seq<char>, off: Seq<char>) -> Seq<char> {
    match v {
        Some(true) => sgr(on),
        Some(false) => sgr(off),
        None => Seq::empty(),
    }
}

pub open spec fn color_part(c: Option<Color>, base: char) -> Seq<char> {
    match c {
        Some(c) => color_code(c, base),
        None => Seq::empty(),
    }
}

/// A styled text: the codes of its colors and attributes, the text, and a reset.
pub open spec fn styled(s: StyleSpec) -> Seq<char> {
    color_part(s.fg, '3') + color_part(s.bg, '4') + switch_code(s.bold, seq!['1'], seq!['2', '2'])
        + switch_code(s.dim, seq!['2'], seq!['2', '2']) + switch_code(
        s.underline,
        seq!['4'],
        seq!['2', '4'],
    ) + switch_code(s.blink, seq!['5'], seq!['2', '5']) + switch_code(
        s.reverse,
        seq!['7'],
        seq!['2', '7'],
    ) + s.text + sgr(seq!['0'])
}

/// A text with ANSI styles. The rendering is self-contained: it ends with a reset.
pub struct Style {
    text: String,
    fg: Option<Color>,
    bg: Option<Color>,
    bold: Option<bool>,
    dim: Option<bool>,
    underline: Option<bool>,
    blink: Option<bool>,
    reverse: Option<bool>,
}

impl View for Style {
    type V = StyleSpec;

    closed spec fn view(&self) -> StyleSpec {
        StyleSpec {
            text: self.text@,
            fg: self.fg,
            bg: self.bg,
            bold: self.bold,
            dim: self.dim,
            underline: self.underline,
            blink: self.blink,
            reverse: self.reverse,
        }
    }
}

/// Appends the code of an attribute, if it is set.
fn append_switch(out: &mut String, v: Option<bool>, on: &'static str, off: &'static str)
    ensures
        final(out)@ == old(out)@ + switch_code(v, on@, off@),
{
    match v {
        Some(b) => {
            out.append("\x1b[");
            if b {
                out.append(on);
            } else {
                out.append(off);
            }
            out.append("m");
            proof {
                reveal_strlit("\x1b[");
                reveal_strlit("m");
            }
            assert("\x1b["@ =~= seq!['\x1b', '[']);
            assert("m"@ =~= seq!['m']);
        },
        None => {
            assert(old(out)@ + switch_code(v, on@, off@) =~= old(out)@);
        },
    }
}

impl Style {
    /// An unstyled text.
    pub fn new(text: String) -> (r: Style)
        ensures
            r@ == (StyleSpec {
                text: text@,
                fg: None,
                bg: None,
                bold: None,
                dim: None,
                underline: None,
                blink: None,
                reverse: None,
            }),
    {
        Style {
            text,
            fg: None,
            bg: None,
            bold: None,
            dim: None,
            underline: None,
            blink: None,
            reverse: None,
        }
    }

    /// Sets the foreground color.
    pub fn fg(&mut self, color: Color)
        ensures
            final(self)@ == (StyleSpec { fg: Some(color), ..old(self)@ }),
    {
        self.fg = Some(color);
    }

    /// Sets the background color.
    pub fn bg(&mut self, color: Color)
        ensures
            final(self)@ == (StyleSpec { bg: Some(color), ..old(self)@ }),
    {
        self.bg = Some(color);
    }

    /// Enables or disables bold mode.
    pub fn bold(&mut self, bold: bool)
        ensures
            final(self)@ == (StyleSpec { bold: Some(bold), ..old(self)@ }),
    {
        self.bold = Some(bold);
    }

    /// Enables or disables dim mode.
    pub fn dim(&mut self, dim: bool)
        ensures
            final(self)@ == (StyleSpec { dim: Some(dim), ..old(self)@ }),
    {
        self.dim = Some(dim);
    }

    /// Enables or disables underlining.
    pub fn underline(&mut self, underline: bool)
        ensures
            final(self)@ == (StyleSpec { underline: Some(underline), ..old(self)@ }),
    {
        self.underline = Some(underline);
    }

    /// Enables or disables blinking.
    pub fn blink(&mut self, blink: bool)
        ensures
            final(self)@ == (StyleSpec { blink: Some(blink), ..old(self)@ }),
    {
        self.blink = Some(blink);
    }

    /// Enables or disables inverse rendering.
    pub fn reverse(&mut self, reverse: bool)
        ensures
            final(self)@ == (StyleSpec { reverse: Some(reverse), ..old(self)@ }),
    {
        self.reverse = Some(reverse);
    }

    /// The text with its ANSI codes, ended by a reset.
    pub fn render(&self) -> (r: String)
        ensures
            r@ == styled(self@),
    {
        let mut out = String::new();
        match self.fg {
            Some(c) => out.append(c.get_fg_str()),
            None => {},
        }
        match self.bg {
            Some(c) => out.append(c.get_bg_str()),
            None => {},
        }
        proof {
            reveal_strlit("1");
            reveal_strlit("2");
            reveal_strlit("22");
            reveal_strlit("4");
            reveal_strlit("24");
            reveal_strlit("5");
            reveal_strlit("25");
            reveal_strlit("7");
            reveal_strlit("27");
            reveal_strlit("\x1b[0m");
        }
        assert("1"@ =~= seq!['1'] && "2"@ =~= seq!['2'] && "22"@ =~= seq!['2', '2']);
        assert("4"@ =~= seq!['4'] && "24"@ =~= seq!['2', '4']);
        assert("5"@ =~= seq!['5'] && "25"@ =~= seq!['2', '5']);
        assert("7"@ =~= seq!['7'] && "27"@ =~= seq!['2', '7']);
        append_switch(&mut out, self.bold, "1", "22");
        append_switch(&mut out, self.dim, "2", "22");
        append_switch(&mut out, self.underline, "4", "24");
        append_switch(&mut out, self.blink, "5", "25");
        append_switch(&mut out, self.reverse, "7", "27");
        out.append(self.text.as_str());
        out.append("\x1b[0m");
        assert("\x1b[0m"@ =~= sgr(seq!['0']));
        assert(out@ =~= styled(self@));
        out
    }
}

/// The text of a prompt: the question, the default in brackets when it is to be shown,
/// then the suffix.
pub open spec fn prompt_text(text: Seq<char>, suffix: Seq<char>, show_default: bool, default: Option<
    Seq<char>,
>) -> Seq<char> {
    match default {
        Some(d) if show_default => text + " ["@ + d + "]"@ + suffix,
        _ => text + suffix,
    }
}

pub fn build_prompt_text(text: &str, suffix: &str, show_default: bool, default: Option<&str>) -> (r:
    String)
    ensures
        r@ == prompt_text(
            text@,
            suffix@,
            show_default,
            match default {
                Some(d) => Some(d@),
                None => None,
            },
        ),
{
    let mut r = String::from_str(text);
    match default {
        Some(d) => {
            if show_default {
                r.append(" [");
                r.append(d);
                r.append("]");
            }
        },
        None => {},
    }
    r.append(suffix);
    r
}

/// What a prompt holds: the question, the default, whether the answer is asked twice,
/// and the first answer once it is given.
pub struct PromptSpec {
    pub question: Seq<char>,
    pub default: Option<Seq<char>>,
    pub hide_input: bool,
    pub confirmation: bool,
    pub first: Option<Seq<char>>,
}

/// What a prompt asks for next, or how it ended.
pub enum ReplySpec {
    Ask(Seq<char>),
    Accept(Seq<char>),
    Mismatch,
}

pub open spec fn confirmation_question() -> Seq<char> {
    "Repeat for confirmation: "@
}

/// One answer to a prompt. An empty first answer takes the default, or asks again; with
/// confirmation a first answer is asked again, and the two must be equal.
pub open spec fn prompt_step(p: PromptSpec, line: Seq<char>) -> (PromptSpec, ReplySpec) {
    match p.first {
        None => if line.len() > 0 {
            if p.confirmation {
                (PromptSpec { first: Some(line), ..p }, ReplySpec::Ask(confirmation_question()))
            } else {
                (p, ReplySpec::Accept(line))
            }
        } else {
            match p.default {
                Some(d) => (p, ReplySpec::Accept(d)),
                None => (p, ReplySpec::Ask(p.question)),
            }
        },
        Some(first) => if line.len() == 0 {
            (p, ReplySpec::Ask(confirmation_question()))
        } else if line == first {
            (p, ReplySpec::Accept(first))
        } else {
            (p, ReplySpec::Mismatch)
        },
    }
}

/// What a prompt asks for next, or how it ended.
#[derive(Debug)]
pub enum PromptReply {
    /// Show this text and read another line.
    Ask(String),
    /// The value entered.
    Accept(String),
    /// The confirmation differs from the first answer.
    Mismatch,
}

impl View for PromptReply {
    type V = ReplySpec;

    open spec fn view(&self) -> ReplySpec {
        match self {
            PromptReply::Ask(s) => ReplySpec::Ask(s@),
            PromptReply::Accept(s) => ReplySpec::Accept(s@),
            PromptReply::Mismatch => ReplySpec::Mismatch,
        }
    }
}

/// An interactive prompt: the caller shows `question()`, reads a line, and hands it to
/// `answer`, until the reply is no longer a question.
pub struct Prompt {
    question: String,
    default: Option<String>,
    hide_input: bool,
    confirmation: bool,
    first: Option<String>,
}

pub open spec fn text_opt(o: Option<String>) -> Option<Seq<char>> {
    match o {
        Some(s) => Some(s@),
        None => None,
    }
}

impl View for Prompt {
    type V = PromptSpec;

    closed spec fn view(&self) -> PromptSpec {
        PromptSpec {
            question: self.question@,
            default: text_opt(self.default),
            hide_input: self.hide_input,
            confirmation: self.confirmation,
            first: text_opt(self.first),
        }
    }
}

/// Starts a prompt for `text`. `default` is taken when the answer is empty;
/// `confirmation` asks for the value twice; `hide_input` asks the caller not to echo.
pub fn prompt(
    text: &str,
    default: Option<&str>,
    hide_input: bool,
    confirmation: bool,
    prompt_suffix: &str,
    show_default: bool,
) -> (r: Prompt)
    ensures
        r@ == (PromptSpec {
            question: prompt_text(
                text@,
                prompt_suffix@,
                show_default,
                match default {
                    Some(d) => Some(d@),
                    None => None,
                },
            ),
            default: match default {
                Some(d) => Some(d@),
                None => None,
            },
            hide_input,
            confirmation,
            first: None,
        }),
{
    let question = build_prompt_text(text, prompt_suffix, show_default, default);
    let default = match default {
        Some(d) => Some(String::from_str(d)),
        None => None,
    };
    Prompt { question, default, hide_input, confirmation, first: None }
}

impl Prompt {
    /// The question to show first.
    pub fn question(&self) -> (r: String)
        ensures
            r@ == self@.question,
    {
        self.question.clone()
    }

    /// Whether the answer should be read without echo.
    pub fn hides_input(&self) -> (r: bool)
        ensures
            r == self@.hide_input,
    {
        self.hide_input
    }

    /// Takes one line that the user entered, without its line break.
    pub fn answer(&mut self, line: String) -> (r: PromptReply)
        ensures
            (final(self)@, r@) == prompt_step(old(self)@, line@),
    {
        proof {
            reveal_strlit("Repeat for confirmation: ");
        }
        match &self.first {
            None => {
                if !line.as_str().is_empty() {
                    if self.confirmation {
                        self.first = Some(line);
                        PromptReply::Ask(String::from_str("Repeat for confirmation: "))
                    } else {
                        PromptReply::Accept(line)
                    }
                } else {
                    match &self.default {
                        Some(d) => PromptReply::Accept(d.clone()),
                        None => PromptReply::Ask(self.question.clone()),
                    }
                }
            },
            Some(first) => {
                if line.as_str().is_empty() {
                    PromptReply::Ask(String::from_str("Repeat for confirmation: "))
                } else if line == *first {
                    PromptReply::Accept(line)
                } else {
                    PromptReply::Mismatch
                }
            },
        }
    }
}

/// The decision on an answer to a yes/no question, once the answer is trimmed and in
/// lower case: `y` or `yes`, `n` or `no`, the default when empty, nothing otherwise.
pub open spec fn confirm_reply(answer: Seq<char>, default: bool) -> Option<bool> {
    if answer == "y"@ || answer == "yes"@ {
        Some(true)
    } else if answer == "n"@ || answer == "no"@ {
        Some(false)
    } else if answer.len() == 0 {
        Some(default)
    } else {
        None
    }
}

pub fn confirm_answer(answer: &str, default: bool) -> (r: Option<bool>)
    ensures
        r == confirm_reply(answer@, default),
{
    if same_text(answer, "y") || same_text(answer, "yes") {
        Some(true)
    } else if same_text(answer, "n") || same_text(answer, "no") {
        Some(false)
    } else if answer.is_empty() {
        Some(default)
    } else {
        None
    }
}

/// The question of a yes/no prompt: the default is shown as `Y/n` or `y/N`.
pub fn confirm_question(text: &str, default: bool, prompt_suffix: &str, show_default: bool) -> (r:
    String)
    ensures
        r@ == prompt_text(
            text@,
            prompt_suffix@,
            show_default,
            Some(if default { "Y/n"@ } else { "y/N"@ }),
        ),
{
    let hint = if default {
        "Y/n"
    } else {
        "y/N"
    };
    build_prompt_text(text, prompt_suffix, show_default, Some(hint))
}

/// `r` is `s` with the ASCII letters `A` to `Z` in lower case and every other character
/// unchanged.
pub open spec fn lowers_to(s: Seq<char>, r: Seq<char>) -> bool {
    &&& r.len() == s.len()
    &&& forall|i: int|
        0 <= i < s.len() ==> if 'A' <= #[trigger] s[i] <= 'Z' {
            r[i] as int == s[i] as int + 32
        } else {
            r[i] == s[i]
        }
}

/// What `str::trim` leaves of a text.
pub uninterp spec fn trimmed(s: Seq<char>) -> Seq<char>;

/// Relies on str::to_ascii_lowercase: ASCII letters `A` to `Z` become `a` to `z`, and
/// other characters are unchanged.
#[verifier::external_body]
fn ascii_lowercase(s: &str) -> (r: String)
    ensures
        lowers_to(s@, r@),
{
    s.to_ascii_lowercase()
}

/// Relies on str::trim: the text without its leading and trailing white space, which
/// depends on the text alone.
#[verifier::external_body]
fn trim_text(s: &str) -> (r: &str)
    ensures
        r@ == trimmed(s@),
{
    s.trim()
}

proof fn lemma_lowers_to_unique(s: Seq<char>, a: Seq<char>, b: Seq<char>)
    requires
        lowers_to(s, a),
        lowers_to(s, b),
    ensures
        a == b,
{
    assert forall|i: int| 0 <= i < a.len() implies a[i] == b[i] by {
        if 'A' <= s[i] <= 'Z' {
            assert(a[i] as int == b[i] as int);
        }
    }
    assert(a =~= b);
}

/// The decision on a line entered at a yes/no question: the line is put in lower case
/// and trimmed, then decided by `confirm_reply`.
pub fn confirm_line(line: &str, default: bool) -> (r: Option<bool>)
    ensures
        forall|l: Seq<char>| lowers_to(line@, l) ==> r == confirm_reply(trimmed(l), default),
{
    let lower = ascii_lowercase(line);
    let answer = trim_text(lower.as_str());
    let r = confirm_answer(answer, default);
    proof {
        assert forall|l: Seq<char>| lowers_to(line@, l) implies r == confirm_reply(
            trimmed(l),
            default,
        ) by {
            lemma_lowers_to_unique(line@, l, lower@);
        }
    }
    r
}

} // verus!
