//! Commands: registration of options and arguments, help rendering, and dispatch.
use vstd::prelude::*;
use crate::formatting::{
    definition_list, heading_line, row_views, text_block, usage_line, views, FormatterState,
    HelpFormatter,
};
use crate::parser::{
    build_rules, parse, parse_result, rules_for, same_text, ParseError, ParseFault, ParseModel,
    Parsed, ParsedArguments, Rule,
};
use crate::optgroups::{getopts_names, new_parser, option_groups};
use crate::types::{description, display_name, getopts_group, usage_piece, Argument, Options};
use getopts::Options as OptionParser;

verus! {

broadcast use vstd::seq::Seq::lemma_flatten_push;

/// The width of help pages, in columns.
pub const HELP_WIDTH: usize = 80;

/// The indentation of each section level of a help page.
pub const HELP_INDENT: usize = 2;

/// An option or argument that a command cannot take. It names the item refused.
#[derive(Clone, Copy, Debug, PartialEq, Eq)]
pub enum RegistrationError {
    /// The short name is not one ASCII character other than `-`, or the long name has
    /// fewer than two characters.
    InvalidName(&'static str),
    /// The option is a boolean flag but not a flag.
    InconsistentFlags(&'static str),
    /// The option is required and has a default.
    RequiredWithDefault(&'static str),
    /// The option takes `h` or `help`, which the help option holds.
    HelpNameCollision(&'static str),
    /// The option takes a short or long name that another option has.
    DuplicateName(&'static str),
    /// A required argument would follow an optional one.
    RequiredAfterOptional(&'static str),
}

/// What a command holds, apart from its callback.
pub struct CommandSpec {
    pub name: Seq<char>,
    pub options: Seq<Options>,
    pub arguments: Seq<Argument>,
    pub help: Seq<char>,
    pub epilog: Seq<char>,
    pub short_help: Seq<char>,
    pub help_option: bool,
}

/// A short name is one ASCII character other than a dash.
pub open spec fn valid_short(s: Seq<char>) -> bool {
    s.len() == 1 && (s[0] as int) < 128 && s[0] != '-'
}

pub open spec fn valid_long(s: Seq<char>) -> bool {
    s.len() >= 2
}

pub open spec fn names_clash(a: Options, b: Options) -> bool {
    a.short_name@ == b.short_name@ || a.long_name@ == b.long_name@
}

pub open spec fn clashes_with_help(o: Options) -> bool {
    o.short_name@ == "h"@ || o.long_name@ == "help"@
}

/// Why an option cannot be added to a command, if it cannot.
pub open spec fn option_fault(cmd: CommandSpec, o: Options) -> Option<RegistrationError> {
    if !valid_short(o.short_name@) {
        Some(RegistrationError::InvalidName(o.short_name))
    } else if !valid_long(o.long_name@) {
        Some(RegistrationError::InvalidName(o.long_name))
    } else if o.is_bool_flag && !o.is_flag {
        Some(RegistrationError::InconsistentFlags(o.long_name))
    } else if o.required && o.default is Some {
        Some(RegistrationError::RequiredWithDefault(o.long_name))
    } else if cmd.help_option && clashes_with_help(o) {
        Some(RegistrationError::HelpNameCollision(o.long_name))
    } else if exists|i: int| 0 <= i < cmd.options.len() && names_clash(#[trigger] cmd.options[i], o) {
        Some(RegistrationError::DuplicateName(o.long_name))
    } else {
        None
    }
}

/// Why an argument cannot be added to a command, if it cannot.
pub open spec fn argument_fault(cmd: CommandSpec, a: Argument) -> Option<RegistrationError> {
    if a.required && exists|i: int| 0 <= i < cmd.arguments.len() && !(#[trigger] cmd.arguments[i]).required {
        Some(RegistrationError::RequiredAfterOptional(a.name))
    } else {
        None
    }
}

/// The first option, from index `i` on, that takes a name of the help option.
pub open spec fn help_clash_from(options: Seq<Options>, i: int) -> Option<int>
    decreases options.len() - i,
{
    if i < 0 || i >= options.len() {
        None
    } else if clashes_with_help(options[i]) {
        Some(i)
    } else {
        help_clash_from(options, i + 1)
    }
}

/// With no clash found from index `start` on, no option there clashes.
proof fn lemma_no_help_clash(options: Seq<Options>, start: int, i: int)
    requires
        0 <= start <= i < options.len(),
        help_clash_from(options, start) is None,
    ensures
        !clashes_with_help(options[i]),
    decreases i - start,
{
    if start < i {
        lemma_no_help_clash(options, start + 1, i);
    }
}

pub open spec fn valid_option(o: Options) -> bool {
    &&& valid_short(o.short_name@)
    &&& valid_long(o.long_name@)
    &&& o.is_bool_flag ==> o.is_flag
    &&& !(o.required && o.default is Some)
}

/// The invariants of a command: valid and distinct option names, none of them taken
/// from the help option while it is registered, and no required argument after an
/// optional one.
pub open spec fn well_formed(cmd: CommandSpec) -> bool {
    &&& forall|i: int| 0 <= i < cmd.options.len() ==> valid_option(#[trigger] cmd.options[i])
    &&& forall|i: int, j: int|
        0 <= i < j < cmd.options.len() ==> !names_clash(#[trigger] cmd.options[i], #[trigger] cmd.options[j])
    &&& cmd.help_option ==> forall|i: int|
        0 <= i < cmd.options.len() ==> !clashes_with_help(#[trigger] cmd.options[i])
    &&& forall|i: int, j: int|
        0 <= i < j < cmd.arguments.len() && (#[trigger] cmd.arguments[j]).required
            ==> (#[trigger] cmd.arguments[i]).required
}

/// The arguments of the usage line: `[OPTIONS]`, then each argument's piece, spaced.
pub open spec fn usage_args(args: Seq<Argument>) -> Seq<char>
    decreases args.len(),
{
    if args.len() == 0 {
        "[OPTIONS]"@
    } else {
        usage_args(args.drop_last()) + seq![' '] + usage_piece(args.last())
    }
}

pub open spec fn usage_text(cmd: CommandSpec, prog: Seq<char>) -> Seq<char> {
    usage_line(prog, usage_args(cmd.arguments), "Usage: "@, HELP_WIDTH as nat)
}

/// The help rows of all options, in their order, the help option last.
pub open spec fn help_records(cmd: CommandSpec) -> Seq<(Seq<char>, Seq<char>)> {
    help_rows(rules_for(cmd.options, cmd.help_option))
}

/// A paragraph of free text, indented one level, if there is any text.
pub open spec fn text_section(text: Seq<char>) -> Seq<char> {
    if text.len() > 0 {
        seq!['\n'] + text_block(text, HELP_WIDTH as nat, HELP_INDENT as nat)
    } else {
        Seq::empty()
    }
}

pub open spec fn options_section(cmd: CommandSpec) -> Seq<char> {
    let rows = help_records(cmd);
    if rows.len() > 0 {
        seq!['\n'] + heading_line(0, "Options:"@) + definition_list(
            rows,
            HELP_INDENT as nat,
            HELP_WIDTH as nat,
        )
    } else {
        Seq::empty()
    }
}

/// The help page: usage line, help text, options, epilog.
pub open spec fn help_page(cmd: CommandSpec, prog: Seq<char>) -> Seq<char> {
    usage_text(cmd, prog) + text_section(cmd.help) + options_section(cmd) + text_section(
        cmd.epilog,
    )
}

/// What is said of a rejected command line.
pub open spec fn fault_message(f: ParseFault) -> Seq<char> {
    match f {
        ParseFault::UnknownOption(t) => "no such option: "@ + t,
        ParseFault::MissingValue(n) => "option --"@ + n + " requires a value"@,
        ParseFault::MissingRequiredOption(n) => "missing option --"@ + n,
        ParseFault::MissingRequiredArgument(n) => "missing argument "@ + n,
        ParseFault::TooManyArguments(t) => "unexpected extra argument "@ + t,
    }
}

/// The report of a rejected command line: the usage line, then the error.
pub open spec fn error_report(cmd: CommandSpec, prog: Seq<char>, f: ParseFault) -> Seq<char> {
    usage_text(cmd, prog) + "Error: "@ + fault_message(f) + seq!['\n']
}

impl ParseError {
    /// What is said of this error to the user.
    pub fn message(&self) -> (r: String)
        ensures
            r@ == fault_message(self@),
    {
        match self {
            ParseError::UnknownOption(t) => {
                let mut m = String::from_str("no such option: ");
                m.append(t.as_str());
                m
            },
            ParseError::MissingValue(n) => {
                let mut m = String::from_str("option --");
                m.append(n.as_str());
                m.append(" requires a value");
                m
            },
            ParseError::MissingRequiredOption(n) => {
                let mut m = String::from_str("missing option --");
                m.append(n.as_str());
                m
            },
            ParseError::MissingRequiredArgument(n) => {
                let mut m = String::from_str("missing argument ");
                m.append(n.as_str());
                m
            },
            ParseError::TooManyArguments(t) => {
                let mut m = String::from_str("unexpected extra argument ");
                m.append(t.as_str());
                m
            },
        }
    }
}

/// How an invocation ended.
#[derive(Debug)]
pub enum Invocation {
    /// The help option was given: the help page, for standard output.
    HelpShown(String),
    /// The command line was rejected: the report for standard error, and the error.
    UsageError(String, ParseError),
    /// The callback ran with the bound values.
    Completed,
}

impl Invocation {
    /// The exit status of the process: zero unless the command line was rejected.
    pub fn exit_status(&self) -> (r: i32)
        ensures
            r == (if self is UsageError {
                2i32
            } else {
                0i32
            }),
    {
        match self {
            Invocation::UsageError(_, _) => 2,
            _ => 0,
        }
    }
}

/// A command of a command line application: its options and arguments, its texts,
/// and the callback that receives the bound values.
pub struct Command<F: Fn(ParsedArguments)> {
    name: String,
    callback: F,
    options: Vec<Options>,
    arguments: Vec<Argument>,
    help: String,
    epilog: String,
    short_help: String,
    help_option: bool,
}

impl<F: Fn(ParsedArguments)> View for Command<F> {
    type V = CommandSpec;

    closed spec fn view(&self) -> CommandSpec {
        CommandSpec {
            name: self.name@,
            options: self.options@,
            arguments: self.arguments@,
            help: self.help@,
            epilog: self.epilog@,
            short_help: self.short_help@,
            help_option: self.help_option,
        }
    }
}

pub open spec fn help_row(r: Rule) -> (Seq<char>, Seq<char>) {
    (display_name(r.option), description(r.option))
}

pub open spec fn help_rows(rules: Seq<Rule>) -> Seq<(Seq<char>, Seq<char>)> {
    rules.map_values(|r: Rule| help_row(r))
}

/// The getopts groups that register the given rules, in order.
pub open spec fn parser_groups(rules: Seq<Rule>) -> Seq<
    (Seq<char>, Seq<char>, Seq<char>, Seq<char>, Seq<char>, Seq<char>),
> {
    rules.map_values(|r: Rule| getopts_group(r.option))
}

/// The state of a formatter with nothing written yet, laid out as help pages are.
pub open spec fn fresh_page() -> FormatterState {
    FormatterState {
        width: HELP_WIDTH as nat,
        indent_increment: HELP_INDENT as nat,
        current_indent: 0,
        fragments: Seq::empty(),
    }
}

/// A formatter between the sections of a help page.
pub open spec fn between_sections(f: FormatterState) -> bool {
    &&& f.width == HELP_WIDTH
    &&& f.indent_increment == HELP_INDENT
    &&& f.current_indent == 0
    &&& f.fragments.len() > 0
}

fn make_formatter() -> (r: HelpFormatter)
    ensures
        r@ == fresh_page(),
{
    HelpFormatter::new(HELP_WIDTH, HELP_INDENT)
}

fn is_valid_short(s: &str) -> (r: bool)
    ensures
        r == valid_short(s@),
{
    s.unicode_len() == 1 && (s.get_char(0) as u32) < 128 && s.get_char(0) != '-'
}

fn takes_help_name(o: &Options) -> (r: bool)
    ensures
        r == clashes_with_help(*o),
{
    same_text(o.short_name, "h") || same_text(o.long_name, "help")
}

/// Whether an option already attached shares a name with `o`.
fn has_clash(options: &Vec<Options>, o: &Options) -> (r: bool)
    ensures
        r == exists|i: int| 0 <= i < options@.len() && names_clash(#[trigger] options@[i], *o),
{
    let mut i: usize = 0;
    while i < options.len()
        invariant
            i <= options@.len(),
            forall|k: int| 0 <= k < i ==> !names_clash(#[trigger] options@[k], *o),
        decreases options.len() - i,
    {
        let other = &options[i];
        if same_text(other.short_name, o.short_name) || same_text(other.long_name, o.long_name) {
            assert(names_clash(options@[i as int], *o));
            return true;
        }
        i = i + 1;
    }
    false
}

/// Whether some argument already attached is optional.
fn has_optional(args: &Vec<Argument>) -> (r: bool)
    ensures
        r == exists|i: int| 0 <= i < args@.len() && !(#[trigger] args@[i]).required,
{
    let mut i: usize = 0;
    while i < args.len()
        invariant
            i <= args@.len(),
            forall|k: int| 0 <= k < i ==> (#[trigger] args@[k]).required,
        decreases args.len() - i,
    {
        if !args[i].required {
            return true;
        }
        i = i + 1;
    }
    false
}

/// The first option that takes a name of the help option.
fn help_clash(options: &Vec<Options>) -> (r: Option<usize>)
    ensures
        match r {
            Some(i) => help_clash_from(options@, 0) == Some(i as int) && i < options@.len(),
            None => help_clash_from(options@, 0) is None,
        },
{
    let mut i: usize = 0;
    while i < options.len()
        invariant
            i <= options@.len(),
            help_clash_from(options@, 0) == help_clash_from(options@, i as int),
        decreases options.len() - i,
    {
        if takes_help_name(&options[i]) {
            return Some(i);
        }
        i = i + 1;
    }
    None
}

/// Writes a paragraph of free text, indented one level, if there is any text.
fn format_text_section(f: &mut HelpFormatter, text: &String)
    requires
        between_sections(old(f)@),
    ensures
        between_sections(final(f)@),
        final(f)@.value() == old(f)@.value() + text_section(text@),
{
    if !text.as_str().is_empty() {
        let ghost v = old(f)@.value();
        f.write_paragraph();
        f.indent();
        f.write_text(text.clone());
        f.dedent();
        let ghost tb = text_block(text@, HELP_WIDTH as nat, HELP_INDENT as nat);
        assert(f@.value() == v + seq!['\n'] + tb);
        assert(v + seq!['\n'] + tb =~= v + text_section(text@));
    } else {
        assert(old(f)@.value() + text_section(text@) =~= old(f)@.value());
    }
}

impl<F: Fn(ParsedArguments)> Command<F> {
    /// The callback of this command.
    pub closed spec fn callback(&self) -> F {
        self.callback
    }

    /// A command named `name`, with no options or arguments yet, and the help option.
    pub fn new(name: &str, callback: F) -> (r: Self)
        ensures
            r@ == (CommandSpec {
                name: name@,
                options: Seq::empty(),
                arguments: Seq::empty(),
                help: Seq::empty(),
                epilog: Seq::empty(),
                short_help: Seq::empty(),
                help_option: true,
            }),
            r.callback() == callback,
            well_formed(r@),
    {
        Command {
            name: String::from_str(name),
            callback,
            options: Vec::new(),
            arguments: Vec::new(),
            help: String::new(),
            epilog: String::new(),
            short_help: String::new(),
            help_option: true,
        }
    }

    /// Attaches an option to the command, unless the command cannot take it.
    pub fn option(
        &mut self,
        short_name: &'static str,
        long_name: &'static str,
        help: &'static str,
        is_flag: bool,
        is_bool_flag: bool,
        multiple: bool,
        required: bool,
        default: Option<&'static str>,
    ) -> (r: Result<(), RegistrationError>)
        requires
            well_formed(old(self)@),
        ensures
            well_formed(final(self)@),
            final(self).callback() == old(self).callback(),
            ({
                let o = Options {
                    short_name,
                    long_name,
                    help,
                    is_flag,
                    is_bool_flag,
                    multiple,
                    required,
                    default,
                };
                match option_fault(old(self)@, o) {
                    Some(e) => r == Err::<(), RegistrationError>(e) && final(self)@ == old(self)@,
                    None => r is Ok && final(self)@ == (CommandSpec {
                        options: old(self)@.options.push(o),
                        ..old(self)@
                    }),
                }
            }),
    {
        let o = Options::new(
            short_name,
            long_name,
            help,
            is_flag,
            is_bool_flag,
            multiple,
            required,
            default,
        );
        if !is_valid_short(short_name) {
            return Err(RegistrationError::InvalidName(short_name));
        }
        if long_name.unicode_len() < 2 {
            return Err(RegistrationError::InvalidName(long_name));
        }
        if is_bool_flag && !is_flag {
            return Err(RegistrationError::InconsistentFlags(long_name));
        }
        if required && default.is_some() {
            return Err(RegistrationError::RequiredWithDefault(long_name));
        }
        if self.help_option && takes_help_name(&o) {
            return Err(RegistrationError::HelpNameCollision(long_name));
        }
        if has_clash(&self.options, &o) {
            return Err(RegistrationError::DuplicateName(long_name));
        }
        self.options.push(o);
        proof {
            let cmd = self@;
            assert forall|a: int, b: int| 0 <= a < b < cmd.options.len() implies !names_clash(
                #[trigger] cmd.options[a],
                #[trigger] cmd.options[b],
            ) by {
                if b == cmd.options.len() - 1 {
                    assert(!names_clash(old(self)@.options[a], o));
                } else {
                    assert(!names_clash(old(self)@.options[a], old(self)@.options[b]));
                }
            }
        }
        Ok(())
    }

    /// Attaches a positional argument to the command, unless a required argument would
    /// then follow an optional one.
    pub fn argument(&mut self, name: &'static str, required: bool, default: Option<&'static str>) -> (r:
        Result<(), RegistrationError>)
        requires
            well_formed(old(self)@),
        ensures
            well_formed(final(self)@),
            final(self).callback() == old(self).callback(),
            ({
                let a = Argument { name, required, default };
                match argument_fault(old(self)@, a) {
                    Some(e) => r == Err::<(), RegistrationError>(e) && final(self)@ == old(self)@,
                    None => r is Ok && final(self)@ == (CommandSpec {
                        arguments: old(self)@.arguments.push(a),
                        ..old(self)@
                    }),
                }
            }),
    {
        let a = Argument::new(name, required, default);
        if required && has_optional(&self.arguments) {
            return Err(RegistrationError::RequiredAfterOptional(name));
        }
        self.arguments.push(a);
        proof {
            let cmd = self@;
            assert forall|x: int, y: int|
                0 <= x < y < cmd.arguments.len() && (#[trigger] cmd.arguments[y]).required implies (
            #[trigger] cmd.arguments[x]).required by {
                if y < cmd.arguments.len() - 1 {
                    assert(old(self)@.arguments[y].required ==> old(self)@.arguments[x].required);
                }
            }
        }
        Ok(())
    }

    /// Sets the help text, shown after the usage line.
    pub fn set_help(&mut self, text: &str)
        requires
            well_formed(old(self)@),
        ensures
            well_formed(final(self)@),
            final(self).callback() == old(self).callback(),
            final(self)@ == (CommandSpec { help: text@, ..old(self)@ }),
    {
        self.help = String::from_str(text);
    }

    /// Sets the epilog, shown at the end of the help page.
    pub fn set_epilog(&mut self, text: &str)
        requires
            well_formed(old(self)@),
        ensures
            well_formed(final(self)@),
            final(self).callback() == old(self).callback(),
            final(self)@ == (CommandSpec { epilog: text@, ..old(self)@ }),
    {
        self.epilog = String::from_str(text);
    }

    /// Registers the help option, or removes it. It cannot be registered while an
    /// option takes one of its names; the error names the first such option.
    pub fn set_help_option(&mut self, enabled: bool) -> (r: Result<(), RegistrationError>)
        requires
            well_formed(old(self)@),
        ensures
            well_formed(final(self)@),
            final(self).callback() == old(self).callback(),
            match (enabled, help_clash_from(old(self)@.options, 0)) {
                (true, Some(i)) => r == Err::<(), RegistrationError>(
                    RegistrationError::HelpNameCollision(old(self)@.options[i].long_name),
                ) && final(self)@ == old(self)@,
                _ => r is Ok && final(self)@ == (CommandSpec { help_option: enabled, ..old(self)@ }),
            },
    {
        if enabled {
            match help_clash(&self.options) {
                Some(i) => {
                    return Err(RegistrationError::HelpNameCollision(self.options[i].long_name));
                },
                None => {},
            }
        }
        proof {
            if enabled {
                assert forall|i: int| 0 <= i < self@.options.len() implies !clashes_with_help(
                    #[trigger] self@.options[i],
                ) by {
                    lemma_no_help_clash(self@.options, 0, i);
                }
            }
        }
        self.help_option = enabled;
        Ok(())
    }

    fn format_usage(&self, f: &mut HelpFormatter, prog: &str)
        requires
            old(f)@.width == HELP_WIDTH,
        ensures
            final(f)@ == (FormatterState {
                fragments: old(f)@.fragments.push(usage_text(self@, prog@)),
                ..old(f)@
            }),
    {
        let mut pieces = String::from_str("[OPTIONS]");
        let mut i: usize = 0;
        assert(self.arguments@.take(0) =~= Seq::<Argument>::empty());
        while i < self.arguments.len()
            invariant
                i <= self.arguments@.len(),
                pieces@ == usage_args(self.arguments@.take(i as int)),
            decreases self.arguments.len() - i,
        {
            assert(self.arguments@.take(i + 1).drop_last() =~= self.arguments@.take(i as int));
            pieces.append(" ");
            let piece = self.arguments[i].get_usage_piece();
            pieces.append(piece.as_str());
            proof {
                reveal_strlit(" ");
            }
            assert(" "@ =~= seq![' ']);
            i = i + 1;
        }
        assert(self.arguments@.take(self.arguments@.len() as int) =~= self.arguments@);
        f.write_usage(prog, pieces, "Usage: ");
    }

    /// The usage line of this command.
    pub fn get_usage(&self) -> (r: String)
        ensures
            r@ == usage_text(self@, self@.name),
    {
        let mut f = make_formatter();
        self.format_usage(&mut f, self.name.as_str());
        assert(fresh_page().fragments.flatten() =~= Seq::<char>::empty());
        f.getvalue()
    }

    fn format_options(&self, f: &mut HelpFormatter)
        requires
            between_sections(old(f)@),
        ensures
            between_sections(final(f)@),
            final(f)@.value() == old(f)@.value() + options_section(self@),
    {
        let rules = build_rules(&self.options, self.help_option);
        if rules.len() > 0 {
            let mut rows: Vec<(String, String)> = Vec::new();
            let mut i: usize = 0;
            assert(row_views(rows@) =~= help_rows(rules@.take(0)));
            while i < rules.len()
                invariant
                    i <= rules@.len(),
                    row_views(rows@) == help_rows(rules@.take(i as int)),
                decreases rules.len() - i,
            {
                let record = rules[i].option.get_help_record();
                let ghost before = rows@;
                rows.push(record);
                assert(row_views(rows@) =~= row_views(before).push((record.0@, record.1@)));
                assert(help_rows(rules@.take(i + 1)) =~= help_rows(rules@.take(i as int)).push(
                    help_row(rules@[i as int]),
                ));
                i = i + 1;
            }
            assert(rules@.take(rules@.len() as int) =~= rules@);
            let ghost v = f@.value();
            let ghost dl = definition_list(row_views(rows@), HELP_INDENT as nat, HELP_WIDTH as nat);
            f.enter_section("Options:");
            f.write_dl(rows);
            f.exit_section();
            assert(f@.value() == v + seq!['\n'] + heading_line(0, "Options:"@) + dl);
            assert(v + seq!['\n'] + heading_line(0, "Options:"@) + dl =~= v + options_section(
                self@,
            ));
        } else {
            assert(old(f)@.value() + options_section(self@) =~= old(f)@.value());
        }
    }

    fn format_help(&self, f: &mut HelpFormatter, prog: &str)
        requires
            old(f)@ == fresh_page(),
        ensures
            final(f)@.value() == help_page(self@, prog@),
    {
        self.format_usage(f, prog);
        assert(fresh_page().fragments.flatten() =~= Seq::<char>::empty());
        let ghost u = usage_text(self@, prog@);
        assert(f@.value() =~= u);
        format_text_section(f, &self.help);
        self.format_options(f);
        format_text_section(f, &self.epilog);
    }

    /// The help page of this command.
    pub fn get_help(&self) -> (r: String)
        ensures
            r@ == help_page(self@, self@.name),
    {
        let mut f = make_formatter();
        self.format_help(&mut f, self.name.as_str());
        f.getvalue()
    }

    /// A getopts parser that holds this command's options, then the help option if the
    /// command has it.
    pub fn make_parser(&self) -> (r: OptionParser)
        requires
            well_formed(self@),
        ensures
            option_groups(r) == parser_groups(rules_for(self@.options, self@.help_option)),
    {
        let rules = build_rules(&self.options, self.help_option);
        let mut parser = new_parser();
        let mut i: usize = 0;
        assert(parser_groups(rules@.take(0)) =~= option_groups(parser));
        while i < rules.len()
            invariant
                i <= rules@.len(),
                well_formed(self@),
                rules@ == rules_for(self@.options, self@.help_option),
                option_groups(parser) == parser_groups(rules@.take(i as int)),
            decreases rules.len() - i,
        {
            let ghost o = rules@[i as int].option;
            if i < self.options.len() {
                assert(o == self@.options[i as int]);
                assert(valid_option(self@.options[i as int]));
            } else {
                assert(o == crate::parser::help_option());
                proof {
                    reveal_strlit("h");
                    reveal_strlit("help");
                }
                assert("h"@.len() == 1 && ("h"@[0] as int) < 128 && "help"@.len() == 4);
            }
            assert(getopts_names(o.short_name@, o.long_name@));
            rules[i].option.add_to_parser(&mut parser);
            assert(parser_groups(rules@.take(i + 1)) =~= parser_groups(rules@.take(i as int)).push(
                getopts_group(o),
            ));
            i = i + 1;
        }
        assert(rules@.take(rules@.len() as int) =~= rules@);
        parser
    }

    /// Parses `args` against this command. The help option yields the help page; a
    /// rejected command line yields the usage line and the error; otherwise the
    /// callback runs with the bound values. `program_name` stands in the usage line.
    pub fn invoke(&self, program_name: String, args: Vec<String>) -> (r: Invocation)
        requires
            forall|p: ParsedArguments| call_requires(self.callback(), (p,)),
        ensures
            match parse_result(rules_for(self@.options, self@.help_option), self@.arguments, views(args@)) {
                ParseModel::Help => r matches Invocation::HelpShown(page) && page@ == help_page(
                    self@,
                    program_name@,
                ),
                ParseModel::Failed(f) => r matches Invocation::UsageError(report, e) && e@ == f
                    && report@ == error_report(self@, program_name@, f),
                ParseModel::Bound(b) => r is Completed && exists|p: ParsedArguments|
                    p@ == b && call_ensures(self.callback(), (p,), ()),
            },
    {
        let rules = build_rules(&self.options, self.help_option);
        match parse(&rules, &self.arguments, &args) {
            Ok(Parsed::Help) => {
                let mut f = make_formatter();
                self.format_help(&mut f, program_name.as_str());
                Invocation::HelpShown(f.getvalue())
            },
            Ok(Parsed::Bound(p)) => {
                let ghost bound = p;
                assert(call_requires(self.callback(), (p,)));
                (self.callback)(p);
                assert(call_ensures(self.callback(), (bound,), ()));
                Invocation::Completed
            },
            Err(e) => {
                let mut f = make_formatter();
                self.format_usage(&mut f, program_name.as_str());
                assert(fresh_page().fragments.flatten() =~= Seq::<char>::empty());
                let mut report = f.getvalue();
                assert(report@ =~= usage_text(self@, program_name@));
                report.append("Error: ");
                let m = e.message();
                report.append(m.as_str());
                report.append("\n");
                proof {
                    reveal_strlit("\n");
                }
                assert("\n"@ =~= seq!['\n']);
                Invocation::UsageError(report, e)
            },
        }
    }
}

} // verus!
