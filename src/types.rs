//! The schema of a command: its options and its positional arguments.
use vstd::prelude::*;
use getopts::Options as OptionParser;
use crate::optgroups::{
    add_optflag, add_optflagmulti, add_optflagopt, add_optmulti, add_optopt, add_reqopt,
    getopts_names, option_groups,
};

verus! {

/// How an option binds tokens of the command line, decided by its flags.
#[derive(Clone, Copy, PartialEq, Eq, Structural, Debug)]
pub enum BindingKind {
    /// A flag that may carry a value: it takes the next token unless that token is an option.
    FlagWithOptionalValue,
    /// A boolean flag that may be repeated; its occurrences are counted.
    RepeatableFlag,
    /// A boolean flag: present or absent.
    Flag,
    /// An option whose value must be given.
    RequiredValue,
    /// An option whose values accumulate over its occurrences.
    MultiValue,
    /// An option that takes a value and falls back to its default.
    OptionalValue,
}

/// A named input of a command, written `-s` or `--long` on the command line.
#[derive(Clone, Copy, Debug)]
pub struct Options {
    pub short_name: &'static str,
    pub long_name: &'static str,
    pub help: &'static str,
    /// Takes no value, or only an optional one.
    pub is_flag: bool,
    /// A flag whose presence alone sets a boolean.
    pub is_bool_flag: bool,
    /// May be repeated.
    pub multiple: bool,
    pub required: bool,
    pub default: Option<&'static str>,
}

/// The binding kind of an option, as its four switches select it.
pub open spec fn kind_of(o: Options) -> BindingKind {
    if o.is_flag {
        if !o.is_bool_flag {
            BindingKind::FlagWithOptionalValue
        } else if o.multiple {
            BindingKind::RepeatableFlag
        } else {
            BindingKind::Flag
        }
    } else if o.required {
        BindingKind::RequiredValue
    } else if o.multiple {
        BindingKind::MultiValue
    } else {
        BindingKind::OptionalValue
    }
}

/// The first column of an option's help row: `-s, --long`.
pub open spec fn display_name(o: Options) -> Seq<char> {
    "-"@ + o.short_name@ + ", --"@ + o.long_name@
}

/// The second column of an option's help row: its help text, then two spaces if that
/// text is not empty, then what is known of its default and whether it is required.
pub open spec fn description(o: Options) -> Seq<char> {
    let lead = if o.help@.len() > 0 {
        o.help@ + "  "@
    } else {
        o.help@
    };
    match o.default {
        Some(v) => if o.required {
            lead + "[default: "@ + v@ + "; required]"@
        } else {
            lead + "[default: "@ + v@ + "]"@
        },
        None => if o.required {
            lead + "[required]"@
        } else {
            lead
        },
    }
}

/// The getopts group that registers an option: its names and help, its long name as
/// hint when it takes a value, and the argument and occurrence that its kind selects.
pub open spec fn getopts_group(o: Options) -> (
    Seq<char>,
    Seq<char>,
    Seq<char>,
    Seq<char>,
    Seq<char>,
    Seq<char>,
) {
    let (s, l, d, h) = (o.short_name@, o.long_name@, o.help@, o.long_name@);
    match kind_of(o) {
        BindingKind::FlagWithOptionalValue => (s, l, d, h, "Maybe"@, "Optional"@),
        BindingKind::RepeatableFlag => (s, l, d, Seq::empty(), "No"@, "Multi"@),
        BindingKind::Flag => (s, l, d, Seq::empty(), "No"@, "Optional"@),
        BindingKind::RequiredValue => (s, l, d, h, "Yes"@, "Req"@),
        BindingKind::MultiValue => (s, l, d, h, "Yes"@, "Multi"@),
        BindingKind::OptionalValue => (s, l, d, h, "Yes"@, "Optional"@),
    }
}

impl Options {
    pub fn new(
        s_name: &'static str,
        l_name: &'static str,
        help: &'static str,
        is_flag: bool,
        is_bool_flag: bool,
        multiple: bool,
        required: bool,
        default: Option<&'static str>,
    ) -> (r: Options)
        ensures
            r == (Options {
                short_name: s_name,
                long_name: l_name,
                help,
                is_flag,
                is_bool_flag,
                multiple,
                required,
                default,
            }),
    {
        Options {
            short_name: s_name,
            long_name: l_name,
            help,
            is_flag,
            is_bool_flag,
            multiple,
            required,
            default,
        }
    }

    /// Classifies this option into the binding kind the parser applies to it.
    pub fn binding_kind(&self) -> (k: BindingKind)
        ensures
            k == kind_of(*self),
    {
        if self.is_flag {
            if !self.is_bool_flag {
                BindingKind::FlagWithOptionalValue
            } else if self.multiple {
                BindingKind::RepeatableFlag
            } else {
                BindingKind::Flag
            }
        } else if self.required {
            BindingKind::RequiredValue
        } else if self.multiple {
            BindingKind::MultiValue
        } else {
            BindingKind::OptionalValue
        }
    }

    /// Registers this option with a getopts parser, by the method that its binding kind
    /// selects.
    pub fn add_to_parser(&self, parser: &mut OptionParser)
        requires
            getopts_names(self.short_name@, self.long_name@),
        ensures
            option_groups(*final(parser)) == option_groups(*old(parser)).push(getopts_group(*self)),
    {
        match self.binding_kind() {
            BindingKind::FlagWithOptionalValue => add_optflagopt(
                parser,
                self.short_name,
                self.long_name,
                self.help,
                self.long_name,
            ),
            BindingKind::RepeatableFlag => add_optflagmulti(
                parser,
                self.short_name,
                self.long_name,
                self.help,
            ),
            BindingKind::Flag => add_optflag(parser, self.short_name, self.long_name, self.help),
            BindingKind::RequiredValue => add_reqopt(
                parser,
                self.short_name,
                self.long_name,
                self.help,
                self.long_name,
            ),
            BindingKind::MultiValue => add_optmulti(
                parser,
                self.short_name,
                self.long_name,
                self.help,
                self.long_name,
            ),
            BindingKind::OptionalValue => add_optopt(
                parser,
                self.short_name,
                self.long_name,
                self.help,
                self.long_name,
            ),
        }
    }

    /// The two columns that the help page shows for this option.
    pub fn get_help_record(&self) -> (r: (String, String))
        ensures
            r.0@ == display_name(*self),
            r.1@ == description(*self),
    {
        let mut options = String::from_str("-");
        options.append(self.short_name);
        options.append(", --");
        options.append(self.long_name);

        let mut help = String::from_str(self.help);
        if !self.help.is_empty() {
            help.append("  ");
        }
        match self.default {
            Some(v) => {
                help.append("[default: ");
                help.append(v);
                if self.required {
                    help.append("; required]");
                } else {
                    help.append("]");
                }
            },
            None => {
                if self.required {
                    help.append("[required]");
                }
            },
        }
        (options, help)
    }
}

/// A positional input of a command.
#[derive(Clone, Copy, Debug)]
pub struct Argument {
    pub name: &'static str,
    pub required: bool,
    pub default: Option<&'static str>,
}

/// How an argument shows in the usage line: its name, bracketed when it is optional.
pub open spec fn usage_piece(a: Argument) -> Seq<char> {
    if a.required {
        a.name@
    } else {
        "["@ + a.name@ + "]"@
    }
}

impl Argument {
    pub fn new(name: &'static str, required: bool, default: Option<&'static str>) -> (r: Argument)
        ensures
            r == (Argument { name, required, default }),
    {
        Argument { name, required, default }
    }

    /// Arguments are positional: a getopts parser holds no group for them, so this
    /// leaves the parser as it is.
    pub fn add_to_parser(&self, parser: &mut OptionParser)
        ensures
            *final(parser) == *old(parser),
    {
    }

    pub fn get_usage_piece(&self) -> (r: String)
        ensures
            r@ == usage_piece(*self),
    {
        if self.required {
            String::from_str(self.name)
        } else {
            let mut piece = String::from_str("[");
            piece.append(self.name);
            piece.append("]");
            piece
        }
    }
}

/// The help row of an option that has a default and is not required ends in
/// `[default: <value>]`, after its help text and two spaces; that of a required option
/// without default ends in `[required]`.
pub proof fn lemma_help_record_metadata(o: Options)
    requires
        o.help@.len() > 0,
    ensures
        forall|v: &'static str|
            o.default == Some(v) && !o.required ==> description(o) == o.help@ + "  [default: "@
                + v@ + "]"@,
        o.required && o.default is None ==> description(o) == o.help@ + "  [required]"@,
{
    reveal_strlit("  ");
    reveal_strlit("[default: ");
    reveal_strlit("  [default: ");
    reveal_strlit("[required]");
    reveal_strlit("  [required]");
    match o.default {
        Some(v) => {
            assert(o.help@ + "  "@ + "[default: "@ + v@ + "]"@ =~= o.help@ + "  [default: "@ + v@
                + "]"@);
        },
        None => {
            assert(o.help@ + "  "@ + "[required]"@ =~= o.help@ + "  [required]"@);
        },
    }
}

} // verus!
