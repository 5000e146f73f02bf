//! The option groups of a getopts parser, as the library registers them.
use vstd::prelude::*;
use getopts::Options as OptionParser;

verus! {

#[verifier::external_type_specification]
#[verifier::external_body]
pub struct ExGetoptsOptions(OptionParser);

/// The option groups that a getopts parser holds, in the order they were added: short
/// name, long name, description, hint, whether an argument is taken (`Yes`, `No` or
/// `Maybe`) and how often the option may occur (`Req`, `Optional` or `Multi`).
pub uninterp spec fn option_groups(p: OptionParser) -> Seq<
    (Seq<char>, Seq<char>, Seq<char>, Seq<char>, Seq<char>, Seq<char>),
>;

/// Names that getopts accepts: a short name of at most one byte, and a long name that is
/// empty or longer than one character.
pub open spec fn getopts_names(short_name: Seq<char>, long_name: Seq<char>) -> bool {
    &&& short_name.len() == 0 || (short_name.len() == 1 && (short_name[0] as int) < 128)
    &&& long_name.len() == 0 || long_name.len() >= 2
}

/// Relies on OptionParser::new: a parser with no option group.
#[verifier::external_body]
pub(crate) fn new_parser() -> (r: OptionParser)
    ensures
        option_groups(r) == Seq::<(Seq<char>, Seq<char>, Seq<char>, Seq<char>, Seq<char>, Seq<char>)>::empty(),
{
    OptionParser::new()
}

/// Relies on OptionParser::optflag: it appends a group with an empty hint, `No`
/// argument and `Optional` occurrence; it panics unless the names are valid.
#[verifier::external_body]
pub(crate) fn add_optflag(p: &mut OptionParser, short_name: &str, long_name: &str, desc: &str)
    requires
        getopts_names(short_name@, long_name@),
    ensures
        option_groups(*final(p)) == option_groups(*old(p)).push(
            (short_name@, long_name@, desc@, Seq::empty(), "No"@, "Optional"@),
        ),
{
    p.optflag(short_name, long_name, desc);
}

/// Relies on OptionParser::optflagmulti: it appends a group with an empty hint, `No`
/// argument and `Multi` occurrence; it panics unless the names are valid.
#[verifier::external_body]
pub(crate) fn add_optflagmulti(p: &mut OptionParser, short_name: &str, long_name: &str, desc: &str)
    requires
        getopts_names(short_name@, long_name@),
    ensures
        option_groups(*final(p)) == option_groups(*old(p)).push(
            (short_name@, long_name@, desc@, Seq::empty(), "No"@, "Multi"@),
        ),
{
    p.optflagmulti(short_name, long_name, desc);
}

/// Relies on OptionParser::optflagopt: it appends a group with `Maybe` argument and
/// `Optional` occurrence; it panics unless the names are valid.
#[verifier::external_body]
pub(crate) fn add_optflagopt(
    p: &mut OptionParser,
    short_name: &str,
    long_name: &str,
    desc: &str,
    hint: &str,
)
    requires
        getopts_names(short_name@, long_name@),
    ensures
        option_groups(*final(p)) == option_groups(*old(p)).push(
            (short_name@, long_name@, desc@, hint@, "Maybe"@, "Optional"@),
        ),
{
    p.optflagopt(short_name, long_name, desc, hint);
}

/// Relies on OptionParser::optmulti: it appends a group with `Yes` argument and
/// `Multi` occurrence; it panics unless the names are valid.
#[verifier::external_body]
pub(crate) fn add_optmulti(
    p: &mut OptionParser,
    short_name: &str,
    long_name: &str,
    desc: &str,
    hint: &str,
)
    requires
        getopts_names(short_name@, long_name@),
    ensures
        option_groups(*final(p)) == option_groups(*old(p)).push(
            (short_name@, long_name@, desc@, hint@, "Yes"@, "Multi"@),
        ),
{
    p.optmulti(short_name, long_name, desc, hint);
}

/// Relies on OptionParser::optopt: it appends a group with `Yes` argument and
/// `Optional` occurrence; it panics unless the names are valid.
#[verifier::external_body]
pub(crate) fn add_optopt(
    p: &mut OptionParser,
    short_name: &str,
    long_name: &str,
    desc: &str,
    hint: &str,
)
    requires
        getopts_names(short_name@, long_name@),
    ensures
        option_groups(*final(p)) == option_groups(*old(p)).push(
            (short_name@, long_name@, desc@, hint@, "Yes"@, "Optional"@),
        ),
{
    p.optopt(short_name, long_name, desc, hint);
}

/// Relies on OptionParser::reqopt: it appends a group with `Yes` argument and `Req`
/// occurrence; it panics unless the names are valid.
#[verifier::external_body]
pub(crate) fn add_reqopt(
    p: &mut OptionParser,
    short_name: &str,
    long_name: &str,
    desc: &str,
    hint: &str,
)
    requires
        getopts_names(short_name@, long_name@),
    ensures
        option_groups(*final(p)) == option_groups(*old(p)).push(
            (short_name@, long_name@, desc@, hint@, "Yes"@, "Req"@),
        ),
{
    p.reqopt(short_name, long_name, desc, hint);
}

} // verus!
