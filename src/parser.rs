//! The parser: rules built from a command's options, and one left-to-right scan of the
//! argument vector that binds tokens to options and positional arguments.
use vstd::prelude::*;
use crate::formatting::views;
use crate::types::{kind_of, Argument, BindingKind, Options};

verus! {

/// One rule of the parser: an option, the kind by which it binds tokens, and whether it
/// is the built-in help option.
#[derive(Clone, Copy, Debug)]
pub struct Rule {
    pub option: Options,
    pub kind: BindingKind,
    pub is_help: bool,
}

/// The built-in help option, `-h, --help`.
pub open spec fn help_option() -> Options {
    Options {
        short_name: "h",
        long_name: "help",
        help: "Show this message and exit.",
        is_flag: true,
        is_bool_flag: true,
        multiple: false,
        required: false,
        default: None,
    }
}

pub open spec fn rule_for(o: Options) -> Rule {
    Rule { option: o, kind: kind_of(o), is_help: false }
}

/// The rules for a command's options, in their order, then the help option if the
/// command has one.
pub open spec fn rules_for(options: Seq<Options>, help: bool) -> Seq<Rule> {
    let user = options.map_values(|o: Options| rule_for(o));
    if help {
        user.push(Rule { option: help_option(), kind: BindingKind::Flag, is_help: true })
    } else {
        user
    }
}

/// A token that starts with two dashes names an option by its long name.
pub open spec fn is_long_token(t: Seq<char>) -> bool {
    t.len() >= 2 && t[0] == '-' && t[1] == '-'
}

/// A dash followed by exactly one other character names an option by its short name.
pub open spec fn is_short_token(t: Seq<char>) -> bool {
    t.len() == 2 && t[0] == '-' && t[1] != '-'
}

pub open spec fn is_option_token(t: Seq<char>) -> bool {
    is_long_token(t) || is_short_token(t)
}

pub open spec fn names_option(t: Seq<char>, o: Options) -> bool {
    (is_long_token(t) && t.subrange(2, t.len() as int) == o.long_name@) || (is_short_token(t)
        && t.subrange(1, 2) == o.short_name@)
}

/// The first rule, from index `start` on, that a token names.
pub open spec fn find_rule_from(rules: Seq<Rule>, t: Seq<char>, start: int) -> Option<int>
    decreases rules.len() - start,
{
    if start < 0 || start >= rules.len() {
        None
    } else if names_option(t, rules[start].option) {
        Some(start)
    } else {
        find_rule_from(rules, t, start + 1)
    }
}

pub open spec fn find_rule(rules: Seq<Rule>, t: Seq<char>) -> Option<int> {
    find_rule_from(rules, t, 0)
}

/// Whether a binding kind consumes no token after the option.
pub open spec fn takes_no_value(k: BindingKind) -> bool {
    k == BindingKind::Flag || k == BindingKind::RepeatableFlag
}

/// Whether a binding kind fails when no value follows the option.
pub open spec fn needs_value(k: BindingKind) -> bool {
    k == BindingKind::RequiredValue || k == BindingKind::MultiValue
}

/// Builds the parser's rules from a command's options, adding the help option last
/// when `help` is set.
pub fn build_rules(options: &Vec<Options>, help: bool) -> (r: Vec<Rule>)
    ensures
        r@ == rules_for(options@, help),
{
    let mut rules: Vec<Rule> = Vec::new();
    let mut i: usize = 0;
    while i < options.len()
        invariant
            i <= options.len(),
            rules@ == options@.take(i as int).map_values(|o: Options| rule_for(o)),
        decreases options.len() - i,
    {
        let o = options[i];
        let kind = o.binding_kind();
        rules.push(Rule { option: o, kind, is_help: false });
        assert(options@.take(i + 1).map_values(|o: Options| rule_for(o)) =~= options@.take(
            i as int,
        ).map_values(|o: Options| rule_for(o)).push(rule_for(o)));
        i = i + 1;
    }
    assert(options@.take(options.len() as int) =~= options@);
    if help {
        let option = Options::new(
            "h",
            "help",
            "Show this message and exit.",
            true,
            true,
            false,
            false,
            None,
        );
        rules.push(Rule { option, kind: BindingKind::Flag, is_help: true });
    }
    rules
}

/// Whether two texts are equal.
pub fn same_text(a: &str, b: &str) -> (r: bool)
    ensures
        r == (a@ == b@),
{
    String::from_str(a) == String::from_str(b)
}

pub fn is_option_token_str(t: &str) -> (r: bool)
    ensures
        r == is_option_token(t@),
{
    let n = t.unicode_len();
    n >= 2 && t.get_char(0) == '-' && (t.get_char(1) == '-' || n == 2)
}

fn names_option_str(t: &str, o: &Options) -> (r: bool)
    ensures
        r == names_option(t@, *o),
{
    let n = t.unicode_len();
    if n < 2 || t.get_char(0) != '-' {
        return false;
    }
    if t.get_char(1) == '-' {
        same_text(t.substring_char(2, n), o.long_name)
    } else {
        n == 2 && same_text(t.substring_char(1, 2), o.short_name)
    }
}

/// The index of the first rule that a token names, if any.
pub fn find_rule_index(rules: &Vec<Rule>, t: &str) -> (r: Option<usize>)
    ensures
        match r {
            Some(j) => find_rule(rules@, t@) == Some(j as int),
            None => find_rule(rules@, t@) is None,
        },
        r matches Some(j) ==> j < rules@.len(),
{
    let mut i: usize = 0;
    while i < rules.len()
        invariant
            i <= rules.len(),
            find_rule(rules@, t@) == find_rule_from(rules@, t@, i as int),
        decreases rules.len() - i,
    {
        if names_option_str(t, &rules[i].option) {
            return Some(i);
        }
        i = i + 1;
    }
    None
}

/// What a scan has seen of one option: how often it came, the value that its last
/// occurrence carried, and the values of all its occurrences in order.
pub struct Seen {
    pub count: nat,
    pub last: Option<Seq<char>>,
    pub values: Seq<Seq<char>>,
}

pub open spec fn unseen() -> Seen {
    Seen { count: 0, last: None, values: Seq::empty() }
}

/// One more occurrence, carrying the value `v` or none.
pub open spec fn record(s: Seen, v: Option<Seq<char>>) -> Seen {
    Seen {
        count: s.count + 1,
        last: v,
        values: match v {
            Some(x) => s.values.push(x),
            None => s.values,
        },
    }
}

/// Where a scan stands: what it has seen of each rule, and the positional tokens so far.
pub struct ScanState {
    pub seen: Seq<Seen>,
    pub positional: Seq<Seq<char>>,
}

pub open spec fn initial_state(n: nat) -> ScanState {
    ScanState { seen: Seq::new(n, |_j: int| unseen()), positional: Seq::empty() }
}

pub open spec fn record_at(st: ScanState, j: int, v: Option<Seq<char>>) -> ScanState {
    ScanState { seen: st.seen.update(j, record(st.seen[j], v)), ..st }
}

/// Why the command line was rejected.
pub enum ParseFault {
    UnknownOption(Seq<char>),
    MissingValue(Seq<char>),
    MissingRequiredOption(Seq<char>),
    MissingRequiredArgument(Seq<char>),
    TooManyArguments(Seq<char>),
}

pub enum ScanOutcome {
    Help,
    Fault(ParseFault),
    Finished(ScanState),
}

/// The scan from token `i` on. An option token either names a rule or is unknown; the
/// help option ends the scan at once; a flag takes no token; the other kinds take the
/// next token as value unless it is an option token, and then either fail or go
/// without. Any other token is the next positional one, unless all arguments are bound.
pub open spec fn scan(
    rules: Seq<Rule>,
    nargs: nat,
    toks: Seq<Seq<char>>,
    i: nat,
    st: ScanState,
) -> ScanOutcome
    decreases toks.len() - i,
{
    if i >= toks.len() {
        ScanOutcome::Finished(st)
    } else {
        let t = toks[i as int];
        if is_option_token(t) {
            match find_rule(rules, t) {
                None => ScanOutcome::Fault(ParseFault::UnknownOption(t)),
                Some(j) => {
                    let r = rules[j];
                    if r.is_help {
                        ScanOutcome::Help
                    } else if takes_no_value(r.kind) {
                        scan(rules, nargs, toks, i + 1, record_at(st, j, None))
                    } else if i + 1 < toks.len() && !is_option_token(toks[i + 1int]) {
                        scan(rules, nargs, toks, i + 2, record_at(st, j, Some(toks[i + 1int])))
                    } else if needs_value(r.kind) {
                        ScanOutcome::Fault(ParseFault::MissingValue(r.option.long_name@))
                    } else {
                        scan(rules, nargs, toks, i + 1, record_at(st, j, None))
                    }
                },
            }
        } else if st.positional.len() < nargs {
            scan(
                rules,
                nargs,
                toks,
                i + 1,
                ScanState { positional: st.positional.push(t), ..st },
            )
        } else {
            ScanOutcome::Fault(ParseFault::TooManyArguments(t))
        }
    }
}

/// A command line rejected by the parser.
#[derive(Debug)]
pub enum ParseError {
    /// An option token that names no option.
    UnknownOption(String),
    /// An option, by long name, that needs a value and was given none.
    MissingValue(String),
    /// A required option, by long name, that was not given.
    MissingRequiredOption(String),
    /// A required argument, by name, that was not given.
    MissingRequiredArgument(String),
    /// A positional token beyond the declared arguments.
    TooManyArguments(String),
}

impl View for ParseError {
    type V = ParseFault;

    open spec fn view(&self) -> ParseFault {
        match self {
            ParseError::UnknownOption(s) => ParseFault::UnknownOption(s@),
            ParseError::MissingValue(s) => ParseFault::MissingValue(s@),
            ParseError::MissingRequiredOption(s) => ParseFault::MissingRequiredOption(s@),
            ParseError::MissingRequiredArgument(s) => ParseFault::MissingRequiredArgument(s@),
            ParseError::TooManyArguments(s) => ParseFault::TooManyArguments(s@),
        }
    }
}

pub open spec fn text_of(o: Option<String>) -> Option<Seq<char>> {
    match o {
        Some(s) => Some(s@),
        None => None,
    }
}

struct Tally {
    count: usize,
    last: Option<String>,
    values: Vec<String>,
}

spec fn tally_view(t: Tally) -> Seen {
    Seen { count: t.count as nat, last: text_of(t.last), values: views(t.values@) }
}

spec fn tallies_view(ts: Seq<Tally>) -> Seq<Seen> {
    ts.map_values(|t: Tally| tally_view(t))
}

spec fn state_of(ts: Seq<Tally>, positional: Seq<String>) -> ScanState {
    ScanState { seen: tallies_view(ts), positional: views(positional) }
}

fn fresh_tallies(n: usize) -> (r: Vec<Tally>)
    ensures
        r@.len() == n,
        tallies_view(r@) == initial_state(n as nat).seen,
        forall|j: int| 0 <= j < r@.len() ==> #[trigger] r@[j].count == 0,
{
    let mut r: Vec<Tally> = Vec::new();
    let mut i: usize = 0;
    while i < n
        invariant
            i <= n,
            r@.len() == i,
            forall|j: int| 0 <= j < i ==> #[trigger] tally_view(r@[j]) == unseen(),
            forall|j: int| 0 <= j < r@.len() ==> #[trigger] r@[j].count == 0,
        decreases n - i,
    {
        let t = Tally { count: 0, last: None, values: Vec::new() };
        assert(views(t.values@) =~= Seq::<Seq<char>>::empty());
        r.push(t);
        i = i + 1;
    }
    assert(tallies_view(r@) =~= initial_state(n as nat).seen);
    r
}

fn record_tally(ts: &mut Vec<Tally>, j: usize, v: Option<String>)
    requires
        j < old(ts)@.len(),
        old(ts)@[j as int].count < usize::MAX,
    ensures
        final(ts)@.len() == old(ts)@.len(),
        tallies_view(final(ts)@) == tallies_view(old(ts)@).update(
            j as int,
            record(tally_view(old(ts)@[j as int]), text_of(v)),
        ),
        final(ts)@[j as int].count == old(ts)@[j as int].count + 1,
        forall|k: int| 0 <= k < final(ts)@.len() && k != j ==> #[trigger] final(ts)@[k] == old(ts)@[k],
{
    let mut t = Tally { count: 0, last: None, values: Vec::new() };
    ts.set_and_swap(j, &mut t);
    let ghost before = t;
    t.count = t.count + 1;
    match v {
        Some(x) => {
            t.values.push(x.clone());
            t.last = Some(x);
        },
        None => {
            t.last = None;
        },
    }
    assert(views(t.values@) =~= record(tally_view(before), text_of(v)).values);
    ts.set_and_swap(j, &mut t);
    assert(tallies_view(ts@) =~= tallies_view(old(ts)@).update(
        j as int,
        record(tally_view(old(ts)@[j as int]), text_of(v)),
    ));
}

enum ScanEnd {
    Help,
    Failed(ParseError),
    Finished(Vec<Tally>, Vec<String>),
}

spec fn scan_end_view(e: ScanEnd) -> ScanOutcome {
    match e {
        ScanEnd::Help => ScanOutcome::Help,
        ScanEnd::Failed(f) => ScanOutcome::Fault(f@),
        ScanEnd::Finished(ts, pos) => ScanOutcome::Finished(state_of(ts@, pos@)),
    }
}

fn scan_tokens(rules: &Vec<Rule>, nargs: usize, tokens: &Vec<String>) -> (r: ScanEnd)
    ensures
        scan_end_view(r) == scan(
            rules@,
            nargs as nat,
            views(tokens@),
            0,
            initial_state(rules@.len()),
        ),
        r matches ScanEnd::Finished(ts, _) ==> ts@.len() == rules@.len(),
{
    let ghost toks = views(tokens@);
    let mut ts = fresh_tallies(rules.len());
    let mut positional: Vec<String> = Vec::new();
    let mut i: usize = 0;
    assert(views(positional@) =~= Seq::<Seq<char>>::empty());
    while i < tokens.len()
        invariant
            i <= tokens.len(),
            toks == views(tokens@),
            ts@.len() == rules@.len(),
            forall|j: int| 0 <= j < ts@.len() ==> #[trigger] ts@[j].count <= i,
            scan(rules@, nargs as nat, toks, 0, initial_state(rules@.len())) == scan(
                rules@,
                nargs as nat,
                toks,
                i as nat,
                state_of(ts@, positional@),
            ),
        decreases tokens.len() - i,
    {
        let t = tokens[i].as_str();
        if is_option_token_str(t) {
            match find_rule_index(rules, t) {
                None => {
                    return ScanEnd::Failed(ParseError::UnknownOption(String::from_str(t)));
                },
                Some(j) => {
                    let rule = rules[j];
                    if rule.is_help {
                        return ScanEnd::Help;
                    }
                    if rule.kind == BindingKind::Flag || rule.kind == BindingKind::RepeatableFlag {
                        record_tally(&mut ts, j, None);
                        i = i + 1;
                    } else if i + 1 < tokens.len() && !is_option_token_str(
                        tokens[i + 1].as_str(),
                    ) {
                        let value = tokens[i + 1].clone();
                        record_tally(&mut ts, j, Some(value));
                        i = i + 2;
                    } else if rule.kind == BindingKind::RequiredValue || rule.kind
                        == BindingKind::MultiValue {
                        return ScanEnd::Failed(
                            ParseError::MissingValue(String::from_str(rule.option.long_name)),
                        );
                    } else {
                        record_tally(&mut ts, j, None);
                        i = i + 1;
                    }
                },
            }
        } else if positional.len() < nargs {
            let ghost before = positional@;
            positional.push(tokens[i].clone());
            assert(views(positional@) =~= views(before).push(toks[i as int]));
            i = i + 1;
        } else {
            return ScanEnd::Failed(ParseError::TooManyArguments(tokens[i].clone()));
        }
    }
    ScanEnd::Finished(ts, positional)
}

/// A value bound to an option or an argument.
pub enum BoundValue {
    Flag(bool),
    Count(nat),
    Text(Option<Seq<char>>),
    List(Seq<Seq<char>>),
}

/// A value bound to an option or an argument: a boolean for a flag, a count for a
/// repeatable flag, a list for an option with several values, text otherwise.
#[derive(Debug)]
pub enum Value {
    Flag(bool),
    Count(usize),
    Text(Option<String>),
    List(Vec<String>),
}

impl View for Value {
    type V = BoundValue;

    open spec fn view(&self) -> BoundValue {
        match self {
            Value::Flag(b) => BoundValue::Flag(*b),
            Value::Count(n) => BoundValue::Count(*n as nat),
            Value::Text(t) => BoundValue::Text(text_of(*t)),
            Value::List(v) => BoundValue::List(views(v@)),
        }
    }
}

pub open spec fn default_text(d: Option<&'static str>) -> Option<Seq<char>> {
    match d {
        Some(s) => Some(s@),
        None => None,
    }
}

/// A boolean flag is on when absent only if its default is `true`.
pub open spec fn default_on(o: Options) -> bool {
    match o.default {
        Some(d) => d@ == "true"@,
        None => false,
    }
}

/// The value bound to a rule's option once the scan is over.
pub open spec fn bind_option(r: Rule, s: Seen) -> BoundValue {
    match r.kind {
        BindingKind::Flag => BoundValue::Flag(s.count > 0 || default_on(r.option)),
        BindingKind::RepeatableFlag => BoundValue::Count(s.count),
        BindingKind::MultiValue => BoundValue::List(
            if s.values.len() > 0 {
                s.values
            } else {
                match r.option.default {
                    Some(d) => seq![d@],
                    None => Seq::empty(),
                }
            },
        ),
        _ => BoundValue::Text(
            if s.last is Some {
                s.last
            } else {
                default_text(r.option.default)
            },
        ),
    }
}

/// Each option but the help option, by long name, with its value, in rule order.
pub open spec fn option_bindings(rules: Seq<Rule>, seen: Seq<Seen>) -> Seq<(Seq<char>, BoundValue)>
    decreases rules.len(),
{
    if rules.len() == 0 {
        Seq::empty()
    } else {
        let before = option_bindings(rules.drop_last(), seen);
        let r = rules.last();
        if r.is_help {
            before
        } else {
            before.push((r.option.long_name@, bind_option(r, seen[rules.len() - 1])))
        }
    }
}

/// The `k`-th argument takes the `k`-th positional token, or else its default.
pub open spec fn argument_value(a: Argument, k: int, positional: Seq<Seq<char>>) -> BoundValue {
    BoundValue::Text(
        if k < positional.len() {
            Some(positional[k])
        } else {
            default_text(a.default)
        },
    )
}

pub open spec fn argument_bindings(args: Seq<Argument>, positional: Seq<Seq<char>>) -> Seq<
    (Seq<char>, BoundValue),
> {
    Seq::new(args.len(), |k: int| (args[k].name@, argument_value(args[k], k, positional)))
}

/// The first required option, from index `j` on, that the scan has not seen.
pub open spec fn missing_option_from(rules: Seq<Rule>, seen: Seq<Seen>, j: int) -> Option<int>
    decreases rules.len() - j,
{
    if j < 0 || j >= rules.len() {
        None
    } else if rules[j].option.required && seen[j].count == 0 {
        Some(j)
    } else {
        missing_option_from(rules, seen, j + 1)
    }
}

/// The first argument, from index `k` on, that is required, has no default, and is
/// beyond the `supplied` positional tokens.
pub open spec fn missing_argument_from(args: Seq<Argument>, supplied: nat, k: int) -> Option<int>
    decreases args.len() - k,
{
    if k < 0 || k >= args.len() {
        None
    } else if k >= supplied && args[k].required && args[k].default is None {
        Some(k)
    } else {
        missing_argument_from(args, supplied, k + 1)
    }
}

/// What parsing a command line comes to.
pub enum ParseModel {
    Help,
    Failed(ParseFault),
    Bound(Seq<(Seq<char>, BoundValue)>),
}

/// After a scan that went through: the first missing required option, else the first
/// missing required argument, else the options' and then the arguments' bindings.
pub open spec fn finish(rules: Seq<Rule>, args: Seq<Argument>, st: ScanState) -> ParseModel {
    match missing_option_from(rules, st.seen, 0) {
        Some(j) => ParseModel::Failed(ParseFault::MissingRequiredOption(rules[j].option.long_name@)),
        None => match missing_argument_from(args, st.positional.len(), 0) {
            Some(k) => ParseModel::Failed(ParseFault::MissingRequiredArgument(args[k].name@)),
            None => ParseModel::Bound(
                option_bindings(rules, st.seen) + argument_bindings(args, st.positional),
            ),
        },
    }
}

/// The outcome of parsing `toks` against `rules` and the declared arguments.
pub open spec fn parse_result(rules: Seq<Rule>, args: Seq<Argument>, toks: Seq<Seq<char>>) -> ParseModel {
    match scan(rules, args.len(), toks, 0, initial_state(rules.len())) {
        ScanOutcome::Help => ParseModel::Help,
        ScanOutcome::Fault(f) => ParseModel::Failed(f),
        ScanOutcome::Finished(st) => finish(rules, args, st),
    }
}

/// The value bound to `name`: that of the first entry with that name.
pub open spec fn lookup_from(entries: Seq<(Seq<char>, BoundValue)>, name: Seq<char>, i: int) -> Option<
    BoundValue,
>
    decreases entries.len() - i,
{
    if i < 0 || i >= entries.len() {
        None
    } else if entries[i].0 == name {
        Some(entries[i].1)
    } else {
        lookup_from(entries, name, i + 1)
    }
}

pub open spec fn lookup(entries: Seq<(Seq<char>, BoundValue)>, name: Seq<char>) -> Option<BoundValue> {
    lookup_from(entries, name, 0)
}

pub open spec fn entry_views(entries: Seq<(String, Value)>) -> Seq<(Seq<char>, BoundValue)> {
    entries.map_values(|e: (String, Value)| (e.0@, e.1@))
}

/// The values that a command line binds, by option long name and argument name.
#[derive(Debug)]
pub struct ParsedArguments {
    entries: Vec<(String, Value)>,
}

impl View for ParsedArguments {
    type V = Seq<(Seq<char>, BoundValue)>;

    closed spec fn view(&self) -> Seq<(Seq<char>, BoundValue)> {
        entry_views(self.entries@)
    }
}

impl ParsedArguments {
    /// The number of bound names.
    pub fn len(&self) -> (r: usize)
        ensures
            r == self@.len(),
    {
        self.entries.len()
    }

    /// The value bound to a name.
    pub fn get(&self, name: &str) -> (r: Option<&Value>)
        ensures
            match r {
                Some(v) => lookup(self@, name@) == Some(v@),
                None => lookup(self@, name@) is None,
            },
    {
        let ghost ev = entry_views(self.entries@);
        let mut i: usize = 0;
        while i < self.entries.len()
            invariant
                i <= self.entries.len(),
                ev == entry_views(self.entries@),
                ev == self@,
                lookup(ev, name@) == lookup_from(ev, name@, i as int),
            decreases self.entries.len() - i,
        {
            if same_text(self.entries[i].0.as_str(), name) {
                return Some(&self.entries[i].1);
            }
            i = i + 1;
        }
        None
    }
}

/// A command line that was accepted: the help option was given, or values were bound.
#[derive(Debug)]
pub enum Parsed {
    Help,
    Bound(ParsedArguments),
}

pub open spec fn outcome_view(r: Result<Parsed, ParseError>) -> ParseModel {
    match r {
        Ok(Parsed::Help) => ParseModel::Help,
        Ok(Parsed::Bound(p)) => ParseModel::Bound(p@),
        Err(e) => ParseModel::Failed(e@),
    }
}

fn default_string(d: Option<&'static str>) -> (r: Option<String>)
    ensures
        text_of(r) == default_text(d),
{
    match d {
        Some(s) => Some(String::from_str(s)),
        None => None,
    }
}

fn copy_strings(v: &Vec<String>) -> (r: Vec<String>)
    ensures
        views(r@) == views(v@),
{
    let mut r: Vec<String> = Vec::new();
    let mut i: usize = 0;
    while i < v.len()
        invariant
            i <= v.len(),
            views(r@) == views(v@).take(i as int),
        decreases v.len() - i,
    {
        let ghost before = r@;
        r.push(v[i].clone());
        assert(views(r@) =~= views(before).push(v@[i as int]@));
        assert(views(v@).take(i + 1) =~= views(v@).take(i as int).push(v@[i as int]@));
        i = i + 1;
    }
    assert(views(v@).take(v.len() as int) =~= views(v@));
    r
}

fn bind_value(rule: &Rule, t: &Tally) -> (v: Value)
    ensures
        v@ == bind_option(*rule, tally_view(*t)),
{
    match rule.kind {
        BindingKind::Flag => {
            let on = match rule.option.default {
                Some(d) => same_text(d, "true"),
                None => false,
            };
            Value::Flag(t.count > 0 || on)
        },
        BindingKind::RepeatableFlag => Value::Count(t.count),
        BindingKind::MultiValue => {
            if t.values.len() > 0 {
                Value::List(copy_strings(&t.values))
            } else {
                let mut list: Vec<String> = Vec::new();
                match rule.option.default {
                    Some(d) => {
                        list.push(String::from_str(d));
                    },
                    None => {},
                }
                let ghost dv = match rule.option.default {
                    Some(d) => seq![d@],
                    None => Seq::<Seq<char>>::empty(),
                };
                assert(views(list@) =~= dv);
                Value::List(list)
            }
        },
        _ => {
            match &t.last {
                Some(x) => Value::Text(Some(x.clone())),
                None => Value::Text(default_string(rule.option.default)),
            }
        },
    }
}

fn missing_option(rules: &Vec<Rule>, ts: &Vec<Tally>) -> (r: Option<usize>)
    requires
        ts@.len() == rules@.len(),
    ensures
        match r {
            Some(j) => missing_option_from(rules@, tallies_view(ts@), 0) == Some(j as int) && j
                < rules@.len(),
            None => missing_option_from(rules@, tallies_view(ts@), 0) is None,
        },
{
    let mut j: usize = 0;
    while j < rules.len()
        invariant
            j <= rules.len(),
            ts@.len() == rules@.len(),
            missing_option_from(rules@, tallies_view(ts@), 0) == missing_option_from(
                rules@,
                tallies_view(ts@),
                j as int,
            ),
        decreases rules.len() - j,
    {
        if rules[j].option.required && ts[j].count == 0 {
            return Some(j);
        }
        j = j + 1;
    }
    None
}

fn missing_argument(args: &Vec<Argument>, supplied: usize) -> (r: Option<usize>)
    ensures
        match r {
            Some(k) => missing_argument_from(args@, supplied as nat, 0) == Some(k as int) && k
                < args@.len(),
            None => missing_argument_from(args@, supplied as nat, 0) is None,
        },
{
    let mut k: usize = 0;
    while k < args.len()
        invariant
            k <= args.len(),
            missing_argument_from(args@, supplied as nat, 0) == missing_argument_from(
                args@,
                supplied as nat,
                k as int,
            ),
        decreases args.len() - k,
    {
        if k >= supplied && args[k].required && args[k].default.is_none() {
            return Some(k);
        }
        k = k + 1;
    }
    None
}

fn push_entry(entries: &mut Vec<(String, Value)>, name: String, value: Value)
    ensures
        entry_views(final(entries)@) == entry_views(old(entries)@).push((name@, value@)),
{
    let ghost before = entries@;
    entries.push((name, value));
    assert(entry_views(entries@) =~= entry_views(before).push((name@, value@)));
}

fn bind_all(rules: &Vec<Rule>, args: &Vec<Argument>, ts: &Vec<Tally>, pos: &Vec<String>) -> (r:
    ParsedArguments)
    requires
        ts@.len() == rules@.len(),
    ensures
        r@ == option_bindings(rules@, tallies_view(ts@)) + argument_bindings(args@, views(pos@)),
{
    let ghost seen = tallies_view(ts@);
    let mut entries: Vec<(String, Value)> = Vec::new();
    let mut j: usize = 0;
    assert(rules@.take(0) =~= Seq::<Rule>::empty());
    assert(entry_views(entries@) =~= Seq::<(Seq<char>, BoundValue)>::empty());
    while j < rules.len()
        invariant
            j <= rules.len(),
            ts@.len() == rules@.len(),
            seen == tallies_view(ts@),
            entry_views(entries@) == option_bindings(rules@.take(j as int), seen),
        decreases rules.len() - j,
    {
        assert(rules@.take(j + 1).drop_last() =~= rules@.take(j as int));
        assert(rules@.take(j + 1).last() == rules@[j as int]);
        if !rules[j].is_help {
            let value = bind_value(&rules[j], &ts[j]);
            push_entry(&mut entries, String::from_str(rules[j].option.long_name), value);
        }
        j = j + 1;
    }
    assert(rules@.take(rules.len() as int) =~= rules@);
    let ghost opts = entry_views(entries@);
    let ghost ab = argument_bindings(args@, views(pos@));
    let mut k: usize = 0;
    assert(ab.take(0) =~= Seq::<(Seq<char>, BoundValue)>::empty());
    assert(opts + ab.take(0) =~= opts);
    while k < args.len()
        invariant
            k <= args.len(),
            ab == argument_bindings(args@, views(pos@)),
            entry_views(entries@) == opts + ab.take(k as int),
        decreases args.len() - k,
    {
        let text = if k < pos.len() {
            Some(pos[k].clone())
        } else {
            default_string(args[k].default)
        };
        push_entry(&mut entries, String::from_str(args[k].name), Value::Text(text));
        assert(opts + ab.take(k + 1) =~= (opts + ab.take(k as int)).push(ab[k as int]));
        k = k + 1;
    }
    assert(ab.take(args.len() as int) =~= ab);
    ParsedArguments { entries }
}

/// Parses a command line: one scan from left to right, then the checks for missing
/// required options and arguments, then the bindings.
pub fn parse(rules: &Vec<Rule>, arguments: &Vec<Argument>, tokens: &Vec<String>) -> (r: Result<
    Parsed,
    ParseError,
>)
    ensures
        outcome_view(r) == parse_result(rules@, arguments@, views(tokens@)),
{
    match scan_tokens(rules, arguments.len(), tokens) {
        ScanEnd::Help => Ok(Parsed::Help),
        ScanEnd::Failed(e) => Err(e),
        ScanEnd::Finished(ts, pos) => {
            match missing_option(rules, &ts) {
                Some(j) => {
                    return Err(
                        ParseError::MissingRequiredOption(
                            String::from_str(rules[j].option.long_name),
                        ),
                    );
                },
                None => {},
            }
            match missing_argument(arguments, pos.len()) {
                Some(k) => {
                    return Err(
                        ParseError::MissingRequiredArgument(String::from_str(arguments[k].name)),
                    );
                },
                None => {},
            }
            Ok(Parsed::Bound(bind_all(rules, arguments, &ts, &pos)))
        },
    }
}

/// A scan over positional tokens only binds them in order while arguments remain, and
/// fails on the first token beyond them.
proof fn lemma_scan_positional(
    rules: Seq<Rule>,
    nargs: nat,
    toks: Seq<Seq<char>>,
    i: nat,
    st: ScanState,
)
    requires
        i <= toks.len(),
        st.positional.len() <= nargs,
        forall|k: int| 0 <= k < toks.len() ==> !is_option_token(#[trigger] toks[k]),
    ensures
        st.positional.len() + (toks.len() - i) <= nargs ==> scan(rules, nargs, toks, i, st)
            == ScanOutcome::Finished(
            ScanState { positional: st.positional + toks.subrange(i as int, toks.len() as int), ..st },
        ),
        st.positional.len() + (toks.len() - i) > nargs ==> scan(rules, nargs, toks, i, st)
            == ScanOutcome::Fault(
            ParseFault::TooManyArguments(toks[i + nargs - st.positional.len()]),
        ),
    decreases toks.len() - i,
{
    if i < toks.len() {
        if st.positional.len() < nargs {
            let next = ScanState { positional: st.positional.push(toks[i as int]), ..st };
            lemma_scan_positional(rules, nargs, toks, i + 1, next);
            assert(st.positional.push(toks[i as int]) + toks.subrange(i + 1int, toks.len() as int)
                =~= st.positional + toks.subrange(i as int, toks.len() as int));
        }
    } else {
        assert(st.positional + toks.subrange(i as int, toks.len() as int) =~= st.positional);
    }
}

proof fn lemma_no_missing_option(rules: Seq<Rule>, seen: Seq<Seen>, j: int)
    requires
        0 <= j,
        forall|i: int| 0 <= i < rules.len() ==> !(#[trigger] rules[i]).option.required,
    ensures
        missing_option_from(rules, seen, j) is None,
    decreases rules.len() - j,
{
    if j < rules.len() {
        lemma_no_missing_option(rules, seen, j + 1);
    }
}

proof fn lemma_missing_argument_at(args: Seq<Argument>, supplied: nat, k: int)
    requires
        0 <= k <= supplied < args.len(),
        args[supplied as int].required,
        args[supplied as int].default is None,
    ensures
        missing_argument_from(args, supplied, k) == Some(supplied as int),
    decreases supplied - k,
{
    if k < supplied {
        lemma_missing_argument_at(args, supplied, k + 1);
    }
}

proof fn lemma_no_missing_argument(args: Seq<Argument>, supplied: nat, k: int)
    requires
        0 <= k,
        supplied >= args.len(),
    ensures
        missing_argument_from(args, supplied, k) is None,
    decreases args.len() - k,
{
    if k < args.len() {
        lemma_no_missing_argument(args, supplied, k + 1);
    }
}

/// With only positional tokens and no required option: exactly as many tokens as
/// arguments bind each argument to its token, with none left over; a token beyond the
/// arguments is too many; and when the tokens run out before a required argument
/// without default, that argument is missing.
pub proof fn lemma_positional_boundary(rules: Seq<Rule>, args: Seq<Argument>, toks: Seq<Seq<char>>)
    requires
        forall|k: int| 0 <= k < toks.len() ==> !is_option_token(#[trigger] toks[k]),
        forall|i: int| 0 <= i < rules.len() ==> !(#[trigger] rules[i]).option.required,
    ensures
        toks.len() == args.len() ==> parse_result(rules, args, toks) == ParseModel::Bound(
            option_bindings(rules, initial_state(rules.len()).seen) + argument_bindings(args, toks),
        ),
        toks.len() == args.len() ==> forall|k: int|
            0 <= k < args.len() ==> #[trigger] argument_value(args[k], k, toks)
                == BoundValue::Text(Some(toks[k])),
        toks.len() > args.len() ==> parse_result(rules, args, toks) == ParseModel::Failed(
            ParseFault::TooManyArguments(toks[args.len() as int]),
        ),
        toks.len() < args.len() && args[toks.len() as int].required && args[toks.len() as int].default is None
            ==> parse_result(rules, args, toks) == ParseModel::Failed(
            ParseFault::MissingRequiredArgument(args[toks.len() as int].name@),
        ),
{
    let init = initial_state(rules.len());
    lemma_scan_positional(rules, args.len(), toks, 0, init);
    lemma_no_missing_option(rules, init.seen, 0);
    assert(Seq::<Seq<char>>::empty() + toks.subrange(0, toks.len() as int) =~= toks);
    if toks.len() == args.len() {
        lemma_no_missing_argument(args, toks.len(), 0);
    }
    if toks.len() < args.len() && args[toks.len() as int].required && args[toks.len() as int].default is None {
        lemma_missing_argument_at(args, toks.len(), 0);
    }
}

/// The long form of an option on the command line: two dashes and its long name.
pub open spec fn long_form(o: Options) -> Seq<char> {
    seq!['-', '-'] + o.long_name@
}

pub open spec fn distinct_long_names(rules: Seq<Rule>) -> bool {
    forall|a: int, b: int|
        0 <= a < b < rules.len() ==> (#[trigger] rules[a]).option.long_name@ != (#[trigger] rules[b]).option.long_name@
}

proof fn lemma_find_long_form(rules: Seq<Rule>, j: int, s: int)
    requires
        0 <= s <= j < rules.len(),
        distinct_long_names(rules),
    ensures
        find_rule_from(rules, long_form(rules[j].option), s) == Some(j),
    decreases j - s,
{
    let t = long_form(rules[j].option);
    assert(t.subrange(2, t.len() as int) =~= rules[j].option.long_name@);
    if s < j {
        assert(rules[s].option.long_name@ != rules[j].option.long_name@);
        assert(!names_option(t, rules[s].option));
        lemma_find_long_form(rules, j, s + 1);
    }
}

proof fn lemma_lookup_push(a: Seq<(Seq<char>, BoundValue)>, x: (Seq<char>, BoundValue), n: Seq<char>, i: int)
    requires
        0 <= i <= a.len(),
    ensures
        lookup_from(a.push(x), n, i) == (if lookup_from(a, n, i) is Some {
            lookup_from(a, n, i)
        } else if x.0 == n {
            Some(x.1)
        } else {
            None
        }),
    decreases a.len() - i,
{
    if i < a.len() {
        lemma_lookup_push(a, x, n, i + 1);
    } else {
        assert(lookup_from(a.push(x), n, i + 1) is None);
    }
}

proof fn lemma_lookup_concat(a: Seq<(Seq<char>, BoundValue)>, b: Seq<(Seq<char>, BoundValue)>, n: Seq<char>, i: int)
    requires
        0 <= i <= a.len(),
        lookup_from(a, n, i) is Some,
    ensures
        lookup_from(a + b, n, i) == lookup_from(a, n, i),
    decreases a.len() - i,
{
    if i < a.len() && a[i].0 != n {
        lemma_lookup_concat(a, b, n, i + 1);
    }
}

/// No option binding has a name that no option other than the help option has.
proof fn lemma_lookup_absent(rules: Seq<Rule>, seen: Seq<Seen>, n: Seq<char>)
    requires
        forall|i: int| 0 <= i < rules.len() && !(#[trigger] rules[i]).is_help ==> rules[i].option.long_name@ != n,
    ensures
        lookup(option_bindings(rules, seen), n) is None,
    decreases rules.len(),
{
    if rules.len() > 0 {
        let rest = rules.drop_last();
        lemma_lookup_absent(rest, seen, n);
        let r = rules.last();
        if !r.is_help {
            lemma_lookup_push(
                option_bindings(rest, seen),
                (r.option.long_name@, bind_option(r, seen[rules.len() - 1])),
                n,
                0,
            );
        }
    }
}

/// With distinct long names, an option's long name looks up its own binding.
proof fn lemma_lookup_option(rules: Seq<Rule>, seen: Seq<Seen>, j: int)
    requires
        0 <= j < rules.len(),
        !rules[j].is_help,
        distinct_long_names(rules),
    ensures
        lookup(option_bindings(rules, seen), rules[j].option.long_name@) == Some(
            bind_option(rules[j], seen[j]),
        ),
    decreases rules.len(),
{
    let rest = rules.drop_last();
    let last = rules.len() - 1;
    let n = rules[j].option.long_name@;
    let r = rules.last();
    if j == last {
        assert forall|i: int| 0 <= i < rest.len() && !(#[trigger] rest[i]).is_help implies rest[i].option.long_name@ != n by {
            assert(rules[i] == rest[i]);
        }
        lemma_lookup_absent(rest, seen, n);
        lemma_lookup_push(option_bindings(rest, seen), (n, bind_option(r, seen[last])), n, 0);
    } else {
        assert(distinct_long_names(rest)) by {
            assert forall|a: int, b: int| 0 <= a < b < rest.len() implies (#[trigger] rest[a]).option.long_name@
                != (#[trigger] rest[b]).option.long_name@ by {
                assert(rest[a] == rules[a] && rest[b] == rules[b]);
            }
        }
        lemma_lookup_option(rest, seen, j);
        if !r.is_help {
            lemma_lookup_push(
                option_bindings(rest, seen),
                (r.option.long_name@, bind_option(r, seen[last])),
                n,
                0,
            );
        }
    }
}

proof fn lemma_no_argument_missing(args: Seq<Argument>, k: int)
    requires
        0 <= k,
        forall|i: int| 0 <= i < args.len() ==> !((#[trigger] args[i]).required && args[i].default is None),
    ensures
        missing_argument_from(args, 0, k) is None,
    decreases args.len() - k,
{
    if k < args.len() {
        lemma_no_argument_missing(args, k + 1);
    }
}

/// Parsing the long form of a boolean flag binds the flag to true; parsing a command
/// line without it binds it to its default, which is false unless the default is
/// `true`.
pub proof fn lemma_flag_round_trip(rules: Seq<Rule>, args: Seq<Argument>, j: int)
    requires
        0 <= j < rules.len(),
        rules[j].kind == BindingKind::Flag,
        !rules[j].is_help,
        distinct_long_names(rules),
        forall|i: int| 0 <= i < rules.len() ==> !(#[trigger] rules[i]).option.required,
        forall|k: int| 0 <= k < args.len() ==> !((#[trigger] args[k]).required && args[k].default is None),
    ensures
        parse_result(rules, args, seq![long_form(rules[j].option)]) matches ParseModel::Bound(b)
            && lookup(b, rules[j].option.long_name@) == Some(BoundValue::Flag(true)),
        parse_result(rules, args, Seq::empty()) matches ParseModel::Bound(b) && lookup(
            b,
            rules[j].option.long_name@,
        ) == Some(BoundValue::Flag(default_on(rules[j].option))),
{
    let n = rules[j].option.long_name@;
    let init = initial_state(rules.len());
    let toks = seq![long_form(rules[j].option)];
    lemma_find_long_form(rules, j, 0);
    let st = record_at(init, j, None);
    assert(scan(rules, args.len(), toks, 1, st) == ScanOutcome::Finished(st));
    assert(scan(rules, args.len(), toks, 0, init) == ScanOutcome::Finished(st));
    lemma_no_missing_option(rules, st.seen, 0);
    lemma_no_argument_missing(args, 0);
    lemma_lookup_option(rules, st.seen, j);
    lemma_lookup_concat(
        option_bindings(rules, st.seen),
        argument_bindings(args, st.positional),
        n,
        0,
    );
    lemma_no_missing_option(rules, init.seen, 0);
    lemma_lookup_option(rules, init.seen, j);
    lemma_lookup_concat(
        option_bindings(rules, init.seen),
        argument_bindings(args, init.positional),
        n,
        0,
    );
}

} // verus!
