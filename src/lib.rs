//! A framework for command line applications: commands with typed options and
//! positional arguments, a parser that binds the process arguments to them, and
//! a formatter that lays out usage lines and help pages.
mod command;
mod formatting;
mod optgroups;
mod parser;
mod term;
mod types;

pub use command::{
    argument_fault, clashes_with_help, error_report, fault_message, help_clash_from, help_page,
    help_records, help_row, help_rows, names_clash, parser_groups, option_fault, options_section, text_section,
    usage_args, usage_text, valid_long, valid_option, valid_short, well_formed, Command,
    CommandSpec, Invocation, RegistrationError, HELP_INDENT, HELP_WIDTH,
};
pub use formatting::{
    definition_list, definition_row, definition_rows, fill, fill_lines, first_column_width,
    heading_line, is_blank, join, join_lines, row_views, spaces, spaces_string, split_words, gaps, trailing_blanks, text_lines, nats, split_gaps, wrap_lines,
    text_block, text_width, usage_line, views, with_paragraph, words, wrap_text, wrapped, lemma_lines_fit,
    FormatterState, HelpFormatter, COLUMN_GAP,
};
pub use parser::{
    argument_bindings, argument_value, bind_option, build_rules, default_on, default_text,
    distinct_long_names, entry_views, find_rule, find_rule_from, find_rule_index, finish,
    help_option, initial_state, is_long_token, is_option_token, is_option_token_str,
    is_short_token, lemma_flag_round_trip, lemma_positional_boundary, long_form, lookup,
    lookup_from, missing_argument_from, missing_option_from, names_option, needs_value,
    option_bindings, outcome_view, parse, parse_result, record, record_at, rule_for, rules_for,
    same_text, scan, takes_no_value, text_of, unseen, BoundValue, ParseError, ParseFault,
    ParseModel, Parsed, ParsedArguments, Rule, ScanOutcome, ScanState, Seen, Value,
};
pub use term::{
    build_prompt_text, color_code, color_digit, color_part, confirm_answer, confirm_line, confirm_question, lowers_to, trimmed,
    confirm_reply, confirmation_question, prompt, prompt_step, prompt_text, sgr, styled,
    switch_code, text_opt, Color, Prompt, PromptReply, PromptSpec, ReplySpec, Style, StyleSpec,
};
pub use types::{
    description, display_name, getopts_group, kind_of, lemma_help_record_metadata, usage_piece, Argument,
    BindingKind, Options,
};
pub use optgroups::{getopts_names, option_groups};
