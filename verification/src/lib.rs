//! A text rewriting engine driven by user-defined grammar rules.
//!
//! A rule definition `%: name {header} -> {body}` adds a variant to the rule
//! `name`; an unnamed definition is applied to the text that follows it.
use vstd::prelude::*;

pub mod text;
pub mod error;
pub mod vars;
pub mod util;
pub mod maybe_inf;
pub mod types;
pub mod mmatch;
pub mod process;
pub mod ruletypes;
pub mod part_match;
pub mod definition_scan;
pub mod postext;

verus! {

/// Opening quotes of literal text in rule definitions.
pub const ESCAPE_BRACE_OPEN: [&'static str; 2] = ["'", "{'"];

/// Closing quotes of literal text, pairwise with `ESCAPE_BRACE_OPEN`.
pub const ESCAPE_BRACE_CLOSE: [&'static str; 2] = ["`", "`}"];

/// The character that starts an invocation (`:var:rule`, `:var`).
pub const RULE_INVOCATION_CHAR: char = ':';

/// The key that starts a rule definition or a file invocation.
pub const RULE_DEFINITION_KEY: &'static str = "%:";

/// The rule that handles white space in parameter headers.
pub const SWIRL_WHITESPACE_HANDLER_PARAM_HEADER: &'static str = "swirl_whitespace_handler_param_header";

/// The rule that handles white space in headers.
pub const SWIRL_WHITESPACE_HANDLER_HEADER: &'static str = "swirl_whitespace_handler_header";

/// The rule that handles white space in bodies.
pub const SWIRL_WHITESPACE_HANDLER_BODY: &'static str = "swirl_whitespace_handler_body";

/// The rule that handles white space in catch bodies.
pub const SWIRL_WHITESPACE_HANDLER_CATCH_BODY: &'static str = "swirl_whitespace_handler_catch_body";

/// The escape character of rule parts: the character after it stands for itself.
pub const ESCAPE_CHAR: char = '.';

} // verus!
