//! Errors of matching and parsing, with their messages and backtraces.
use vstd::prelude::*;
use vstd::string::*;
use crate::types::rule_variant::{UntrustedRuleVariant, variant_display};
use crate::text::{before_newline, lemma_before_newline_len, count_before_newline, skip_chars, str_is_empty, take_chars, decimal, push_decimal};

verus! {

broadcast use vstd::string::group_string_axioms;

/// An error of matching input against rules or of parsing rule definitions.
#[derive(PartialEq, Eq, Debug)]
pub struct MatchError {
    _fatal: bool,
    error_type: ErrorType,
    backtrace: Vec<String>,
}

/// What kind of error a `MatchError` is: a generic one, possibly made of the
/// errors of several candidates, or the invocation of a rule that does not exist.
#[allow(non_snake_case)]
#[derive(PartialEq, Eq, Debug)]
pub enum ErrorType {
    Generic { msg: String, subErrors: Vec<MatchError> },
    UnknownRule { msg: String },
}

pub type MatchResult<T> = Result<T, MatchError>;

/// The model of a `MatchError`: whether it is fatal, whether it is the
/// invocation of an unknown rule, its message, the errors of the candidates
/// it is made of, and its backtrace.
pub struct ErrorView {
    pub fatal: bool,
    pub unknown: bool,
    pub message: Seq<char>,
    pub sub_errors: Seq<ErrorView>,
    pub backtrace: Seq<Seq<char>>,
}

/// A fresh generic error with the message `m`.
pub open spec fn plain_error(m: Seq<char>) -> ErrorView {
    ErrorView { fatal: false, unknown: false, message: m, sub_errors: Seq::empty(), backtrace: Seq::empty() }
}

/// A fresh generic error with the message `m`, made of the errors `subs`.
pub open spec fn composed_error(m: Seq<char>, subs: Seq<ErrorView>) -> ErrorView {
    ErrorView { fatal: false, unknown: false, message: m, sub_errors: subs, backtrace: Seq::empty() }
}

/// `e` with the line `line` added at the end of its backtrace.
pub open spec fn traced_error(e: ErrorView, line: Seq<char>) -> ErrorView {
    ErrorView { backtrace: e.backtrace.push(line), ..e }
}

/// `e` marked fatal.
pub open spec fn fatal_error(e: ErrorView) -> ErrorView {
    ErrorView { fatal: true, ..e }
}

/// The models of several errors.
pub open spec fn views_of(s: Seq<MatchError>) -> Seq<ErrorView> {
    s.map_values(|e: MatchError| e@)
}

pub closed spec fn error_view(e: MatchError) -> ErrorView
    decreases e,
{
    ErrorView {
        fatal: e._fatal,
        unknown: e.error_type is UnknownRule,
        message: match e.error_type {
            ErrorType::Generic { msg, .. } => msg@,
            ErrorType::UnknownRule { msg } => msg@,
        },
        sub_errors: match e.error_type {
            ErrorType::Generic { subErrors, .. } => errors_view(subErrors@),
            ErrorType::UnknownRule { .. } => Seq::empty(),
        },
        backtrace: e.backtrace@.map_values(|l: String| l@),
    }
}

pub closed spec fn errors_view(s: Seq<MatchError>) -> Seq<ErrorView>
    decreases s,
{
    if s.len() == 0 {
        Seq::empty()
    } else {
        errors_view(s.drop_last()).push(error_view(s.last()))
    }
}

impl View for MatchError {
    type V = ErrorView;

    closed spec fn view(&self) -> ErrorView {
        error_view(*self)
    }
}

proof fn lemma_errors_view(s: Seq<MatchError>)
    ensures
        errors_view(s) == views_of(s),
    decreases s.len(),
{
    if s.len() > 0 {
        lemma_errors_view(s.drop_last());
        assert(errors_view(s) =~= views_of(s));
    } else {
        assert(errors_view(s) =~= views_of(s));
    }
}

/// How the model of an error is made of its parts.
pub broadcast proof fn lemma_error_view(e: MatchError)
    ensures
        #[trigger] e@ == (ErrorView {
            fatal: e.fatal_flag(),
            unknown: e.unknown_kind(),
            message: e.message(),
            sub_errors: views_of(e.sub_errors()),
            backtrace: e.backtrace_lines(),
        }),
{
    match e.error_type {
        ErrorType::Generic { subErrors, .. } => lemma_errors_view(subErrors@),
        ErrorType::UnknownRule { .. } => assert(views_of(Seq::<MatchError>::empty()) =~= Seq::empty()),
    }
}

/// Marking an error fatal twice is marking it once.
pub proof fn law_fatal_idempotent(e: ErrorView)
    ensures
        fatal_error(fatal_error(e)) == fatal_error(e),
        fatal_error(e).message == e.message,
        fatal_error(e).unknown == e.unknown,
        fatal_error(e).sub_errors == e.sub_errors,
        fatal_error(e).backtrace == e.backtrace,
{
}

/// The first line of `s` as `str::lines` yields it: the characters before the
/// first `'\n'`, without a `'\r'` right before that `'\n'`.
pub open spec fn first_line(s: Seq<char>) -> Seq<char> {
    let l = before_newline(s);
    if l.len() < s.len() && l.len() > 0 && l.last() == '\r' {
        l.drop_last()
    } else {
        l
    }
}

/// The region of the input that an error message shows between quotes: its
/// first line, or `end of line` where that line is empty.
pub open spec fn region_text_spec(s: Seq<char>) -> Seq<char> {
    if first_line(s).len() == 0 {
        "end of line"@
    } else {
        first_line(s)
    }
}

pub open spec fn expected_msg(expected: Seq<char>, input: Seq<char>) -> Seq<char> {
    "Expected '"@ + expected + "', got '"@ + region_text_spec(input) + "'"@
}

pub open spec fn unknown_variable_msg(var: Seq<char>, input: Seq<char>) -> Seq<char> {
    "Unknown variable '"@ + var + "': '"@ + region_text_spec(input) + "'"@
}

pub open spec fn unknown_rule_msg(rule: Seq<char>, input: Seq<char>) -> Seq<char> {
    "Unknown rule: '"@ + rule + "': '"@ + region_text_spec(input) + "'"@
}

/// The region of the input as error messages quote it (see `region_text_spec`).
fn region_text(input: &str) -> (r: String)
    ensures
        r@ == region_text_spec(input@),
{
    let n = count_before_newline(input);
    proof {
        lemma_before_newline_len(input@);
    }
    let rest = skip_chars(input, n);
    let has_newline = !str_is_empty(rest);
    let mut len = n;
    if has_newline && n > 0 {
        let last = input.get_char(n - 1);
        if last == '\r' {
            len = n - 1;
        }
    }
    let line = take_chars(input, len);
    proof {
        let l = before_newline(input@);
        assert(l =~= input@.take(n as int));
        if has_newline && n > 0 && l.last() == '\r' {
            assert(line@ =~= l.drop_last());
        } else {
            assert(line@ =~= l);
        }
    }
    if str_is_empty(line) {
        String::from_str("end of line")
    } else {
        line.to_owned()
    }
}

/// The region of the input that an error is about: its first line in single
/// quotes, or `end of line`, without quotes, where that line is empty.
pub open spec fn error_region_spec(s: Seq<char>) -> Seq<char> {
    if first_line(s).len() == 0 {
        "end of line"@
    } else {
        "'"@ + first_line(s) + "'"@
    }
}

/// Returns the input until the end of its first line in single quotes, or,
/// if that line is empty, `end of line` without quotes.
pub fn error_region(input: &str) -> (r: String)
    ensures
        r@ == error_region_spec(input@),
{
    let line = region_text(input);
    if first_line_is_empty(input) {
        line
    } else {
        let mut out = String::from_str("'");
        out.append(line.as_str());
        out.append("'");
        out
    }
}

/// Whether the first line of `input` is empty.
fn first_line_is_empty(input: &str) -> (r: bool)
    ensures
        r == (first_line(input@).len() == 0),
{
    let n = count_before_newline(input);
    proof {
        lemma_before_newline_len(input@);
    }
    if n == 0 {
        return true;
    }
    if n == 1 {
        let rest = skip_chars(input, 1);
        return !str_is_empty(rest) && input.get_char(0) == '\r';
    }
    false
}

/// Appends `s` to `out`.
fn push(out: &mut String, s: &str)
    ensures
        final(out)@ == old(out)@ + s@,
{
    out.append(s);
}

impl MatchError {
    pub closed spec fn fatal_flag(&self) -> bool {
        self._fatal
    }

    /// Whether the error is the invocation of an unknown rule.
    pub closed spec fn unknown_kind(&self) -> bool {
        self.error_type is UnknownRule
    }

    /// The error's own message.
    pub closed spec fn message(&self) -> Seq<char> {
        match self.error_type {
            ErrorType::Generic { msg, .. } => msg@,
            ErrorType::UnknownRule { msg } => msg@,
        }
    }

    /// The errors of the candidates that this error is composed of.
    pub closed spec fn sub_errors(&self) -> Seq<MatchError> {
        match self.error_type {
            ErrorType::Generic { subErrors, .. } => subErrors@,
            ErrorType::UnknownRule { .. } => Seq::empty(),
        }
    }

    pub closed spec fn backtrace_lines(&self) -> Seq<Seq<char>> {
        self.backtrace@.map_values(|l: String| l@)
    }

    /// A fresh generic error with the message `m`.
    pub open spec fn is_plain(&self, m: Seq<char>) -> bool {
        &&& !self.fatal_flag()
        &&& !self.unknown_kind()
        &&& self.message() == m
        &&& self.sub_errors().len() == 0
        &&& self.backtrace_lines().len() == 0
    }

    pub fn is_fatal(&self) -> (r: bool)
        ensures
            r == self.fatal_flag(),
    {
        self._fatal
    }

    pub fn is_unknown_rule(&self) -> (r: bool)
        ensures
            r == self.unknown_kind(),
    {
        match self.error_type {
            ErrorType::UnknownRule { .. } => true,
            _ => false,
        }
    }

    pub fn new(msg: &str) -> (r: MatchError)
        ensures
            r.is_plain(msg@),
            r@ == plain_error(msg@),
    {
        let r = MatchError {
            error_type: ErrorType::Generic { msg: msg.to_owned(), subErrors: Vec::new() },
            _fatal: false,
            backtrace: Vec::new(),
        };
        proof {
            assert(r.backtrace_lines() =~= Seq::<Seq<char>>::empty());
            lemma_error_view(r);
            assert(views_of(Seq::<MatchError>::empty()) =~= Seq::empty());
        }
        r
    }

    /// A generic error made of the errors of several candidates.
    #[allow(non_snake_case)]
    pub fn compose(msg: &str, subErrors: Vec<MatchError>) -> (r: MatchError)
        ensures
            !r.fatal_flag(),
            !r.unknown_kind(),
            r.message() == msg@,
            r.sub_errors() == subErrors@,
            r.backtrace_lines().len() == 0,
            r@ == composed_error(msg@, views_of(subErrors@)),
    {
        let r = MatchError {
            error_type: ErrorType::Generic { msg: msg.to_owned(), subErrors: subErrors },
            _fatal: false,
            backtrace: Vec::new(),
        };
        proof {
            lemma_error_view(r);
            assert(r.backtrace_lines() =~= Seq::<Seq<char>>::empty());
        }
        r
    }

    pub fn expected(expected: &str, input: &str) -> (r: MatchError)
        ensures
            r.is_plain(expected_msg(expected@, input@)),
            r@ == plain_error(expected_msg(expected@, input@)),
    {
        let mut m = String::new();
        push(&mut m, "Expected '");
        push(&mut m, expected);
        push(&mut m, "', got '");
        let region = region_text(input);
        push(&mut m, region.as_str());
        push(&mut m, "'");
        proof {
            assert(m@ =~= expected_msg(expected@, input@));
        }
        MatchError::new(m.as_str())
    }

    pub fn unknown_variable(var_ident: &str, input: &str) -> (r: MatchError)
        ensures
            r.is_plain(unknown_variable_msg(var_ident@, input@)),
            r@ == plain_error(unknown_variable_msg(var_ident@, input@)),
    {
        let mut m = String::new();
        push(&mut m, "Unknown variable '");
        push(&mut m, var_ident);
        push(&mut m, "': '");
        let region = region_text(input);
        push(&mut m, region.as_str());
        push(&mut m, "'");
        proof {
            assert(m@ =~= unknown_variable_msg(var_ident@, input@));
        }
        MatchError::new(m.as_str())
    }

    pub fn unknown_rule(rule_ident: &str, input: &str) -> (r: MatchError)
        ensures
            !r.fatal_flag(),
            r.unknown_kind(),
            r.message() == unknown_rule_msg(rule_ident@, input@),
            r.sub_errors().len() == 0,
            r.backtrace_lines().len() == 0,
            r@ == (ErrorView { unknown: true, ..plain_error(unknown_rule_msg(rule_ident@, input@)) }),
    {
        let mut m = String::new();
        push(&mut m, "Unknown rule: '");
        push(&mut m, rule_ident);
        push(&mut m, "': '");
        let region = region_text(input);
        push(&mut m, region.as_str());
        push(&mut m, "'");
        proof {
            assert(m@ =~= unknown_rule_msg(rule_ident@, input@));
        }
        let r = MatchError {
            _fatal: false,
            error_type: ErrorType::UnknownRule { msg: m },
            backtrace: Vec::new(),
        };
        proof {
            assert(r.backtrace_lines() =~= Seq::<Seq<char>>::empty());
            lemma_error_view(r);
            assert(views_of(Seq::<MatchError>::empty()) =~= Seq::empty());
        }
        r
    }

    /// The error of a rule variant that its flags do not allow; the variant
    /// is shown in its text form (see `variant_display`).
    pub fn rule_variant_verification_failure(
        rule_name: &str,
        rule_variant: &UntrustedRuleVariant,
        verifier_message: String,
    ) -> (r: MatchError)
        ensures
            r.is_plain(
                " --- Failed to verify rule variant %: "@ + rule_name@ + " {"@ + variant_display(rule_variant@)
                    + "}\n --- "@ + verifier_message@,
            ),
            r@ == plain_error(
                " --- Failed to verify rule variant %: "@ + rule_name@ + " {"@ + variant_display(rule_variant@)
                    + "}\n --- "@ + verifier_message@,
            ),
    {
        let text = rule_variant.display_text();
        let mut m = String::new();
        push(&mut m, " --- Failed to verify rule variant %: ");
        push(&mut m, rule_name);
        push(&mut m, " {");
        push(&mut m, text.as_str());
        push(&mut m, "}\n --- ");
        push(&mut m, verifier_message.as_str());
        proof {
            assert(m@ =~= " --- Failed to verify rule variant %: "@ + rule_name@ + " {"@
                + variant_display(rule_variant@) + "}\n --- "@ + verifier_message@);
        }
        MatchError::new(m.as_str())
    }

    pub fn rejected_tail_optimization(rule_name: &str, reason: String) -> (r: MatchError)
        ensures
            r.is_plain(
                " --- Rejected tail optimization of rule '"@ + rule_name@ + "': "@ + reason@,
            ),
    {
        let mut m = String::new();
        push(&mut m, " --- Rejected tail optimization of rule '");
        push(&mut m, rule_name);
        push(&mut m, "': ");
        push(&mut m, reason.as_str());
        proof {
            assert(m@ =~= " --- Rejected tail optimization of rule '"@ + rule_name@ + "': "@
                + reason@);
        }
        MatchError::new(m.as_str())
    }

    /// The same error, marked fatal: only the fatal flag changes.
    pub fn fatal(self) -> (r: MatchError)
        ensures
            r.fatal_flag(),
            r.unknown_kind() == self.unknown_kind(),
            r.message() == self.message(),
            r.sub_errors() == self.sub_errors(),
            r.backtrace_lines() == self.backtrace_lines(),
            r@ == fatal_error(self@),
    {
        let mut s = self;
        s._fatal = true;
        proof {
            lemma_error_view(s);
            lemma_error_view(self);
        }
        s
    }
}

/// The text of an error without its backtrace: its message on a line of its
/// own after `indent`, followed, where `with_candidates` holds and the error is
/// composed of candidates, by their count and their own texts, indented by two
/// more spaces.
pub closed spec fn display_spec(e: MatchError, indent: Seq<char>, with_candidates: bool) -> Seq<char>
    decreases e,
{
    match e.error_type {
        ErrorType::Generic { msg, subErrors } => {
            if with_candidates && subErrors@.len() > 0 {
                indent + msg@ + "\n"@ + indent + "candidates: "@ + decimal(subErrors@.len()) + "\n"@
                    + displays_spec(subErrors@, indent + "  "@) + "\n"@
            } else {
                indent + msg@ + "\n"@
            }
        },
        ErrorType::UnknownRule { msg } => indent + msg@ + "\n"@,
    }
}

/// The texts of several errors, one after the other, with candidates.
pub closed spec fn displays_spec(es: Seq<MatchError>, indent: Seq<char>) -> Seq<char>
    decreases es,
{
    if es.len() == 0 {
        Seq::empty()
    } else {
        displays_spec(es.drop_last(), indent) + display_spec(es.last(), indent, true)
    }
}

/// How the text of an error is made of its parts (see `display_spec`).
pub broadcast proof fn lemma_display_spec(e: MatchError, indent: Seq<char>, with_candidates: bool)
    ensures
        #[trigger] display_spec(e, indent, with_candidates) == (if !e.unknown_kind() && with_candidates
            && e.sub_errors().len() > 0 {
            indent + e.message() + "\n"@ + indent + "candidates: "@ + decimal(e.sub_errors().len()) + "\n"@
                + displays_spec(e.sub_errors(), indent + "  "@) + "\n"@
        } else {
            indent + e.message() + "\n"@
        }),
{
}

/// How the texts of several errors follow one another (see `displays_spec`).
pub broadcast proof fn lemma_displays_spec(es: Seq<MatchError>, indent: Seq<char>)
    ensures
        #[trigger] displays_spec(es, indent) == (if es.len() == 0 {
            Seq::empty()
        } else {
            displays_spec(es.drop_last(), indent) + display_spec(es.last(), indent, true)
        }),
{
}

impl MatchError {
    /// The text of the error without its backtrace (ends in a newline).
    pub fn display_without_backtrace(&self, indent: &str, with_candidates: bool) -> (r: String)
        ensures
            r@ == display_spec(*self, indent@, with_candidates),
        decreases *self,
    {
        match &self.error_type {
            ErrorType::Generic { msg, subErrors } => {
                let mut out = String::new();
                push(&mut out, indent);
                push(&mut out, msg.as_str());
                push(&mut out, "\n");
                if with_candidates && subErrors.len() > 0 {
                    push(&mut out, indent);
                    push(&mut out, "candidates: ");
                    push_decimal(&mut out, subErrors.len());
                    push(&mut out, "\n");
                    let mut inner = String::from_str(indent);
                    push(&mut inner, "  ");
                    let mut i: usize = 0;
                    while i < subErrors.len()
                        invariant
                            i <= subErrors@.len(),
                            inner@ == indent@ + "  "@,
                            out@ == indent@ + msg@ + "\n"@ + indent@ + "candidates: "@
                                + decimal(subErrors@.len()) + "\n"@
                                + displays_spec(subErrors@.take(i as int), inner@),
                            forall|k: int| 0 <= k < subErrors@.len() ==>
                                decreases_to!(*self => #[trigger] subErrors@[k]),
                        decreases subErrors@.len() - i,
                    {
                        let sub = &subErrors[i];
                        let d = sub.display_without_backtrace(inner.as_str(), true);
                        push(&mut out, d.as_str());
                        proof {
                            assert(subErrors@.take(i + 1).drop_last() =~= subErrors@.take(i as int));
                        }
                        i = i + 1;
                    }
                    push(&mut out, "\n");
                    proof {
                        assert(subErrors@.take(subErrors@.len() as int) =~= subErrors@);
                        assert(out@ =~= display_spec(*self, indent@, with_candidates));
                    }
                    out
                } else {
                    proof {
                        assert(out@ =~= display_spec(*self, indent@, with_candidates));
                    }
                    out
                }
            },
            ErrorType::UnknownRule { msg } => {
                let mut out = String::new();
                push(&mut out, indent);
                push(&mut out, msg.as_str());
                push(&mut out, "\n");
                proof {
                    assert(out@ =~= display_spec(*self, indent@, with_candidates));
                }
                out
            },
        }
    }

    /// The message alone, without candidates or backtrace.
    pub fn short_display(&self) -> (r: String)
        ensures
            r@ == display_spec(*self, Seq::empty(), false),
    {
        let r = self.display_without_backtrace("", false);
        proof {
            assert(""@ =~= Seq::<char>::empty()) by {
                reveal_strlit("");
            }
        }
        r
    }
}


/// `e` is `e0` with the backtrace `bt`.
pub open spec fn with_backtrace(e: MatchError, e0: MatchError, bt: Seq<Seq<char>>) -> bool {
    &&& e.fatal_flag() == e0.fatal_flag()
    &&& e.unknown_kind() == e0.unknown_kind()
    &&& e.message() == e0.message()
    &&& e.sub_errors() == e0.sub_errors()
    &&& e.backtrace_lines() == bt
}

/// `r` is `r0` where an error of `r0` has the line `tr` added to its backtrace.
pub open spec fn traced<T>(r: MatchResult<T>, r0: MatchResult<T>, tr: Seq<char>) -> bool {
    match (r, r0) {
        (Ok(a), Ok(b)) => a == b,
        (Err(e), Err(e0)) => with_backtrace(e, e0, e0.backtrace_lines().push(tr)),
        _ => false,
    }
}

/// Results and errors that carry a backtrace.
pub trait SetBacktrace: Sized {
    fn set_backtrace(self, bt: Vec<String>) -> Self;

    fn trace(self, tr: String) -> Self;
}

impl SetBacktrace for MatchError {
    /// The same error with the backtrace `bt`.
    fn set_backtrace(self, bt: Vec<String>) -> (r: MatchError)
        ensures
            with_backtrace(r, self, bt@.map_values(|l: String| l@)),
    {
        let mut s = self;
        s.backtrace = bt;
        s
    }

    /// The same error with `tr` added at the end of its backtrace.
    fn trace(self, tr: String) -> (r: MatchError)
        ensures
            with_backtrace(r, self, self.backtrace_lines().push(tr@)),
            r@ == traced_error(self@, tr@),
    {
        let mut s = self;
        let ghost old_bt = s.backtrace@;
        let ghost trv = tr@;
        s.backtrace.push(tr);
        proof {
            assert(s.backtrace@.map_values(|l: String| l@) =~= old_bt.map_values(|l: String| l@).push(trv));
            lemma_error_view(s);
            lemma_error_view(self);
        }
        s
    }
}

impl<T> SetBacktrace for MatchResult<T> {
    /// The same result, with the backtrace `bt` on an error.
    fn set_backtrace(self, bt: Vec<String>) -> (r: MatchResult<T>)
        ensures
            match (r, self) {
                (Ok(a), Ok(b)) => a == b,
                (Err(e), Err(e0)) => with_backtrace(e, e0, bt@.map_values(|l: String| l@)),
                _ => false,
            },
    {
        match self {
            Ok(x) => Ok(x),
            Err(e) => Err(e.set_backtrace(bt)),
        }
    }

    /// The same result, with `tr` added to the backtrace of an error.
    fn trace(self, tr: String) -> (r: MatchResult<T>)
        ensures
            traced(r, self, tr@),
            match (r, self) {
                (Err(e), Err(e0)) => e@ == traced_error(e0@, tr@),
                _ => true,
            },
    {
        match self {
            Ok(x) => Ok(x),
            Err(e) => Err(e.trace(tr)),
        }
    }
}

/// Runs `f` and adds `msg` to the backtrace of its error, if it fails.
pub fn trace<T>(msg: String, f: impl FnOnce() -> MatchResult<T>) -> (r: MatchResult<T>)
    requires
        f.requires(()),
    ensures
        exists|r0: MatchResult<T>| f.ensures((), r0) && #[trigger] traced(r, r0, msg@),
{
    let r0 = f();
    let r = r0.trace(msg);
    r
}

/// Joins lines with newlines between them.
pub open spec fn join_lines(lines: Seq<Seq<char>>) -> Seq<char>
    decreases lines.len(),
{
    if lines.len() == 0 {
        Seq::empty()
    } else if lines.len() == 1 {
        lines[0]
    } else {
        join_lines(lines.drop_last()) + "\n"@ + lines.last()
    }
}

impl MatchError {
    /// The full text of the error: its message with candidates, then ` at `
    /// and its backtrace, one line per entry.
    pub fn to_display_string(&self) -> (r: String)
        ensures
            r@ == display_spec(*self, Seq::empty(), true) + " at "@ + join_lines(self.backtrace_lines()),
    {
        let mut out = self.display_without_backtrace("", true);
        proof {
            reveal_strlit("");
            assert(""@ =~= Seq::<char>::empty());
        }
        out.append(" at ");
        let ghost prefix = out@;
        let ghost lines = self.backtrace_lines();
        let mut i: usize = 0;
        while i < self.backtrace.len()
            invariant
                i <= self.backtrace@.len(),
                lines == self.backtrace_lines(),
                lines.len() == self.backtrace@.len(),
                forall|k: int| 0 <= k < lines.len() ==> #[trigger] lines[k] == self.backtrace@[k]@,
                out@ == prefix + join_lines(lines.take(i as int)),
            decreases self.backtrace@.len() - i,
        {
            if i > 0 {
                out.append("\n");
            }
            out.append(self.backtrace[i].as_str());
            proof {
                assert(lines.take(i + 1).drop_last() =~= lines.take(i as int));
                if i == 0 {
                    assert(out@ =~= prefix + join_lines(lines.take(i + 1)));
                } else {
                    assert(out@ =~= prefix + join_lines(lines.take(i + 1)));
                }
            }
            i = i + 1;
        }
        proof {
            assert(lines.take(lines.len() as int) =~= lines);
        }
        out
    }
}

} // verus!
