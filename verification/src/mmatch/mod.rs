//! Parsers of the syntax of rule definitions: characters, identifiers,
//! invocations and quoted text.
use vstd::prelude::*;

pub mod semantics;
pub mod match_invocation_string;
pub mod match_rule_variant;
pub mod match_rule;
pub mod match_rule_def;
use vstd::string::*;
use crate::error::{MatchError, MatchResult, expected_msg, ErrorView, plain_error};
use crate::text::{
    strip_str_prefix, strip_char_prefix, split_first_char, skip_chars, take_chars, ident_len,
    lemma_ident_len, count_ident_chars, str_is_empty, char_len_fits, space_len, lemma_space_len,
    count_space_chars, find_char, find_char_in, spec_is_whitespace, char_is_whitespace, str_eq,
    before_newline, trim_start_spec, trim_end_spec,
};
use crate::types::invocation::Invocation;
use crate::types::invocation_string::{InvocationString, InvocationStringView, InvocationView};
use crate::types::rule::{Rule, Rules, RuleView};
use crate::mmatch::semantics::spec_match_last;
use crate::mmatch::match_invocation_string::MAX_RULE_DEPTH;
use crate::util::firstline;
use crate::SWIRL_WHITESPACE_HANDLER_BODY;

verus! {

broadcast use vstd::string::group_string_axioms;

pub type Input = str;

/// A matching function: takes the input and an argument, and returns the
/// input left and a result.
pub trait MatchFn<'a, In, Out>: Fn(&'a Input, In) -> MatchResult<(&'a Input, Out)> {}

impl<'a, F, In, Out> MatchFn<'a, In, Out> for F where F: Fn(&'a Input, In) -> MatchResult<(&'a Input, Out)> {}

/// Matches the character `expect` at the start of `input`.
pub fn match_char(input: &str, expect: char) -> (r: MatchResult<&str>)
    ensures
        match r {
            Ok(rest) => input@.len() > 0 && input@[0] == expect && rest@ == input@.drop_first(),
            Err(e) => !(input@.len() > 0 && input@[0] == expect)
                && e.is_plain(expected_msg(seq![expect], input@))
                && e@ == crate::error::plain_error(expected_msg(seq![expect], input@)),
        },
{
    match strip_char_prefix(input, expect) {
        Some(rest) => Ok(rest),
        None => {
            let mut s = String::new();
            crate::text::push_char(&mut s, expect);
            proof {
                assert(s@ =~= seq![expect]);
            }
            Err(MatchError::expected(s.as_str(), input))
        },
    }
}

/// Matches the text `expect` at the start of `input`.
pub fn match_str<'a>(input: &'a str, expect: &str) -> (r: MatchResult<&'a str>)
    ensures
        match r {
            Ok(rest) => expect@.is_prefix_of(input@) && rest@ == input@.skip(expect@.len() as int),
            Err(e) => !expect@.is_prefix_of(input@) && e.is_plain(expected_msg(expect@, input@))
                && e@ == crate::error::plain_error(expected_msg(expect@, input@)),
        },
{
    match strip_str_prefix(input, expect) {
        Some(rest) => Ok(rest),
        None => Err(MatchError::expected(expect, input)),
    }
}

/// Skips the text `expect` at the start of `input` if it is there, and says whether it was.
pub fn match_maybe_str<'a>(input: &'a str, expect: &str) -> (r: (&'a str, bool))
    ensures
        r.1 == expect@.is_prefix_of(input@),
        r.1 ==> r.0@ == input@.skip(expect@.len() as int),
        !r.1 ==> r.0@ == input@,
{
    match strip_str_prefix(input, expect) {
        Some(rest) => (rest, true),
        None => (input, false),
    }
}

/// Matches an identifier: the longest non-empty run of alphabetic
/// characters, decimal digits and `_`. Returns the rest and the identifier.
pub fn match_ident<'a>(input: &'a str) -> (r: MatchResult<(&'a str, &'a str)>)
    ensures
        match r {
            Ok((rest, ident)) => ident_len(input@) > 0 && ident@ == input@.take(ident_len(input@) as int)
                && rest@ == input@.skip(ident_len(input@) as int),
            Err(e) => ident_len(input@) == 0 && e.is_plain(expected_msg("identifier"@, input@))
                && e@ == crate::error::plain_error(expected_msg("identifier"@, input@)),
        },
{
    let len = count_ident_chars(input);
    proof {
        lemma_ident_len(input@);
    }
    if len == 0 {
        Err(MatchError::expected("identifier", input))
    } else {
        Ok((skip_chars(input, len), take_chars(input, len)))
    }
}

/// The model of `match_var`: `:` and an identifier.
pub open spec fn spec_match_var(s: Seq<char>) -> Result<(Seq<char>, InvocationView), ()> {
    if s.len() > 0 && s[0] == ':' && ident_len(s.drop_first()) > 0 {
        let t = s.drop_first();
        let n = ident_len(t) as int;
        Ok((t.skip(n), InvocationView::Var(t.take(n))))
    } else {
        Err(())
    }
}

/// The message of the error of `match_var` on `s`: the `:` is missing, or
/// the identifier after it.
pub open spec fn var_error_msg(s: Seq<char>) -> Seq<char> {
    if s.len() > 0 && s[0] == ':' {
        expected_msg("identifier"@, s.drop_first())
    } else {
        expected_msg(seq![':'], s)
    }
}

/// `r` is what `match_var` gives on `s`: the model's result, or a plain
/// error with the message `var_error_msg(s)`.
pub open spec fn var_result_matches<'a>(s: Seq<char>, r: MatchResult<(&'a Input, Invocation)>) -> bool {
    match (r, spec_match_var(s)) {
        (Ok((rest, inv)), Ok((srest, sinv))) => rest@ == srest && inv@ == sinv,
        (Err(e), Err(_)) => e@ == crate::error::plain_error(var_error_msg(s)),
        _ => false,
    }
}

/// Matches a variable invocation `:var`.
pub fn match_var<'a>(input: &'a Input) -> (r: MatchResult<(&'a Input, Invocation)>)
    ensures
        var_result_matches(input@, r),
{
    match match_char(input, ':') {
        Ok(rest) => match match_ident(rest) {
            Ok((rest2, ident)) => Ok((rest2, Invocation::new_var_invocation(ident))),
            Err(e) => Err(e),
        },
        Err(e) => Err(e),
    }
}


/// The position in `s` of the `close` that matches an `open` before `s`,
/// where `level` of them are open: each `open` opens one more, each `close`
/// closes one.
pub open spec fn brace_end(s: Seq<char>, open: Seq<char>, close: Seq<char>, level: nat) -> Option<nat>
    decreases s.len(),
{
    if s.len() == 0 || open.len() == 0 || close.len() == 0 {
        None
    } else if open.is_prefix_of(s) {
        match brace_end(s.skip(open.len() as int), open, close, level + 1) {
            Some(k) => Some(k + open.len()),
            None => None,
        }
    } else if close.is_prefix_of(s) {
        if level <= 1 {
            Some(0)
        } else {
            match brace_end(s.skip(close.len() as int), open, close, (level - 1) as nat) {
                Some(k) => Some(k + close.len()),
                None => None,
            }
        }
    } else {
        match brace_end(s.drop_first(), open, close, level) {
            Some(k) => Some(k + 1),
            None => None,
        }
    }
}

pub proof fn lemma_brace_end(s: Seq<char>, open: Seq<char>, close: Seq<char>, level: nat)
    ensures
        brace_end(s, open, close, level) matches Some(k) ==> k + close.len() <= s.len()
            && close.is_prefix_of(s.skip(k as int)),
    decreases s.len(),
{
    if s.len() == 0 || open.len() == 0 || close.len() == 0 {
    } else if open.is_prefix_of(s) {
        lemma_brace_end(s.skip(open.len() as int), open, close, level + 1);
        if let Some(k) = brace_end(s.skip(open.len() as int), open, close, level + 1) {
            assert(s.skip(open.len() as int).skip(k as int) =~= s.skip((k + open.len()) as int));
        }
    } else if close.is_prefix_of(s) {
        if level <= 1 {
            assert(s.skip(0) =~= s);
        } else {
            lemma_brace_end(s.skip(close.len() as int), open, close, (level - 1) as nat);
            if let Some(k) = brace_end(s.skip(close.len() as int), open, close, (level - 1) as nat) {
                assert(s.skip(close.len() as int).skip(k as int) =~= s.skip((k + close.len()) as int));
            }
        }
    } else {
        lemma_brace_end(s.drop_first(), open, close, level);
        if let Some(k) = brace_end(s.drop_first(), open, close, level) {
            assert(s.drop_first().skip(k as int) =~= s.skip((k + 1) as int));
        }
    }
}

/// Finds the `close` that matches the `open` that stands right before `input`,
/// where the text between holds pairs of `open` and `close`.
/// Returns the input from that `close` on, and the text before it.
fn find_matching_brace<'a>(input: &'a Input, open: &str, close: &str) -> (r: MatchResult<(&'a Input, &'a str)>)
    ensures
        match (r, brace_end(input@, open@, close@, 1)) {
            (Ok((rest, text)), Some(k)) => rest@ == input@.skip(k as int) && text@ == input@.take(k as int),
            (Err(e), None) => e.is_plain(expected_msg("Closing brace: '"@ + close@ + "'"@, input@)),
            _ => false,
        },
{
    char_len_fits(input);
    let open_l = open.unicode_len();
    let close_l = close.unicode_len();
    let mut rest = input;
    let mut k: usize = 0;
    let mut depth: usize = 0;
    loop
        invariant
            input@.len() <= usize::MAX,
            open_l == open@.len(),
            close_l == close@.len(),
            k + rest@.len() == input@.len(),
            rest@ == input@.skip(k as int),
            depth <= k,
            brace_end(input@, open@, close@, 1) == match brace_end(rest@, open@, close@, (depth + 1) as nat) {
                Some(j) => Some((j + k) as nat),
                None => None::<nat>,
            },
        decreases rest@.len(),
    {
        if str_is_empty(rest) || open_l == 0 || close_l == 0 {
            let mut m = String::from_str("Closing brace: '");
            m.append(close);
            m.append("'");
            return Err(MatchError::expected(m.as_str(), input));
        }
        let ghost rest0 = rest@;
        match strip_str_prefix(rest, open) {
            Some(r) => {
                assert(open@.len() <= rest0.len());
                rest = r;
                k = k + open_l;
                depth = depth + 1;
                proof {
                    assert(rest@ =~= input@.skip(k as int));
                }
            },
            None => match strip_str_prefix(rest, close) {
                Some(r) => {
                    assert(close@.len() <= rest0.len());
                    if depth == 0 {
                        let text = take_chars(input, k);
                        return Ok((rest, text));
                    }
                    rest = r;
                    k = k + close_l;
                    depth = depth - 1;
                    proof {
                        assert(rest@ =~= input@.skip(k as int));
                    }
                },
                None => {
                    match split_first_char(rest) {
                        Some((_, r)) => {
                            rest = r;
                            k = k + 1;
                            proof {
                                assert(rest@ =~= input@.skip(k as int));
                            }
                        },
                        None => {},
                    }
                },
            },
        }
    }
}

/// The model of `match_escapable_char`: returns the rest, the text, and
/// whether the text was quoted.
pub open spec fn spec_escapable(s: Seq<char>, open: Seq<char>, close: Seq<char>) -> Result<(Seq<char>, Seq<char>, bool), ()> {
    if open.is_prefix_of(s) {
        let inner = s.skip(open.len() as int);
        match brace_end(inner, open, close, 1) {
            Some(k) => Ok((inner.skip((k + close.len()) as int), inner.take(k as int), true)),
            None => Err(()),
        }
    } else if s.len() == 0 {
        Err(())
    } else {
        Ok((s.drop_first(), seq![s[0]], false))
    }
}

/// Matches either one character, or text quoted between `open` and the
/// `close` that matches it. The flag of the result says whether the text was quoted.
pub fn match_escapable_char<'a>(input: &'a Input, open: &str, close: &str) -> (r: MatchResult<(&'a Input, &'a str, bool)>)
    ensures
        match (r, spec_escapable(input@, open@, close@)) {
            (Ok((rest, text, q)), Ok((srest, stext, sq))) => rest@ == srest && text@ == stext && q == sq,
            (Err(e), Err(_)) => !e.unknown_kind(),
            _ => false,
        },
{
    match strip_str_prefix(input, open) {
        Some(inner) => match find_matching_brace(inner, open, close) {
            Ok((closing, contents)) => {
                proof {
                    lemma_brace_end(inner@, open@, close@, 1);
                }
                match strip_str_prefix(closing, close) {
                    Some(after) => {
                        proof {
                            let k = brace_end(inner@, open@, close@, 1)->0;
                            assert(after@ =~= inner@.skip((k + close@.len()) as int));
                        }
                        Ok((after, contents, true))
                    },
                    None => {
                        proof {
                            assert(false);
                        }
                        Err(MatchError::new("End of escape string"))
                    },
                }
            },
            Err(_) => {
                let mut m = String::from_str("End of escape string: '");
                m.append(close);
                m.append("'");
                Err(MatchError::expected(m.as_str(), "<end of file>"))
            },
        },
        None => match split_first_char(input) {
            Some((_, rest)) => {
                let text = take_chars(input, 1);
                proof {
                    assert(text@ =~= seq![input@[0]]);
                }
                Ok((rest, text, false))
            },
            None => Err(MatchError::expected("some char", input)),
        },
    }
}

/// The model of `match_quote`: text quoted as `{'`..`` `} `` or as `'`..`` ` ``;
/// returns the text and the rest.
pub open spec fn spec_quote(s: Seq<char>) -> Option<(Seq<char>, Seq<char>)> {
    if "{'"@.is_prefix_of(s) {
        match spec_escapable(s, "{'"@, "`}"@) {
            Ok((rest, text, _)) => Some((text, rest)),
            Err(_) => None,
        }
    } else if "'"@.is_prefix_of(s) {
        match spec_escapable(s, "'"@, "`"@) {
            Ok((rest, text, _)) => Some((text, rest)),
            Err(_) => None,
        }
    } else {
        None
    }
}

/// Matches quoted text at the start of `input`: `{'`..`` `} `` or `'`..`` ` ``
/// (see `ESCAPE_BRACE_OPEN` and `ESCAPE_BRACE_CLOSE`). Returns the text and the rest.
pub fn match_quote<'a>(input: &'a Input) -> (r: Option<(&'a str, &'a Input)>)
    ensures
        match (r, spec_quote(input@)) {
            (Some((text, rest)), Some((stext, srest))) => text@ == stext && rest@ == srest,
            (None, None) => true,
            _ => false,
        },
{
    let (_, long) = match_maybe_str(input, "{'");
    if long {
        match match_escapable_char(input, "{'", "`}") {
            Ok((rest, text, _)) => Some((text, rest)),
            Err(_) => None,
        }
    } else {
        let (_, short) = match_maybe_str(input, "'");
        if short {
            match match_escapable_char(input, "'", "`") {
                Ok((rest, text, _)) => Some((text, rest)),
                Err(_) => None,
            }
        } else {
            None
        }
    }
}


/// The model of `match_rule_invoc`: `:var:rule(param)`, where `var` and
/// `(param)` may be left out.
pub open spec fn spec_rule_invoc(s: Seq<char>) -> Result<(Seq<char>, InvocationView), ErrorView>
    decreases s.len(), 0nat,
{
    if s.len() > 0 && s[0] == ':' {
        let s1 = s.drop_first();
        let vl = ident_len(s1) as int;
        let var = s1.take(vl);
        let s2 = s1.skip(vl);
        if s2.len() > 0 && s2[0] == ':' && ident_len(s2.drop_first()) > 0 {
            let s3 = s2.drop_first();
            let rl = ident_len(s3) as int;
            let rule = s3.take(rl);
            let s4 = s3.skip(rl);
            if s4.len() < s.len() {
                match spec_def(s4, '(', ')') {
                    Ok((s5, Some(p))) => Ok((s5, InvocationView::Rule(var, rule, p))),
                    Ok((s5, None)) => Ok(
                        (s5, InvocationView::Rule(var, rule, InvocationStringView::empty_view())),
                    ),
                    Err(er) => Err(er),
                }
            } else {
                Err(plain_error(Seq::empty()))
            }
        } else if s2.len() > 0 && s2[0] == ':' {
            Err(plain_error(expected_msg("identifier"@, s2.drop_first())))
        } else {
            Err(plain_error(expected_msg(seq![':'], s2)))
        }
    } else {
        Err(plain_error(expected_msg(seq![':'], s)))
    }
}

/// The model of `match_invocation`: a rule invocation, else a variable invocation.
pub open spec fn spec_invocation(s: Seq<char>) -> Result<(Seq<char>, InvocationView), ()>
    decreases s.len(), 1nat,
{
    match spec_rule_invoc(s) {
        Ok(x) => Ok(x),
        Err(_) => spec_match_var(s),
    }
}

/// The model of `match_invocation_string_def_unchanged`: an invocation string between
/// `b` and the `e` that matches it; `None` where the input does not start with `b`.
pub open spec fn spec_def(s: Seq<char>, b: char, e: char) -> Result<(Seq<char>, Option<InvocationStringView>), ErrorView>
    decreases s.len(), 3nat,
{
    if s.len() > 0 && s[0] == b {
        match spec_def_loop(s.drop_first(), 1, InvocationStringView::empty_view(), b, e) {
            Ok((rest, v)) => Ok((rest, Some(v))),
            Err(er) => Err(er),
        }
    } else {
        Ok((s, None))
    }
}

/// The inside of an invocation string, after `level` unmatched `b`s, with
/// `acc` read so far: quoted text, invocations, and single characters, until
/// the `e` that closes the first `b`.
pub open spec fn spec_def_loop(
    s: Seq<char>,
    level: nat,
    acc: InvocationStringView,
    b: char,
    e: char,
) -> Result<(Seq<char>, InvocationStringView), ErrorView>
    decreases s.len(), 2nat,
{
    match spec_quote(s) {
        Some((text, rest)) => if rest.len() < s.len() {
            spec_def_loop(rest, level, acc.add_str(text), b, e)
        } else {
            Err(plain_error(Seq::empty()))
        },
        None => match spec_invocation(s) {
            Ok((rest, inv)) => if rest.len() < s.len() {
                spec_def_loop(rest, level, acc.add_invoc(inv), b, e)
            } else {
                Err(plain_error(Seq::empty()))
            },
            Err(_) => if s.len() == 0 {
                Err(plain_error("Unexpected end of file"@))
            } else if s[0] == b {
                spec_def_loop(s.drop_first(), level + 1, acc.add_str(seq![b]), b, e)
            } else if s[0] == e {
                if level <= 1 {
                    Ok((s.drop_first(), acc))
                } else {
                    spec_def_loop(s.drop_first(), (level - 1) as nat, acc.add_str(seq![e]), b, e)
                }
            } else {
                spec_def_loop(s.drop_first(), level, acc.add_str(seq![s[0]]), b, e)
            },
        },
    }
}

pub proof fn lemma_spec_quote_shorter(s: Seq<char>)
    ensures
        spec_quote(s) matches Some((t, r)) ==> r.len() < s.len(),
{
    reveal_strlit("{'");
    reveal_strlit("'");
    reveal_strlit("`}");
    reveal_strlit("`");
    if "{'"@.is_prefix_of(s) {
        lemma_brace_end(s.skip(2), "{'"@, "`}"@, 1);
    } else if "'"@.is_prefix_of(s) {
        lemma_brace_end(s.skip(1), "'"@, "`"@, 1);
    }
}

pub proof fn lemma_spec_def_loop_shorter(s: Seq<char>, level: nat, acc: InvocationStringView, b: char, e: char)
    ensures
        spec_def_loop(s, level, acc, b, e) matches Ok((r, _)) ==> r.len() < s.len(),
    decreases s.len(),
{
    match spec_quote(s) {
        Some((text, rest)) => if rest.len() < s.len() {
            lemma_spec_def_loop_shorter(rest, level, acc.add_str(text), b, e);
        },
        None => match spec_invocation(s) {
            Ok((rest, inv)) => if rest.len() < s.len() {
                lemma_spec_def_loop_shorter(rest, level, acc.add_invoc(inv), b, e);
            },
            Err(_) => if s.len() == 0 {
            } else if s[0] == b {
                lemma_spec_def_loop_shorter(s.drop_first(), level + 1, acc.add_str(seq![b]), b, e);
            } else if s[0] == e {
                if level > 1 {
                    lemma_spec_def_loop_shorter(s.drop_first(), (level - 1) as nat, acc.add_str(seq![e]), b, e);
                }
            } else {
                lemma_spec_def_loop_shorter(s.drop_first(), level, acc.add_str(seq![s[0]]), b, e);
            },
        },
    }
}

pub proof fn lemma_spec_def_shorter(s: Seq<char>, b: char, e: char)
    ensures
        spec_def(s, b, e) matches Ok((r, v)) ==> r.len() <= s.len() && (v is Some ==> r.len() < s.len()),
{
    if s.len() > 0 && s[0] == b {
        lemma_spec_def_loop_shorter(s.drop_first(), 1, InvocationStringView::empty_view(), b, e);
    }
}

pub proof fn lemma_spec_invocation_shorter(s: Seq<char>)
    ensures
        spec_invocation(s) matches Ok((r, _)) ==> r.len() < s.len(),
{
    if s.len() > 0 && s[0] == ':' {
        let s1 = s.drop_first();
        lemma_ident_len(s1);
        let vl = ident_len(s1) as int;
        let s2 = s1.skip(vl);
        if s2.len() > 0 && s2[0] == ':' && ident_len(s2.drop_first()) > 0 {
            let s3 = s2.drop_first();
            lemma_ident_len(s3);
            let rl = ident_len(s3) as int;
            let s4 = s3.skip(rl);
            lemma_spec_def_shorter(s4, '(', ')');
        }
    }
}

/// Matches a rule invocation `:var:rule(param)`; `var` may be left out
/// (an anonymous invocation), and so may `(param)`.
pub fn match_rule_invoc<'a>(input: &'a Input) -> (r: MatchResult<(&'a Input, Invocation)>)
    ensures
        match (r, spec_rule_invoc(input@)) {
            (Ok((rest, inv)), Ok((srest, sinv))) => rest@ == srest && inv@ == sinv,
            (Err(e), Err(se)) => e@ == se,
            _ => false,
        },
    decreases input@.len(), 0nat,
{
    let input1 = match match_char(input, ':') {
        Ok(i) => i,
        Err(e) => return Err(e),
    };
    proof {
        lemma_ident_len(input1@);
    }
    let (input2, variable_ident) = match match_ident(input1) {
        Ok(x) => x,
        Err(_) => {
            let empty = take_chars(input1, 0);
            proof {
                assert(input1@.skip(0) =~= input1@);
            }
            (skip_chars(input1, 0), empty)
        },
    };
    let input3 = match match_char(input2, ':') {
        Ok(i) => i,
        Err(e) => return Err(e),
    };
    let (input4, rule_ident) = match match_ident(input3) {
        Ok(x) => x,
        Err(e) => return Err(e),
    };
    proof {
        lemma_ident_len(input3@);
    }
    let (input5, invoc) = match match_invocation_string_def_unchanged(input4, '(', ')') {
        Ok(x) => x,
        Err(e) => return Err(e),
    };
    let invoc = match invoc {
        Some(i) => i,
        None => InvocationString::empty(),
    };
    Ok((input5, Invocation::new_rule_invoc_with_param(variable_ident, rule_ident, invoc)))
}

/// Matches a rule invocation, or else a variable invocation.
pub fn match_invocation<'a>(input: &'a Input) -> (r: MatchResult<(&'a Input, Invocation)>)
    ensures
        match (r, spec_invocation(input@)) {
            (Ok((rest, inv)), Ok((srest, sinv))) => rest@ == srest && inv@ == sinv,
            (Err(e), Err(_)) => e@ == crate::error::plain_error(var_error_msg(input@)),
            _ => false,
        },
    decreases input@.len(), 1nat,
{
    match match_rule_invoc(input) {
        Ok(x) => Ok(x),
        Err(_) => match_var(input),
    }
}

/// Matches an invocation string between `wrap_begin` and the `wrap_end` that
/// matches it: quoted text, invocations and characters, white space left
/// unchanged. Returns `None`, and the input unchanged, where the input does
/// not start with `wrap_begin`.
pub fn match_invocation_string_def_unchanged<'a>(input: &'a Input, wrap_begin: char, wrap_end: char) -> (r: MatchResult<(&'a Input, Option<InvocationString>)>)
    ensures
        match (r, spec_def(input@, wrap_begin, wrap_end)) {
            (Ok((rest, Some(v))), Ok((srest, Some(sv)))) => rest@ == srest && v@ == sv,
            (Ok((rest, None)), Ok((srest, None))) => rest@ == srest,
            (Err(e), Err(se)) => e@ == se,
            _ => false,
        },
    decreases input@.len(), 3nat,
{
    char_len_fits(input);
    let start = match strip_char_prefix(input, wrap_begin) {
        Some(i) => i,
        None => return Ok((input, None)),
    };
    let mut invocation_string = InvocationString::new();
    let mut cur = start;
    let mut depth: usize = 0;
    loop
        invariant
            input@.len() <= usize::MAX,
            input@.len() > 0,
            input@[0] == wrap_begin,
            start@ == input@.drop_first(),
            cur@.len() <= start@.len(),
            depth <= start@.len() - cur@.len(),
            spec_def_loop(cur@, (depth + 1) as nat, invocation_string@, wrap_begin, wrap_end)
                == spec_def_loop(start@, 1, InvocationStringView::empty_view(), wrap_begin, wrap_end),
        decreases cur@.len(),
    {
        let ghost c0 = cur@;
        let ghost acc0 = invocation_string@;
        match match_quote(cur) {
            Some((escaped_txt, rest)) => {
                proof {
                    lemma_spec_quote_shorter(cur@);
                }
                invocation_string.add_str(escaped_txt);
                cur = rest;
            },
            None => match match_invocation(cur) {
                Ok((rest, invo)) => {
                    proof {
                        lemma_spec_invocation_shorter(cur@);
                    }
                    invocation_string.add_invoc(invo);
                    cur = rest;
                },
                Err(_) => match split_first_char(cur) {
                    None => {
                        proof {
                            assert(spec_def_loop(cur@, (depth + 1) as nat, invocation_string@, wrap_begin, wrap_end) is Err);
                        }
                        return Err(MatchError::new("Unexpected end of file"));
                    },
                    Some((c, rest)) => {
                        if c == wrap_begin {
                            depth = depth + 1;
                            invocation_string.add_char(wrap_begin);
                            cur = rest;
                        } else if c == wrap_end {
                            if depth == 0 {
                                proof {
                                    assert(spec_def_loop(cur@, 1, invocation_string@, wrap_begin, wrap_end)
                                        == Ok::<(Seq<char>, InvocationStringView), ErrorView>((rest@, invocation_string@)));
                                }
                                let s = invocation_string.seal();
                                return Ok((rest, Some(s)));
                            }
                            depth = depth - 1;
                            invocation_string.add_char(wrap_end);
                            cur = rest;
                        } else {
                            invocation_string.add_char(c);
                            cur = rest;
                        }
                    },
                },
            },
        }
    }
}


/// The text before the first `e` in `t` (or, with `no_new_line` unset,
/// before the first newline) is white space: the closing brace, or the end
/// of the line, follows only white space.
pub open spec fn ws_end(t: Seq<char>, e: char, no_new_line: bool) -> bool {
    match find_char(t, '\n') {
        None => match find_char(t, e) {
            Some(i) => i > 0 && space_len(t) >= i,
            None => false,
        },
        Some(nl) => match find_char(t, e) {
            Some(i) => if no_new_line {
                i > 0 && space_len(t) >= i
            } else {
                space_len(t) >= nl || (i > 0 && space_len(t) >= i)
            },
            None => false,
        },
    }
}

/// Where white space stands in an invocation string, as the white-space
/// handler rule is told: at its `begin`, at its `end` (only white space up
/// to the closing brace, at the outer level), `between lines` (only white
/// space up to the end of the line), or `within line`.
pub open spec fn ws_param(t: Seq<char>, begin: Seq<char>, level: nat, e: char) -> Seq<char> {
    if t == begin {
        "begin"@
    } else if ws_end(t, e, true) && level == 1 {
        "end"@
    } else if ws_end(t, e, false) {
        "between lines"@
    } else {
        "within line"@
    }
}

/// What a run of white space becomes: the handler rule is applied to all of
/// it with the place as parameter, and its result, between parentheses, is
/// read as an invocation string whose own white space goes through the
/// body handler `SWIRL_WHITESPACE_HANDLER_BODY`; `depth` bounds how deeply
/// such readings nest.
pub open spec fn spec_ws_result(
    run: Seq<char>,
    param: Seq<char>,
    rules: Map<Seq<char>, RuleView>,
    handler: Seq<char>,
    depth: nat,
) -> Result<InvocationStringView, ErrorView>
    decreases depth, 0nat,
{
    match spec_match_last(rules[handler], run, param, rules, MAX_RULE_DEPTH as nat) {
        Ok((rest, res)) => if rest.len() != 0 {
            Err(plain_error(expected_msg("white space handled in full"@, rest)))
        } else if depth == 0 {
            Err(plain_error("White space handlers nest too deep"@))
        } else {
            match spec_def_ws(seq!['('] + res + seq![')'], '(', ')', rules, SWIRL_WHITESPACE_HANDLER_BODY@, (depth - 1) as nat) {
                Ok((r2, Some(v))) => if r2.len() == 0 {
                    Ok(v)
                } else {
                    Err(plain_error(expected_msg("end of white space handler result"@, r2)))
                },
                Ok((_, None)) => Err(plain_error("white space handler result not read"@)),
                Err(e) => Err(e),
            }
        },
        Err(e) => Err(e),
    }
}

/// The inside of an invocation string whose white space goes through the
/// handler rule `handler` (see `spec_def_loop`); `begin` is the text right
/// after the opening `b`. Where white space is met and the handler rule is
/// not defined, the error names the first line of `begin`.
pub open spec fn spec_def_ws_loop(
    s: Seq<char>,
    level: nat,
    acc: InvocationStringView,
    b: char,
    e: char,
    rules: Map<Seq<char>, RuleView>,
    handler: Seq<char>,
    begin: Seq<char>,
    depth: nat,
) -> Result<(Seq<char>, InvocationStringView), ErrorView>
    decreases depth, s.len(),
{
    match spec_quote(s) {
        Some((text, rest)) => if rest.len() < s.len() {
            spec_def_ws_loop(rest, level, acc.add_str(text), b, e, rules, handler, begin, depth)
        } else {
            Err(plain_error(Seq::empty()))
        },
        None => match spec_invocation(s) {
            Ok((rest, inv)) => if rest.len() < s.len() {
                spec_def_ws_loop(rest, level, acc.add_invoc(inv), b, e, rules, handler, begin, depth)
            } else {
                Err(plain_error(Seq::empty()))
            },
            Err(_) => if s.len() == 0 {
                Err(plain_error("Unexpected end of file"@))
            } else if s[0] == b {
                spec_def_ws_loop(s.drop_first(), level + 1, acc.add_str(seq![b]), b, e, rules, handler, begin, depth)
            } else if s[0] == e {
                if level <= 1 {
                    Ok((s.drop_first(), acc))
                } else {
                    spec_def_ws_loop(s.drop_first(), (level - 1) as nat, acc.add_str(seq![e]), b, e, rules, handler, begin, depth)
                }
            } else if spec_is_whitespace(s[0]) {
                if !rules.contains_key(handler) {
                    Err(plain_error(
                        "white space handler not defined at "@ + before_newline(trim_end_spec(trim_start_spec(begin))),
                    ))
                } else {
                    let n = space_len(s) as int;
                    proof {
                        lemma_space_len(s);
                    }
                    match spec_ws_result(s.take(n), ws_param(s, begin, level, e), rules, handler, depth) {
                        Ok(v) => spec_def_ws_loop(s.skip(n), level, acc.add_parts(v.parts()), b, e, rules, handler, begin, depth),
                        Err(e) => Err(e),
                    }
                }
            } else {
                spec_def_ws_loop(s.drop_first(), level, acc.add_str(seq![s[0]]), b, e, rules, handler, begin, depth)
            },
        },
    }
}

/// The model of `match_invocation_string_def`.
pub open spec fn spec_def_ws(
    s: Seq<char>,
    b: char,
    e: char,
    rules: Map<Seq<char>, RuleView>,
    handler: Seq<char>,
    depth: nat,
) -> Result<(Seq<char>, Option<InvocationStringView>), ErrorView>
    decreases depth, s.len(),
{
    if s.len() > 0 && s[0] == b {
        match spec_def_ws_loop(s.drop_first(), 1, InvocationStringView::empty_view(), b, e, rules, handler, s.drop_first(), depth) {
            Ok((rest, v)) => Ok((rest, Some(v))),
            Err(e) => Err(e),
        }
    } else {
        Ok((s, None))
    }
}

/// Where white space stands (see `ws_param`).
fn ws_place(t: &str, begin: &str, level: usize, e: char) -> (r: &'static str)
    ensures
        r@ == ws_param(t@, begin@, level as nat, e),
{
    proof {
        reveal_strlit("begin");
        reveal_strlit("end");
        reveal_strlit("between lines");
        reveal_strlit("within line");
    }
    if str_eq(t, begin) {
        "begin"
    } else if white_space_to_end(t, e, true) && level == 1 {
        "end"
    } else if white_space_to_end(t, e, false) {
        "between lines"
    } else {
        "within line"
    }
}

/// See `ws_end`.
fn white_space_to_end(t: &str, e: char, no_new_line: bool) -> (r: bool)
    ensures
        r == ws_end(t@, e, no_new_line),
{
    let spaces = count_space_chars(t);
    match find_char_in(t, '\n') {
        None => match find_char_in(t, e) {
            Some(i) => i > 0 && spaces >= i,
            None => false,
        },
        Some(nl) => match find_char_in(t, e) {
            Some(i) => if no_new_line {
                i > 0 && spaces >= i
            } else {
                spaces >= nl || (i > 0 && spaces >= i)
            },
            None => false,
        },
    }
}

/// Applies the handler rule to a run of white space (see `spec_ws_result`).
fn handle_white_space(
    run: &str,
    param: &str,
    rules: &Rules,
    handler_name: &str,
    handler: &Rule,
    depth: usize,
) -> (r: MatchResult<InvocationString>)
    requires
        rules@.contains_key(handler_name@),
        rules@[handler_name@] == handler@,
    ensures
        match (r, spec_ws_result(run@, param@, rules@, handler_name@, depth as nat)) {
            (Ok(v), Ok(sv)) => v@ == sv,
            (Err(e), Err(se)) => e@ == se,
            _ => false,
        },
    decreases depth, 0nat,
{
    let (rest, result) = match handler.match_last(run, param, rules) {
        Ok(x) => x,
        Err(e) => return Err(e),
    };
    if !rest.is_empty() {
        return Err(MatchError::expected("white space handled in full", rest));
    }
    if depth == 0 {
        return Err(MatchError::new("White space handlers nest too deep"));
    }
    let mut wrapped = String::from_str("(");
    wrapped.append(result.as_str());
    wrapped.append(")");
    proof {
        reveal_strlit("(");
        reveal_strlit(")");
        assert(wrapped@ =~= seq!['('] + result@ + seq![')']);
    }
    match match_istr_def_bounded(wrapped.as_str(), rules, '(', ')', SWIRL_WHITESPACE_HANDLER_BODY, depth - 1) {
        Ok((r2, Some(v))) => if r2.is_empty() {
            Ok(v)
        } else {
            Err(MatchError::expected("end of white space handler result", r2))
        },
        Ok((_, None)) => Err(MatchError::new("white space handler result not read")),
        Err(e) => Err(e),
    }
}

/// `match_invocation_string_def` where handler results nest at most
/// `depth` deep.
fn match_istr_def_bounded<'a>(
    input: &'a Input,
    rules: &Rules,
    wrap_begin: char,
    wrap_end: char,
    whitespace_handling_rule: &str,
    depth: usize,
) -> (r: MatchResult<(&'a Input, Option<InvocationString>)>)
    ensures
        match (r, spec_def_ws(input@, wrap_begin, wrap_end, rules@, whitespace_handling_rule@, depth as nat)) {
            (Ok((rest, Some(v))), Ok((srest, Some(sv)))) => rest@ == srest && v@ == sv,
            (Ok((rest, None)), Ok((srest, None))) => rest@ == srest,
            (Err(e), Err(se)) => e@ == se,
            _ => false,
        },
    decreases depth, 1nat,
{
    char_len_fits(input);
    let start = match strip_char_prefix(input, wrap_begin) {
        Some(i) => i,
        None => return Ok((input, None)),
    };
    let ghost rv = rules@;
    let ghost h = whitespace_handling_rule@;
    let mut invocation_string = InvocationString::new();
    let mut cur = start;
    let mut level: usize = 0;
    loop
        invariant
            input@.len() <= usize::MAX,
            input@.len() > 0,
            input@[0] == wrap_begin,
            start@ == input@.drop_first(),
            rv == rules@,
            h == whitespace_handling_rule@,
            cur@.len() <= start@.len(),
            level <= start@.len() - cur@.len(),
            spec_def_ws_loop(cur@, (level + 1) as nat, invocation_string@, wrap_begin, wrap_end, rv, h, start@, depth as nat)
                == spec_def_ws_loop(start@, 1, InvocationStringView::empty_view(), wrap_begin, wrap_end, rv, h, start@, depth as nat),
        decreases cur@.len(),
    {
        match match_quote(cur) {
            Some((escaped_txt, rest)) => {
                proof {
                    lemma_spec_quote_shorter(cur@);
                }
                invocation_string.add_str(escaped_txt);
                cur = rest;
            },
            None => match match_invocation(cur) {
                Ok((rest, invo)) => {
                    proof {
                        lemma_spec_invocation_shorter(cur@);
                    }
                    invocation_string.add_invoc(invo);
                    cur = rest;
                },
                Err(_) => match split_first_char(cur) {
                    None => {
                        return Err(MatchError::new("Unexpected end of file"));
                    },
                    Some((c, rest)) => {
                        if c == wrap_begin {
                            level = level + 1;
                            invocation_string.add_char(wrap_begin);
                            cur = rest;
                        } else if c == wrap_end {
                            if level == 0 {
                                let s = invocation_string.seal();
                                return Ok((rest, Some(s)));
                            }
                            level = level - 1;
                            invocation_string.add_char(wrap_end);
                            cur = rest;
                        } else if char_is_whitespace(c) {
                            let handler = match rules.get(whitespace_handling_rule) {
                                Some(rule) => rule,
                                None => {
                                    let mut m = String::from_str("white space handler not defined at ");
                                    m.append(firstline(start));
                                    proof {
                                        reveal_strlit("white space handler not defined at ");
                                    }
                                    return Err(MatchError::new(m.as_str()));
                                },
                            };
                            let n = count_space_chars(cur);
                            proof {
                                lemma_space_len(cur@);
                            }
                            let run = take_chars(cur, n);
                            let after = skip_chars(cur, n);
                            let param = ws_place(cur, start, level + 1, wrap_end);
                            let handled = match handle_white_space(run, param, rules, whitespace_handling_rule, handler, depth) {
                                Ok(v) => v,
                                Err(e) => return Err(e),
                            };
                            invocation_string.add_invoc_str(&handled);
                            cur = after;
                        } else {
                            invocation_string.add_char(c);
                            cur = rest;
                        }
                    },
                },
            },
        }
    }
}

/// Matches an invocation string between `wrap_begin` and the `wrap_end` that
/// matches it: quoted text, invocations and characters. Each run of white
/// space goes through the rule `whitespace_handling_rule`, which gets the
/// place of the run as parameter (see `ws_param`) and must match all of it;
/// its result, read between parentheses as an invocation string whose white
/// space goes through `SWIRL_WHITESPACE_HANDLER_BODY` (see `spec_ws_result`),
/// stands in place of the run. Where that rule is not defined, white space
/// is an error that names the first line after `wrap_begin`. Returns `None`,
/// and the input unchanged, where the input does not start with `wrap_begin`.
pub fn match_invocation_string_def<'a>(
    input: &'a Input,
    rules: &Rules,
    wrap_begin: char,
    wrap_end: char,
    whitespace_handling_rule: &str,
) -> (r: MatchResult<(&'a Input, Option<InvocationString>)>)
    ensures
        match (r, spec_def_ws(input@, wrap_begin, wrap_end, rules@, whitespace_handling_rule@, MAX_RULE_DEPTH as nat)) {
            (Ok((rest, Some(v))), Ok((srest, Some(sv)))) => rest@ == srest && v@ == sv,
            (Ok((rest, None)), Ok((srest, None))) => rest@ == srest,
            (Err(e), Err(se)) => e@ == se,
            _ => false,
        },
{
    match_istr_def_bounded(input, rules, wrap_begin, wrap_end, whitespace_handling_rule, MAX_RULE_DEPTH)
}

/// The model of `match_escapable_char_old`: one character, or the character
/// after `escape`.
pub open spec fn spec_escapable_old(s: Seq<char>, escape: char) -> Option<(Seq<char>, char)> {
    if s.len() == 0 {
        None
    } else if s[0] == escape {
        if s.len() >= 2 {
            Some((s.skip(2), s[1]))
        } else {
            None
        }
    } else {
        Some((s.drop_first(), s[0]))
    }
}

/// Matches one character; where it is `escape`, the character after it instead.
pub fn match_escapable_char_old(input: &Input, escape: char) -> (r: MatchResult<(&Input, char)>)
    ensures
        match (r, spec_escapable_old(input@, escape)) {
            (Ok((rest, c)), Some((srest, sc))) => rest@ == srest && c == sc,
            (Err(e), None) => e.is_plain(expected_msg("some char"@, Seq::empty())),
            _ => false,
        },
{
    match split_first_char(input) {
        None => Err(MatchError::expected("some char", input)),
        Some((c1, rest)) => {
            if c1 == escape {
                match split_first_char(rest) {
                    None => Err(MatchError::expected("some char", rest)),
                    Some((c2, rest2)) => {
                        proof {
                            assert(rest2@ =~= input@.skip(2));
                        }
                        Ok((rest2, c2))
                    },
                }
            } else {
                Ok((rest, c1))
            }
        },
    }
}

/// Space, newline and tab: the white space that `match_whitespace` matches.
pub open spec fn is_blank(c: char) -> bool {
    c == ' ' || c == '\n' || c == '\t'
}

/// Matches one space, newline or tab.
pub fn match_whitespace(input: &Input) -> (r: MatchResult<&Input>)
    ensures
        match r {
            Ok(rest) => input@.len() > 0 && is_blank(input@[0]) && rest@ == input@.drop_first(),
            Err(e) => !(input@.len() > 0 && is_blank(input@[0]))
                && e.is_plain(expected_msg("whitespace"@, input@)),
        },
{
    match split_first_char(input) {
        Some((c, rest)) => {
            if c == ' ' || c == '\n' || c == '\t' {
                Ok(rest)
            } else {
                Err(MatchError::expected("whitespace", input))
            }
        },
        None => Err(MatchError::expected("whitespace", input)),
    }
}

/// `s` without its leading spaces, newlines and tabs.
pub open spec fn skip_blanks(s: Seq<char>) -> Seq<char>
    decreases s.len(),
{
    if s.len() > 0 && is_blank(s[0]) {
        skip_blanks(s.drop_first())
    } else {
        s
    }
}

/// Skips all leading spaces, newlines and tabs; never fails.
pub fn match_whitespaces(input: &Input) -> (r: MatchResult<&Input>)
    ensures
        r matches Ok(rest) && rest@ == skip_blanks(input@),
{
    let mut cur = input;
    loop
        invariant
            skip_blanks(cur@) == skip_blanks(input@),
        decreases cur@.len(),
    {
        match match_whitespace(cur) {
            Ok(rest) => {
                cur = rest;
            },
            Err(_) => {
                return Ok(cur);
            },
        }
    }
}

/// Skipping white space twice is skipping it once, and what is left does
/// not start with white space.
pub proof fn law_skip_blanks_idempotent(s: Seq<char>)
    ensures
        skip_blanks(skip_blanks(s)) == skip_blanks(s),
        !(skip_blanks(s).len() > 0 && is_blank(skip_blanks(s)[0])),
    decreases s.len(),
{
    if s.len() > 0 && is_blank(s[0]) {
        law_skip_blanks_idempotent(s.drop_first());
    }
}

/// Any character can be written escaped, and a character other than the
/// escape character can also be written as itself.
pub proof fn law_escaped_char(c: char, escape: char, rest: Seq<char>)
    ensures
        spec_escapable_old(seq![escape, c] + rest, escape) == Some((rest, c)),
        c != escape ==> spec_escapable_old(seq![c] + rest, escape) == Some((rest, c)),
{
    assert((seq![escape, c] + rest).skip(2) =~= rest);
    assert((seq![c] + rest).drop_first() =~= rest);
}

/// `match_rule_invoc` with an unused argument, for callers that pass one.
pub fn match_rule_invoc_<'a>(input: &'a Input, _unused: &()) -> (r: MatchResult<(&'a Input, Invocation)>)
    ensures
        match (r, spec_rule_invoc(input@)) {
            (Ok((rest, inv)), Ok((srest, sinv))) => rest@ == srest && inv@ == sinv,
            (Err(e), Err(se)) => e@ == se,
            _ => false,
        },
{
    match_rule_invoc(input)
}

/// `match_var` with an unused argument, for callers that pass one.
pub fn match_var_<'a>(input: &'a Input, _unused: &()) -> (r: MatchResult<(&'a Input, Invocation)>)
    ensures
        var_result_matches(input@, r),
{
    match_var(input)
}

/// `match_var_` and `match_var` give the same on every input: where the
/// results `r1` and `r2` are what they give on `s`, both succeed with the
/// same rest and invocation, or both fail with the same error.
pub proof fn law_match_var_same<'a>(s: Seq<char>, r1: MatchResult<(&'a Input, Invocation)>, r2: MatchResult<(&'a Input, Invocation)>)
    requires
        var_result_matches(s, r1),
        var_result_matches(s, r2),
    ensures
        match (r1, r2) {
            (Ok((rest1, inv1)), Ok((rest2, inv2))) => rest1@ == rest2@ && inv1@ == inv2@,
            (Err(e1), Err(e2)) => e1@ == e2@,
            _ => false,
        },
{
}

} // verus!
