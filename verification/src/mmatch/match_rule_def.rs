//! Parsing rule definitions `%: (flags) name (flags) (parameter header)
//! {header} -> {body} (catch unknown rule) {catch body}` and file
//! invocations `%: filename`.
use vstd::prelude::*;
use vstd::string::*;
use crate::error::{MatchError, MatchResult, SetBacktrace, ErrorView, plain_error, traced_error, expected_msg};
use crate::text::{
    ident_len, lemma_ident_len, word_len, lemma_word_len, count_word_chars, skip_chars, take_chars,
};
use crate::util::{input_view, input_view_spec};
use crate::types::invocation_string::{InvocationString, InvocationStringView};
use crate::types::rule_variant::{
    RuleVariant, RuleVariantView, opt_view, flags_set, lemma_flags_set_empty, lemma_flags_set_push, verify_error,
};
use crate::mmatch::match_invocation_string::MAX_RULE_DEPTH;
use crate::mmatch::{
    Input, match_char, match_str, match_ident, match_whitespaces, match_invocation_string_def,
    skip_blanks, spec_def_ws,
};
use crate::types::rule::{Rules, RuleView};
use crate::{
    RULE_DEFINITION_KEY, SWIRL_WHITESPACE_HANDLER_PARAM_HEADER, SWIRL_WHITESPACE_HANDLER_HEADER,
    SWIRL_WHITESPACE_HANDLER_BODY, SWIRL_WHITESPACE_HANDLER_CATCH_BODY,
};

verus! {

broadcast use vstd::string::group_string_axioms;

/// `skip_blanks` never makes a text longer.
pub proof fn lemma_skip_blanks_len(s: Seq<char>)
    ensures
        skip_blanks(s).len() <= s.len(),
    decreases s.len(),
{
    if s.len() > 0 && crate::mmatch::is_blank(s[0]) {
        lemma_skip_blanks_len(s.drop_first());
    }
}

/// The model of `match_variant_flag`: `(`, an identifier and `)`.
pub open spec fn spec_variant_flag(s: Seq<char>) -> Option<(Seq<char>, Seq<char>)> {
    if s.len() > 0 && s[0] == '(' && ident_len(s.drop_first()) > 0 {
        let t = s.drop_first();
        let n = ident_len(t) as int;
        let u = t.skip(n);
        if u.len() > 0 && u[0] == ')' {
            Some((u.drop_first(), t.take(n)))
        } else {
            None
        }
    } else {
        None
    }
}

/// The error of `match_variant_flag` on `s` where it holds no flag: the
/// `(`, the identifier or the `)` is missing.
pub open spec fn variant_flag_error(s: Seq<char>) -> ErrorView {
    if !(s.len() > 0 && s[0] == '(') {
        plain_error(expected_msg(seq!['('], s))
    } else if ident_len(s.drop_first()) == 0 {
        plain_error(expected_msg("identifier"@, s.drop_first()))
    } else {
        plain_error(expected_msg(seq![')'], s.drop_first().skip(ident_len(s.drop_first()) as int)))
    }
}

pub proof fn lemma_variant_flag_shorter(s: Seq<char>)
    ensures
        spec_variant_flag(s) matches Some((r, _)) ==> r.len() < s.len(),
{
    if s.len() > 0 {
        lemma_ident_len(s.drop_first());
    }
}

/// Flags one after the other, each followed by white space; `acc` holds
/// those read before. Returns the rest and all flags.
pub open spec fn spec_flags(s: Seq<char>, acc: Set<Seq<char>>) -> (Seq<char>, Set<Seq<char>>)
    decreases s.len(),
{
    match spec_variant_flag(s) {
        Some((rest, f)) => {
            proof {
                lemma_variant_flag_shorter(s);
                lemma_skip_blanks_len(rest);
            }
            spec_flags(skip_blanks(rest), acc.insert(f))
        },
        None => (s, acc),
    }
}

/// The start of a rule definition: flags, the rule name (empty for an
/// unnamed rule), white space and flags again. Returns the rest, the name
/// and the flags.
pub open spec fn spec_def_head(s: Seq<char>) -> (Seq<char>, Seq<char>, Set<Seq<char>>) {
    let (s1, f1) = spec_flags(s, Set::empty());
    let n = ident_len(s1) as int;
    let (s3, f2) = spec_flags(skip_blanks(s1.skip(n)), f1);
    (s3, s1.take(n), f2)
}

/// Reading flags with some already read gives the same rest, and those
/// flags together with the ones read from nothing.
pub proof fn lemma_flags_acc(s: Seq<char>, acc: Set<Seq<char>>)
    ensures
        spec_flags(s, acc).0 == spec_flags(s, Set::empty()).0,
        spec_flags(s, acc).1 == acc.union(spec_flags(s, Set::empty()).1),
    decreases s.len(),
{
    match spec_variant_flag(s) {
        Some((rest, f)) => {
            lemma_variant_flag_shorter(s);
            lemma_skip_blanks_len(rest);
            lemma_flags_acc(skip_blanks(rest), acc.insert(f));
            lemma_flags_acc(skip_blanks(rest), Set::empty().insert(f));
            assert(acc.insert(f).union(spec_flags(skip_blanks(rest), Set::empty()).1)
                =~= acc.union(Set::empty().insert(f).union(spec_flags(skip_blanks(rest), Set::empty()).1)));
        },
        None => {
            assert(acc.union(Set::<Seq<char>>::empty()) =~= acc);
        },
    }
}

/// The flags of a definition are all the flags written before its rule
/// name and all those written after it: each flag right after the name
/// (and its white space) is among them, and so is each flag before it.
pub proof fn law_def_head_flags(s: Seq<char>)
    ensures
        ({
            let (s1, f1) = spec_flags(s, Set::empty());
            let after = skip_blanks(s1.skip(ident_len(s1) as int));
            &&& spec_def_head(s).2 == f1.union(spec_flags(after, Set::empty()).1)
            &&& spec_variant_flag(after) matches Some((_, f)) ==> spec_def_head(s).2.contains(f)
            &&& forall|g: Seq<char>| f1.contains(g) ==> spec_def_head(s).2.contains(g)
        }),
{
    let (s1, f1) = spec_flags(s, Set::empty());
    let after = skip_blanks(s1.skip(ident_len(s1) as int));
    lemma_flags_acc(after, f1);
    if let Some((rest, f)) = spec_variant_flag(after) {
        lemma_variant_flag_shorter(after);
        lemma_skip_blanks_len(rest);
        lemma_flags_acc(skip_blanks(rest), Set::empty().insert(f));
    }
}

/// The flags pass the checks of `verify` for a rule of the name `name`.
pub open spec fn flags_ok(flags: Set<Seq<char>>, name: Seq<char>) -> bool {
    !(flags.contains("once"@) && name.len() > 0) && !flags.contains("debug"@)
}

/// The end of a rule definition with a body: white space and, where
/// `(catch unknown rule)` follows, white space and the catch body.
pub open spec fn spec_catch_part(s: Seq<char>, rules: Map<Seq<char>, RuleView>) -> Result<(Seq<char>, Option<InvocationStringView>), ErrorView> {
    let s10 = skip_blanks(s);
    if "(catch unknown rule)"@.is_prefix_of(s10) {
        let start = skip_blanks(s10.skip(20));
        match spec_def_ws(start, '{', '}', rules, SWIRL_WHITESPACE_HANDLER_CATCH_BODY@, MAX_RULE_DEPTH as nat) {
            Ok((s11, Some(c))) => Ok((s11, Some(c))),
            Ok((_, None)) => Err(plain_error(expected_msg("Catch Body"@, start))),
            Err(e) => Err(e),
        }
    } else {
        Ok((s10, None))
    }
}

/// The end of a rule definition, after its header `h` (`None` where it was
/// not given): either `->`, white space, the body and the catch part, or
/// nothing where the header was given. The variant must pass `verify`.
pub open spec fn spec_def_tail(
    s7: Seq<char>,
    name: Seq<char>,
    flags: Set<Seq<char>>,
    ph: Option<InvocationStringView>,
    h: Option<InvocationStringView>,
    rules: Map<Seq<char>, RuleView>,
) -> Result<(Seq<char>, (Seq<char>, RuleVariantView)), ErrorView> {
    let header = match h {
        Some(x) => x,
        None => InvocationStringView::empty_view(),
    };
    if "->"@.is_prefix_of(s7) {
        let s8 = skip_blanks(s7.skip(2));
        match spec_def_ws(s8, '{', '}', rules, SWIRL_WHITESPACE_HANDLER_BODY@, MAX_RULE_DEPTH as nat) {
            Ok((s9, Some(body))) => match spec_catch_part(s9, rules) {
                Err(e) => Err(e),
                Ok((s12, catch)) => {
                    let v = RuleVariantView {
                        parameter_header: ph,
                        header: header,
                        body: Some(body),
                        flags: flags,
                        catch_unknown_rule: catch,
                    };
                    if flags_ok(flags, name) {
                        Ok((s12, (name, v)))
                    } else {
                        Err(verify_error(name, v))
                    }
                },
            },
            Ok((s9, None)) => Err(plain_error(expected_msg("rule body"@, s9))),
            Err(e) => Err(e),
        }
    } else if h is Some {
        let v = RuleVariantView {
            parameter_header: ph,
            header: header,
            body: None,
            flags: flags,
            catch_unknown_rule: None,
        };
        if flags_ok(flags, name) {
            Ok((s7, (name, v)))
        } else {
            Err(verify_error(name, v))
        }
    } else {
        Err(plain_error("This is not a rule definition."@))
    }
}

/// The model of `match_inner_rule_definition`: the rest of the input, the
/// rule name and the variant.
pub open spec fn spec_inner_def(s: Seq<char>, rules: Map<Seq<char>, RuleView>) -> Result<(Seq<char>, (Seq<char>, RuleVariantView)), ErrorView> {
    let (s3, name, flags) = spec_def_head(s);
    match spec_def_ws(s3, '(', ')', rules, SWIRL_WHITESPACE_HANDLER_PARAM_HEADER@, MAX_RULE_DEPTH as nat) {
        Err(e) => Err(e),
        Ok((s4, ph)) => match spec_def_ws(skip_blanks(s4), '{', '}', rules, SWIRL_WHITESPACE_HANDLER_HEADER@, MAX_RULE_DEPTH as nat) {
            Err(e) => Err(e),
            Ok((s6, h)) => spec_def_tail(skip_blanks(s6), name, flags, ph, h, rules),
        },
    }
}

/// `spec_inner_def`, where an error gets the start of the input added to
/// its backtrace (see `input_view_spec`).
pub open spec fn spec_traced_inner_def(s: Seq<char>, rules: Map<Seq<char>, RuleView>) -> Result<(Seq<char>, (Seq<char>, RuleVariantView)), ErrorView> {
    match spec_inner_def(s, rules) {
        Ok(x) => Ok(x),
        Err(e) => Err(traced_error(e, input_view_spec(s))),
    }
}

/// The model of `match_rule_definition`: `%:`, white space and the rest of
/// a rule definition.
#[verifier::opaque]
pub open spec fn spec_rule_definition(s: Seq<char>, rules: Map<Seq<char>, RuleView>) -> Result<(Seq<char>, (Seq<char>, RuleVariantView)), ErrorView> {
    if "%:"@.is_prefix_of(s) {
        spec_traced_inner_def(skip_blanks(s.skip(2)), rules)
    } else {
        Err(plain_error(expected_msg("%:"@, s)))
    }
}

/// The error of `match_file_invocation` on `s` where it is no file
/// invocation.
pub open spec fn file_invocation_error(s: Seq<char>, rules: Map<Seq<char>, RuleView>) -> ErrorView {
    if spec_rule_definition(s, rules) is Ok {
        plain_error(expected_msg("file invocation (instead got rule definition)"@, s))
    } else {
        plain_error(expected_msg("%:"@, s))
    }
}

/// The model of `match_file_invocation`: `%:`, white space and a file name
/// (the characters up to the next white space), where the input is no rule
/// definition. Returns the rest and the file name.
pub open spec fn spec_file_invocation(s: Seq<char>, rules: Map<Seq<char>, RuleView>) -> Option<(Seq<char>, Seq<char>)> {
    if spec_rule_definition(s, rules) is Ok || !"%:"@.is_prefix_of(s) {
        None
    } else {
        let t = skip_blanks(s.skip(2));
        let n = word_len(t) as int;
        Some((t.skip(n), t.take(n)))
    }
}

/// Matches a file invocation `%: filename`: the file name runs up to the
/// next white space. A rule definition is no file invocation.
pub fn match_file_invocation<'a>(input: &'a Input, rules: &Rules) -> (r: MatchResult<(&'a Input, &'a str)>)
    ensures
        match (r, spec_file_invocation(input@, rules@)) {
            (Ok((rest, name)), Some((srest, sname))) => rest@ == srest && name@ == sname,
            (Err(e), None) => e@ == file_invocation_error(input@, rules@),
            _ => false,
        },
{
    if match_rule_definition(input, rules).is_ok() {
        return Err(MatchError::expected("file invocation (instead got rule definition)", input));
    }
    let input = match match_str(input, RULE_DEFINITION_KEY) {
        Ok(i) => i,
        Err(e) => return Err(e),
    };
    proof {
        reveal_strlit("%:");
    }
    let input = match match_whitespaces(input) {
        Ok(i) => i,
        Err(e) => return Err(e),
    };
    let filename_end = count_word_chars(input);
    proof {
        lemma_word_len(input@);
    }
    let filename = take_chars(input, filename_end);
    let rest = skip_chars(input, filename_end);
    Ok((rest, filename))
}

/// Matches `%:`, white space and the rest of a rule definition (see
/// `match_inner_rule_definition`).
pub fn match_rule_definition<'a>(input: &'a Input, rules: &Rules) -> (r: MatchResult<(&'a Input, (String, RuleVariant))>)
    ensures
        match (r, spec_rule_definition(input@, rules@)) {
            (Ok((rest, (name, v))), Ok((srest, (sname, sv)))) => rest@ == srest && name@ == sname && v@ == sv,
            (Err(e), Err(se)) => e@ == se,
            _ => false,
        },
{
    proof {
        reveal_strlit("%:");
        reveal(spec_rule_definition);
    }
    let input = match match_str(input, RULE_DEFINITION_KEY) {
        Ok(i) => i,
        Err(e) => return Err(e),
    };
    let input = match match_whitespaces(input) {
        Ok(i) => i,
        Err(e) => return Err(e),
    };
    match_inner_rule_definition(input, rules)
}

/// Matches a flag `(ident)`. Returns the rest and the flag.
pub fn match_variant_flag(input: &Input) -> (r: MatchResult<(&Input, &str)>)
    ensures
        match (r, spec_variant_flag(input@)) {
            (Ok((rest, flag)), Some((srest, sflag))) => rest@ == srest && flag@ == sflag,
            (Err(e), None) => e@ == variant_flag_error(input@),
            _ => false,
        },
{
    let input = match match_char(input, '(') {
        Ok(i) => i,
        Err(e) => return Err(e),
    };
    let (input, ident) = match match_ident(input) {
        Ok(x) => x,
        Err(e) => return Err(e),
    };
    let input = match match_char(input, ')') {
        Ok(i) => i,
        Err(e) => return Err(e),
    };
    Ok((input, ident))
}

/// Reads flags, each followed by white space, into `flags` (see `spec_flags`).
fn match_flags<'a>(start: &'a Input, flags: &mut Vec<String>) -> (r: &'a Input)
    ensures
        spec_flags(start@, flags_set(old(flags)@)) == (r@, flags_set(final(flags)@)),
{
    let mut input = start;
    loop
        invariant
            spec_flags(input@, flags_set(flags@)) == spec_flags(start@, flags_set(old(flags)@)),
        decreases input@.len(),
    {
        match match_variant_flag(input) {
            Ok((rest, flag)) => {
                let ghost before = flags@;
                let f = flag.to_string();
                proof {
                    lemma_flags_set_push(before, f);
                    lemma_variant_flag_shorter(input@);
                    lemma_skip_blanks_len(rest@);
                }
                flags.push(f);
                input = match match_whitespaces(rest) {
                    Ok(i) => i,
                    Err(_) => rest,
                };
            },
            Err(_) => {
                return input;
            },
        }
    }
}

/// Matches the parts of a rule definition after `%:` (so that a caller can
/// scan for `%:` itself): flags, the rule name (empty for an unnamed rule),
/// flags, an optional `(parameter header)`, an optional `{header}`, and
/// either `-> {body}` with an optional `(catch unknown rule) {catch body}`,
/// or nothing where the header was given. Returns the rest of the input,
/// the rule name and the checked variant; an error gets the start of the
/// input added to its backtrace.
pub fn match_inner_rule_definition<'a>(input: &'a Input, rules: &Rules) -> (r: MatchResult<(&'a Input, (String, RuleVariant))>)
    ensures
        match (r, spec_traced_inner_def(input@, rules@)) {
            (Ok((rest, (name, v))), Ok((srest, (sname, sv)))) => rest@ == srest && name@ == sname && v@ == sv,
            (Err(e), Err(se)) => e@ == se,
            _ => false,
        },
        r matches Err(e) ==> e.backtrace_lines().len() > 0 && e.backtrace_lines().last() == input_view_spec(input@),
{
    let r = inner_rule_definition(input, rules);
    let line = input_view(input).to_string();
    r.trace(line)
}

fn inner_rule_definition<'a>(input: &'a Input, rules: &Rules) -> (r: MatchResult<(&'a Input, (String, RuleVariant))>)
    ensures
        match (r, spec_inner_def(input@, rules@)) {
            (Ok((rest, (name, v))), Ok((srest, (sname, sv)))) => rest@ == srest && name@ == sname && v@ == sv,
            (Err(e), Err(se)) => e@ == se,
            _ => false,
        },
{
    let (input, rule_name, flags) = match_def_head(input);
    let ghost s3 = input@;
    let (input, parameter_header_option) = match match_invocation_string_def(input, rules, '(', ')', SWIRL_WHITESPACE_HANDLER_PARAM_HEADER) {
        Ok(x) => x,
        Err(e) => return Err(e),
    };
    let input = match match_whitespaces(input) {
        Ok(i) => i,
        Err(e) => return Err(e),
    };
    let (input, input_header) = match match_invocation_string_def(input, rules, '{', '}', SWIRL_WHITESPACE_HANDLER_HEADER) {
        Ok(x) => x,
        Err(e) => return Err(e),
    };
    let input = match match_whitespaces(input) {
        Ok(i) => i,
        Err(e) => return Err(e),
    };
    match_def_tail(input, rule_name, flags, parameter_header_option, input_header, rules)
}

/// Matches the start of a rule definition: flags, the rule name and flags
/// again (see `spec_def_head`).
fn match_def_head<'a>(input: &'a Input) -> (r: (&'a Input, String, Vec<String>))
    ensures
        spec_def_head(input@) == (r.0@, r.1@, flags_set(r.2@)),
{
    let mut flags: Vec<String> = Vec::new();
    proof {
        lemma_flags_set_empty();
    }
    let input = match_flags(input, &mut flags);
    let ghost s1 = input@;
    let (input, rule_name) = match match_ident(input) {
        Ok(x) => x,
        Err(_) => {
            proof {
                reveal_strlit("");
                assert(s1.skip(0) =~= s1);
                assert(s1.take(0) =~= ""@);
            }
            (input, "")
        },
    };
    assert(rule_name@ == s1.take(ident_len(s1) as int));
    assert(input@ == s1.skip(ident_len(s1) as int));
    let rule_name: String = rule_name.to_string();
    let input = match match_whitespaces(input) {
        Ok(i) => i,
        Err(_) => input,
    };
    let input = match_flags(input, &mut flags);

    (input, rule_name, flags)
}

/// Matches the end of a rule definition (see `spec_def_tail`).
fn match_def_tail<'a>(
    input: &'a Input,
    rule_name: String,
    flags: Vec<String>,
    parameter_header_option: Option<InvocationString>,
    input_header: Option<InvocationString>,
    rules: &Rules,
) -> (r: MatchResult<(&'a Input, (String, RuleVariant))>)
    ensures
        match (r, spec_def_tail(input@, rule_name@, flags_set(flags@), opt_view(parameter_header_option), opt_view(input_header), rules@)) {
            (Ok((rest, (name, v))), Ok((srest, (sname, sv)))) => rest@ == srest && name@ == sname && v@ == sv,
            (Err(e), Err(se)) => e@ == se,
            _ => false,
        },
{
    let input_header_is_implicit = input_header.is_none();
    let input_header = match input_header {
        Some(h) => h,
        None => InvocationString::empty(),
    };
    proof {
        reveal_strlit("->");
        reveal_strlit("(catch unknown rule)");
        assert(Set::<Seq<char>>::empty().union(flags_set(flags@)) =~= flags_set(flags@));
    }
    match match_str(input, "->") {
        Err(_) => {
            if input_header_is_implicit {
                Err(MatchError::new("This is not a rule definition."))
            } else {
                let v = RuleVariant::new(input_header)
                    .parameter_header_option(parameter_header_option)
                    .flags(flags);
                match v.verify(rule_name.as_str()) {
                    Ok(v) => Ok((input, (rule_name, v))),
                    Err(e) => Err(e),
                }
            }
        },
        Ok(input) => {
            let input = match match_whitespaces(input) {
                Ok(i) => i,
                Err(e) => return Err(e),
            };
            let (input, body) = match match_invocation_string_def(input, rules, '{', '}', SWIRL_WHITESPACE_HANDLER_BODY) {
                Ok(x) => x,
                Err(e) => return Err(e),
            };
            let body = match body {
                Some(b) => b,
                None => return Err(MatchError::expected("rule body", input)),
            };
            let (input, catch_unknown_rule) = match match_catch_part(input, rules) {
                Ok(x) => x,
                Err(e) => return Err(e),
            };
            let v = RuleVariant::new(input_header)
                .parameter_header_option(parameter_header_option)
                .body(body)
                .flags(flags)
                .catch_unknown_rule_option(catch_unknown_rule);
            match v.verify(rule_name.as_str()) {
                Ok(v) => Ok((input, (rule_name, v))),
                Err(e) => Err(e),
            }
        },
    }
}

/// Matches white space and, where `(catch unknown rule)` follows, white
/// space and the catch body (see `spec_catch_part`).
fn match_catch_part<'a>(input: &'a Input, rules: &Rules) -> (r: MatchResult<(&'a Input, Option<InvocationString>)>)
    ensures
        match (r, spec_catch_part(input@, rules@)) {
            (Ok((rest, c)), Ok((srest, sc))) => rest@ == srest && opt_view(c) == sc,
            (Err(e), Err(se)) => e@ == se,
            _ => false,
        },
{
    proof {
        reveal_strlit("(catch unknown rule)");
    }
    let input = match match_whitespaces(input) {
        Ok(i) => i,
        Err(e) => return Err(e),
    };
    match match_str(input, "(catch unknown rule)") {
        Ok(input) => {
            let input = match match_whitespaces(input) {
                Ok(i) => i,
                Err(e) => return Err(e),
            };
            let catch_body_start = input;
            let (input, catch_body) = match match_invocation_string_def(input, rules, '{', '}', SWIRL_WHITESPACE_HANDLER_CATCH_BODY) {
                Ok(x) => x,
                Err(e) => return Err(e),
            };
            match catch_body {
                Some(c) => Ok((input, Some(c))),
                None => Err(MatchError::expected("Catch Body", catch_body_start)),
            }
        },
        Err(_) => Ok((input, None)),
    }
}

} // verus!
