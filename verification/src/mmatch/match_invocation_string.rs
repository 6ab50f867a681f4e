//! Matching invocation strings against input: text is matched literally,
//! rule invocations apply rules and bind their results, variable invocations
//! match the values bound before.
use vstd::prelude::*;
use vstd::string::*;
use crate::error::{MatchError, MatchResult, expected_msg, ErrorView, plain_error};
use crate::text::strip_str_prefix;
use crate::vars::Vars;
use crate::types::invocation::Invocation;
use crate::types::invocation_string::{
    InvocationString, InvocationStringBuilder, InvocationView,
    InvocationStringView, VarInvocationString, strings_view, istr_display, lemma_invocation_view, bind_vars_spec, bind_result_matches,
};
use crate::types::rule::Rules;
use crate::mmatch::Input;
use crate::mmatch::semantics::{
    IsrModel, MatchState, isr_text, text_step, spec_invoc, spec_invocs, spec_parts, initial_isr,
    spec_match_istr, spec_pass, spec_negated, spec_match_with_input, lemma_invocs_err, lemma_parts_err, lemma_match_istr_unfold, lemma_only_var_add_str, lemma_only_var_add_var,
};

verus! {

broadcast use vstd::string::group_string_axioms, lemma_invocation_view;

/// How deep rule applications may nest (see `semantics`): as deep as the
/// machine allows, so that in practice only the stack limits nesting.
pub const MAX_RULE_DEPTH: usize = usize::MAX;

/// The result of matching an invocation string: the result string, with
/// rule invocations replaced by variable invocations, and the bindings.
#[derive(PartialEq, Eq, Debug)]
pub struct InvocStrResult {
    pub result_str: VarInvocationString,
    /// named variable bindings of invocation results like `:a:rule`
    pub named_bounds: Vars,
    /// unnamed, indexed bindings like `::rule`
    pub indexed_bounds: Vec<String>,
}

impl View for InvocStrResult {
    type V = IsrModel;

    open spec fn view(&self) -> IsrModel {
        IsrModel {
            result: self.result_str@,
            named: self.named_bounds@,
            indexed: strings_view(self.indexed_bounds@),
        }
    }
}

pub open spec fn opt_input_view(o: Option<&str>) -> Option<Seq<char>> {
    match o {
        Some(s) => Some(s@),
        None => None,
    }
}

/// An exec result agrees with a model result: equal successes, or failures
/// of the same kind.
pub open spec fn istr_result_matches<'a>(
    r: MatchResult<(Option<&'a Input>, InvocStrResult)>,
    s: Result<MatchState, ErrorView>,
) -> bool {
    match (r, s) {
        (Ok((inp, isr)), Ok(st)) => opt_input_view(inp) == st.input && isr@ == st.isr,
        (Err(e), Err(k)) => e@ == k,
        _ => false,
    }
}

pub open spec fn with_input_matches<'a>(
    r: MatchResult<(&'a Input, InvocStrResult)>,
    s: Result<(Seq<char>, IsrModel), ErrorView>,
) -> bool {
    match (r, s) {
        (Ok((inp, isr)), Ok((sinp, sisr))) => inp@ == sinp && isr@ == sisr,
        (Err(e), Err(k)) => e@ == k,
        _ => false,
    }
}

impl InvocStrResult {
    /// The result string with all variables bound.
    pub fn bind_vars(&self) -> (r: MatchResult<String>)
        ensures
            match (r, isr_text(self@)) {
                (Ok(s), Ok(t)) => s@ == t,
                (Err(e), Err(k)) => e@ == k,
                _ => false,
            },
            bind_result_matches(r, bind_vars_spec(self@.result, self@.named, self@.indexed)),
    {
        self.result_str.bind_vars(&self.named_bounds, &self.indexed_bounds)
    }

    /// The empty result without bindings.
    pub fn empty() -> (r: InvocStrResult)
        ensures
            r@ == initial_isr(Map::empty()),
    {
        let r = InvocStrResult {
            indexed_bounds: Vec::new(),
            named_bounds: Vars::new(),
            result_str: InvocationString::empty().assume_only_var_invocs(),
        };
        proof {
            assert(strings_view(r.indexed_bounds@) =~= Seq::empty());
        }
        r
    }
}

/// The exec state of matching an invocation string agrees with its model.
pub open spec fn state_matches(
    maybe_input: Option<&str>,
    builder: InvocationStringBuilder,
    named: Vars,
    indexed: Vec<String>,
    st: MatchState,
) -> bool {
    &&& opt_input_view(maybe_input) == st.input
    &&& builder@ == st.isr.result
    &&& named@ == st.isr.named
    &&& strings_view(indexed@) == st.isr.indexed
}

/// Matches one invocation (see `spec_invoc`).
fn match_one_invocation<'a>(
    invoc: &Invocation,
    maybe_input: &mut Option<&'a Input>,
    builder: &mut InvocationStringBuilder,
    named: &mut Vars,
    indexed: &mut Vec<String>,
    rules: &Rules,
    match_var_invocs: bool,
    depth: usize,
) -> (r: MatchResult<()>)
    requires
        old(builder)@.only_var_invocs(),
    ensures
        final(builder)@.only_var_invocs(),
        match spec_invoc(
            invoc@,
            MatchState {
                input: opt_input_view(*old(maybe_input)),
                isr: IsrModel {
                    result: old(builder)@,
                    named: old(named)@,
                    indexed: strings_view(old(indexed)@),
                },
            },
            rules@,
            match_var_invocs,
            depth as nat,
        ) {
            Ok(st) => r is Ok && state_matches(*final(maybe_input), *final(builder), *final(named), *final(indexed), st),
            Err(k) => r matches Err(e) && e@ == k,
        },
    decreases depth, 0nat, 0nat,
{
    match invoc {
        Invocation::RuleInvocation(var, rule, param) => {
            if depth == 0 {
                return Err(MatchError::new("Rules nest too deep"));
            }
            let pr = match match_istr_pass_bounded(param, rules, named, depth - 1) {
                Ok(x) => x,
                Err(e) => return Err(e),
            };
            let param_text = match pr.bind_vars() {
                Ok(x) => x,
                Err(e) => return Err(e),
            };
            let rule_ref = match rules.get(rule.as_str()) {
                Some(r) => r,
                None => return Err(MatchError::unknown_rule(rule.as_str(), "<>")),
            };
            let input = match *maybe_input {
                Some(i) => i,
                None => "",
            };
            proof {
                reveal_strlit("");
                assert(input@ =~= match opt_input_view(*maybe_input) { Some(i) => i, None => Seq::<char>::empty() });
            }
            let (rest, result) = match rule_ref.match_last_bounded(input, param_text.as_str(), rules, depth - 1) {
                Ok(x) => x,
                Err(e) => {
                    return Err(e);
                },
            };
            if !var.as_str().is_empty() {
                if named.contains_key(var.as_str()) {
                    return Err(MatchError::new("Variable bound twice"));
                }
                named.insert(var.clone(), result);
            } else {
                let ghost old_indexed = indexed@;
                let ghost rv = result@;
                indexed.push(result);
                proof {
                    assert(strings_view(indexed@) =~= strings_view(old_indexed).push(rv));
                }
            }
            match *maybe_input {
                Some(_) => {
                    *maybe_input = Some(rest);
                },
                None => {},
            }
            proof {
                lemma_only_var_add_var(builder@, var@);
            }
            builder.add_invoc(Invocation::new_var_invocation(var.as_str()));
            Ok(())
        },
        Invocation::VarInvocation(var) => {
            if match_var_invocs {
                proof {
                    reveal_strlit("");
                }
                let content = match named.get(var.as_str()) {
                    Some(c) => c,
                    None => return Err(MatchError::unknown_variable(var.as_str(), "")),
                };
                let input = match *maybe_input {
                    Some(i) => i,
                    None => "",
                };
                proof {
                    reveal_strlit("");
                    assert(input@ =~= match opt_input_view(*maybe_input) { Some(i) => i, None => Seq::<char>::empty() });
                }
                match strip_str_prefix(input, content.as_str()) {
                    Some(rest) => {
                        *maybe_input = Some(rest);
                        Ok(())
                    },
                    None => {
                        let mut m = String::from_str(":");
                        m.append(var.as_str());
                        m.append(" aka '");
                        m.append(content.as_str());
                        m.append("'");
                        proof {
                            assert(m@ =~= ":"@ + var@ + " aka '"@ + content@ + "'"@);
                        }
                        Err(MatchError::expected(m.as_str(), input))
                    },
                }
            } else {
                proof {
                    lemma_only_var_add_var(builder@, var@);
                }
                builder.add_invoc(Invocation::new_var_invocation(var.as_str()));
                Ok(())
            }
        },
    }
}


/// Matches the text `text` against the input, if there is one (see `text_step`).
fn match_text<'a>(
    text: &str,
    maybe_input: &mut Option<&'a Input>,
    builder: &mut InvocationStringBuilder,
    named: &Vars,
    indexed: &Vec<String>,
) -> (r: MatchResult<()>)
    requires
        old(builder)@.only_var_invocs(),
    ensures
        final(builder)@.only_var_invocs(),
        match text_step(
            MatchState {
                input: opt_input_view(*old(maybe_input)),
                isr: IsrModel { result: old(builder)@, named: named@, indexed: strings_view(indexed@) },
            },
            text@,
        ) {
            Ok(st) => r is Ok && state_matches(*final(maybe_input), *final(builder), *named, *indexed, st),
            Err(k) => r matches Err(e) && e@ == k,
        },
{
    match *maybe_input {
        Some(input) => match strip_str_prefix(input, text) {
            Some(rest) => {
                *maybe_input = Some(rest);
            },
            None => {
                return Err(MatchError::expected(text, input));
            },
        },
        None => {},
    }
    proof {
        lemma_only_var_add_str(builder@, text@);
    }
    builder.add_str(text);
    Ok(())
}

/// Matches an invocation string against the input, if any (see `spec_match_istr`).
fn match_istr_bounded<'a>(
    start_input: Option<&'a Input>,
    invoc_str: &InvocationString,
    rules: &Rules,
    initial_vars: &Vars,
    match_var_invocs: bool,
    depth: usize,
) -> (r: MatchResult<(Option<&'a Input>, InvocStrResult)>)
    ensures
        istr_result_matches(
            r,
            spec_match_istr(invoc_str@, opt_input_view(start_input), rules@, initial_vars@, match_var_invocs, depth as nat),
        ),
    decreases depth, 3nat, 0nat,
{
    let ghost parts = invoc_str@.parts();
    let ghost segs = invoc_str@.segments;
    let ghost st0 = MatchState { input: opt_input_view(start_input), isr: initial_isr(initial_vars@) };
    let ghost rv = rules@;
    let mut maybe_input = start_input;
    let mut builder = InvocationString::new();
    let mut named = initial_vars.duplicate();
    let mut indexed: Vec<String> = Vec::new();
    proof {
        assert(strings_view(indexed@) =~= Seq::empty());
        assert(parts.drop_last() =~= segs);
    }
    let n = invoc_str.segment_count();
    let mut i: usize = 0;
    while i < n
        invariant
            n == segs.len(),
            i <= n,
            segs == invoc_str@.segments,
            parts == invoc_str@.parts(),
            rv == rules@,
            st0 == (MatchState { input: opt_input_view(start_input), isr: initial_isr(initial_vars@) }),
            builder@.only_var_invocs(),
            spec_parts(segs.take(i as int), st0, rv, match_var_invocs, depth as nat) matches Ok(st)
                && state_matches(maybe_input, builder, named, indexed, st),
        decreases n - i,
    {
        let ghost st_i = spec_parts(segs.take(i as int), st0, rv, match_var_invocs, depth as nat)->Ok_0;
        proof {
            assert(segs.take(i + 1).drop_last() =~= segs.take(i as int));
            assert(segs.take(i + 1).last() == segs[i as int]);
        }
        let (part, invocs) = invoc_str.segment(i);
        proof {
            let ms = MatchState {
                input: opt_input_view(maybe_input),
                isr: IsrModel { result: builder@, named: named@, indexed: strings_view(indexed@) },
            };
            assert(ms == st_i);
        }
        match match_text(part, &mut maybe_input, &mut builder, &named, &indexed) {
            Ok(()) => {},
            Err(e) => {
                proof {
                    assert(text_step(st_i, segs[i as int].0) == Err::<MatchState, ErrorView>(e@));
                    assert(spec_parts(segs.take(i + 1), st0, rv, match_var_invocs, depth as nat) == Err::<MatchState, ErrorView>(e@));
                    lemma_parts_err(segs, st0, rv, match_var_invocs, depth as nat, i + 1);
                    assert(parts.take(segs.len() as int) =~= segs);
                    lemma_parts_err(parts, st0, rv, match_var_invocs, depth as nat, segs.len() as int);
                    assert(spec_parts(parts, st0, rv, match_var_invocs, depth as nat) == Err::<MatchState, ErrorView>(e@));
                    lemma_match_istr_unfold(invoc_str@, st0.input, rv, initial_vars@, match_var_invocs, depth as nat);
                }
                return Err(e);
            },
        }
        let ghost st_t = text_step(st_i, segs[i as int].0)->Ok_0;
        let ghost invs = segs[i as int].1;
        let mut j: usize = 0;
        while j < invocs.len()
            invariant
                i < n,
                n == segs.len(),
                segs == invoc_str@.segments,
                parts == invoc_str@.parts(),
                rv == rules@,
                st0 == (MatchState { input: opt_input_view(start_input), isr: initial_isr(initial_vars@) }),
                invs == segs[i as int].1,
                invocs@.len() == invs.len(),
                forall|k: int| 0 <= k < invs.len() ==> #[trigger] invocs@[k]@ == invs[k],
                j <= invocs@.len(),
                builder@.only_var_invocs(),
                spec_parts(segs.take(i as int), st0, rv, match_var_invocs, depth as nat) == Ok::<MatchState, ErrorView>(st_i),
                text_step(st_i, segs[i as int].0) == Ok::<MatchState, ErrorView>(st_t),
                spec_invocs(invs.take(j as int), st_t, rv, match_var_invocs, depth as nat) matches Ok(st)
                    && state_matches(maybe_input, builder, named, indexed, st),
            decreases invocs@.len() - j,
        {
            proof {
                assert(invs.take(j + 1).drop_last() =~= invs.take(j as int));
                assert(invs.take(j + 1).last() == invs[j as int]);
            }
            match match_one_invocation(
                &invocs[j],
                &mut maybe_input,
                &mut builder,
                &mut named,
                &mut indexed,
                rules,
                match_var_invocs,
                depth,
            ) {
                Ok(()) => {},
                Err(e) => {
                    proof {
                        lemma_invocs_err(invs, st_t, rv, match_var_invocs, depth as nat, j + 1);
                        assert(segs.take(i + 1).drop_last() =~= segs.take(i as int));
                        assert(segs.take(i + 1).last() == segs[i as int]);
                        lemma_parts_err(segs, st0, rv, match_var_invocs, depth as nat, i + 1);
                        assert(parts.take(segs.len() as int) =~= segs);
                        lemma_parts_err(parts, st0, rv, match_var_invocs, depth as nat, segs.len() as int);
                        lemma_match_istr_unfold(invoc_str@, st0.input, rv, initial_vars@, match_var_invocs, depth as nat);
                    }
                    return Err(e);
                },
            }
            j = j + 1;
        }
        proof {
            assert(invs.take(invs.len() as int) =~= invs);
        }
        i = i + 1;
    }
    proof {
        assert(segs.take(n as int) =~= segs);
        assert(parts.last().1 =~= Seq::<InvocationView>::empty());
        assert(parts.last().0 == invoc_str@.tail);
        lemma_match_istr_unfold(invoc_str@, st0.input, rv, initial_vars@, match_var_invocs, depth as nat);
        assert(parts.drop_last() =~= segs);
    }
    match match_text(invoc_str.tail_text(), &mut maybe_input, &mut builder, &named, &indexed) {
        Ok(()) => {},
        Err(e) => {
            return Err(e);
        },
    }
    let result_str = builder.seal().assume_only_var_invocs();
    Ok((maybe_input, InvocStrResult { result_str, named_bounds: named, indexed_bounds: indexed }))
}

/// Evaluates the rule invocations of an invocation string without input
/// (see `spec_pass`).
pub fn match_istr_pass_bounded(
    invoc_str: &InvocationString,
    rules: &Rules,
    initial_vars: &Vars,
    depth: usize,
) -> (r: MatchResult<InvocStrResult>)
    ensures
        match (r, spec_pass(invoc_str@, rules@, initial_vars@, depth as nat)) {
            (Ok(isr), Ok(m)) => isr@ == m,
            (Err(e), Err(k)) => e@ == k,
            _ => false,
        },
    decreases depth, 4nat, 0nat,
{
    match match_istr_bounded(None, invoc_str, rules, initial_vars, false, depth) {
        Ok((_, isr)) => Ok(isr),
        Err(e) => Err(e),
    }
}

/// Matches an invocation string against `input` (see `spec_match_with_input`).
pub fn match_istr_with_input_bounded<'a>(
    input: &'a Input,
    invoc_str: &InvocationString,
    rules: &Rules,
    initial_vars: &Vars,
    match_var_invocs: bool,
    depth: usize,
) -> (r: MatchResult<(&'a Input, InvocStrResult)>)
    ensures
        with_input_matches(r, spec_match_with_input(invoc_str@, input@, rules@, initial_vars@, match_var_invocs, depth as nat)),
    decreases depth, 4nat, 0nat,
{
    match match_istr_bounded(Some(input), invoc_str, rules, initial_vars, match_var_invocs, depth) {
        Ok((Some(rest), isr)) => Ok((rest, isr)),
        Ok((None, _)) => Err(MatchError::new("Input lost while matching")),
        Err(e) => Err(e),
    }
}


/// Turns a result around where `negated` holds (see `spec_negated`); the
/// error of a success that was negated names the string that must not match.
pub fn negate_result<'a>(
    input: &'a Input,
    invoc_str: &InvocationString,
    res: MatchResult<(&'a Input, InvocStrResult)>,
    negated: bool,
) -> (r: MatchResult<(&'a Input, InvocStrResult)>)
    ensures
        forall|m: Result<(Seq<char>, IsrModel), ErrorView>| #[trigger] with_input_matches(res, m)
            ==> with_input_matches(r, spec_negated(input@, invoc_str@, m, negated)),
        negated && res is Ok ==> (r matches Err(e) && e.is_plain(expected_msg("not "@ + istr_display(invoc_str@), input@))),
        !negated ==> r == res,
{
    proof {
        reveal_strlit("not ");
    }
    if negated {
        match res {
            Ok(_) => {
                let mut m = String::from_str("not ");
                let d = invoc_str.to_display_string();
                m.append(d.as_str());
                Err(MatchError::expected(m.as_str(), input))
            },
            Err(_) => Ok((input, InvocStrResult::empty())),
        }
    } else {
        res
    }
}

/// The result of matching an invocation string, which can still be negated.
pub struct NegatableMatchResult<'a, 'b>(&'a Input, &'b InvocationString, MatchResult<(&'a Input, InvocStrResult)>);

impl<'a, 'b> NegatableMatchResult<'a, 'b> {
    pub closed spec fn input(&self) -> Seq<char> {
        self.0@
    }

    pub closed spec fn result(&self) -> MatchResult<(&'a Input, InvocStrResult)> {
        self.2
    }

    /// The invocation string that was matched.
    pub closed spec fn head(&self) -> InvocationStringView {
        self.1@
    }

    /// The result, turned around where `negated` holds: a success becomes a
    /// failure, and a failure a success that consumes nothing.
    pub fn negated(self, negated: bool) -> (r: MatchResult<(&'a Input, InvocStrResult)>)
        ensures
            forall|m: Result<(Seq<char>, IsrModel), ErrorView>| #[trigger] with_input_matches(self.result(), m)
                ==> with_input_matches(r, spec_negated(self.input(), self.head(), m, negated)),
            negated && self.result() is Ok ==> (r matches Err(e)
                && e.is_plain(expected_msg("not "@ + istr_display(self.head()), self.input()))),
            !negated ==> r == self.result(),
    {
        negate_result(self.0, self.1, self.2, negated)
    }
}

/// Matches an invocation string against `input`, starting with the bindings
/// `initial_vars`. Rule invocations bind their results to their variables
/// (or, anonymous ones, to indexed slots in order); variable invocations
/// match their values against the input where `match_var_invocs` holds, and
/// are kept in the result string otherwise.
pub fn match_invocation_string<'a, 'b>(
    input: &'a Input,
    invoc_str: &'b InvocationString,
    rules: &Rules,
    initial_vars: &Vars,
    match_var_invocs: bool,
) -> (r: NegatableMatchResult<'a, 'b>)
    ensures
        r.input() == input@,
        r.head() == invoc_str@,
        with_input_matches(
            r.result(),
            spec_match_with_input(invoc_str@, input@, rules@, initial_vars@, match_var_invocs, MAX_RULE_DEPTH as nat),
        ),
{
    let res = match_istr_with_input_bounded(input, invoc_str, rules, initial_vars, match_var_invocs, MAX_RULE_DEPTH);
    NegatableMatchResult(input, invoc_str, res)
}

/// Evaluates the rule invocations of `invoc_str` without input: the rules
/// they invoke are applied to the empty text.
pub fn match_invocation_string_pass(
    invoc_str: &InvocationString,
    rules: &Rules,
    initial_vars: &Vars,
) -> (r: MatchResult<InvocStrResult>)
    ensures
        match (r, spec_pass(invoc_str@, rules@, initial_vars@, MAX_RULE_DEPTH as nat)) {
            (Ok(isr), Ok(m)) => isr@ == m,
            (Err(e), Err(k)) => e@ == k,
            _ => false,
        },
{
    match_istr_pass_bounded(invoc_str, rules, initial_vars, MAX_RULE_DEPTH)
}

} // verus!
