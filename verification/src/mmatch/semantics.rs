//! The model of matching input against rules: what each matching function
//! computes, as functions on the models of rules, strings and bindings.
//!
//! Matching is bounded by a nesting depth: each rule invocation, and each
//! evaluation of the parameter of a rule invocation, goes one level deeper,
//! and matching fails where no level is left.
//!
//! A failure is modelled by the model of its error (see `ErrorView`): its
//! message, whether it is the invocation of an unknown rule (which a catch
//! body of a rule variant can catch), the errors it is made of and its
//! backtrace.
use vstd::prelude::*;
use crate::types::invocation_string::{
    InvocationStringView, InvocationView, bind_vars_spec, bind_error_view, istr_display, bind_segments, bind_invocs,
    BindState, BindError,
};
use crate::error::{
    ErrorView, plain_error, composed_error, traced_error, expected_msg, unknown_variable_msg, unknown_rule_msg,
};
use crate::mmatch::match_rule_variant::backtraceline_spec;
use crate::types::rule_variant::RuleVariantView;
use crate::types::rule::RuleView;
use crate::util::MaybeInf;

verus! {

/// The model of an `InvocStrResult`: the result string (the matched string
/// with rule invocations replaced by variable invocations), the named
/// bindings and the anonymous ones.
pub struct IsrModel {
    pub result: InvocationStringView,
    pub named: Map<Seq<char>, Seq<char>>,
    pub indexed: Seq<Seq<char>>,
}

/// The state of matching an invocation string: the input left (none where
/// only rule invocations are evaluated), and the result so far.
pub struct MatchState {
    pub input: Option<Seq<char>>,
    pub isr: IsrModel,
}

pub type Rules = Map<Seq<char>, RuleView>;

/// The text that an `IsrModel` stands for: its result string with the
/// variables bound.
pub open spec fn isr_text(isr: IsrModel) -> Result<Seq<char>, ErrorView> {
    match bind_vars_spec(isr.result, isr.named, isr.indexed) {
        Ok(s) => Ok(s),
        Err(b) => Err(bind_error_view(b)),
    }
}

/// Matches the text `text` against the input, if there is one.
pub open spec fn text_step(st: MatchState, text: Seq<char>) -> Result<MatchState, ErrorView> {
    match st.input {
        Some(inp) => if text.is_prefix_of(inp) {
            Ok(MatchState {
                input: Some(inp.skip(text.len() as int)),
                isr: IsrModel { result: st.isr.result.add_str(text), ..st.isr },
            })
        } else {
            Err(plain_error(expected_msg(text, inp)))
        },
        None => Ok(MatchState {
            input: None,
            isr: IsrModel { result: st.isr.result.add_str(text), ..st.isr },
        }),
    }
}

/// Matches one invocation. A rule invocation evaluates its parameter, applies
/// the rule to the input (or to the empty text where there is no input), and
/// binds the rule's result to its variable (or to the next anonymous slot); a
/// variable invocation matches the variable's value against the input where
/// `mvi` holds, and is kept for later binding otherwise.
pub open spec fn spec_invoc(
    inv: InvocationView,
    st: MatchState,
    rules: Rules,
    mvi: bool,
    depth: nat,
) -> Result<MatchState, ErrorView>
    decreases depth, 0nat, 0nat,
{
    match inv {
        InvocationView::Rule(var, rule, param) => {
            if depth == 0 {
                Err(plain_error("Rules nest too deep"@))
            } else {
                match spec_pass(param, rules, st.isr.named, (depth - 1) as nat) {
                    Err(k) => Err(k),
                    Ok(pisr) => match isr_text(pisr) {
                        Err(k) => Err(k),
                        Ok(param_text) => if !rules.contains_key(rule) {
                            Err(ErrorView { unknown: true, ..plain_error(unknown_rule_msg(rule, "<>"@)) })
                        } else {
                            let input = match st.input {
                                Some(i) => i,
                                None => Seq::empty(),
                            };
                            match spec_match_last(rules[rule], input, param_text, rules, (depth - 1) as nat) {
                                Err(e) => Err(e),
                                Ok((rest, result)) => {
                                    if var.len() > 0 && st.isr.named.contains_key(var) {
                                        Err(plain_error("Variable bound twice"@))
                                    } else {
                                        let isr = if var.len() > 0 {
                                            IsrModel { named: st.isr.named.insert(var, result), ..st.isr }
                                        } else {
                                            IsrModel { indexed: st.isr.indexed.push(result), ..st.isr }
                                        };
                                        Ok(MatchState {
                                            input: match st.input {
                                                Some(_) => Some(rest),
                                                None => None,
                                            },
                                            isr: IsrModel {
                                                result: isr.result.add_invoc(InvocationView::Var(var)),
                                                ..isr
                                            },
                                        })
                                    }
                                },
                            }
                        },
                    },
                }
            }
        },
        InvocationView::Var(var) => {
            if mvi {
                if !st.isr.named.contains_key(var) {
                    Err(plain_error(unknown_variable_msg(var, Seq::empty())))
                } else {
                    let content = st.isr.named[var];
                    let input = match st.input {
                        Some(i) => i,
                        None => Seq::empty(),
                    };
                    if content.is_prefix_of(input) {
                        Ok(MatchState { input: Some(input.skip(content.len() as int)), isr: st.isr })
                    } else {
                        Err(plain_error(expected_msg(":"@ + var + " aka '"@ + content + "'"@, input)))
                    }
                }
            } else {
                Ok(MatchState {
                    input: st.input,
                    isr: IsrModel { result: st.isr.result.add_invoc(InvocationView::Var(var)), ..st.isr },
                })
            }
        },
    }
}

/// Matches invocations one after the other.
pub open spec fn spec_invocs(
    invs: Seq<InvocationView>,
    st: MatchState,
    rules: Rules,
    mvi: bool,
    depth: nat,
) -> Result<MatchState, ErrorView>
    decreases depth, 1nat, invs.len(),
{
    if invs.len() == 0 {
        Ok(st)
    } else {
        match spec_invocs(invs.drop_last(), st, rules, mvi, depth) {
            Ok(s) => spec_invoc(invs.last(), s, rules, mvi, depth),
            Err(k) => Err(k),
        }
    }
}

/// Matches parts (text, then invocations) one after the other.
pub open spec fn spec_parts(
    parts: Seq<(Seq<char>, Seq<InvocationView>)>,
    st: MatchState,
    rules: Rules,
    mvi: bool,
    depth: nat,
) -> Result<MatchState, ErrorView>
    decreases depth, 2nat, parts.len(),
{
    if parts.len() == 0 {
        Ok(st)
    } else {
        match spec_parts(parts.drop_last(), st, rules, mvi, depth) {
            Ok(s) => match text_step(s, parts.last().0) {
                Ok(s2) => spec_invocs(parts.last().1, s2, rules, mvi, depth),
                Err(k) => Err(k),
            },
            Err(k) => Err(k),
        }
    }
}

/// The empty result, with the bindings `named`.
pub open spec fn initial_isr(named: Map<Seq<char>, Seq<char>>) -> IsrModel {
    IsrModel { result: InvocationStringView::empty_view(), named: named, indexed: Seq::empty() }
}

/// Matches an invocation string against the input (if any), starting with
/// the bindings `initial`.
pub open spec fn spec_match_istr(
    v: InvocationStringView,
    input: Option<Seq<char>>,
    rules: Rules,
    initial: Map<Seq<char>, Seq<char>>,
    mvi: bool,
    depth: nat,
) -> Result<MatchState, ErrorView>
    decreases depth, 3nat, 0nat,
{
    spec_parts(v.parts(), MatchState { input: input, isr: initial_isr(initial) }, rules, mvi, depth)
}

/// Evaluates the rule invocations of an invocation string without input.
pub open spec fn spec_pass(
    v: InvocationStringView,
    rules: Rules,
    initial: Map<Seq<char>, Seq<char>>,
    depth: nat,
) -> Result<IsrModel, ErrorView>
    decreases depth, 4nat, 0nat,
{
    match spec_match_istr(v, None, rules, initial, false, depth) {
        Ok(st) => Ok(st.isr),
        Err(k) => Err(k),
    }
}

/// A result of matching `head` turned around by negation: where `negated`
/// holds, success is a failure that names `head`, and a failure is a success
/// that consumes nothing.
pub open spec fn spec_negated(
    input: Seq<char>,
    head: InvocationStringView,
    res: Result<(Seq<char>, IsrModel), ErrorView>,
    negated: bool,
) -> Result<(Seq<char>, IsrModel), ErrorView> {
    if negated {
        match res {
            Ok(_) => Err(plain_error(expected_msg("not "@ + istr_display(head), input))),
            Err(_) => Ok((input, initial_isr(Map::empty()))),
        }
    } else {
        res
    }
}

/// Matches an invocation string against `input`.
pub open spec fn spec_match_with_input(
    v: InvocationStringView,
    input: Seq<char>,
    rules: Rules,
    initial: Map<Seq<char>, Seq<char>>,
    mvi: bool,
    depth: nat,
) -> Result<(Seq<char>, IsrModel), ErrorView>
    decreases depth, 4nat, 0nat,
{
    match spec_match_istr(v, Some(input), rules, initial, mvi, depth) {
        Ok(st) => match st.input {
            Some(rest) => Ok((rest, st.isr)),
            None => Err(plain_error("Input lost while matching"@)),
        },
        Err(k) => Err(k),
    }
}

/// The message of a parameter that its header did not match in full.
pub open spec fn param_left_msg(rest: Seq<char>) -> Seq<char> {
    "Rule parameter must match its whole input, but '"@ + rest + "' is still left."@
}

/// Matches the parameter of a rule application against the parameter
/// header of a variant, which must match all of it.
pub open spec fn spec_match_param(
    param_header: Option<InvocationStringView>,
    param: Seq<char>,
    rules: Rules,
    depth: nat,
) -> Result<Map<Seq<char>, Seq<char>>, ErrorView>
    decreases depth, 5nat, 0nat,
{
    match param_header {
        Some(ph) => match spec_match_with_input(ph, param, rules, Map::empty(), true, depth) {
            Ok((rest, isr)) => if rest.len() == 0 {
                Ok(isr.named)
            } else {
                Err(plain_error(param_left_msg(rest)))
            },
            Err(k) => Err(k),
        },
        None => if param.len() == 0 {
            Ok(Map::empty())
        } else {
            Err(plain_error(param_left_msg(param)))
        },
    }
}

/// Where the header failed on an unknown rule and the variant has a catch
/// body, the text of that body.
pub open spec fn spec_catch(
    header_failed_on_unknown_rule: bool,
    catch_body: Option<InvocationStringView>,
    rules: Rules,
    depth: nat,
) -> Result<Option<Seq<char>>, ErrorView>
    decreases depth, 5nat, 0nat,
{
    if header_failed_on_unknown_rule && catch_body is Some {
        match spec_pass(catch_body->0, rules, Map::empty(), depth) {
            Ok(isr) => match isr_text(isr) {
                Ok(s) => Ok(Some(s)),
                Err(k) => Err(k),
            },
            Err(k) => Err(k),
        }
    } else {
        Ok(None)
    }
}

/// The result of a variant whose header matched: its body with the header's
/// bindings, or, without a body, the header's own result string.
pub open spec fn spec_make_result(
    body: Option<InvocationStringView>,
    header_isr: IsrModel,
    rules: Rules,
    depth: nat,
) -> Result<Seq<char>, ErrorView>
    decreases depth, 5nat, 0nat,
{
    match body {
        None => isr_text(header_isr),
        Some(b) => match spec_pass(b, rules, header_isr.named, depth) {
            Ok(isr) => isr_text(isr),
            Err(k) => Err(k),
        },
    }
}

/// Applies one variant to `input`, its parameter header having bound
/// `named`: returns the input left and the replacement text. An `(any)`
/// variant takes one character (its header must be empty); another matches
/// its header (turned around where it is flagged `not`), where that failed on
/// an unknown rule gives its catch body, and else makes its result.
pub open spec fn spec_apply_variant(
    v: RuleVariantView,
    input: Seq<char>,
    named: Map<Seq<char>, Seq<char>>,
    rules: Rules,
    depth: nat,
) -> Result<(Seq<char>, Seq<char>), ErrorView>
    decreases depth, 5nat, 1nat,
{
    if v.flags.contains("any"@) {
        if !v.header.is_empty_view() {
            Err(plain_error("(any) rule variants must have an empty header."@))
        } else if input.len() > 0 {
            Ok((input.drop_first(), seq![input[0]]))
        } else {
            Err(plain_error(expected_msg("Any char"@, input)))
        }
    } else {
        let hr = spec_negated(
            input,
            v.header,
            spec_match_with_input(v.header, input, rules, named, true, depth),
            v.flags.contains("not"@),
        );
        match spec_catch(hr matches Err(e) && e.unknown, v.catch_unknown_rule, rules, depth) {
            Err(k) => Err(k),
            Ok(Some(res)) => Ok((input, res)),
            Ok(None) => match hr {
                Err(k) => Err(k),
                Ok((rest, isr)) => match spec_make_result(v.body, isr, rules, depth) {
                    Ok(res) => Ok((rest, res)),
                    Err(k) => Err(k),
                },
            },
        }
    }
}

/// The variant is the first one tried of the rule `name` (`index` 0) and
/// its header ends in an invocation of that rule: it is applied as a loop.
pub open spec fn tail_call(v: RuleVariantView, name: Seq<char>, index: nat) -> bool {
    &&& index == 0
    &&& v.header.end_invocation_view() matches Some(InvocationView::Rule(_, r, _)) && r == name
}

/// A variant is applied as a loop only where it has no catch body,
/// parameter header, flags or body, and passes no parameter to its last
/// invocation; otherwise it is applied by plain recursion.
pub open spec fn tail_rejected(v: RuleVariantView) -> bool {
    ||| v.catch_unknown_rule is Some
    ||| v.parameter_header is Some
    ||| v.flags != Set::<Seq<char>>::empty()
    ||| v.body is Some
    ||| (v.header.end_invocation_view() matches Some(InvocationView::Rule(_, _, p)) && !p.is_empty_view())
}

/// Applies the variant `v`, the `index`-th tried of the rule `name`, to
/// `input` with the parameter `param`: returns the input left and the
/// replacement text. The parameter must match the parameter header. A
/// variant that is applied as a loop (see `tail_call` and `tail_rejected`)
/// gives what the whole rule gives: its own result where it applies, else
/// that of the other variants; where the rule is not defined, it fails.
pub open spec fn spec_try_match_inner(
    v: RuleVariantView,
    input: Seq<char>,
    param: Seq<char>,
    rules: Rules,
    depth: nat,
    name: Seq<char>,
    index: nat,
) -> Result<(Seq<char>, Seq<char>), ErrorView>
    decreases depth, 6nat, 0nat,
{
    match spec_match_param(v.parameter_header, param, rules, depth) {
        Err(k) => Err(k),
        Ok(named) => if tail_call(v, name, index) && !tail_rejected(v) {
            if depth == 0 {
                Err(plain_error("Rules nest too deep"@))
            } else if !rules.contains_key(name) {
                Err(plain_error("Rule applied as a loop is not defined"@))
            } else {
                match spec_apply_variant(v, input, named, rules, depth) {
                    Ok(x) => Ok(x),
                    Err(_) => spec_try_variants(rules[name], input, param, rules, (depth - 1) as nat, 1, Seq::empty()),
                }
            }
        } else {
            spec_apply_variant(v, input, named, rules, depth)
        },
    }
}

/// `spec_try_match_inner`, where an error gets the backtrace line of this
/// application (see `backtraceline_spec`).
pub open spec fn spec_try_match(
    v: RuleVariantView,
    input: Seq<char>,
    param: Seq<char>,
    rules: Rules,
    depth: nat,
    name: Seq<char>,
    index: nat,
) -> Result<(Seq<char>, Seq<char>), ErrorView>
    decreases depth, 6nat, 1nat,
{
    match spec_try_match_inner(v, input, param, rules, depth, name, index) {
        Ok(x) => Ok(x),
        Err(e) => Err(traced_error(e, backtraceline_spec(v, name, input))),
    }
}

/// The message of a rule none of whose variants applied.
pub open spec fn no_variant_msg(name: Seq<char>) -> Seq<char> {
    "No variant of '"@ + name + "' matched."@
}

/// Tries the variants of `rule` from the `k`-th last on, towards the first:
/// the first that applies gives the result. Where none applies, the error is
/// made of the errors `cands` given before, then those of the variants
/// tried, in order.
pub open spec fn spec_try_variants(
    rule: RuleView,
    input: Seq<char>,
    param: Seq<char>,
    rules: Rules,
    depth: nat,
    k: nat,
    cands: Seq<ErrorView>,
) -> Result<(Seq<char>, Seq<char>), ErrorView>
    decreases depth, 7nat, rule.variants.len() - k,
{
    if k >= rule.variants.len() {
        Err(composed_error(no_variant_msg(rule.name), cands))
    } else {
        match spec_try_match(rule.variants[rule.variants.len() - 1 - k], input, param, rules, depth, rule.name, k) {
            Ok(x) => Ok(x),
            Err(e) => spec_try_variants(rule, input, param, rules, depth, k + 1, cands.push(e)),
        }
    }
}

/// Applies a rule: its variants are tried from the last to the first.
pub open spec fn spec_match_last(
    rule: RuleView,
    input: Seq<char>,
    param: Seq<char>,
    rules: Rules,
    depth: nat,
) -> Result<(Seq<char>, Seq<char>), ErrorView>
    decreases depth, 8nat, 0nat,
{
    spec_try_variants(rule, input, param, rules, depth, 0, Seq::empty())
}

/// One application less: a finite count goes down by one, infinity stays.
pub open spec fn dec_left(m: MaybeInf<u32>) -> MaybeInf<u32> {
    match m {
        MaybeInf::Finite(x) => MaybeInf::Finite((x - 1) as u32),
        MaybeInf::Infinite => MaybeInf::Infinite,
    }
}

/// Applies the variants of `rule` from the `k`-th last on, towards the
/// first, one after the other: each is applied to the input left by the one
/// before with its replacement text put in front, as long as applications
/// are left; the first that fails fails the whole. Returns the result and the
/// applications left.
pub open spec fn spec_sequence(
    rule: RuleView,
    input: Seq<char>,
    rules: Rules,
    left: MaybeInf<u32>,
    depth: nat,
    k: nat,
) -> (Result<Seq<char>, ErrorView>, MaybeInf<u32>)
    decreases rule.variants.len() - k,
{
    if k >= rule.variants.len() || left == MaybeInf::Finite(0u32) {
        (Ok(input), left)
    } else {
        match spec_try_match(rule.variants[rule.variants.len() - 1 - k], input, Seq::empty(), rules, depth, Seq::empty(), k) {
            Ok((rest, replacement)) => spec_sequence(rule, replacement + rest, rules, dec_left(left), depth, k + 1),
            Err(kind) => (Err(kind), dec_left(left)),
        }
    }
}

/// One step of `spec_sequence`.
pub proof fn lemma_sequence_step(
    rule: RuleView,
    input: Seq<char>,
    rules: Rules,
    left: MaybeInf<u32>,
    depth: nat,
    k: nat,
)
    ensures
        spec_sequence(rule, input, rules, left, depth, k) == (
            if k >= rule.variants.len() || left == MaybeInf::Finite(0u32) {
                (Ok(input), left)
            } else {
                match spec_try_match(rule.variants[rule.variants.len() - 1 - k], input, Seq::empty(), rules, depth, Seq::empty(), k) {
                    Ok((rest, replacement)) => spec_sequence(rule, replacement + rest, rules, dec_left(left), depth, k + 1),
                    Err(kind) => (Err(kind), dec_left(left)),
                }
            }
        ),
{
}

/// Once matching invocations fails, matching more of them fails the same way.
pub proof fn lemma_invocs_err(
    invs: Seq<InvocationView>,
    st: MatchState,
    rules: Rules,
    mvi: bool,
    depth: nat,
    k: int,
)
    requires
        0 <= k <= invs.len(),
        spec_invocs(invs.take(k), st, rules, mvi, depth) is Err,
    ensures
        spec_invocs(invs, st, rules, mvi, depth) == spec_invocs(invs.take(k), st, rules, mvi, depth),
    decreases invs.len() - k,
{
    if k < invs.len() {
        assert(invs.take(k + 1).drop_last() =~= invs.take(k));
        lemma_invocs_err(invs, st, rules, mvi, depth, k + 1);
    } else {
        assert(invs.take(k) =~= invs);
    }
}

/// Once matching parts fails, matching more of them fails the same way.
pub proof fn lemma_parts_err(
    parts: Seq<(Seq<char>, Seq<InvocationView>)>,
    st: MatchState,
    rules: Rules,
    mvi: bool,
    depth: nat,
    k: int,
)
    requires
        0 <= k <= parts.len(),
        spec_parts(parts.take(k), st, rules, mvi, depth) is Err,
    ensures
        spec_parts(parts, st, rules, mvi, depth) == spec_parts(parts.take(k), st, rules, mvi, depth),
    decreases parts.len() - k,
{
    if k < parts.len() {
        assert(parts.take(k + 1).drop_last() =~= parts.take(k));
        lemma_parts_err(parts, st, rules, mvi, depth, k + 1);
    } else {
        assert(parts.take(k) =~= parts);
    }
}

/// Matching an invocation string is matching its parts from the empty result.
pub proof fn lemma_match_istr_unfold(
    v: InvocationStringView,
    input: Option<Seq<char>>,
    rules: Rules,
    initial: Map<Seq<char>, Seq<char>>,
    mvi: bool,
    depth: nat,
)
    ensures
        spec_match_istr(v, input, rules, initial, mvi, depth) == spec_parts(
            v.parts(),
            MatchState { input: input, isr: initial_isr(initial) },
            rules,
            mvi,
            depth,
        ),
{
}

/// Adding text or variable invocations keeps a string free of rule invocations.
pub proof fn lemma_only_var_add_str(v: InvocationStringView, s: Seq<char>)
    requires
        v.only_var_invocs(),
    ensures
        v.add_str(s).only_var_invocs(),
{
}

pub proof fn lemma_only_var_add_var(v: InvocationStringView, name: Seq<char>)
    requires
        v.only_var_invocs(),
    ensures
        v.add_invoc(InvocationView::Var(name)).only_var_invocs(),
{
    let w = v.add_invoc(InvocationView::Var(name));
    assert forall|i: int, j: int|
        0 <= i < w.segments.len() && 0 <= j < w.segments[i].1.len()
            implies #[trigger] w.segments[i].1[j] is Var by {
        if v.tail.len() == 0 && v.segments.len() > 0 {
            if i < v.segments.len() - 1 {
                assert(w.segments[i] == v.segments[i]);
            } else if j < v.segments.last().1.len() {
                assert(w.segments[i].1[j] == v.segments[i].1[j]);
            }
        } else if i < v.segments.len() {
            assert(w.segments[i] == v.segments[i]);
        }
    }
}

/// Evaluating a parameter that is one variable invocation `:x`, with `x`
/// bound, gives the value of `x`.
proof fn lemma_pass_one_var(x: Seq<char>, rules: Rules, named: Map<Seq<char>, Seq<char>>, depth: nat)
    requires
        x.len() > 0,
        named.contains_key(x),
    ensures
        spec_pass(InvocationStringView::empty_view().add_invoc(InvocationView::Var(x)), rules, named, depth)
            matches Ok(isr) && isr_text(isr) == Ok::<Seq<char>, ErrorView>(named[x]),
{
    let inv = InvocationView::Var(x);
    let p = InvocationStringView::empty_view().add_invoc(inv);
    let e = Seq::<char>::empty();
    assert(p == InvocationStringView { segments: seq![(e, seq![inv])], tail: e });
    let parts = p.parts();
    assert(parts == seq![(e, seq![inv]), (e, Seq::<InvocationView>::empty())]);
    let st0 = MatchState { input: None, isr: initial_isr(named) };
    lemma_match_istr_unfold(p, None, rules, named, false, depth);
    assert(parts.drop_last() == seq![(e, seq![inv])]);
    assert(parts.drop_last().drop_last() =~= Seq::<(Seq<char>, Seq<InvocationView>)>::empty());
    assert(spec_parts(parts.drop_last().drop_last(), st0, rules, false, depth) == Ok::<MatchState, ErrorView>(st0));
    let st1 = MatchState { input: None, isr: IsrModel { result: st0.isr.result.add_str(e), ..st0.isr } };
    assert(text_step(st0, e) == Ok::<MatchState, ErrorView>(st1));
    assert(seq![inv].drop_last() =~= Seq::<InvocationView>::empty());
    assert(spec_invocs(seq![inv].drop_last(), st1, rules, false, depth) == Ok::<MatchState, ErrorView>(st1));
    let st2 = MatchState { input: None, isr: IsrModel { result: st1.isr.result.add_invoc(inv), ..st1.isr } };
    assert(spec_invoc(inv, st1, rules, false, depth) == Ok::<MatchState, ErrorView>(st2));
    assert(spec_invocs(seq![inv], st1, rules, false, depth) == Ok::<MatchState, ErrorView>(st2));
    assert(spec_parts(parts.drop_last(), st0, rules, false, depth) == Ok::<MatchState, ErrorView>(st2));
    let st3 = MatchState { input: None, isr: IsrModel { result: st2.isr.result.add_str(e), ..st2.isr } };
    assert(text_step(st2, e) == Ok::<MatchState, ErrorView>(st3));
    assert(spec_invocs(Seq::<InvocationView>::empty(), st3, rules, false, depth) == Ok::<MatchState, ErrorView>(st3));
    assert(spec_parts(parts, st0, rules, false, depth) == Ok::<MatchState, ErrorView>(st3));
    let res = st3.isr.result;
    assert(res == InvocationStringView { segments: seq![(e, seq![inv])], tail: e });
    let b0 = BindState { out: e, anon: 0 };
    assert(res.segments.drop_last() =~= Seq::<(Seq<char>, Seq<InvocationView>)>::empty());
    assert(bind_segments(res.segments.drop_last(), named, Seq::empty()) == Ok::<BindState, BindError>(b0));
    let b1 = BindState { out: b0.out + e, anon: 0 };
    assert(bind_invocs(seq![inv].drop_last(), named, Seq::empty(), b1) == Ok::<BindState, BindError>(b1));
    assert(bind_invocs(seq![inv], named, Seq::empty(), b1)
        == Ok::<BindState, BindError>(BindState { out: b1.out + named[x], anon: 0 }));
    assert(b1.out + named[x] + e =~= named[x]);
}

/// The parameter of a rule invocation sees the variables bound before it:
/// where `:x` was bound, the invocation `:var:r(:x)` applies `r` with the
/// value of `x` as parameter and binds its result to `var`.
pub proof fn law_parameter_sees_bindings(
    var: Seq<char>,
    r: Seq<char>,
    x: Seq<char>,
    st: MatchState,
    rules: Rules,
    mvi: bool,
    depth: nat,
)
    requires
        depth > 0,
        x.len() > 0,
        st.isr.named.contains_key(x),
        rules.contains_key(r),
        var.len() > 0,
        !st.isr.named.contains_key(var),
        spec_match_last(
            rules[r],
            match st.input { Some(i) => i, None => Seq::<char>::empty() },
            st.isr.named[x],
            rules,
            (depth - 1) as nat,
        ) is Ok,
    ensures
        spec_invoc(
            InvocationView::Rule(var, r, InvocationStringView::empty_view().add_invoc(InvocationView::Var(x))),
            st,
            rules,
            mvi,
            depth,
        ) matches Ok(st2) && st2.isr.named == st.isr.named.insert(
            var,
            spec_match_last(
                rules[r],
                match st.input { Some(i) => i, None => Seq::<char>::empty() },
                st.isr.named[x],
                rules,
                (depth - 1) as nat,
            )->Ok_0.1,
        ),
{
    lemma_pass_one_var(x, rules, st.isr.named, (depth - 1) as nat);
}

/// Evaluating the empty parameter gives the empty text.
proof fn lemma_pass_empty(rules: Rules, named: Map<Seq<char>, Seq<char>>, depth: nat)
    ensures
        spec_pass(InvocationStringView::empty_view(), rules, named, depth)
            matches Ok(isr) && isr_text(isr) == Ok::<Seq<char>, ErrorView>(Seq::empty()),
{
    let p = InvocationStringView::empty_view();
    let e = Seq::<char>::empty();
    let parts = p.parts();
    assert(parts == seq![(e, Seq::<InvocationView>::empty())]);
    let st0 = MatchState { input: None, isr: initial_isr(named) };
    lemma_match_istr_unfold(p, None, rules, named, false, depth);
    assert(parts.drop_last() =~= Seq::<(Seq<char>, Seq<InvocationView>)>::empty());
    assert(spec_parts(parts.drop_last(), st0, rules, false, depth) == Ok::<MatchState, ErrorView>(st0));
    let st1 = MatchState { input: None, isr: IsrModel { result: st0.isr.result.add_str(e), ..st0.isr } };
    assert(text_step(st0, e) == Ok::<MatchState, ErrorView>(st1));
    assert(spec_invocs(Seq::<InvocationView>::empty(), st1, rules, false, depth) == Ok::<MatchState, ErrorView>(st1));
    assert(spec_parts(parts, st0, rules, false, depth) == Ok::<MatchState, ErrorView>(st1));
    assert(st1.isr.result == InvocationStringView { segments: Seq::empty(), tail: e + e });
    assert(e + e =~= e);
    assert(bind_segments(Seq::<(Seq<char>, Seq<InvocationView>)>::empty(), named, Seq::empty())
        == Ok::<BindState, BindError>(BindState { out: e, anon: 0 }));
    assert(e + (e + e) =~= e);
}

/// One anonymous rule invocation with an empty parameter applies its rule
/// to the input and adds the result at the end of the anonymous results.
proof fn lemma_one_anonymous(r: Seq<char>, st: MatchState, rules: Rules, mvi: bool, depth: nat)
    requires
        depth > 0,
        st.input is Some,
        rules.contains_key(r),
        spec_match_last(rules[r], st.input->Some_0, Seq::empty(), rules, (depth - 1) as nat) is Ok,
    ensures
        ({
            let (rest, res) = spec_match_last(rules[r], st.input->Some_0, Seq::empty(), rules, (depth - 1) as nat)->Ok_0;
            spec_invoc(InvocationView::Rule(Seq::empty(), r, InvocationStringView::empty_view()), st, rules, mvi, depth)
                == Ok::<MatchState, ErrorView>(MatchState {
                    input: Some(rest),
                    isr: IsrModel {
                        result: st.isr.result.add_invoc(InvocationView::Var(Seq::empty())),
                        indexed: st.isr.indexed.push(res),
                        ..st.isr
                    },
                })
        }),
{
    lemma_pass_empty(rules, st.isr.named, (depth - 1) as nat);
}

/// Anonymous results of rule invocations are kept in the order they were
/// matched: the invocations `::r1::r2` add the result of `r1`, then that of
/// `r2`, at the end of the anonymous results, and leave what `r2` left.
#[verifier::spinoff_prover]
#[verifier::rlimit(80)]
pub proof fn law_anonymous_results_in_order(
    r1: Seq<char>,
    r2: Seq<char>,
    st: MatchState,
    rules: Rules,
    mvi: bool,
    depth: nat,
)
    requires
        depth > 0,
        st.input is Some,
        rules.contains_key(r1),
        rules.contains_key(r2),
        spec_match_last(rules[r1], st.input->Some_0, Seq::empty(), rules, (depth - 1) as nat) is Ok,
        spec_match_last(
            rules[r2],
            spec_match_last(rules[r1], st.input->Some_0, Seq::empty(), rules, (depth - 1) as nat)->Ok_0.0,
            Seq::empty(),
            rules,
            (depth - 1) as nat,
        ) is Ok,
    ensures
        ({
            let e = Seq::<char>::empty();
            let (rest1, a) = spec_match_last(rules[r1], st.input->Some_0, e, rules, (depth - 1) as nat)->Ok_0;
            let (rest2, b) = spec_match_last(rules[r2], rest1, e, rules, (depth - 1) as nat)->Ok_0;
            let invs = seq![
                InvocationView::Rule(e, r1, InvocationStringView::empty_view()),
                InvocationView::Rule(e, r2, InvocationStringView::empty_view()),
            ];
            spec_invocs(invs, st, rules, mvi, depth) matches Ok(st2)
                && st2.input == Some(rest2)
                && st2.isr.indexed == st.isr.indexed + seq![a, b]
                && st2.isr.named == st.isr.named
        }),
{
    let e = Seq::<char>::empty();
    let i1 = InvocationView::Rule(e, r1, InvocationStringView::empty_view());
    let i2 = InvocationView::Rule(e, r2, InvocationStringView::empty_view());
    let invs = seq![i1, i2];
    let (rest1, a) = spec_match_last(rules[r1], st.input->Some_0, e, rules, (depth - 1) as nat)->Ok_0;
    let (rest2, b) = spec_match_last(rules[r2], rest1, e, rules, (depth - 1) as nat)->Ok_0;
    lemma_one_anonymous(r1, st, rules, mvi, depth);
    let s1 = spec_invoc(i1, st, rules, mvi, depth)->Ok_0;
    lemma_one_anonymous(r2, s1, rules, mvi, depth);
    assert(invs.drop_last() == seq![i1]);
    assert(invs.drop_last().drop_last() =~= Seq::<InvocationView>::empty());
    assert(spec_invocs(invs.drop_last().drop_last(), st, rules, mvi, depth) == Ok::<MatchState, ErrorView>(st));
    assert(spec_invocs(invs.drop_last(), st, rules, mvi, depth) == Ok::<MatchState, ErrorView>(s1));
    assert(st.isr.indexed.push(a).push(b) =~= st.isr.indexed + seq![a, b]);
}

/// Negation turns a result around: a negated header matches exactly where
/// the header does not, and then consumes nothing and binds nothing.
pub proof fn law_negation(input: Seq<char>, head: InvocationStringView, res: Result<(Seq<char>, IsrModel), ErrorView>)
    ensures
        spec_negated(input, head, res, true) is Ok <==> res is Err,
        spec_negated(input, head, res, true) matches Ok((rest, isr)) ==> rest == input && isr == initial_isr(Map::empty()),
        spec_negated(input, head, res, false) == res,
{
}

/// Trying the variants from the `k`-th last on is trying the variants of the
/// rule without its last variant from the `k - 1`-th last on, where the
/// variant before the last is not applied as a loop.
proof fn lemma_try_variants_drop_last(
    rule: RuleView,
    input: Seq<char>,
    param: Seq<char>,
    rules: Rules,
    depth: nat,
    k: nat,
    cands: Seq<ErrorView>,
)
    requires
        1 <= k,
        rule.variants.len() > 0,
        rule.variants.len() >= 2 ==> !tail_call(rule.variants[rule.variants.len() - 2], rule.name, 0),
    ensures
        spec_try_variants(rule, input, param, rules, depth, k, cands) == spec_try_variants(
            RuleView { variants: rule.variants.drop_last(), ..rule },
            input,
            param,
            rules,
            depth,
            (k - 1) as nat,
            cands,
        ),
    decreases rule.variants.len() - k,
{
    let shorter = RuleView { variants: rule.variants.drop_last(), ..rule };
    if k < rule.variants.len() {
        let v = rule.variants[rule.variants.len() - 1 - k];
        assert(v == shorter.variants[shorter.variants.len() - 1 - (k - 1)]);
        assert(spec_try_match(v, input, param, rules, depth, rule.name, k)
            == spec_try_match(v, input, param, rules, depth, shorter.name, (k - 1) as nat));
        match spec_try_match(v, input, param, rules, depth, rule.name, k) {
            Ok(_) => {},
            Err(e) => lemma_try_variants_drop_last(rule, input, param, rules, depth, k + 1, cands.push(e)),
        }
    }
}

/// A rule applies its last variant first: where that variant applies, its
/// result is the rule's; where it does not, the rule gives what the rule
/// without it gives, whose error is made of that variant's error first
/// (where the variant before the last is not applied as a loop, see
/// `tail_call`).
pub proof fn law_last_variant_first(
    rule: RuleView,
    input: Seq<char>,
    param: Seq<char>,
    rules: Rules,
    depth: nat,
)
    requires
        rule.variants.len() > 0,
        rule.variants.len() >= 2 ==> !tail_call(rule.variants[rule.variants.len() - 2], rule.name, 0),
    ensures
        spec_match_last(rule, input, param, rules, depth) == match spec_try_match(rule.variants.last(), input, param, rules, depth, rule.name, 0) {
            Ok(x) => Ok(x),
            Err(e) => spec_try_variants(RuleView { variants: rule.variants.drop_last(), ..rule }, input, param, rules, depth, 0, seq![e]),
        },
{
    match spec_try_match(rule.variants.last(), input, param, rules, depth, rule.name, 0) {
        Ok(_) => {},
        Err(e) => {
            assert(Seq::<ErrorView>::empty().push(e) == seq![e]);
            lemma_try_variants_drop_last(rule, input, param, rules, depth, 1, seq![e]);
        },
    }
}

/// A rule without variants never applies.
pub proof fn law_no_variant_no_match(rule: RuleView, input: Seq<char>, param: Seq<char>, rules: Rules, depth: nat)
    requires
        rule.variants.len() == 0,
    ensures
        spec_match_last(rule, input, param, rules, depth) is Err,
{
}

/// Where no application is left, a sequence changes nothing.
pub proof fn law_sequence_without_applications(rule: RuleView, input: Seq<char>, rules: Rules, depth: nat, k: nat)
    ensures
        spec_sequence(rule, input, rules, MaybeInf::Finite(0u32), depth, k) == (
            Ok::<Seq<char>, ErrorView>(input),
            MaybeInf::Finite(0u32),
        ),
{
}

/// A sequence fails where its first variant (the last one) fails, and an
/// application counts one off the applications left.
pub proof fn law_sequence_first_step(rule: RuleView, input: Seq<char>, rules: Rules, left: MaybeInf<u32>, depth: nat)
    requires
        rule.variants.len() > 0,
        left != MaybeInf::Finite(0u32),
    ensures
        spec_try_match(rule.variants.last(), input, Seq::empty(), rules, depth, Seq::empty(), 0) is Err
            ==> spec_sequence(rule, input, rules, left, depth, 0).0 is Err,
        left matches MaybeInf::Finite(x) ==> spec_sequence(rule, input, rules, left, depth, 0).1 matches MaybeInf::Finite(y) && y < x,
{
    lemma_sequence_step(rule, input, rules, left, depth, 0);
    if let Ok((rest, replacement)) = spec_try_match(rule.variants.last(), input, Seq::empty(), rules, depth, Seq::empty(), 0) {
        lemma_sequence_step(rule, replacement + rest, rules, dec_left(left), depth, 1);
        lemma_sequence_left_decreases(rule, replacement + rest, rules, dec_left(left), depth, 1);
    }
}

/// The applications left never go up.
proof fn lemma_sequence_left_decreases(rule: RuleView, input: Seq<char>, rules: Rules, left: MaybeInf<u32>, depth: nat, k: nat)
    ensures
        left matches MaybeInf::Finite(x) ==> spec_sequence(rule, input, rules, left, depth, k).1 matches MaybeInf::Finite(y) && y <= x,
        left == MaybeInf::<u32>::Infinite ==> spec_sequence(rule, input, rules, left, depth, k).1 == MaybeInf::<u32>::Infinite,
    decreases rule.variants.len() - k,
{
    if k < rule.variants.len() && left != MaybeInf::Finite(0u32) {
        match spec_try_match(rule.variants[rule.variants.len() - 1 - k], input, Seq::empty(), rules, depth, Seq::empty(), k) {
            Ok((rest, replacement)) => {
                lemma_sequence_left_decreases(rule, replacement + rest, rules, dec_left(left), depth, k + 1);
            },
            Err(_) => {},
        }
    }
}

/// `rest` is what is left of `input` after a prefix of it: its end.
pub open spec fn is_rest_of(rest: Seq<char>, input: Seq<char>) -> bool {
    rest.len() <= input.len() && rest == input.skip(input.len() - rest.len())
}

pub proof fn lemma_rest_of_trans(a: Seq<char>, b: Seq<char>, c: Seq<char>)
    requires
        is_rest_of(a, b),
        is_rest_of(b, c),
    ensures
        is_rest_of(a, c),
{
    assert(c.skip(c.len() - b.len()).skip(b.len() - a.len()) =~= c.skip(c.len() - a.len()));
}

proof fn lemma_rest_of_skip(s: Seq<char>, n: int)
    requires
        0 <= n <= s.len(),
    ensures
        is_rest_of(s.skip(n), s),
{
}

/// A state's input (where there is one) is left of `input`.
pub open spec fn state_rest_of(st: MatchState, input: Option<Seq<char>>) -> bool {
    match (st.input, input) {
        (Some(r), Some(i)) => is_rest_of(r, i),
        (None, None) => true,
        _ => false,
    }
}

proof fn lemma_state_rest_of_trans(a: MatchState, b: MatchState, input: Option<Seq<char>>)
    requires
        state_rest_of(a, b.input),
        state_rest_of(b, input),
    ensures
        state_rest_of(a, input),
{
    if let (Some(ra), Some(rb), Some(i)) = (a.input, b.input, input) {
        lemma_rest_of_trans(ra, rb, i);
    }
}

proof fn lemma_text_step_rest(st: MatchState, text: Seq<char>)
    ensures
        text_step(st, text) matches Ok(st2) ==> state_rest_of(st2, st.input),
{
    if let Some(i) = st.input {
        if text.is_prefix_of(i) {
            lemma_rest_of_skip(i, text.len() as int);
        }
    }
}

proof fn lemma_invoc_rest(inv: InvocationView, st: MatchState, rules: Rules, mvi: bool, depth: nat)
    requires
        mvi ==> st.input is Some,
    ensures
        spec_invoc(inv, st, rules, mvi, depth) matches Ok(st2) ==> state_rest_of(st2, st.input),
    decreases depth, 0nat, 0nat,
{
    if let Some(i) = st.input {
        assert(i.skip(0) =~= i);
    }
    match inv {
        InvocationView::Rule(var, rule, param) => {
            if depth > 0 && rules.contains_key(rule) {
                if let Ok(pisr) = spec_pass(param, rules, st.isr.named, (depth - 1) as nat) {
                    if let Ok(param_text) = isr_text(pisr) {
                        let input = match st.input {
                            Some(i) => i,
                            None => Seq::empty(),
                        };
                        lemma_match_last_rest(rules[rule], input, param_text, rules, (depth - 1) as nat);
                        if let Ok((rest, _)) = spec_match_last(rules[rule], input, param_text, rules, (depth - 1) as nat) {
                            if let Ok(st2) = spec_invoc(inv, st, rules, mvi, depth) {
                                assert(st2.input == match st.input {
                                    Some(_) => Some(rest),
                                    None => None::<Seq<char>>,
                                });
                            }
                        }
                    }
                }
            }
        },
        InvocationView::Var(var) => {
            if mvi && st.isr.named.contains_key(var) {
                let input = st.input->Some_0;
                let content = st.isr.named[var];
                if content.is_prefix_of(input) {
                    lemma_rest_of_skip(input, content.len() as int);
                }
            }
        },
    }
}

proof fn lemma_invocs_rest(invs: Seq<InvocationView>, st: MatchState, rules: Rules, mvi: bool, depth: nat)
    requires
        mvi ==> st.input is Some,
    ensures
        spec_invocs(invs, st, rules, mvi, depth) matches Ok(st2) ==> state_rest_of(st2, st.input),
    decreases depth, 1nat, invs.len(),
{
    if invs.len() == 0 {
        if let Some(i) = st.input {
            assert(i.skip(0) =~= i);
        }
    } else {
        lemma_invocs_rest(invs.drop_last(), st, rules, mvi, depth);
        if let Ok(s) = spec_invocs(invs.drop_last(), st, rules, mvi, depth) {
            lemma_invoc_rest(invs.last(), s, rules, mvi, depth);
            if let Ok(s2) = spec_invoc(invs.last(), s, rules, mvi, depth) {
                lemma_state_rest_of_trans(s2, s, st.input);
            }
        }
    }
}

proof fn lemma_parts_rest(parts: Seq<(Seq<char>, Seq<InvocationView>)>, st: MatchState, rules: Rules, mvi: bool, depth: nat)
    requires
        mvi ==> st.input is Some,
    ensures
        spec_parts(parts, st, rules, mvi, depth) matches Ok(st2) ==> state_rest_of(st2, st.input),
    decreases depth, 2nat, parts.len(),
{
    if parts.len() == 0 {
        if let Some(i) = st.input {
            assert(i.skip(0) =~= i);
        }
    } else {
        lemma_parts_rest(parts.drop_last(), st, rules, mvi, depth);
        if let Ok(s) = spec_parts(parts.drop_last(), st, rules, mvi, depth) {
            lemma_text_step_rest(s, parts.last().0);
            if let Ok(s2) = text_step(s, parts.last().0) {
                lemma_invocs_rest(parts.last().1, s2, rules, mvi, depth);
                if let Ok(s3) = spec_invocs(parts.last().1, s2, rules, mvi, depth) {
                    lemma_state_rest_of_trans(s3, s2, s.input);
                    lemma_state_rest_of_trans(s3, s, st.input);
                }
            }
        }
    }
}

proof fn lemma_with_input_rest(
    v: InvocationStringView,
    input: Seq<char>,
    rules: Rules,
    initial: Map<Seq<char>, Seq<char>>,
    mvi: bool,
    depth: nat,
)
    ensures
        spec_match_with_input(v, input, rules, initial, mvi, depth) matches Ok((rest, _)) ==> is_rest_of(rest, input),
    decreases depth, 4nat, 0nat,
{
    lemma_parts_rest(v.parts(), MatchState { input: Some(input), isr: initial_isr(initial) }, rules, mvi, depth);
}

proof fn lemma_apply_variant_rest(v: RuleVariantView, input: Seq<char>, named: Map<Seq<char>, Seq<char>>, rules: Rules, depth: nat)
    ensures
        spec_apply_variant(v, input, named, rules, depth) matches Ok((rest, _)) ==> is_rest_of(rest, input),
    decreases depth, 5nat, 1nat,
{
    assert(input.skip(0) =~= input);
    if !v.flags.contains("any"@) {
        lemma_with_input_rest(v.header, input, rules, named, true, depth);
    }
}

proof fn lemma_try_match_rest(v: RuleVariantView, input: Seq<char>, param: Seq<char>, rules: Rules, depth: nat, name: Seq<char>, index: nat)
    ensures
        spec_try_match(v, input, param, rules, depth, name, index) matches Ok((rest, _)) ==> is_rest_of(rest, input),
        spec_try_match_inner(v, input, param, rules, depth, name, index) matches Ok((rest, _)) ==> is_rest_of(rest, input),
    decreases depth, 6nat, 0nat,
{
    if let Ok(named) = spec_match_param(v.parameter_header, param, rules, depth) {
        lemma_apply_variant_rest(v, input, named, rules, depth);
        if tail_call(v, name, index) && !tail_rejected(v) && depth > 0 && rules.contains_key(name) {
            lemma_try_variants_rest(rules[name], input, param, rules, (depth - 1) as nat, 1, Seq::empty());
        }
    }
}

proof fn lemma_try_variants_rest(rule: RuleView, input: Seq<char>, param: Seq<char>, rules: Rules, depth: nat, k: nat, cands: Seq<ErrorView>)
    ensures
        spec_try_variants(rule, input, param, rules, depth, k, cands) matches Ok((rest, _)) ==> is_rest_of(rest, input),
    decreases depth, 7nat, rule.variants.len() - k,
{
    if k < rule.variants.len() {
        lemma_try_match_rest(rule.variants[rule.variants.len() - 1 - k], input, param, rules, depth, rule.name, k);
        match spec_try_match(rule.variants[rule.variants.len() - 1 - k], input, param, rules, depth, rule.name, k) {
            Ok(_) => {},
            Err(e) => lemma_try_variants_rest(rule, input, param, rules, depth, k + 1, cands.push(e)),
        }
    }
}

proof fn lemma_match_last_rest(rule: RuleView, input: Seq<char>, param: Seq<char>, rules: Rules, depth: nat)
    ensures
        spec_match_last(rule, input, param, rules, depth) matches Ok((rest, _)) ==> is_rest_of(rest, input),
    decreases depth, 8nat, 0nat,
{
    lemma_try_variants_rest(rule, input, param, rules, depth, 0, Seq::empty());
}

/// Matching only consumes input: what a rule, or a variant of it, leaves of
/// the input is the end of the input.
pub proof fn law_matching_consumes_a_prefix(rule: RuleView, input: Seq<char>, param: Seq<char>, rules: Rules, depth: nat)
    ensures
        spec_match_last(rule, input, param, rules, depth) matches Ok((rest, _)) ==> is_rest_of(rest, input),
        forall|k: int| 0 <= k < rule.variants.len() ==> (
            (#[trigger] spec_try_match(rule.variants[k], input, param, rules, depth, rule.name, (rule.variants.len() - 1 - k) as nat))
                matches Ok((rest, _)) ==> is_rest_of(rest, input)),
{
    lemma_match_last_rest(rule, input, param, rules, depth);
    assert forall|k: int| 0 <= k < rule.variants.len() implies (
        (#[trigger] spec_try_match(rule.variants[k], input, param, rules, depth, rule.name, (rule.variants.len() - 1 - k) as nat))
            matches Ok((rest, _)) ==> is_rest_of(rest, input)) by {
        lemma_try_match_rest(rule.variants[k], input, param, rules, depth, rule.name, (rule.variants.len() - 1 - k) as nat);
    }
}

} // verus!
