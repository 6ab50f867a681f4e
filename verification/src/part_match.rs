//! Parsing and applying plain rules (see `ruletypes`): the invocations
//! `:var:rule` and `:var`, rule parts in braces, and matching a header
//! against input, which applies the rules it invokes.
use vstd::prelude::*;
use vstd::string::*;
use crate::error::{MatchError, MatchResult};
use crate::text::{ident_len, lemma_ident_len, split_first_char, first_char};
use crate::vars::Vars;
use crate::types::invocation_string::{bind_vars_spec, strings_view};
use crate::ruletypes::{
    RuleInvocation, VarInvocation, RulePart, RulePartView, RulePartBuilder, Header, Rule, Rules,
    RuleVariant, PlainRuleView, PlainVariantView, header_as_body, body_istr, seq_views,
};
use crate::mmatch::{Input, match_char, match_ident, spec_escapable_old, match_escapable_char_old};
use crate::mmatch::match_invocation_string::MAX_RULE_DEPTH;
use crate::mmatch::semantics::{is_rest_of, lemma_rest_of_trans};
use crate::{ESCAPE_CHAR, RULE_INVOCATION_CHAR};

verus! {

broadcast use vstd::string::group_string_axioms;

/// The model of `match_invocation`: `:`, an optional identifier (the
/// variable), `:` and an identifier (the rule).
pub open spec fn spec_plain_invocation(s: Seq<char>) -> Result<(Seq<char>, (Seq<char>, Seq<char>)), ()> {
    if s.len() > 0 && s[0] == ':' {
        let t = s.drop_first();
        let n = ident_len(t) as int;
        let u = t.skip(n);
        if u.len() > 0 && u[0] == ':' && ident_len(u.drop_first()) > 0 {
            let w = u.drop_first();
            let m = ident_len(w) as int;
            Ok((w.skip(m), (t.take(n), w.take(m))))
        } else {
            Err(())
        }
    } else {
        Err(())
    }
}

/// The model of `match_var`: `:` and an identifier.
pub open spec fn spec_plain_var(s: Seq<char>) -> Result<(Seq<char>, Seq<char>), ()> {
    if s.len() > 0 && s[0] == ':' && ident_len(s.drop_first()) > 0 {
        let t = s.drop_first();
        let n = ident_len(t) as int;
        Ok((t.skip(n), t.take(n)))
    } else {
        Err(())
    }
}

/// The invocations that rule parts can hold, with the syntax that each is
/// written in.
pub trait PartInvocation: View + Sized {
    /// The model of matching one invocation of this kind at the start of `s`.
    spec fn spec_match_invocation(s: Seq<char>) -> Result<(Seq<char>, Self::V), ()>;

    /// Matching an invocation consumes input.
    proof fn lemma_match_shorter(s: Seq<char>)
        ensures
            Self::spec_match_invocation(s) matches Ok((r, _)) ==> r.len() < s.len(),
    ;

    /// How an invocation of this kind is written.
    spec fn display(v: Self::V) -> Seq<char>;

    /// The invocation as it is written.
    fn to_display_string(&self) -> (r: String)
        ensures
            r@ == Self::display(self@),
    ;
}

impl PartInvocation for RuleInvocation {
    open spec fn spec_match_invocation(s: Seq<char>) -> Result<(Seq<char>, (Seq<char>, Seq<char>)), ()> {
        spec_plain_invocation(s)
    }

    open spec fn display(v: (Seq<char>, Seq<char>)) -> Seq<char> {
        ":"@ + v.0 + ":"@ + v.1
    }

    fn to_display_string(&self) -> (r: String) {
        let mut out = String::from_str(":");
        out.append(self.result_var());
        out.append(":");
        out.append(self.rule());
        out
    }

    proof fn lemma_match_shorter(s: Seq<char>) {
        if s.len() > 0 {
            lemma_ident_len(s.drop_first());
            let u = s.drop_first().skip(ident_len(s.drop_first()) as int);
            if u.len() > 0 {
                lemma_ident_len(u.drop_first());
            }
        }
    }
}

impl PartInvocation for VarInvocation {
    open spec fn spec_match_invocation(s: Seq<char>) -> Result<(Seq<char>, Seq<char>), ()> {
        spec_plain_var(s)
    }

    proof fn lemma_match_shorter(s: Seq<char>) {
        if s.len() > 0 {
            lemma_ident_len(s.drop_first());
        }
    }

    open spec fn display(v: Seq<char>) -> Seq<char> {
        ":"@ + v
    }

    fn to_display_string(&self) -> (r: String) {
        let mut out = String::from_str(":");
        out.append(self.var_name());
        out
    }
}

/// How invocations are written one after the other.
pub open spec fn invocations_display<I: PartInvocation>(invs: Seq<I::V>) -> Seq<char>
    decreases invs.len(),
{
    if invs.len() == 0 {
        Seq::empty()
    } else {
        invocations_display::<I>(invs.drop_last()) + I::display(invs.last())
    }
}

/// How parts are written: each text, then its invocations.
pub open spec fn parts_display<I: PartInvocation>(parts: Seq<(Seq<char>, Seq<I::V>)>) -> Seq<char>
    decreases parts.len(),
{
    if parts.len() == 0 {
        Seq::empty()
    } else {
        parts_display::<I>(parts.drop_last()) + parts.last().0 + invocations_display::<I>(parts.last().1)
    }
}

impl<I: PartInvocation> RulePart<I> {
    /// The part as it is written (see `parts_display`), as in the error of a
    /// negated header that matched.
    pub fn to_display_string(&self) -> (r: String)
        ensures
            r@ == parts_display::<I>(self@.parts()),
    {
        let items = self.iter();
        let ghost parts = self@.parts();
        let mut out = String::new();
        let mut i: usize = 0;
        while i < items.len()
            invariant
                i <= items@.len(),
                items@.len() == parts.len(),
                forall|j: int| 0 <= j < items@.len() ==> (#[trigger] items@[j]).0@ == parts[j].0
                    && seq_views(items@[j].1@) == parts[j].1,
                out@ == parts_display::<I>(parts.take(i as int)),
            decreases items@.len() - i,
        {
            let (text, invs) = items[i];
            let ghost before = out@;
            out.append(text);
            let ghost invs_v = parts[i as int].1;
            let mut k: usize = 0;
            while k < invs.len()
                invariant
                    k <= invs@.len(),
                    seq_views(invs@) == invs_v,
                    out@ == before + text@ + invocations_display::<I>(invs_v.take(k as int)),
                decreases invs@.len() - k,
            {
                let d = invs[k].to_display_string();
                out.append(d.as_str());
                proof {
                    assert(invs_v.take(k + 1).drop_last() =~= invs_v.take(k as int));
                    assert(invs_v[k as int] == invs@[k as int]@);
                }
                k = k + 1;
            }
            proof {
                assert(invs_v.take(invs@.len() as int) =~= invs_v);
                assert(parts.take(i + 1).drop_last() =~= parts.take(i as int));
                assert(parts.take(i + 1).last() == parts[i as int]);
            }
            i = i + 1;
        }
        proof {
            assert(parts.take(items@.len() as int) =~= parts);
        }
        out
    }
}

/// A result of matching an invocation agrees with its model.
pub open spec fn invocation_matches<I: PartInvocation>(s: Seq<char>, r: MatchResult<(&Input, I)>) -> bool {
    match (r, I::spec_match_invocation(s)) {
        (Ok((rest, inv)), Ok((srest, sinv))) => rest@ == srest && inv@ == sinv,
        (Err(_), Err(_)) => true,
        _ => false,
    }
}

/// Matches a variable invocation `:var`.
pub fn match_var<'a>(input: &'a Input) -> (r: MatchResult<(&'a Input, VarInvocation)>)
    ensures
        invocation_matches::<VarInvocation>(input@, r),
        r matches Err(e) ==> e@ == crate::error::plain_error(crate::mmatch::var_error_msg(input@)),
{
    match match_char(input, ':') {
        Ok(rest) => match match_ident(rest) {
            Ok((rest2, ident)) => Ok((rest2, VarInvocation::new(ident))),
            Err(e) => Err(e),
        },
        Err(e) => Err(e),
    }
}

/// Matches a rule invocation `:var:rule` (or `::rule`).
pub fn match_invocation<'a>(input: &'a Input) -> (r: MatchResult<(&'a Input, RuleInvocation)>)
    ensures
        invocation_matches::<RuleInvocation>(input@, r),
{
    let input = match match_char(input, RULE_INVOCATION_CHAR) {
        Ok(i) => i,
        Err(e) => return Err(e),
    };
    let ghost t = input@;
    let (input, variable_ident) = match match_ident(input) {
        Ok(x) => x,
        Err(_) => {
            proof {
                reveal_strlit("");
                assert(t.skip(0) =~= t);
                assert(t.take(0) =~= ""@);
            }
            (input, "")
        },
    };
    assert(variable_ident@ == t.take(ident_len(t) as int));
    assert(input@ == t.skip(ident_len(t) as int));
    let input = match match_char(input, RULE_INVOCATION_CHAR) {
        Ok(i) => i,
        Err(e) => return Err(e),
    };
    let (input, rule_ident) = match match_ident(input) {
        Ok(x) => x,
        Err(e) => return Err(e),
    };
    Ok((input, RuleInvocation::new(variable_ident, rule_ident)))
}

/// Matches one character; where it is `escape`, the character after it instead.
pub fn match_escapable_char(input: &Input, escape: char) -> (r: MatchResult<(&Input, char)>)
    ensures
        match (r, spec_escapable_old(input@, escape)) {
            (Ok((rest, c)), Some((srest, sc))) => rest@ == srest && c == sc,
            (Err(_), None) => true,
            _ => false,
        },
{
    match_escapable_char_old(input, escape)
}

/// The body of a rule part after `{`: invocations, escapable characters,
/// up to the `}` that ends it. `acc` is the part read so far.
pub open spec fn spec_part_loop<I: PartInvocation>(t: Seq<char>, acc: RulePartView<I::V>) -> Result<(Seq<char>, Option<RulePartView<I::V>>), ()>
    decreases t.len(),
{
    match I::spec_match_invocation(t) {
        Ok((r, inv)) => {
            proof {
                I::lemma_match_shorter(t);
            }
            spec_part_loop::<I>(r, acc.add_invoc(inv))
        },
        Err(_) => if t.len() > 0 && t[0] == '}' {
            Ok((t.drop_first(), Some(acc)))
        } else {
            match spec_escapable_old(t, '.') {
                Some((r, c)) => spec_part_loop::<I>(r, acc.add_str(seq![c])),
                None => Err(()),
            }
        },
    }
}

/// The model of `match_rule_part`.
pub open spec fn spec_rule_part<I: PartInvocation>(s: Seq<char>) -> Result<(Seq<char>, Option<RulePartView<I::V>>), ()> {
    if s.len() > 0 && s[0] == '{' {
        spec_part_loop::<I>(s.drop_first(), RulePartView::empty())
    } else {
        Ok((s, None))
    }
}

/// Matches a rule header or body in braces: invocations (as
/// `match_invocation` reads them), and characters, each of which may be
/// escaped by `.`; white space is kept. Where the input does not start with
/// `{`, returns no part and the input unchanged.
pub fn match_rule_part<'a, I: PartInvocation>(
    input: &'a Input,
    match_invocation: impl Fn(&'a Input) -> MatchResult<(&'a Input, I)>,
) -> (r: MatchResult<(&'a Input, Option<RulePart<I>>)>)
    requires
        forall|s: &'a Input| #[trigger] match_invocation.requires((s,)),
        forall|s: &'a Input, r: MatchResult<(&'a Input, I)>|
            #[trigger] match_invocation.ensures((s,), r) ==> invocation_matches::<I>(s@, r),
    ensures
        match (r, spec_rule_part::<I>(input@)) {
            (Ok((rest, Some(p))), Ok((srest, Some(sp)))) => rest@ == srest && p@ == sp,
            (Ok((rest, None)), Ok((srest, None))) => rest@ == srest,
            (Err(_), Err(_)) => true,
            _ => false,
        },
{
    let mut rulepart: RulePartBuilder<I> = RulePart::new();
    let start = match match_char(input, '{') {
        Ok(i) => i,
        Err(_) => return Ok((input, None)),
    };
    let mut cur = start;
    loop
        invariant
            forall|s: &'a Input| #[trigger] match_invocation.requires((s,)),
            forall|s: &'a Input, r: MatchResult<(&'a Input, I)>|
                #[trigger] match_invocation.ensures((s,), r) ==> invocation_matches::<I>(s@, r),
            spec_part_loop::<I>(cur@, rulepart@) == spec_rule_part::<I>(input@),
        decreases cur@.len(),
    {
        let res = match_invocation(cur);
        proof {
            I::lemma_match_shorter(cur@);
        }
        match res {
            Ok((rest, invo)) => {
                rulepart.add_invoc(invo);
                cur = rest;
            },
            Err(_) => {
                match first_char(cur) {
                    Some(c) => {
                        if c == '}' {
                            let rest = match split_first_char(cur) {
                                Some((_, r)) => r,
                                None => cur,
                            };
                            return Ok((rest, Some(rulepart.seal())));
                        }
                    },
                    None => {},
                }
                match match_escapable_char(cur, ESCAPE_CHAR) {
                    Ok((rest, c)) => {
                        rulepart.add_char(c);
                        cur = rest;
                    },
                    Err(e) => return Err(e),
                }
            },
        }
    }
}

/// `match_invocation` with an unused argument, for callers that pass one.
pub fn match_invocation_<'a>(input: &'a Input, _unused: &()) -> (r: MatchResult<(&'a Input, RuleInvocation)>)
    ensures
        invocation_matches::<RuleInvocation>(input@, r),
{
    match_invocation(input)
}

/// `match_var` with an unused argument, for callers that pass one.
pub fn match_var_<'a>(input: &'a Input, _unused: &()) -> (r: MatchResult<(&'a Input, VarInvocation)>)
    ensures
        invocation_matches::<VarInvocation>(input@, r),
        r matches Err(e) ==> e@ == crate::error::plain_error(crate::mmatch::var_error_msg(input@)),
{
    match_var(input)
}

/// `match_var_` and `match_var` give the same on every input: where the
/// results `r1` and `r2` are what they give on `s`, both succeed with the
/// same rest and invocation, or both fail with the same error.
pub proof fn law_plain_match_var_same<'a>(
    s: Seq<char>,
    r1: MatchResult<(&'a Input, VarInvocation)>,
    r2: MatchResult<(&'a Input, VarInvocation)>,
)
    requires
        invocation_matches::<VarInvocation>(s, r1),
        r1 matches Err(e) ==> e@ == crate::error::plain_error(crate::mmatch::var_error_msg(s)),
        invocation_matches::<VarInvocation>(s, r2),
        r2 matches Err(e) ==> e@ == crate::error::plain_error(crate::mmatch::var_error_msg(s)),
    ensures
        match (r1, r2) {
            (Ok((rest1, inv1)), Ok((rest2, inv2))) => rest1@ == rest2@ && inv1@ == inv2@,
            (Err(e1), Err(e2)) => e1@ == e2@,
            _ => false,
        },
{
}

/// The state of matching a header: the input left, the named results and
/// the anonymous results in order.
pub struct HeadState {
    pub rest: Seq<char>,
    pub named: Map<Seq<char>, Seq<char>>,
    pub anon: Seq<Seq<char>>,
}

/// Matches invocations one after the other: each applies its rule (with
/// one level of nesting less) and binds the result to its variable, or to
/// the next anonymous slot. An unknown rule, a variable bound twice or no
/// level left fails.
pub open spec fn spec_plain_invocs(
    invs: Seq<(Seq<char>, Seq<char>)>,
    st: HeadState,
    rules: Map<Seq<char>, Rule>,
    depth: nat,
) -> Option<HeadState>
    decreases depth, 0nat, invs.len(),
{
    if invs.len() == 0 {
        Some(st)
    } else {
        match spec_plain_invocs(invs.drop_last(), st, rules, depth) {
            None => None,
            Some(s) => {
                let (var, rule) = invs.last();
                if depth == 0 || !rules.contains_key(rule) {
                    None
                } else {
                    match spec_plain_apply(rules[rule]@, s.rest, rules, (depth - 1) as nat) {
                        None => None,
                        Some((rest, result)) => if var.len() > 0 {
                            if s.named.contains_key(var) {
                                None
                            } else {
                                Some(HeadState { rest: rest, named: s.named.insert(var, result), anon: s.anon })
                            }
                        } else {
                            Some(HeadState { rest: rest, named: s.named, anon: s.anon.push(result) })
                        },
                    }
                }
            },
        }
    }
}

/// Anonymous results are kept in the order they were matched: matching two
/// anonymous invocations `::r1::r2` adds the result of `r1`, then that of
/// `r2`, at the end of the anonymous results, and leaves what `r2` left.
pub proof fn law_plain_anonymous_in_order(
    r1: Seq<char>,
    r2: Seq<char>,
    st: HeadState,
    rules: Map<Seq<char>, Rule>,
    depth: nat,
)
    requires
        depth > 0,
        rules.contains_key(r1),
        rules.contains_key(r2),
        spec_plain_apply(rules[r1]@, st.rest, rules, (depth - 1) as nat) is Some,
        spec_plain_apply(
            rules[r2]@,
            spec_plain_apply(rules[r1]@, st.rest, rules, (depth - 1) as nat)->Some_0.0,
            rules,
            (depth - 1) as nat,
        ) is Some,
    ensures
        ({
            let (rest1, a) = spec_plain_apply(rules[r1]@, st.rest, rules, (depth - 1) as nat)->Some_0;
            let (rest2, b) = spec_plain_apply(rules[r2]@, rest1, rules, (depth - 1) as nat)->Some_0;
            spec_plain_invocs(seq![(Seq::<char>::empty(), r1), (Seq::<char>::empty(), r2)], st, rules, depth)
                == Some(HeadState { rest: rest2, named: st.named, anon: st.anon + seq![a, b] })
        }),
{
    let e = Seq::<char>::empty();
    let invs = seq![(e, r1), (e, r2)];
    let (rest1, a) = spec_plain_apply(rules[r1]@, st.rest, rules, (depth - 1) as nat)->Some_0;
    let (rest2, b) = spec_plain_apply(rules[r2]@, rest1, rules, (depth - 1) as nat)->Some_0;
    assert(invs.drop_last() == seq![(e, r1)]);
    assert(invs.drop_last().drop_last() =~= Seq::<(Seq<char>, Seq<char>)>::empty());
    assert(spec_plain_invocs(invs.drop_last().drop_last(), st, rules, depth) == Some(st));
    let s1 = HeadState { rest: rest1, named: st.named, anon: st.anon.push(a) };
    assert(spec_plain_invocs(invs.drop_last(), st, rules, depth) == Some(s1));
    assert(st.anon.push(a).push(b) =~= st.anon + seq![a, b]);
}

/// Matches the parts of a header one after the other: text literally, then
/// its invocations.
pub open spec fn spec_plain_head_parts(
    parts: Seq<(Seq<char>, Seq<(Seq<char>, Seq<char>)>)>,
    input: Seq<char>,
    rules: Map<Seq<char>, Rule>,
    depth: nat,
) -> Option<HeadState>
    decreases depth, 1nat, parts.len(),
{
    if parts.len() == 0 {
        Some(HeadState { rest: input, named: Map::empty(), anon: Seq::empty() })
    } else {
        match spec_plain_head_parts(parts.drop_last(), input, rules, depth) {
            None => None,
            Some(st) => if parts.last().0.is_prefix_of(st.rest) {
                spec_plain_invocs(
                    parts.last().1,
                    HeadState { rest: st.rest.skip(parts.last().0.len() as int), ..st },
                    rules,
                    depth,
                )
            } else {
                None
            },
        }
    }
}

/// Applies one variant: its header must match; the result is its body (or,
/// without one, the header with its results in place of its invocations)
/// with the results bound, followed by the text to append.
pub open spec fn spec_plain_variant(
    v: PlainVariantView,
    input: Seq<char>,
    rules: Map<Seq<char>, Rule>,
    depth: nat,
) -> Option<(Seq<char>, Seq<char>)>
    decreases depth, 2nat, 0nat,
{
    match spec_plain_head_parts(v.match_.parts(), input, rules, depth) {
        None => None,
        Some(st) => {
            let body = match v.replace {
                Some(b) => b,
                None => header_as_body(v.match_),
            };
            match bind_vars_spec(body_istr(body), st.named, st.anon) {
                Ok(t) => Some((st.rest, t + v.append)),
                Err(_) => None,
            }
        },
    }
}

/// Tries the variants from the `k`-th last on, towards the first.
pub open spec fn spec_plain_variants(
    rule: PlainRuleView,
    input: Seq<char>,
    rules: Map<Seq<char>, Rule>,
    depth: nat,
    k: nat,
) -> Option<(Seq<char>, Seq<char>)>
    decreases depth, 3nat, rule.variants.len() - k,
{
    if k >= rule.variants.len() {
        None
    } else {
        match spec_plain_variant(rule.variants[rule.variants.len() - 1 - k], input, rules, depth) {
            Some(x) => Some(x),
            None => spec_plain_variants(rule, input, rules, depth, k + 1),
        }
    }
}

/// Applies a plain rule: its variants are tried from the last to the first;
/// the first that applies gives the input left and the result.
pub open spec fn spec_plain_apply(
    rule: PlainRuleView,
    input: Seq<char>,
    rules: Map<Seq<char>, Rule>,
    depth: nat,
) -> Option<(Seq<char>, Seq<char>)>
    decreases depth, 4nat, 0nat,
{
    spec_plain_variants(rule, input, rules, depth, 0)
}

/// Every rule that `h` invokes is defined, and no variable of `h` is bound twice.
pub open spec fn header_ok(h: RulePartView<(Seq<char>, Seq<char>)>, rules: Map<Seq<char>, Rule>) -> bool {
    &&& forall|i: int, j: int| 0 <= i < h.segments.len() && 0 <= j < h.segments[i].1.len()
        ==> rules.contains_key(#[trigger] h.segments[i].1[j].1)
    &&& forall|i1: int, j1: int, i2: int, j2: int|
        0 <= i1 < h.segments.len() && 0 <= j1 < h.segments[i1].1.len()
        && 0 <= i2 < h.segments.len() && 0 <= j2 < h.segments[i2].1.len()
        && (i1, j1) != (i2, j2) && #[trigger] h.segments[i1].1[j1].0.len() > 0
        ==> h.segments[i1].1[j1].0 != #[trigger] h.segments[i2].1[j2].0
}

/// Every header of every rule is `header_ok`.
pub open spec fn rules_ok(rules: Map<Seq<char>, Rule>) -> bool {
    forall|name: Seq<char>, k: int| rules.contains_key(name) && 0 <= k < rules[name]@.variants.len()
        ==> header_ok(#[trigger] rules[name]@.variants[k].match_, rules)
}

pub open spec fn head_result_matches<'a>(
    r: MatchResult<(&'a Input, (Vars, Vec<String>))>,
    s: Option<HeadState>,
) -> bool {
    match (r, s) {
        (Ok((rest, (named, anon))), Some(st)) => rest@ == st.rest && named@ == st.named
            && strings_view(anon@) == st.anon,
        (Err(_), None) => true,
        _ => false,
    }
}

pub open spec fn apply_result_matches<'a>(r: MatchResult<(&'a Input, String)>, s: Option<(Seq<char>, Seq<char>)>) -> bool {
    match (r, s) {
        (Ok((rest, res)), Some((srest, sres))) => rest@ == srest && res@ == sres,
        (Err(_), None) => true,
        _ => false,
    }
}

/// Matches the invocations `invs` (see `spec_plain_invocs`).
fn match_plain_invocs<'a>(
    invs: &[RuleInvocation],
    input: &'a Input,
    named: &mut Vars,
    anon: &mut Vec<String>,
    rules: &Rules,
    depth: usize,
) -> (r: MatchResult<&'a Input>)
    ensures
        match spec_plain_invocs(
            seq_views(invs@),
            HeadState { rest: input@, named: old(named)@, anon: strings_view(old(anon)@) },
            rules@,
            depth as nat,
        ) {
            Some(st) => r matches Ok(rest) && rest@ == st.rest && final(named)@ == st.named
                && strings_view(final(anon)@) == st.anon,
            None => r is Err,
        },
    decreases depth, 0nat, 0nat,
{
    let ghost st0 = HeadState { rest: input@, named: named@, anon: strings_view(anon@) };
    let ghost iv = seq_views(invs@);
    let mut cur = input;
    let mut j: usize = 0;
    while j < invs.len()
        invariant
            j <= invs@.len(),
            iv == seq_views(invs@),
            spec_plain_invocs(iv.take(j as int), st0, rules@, depth as nat) == Some(
                HeadState { rest: cur@, named: named@, anon: strings_view(anon@) },
            ),
            st0 == (HeadState { rest: input@, named: old(named)@, anon: strings_view(old(anon)@) }),
        decreases invs@.len() - j,
    {
        proof {
            assert(iv.take(j + 1).drop_last() =~= iv.take(j as int));
            assert(iv.take(j + 1).last() == iv[j as int]);
        }
        let inv = &invs[j];
        let rule = match rules.get(inv.rule()) {
            Some(r) => r,
            None => {
                proof {
                    lemma_plain_invocs_none(iv, st0, rules@, depth as nat, j + 1);
                }
                return Err(MatchError::unknown_rule(inv.rule(), cur));
            },
        };
        if depth == 0 {
            proof {
                lemma_plain_invocs_none(iv, st0, rules@, depth as nat, j + 1);
            }
            return Err(MatchError::new("Rules nest too deep"));
        }
        let (rest, result) = match rule.match_last_bounded(cur, rules, depth - 1) {
            Ok(x) => x,
            Err(e) => {
                proof {
                    lemma_plain_invocs_none(iv, st0, rules@, depth as nat, j + 1);
                }
                return Err(e);
            },
        };
        let var = inv.result_var();
        if !var.is_empty() {
            if named.contains_key(var) {
                proof {
                    lemma_plain_invocs_none(iv, st0, rules@, depth as nat, j + 1);
                }
                return Err(MatchError::new("Variable bound twice"));
            }
            named.insert(var.to_string(), result);
        } else {
            let ghost old_anon = anon@;
            let ghost rv = result@;
            anon.push(result);
            proof {
                assert(strings_view(anon@) =~= strings_view(old_anon).push(rv));
            }
        }
        cur = rest;
        j = j + 1;
    }
    proof {
        assert(iv.take(invs@.len() as int) =~= iv);
    }
    Ok(cur)
}

/// Once matching invocations fails, matching more of them fails.
proof fn lemma_plain_invocs_none(
    invs: Seq<(Seq<char>, Seq<char>)>,
    st: HeadState,
    rules: Map<Seq<char>, Rule>,
    depth: nat,
    k: int,
)
    requires
        0 <= k <= invs.len(),
        spec_plain_invocs(invs.take(k), st, rules, depth) is None,
    ensures
        spec_plain_invocs(invs, st, rules, depth) is None,
    decreases invs.len() - k,
{
    if k < invs.len() {
        assert(invs.take(k + 1).drop_last() =~= invs.take(k));
        lemma_plain_invocs_none(invs, st, rules, depth, k + 1);
    } else {
        assert(invs.take(k) =~= invs);
    }
}

/// Once matching header parts fails, matching more of them fails.
proof fn lemma_plain_parts_none(
    parts: Seq<(Seq<char>, Seq<(Seq<char>, Seq<char>)>)>,
    input: Seq<char>,
    rules: Map<Seq<char>, Rule>,
    depth: nat,
    k: int,
)
    requires
        0 <= k <= parts.len(),
        spec_plain_head_parts(parts.take(k), input, rules, depth) is None,
    ensures
        spec_plain_head_parts(parts, input, rules, depth) is None,
    decreases parts.len() - k,
{
    if k < parts.len() {
        assert(parts.take(k + 1).drop_last() =~= parts.take(k));
        lemma_plain_parts_none(parts, input, rules, depth, k + 1);
    } else {
        assert(parts.take(k) =~= parts);
    }
}

/// Matches a header against the start of `input` (see `spec_plain_head_parts`).
fn match_positive_rule_head_bounded<'a>(
    input: &'a Input,
    rule_head: &Header,
    rules: &Rules,
    depth: usize,
) -> (r: MatchResult<(&'a Input, (Vars, Vec<String>))>)
    ensures
        head_result_matches(r, spec_plain_head_parts(rule_head@.parts(), input@, rules@, depth as nat)),
    decreases depth, 1nat, 0nat,
{
    let ghost parts = rule_head@.parts();
    let mut results = Vars::new();
    let mut anon_results: Vec<String> = Vec::new();
    let mut cur = input;
    let items = rule_head.iter();
    proof {
        assert(strings_view(anon_results@) =~= Seq::<Seq<char>>::empty());
        assert(parts.take(0) =~= Seq::<(Seq<char>, Seq<(Seq<char>, Seq<char>)>)>::empty());
    }
    let mut i: usize = 0;
    while i < items.len()
        invariant
            i <= items@.len(),
            items@.len() == parts.len(),
            parts == rule_head@.parts(),
            forall|j: int| 0 <= j < items@.len() ==> (#[trigger] items@[j]).0@ == parts[j].0
                && seq_views(items@[j].1@) == parts[j].1,
            spec_plain_head_parts(parts.take(i as int), input@, rules@, depth as nat) == Some(
                HeadState { rest: cur@, named: results@, anon: strings_view(anon_results@) },
            ),
        decreases items@.len() - i,
    {
        proof {
            assert(parts.take(i + 1).drop_last() =~= parts.take(i as int));
            assert(parts.take(i + 1).last() == parts[i as int]);
        }
        let (part, invocs) = items[i];
        cur = match crate::mmatch::match_str(cur, part) {
            Ok(rest) => rest,
            Err(e) => {
                proof {
                    lemma_plain_parts_none(parts, input@, rules@, depth as nat, i + 1);
                }
                return Err(e);
            },
        };
        cur = match match_plain_invocs(invocs, cur, &mut results, &mut anon_results, rules, depth) {
            Ok(rest) => rest,
            Err(e) => {
                proof {
                    lemma_plain_parts_none(parts, input@, rules@, depth as nat, i + 1);
                }
                return Err(e);
            },
        };
        i = i + 1;
    }
    proof {
        assert(parts.take(items@.len() as int) =~= parts);
    }
    Ok((cur, (results, anon_results)))
}

/// Matches a header against the start of `input`, applying the rules it
/// invokes; binds the result of each invocation to its variable, or, for an
/// anonymous one, to the next slot in order. Where `negated` holds, the
/// header must not match: then nothing is consumed or bound. Returns the
/// input left and the bindings. Every rule that the headers invoke must be
/// defined, and no header may bind a variable twice.
pub fn match_rule_head<'a>(input: &'a Input, rule_head: &Header, negated: bool, rules: &Rules)
    -> (r: MatchResult<(&'a Input, (Vars, Vec<String>))>)
    requires
        header_ok(rule_head@, rules@),
        rules_ok(rules@),
    ensures
        head_result_matches(
            r,
            match spec_plain_head_parts(rule_head@.parts(), input@, rules@, MAX_RULE_DEPTH as nat) {
                Some(st) => if negated { None } else { Some(st) },
                None => if negated {
                    Some(HeadState { rest: input@, named: Map::empty(), anon: Seq::empty() })
                } else {
                    None
                },
            },
        ),
{
    let inner_result = match_positive_rule_head_bounded(input, rule_head, rules, MAX_RULE_DEPTH);
    if negated {
        match inner_result {
            Ok(_) => {
                let mut m = String::from_str("not ");
                let d = rule_head.to_display_string();
                m.append(d.as_str());
                Err(MatchError::expected(m.as_str(), input))
            },
            Err(_) => {
                let anon: Vec<String> = Vec::new();
                proof {
                    assert(strings_view(anon@) =~= Seq::<Seq<char>>::empty());
                }
                Ok((input, (Vars::new(), anon)))
            },
        }
    } else {
        inner_result
    }
}

impl RuleVariant {
    /// Applies this variant (see `spec_plain_variant`).
    fn apply_bounded<'a>(&self, input: &'a Input, rules: &Rules, depth: usize) -> (r: MatchResult<(&'a Input, String)>)
        ensures
            apply_result_matches(r, spec_plain_variant(self@, input@, rules@, depth as nat)),
        decreases depth, 2nat, 0nat,
    {
        let (rest, (named, anon)) = match match_positive_rule_head_bounded(input, &self.match_, rules, depth) {
            Ok(x) => x,
            Err(e) => return Err(e),
        };
        let bound = match &self.replace {
            Some(body) => body.bind_vars(&named, &anon),
            None => {
                let body = self.match_.as_body();
                body.bind_vars(&named, &anon)
            },
        };
        match bound {
            Ok(mut text) => {
                text.append(self.append.as_str());
                Ok((rest, text))
            },
            Err(e) => Err(e),
        }
    }
}

impl Rule {
    /// Tries the variants from the `skip`-th last on (see `spec_plain_variants`).
    fn match_last_skip_bounded<'a>(&self, input: &'a Input, rules: &Rules, skip: usize, depth: usize)
        -> (r: MatchResult<(&'a Input, String)>)
        ensures
            apply_result_matches(r, spec_plain_variants(self@, input@, rules@, depth as nat, skip as nat)),
        decreases depth, 3nat, 0nat,
    {
        let n = self.variants.len();
        let mut k = skip;
        let mut candidate_errors: Vec<MatchError> = Vec::new();
        while k < n
            invariant
                n == self@.variants.len(),
                spec_plain_variants(self@, input@, rules@, depth as nat, skip as nat)
                    == spec_plain_variants(self@, input@, rules@, depth as nat, k as nat),
            decreases n - k,
        {
            match self.variants[n - 1 - k].apply_bounded(input, rules, depth) {
                Ok(x) => {
                    return Ok(x);
                },
                Err(e) => {
                    candidate_errors.push(e);
                },
            }
            k = k + 1;
        }
        let mut m = String::from_str("No variant of '");
        m.append(self.name.as_str());
        m.append("' matched.");
        Err(MatchError::compose(m.as_str(), candidate_errors))
    }

    fn match_last_bounded<'a>(&self, input: &'a Input, rules: &Rules, depth: usize) -> (r: MatchResult<(&'a Input, String)>)
        ensures
            apply_result_matches(r, spec_plain_apply(self@, input@, rules@, depth as nat)),
        decreases depth, 4nat, 0nat,
    {
        self.match_last_skip_bounded(input, rules, 0, depth)
    }

    /// Applies the rule to `input`: its variants are tried from the last to
    /// the first, and the first that applies gives the input left and the
    /// result. Every rule that the headers invoke must be defined, and no
    /// header may bind a variable twice.
    pub fn match_last<'a>(&self, input: &'a Input, rules: &Rules) -> (r: MatchResult<(&'a Input, String)>)
        requires
            forall|k: int| 0 <= k < self@.variants.len() ==> header_ok(#[trigger] self@.variants[k].match_, rules@),
            rules_ok(rules@),
        ensures
            apply_result_matches(r, spec_plain_apply(self@, input@, rules@, MAX_RULE_DEPTH as nat)),
    {
        self.match_last_bounded(input, rules, MAX_RULE_DEPTH)
    }
}

proof fn lemma_plain_invocs_rest(
    invs: Seq<(Seq<char>, Seq<char>)>,
    st: HeadState,
    rules: Map<Seq<char>, Rule>,
    depth: nat,
)
    ensures
        spec_plain_invocs(invs, st, rules, depth) matches Some(st2) ==> is_rest_of(st2.rest, st.rest),
    decreases depth, 0nat, invs.len(),
{
    assert(st.rest.skip(0) =~= st.rest);
    if invs.len() > 0 {
        lemma_plain_invocs_rest(invs.drop_last(), st, rules, depth);
        if let Some(s) = spec_plain_invocs(invs.drop_last(), st, rules, depth) {
            let (var, rule) = invs.last();
            if depth > 0 && rules.contains_key(rule) {
                lemma_plain_apply_rest(rules[rule]@, s.rest, rules, (depth - 1) as nat);
                if let Some((rest, _)) = spec_plain_apply(rules[rule]@, s.rest, rules, (depth - 1) as nat) {
                    lemma_rest_of_trans(rest, s.rest, st.rest);
                }
            }
        }
    }
}

proof fn lemma_plain_head_parts_rest(
    parts: Seq<(Seq<char>, Seq<(Seq<char>, Seq<char>)>)>,
    input: Seq<char>,
    rules: Map<Seq<char>, Rule>,
    depth: nat,
)
    ensures
        spec_plain_head_parts(parts, input, rules, depth) matches Some(st) ==> is_rest_of(st.rest, input),
    decreases depth, 1nat, parts.len(),
{
    assert(input.skip(0) =~= input);
    if parts.len() > 0 {
        lemma_plain_head_parts_rest(parts.drop_last(), input, rules, depth);
        if let Some(st) = spec_plain_head_parts(parts.drop_last(), input, rules, depth) {
            if parts.last().0.is_prefix_of(st.rest) {
                let st1 = HeadState { rest: st.rest.skip(parts.last().0.len() as int), ..st };
                lemma_plain_invocs_rest(parts.last().1, st1, rules, depth);
                if let Some(st2) = spec_plain_invocs(parts.last().1, st1, rules, depth) {
                    lemma_rest_of_trans(st2.rest, st1.rest, st.rest);
                    lemma_rest_of_trans(st2.rest, st.rest, input);
                }
            }
        }
    }
}

proof fn lemma_plain_variants_rest(rule: PlainRuleView, input: Seq<char>, rules: Map<Seq<char>, Rule>, depth: nat, k: nat)
    ensures
        spec_plain_variants(rule, input, rules, depth, k) matches Some((rest, _)) ==> is_rest_of(rest, input),
    decreases depth, 3nat, rule.variants.len() - k,
{
    if k < rule.variants.len() {
        let v = rule.variants[rule.variants.len() - 1 - k];
        lemma_plain_head_parts_rest(v.match_.parts(), input, rules, depth);
        if let Some((rest, _)) = spec_plain_variant(v, input, rules, depth) {
            assert(rest == spec_plain_head_parts(v.match_.parts(), input, rules, depth)->Some_0.rest);
        }
        lemma_plain_variants_rest(rule, input, rules, depth, k + 1);
    }
}

proof fn lemma_plain_apply_rest(rule: PlainRuleView, input: Seq<char>, rules: Map<Seq<char>, Rule>, depth: nat)
    ensures
        spec_plain_apply(rule, input, rules, depth) matches Some((rest, _)) ==> is_rest_of(rest, input),
    decreases depth, 4nat, 0nat,
{
    lemma_plain_variants_rest(rule, input, rules, depth, 0);
}

/// Matching a header, and applying a plain rule, only consume input: what
/// they leave of the input is its end.
pub proof fn law_plain_matching_consumes_a_prefix(
    rule: PlainRuleView,
    head: RulePartView<(Seq<char>, Seq<char>)>,
    input: Seq<char>,
    rules: Map<Seq<char>, Rule>,
    depth: nat,
)
    ensures
        spec_plain_apply(rule, input, rules, depth) matches Some((rest, _)) ==> is_rest_of(rest, input),
        spec_plain_head_parts(head.parts(), input, rules, depth) matches Some(st) ==> is_rest_of(st.rest, input),
{
    lemma_plain_apply_rest(rule, input, rules, depth);
    lemma_plain_head_parts_rest(head.parts(), input, rules, depth);
}

} // verus!
