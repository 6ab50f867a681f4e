//! Applying one rule variant to input.
use vstd::prelude::*;
use vstd::string::*;
use crate::error::{MatchError, MatchResult, SetBacktrace, ErrorView, plain_error, traced_error};
use crate::text::{split_first_char, take_chars};
use crate::util::{input_view, input_view_spec};
use crate::vars::Vars;
use crate::types::invocation::Invocation;
use crate::types::invocation_string::{InvocationString, InvocationStringView, istr_display, lemma_invocation_view};
use crate::types::rule_variant::{RuleVariant, RuleVariantView, lemma_flags_set_empty_iff};
use crate::types::rule::Rules;
use crate::mmatch::Input;
use crate::mmatch::semantics::{
    spec_match_with_input, spec_match_param,
    spec_catch, spec_make_result, spec_try_match, spec_try_match_inner, spec_apply_variant, tail_call, tail_rejected,
};
use crate::mmatch::match_invocation_string::{
    InvocStrResult, MAX_RULE_DEPTH, with_input_matches, negate_result, match_istr_pass_bounded,
    match_istr_with_input_bounded,
};

verus! {

broadcast use vstd::string::group_string_axioms;

/// The backtrace line of applying a variant of the rule `name` to `input`.
pub open spec fn backtraceline_spec(v: RuleVariantView, name: Seq<char>, input: Seq<char>) -> Seq<char> {
    let ph = match v.parameter_header {
        Some(p) => "("@ + istr_display(p) + ") "@,
        None => Seq::empty(),
    };
    if name.len() == 0 {
        "%: "@ + ph + "{"@ + istr_display(v.header) + "} on '"@ + input_view_spec(input) + "'"@
    } else {
        "%: "@ + name + ph + " {"@ + istr_display(v.header) + "} on '"@ + input_view_spec(input) + "'"@
    }
}

/// The result of applying a variant agrees with its model.
pub open spec fn apply_matches<'a>(r: MatchResult<(&'a Input, String)>, s: Result<(Seq<char>, Seq<char>), ErrorView>) -> bool {
    match (r, s) {
        (Ok((rest, res)), Ok((srest, sres))) => rest@ == srest && res@ == sres,
        (Err(e), Err(k)) => e@ == k,
        _ => false,
    }
}

impl RuleVariant {
    /// The line that applying this variant of `name` to `input` adds to the
    /// backtrace of an error.
    pub fn backtraceline(&self, name: &str, input: &str) -> (r: String)
        ensures
            r@ == backtraceline_spec(self@, name@, input@),
    {
        let iv = input_view(input);
        let mut ph = String::new();
        match self.parameter_header() {
            Some(p) => {
                ph.append("(");
                let d = p.to_display_string();
                ph.append(d.as_str());
                ph.append(") ");
            },
            None => {},
        }
        let h = self.header().to_display_string();
        let mut out = String::from_str("%: ");
        if name.is_empty() {
            out.append(ph.as_str());
            out.append("{");
        } else {
            out.append(name);
            out.append(ph.as_str());
            out.append(" {");
        }
        out.append(h.as_str());
        out.append("} on '");
        out.append(iv);
        out.append("'");
        proof {
            assert(out@ =~= backtraceline_spec(self@, name@, input@));
        }
        out
    }

    /// Where the header failed on an unknown rule and there is a catch body,
    /// the text of the catch body (see `spec_catch`).
    fn catch_unknown_rule_bounded(
        header_failed_on_unknown_rule: bool,
        catch_body: Option<&InvocationString>,
        rules: &Rules,
        depth: usize,
    ) -> (r: MatchResult<Option<String>>)
        ensures
            match (r, spec_catch(
                header_failed_on_unknown_rule,
                match catch_body { Some(b) => Some(b@), None => None::<InvocationStringView> },
                rules@,
                depth as nat,
            )) {
                (Ok(Some(s)), Ok(Some(t))) => s@ == t,
                (Ok(None), Ok(None)) => true,
                (Err(e), Err(k)) => e@ == k,
                _ => false,
            },
        decreases depth, 5nat, 0nat,
    {
        if header_failed_on_unknown_rule {
            match catch_body {
                Some(catch_body) => {
                    let empty = Vars::new();
                    let isr = match match_istr_pass_bounded(catch_body, rules, &empty, depth) {
                        Ok(x) => x,
                        Err(e) => return Err(e),
                    };
                    match isr.bind_vars() {
                        Ok(s) => Ok(Some(s)),
                        Err(e) => Err(e),
                    }
                },
                None => Ok(None),
            }
        } else {
            Ok(None)
        }
    }

    /// Where `result` failed on an unknown rule and there is a catch body,
    /// the text of the catch body.
    pub fn catch_unknown_rule<'a>(
        result: &MatchResult<(&'a Input, InvocStrResult)>,
        catch_body: Option<&InvocationString>,
        rules: &Rules,
    ) -> (r: MatchResult<Option<String>>)
        ensures
            match (r, spec_catch(
                result matches Err(e) && e.unknown_kind(),
                match catch_body { Some(b) => Some(b@), None => None::<InvocationStringView> },
                rules@,
                MAX_RULE_DEPTH as nat,
            )) {
                (Ok(Some(s)), Ok(Some(t))) => s@ == t,
                (Ok(None), Ok(None)) => true,
                (Err(e), Err(k)) => e@ == k,
                _ => false,
            },
    {
        let unknown = match result {
            Err(e) => e.is_unknown_rule(),
            Ok(_) => false,
        };
        Self::catch_unknown_rule_bounded(unknown, catch_body, rules, MAX_RULE_DEPTH)
    }

    /// Matches the parameter against the parameter header, which must match
    /// all of it (see `spec_match_param`).
    fn match_param_bounded(
        param_header: Option<&InvocationString>,
        param: &Input,
        rules: &Rules,
        depth: usize,
    ) -> (r: MatchResult<Vars>)
        ensures
            match (r, spec_match_param(
                match param_header { Some(b) => Some(b@), None => None::<InvocationStringView> },
                param@,
                rules@,
                depth as nat,
            )) {
                (Ok(v), Ok(m)) => v@ == m,
                (Err(e), Err(k)) => e@ == k,
                _ => false,
            },
        decreases depth, 5nat, 0nat,
    {
        match param_header {
            Some(param_header) => {
                let empty = Vars::new();
                let (param_rest, res) = match match_istr_with_input_bounded(param, param_header, rules, &empty, true, depth) {
                    Ok(x) => x,
                    Err(e) => return Err(e),
                };
                if !param_rest.is_empty() {
                    let mut m = String::from_str("Rule parameter must match its whole input, but '");
                    m.append(param_rest);
                    m.append("' is still left.");
                    proof {
                        assert(m@ =~= crate::mmatch::semantics::param_left_msg(param_rest@));
                    }
                    Err(MatchError::new(m.as_str()))
                } else {
                    Ok(res.named_bounds)
                }
            },
            None => {
                if !param.is_empty() {
                    let mut m = String::from_str("Rule parameter must match its whole input, but '");
                    m.append(param);
                    m.append("' is still left.");
                    proof {
                        assert(m@ =~= crate::mmatch::semantics::param_left_msg(param@));
                    }
                    Err(MatchError::new(m.as_str()))
                } else {
                    Ok(Vars::new())
                }
            },
        }
    }

    /// Matches the parameter against the parameter header, which must match all of it.
    pub fn match_param(param_header: Option<&InvocationString>, param: &Input, rules: &Rules) -> (r: MatchResult<Vars>)
        ensures
            match (r, spec_match_param(
                match param_header { Some(b) => Some(b@), None => None::<InvocationStringView> },
                param@,
                rules@,
                MAX_RULE_DEPTH as nat,
            )) {
                (Ok(v), Ok(m)) => v@ == m,
                (Err(e), Err(k)) => e@ == k,
                _ => false,
            },
    {
        Self::match_param_bounded(param_header, param, rules, MAX_RULE_DEPTH)
    }

    /// The result of the variant from the result of its header: its body with
    /// the header's bindings, or the header's own result string (see `spec_make_result`).
    fn make_result_bounded(&self, header_result: InvocStrResult, rules: &Rules, depth: usize) -> (r: MatchResult<String>)
        ensures
            match (r, spec_make_result(self@.body, header_result@, rules@, depth as nat)) {
                (Ok(s), Ok(t)) => s@ == t,
                (Err(e), Err(k)) => e@ == k,
                _ => false,
            },
        decreases depth, 5nat, 0nat,
    {
        match self.body() {
            None => header_result.bind_vars(),
            Some(body) => {
                let isr = match match_istr_pass_bounded(body, rules, &header_result.named_bounds, depth) {
                    Ok(x) => x,
                    Err(e) => return Err(e),
                };
                isr.bind_vars()
            },
        }
    }

    /// The result of the variant from the result of its header.
    pub fn make_result(&self, header_result: InvocStrResult, rules: &Rules) -> (r: MatchResult<String>)
        ensures
            match (r, spec_make_result(self@.body, header_result@, rules@, MAX_RULE_DEPTH as nat)) {
                (Ok(s), Ok(t)) => s@ == t,
                (Err(e), Err(k)) => e@ == k,
                _ => false,
            },
    {
        self.make_result_bounded(header_result, rules, MAX_RULE_DEPTH)
    }

    /// Applies this variant to `input`, its parameter header having bound
    /// `named` (see `spec_apply_variant`).
    #[verifier::rlimit(30)]
    fn apply_variant_bounded<'a>(&self, input: &'a str, named: &Vars, rules: &Rules, depth: usize) -> (r: MatchResult<(&'a str, String)>)
        ensures
            apply_matches(r, spec_apply_variant(self@, input@, named@, rules@, depth as nat)),
        decreases depth, 5nat, 1nat,
    {
        if self.is_any() {
            if !self.header().is_empty() {
                return Err(MatchError::new("(any) rule variants must have an empty header."));
            }
            match split_first_char(input) {
                Some((_, rest)) => {
                    let c = take_chars(input, 1);
                    proof {
                        assert(c@ =~= seq![input@[0]]);
                    }
                    Ok((rest, c.to_owned()))
                },
                None => Err(MatchError::expected("Any char", input)),
            }
        } else {
            let ghost m = spec_match_with_input(self@.header, input@, rules@, named@, true, depth as nat);
            let res = match_istr_with_input_bounded(input, self.header(), rules, named, true, depth);
            let hr = negate_result(input, self.header(), res, self.header_negated());
            proof {
                assert(with_input_matches(res, m));
            }
            let unknown = match &hr {
                Err(e) => {
                    proof {
                        crate::error::lemma_error_view(*e);
                    }
                    e.is_unknown_rule()
                },
                Ok(_) => false,
            };
            match Self::catch_unknown_rule_bounded(unknown, self.unknown_rule_catch_body(), rules, depth) {
                Err(e) => Err(e),
                Ok(Some(res)) => Ok((input, res)),
                Ok(None) => match hr {
                    Err(e) => Err(e),
                    Ok((rest, isr)) => match self.make_result_bounded(isr, rules, depth) {
                        Ok(res) => Ok((rest, res)),
                        Err(e) => Err(e),
                    },
                },
            }
        }
    }


    /// Whether this variant, the `variant_index`-th tried of the rule `name`,
    /// is applied as a loop (see `tail_call`), and where it is, whether it
    /// breaks the conditions of that (see `tail_rejected`).
    fn tail_status(&self, name: &str, variant_index: usize) -> (r: (bool, bool))
        ensures
            r.0 == tail_call(self@, name@, variant_index as nat),
            r.0 ==> r.1 == tail_rejected(self@),
    {
        if variant_index != 0 {
            return (false, false);
        }
        let flags = self.flags();
        proof {
            lemma_flags_set_empty_iff(flags@);
        }
        match self.header().end_invocation() {
            Some(inv) => {
                proof {
                    lemma_invocation_view(*inv);
                }
                match inv {
                    Invocation::RuleInvocation(_, rule, param) => {
                        if !crate::text::str_eq(rule.as_str(), name) {
                            return (false, false);
                        }
                        let rejected = self.unknown_rule_catch_body().is_some() || self.parameter_header().is_some()
                            || flags.len() > 0 || self.body().is_some() || !param.is_empty();
                        (true, rejected)
                    },
                    Invocation::VarInvocation(_) => (false, false),
                }
            },
            None => (false, false),
        }
    }

    #[verifier::rlimit(30)]
    fn try_match_inner<'a>(&self, input: &'a str, param: &str, rules: &Rules, name: &str, variant_index: usize, depth: usize)
        -> (r: MatchResult<(&'a str, String)>)
        ensures
            apply_matches(r, spec_try_match_inner(self@, input@, param@, rules@, depth as nat, name@, variant_index as nat)),
        decreases depth, 6nat, 0nat,
    {
        let named = match Self::match_param_bounded(self.parameter_header(), param, rules, depth) {
            Ok(x) => x,
            Err(e) => return Err(e),
        };
        let (is_tail, rejected) = self.tail_status(name, variant_index);
        if !is_tail || rejected {
            return self.apply_variant_bounded(input, &named, rules, depth);
        }
        if depth == 0 {
            return Err(MatchError::new("Rules nest too deep"));
        }
        let rule = match rules.get(name) {
            Some(r) => r,
            None => return Err(MatchError::new("Rule applied as a loop is not defined")),
        };
        match self.apply_variant_bounded(input, &named, rules, depth) {
            Ok(x) => Ok(x),
            Err(_) => {
                let empty: Vec<MatchError> = Vec::new();
                proof {
                    assert(crate::error::views_of(empty@) =~= Seq::<ErrorView>::empty());
                }
                rule.match_last_skip_bounded(input, param, rules, 1, empty, depth - 1)
            },
        }
    }

    /// Applies this variant of the rule `name` to `input` with the parameter
    /// `param` (see `spec_try_match`); an error gets the backtrace line of
    /// this application.
    pub fn try_match_bounded<'a>(
        &self,
        input: &'a str,
        param: &str,
        rules: &Rules,
        name: &str,
        variant_index: usize,
        depth: usize,
    ) -> (r: MatchResult<(&'a str, String)>)
        ensures
            apply_matches(r, spec_try_match(self@, input@, param@, rules@, depth as nat, name@, variant_index as nat)),
            r matches Err(e) ==> e.backtrace_lines().len() > 0
                && e.backtrace_lines().last() == backtraceline_spec(self@, name@, input@),
        decreases depth, 6nat, 1nat,
    {
        let r = self.try_match_inner(input, param, rules, name, variant_index, depth);
        let line = self.backtraceline(name, input);
        r.trace(line)
    }

    /// Applies this variant of the rule `name` to `input` with the parameter
    /// `param`: returns the input left and the replacement text.
    pub fn try_match<'a>(&self, input: &'a str, param: &str, rules: &Rules, name: &str, variant_index: usize) -> (r: MatchResult<(&'a str, String)>)
        ensures
            apply_matches(r, spec_try_match(self@, input@, param@, rules@, MAX_RULE_DEPTH as nat, name@, variant_index as nat)),
            r matches Err(e) ==> e.backtrace_lines().len() > 0
                && e.backtrace_lines().last() == backtraceline_spec(self@, name@, input@),
    {
        self.try_match_bounded(input, param, rules, name, variant_index, MAX_RULE_DEPTH)
    }
}

} // verus!
