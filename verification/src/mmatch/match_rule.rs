//! Applying rules: trying their variants from the last to the first.
use vstd::prelude::*;
use vstd::string::*;
use crate::error::{MatchError, MatchResult, ErrorView, views_of};
use crate::util::MaybeInf;
use crate::types::rule::{Rule, Rules, RuleView};
use crate::mmatch::match_rule_variant::{apply_matches, backtraceline_spec};
use crate::mmatch::match_invocation_string::MAX_RULE_DEPTH;
use crate::mmatch::semantics::{spec_try_variants, spec_match_last, spec_try_match, spec_sequence, lemma_sequence_step};

verus! {

broadcast use vstd::string::group_string_axioms;

/// The error of a rule none of whose variants from the `skip`-th last on
/// applied: "No variant of '<name>' matched.", composed of the errors
/// `candidates` given before, then the errors of the variants tried in
/// order, each with the backtrace line of its application last.
pub open spec fn no_variant_error(e: MatchError, rule: RuleView, input: Seq<char>, candidates: Seq<MatchError>, skip: nat) -> bool {
    let tried: int = if skip < rule.variants.len() { rule.variants.len() - skip } else { 0 };
    &&& !e.fatal_flag()
    &&& !e.unknown_kind()
    &&& e.message() == "No variant of '"@ + rule.name + "' matched."@
    &&& e.backtrace_lines().len() == 0
    &&& e.sub_errors().len() == candidates.len() + tried
    &&& e.sub_errors().take(candidates.len() as int) == candidates
    &&& forall|j: int| 0 <= j < tried ==> {
        let se = #[trigger] e.sub_errors()[candidates.len() + j];
        se.backtrace_lines().len() > 0 && se.backtrace_lines().last()
            == backtraceline_spec(rule.variants[rule.variants.len() - 1 - (skip + j)], rule.name, input)
    }
}

impl Rule {
    /// Tries the variants from the `skip`-th last on, towards the first
    /// (see `spec_try_variants`); the errors of those that fail are added to
    /// `candidate_errors`, which the error of the rule is composed of.
    pub fn match_last_skip_bounded<'a>(
        &self,
        input: &'a str,
        param: &str,
        rules: &Rules,
        skip: usize,
        candidate_errors: Vec<MatchError>,
        depth: usize,
    ) -> (r: MatchResult<(&'a str, String)>)
        ensures
            apply_matches(r, spec_try_variants(self@, input@, param@, rules@, depth as nat, skip as nat, views_of(candidate_errors@))),
            r matches Err(e) ==> no_variant_error(e, self@, input@, candidate_errors@, skip as nat),
        decreases depth, 7nat, 0nat,
    {
        let ghost c0 = candidate_errors@;
        let mut cands = candidate_errors;
        let n = self.variant_count();
        let mut k = skip;
        while k < n
            invariant
                n == self@.variants.len(),
                c0 == candidate_errors@,
                skip <= k,
                k <= n || k == skip,
                spec_try_variants(self@, input@, param@, rules@, depth as nat, skip as nat, views_of(c0))
                    == spec_try_variants(self@, input@, param@, rules@, depth as nat, k as nat, views_of(cands@)),
                cands@.len() == c0.len() + (k - skip),
                cands@.take(c0.len() as int) == c0,
                forall|j: int| 0 <= j < k - skip ==> {
                    let se = #[trigger] cands@[c0.len() + j];
                    se.backtrace_lines().len() > 0 && se.backtrace_lines().last()
                        == backtraceline_spec(self@.variants[self@.variants.len() - 1 - (skip + j)], self@.name, input@)
                },
            decreases n - k,
        {
            let v = self.variant_at(n - 1 - k);
            match v.try_match_bounded(input, param, rules, self.name_str(), k, depth) {
                Ok(x) => {
                    proof {
                        assert(spec_try_variants(self@, input@, param@, rules@, depth as nat, k as nat, views_of(cands@))
                            == spec_try_match(self@.variants[self@.variants.len() - 1 - k], input@, param@, rules@, depth as nat, self@.name, k as nat));
                    }
                    return Ok(x);
                },
                Err(e) => {
                    let ghost before = cands@;
                    let ghost ev = e@;
                    cands.push(e);
                    proof {
                        assert(views_of(cands@) =~= views_of(before).push(ev));
                        assert(cands@.take(c0.len() as int) =~= before.take(c0.len() as int));
                        assert forall|j: int| 0 <= j < k + 1 - skip implies {
                            let se = #[trigger] cands@[c0.len() + j];
                            se.backtrace_lines().len() > 0 && se.backtrace_lines().last()
                                == backtraceline_spec(self@.variants[self@.variants.len() - 1 - (skip + j)], self@.name, input@)
                        } by {
                            if j < k - skip {
                                assert(cands@[c0.len() + j] == before[c0.len() + j]);
                            }
                        }
                    }
                },
            }
            k = k + 1;
        }
        let mut m = String::from_str("No variant of '");
        m.append(self.name_str());
        m.append("' matched.");
        proof {
            assert(m@ =~= "No variant of '"@ + self@.name + "' matched."@);
            assert(k - skip == (if skip < n { n - skip } else { 0int }));
        }
        Err(MatchError::compose(m.as_str(), cands))
    }

    /// Tries the variants from the `skip`-th last on, towards the first.
    pub fn match_last_skip<'a>(
        &self,
        input: &'a str,
        param: &str,
        rules: &Rules,
        skip: usize,
        candidate_errors: Vec<MatchError>,
    ) -> (r: MatchResult<(&'a str, String)>)
        ensures
            apply_matches(r, spec_try_variants(self@, input@, param@, rules@, MAX_RULE_DEPTH as nat, skip as nat, views_of(candidate_errors@))),
            r matches Err(e) ==> no_variant_error(e, self@, input@, candidate_errors@, skip as nat),
    {
        self.match_last_skip_bounded(input, param, rules, skip, candidate_errors, MAX_RULE_DEPTH)
    }

    /// Applies the rule (see `spec_match_last`).
    pub fn match_last_bounded<'a>(&self, input: &'a str, param: &str, rules: &Rules, depth: usize) -> (r: MatchResult<(&'a str, String)>)
        ensures
            apply_matches(r, spec_match_last(self@, input@, param@, rules@, depth as nat)),
            r matches Err(e) ==> no_variant_error(e, self@, input@, Seq::empty(), 0),
        decreases depth, 8nat, 0nat,
    {
        let empty: Vec<MatchError> = Vec::new();
        proof {
            assert(views_of(empty@) =~= Seq::<ErrorView>::empty());
        }
        self.match_last_skip_bounded(input, param, rules, 0, empty, depth)
    }

    /// Applies the rule to `input` with the parameter `param`: its variants
    /// are tried from the last to the first, and the first that applies
    /// gives the input left and the replacement text.
    pub fn match_last<'a>(&self, input: &'a str, param: &str, rules: &Rules) -> (r: MatchResult<(&'a str, String)>)
        ensures
            apply_matches(r, spec_match_last(self@, input@, param@, rules@, MAX_RULE_DEPTH as nat)),
            r matches Err(e) ==> no_variant_error(e, self@, input@, Seq::empty(), 0),
    {
        self.match_last_bounded(input, param, rules, MAX_RULE_DEPTH)
    }

    /// Applies the variants from the last to the first in sequence, each to
    /// the result of the one before (its replacement text followed by the
    /// input it left), while `appleft` applications are left; every
    /// application counts one off `appleft`. If one variant fails, the whole
    /// sequence fails.
    pub fn match_sequence(&self, input: &str, rules: &Rules, appleft: &mut MaybeInf<u32>) -> (r: MatchResult<String>)
        ensures
            match spec_sequence(self@, input@, rules@, *old(appleft), MAX_RULE_DEPTH as nat, 0) {
                (Ok(out), left) => r matches Ok(s) && s@ == out && *final(appleft) == left,
                (Err(kind), left) => r matches Err(e) && e@ == kind && *final(appleft) == left,
            },
    {
        let ghost spec_result = spec_sequence(self@, input@, rules@, *appleft, MAX_RULE_DEPTH as nat, 0);
        let mut current = input.to_string();
        let n = self.variant_count();
        let mut k: usize = 0;
        while k < n && !appleft.is_zero()
            invariant
                n == self@.variants.len(),
                k <= n,
                spec_result == spec_sequence(self@, input@, rules@, *old(appleft), MAX_RULE_DEPTH as nat, 0),
                spec_result == spec_sequence(self@, current@, rules@, *appleft, MAX_RULE_DEPTH as nat, k as nat),
            decreases n - k,
        {
            proof {
                lemma_sequence_step(self@, current@, rules@, *appleft, MAX_RULE_DEPTH as nat, k as nat);
                assert(*appleft matches MaybeInf::Finite(x) ==> x >= 1);
            }
            appleft.sub_assign(1);
            let v = self.variant_at(n - 1 - k);
            let empty = "";
            proof {
                reveal_strlit("");
                assert(empty@ =~= Seq::<char>::empty());
            }
            let (unconsumed, replacement) = match v.try_match(current.as_str(), empty, rules, empty, k) {
                Ok(x) => x,
                Err(e) => {
                    return Err(e);
                },
            };
            let mut next = replacement;
            next.append(unconsumed);
            current = next;
            k = k + 1;
        }
        proof {
            lemma_sequence_step(self@, current@, rules@, *appleft, MAX_RULE_DEPTH as nat, k as nat);
        }
        Ok(current)
    }
}

} // verus!
