//! Invocations inside rule headers and bodies: `:var:rule(param)` and `:var`.
use vstd::prelude::*;
use crate::types::invocation_string::{InvocationString, InvocationView, InvocationStringView, lemma_invocation_view};

verus! {

broadcast use lemma_invocation_view;

/// A rule invocation `:var:rule(param)`, whose result is bound to `var`
/// (or to the next anonymous slot where `var` is empty), or a variable
/// invocation `:var`.
#[derive(PartialEq, Eq, Debug)]
pub enum Invocation {
    RuleInvocation(String, String, InvocationString),
    VarInvocation(String),
}

impl Invocation {
    pub fn new_rule_invocation(result_var: &str, rule: &str) -> (r: Invocation)
        ensures
            r@ == InvocationView::Rule(result_var@, rule@, InvocationStringView::empty_view()),
    {
        Invocation::RuleInvocation(result_var.to_owned(), rule.to_owned(), InvocationString::empty())
    }

    pub fn new_rule_invoc_with_param(result_var: &str, rule: &str, parameter: InvocationString) -> (r: Invocation)
        ensures
            r@ == InvocationView::Rule(result_var@, rule@, parameter@),
    {
        Invocation::RuleInvocation(result_var.to_owned(), rule.to_owned(), parameter)
    }

    pub fn new_var_invocation(name: &str) -> (r: Invocation)
        ensures
            r@ == InvocationView::Var(name@),
    {
        Invocation::VarInvocation(name.to_owned())
    }
}

} // verus!
