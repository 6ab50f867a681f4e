//! The data of rules: invocations, invocation strings, rule variants and rules.
pub mod invocation;
pub mod invocation_string;
pub mod rule_variant;
pub mod rule;
