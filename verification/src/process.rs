//! Processing a text: text up to the next rule definition is passed on,
//! definitions are collected, an unnamed definition is applied to the text
//! that follows it, and a file invocation asks for the text of a file.
//!
//! Reading files and writing out text is left to the caller: it calls
//! `Processor::step` until `Step::Done`, writes out the texts of each step
//! and, on `Step::LoadFile`, hands the file's text to `provide_file`.
use vstd::prelude::*;
use vstd::string::*;
use crate::error::{MatchError, MatchResult, ErrorView, composed_error, plain_error, error_region, error_region_spec};
use crate::text::{strip_str_prefix, split_first_char, take_chars, char_len_fits};
use crate::util::MaybeInf;
use crate::types::invocation_string::InvocationStringView;
use crate::types::rule_variant::{RuleVariant, RuleVariantView};
use crate::types::rule::{Rule, RuleView, Rules};
use crate::mmatch::Input;
use crate::mmatch::semantics::spec_sequence;
use crate::mmatch::match_invocation_string::MAX_RULE_DEPTH;
use crate::mmatch::match_rule_def::{
    spec_rule_definition, spec_file_invocation, match_rule_definition, match_file_invocation, file_invocation_error,
};
use crate::RULE_DEFINITION_KEY;

verus! {

broadcast use vstd::string::group_string_axioms;

/// The position of the first `%:` in `s`, counted in characters.
pub open spec fn find_key(s: Seq<char>) -> Option<nat>
    decreases s.len(),
{
    if "%:"@.is_prefix_of(s) {
        Some(0)
    } else if s.len() == 0 {
        None
    } else {
        match find_key(s.drop_first()) {
            Some(i) => Some(i + 1),
            None => None,
        }
    }
}

pub proof fn lemma_find_key_len(s: Seq<char>)
    ensures
        find_key(s) matches Some(i) ==> i <= s.len(),
    decreases s.len(),
{
    if !"%:"@.is_prefix_of(s) && s.len() > 0 {
        lemma_find_key_len(s.drop_first());
    }
}

/// Finds the next statement (rule definition or file invocation): returns
/// the text before it and the text from it on.
pub fn find_statement(input: &Input) -> (r: Option<(&str, &Input)>)
    ensures
        match (r, find_key(input@)) {
            (Some((skipped, statement)), Some(i)) => skipped@ == input@.take(i as int)
                && statement@ == input@.skip(i as int),
            (None, None) => true,
            _ => false,
        },
{
    char_len_fits(input);
    let mut rest = input;
    let mut i: usize = 0;
    loop
        invariant
            input@.len() <= usize::MAX,
            i <= input@.len(),
            rest@ == input@.skip(i as int),
            match find_key(rest@) {
                Some(j) => find_key(input@) == Some((i + j) as nat),
                None => find_key(input@) is None,
            },
        decreases rest@.len(),
    {
        proof {
            reveal_strlit("%:");
        }
        if strip_str_prefix(rest, RULE_DEFINITION_KEY).is_some() {
            return Some((take_chars(input, i), rest));
        }
        match split_first_char(rest) {
            Some((_, r)) => {
                proof {
                    assert(r@ =~= input@.skip(i + 1));
                }
                rest = r;
                i = i + 1;
            },
            None => {
                return None;
            },
        }
    }
}

/// The model of a matched statement: the rest of the input, the rule name
/// or file name, and the variant of a rule definition (none for a file
/// invocation).
#[verifier::opaque]
pub open spec fn spec_statement(s: Seq<char>, rules: Map<Seq<char>, RuleView>) -> Option<(Seq<char>, Seq<char>, Option<RuleVariantView>)> {
    match spec_rule_definition(s, rules) {
        Ok((rest, (name, v))) => Some((rest, name, Some(v))),
        Err(_) => match spec_file_invocation(s, rules) {
            Some((rest, name)) => Some((rest, name, None)),
            None => None,
        },
    }
}

pub open spec fn opt_variant_view(o: Option<RuleVariant>) -> Option<RuleVariantView> {
    match o {
        Some(v) => Some(v@),
        None => None,
    }
}

/// Matches a statement: a rule definition, or else a file invocation.
/// Returns the rest of the input, the rule or file name and, for a rule
/// definition, the variant. White space in the parts of a definition goes
/// through the handler rules of `rules` (see `match_invocation_string_def`).
#[verifier::rlimit(60)]
pub fn match_statement<'a>(input: &'a Input, rules: &Rules) -> (r: MatchResult<(&'a Input, (String, Option<RuleVariant>))>)
    ensures
        match (r, spec_statement(input@, rules@)) {
            (Ok((rest, (name, v))), Some((srest, sname, sv))) => rest@ == srest && name@ == sname
                && opt_variant_view(v) == sv,
            (Err(e), None) => e@ == statement_error(input@, rules@),
            _ => false,
        },
{
    proof {
        reveal(spec_statement);
    }
    match match_rule_definition(input, rules) {
        Ok((rest, (name, variant))) => Ok((rest, (name, Some(variant)))),
        Err(def_err) => match match_file_invocation(input, rules) {
            Ok((rest, name)) => Ok((rest, (name.to_string(), None))),
            Err(file_err) => {
                let mut msg = String::from_str("Expected statement, got ");
                let region = error_region(input);
                msg.append(region.as_str());
                let ghost dv = def_err@;
                let ghost fv = file_err@;
                let subs = vec![def_err, file_err];
                proof {
                    assert(crate::error::views_of(subs@) =~= seq![dv, fv]);
                    assert(msg@ == "Expected statement, got "@ + error_region_spec(input@));
                    assert(spec_rule_definition(input@, rules@) is Err);
                    assert(dv == spec_rule_definition(input@, rules@)->Err_0);
                    assert(spec_file_invocation(input@, rules@) is None);
                    assert(fv == file_invocation_error(input@, rules@));
                }
                proof {
                    let se = statement_error(input@, rules@);
                    assert(se.sub_errors =~= seq![dv, fv]);
                    assert(se == crate::error::composed_error(msg@, seq![dv, fv]));
                }
                let e = MatchError::compose(msg.as_str(), subs);
                assert(e@ == statement_error(input@, rules@));
                Err(e)
            },
        },
    }
}

/// The error of a file invocation whose file cannot be opened, with the
/// reason `reason`: it is made of the error of reading the input as a rule
/// definition (where the input is one, an error that says so) and of the
/// error of opening the file.
pub fn file_open_error(input: &Input, rules: &Rules, name: &str, reason: &str) -> (r: MatchError)
    ensures
        r.message() == "Ill-formed rule definition or invocation to unexisting file."@,
        r.sub_errors().len() == 2,
        r.sub_errors()[1].message() == "Error loading file '"@ + name@ + "': "@ + reason@ + " "@,
        !r.unknown_kind(),
{
    let def_err = match match_rule_definition(input, rules) {
        Err(e) => e,
        Ok(_) => MatchError::new("The statement is a rule definition."),
    };
    let mut m = String::from_str("Error loading file '");
    m.append(name);
    m.append("': ");
    m.append(reason);
    m.append(" ");
    let file_err = MatchError::new(m.as_str());
    MatchError::compose("Ill-formed rule definition or invocation to unexisting file.", vec![def_err, file_err])
}

/// The error of a file that could not be read, with the reason `reason`.
pub fn file_load_error(name: &str, reason: &str) -> (r: MatchError)
    ensures
        r.is_plain("Error loading '"@ + name@ + "': "@ + reason@),
{
    let mut m = String::from_str("Error loading '");
    m.append(name);
    m.append("': ");
    m.append(reason);
    MatchError::new(m.as_str())
}

/// The names of the rules that are defined from the start, each with one
/// empty variant, so that texts can invoke them to ask for features.
pub open spec fn builtin_rule_names() -> Seq<Seq<char>> {
    seq![
        "swirl_default_call_explicit_syntax"@,
        "swirl_feature_undefine_rule"@,
        "swirl_new_quote_signs"@,
        "swirl_version_0_0_1"@,
        "swirl_version_0_0_2"@,
        "swirl_version_0_0_3"@,
        "swirl_version_0_1_0"@,
        "swirl_version_0_2_0"@,
    ]
}

/// The rule `name` with one empty variant.
pub open spec fn builtin_rule(name: Seq<char>) -> RuleView {
    RuleView {
        name: name,
        variants: seq![RuleVariantView {
            parameter_header: None,
            header: InvocationStringView::empty_view(),
            body: None,
            flags: Set::empty(),
            catch_unknown_rule: None,
        }],
        is_macro: name == "swirlcl"@,
    }
}

fn add_builtin_rule(rules: &mut Rules, name: &str)
    ensures
        final(rules)@ == old(rules)@.insert(name@, builtin_rule(name@)),
{
    let rule = Rule::new(name.to_string()).variant(RuleVariant::empty());
    rules.insert(name.to_string(), rule);
}

/// The rules that are defined from the start.
pub fn init_rules() -> (r: Rules)
    ensures
        r@.dom() == builtin_rule_names().to_set(),
        forall|n: Seq<char>| #[trigger] r@.contains_key(n) ==> r@[n] == builtin_rule(n),
{
    let mut rules = Rules::new();
    add_builtin_rule(&mut rules, "swirl_default_call_explicit_syntax");
    add_builtin_rule(&mut rules, "swirl_feature_undefine_rule");
    add_builtin_rule(&mut rules, "swirl_new_quote_signs");
    add_builtin_rule(&mut rules, "swirl_version_0_0_1");
    add_builtin_rule(&mut rules, "swirl_version_0_0_2");
    add_builtin_rule(&mut rules, "swirl_version_0_0_3");
    add_builtin_rule(&mut rules, "swirl_version_0_1_0");
    add_builtin_rule(&mut rules, "swirl_version_0_2_0");
    proof {
        let names = builtin_rule_names();
        assert forall|n: Seq<char>| rules@.dom().contains(n) <==> names.to_set().contains(n) by {
            if names.contains(n) {
                let i = choose|i: int| 0 <= i < names.len() && names[i] == n;
                assert(names[i] == n);
            }
            if rules@.dom().contains(n) {
                assert(names.contains(n)) by {
                    if n == names[0] {} else if n == names[1] {} else if n == names[2] {}
                    else if n == names[3] {} else if n == names[4] {} else if n == names[5] {}
                    else if n == names[6] {} else {
                        assert(n == names[7]);
                    }
                }
            }
        }
        assert(rules@.dom() =~= names.to_set());
    }
    rules
}

/// The model of a `Processor`: the text still to process, how many
/// applications of unnamed rules are left, and whether definitions are left
/// out of the output.
pub struct ProcessorView {
    pub input: Seq<char>,
    pub appleft: MaybeInf<u32>,
    pub remove_defs: bool,
}

/// What a step asks of its caller.
pub enum StepView {
    /// Write out these texts, in this order, and step on.
    Output(Seq<Seq<char>>),
    /// Write out these texts, then hand the text of this file to
    /// `provide_file`, and step on. The last text is the input from the
    /// file invocation on (for the error where the file cannot be opened,
    /// see `file_open_error`).
    LoadFile(Seq<Seq<char>>, Seq<char>, Seq<char>),
    /// Write out this text; processing is over.
    Done(Seq<char>),
    /// Write out these texts; then processing fails with this error
    /// (applying an unnamed rule failed after its definition was read).
    Failed(Seq<Seq<char>>, ErrorView),
}

/// `rules` where the variant `v` is added to the rule `name`, which is
/// created without variants where it does not exist.
pub open spec fn with_variant(rules: Map<Seq<char>, RuleView>, name: Seq<char>, v: RuleVariantView) -> Map<Seq<char>, RuleView> {
    rules.insert(
        name,
        if rules.contains_key(name) {
            RuleView { variants: rules[name].variants.push(v), ..rules[name] }
        } else {
            RuleView { name: name, variants: seq![v], is_macro: name == "swirlcl"@ }
        },
    )
}

/// `rules` where the last variant of the rule `name` is removed.
pub open spec fn without_last_variant(rules: Map<Seq<char>, RuleView>, name: Seq<char>) -> Map<Seq<char>, RuleView> {
    rules.insert(name, RuleView { variants: rules[name].variants.drop_last(), ..rules[name] })
}

/// The text of a statement that `rest` is left of.
pub open spec fn consumed(statement: Seq<char>, rest: Seq<char>) -> Seq<char> {
    if rest.len() <= statement.len() {
        statement.take(statement.len() - rest.len())
    } else {
        statement
    }
}

/// The error of a text where a statement starts but none can be read: it
/// is made of the errors of reading a rule definition and a file invocation.
pub open spec fn statement_error(s: Seq<char>, rules: Map<Seq<char>, RuleView>) -> ErrorView {
    composed_error(
        "Expected statement, got "@ + error_region_spec(s),
        seq![
            match spec_rule_definition(s, rules) {
                Err(e) => e,
                Ok(_) => plain_error(Seq::empty()),
            },
            file_invocation_error(s, rules),
        ],
    )
}

/// One step of processing: the outcome (the error where it fails), the new state
/// of the processor, and the new rules.
///
/// Where no statement is left, or no application is, the rest of the text
/// is the last output. Otherwise the text before the statement is written
/// out, and the statement too unless definitions are removed. A file
/// invocation asks for the file. A definition flagged `clear` or `undefine`
/// removes its rule; another adds its variant to its rule, and where the
/// rule is unnamed, the rule is applied in sequence to the text after the
/// definition (see `spec_sequence`), which is then processed in place of
/// it; the variant is removed again unless it is flagged `syntax`. Where
/// that application fails, the texts are still written out, then
/// processing fails (`Failed`).
pub open spec fn spec_step(p: ProcessorView, rules: Map<Seq<char>, RuleView>) -> (Result<StepView, ErrorView>, ProcessorView, Map<Seq<char>, RuleView>) {
    let done = (Ok(StepView::Done(p.input)), ProcessorView { input: Seq::empty(), ..p }, rules);
    match find_key(p.input) {
        None => done,
        Some(i) => if p.appleft == MaybeInf::Finite(0u32) {
            done
        } else {
            let skipped = p.input.take(i as int);
            let statement = p.input.skip(i as int);
            match spec_statement(statement, rules) {
                None => (Err(statement_error(statement, rules)), p, rules),
                Some((rest, name, ov)) => {
                    let outs = if p.remove_defs {
                        seq![skipped]
                    } else {
                        seq![skipped, consumed(statement, rest)]
                    };
                    let p1 = ProcessorView { input: rest, ..p };
                    match ov {
                        None => (Ok(StepView::LoadFile(outs, name, statement)), p1, rules),
                        Some(v) => if v.flags.contains("clear"@) || v.flags.contains("undefine"@) {
                            (Ok(StepView::Output(outs)), p1, rules.remove(name))
                        } else {
                            let r2 = with_variant(rules, name, v);
                            if name.len() > 0 {
                                (Ok(StepView::Output(outs)), p1, r2)
                            } else {
                                match spec_sequence(r2[name], rest, r2, p.appleft, MAX_RULE_DEPTH as nat, 0) {
                                    (Ok(out), left) => (
                                        Ok(StepView::Output(outs)),
                                        ProcessorView { input: out, appleft: left, ..p },
                                        if v.flags.contains("syntax"@) { r2 } else { without_last_variant(r2, name) },
                                    ),
                                    (Err(e), left) => (
                                        Ok(StepView::Failed(outs, e)),
                                        ProcessorView { input: rest, appleft: left, ..p },
                                        r2,
                                    ),
                                }
                            }
                        }
                    }
                },
            }
        },
    }
}

/// What a step asks of its caller (see `StepView`).
#[derive(PartialEq, Eq, Debug)]
pub enum Step {
    Output(Vec<String>),
    LoadFile(Vec<String>, String, String),
    Done(String),
    Failed(Vec<String>, MatchError),
}

pub open spec fn strings_seq(v: Seq<String>) -> Seq<Seq<char>> {
    v.map_values(|s: String| s@)
}

impl View for Step {
    type V = StepView;

    open spec fn view(&self) -> StepView {
        match self {
            Step::Output(o) => StepView::Output(strings_seq(o@)),
            Step::LoadFile(o, f, t) => StepView::LoadFile(strings_seq(o@), f@, t@),
            Step::Done(t) => StepView::Done(t@),
            Step::Failed(o, e) => StepView::Failed(strings_seq(o@), e@),
        }
    }
}

/// The state of processing a text.
pub struct Processor {
    input: String,
    appleft: MaybeInf<u32>,
    remove_defs: bool,
}

impl View for Processor {
    type V = ProcessorView;

    closed spec fn view(&self) -> ProcessorView {
        ProcessorView { input: self.input@, appleft: self.appleft, remove_defs: self.remove_defs }
    }
}

impl Processor {
    /// Starts processing `input`, with `appleft` applications of unnamed
    /// rules allowed; where `remove_defs` holds, definitions are left out of
    /// the output.
    pub fn new(input: &str, appleft: MaybeInf<u32>, remove_defs: bool) -> (r: Processor)
        ensures
            r@ == (ProcessorView { input: input@, appleft: appleft, remove_defs: remove_defs }),
    {
        Processor { input: input.to_string(), appleft: appleft, remove_defs: remove_defs }
    }

    /// Processes up to the next statement (see `spec_step`). The rules are
    /// changed as the statement says.
    #[verifier::rlimit(60)]
    pub fn step(&mut self, rules: &mut Rules) -> (r: MatchResult<Step>)
        ensures
            ({
                let (res, p, rs) = spec_step(old(self)@, old(rules)@);
                &&& final(self)@ == p
                &&& final(rules)@ == rs
                &&& match (r, res) {
                    (Ok(st), Ok(sv)) => st@ == sv,
                    (Err(e), Err(se)) => e@ == se,
                    _ => false,
                }
            }),
    {
        let found = find_statement(self.input.as_str());
        let (skipped, statement_begin) = match found {
            Some(x) => x,
            None => {
                let out = self.input.clone();
                self.input = String::new();
                return Ok(Step::Done(out));
            },
        };
        if self.appleft.is_zero() {
            let out = self.input.clone();
            self.input = String::new();
            return Ok(Step::Done(out));
        }
        let skipped_text = skipped.to_string();
        let (rest, (name, maybe_variant)) = match match_statement(statement_begin, rules) {
            Ok(x) => x,
            Err(e) => return Err(e),
        };
        let mut outs: Vec<String> = Vec::new();
        outs.push(skipped_text);
        if !self.remove_defs {
            let n_statement = statement_begin.unicode_len();
            let n_rest = rest.unicode_len();
            let text = if n_rest <= n_statement {
                take_chars(statement_begin, n_statement - n_rest)
            } else {
                statement_begin
            };
            outs.push(text.to_string());
        }
        let rest_text = rest.to_string();
        let statement_text = statement_begin.to_string();
        self.input = rest_text;
        proof {
            assert(strings_seq(outs@) =~= (if self.remove_defs {
                seq![skipped@]
            } else {
                seq![skipped@, consumed(statement_begin@, rest@)]
            }));
        }
        let variant = match maybe_variant {
            None => return Ok(Step::LoadFile(outs, name, statement_text)),
            Some(v) => v,
        };
        if variant.is_undefine() {
            rules.remove(name.as_str());
            return Ok(Step::Output(outs));
        }
        let keep = variant.deep_call();
        rules.add_variant(name.as_str(), variant);
        if !name.as_str().is_empty() {
            return Ok(Step::Output(outs));
        }
        let applied = match rules.get(name.as_str()) {
            Some(rule) => rule.match_sequence(self.input.as_str(), rules, &mut self.appleft),
            None => {
                proof {
                    assert(false);
                }
                return Err(MatchError::new(""));
            },
        };
        match applied {
            Ok(new_input) => {
                if !keep {
                    rules.pop_variant(name.as_str());
                }
                self.input = new_input;
                Ok(Step::Output(outs))
            },
            Err(e) => Ok(Step::Failed(outs, e)),
        }
    }

    /// Puts the text of the file that the last step asked for in front of
    /// the text still to process.
    pub fn provide_file(&mut self, content: &str)
        ensures
            final(self)@ == (ProcessorView { input: content@ + old(self)@.input, ..old(self)@ }),
    {
        let mut s = content.to_string();
        s.append(self.input.as_str());
        self.input = s;
    }
}

/// `find_key` finds the first `%:`: the text before it holds none, and the
/// text from it on starts with one.
#[verifier::rlimit(30)]
pub proof fn law_first_statement(s: Seq<char>)
    ensures
        match find_key(s) {
            Some(i) => i <= s.len() && s.take(i as int) + s.skip(i as int) == s
                && "%:"@.is_prefix_of(s.skip(i as int))
                && forall|j: int| 0 <= j < i ==> !"%:"@.is_prefix_of(#[trigger] s.skip(j)),
            None => forall|j: int| 0 <= j <= s.len() ==> !"%:"@.is_prefix_of(#[trigger] s.skip(j)),
        },
    decreases s.len(),
{
    if "%:"@.is_prefix_of(s) {
        assert(s.take(0) + s.skip(0) =~= s);
    } else if s.len() == 0 {
        assert forall|j: int| 0 <= j <= s.len() implies !"%:"@.is_prefix_of(#[trigger] s.skip(j)) by {
            assert(s.skip(j) =~= s);
        }
    } else {
        let t = s.drop_first();
        law_first_statement(t);
        match find_key(t) {
            Some(i) => {
                assert(s.take(i + 1 as int) + s.skip(i + 1 as int) =~= s);
                assert(s.skip(i + 1 as int) =~= t.skip(i as int));
                assert forall|j: int| 0 <= j < i + 1 implies !"%:"@.is_prefix_of(#[trigger] s.skip(j)) by {
                    if j > 0 {
                        assert(s.skip(j) =~= t.skip(j - 1));
                    } else {
                        assert(s.skip(0) =~= s);
                    }
                }
            },
            None => {
                assert forall|j: int| 0 <= j <= s.len() implies !"%:"@.is_prefix_of(#[trigger] s.skip(j)) by {
                    if j > 0 {
                        assert(s.skip(j) =~= t.skip(j - 1));
                    } else {
                        assert(s.skip(0) =~= s);
                    }
                }
            },
        }
    }
}

/// Text without statements passes through unchanged: it is the last output,
/// and the rules stay as they are.
pub proof fn law_text_without_statements(p: ProcessorView, rules: Map<Seq<char>, RuleView>)
    requires
        find_key(p.input) is None,
    ensures
        spec_step(p, rules) == (
            Ok::<StepView, ErrorView>(StepView::Done(p.input)),
            ProcessorView { input: Seq::empty(), ..p },
            rules,
        ),
{
}

/// The statement that a step reads, when it is there and applications are left.
pub open spec fn next_statement(p: ProcessorView, rules: Map<Seq<char>, RuleView>) -> Option<(Seq<char>, Seq<char>, Option<RuleVariantView>)> {
    match find_key(p.input) {
        Some(i) => if p.appleft == MaybeInf::Finite(0u32) {
            None
        } else {
            spec_statement(p.input.skip(i as int), rules)
        },
        None => None,
    }
}

/// A named definition adds its variant last to its rule, unless it is
/// flagged `clear` or `undefine`, which removes the rule.
pub proof fn law_named_definition(p: ProcessorView, rules: Map<Seq<char>, RuleView>)
    requires
        next_statement(p, rules) matches Some((_, name, Some(_))) && name.len() > 0,
    ensures
        ({
            let (_, name, ov) = next_statement(p, rules)->Some_0;
            let v = ov->Some_0;
            let rs = spec_step(p, rules).2;
            &&& spec_step(p, rules).0 is Ok
            &&& (v.flags.contains("clear"@) || v.flags.contains("undefine"@)) ==> !rs.contains_key(name)
                && forall|n: Seq<char>| n != name ==> rs.contains_key(n) == rules.contains_key(n) && (rs.contains_key(n) ==> rs[n] == rules[n])
            &&& !(v.flags.contains("clear"@) || v.flags.contains("undefine"@)) ==> rs.contains_key(name)
                && rs[name].variants == (if rules.contains_key(name) { rules[name].variants } else { Seq::empty() }).push(v)
                && forall|n: Seq<char>| n != name ==> rs.contains_key(n) == rules.contains_key(n) && (rs.contains_key(n) ==> rs[n] == rules[n])
        }),
{
}

/// An unnamed definition is applied to the text after it and then, where
/// that succeeds and unless it is flagged `syntax`, forgotten: the unnamed rule ends up with the
/// variants it had before (none, where it did not exist), and the other
/// rules stay as they are.
pub proof fn law_unnamed_definition_used_once(p: ProcessorView, rules: Map<Seq<char>, RuleView>)
    requires
        next_statement(p, rules) matches Some((_, name, Some(v))) && name.len() == 0
            && !v.flags.contains("clear"@) && !v.flags.contains("undefine"@) && !v.flags.contains("syntax"@),
        spec_step(p, rules).0 matches Ok(sv) && !(sv is Failed),
    ensures
        ({
            let rs = spec_step(p, rules).2;
            &&& rs.contains_key(Seq::empty())
            &&& rs[Seq::empty()].variants == (if rules.contains_key(Seq::empty()) {
                rules[Seq::empty()].variants
            } else {
                Seq::empty()
            })
            &&& forall|n: Seq<char>| n != Seq::<char>::empty() ==> rs.contains_key(n) == rules.contains_key(n)
                && (rs.contains_key(n) ==> rs[n] == rules[n])
        }),
{
    let (_, name, ov) = next_statement(p, rules)->Some_0;
    let v = ov->Some_0;
    assert(name =~= Seq::<char>::empty());
    let r2 = with_variant(rules, name, v);
    assert(r2[name].variants.drop_last() =~= (if rules.contains_key(name) {
        rules[name].variants
    } else {
        Seq::empty()
    }));
}


/// An unnamed definition flagged `syntax` stays defined: where it applies,
/// the unnamed rule ends up with the variants it had before (none, where it
/// did not exist) followed by the new one, which later unnamed definitions
/// apply again; the other rules stay as they are.
pub proof fn law_unnamed_syntax_definition_kept(p: ProcessorView, rules: Map<Seq<char>, RuleView>)
    requires
        next_statement(p, rules) matches Some((_, name, Some(v))) && name.len() == 0
            && !v.flags.contains("clear"@) && !v.flags.contains("undefine"@) && v.flags.contains("syntax"@),
        spec_step(p, rules).0 matches Ok(sv) && !(sv is Failed),
    ensures
        ({
            let v = next_statement(p, rules)->Some_0.2->Some_0;
            let rs = spec_step(p, rules).2;
            &&& rs.contains_key(Seq::empty())
            &&& rs[Seq::empty()].variants == (if rules.contains_key(Seq::empty()) {
                rules[Seq::empty()].variants
            } else {
                Seq::empty()
            }).push(v)
            &&& forall|n: Seq<char>| n != Seq::<char>::empty() ==> rs.contains_key(n) == rules.contains_key(n)
                && (rs.contains_key(n) ==> rs[n] == rules[n])
        }),
{
    let (_, name, ov) = next_statement(p, rules)->Some_0;
    assert(name =~= Seq::<char>::empty());
}

} // verus!
