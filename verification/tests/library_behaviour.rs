use swirl::definition_scan::{definition_from_captures, find_first_definition, RawRuleVariant};
use swirl::error::{error_region, MatchError};
use swirl::mmatch::match_invocation_string::{match_invocation_string, match_invocation_string_pass};
use swirl::mmatch::match_rule_def::{
    match_file_invocation, match_inner_rule_definition, match_rule_definition, match_variant_flag,
};
use swirl::mmatch::{
    match_char, match_ident, match_invocation_string_def, match_invocation_string_def_unchanged, match_quote,
    match_str, match_whitespace, match_whitespaces,
};
use swirl::part_match::{match_rule_head, match_var};
use swirl::postext::PosText;
use swirl::process::{file_load_error, find_statement, init_rules, match_statement, Processor, Step};
use swirl::ruletypes::{parse_body, parse_header, Body, Header, Rule as PlainRule, RuleInvocation, RuleVariant as PlainVariant, Rules as PlainRules, VarInvocation};
use swirl::types::invocation::Invocation;
use swirl::types::invocation_string::InvocationString;
use swirl::types::rule::{Rule, Rules};
use swirl::types::rule_variant::RuleVariant;
use swirl::util::{firstline, input_view, skip_str, substr, MaybeInf, TapOps};
use swirl::vars::Vars;

fn def_istr(text: &str) -> InvocationString {
    let (rest, s) = match_invocation_string_def_unchanged(text, '{', '}').unwrap();
    assert_eq!(rest, "");
    s.unwrap()
}

fn match_rule_definition_in(text: &str) -> Result<(&str, (String, RuleVariant)), MatchError> {
    match_rule_definition(text, &Rules::new())
}

fn plain_number_rules() -> PlainRules {
    let mut rules = PlainRules::new();
    rules.insert(
        "number".to_string(),
        PlainRule {
            name: "number".to_string(),
            variants: vec![
                PlainVariant { match_: Header::literally("0"), replace: None, append: String::new() },
                PlainVariant { match_: Header::literally("1"), replace: None, append: String::new() },
            ],
        },
    );
    rules
}

fn run(input: &str, remove_defs: bool) -> Result<Vec<String>, MatchError> {
    let mut rules = init_rules();
    let mut processor = Processor::new(input, MaybeInf::Infinite, remove_defs);
    let mut out = Vec::new();
    loop {
        match processor.step(&mut rules)? {
            Step::Output(texts) => out.extend(texts),
            Step::LoadFile(texts, name, _) => {
                out.extend(texts);
                processor.provide_file(&format!("<{}>", name));
            }
            Step::Done(text) => {
                out.push(text);
                return Ok(out);
            }
            Step::Failed(texts, error) => {
                out.extend(texts);
                let _ = out;
                return Err(error);
            }
        }
    }
}

#[test]
fn characters_and_words() {
    assert_eq!(match_char("abc", 'a'), Ok("bc"));
    assert_eq!(match_char("abc", 'b').unwrap_err().short_display(), "Expected 'b', got 'abc'\n");
    assert_eq!(match_str("%: rest", "%:"), Ok(" rest"));
    assert!(match_str("% rest", "%:").is_err());
    assert_eq!(match_ident("héllo_1 world"), Ok((" world", "héllo_1")));
    assert!(match_ident(" x").is_err());
    assert_eq!(match_whitespace("\tx"), Ok("x"));
    assert!(match_whitespace("x").is_err());
    assert_eq!(match_whitespaces(" \n\t x "), Ok("x "));
    // skipping white space twice is skipping it once
    assert_eq!(match_whitespaces(match_whitespaces("  \n y").unwrap()), Ok("y"));
}

#[test]
fn quoted_text() {
    assert_eq!(match_quote("'a {b}` rest"), Some(("a {b}", " rest")));
    assert_eq!(match_quote("x"), None);
}

#[test]
fn invocation_string_definitions() {
    let s = def_istr("{a :x:rule b}");
    let mut expected = InvocationString::new();
    expected.add_str("a ");
    expected.add_invoc(Invocation::new_rule_invocation("x", "rule"));
    expected.add_str(" b");
    assert_eq!(s, expected.seal());
    assert_eq!(match_invocation_string_def_unchanged("no brace", '{', '}'), Ok(("no brace", None)));
    assert!(match_invocation_string_def_unchanged("{unclosed", '{', '}').is_err());
    // nested braces are kept as text
    assert_eq!(def_istr("{a{b}c}"), InvocationString::literally("a{b}c"));
}

#[test]
fn white_space_in_definitions_needs_a_handler() {
    let rules = Rules::new();
    assert_eq!(
        match_invocation_string_def("{a{b}c}d", &rules, '{', '}', "ws"),
        Ok(("d", Some(InvocationString::literally("a{b}c"))))
    );
    assert_eq!(match_invocation_string_def("no brace", &rules, '{', '}', "ws"), Ok(("no brace", None)));
    assert!(match_invocation_string_def("{ab", &rules, '{', '}', "ws").is_err());
    let e = match_invocation_string_def("{a b}", &rules, '{', '}', "ws").unwrap_err();
    assert_eq!(e.short_display(), "white space handler not defined at a b}\n");
}

#[test]
fn white_space_goes_through_its_handler() {
    let mut rules = Rules::new();
    rules.add_variant(
        "ws",
        RuleVariant::new(InvocationString::literally(" "))
            .parameter_header(InvocationString::literally("within line"))
            .body(InvocationString::literally("_"))
            .verify("ws")
            .unwrap(),
    );
    assert_eq!(
        match_invocation_string_def("{a b}rest", &rules, '{', '}', "ws"),
        Ok(("rest", Some(InvocationString::literally("a_b"))))
    );
    // a run that the handler does not match in full is an error, and so is
    // a place that it does not take
    assert!(match_invocation_string_def("{a  b}", &rules, '{', '}', "ws").is_err());
    assert!(match_invocation_string_def("{ a}", &rules, '{', '}', "ws").is_err());
}

#[test]
fn rule_definitions() {
    let (rest, (name, variant)) = match_rule_definition_in("%: digit {0} after").unwrap();
    assert_eq!(rest, "after");
    assert_eq!(name, "digit");
    assert_eq!(variant, RuleVariant::new(InvocationString::literally("0")).verify("digit").unwrap());

    let (rest, (name, variant)) = match_rule_definition_in("%: (not) {x} -> {y}z").unwrap();
    assert_eq!(rest, "z");
    assert_eq!(name, "");
    assert!(variant.header_negated());
    assert_eq!(variant.body(), Some(&InvocationString::literally("y")));

    let (_, (_, variant)) = match_rule_definition_in("%: r {a} -> {b} (catch unknown rule) {c}").unwrap();
    assert_eq!(variant.unknown_rule_catch_body(), Some(&InvocationString::literally("c")));

    // a header that is not given needs a body, and an arrow needs a body
    assert!(match_rule_definition_in("%: name").is_err());
    assert!(match_rule_definition_in("%: name {a} ->").is_err());
    // (once) only on unnamed rules, (debug) nowhere
    assert!(match_rule_definition_in("%: (once) name {a}").is_err());
    assert!(match_rule_definition_in("%: (once) {a}").is_ok());
    assert!(match_rule_definition_in("%: (debug) {a}").is_err());
    // the error of a bad definition names where it started
    let e = match_inner_rule_definition("name", &Rules::new()).unwrap_err();
    assert!(e.to_display_string().ends_with(" at name"));
    assert_eq!(match_variant_flag("(syntax) x"), Ok((" x", "syntax")));
    assert!(match_variant_flag("(syntax x").is_err());
}

#[test]
fn file_invocations() {
    assert_eq!(match_file_invocation("%:  lib/rules.txt\trest", &Rules::new()), Ok(("\trest", "lib/rules.txt")));
    assert!(match_file_invocation("%: digit {0}", &Rules::new()).is_err());
    assert!(match_file_invocation("no key", &Rules::new()).is_err());
}

#[test]
fn statements() {
    assert_eq!(find_statement("text %: x"), Some(("text ", "%: x")));
    assert_eq!(find_statement("no statement"), None);
    let (rest, (name, v)) = match_statement("%: file.txt more", &Rules::new()).unwrap();
    assert_eq!((rest, name.as_str(), v.is_none()), (" more", "file.txt", true));
    let e = match_statement("no statement\nhere", &Rules::new()).unwrap_err();
    assert_eq!(e.short_display(), "Expected statement, got 'no statement'\n");
    assert_eq!(match_statement("%:", &Rules::new()).unwrap().1 .0, "");
    assert_eq!(file_load_error("f", "gone").short_display(), "Error loading 'f': gone\n");
}

#[test]
fn processing_applies_unnamed_rules() {
    let input = "%: digit {0}\n%: digit {1}\n%: {:a:digit:b:digit} -> {:b'`:a}10 tail";
    assert_eq!(run(input, true).unwrap().concat(), "01 tail");
    // with definitions kept, their text is passed on too
    let kept = run(input, false).unwrap().concat();
    assert_eq!(kept, "%: digit {0}\n%: digit {1}\n%: {:a:digit:b:digit} -> {:b'`:a}01 tail");
}

#[test]
fn processing_passes_plain_text() {
    assert_eq!(run("just text", true).unwrap(), vec!["just text".to_string()]);
}

#[test]
fn processing_loads_files() {
    assert_eq!(run("a %: other.txt b", true).unwrap().concat(), "a <other.txt> b");
}

#[test]
fn processing_removes_rules() {
    let input = "%: x {a}\n%: (clear) x {b}\n%: {:v:x} -> {:v}a";
    assert!(run(input, true).is_err());
    let mut rules = init_rules();
    let mut processor = Processor::new("%: (undefine) swirl_version_0_0_1 {b}", MaybeInf::Infinite, true);
    assert!(rules.contains_key("swirl_version_0_0_1"));
    processor.step(&mut rules).unwrap();
    assert!(!rules.contains_key("swirl_version_0_0_1"));
}

#[test]
fn processing_counts_applications() {
    let mut rules = Rules::new();
    let mut processor = Processor::new("%: {a} -> {b}a%: {b} -> {c}", MaybeInf::Finite(1), true);
    assert_eq!(processor.step(&mut rules).unwrap(), Step::Output(vec![String::new()]));
    // no application left: the rest is passed on as it is
    assert_eq!(processor.step(&mut rules).unwrap(), Step::Done("b%: {b} -> {c}".to_string()));
}

#[test]
fn builtin_rules() {
    let rules = init_rules();
    for name in [
        "swirl_default_call_explicit_syntax",
        "swirl_feature_undefine_rule",
        "swirl_new_quote_signs",
        "swirl_version_0_0_1",
        "swirl_version_0_0_2",
        "swirl_version_0_0_3",
        "swirl_version_0_1_0",
        "swirl_version_0_2_0",
    ] {
        let rule = rules.get(name).unwrap();
        assert_eq!(rule.variant_count(), 1);
        assert_eq!(rule.variant_at(0), &RuleVariant::empty());
    }
    assert!(!rules.contains_key("swirl"));
}

#[test]
fn last_variant_first() {
    let mut rules = Rules::new();
    rules.add_variant("r", RuleVariant::new(def_istr("{a}")).body(def_istr("{first}")).verify("r").unwrap());
    rules.add_variant("r", RuleVariant::new(def_istr("{a}")).body(def_istr("{second}")).verify("r").unwrap());
    let rule = rules.get("r").unwrap();
    assert_eq!(rule.match_last("ab", "", &rules), Ok(("b", "second".to_string())));
    assert!(rule.match_last("b", "", &rules).is_err());
    let empty = Rule::new("e".to_string());
    assert!(empty.match_last("x", "", &rules).is_err());
}

#[test]
fn negated_and_any_variants() {
    let rules = Rules::new();
    let not_a = RuleVariant::new(def_istr("{a}")).flag("not".to_string()).verify("r").unwrap();
    assert_eq!(not_a.try_match("b", "", &rules, "r", 0), Ok(("b", String::new())));
    assert!(not_a.try_match("a", "", &rules, "r", 0).is_err());
    let any = RuleVariant::new(InvocationString::empty()).flag("any".to_string()).verify("r").unwrap();
    assert_eq!(any.try_match("xy", "", &rules, "r", 0), Ok(("y", "x".to_string())));
    assert!(any.try_match("", "", &rules, "r", 0).is_err());
}

#[test]
fn unknown_rules_and_catch() {
    let rules = Rules::new();
    let v = RuleVariant::new(def_istr("{:x:missing}")).body(def_istr("{b}"));
    let plain = RuleVariant::new(def_istr("{:x:missing}")).body(def_istr("{b}")).verify("r").unwrap();
    let e = plain.try_match("a", "", &rules, "r", 0).unwrap_err();
    assert!(e.is_unknown_rule());
    let caught = v.catch_unknown_rule(def_istr("{caught}")).verify("r").unwrap();
    assert_eq!(caught.try_match("a", "", &rules, "r", 0), Ok(("a", "caught".to_string())));
}

#[test]
fn parameters() {
    let mut rules = Rules::new();
    rules.add_variant("d", RuleVariant::new(def_istr("{1}")).verify("d").unwrap());
    let v = RuleVariant::new(def_istr("{x}"))
        .parameter_header(def_istr("{:n:d}"))
        .body(def_istr("{:n}"))
        .verify("r")
        .unwrap();
    assert_eq!(v.try_match("xz", "1", &rules, "r", 0), Ok(("z", "1".to_string())));
    assert!(v.try_match("xz", "12", &rules, "r", 0).is_err());
}

#[test]
fn sequences() {
    let mut rules = Rules::new();
    let mut rule = Rule::new(String::new());
    rule = rule.variant(RuleVariant::new(def_istr("{b}")).body(def_istr("{c}")).verify("").unwrap());
    rule = rule.variant(RuleVariant::new(def_istr("{a}")).body(def_istr("{b}")).verify("").unwrap());
    rules.insert(String::new(), Rule::new(String::new()));
    let mut left = MaybeInf::Infinite;
    assert_eq!(rule.match_sequence("a!", &rules, &mut left), Ok("c!".to_string()));
    let mut left = MaybeInf::Finite(1);
    assert_eq!(rule.match_sequence("a!", &rules, &mut left), Ok("b!".to_string()));
    assert_eq!(left, MaybeInf::Finite(0));
    let mut left = MaybeInf::Finite(5);
    assert!(rule.match_sequence("x!", &rules, &mut left).is_err());
    assert_eq!(left, MaybeInf::Finite(4));
}

#[test]
fn invocation_strings_bind_variables() {
    let rules = Rules::new();
    let mut vars = Vars::new();
    vars.insert("v".to_string(), "value".to_string());
    let r = match_invocation_string_pass(&def_istr("{<:v>}"), &rules, &vars).unwrap();
    assert_eq!(r.bind_vars(), Ok("<value>".to_string()));
    let r = match_invocation_string_pass(&def_istr("{:w}"), &rules, &vars).unwrap();
    assert!(r.bind_vars().is_err());
    // variables bound before match their values in the input
    let m = match_invocation_string("value!", &def_istr("{:v}"), &rules, &vars, true).negated(false);
    assert_eq!(m.unwrap().0, "!");
    let m = match_invocation_string("other", &def_istr("{:v}"), &rules, &vars, true).negated(true);
    assert_eq!(m.unwrap().0, "other");
}

#[test]
fn plain_parts_and_bodies() {
    assert_eq!(parse_header(":a:b c").unwrap().iter().len(), 2);
    let body: Body = parse_body("x :v y").unwrap();
    let mut named = Vars::new();
    named.insert("v".to_string(), "V".to_string());
    assert_eq!(body.bind_vars(&named, &vec![]), Ok("x V y".to_string()));
    assert!(body.bind_vars(&Vars::new(), &vec![]).is_err());
    // text without invocations binds to itself
    assert_eq!(Body::literally("plain").bind_vars(&Vars::new(), &vec![]), Ok("plain".to_string()));
    // a header stands for the body of its result variables
    let h = parse_header("<:a:r|::r>").unwrap();
    assert_eq!(h.as_body().bind_vars(&named_with("a", "A"), &vec!["B".to_string()]), Ok("<A|B>".to_string()));
    assert_eq!(h.end_invocation(), None);
    assert_eq!(parse_header("x:a:r").unwrap().end_invocation(), Some(&RuleInvocation::new("a", "r")));
    assert_eq!(h.to_display_string(), "<:a:r|::r>");
    assert_eq!(match_var(":name rest"), Ok((" rest", VarInvocation::new("name"))));
    assert!(parse_header("}").is_err());
}

fn named_with(k: &str, v: &str) -> Vars {
    let mut vars = Vars::new();
    vars.insert(k.to_string(), v.to_string());
    vars
}

#[test]
fn builder_joins_text() {
    let mut a = Header::new();
    a.add_str("ab");
    a.add_str("cd");
    let mut b = Header::new();
    b.add_str("abcd");
    assert_eq!(a.seal(), b.seal());
}

#[test]
fn negated_heads() {
    let rules = plain_number_rules();
    let head = parse_header("::number").unwrap();
    assert_eq!(match_rule_head("x", &head, true, &rules), Ok(("x", (Vars::new(), vec![]))));
    let e = match_rule_head("1", &head, true, &rules).unwrap_err();
    assert_eq!(e.short_display(), "Expected 'not ::number', got '1'\n");
}

#[test]
fn definitions_by_pattern() {
    assert_eq!(find_first_definition("no definition"), None);
    assert_eq!(
        find_first_definition("x%: r {a} {b} {c}"),
        Some((
            (1, 17),
            "r".to_string(),
            RawRuleVariant {
                match_: Some("a".to_string()),
                replace: Some("b".to_string()),
                append: "c".to_string()
            }
        ))
    );
    assert_eq!(definition_from_captures(None), None);
    assert_eq!(
        definition_from_captures(Some(vec![Some((0, 2, "%:".to_string()))])),
        Some(((0, 2), String::new(), RawRuleVariant { match_: None, replace: None, append: String::new() }))
    );
}

#[test]
fn errors() {
    let e = MatchError::new("m");
    assert!(!e.is_fatal());
    assert!(MatchError::new("m").fatal().is_fatal());
    assert_eq!(MatchError::unknown_variable("v", "in\nput").short_display(), "Unknown variable 'v': 'in'\n");
    assert!(MatchError::unknown_rule("r", "").is_unknown_rule());
    assert_eq!(error_region(""), "end of line");
    assert_eq!(error_region("line\r\nnext"), "'line'");
    assert_eq!(error_region("abc\ndef"), "'abc'");
    assert_eq!(error_region("\nabc"), "end of line");
    let composed = MatchError::compose("top", vec![MatchError::new("a"), MatchError::new("b")]);
    assert_eq!(composed.display_without_backtrace("", true), "top\ncandidates: 2\n  a\n  b\n\n");
}

#[test]
fn text_helpers() {
    assert_eq!(firstline("  first\nsecond"), "first");
    assert_eq!(skip_str("héllo", 2), "llo");
    assert_eq!(substr("héllo", 1, 3), "él");
    assert_eq!(substr("abc", 2, 10), "c");
    assert_eq!(input_view("short"), "short");
    assert_eq!(input_view("0123456789012345678901234567890123456789"), "01234567890123456789");
}

#[test]
fn numbers_that_may_be_infinite() {
    let mut n = MaybeInf::Finite(3u32);
    n.sub_assign(2);
    assert_eq!(n, MaybeInf::Finite(1));
    let mut inf = MaybeInf::<u32>::Infinite;
    inf.sub_assign(7);
    assert_eq!(inf, MaybeInf::Infinite);
    assert!(MaybeInf::Finite(0u32).is_zero());
}

#[test]
fn positioned_text() {
    let t = PosText { text: "héllo".to_string(), pos: 10 };
    let f = t.forward(3);
    assert_eq!((f.text.as_str(), f.pos), ("llo", 13));
    // moving forward twice is moving forward by the sum, and by nothing keeps the text
    let g = t.forward(1).forward(2);
    assert_eq!((g.text.as_str(), g.pos), (f.text.as_str(), f.pos));
    let h = t.forward(0);
    assert_eq!((h.text.as_str(), h.pos), ("héllo", 10));
}

#[test]
fn tapping() {
    assert_eq!(3.tap(|x| x + 1), 4);
}

#[test]
fn variables() {
    let mut vars = Vars::new();
    vars.insert("a".to_string(), "1".to_string());
    vars.insert("a".to_string(), "2".to_string());
    assert_eq!(vars.get("a"), Some(&"2".to_string()));
    assert!(!vars.contains_key("b"));
    assert_eq!(vars.duplicate(), vars);
}

#[test]
fn macro_rule() {
    assert!(Rule::new("swirlcl".to_string()).is_macro());
    assert!(!Rule::new("other".to_string()).is_macro());
}

#[test]
fn rules_table() {
    let mut rules = Rules::new();
    rules.add_variant("r", RuleVariant::empty());
    rules.add_variant("r", RuleVariant::empty());
    assert_eq!(rules.get("r").unwrap().variant_count(), 2);
    rules.pop_variant("r");
    assert_eq!(rules.get("r").unwrap().variant_count(), 1);
    rules.remove("r");
    assert!(rules.get("r").is_none());
}

fn digit_rules() -> Rules {
    let mut rules = Rules::new();
    rules.add_variant("digit", RuleVariant::new(def_istr("{0}")).verify("digit").unwrap());
    rules.add_variant("digit", RuleVariant::new(def_istr("{1}")).verify("digit").unwrap());
    rules
}

#[test]
fn loops_over_the_last_variant() {
    let mut rules = digit_rules();
    rules.add_variant("digits", RuleVariant::new(def_istr("{::digit}")).verify("digits").unwrap());
    rules.add_variant("digits", RuleVariant::new(def_istr("{::digit::digits}")).verify("digits").unwrap());
    let digits = rules.get("digits").unwrap();
    assert_eq!(digits.match_last("0110x", "", &rules), Ok(("x", "0110".to_string())));
    assert!(digits.match_last("x", "", &rules).is_err());
}

#[test]
fn a_loop_gives_what_the_rule_gives() {
    let mut rules = Rules::new();
    rules.add_variant("r", RuleVariant::new(def_istr("{0}")).verify("r").unwrap());
    rules.add_variant("r", RuleVariant::new(def_istr("{a::r}")).verify("r").unwrap());
    let looped = RuleVariant::new(def_istr("{a::r}")).verify("r").unwrap();
    assert_eq!(looped.try_match("0x", "", &rules, "r", 0), Ok(("x", "0".to_string())));
    assert!(looped.try_match("0x", "", &rules, "r", 1).is_err());
    assert_eq!(looped.try_match("aa0x", "", &rules, "r", 0), Ok(("x", "aa0".to_string())));
}

#[test]
fn loops_with_a_body_recurse() {
    let mut rules = digit_rules();
    rules.add_variant("digits", RuleVariant::new(def_istr("{::digit}")).verify("digits").unwrap());
    rules.add_variant(
        "digits",
        RuleVariant::new(def_istr("{:d:digit::digits}")).body(def_istr("{:d}")).verify("digits").unwrap(),
    );
    let digits = rules.get("digits").unwrap();
    assert_eq!(digits.match_last("01", "", &rules), Ok(("", "0".to_string())));
}

#[test]
fn rules_match_last_as_in_the_digits_example() {
    let mut rules = Rules::new();
    rules.add_variant("digit", RuleVariant::new(InvocationString::literally("0")).verify("digit").unwrap());
    rules.add_variant("digit", RuleVariant::new(InvocationString::literally("1")).verify("digit").unwrap());
    let mut body = InvocationString::new();
    body.add_str("Two times: ");
    body.add_invoc(Invocation::new_var_invocation("d"));
    body.add_invoc(Invocation::new_var_invocation("d"));
    rules.add_variant("digits", RuleVariant::new(def_istr("{::digit}")).verify("digits").unwrap());
    rules.add_variant(
        "digits",
        RuleVariant::new(def_istr("{:d:digit::digits}")).body(body.seal()).verify("digits").unwrap(),
    );
    let digits = rules.get("digits").unwrap();
    assert_eq!(digits.match_last("01110d01", "", &rules), Ok(("d01", "Two times: 00".to_string())));
    assert!(digits.match_last("abcde", "", &rules).is_err());
}

#[test]
fn match_last_skip_tries_the_variants_before_the_skipped_ones() {
    let lit = |s: &str| RuleVariant::new(InvocationString::literally(s)).verify("d").unwrap();
    let make = || Rule::new("d".to_string()).variant(lit("a")).variant(lit("ab"));
    let mut rules = Rules::new();
    rules.insert("d".to_string(), make());
    let d = make();
    assert_eq!(d.match_last_skip("abc", "", &rules, 0, vec![]), Ok(("c", "ab".to_string())));
    assert_eq!(d.match_last_skip("abc", "", &rules, 1, vec![]), Ok(("bc", "a".to_string())));
    assert_eq!(
        d.match_last_skip("abc", "", &rules, 2, vec![MatchError::new("e0")]),
        Err(MatchError::compose("No variant of 'd' matched.", vec![MatchError::new("e0")]))
    );
}

#[test]
fn a_negated_match_fails_where_the_match_succeeds() {
    let rules = Rules::new();
    let mut vars = Vars::new();
    vars.insert("v".to_string(), "value".to_string());
    let m = match_invocation_string("value!", &def_istr("{:v}"), &rules, &vars, true).negated(true);
    assert_eq!(m.unwrap_err(), MatchError::expected("not  :v  ", "value!"));
}

#[test]
fn assume_and_unwrap_give_the_string_back() {
    let s = def_istr("{a :x:rule b}");
    assert_eq!(def_istr("{a :x:rule b}").assume_only_var_invocs().unwrap(), s);
}

#[test]
fn maybe_inf_order() {
    assert!(MaybeInf::Finite(2u32) < MaybeInf::Finite(3u32));
    assert!(MaybeInf::Infinite > MaybeInf::Finite(u32::MAX));
    assert!(!(MaybeInf::<u32>::Infinite < MaybeInf::Infinite));
    let mut x = MaybeInf::Finite(3u32);
    x.sub_assign(1);
    assert!(x < MaybeInf::Finite(3));
}

#[test]
fn flags_are_a_set() {
    let h = || InvocationString::literally("h");
    let one_by_one = RuleVariant::new(h()).flag("a".to_string()).flags(vec!["b".to_string()]);
    let at_once = RuleVariant::new(h()).flags(vec!["a".to_string(), "b".to_string()]);
    assert_eq!(one_by_one, at_once);
    assert_eq!(RuleVariant::new(h()).flag("b".to_string()).flag("a".to_string()), at_once);
    assert_ne!(RuleVariant::new(h()).flag("a".to_string()), at_once);
    assert_eq!(RuleVariant::new(h()).flags(vec!["a".to_string(), "a".to_string()]), RuleVariant::new(h()).flag("a".to_string()));
}

#[test]
fn invocation_string_equality() {
    let a = def_istr("{x :v y}");
    let b = def_istr("{x :v y}");
    assert!(a == b && b == a);
    assert!(def_istr("{x :v y}") != def_istr("{x :w y}"));
    assert!(def_istr("{x :v}") != def_istr("{x :v y}"));
}

#[test]
fn white_space_in_handler_results_goes_through_the_body_handler() {
    let handler = |place: &str, result: &str| {
        RuleVariant::new(InvocationString::literally(" "))
            .parameter_header(InvocationString::literally(place))
            .body(InvocationString::literally(result))
            .verify("ws")
            .unwrap()
    };
    let mut rules = Rules::new();
    rules.add_variant("ws", handler("within line", " "));
    // the result " " holds white space, and no body handler is defined
    assert!(match_invocation_string_def("{a b}", &rules, '{', '}', "ws").is_err());
    rules.add_variant(swirl::SWIRL_WHITESPACE_HANDLER_BODY, handler("begin", "_"));
    assert_eq!(
        match_invocation_string_def("{a b}", &rules, '{', '}', "ws"),
        Ok(("", Some(InvocationString::literally("a_b"))))
    );
}

#[test]
fn match_var_with_an_unused_argument_is_match_var() {
    for input in [":name rest", "name", ":", ": x", ""] {
        assert_eq!(swirl::mmatch::match_var_(input, &()), swirl::mmatch::match_var(input));
        assert_eq!(swirl::part_match::match_var_(input, &()), match_var(input));
    }
    assert_eq!(
        swirl::mmatch::match_var(":").unwrap_err(),
        MatchError::expected("identifier", "")
    );
    assert_eq!(swirl::mmatch::match_var("x").unwrap_err(), MatchError::expected(":", "x"));
}

#[test]
fn a_failing_rule_invocation_passes_its_error_on() {
    let mut rules = Rules::new();
    rules.add_variant("d", RuleVariant::new(InvocationString::literally("1")).verify("d").unwrap());
    let vars = Vars::new();
    let err = match_invocation_string("x", &def_istr("{::d}"), &rules, &vars, true).negated(false).unwrap_err();
    // the error of the rule itself, not wrapped in another one
    assert_eq!(err.short_display(), "No variant of 'd' matched.\n");
    assert!(!err.is_unknown_rule());
    let unknown = match_invocation_string("x", &def_istr("{::nowhere}"), &rules, &vars, true).negated(false).unwrap_err();
    assert!(unknown.is_unknown_rule());
}

#[test]
fn definition_errors_say_what_is_wrong() {
    let rules = Rules::new();
    let e = match_rule_definition(" name", &rules).unwrap_err();
    assert_eq!(e, MatchError::expected("%:", " name"));
    let e = match_rule_definition("%: name", &rules).unwrap_err();
    assert_eq!(e.to_display_string(), "This is not a rule definition.\n at name");
    let e = match_rule_definition("%: name {a} -> x", &rules).unwrap_err();
    assert_eq!(e.short_display(), "Expected 'rule body', got 'x'\n");
    let e = match_rule_definition("%: (once) name {a}", &rules).unwrap_err();
    assert!(e.short_display().contains("Can only use flag (once) on unnamed rules"));
    assert_eq!(match_variant_flag("x").unwrap_err(), MatchError::expected("(", "x"));
    assert_eq!(match_variant_flag("(a").unwrap_err(), MatchError::expected(")", ""));
}

#[test]
fn a_failed_application_reports_the_variant_error() {
    let mut rules = init_rules();
    let mut processor = Processor::new("%: {a} -> {b}x", MaybeInf::Infinite, true);
    match processor.step(&mut rules).unwrap() {
        Step::Failed(texts, e) => {
            assert_eq!(texts, vec!["".to_string()]);
            assert_eq!(e.to_display_string(), "Expected 'a', got 'x'\n at %: {a } on 'x'");
        }
        other => panic!("unexpected step {:?}", other),
    }
}
