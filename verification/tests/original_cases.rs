use swirl::definition_scan::{find_first_definition, RawRuleVariant};
use swirl::mmatch::match_rule_invoc;
use swirl::part_match::{match_escapable_char, match_invocation, match_rule_head, match_rule_part};
use swirl::ruletypes::{parse_body, parse_header, Header, Rule, RuleInvocation, RuleVariant, Rules};
use swirl::types::invocation::Invocation;
use swirl::util::MaybeInf;
use swirl::vars::Vars;

#[test]
fn test_find_first_definition() {
    assert_eq!(
        find_first_definition("0123%:  name1{...}}19"),
        Some((
            (4, 19),
            "name1".to_string(),
            RawRuleVariant { match_: Some("...}".to_string()), replace: None, append: "".to_string() }
        ))
    );
}

#[test]
fn mmatch_test_match_invocation() {
    assert_eq!(match_invocation("::rule text"), Ok((" text", RuleInvocation::new("", "rule"))));
    assert_eq!(match_invocation(":name:rule text"), Ok((" text", RuleInvocation::new("name", "rule"))));
    assert!(match_invocation(":name:: text").is_err());
    assert!(match_invocation("text :name:rule").is_err());
}

#[test]
fn test_match_escapable_char() {
    assert_eq!(match_escapable_char("..text", '.'), Ok(("text", '.')));
    assert_eq!(match_escapable_char("abtext", 'a'), Ok(("text", 'b')));
    assert_eq!(match_escapable_char("P,text", ','), Ok((",text", 'P')));
    assert!(match_escapable_char("", '.').is_err());
    assert!(match_escapable_char(".", '.').is_err());
    assert_eq!(match_escapable_char("a", '.'), Ok(("", 'a')));
}

fn expected_apples_header() -> Header {
    let mut head = Header::new();
    head.add_str("I have:");
    head.add_invoc(RuleInvocation::new("n1", "number"));
    head.add_invoc(RuleInvocation::new("n2", "number"));
    head.add_str(":apples...");
    head.add_invoc(RuleInvocation::new("", "number"));
    head.seal()
}

#[test]
fn mmatch_test_match_rule_part() {
    let (_, rule_head) =
        match_rule_part("{I have.::n1:number:n2:number.:apples......::number}", match_invocation).unwrap();
    let rule_head = rule_head.unwrap();
    assert_eq!(rule_head, expected_apples_header())
}

#[test]
fn test_match_invocation_string() {}

#[test]
fn match_rule_part_test_match_rule_part() {
    let (_, rule_head) =
        match_rule_part("{I have.::n1:number:n2:number.:apples......::number}", match_invocation).unwrap();
    let rule_head = rule_head.unwrap();
    assert_eq!(rule_head, expected_apples_header())
}

#[test]
fn _test_match_rule_head() {
    let mut rules = Rules::new();
    rules.insert(
        "number".to_string(),
        Rule {
            name: "number".to_string(),
            variants: vec![
                RuleVariant { match_: Header::literally("0"), replace: None, append: "".to_string() },
                RuleVariant { match_: Header::literally("1"), replace: None, append: "".to_string() },
            ],
        },
    );
    let mut results = Vars::new();
    results.insert("n1".to_string(), "1".to_string());
    results.insert("n2".to_string(), "0".to_string());
    let anon_results = vec!["1".to_string()];

    let (_, rule_head) =
        match_rule_part("{I. have.::n1:number:n2:number.:apples......::number}", match_invocation).unwrap();
    let rule_head = rule_head.unwrap();

    assert_eq!(
        match_rule_head("I have:10:apples...1 and 2 bananas", &rule_head, false, &rules),
        Ok((" and 2 bananas", (results, anon_results)))
    );
}

#[test]
fn mod_test_match_invocation() {
    assert_eq!(match_rule_invoc("::rule text"), Ok((" text", Invocation::new_rule_invocation("", "rule"))));
    assert_eq!(match_rule_invoc(":name:rule text"), Ok((" text", Invocation::new_rule_invocation("name", "rule"))));
    assert!(match_rule_invoc(":name:: text").is_err());
    assert!(match_rule_invoc("text :name:rule").is_err());
}

#[test]
fn test_ord() {
    assert!(MaybeInf::Finite(2) < MaybeInf::Finite(3));
    assert!(MaybeInf::Finite(3) == MaybeInf::Finite(3));
    assert!(MaybeInf::Infinite > MaybeInf::Finite(100));
    assert!(MaybeInf::<i32>::Infinite == MaybeInf::Infinite);
}

#[test]
fn test_match_last() {
    let mut rules = Rules::new();
    let rule_digit = || Rule {
        name: "digit".to_string(),
        variants: vec![
            RuleVariant { match_: Header::literally("0"), replace: None, append: String::new() },
            RuleVariant { match_: Header::literally("1"), replace: None, append: String::new() },
        ],
    };
    let rule_digits = || Rule {
        name: "digits".to_string(),
        variants: vec![
            RuleVariant { match_: parse_header("::digit").unwrap(), replace: None, append: String::new() },
            RuleVariant {
                match_: parse_header(":d:digit::digits").unwrap(),
                replace: Some(parse_body("Two .times: :d:d").unwrap()),
                append: String::new(),
            },
        ],
    };
    rules.insert("digit".to_string(), rule_digit());
    rules.insert("digits".to_string(), rule_digits());

    assert_eq!(rule_digits().match_last("01110d01", &rules), Ok(("d01", "Two times: 00".to_string())));
    assert!(rule_digits().match_last("abcde", &rules).is_err());
}

#[test]
fn ruletypes_test_rule_part_iter() {
    let ab = RuleInvocation::new("a", "b");
    let cd = RuleInvocation::new("c", "d");
    let ef = RuleInvocation::new("e", "f");

    let mut header = Header::new();
    header.add_invoc(ab.clone());
    header.add_str("12");
    header.add_invoc(cd.clone());
    header.add_invoc(ef.clone());
    header.add_str("34");
    let header = header.seal();

    assert_eq!(header.iter(), vec![("", &[ab][..]), ("12", &[cd, ef][..]), ("34", &[][..])]);
}

#[test]
fn test_iter_last() {
    let ab = RuleInvocation::new("a", "b");
    let cd = RuleInvocation::new("c", "d");
    let ef = RuleInvocation::new("e", "f");

    // filter out ("", &[]) from RulePart::iter()
    let nonempty = |(string, slice): &(&str, &[RuleInvocation])| !string.is_empty() || slice.len() != 0;

    let mut part = Header::new();
    part.add_invoc(ab.clone());
    assert_eq!(part.clone().seal().iter().into_iter().filter(nonempty).last(), Some(("", &[ab][..])));
    part.add_str("01");
    part.add_invoc(cd.clone());
    part.add_invoc(ef.clone());
    assert_eq!(part.clone().seal().iter().into_iter().filter(nonempty).last(), Some(("01", &[cd, ef][..])));
    part.add_str("23");
    assert_eq!(part.clone().seal().iter().into_iter().filter(nonempty).last(), Some(("23", &[][..])))
}

#[test]
fn rulepart_test_rule_part_iter() {
    let ab = RuleInvocation::new("a", "b");
    let cd = RuleInvocation::new("c", "d");
    let ef = RuleInvocation::new("e", "f");

    let mut header = Header::new();
    header.add_invoc(ab.clone());
    header.add_str("12");
    header.add_invoc(cd.clone());
    header.add_invoc(ef.clone());
    header.add_str("34");
    let header = header.seal();

    assert_eq!(header.iter(), vec![("", &[ab][..]), ("12", &[cd, ef][..]), ("34", &[][..])]);
}
