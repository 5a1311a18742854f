use deslop::rules::custom::{CustomFileRule, FixAction};
use deslop::rules::rules_file::{merge_rules, parse_confidence, parse_deslop_rules, validate_deslop_rules, ConfidenceValue};
use deslop::rules::MatchKind;

fn compile(content: &str) -> Vec<CustomFileRule> {
    let file = parse_deslop_rules(".deslop-rules", content).unwrap();
    let (rules, _disables) = merge_rules(&[file]);
    rules.into_iter().map(|r| CustomFileRule::from_parsed(r).unwrap()).collect()
}

#[test]
fn test_check_rules_typo() {
    let errors = validate_deslop_rules("rule broken\n  match: \"foo\"\n  fix: delete\n  sevrity: error\n");
    assert!(errors.iter().any(|e| e.message.contains("did you mean \"severity\"")));
}

#[test]
fn test_check_rules_all_errors_collected() {
    let content = "rule typo-field\n  match: \"foo\"\n  fix: delete\n  sevrity: error\nrule no-fix\n  match: \"bar\"\nrule bad-regex\n  match: \"[\"\n";
    let errors = validate_deslop_rules(content);
    let all: Vec<&str> = errors.iter().map(|e| e.message.as_str()).collect();
    assert!(all.iter().any(|m| m.contains("sevrity")), "{:?}", all);
    assert!(all.iter().any(|m| m.contains("missing")), "{:?}", all);
    assert!(all.iter().any(|m| m.contains("regex")), "{:?}", all);
}

#[test]
fn valid_rules_file_has_no_errors() {
    let content = "rule no-utilize\n  match: \"utilize\"\n  fix: \"use\"\n  message: \"plain words\"\n  confidence: 0.9\n";
    assert!(validate_deslop_rules(content).is_empty());
}

#[test]
fn regex_rule_substitutes_groups() {
    let rules = compile("rule swap\n  match: \"(\\w+)@(\\w+)\"\n  fix: \"$2:$1\"\n");
    let ms = rules[0].check("mail bob@host now", None);
    assert_eq!(ms.len(), 1);
    assert_eq!(ms[0].original, "bob@host");
    assert_eq!(ms[0].suggestion, "host:bob");
    assert!(matches!(&ms[0].kind, MatchKind::Replace(s) if s == "host:bob"));
}

#[test]
fn literal_rule_matches_text_not_pattern() {
    // `{` is no regex marker here: the phrase is matched as written.
    let rules = compile("rule braces\n  match: \"a{2}\"\n  fix: delete\n");
    let ms = rules[0].check("a{2} aa", None);
    assert_eq!(ms.len(), 1);
    assert_eq!(ms[0].original, "a{2}");
}

#[test]
fn literal_rule_ignores_case() {
    let rules = compile("rule filler\n  match: \"in order to\"\n  fix: \"to\"\n");
    let ms = rules[0].check("In Order To win", None);
    assert_eq!(ms.len(), 1);
    assert_eq!(ms[0].suggestion, "to");
}

#[test]
fn deeper_rules_file_overrides() {
    let deep = parse_deslop_rules("deep", "rule r\n  match: \"x\"\n  fix: flag\n").unwrap();
    let shallow = parse_deslop_rules("top", "rule r\n  match: \"y\"\n  fix: delete\nrule s\n  match: \"z\"\n  fix: delete\ndisable em-dash\n").unwrap();
    let (rules, disables) = merge_rules(&[deep, shallow]);
    let r = rules.iter().find(|p| p.name == "r").unwrap();
    assert_eq!(r.pattern, "x");
    assert!(matches!(r.fix, FixAction::Flag));
    assert!(rules.iter().any(|p| p.name == "s"));
    assert_eq!(disables.len(), 1);
    assert_eq!(disables[0].rule_id, "em-dash");
}

#[test]
fn parse_errors_are_reported() {
    let err = parse_deslop_rules("bad", "rule broken\n  match: \"foo\"\n").unwrap_err();
    assert!(err.contains("missing required 'fix' field"), "{}", err);
}

#[test]
fn confidence_values_are_checked() {
    let errors = validate_deslop_rules("rule a\n  match: \"x\"\n  fix: delete\n  confidence: high\n");
    assert!(errors.iter().any(|e| e.message.contains("invalid confidence value: high")));
    let errors = validate_deslop_rules("rule a\n  match: \"x\"\n  fix: delete\n  confidence: 1.5\n");
    assert!(errors.iter().any(|e| e.message.contains("confidence must be between 0.0 and 1.0, got 1.5")));
}

#[test]
fn fix_values_are_checked() {
    let errors = validate_deslop_rules("rule a\n  match: \"x\"\n  fix: remove\n");
    assert!(errors.iter().any(|e| e.message.contains("invalid fix value: remove")));
    assert_eq!(errors[0].line, 3);
}

#[test]
fn confidence_texts() {
    assert!(matches!(parse_confidence("0.85"), ConfidenceValue::Valid(8500)));
    assert!(matches!(parse_confidence("1"), ConfidenceValue::Valid(10000)));
    assert!(matches!(parse_confidence("0"), ConfidenceValue::Valid(0)));
    assert!(matches!(parse_confidence("2.5"), ConfidenceValue::OutOfRange(s) if s == "2.5"));
    assert!(matches!(parse_confidence("-0.5"), ConfidenceValue::OutOfRange(s) if s == "-0.5"));
    assert!(matches!(parse_confidence("abc"), ConfidenceValue::Invalid));
}

#[test]
fn custom_rule_file_globs_match_any_of_them() {
    let rules = compile("rule r\n  match: foo\n  fix: delete\n  files: *.md, docs/**\n");
    assert_eq!(rules.len(), 1);
    assert!(rules[0].matches_path("a.md"));
    assert!(rules[0].matches_path("docs/x.txt"));
    assert!(!rules[0].matches_path("src/x.rs"));
}

#[test]
fn custom_rule_without_globs_matches_every_path() {
    let rules = compile("rule r\n  match: foo\n  fix: delete\n");
    assert!(rules[0].matches_path("anything.rs"));
}

#[test]
fn confidence_accepts_what_the_float_parser_accepts() {
    assert!(matches!(parse_confidence("1e-1"), ConfidenceValue::Valid(1000)));
    assert!(matches!(parse_confidence("1E-1"), ConfidenceValue::Valid(1000)));
    assert!(matches!(parse_confidence(".5"), ConfidenceValue::Valid(5000)));
    assert!(matches!(parse_confidence("+0.25"), ConfidenceValue::Valid(2500)));
    assert!(matches!(parse_confidence("-1e-50"), ConfidenceValue::Valid(0)));
    assert!(matches!(parse_confidence("-0"), ConfidenceValue::Valid(0)));
    assert!(matches!(parse_confidence("1e"), ConfidenceValue::Invalid));
    assert!(matches!(parse_confidence("."), ConfidenceValue::Invalid));
    assert!(matches!(parse_confidence("+-1"), ConfidenceValue::Invalid));
    assert!(matches!(parse_confidence("0x1"), ConfidenceValue::Invalid));
}

#[test]
fn confidence_range_follows_single_precision_rounding() {
    // Rounds to 1.0 in single precision.
    assert!(matches!(parse_confidence("1.00000001"), ConfidenceValue::Valid(10000)));
    assert!(matches!(parse_confidence("1.000000059604644775390625"), ConfidenceValue::Valid(10000)));
    // Rounds to the next number above 1.
    assert!(matches!(
        parse_confidence("1.000000059604644775390626"),
        ConfidenceValue::OutOfRange(s) if s == "1.000000059604644775390626"
    ));
    assert!(matches!(parse_confidence("1.5"), ConfidenceValue::OutOfRange(s) if s == "1.5"));
    assert!(matches!(parse_confidence("2e0"), ConfidenceValue::OutOfRange(s) if s == "2"));
    assert!(matches!(parse_confidence("1e5"), ConfidenceValue::OutOfRange(s) if s == "100000"));
    assert!(matches!(parse_confidence("25e-1"), ConfidenceValue::OutOfRange(s) if s == "2.5"));
    assert!(matches!(
        parse_confidence("-1e-40"),
        ConfidenceValue::OutOfRange(s) if s == format!("-0.{}1", "0".repeat(39))
    ));
    assert!(matches!(
        parse_confidence("3e38"),
        ConfidenceValue::OutOfRange(s) if s == format!("3{}", "0".repeat(38))
    ));
}

#[test]
fn confidence_infinities_and_nan_are_out_of_range() {
    assert!(matches!(parse_confidence("inf"), ConfidenceValue::OutOfRange(s) if s == "inf"));
    assert!(matches!(parse_confidence("-Infinity"), ConfidenceValue::OutOfRange(s) if s == "-inf"));
    assert!(matches!(parse_confidence("NaN"), ConfidenceValue::OutOfRange(s) if s == "NaN"));
    assert!(matches!(parse_confidence("1e999999999999999999999"), ConfidenceValue::OutOfRange(s) if s == "inf"));
    assert!(matches!(parse_confidence("1e39"), ConfidenceValue::OutOfRange(s) if s == "inf"));
    assert!(matches!(parse_confidence("-1e50"), ConfidenceValue::OutOfRange(s) if s == "-inf"));
    assert!(matches!(
        parse_confidence("1000000000000000000000000000000000000000"),
        ConfidenceValue::OutOfRange(s) if s == "inf"
    ));
}

#[test]
fn check_rules_reads_a_lone_quote_as_a_literal_value() {
    let errors = validate_deslop_rules("rule r\n  match: \"\n  fix: delete\n");
    assert!(errors.is_empty());
}

#[test]
fn parse_rules_reads_a_lone_quote_as_a_literal_value() {
    let file = parse_deslop_rules(".deslop-rules", "rule r\n  match: '\n  fix: delete\n").unwrap();
    assert_eq!(file.rules.len(), 1);
    assert_eq!(file.rules[0].pattern, "'");
}
