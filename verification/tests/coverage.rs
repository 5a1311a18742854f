use deslop::report::{never_fired, worst_rule};
use deslop::rules::{Category, Match, MatchKind, Severity};

fn m(rule: &str) -> Match {
    Match {
        rule_id: rule.to_string(),
        category: Category::Typographic,
        severity: Severity::Warn,
        confidence: 10000,
        byte_range: 0..1,
        line: 1,
        col: 1,
        original: "x".to_string(),
        suggestion: String::new(),
        kind: MatchKind::Replace(String::new()),
        description: String::new(),
    }
}

fn strings(v: &[&str]) -> Vec<String> {
    v.iter().map(|s| s.to_string()).collect()
}

#[test]
fn test_coverage_stats_shown_with_report() {
    let all = strings(&["em-dash", "en-dash"]);
    assert_eq!(never_fired(&all, &[]), all);
}

#[test]
fn test_fired_rules_not_in_zero_fire_list() {
    let all = strings(&["em-dash", "en-dash", "ellipsis"]);
    let fired = strings(&["em-dash"]);
    let never = never_fired(&all, &fired);
    assert!(!never.contains(&"em-dash".to_string()));
    assert_eq!(never, strings(&["en-dash", "ellipsis"]));
}

#[test]
fn test_zero_fire_section_lists_rules() {
    let all = strings(&["em-dash", "filler-openers"]);
    let fired = strings(&["em-dash"]);
    assert!(!never_fired(&all, &fired).is_empty());
}

#[test]
fn worst_rule_counts_over_files() {
    let results = vec![
        ("a.md".to_string(), vec![m("em-dash"), m("ellipsis")]),
        ("b.md".to_string(), vec![m("ellipsis"), m("em-dash"), m("ellipsis")]),
    ];
    assert_eq!(worst_rule(&results), Some(("ellipsis".to_string(), 3)));
}

#[test]
fn worst_rule_tie_goes_to_first_seen() {
    let results = vec![("a.md".to_string(), vec![m("b-rule"), m("a-rule"), m("a-rule"), m("b-rule")])];
    assert_eq!(worst_rule(&results), Some(("b-rule".to_string(), 2)));
    assert_eq!(worst_rule(&[]), None);
}

#[test]
fn fired_rules_over_files() {
    let results = vec![("a.md".to_string(), vec![m("em-dash"), m("ellipsis")]), ("b.md".to_string(), vec![m("em-dash")])];
    let fired = deslop::report::fired_rule_ids(&results);
    assert_eq!(fired, strings(&["em-dash", "ellipsis", "em-dash"]));
    let all = strings(&["em-dash", "en-dash", "ellipsis"]);
    assert_eq!(never_fired(&all, &fired), strings(&["en-dash"]));
}
