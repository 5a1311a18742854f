use deslop::rules::registry::select_rules;
use deslop::rules::{build_registry, Profile, Rule};

fn active(profile: Profile) -> Vec<Rule> {
    select_rules(build_registry(&[], &[]), profile, &vec![], vec![], &[], &[])
}

#[test]
fn test_explain_rules_contains_all_builtin_ids() {
    let expected_ids = [
        "em-dash",
        "en-dash",
        "curly-quotes",
        "ellipsis",
        "nbsp",
        "zero-width",
        "soft-hyphen",
        "emoji",
        "decorative-unicode",
        "filler-openers",
        "sycophantic-closers",
        "hedges",
        "transition-padding",
        "hollow-intensifiers",
        "trivial-comment",
        "docstring-filler",
    ];
    let ids: Vec<String> = active(Profile::Aggressive).iter().map(|r| r.id().to_string()).collect();
    for id in &expected_ids {
        assert!(ids.iter().any(|i| i == id), "missing {}", id);
    }
}

#[test]
fn test_explain_rules_contains_confidence() {
    let confidences: Vec<u32> =
        active(Profile::Prose).iter().filter_map(|r| r.explain()).map(|e| e.confidence).collect();
    assert!(confidences.iter().any(|c| *c == 10000 || *c == 9500));
}

#[test]
fn test_explain_rules_contains_examples() {
    let texts: Vec<String> = active(Profile::Prose)
        .iter()
        .filter_map(|r| r.explain())
        .map(|e| format!("{} {} {} {}", e.pattern_summary, e.fix_behavior, e.example_input, e.example_output))
        .collect();
    assert!(texts.iter().any(|t| t.contains('\u{2014}')));
}

#[test]
fn test_explain_rules_contains_fix_behavior() {
    let fixes: Vec<String> = active(Profile::Prose).iter().filter_map(|r| r.explain()).map(|e| e.fix_behavior).collect();
    assert!(fixes.iter().any(|f| f.contains("Replace") || f.contains("Delete") || f.contains("FlagOnly")));
}

#[test]
fn test_explain_rules_respects_profile() {
    assert!(!active(Profile::Conservative).iter().any(|r| r.id() == "filler-openers"));
}

#[test]
fn test_explain_rules_aggressive_shows_code_rules() {
    let rules = active(Profile::Aggressive);
    assert!(rules.iter().any(|r| r.id() == "trivial-comment"));
    assert!(rules.iter().any(|r| r.id() == "filler-openers"));
}
