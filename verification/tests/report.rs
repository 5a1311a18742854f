use deslop::report::{category_tally, json_summary, summary_rows, summary_totals};
use deslop::rules::{Category, Match, MatchKind, Severity};

fn m(rule: &str, category: Category) -> Match {
    Match {
        rule_id: rule.to_string(),
        category,
        severity: Severity::Warn,
        confidence: 10000,
        byte_range: 0..1,
        line: 1,
        col: 1,
        original: "x".to_string(),
        suggestion: String::new(),
        kind: MatchKind::Replace(String::new()),
        description: String::new(),
    }
}

#[test]
fn tally_lists_categories_alphabetically() {
    let ms = vec![
        m("em-dash", Category::Typographic),
        m("hedges", Category::Prose),
        m("em-dash", Category::Typographic),
        m("trivial-comment", Category::Code),
    ];
    assert_eq!(category_tally(&ms), "code:1, prose:1, typographic:2");
    assert_eq!(category_tally(&[]), "");
}

#[test]
fn summary_rows_densest_first() {
    let results = vec![
        ("a.md".to_string(), vec![m("em-dash", Category::Typographic)]),
        ("b.md".to_string(), vec![]),
        ("c.md".to_string(), vec![m("em-dash", Category::Typographic), m("hedges", Category::Prose)]),
    ];
    let rows = summary_rows(&results, &[100, 50, 100]);
    let paths: Vec<&str> = rows.iter().map(|r| r.path.as_str()).collect();
    assert_eq!(paths, vec!["c.md", "a.md", "b.md"]);
    assert_eq!(rows[0].categories, "prose:1, typographic:1");
    assert_eq!(rows[2].hits, 0);
    assert_eq!(rows[2].categories, "");
}

#[test]
fn summary_totals_count_files_and_hits() {
    let results = vec![
        ("a.md".to_string(), vec![m("em-dash", Category::Typographic)]),
        ("b.md".to_string(), vec![]),
        ("c.md".to_string(), vec![m("em-dash", Category::Typographic), m("hedges", Category::Prose)]),
    ];
    assert_eq!(summary_totals(&results), (2, 3));
    let j = json_summary(7, &results);
    assert_eq!(j.total_files_scanned, 7);
    assert_eq!(j.files_with_matches, 3);
    assert_eq!(j.total_matches, 3);
    assert_eq!(j.worst_rule, "em-dash");
}
