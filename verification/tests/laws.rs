use deslop::engine::apply_matches;
use deslop::rules::custom::levenshtein;
use deslop::rules::emoji::EmojiRule;
use deslop::rules::{Category, Match, MatchKind, Severity};

fn replace(start: usize, end: usize, with: &str) -> Match {
    Match {
        rule_id: "r".to_string(),
        category: Category::Prose,
        severity: Severity::Warn,
        confidence: 9000,
        byte_range: start..end,
        line: 1,
        col: start + 1,
        original: String::new(),
        suggestion: with.to_string(),
        kind: MatchKind::Replace(with.to_string()),
        description: String::new(),
    }
}

#[test]
fn fixes_do_not_depend_on_match_order() {
    let content = "one two three";
    let forward = apply_matches(content, &[replace(0, 3, "1"), replace(8, 13, "3")]);
    let backward = apply_matches(content, &[replace(8, 13, "3"), replace(0, 3, "1")]);
    assert_eq!(forward, "1 two 3");
    assert_eq!(forward, backward);
}

#[test]
fn fixing_without_deletions_keeps_blank_lines() {
    assert_eq!(apply_matches("a\n\n\nb", &[]), "a\n\n\nb");
    assert_eq!(apply_matches("a\n\n\nb x", &[replace(6, 7, "y")]), "a\n\n\nb y");
}

#[test]
fn edit_distance_is_a_metric_on_examples() {
    assert_eq!(levenshtein("kitten", "kitten"), 0);
    assert_eq!(levenshtein("kitten", "sitting"), levenshtein("sitting", "kitten"));
    let (a, b, c) = ("kitten", "sitten", "sitting");
    assert!(levenshtein(a, c) <= levenshtein(a, b) + levenshtein(b, c));
    assert_eq!(levenshtein(a, c), 3);
}

#[test]
fn allowed_emoji_are_never_flagged() {
    let rule = EmojiRule::new(&["\u{1f680}".to_string()]);
    let ms = rule.check("\u{1f680} and \u{2728}", None);
    assert_eq!(ms.len(), 1);
    assert_eq!(ms[0].original, "\u{2728}");
}

#[test]
fn allow_list_removes_only_allowed_first_characters() {
    let with = EmojiRule::new(&["\u{2705} ok".to_string(), "".to_string()]);
    let ms = with.check("\u{2705} \u{26A1}", None);
    assert_eq!(ms.len(), 1);
    assert_eq!(ms[0].original, "\u{26A1}");
    assert_eq!(ms[0].byte_range, 4..7);
    let without = EmojiRule::new(&[]);
    assert_eq!(without.check("\u{2705} \u{26A1}", None).len(), 2);
}
