use deslop::rules::custom::{is_regex_pattern, levenshtein, strip_quotes, suggest_field, CustomPhraseRule};
use deslop::rules::Category;

#[test]
fn test_levenshtein() {
    assert_eq!(levenshtein("severity", "sevrity"), 1);
    assert_eq!(levenshtein("match", "match"), 0);
    assert_eq!(levenshtein("fix", "fiz"), 1);
    assert_eq!(levenshtein("confidence", "confidenc"), 1);
    assert_eq!(levenshtein("xyz", "abc"), 3);
}

#[test]
fn test_suggest_field() {
    assert_eq!(suggest_field("sevrity"), Some("severity".to_string()));
    assert_eq!(suggest_field("mesage"), Some("message".to_string()));
    assert_eq!(suggest_field("matcg"), Some("match".to_string()));
    assert_eq!(suggest_field("xyz"), None);
}

#[test]
fn test_is_regex_pattern() {
    assert!(!is_regex_pattern("simple phrase"));
    assert!(is_regex_pattern("word|other"));
    assert!(is_regex_pattern("(group)"));
    assert!(is_regex_pattern("[abc]"));
    assert!(is_regex_pattern("word.*thing"));
}

#[test]
fn test_strip_quotes() {
    assert_eq!(strip_quotes("\"hello\""), "hello");
    assert_eq!(strip_quotes("'hello'"), "hello");
    assert_eq!(strip_quotes("hello"), "hello");
    assert_eq!(strip_quotes("  \"hello\"  "), "hello");
}

#[test]
fn test_custom_phrase_rule() {
    let rule = CustomPhraseRule::new(&["as mentioned above".to_string(), "in this regard".to_string()]).unwrap();

    let content = "As mentioned above, the code works. In this regard, we agree.";
    let matches = rule.check(content, None);
    assert_eq!(matches.len(), 2);
    assert_eq!(matches[0].rule_id, "custom-phrases");
    assert_eq!(matches[0].category, Category::Custom);
}

#[test]
fn levenshtein_is_symmetric_on_examples() {
    assert_eq!(levenshtein("kitten", "sitting"), 3);
    assert_eq!(levenshtein("sitting", "kitten"), 3);
    assert_eq!(levenshtein("", "abc"), 3);
    assert_eq!(levenshtein("abc", ""), 3);
}

#[test]
fn suggest_field_far_name_has_no_suggestion() {
    assert_eq!(suggest_field("completely-unrelated"), None);
    assert_eq!(suggest_field("fx"), Some("fix".to_string()));
}

#[test]
fn strip_quotes_keeps_a_lone_quote() {
    assert_eq!(strip_quotes("\""), "\"");
    assert_eq!(strip_quotes(" ' "), "'");
    assert_eq!(strip_quotes("\"\""), "");
}

#[test]
fn custom_phrase_meta_characters_match_literally() {
    let rule = CustomPhraseRule::new(&["a.b".to_string()]).unwrap();
    let ms = rule.check("axb and a.b", None);
    assert_eq!(ms.len(), 1);
    assert_eq!(ms[0].original, "a.b");
}
