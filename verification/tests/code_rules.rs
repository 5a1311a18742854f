use deslop::detector::detect_file_type;
use deslop::engine::process_file;
use deslop::rules::registry::select_rules;
use deslop::rules::{build_registry, Profile};
use deslop::rules::code::TrivialCommentRule;

#[test]
fn test_trivial_comment_exact_subset() {
    let rule = TrivialCommentRule;
    let content = "
        // Initialize the user list
        let mut userList = initialize_users();
        ";
    let matches = rule.check(content, None);
    assert_eq!(matches.len(), 1);
    assert_eq!(matches[0].confidence, 8500);
}

#[test]
fn test_trivial_comment_not_trivial() {
    let rule = TrivialCommentRule;
    let content = "
        // Use a BTreeMap to keep items sorted by timestamp
        let mut items = HashMap::new();
        ";
    let matches = rule.check(content, None);
    assert_eq!(matches.len(), 0);
}

#[test]
fn test_trivial_comment_stop_words_only() {
    let rule = TrivialCommentRule;
    let content = "
        // Initialize
        let mut a = 1;
        ";
    let matches = rule.check(content, None);
    assert_eq!(matches.len(), 1);
    assert_eq!(matches[0].confidence, 8500);
}

#[test]
fn test_standalone_comment() {
    let rule = TrivialCommentRule;
    let content = "
        // Initialize the user list
        ";
    let matches = rule.check(content, None);
    assert_eq!(matches.len(), 0); // No adjacent code line
}

#[test]
fn trivial_comment_crlf_range_is_the_comment_line() {
    let rule = TrivialCommentRule;
    let content = "x = 1\r\n# Initialize\r\n";
    let matches = rule.check(content, None);
    assert_eq!(matches.len(), 1);
    assert_eq!(matches[0].byte_range, 7..21);
    assert_eq!(&content[matches[0].byte_range.clone()], "# Initialize\r\n");
    assert_eq!(matches[0].line, 2);
}

#[test]
fn trivial_comment_crlf_deletion_keeps_the_code_line() {
    let rules = select_rules(build_registry(&[], &[]), Profile::Code, &vec![], vec![], &[], &[]);
    let file_type = detect_file_type("a.py", Some("py"), None);
    let content = "x = 1\r\n# Initialize\r\n";
    let (fixed, matches) = process_file(content, &rules, file_type, 6000, Some("py"));
    assert_eq!(matches.len(), 1);
    assert_eq!(fixed, "x = 1\r\n");
}

#[test]
fn docstring_filler_rust_block_stops_at_the_doc_lines() {
    let content = "/// This function does things\nfn a() {}\n";
    let ms = deslop::rules::code::DocstringFillerRule::new().check(content, None);
    assert_eq!(ms.len(), 1);
    assert_eq!(&content[ms[0].byte_range.clone()], "/// This function does things\n");
}
