use deslop::detector::detect_file_type;
use deslop::engine::process_file;
use deslop::rules::registry::select_rules;
use deslop::rules::{build_registry, Profile};

/// The text of a Python file after a run with the code profile and the
/// default confidence threshold.
fn deslop_code(content: &str) -> String {
    let rules = select_rules(build_registry(&[], &[]), Profile::Code, &vec![], vec![], &[], &[]);
    let file_type = detect_file_type("test.py", Some("py"), None);
    let (modified, _matches) = process_file(content, &rules, file_type, 6000, Some("py"));
    modified
}

#[test]
fn test_delete_between_blank_lines_no_double_blank() {
    let input = "x = 1\n\n# Initialize\ny = 2\n\nz = 3\n";
    let output = deslop_code(input);
    assert!(!output.contains("\n\n\n"), "Got double blank line in:\n{:?}", output);
    assert!(output.contains("x = 1"));
    assert!(output.contains("y = 2"), "Missing 'y = 2'. Output was: {:?}", output);
    assert!(output.contains("z = 3"));
}

#[test]
fn test_delete_multiple_adjacent_comments_collapses_blanks() {
    let input = "a = 1\n\n# Initialize\n# Set\nb = 2\n\nc = 3\n";
    let output = deslop_code(input);
    assert!(!output.contains("\n\n\n"), "Got triple newline in:\n{:?}", output);
}

#[test]
fn test_delete_at_end_of_file_no_trailing_blank() {
    let input = "x = 1\n# Initialize\n";
    let output = deslop_code(input);
    let trailing_newlines = output.chars().rev().take_while(|&c| c == '\n').count();
    assert!(trailing_newlines <= 1, "Trailing newlines = {}, output = {:?}", trailing_newlines, output);
}

#[test]
fn test_delete_at_start_of_file_no_leading_blank() {
    let input = "# Initialize\nx = 1\n";
    let output = deslop_code(input);
    assert!(!output.starts_with('\n'), "Leading newline present: {:?}", output);
}

#[test]
fn test_single_blank_line_preserved() {
    let input = "x = 1\n\n# Initialize\n\ny = 2\n";
    let output = deslop_code(input);
    assert_eq!(output, "x = 1\n\ny = 2\n", "Unexpected output: {:?}", output);
}

#[test]
fn test_delete_block_no_orphan_blanks() {
    let input = "def foo():\n    \"\"\"\n    This function processes data\n    \"\"\"\n\n    return 42\n";
    let output = deslop_code(input);
    assert!(!output.contains("\n\n\n"), "Triple newline in:\n{:?}", output);
}

#[test]
fn test_no_blank_lines_added() {
    let input = "x = 1\n# Set x\ny = 2\n";
    let output = deslop_code(input);
    assert!(!output.contains("\n\n"), "Unexpected blank line in:\n{:?}", output);
}
