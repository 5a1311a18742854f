use deslop::lsp::{
    byte_offset_to_lsp_position, diagnostics_for, language_id_from_uri, publication_for, Diagnostic, DiagnosticLevel,
    DocumentEvent, Publication,
};
use deslop::rules::registry::select_rules;
use deslop::rules::{build_registry, Profile};

fn diagnostics(uri: &str, language_id: &str, text: &str) -> Vec<Diagnostic> {
    let rules = select_rules(build_registry(&[], &[]), Profile::Prose, &vec![], vec![], &[], &[]);
    diagnostics_for(uri, text, language_id, &rules, 6000).unwrap()
}

#[test]
fn test_lsp_did_open_sloppy_produces_diagnostics() {
    let ds = diagnostics(
        "file:///tmp/test.md",
        "markdown",
        "Certainly! It is worth noting that our robust API seamlessly leverages cutting-edge paradigms.\n",
    );
    assert!(!ds.is_empty(), "Expected at least one diagnostic for sloppy content");
}

#[test]
fn test_lsp_did_open_clean_produces_no_diagnostics() {
    let ds = diagnostics("file:///tmp/clean.md", "markdown", "The quick brown fox jumps over the lazy dog.\n");
    assert!(ds.is_empty(), "Expected empty diagnostics for clean content, got: {:?}", ds.len());
}

#[test]
fn test_lsp_flag_only_matches_are_warnings() {
    let ds = diagnostics("file:///tmp/flagonly.md", "markdown", "Our robust and seamlessly scalable system.\n");
    assert!(!ds.is_empty());
    for d in &ds {
        assert_eq!(d.severity, DiagnosticLevel::Warning, "FlagOnly match should be Warning (2), got {:?}", d.code);
    }
}

#[test]
fn test_lsp_high_confidence_matches_are_errors() {
    let ds = diagnostics("file:///tmp/emdash.md", "markdown", "Hello \u{2014} world.\n");
    assert!(!ds.is_empty(), "Expected em-dash diagnostic");
    let em = ds.iter().find(|d| d.code == "em-dash").expect("em-dash diagnostic not found");
    assert_eq!(em.severity, DiagnosticLevel::Error, "em-dash (confidence 1.0) should be Error (1)");
    assert_eq!((em.start_line, em.start_character, em.end_line, em.end_character), (0, 6, 0, 7));
}

#[test]
fn lsp_positions_count_utf16_units() {
    let text = "a\u{1F600}b\nxy\u{e9}z";
    assert_eq!(byte_offset_to_lsp_position(text, 0), (0, 0));
    assert_eq!(byte_offset_to_lsp_position(text, 1), (0, 1));
    // The emoji takes two UTF-16 units.
    assert_eq!(byte_offset_to_lsp_position(text, 5), (0, 3));
    assert_eq!(byte_offset_to_lsp_position(text, 7), (1, 0));
    assert_eq!(byte_offset_to_lsp_position(text, 9), (1, 2));
    // Inside a character: the character counts.
    assert_eq!(byte_offset_to_lsp_position(text, 10), (1, 3));
    assert_eq!(byte_offset_to_lsp_position(text, 11), (1, 3));
    // Past the end: clamped.
    assert_eq!(byte_offset_to_lsp_position(text, 1000), (1, 4));
}

#[test]
fn lsp_language_from_uri() {
    assert_eq!(language_id_from_uri("file:///tmp/a.rs"), "rs");
    assert_eq!(language_id_from_uri("file:///tmp/noext"), "file:///tmp/noext");
}

#[test]
fn lsp_code_file_by_language() {
    // A Python document: prose rules only look inside comments.
    let ds = diagnostics("file:///tmp/x.py", "python", "x = 1  # Certainly! the value\ny = \"Certainly! not a comment\"\n");
    assert!(ds.iter().all(|d| d.start_line == 0));
}

#[test]
fn test_lsp_code_action_returns_edit() {
    let text = "Hello \u{2014} world.\n";
    let uri = "file:///tmp/codeaction_test.md";
    let ds = diagnostics(uri, "markdown", text);
    assert!(!ds.is_empty(), "Expected at least one diagnostic for em-dash content");
    let d = &ds[0];
    let rules = select_rules(build_registry(&[], &[]), Profile::Prose, &vec![], vec![], &[], &[]);
    let actions = deslop::lsp::actions_for(
        uri,
        text,
        "markdown",
        &rules,
        6000,
        (d.start_line, d.start_character),
        (d.end_line, d.end_character),
    )
    .unwrap();
    assert!(!actions.is_empty(), "Expected at least one code action for em-dash diagnostic");
    assert_eq!(actions[0].new_text, " - ");
    assert_eq!((actions[0].start_line, actions[0].start_character), (0, 6));
    assert_eq!(actions[0].rule_id, "em-dash");
}

#[test]
fn lsp_no_action_outside_the_range() {
    let text = "Hello \u{2014} world.\nplain line\n";
    let rules = select_rules(build_registry(&[], &[]), Profile::Prose, &vec![], vec![], &[], &[]);
    let actions =
        deslop::lsp::actions_for("file:///tmp/a.md", text, "markdown", &rules, 6000, (1, 0), (1, 5)).unwrap();
    assert!(actions.is_empty());
}

#[test]
fn publication_open_change_close() {
    let rules = select_rules(build_registry(&[], &[]), Profile::Prose, &vec![], vec![], &[], &[]);
    let text = "Certainly! It is worth noting that our robust API seamlessly leverages cutting-edge paradigms.\n";
    let uri = "file:///tmp/a.md".to_string();
    let opened = DocumentEvent::Opened { uri: uri.clone(), text: text.to_string(), language_id: "md".to_string() };
    let n_open = match publication_for(&opened, &rules, 6000) {
        Publication::Publish(d) => d.len(),
        _ => panic!("expected diagnostics"),
    };
    assert!(n_open > 0);
    let changed = DocumentEvent::Changed { uri: uri.clone(), changes: vec!["x".to_string(), text.to_string()] };
    match publication_for(&changed, &rules, 6000) {
        Publication::Publish(d) => assert_eq!(d.len(), n_open),
        _ => panic!("expected diagnostics"),
    }
    let empty = DocumentEvent::Changed { uri: uri.clone(), changes: vec![] };
    assert!(matches!(publication_for(&empty, &rules, 6000), Publication::Nothing));
    let closed = DocumentEvent::Closed { uri };
    assert!(matches!(publication_for(&closed, &rules, 6000), Publication::Publish(d) if d.is_empty()));
}
