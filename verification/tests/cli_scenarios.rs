use deslop::detector::detect_file_type;
use deslop::engine::process_file;
use deslop::rules::registry::select_rules;
use deslop::rules::{build_registry, Match, Profile};

/// A run on one file, as the command line does it: the built-in rules of
/// the profile, less the skipped ones (only the fixed ones when `fix` is not
/// empty), at the default confidence threshold.
fn run(content: &str, name: &str, profile: Profile, skip: &[&str], fix: &[&str]) -> (String, Vec<Match>) {
    let skip: Vec<String> = skip.iter().map(|s| s.to_string()).collect();
    let fix: Vec<String> = fix.iter().map(|s| s.to_string()).collect();
    let rules = select_rules(build_registry(&[], &[]), profile, &vec![], vec![], &skip, &fix);
    let ext = name.rsplit('.').next();
    let file_type = detect_file_type(name, ext, None);
    process_file(content, &rules, file_type, 6000, ext)
}

#[test]
fn test_skip_em_dash() {
    let (out, _) = run("Hello \u{2014} world", "test.md", Profile::Prose, &["em-dash"], &[]);
    assert_eq!(out, "Hello \u{2014} world");
}

#[test]
fn test_fix_em_dash() {
    let (out, _) = run("Hello \u{2014} world\u{2026}", "test.md", Profile::Prose, &[], &["em-dash"]);
    assert_eq!(out, "Hello  -  world\u{2026}"); // ellipsis not fixed
}

#[test]
fn test_conservative_profile() {
    let (out, _) = run("Certainly! Here is the code \u{2014}", "test.md", Profile::Conservative, &[], &[]);
    assert_eq!(out, "Certainly! Here is the code  - ");
}

#[test]
fn test_code_profile_trivial_comment() {
    let (out, _) = run("# Initialize\nx = 1\n", "test.py", Profile::Code, &[], &[]);
    assert_eq!(out, "x = 1\n");
}

#[test]
fn test_doc_comment_not_flagged() {
    let content = "/// Returns the user count for the active session.\npub fn user_count() -> usize { 0 }\n";
    let (out, matches) = run(content, "lib.rs", Profile::Code, &[], &[]);
    assert_eq!(out, content, "Doc comment should not be flagged as trivial");
    assert!(matches.iter().all(|m| m.rule_id != "trivial-comment"));
}

#[test]
fn prose_profile_fixes_typography() {
    let (out, matches) = run("Wait\u{2026} \u{201C}quoted\u{201D}", "notes.md", Profile::Prose, &[], &[]);
    assert_eq!(out, "Wait... \"quoted\"");
    assert_eq!(matches.len(), 3);
}

#[test]
fn clean_text_is_unchanged() {
    let content = "The quick brown fox jumps over the lazy dog.\n";
    let (out, matches) = run(content, "clean.md", Profile::Aggressive, &[], &[]);
    assert_eq!(out, content);
    assert!(matches.is_empty());
}

#[test]
fn flagged_matches_are_not_written() {
    let content = "Our robust and seamlessly scalable system.\n";
    let (out, matches) = run(content, "flag.md", Profile::Prose, &[], &[]);
    assert!(!matches.is_empty());
    assert!(matches.iter().all(|m| matches!(m.kind, deslop::rules::MatchKind::FlagOnly)));
    assert_eq!(out, content);
}

#[test]
fn overlapping_matches_are_resolved() {
    // The ellipsis lies inside a hedge phrase; the kept matches never overlap.
    let (_, matches) = run("Certainly\u{2026} it seems that the plan works.\n", "doc.md", Profile::Aggressive, &[], &[]);
    for w in matches.windows(2) {
        assert!(w[0].byte_range.end <= w[1].byte_range.start);
    }
}

const SLOPPY: &str = "Certainly! It is worth noting that our robust API seamlessly leverages cutting-edge paradigms \u{2014} truly.\n";

#[test]
fn test_diff() {
    let path_str = "/tmp/sloppy.md";
    let (modified, _) = run(SLOPPY, "sloppy.md", Profile::Prose, &[], &[]);
    let diff = deslop::diff::generate_diff(SLOPPY, &modified, path_str);
    assert!(diff.contains(&format!("--- a/{}", path_str)));
}

#[test]
fn test_json() {
    let (_, matches) = run(SLOPPY, "sloppy.md", Profile::Prose, &[], &[]);
    let results = vec![("sloppy.md".to_string(), matches)];
    let summary = deslop::report::json_summary(1, &results);
    assert!(summary.total_matches > 0);
    assert_eq!(summary.files_with_matches, 1);
}

#[test]
fn test_nonexistent_path_exits_2() {
    let r = deslop::scanner::Scanner::discover(
        "/nonexistent/path/that/cannot/exist",
        deslop::scanner::PathKind::Missing,
        Vec::new(),
        &[],
    );
    assert!(matches!(r, Err(deslop::scanner::ScanError::NotFound(_))));
}

#[test]
fn test_interactive_nontty_unchanged() {
    // Without a terminal nothing is accepted, and no fix is written.
    let original = SLOPPY;
    let after = deslop::engine::apply_matches(original, &[]);
    assert_eq!(after, original, "File should be unchanged when interactive runs in non-TTY mode");
}
