use deslop::detector::detect_file_type;
use deslop::engine::process_file;
use deslop::report::{compute_sentence_density, rank_sentences, SentenceScore};
use deslop::rules::registry::select_rules;
use deslop::rules::{build_registry, Category, Match, MatchKind, Profile, Severity};

fn matches_of(content: &str) -> Vec<Match> {
    let rules = select_rules(build_registry(&[], &[]), Profile::Prose, &vec![], vec![], &[], &[]);
    let file_type = detect_file_type("doc.md", Some("md"), None);
    process_file(content, &rules, file_type, 6000, Some("md")).1
}

fn worst(content: &str, top_n: usize) -> Vec<(String, SentenceScore)> {
    let ms = matches_of(content);
    let scores = compute_sentence_density(content, &ms);
    rank_sentences(&[("doc.md".to_string(), scores)], top_n)
}

fn hit(start: usize, original: &str) -> Match {
    Match {
        rule_id: "r".to_string(),
        category: Category::Prose,
        severity: Severity::Warn,
        confidence: 9000,
        byte_range: start..start + original.len(),
        line: 1,
        col: start + 1,
        original: original.to_string(),
        suggestion: String::new(),
        kind: MatchKind::FlagOnly,
        description: String::new(),
    }
}

#[test]
fn test_sentences_flag_accepted() {
    assert!(worst("Hello world.\n", 5).is_empty());
}

#[test]
fn test_sentences_section_header_present() {
    let content =
        "Certainly! It is worth noting that our robust API seamlessly leverages cutting-edge paradigms.\n";
    assert!(!worst(content, 5).is_empty());
}

#[test]
fn test_sentences_dense_sentence_first() {
    let content = "Certainly! It is worth noting that our robust API seamlessly leverages cutting-edge paradigms.\nThe quick brown fox jumps over the lazy dog.\n";
    let ranked = worst(content, 5);
    let first = &ranked[0].1.text;
    assert!(
        first.contains("robust") || first.contains("Certainly") || first.contains("seamlessly"),
        "Dense sentence not found in output:\n{:?}",
        first
    );
    assert!(ranked.iter().all(|(_, s)| !s.text.contains("quick brown fox")));
}

#[test]
fn test_sentences_fewer_than_five_all_shown() {
    let content = "Certainly! Note that leverage is utilized.\nClean line.\n";
    let ms = matches_of(content);
    let scores = compute_sentence_density(content, &ms);
    let ranked = rank_sentences(&[("few.md".to_string(), scores)], 5);
    assert!(ranked.len() < 5);
    assert!(!ranked.is_empty(), "Expected sentence section:\n{:?}", ranked.len());
}

#[test]
fn test_sentences_clean_file_no_matches() {
    assert!(worst("The quick brown fox.\nAnother plain sentence.\n", 5).is_empty());
}

#[test]
fn test_sentences_top_five_limit() {
    let content = "Certainly! Our robust API seamlessly leverages paradigms.\n".repeat(10);
    let ranked = worst(&content, 5);
    assert_eq!(ranked.len(), 5);
}

#[test]
fn test_sentences_without_report_flag_ok() {
    let content = "Certainly! It is worth noting that leverage is utilized.\n";
    assert!(!worst(content, 5).is_empty());
}

#[test]
fn sentences_split_at_terminal_before_space() {
    // A match counts in every sentence whose range, 4 bytes past its text,
    // holds its start: "Bye" counts in both sentences.
    let content = "Hi there you. Bye now!";
    let ms = vec![hit(0, "Hi"), hit(14, "Bye"), hit(18, "now")];
    let scores = compute_sentence_density(content, &ms);
    assert_eq!(scores.len(), 2);
    assert_eq!(scores[0].text, "Bye now!");
    assert_eq!(scores[0].hits, 2);
    assert_eq!(scores[0].word_count, 2);
    assert_eq!(scores[0].line, 1);
    assert_eq!(scores[0].matched_words, vec!["Bye".to_string(), "now".to_string()]);
    assert_eq!(scores[1].text, "Hi there you.");
    assert_eq!(scores[1].hits, 2);
    assert_eq!(scores[1].word_count, 3);
    assert_eq!(scores[1].matched_words, vec!["Hi".to_string(), "Bye".to_string()]);
}

#[test]
fn sentences_equal_density_keep_text_order() {
    let content = "One two.\nThree four.\n";
    let ms = vec![hit(0, "One"), hit(15, "four")];
    let scores = compute_sentence_density(content, &ms);
    assert_eq!(scores.len(), 2);
    assert_eq!(scores[0].text, "One two.");
    assert_eq!(scores[1].text, "Three four.");
    // The second sentence's first character is on line 2.
    assert_eq!(scores[1].line, 2);
}

#[test]
fn sentences_line_is_that_of_first_character() {
    let content = "A.
B.";
    let ms = vec![hit(0, "A"), hit(3, "B")];
    let scores = compute_sentence_density(content, &ms);
    assert_eq!(scores.len(), 2);
    assert_eq!(scores[0].text, "A.");
    assert_eq!(scores[0].line, 1);
    assert_eq!(scores[1].text, "B.");
    assert_eq!(scores[1].line, 2);
}

#[test]
fn sentences_long_text_is_cut() {
    let long = format!("{} end.", "word ".repeat(30));
    let ms = vec![hit(0, "word")];
    let scores = compute_sentence_density(&long, &ms);
    assert_eq!(scores.len(), 1);
    assert_eq!(scores[0].text.len(), 97 + '\u{2026}'.len_utf8());
    assert!(scores[0].text.ends_with('\u{2026}'));
}

#[test]
fn sentences_cut_before_a_character_across_byte_97() {
    // Byte 97 falls inside a two-byte character: the cut keeps 96 bytes.
    let long = format!("{}\u{e9}\u{e9}\u{e9}{} end.", "a".repeat(96), " b".repeat(10));
    let ms = vec![hit(0, "a")];
    let scores = compute_sentence_density(&long, &ms);
    assert_eq!(scores.len(), 1);
    assert_eq!(scores[0].text, format!("{}\u{2026}", "a".repeat(96)));
}
