use deslop::diff::generate_diff;
use deslop::scanner::{is_binary, PathKind, ScanError, Scanner};

#[test]
fn binary_content_has_a_nul_byte() {
    assert!(is_binary(b"ab\0cd"));
    assert!(!is_binary(b"plain text"));
    assert!(!is_binary(b""));
}

#[test]
fn scanner_excludes_matching_paths() {
    let listing = vec!["dir/a.md".to_string(), "dir/vendor/b.md".to_string(), "dir/c.txt".to_string()];
    let s = Scanner::discover("dir", PathKind::Directory, listing, &["**/vendor/**".to_string()]).unwrap();
    assert_eq!(s.files().to_vec(), vec!["dir/a.md".to_string(), "dir/c.txt".to_string()]);
}

#[test]
fn scanner_single_file_ignores_globs() {
    let s = Scanner::discover("a.md", PathKind::File, Vec::new(), &["*.md".to_string()]).unwrap();
    assert_eq!(s.files().to_vec(), vec!["a.md".to_string()]);
}

#[test]
fn scanner_errors() {
    match Scanner::discover("nope", PathKind::Missing, Vec::new(), &[]) {
        Err(ScanError::NotFound(p)) => assert_eq!(p, "nope"),
        _ => panic!("expected a missing path"),
    }
    match Scanner::discover("a.md", PathKind::File, Vec::new(), &["a[".to_string()]) {
        Err(ScanError::InvalidGlob(m)) => assert!(!m.is_empty()),
        _ => panic!("expected an invalid glob"),
    }
}

#[test]
fn diff_has_headers_and_changes() {
    let d = generate_diff("a\nb\nc\n", "a\nB\nc\n", "f.txt");
    assert!(d.starts_with("--- a/f.txt\n+++ b/f.txt\n"));
    assert!(d.contains("-b\n"));
    assert!(d.contains("+B\n"));
}

#[test]
fn diff_of_equal_texts_is_empty() {
    assert_eq!(generate_diff("same\n", "same\n", "f.txt"), "");
}

#[test]
fn scanner_excludes_paths_matched_by_any_glob() {
    let listing = vec!["d/a.md".to_string(), "d/b.txt".to_string(), "d/c.rs".to_string()];
    let s = Scanner::discover("d", PathKind::Directory, listing, &["*.md".to_string(), "*.rs".to_string()]).unwrap();
    assert_eq!(s.files().to_vec(), vec!["d/b.txt".to_string()]);
}
