use deslop::interactive::{process_key, InteractiveAction, KeyCode, Session, SessionStep};
use deslop::rules::{Category, Match, MatchKind, Severity};

#[test]
fn test_process_key_accept() {
    assert_eq!(process_key(KeyCode::Char('y'), false), InteractiveAction::Accept);
    assert_eq!(process_key(KeyCode::Char('y'), true), InteractiveAction::NoAction);
}

#[test]
fn test_process_key_skip() {
    assert_eq!(process_key(KeyCode::Char('n'), false), InteractiveAction::Skip);
    assert_eq!(process_key(KeyCode::Char('n'), true), InteractiveAction::Skip);
    assert_eq!(process_key(KeyCode::Char('f'), true), InteractiveAction::Skip);
    assert_eq!(process_key(KeyCode::Char('f'), false), InteractiveAction::NoAction);
}

#[test]
fn test_process_key_accept_all() {
    assert_eq!(process_key(KeyCode::Char('a'), false), InteractiveAction::AcceptAll);
    assert_eq!(process_key(KeyCode::Char('a'), true), InteractiveAction::NoAction);
}

#[test]
fn test_process_key_skip_rule() {
    assert_eq!(process_key(KeyCode::Char('s'), false), InteractiveAction::SkipRule);
    assert_eq!(process_key(KeyCode::Char('s'), true), InteractiveAction::SkipRule);
}

#[test]
fn test_process_key_scroll() {
    assert_eq!(process_key(KeyCode::Up, false), InteractiveAction::ScrollUp);
    assert_eq!(process_key(KeyCode::Char('k'), false), InteractiveAction::ScrollUp);
    assert_eq!(process_key(KeyCode::Down, false), InteractiveAction::ScrollDown);
    assert_eq!(process_key(KeyCode::Char('j'), false), InteractiveAction::ScrollDown);
}

#[test]
fn test_process_key_help_and_quit() {
    assert_eq!(process_key(KeyCode::Char('?'), false), InteractiveAction::ToggleHelp);
    assert_eq!(process_key(KeyCode::Char('q'), false), InteractiveAction::Quit);
    assert_eq!(process_key(KeyCode::Esc, false), InteractiveAction::Quit);
}

fn sample(rule: &str, start: usize, kind: MatchKind) -> Match {
    Match {
        rule_id: rule.to_string(),
        category: Category::Typographic,
        severity: Severity::Warn,
        confidence: 10000,
        byte_range: start..start + 1,
        line: 1,
        col: start + 1,
        original: "x".to_string(),
        suggestion: "y".to_string(),
        kind,
        description: "d".to_string(),
    }
}

#[test]
fn session_accepts_and_skips_in_order() {
    let ms = vec![
        sample("a", 0, MatchKind::Replace("y".to_string())),
        sample("b", 1, MatchKind::Replace("y".to_string())),
        sample("c", 2, MatchKind::FlagOnly),
    ];
    let mut s = Session::new(ms);
    assert!(!s.is_finished());
    assert_eq!(s.handle_key(KeyCode::Char('y')), SessionStep::Continue);
    assert_eq!(s.handle_key(KeyCode::Char('n')), SessionStep::Continue);
    // A flagged match cannot be accepted; 'f' acknowledges it.
    assert_eq!(s.handle_key(KeyCode::Char('y')), SessionStep::Continue);
    assert_eq!(s.current().map(|(i, _)| i), Some(2));
    assert_eq!(s.handle_key(KeyCode::Char('f')), SessionStep::Done);
    let accepted = s.into_accepted();
    assert_eq!(accepted.len(), 1);
    assert_eq!(accepted[0].rule_id, "a");
}

#[test]
fn session_skip_rule_passes_over_its_later_matches() {
    let ms = vec![
        sample("a", 0, MatchKind::Replace("y".to_string())),
        sample("b", 1, MatchKind::Replace("y".to_string())),
        sample("a", 2, MatchKind::Replace("y".to_string())),
        sample("c", 3, MatchKind::Replace("y".to_string())),
    ];
    let mut s = Session::new(ms);
    assert_eq!(s.handle_key(KeyCode::Char('s')), SessionStep::Continue);
    assert_eq!(s.current().map(|(i, _)| i), Some(1));
    assert_eq!(s.handle_key(KeyCode::Char('y')), SessionStep::Continue);
    assert_eq!(s.current().map(|(i, _)| i), Some(3));
    assert_eq!(s.handle_key(KeyCode::Char('y')), SessionStep::Done);
    let accepted = s.into_accepted();
    let ids: Vec<&str> = accepted.iter().map(|m| m.rule_id.as_str()).collect();
    assert_eq!(ids, vec!["b", "c"]);
}

#[test]
fn session_accept_all_takes_remaining_fixes() {
    let ms = vec![
        sample("a", 0, MatchKind::Replace("y".to_string())),
        sample("b", 1, MatchKind::FlagOnly),
        sample("c", 2, MatchKind::DeleteLine),
    ];
    let mut s = Session::new(ms);
    assert_eq!(s.handle_key(KeyCode::Char('a')), SessionStep::Done);
    assert!(s.is_finished());
    let accepted = s.into_accepted();
    let ids: Vec<&str> = accepted.iter().map(|m| m.rule_id.as_str()).collect();
    assert_eq!(ids, vec!["a", "c"]);
}

#[test]
fn session_edit_replaces_the_fix() {
    let ms = vec![sample("a", 0, MatchKind::Replace("y".to_string()))];
    let mut s = Session::new(ms);
    assert_eq!(s.handle_key(KeyCode::Char('e')), SessionStep::NeedText);
    assert!(!s.is_finished());
    s.apply_edit("typed");
    assert!(s.is_finished());
    let accepted = s.into_accepted();
    assert_eq!(accepted[0].suggestion, "typed");
    assert!(matches!(&accepted[0].kind, MatchKind::Replace(t) if t == "typed"));
}

#[test]
fn session_scroll_help_and_quit() {
    let ms = vec![sample("a", 0, MatchKind::Replace("y".to_string()))];
    let mut s = Session::new(ms);
    assert_eq!(s.handle_key(KeyCode::Up), SessionStep::Continue);
    assert_eq!(s.scroll(), -1);
    assert_eq!(s.handle_key(KeyCode::Char('j')), SessionStep::Continue);
    assert_eq!(s.handle_key(KeyCode::Char('j')), SessionStep::Continue);
    assert_eq!(s.scroll(), 1);
    assert_eq!(s.handle_key(KeyCode::Char('?')), SessionStep::Continue);
    assert!(s.help_shown());
    assert_eq!(s.handle_key(KeyCode::Other), SessionStep::Continue);
    assert_eq!(s.handle_key(KeyCode::Char('q')), SessionStep::Done);
    assert_eq!(s.into_accepted().len(), 0);
}

#[test]
fn session_without_matches_is_over() {
    let s = Session::new(Vec::new());
    assert!(s.is_finished());
    assert!(s.current().is_none());
}
