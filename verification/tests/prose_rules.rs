use deslop::rules::prose::{FillerOpenersRule, HollowIntensifiersRule};
use deslop::rules::MatchKind;

#[test]
fn hollow_intensifier_keeps_case() {
    let ms = HollowIntensifiersRule.check("We UTILIZE it. Utilize it. utilize it.", None);
    let fixes: Vec<String> = ms.iter().map(|m| m.suggestion.clone()).collect();
    assert_eq!(fixes, vec!["USE".to_string(), "Use".to_string(), "use".to_string()]);
    assert!(ms.iter().all(|m| matches!(&m.kind, MatchKind::Replace(_))));
    assert_eq!(ms[0].confidence, 7000);
}

#[test]
fn hollow_intensifier_flags_buzzwords() {
    let ms = HollowIntensifiersRule.check("A robust system.", None);
    assert_eq!(ms.len(), 1);
    assert!(matches!(ms[0].kind, MatchKind::FlagOnly));
    assert_eq!(ms[0].original, "robust");
    assert_eq!((ms[0].line, ms[0].col), (1, 3));
}

#[test]
fn filler_opener_is_deleted() {
    let ms = FillerOpenersRule::new().check("Certainly! Here is the solution.", None);
    assert_eq!(ms.len(), 1);
    assert!(ms[0].original.starts_with("Certainly!"));
    assert!(matches!(&ms[0].kind, MatchKind::Replace(s) if s.is_empty()));
}

#[test]
fn filler_opener_keeps_the_newline_before_it() {
    let content = "Hello.\nCertainly! Here it is.";
    let ms = FillerOpenersRule::new().check(content, None);
    assert_eq!(ms.len(), 1);
    assert_eq!(ms[0].byte_range.start, 7);
    assert_eq!(ms[0].original, "Certainly! ");
}
