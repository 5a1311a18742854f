use deslop::cli::ProfileArg;
use deslop::config::RulesConfig;
use deslop::config::skip_list;
use deslop::rules::custom::DisableDirective;
use deslop::rules::{Category, Profile};

#[test]
fn profile_names_in_any_case() {
    assert_eq!(Profile::from_name("Prose"), Some(Profile::Prose));
    assert_eq!(Profile::from_name("RUST-PACK"), Some(Profile::RustPack));
    assert_eq!(Profile::from_name("nope"), None);
    assert_eq!("aggressive".parse::<Profile>(), Ok(Profile::Aggressive));
    assert_eq!("xyz".parse::<Profile>(), Err("unknown profile: xyz".to_string()));
}

#[test]
fn profile_arg_converts() {
    assert_eq!(Profile::from(ProfileArg::PythonPack), Profile::PythonPack);
    let p: Profile = ProfileArg::Conservative.into();
    assert_eq!(p, Profile::Conservative);
}

#[test]
fn profiles_gate_categories() {
    assert!(Profile::Conservative.allows(Category::Typographic));
    assert!(!Profile::Conservative.allows(Category::Prose));
    assert!(Profile::Code.allows(Category::Code));
    assert!(!Profile::Code.allows(Category::PackSpecific));
    assert!(Profile::RustPack.allows(Category::PackSpecific));
    assert!(!Profile::Aggressive.allows(Category::PackSpecific));
    assert!(Profile::PythonPack.allows(Category::PackSpecific));
}

#[test]
fn skip_list_gathers_all_sources() {
    let config = RulesConfig { skip: Some(vec!["hedges".to_string()]), custom_phrases: None, allow_symbols: None };
    let disables = vec![DisableDirective { rule_id: "emoji".to_string() }];
    let all = skip_list(&["em-dash".to_string()], Some(&config), &disables);
    assert_eq!(all, vec!["em-dash".to_string(), "hedges".to_string(), "emoji".to_string()]);
    assert_eq!(skip_list(&[], None, &[]), Vec::<String>::new());
}
