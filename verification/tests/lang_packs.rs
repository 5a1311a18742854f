use deslop::rules::lang_packs::PythonArgsBoilerplateRule;
use deslop::detector::detect_file_type;
use deslop::engine::process_file;
use deslop::rules::registry::select_rules;
use deslop::rules::{build_registry, Match, Profile};

fn run(content: &str, name: &str, profile: Profile, extras: Vec<Profile>) -> Vec<Match> {
    let rules = select_rules(build_registry(&[], &[]), profile, &extras, vec![], &[], &[]);
    let ext = name.rsplit('.').next();
    let file_type = detect_file_type(name, ext, None);
    process_file(content, &rules, file_type, 6000, ext).1
}

fn ids(ms: &[Match]) -> Vec<String> {
    ms.iter().map(|m| m.rule_id.clone()).collect()
}

fn explained_ids(profile: Profile) -> Vec<String> {
    let rules = select_rules(build_registry(&[], &[]), profile, &vec![], vec![], &[], &[]);
    rules.iter().map(|r| r.id().to_string()).collect()
}

#[test]
fn test_rust_pack_profile_accepted() {
    let ms = run("fn foo() {}\n", "lib.rs", Profile::RustPack, vec![]);
    assert!(ms.is_empty());
}

#[test]
fn test_python_pack_profile_accepted() {
    let ms = run("def foo(): pass\n", "mod.py", Profile::PythonPack, vec![]);
    assert!(ms.is_empty());
}

#[test]
fn test_rust_pack_fires_on_verbose_doc_comment() {
    let content = "/// This function processes the input data and returns a result.\npub fn process(data: &str) -> String {\n    data.to_string()\n}\n";
    let got = ids(&run(content, "lib.rs", Profile::RustPack, vec![]));
    assert!(
        got.iter().any(|i| i == "rust-verbose-doc" || i == "docstring-filler"),
        "Expected rust-pack rule to fire on verbose doc. Got:\n{:?}",
        got
    );
}

#[test]
fn test_python_pack_fires_on_boilerplate_docstring() {
    let content = "def process(data):\n    \"\"\"\n    Process the data.\n    Args:\n        data: The input data.\n    Returns:\n        The output data.\n    \"\"\"\n    return data\n";
    let got = ids(&run(content, "mod.py", Profile::PythonPack, vec![]));
    assert!(
        got.iter().any(|i| i == "python-args-boilerplate" || i.contains("docstring")),
        "Expected python-pack rule to fire on boilerplate docstring. Got:\n{:?}",
        got
    );
}

#[test]
fn test_code_profile_does_not_fire_rust_pack_rules() {
    let content = "/// This function processes the input data and returns a result.\npub fn process(data: &str) -> String { data.to_string() }\n";
    let got = ids(&run(content, "lib.rs", Profile::Code, vec![]));
    assert!(!got.iter().any(|i| i == "rust-verbose-doc"), "rust-pack rule fired under code profile:\n{:?}", got);
}

#[test]
fn test_extra_profile_stacks_on_base() {
    let content = "/// This function processes the input data and returns a result.\npub fn process(data: &str) -> String { data.to_string() }\nHello \u{2014} world\n";
    let got = ids(&run(content, "lib.rs", Profile::Code, vec![Profile::RustPack]));
    assert!(got.iter().any(|i| i == "em-dash"), "em-dash rule not found in extra-profile output:\n{:?}", got);
}

#[test]
fn test_explain_rules_shows_rust_pack_rules() {
    assert!(explained_ids(Profile::RustPack).iter().any(|i| i == "rust-verbose-doc"));
}

#[test]
fn test_explain_rules_shows_python_pack_rules() {
    assert!(explained_ids(Profile::PythonPack).iter().any(|i| i == "python-args-boilerplate"));
}

#[test]
fn python_args_head_is_cut_before_a_character_across_byte_80() {
    let head = format!("\"\"\"{}\u{e9}", "x".repeat(76));
    let content = format!("{}\nArgs:\n    data: The input data.\n\"\"\"\n", head);
    let ms = PythonArgsBoilerplateRule.check(&content, None);
    assert_eq!(ms.len(), 1);
    assert_eq!(ms[0].original, format!("\"\"\"{}\u{2026}", "x".repeat(76)));
    assert_eq!(ms[0].byte_range.start, 0);
}
