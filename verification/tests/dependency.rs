use lib::dependency::{extract_use_path, module_name_from_path, parse_use_dependencies};
use lib::error::RustScopeError;

#[test]
fn recognizes_crate_super_and_std_use_dependencies() -> Result<(), RustScopeError> {
    let file = "src/parser.rs";
    let content = r#"
use crate::scanner;
use crate::parser::parse_file;
use super::model::ProjectAnalysis;
use std::collections::HashMap;
"#;

    let dependencies = parse_use_dependencies(content, file)?;
    let targets: Vec<&str> = dependencies
        .iter()
        .map(|dependency| dependency.to.as_str())
        .collect();

    assert_eq!(
        targets,
        vec![
            "crate::scanner",
            "crate::parser::parse_file",
            "super::model::ProjectAnalysis",
            "std::collections::HashMap",
        ]
    );
    assert!(dependencies.iter().all(|edge| edge.from == "src/parser.rs"));

    Ok(())
}

#[test]
fn ignores_use_statements_in_comments() -> Result<(), RustScopeError> {
    let file = "src/lib.rs";
    let content = r#"
// use crate::ignored;
/* use std::ignored::Thing; */
use crate::real;
"#;

    let dependencies = parse_use_dependencies(content, file)?;

    assert_eq!(dependencies.len(), 1);
    assert_eq!(dependencies[0].to, "crate::real");
    Ok(())
}

fn chars(s: &str) -> Vec<char> {
    s.chars().collect()
}

#[test]
fn visibility_prefixes_are_stripped() {
    for (line, expected) in [
        ("pub use crate::a;", "crate::a"),
        ("pub(crate) use crate::b::{C, D};", "crate::b::{C, D}"),
        ("pub(super) use super::e;", "super::e"),
        ("use   f::g  ;  trailing", "f::g"),
    ] {
        let path = extract_use_path(&chars(line)).unwrap().unwrap();
        assert_eq!(path, expected);
    }
    assert_eq!(extract_use_path(&chars("user::thing;")).unwrap(), None);
    assert_eq!(extract_use_path(&chars("pub fn f() {}")).unwrap(), None);
}

#[test]
fn empty_use_path_is_a_parse_error() {
    assert_eq!(
        extract_use_path(&chars("use ;")).unwrap_err(),
        RustScopeError::Parse("empty use dependency path".to_string())
    );
    assert_eq!(
        parse_use_dependencies("use a;\nuse  ;\nuse b;\n", "x.rs").unwrap_err(),
        RustScopeError::Parse("empty use dependency path".to_string())
    );
}

#[test]
fn block_comments_span_lines() {
    let content = "/* start\nuse hidden;\nend */ use shown;\nuse after; // use not_this;\n";
    let dependencies = parse_use_dependencies(content, "a\\b.rs").unwrap();
    let targets: Vec<&str> = dependencies.iter().map(|d| d.to.as_str()).collect();
    assert_eq!(targets, vec!["shown", "after"]);
    assert!(dependencies.iter().all(|edge| edge.from == "a/b.rs"));
}

#[test]
fn module_names_use_forward_slashes() {
    assert_eq!(module_name_from_path("src\\model\\mod.rs"), "src/model/mod.rs");
    assert_eq!(module_name_from_path("plain.rs"), "plain.rs");
}
