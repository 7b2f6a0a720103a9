use lib::model::ItemKind;
use lib::parser::{extract_impl_name, find_keyword, parse_code_items, strip_comments};

#[test]
fn recognizes_basic_rust_items_and_skips_comments() {
    let file = "src/lib.rs";
    let content = r#"
// fn ignored() {}
pub mod analyzer;
pub(crate) fn analyze_file() {}
struct Report;
enum Status { Ready }
trait Render { fn render(&self); }
impl Report { pub fn new() -> Self { Self } }
"#;

    let items = parse_code_items(content, file);

    assert!(
        items
            .iter()
            .any(|item| item.kind == ItemKind::Module && item.name == "analyzer")
    );
    assert!(
        items
            .iter()
            .any(|item| item.kind == ItemKind::Function && item.name == "analyze_file")
    );
    assert!(
        items
            .iter()
            .any(|item| item.kind == ItemKind::Struct && item.name == "Report")
    );
    assert!(
        items
            .iter()
            .any(|item| item.kind == ItemKind::Enum && item.name == "Status")
    );
    assert!(
        items
            .iter()
            .any(|item| item.kind == ItemKind::Trait && item.name == "Render")
    );
    assert!(
        items
            .iter()
            .any(|item| item.kind == ItemKind::Impl && item.name == "Report")
    );
    assert!(!items.iter().any(|item| item.name == "ignored"));
}

fn chars(s: &str) -> Vec<char> {
    s.chars().collect()
}

#[test]
fn items_carry_file_line_and_order() {
    let items = parse_code_items("\ntrait Render { fn render(&self); }\n", "x.rs");
    let summary: Vec<(&str, ItemKind, usize)> =
        items.iter().map(|i| (i.name.as_str(), i.kind, i.line)).collect();
    assert_eq!(summary, vec![("render", ItemKind::Function, 2), ("Render", ItemKind::Trait, 2)]);
    assert!(items.iter().all(|i| i.file == "x.rs"));
}

#[test]
fn impl_headers() {
    assert_eq!(
        extract_impl_name(&chars("impl<T: Clone> Trait for Wrapper<T> where T: Copy {")),
        Some("<T: Clone> Trait for Wrapper<T>".to_string())
    );
    assert_eq!(extract_impl_name(&chars("impl {")), Some("<anonymous impl>".to_string()));
    assert_eq!(extract_impl_name(&chars("impl")), None);
    assert_eq!(extract_impl_name(&chars("implement Foo {")), None);
}

#[test]
fn keywords_need_word_boundaries() {
    assert_eq!(find_keyword(&chars("fnord fn x"), &chars("fn")), Some(6));
    assert_eq!(find_keyword(&chars("my_fn()"), &chars("fn")), None);
    assert_eq!(find_keyword(&chars("fn"), &chars("fn")), Some(0));
}

#[test]
fn comments_are_removed_across_lines() {
    let mut in_block = false;
    assert_eq!(strip_comments(&chars("a /* b"), &mut in_block), chars("a "));
    assert!(in_block);
    assert_eq!(strip_comments(&chars("c */ d // e"), &mut in_block), chars(" d "));
    assert!(!in_block);
}

#[test]
fn item_lines_stay_within_the_text_in_order() {
    let content = "mod a;\n/* fn hidden() {} */ struct B;\n\nimpl B { fn c() {} }\nenum D {}";
    let items = parse_code_items(content, "y.rs");
    let lines: Vec<usize> = items.iter().map(|i| i.line).collect();
    assert_eq!(lines, vec![1, 2, 4, 4, 5]);
    assert!(items.iter().all(|i| i.file == "y.rs"));
    assert!(!items.iter().any(|i| i.name == "hidden"));
}
