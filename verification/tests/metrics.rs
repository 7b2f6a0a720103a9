use lib::metrics::{calculate_function_complexities, calculate_line_metrics};
use lib::model::{ItemKind, LineMetrics};
use lib::parser::parse_code_items;

#[test]
fn counts_blank_comment_and_code_lines() {
    let content = "\n// comment\nlet value = 1;\n   \n  // another comment\nfn main() {}\n";
    let metrics = calculate_line_metrics(content);

    assert_eq!(metrics.total_lines, 6);
    assert_eq!(metrics.blank_lines, 2);
    assert_eq!(metrics.comment_lines, 2);
    assert_eq!(metrics.code_lines, 2);
}

#[test]
fn calculates_simple_function_complexity() {
    let content = r#"
fn analyze() -> Result<(), Error> {
    if ready {
        for item in items {
            handle(item)?;
        }
    } else if fallback {
        while retry {
            match state {
                State::Done => break,
                State::Loop => loop { break; },
            }
        }
    }
    Ok(())
}
"#;
    let file = "src/analyzer.rs";
    let complexities = calculate_function_complexities(content, file);

    assert_eq!(complexities.len(), 1);
    assert_eq!(complexities[0].name, "analyze");
    assert_eq!(complexities[0].complexity, 8);
}

#[test]
fn line_endings_follow_str_lines() {
    assert_eq!(calculate_line_metrics("").total_lines, 0);
    assert_eq!(calculate_line_metrics("a\r\n\r\nb").total_lines, 3);
    let metrics = calculate_line_metrics("a\n\t\u{a0}\n//x\r\n");
    assert_eq!(
        metrics,
        LineMetrics { total_lines: 3, code_lines: 1, comment_lines: 1, blank_lines: 1 }
    );
}

#[test]
fn declarations_and_one_line_functions() {
    let content = "trait T {\n    fn decl(&self);\n    fn body(&self) { if x { y } }\n}\nfn open() {\n    z?\n";
    let complexities = calculate_function_complexities(content, "t.rs");
    let summary: Vec<(&str, usize, usize)> = complexities
        .iter()
        .map(|c| (c.name.as_str(), c.line, c.complexity))
        .collect();
    assert_eq!(summary, vec![("decl", 2, 1), ("body", 3, 2), ("open", 5, 2)]);
    assert!(complexities.iter().all(|c| c.file == "t.rs"));
}

#[test]
fn keywords_count_only_as_whole_words() {
    let content = "fn f() {\n    let iffy = format_if(loops); // if if if\n    if a { } else if b { }\n}\n";
    let complexities = calculate_function_complexities(content, "k.rs");
    assert_eq!(complexities.len(), 1);
    assert_eq!(complexities[0].complexity, 3);
}

#[test]
fn metrics_of_joined_texts_add_up() {
    let parts = [("", "a\n\n// c"), ("fn x() {}\n", "  \n// y\nz\r\n"), ("a\r\n", ""), ("\n", "\n")];
    for (a, b) in parts {
        let mut sum = calculate_line_metrics(a);
        sum.add(&calculate_line_metrics(b));
        assert_eq!(calculate_line_metrics(&format!("{a}{b}")), sum);
    }
}

#[test]
fn every_scored_function_is_a_function_item() {
    let content = "struct S;\nimpl S {\n    fn a(&self) { if x {} }\n}\n  fn b() {\n    fn inner() {}\n}\nfn c();\n";
    let complexities = calculate_function_complexities(content, "m.rs");
    let items = parse_code_items(content, "m.rs");
    let lines: Vec<usize> = complexities.iter().map(|c| c.line).collect();
    assert_eq!(lines, vec![3, 5, 8]);
    for c in &complexities {
        assert!(c.complexity >= 1);
        assert!(items
            .iter()
            .any(|i| i.kind == ItemKind::Function && i.name == c.name && i.line == c.line && i.file == c.file));
    }
}
