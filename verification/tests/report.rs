use lib::error::RustScopeError;
use lib::model::{CodeItem, DependencyEdge, FileAnalysis, FunctionComplexity, ItemKind, LineMetrics, ProjectAnalysis};
use lib::report::{
    count_items, generate_terminal_report, top_complex_functions, validate_analysis,
    MarkdownReportGenerator, ReportGenerator, TerminalReportGenerator,
};

fn sample_analysis() -> ProjectAnalysis {
    let mut analysis = ProjectAnalysis::new("demo".to_string(), 1);
    analysis.line_metrics = LineMetrics {
        total_lines: 10,
        code_lines: 8,
        comment_lines: 1,
        blank_lines: 1,
    };
    analysis.items.push(CodeItem {
        name: "main".to_string(),
        kind: ItemKind::Function,
        file: "src/main.rs".to_string(),
        line: 1,
    });
    analysis.function_complexities.push(FunctionComplexity {
        name: "main".to_string(),
        file: "src/main.rs".to_string(),
        line: 1,
        complexity: 1,
    });
    analysis.dependencies.push(DependencyEdge {
        from: "src/main.rs".to_string(),
        to: "crate::parser".to_string(),
    });
    analysis
}

fn function(name: &str, file: &str, line: usize, complexity: usize) -> FunctionComplexity {
    FunctionComplexity { name: name.to_string(), file: file.to_string(), line, complexity }
}

#[test]
fn terminal_report_generator_outputs_report() -> Result<(), RustScopeError> {
    let analysis = sample_analysis();
    let generator = TerminalReportGenerator;
    let report = generator.generate(&analysis)?;

    assert!(report.contains("RustScope Analysis Report"));
    assert!(report.contains("Files analyzed: 1"));
    assert!(report.contains("Module Dependencies:"));
    Ok(())
}

#[test]
fn markdown_report_generator_outputs_title_and_tables() -> Result<(), RustScopeError> {
    let analysis = sample_analysis();
    let generator = MarkdownReportGenerator;
    let report = generator.generate(&analysis)?;

    assert!(report.contains("# RustScope Analysis Report"));
    assert!(report.contains("| Metric | Count |"));
    assert!(report.contains("| Rank | Function | File | Line | Complexity |"));
    assert!(report.contains("| From | To |"));
    Ok(())
}

#[test]
fn terminal_report_of_sample_is_exact() {
    let expected = format!(
        "RustScope Analysis Report\n=========================\n\nProject: demo\n\nFiles analyzed: 1\n\n\
Line Metrics:\n- Total lines: 10\n- Code lines: 8\n- Comment lines: 1\n- Blank lines: 1\n\n\
Code Items:\n- Functions: 1\n- Structs: 0\n- Enums: 0\n- Traits: 0\n- Modules: 0\n- Impl blocks: 0\n\n\
Top Complex Functions:\n1. {:<20} src/main.rs:1    complexity: 1\n\n\
Module Dependencies:\nsrc/main.rs -> crate::parser\n",
        "main"
    );
    assert_eq!(generate_terminal_report(&sample_analysis()), expected);
}

#[test]
fn markdown_report_of_sample_is_exact() -> Result<(), RustScopeError> {
    let expected = "# RustScope Analysis Report\n\n## Project Summary\n\n- Project Path: demo\n- Files Analyzed: 1\n\n\
## Line Metrics\n\n| Metric | Count |\n|---|---:|\n| Total Lines | 10 |\n| Code Lines | 8 |\n| Comment Lines | 1 |\n| Blank Lines | 1 |\n\n\
## Code Items\n\n| Item | Count |\n|---|---:|\n| Functions | 1 |\n| Structs | 0 |\n| Enums | 0 |\n| Traits | 0 |\n| Modules | 0 |\n| Impl Blocks | 0 |\n\n\
## Top Complex Functions\n\n| Rank | Function | File | Line | Complexity |\n|---:|---|---|---:|---:|\n| 1 | main | src/main.rs | 1 | 1 |\n\n\
## Module Dependencies\n\n| From | To |\n|---|---|\n| src/main.rs | crate::parser |\n";
    assert_eq!(MarkdownReportGenerator.generate(&sample_analysis())?, expected);
    Ok(())
}

#[test]
fn empty_analysis_reports_none() -> Result<(), RustScopeError> {
    let analysis = ProjectAnalysis::new("p".to_string(), 0);
    let terminal = TerminalReportGenerator.generate(&analysis)?;
    assert!(terminal.contains("Top Complex Functions:\nNo functions found.\n\nModule Dependencies:\nNone detected.\n"));
    let markdown = MarkdownReportGenerator.generate(&analysis)?;
    assert!(markdown.contains("## Top Complex Functions\n\nNone detected.\n\n## Module Dependencies\n\nNone detected.\n"));
    assert!(!markdown.contains("| From | To |"));
    Ok(())
}

#[test]
fn reports_refuse_empty_paths() {
    let empty_project = ProjectAnalysis::new(String::new(), 0);
    let expected = || RustScopeError::ReportGeneration("project path is empty".to_string());
    assert_eq!(validate_analysis(&empty_project), Err(expected()));
    assert_eq!(TerminalReportGenerator.generate(&empty_project), Err(expected()));
    assert_eq!(MarkdownReportGenerator.generate(&empty_project), Err(expected()));

    let mut analysis = sample_analysis();
    analysis.files.push(FileAnalysis {
        path: String::new(),
        line_metrics: LineMetrics::default(),
        items: Vec::new(),
        function_complexities: Vec::new(),
        dependencies: Vec::new(),
    });
    let expected = || RustScopeError::ReportGeneration("analysis contains an empty file path".to_string());
    assert_eq!(validate_analysis(&analysis), Err(expected()));
    assert_eq!(TerminalReportGenerator.generate(&analysis), Err(expected()));
    assert_eq!(validate_analysis(&sample_analysis()), Ok(()));
}

#[test]
fn top_functions_rank_by_complexity_then_location() {
    let functions = vec![
        function("b", "src/b.rs", 3, 2),
        function("a", "src/a.rs", 9, 5),
        function("c", "src/a.rs", 2, 2),
        function("d", "src/a.rs", 2, 2),
        function("e", "src/z.rs", 1, 7),
        function("f", "src/a.rs", 1, 1),
    ];
    let top = top_complex_functions(&functions, 4);
    let names: Vec<&str> = top.iter().map(|f| f.name.as_str()).collect();
    assert_eq!(names, vec!["e", "a", "c", "d"]);
    assert_eq!(top_complex_functions(&functions, 10).len(), 6);
    assert!(top_complex_functions(&functions, 0).is_empty());
}

#[test]
fn top_functions_order_files_by_path_components() {
    let functions = vec![function("x", "src/a.rs", 1, 1), function("y", "src/a/b.rs", 1, 1)];
    let names: Vec<String> = top_complex_functions(&functions, 5).into_iter().map(|f| f.name).collect();
    assert_eq!(names, vec!["y".to_string(), "x".to_string()]);
}

#[test]
fn counts_items_by_kind() {
    let mut analysis = sample_analysis();
    for (name, kind) in [("S", ItemKind::Struct), ("E", ItemKind::Enum), ("g", ItemKind::Function)] {
        analysis.items.push(CodeItem { name: name.to_string(), kind, file: "f.rs".to_string(), line: 2 });
    }
    assert_eq!(count_items(&analysis, ItemKind::Function), 2);
    assert_eq!(count_items(&analysis, ItemKind::Struct), 1);
    assert_eq!(count_items(&analysis, ItemKind::Trait), 0);
}

#[test]
fn ranking_many_functions_is_a_stable_sort() {
    let mut functions = Vec::new();
    let mut seed: usize = 7;
    for index in 0..200 {
        seed = (seed * 1103515245 + 12345) % 2147483648;
        let file = if seed % 3 == 0 { "src/a.rs" } else { "src/b.rs" };
        functions.push(function(&format!("f{}", index % 5), file, seed % 4, seed % 6));
    }
    let top = top_complex_functions(&functions, 200);
    let mut expected: Vec<&FunctionComplexity> = functions.iter().collect();
    expected.sort_by(|a, b| {
        b.complexity
            .cmp(&a.complexity)
            .then_with(|| a.file.cmp(&b.file))
            .then_with(|| a.line.cmp(&b.line))
            .then_with(|| a.name.cmp(&b.name))
    });
    let expected: Vec<&FunctionComplexity> = expected.into_iter().collect();
    let got: Vec<&FunctionComplexity> = top.iter().collect();
    assert_eq!(got, expected);
}
