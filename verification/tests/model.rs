use lib::model::{CodeItem, DependencyEdge, FileAnalysis, FunctionComplexity, ItemKind, LineMetrics, ProjectAnalysis};

fn file(path: &str, total: usize) -> FileAnalysis {
    FileAnalysis {
        path: path.to_string(),
        line_metrics: LineMetrics { total_lines: total, code_lines: total - 1, comment_lines: 1, blank_lines: 0 },
        items: vec![CodeItem { name: "f".to_string(), kind: ItemKind::Function, file: path.to_string(), line: 1 }],
        function_complexities: vec![FunctionComplexity {
            name: "f".to_string(),
            file: path.to_string(),
            line: 1,
            complexity: 2,
        }],
        dependencies: vec![DependencyEdge { from: path.to_string(), to: "crate::x".to_string() }],
    }
}

#[test]
fn line_metrics_add_count_by_count() {
    let mut metrics = LineMetrics { total_lines: 3, code_lines: 1, comment_lines: 1, blank_lines: 1 };
    metrics.add(&LineMetrics { total_lines: 10, code_lines: 7, comment_lines: 2, blank_lines: 1 });
    assert_eq!(metrics, LineMetrics { total_lines: 13, code_lines: 8, comment_lines: 3, blank_lines: 2 });
    assert_eq!(LineMetrics::default(), LineMetrics { total_lines: 0, code_lines: 0, comment_lines: 0, blank_lines: 0 });
}

#[test]
fn new_analysis_is_empty_and_single_threaded() {
    let analysis = ProjectAnalysis::new("root".to_string(), 4);
    assert_eq!(analysis.project_path, "root");
    assert_eq!(analysis.files_analyzed, 4);
    assert!(!analysis.parallel_enabled);
    assert_eq!(analysis.worker_threads, 1);
    assert!(analysis.files.is_empty() && analysis.items.is_empty());
    assert!(analysis.function_complexities.is_empty() && analysis.dependencies.is_empty());
    assert_eq!(analysis.line_metrics, LineMetrics::default());
}

#[test]
fn adding_files_appends_their_results() {
    let mut analysis = ProjectAnalysis::new("root".to_string(), 2);
    analysis.add_file_analysis(file("b.rs", 5));
    analysis.add_file_analysis(file("a.rs", 3));
    assert_eq!(analysis.files.len(), 2);
    assert_eq!(analysis.files[0].path, "b.rs");
    assert_eq!(analysis.files[1].path, "a.rs");
    assert_eq!(analysis.line_metrics, LineMetrics { total_lines: 8, code_lines: 6, comment_lines: 2, blank_lines: 0 });
    let item_files: Vec<&str> = analysis.items.iter().map(|i| i.file.as_str()).collect();
    assert_eq!(item_files, vec!["b.rs", "a.rs"]);
    assert_eq!(analysis.function_complexities.len(), 2);
    assert_eq!(analysis.dependencies[1].from, "a.rs");
    assert_eq!(analysis.files_analyzed, 2);
}
