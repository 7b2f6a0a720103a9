use lib::error::RustScopeError;
use lib::model::{DependencyEdge, FunctionComplexity, LineMetrics, ProjectAnalysis};
use lib::tui::{quit_requested, write_dashboard};

#[test]
fn dashboard_contains_project_summary() -> Result<(), RustScopeError> {
    let mut analysis = ProjectAnalysis::new("demo".to_string(), 1);
    analysis.line_metrics = LineMetrics {
        total_lines: 12,
        code_lines: 10,
        comment_lines: 1,
        blank_lines: 1,
    };
    analysis.function_complexities.push(FunctionComplexity {
        name: "main".to_string(),
        file: "src/main.rs".to_string(),
        line: 1,
        complexity: 1,
    });
    let mut rendered = String::new();

    write_dashboard(&mut rendered, &analysis);

    assert!(rendered.contains("RustScope TUI Dashboard"));
    assert!(rendered.contains("Project: demo"));
    assert!(rendered.contains("Top Complex Functions"));
    Ok(())
}

#[test]
fn dashboard_text_is_exact() {
    let mut analysis = ProjectAnalysis::new("demo".to_string(), 1);
    analysis.line_metrics = LineMetrics { total_lines: 12, code_lines: 10, comment_lines: 1, blank_lines: 1 };
    analysis.function_complexities.push(FunctionComplexity {
        name: "main".to_string(),
        file: "src/main.rs".to_string(),
        line: 1,
        complexity: 1,
    });
    let mut rendered = String::from("> ");
    write_dashboard(&mut rendered, &analysis);
    let expected = "> RustScope TUI Dashboard\n=======================\nProject: demo\n\
Parallel analysis: disabled | Worker threads: 1\n\n\
Files: 1 | Total Lines: 12 | Code Lines: 10\nComments: 1 | Blank Lines: 1\n\n\
Code Items\nFunctions: 0 | Structs: 0 | Enums: 0 | Traits: 0\nModules: 0 | Impl Blocks: 0\n\n\
Top Complex Functions\n1. main | src/main.rs:1 | complexity: 1\n\n\
Module Dependencies\nNone detected.\n\nPress q to quit.\n";
    assert_eq!(rendered, expected);
}

#[test]
fn dashboard_lists_twelve_dependencies_then_a_count() {
    let mut analysis = ProjectAnalysis::new("demo".to_string(), 0);
    analysis.parallel_enabled = true;
    analysis.worker_threads = 4;
    for index in 0..15 {
        analysis.dependencies.push(DependencyEdge { from: "a.rs".to_string(), to: format!("m{index}") });
    }
    let mut rendered = String::new();
    write_dashboard(&mut rendered, &analysis);
    assert!(rendered.contains("Parallel analysis: enabled | Worker threads: 4\n"));
    assert!(rendered.contains("Top Complex Functions\nNone detected.\n"));
    assert!(rendered.contains("a.rs -> m11\n... 3 more\n\nPress q to quit.\n"));
    assert!(!rendered.contains("m12"));
}

#[test]
fn quits_on_q_or_end_of_input() {
    assert!(quit_requested(0, ""));
    assert!(quit_requested(2, "q\n"));
    assert!(quit_requested(4, " Q \n"));
    assert!(!quit_requested(5, "quit\n"));
    assert!(!quit_requested(1, "\n"));
    assert!(!quit_requested(3, "qq\n"));
}
