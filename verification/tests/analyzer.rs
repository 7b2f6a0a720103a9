use lib::analyzer::{analyze_file, analyze_project, analyze_project_serial, worker_count, SourceFile};
use lib::error::RustScopeError;

const DEMO_ANALYZER: &str = r#"use crate::domain::{DemoItem, DemoState, Runnable};

pub struct Analyzer {
    items: Vec<DemoItem>,
}

impl Analyzer {
    pub fn new(items: Vec<DemoItem>) -> Self {
        Self { items }
    }

    pub fn analyze(&self) -> Result<usize, String> {
        let mut ready = 0;
        let mut index = 0;

        while index < self.items.len() {
            let item = &self.items[index];
            match item.state {
                DemoState::Ready => {
                    ready += 1;
                }
                DemoState::Waiting => {
                    if item.name.is_empty() {
                        return Err("missing name".to_string());
                    }
                }
                DemoState::Failed => loop {
                    break;
                },
            }
            index += 1;
        }

        Ok(ready)
    }
}

impl Runnable for Analyzer {
    fn run(&self) {
        match self.analyze() {
            Ok(count) => println!("ready: {count}"),
            Err(error) => println!("error: {error}"),
        }
    }
}
"#;

const DEMO_DOMAIN: &str = r#"pub struct DemoItem {
    pub name: String,
    pub state: DemoState,
}

pub enum DemoState {
    Ready,
    Waiting,
    Failed,
}

pub trait Runnable {
    fn run(&self);
}

impl DemoItem {
    pub fn new(name: &str, state: DemoState) -> Self {
        Self {
            name: name.to_string(),
            state,
        }
    }

    pub fn is_ready(&self) -> bool {
        matches!(self.state, DemoState::Ready)
    }
}
"#;

const DEMO_MAIN: &str = r#"mod analyzer;
mod domain;

use analyzer::Analyzer;
use domain::{DemoItem, DemoState, Runnable};

fn main() {
    let items = vec![
        DemoItem::new("alpha", DemoState::Ready),
        DemoItem::new("beta", DemoState::Waiting),
    ];
    let analyzer = Analyzer::new(items);
    analyzer.run();
}

pub fn run_demo(enabled: bool) {
    if enabled {
        for step in 0..3 {
            if step > 1 {
                println!("step {step}");
            }
        }
    } else {
        println!("disabled");
    }
}
"#;

fn demo_sources() -> Vec<SourceFile> {
    vec![
        SourceFile {
            path: "examples/demo_project/src/analyzer.rs".to_string(),
            content: DEMO_ANALYZER.to_string(),
        },
        SourceFile {
            path: "examples/demo_project/src/domain.rs".to_string(),
            content: DEMO_DOMAIN.to_string(),
        },
        SourceFile {
            path: "examples/demo_project/src/main.rs".to_string(),
            content: DEMO_MAIN.to_string(),
        },
    ]
}

#[test]
fn parallel_analysis_matches_serial_key_metrics() -> Result<(), RustScopeError> {
    let root = "examples/demo_project";
    let sources = demo_sources();
    let mut results = Vec::new();
    for index in [2usize, 0, 1] {
        let source = &sources[index];
        results.push(analyze_file(source.path.clone(), &source.content));
    }
    let parallel = analyze_project(root, sources.len(), worker_count(sources.len(), 4), results)?;
    let serial = analyze_project_serial(root, &sources)?;

    assert_eq!(parallel.files_analyzed, serial.files_analyzed);
    assert_eq!(parallel.line_metrics, serial.line_metrics);
    assert_eq!(parallel.items.len(), serial.items.len());
    assert_eq!(
        parallel.function_complexities.len(),
        serial.function_complexities.len()
    );
    assert_eq!(parallel.dependencies, serial.dependencies);
    Ok(())
}

#[test]
fn parallel_analysis_equals_serial_apart_from_threads() -> Result<(), RustScopeError> {
    let root = "examples/demo_project";
    let sources = demo_sources();
    let serial = analyze_project_serial(root, &sources)?;
    for order in [[0usize, 1, 2], [2, 1, 0], [1, 2, 0]] {
        let results = order
            .iter()
            .map(|&index| analyze_file(sources[index].path.clone(), &sources[index].content))
            .collect();
        let parallel = analyze_project(root, 3, 3, results)?;
        assert_eq!(parallel.project_path, serial.project_path);
        assert_eq!(parallel.files, serial.files);
        assert_eq!(parallel.items, serial.items);
        assert_eq!(parallel.function_complexities, serial.function_complexities);
        assert_eq!(parallel.dependencies, serial.dependencies);
        assert!(parallel.parallel_enabled);
        assert_eq!(parallel.worker_threads, 3);
    }
    assert!(!serial.parallel_enabled);
    assert_eq!(serial.worker_threads, 1);
    Ok(())
}

#[test]
fn serial_analysis_of_demo_project() -> Result<(), RustScopeError> {
    let analysis = analyze_project_serial("examples/demo_project", &demo_sources())?;
    assert_eq!(analysis.files_analyzed, 3);
    assert_eq!(analysis.files.len(), 3);
    assert_eq!(analysis.line_metrics.total_lines, 98);
    assert_eq!(analysis.line_metrics.blank_lines, 13);
    assert_eq!(analysis.line_metrics.comment_lines, 0);
    assert_eq!(analysis.line_metrics.code_lines, 85);
    assert_eq!(analysis.dependencies.len(), 3);
    assert_eq!(analysis.dependencies[0].from, "examples/demo_project/src/analyzer.rs");
    assert_eq!(analysis.dependencies[0].to, "crate::domain::{DemoItem, DemoState, Runnable}");
    assert_eq!(analysis.dependencies[1].to, "analyzer::Analyzer");
    let lines: Vec<(&str, usize)> = analysis
        .items
        .iter()
        .map(|item| (item.file.as_str(), item.line))
        .collect();
    let mut sorted = lines.clone();
    sorted.sort();
    assert_eq!(lines, sorted);
    Ok(())
}

#[test]
fn failing_file_decides_the_error() {
    let mut sources = demo_sources();
    sources[1].content.push_str("use ;\n");
    let serial = analyze_project_serial("p", &sources);
    assert_eq!(serial, Err(RustScopeError::Parse("empty use dependency path".to_string())));

    let results = vec![
        analyze_file(sources[0].path.clone(), &sources[0].content),
        Err(RustScopeError::Io("permission denied".to_string())),
        analyze_file(sources[1].path.clone(), &sources[1].content),
    ];
    let parallel = analyze_project("p", 3, 2, results);
    assert_eq!(parallel, Err(RustScopeError::Io("permission denied".to_string())));
}

#[test]
fn missing_results_are_reported() {
    let sources = demo_sources();
    let results = vec![analyze_file(sources[0].path.clone(), &sources[0].content)];
    let parallel = analyze_project("p", 2, 1, results);
    assert_eq!(
        parallel,
        Err(RustScopeError::Analysis("expected 2 file results, received 1".to_string()))
    );
}

#[test]
fn empty_project_has_no_files() -> Result<(), RustScopeError> {
    let serial = analyze_project_serial("empty", &Vec::new())?;
    assert_eq!(serial.files_analyzed, 0);
    assert_eq!(serial.line_metrics.total_lines, 0);
    let parallel = analyze_project("empty", 0, worker_count(0, 8), Vec::new())?;
    assert_eq!(parallel.worker_threads, 1);
    assert!(!parallel.parallel_enabled);
    Ok(())
}

#[test]
fn worker_count_is_bounded_by_files_and_threads() {
    assert_eq!(worker_count(0, 8), 1);
    assert_eq!(worker_count(5, 0), 1);
    assert_eq!(worker_count(5, 2), 2);
    assert_eq!(worker_count(2, 8), 2);
    assert_eq!(worker_count(3, 3), 3);
}

#[test]
fn project_totals_are_sums_over_files() -> Result<(), RustScopeError> {
    let analysis = analyze_project_serial("examples/demo_project", &demo_sources())?;
    assert_eq!(analysis.files_analyzed, analysis.files.len());
    let sum = |f: fn(&lib::model::LineMetrics) -> usize| -> usize {
        analysis.files.iter().map(|file| f(&file.line_metrics)).sum()
    };
    assert_eq!(analysis.line_metrics.total_lines, sum(|m| m.total_lines));
    assert_eq!(analysis.line_metrics.code_lines, sum(|m| m.code_lines));
    assert_eq!(analysis.line_metrics.comment_lines, sum(|m| m.comment_lines));
    assert_eq!(analysis.line_metrics.blank_lines, sum(|m| m.blank_lines));
    Ok(())
}
