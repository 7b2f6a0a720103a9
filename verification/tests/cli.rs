use lib::cli::{parse_args, usage_message, AnalyzeOptions, Command, ReportFormat};
use lib::error::RustScopeError;

#[test]
fn parses_analyze_subcommand() {
    let command = parse_args(&["analyze", "examples/demo_project"]).unwrap_or_else(|error| {
        panic!("expected analyze command to parse, got {}", error.to_string());
    });

    assert_eq!(
        command,
        Command::Analyze(AnalyzeOptions {
            project_path: "examples/demo_project".to_string(),
            format: ReportFormat::Terminal,
            output: None,
        })
    );
}

#[test]
fn parses_markdown_format() {
    let command = parse_args(&["analyze", "examples/demo_project", "--format", "markdown"])
        .unwrap_or_else(|error| panic!("expected markdown format to parse, got {}", error.to_string()));

    assert_eq!(
        command,
        Command::Analyze(AnalyzeOptions {
            project_path: "examples/demo_project".to_string(),
            format: ReportFormat::Markdown,
            output: None,
        })
    );
}

#[test]
fn parses_output_path() {
    let command = parse_args(&[
        "analyze",
        "examples/demo_project",
        "--format",
        "markdown",
        "--output",
        "report.md",
    ])
    .unwrap_or_else(|error| panic!("expected output path to parse, got {}", error.to_string()));

    assert_eq!(
        command,
        Command::Analyze(AnalyzeOptions {
            project_path: "examples/demo_project".to_string(),
            format: ReportFormat::Markdown,
            output: Some("report.md".to_string()),
        })
    );
}

#[test]
fn rejects_unsupported_format() {
    let error = match parse_args(&["analyze", "examples/demo_project", "--format", "html"]) {
        Ok(_) => panic!("html format should be rejected"),
        Err(error) => error,
    };

    assert_eq!(error.to_string(), "unsupported report format: html");
}

#[test]
fn rejects_missing_path() {
    assert!(matches!(parse_args(&[]), Err(RustScopeError::Argument(_))));
}

#[test]
fn path_without_subcommand_is_analyzed() {
    let command = parse_args(&["demo", "--output", "out.md"]).unwrap();
    assert_eq!(
        command,
        Command::Analyze(AnalyzeOptions {
            project_path: "demo".to_string(),
            format: ReportFormat::Terminal,
            output: Some("out.md".to_string()),
        })
    );
}

#[test]
fn lone_analyze_is_a_usage_error() {
    let error = parse_args(&["analyze"]).unwrap_err();
    assert_eq!(error, RustScopeError::Argument(usage_message()));
    assert!(usage_message().starts_with("Usage:\n  rustscope analyze <project-path>"));
}

#[test]
fn later_options_override_earlier_ones() {
    let command = parse_args(&["p", "--format", "markdown", "--format", "terminal"]).unwrap();
    assert_eq!(
        command,
        Command::Analyze(AnalyzeOptions {
            project_path: "p".to_string(),
            format: ReportFormat::Terminal,
            output: None,
        })
    );
}

#[test]
fn missing_option_values_are_reported() {
    assert_eq!(
        parse_args(&["p", "--format"]).unwrap_err().to_string(),
        "missing value for --format"
    );
    assert_eq!(
        parse_args(&["analyze", "p", "--output"]).unwrap_err().to_string(),
        "missing value for --output"
    );
}

#[test]
fn unknown_arguments_are_reported() {
    assert_eq!(
        parse_args(&["p", "--verbose"]).unwrap_err(),
        RustScopeError::Argument("unsupported argument: --verbose".to_string())
    );
}

#[test]
fn report_format_names() {
    assert_eq!(ReportFormat::parse("terminal").unwrap(), ReportFormat::Terminal);
    assert_eq!(ReportFormat::parse("markdown").unwrap(), ReportFormat::Markdown);
    assert!(ReportFormat::parse("Markdown").is_err());
}

#[test]
fn short_form_equals_analyze_form() {
    for rest in [vec![], vec!["--format", "markdown"], vec!["--output", "r.md", "--format", "terminal"], vec!["--bad"]] {
        let mut long = vec!["analyze", "some/project"];
        long.extend(rest.iter().copied());
        let mut short = vec!["some/project"];
        short.extend(rest.iter().copied());
        assert_eq!(parse_args(&long), parse_args(&short));
    }
}

#[test]
fn parses_tui_subcommand() {
    assert_eq!(parse_args(&["tui", "."]), Ok(Command::Tui(".".to_string())));
    assert_eq!(parse_args(&["tui"]), Err(RustScopeError::Argument(usage_message())));
    assert_eq!(
        parse_args(&["tui", ".", "--format"]),
        Err(RustScopeError::Argument("unsupported argument: --format".to_string()))
    );
}
