//! Command-line arguments: `analyze <path> [--format ...] [--output ...]`
//! and `tui <path>`.
use vstd::prelude::*;
use crate::error::{ErrorModel, RustScopeError};
use crate::order::{compare_strings, lemma_text_irreflexive, Rank};

verus! {

/// What the command line asks for.
#[derive(Debug, PartialEq, Eq)]
pub enum Command {
    Analyze(AnalyzeOptions),
    /// Show the dashboard of the project at this path.
    Tui(String),
}

/// The options of `analyze`.
#[derive(Debug, PartialEq, Eq)]
pub struct AnalyzeOptions {
    pub project_path: String,
    pub format: ReportFormat,
    pub output: Option<String>,
}

/// The formats a report can be written in.
#[derive(Debug, Clone, Copy, PartialEq, Eq, Structural)]
pub enum ReportFormat {
    Terminal,
    Markdown,
}

pub struct OptionsModel {
    pub project_path: Seq<char>,
    pub format: ReportFormat,
    pub output: Option<Seq<char>>,
}

pub enum CommandModel {
    Analyze(OptionsModel),
    Tui(Seq<char>),
}

impl View for AnalyzeOptions {
    type V = OptionsModel;

    open spec fn view(&self) -> OptionsModel {
        OptionsModel {
            project_path: self.project_path@,
            format: self.format,
            output: match self.output {
                Some(o) => Some(o@),
                None => None,
            },
        }
    }
}

impl View for Command {
    type V = CommandModel;

    open spec fn view(&self) -> CommandModel {
        match self {
            Command::Analyze(o) => CommandModel::Analyze(o@),
            Command::Tui(p) => CommandModel::Tui(p@),
        }
    }
}

pub open spec fn usage_text() -> Seq<char> {
    "Usage:\n  rustscope analyze <project-path> [--format terminal|markdown] [--output <file>]\n  rustscope <project-path> [--format terminal|markdown] [--output <file>]"@
}

/// The usage text shown for a malformed command line.
pub fn usage_message() -> (s: String)
    ensures
        s@ == usage_text(),
{
    String::from_str(
        "Usage:\n  rustscope analyze <project-path> [--format terminal|markdown] [--output <file>]\n  rustscope <project-path> [--format terminal|markdown] [--output <file>]",
    )
}

fn same_text(a: &str, b: &str) -> (r: bool)
    ensures
        r == (a@ == b@),
{
    proof {
        lemma_text_irreflexive(a@);
    }
    compare_strings(a, b) == Rank::Same
}

/// The format a `--format` value names.
pub open spec fn format_named(value: Seq<char>) -> Result<ReportFormat, ErrorModel> {
    if value == "terminal"@ {
        Ok(ReportFormat::Terminal)
    } else if value == "markdown"@ {
        Ok(ReportFormat::Markdown)
    } else {
        Err(ErrorModel::Argument("unsupported report format: "@ + value))
    }
}

pub open spec fn result_format_model(r: Result<ReportFormat, RustScopeError>) -> Result<ReportFormat, ErrorModel> {
    match r {
        Ok(f) => Ok(f),
        Err(e) => Err(e@),
    }
}

impl ReportFormat {
    /// The format named `terminal` or `markdown`; any other name is refused.
    pub fn parse(value: &str) -> (r: Result<Self, RustScopeError>)
        ensures
            result_format_model(r) == format_named(value@),
    {
        if same_text(value, "terminal") {
            Ok(ReportFormat::Terminal)
        } else if same_text(value, "markdown") {
            Ok(ReportFormat::Markdown)
        } else {
            let mut message = String::from_str("unsupported report format: ");
            message.append(value);
            Err(RustScopeError::Argument(message))
        }
    }
}

/// Reads the options after the project path, from index `i` on, with the
/// format and output chosen so far; a later `--format` or `--output`
/// overrides an earlier one.
pub open spec fn options_from(
    args: Seq<Seq<char>>,
    i: int,
    format: ReportFormat,
    output: Option<Seq<char>>,
) -> Result<(ReportFormat, Option<Seq<char>>), ErrorModel>
    decreases args.len() - i,
{
    if i < 0 || i >= args.len() {
        Ok((format, output))
    } else if args[i] == "--format"@ {
        if i + 1 >= args.len() {
            Err(ErrorModel::Argument("missing value for --format"@))
        } else {
            match format_named(args[i + 1]) {
                Err(e) => Err(e),
                Ok(f) => options_from(args, i + 2, f, output),
            }
        }
    } else if args[i] == "--output"@ {
        if i + 1 >= args.len() {
            Err(ErrorModel::Argument("missing value for --output"@))
        } else {
            options_from(args, i + 2, format, Some(args[i + 1]))
        }
    } else {
        Err(ErrorModel::Argument("unsupported argument: "@ + args[i]))
    }
}

/// The options of `analyze` for `path` and the arguments that follow it;
/// the format defaults to the terminal and there is no output file.
pub open spec fn analyze_options(path: Seq<char>, rest: Seq<Seq<char>>) -> Result<OptionsModel, ErrorModel> {
    match options_from(rest, 0, ReportFormat::Terminal, None) {
        Err(e) => Err(e),
        Ok((format, output)) => Ok(OptionsModel { project_path: path, format, output }),
    }
}

pub open spec fn arg_views(args: Seq<&str>) -> Seq<Seq<char>> {
    args.map_values(|a: &str| a@)
}

pub open spec fn result_options_model(r: Result<AnalyzeOptions, RustScopeError>) -> Result<OptionsModel, ErrorModel> {
    match r {
        Ok(o) => Ok(o@),
        Err(e) => Err(e@),
    }
}

/// Reads the options that follow the project path.
pub fn parse_analyze_options(path: &str, args: &[&str]) -> (r: Result<AnalyzeOptions, RustScopeError>)
    ensures
        result_options_model(r) == analyze_options(path@, arg_views(args@)),
{
    let ghost views = arg_views(args@);
    let mut format = ReportFormat::Terminal;
    let mut output: Option<String> = None;
    let mut index: usize = 0;
    while index < args.len()
        invariant
            views == arg_views(args@),
            index <= args@.len(),
            options_from(views, 0, ReportFormat::Terminal, None) == options_from(
                views,
                index as int,
                format,
                match output {
                    Some(o) => Some(o@),
                    None => None,
                },
            ),
        decreases args@.len() - index,
    {
        let arg = args[index];
        assert(views[index as int] == arg@);
        if same_text(arg, "--format") {
            if index + 1 >= args.len() {
                return Err(RustScopeError::Argument(String::from_str("missing value for --format")));
            }
            assert(views[index + 1] == args@[index + 1]@);
            match ReportFormat::parse(args[index + 1]) {
                Ok(f) => {
                    format = f;
                },
                Err(e) => {
                    return Err(e);
                },
            }
            index = index + 2;
        } else if same_text(arg, "--output") {
            if index + 1 >= args.len() {
                return Err(RustScopeError::Argument(String::from_str("missing value for --output")));
            }
            assert(views[index + 1] == args@[index + 1]@);
            output = Some(String::from_str(args[index + 1]));
            index = index + 2;
        } else {
            let mut message = String::from_str("unsupported argument: ");
            message.append(arg);
            return Err(RustScopeError::Argument(message));
        }
    }
    Ok(AnalyzeOptions { project_path: String::from_str(path), format, output })
}

/// The command a command line asks for: `tui <path>`, `analyze <path>
/// [options]`, or `<path> [options]` when the first argument is neither
/// `analyze` nor `tui`.
pub open spec fn command_named(args: Seq<Seq<char>>) -> Result<CommandModel, ErrorModel> {
    if args.len() == 0 {
        Err(ErrorModel::Argument(usage_text()))
    } else if args[0] == "tui"@ {
        if args.len() == 1 {
            Err(ErrorModel::Argument(usage_text()))
        } else if args.len() == 2 {
            Ok(CommandModel::Tui(args[1]))
        } else {
            Err(ErrorModel::Argument("unsupported argument: "@ + args[2]))
        }
    } else if args[0] == "analyze"@ {
        if args.len() == 1 {
            Err(ErrorModel::Argument(usage_text()))
        } else {
            match analyze_options(args[1], args.skip(2)) {
                Err(e) => Err(e),
                Ok(o) => Ok(CommandModel::Analyze(o)),
            }
        }
    } else {
        match analyze_options(args[0], args.skip(1)) {
            Err(e) => Err(e),
            Ok(o) => Ok(CommandModel::Analyze(o)),
        }
    }
}

pub open spec fn result_command_model(r: Result<Command, RustScopeError>) -> Result<CommandModel, ErrorModel> {
    match r {
        Ok(c) => Ok(c@),
        Err(e) => Err(e@),
    }
}

/// Reads a command line (without the program name).
pub fn parse_args(args: &[&str]) -> (r: Result<Command, RustScopeError>)
    ensures
        result_command_model(r) == command_named(arg_views(args@)),
{
    let ghost views = arg_views(args@);
    if args.len() == 0 {
        return Err(RustScopeError::Argument(usage_message()));
    }
    assert(views[0] == args@[0]@);
    if same_text(args[0], "tui") {
        if args.len() == 1 {
            return Err(RustScopeError::Argument(usage_message()));
        }
        assert(views[1] == args@[1]@);
        if args.len() > 2 {
            assert(views[2] == args@[2]@);
            let mut message = String::from_str("unsupported argument: ");
            message.append(args[2]);
            return Err(RustScopeError::Argument(message));
        }
        return Ok(Command::Tui(String::from_str(args[1])));
    }
    let options = if same_text(args[0], "analyze") {
        if args.len() == 1 {
            return Err(RustScopeError::Argument(usage_message()));
        }
        assert(views[1] == args@[1]@);
        let rest = &args[2..args.len()];
        assert(arg_views(rest@) =~= views.skip(2));
        parse_analyze_options(args[1], rest)
    } else {
        let rest = &args[1..args.len()];
        assert(arg_views(rest@) =~= views.skip(1));
        parse_analyze_options(args[0], rest)
    };
    match options {
        Ok(o) => Ok(Command::Analyze(o)),
        Err(e) => Err(e),
    }
}

/// `<path> [options]` is short for `analyze <path> [options]` whenever the
/// path is not the word `analyze` or `tui` itself.
pub proof fn law_short_form(args: Seq<Seq<char>>)
    requires
        args.len() > 0,
        args[0] != "analyze"@,
        args[0] != "tui"@,
    ensures
        command_named(seq!["analyze"@] + args) == command_named(args),
{
    let long = seq!["analyze"@] + args;
    assert(long[0] == "analyze"@);
    assert("analyze"@ != "tui"@) by {
        reveal_strlit("analyze");
        reveal_strlit("tui");
    }
    assert(long[1] == args[0]);
    assert(long.skip(2) =~= args.skip(1));
}

/// How the options after a project path read: no option gives the
/// terminal format and no output file, `--format` takes `terminal` or
/// `markdown` and refuses any other name, `--output` takes a file, and an
/// option without its value is refused; `tui <path>` asks for the
/// dashboard of that path.
pub proof fn law_cli_options(p: Seq<char>, v: Seq<char>, o: Seq<char>)
    requires
        p != "analyze"@,
        p != "tui"@,
    ensures
        command_named(seq![p]) == Ok::<CommandModel, ErrorModel>(
            CommandModel::Analyze(OptionsModel { project_path: p, format: ReportFormat::Terminal, output: None }),
        ),
        command_named(seq![p, "--format"@, "markdown"@]) == Ok::<CommandModel, ErrorModel>(
            CommandModel::Analyze(OptionsModel { project_path: p, format: ReportFormat::Markdown, output: None }),
        ),
        command_named(seq![p, "--format"@, "terminal"@]) == Ok::<CommandModel, ErrorModel>(
            CommandModel::Analyze(OptionsModel { project_path: p, format: ReportFormat::Terminal, output: None }),
        ),
        command_named(seq![p, "--output"@, o]) == Ok::<CommandModel, ErrorModel>(
            CommandModel::Analyze(OptionsModel { project_path: p, format: ReportFormat::Terminal, output: Some(o) }),
        ),
        v != "terminal"@ && v != "markdown"@ ==> command_named(seq![p, "--format"@, v]) == Err::<
            CommandModel,
            ErrorModel,
        >(ErrorModel::Argument("unsupported report format: "@ + v)),
        command_named(seq![p, "--format"@]) == Err::<CommandModel, ErrorModel>(
            ErrorModel::Argument("missing value for --format"@),
        ),
        command_named(seq![p, "--output"@]) == Err::<CommandModel, ErrorModel>(
            ErrorModel::Argument("missing value for --output"@),
        ),
        command_named(seq!["tui"@, p]) == Ok::<CommandModel, ErrorModel>(CommandModel::Tui(p)),
{
    reveal_strlit("--format");
    reveal_strlit("--output");
    reveal_strlit("terminal");
    reveal_strlit("markdown");
    reveal_strlit("tui");
    reveal_strlit("analyze");
    assert("--format"@ != "--output"@) by {
        assert("--format"@[2] != "--output"@[2]);
    }
    assert("markdown"@ != "terminal"@) by {
        assert("markdown"@[0] != "terminal"@[0]);
    }
    assert("tui"@ != "analyze"@) by {
        assert("tui"@[0] != "analyze"@[0]);
    }
    assert(seq![p].skip(1) =~= Seq::<Seq<char>>::empty());
    assert(seq![p, "--format"@, "markdown"@].skip(1) =~= seq!["--format"@, "markdown"@]);
    assert(seq![p, "--format"@, "terminal"@].skip(1) =~= seq!["--format"@, "terminal"@]);
    assert(seq![p, "--output"@, o].skip(1) =~= seq!["--output"@, o]);
    assert(seq![p, "--format"@, v].skip(1) =~= seq!["--format"@, v]);
    assert(seq![p, "--format"@].skip(1) =~= seq!["--format"@]);
    assert(seq![p, "--output"@].skip(1) =~= seq!["--output"@]);
    assert(options_from(seq!["--format"@, "markdown"@], 2, ReportFormat::Markdown, None) == Ok::<
        (ReportFormat, Option<Seq<char>>),
        ErrorModel,
    >((ReportFormat::Markdown, None)));
    assert(options_from(seq!["--format"@, "terminal"@], 2, ReportFormat::Terminal, None) == Ok::<
        (ReportFormat, Option<Seq<char>>),
        ErrorModel,
    >((ReportFormat::Terminal, None)));
    assert(options_from(seq!["--output"@, o], 2, ReportFormat::Terminal, Some(o)) == Ok::<
        (ReportFormat, Option<Seq<char>>),
        ErrorModel,
    >((ReportFormat::Terminal, Some(o))));
}

} // verus!
