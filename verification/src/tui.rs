//! The text of the interactive dashboard.
use vstd::prelude::*;
use crate::model::{ComplexityModel, DependencyModel, FunctionComplexity, ItemKind, ProjectAnalysis, ProjectModel};
use crate::report::{
    contains_text, count_items, joined, kind_count, lemma_contains_left, lemma_contains_right,
    lemma_joined_contains, lemma_joined_three, lemma_rows_contain, num, push_num, top_complex_functions,
    top_functions,
};
use crate::text::{chars_of, trim, trim_chars};

verus! {

/// The ranked lines of the first `n` top functions.
pub open spec fn dashboard_function_rows(top: Seq<ComplexityModel>, n: int) -> Seq<char>
    decreases n,
{
    if n <= 0 {
        seq![]
    } else {
        let f = top[n - 1];
        dashboard_function_rows(top, n - 1) + num(n) + ". "@ + f.name + " | "@ + f.file + ":"@ + num(
            f.line as int,
        ) + " | complexity: "@ + num(f.complexity as int) + "\n"@
    }
}

/// One `from -> to` line for each of the first `n` dependencies.
pub open spec fn dashboard_dependency_rows(deps: Seq<DependencyModel>, n: int) -> Seq<char>
    decreases n,
{
    if n <= 0 {
        seq![]
    } else {
        dashboard_dependency_rows(deps, n - 1) + deps[n - 1].from + " -> "@ + deps[n - 1].to + "\n"@
    }
}

pub open spec fn dashboard_summary(p: ProjectModel) -> Seq<char> {
    "RustScope TUI Dashboard\n=======================\nProject: "@ + p.project_path
        + "\nParallel analysis: "@ + (if p.parallel_enabled {
        "enabled"@
    } else {
        "disabled"@
    }) + " | Worker threads: "@ + num(p.worker_threads as int) + "\n\nFiles: "@ + num(
        p.files_analyzed as int,
    ) + " | Total Lines: "@ + num(p.line_metrics.total_lines as int) + " | Code Lines: "@ + num(
        p.line_metrics.code_lines as int,
    ) + "\nComments: "@ + num(p.line_metrics.comment_lines as int) + " | Blank Lines: "@ + num(
        p.line_metrics.blank_lines as int,
    ) + "\n\n"@
}

pub open spec fn dashboard_items(p: ProjectModel) -> Seq<char> {
    "Code Items\nFunctions: "@ + num(kind_count(p.items, ItemKind::Function) as int) + " | Structs: "@
        + num(kind_count(p.items, ItemKind::Struct) as int) + " | Enums: "@ + num(
        kind_count(p.items, ItemKind::Enum) as int,
    ) + " | Traits: "@ + num(kind_count(p.items, ItemKind::Trait) as int) + "\nModules: "@ + num(
        kind_count(p.items, ItemKind::Module) as int,
    ) + " | Impl Blocks: "@ + num(kind_count(p.items, ItemKind::Impl) as int) + "\n\n"@
}

pub open spec fn dashboard_functions(p: ProjectModel) -> Seq<char> {
    let top = top_functions(p.function_complexities, 5);
    "Top Complex Functions\n"@ + (if top.len() == 0 {
        "None detected.\n"@
    } else {
        dashboard_function_rows(top, top.len() as int)
    })
}

pub open spec fn dashboard_dependencies(p: ProjectModel) -> Seq<char> {
    let deps = p.dependencies;
    "\nModule Dependencies\n"@ + (if deps.len() == 0 {
        "None detected.\n"@
    } else if deps.len() <= 12 {
        dashboard_dependency_rows(deps, deps.len() as int)
    } else {
        dashboard_dependency_rows(deps, 12) + "... "@ + num(deps.len() - 12) + " more\n"@
    }) + "\nPress q to quit.\n"@
}

/// The dashboard of an analysis: summary, item counts, the five most
/// complex functions and the first twelve dependency edges.
pub open spec fn dashboard_text(p: ProjectModel) -> Seq<char> {
    dashboard_summary(p) + dashboard_items(p) + dashboard_functions(p) + dashboard_dependencies(p)
}

fn push_summary(out: &mut String, analysis: &ProjectAnalysis)
    ensures
        final(out)@ == old(out)@ + dashboard_summary(analysis@),
{
    let m = analysis.line_metrics;
    out.append("RustScope TUI Dashboard\n=======================\nProject: ");
    out.append(analysis.project_path.as_str());
    out.append("\nParallel analysis: ");
    if analysis.parallel_enabled {
        out.append("enabled");
    } else {
        out.append("disabled");
    }
    out.append(" | Worker threads: ");
    push_num(out, analysis.worker_threads);
    out.append("\n\nFiles: ");
    push_num(out, analysis.files_analyzed);
    out.append(" | Total Lines: ");
    push_num(out, m.total_lines);
    out.append(" | Code Lines: ");
    push_num(out, m.code_lines);
    out.append("\nComments: ");
    push_num(out, m.comment_lines);
    out.append(" | Blank Lines: ");
    push_num(out, m.blank_lines);
    out.append("\n\n");
    assert(out@ =~= old(out)@ + dashboard_summary(analysis@));
}

fn push_items(out: &mut String, analysis: &ProjectAnalysis)
    ensures
        final(out)@ == old(out)@ + dashboard_items(analysis@),
{
    out.append("Code Items\nFunctions: ");
    push_num(out, count_items(analysis, ItemKind::Function));
    out.append(" | Structs: ");
    push_num(out, count_items(analysis, ItemKind::Struct));
    out.append(" | Enums: ");
    push_num(out, count_items(analysis, ItemKind::Enum));
    out.append(" | Traits: ");
    push_num(out, count_items(analysis, ItemKind::Trait));
    out.append("\nModules: ");
    push_num(out, count_items(analysis, ItemKind::Module));
    out.append(" | Impl Blocks: ");
    push_num(out, count_items(analysis, ItemKind::Impl));
    out.append("\n\n");
    assert(out@ =~= old(out)@ + dashboard_items(analysis@));
}

fn push_functions(out: &mut String, analysis: &ProjectAnalysis)
    ensures
        final(out)@ == old(out)@ + dashboard_functions(analysis@),
{
    let ghost start = old(out)@;
    let top = top_complex_functions(analysis.function_complexities.as_slice(), 5);
    assert(analysis.function_complexities@.map_values(|f: FunctionComplexity| f@) =~= analysis@.function_complexities);
    let ghost topv = top.deep_view();
    out.append("Top Complex Functions\n");
    let ghost mid = out@;
    if top.len() == 0 {
        out.append("None detected.\n");
    } else {
        let mut i: usize = 0;
        while i < top.len()
            invariant
                i <= top@.len(),
                topv == top.deep_view(),
                out@ == mid + dashboard_function_rows(topv, i as int),
            decreases top@.len() - i,
        {
            let f = &top[i];
            assert(topv[i as int] == f@);
            push_num(out, i + 1);
            out.append(". ");
            out.append(f.name.as_str());
            out.append(" | ");
            out.append(f.file.as_str());
            out.append(":");
            push_num(out, f.line);
            out.append(" | complexity: ");
            push_num(out, f.complexity);
            out.append("\n");
            assert(out@ =~= mid + dashboard_function_rows(topv, i + 1));
            i = i + 1;
        }
    }
    assert(out@ =~= start + dashboard_functions(analysis@));
}

fn push_dependencies(out: &mut String, analysis: &ProjectAnalysis)
    ensures
        final(out)@ == old(out)@ + dashboard_dependencies(analysis@),
{
    let ghost start = old(out)@;
    out.append("\nModule Dependencies\n");
    let deps = &analysis.dependencies;
    let count = deps.len();
    if count == 0 {
        out.append("None detected.\n");
    } else {
        let shown = if count > 12 {
            12
        } else {
            count
        };
        let ghost mid2 = out@;
        let mut i: usize = 0;
        while i < shown
            invariant
                shown <= deps@.len(),
                i <= shown,
                deps == &analysis.dependencies,
                out@ == mid2 + dashboard_dependency_rows(deps.deep_view(), i as int),
            decreases shown - i,
        {
            let d = &deps[i];
            assert(deps.deep_view()[i as int] == d@);
            out.append(d.from.as_str());
            out.append(" -> ");
            out.append(d.to.as_str());
            out.append("\n");
            assert(out@ =~= mid2 + dashboard_dependency_rows(deps.deep_view(), i + 1));
            i = i + 1;
        }
        if count > 12 {
            out.append("... ");
            push_num(out, count - 12);
            out.append(" more\n");
        }
    }
    out.append("\nPress q to quit.\n");
    assert(out@ =~= start + dashboard_dependencies(analysis@));
}

/// Writes the dashboard of an analysis to `out`.
pub fn write_dashboard(out: &mut String, analysis: &ProjectAnalysis)
    ensures
        final(out)@ == old(out)@ + dashboard_text(analysis@),
{
    push_summary(out, analysis);
    push_items(out, analysis);
    push_functions(out, analysis);
    push_dependencies(out, analysis);
    assert(out@ =~= old(out)@ + dashboard_text(analysis@));
}

/// Whether a line read at the dashboard's prompt closes it: the end of the
/// input (nothing was read), or `q` in either case, surrounded by any
/// whitespace.
pub open spec fn quits(bytes_read: usize, line: Seq<char>) -> bool {
    bytes_read == 0 || trim(line) == seq!['q'] || trim(line) == seq!['Q']
}

/// The dashboard closes at the end of the input, and otherwise exactly
/// when the line read is `q` or `Q` with nothing but whitespace around it.
pub proof fn law_quits(bytes_read: usize, line: Seq<char>)
    ensures
        bytes_read == 0 ==> quits(bytes_read, line),
        bytes_read > 0 ==> (quits(bytes_read, line) <==> trim(line).len() == 1 && (trim(line)[0] == 'q'
            || trim(line)[0] == 'Q')),
{
    if trim(line).len() == 1 {
        assert(trim(line) == seq![trim(line)[0]]);
    }
}

/// Decides whether the dashboard closes after reading `line`, of which
/// `bytes_read` bytes came from the input.
pub fn quit_requested(bytes_read: usize, line: &str) -> (r: bool)
    ensures
        r == quits(bytes_read, line@),
{
    if bytes_read == 0 {
        return true;
    }
    let chars = chars_of(line);
    let t = trim_chars(chars.as_slice());
    if t.len() == 1 && (t[0] == 'q' || t[0] == 'Q') {
        assert(t@ =~= seq![t[0]]);
        true
    } else {
        assert(t@ != seq!['q']) by {
            if t@ =~= seq!['q'] {
                assert(t@[0] == 'q');
            }
        }
        assert(t@ != seq!['Q']) by {
            if t@ =~= seq!['Q'] {
                assert(t@[0] == 'Q');
            }
        }
        false
    }
}

/// Line `k` of the dashboard's list of top functions.
pub open spec fn dashboard_row(k: int, f: ComplexityModel) -> Seq<char> {
    num(k) + ". "@ + f.name + " | "@ + f.file + ":"@ + num(f.line as int) + " | complexity: "@ + num(
        f.complexity as int,
    ) + "\n"@
}

/// The dashboard's line for one dependency edge.
pub open spec fn dashboard_dependency_row(d: DependencyModel) -> Seq<char> {
    d.from + " -> "@ + d.to + "\n"@
}

/// The dashboard lists the top functions (most complex first) numbered
/// from 1, each with its file, line and complexity, and the first twelve
/// dependency edges, each on a line of its own.
#[verifier::spinoff_prover]
#[verifier::rlimit(40)]
pub proof fn law_dashboard_rows(p: ProjectModel)
    ensures
        forall|k: int|
            1 <= k <= top_functions(p.function_complexities, 5).len() ==> contains_text(
                dashboard_text(p),
                "\n"@ + #[trigger] dashboard_row(k, top_functions(p.function_complexities, 5)[k - 1]),
            ),
        forall|k: int|
            0 <= k < p.dependencies.len() && k < 12 ==> contains_text(
                dashboard_text(p),
                "\n"@ + #[trigger] dashboard_dependency_row(p.dependencies[k]),
            ),
{
    let top = top_functions(p.function_complexities, 5);
    let deps = p.dependencies;
    reveal_strlit("\n");
    if top.len() > 0 {
        let title = "Top Complex Functions\n"@;
        reveal_strlit("Top Complex Functions\n");
        let lead = dashboard_summary(p) + dashboard_items(p) + title;
        assert(lead.last() == title.last());
        let rows = dashboard_function_rows(top, top.len() as int);
        assert(dashboard_text(p) =~= (lead + rows) + dashboard_dependencies(p));
        let rows_f = |m: int| dashboard_function_rows(top, m);
        let row_f = |m: int| dashboard_row(m, top[m - 1]);
        assert forall|m: int| 1 <= m <= top.len() implies #[trigger] rows_f(m) == rows_f(m - 1) + row_f(m) by {
            assert(dashboard_function_rows(top, m) =~= dashboard_function_rows(top, m - 1) + dashboard_row(
                m,
                top[m - 1],
            ));
        }
        assert forall|m: int| 1 <= m <= top.len() implies (#[trigger] row_f(m)).len() > 0 && row_f(m).last()
            == '\n' by {
        }
        assert(rows_f(0) =~= Seq::<char>::empty());
        assert forall|k: int| 1 <= k <= top.len() implies contains_text(
            dashboard_text(p),
            "\n"@ + #[trigger] dashboard_row(k, top[k - 1]),
        ) by {
            lemma_rows_contain(lead, rows_f, row_f, top.len() as int, k);
            lemma_contains_left(lead + rows, dashboard_dependencies(p), "\n"@ + dashboard_row(k, top[k - 1]));
        }
    }
    if deps.len() > 0 {
        let n: int = if deps.len() <= 12 { deps.len() as int } else { 12 };
        let title = "\nModule Dependencies\n"@;
        reveal_strlit("\nModule Dependencies\n");
        let lead = dashboard_summary(p) + dashboard_items(p) + dashboard_functions(p) + title;
        assert(lead.last() == title.last());
        let rows = dashboard_dependency_rows(deps, n);
        let rest = (if deps.len() <= 12 {
            Seq::<char>::empty()
        } else {
            "... "@ + num(deps.len() - 12) + " more\n"@
        }) + "\nPress q to quit.\n"@;
        assert(dashboard_text(p) =~= (lead + rows) + rest);
        let rows_f = |m: int| dashboard_dependency_rows(deps, m);
        let row_f = |m: int| dashboard_dependency_row(deps[m - 1]);
        assert forall|m: int| 1 <= m <= n implies #[trigger] rows_f(m) == rows_f(m - 1) + row_f(m) by {
            assert(dashboard_dependency_rows(deps, m) =~= dashboard_dependency_rows(deps, m - 1)
                + dashboard_dependency_row(deps[m - 1]));
        }
        assert forall|m: int| 1 <= m <= n implies (#[trigger] row_f(m)).len() > 0 && row_f(m).last() == '\n' by {
        }
        assert(rows_f(0) =~= Seq::<char>::empty());
        assert forall|k: int| 0 <= k < deps.len() && k < 12 implies contains_text(
            dashboard_text(p),
            "\n"@ + #[trigger] dashboard_dependency_row(deps[k]),
        ) by {
            lemma_rows_contain(lead, rows_f, row_f, n, k + 1);
            lemma_contains_left(lead + rows, rest, "\n"@ + dashboard_dependency_row(deps[k]));
        }
    }
}

/// Each count of the dashboard stands between its own label and the next
/// one: the project path, the threads used, the number of files, the four
/// line counts and the six item counts, each under the right name.
#[verifier::spinoff_prover]
pub proof fn law_dashboard_counts(p: ProjectModel)
    ensures
        contains_text(dashboard_text(p), "RustScope TUI Dashboard\n=======================\nProject: "@ + p.project_path + "\nParallel analysis: "@),
        contains_text(dashboard_text(p), "\nParallel analysis: "@ + (if p.parallel_enabled { "enabled"@ } else { "disabled"@ }) + " | Worker threads: "@),
        contains_text(dashboard_text(p), " | Worker threads: "@ + num(p.worker_threads as int) + "\n\nFiles: "@),
        contains_text(dashboard_text(p), "\n\nFiles: "@ + num(p.files_analyzed as int) + " | Total Lines: "@),
        contains_text(dashboard_text(p), " | Total Lines: "@ + num(p.line_metrics.total_lines as int) + " | Code Lines: "@),
        contains_text(dashboard_text(p), " | Code Lines: "@ + num(p.line_metrics.code_lines as int) + "\nComments: "@),
        contains_text(dashboard_text(p), "\nComments: "@ + num(p.line_metrics.comment_lines as int) + " | Blank Lines: "@),
        contains_text(dashboard_text(p), " | Blank Lines: "@ + num(p.line_metrics.blank_lines as int) + "\n\n"@),
        contains_text(dashboard_text(p), "Code Items\nFunctions: "@ + num(kind_count(p.items, ItemKind::Function) as int) + " | Structs: "@),
        contains_text(dashboard_text(p), " | Structs: "@ + num(kind_count(p.items, ItemKind::Struct) as int) + " | Enums: "@),
        contains_text(dashboard_text(p), " | Enums: "@ + num(kind_count(p.items, ItemKind::Enum) as int) + " | Traits: "@),
        contains_text(dashboard_text(p), " | Traits: "@ + num(kind_count(p.items, ItemKind::Trait) as int) + "\nModules: "@),
        contains_text(dashboard_text(p), "\nModules: "@ + num(kind_count(p.items, ItemKind::Module) as int) + " | Impl Blocks: "@),
        contains_text(dashboard_text(p), " | Impl Blocks: "@ + num(kind_count(p.items, ItemKind::Impl) as int) + "\n\n"@),
{
    let parts0 = seq![
        "RustScope TUI Dashboard\n=======================\nProject: "@,
        p.project_path,
        "\nParallel analysis: "@,
        (if p.parallel_enabled { "enabled"@ } else { "disabled"@ }),
        " | Worker threads: "@,
        num(p.worker_threads as int),
        "\n\nFiles: "@,
        num(p.files_analyzed as int),
        " | Total Lines: "@,
        num(p.line_metrics.total_lines as int),
        " | Code Lines: "@,
        num(p.line_metrics.code_lines as int),
        "\nComments: "@,
        num(p.line_metrics.comment_lines as int),
        " | Blank Lines: "@,
        num(p.line_metrics.blank_lines as int),
        "\n\n"@,
    ];
    assert(dashboard_summary(p) =~= joined(parts0, 0, 17)) by {
        reveal_with_fuel(joined, 18);
    }
    lemma_joined_contains(parts0, 0, 3);
    lemma_joined_three(parts0, 0);
    lemma_contains_left(dashboard_summary(p), dashboard_items(p), "RustScope TUI Dashboard\n=======================\nProject: "@ + p.project_path + "\nParallel analysis: "@);
    lemma_contains_left(dashboard_summary(p) + dashboard_items(p), dashboard_functions(p), "RustScope TUI Dashboard\n=======================\nProject: "@ + p.project_path + "\nParallel analysis: "@);
    lemma_contains_left(dashboard_summary(p) + dashboard_items(p) + dashboard_functions(p), dashboard_dependencies(p), "RustScope TUI Dashboard\n=======================\nProject: "@ + p.project_path + "\nParallel analysis: "@);
    lemma_joined_contains(parts0, 2, 5);
    lemma_joined_three(parts0, 2);
    lemma_contains_left(dashboard_summary(p), dashboard_items(p), "\nParallel analysis: "@ + (if p.parallel_enabled { "enabled"@ } else { "disabled"@ }) + " | Worker threads: "@);
    lemma_contains_left(dashboard_summary(p) + dashboard_items(p), dashboard_functions(p), "\nParallel analysis: "@ + (if p.parallel_enabled { "enabled"@ } else { "disabled"@ }) + " | Worker threads: "@);
    lemma_contains_left(dashboard_summary(p) + dashboard_items(p) + dashboard_functions(p), dashboard_dependencies(p), "\nParallel analysis: "@ + (if p.parallel_enabled { "enabled"@ } else { "disabled"@ }) + " | Worker threads: "@);
    lemma_joined_contains(parts0, 4, 7);
    lemma_joined_three(parts0, 4);
    lemma_contains_left(dashboard_summary(p), dashboard_items(p), " | Worker threads: "@ + num(p.worker_threads as int) + "\n\nFiles: "@);
    lemma_contains_left(dashboard_summary(p) + dashboard_items(p), dashboard_functions(p), " | Worker threads: "@ + num(p.worker_threads as int) + "\n\nFiles: "@);
    lemma_contains_left(dashboard_summary(p) + dashboard_items(p) + dashboard_functions(p), dashboard_dependencies(p), " | Worker threads: "@ + num(p.worker_threads as int) + "\n\nFiles: "@);
    lemma_joined_contains(parts0, 6, 9);
    lemma_joined_three(parts0, 6);
    lemma_contains_left(dashboard_summary(p), dashboard_items(p), "\n\nFiles: "@ + num(p.files_analyzed as int) + " | Total Lines: "@);
    lemma_contains_left(dashboard_summary(p) + dashboard_items(p), dashboard_functions(p), "\n\nFiles: "@ + num(p.files_analyzed as int) + " | Total Lines: "@);
    lemma_contains_left(dashboard_summary(p) + dashboard_items(p) + dashboard_functions(p), dashboard_dependencies(p), "\n\nFiles: "@ + num(p.files_analyzed as int) + " | Total Lines: "@);
    lemma_joined_contains(parts0, 8, 11);
    lemma_joined_three(parts0, 8);
    lemma_contains_left(dashboard_summary(p), dashboard_items(p), " | Total Lines: "@ + num(p.line_metrics.total_lines as int) + " | Code Lines: "@);
    lemma_contains_left(dashboard_summary(p) + dashboard_items(p), dashboard_functions(p), " | Total Lines: "@ + num(p.line_metrics.total_lines as int) + " | Code Lines: "@);
    lemma_contains_left(dashboard_summary(p) + dashboard_items(p) + dashboard_functions(p), dashboard_dependencies(p), " | Total Lines: "@ + num(p.line_metrics.total_lines as int) + " | Code Lines: "@);
    lemma_joined_contains(parts0, 10, 13);
    lemma_joined_three(parts0, 10);
    lemma_contains_left(dashboard_summary(p), dashboard_items(p), " | Code Lines: "@ + num(p.line_metrics.code_lines as int) + "\nComments: "@);
    lemma_contains_left(dashboard_summary(p) + dashboard_items(p), dashboard_functions(p), " | Code Lines: "@ + num(p.line_metrics.code_lines as int) + "\nComments: "@);
    lemma_contains_left(dashboard_summary(p) + dashboard_items(p) + dashboard_functions(p), dashboard_dependencies(p), " | Code Lines: "@ + num(p.line_metrics.code_lines as int) + "\nComments: "@);
    lemma_joined_contains(parts0, 12, 15);
    lemma_joined_three(parts0, 12);
    lemma_contains_left(dashboard_summary(p), dashboard_items(p), "\nComments: "@ + num(p.line_metrics.comment_lines as int) + " | Blank Lines: "@);
    lemma_contains_left(dashboard_summary(p) + dashboard_items(p), dashboard_functions(p), "\nComments: "@ + num(p.line_metrics.comment_lines as int) + " | Blank Lines: "@);
    lemma_contains_left(dashboard_summary(p) + dashboard_items(p) + dashboard_functions(p), dashboard_dependencies(p), "\nComments: "@ + num(p.line_metrics.comment_lines as int) + " | Blank Lines: "@);
    lemma_joined_contains(parts0, 14, 17);
    lemma_joined_three(parts0, 14);
    lemma_contains_left(dashboard_summary(p), dashboard_items(p), " | Blank Lines: "@ + num(p.line_metrics.blank_lines as int) + "\n\n"@);
    lemma_contains_left(dashboard_summary(p) + dashboard_items(p), dashboard_functions(p), " | Blank Lines: "@ + num(p.line_metrics.blank_lines as int) + "\n\n"@);
    lemma_contains_left(dashboard_summary(p) + dashboard_items(p) + dashboard_functions(p), dashboard_dependencies(p), " | Blank Lines: "@ + num(p.line_metrics.blank_lines as int) + "\n\n"@);
    let parts1 = seq![
        "Code Items\nFunctions: "@,
        num(kind_count(p.items, ItemKind::Function) as int),
        " | Structs: "@,
        num(kind_count(p.items, ItemKind::Struct) as int),
        " | Enums: "@,
        num(kind_count(p.items, ItemKind::Enum) as int),
        " | Traits: "@,
        num(kind_count(p.items, ItemKind::Trait) as int),
        "\nModules: "@,
        num(kind_count(p.items, ItemKind::Module) as int),
        " | Impl Blocks: "@,
        num(kind_count(p.items, ItemKind::Impl) as int),
        "\n\n"@,
    ];
    assert(dashboard_items(p) =~= joined(parts1, 0, 13)) by {
        reveal_with_fuel(joined, 14);
    }
    lemma_joined_contains(parts1, 0, 3);
    lemma_joined_three(parts1, 0);
    lemma_contains_right(dashboard_summary(p), dashboard_items(p), "Code Items\nFunctions: "@ + num(kind_count(p.items, ItemKind::Function) as int) + " | Structs: "@);
    lemma_contains_left(dashboard_summary(p) + dashboard_items(p), dashboard_functions(p), "Code Items\nFunctions: "@ + num(kind_count(p.items, ItemKind::Function) as int) + " | Structs: "@);
    lemma_contains_left(dashboard_summary(p) + dashboard_items(p) + dashboard_functions(p), dashboard_dependencies(p), "Code Items\nFunctions: "@ + num(kind_count(p.items, ItemKind::Function) as int) + " | Structs: "@);
    lemma_joined_contains(parts1, 2, 5);
    lemma_joined_three(parts1, 2);
    lemma_contains_right(dashboard_summary(p), dashboard_items(p), " | Structs: "@ + num(kind_count(p.items, ItemKind::Struct) as int) + " | Enums: "@);
    lemma_contains_left(dashboard_summary(p) + dashboard_items(p), dashboard_functions(p), " | Structs: "@ + num(kind_count(p.items, ItemKind::Struct) as int) + " | Enums: "@);
    lemma_contains_left(dashboard_summary(p) + dashboard_items(p) + dashboard_functions(p), dashboard_dependencies(p), " | Structs: "@ + num(kind_count(p.items, ItemKind::Struct) as int) + " | Enums: "@);
    lemma_joined_contains(parts1, 4, 7);
    lemma_joined_three(parts1, 4);
    lemma_contains_right(dashboard_summary(p), dashboard_items(p), " | Enums: "@ + num(kind_count(p.items, ItemKind::Enum) as int) + " | Traits: "@);
    lemma_contains_left(dashboard_summary(p) + dashboard_items(p), dashboard_functions(p), " | Enums: "@ + num(kind_count(p.items, ItemKind::Enum) as int) + " | Traits: "@);
    lemma_contains_left(dashboard_summary(p) + dashboard_items(p) + dashboard_functions(p), dashboard_dependencies(p), " | Enums: "@ + num(kind_count(p.items, ItemKind::Enum) as int) + " | Traits: "@);
    lemma_joined_contains(parts1, 6, 9);
    lemma_joined_three(parts1, 6);
    lemma_contains_right(dashboard_summary(p), dashboard_items(p), " | Traits: "@ + num(kind_count(p.items, ItemKind::Trait) as int) + "\nModules: "@);
    lemma_contains_left(dashboard_summary(p) + dashboard_items(p), dashboard_functions(p), " | Traits: "@ + num(kind_count(p.items, ItemKind::Trait) as int) + "\nModules: "@);
    lemma_contains_left(dashboard_summary(p) + dashboard_items(p) + dashboard_functions(p), dashboard_dependencies(p), " | Traits: "@ + num(kind_count(p.items, ItemKind::Trait) as int) + "\nModules: "@);
    lemma_joined_contains(parts1, 8, 11);
    lemma_joined_three(parts1, 8);
    lemma_contains_right(dashboard_summary(p), dashboard_items(p), "\nModules: "@ + num(kind_count(p.items, ItemKind::Module) as int) + " | Impl Blocks: "@);
    lemma_contains_left(dashboard_summary(p) + dashboard_items(p), dashboard_functions(p), "\nModules: "@ + num(kind_count(p.items, ItemKind::Module) as int) + " | Impl Blocks: "@);
    lemma_contains_left(dashboard_summary(p) + dashboard_items(p) + dashboard_functions(p), dashboard_dependencies(p), "\nModules: "@ + num(kind_count(p.items, ItemKind::Module) as int) + " | Impl Blocks: "@);
    lemma_joined_contains(parts1, 10, 13);
    lemma_joined_three(parts1, 10);
    lemma_contains_right(dashboard_summary(p), dashboard_items(p), " | Impl Blocks: "@ + num(kind_count(p.items, ItemKind::Impl) as int) + "\n\n"@);
    lemma_contains_left(dashboard_summary(p) + dashboard_items(p), dashboard_functions(p), " | Impl Blocks: "@ + num(kind_count(p.items, ItemKind::Impl) as int) + "\n\n"@);
    lemma_contains_left(dashboard_summary(p) + dashboard_items(p) + dashboard_functions(p), dashboard_dependencies(p), " | Impl Blocks: "@ + num(kind_count(p.items, ItemKind::Impl) as int) + "\n\n"@);
}

/// Past twelve dependency edges, the dashboard says how many more there are.
pub proof fn law_dashboard_more(p: ProjectModel)
    ensures
        p.dependencies.len() > 12 ==> contains_text(
            dashboard_text(p),
            "... "@ + num(p.dependencies.len() - 12) + " more\n"@,
        ),
{
    let deps = p.dependencies;
    if deps.len() > 12 {
        let more = "... "@ + num(deps.len() - 12) + " more\n"@;
        let before = dashboard_summary(p) + dashboard_items(p) + dashboard_functions(p) + "\nModule Dependencies\n"@
            + dashboard_dependency_rows(deps, 12);
        let after = "\nPress q to quit.\n"@;
        assert(dashboard_text(p) =~= before + more + after);
        assert((before + more + after).subrange(before.len() as int, (before.len() + more.len()) as int) =~= more);
    }
}

} // verus!
