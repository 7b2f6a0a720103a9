//! Rendering an analysis as a terminal report or a Markdown document.
use vstd::prelude::*;
use crate::analyzer::{lemma_location_order, location_before, ByLocation};
use crate::error::{ErrorModel, RustScopeError};
use crate::model::{
    CodeItemModel, ComplexityModel, DependencyModel, FileModel, FunctionComplexity, ItemKind,
    ProjectAnalysis, ProjectModel,
};
use crate::order::{compare_paths, compare_strings, Rank};
use crate::sort::{sort_by_order, sorted_by, Order};
use crate::text::{decimal, decimal_string};

verus! {

// ---------------------------------------------------------------- counting

/// Number of items of kind `kind`.
pub open spec fn kind_count(items: Seq<CodeItemModel>, kind: ItemKind) -> nat
    decreases items.len(),
{
    if items.len() == 0 {
        0
    } else {
        kind_count(items.drop_last(), kind) + if items.last().kind == kind {
            1nat
        } else {
            0
        }
    }
}

proof fn lemma_kind_count_bound(items: Seq<CodeItemModel>, kind: ItemKind)
    ensures
        kind_count(items, kind) <= items.len(),
    decreases items.len(),
{
    if items.len() > 0 {
        lemma_kind_count_bound(items.drop_last(), kind);
    }
}

/// Number of items of the analysis that are of kind `kind`.
pub fn count_items(analysis: &ProjectAnalysis, kind: ItemKind) -> (count: usize)
    ensures
        count == kind_count(analysis@.items, kind),
{
    let ghost all = analysis@.items;
    let n = analysis.items.len();
    let mut count: usize = 0;
    let mut i: usize = 0;
    while i < n
        invariant
            n == analysis.items@.len(),
            all == analysis@.items,
            i <= n,
            count <= i,
            count == kind_count(all.take(i as int), kind),
        decreases n - i,
    {
        proof {
            assert(all.take(i + 1).drop_last() =~= all.take(i as int));
            assert(all[i as int] == analysis.items@[i as int]@);
        }
        if analysis.items[i].kind == kind {
            count = count + 1;
        }
        i = i + 1;
    }
    assert(all.take(n as int) =~= all);
    count
}

/// Counting by kind: the count of a kind is the number of items of that
/// kind, and the six counts together count every item once.
pub proof fn law_kind_counts(items: Seq<CodeItemModel>, kind: ItemKind)
    ensures
        kind_count(items, kind) == items.filter(|x: CodeItemModel| x.kind == kind).len(),
        kind_count(items, ItemKind::Function) + kind_count(items, ItemKind::Struct) + kind_count(
            items,
            ItemKind::Enum,
        ) + kind_count(items, ItemKind::Trait) + kind_count(items, ItemKind::Module) + kind_count(
            items,
            ItemKind::Impl,
        ) == items.len(),
    decreases items.len(),
{
    if items.len() > 0 {
        law_kind_counts(items.drop_last(), kind);
        let pred = |x: CodeItemModel| x.kind == kind;
        reveal_with_fuel(Seq::filter, 1);
        assert(items.filter(pred) == if pred(items.last()) {
            items.drop_last().filter(pred).push(items.last())
        } else {
            items.drop_last().filter(pred)
        });
    }
}

// ---------------------------------------------------------------- ranking

/// Functions by decreasing complexity, then by location.
pub struct ByComplexity;

impl Order<FunctionComplexity> for ByComplexity {
    open spec fn before(a: ComplexityModel, b: ComplexityModel) -> bool {
        a.complexity > b.complexity || (a.complexity == b.complexity && location_before(
            a.file,
            a.line,
            a.name,
            b.file,
            b.line,
            b.name,
        ))
    }

    fn less(a: &FunctionComplexity, b: &FunctionComplexity) -> (r: bool) {
        if a.complexity != b.complexity {
            a.complexity > b.complexity
        } else {
            ByLocation::less(a, b)
        }
    }

    proof fn lemma_strict_weak(a: ComplexityModel, b: ComplexityModel, c: ComplexityModel) {
        lemma_location_order(a.file, a.line, a.name, b.file, b.line, b.name, c.file, c.line, c.name);
    }
}

/// The `limit` most complex functions, most complex first; ties keep
/// location order.
pub open spec fn top_functions(functions: Seq<ComplexityModel>, limit: usize) -> Seq<ComplexityModel> {
    let sorted = sorted_by::<FunctionComplexity, ByComplexity>(functions);
    if limit < sorted.len() {
        sorted.take(limit as int)
    } else {
        sorted
    }
}

/// The `limit` most complex of `functions`.
pub fn top_complex_functions(functions: &[FunctionComplexity], limit: usize) -> (top: Vec<FunctionComplexity>)
    ensures
        top.deep_view() == top_functions(functions@.map_values(|f: FunctionComplexity| f@), limit),
        top@.len() == if limit < functions@.len() {
            limit as int
        } else {
            functions@.len() as int
        },
        forall|i: int, j: int|
            0 <= i < j < top@.len() ==> #[trigger] top@[i].complexity >= #[trigger] top@[j].complexity,
{
    let mut copies: Vec<FunctionComplexity> = Vec::new();
    let mut i: usize = 0;
    while i < functions.len()
        invariant
            i <= functions@.len(),
            copies.deep_view() == functions@.take(i as int).map_values(|f: FunctionComplexity| f@),
        decreases functions@.len() - i,
    {
        let ghost before = copies.deep_view();
        let f = functions[i].clone();
        assert(f == functions@[i as int]);
        copies.push(f);
        assert(copies.deep_view() =~= before.push(functions@[i as int]@));
        assert(functions@.take(i + 1).map_values(|f: FunctionComplexity| f@) =~= functions@.take(
            i as int,
        ).map_values(|f: FunctionComplexity| f@).push(functions@[i as int]@));
        i = i + 1;
    }
    assert(functions@.take(functions@.len() as int) == functions@);
    let mut sorted = sort_by_order::<FunctionComplexity, ByComplexity>(copies);
    proof {
        crate::sort::lemma_sorted_by_multiset::<FunctionComplexity, ByComplexity>(
            functions@.map_values(|f: FunctionComplexity| f@),
        );
    }
    proof {
        crate::sort::lemma_sorted_by_sorted::<FunctionComplexity, ByComplexity>(
            functions@.map_values(|f: FunctionComplexity| f@),
        );
    }
    let ghost whole = sorted.deep_view();
    sorted.truncate(limit);
    assert(sorted.deep_view() =~= top_functions(functions@.map_values(|f: FunctionComplexity| f@), limit));
    assert forall|i: int, j: int| 0 <= i < j < sorted@.len() implies #[trigger] sorted@[i].complexity
        >= #[trigger] sorted@[j].complexity by {
        assert(whole[i] == sorted@[i]@);
        assert(whole[j] == sorted@[j]@);
        assert(!ByComplexity::before(whole[j], whole[i]));
    }
    sorted
}

// ---------------------------------------------------------------- validation

/// Why an analysis cannot be reported, if it cannot: an empty project path,
/// or a file with an empty path.
pub open spec fn report_problem(p: ProjectModel) -> Option<ErrorModel> {
    if p.project_path.len() == 0 {
        Some(ErrorModel::ReportGeneration("project path is empty"@))
    } else if exists|i: int| 0 <= i < p.files.len() && (#[trigger] p.files[i]).path.len() == 0 {
        Some(ErrorModel::ReportGeneration("analysis contains an empty file path"@))
    } else {
        None
    }
}

/// An analysis is refused exactly when its project path is empty or one
/// of its files has an empty path, and the empty project path is named
/// first.
pub proof fn law_report_refusal(p: ProjectModel)
    ensures
        report_problem(p) is None <==> p.project_path.len() > 0 && forall|i: int|
            0 <= i < p.files.len() ==> (#[trigger] p.files[i]).path.len() > 0,
        p.project_path.len() == 0 ==> report_problem(p) == Some(
            ErrorModel::ReportGeneration("project path is empty"@),
        ),
        p.project_path.len() > 0 && report_problem(p) is Some ==> report_problem(p) == Some(
            ErrorModel::ReportGeneration("analysis contains an empty file path"@),
        ),
{
}

/// Checks that an analysis can be reported.
pub fn validate_analysis(analysis: &ProjectAnalysis) -> (r: Result<(), RustScopeError>)
    ensures
        match report_problem(analysis@) {
            None => r is Ok,
            Some(e) => r matches Err(x) && x@ == e,
        },
{
    if analysis.project_path.as_str().is_empty() {
        return Err(RustScopeError::ReportGeneration(String::from_str("project path is empty")));
    }
    let n = analysis.files.len();
    let mut i: usize = 0;
    while i < n
        invariant
            n == analysis.files@.len(),
            analysis@.project_path.len() != 0,
            i <= n,
            forall|k: int| 0 <= k < i ==> (#[trigger] analysis@.files[k]).path.len() != 0,
        decreases n - i,
    {
        assert(analysis@.files[i as int] == analysis.files@[i as int]@);
        if analysis.files[i].path.as_str().is_empty() {
            return Err(RustScopeError::ReportGeneration(String::from_str("analysis contains an empty file path")));
        }
        i = i + 1;
    }
    Ok(())
}

// ---------------------------------------------------------------- text helpers

/// `n` in decimal.
pub open spec fn num(n: int) -> Seq<char> {
    decimal(n as nat)
}

/// `s` padded with spaces on the right to `width` characters, as
/// `format!("{:<width$}", s)` pads it.
pub open spec fn pad_right(s: Seq<char>, width: nat) -> Seq<char> {
    if s.len() >= width {
        s
    } else {
        s + Seq::new((width - s.len()) as nat, |i: int| ' ')
    }
}

/// Padding keeps the text and fills it with spaces up to the width; a
/// text at least as wide is left as it is.
pub proof fn law_pad_right(s: Seq<char>, width: nat)
    ensures
        pad_right(s, width).len() == if s.len() >= width {
            s.len()
        } else {
            width
        },
        pad_right(s, width).take(s.len() as int) == s,
        forall|k: int| s.len() <= k < pad_right(s, width).len() ==> #[trigger] pad_right(s, width)[k] == ' ',
{
    assert(pad_right(s, width).take(s.len() as int) =~= s);
}

pub(crate) fn push_num(out: &mut String, n: usize)
    ensures
        final(out)@ == old(out)@ + num(n as int),
{
    let digits = decimal_string(n);
    out.append(digits.as_str());
}

fn push_padded(out: &mut String, s: &str, width: usize)
    ensures
        final(out)@ == old(out)@ + pad_right(s@, width as nat),
{
    out.append(s);
    let len = crate::text::chars_of(s).len();
    let ghost start = old(out)@;
    if len < width {
        let mut k: usize = len;
        while k < width
            invariant
                len == s@.len(),
                len <= k <= width,
                out@ == start + s@ + Seq::new((k - len) as nat, |i: int| ' '),
            decreases width - k,
        {
            out.append(" ");
            proof {
                reveal_strlit(" ");
                assert(start + s@ + Seq::new((k - len) as nat, |i: int| ' ') + " "@ =~= start + s@
                    + Seq::new((k + 1 - len) as nat, |i: int| ' '));
            }
            k = k + 1;
        }
        assert(out@ =~= start + pad_right(s@, width as nat));
    } else {
        assert(out@ =~= start + pad_right(s@, width as nat));
    }
}

// ---------------------------------------------------------------- terminal

pub open spec fn terminal_header(p: ProjectModel) -> Seq<char> {
    "RustScope Analysis Report\n=========================\n\nProject: "@ + p.project_path
        + "\n\nFiles analyzed: "@ + num(p.files_analyzed as int) + "\n\n"@
}

pub open spec fn terminal_metrics(p: ProjectModel) -> Seq<char> {
    "Line Metrics:\n- Total lines: "@ + num(p.line_metrics.total_lines as int) + "\n- Code lines: "@
        + num(p.line_metrics.code_lines as int) + "\n- Comment lines: "@ + num(
        p.line_metrics.comment_lines as int,
    ) + "\n- Blank lines: "@ + num(p.line_metrics.blank_lines as int) + "\n\n"@
}

pub open spec fn terminal_items(p: ProjectModel) -> Seq<char> {
    "Code Items:\n- Functions: "@ + num(kind_count(p.items, ItemKind::Function) as int)
        + "\n- Structs: "@ + num(kind_count(p.items, ItemKind::Struct) as int) + "\n- Enums: "@
        + num(kind_count(p.items, ItemKind::Enum) as int) + "\n- Traits: "@ + num(
        kind_count(p.items, ItemKind::Trait) as int,
    ) + "\n- Modules: "@ + num(kind_count(p.items, ItemKind::Module) as int)
        + "\n- Impl blocks: "@ + num(kind_count(p.items, ItemKind::Impl) as int) + "\n\n"@
}

/// The ranked lines of the first `n` top functions.
pub open spec fn terminal_function_rows(top: Seq<ComplexityModel>, n: int) -> Seq<char>
    decreases n,
{
    if n <= 0 {
        seq![]
    } else {
        let f = top[n - 1];
        terminal_function_rows(top, n - 1) + num(n) + ". "@ + pad_right(f.name, 20) + " "@ + f.file
            + ":"@ + num(f.line as int) + "    complexity: "@ + num(f.complexity as int) + "\n"@
    }
}

/// One `from -> to` line for each of the first `n` dependencies.
pub open spec fn arrow_rows(deps: Seq<DependencyModel>, n: int) -> Seq<char>
    decreases n,
{
    if n <= 0 {
        seq![]
    } else {
        arrow_rows(deps, n - 1) + deps[n - 1].from + " -> "@ + deps[n - 1].to + "\n"@
    }
}

pub open spec fn terminal_tail(p: ProjectModel) -> Seq<char> {
    let top = top_functions(p.function_complexities, 5);
    "Top Complex Functions:\n"@ + (if top.len() == 0 {
        "No functions found.\n"@
    } else {
        terminal_function_rows(top, top.len() as int)
    }) + "\nModule Dependencies:\n"@ + (if p.dependencies.len() == 0 {
        "None detected.\n"@
    } else {
        arrow_rows(p.dependencies, p.dependencies.len() as int)
    })
}

/// The terminal report of an analysis.
pub open spec fn terminal_report(p: ProjectModel) -> Seq<char> {
    terminal_header(p) + terminal_metrics(p) + terminal_items(p) + terminal_tail(p)
}

fn push_terminal_header(out: &mut String, analysis: &ProjectAnalysis)
    ensures
        final(out)@ == old(out)@ + terminal_header(analysis@),
{
    out.append("RustScope Analysis Report\n=========================\n\nProject: ");
    out.append(analysis.project_path.as_str());
    out.append("\n\nFiles analyzed: ");
    push_num(out, analysis.files_analyzed);
    out.append("\n\n");
    assert(out@ =~= old(out)@ + terminal_header(analysis@));
}

fn push_terminal_metrics(out: &mut String, analysis: &ProjectAnalysis)
    ensures
        final(out)@ == old(out)@ + terminal_metrics(analysis@),
{
    let m = analysis.line_metrics;
    out.append("Line Metrics:\n- Total lines: ");
    push_num(out, m.total_lines);
    out.append("\n- Code lines: ");
    push_num(out, m.code_lines);
    out.append("\n- Comment lines: ");
    push_num(out, m.comment_lines);
    out.append("\n- Blank lines: ");
    push_num(out, m.blank_lines);
    out.append("\n\n");
    assert(out@ =~= old(out)@ + terminal_metrics(analysis@));
}

fn push_terminal_items(out: &mut String, analysis: &ProjectAnalysis)
    ensures
        final(out)@ == old(out)@ + terminal_items(analysis@),
{
    out.append("Code Items:\n- Functions: ");
    push_num(out, count_items(analysis, ItemKind::Function));
    out.append("\n- Structs: ");
    push_num(out, count_items(analysis, ItemKind::Struct));
    out.append("\n- Enums: ");
    push_num(out, count_items(analysis, ItemKind::Enum));
    out.append("\n- Traits: ");
    push_num(out, count_items(analysis, ItemKind::Trait));
    out.append("\n- Modules: ");
    push_num(out, count_items(analysis, ItemKind::Module));
    out.append("\n- Impl blocks: ");
    push_num(out, count_items(analysis, ItemKind::Impl));
    out.append("\n\n");
    assert(out@ =~= old(out)@ + terminal_items(analysis@));
}

fn push_arrow_rows(out: &mut String, deps: &Vec<crate::model::DependencyEdge>, limit: usize)
    requires
        limit <= deps@.len(),
    ensures
        final(out)@ == old(out)@ + arrow_rows(deps.deep_view(), limit as int),
{
    let ghost start = old(out)@;
    let mut i: usize = 0;
    while i < limit
        invariant
            limit <= deps@.len(),
            i <= limit,
            out@ == start + arrow_rows(deps.deep_view(), i as int),
        decreases limit - i,
    {
        let d = &deps[i];
        assert(deps.deep_view()[i as int] == d@);
        out.append(d.from.as_str());
        out.append(" -> ");
        out.append(d.to.as_str());
        out.append("\n");
        assert(out@ =~= start + arrow_rows(deps.deep_view(), i + 1));
        i = i + 1;
    }
}

fn push_terminal_tail(out: &mut String, analysis: &ProjectAnalysis)
    ensures
        final(out)@ == old(out)@ + terminal_tail(analysis@),
{
    let ghost start = old(out)@;
    let top = top_complex_functions(analysis.function_complexities.as_slice(), 5);
    assert(analysis.function_complexities@.map_values(|f: FunctionComplexity| f@) =~= analysis@.function_complexities);
    let ghost topv = top.deep_view();
    out.append("Top Complex Functions:\n");
    let ghost mid = out@;
    if top.len() == 0 {
        out.append("No functions found.\n");
    } else {
        let mut i: usize = 0;
        while i < top.len()
            invariant
                i <= top@.len(),
                topv == top.deep_view(),
                out@ == mid + terminal_function_rows(topv, i as int),
            decreases top@.len() - i,
        {
            let f = &top[i];
            assert(topv[i as int] == f@);
            push_num(out, i + 1);
            out.append(". ");
            push_padded(out, f.name.as_str(), 20);
            out.append(" ");
            out.append(f.file.as_str());
            out.append(":");
            push_num(out, f.line);
            out.append("    complexity: ");
            push_num(out, f.complexity);
            out.append("\n");
            assert(out@ =~= mid + terminal_function_rows(topv, i + 1));
            i = i + 1;
        }
    }
    let ghost mid2 = out@;
    out.append("\nModule Dependencies:\n");
    if analysis.dependencies.len() == 0 {
        out.append("None detected.\n");
    } else {
        push_arrow_rows(out, &analysis.dependencies, analysis.dependencies.len());
    }
    assert(out@ =~= start + terminal_tail(analysis@));
}

/// The terminal report of an analysis: project, line metrics, item
/// counts, the five most complex functions and the dependency edges.
pub fn generate_terminal_report(analysis: &ProjectAnalysis) -> (report: String)
    ensures
        report@ == terminal_report(analysis@),
{
    let mut out = String::new();
    push_terminal_header(&mut out, analysis);
    push_terminal_metrics(&mut out, analysis);
    push_terminal_items(&mut out, analysis);
    push_terminal_tail(&mut out, analysis);
    assert(out@ =~= terminal_report(analysis@));
    out
}

// ---------------------------------------------------------------- markdown

pub open spec fn markdown_head(p: ProjectModel) -> Seq<char> {
    "# RustScope Analysis Report\n\n## Project Summary\n\n- Project Path: "@ + p.project_path
        + "\n- Files Analyzed: "@ + num(p.files_analyzed as int) + "\n\n"@
        + "## Line Metrics\n\n| Metric | Count |\n|---|---:|\n| Total Lines | "@ + num(
        p.line_metrics.total_lines as int,
    ) + " |\n| Code Lines | "@ + num(p.line_metrics.code_lines as int) + " |\n| Comment Lines | "@
        + num(p.line_metrics.comment_lines as int) + " |\n| Blank Lines | "@ + num(
        p.line_metrics.blank_lines as int,
    ) + " |\n\n"@
}

pub open spec fn markdown_items(p: ProjectModel) -> Seq<char> {
    "## Code Items\n\n| Item | Count |\n|---|---:|\n| Functions | "@ + num(
        kind_count(p.items, ItemKind::Function) as int,
    ) + " |\n| Structs | "@ + num(kind_count(p.items, ItemKind::Struct) as int) + " |\n| Enums | "@
        + num(kind_count(p.items, ItemKind::Enum) as int) + " |\n| Traits | "@ + num(
        kind_count(p.items, ItemKind::Trait) as int,
    ) + " |\n| Modules | "@ + num(kind_count(p.items, ItemKind::Module) as int)
        + " |\n| Impl Blocks | "@ + num(kind_count(p.items, ItemKind::Impl) as int) + " |\n\n"@
}

/// The table rows of the first `n` top functions.
pub open spec fn markdown_function_rows(top: Seq<ComplexityModel>, n: int) -> Seq<char>
    decreases n,
{
    if n <= 0 {
        seq![]
    } else {
        let f = top[n - 1];
        markdown_function_rows(top, n - 1) + "| "@ + num(n) + " | "@ + f.name + " | "@ + f.file
            + " | "@ + num(f.line as int) + " | "@ + num(f.complexity as int) + " |\n"@
    }
}

/// The table rows of the first `n` dependencies.
pub open spec fn markdown_dependency_rows(deps: Seq<DependencyModel>, n: int) -> Seq<char>
    decreases n,
{
    if n <= 0 {
        seq![]
    } else {
        markdown_dependency_rows(deps, n - 1) + "| "@ + deps[n - 1].from + " | "@ + deps[n - 1].to
            + " |\n"@
    }
}

pub open spec fn markdown_tail(p: ProjectModel) -> Seq<char> {
    let top = top_functions(p.function_complexities, 5);
    "## Top Complex Functions\n\n"@ + (if top.len() == 0 {
        "None detected.\n\n"@
    } else {
        "| Rank | Function | File | Line | Complexity |\n|---:|---|---|---:|---:|\n"@
            + markdown_function_rows(top, top.len() as int) + "\n"@
    }) + "## Module Dependencies\n\n"@ + (if p.dependencies.len() == 0 {
        "None detected.\n"@
    } else {
        "| From | To |\n|---|---|\n"@ + markdown_dependency_rows(
            p.dependencies,
            p.dependencies.len() as int,
        )
    })
}

/// The Markdown report of an analysis.
pub open spec fn markdown_report(p: ProjectModel) -> Seq<char> {
    markdown_head(p) + markdown_items(p) + markdown_tail(p)
}

fn push_markdown_head(out: &mut String, analysis: &ProjectAnalysis)
    ensures
        final(out)@ == old(out)@ + markdown_head(analysis@),
{
    let m = analysis.line_metrics;
    out.append("# RustScope Analysis Report\n\n## Project Summary\n\n- Project Path: ");
    out.append(analysis.project_path.as_str());
    out.append("\n- Files Analyzed: ");
    push_num(out, analysis.files_analyzed);
    out.append("\n\n");
    out.append("## Line Metrics\n\n| Metric | Count |\n|---|---:|\n| Total Lines | ");
    push_num(out, m.total_lines);
    out.append(" |\n| Code Lines | ");
    push_num(out, m.code_lines);
    out.append(" |\n| Comment Lines | ");
    push_num(out, m.comment_lines);
    out.append(" |\n| Blank Lines | ");
    push_num(out, m.blank_lines);
    out.append(" |\n\n");
    assert(out@ =~= old(out)@ + markdown_head(analysis@));
}

fn push_markdown_items(out: &mut String, analysis: &ProjectAnalysis)
    ensures
        final(out)@ == old(out)@ + markdown_items(analysis@),
{
    out.append("## Code Items\n\n| Item | Count |\n|---|---:|\n| Functions | ");
    push_num(out, count_items(analysis, ItemKind::Function));
    out.append(" |\n| Structs | ");
    push_num(out, count_items(analysis, ItemKind::Struct));
    out.append(" |\n| Enums | ");
    push_num(out, count_items(analysis, ItemKind::Enum));
    out.append(" |\n| Traits | ");
    push_num(out, count_items(analysis, ItemKind::Trait));
    out.append(" |\n| Modules | ");
    push_num(out, count_items(analysis, ItemKind::Module));
    out.append(" |\n| Impl Blocks | ");
    push_num(out, count_items(analysis, ItemKind::Impl));
    out.append(" |\n\n");
    assert(out@ =~= old(out)@ + markdown_items(analysis@));
}

fn push_markdown_tail(out: &mut String, analysis: &ProjectAnalysis)
    ensures
        final(out)@ == old(out)@ + markdown_tail(analysis@),
{
    let ghost start = old(out)@;
    let top = top_complex_functions(analysis.function_complexities.as_slice(), 5);
    assert(analysis.function_complexities@.map_values(|f: FunctionComplexity| f@) =~= analysis@.function_complexities);
    let ghost topv = top.deep_view();
    out.append("## Top Complex Functions\n\n");
    if top.len() == 0 {
        out.append("None detected.\n\n");
    } else {
        out.append("| Rank | Function | File | Line | Complexity |\n|---:|---|---|---:|---:|\n");
        let ghost mid = out@;
        let mut i: usize = 0;
        while i < top.len()
            invariant
                i <= top@.len(),
                topv == top.deep_view(),
                out@ == mid + markdown_function_rows(topv, i as int),
            decreases top@.len() - i,
        {
            let f = &top[i];
            assert(topv[i as int] == f@);
            out.append("| ");
            push_num(out, i + 1);
            out.append(" | ");
            out.append(f.name.as_str());
            out.append(" | ");
            out.append(f.file.as_str());
            out.append(" | ");
            push_num(out, f.line);
            out.append(" | ");
            push_num(out, f.complexity);
            out.append(" |\n");
            assert(out@ =~= mid + markdown_function_rows(topv, i + 1));
            i = i + 1;
        }
        out.append("\n");
    }
    let ghost mid2 = out@;
    out.append("## Module Dependencies\n\n");
    if analysis.dependencies.len() == 0 {
        out.append("None detected.\n");
    } else {
        out.append("| From | To |\n|---|---|\n");
        let ghost mid3 = out@;
        let deps = &analysis.dependencies;
        let mut i: usize = 0;
        while i < deps.len()
            invariant
                i <= deps@.len(),
                deps == &analysis.dependencies,
                out@ == mid3 + markdown_dependency_rows(deps.deep_view(), i as int),
            decreases deps@.len() - i,
        {
            let d = &deps[i];
            assert(deps.deep_view()[i as int] == d@);
            out.append("| ");
            out.append(d.from.as_str());
            out.append(" | ");
            out.append(d.to.as_str());
            out.append(" |\n");
            assert(out@ =~= mid3 + markdown_dependency_rows(deps.deep_view(), i + 1));
            i = i + 1;
        }
    }
    assert(out@ =~= start + markdown_tail(analysis@));
}

/// The Markdown report of an analysis (without validation).
pub fn render_markdown_report(analysis: &ProjectAnalysis) -> (report: String)
    ensures
        report@ == markdown_report(analysis@),
{
    let mut out = String::new();
    push_markdown_head(&mut out, analysis);
    push_markdown_items(&mut out, analysis);
    push_markdown_tail(&mut out, analysis);
    assert(out@ =~= markdown_report(analysis@));
    out
}

// ---------------------------------------------------------------- generators

/// Renders a valid analysis as text; an analysis with an empty project or
/// file path is refused.
pub trait ReportGenerator {
    /// The text this generator renders for an analysis.
    spec fn rendered(&self, p: ProjectModel) -> Seq<char>;

    fn generate(&self, analysis: &ProjectAnalysis) -> (r: Result<String, RustScopeError>)
        ensures
            match report_problem(analysis@) {
                None => r matches Ok(s) && s@ == self.rendered(analysis@),
                Some(e) => r matches Err(x) && x@ == e,
            },
    ;
}

/// Renders the terminal report.
pub struct TerminalReportGenerator;

/// Renders the Markdown report.
pub struct MarkdownReportGenerator;

impl ReportGenerator for TerminalReportGenerator {
    open spec fn rendered(&self, p: ProjectModel) -> Seq<char> {
        terminal_report(p)
    }

    fn generate(&self, analysis: &ProjectAnalysis) -> (r: Result<String, RustScopeError>) {
        match validate_analysis(analysis) {
            Err(e) => Err(e),
            Ok(()) => Ok(generate_terminal_report(analysis)),
        }
    }
}

impl ReportGenerator for MarkdownReportGenerator {
    open spec fn rendered(&self, p: ProjectModel) -> Seq<char> {
        markdown_report(p)
    }

    fn generate(&self, analysis: &ProjectAnalysis) -> (r: Result<String, RustScopeError>) {
        match validate_analysis(analysis) {
            Err(e) => Err(e),
            Ok(()) => Ok(render_markdown_report(analysis)),
        }
    }
}

// ---------------------------------------------------------------- laws

/// `w` occurs in `text` at some position.
pub open spec fn contains_text(text: Seq<char>, w: Seq<char>) -> bool {
    exists|i: int| 0 <= i && i + w.len() <= text.len() && #[trigger] text.subrange(i, i + w.len()) == w
}

pub proof fn lemma_contains_left(x: Seq<char>, y: Seq<char>, w: Seq<char>)
    requires
        contains_text(x, w),
    ensures
        contains_text(x + y, w),
{
    let i = choose|i: int| 0 <= i && i + w.len() <= x.len() && #[trigger] x.subrange(i, i + w.len()) == w;
    assert((x + y).subrange(i, i + w.len()) =~= x.subrange(i, i + w.len()));
}

pub proof fn lemma_contains_right(x: Seq<char>, y: Seq<char>, w: Seq<char>)
    requires
        contains_text(y, w),
    ensures
        contains_text(x + y, w),
{
    let i = choose|i: int| 0 <= i && i + w.len() <= y.len() && #[trigger] y.subrange(i, i + w.len()) == w;
    assert((x + y).subrange(x.len() + i, x.len() + i + w.len()) =~= y.subrange(i, i + w.len()));
}

proof fn lemma_contains_line(x: Seq<char>, row: Seq<char>)
    requires
        x.len() > 0,
        x.last() == '\n',
    ensures
        contains_text(x + row, "\n"@ + row),
{
    reveal_strlit("\n");
    let w = "\n"@ + row;
    assert((x + row).subrange(x.len() - 1, x.len() - 1 + w.len()) =~= w);
}

/// Row `k` of the Markdown table of top functions: rank, name, file, then
/// the line under `Line` and the complexity under `Complexity`.
pub open spec fn markdown_row(k: int, f: ComplexityModel) -> Seq<char> {
    "| "@ + num(k) + " | "@ + f.name + " | "@ + f.file + " | "@ + num(f.line as int) + " | "@ + num(
        f.complexity as int,
    ) + " |\n"@
}

/// Line `k` of the terminal list of top functions: the rank `k`, the name
/// padded to 20 characters, `file:line` and the complexity.
pub open spec fn terminal_row(k: int, f: ComplexityModel) -> Seq<char> {
    num(k) + ". "@ + pad_right(f.name, 20) + " "@ + f.file + ":"@ + num(f.line as int) + "    complexity: "@
        + num(f.complexity as int) + "\n"@
}

/// When `rows(m)` extends `rows(m - 1)` by the line `row(m)` for each `m`
/// up to `n`, every `row(k)` occurs on a line of its own after `lead`.
#[verifier::spinoff_prover]
pub proof fn lemma_rows_contain(
    lead: Seq<char>,
    rows: spec_fn(int) -> Seq<char>,
    row: spec_fn(int) -> Seq<char>,
    n: int,
    k: int,
)
    requires
        1 <= k <= n,
        lead.len() > 0,
        lead.last() == '\n',
        rows(0) == Seq::<char>::empty(),
        forall|m: int| 1 <= m <= n ==> #[trigger] rows(m) == rows(m - 1) + row(m),
        forall|m: int| 1 <= m <= n ==> (#[trigger] row(m)).len() > 0 && row(m).last() == '\n',
    ensures
        contains_text(lead + rows(n), "\n"@ + row(k)),
    decreases n,
{
    let before = lead + rows(n - 1);
    assert(rows(n) == rows(n - 1) + row(n));
    assert(lead + rows(n) =~= before + row(n));
    if k == n {
        if n > 1 {
            assert(rows(n - 1) == rows(n - 2) + row(n - 1));
            assert(row(n - 1).len() > 0);
            assert(rows(n - 1).last() == row(n - 1).last());
        } else {
            assert(before =~= lead);
        }
        lemma_contains_line(before, row(n));
    } else {
        lemma_rows_contain(lead, rows, row, n - 1, k);
        lemma_contains_left(before, row(n), "\n"@ + row(k));
    }
}

proof fn lemma_markdown_rows_step(top: Seq<ComplexityModel>, n: int)
    requires
        1 <= n <= top.len(),
    ensures
        markdown_function_rows(top, n) == markdown_function_rows(top, n - 1) + markdown_row(n, top[n - 1]),
        markdown_row(n, top[n - 1]).len() > 0,
        markdown_row(n, top[n - 1]).last() == '\n',
{
    let tail = " |\n"@;
    reveal_strlit(" |\n");
    assert(markdown_function_rows(top, n) =~= markdown_function_rows(top, n - 1) + markdown_row(n, top[n - 1]));
    assert(markdown_row(n, top[n - 1]).last() == tail.last());
}

proof fn lemma_terminal_rows_step(top: Seq<ComplexityModel>, n: int)
    requires
        1 <= n <= top.len(),
    ensures
        terminal_function_rows(top, n) == terminal_function_rows(top, n - 1) + terminal_row(n, top[n - 1]),
        terminal_row(n, top[n - 1]).len() > 0,
        terminal_row(n, top[n - 1]).last() == '\n',
{
    reveal_strlit("\n");
    assert(terminal_function_rows(top, n) =~= terminal_function_rows(top, n - 1) + terminal_row(n, top[n - 1]));
}

/// The line of the terminal report for one dependency edge.
pub open spec fn arrow_row(d: DependencyModel) -> Seq<char> {
    d.from + " -> "@ + d.to + "\n"@
}

/// The row of the Markdown table for one dependency edge.
pub open spec fn markdown_dependency_row(d: DependencyModel) -> Seq<char> {
    "| "@ + d.from + " | "@ + d.to + " |\n"@
}

proof fn lemma_arrow_rows_step(deps: Seq<DependencyModel>, n: int)
    requires
        1 <= n <= deps.len(),
    ensures
        arrow_rows(deps, n) == arrow_rows(deps, n - 1) + arrow_row(deps[n - 1]),
        arrow_row(deps[n - 1]).len() > 0,
        arrow_row(deps[n - 1]).last() == '\n',
{
    reveal_strlit("\n");
    assert(arrow_rows(deps, n) =~= arrow_rows(deps, n - 1) + arrow_row(deps[n - 1]));
}

proof fn lemma_markdown_dependency_step(deps: Seq<DependencyModel>, n: int)
    requires
        1 <= n <= deps.len(),
    ensures
        markdown_dependency_rows(deps, n) == markdown_dependency_rows(deps, n - 1) + markdown_dependency_row(
            deps[n - 1],
        ),
        markdown_dependency_row(deps[n - 1]).len() > 0,
        markdown_dependency_row(deps[n - 1]).last() == '\n',
{
    let tail = " |\n"@;
    reveal_strlit(" |\n");
    assert(markdown_dependency_rows(deps, n) =~= markdown_dependency_rows(deps, n - 1)
        + markdown_dependency_row(deps[n - 1]));
    assert(markdown_dependency_row(deps[n - 1]).last() == tail.last());
}

/// The Markdown report lists each of the top functions (most complex
/// first) on a line of its own: the `k`-th one in the row that starts
/// with rank `k` and gives its name, file, line and complexity in the
/// order of the table's header.
#[verifier::spinoff_prover]
pub proof fn law_markdown_rows(p: ProjectModel)
    ensures
        forall|k: int|
            1 <= k <= top_functions(p.function_complexities, 5).len() ==> contains_text(
                markdown_report(p),
                "\n"@ + #[trigger] markdown_row(k, top_functions(p.function_complexities, 5)[k - 1]),
            ),
{
    let top = top_functions(p.function_complexities, 5);
    if top.len() > 0 {
        let header = "| Rank | Function | File | Line | Complexity |\n|---:|---|---|---:|---:|\n"@;
        reveal_strlit("| Rank | Function | File | Line | Complexity |\n|---:|---|---|---:|---:|\n");
        let lead = markdown_head(p) + markdown_items(p) + "## Top Complex Functions\n\n"@ + header;
        let rows = markdown_function_rows(top, top.len() as int);
        let rest = "\n"@ + "## Module Dependencies\n\n"@ + (if p.dependencies.len() == 0 {
            "None detected.\n"@
        } else {
            "| From | To |\n|---|---|\n"@ + markdown_dependency_rows(p.dependencies, p.dependencies.len() as int)
        });
        assert(lead.last() == header.last());
        assert(markdown_report(p) =~= (lead + rows) + rest);
        let rows_f = |m: int| markdown_function_rows(top, m);
        let row_f = |m: int| markdown_row(m, top[m - 1]);
        assert forall|m: int| 1 <= m <= top.len() implies #[trigger] rows_f(m) == rows_f(m - 1) + row_f(m) by {
            lemma_markdown_rows_step(top, m);
        }
        assert forall|m: int| 1 <= m <= top.len() implies (#[trigger] row_f(m)).len() > 0 && row_f(m).last()
            == '\n' by {
            lemma_markdown_rows_step(top, m);
        }
        assert(rows_f(0) =~= Seq::<char>::empty());
        assert forall|k: int| 1 <= k <= top.len() implies contains_text(
            markdown_report(p),
            "\n"@ + #[trigger] markdown_row(k, top[k - 1]),
        ) by {
            lemma_rows_contain(lead, rows_f, row_f, top.len() as int, k);
            lemma_contains_left(lead + rows, rest, "\n"@ + markdown_row(k, top[k - 1]));
        }
    }
}

/// The terminal report lists each of the top functions (most complex
/// first) on a line of its own, numbered from 1: the `k`-th one on the
/// line that starts with `k.`.
#[verifier::spinoff_prover]
pub proof fn law_terminal_rows(p: ProjectModel)
    ensures
        forall|k: int|
            1 <= k <= top_functions(p.function_complexities, 5).len() ==> contains_text(
                terminal_report(p),
                "\n"@ + #[trigger] terminal_row(k, top_functions(p.function_complexities, 5)[k - 1]),
            ),
{
    let top = top_functions(p.function_complexities, 5);
    if top.len() > 0 {
        let title = "Top Complex Functions:\n"@;
        reveal_strlit("Top Complex Functions:\n");
        let lead = terminal_header(p) + terminal_metrics(p) + terminal_items(p) + title;
        let rows = terminal_function_rows(top, top.len() as int);
        let rest = "\nModule Dependencies:\n"@ + (if p.dependencies.len() == 0 {
            "None detected.\n"@
        } else {
            arrow_rows(p.dependencies, p.dependencies.len() as int)
        });
        assert(lead.last() == title.last());
        assert(terminal_report(p) =~= (lead + rows) + rest);
        let rows_f = |m: int| terminal_function_rows(top, m);
        let row_f = |m: int| terminal_row(m, top[m - 1]);
        assert forall|m: int| 1 <= m <= top.len() implies #[trigger] rows_f(m) == rows_f(m - 1) + row_f(m) by {
            lemma_terminal_rows_step(top, m);
        }
        assert forall|m: int| 1 <= m <= top.len() implies (#[trigger] row_f(m)).len() > 0 && row_f(m).last()
            == '\n' by {
            lemma_terminal_rows_step(top, m);
        }
        assert(rows_f(0) =~= Seq::<char>::empty());
        assert forall|k: int| 1 <= k <= top.len() implies contains_text(
            terminal_report(p),
            "\n"@ + #[trigger] terminal_row(k, top[k - 1]),
        ) by {
            lemma_rows_contain(lead, rows_f, row_f, top.len() as int, k);
            lemma_contains_left(lead + rows, rest, "\n"@ + terminal_row(k, top[k - 1]));
        }
    }
}

/// Both reports list every dependency edge, in order, on a line of its
/// own: `from -> to` in the terminal report and `| from | to |` in the
/// Markdown table.
#[verifier::spinoff_prover]
pub proof fn law_dependency_rows(p: ProjectModel)
    ensures
        forall|k: int|
            0 <= k < p.dependencies.len() ==> contains_text(
                terminal_report(p),
                "\n"@ + #[trigger] arrow_row(p.dependencies[k]),
            ),
        forall|k: int|
            0 <= k < p.dependencies.len() ==> contains_text(
                markdown_report(p),
                "\n"@ + #[trigger] markdown_dependency_row(p.dependencies[k]),
            ),
{
    let deps = p.dependencies;
    let top = top_functions(p.function_complexities, 5);
    if deps.len() > 0 {
        let title = "\nModule Dependencies:\n"@;
        reveal_strlit("\nModule Dependencies:\n");
        let lead = terminal_header(p) + terminal_metrics(p) + terminal_items(p) + "Top Complex Functions:\n"@ + (
        if top.len() == 0 {
            "No functions found.\n"@
        } else {
            terminal_function_rows(top, top.len() as int)
        }) + title;
        assert(lead.last() == title.last());
        assert(terminal_report(p) =~= lead + arrow_rows(deps, deps.len() as int));
        let rows_f = |m: int| arrow_rows(deps, m);
        let row_f = |m: int| arrow_row(deps[m - 1]);
        assert forall|m: int| 1 <= m <= deps.len() implies #[trigger] rows_f(m) == rows_f(m - 1) + row_f(m) by {
            lemma_arrow_rows_step(deps, m);
        }
        assert forall|m: int| 1 <= m <= deps.len() implies (#[trigger] row_f(m)).len() > 0 && row_f(m).last()
            == '\n' by {
            lemma_arrow_rows_step(deps, m);
        }
        assert(rows_f(0) =~= Seq::<char>::empty());
        assert forall|k: int| 0 <= k < deps.len() implies contains_text(
            terminal_report(p),
            "\n"@ + #[trigger] arrow_row(deps[k]),
        ) by {
            lemma_rows_contain(lead, rows_f, row_f, deps.len() as int, k + 1);
        }
        let table = "| From | To |\n|---|---|\n"@;
        reveal_strlit("| From | To |\n|---|---|\n");
        let mlead = markdown_head(p) + markdown_items(p) + "## Top Complex Functions\n\n"@ + (if top.len() == 0 {
            "None detected.\n\n"@
        } else {
            "| Rank | Function | File | Line | Complexity |\n|---:|---|---|---:|---:|\n"@ + markdown_function_rows(
                top,
                top.len() as int,
            ) + "\n"@
        }) + "## Module Dependencies\n\n"@ + table;
        assert(mlead.last() == table.last());
        assert(markdown_report(p) =~= mlead + markdown_dependency_rows(deps, deps.len() as int));
        let mrows_f = |m: int| markdown_dependency_rows(deps, m);
        let mrow_f = |m: int| markdown_dependency_row(deps[m - 1]);
        assert forall|m: int| 1 <= m <= deps.len() implies #[trigger] mrows_f(m) == mrows_f(m - 1) + mrow_f(m) by {
            lemma_markdown_dependency_step(deps, m);
        }
        assert forall|m: int| 1 <= m <= deps.len() implies (#[trigger] mrow_f(m)).len() > 0 && mrow_f(m).last()
            == '\n' by {
            lemma_markdown_dependency_step(deps, m);
        }
        assert(mrows_f(0) =~= Seq::<char>::empty());
        assert forall|k: int| 0 <= k < deps.len() implies contains_text(
            markdown_report(p),
            "\n"@ + #[trigger] markdown_dependency_row(deps[k]),
        ) by {
            lemma_rows_contain(mlead, mrows_f, mrow_f, deps.len() as int, k + 1);
        }
    }
}

/// The concatenation of `parts[i..j]`.
pub open spec fn joined(parts: Seq<Seq<char>>, i: int, j: int) -> Seq<char>
    decreases j - i,
{
    if j <= i {
        seq![]
    } else {
        joined(parts, i, j - 1) + parts[j - 1]
    }
}

proof fn lemma_joined_split(parts: Seq<Seq<char>>, i: int, j: int, k: int)
    requires
        i <= j <= k,
    ensures
        joined(parts, i, k) == joined(parts, i, j) + joined(parts, j, k),
    decreases k - j,
{
    if j == k {
        assert(joined(parts, i, j) + joined(parts, j, k) =~= joined(parts, i, j));
    } else {
        lemma_joined_split(parts, i, j, k - 1);
        assert(joined(parts, i, j) + joined(parts, j, k - 1) + parts[k - 1] =~= joined(parts, i, j) + (
        joined(parts, j, k - 1) + parts[k - 1]));
    }
}

/// Consecutive parts of a concatenation occur in it.
pub proof fn lemma_joined_contains(parts: Seq<Seq<char>>, i: int, j: int)
    requires
        0 <= i <= j <= parts.len(),
    ensures
        contains_text(joined(parts, 0, parts.len() as int), joined(parts, i, j)),
{
    lemma_joined_split(parts, 0, i, parts.len() as int);
    lemma_joined_split(parts, i, j, parts.len() as int);
    let a = joined(parts, 0, i);
    let w = joined(parts, i, j);
    let b = joined(parts, j, parts.len() as int);
    assert(joined(parts, 0, parts.len() as int) =~= a + w + b);
    assert((a + w + b).subrange(a.len() as int, (a.len() + w.len()) as int) =~= w);
}

pub proof fn lemma_joined_three(parts: Seq<Seq<char>>, i: int)
    ensures
        joined(parts, i, i + 3) == parts[i] + parts[i + 1] + parts[i + 2],
{
    assert(joined(parts, i, i) == Seq::<char>::empty());
    assert(joined(parts, i, i + 1) =~= parts[i]);
    assert(joined(parts, i, i + 2) == joined(parts, i, i + 1) + parts[i + 1]);
}

/// Each count of the terminal report stands between its own label and the
/// next one: the project path, the number of files, the four line counts
/// and the six item counts, each under the right name.
#[verifier::spinoff_prover]
pub proof fn law_terminal_counts(p: ProjectModel)
    ensures
        contains_text(terminal_report(p), "RustScope Analysis Report\n=========================\n\nProject: "@ + p.project_path + "\n\nFiles analyzed: "@),
        contains_text(terminal_report(p), "\n\nFiles analyzed: "@ + num(p.files_analyzed as int) + "\n\n"@),
        contains_text(terminal_report(p), "Line Metrics:\n- Total lines: "@ + num(p.line_metrics.total_lines as int) + "\n- Code lines: "@),
        contains_text(terminal_report(p), "\n- Code lines: "@ + num(p.line_metrics.code_lines as int) + "\n- Comment lines: "@),
        contains_text(terminal_report(p), "\n- Comment lines: "@ + num(p.line_metrics.comment_lines as int) + "\n- Blank lines: "@),
        contains_text(terminal_report(p), "\n- Blank lines: "@ + num(p.line_metrics.blank_lines as int) + "\n\n"@),
        contains_text(terminal_report(p), "Code Items:\n- Functions: "@ + num(kind_count(p.items, ItemKind::Function) as int) + "\n- Structs: "@),
        contains_text(terminal_report(p), "\n- Structs: "@ + num(kind_count(p.items, ItemKind::Struct) as int) + "\n- Enums: "@),
        contains_text(terminal_report(p), "\n- Enums: "@ + num(kind_count(p.items, ItemKind::Enum) as int) + "\n- Traits: "@),
        contains_text(terminal_report(p), "\n- Traits: "@ + num(kind_count(p.items, ItemKind::Trait) as int) + "\n- Modules: "@),
        contains_text(terminal_report(p), "\n- Modules: "@ + num(kind_count(p.items, ItemKind::Module) as int) + "\n- Impl blocks: "@),
        contains_text(terminal_report(p), "\n- Impl blocks: "@ + num(kind_count(p.items, ItemKind::Impl) as int) + "\n\n"@),
{
    let parts0 = seq![
        "RustScope Analysis Report\n=========================\n\nProject: "@,
        p.project_path,
        "\n\nFiles analyzed: "@,
        num(p.files_analyzed as int),
        "\n\n"@,
    ];
    assert(terminal_header(p) =~= joined(parts0, 0, 5)) by {
        reveal_with_fuel(joined, 6);
    }
    lemma_joined_contains(parts0, 0, 3);
    lemma_joined_three(parts0, 0);
    lemma_contains_left(terminal_header(p), terminal_metrics(p), "RustScope Analysis Report\n=========================\n\nProject: "@ + p.project_path + "\n\nFiles analyzed: "@);
    lemma_contains_left(terminal_header(p) + terminal_metrics(p), terminal_items(p), "RustScope Analysis Report\n=========================\n\nProject: "@ + p.project_path + "\n\nFiles analyzed: "@);
    lemma_contains_left(terminal_header(p) + terminal_metrics(p) + terminal_items(p), terminal_tail(p), "RustScope Analysis Report\n=========================\n\nProject: "@ + p.project_path + "\n\nFiles analyzed: "@);
    lemma_joined_contains(parts0, 2, 5);
    lemma_joined_three(parts0, 2);
    lemma_contains_left(terminal_header(p), terminal_metrics(p), "\n\nFiles analyzed: "@ + num(p.files_analyzed as int) + "\n\n"@);
    lemma_contains_left(terminal_header(p) + terminal_metrics(p), terminal_items(p), "\n\nFiles analyzed: "@ + num(p.files_analyzed as int) + "\n\n"@);
    lemma_contains_left(terminal_header(p) + terminal_metrics(p) + terminal_items(p), terminal_tail(p), "\n\nFiles analyzed: "@ + num(p.files_analyzed as int) + "\n\n"@);
    let parts1 = seq![
        "Line Metrics:\n- Total lines: "@,
        num(p.line_metrics.total_lines as int),
        "\n- Code lines: "@,
        num(p.line_metrics.code_lines as int),
        "\n- Comment lines: "@,
        num(p.line_metrics.comment_lines as int),
        "\n- Blank lines: "@,
        num(p.line_metrics.blank_lines as int),
        "\n\n"@,
    ];
    assert(terminal_metrics(p) =~= joined(parts1, 0, 9)) by {
        reveal_with_fuel(joined, 10);
    }
    lemma_joined_contains(parts1, 0, 3);
    lemma_joined_three(parts1, 0);
    lemma_contains_right(terminal_header(p), terminal_metrics(p), "Line Metrics:\n- Total lines: "@ + num(p.line_metrics.total_lines as int) + "\n- Code lines: "@);
    lemma_contains_left(terminal_header(p) + terminal_metrics(p), terminal_items(p), "Line Metrics:\n- Total lines: "@ + num(p.line_metrics.total_lines as int) + "\n- Code lines: "@);
    lemma_contains_left(terminal_header(p) + terminal_metrics(p) + terminal_items(p), terminal_tail(p), "Line Metrics:\n- Total lines: "@ + num(p.line_metrics.total_lines as int) + "\n- Code lines: "@);
    lemma_joined_contains(parts1, 2, 5);
    lemma_joined_three(parts1, 2);
    lemma_contains_right(terminal_header(p), terminal_metrics(p), "\n- Code lines: "@ + num(p.line_metrics.code_lines as int) + "\n- Comment lines: "@);
    lemma_contains_left(terminal_header(p) + terminal_metrics(p), terminal_items(p), "\n- Code lines: "@ + num(p.line_metrics.code_lines as int) + "\n- Comment lines: "@);
    lemma_contains_left(terminal_header(p) + terminal_metrics(p) + terminal_items(p), terminal_tail(p), "\n- Code lines: "@ + num(p.line_metrics.code_lines as int) + "\n- Comment lines: "@);
    lemma_joined_contains(parts1, 4, 7);
    lemma_joined_three(parts1, 4);
    lemma_contains_right(terminal_header(p), terminal_metrics(p), "\n- Comment lines: "@ + num(p.line_metrics.comment_lines as int) + "\n- Blank lines: "@);
    lemma_contains_left(terminal_header(p) + terminal_metrics(p), terminal_items(p), "\n- Comment lines: "@ + num(p.line_metrics.comment_lines as int) + "\n- Blank lines: "@);
    lemma_contains_left(terminal_header(p) + terminal_metrics(p) + terminal_items(p), terminal_tail(p), "\n- Comment lines: "@ + num(p.line_metrics.comment_lines as int) + "\n- Blank lines: "@);
    lemma_joined_contains(parts1, 6, 9);
    lemma_joined_three(parts1, 6);
    lemma_contains_right(terminal_header(p), terminal_metrics(p), "\n- Blank lines: "@ + num(p.line_metrics.blank_lines as int) + "\n\n"@);
    lemma_contains_left(terminal_header(p) + terminal_metrics(p), terminal_items(p), "\n- Blank lines: "@ + num(p.line_metrics.blank_lines as int) + "\n\n"@);
    lemma_contains_left(terminal_header(p) + terminal_metrics(p) + terminal_items(p), terminal_tail(p), "\n- Blank lines: "@ + num(p.line_metrics.blank_lines as int) + "\n\n"@);
    let parts2 = seq![
        "Code Items:\n- Functions: "@,
        num(kind_count(p.items, ItemKind::Function) as int),
        "\n- Structs: "@,
        num(kind_count(p.items, ItemKind::Struct) as int),
        "\n- Enums: "@,
        num(kind_count(p.items, ItemKind::Enum) as int),
        "\n- Traits: "@,
        num(kind_count(p.items, ItemKind::Trait) as int),
        "\n- Modules: "@,
        num(kind_count(p.items, ItemKind::Module) as int),
        "\n- Impl blocks: "@,
        num(kind_count(p.items, ItemKind::Impl) as int),
        "\n\n"@,
    ];
    assert(terminal_items(p) =~= joined(parts2, 0, 13)) by {
        reveal_with_fuel(joined, 14);
    }
    lemma_joined_contains(parts2, 0, 3);
    lemma_joined_three(parts2, 0);
    lemma_contains_right(terminal_header(p) + terminal_metrics(p), terminal_items(p), "Code Items:\n- Functions: "@ + num(kind_count(p.items, ItemKind::Function) as int) + "\n- Structs: "@);
    lemma_contains_left(terminal_header(p) + terminal_metrics(p) + terminal_items(p), terminal_tail(p), "Code Items:\n- Functions: "@ + num(kind_count(p.items, ItemKind::Function) as int) + "\n- Structs: "@);
    lemma_joined_contains(parts2, 2, 5);
    lemma_joined_three(parts2, 2);
    lemma_contains_right(terminal_header(p) + terminal_metrics(p), terminal_items(p), "\n- Structs: "@ + num(kind_count(p.items, ItemKind::Struct) as int) + "\n- Enums: "@);
    lemma_contains_left(terminal_header(p) + terminal_metrics(p) + terminal_items(p), terminal_tail(p), "\n- Structs: "@ + num(kind_count(p.items, ItemKind::Struct) as int) + "\n- Enums: "@);
    lemma_joined_contains(parts2, 4, 7);
    lemma_joined_three(parts2, 4);
    lemma_contains_right(terminal_header(p) + terminal_metrics(p), terminal_items(p), "\n- Enums: "@ + num(kind_count(p.items, ItemKind::Enum) as int) + "\n- Traits: "@);
    lemma_contains_left(terminal_header(p) + terminal_metrics(p) + terminal_items(p), terminal_tail(p), "\n- Enums: "@ + num(kind_count(p.items, ItemKind::Enum) as int) + "\n- Traits: "@);
    lemma_joined_contains(parts2, 6, 9);
    lemma_joined_three(parts2, 6);
    lemma_contains_right(terminal_header(p) + terminal_metrics(p), terminal_items(p), "\n- Traits: "@ + num(kind_count(p.items, ItemKind::Trait) as int) + "\n- Modules: "@);
    lemma_contains_left(terminal_header(p) + terminal_metrics(p) + terminal_items(p), terminal_tail(p), "\n- Traits: "@ + num(kind_count(p.items, ItemKind::Trait) as int) + "\n- Modules: "@);
    lemma_joined_contains(parts2, 8, 11);
    lemma_joined_three(parts2, 8);
    lemma_contains_right(terminal_header(p) + terminal_metrics(p), terminal_items(p), "\n- Modules: "@ + num(kind_count(p.items, ItemKind::Module) as int) + "\n- Impl blocks: "@);
    lemma_contains_left(terminal_header(p) + terminal_metrics(p) + terminal_items(p), terminal_tail(p), "\n- Modules: "@ + num(kind_count(p.items, ItemKind::Module) as int) + "\n- Impl blocks: "@);
    lemma_joined_contains(parts2, 10, 13);
    lemma_joined_three(parts2, 10);
    lemma_contains_right(terminal_header(p) + terminal_metrics(p), terminal_items(p), "\n- Impl blocks: "@ + num(kind_count(p.items, ItemKind::Impl) as int) + "\n\n"@);
    lemma_contains_left(terminal_header(p) + terminal_metrics(p) + terminal_items(p), terminal_tail(p), "\n- Impl blocks: "@ + num(kind_count(p.items, ItemKind::Impl) as int) + "\n\n"@);
}

/// Each count of the Markdown report stands in the table row of its own
/// label: the project path, the number of files, the four line counts and
/// the six item counts, each under the right name.
#[verifier::spinoff_prover]
pub proof fn law_markdown_counts(p: ProjectModel)
    ensures
        contains_text(markdown_report(p), "# RustScope Analysis Report\n\n## Project Summary\n\n- Project Path: "@ + p.project_path + "\n- Files Analyzed: "@),
        contains_text(markdown_report(p), "\n- Files Analyzed: "@ + num(p.files_analyzed as int) + "\n\n"@),
        contains_text(markdown_report(p), "## Line Metrics\n\n| Metric | Count |\n|---|---:|\n| Total Lines | "@ + num(p.line_metrics.total_lines as int) + " |\n| Code Lines | "@),
        contains_text(markdown_report(p), " |\n| Code Lines | "@ + num(p.line_metrics.code_lines as int) + " |\n| Comment Lines | "@),
        contains_text(markdown_report(p), " |\n| Comment Lines | "@ + num(p.line_metrics.comment_lines as int) + " |\n| Blank Lines | "@),
        contains_text(markdown_report(p), " |\n| Blank Lines | "@ + num(p.line_metrics.blank_lines as int) + " |\n\n"@),
        contains_text(markdown_report(p), "## Code Items\n\n| Item | Count |\n|---|---:|\n| Functions | "@ + num(kind_count(p.items, ItemKind::Function) as int) + " |\n| Structs | "@),
        contains_text(markdown_report(p), " |\n| Structs | "@ + num(kind_count(p.items, ItemKind::Struct) as int) + " |\n| Enums | "@),
        contains_text(markdown_report(p), " |\n| Enums | "@ + num(kind_count(p.items, ItemKind::Enum) as int) + " |\n| Traits | "@),
        contains_text(markdown_report(p), " |\n| Traits | "@ + num(kind_count(p.items, ItemKind::Trait) as int) + " |\n| Modules | "@),
        contains_text(markdown_report(p), " |\n| Modules | "@ + num(kind_count(p.items, ItemKind::Module) as int) + " |\n| Impl Blocks | "@),
        contains_text(markdown_report(p), " |\n| Impl Blocks | "@ + num(kind_count(p.items, ItemKind::Impl) as int) + " |\n\n"@),
{
    let parts0 = seq![
        "# RustScope Analysis Report\n\n## Project Summary\n\n- Project Path: "@,
        p.project_path,
        "\n- Files Analyzed: "@,
        num(p.files_analyzed as int),
        "\n\n"@,
        "## Line Metrics\n\n| Metric | Count |\n|---|---:|\n| Total Lines | "@,
        num(p.line_metrics.total_lines as int),
        " |\n| Code Lines | "@,
        num(p.line_metrics.code_lines as int),
        " |\n| Comment Lines | "@,
        num(p.line_metrics.comment_lines as int),
        " |\n| Blank Lines | "@,
        num(p.line_metrics.blank_lines as int),
        " |\n\n"@,
    ];
    assert(markdown_head(p) =~= joined(parts0, 0, 14)) by {
        reveal_with_fuel(joined, 15);
    }
    lemma_joined_contains(parts0, 0, 3);
    lemma_joined_three(parts0, 0);
    lemma_contains_left(markdown_head(p), markdown_items(p), "# RustScope Analysis Report\n\n## Project Summary\n\n- Project Path: "@ + p.project_path + "\n- Files Analyzed: "@);
    lemma_contains_left(markdown_head(p) + markdown_items(p), markdown_tail(p), "# RustScope Analysis Report\n\n## Project Summary\n\n- Project Path: "@ + p.project_path + "\n- Files Analyzed: "@);
    lemma_joined_contains(parts0, 2, 5);
    lemma_joined_three(parts0, 2);
    lemma_contains_left(markdown_head(p), markdown_items(p), "\n- Files Analyzed: "@ + num(p.files_analyzed as int) + "\n\n"@);
    lemma_contains_left(markdown_head(p) + markdown_items(p), markdown_tail(p), "\n- Files Analyzed: "@ + num(p.files_analyzed as int) + "\n\n"@);
    lemma_joined_contains(parts0, 5, 8);
    lemma_joined_three(parts0, 5);
    lemma_contains_left(markdown_head(p), markdown_items(p), "## Line Metrics\n\n| Metric | Count |\n|---|---:|\n| Total Lines | "@ + num(p.line_metrics.total_lines as int) + " |\n| Code Lines | "@);
    lemma_contains_left(markdown_head(p) + markdown_items(p), markdown_tail(p), "## Line Metrics\n\n| Metric | Count |\n|---|---:|\n| Total Lines | "@ + num(p.line_metrics.total_lines as int) + " |\n| Code Lines | "@);
    lemma_joined_contains(parts0, 7, 10);
    lemma_joined_three(parts0, 7);
    lemma_contains_left(markdown_head(p), markdown_items(p), " |\n| Code Lines | "@ + num(p.line_metrics.code_lines as int) + " |\n| Comment Lines | "@);
    lemma_contains_left(markdown_head(p) + markdown_items(p), markdown_tail(p), " |\n| Code Lines | "@ + num(p.line_metrics.code_lines as int) + " |\n| Comment Lines | "@);
    lemma_joined_contains(parts0, 9, 12);
    lemma_joined_three(parts0, 9);
    lemma_contains_left(markdown_head(p), markdown_items(p), " |\n| Comment Lines | "@ + num(p.line_metrics.comment_lines as int) + " |\n| Blank Lines | "@);
    lemma_contains_left(markdown_head(p) + markdown_items(p), markdown_tail(p), " |\n| Comment Lines | "@ + num(p.line_metrics.comment_lines as int) + " |\n| Blank Lines | "@);
    lemma_joined_contains(parts0, 11, 14);
    lemma_joined_three(parts0, 11);
    lemma_contains_left(markdown_head(p), markdown_items(p), " |\n| Blank Lines | "@ + num(p.line_metrics.blank_lines as int) + " |\n\n"@);
    lemma_contains_left(markdown_head(p) + markdown_items(p), markdown_tail(p), " |\n| Blank Lines | "@ + num(p.line_metrics.blank_lines as int) + " |\n\n"@);
    let parts1 = seq![
        "## Code Items\n\n| Item | Count |\n|---|---:|\n| Functions | "@,
        num(kind_count(p.items, ItemKind::Function) as int),
        " |\n| Structs | "@,
        num(kind_count(p.items, ItemKind::Struct) as int),
        " |\n| Enums | "@,
        num(kind_count(p.items, ItemKind::Enum) as int),
        " |\n| Traits | "@,
        num(kind_count(p.items, ItemKind::Trait) as int),
        " |\n| Modules | "@,
        num(kind_count(p.items, ItemKind::Module) as int),
        " |\n| Impl Blocks | "@,
        num(kind_count(p.items, ItemKind::Impl) as int),
        " |\n\n"@,
    ];
    assert(markdown_items(p) =~= joined(parts1, 0, 13)) by {
        reveal_with_fuel(joined, 14);
    }
    lemma_joined_contains(parts1, 0, 3);
    lemma_joined_three(parts1, 0);
    lemma_contains_right(markdown_head(p), markdown_items(p), "## Code Items\n\n| Item | Count |\n|---|---:|\n| Functions | "@ + num(kind_count(p.items, ItemKind::Function) as int) + " |\n| Structs | "@);
    lemma_contains_left(markdown_head(p) + markdown_items(p), markdown_tail(p), "## Code Items\n\n| Item | Count |\n|---|---:|\n| Functions | "@ + num(kind_count(p.items, ItemKind::Function) as int) + " |\n| Structs | "@);
    lemma_joined_contains(parts1, 2, 5);
    lemma_joined_three(parts1, 2);
    lemma_contains_right(markdown_head(p), markdown_items(p), " |\n| Structs | "@ + num(kind_count(p.items, ItemKind::Struct) as int) + " |\n| Enums | "@);
    lemma_contains_left(markdown_head(p) + markdown_items(p), markdown_tail(p), " |\n| Structs | "@ + num(kind_count(p.items, ItemKind::Struct) as int) + " |\n| Enums | "@);
    lemma_joined_contains(parts1, 4, 7);
    lemma_joined_three(parts1, 4);
    lemma_contains_right(markdown_head(p), markdown_items(p), " |\n| Enums | "@ + num(kind_count(p.items, ItemKind::Enum) as int) + " |\n| Traits | "@);
    lemma_contains_left(markdown_head(p) + markdown_items(p), markdown_tail(p), " |\n| Enums | "@ + num(kind_count(p.items, ItemKind::Enum) as int) + " |\n| Traits | "@);
    lemma_joined_contains(parts1, 6, 9);
    lemma_joined_three(parts1, 6);
    lemma_contains_right(markdown_head(p), markdown_items(p), " |\n| Traits | "@ + num(kind_count(p.items, ItemKind::Trait) as int) + " |\n| Modules | "@);
    lemma_contains_left(markdown_head(p) + markdown_items(p), markdown_tail(p), " |\n| Traits | "@ + num(kind_count(p.items, ItemKind::Trait) as int) + " |\n| Modules | "@);
    lemma_joined_contains(parts1, 8, 11);
    lemma_joined_three(parts1, 8);
    lemma_contains_right(markdown_head(p), markdown_items(p), " |\n| Modules | "@ + num(kind_count(p.items, ItemKind::Module) as int) + " |\n| Impl Blocks | "@);
    lemma_contains_left(markdown_head(p) + markdown_items(p), markdown_tail(p), " |\n| Modules | "@ + num(kind_count(p.items, ItemKind::Module) as int) + " |\n| Impl Blocks | "@);
    lemma_joined_contains(parts1, 10, 13);
    lemma_joined_three(parts1, 10);
    lemma_contains_right(markdown_head(p), markdown_items(p), " |\n| Impl Blocks | "@ + num(kind_count(p.items, ItemKind::Impl) as int) + " |\n\n"@);
    lemma_contains_left(markdown_head(p) + markdown_items(p), markdown_tail(p), " |\n| Impl Blocks | "@ + num(kind_count(p.items, ItemKind::Impl) as int) + " |\n\n"@);
}

} // verus!
