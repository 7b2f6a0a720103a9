//! Putting per-file results together into a project analysis, in a fixed
//! order whatever order the files were analyzed in.
use vstd::prelude::*;
use crate::model::{
    CodeItem, CodeItemModel, ComplexityModel, DependencyEdge, DependencyModel, FileAnalysis,
    FileModel, FunctionComplexity, ProjectAnalysis, ProjectModel,
};
use crate::order::{
    compare_paths, compare_strings, lemma_keys_order, lemma_text_order, path_components,
    path_rank, text_lt, text_rank, keys_lt, Rank,
};
use crate::sort::{
    is_sorted, is_strictly_sorted, lemma_sorted_by_multiset, lemma_sorted_by_sorted,
    lemma_sorted_unique, sort_by_order, sorted_by, Order,
};
use crate::dependency::{dependencies_of, empty_use_message, parse_use_dependencies};
use crate::error::{ErrorModel, RustScopeError};
use crate::metrics::{
    calculate_function_complexities, calculate_line_metrics, function_complexities,
    lemma_class_counts, line_metrics_of,
};
use crate::model::{add_file_model, metrics_addable, metrics_sum, zero_metrics, LineMetrics};
use crate::parser::{code_items, parse_code_items};
use crate::text::{decimal, decimal_string, lemma_lines_size, lines};

verus! {

// ---------------------------------------------------------------- orders

/// Files by path.
pub struct ByPath;

/// Items and functions by file, then line, then name.
pub struct ByLocation;

/// Dependency edges by source, then target.
pub struct ByEndpoints;

/// Location order: file path first, then line, then name.
pub open spec fn location_before(
    file_a: Seq<char>,
    line_a: usize,
    name_a: Seq<char>,
    file_b: Seq<char>,
    line_b: usize,
    name_b: Seq<char>,
) -> bool {
    match path_rank(file_a, file_b) {
        Rank::Before => true,
        Rank::After => false,
        Rank::Same => line_a < line_b || (line_a == line_b && text_lt(name_a, name_b)),
    }
}

pub proof fn lemma_location_order(
    fa: Seq<char>,
    la: usize,
    na: Seq<char>,
    fb: Seq<char>,
    lb: usize,
    nb: Seq<char>,
    fc: Seq<char>,
    lc: usize,
    nc: Seq<char>,
)
    ensures
        !location_before(fa, la, na, fa, la, na),
        location_before(fa, la, na, fb, lb, nb) && location_before(fb, lb, nb, fc, lc, nc)
            ==> location_before(fa, la, na, fc, lc, nc),
        !location_before(fa, la, na, fb, lb, nb) && !location_before(fb, lb, nb, fc, lc, nc)
            ==> !location_before(fa, la, na, fc, lc, nc),
{
    let ka = path_components(fa);
    let kb = path_components(fb);
    let kc = path_components(fc);
    lemma_keys_order(ka, kb, kc);
    lemma_keys_order(kb, kc, ka);
    lemma_keys_order(kc, ka, kb);
    lemma_keys_order(ka, kc, kb);
    lemma_keys_order(kb, ka, kc);
    lemma_keys_order(kc, kb, ka);
    lemma_text_order(na, nb, nc);
    lemma_text_order(nb, nc, na);
    lemma_text_order(nc, na, nb);
    lemma_text_order(na, nc, nb);
    lemma_text_order(nb, na, nc);
    lemma_text_order(nc, nb, na);
}

fn location_less(fa: &str, la: usize, na: &str, fb: &str, lb: usize, nb: &str) -> (r: bool)
    ensures
        r == location_before(fa@, la, na@, fb@, lb, nb@),
{
    match compare_paths(fa, fb) {
        Rank::Before => true,
        Rank::After => false,
        Rank::Same => la < lb || (la == lb && compare_strings(na, nb) == Rank::Before),
    }
}

impl Order<FileAnalysis> for ByPath {
    open spec fn before(a: FileModel, b: FileModel) -> bool {
        keys_lt(path_components(a.path), path_components(b.path))
    }

    fn less(a: &FileAnalysis, b: &FileAnalysis) -> (r: bool) {
        compare_paths(a.path.as_str(), b.path.as_str()) == Rank::Before
    }

    proof fn lemma_strict_weak(a: FileModel, b: FileModel, c: FileModel) {
        let ka = path_components(a.path);
        let kb = path_components(b.path);
        let kc = path_components(c.path);
        lemma_keys_order(ka, kb, kc);
        lemma_keys_order(kb, kc, ka);
        lemma_keys_order(kc, ka, kb);
        lemma_keys_order(ka, kc, kb);
    }
}

impl Order<CodeItem> for ByLocation {
    open spec fn before(a: CodeItemModel, b: CodeItemModel) -> bool {
        location_before(a.file, a.line, a.name, b.file, b.line, b.name)
    }

    fn less(a: &CodeItem, b: &CodeItem) -> (r: bool) {
        location_less(a.file.as_str(), a.line, a.name.as_str(), b.file.as_str(), b.line, b.name.as_str())
    }

    proof fn lemma_strict_weak(a: CodeItemModel, b: CodeItemModel, c: CodeItemModel) {
        lemma_location_order(a.file, a.line, a.name, b.file, b.line, b.name, c.file, c.line, c.name);
    }
}

impl Order<FunctionComplexity> for ByLocation {
    open spec fn before(a: ComplexityModel, b: ComplexityModel) -> bool {
        location_before(a.file, a.line, a.name, b.file, b.line, b.name)
    }

    fn less(a: &FunctionComplexity, b: &FunctionComplexity) -> (r: bool) {
        location_less(a.file.as_str(), a.line, a.name.as_str(), b.file.as_str(), b.line, b.name.as_str())
    }

    proof fn lemma_strict_weak(a: ComplexityModel, b: ComplexityModel, c: ComplexityModel) {
        lemma_location_order(a.file, a.line, a.name, b.file, b.line, b.name, c.file, c.line, c.name);
    }
}

impl Order<DependencyEdge> for ByEndpoints {
    open spec fn before(a: DependencyModel, b: DependencyModel) -> bool {
        text_lt(a.from, b.from) || (a.from == b.from && text_lt(a.to, b.to))
    }

    fn less(a: &DependencyEdge, b: &DependencyEdge) -> (r: bool) {
        match compare_strings(a.from.as_str(), b.from.as_str()) {
            Rank::Before => true,
            Rank::After => false,
            Rank::Same => compare_strings(a.to.as_str(), b.to.as_str()) == Rank::Before,
        }
    }

    proof fn lemma_strict_weak(a: DependencyModel, b: DependencyModel, c: DependencyModel) {
        lemma_text_order(a.from, b.from, c.from);
        lemma_text_order(b.from, c.from, a.from);
        lemma_text_order(c.from, a.from, b.from);
        lemma_text_order(a.from, c.from, b.from);
        lemma_text_order(a.to, b.to, c.to);
        lemma_text_order(b.to, c.to, a.to);
        lemma_text_order(c.to, a.to, b.to);
        lemma_text_order(a.to, c.to, b.to);
    }
}

// ---------------------------------------------------------------- sorting

/// An analysis with files sorted by path, items and functions by location
/// and dependencies by endpoints; every sort is stable.
pub open spec fn sorted_analysis(p: ProjectModel) -> ProjectModel {
    ProjectModel {
        files: sorted_by::<FileAnalysis, ByPath>(p.files),
        items: sorted_by::<CodeItem, ByLocation>(p.items),
        function_complexities: sorted_by::<FunctionComplexity, ByLocation>(p.function_complexities),
        dependencies: sorted_by::<DependencyEdge, ByEndpoints>(p.dependencies),
        ..p
    }
}

/// Puts the results of an analysis into their fixed order.
pub fn sort_analysis(analysis: &mut ProjectAnalysis)
    ensures
        final(analysis)@ == sorted_analysis(old(analysis)@),
        is_sorted::<FileAnalysis, ByPath>(final(analysis)@.files),
        is_sorted::<CodeItem, ByLocation>(final(analysis)@.items),
        is_sorted::<FunctionComplexity, ByLocation>(final(analysis)@.function_complexities),
        is_sorted::<DependencyEdge, ByEndpoints>(final(analysis)@.dependencies),
        final(analysis)@.files.to_multiset() == old(analysis)@.files.to_multiset(),
        final(analysis)@.items.to_multiset() == old(analysis)@.items.to_multiset(),
        final(analysis)@.function_complexities.to_multiset() == old(analysis)@.function_complexities.to_multiset(),
        final(analysis)@.dependencies.to_multiset() == old(analysis)@.dependencies.to_multiset(),
{
    proof {
        let p = analysis@;
        lemma_sorted_by_sorted::<FileAnalysis, ByPath>(p.files);
        lemma_sorted_by_sorted::<CodeItem, ByLocation>(p.items);
        lemma_sorted_by_sorted::<FunctionComplexity, ByLocation>(p.function_complexities);
        lemma_sorted_by_sorted::<DependencyEdge, ByEndpoints>(p.dependencies);
        lemma_sorted_by_multiset::<FileAnalysis, ByPath>(p.files);
        lemma_sorted_by_multiset::<CodeItem, ByLocation>(p.items);
        lemma_sorted_by_multiset::<FunctionComplexity, ByLocation>(p.function_complexities);
        lemma_sorted_by_multiset::<DependencyEdge, ByEndpoints>(p.dependencies);
    }
    let mut files: Vec<FileAnalysis> = Vec::new();
    std::mem::swap(&mut files, &mut analysis.files);
    analysis.files = sort_by_order::<FileAnalysis, ByPath>(files);
    let mut items: Vec<CodeItem> = Vec::new();
    std::mem::swap(&mut items, &mut analysis.items);
    analysis.items = sort_by_order::<CodeItem, ByLocation>(items);
    let mut complexities: Vec<FunctionComplexity> = Vec::new();
    std::mem::swap(&mut complexities, &mut analysis.function_complexities);
    analysis.function_complexities = sort_by_order::<FunctionComplexity, ByLocation>(complexities);
    let mut dependencies: Vec<DependencyEdge> = Vec::new();
    std::mem::swap(&mut dependencies, &mut analysis.dependencies);
    analysis.dependencies = sort_by_order::<DependencyEdge, ByEndpoints>(dependencies);
}

// ---------------------------------------------------------------- files

/// A source file and its text.
pub struct SourceFile {
    pub path: String,
    pub content: String,
}

pub struct SourceModel {
    pub path: Seq<char>,
    pub content: Seq<char>,
}

impl View for SourceFile {
    type V = SourceModel;

    open spec fn view(&self) -> SourceModel {
        SourceModel { path: self.path@, content: self.content@ }
    }
}

impl DeepView for SourceFile {
    type V = SourceModel;

    open spec fn deep_view(&self) -> SourceModel {
        self@
    }
}

/// What one file yields: its line metrics, items, function complexities
/// and dependencies; `None` when a `use` names an empty path.
pub open spec fn file_model(path: Seq<char>, content: Seq<char>) -> Option<FileModel> {
    match dependencies_of(content, path) {
        None => None,
        Some(dependencies) => Some(
            FileModel {
                path,
                line_metrics: line_metrics_of(content),
                items: code_items(content, path),
                function_complexities: function_complexities(content, path),
                dependencies,
            },
        ),
    }
}

proof fn lemma_file_metrics_bound(content: Seq<char>)
    ensures
        line_metrics_of(content).total_lines <= content.len(),
        line_metrics_of(content).code_lines <= content.len(),
        line_metrics_of(content).comment_lines <= content.len(),
        line_metrics_of(content).blank_lines <= content.len(),
{
    lemma_lines_size(content);
    lemma_class_counts(lines(content), lines(content).len() as int);
}

/// Analyzes the text of one file.
pub fn analyze_file(path: String, content: &str) -> (r: Result<FileAnalysis, RustScopeError>)
    ensures
        match file_model(path@, content@) {
            Some(f) => r matches Ok(a) && a@ == f,
            None => r matches Err(e) && e@ == ErrorModel::Parse(empty_use_message()),
        },
{
    let line_metrics = calculate_line_metrics(content);
    let items = parse_code_items(content, path.as_str());
    let function_complexities = calculate_function_complexities(content, path.as_str());
    let dependencies = match parse_use_dependencies(content, path.as_str()) {
        Ok(d) => d,
        Err(e) => {
            return Err(e);
        },
    };
    Ok(FileAnalysis { path, line_metrics, items, function_complexities, dependencies })
}

// ---------------------------------------------------------------- assembling

/// A fresh analysis of `project_path` covering `file_count` files.
pub open spec fn new_project(project_path: Seq<char>, file_count: usize) -> ProjectModel {
    ProjectModel {
        project_path,
        files_analyzed: file_count,
        parallel_enabled: false,
        worker_threads: 1,
        files: seq![],
        line_metrics: zero_metrics(),
        items: seq![],
        function_complexities: seq![],
        dependencies: seq![],
    }
}

/// `p` after the results of `files` are added to it in order.
pub open spec fn collect_files(p: ProjectModel, files: Seq<FileModel>) -> ProjectModel
    decreases files.len(),
{
    if files.len() == 0 {
        p
    } else {
        add_file_model(collect_files(p, files.drop_last()), files.last())
    }
}

/// Which count of the line metrics.
pub enum MetricField {
    Total,
    Code,
    Comment,
    Blank,
}

pub open spec fn metric(m: LineMetrics, k: MetricField) -> int {
    match k {
        MetricField::Total => m.total_lines as int,
        MetricField::Code => m.code_lines as int,
        MetricField::Comment => m.comment_lines as int,
        MetricField::Blank => m.blank_lines as int,
    }
}

/// The sum of one count over files.
pub open spec fn metric_total(files: Seq<FileModel>, k: MetricField) -> int
    decreases files.len(),
{
    if files.len() == 0 {
        0
    } else {
        metric_total(files.drop_last(), k) + metric(files.last().line_metrics, k)
    }
}

/// Every count summed over `files` fits in a `usize`.
pub open spec fn metrics_fit(files: Seq<FileModel>) -> bool {
    &&& metric_total(files, MetricField::Total) <= usize::MAX
    &&& metric_total(files, MetricField::Code) <= usize::MAX
    &&& metric_total(files, MetricField::Comment) <= usize::MAX
    &&& metric_total(files, MetricField::Blank) <= usize::MAX
}

proof fn lemma_metric_total_prefix(files: Seq<FileModel>, n: int, k: MetricField)
    requires
        0 <= n <= files.len(),
    ensures
        0 <= metric_total(files.take(n), k) <= metric_total(files, k),
    decreases files.len(),
{
    if files.len() > 0 {
        if n == files.len() {
            assert(files.take(n) == files);
            lemma_metric_total_prefix(files.drop_last(), 0, k);
            assert(files.drop_last().take(0) =~= Seq::<FileModel>::empty());
        } else {
            lemma_metric_total_prefix(files.drop_last(), n, k);
            assert(files.drop_last().take(n) == files.take(n));
        }
    } else {
        assert(files.take(n) =~= files);
    }
}

proof fn lemma_metric_total_remove(files: Seq<FileModel>, i: int, k: MetricField)
    requires
        0 <= i < files.len(),
    ensures
        metric_total(files, k) == metric_total(files.remove(i), k) + metric(files[i].line_metrics, k),
    decreases files.len(),
{
    if i < files.len() - 1 {
        lemma_metric_total_remove(files.drop_last(), i, k);
        assert(files.remove(i).drop_last() =~= files.drop_last().remove(i));
        assert(files.remove(i).last() == files.last());
    } else {
        assert(files.remove(i) =~= files.drop_last());
    }
}

/// The sums of the counts do not depend on the order of the files.
pub proof fn lemma_metric_total_permutation(a: Seq<FileModel>, b: Seq<FileModel>, k: MetricField)
    requires
        a.to_multiset() == b.to_multiset(),
    ensures
        metric_total(a, k) == metric_total(b, k),
    decreases a.len(),
{
    broadcast use vstd::seq_lib::group_to_multiset_ensures;

    assert(a.len() == a.to_multiset().len());
    assert(b.len() == b.to_multiset().len());
    if a.len() > 0 {
        let x = a.last();
        assert(a.contains(x));
        assert(b.to_multiset().count(x) > 0);
        assert(b.contains(x));
        let j = choose|j: int| 0 <= j < b.len() && b[j] == x;
        assert(a.remove(a.len() - 1) == a.drop_last());
        assert(a.drop_last().to_multiset() == b.remove(j).to_multiset());
        lemma_metric_total_permutation(a.drop_last(), b.remove(j), k);
        lemma_metric_total_remove(b, j, k);
    }
}

proof fn lemma_collect_metrics(p: ProjectModel, files: Seq<FileModel>)
    requires
        p.line_metrics == zero_metrics(),
        metrics_fit(files),
    ensures
        metric(collect_files(p, files).line_metrics, MetricField::Total) == metric_total(files, MetricField::Total),
        metric(collect_files(p, files).line_metrics, MetricField::Code) == metric_total(files, MetricField::Code),
        metric(collect_files(p, files).line_metrics, MetricField::Comment) == metric_total(files, MetricField::Comment),
        metric(collect_files(p, files).line_metrics, MetricField::Blank) == metric_total(files, MetricField::Blank),
    decreases files.len(),
{
    if files.len() > 0 {
        lemma_metric_total_prefix(files, files.len() - 1, MetricField::Total);
        lemma_metric_total_prefix(files, files.len() - 1, MetricField::Code);
        lemma_metric_total_prefix(files, files.len() - 1, MetricField::Comment);
        lemma_metric_total_prefix(files, files.len() - 1, MetricField::Blank);
        assert(files.take(files.len() - 1) == files.drop_last());
        lemma_collect_metrics(p, files.drop_last());
    }
}

/// Adds `files` to `analysis` in order.
fn add_files(analysis: &mut ProjectAnalysis, files: Vec<FileAnalysis>)
    requires
        old(analysis)@.line_metrics == zero_metrics(),
        metrics_fit(files.deep_view()),
    ensures
        final(analysis)@ == collect_files(old(analysis)@, files.deep_view()),
{
    let ghost start = analysis@;
    let ghost all = files.deep_view();
    let mut rest = files;
    let n = rest.len();
    let mut i: usize = 0;
    while i < n
        invariant
            all.len() == n,
            i <= n,
            rest@.len() == n - i,
            rest.deep_view() == all.skip(i as int),
            start.line_metrics == zero_metrics(),
            metrics_fit(all),
            analysis@ == collect_files(start, all.take(i as int)),
        decreases n - i,
    {
        let ghost before_rest = rest.deep_view();
        let ghost before_vec = rest@;
        assert(before_rest[0] == rest@[0].deep_view());
        let file = rest.remove(0);
        proof {
            assert forall|k: int| 0 <= k < rest@.len() implies #[trigger] rest.deep_view()[k] == all.skip(
                i + 1,
            )[k] by {
                assert(rest@[k] == before_vec[k + 1]);
                assert(before_rest[k + 1] == before_vec[k + 1].deep_view());
                assert(all.skip(i as int)[k + 1] == all.skip(i + 1)[k]);
            }
            assert(rest.deep_view() =~= all.skip(i + 1));
            assert(all.take(i + 1).drop_last() =~= all.take(i as int));
            assert(all.take(i + 1).last() == file@);
            lemma_metric_total_prefix(all, i + 1, MetricField::Total);
            lemma_metric_total_prefix(all, i + 1, MetricField::Code);
            lemma_metric_total_prefix(all, i + 1, MetricField::Comment);
            lemma_metric_total_prefix(all, i + 1, MetricField::Blank);
            lemma_collect_metrics(start, all.take(i + 1));
            lemma_collect_metrics(start, all.take(i as int));
        }
        analysis.add_file_analysis(file);
        i = i + 1;
    }
    assert(all.take(n as int) =~= all);
}

/// Total length of the texts of `sources`.
pub open spec fn sources_size(sources: Seq<SourceModel>) -> int
    decreases sources.len(),
{
    if sources.len() == 0 {
        0
    } else {
        sources_size(sources.drop_last()) + sources.last().content.len()
    }
}

/// The results of the files, in order, or `None` when one of them fails.
pub open spec fn serial_files(sources: Seq<SourceModel>) -> Option<Seq<FileModel>>
    decreases sources.len(),
{
    if sources.len() == 0 {
        Some(seq![])
    } else {
        match serial_files(sources.drop_last()) {
            None => None,
            Some(done) => match file_model(sources.last().path, sources.last().content) {
                None => None,
                Some(f) => Some(done.push(f)),
            },
        }
    }
}

/// The analysis of a project from its files taken one after the other.
pub open spec fn serial_analysis(project_path: Seq<char>, sources: Seq<SourceModel>) -> Result<ProjectModel, ErrorModel> {
    match serial_files(sources) {
        None => Err(ErrorModel::Parse(empty_use_message())),
        Some(files) => Ok(sorted_analysis(collect_files(new_project(project_path, sources.len() as usize), files))),
    }
}

proof fn lemma_serial_files_fit(sources: Seq<SourceModel>)
    requires
        serial_files(sources) is Some,
    ensures
        serial_files(sources)->0.len() == sources.len(),
        metric_total(serial_files(sources)->0, MetricField::Total) <= sources_size(sources),
        metric_total(serial_files(sources)->0, MetricField::Code) <= sources_size(sources),
        metric_total(serial_files(sources)->0, MetricField::Comment) <= sources_size(sources),
        metric_total(serial_files(sources)->0, MetricField::Blank) <= sources_size(sources),
        forall|i: int| 0 <= i < sources.len() ==> (#[trigger] serial_files(sources)->0[i]).path == sources[i].path,
    decreases sources.len(),
{
    if sources.len() > 0 {
        lemma_serial_files_fit(sources.drop_last());
        lemma_file_metrics_bound(sources.last().content);
        let done = serial_files(sources.drop_last())->0;
        let f = file_model(sources.last().path, sources.last().content)->0;
        assert(done.push(f).drop_last() == done);
    }
}

proof fn lemma_serial_files_prefix(sources: Seq<SourceModel>, n: int)
    requires
        0 <= n <= sources.len(),
        serial_files(sources.take(n)) is None,
    ensures
        serial_files(sources) is None,
    decreases sources.len() - n,
{
    if n < sources.len() {
        assert(sources.take(n + 1).drop_last() == sources.take(n));
        lemma_serial_files_prefix(sources, n + 1);
    } else {
        assert(sources.take(n) == sources);
    }
}

/// Analyzes the files of a project one after the other; the first file that
/// fails decides the error.
pub fn analyze_project_serial(project_path: &str, sources: &Vec<SourceFile>) -> (r: Result<ProjectAnalysis, RustScopeError>)
    requires
        sources_size(sources.deep_view()) <= usize::MAX,
    ensures
        match serial_analysis(project_path@, sources.deep_view()) {
            Ok(p) => r matches Ok(a) && a@ == p,
            Err(e) => r matches Err(x) && x@ == e,
        },
{
    let ghost all = sources.deep_view();
    let mut files: Vec<FileAnalysis> = Vec::new();
    let n = sources.len();
    let mut i: usize = 0;
    while i < n
        invariant
            n == sources@.len(),
            all == sources.deep_view(),
            i <= n,
            serial_files(all.take(i as int)) == Some(files.deep_view()),
        decreases n - i,
    {
        let source = &sources[i];
        assert(all[i as int] == source@);
        assert(all.take(i + 1).drop_last() =~= all.take(i as int));
        let file = analyze_file(source.path.clone(), source.content.as_str());
        match file {
            Err(e) => {
                proof {
                    assert(serial_files(all.take(i + 1)) is None);
                    lemma_serial_files_prefix(all, i + 1);
                }
                return Err(e);
            },
            Ok(f) => {
                let ghost before = files.deep_view();
                files.push(f);
                assert(files.deep_view() =~= before.push(f@));
            },
        }
        i = i + 1;
    }
    assert(all.take(n as int) =~= all);
    proof {
        lemma_serial_files_fit(all);
    }
    let mut analysis = ProjectAnalysis::new(String::from_str(project_path), n);
    add_files(&mut analysis, files);
    sort_analysis(&mut analysis);
    Ok(analysis)
}

// ---------------------------------------------------------------- parallel

/// The number of worker threads for `file_count` files when the machine
/// offers `available` threads: one for no files, else as many as the files
/// or threads allow, and at least one.
pub fn worker_count(file_count: usize, available: usize) -> (workers: usize)
    ensures
        workers == if file_count == 0 {
            1
        } else if available == 0 {
            1
        } else if available < file_count {
            available
        } else {
            file_count
        },
{
    if file_count == 0 {
        return 1;
    }
    let fewest = if available < file_count {
        available
    } else {
        file_count
    };
    if fewest < 1 {
        1
    } else {
        fewest
    }
}

pub open spec fn result_model(r: Result<FileAnalysis, RustScopeError>) -> Result<FileModel, ErrorModel> {
    match r {
        Ok(f) => Ok(f@),
        Err(e) => Err(e@),
    }
}

pub open spec fn result_models(v: Seq<Result<FileAnalysis, RustScopeError>>) -> Seq<Result<FileModel, ErrorModel>> {
    v.map_values(|r: Result<FileAnalysis, RustScopeError>| result_model(r))
}

/// The first error among the results, if any.
pub open spec fn first_error(rs: Seq<Result<FileModel, ErrorModel>>) -> Option<ErrorModel>
    decreases rs.len(),
{
    if rs.len() == 0 {
        None
    } else {
        match first_error(rs.drop_last()) {
            Some(e) => Some(e),
            None => match rs.last() {
                Err(e) => Some(e),
                Ok(_) => None,
            },
        }
    }
}

/// The successful results, in order.
pub open spec fn ok_models(rs: Seq<Result<FileModel, ErrorModel>>) -> Seq<FileModel>
    decreases rs.len(),
{
    if rs.len() == 0 {
        seq![]
    } else {
        match rs.last() {
            Ok(f) => ok_models(rs.drop_last()).push(f),
            Err(_) => ok_models(rs.drop_last()),
        }
    }
}

/// The message for a worker pool that returned the wrong number of results.
pub open spec fn count_mismatch_message(expected: nat, received: nat) -> Seq<char> {
    "expected "@ + decimal(expected) + " file results, received "@ + decimal(received)
}

/// A fresh analysis made by `workers` threads.
pub open spec fn parallel_project(project_path: Seq<char>, file_count: usize, workers: usize) -> ProjectModel {
    ProjectModel { parallel_enabled: workers > 1, worker_threads: workers, ..new_project(project_path, file_count) }
}

/// The analysis of a project from the per-file results that worker threads
/// returned, in whatever order they arrived: the first error received
/// decides the outcome; otherwise there must be one result per file, and
/// the files are put in path order before their results are added.
pub open spec fn parallel_analysis(
    project_path: Seq<char>,
    file_count: usize,
    workers: usize,
    rs: Seq<Result<FileModel, ErrorModel>>,
) -> Result<ProjectModel, ErrorModel> {
    match first_error(rs) {
        Some(e) => Err(e),
        None => if rs.len() != file_count {
            Err(ErrorModel::Analysis(count_mismatch_message(file_count as nat, rs.len())))
        } else {
            Ok(
                sorted_analysis(
                    collect_files(
                        parallel_project(project_path, file_count, workers),
                        sorted_by::<FileAnalysis, ByPath>(ok_models(rs)),
                    ),
                ),
            )
        },
    }
}

proof fn lemma_first_error_prefix(rs: Seq<Result<FileModel, ErrorModel>>, n: int)
    requires
        0 <= n <= rs.len(),
        first_error(rs.take(n)) is Some,
    ensures
        first_error(rs) == first_error(rs.take(n)),
    decreases rs.len() - n,
{
    if n < rs.len() {
        assert(rs.take(n + 1).drop_last() == rs.take(n));
        lemma_first_error_prefix(rs, n + 1);
    } else {
        assert(rs.take(n) == rs);
    }
}

fn count_mismatch(expected: usize, received: usize) -> (e: RustScopeError)
    ensures
        e@ == ErrorModel::Analysis(count_mismatch_message(expected as nat, received as nat)),
{
    let mut message = String::from_str("expected ");
    let a = decimal_string(expected);
    message.append(a.as_str());
    message.append(" file results, received ");
    let b = decimal_string(received);
    message.append(b.as_str());
    RustScopeError::Analysis(message)
}

/// Assembles the analysis of a project from the per-file results of worker
/// threads, received in any order.
pub fn analyze_project(
    project_path: &str,
    file_count: usize,
    worker_threads: usize,
    results: Vec<Result<FileAnalysis, RustScopeError>>,
) -> (r: Result<ProjectAnalysis, RustScopeError>)
    requires
        metrics_fit(ok_models(result_models(results@))),
    ensures
        match parallel_analysis(project_path@, file_count, worker_threads, result_models(results@)) {
            Ok(p) => r matches Ok(a) && a@ == p,
            Err(e) => r matches Err(x) && x@ == e,
        },
{
    let ghost all = result_models(results@);
    let mut rest = results;
    let mut files: Vec<FileAnalysis> = Vec::new();
    let n = rest.len();
    let mut i: usize = 0;
    while i < n
        invariant
            all == result_models(results@),
            all.len() == n,
            i <= n,
            rest@.len() == n - i,
            forall|k: int| 0 <= k < rest@.len() ==> #[trigger] result_model(rest@[k]) == all[i + k],
            first_error(all.take(i as int)) is None,
            ok_models(all.take(i as int)) == files.deep_view(),
        decreases n - i,
    {
        let ghost before_vec = rest@;
        assert(result_model(before_vec[0]) == all[i as int]);
        let r = rest.remove(0);
        assert forall|k: int| 0 <= k < rest@.len() implies #[trigger] result_model(rest@[k]) == all[i + 1 + k] by {
            assert(rest@[k] == before_vec[k + 1]);
        }
        assert(all.take(i + 1).drop_last() =~= all.take(i as int));
        assert(all.take(i + 1).last() == all[i as int]);
        match r {
            Err(e) => {
                proof {
                    assert(first_error(all.take(i + 1)) == Some(e@));
                    lemma_first_error_prefix(all, i + 1);
                }
                return Err(e);
            },
            Ok(f) => {
                let ghost before = files.deep_view();
                files.push(f);
                assert(files.deep_view() =~= before.push(f@));
            },
        }
        i = i + 1;
    }
    assert(all.take(n as int) =~= all);
    if n != file_count {
        return Err(count_mismatch(file_count, n));
    }
    let sorted = sort_by_order::<FileAnalysis, ByPath>(files);
    proof {
        lemma_sorted_by_multiset::<FileAnalysis, ByPath>(ok_models(all));
        lemma_metric_total_permutation(sorted.deep_view(), ok_models(all), MetricField::Total);
        lemma_metric_total_permutation(sorted.deep_view(), ok_models(all), MetricField::Code);
        lemma_metric_total_permutation(sorted.deep_view(), ok_models(all), MetricField::Comment);
        lemma_metric_total_permutation(sorted.deep_view(), ok_models(all), MetricField::Blank);
    }
    let mut analysis = ProjectAnalysis::new(String::from_str(project_path), file_count);
    analysis.parallel_enabled = worker_threads > 1;
    analysis.worker_threads = worker_threads;
    add_files(&mut analysis, sorted);
    sort_analysis(&mut analysis);
    Ok(analysis)
}

// ---------------------------------------------------------------- laws

/// What the analysis of one file returns.
pub open spec fn file_result(s: SourceModel) -> Result<FileModel, ErrorModel> {
    match file_model(s.path, s.content) {
        Some(f) => Ok(f),
        None => Err(ErrorModel::Parse(empty_use_message())),
    }
}

/// What the analysis of each file returns, in file order.
pub open spec fn file_results(sources: Seq<SourceModel>) -> Seq<Result<FileModel, ErrorModel>> {
    sources.map_values(|s: SourceModel| file_result(s))
}

/// Each path sorts strictly before the next, as a directory scan yields them.
pub open spec fn paths_increasing(sources: Seq<SourceModel>) -> bool {
    forall|i: int, j: int| 0 <= i < j < sources.len() ==> keys_lt(
        path_components(#[trigger] sources[i].path),
        path_components(#[trigger] sources[j].path),
    )
}

proof fn lemma_serial_results(sources: Seq<SourceModel>)
    ensures
        serial_files(sources) matches Some(files) ==> first_error(file_results(sources)) is None
            && ok_models(file_results(sources)) == files,
        serial_files(sources) is None ==> first_error(file_results(sources)) == Some(
            ErrorModel::Parse(empty_use_message()),
        ),
    decreases sources.len(),
{
    if sources.len() > 0 {
        lemma_serial_results(sources.drop_last());
        assert(file_results(sources).drop_last() =~= file_results(sources.drop_last()));
    }
}

proof fn lemma_first_error_none(rs: Seq<Result<FileModel, ErrorModel>>)
    ensures
        first_error(rs) is None <==> forall|i: int| 0 <= i < rs.len() ==> (#[trigger] rs[i]) is Ok,
    decreases rs.len(),
{
    if rs.len() > 0 {
        lemma_first_error_none(rs.drop_last());
        if first_error(rs) is None {
            assert forall|i: int| 0 <= i < rs.len() implies (#[trigger] rs[i]) is Ok by {
                if i < rs.len() - 1 {
                    assert(rs.drop_last()[i] == rs[i]);
                }
            }
        }
        if forall|i: int| 0 <= i < rs.len() ==> (#[trigger] rs[i]) is Ok {
            assert forall|i: int| 0 <= i < rs.drop_last().len() implies (#[trigger] rs.drop_last()[i]) is Ok by {
                assert(rs.drop_last()[i] == rs[i]);
            }
            assert(rs[rs.len() - 1] is Ok);
        }
    }
}

proof fn lemma_first_error_is_element(rs: Seq<Result<FileModel, ErrorModel>>)
    requires
        first_error(rs) is Some,
    ensures
        rs.contains(Err(first_error(rs)->0)),
    decreases rs.len(),
{
    if first_error(rs.drop_last()) is Some {
        lemma_first_error_is_element(rs.drop_last());
        let k = choose|k: int| 0 <= k < rs.drop_last().len() && rs.drop_last()[k] == Err::<FileModel, ErrorModel>(first_error(rs)->0);
        assert(rs[k] == rs.drop_last()[k]);
    } else {
        assert(rs[rs.len() - 1] == rs.last());
    }
}

proof fn lemma_ok_models_remove(rs: Seq<Result<FileModel, ErrorModel>>, j: int)
    requires
        0 <= j < rs.len(),
        rs[j] is Ok,
    ensures
        ok_models(rs).to_multiset() =~= ok_models(rs.remove(j)).to_multiset().insert(rs[j]->Ok_0),
    decreases rs.len(),
{
    broadcast use vstd::seq_lib::group_to_multiset_ensures;

    if j == rs.len() - 1 {
        assert(rs.remove(j) =~= rs.drop_last());
    } else {
        lemma_ok_models_remove(rs.drop_last(), j);
        assert(rs.remove(j).drop_last() =~= rs.drop_last().remove(j));
        assert(rs.remove(j).last() == rs.last());
    }
}

proof fn lemma_ok_models_permutation(a: Seq<Result<FileModel, ErrorModel>>, b: Seq<Result<FileModel, ErrorModel>>)
    requires
        a.to_multiset() == b.to_multiset(),
        forall|i: int| 0 <= i < b.len() ==> (#[trigger] b[i]) is Ok,
    ensures
        ok_models(a).to_multiset() == ok_models(b).to_multiset(),
    decreases a.len(),
{
    broadcast use vstd::seq_lib::group_to_multiset_ensures;

    assert(a.len() == a.to_multiset().len());
    assert(b.len() == b.to_multiset().len());
    if a.len() > 0 {
        let x = a.last();
        assert(a.contains(x));
        assert(b.to_multiset().count(x) > 0);
        assert(b.contains(x));
        let j = choose|j: int| 0 <= j < b.len() && b[j] == x;
        assert(a.remove(a.len() - 1) == a.drop_last());
        assert(a.drop_last().to_multiset() == b.remove(j).to_multiset());
        assert forall|i: int| 0 <= i < b.remove(j).len() implies (#[trigger] b.remove(j)[i]) is Ok by {
            if i < j {
                assert(b.remove(j)[i] == b[i]);
            } else {
                assert(b.remove(j)[i] == b[i + 1]);
            }
        }
        lemma_ok_models_permutation(a.drop_last(), b.remove(j));
        lemma_ok_models_remove(b, j);
        assert(b[j] is Ok);
    } else {
        assert(b.len() == 0);
    }
}

proof fn lemma_collect_fields(p: ProjectModel, files: Seq<FileModel>, parallel_enabled: bool, worker_threads: usize)
    ensures
        collect_files(ProjectModel { parallel_enabled, worker_threads, ..p }, files) == (ProjectModel {
            parallel_enabled,
            worker_threads,
            ..collect_files(p, files)
        }),
    decreases files.len(),
{
    if files.len() > 0 {
        lemma_collect_fields(p, files.drop_last(), parallel_enabled, worker_threads);
    }
}

/// Analyzing the files of a project on worker threads gives the same
/// analysis as analyzing them one after the other, whatever order the
/// workers return their results in, provided each file's result is
/// returned once: the same error when a file fails, and otherwise the same
/// files, metrics, items, complexities and dependencies in the same order
/// (only the record of the threads used differs).
pub proof fn law_parallel_matches_serial(
    project_path: Seq<char>,
    sources: Seq<SourceModel>,
    results: Seq<Result<FileModel, ErrorModel>>,
    workers: usize,
)
    requires
        sources.len() <= usize::MAX,
        sources_size(sources) <= usize::MAX,
        paths_increasing(sources),
        results.to_multiset() == file_results(sources).to_multiset(),
    ensures
        match serial_analysis(project_path, sources) {
            Ok(s) => parallel_analysis(project_path, sources.len() as usize, workers, results) == Ok::<
                ProjectModel,
                ErrorModel,
            >(ProjectModel { parallel_enabled: workers > 1, worker_threads: workers, ..s }),
            Err(e) => parallel_analysis(project_path, sources.len() as usize, workers, results) == Err::<
                ProjectModel,
                ErrorModel,
            >(e),
        },
{
    broadcast use vstd::seq_lib::group_to_multiset_ensures;

    let expected = file_results(sources);
    lemma_serial_results(sources);
    assert(results.len() == results.to_multiset().len());
    assert(expected.len() == expected.to_multiset().len());
    match serial_files(sources) {
        None => {
            lemma_first_error_is_element(expected);
            let bad = Err::<FileModel, ErrorModel>(ErrorModel::Parse(empty_use_message()));
            assert(expected.contains(bad));
            assert(results.to_multiset().count(bad) > 0);
            assert(results.contains(bad));
            let k = choose|k: int| 0 <= k < results.len() && results[k] == bad;
            lemma_first_error_none(results);
            assert(first_error(results) is Some);
            lemma_first_error_is_element(results);
            let e = first_error(results)->0;
            assert(results.contains(Err(e)));
            assert(expected.to_multiset().count(Err(e)) > 0);
            assert(expected.contains(Err(e)));
            let m = choose|m: int| 0 <= m < expected.len() && expected[m] == Err::<FileModel, ErrorModel>(e);
            assert(expected[m] == file_result(sources[m]));
        },
        Some(files) => {
            lemma_first_error_none(expected);
            assert forall|i: int| 0 <= i < results.len() implies (#[trigger] results[i]) is Ok by {
                assert(results.contains(results[i]));
                assert(expected.to_multiset().count(results[i]) > 0);
                assert(expected.contains(results[i]));
            }
            lemma_first_error_none(results);
            lemma_ok_models_permutation(results, expected);
            lemma_serial_files_fit(sources);
            let sorted = sorted_by::<FileAnalysis, ByPath>(ok_models(results));
            lemma_sorted_by_sorted::<FileAnalysis, ByPath>(ok_models(results));
            lemma_sorted_by_multiset::<FileAnalysis, ByPath>(ok_models(results));
            assert(is_strictly_sorted::<FileAnalysis, ByPath>(files)) by {
                assert forall|i: int, j: int| 0 <= i < j < files.len() implies ByPath::before(
                    #[trigger] files[i],
                    #[trigger] files[j],
                ) by {
                    assert(files[i].path == sources[i].path);
                    assert(files[j].path == sources[j].path);
                }
            }
            lemma_sorted_unique::<FileAnalysis, ByPath>(sorted, files);
            let base = new_project(project_path, sources.len() as usize);
            lemma_collect_fields(base, files, workers > 1, workers);
        },
    }
}


proof fn lemma_collect_files_list(p: ProjectModel, files: Seq<FileModel>)
    ensures
        collect_files(p, files).files == p.files + files,
        collect_files(p, files).files_analyzed == p.files_analyzed,
    decreases files.len(),
{
    if files.len() > 0 {
        lemma_collect_files_list(p, files.drop_last());
        assert(p.files + files.drop_last() + seq![files.last()] =~= p.files + files);
    }
}

proof fn lemma_ok_models_all(rs: Seq<Result<FileModel, ErrorModel>>)
    requires
        first_error(rs) is None,
    ensures
        ok_models(rs).len() == rs.len(),
    decreases rs.len(),
{
    if rs.len() > 0 {
        lemma_ok_models_all(rs.drop_last());
    }
}

/// The files of `p` are the files it counts, and each line count of `p` is
/// the sum of that count over its files.
pub open spec fn totals_agree(p: ProjectModel) -> bool {
    &&& p.files_analyzed == p.files.len()
    &&& metric(p.line_metrics, MetricField::Total) == metric_total(p.files, MetricField::Total)
    &&& metric(p.line_metrics, MetricField::Code) == metric_total(p.files, MetricField::Code)
    &&& metric(p.line_metrics, MetricField::Comment) == metric_total(p.files, MetricField::Comment)
    &&& metric(p.line_metrics, MetricField::Blank) == metric_total(p.files, MetricField::Blank)
}

proof fn lemma_sorted_collect_totals(project_path: Seq<char>, file_count: usize, workers: usize, files: Seq<FileModel>)
    requires
        files.len() == file_count,
        metrics_fit(files),
    ensures
        totals_agree(sorted_analysis(collect_files(parallel_project(project_path, file_count, workers), files))),
        totals_agree(sorted_analysis(collect_files(new_project(project_path, file_count), files))),
{
    let sorted = sorted_by::<FileAnalysis, ByPath>(files);
    lemma_sorted_by_multiset::<FileAnalysis, ByPath>(files);
    assert(sorted.len() == files.len()) by {
        broadcast use vstd::seq_lib::group_to_multiset_ensures;

        assert(sorted.len() == sorted.to_multiset().len());
        assert(files.len() == files.to_multiset().len());
    }
    lemma_metric_total_permutation(sorted, files, MetricField::Total);
    lemma_metric_total_permutation(sorted, files, MetricField::Code);
    lemma_metric_total_permutation(sorted, files, MetricField::Comment);
    lemma_metric_total_permutation(sorted, files, MetricField::Blank);
    let a = parallel_project(project_path, file_count, workers);
    let b = new_project(project_path, file_count);
    lemma_collect_files_list(a, files);
    lemma_collect_files_list(b, files);
    assert(a.files + files =~= files);
    assert(b.files + files =~= files);
    lemma_collect_metrics(a, files);
    lemma_collect_metrics(b, files);
}

/// Whether a project is analyzed one file after the other or on worker
/// threads, a successful analysis counts exactly the files it holds, and
/// its line counts are the sums of the line counts of those files.
pub proof fn law_project_totals(
    project_path: Seq<char>,
    sources: Seq<SourceModel>,
    file_count: usize,
    workers: usize,
    results: Seq<Result<FileModel, ErrorModel>>,
)
    requires
        sources.len() <= usize::MAX,
        sources_size(sources) <= usize::MAX,
        metrics_fit(ok_models(results)),
    ensures
        serial_analysis(project_path, sources) matches Ok(p) ==> totals_agree(p),
        parallel_analysis(project_path, file_count, workers, results) matches Ok(p) ==> totals_agree(p),
{
    if let Some(files) = serial_files(sources) {
        lemma_serial_files_fit(sources);
        lemma_sorted_collect_totals(project_path, sources.len() as usize, workers, files);
    }
    if first_error(results) is None && results.len() == file_count {
        let oks = ok_models(results);
        let arrived = sorted_by::<FileAnalysis, ByPath>(oks);
        lemma_ok_models_all(results);
        lemma_sorted_by_multiset::<FileAnalysis, ByPath>(oks);
        assert(arrived.len() == oks.len()) by {
            broadcast use vstd::seq_lib::group_to_multiset_ensures;

            assert(arrived.len() == arrived.to_multiset().len());
            assert(oks.len() == oks.to_multiset().len());
        }
        lemma_metric_total_permutation(arrived, oks, MetricField::Total);
        lemma_metric_total_permutation(arrived, oks, MetricField::Code);
        lemma_metric_total_permutation(arrived, oks, MetricField::Comment);
        lemma_metric_total_permutation(arrived, oks, MetricField::Blank);
        lemma_sorted_collect_totals(project_path, file_count, workers, arrived);
    }
}

/// After sorting, files come in path order, the items and the functions of
/// one file come in line order, and dependency edges come in text order
/// of their sources.
pub proof fn law_sorted_order(p: ProjectModel)
    ensures
        forall|i: int, j: int|
            0 <= i < j < sorted_analysis(p).files.len() ==> !keys_lt(
                path_components(#[trigger] sorted_analysis(p).files[j].path),
                path_components(#[trigger] sorted_analysis(p).files[i].path),
            ),
        forall|i: int, j: int|
            0 <= i < j < sorted_analysis(p).items.len() && #[trigger] sorted_analysis(p).items[i].file
                == #[trigger] sorted_analysis(p).items[j].file ==> sorted_analysis(p).items[i].line
                <= sorted_analysis(p).items[j].line,
        forall|i: int, j: int|
            0 <= i < j < sorted_analysis(p).function_complexities.len() && #[trigger] sorted_analysis(
                p,
            ).function_complexities[i].file == #[trigger] sorted_analysis(p).function_complexities[j].file
                ==> sorted_analysis(p).function_complexities[i].line <= sorted_analysis(
                p,
            ).function_complexities[j].line,
        forall|i: int, j: int|
            0 <= i < j < sorted_analysis(p).dependencies.len() ==> !text_lt(
                (#[trigger] sorted_analysis(p).dependencies[j]).from,
                (#[trigger] sorted_analysis(p).dependencies[i]).from,
            ),
{
    let q = sorted_analysis(p);
    lemma_sorted_by_sorted::<FileAnalysis, ByPath>(p.files);
    lemma_sorted_by_sorted::<CodeItem, ByLocation>(p.items);
    lemma_sorted_by_sorted::<FunctionComplexity, ByLocation>(p.function_complexities);
    lemma_sorted_by_sorted::<DependencyEdge, ByEndpoints>(p.dependencies);
    assert forall|i: int, j: int|
        0 <= i < j < q.items.len() && #[trigger] q.items[i].file == #[trigger] q.items[j].file implies q.items[i].line
        <= q.items[j].line by {
        assert(!<ByLocation as Order<CodeItem>>::before(q.items[j], q.items[i]));
        lemma_keys_order(path_components(q.items[j].file), path_components(q.items[j].file), path_components(q.items[j].file));
    }
    assert forall|i: int, j: int|
        0 <= i < j < q.function_complexities.len() && #[trigger] q.function_complexities[i].file
            == #[trigger] q.function_complexities[j].file implies q.function_complexities[i].line
        <= q.function_complexities[j].line by {
        assert(!<ByLocation as Order<FunctionComplexity>>::before(q.function_complexities[j], q.function_complexities[i]));
        let f = q.function_complexities[j].file;
        lemma_keys_order(path_components(f), path_components(f), path_components(f));
    }
    assert forall|i: int, j: int| 0 <= i < j < q.dependencies.len() implies !text_lt(
        (#[trigger] q.dependencies[j]).from,
        (#[trigger] q.dependencies[i]).from,
    ) by {
        assert(!ByEndpoints::before(q.dependencies[j], q.dependencies[i]));
    }
}

/// Worker results are refused when one of them failed (the first failure
/// received is reported) or when their number is not the number of files;
/// otherwise the analysis holds one file per result.
pub proof fn law_parallel_refusals(
    project_path: Seq<char>,
    file_count: usize,
    workers: usize,
    results: Seq<Result<FileModel, ErrorModel>>,
)
    ensures
        first_error(results) matches Some(e) ==> parallel_analysis(project_path, file_count, workers, results)
            == Err::<ProjectModel, ErrorModel>(e),
        first_error(results) is None && results.len() != file_count ==> parallel_analysis(
            project_path,
            file_count,
            workers,
            results,
        ) == Err::<ProjectModel, ErrorModel>(
            ErrorModel::Analysis(
                "expected "@ + decimal(file_count as nat) + " file results, received "@ + decimal(results.len()),
            ),
        ),
        parallel_analysis(project_path, file_count, workers, results) matches Ok(p) ==> p.files.len()
            == results.len() && p.files_analyzed == file_count && p.worker_threads == workers
            && p.parallel_enabled == (workers > 1),
{
    if first_error(results) is None && results.len() == file_count {
        lemma_ok_models_all(results);
        let oks = ok_models(results);
        lemma_sorted_by_multiset::<FileAnalysis, ByPath>(oks);
        let arrived = sorted_by::<FileAnalysis, ByPath>(oks);
        let base = parallel_project(project_path, file_count, workers);
        lemma_collect_files_list(base, arrived);
        lemma_sorted_by_multiset::<FileAnalysis, ByPath>(collect_files(base, arrived).files);
        lemma_collect_fields(new_project(project_path, file_count), arrived, workers > 1, workers);
    }
}

} // verus!
