//! The analysis data model and its mathematical views.
use vstd::prelude::*;

verus! {

/// A `use` edge from a source file to the path it imports.
#[derive(Debug, PartialEq, Eq)]
pub struct DependencyEdge {
    pub from: String,
    pub to: String,
}

/// The kinds of code items that the parser recognizes.
#[derive(Debug, Clone, Copy, PartialEq, Eq, Structural)]
pub enum ItemKind {
    Function,
    Struct,
    Enum,
    Trait,
    Module,
    Impl,
}

/// A named item found on a line of a file.
#[derive(Debug, PartialEq, Eq)]
pub struct CodeItem {
    pub name: String,
    pub kind: ItemKind,
    pub file: String,
    pub line: usize,
}

/// Line counts of a text; every line is exactly one of blank, comment, code.
#[derive(Debug, Clone, Copy, PartialEq, Eq, Structural)]
pub struct LineMetrics {
    pub total_lines: usize,
    pub code_lines: usize,
    pub comment_lines: usize,
    pub blank_lines: usize,
}

/// The cyclomatic-style complexity of one function.
#[derive(Debug, PartialEq, Eq)]
pub struct FunctionComplexity {
    pub name: String,
    pub file: String,
    pub line: usize,
    pub complexity: usize,
}

/// Everything learned from one source file.
#[derive(Debug, PartialEq, Eq)]
pub struct FileAnalysis {
    pub path: String,
    pub line_metrics: LineMetrics,
    pub items: Vec<CodeItem>,
    pub function_complexities: Vec<FunctionComplexity>,
    pub dependencies: Vec<DependencyEdge>,
}

/// Everything learned from a project: per-file results and their union.
#[derive(Debug, PartialEq, Eq)]
pub struct ProjectAnalysis {
    pub project_path: String,
    pub files_analyzed: usize,
    pub parallel_enabled: bool,
    pub worker_threads: usize,
    pub files: Vec<FileAnalysis>,
    pub line_metrics: LineMetrics,
    pub items: Vec<CodeItem>,
    pub function_complexities: Vec<FunctionComplexity>,
    pub dependencies: Vec<DependencyEdge>,
}

pub struct DependencyModel {
    pub from: Seq<char>,
    pub to: Seq<char>,
}

pub struct CodeItemModel {
    pub name: Seq<char>,
    pub kind: ItemKind,
    pub file: Seq<char>,
    pub line: usize,
}

pub struct ComplexityModel {
    pub name: Seq<char>,
    pub file: Seq<char>,
    pub line: usize,
    pub complexity: usize,
}

pub struct FileModel {
    pub path: Seq<char>,
    pub line_metrics: LineMetrics,
    pub items: Seq<CodeItemModel>,
    pub function_complexities: Seq<ComplexityModel>,
    pub dependencies: Seq<DependencyModel>,
}

pub struct ProjectModel {
    pub project_path: Seq<char>,
    pub files_analyzed: usize,
    pub parallel_enabled: bool,
    pub worker_threads: usize,
    pub files: Seq<FileModel>,
    pub line_metrics: LineMetrics,
    pub items: Seq<CodeItemModel>,
    pub function_complexities: Seq<ComplexityModel>,
    pub dependencies: Seq<DependencyModel>,
}

impl View for DependencyEdge {
    type V = DependencyModel;

    open spec fn view(&self) -> DependencyModel {
        DependencyModel { from: self.from@, to: self.to@ }
    }
}

impl DeepView for DependencyEdge {
    type V = DependencyModel;

    open spec fn deep_view(&self) -> DependencyModel {
        self@
    }
}

impl View for CodeItem {
    type V = CodeItemModel;

    open spec fn view(&self) -> CodeItemModel {
        CodeItemModel { name: self.name@, kind: self.kind, file: self.file@, line: self.line }
    }
}

impl DeepView for CodeItem {
    type V = CodeItemModel;

    open spec fn deep_view(&self) -> CodeItemModel {
        self@
    }
}

impl View for FunctionComplexity {
    type V = ComplexityModel;

    open spec fn view(&self) -> ComplexityModel {
        ComplexityModel {
            name: self.name@,
            file: self.file@,
            line: self.line,
            complexity: self.complexity,
        }
    }
}

impl DeepView for FunctionComplexity {
    type V = ComplexityModel;

    open spec fn deep_view(&self) -> ComplexityModel {
        self@
    }
}

impl View for FileAnalysis {
    type V = FileModel;

    open spec fn view(&self) -> FileModel {
        FileModel {
            path: self.path@,
            line_metrics: self.line_metrics,
            items: self.items.deep_view(),
            function_complexities: self.function_complexities.deep_view(),
            dependencies: self.dependencies.deep_view(),
        }
    }
}

impl DeepView for FileAnalysis {
    type V = FileModel;

    open spec fn deep_view(&self) -> FileModel {
        self@
    }
}

impl View for ProjectAnalysis {
    type V = ProjectModel;

    open spec fn view(&self) -> ProjectModel {
        ProjectModel {
            project_path: self.project_path@,
            files_analyzed: self.files_analyzed,
            parallel_enabled: self.parallel_enabled,
            worker_threads: self.worker_threads,
            files: self.files.deep_view(),
            line_metrics: self.line_metrics,
            items: self.items.deep_view(),
            function_complexities: self.function_complexities.deep_view(),
            dependencies: self.dependencies.deep_view(),
        }
    }
}

impl Clone for DependencyEdge {
    fn clone(&self) -> (r: Self)
        ensures
            r == *self,
    {
        DependencyEdge { from: self.from.clone(), to: self.to.clone() }
    }
}

impl Clone for CodeItem {
    fn clone(&self) -> (r: Self)
        ensures
            r == *self,
    {
        CodeItem { name: self.name.clone(), kind: self.kind, file: self.file.clone(), line: self.line }
    }
}

impl Clone for FunctionComplexity {
    fn clone(&self) -> (r: Self)
        ensures
            r == *self,
    {
        FunctionComplexity {
            name: self.name.clone(),
            file: self.file.clone(),
            line: self.line,
            complexity: self.complexity,
        }
    }
}

impl Default for LineMetrics {
    fn default() -> (m: Self)
        ensures
            m == zero_metrics(),
    {
        LineMetrics { total_lines: 0, code_lines: 0, comment_lines: 0, blank_lines: 0 }
    }
}

/// Metrics with every count zero.
pub open spec fn zero_metrics() -> LineMetrics {
    LineMetrics { total_lines: 0, code_lines: 0, comment_lines: 0, blank_lines: 0 }
}

/// Whether two metrics can be added without a count exceeding `usize::MAX`.
pub open spec fn metrics_addable(a: LineMetrics, b: LineMetrics) -> bool {
    &&& a.total_lines + b.total_lines <= usize::MAX
    &&& a.code_lines + b.code_lines <= usize::MAX
    &&& a.comment_lines + b.comment_lines <= usize::MAX
    &&& a.blank_lines + b.blank_lines <= usize::MAX
}

/// The field-by-field sum of two metrics.
pub open spec fn metrics_sum(a: LineMetrics, b: LineMetrics) -> LineMetrics {
    LineMetrics {
        total_lines: (a.total_lines + b.total_lines) as usize,
        code_lines: (a.code_lines + b.code_lines) as usize,
        comment_lines: (a.comment_lines + b.comment_lines) as usize,
        blank_lines: (a.blank_lines + b.blank_lines) as usize,
    }
}

impl LineMetrics {
    /// Adds `other` to these metrics, count by count.
    pub fn add(&mut self, other: &Self)
        requires
            metrics_addable(*old(self), *other),
        ensures
            *final(self) == metrics_sum(*old(self), *other),
    {
        self.total_lines = self.total_lines + other.total_lines;
        self.code_lines = self.code_lines + other.code_lines;
        self.comment_lines = self.comment_lines + other.comment_lines;
        self.blank_lines = self.blank_lines + other.blank_lines;
    }
}

impl ProjectAnalysis {
    /// An analysis of `project_path` that covers `files_analyzed` files and
    /// holds no results yet; it counts as a single-threaded analysis.
    pub fn new(project_path: String, files_analyzed: usize) -> (analysis: Self)
        ensures
            analysis@ == (ProjectModel {
                project_path: project_path@,
                files_analyzed,
                parallel_enabled: false,
                worker_threads: 1,
                files: seq![],
                line_metrics: zero_metrics(),
                items: seq![],
                function_complexities: seq![],
                dependencies: seq![],
            }),
    {
        let analysis = ProjectAnalysis {
            project_path,
            files_analyzed,
            parallel_enabled: false,
            worker_threads: 1,
            files: Vec::new(),
            line_metrics: LineMetrics::default(),
            items: Vec::new(),
            function_complexities: Vec::new(),
            dependencies: Vec::new(),
        };
        assert(analysis@.files =~= Seq::<FileModel>::empty());
        assert(analysis@.items =~= Seq::<CodeItemModel>::empty());
        assert(analysis@.function_complexities =~= Seq::<ComplexityModel>::empty());
        assert(analysis@.dependencies =~= Seq::<DependencyModel>::empty());
        analysis
    }

    /// Adds the results of one file: its metrics are added, its items,
    /// complexities and dependencies appended, and the file itself recorded.
    pub fn add_file_analysis(&mut self, file: FileAnalysis)
        requires
            metrics_addable(old(self).line_metrics, file.line_metrics),
        ensures
            final(self)@ == add_file_model(old(self)@, file@),
    {
        let ghost old_view = self@;
        let ghost file_view = file@;
        self.line_metrics.add(&file.line_metrics);
        let mut items = file.items.clone();
        assert(items@ == file.items@);
        self.items.append(&mut items);
        let mut complexities = file.function_complexities.clone();
        assert(complexities@ == file.function_complexities@);
        self.function_complexities.append(&mut complexities);
        let mut dependencies = file.dependencies.clone();
        assert(dependencies@ == file.dependencies@);
        self.dependencies.append(&mut dependencies);
        self.files.push(file);
        assert(self@.items =~= old_view.items + file_view.items);
        assert(self@.function_complexities =~= old_view.function_complexities + file_view.function_complexities);
        assert(self@.dependencies =~= old_view.dependencies + file_view.dependencies);
        assert(self@.files =~= old_view.files.push(file_view));
    }
}

/// The analysis `p` after the results of file `f` are added to it.
pub open spec fn add_file_model(p: ProjectModel, f: FileModel) -> ProjectModel {
    ProjectModel {
        files: p.files.push(f),
        line_metrics: metrics_sum(p.line_metrics, f.line_metrics),
        items: p.items + f.items,
        function_complexities: p.function_complexities + f.function_complexities,
        dependencies: p.dependencies + f.dependencies,
        ..p
    }
}

} // verus!
