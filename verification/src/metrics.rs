//! Line metrics and per-function complexity.
use vstd::prelude::*;
use crate::model::{metrics_sum, CodeItemModel, ComplexityModel, FunctionComplexity, ItemKind, LineMetrics};
use crate::parser::{
    block_state, extract_ident_after_keyword, has_keyword_boundaries, ident_after_keyword,
    code_items, items_upto, keyword_at, kw_fn, lemma_find_keyword_from, lemma_ident_after_trim,
    lemma_searchable_len, line_items, matches_at, searchable, strip_comments, strip_line, word_char,
};
use crate::text::{
    chars_of, lemma_line_end, line_end, lemma_lines_concat, lemma_lines_size, lemma_prefix_len_mono, lines, prefix_len, split_lines,
    string_from_chars, trim, trim_chars, trim_start,
};

verus! {

// ---------------------------------------------------------------- line metrics

/// How a line counts in the line metrics.
#[derive(PartialEq, Eq, Structural)]
pub enum LineClass {
    Blank,
    Comment,
    Code,
}

/// A line is blank when it is all whitespace, a comment when its trimmed
/// text starts with `//`, and code otherwise.
pub open spec fn line_class(line: Seq<char>) -> LineClass {
    let t = trim(line);
    if t.len() == 0 {
        LineClass::Blank
    } else if t.len() >= 2 && t[0] == '/' && t[1] == '/' {
        LineClass::Comment
    } else {
        LineClass::Code
    }
}

/// Number of lines among the first `n` of `ls` that fall in class `c`.
pub open spec fn class_count(ls: Seq<Seq<char>>, n: int, c: LineClass) -> int
    decreases n,
{
    if n <= 0 {
        0
    } else {
        class_count(ls, n - 1, c) + if line_class(ls[n - 1]) == c {
            1int
        } else {
            0
        }
    }
}

/// The line metrics of a text, as `calculate_line_metrics` computes them.
pub open spec fn line_metrics_of(content: Seq<char>) -> LineMetrics {
    let ls = lines(content);
    LineMetrics {
        total_lines: ls.len() as usize,
        code_lines: class_count(ls, ls.len() as int, LineClass::Code) as usize,
        comment_lines: class_count(ls, ls.len() as int, LineClass::Comment) as usize,
        blank_lines: class_count(ls, ls.len() as int, LineClass::Blank) as usize,
    }
}

pub proof fn lemma_class_counts(ls: Seq<Seq<char>>, n: int)
    requires
        0 <= n,
    ensures
        class_count(ls, n, LineClass::Blank) + class_count(ls, n, LineClass::Comment) + class_count(
            ls,
            n,
            LineClass::Code,
        ) == n,
        0 <= class_count(ls, n, LineClass::Blank) <= n,
        0 <= class_count(ls, n, LineClass::Comment) <= n,
        0 <= class_count(ls, n, LineClass::Code) <= n,
    decreases n,
{
    if n > 0 {
        lemma_class_counts(ls, n - 1);
    }
}

proof fn lemma_class_count_prefix(x: Seq<Seq<char>>, y: Seq<Seq<char>>, m: int, c: LineClass)
    requires
        0 <= m <= x.len(),
    ensures
        class_count(x + y, m, c) == class_count(x, m, c),
    decreases m,
{
    if m > 0 {
        lemma_class_count_prefix(x, y, m - 1, c);
        assert((x + y)[m - 1] == x[m - 1]);
    }
}

proof fn lemma_class_count_concat(x: Seq<Seq<char>>, y: Seq<Seq<char>>, n: int, c: LineClass)
    requires
        0 <= n <= y.len(),
    ensures
        class_count(x + y, x.len() + n, c) == class_count(x, x.len() as int, c) + class_count(y, n, c),
    decreases n,
{
    if n == 0 {
        lemma_class_count_prefix(x, y, x.len() as int, c);
    } else {
        lemma_class_count_concat(x, y, n - 1, c);
        assert((x + y)[x.len() + n - 1] == y[n - 1]);
    }
}

/// The line metrics of `a` followed by `b`, when `a` is empty or ends in a
/// line break, are the sums of the line metrics of `a` and of `b`.
pub proof fn law_line_metrics_concat(a: Seq<char>, b: Seq<char>)
    requires
        a.len() == 0 || a.last() == '\n',
        a.len() + b.len() <= usize::MAX,
    ensures
        line_metrics_of(a + b) == metrics_sum(line_metrics_of(a), line_metrics_of(b)),
{
    lemma_lines_concat(a, b);
    lemma_lines_size(a);
    lemma_lines_size(b);
    let la = lines(a);
    let lb = lines(b);
    lemma_class_counts(la, la.len() as int);
    lemma_class_counts(lb, lb.len() as int);
    lemma_class_count_concat(la, lb, lb.len() as int, LineClass::Blank);
    lemma_class_count_concat(la, lb, lb.len() as int, LineClass::Comment);
    lemma_class_count_concat(la, lb, lb.len() as int, LineClass::Code);
}

/// The metrics of one text are those of another plus one line of the
/// given kind.
pub open spec fn one_more(before: LineMetrics, after: LineMetrics, blank: int, comment: int, code: int) -> bool {
    &&& after.total_lines == before.total_lines + 1
    &&& after.blank_lines == before.blank_lines + blank
    &&& after.comment_lines == before.comment_lines + comment
    &&& after.code_lines == before.code_lines + code
}

/// Adding one line at the end of a text (empty or ending in a line break)
/// adds one to the total and one to exactly one kind: blank when the
/// line is all whitespace, comment when its trimmed text begins with `//`
/// (whatever follows, so `///` and `//!` lines too), and code otherwise.
pub proof fn law_line_kinds(a: Seq<char>, l: Seq<char>)
    requires
        a.len() == 0 || a.last() == '\n',
        l.len() > 0,
        forall|k: int| 0 <= k < l.len() ==> l[k] != '\n',
        a.len() + l.len() <= usize::MAX,
    ensures
        trim(l).len() == 0 ==> one_more(line_metrics_of(a), line_metrics_of(a + l), 1, 0, 0),
        trim(l).len() >= 2 && trim(l)[0] == '/' && trim(l)[1] == '/' ==> one_more(
            line_metrics_of(a),
            line_metrics_of(a + l),
            0,
            1,
            0,
        ),
        trim(l).len() > 0 && !(trim(l).len() >= 2 && trim(l)[0] == '/' && trim(l)[1] == '/') ==> one_more(
            line_metrics_of(a),
            line_metrics_of(a + l),
            0,
            0,
            1,
        ),
{
    law_line_metrics_concat(a, l);
    lemma_line_end(l, 0);
    assert(line_end(l, 0) == l.len());
    assert(lines(l) == seq![l.subrange(0, l.len() as int)]);
    assert(l.subrange(0, l.len() as int) =~= l);
    let one = seq![l];
    assert(one[0] == l);
    assert(class_count(one, 0, LineClass::Blank) == 0);
    assert(class_count(one, 0, LineClass::Comment) == 0);
    assert(class_count(one, 0, LineClass::Code) == 0);
    assert(class_count(one, 1, LineClass::Blank) == if line_class(l) == LineClass::Blank { 1int } else { 0 });
    assert(class_count(one, 1, LineClass::Comment) == if line_class(l) == LineClass::Comment { 1int } else { 0 });
    assert(class_count(one, 1, LineClass::Code) == if line_class(l) == LineClass::Code { 1int } else { 0 });
    lemma_lines_size(a);
    lemma_class_counts(lines(a), lines(a).len() as int);
}

fn classify_line(line: &[char]) -> (c: LineClass)
    ensures
        c == line_class(line@),
{
    let t = trim_chars(line);
    if t.len() == 0 {
        LineClass::Blank
    } else if t.len() >= 2 && t[0] == '/' && t[1] == '/' {
        LineClass::Comment
    } else {
        LineClass::Code
    }
}

/// Counts the lines of `content` and sorts each into blank, comment or code.
pub fn calculate_line_metrics(content: &str) -> (metrics: LineMetrics)
    ensures
        metrics == line_metrics_of(content@),
        metrics.blank_lines + metrics.comment_lines + metrics.code_lines == metrics.total_lines,
{
    let chars = chars_of(content);
    let ls = split_lines(chars.as_slice());
    let ghost gl = lines(content@);
    let mut metrics = LineMetrics { total_lines: 0, code_lines: 0, comment_lines: 0, blank_lines: 0 };
    let mut index: usize = 0;
    while index < ls.len()
        invariant
            ls@.len() == gl.len(),
            forall|i: int| 0 <= i < ls@.len() ==> #[trigger] ls@[i]@ == gl[i],
            index <= ls@.len(),
            metrics.total_lines == index,
            metrics.code_lines == class_count(gl, index as int, LineClass::Code),
            metrics.comment_lines == class_count(gl, index as int, LineClass::Comment),
            metrics.blank_lines == class_count(gl, index as int, LineClass::Blank),
        decreases ls@.len() - index,
    {
        proof {
            lemma_class_counts(gl, index as int);
        }
        metrics.total_lines = metrics.total_lines + 1;
        match classify_line(ls[index].as_slice()) {
            LineClass::Blank => {
                metrics.blank_lines = metrics.blank_lines + 1;
            },
            LineClass::Comment => {
                metrics.comment_lines = metrics.comment_lines + 1;
            },
            LineClass::Code => {
                metrics.code_lines = metrics.code_lines + 1;
            },
        }
        index = index + 1;
    }
    proof {
        lemma_class_counts(gl, index as int);
    }
    metrics
}

// ---------------------------------------------------------------- complexity

pub open spec fn kw_if() -> Seq<char> {
    seq!['i', 'f']
}

pub open spec fn kw_match() -> Seq<char> {
    seq!['m', 'a', 't', 'c', 'h']
}

pub open spec fn kw_for() -> Seq<char> {
    seq!['f', 'o', 'r']
}

pub open spec fn kw_while() -> Seq<char> {
    seq!['w', 'h', 'i', 'l', 'e']
}

pub open spec fn kw_loop() -> Seq<char> {
    seq!['l', 'o', 'o', 'p']
}

/// Number of whole-word occurrences of `kw` that start before `n`.
pub open spec fn keyword_count(s: Seq<char>, kw: Seq<char>, n: int) -> int
    decreases n,
{
    if n <= 0 {
        0
    } else {
        keyword_count(s, kw, n - 1) + if keyword_at(s, kw, n - 1) {
            1int
        } else {
            0
        }
    }
}

/// Number of occurrences of `c` before `n`.
pub open spec fn char_count(s: Seq<char>, c: char, n: int) -> int
    decreases n,
{
    if n <= 0 {
        0
    } else {
        char_count(s, c, n - 1) + if s[n - 1] == c {
            1int
        } else {
            0
        }
    }
}

/// Branch points of a line: whole-word `if`, `match`, `for`, `while` and
/// `loop`, and every `?`.
pub open spec fn markers(s: Seq<char>) -> int {
    keyword_count(s, kw_if(), s.len() as int) + keyword_count(s, kw_match(), s.len() as int)
        + keyword_count(s, kw_for(), s.len() as int) + keyword_count(s, kw_while(), s.len() as int)
        + keyword_count(s, kw_loop(), s.len() as int) + char_count(s, '?', s.len() as int)
}

/// Opening minus closing braces of a line.
pub open spec fn brace_delta(s: Seq<char>) -> int {
    char_count(s, '{', s.len() as int) - char_count(s, '}', s.len() as int)
}

pub proof fn lemma_char_count_bound(s: Seq<char>, c: char, n: int)
    requires
        0 <= n,
    ensures
        0 <= char_count(s, c, n) <= n,
    decreases n,
{
    if n > 0 {
        lemma_char_count_bound(s, c, n - 1);
    }
}

proof fn lemma_keyword_first_char(s: Seq<char>, kw: Seq<char>, p: int)
    requires
        keyword_at(s, kw, p),
        kw.len() > 0,
    ensures
        s[p] == kw[0],
{
    assert(s.subrange(p, p + kw.len())[0] == s[p]);
}

/// `kw` is a non-empty word of ASCII letters, digits and underscores.
pub open spec fn is_word(kw: Seq<char>) -> bool {
    kw.len() > 0 && forall|t: int| 0 <= t < kw.len() ==> word_char(#[trigger] kw[t])
}

proof fn lemma_keyword_count_word(w: Seq<char>, kw: Seq<char>, m: int)
    requires
        is_word(w),
        is_word(kw),
        0 <= m <= w.len(),
    ensures
        keyword_count(w, kw, m) == if m > 0 && w == kw {
            1int
        } else {
            0
        },
    decreases m,
{
    if m > 0 {
        lemma_keyword_count_word(w, kw, m - 1);
        let p = m - 1;
        if keyword_at(w, kw, p) {
            if p > 0 {
                assert(word_char(w[p - 1]));
            }
            if p + kw.len() < w.len() {
                assert(word_char(w[p + kw.len()]));
            }
            assert(w =~= w.subrange(p, p + kw.len()));
        } else if p == 0 && w == kw {
            assert(w.subrange(0, kw.len() as int) =~= kw);
        }
    }
}

proof fn lemma_char_count_word(w: Seq<char>, m: int)
    requires
        is_word(w),
        0 <= m <= w.len(),
    ensures
        char_count(w, '?', m) == 0,
    decreases m,
{
    if m > 0 {
        lemma_char_count_word(w, m - 1);
        assert(word_char(w[m - 1]));
    }
}

proof fn lemma_keyword_at_joined(a: Seq<char>, b: Seq<char>, kw: Seq<char>, p: int)
    requires
        is_word(kw),
        0 <= p,
    ensures
        p < a.len() ==> keyword_at(a + seq![' '] + b, kw, p) == keyword_at(a, kw, p),
        p == a.len() ==> !keyword_at(a + seq![' '] + b, kw, p),
        p > a.len() ==> keyword_at(a + seq![' '] + b, kw, p) == keyword_at(b, kw, p - a.len() - 1),
{
    let j = a + seq![' '] + b;
    let n = kw.len() as int;
    assert(j[a.len() as int] == ' ');
    assert(!word_char(' '));
    if p < a.len() {
        if p + n <= a.len() {
            assert(j.subrange(p, p + n) =~= a.subrange(p, p + n));
            if p > 0 {
                assert(j[p - 1] == a[p - 1]);
            }
            if p + n < a.len() {
                assert(j[p + n] == a[p + n]);
            }
        } else if p + n <= j.len() && j.subrange(p, p + n) == kw {
            assert(j.subrange(p, p + n)[a.len() - p] == j[a.len() as int]);
            assert(word_char(kw[a.len() - p]));
        }
    } else if p == a.len() {
        if p + n <= j.len() && j.subrange(p, p + n) == kw {
            assert(j.subrange(p, p + n)[0] == j[p]);
            assert(word_char(kw[0]));
        }
    } else {
        let q = p - a.len() - 1;
        if q + n <= b.len() {
            assert(j.subrange(p, p + n) =~= b.subrange(q, q + n));
            if q > 0 {
                assert(j[p - 1] == b[q - 1]);
            }
            if q + n < b.len() {
                assert(j[p + n] == b[q + n]);
            }
        }
    }
}

proof fn lemma_keyword_count_joined(a: Seq<char>, b: Seq<char>, kw: Seq<char>, m: int)
    requires
        is_word(kw),
        0 <= m <= a.len() + 1 + b.len(),
    ensures
        keyword_count(a + seq![' '] + b, kw, m) == if m <= a.len() {
            keyword_count(a, kw, m)
        } else {
            keyword_count(a, kw, a.len() as int) + keyword_count(b, kw, m - a.len() - 1)
        },
    decreases m,
{
    if m > 0 {
        lemma_keyword_count_joined(a, b, kw, m - 1);
        lemma_keyword_at_joined(a, b, kw, m - 1);
    }
}

proof fn lemma_char_count_joined(a: Seq<char>, b: Seq<char>, m: int)
    requires
        0 <= m <= a.len() + 1 + b.len(),
    ensures
        char_count(a + seq![' '] + b, '?', m) == if m <= a.len() {
            char_count(a, '?', m)
        } else {
            char_count(a, '?', a.len() as int) + char_count(b, '?', m - a.len() - 1)
        },
    decreases m,
{
    if m > 0 {
        lemma_char_count_joined(a, b, m - 1);
        let j = a + seq![' '] + b;
        if m - 1 < a.len() {
            assert(j[m - 1] == a[m - 1]);
        } else if m - 1 > a.len() {
            assert(j[m - 1] == b[m - 1 - a.len() - 1]);
        }
    }
}

proof fn lemma_no_keyword_in_question(kw: Seq<char>)
    requires
        is_word(kw),
    ensures
        keyword_count(seq!['?'], kw, 1) == 0,
{
    let q = seq!['?'];
    assert(keyword_count(q, kw, 0) == 0);
    if keyword_at(q, kw, 0) {
        assert(q.subrange(0, kw.len() as int)[0] == q[0]);
        assert(word_char(kw[0]));
    }
}

/// The branch markers of a line: a word of ASCII letters, digits and
/// underscores counts one when it is `if`, `match`, `for`, `while` or
/// `loop` and nothing otherwise, a `?` counts one, and the markers of two
/// texts joined by a space add up.
pub proof fn law_markers(w: Seq<char>, a: Seq<char>, b: Seq<char>)
    ensures
        is_word(w) ==> markers(w) == if w == seq!['i', 'f'] || w == seq!['m', 'a', 't', 'c', 'h'] || w == seq![
            'f',
            'o',
            'r',
        ] || w == seq!['w', 'h', 'i', 'l', 'e'] || w == seq!['l', 'o', 'o', 'p'] {
            1int
        } else {
            0
        },
        markers(seq!['?']) == 1,
        markers(a + seq![' '] + b) == markers(a) + markers(b),
{
    assert(is_word(kw_if()));
    assert(is_word(kw_match()));
    assert(is_word(kw_for()));
    assert(is_word(kw_while()));
    assert(is_word(kw_loop()));
    if is_word(w) {
        lemma_keyword_count_word(w, kw_if(), w.len() as int);
        lemma_keyword_count_word(w, kw_match(), w.len() as int);
        lemma_keyword_count_word(w, kw_for(), w.len() as int);
        lemma_keyword_count_word(w, kw_while(), w.len() as int);
        lemma_keyword_count_word(w, kw_loop(), w.len() as int);
        lemma_char_count_word(w, w.len() as int);
        if w == kw_if() {
            assert(w != kw_match() && w != kw_for() && w != kw_while() && w != kw_loop());
        }
        if w == kw_for() {
            assert(w != kw_if() && w != kw_match() && w != kw_while() && w != kw_loop());
        }
        if w == kw_match() {
            assert(w[0] != kw_while()[0] && w[0] != kw_loop()[0]);
        }
        if w == kw_while() {
            assert(w[0] != kw_loop()[0]);
        }
    }
    let q = seq!['?'];
    lemma_no_keyword_in_question(kw_if());
    lemma_no_keyword_in_question(kw_match());
    lemma_no_keyword_in_question(kw_for());
    lemma_no_keyword_in_question(kw_while());
    lemma_no_keyword_in_question(kw_loop());
    assert(q[0] == '?');
    assert(char_count(q, '?', 0) == 0);
    assert(char_count(q, '?', 1) == 1);
    let j = a + seq![' '] + b;
    let n = j.len() as int;
    lemma_keyword_count_joined(a, b, kw_if(), n);
    lemma_keyword_count_joined(a, b, kw_match(), n);
    lemma_keyword_count_joined(a, b, kw_for(), n);
    lemma_keyword_count_joined(a, b, kw_while(), n);
    lemma_keyword_count_joined(a, b, kw_loop(), n);
    lemma_char_count_joined(a, b, n);
}

/// At most one marker starts at each position, so a line has no more
/// markers than characters; a position where `fn` starts holds none.
pub proof fn lemma_markers_bound(s: Seq<char>, n: int, q: int)
    requires
        0 <= n <= s.len(),
    ensures
        keyword_count(s, kw_if(), n) + keyword_count(s, kw_match(), n) + keyword_count(s, kw_for(), n)
            + keyword_count(s, kw_while(), n) + keyword_count(s, kw_loop(), n) + char_count(
            s,
            '?',
            n,
        ) + (if 0 <= q < n && keyword_at(s, kw_fn(), q) {
            1int
        } else {
            0
        }) <= n,
        keyword_count(s, kw_if(), n) >= 0,
        keyword_count(s, kw_match(), n) >= 0,
        keyword_count(s, kw_for(), n) >= 0,
        keyword_count(s, kw_while(), n) >= 0,
        keyword_count(s, kw_loop(), n) >= 0,
        char_count(s, '?', n) >= 0,
    decreases n,
{
    if n > 0 {
        lemma_markers_bound(s, n - 1, q);
        let p = n - 1;
        if keyword_at(s, kw_if(), p) {
            lemma_keyword_first_char(s, kw_if(), p);
        }
        if keyword_at(s, kw_match(), p) {
            lemma_keyword_first_char(s, kw_match(), p);
        }
        if keyword_at(s, kw_for(), p) {
            lemma_keyword_first_char(s, kw_for(), p);
            assert(s.subrange(p, p + 3)[1] == s[p + 1]);
        }
        if keyword_at(s, kw_while(), p) {
            lemma_keyword_first_char(s, kw_while(), p);
        }
        if keyword_at(s, kw_loop(), p) {
            lemma_keyword_first_char(s, kw_loop(), p);
        }
        if p == q && keyword_at(s, kw_fn(), q) {
            lemma_keyword_first_char(s, kw_fn(), q);
            assert(s.subrange(q, q + 2)[1] == s[q + 1]);
        }
    }
}

/// Number of whole-word occurrences of `keyword` in `line`.
fn count_keyword(line: &[char], keyword: &[char]) -> (count: usize)
    ensures
        count == keyword_count(line@, keyword@, line@.len() as int),
{
    let n = line.len();
    let mut count: usize = 0;
    let mut p: usize = 0;
    while p < n
        invariant
            n == line@.len(),
            p <= n,
            count <= p,
            count == keyword_count(line@, keyword@, p as int),
        decreases n - p,
    {
        if matches_at(line, p, keyword) && has_keyword_boundaries(line, p, keyword.len()) {
            count = count + 1;
        }
        p = p + 1;
    }
    count
}

/// Number of occurrences of `c` in `line`.
fn count_char(line: &[char], c: char) -> (count: usize)
    ensures
        count == char_count(line@, c, line@.len() as int),
{
    let n = line.len();
    let mut count: usize = 0;
    let mut p: usize = 0;
    while p < n
        invariant
            n == line@.len(),
            p <= n,
            count <= p,
            count == char_count(line@, c, p as int),
        decreases n - p,
    {
        if line[p] == c {
            count = count + 1;
        }
        p = p + 1;
    }
    count
}

/// Branch points on one comment-free line.
fn count_complexity_markers(line: &[char]) -> (count: usize)
    ensures
        count == markers(line@),
        count <= line@.len(),
{
    proof {
        lemma_markers_bound(line@, line@.len() as int, -1);
    }
    let n = line.len();
    let a = count_keyword(line, &['i', 'f']);
    let b = count_keyword(line, &['m', 'a', 't', 'c', 'h']);
    let c = count_keyword(line, &['f', 'o', 'r']);
    let d = count_keyword(line, &['w', 'h', 'i', 'l', 'e']);
    let e = count_keyword(line, &['l', 'o', 'o', 'p']);
    let f = count_char(line, '?');
    assert(a + b + c + d + e + f <= line@.len());
    a + b + c + d + e + f
}

/// A function whose body is still being read.
pub struct OpenFunction {
    pub name: Seq<char>,
    pub line: usize,
    pub complexity: int,
    pub depth: int,
    pub started: bool,
}

pub open spec fn finish(f: OpenFunction, file: Seq<char>) -> ComplexityModel {
    ComplexityModel { name: f.name, file, line: f.line, complexity: f.complexity as usize }
}

/// Closes `g` when it turned out to be a declaration (a `;` before any
/// `{`) or its braces balanced; keeps it open otherwise.
pub open spec fn settle(g: OpenFunction, s: Seq<char>, done: Seq<ComplexityModel>, file: Seq<char>) -> (
    Option<OpenFunction>,
    Seq<ComplexityModel>,
) {
    if !g.started && s.contains(';') {
        (None, done.push(finish(g, file)))
    } else if g.started && g.depth <= 0 {
        (None, done.push(finish(g, file)))
    } else {
        (Some(g), done)
    }
}

/// One line of the complexity scan: an open function absorbs the line's
/// markers and braces; otherwise a line with `fn <name>` opens a function
/// of complexity one plus the line's markers.
pub open spec fn scan_step(
    cur: Option<OpenFunction>,
    done: Seq<ComplexityModel>,
    s: Seq<char>,
    line: usize,
    file: Seq<char>,
) -> (Option<OpenFunction>, Seq<ComplexityModel>) {
    match cur {
        Some(f) => settle(
            OpenFunction {
                name: f.name,
                line: f.line,
                complexity: f.complexity + markers(s),
                depth: f.depth + brace_delta(s),
                started: f.started || s.contains('{'),
            },
            s,
            done,
            file,
        ),
        None => match ident_after_keyword(s, kw_fn()) {
            None => (None, done),
            Some(name) => settle(
                OpenFunction {
                    name,
                    line,
                    complexity: 1 + markers(s),
                    depth: brace_delta(s),
                    started: s.contains('{'),
                },
                s,
                done,
                file,
            ),
        },
    }
}

/// The scan state after the first `n` lines of `ls`.
pub open spec fn scan_upto(ls: Seq<Seq<char>>, file: Seq<char>, n: int) -> (
    Option<OpenFunction>,
    Seq<ComplexityModel>,
)
    decreases n,
{
    if n <= 0 {
        (None, seq![])
    } else {
        let prev = scan_upto(ls, file, n - 1);
        scan_step(prev.0, prev.1, searchable(ls, n - 1), n as usize, file)
    }
}

/// The functions of a text with their complexity; a function still open at
/// the end of the text is closed there.
pub open spec fn function_complexities(content: Seq<char>, file: Seq<char>) -> Seq<ComplexityModel> {
    let ls = lines(content);
    let last = scan_upto(ls, file, ls.len() as int);
    match last.0 {
        Some(f) => last.1.push(finish(f, file)),
        None => last.1,
    }
}

struct FunctionState {
    name: String,
    line: usize,
    complexity: usize,
    opens: usize,
    closes: usize,
    started: bool,
}

impl FunctionState {
    spec fn model(&self) -> OpenFunction {
        OpenFunction {
            name: self.name@,
            line: self.line,
            complexity: self.complexity as int,
            depth: self.opens - self.closes,
            started: self.started,
        }
    }

    fn to_complexity(&self, file: &str) -> (r: FunctionComplexity)
        ensures
            r@ == finish(self.model(), file@),
            r.line == self.line,
            r.complexity == self.complexity,
            r.file@ == file@,
    {
        FunctionComplexity {
            name: self.name.clone(),
            file: file.to_owned(),
            line: self.line,
            complexity: self.complexity,
        }
    }
}

fn contains_char(s: &[char], c: char) -> (r: bool)
    ensures
        r == s@.contains(c),
{
    let mut i: usize = 0;
    while i < s.len()
        invariant
            i <= s@.len(),
            forall|k: int| 0 <= k < i ==> s@[k] != c,
        decreases s@.len() - i,
    {
        if s[i] == c {
            assert(s@[i as int] == c);
            return true;
        }
        i = i + 1;
    }
    false
}

spec fn state_model(cur: Option<FunctionState>) -> Option<OpenFunction> {
    match cur {
        Some(f) => Some(f.model()),
        None => None,
    }
}

spec fn state_bounded(cur: Option<FunctionState>, bound: int) -> bool {
    match cur {
        Some(f) => f.complexity <= bound && f.opens <= bound && f.closes <= bound,
        None => true,
    }
}

/// Every function of `content` with its complexity: one, plus the branch
/// points on the lines from its `fn` line to the line where its braces
/// balance (or to its `;`, or to the end of the text).
pub fn calculate_function_complexities(content: &str, file: &str) -> (complexities: Vec<FunctionComplexity>)
    ensures
        complexities.deep_view() == function_complexities(content@, file@),
        forall|k: int|
            0 <= k < complexities@.len() ==> {
                &&& (#[trigger] complexities@[k]).complexity >= 1
                &&& complexities@[k].file@ == file@
                &&& 1 <= complexities@[k].line <= lines(content@).len()
            },
        forall|i: int, j: int|
            0 <= i < j < complexities@.len() ==> #[trigger] complexities@[i].line < #[trigger] complexities@[j].line,
{
    let chars = chars_of(content);
    let total = chars.len();
    let ls = split_lines(chars.as_slice());
    let ghost gl = lines(content@);
    proof {
        lemma_lines_size(content@);
    }
    let mut complexities: Vec<FunctionComplexity> = Vec::new();
    let mut in_block_comment = false;
    let mut current: Option<FunctionState> = None;
    let mut index: usize = 0;
    while index < ls.len()
        invariant
            ls@.len() == gl.len(),
            forall|i: int| 0 <= i < ls@.len() ==> #[trigger] ls@[i]@ == gl[i],
            index <= ls@.len(),
            prefix_len(gl, gl.len() as int) <= content@.len(),
            content@.len() == total,
            in_block_comment == block_state(gl, index as int),
            state_model(current) == scan_upto(gl, file@, index as int).0,
            complexities.deep_view() == scan_upto(gl, file@, index as int).1,
            state_bounded(current, prefix_len(gl, index as int)),
            forall|k: int|
                0 <= k < complexities@.len() ==> {
                    &&& (#[trigger] complexities@[k]).complexity >= 1
                    &&& complexities@[k].file@ == file@
                    &&& 1 <= complexities@[k].line <= index
                },
            forall|i: int, j: int|
                0 <= i < j < complexities@.len() ==> #[trigger] complexities@[i].line < #[trigger] complexities@[j].line,
            current matches Some(f) ==> {
                &&& f.complexity >= 1
                &&& 1 <= f.line <= index
                &&& forall|k: int| 0 <= k < complexities@.len() ==> #[trigger] complexities@[k].line < f.line
            },
        decreases ls@.len() - index,
    {
        let line_number = index + 1;
        let ghost before = in_block_comment;
        let s = strip_comments(ls[index].as_slice(), &mut in_block_comment);
        let ghost bound = prefix_len(gl, index + 1);
        proof {
            assert(s@ == searchable(gl, index as int));
            assert(prefix_len(gl, index + 1) == prefix_len(gl, index as int) + gl[index as int].len());
            assert(s@.len() <= gl[index as int].len());
            lemma_prefix_len_mono(gl, index + 1, gl.len() as int);
            lemma_prefix_len_mono(gl, 0, index as int);
            lemma_markers_bound(s@, s@.len() as int, -1);
            lemma_char_count_bound(s@, '{', s@.len() as int);
            lemma_char_count_bound(s@, '}', s@.len() as int);
        }
        let ghost done = complexities.deep_view();
        let markers_here = count_complexity_markers(s.as_slice());
        let opens_here = count_char(s.as_slice(), '{');
        let closes_here = count_char(s.as_slice(), '}');
        let has_open = contains_char(s.as_slice(), '{');
        let has_semicolon = contains_char(s.as_slice(), ';');
        match current {
            Some(function) => {
                let mut function = function;
                function.complexity = function.complexity + markers_here;
                if !function.started && has_open {
                    function.started = true;
                }
                function.opens = function.opens + opens_here;
                function.closes = function.closes + closes_here;
                if !function.started && has_semicolon {
                    let finished = function.to_complexity(file);
                    complexities.push(finished);
                    current = None;
                } else if function.started && function.closes >= function.opens {
                    let finished = function.to_complexity(file);
                    complexities.push(finished);
                    current = None;
                } else {
                    current = Some(function);
                }
            },
            None => {
                match extract_ident_after_keyword(s.as_slice(), &['f', 'n']) {
                    None => {
                    },
                    Some(name) => {
                        proof {
                            lemma_find_keyword_from(s@, kw_fn(), 0);
                            let q = crate::parser::keyword_position(s@, kw_fn())->0;
                            lemma_markers_bound(s@, s@.len() as int, q);
                        }
                        let function = FunctionState {
                            name: string_from_chars(name.as_slice()),
                            line: line_number,
                            complexity: 1 + markers_here,
                            opens: opens_here,
                            closes: closes_here,
                            started: has_open,
                        };
                        if !function.started && has_semicolon {
                            let finished = function.to_complexity(file);
                            complexities.push(finished);
                        } else if function.started && function.closes >= function.opens {
                            let finished = function.to_complexity(file);
                            complexities.push(finished);
                        } else {
                            current = Some(function);
                        }
                    },
                }
            },
        }
        proof {
            assert(complexities.deep_view() == scan_upto(gl, file@, index + 1).1);
        }
        index = index + 1;
    }
    match current {
        Some(function) => {
            let finished = function.to_complexity(file);
            complexities.push(finished);
        },
        None => {
        },
    }
    complexities
}

// ---------------------------------------------------------------- complexities and items

/// `items` holds a function item named `name` of `file` at `line`.
pub open spec fn has_function_item(items: Seq<CodeItemModel>, name: Seq<char>, file: Seq<char>, line: usize) -> bool {
    items.contains(CodeItemModel { name, kind: ItemKind::Function, file, line })
}

/// What holds after the first `n` lines of the complexity scan: every
/// finished function and the open one are function items of those lines,
/// in strictly increasing line order, with complexity at least one.
pub open spec fn scan_agrees(ls: Seq<Seq<char>>, file: Seq<char>, n: int) -> bool {
    let st = scan_upto(ls, file, n);
    let done = st.1;
    let items = items_upto(ls, file, n);
    &&& forall|k: int|
        0 <= k < done.len() ==> {
            &&& (#[trigger] done[k]).file == file
            &&& done[k].complexity >= 1
            &&& 1 <= done[k].line <= n
            &&& has_function_item(items, done[k].name, file, done[k].line)
        }
    &&& forall|i: int, j: int| 0 <= i < j < done.len() ==> #[trigger] done[i].line < #[trigger] done[j].line
    &&& st.0 matches Some(f) ==> {
        &&& 1 <= f.complexity <= 1 + prefix_len(ls, n)
        &&& 1 <= f.line <= n
        &&& has_function_item(items, f.name, file, f.line)
        &&& forall|k: int| 0 <= k < done.len() ==> #[trigger] done[k].line < f.line
    }
}

proof fn lemma_item_kept(a: Seq<CodeItemModel>, b: Seq<CodeItemModel>, name: Seq<char>, file: Seq<char>, line: usize)
    requires
        has_function_item(a, name, file, line),
    ensures
        has_function_item(a + b, name, file, line),
{
    let x = CodeItemModel { name, kind: ItemKind::Function, file, line };
    let j = choose|j: int| 0 <= j < a.len() && a[j] == x;
    assert((a + b)[j] == x);
}

proof fn lemma_settle_agrees(
    ls: Seq<Seq<char>>,
    file: Seq<char>,
    n: int,
    g: OpenFunction,
    s: Seq<char>,
    done: Seq<ComplexityModel>,
)
    requires
        1 <= n,
        1 <= g.complexity <= usize::MAX,
        g.complexity <= 1 + prefix_len(ls, n),
        1 <= g.line <= n,
        has_function_item(items_upto(ls, file, n), g.name, file, g.line),
        forall|k: int| 0 <= k < done.len() ==> #[trigger] done[k].line < g.line,
        forall|k: int|
            0 <= k < done.len() ==> {
                &&& (#[trigger] done[k]).file == file
                &&& done[k].complexity >= 1
                &&& 1 <= done[k].line <= n
                &&& has_function_item(items_upto(ls, file, n), done[k].name, file, done[k].line)
            },
        forall|i: int, j: int| 0 <= i < j < done.len() ==> #[trigger] done[i].line < #[trigger] done[j].line,
    ensures
        ({
            let st = settle(g, s, done, file);
            let items = items_upto(ls, file, n);
            &&& forall|k: int|
                0 <= k < st.1.len() ==> {
                    &&& (#[trigger] st.1[k]).file == file
                    &&& st.1[k].complexity >= 1
                    &&& 1 <= st.1[k].line <= n
                    &&& has_function_item(items, st.1[k].name, file, st.1[k].line)
                }
            &&& forall|i: int, j: int| 0 <= i < j < st.1.len() ==> #[trigger] st.1[i].line < #[trigger] st.1[j].line
            &&& st.0 matches Some(f) ==> {
                &&& 1 <= f.complexity <= 1 + prefix_len(ls, n)
                &&& 1 <= f.line <= n
                &&& has_function_item(items, f.name, file, f.line)
                &&& forall|k: int| 0 <= k < st.1.len() ==> #[trigger] st.1[k].line < f.line
            }
        }),
{
    let st = settle(g, s, done, file);
    if st.0 is None {
        let out = done.push(finish(g, file));
        assert(st.1 == out);
        assert(out[done.len() as int] == finish(g, file));
        assert forall|k: int| 0 <= k < out.len() implies (#[trigger] out[k]).file == file && out[k].complexity
            >= 1 && 1 <= out[k].line <= n && has_function_item(
            items_upto(ls, file, n),
            out[k].name,
            file,
            out[k].line,
        ) by {
            if k < done.len() {
                assert(out[k] == done[k]);
            }
        }
        assert forall|i: int, j: int| 0 <= i < j < out.len() implies #[trigger] out[i].line
            < #[trigger] out[j].line by {
            assert(out[i] == done[i]);
            if j < done.len() {
                assert(out[j] == done[j]);
            }
        }
    }
}

proof fn lemma_scan_agrees(ls: Seq<Seq<char>>, file: Seq<char>, n: int)
    requires
        0 <= n <= ls.len(),
        ls.len() <= usize::MAX,
        prefix_len(ls, ls.len() as int) < usize::MAX,
    ensures
        scan_agrees(ls, file, n),
    decreases n,
{
    if n > 0 {
        lemma_scan_agrees(ls, file, n - 1);
        let prev = scan_upto(ls, file, n - 1);
        let done = prev.1;
        let s = searchable(ls, n - 1);
        let before = items_upto(ls, file, n - 1);
        let here = line_items(trim_start(s), file, n as usize);
        let items = items_upto(ls, file, n);
        assert(items == before + here);
        lemma_searchable_len(ls, n - 1);
        lemma_markers_bound(s, s.len() as int, -1);
        lemma_char_count_bound(s, '?', s.len() as int);
        lemma_prefix_len_mono(ls, n, ls.len() as int);
        lemma_prefix_len_mono(ls, 0, n - 1);
        assert(prefix_len(ls, n) == prefix_len(ls, n - 1) + ls[n - 1].len());
        assert(0 <= markers(s) <= s.len());
        assert forall|k: int| 0 <= k < done.len() implies has_function_item(
            items,
            (#[trigger] done[k]).name,
            file,
            done[k].line,
        ) by {
            lemma_item_kept(before, here, done[k].name, file, done[k].line);
        }
        let st = scan_upto(ls, file, n);
        assert(st == scan_step(prev.0, prev.1, s, n as usize, file));
        match prev.0 {
            Some(f) => {
                lemma_item_kept(before, here, f.name, file, f.line);
                let g = OpenFunction {
                    name: f.name,
                    line: f.line,
                    complexity: f.complexity + markers(s),
                    depth: f.depth + brace_delta(s),
                    started: f.started || s.contains('{'),
                };
                assert(st == settle(g, s, done, file));
                lemma_settle_agrees(ls, file, n, g, s, done);
            },
            None => {
                match ident_after_keyword(s, kw_fn()) {
                    None => {
                        assert(st == (None::<OpenFunction>, done));
                    },
                    Some(name) => {
                        lemma_ident_after_trim(s, kw_fn());
                        let x = CodeItemModel { name, kind: ItemKind::Function, file, line: n as usize };
                        assert(here[0] == x);
                        assert(items[before.len() as int] == x);
                        let g = OpenFunction {
                            name,
                            line: n as usize,
                            complexity: 1 + markers(s),
                            depth: brace_delta(s),
                            started: s.contains('{'),
                        };
                        assert(st == settle(g, s, done, file));
                        lemma_settle_agrees(ls, file, n, g, s, done);
                    },
                }
            },
        }
    }
}

/// Every function whose complexity is reported is also reported as a
/// function item of the same file, with the same name and line; the
/// reported functions lie on lines of the text, in strictly increasing
/// line order, each with complexity at least one.
pub proof fn law_complexities_match_items(content: Seq<char>, file: Seq<char>)
    requires
        content.len() < usize::MAX,
    ensures
        forall|k: int|
            0 <= k < function_complexities(content, file).len() ==> {
                &&& (#[trigger] function_complexities(content, file)[k]).file == file
                &&& function_complexities(content, file)[k].complexity >= 1
                &&& 1 <= function_complexities(content, file)[k].line <= lines(content).len()
                &&& has_function_item(
                    code_items(content, file),
                    function_complexities(content, file)[k].name,
                    file,
                    function_complexities(content, file)[k].line,
                )
            },
        forall|i: int, j: int|
            0 <= i < j < function_complexities(content, file).len() ==> #[trigger] function_complexities(
                content,
                file,
            )[i].line < #[trigger] function_complexities(content, file)[j].line,
{
    let ls = lines(content);
    lemma_lines_size(content);
    lemma_scan_agrees(ls, file, ls.len() as int);
    let last = scan_upto(ls, file, ls.len() as int);
    let done = last.1;
    let all = function_complexities(content, file);
    match last.0 {
        Some(f) => {
            assert(all == done.push(finish(f, file)));
            assert forall|k: int| 0 <= k < all.len() implies (#[trigger] all[k]).file == file
                && all[k].complexity >= 1 && 1 <= all[k].line <= ls.len() && has_function_item(
                code_items(content, file),
                all[k].name,
                file,
                all[k].line,
            ) by {
                if k < done.len() {
                    assert(all[k] == done[k]);
                }
            }
            assert forall|i: int, j: int| 0 <= i < j < all.len() implies #[trigger] all[i].line
                < #[trigger] all[j].line by {
                assert(all[i] == done[i]);
                if j < done.len() {
                    assert(all[j] == done[j]);
                }
            }
        },
        None => {},
    }
}

// ---------------------------------------------------------------- function spans

/// Branch markers on lines `i` up to (not including) `m`, comments removed.
pub open spec fn marker_sum(ls: Seq<Seq<char>>, i: int, m: int) -> int
    decreases m - i,
{
    if m <= i {
        0
    } else {
        marker_sum(ls, i, m - 1) + markers(searchable(ls, m - 1))
    }
}

/// Opening minus closing braces on lines `i` up to (not including) `m`.
pub open spec fn brace_sum(ls: Seq<Seq<char>>, i: int, m: int) -> int
    decreases m - i,
{
    if m <= i {
        0
    } else {
        brace_sum(ls, i, m - 1) + brace_delta(searchable(ls, m - 1))
    }
}

/// Some line from `i` up to (not including) `m` has a `{`.
pub open spec fn body_opened(ls: Seq<Seq<char>>, i: int, m: int) -> bool
    decreases m - i,
{
    if m <= i {
        false
    } else {
        body_opened(ls, i, m - 1) || searchable(ls, m - 1).contains('{')
    }
}

/// A function whose `fn` is on line `i` ends on line `m`: there is a `;`
/// on line `m` and no `{` on lines `i..=m` (a declaration), or a `{` has
/// been seen and the braces of lines `i..=m` balance.
pub open spec fn ends_on(ls: Seq<Seq<char>>, i: int, m: int) -> bool {
    ||| !body_opened(ls, i, m + 1) && searchable(ls, m).contains(';')
    ||| body_opened(ls, i, m + 1) && brace_sum(ls, i, m + 1) <= 0
}

/// A function starting on line `i` spans lines `i..=j`: it ends on no
/// earlier line, and ends on line `j` or the text ends there; its
/// complexity is then one plus the branch markers of those lines.
pub open spec fn span_fits(ls: Seq<Seq<char>>, i: int, j: int, complexity: int) -> bool {
    &&& 0 <= i <= j < ls.len()
    &&& forall|m: int| i <= m < j ==> !#[trigger] ends_on(ls, i, m)
    &&& ends_on(ls, i, j) || j == ls.len() - 1
    &&& complexity == 1 + marker_sum(ls, i, j + 1)
}

/// A reported function fits the span of lines that starts at its line.
pub open spec fn entry_fits(ls: Seq<Seq<char>>, e: ComplexityModel) -> bool {
    exists|j: int| #[trigger] span_fits(ls, e.line - 1, j, e.complexity as int)
}

/// What holds after the first `n` lines of the scan: every finished
/// function fits its span, and the open one has absorbed the markers and
/// braces of lines from its `fn` line up to `n` without ending on any.
pub open spec fn scan_spans(ls: Seq<Seq<char>>, file: Seq<char>, n: int) -> bool {
    let st = scan_upto(ls, file, n);
    &&& forall|k: int| 0 <= k < st.1.len() ==> entry_fits(ls, #[trigger] st.1[k])
    &&& st.0 matches Some(f) ==> {
        let i = f.line - 1;
        &&& 0 <= i < n
        &&& f.complexity == 1 + marker_sum(ls, i, n)
        &&& f.depth == brace_sum(ls, i, n)
        &&& f.started == body_opened(ls, i, n)
        &&& forall|m: int| i <= m < n ==> !#[trigger] ends_on(ls, i, m)
    }
}

proof fn lemma_settle_spans(ls: Seq<Seq<char>>, file: Seq<char>, n: int, g: OpenFunction, done: Seq<ComplexityModel>)
    requires
        1 <= n <= ls.len(),
        0 <= g.line - 1 < n,
        1 <= g.complexity <= usize::MAX,
        g.complexity == 1 + marker_sum(ls, g.line - 1, n),
        g.depth == brace_sum(ls, g.line - 1, n),
        g.started == body_opened(ls, g.line - 1, n),
        forall|m: int| g.line - 1 <= m < n - 1 ==> !#[trigger] ends_on(ls, g.line - 1, m),
        forall|k: int| 0 <= k < done.len() ==> entry_fits(ls, #[trigger] done[k]),
    ensures
        ({
            let st = settle(g, searchable(ls, n - 1), done, file);
            &&& forall|k: int| 0 <= k < st.1.len() ==> entry_fits(ls, #[trigger] st.1[k])
            &&& st.0 matches Some(f) ==> {
                let i = f.line - 1;
                &&& 0 <= i < n
                &&& f.complexity == 1 + marker_sum(ls, i, n)
                &&& f.depth == brace_sum(ls, i, n)
                &&& f.started == body_opened(ls, i, n)
                &&& forall|m: int| i <= m < n ==> !#[trigger] ends_on(ls, i, m)
            }
        }),
{
    let i = g.line - 1;
    let s = searchable(ls, n - 1);
    let st = settle(g, s, done, file);
    if ends_on(ls, i, n - 1) {
        let e = finish(g, file);
        assert(st.1 == done.push(e));
        assert(span_fits(ls, e.line - 1, n - 1, e.complexity as int));
        assert forall|k: int| 0 <= k < st.1.len() implies entry_fits(ls, #[trigger] st.1[k]) by {
            if k < done.len() {
                assert(st.1[k] == done[k]);
            }
        }
    } else {
        assert(st == (Some(g), done));
        assert forall|m: int| i <= m < n implies !#[trigger] ends_on(ls, i, m) by {
            if m < n - 1 {
            }
        }
    }
}

proof fn lemma_scan_spans(ls: Seq<Seq<char>>, file: Seq<char>, n: int)
    requires
        0 <= n <= ls.len(),
        ls.len() <= usize::MAX,
        prefix_len(ls, ls.len() as int) < usize::MAX,
    ensures
        scan_spans(ls, file, n),
    decreases n,
{
    if n > 0 {
        lemma_scan_spans(ls, file, n - 1);
        lemma_scan_agrees(ls, file, n);
        lemma_scan_agrees(ls, file, n - 1);
        let prev = scan_upto(ls, file, n - 1);
        let s = searchable(ls, n - 1);
        let st = scan_upto(ls, file, n);
        assert(st == scan_step(prev.0, prev.1, s, n as usize, file));
        lemma_searchable_len(ls, n - 1);
        lemma_markers_bound(s, s.len() as int, -1);
        lemma_char_count_bound(s, '?', s.len() as int);
        lemma_prefix_len_mono(ls, n, ls.len() as int);
        lemma_prefix_len_mono(ls, 0, n - 1);
        assert(prefix_len(ls, n) == prefix_len(ls, n - 1) + ls[n - 1].len());
        match prev.0 {
            Some(f) => {
                let g = OpenFunction {
                    name: f.name,
                    line: f.line,
                    complexity: f.complexity + markers(s),
                    depth: f.depth + brace_delta(s),
                    started: f.started || s.contains('{'),
                };
                assert(st == settle(g, s, prev.1, file));
                lemma_settle_spans(ls, file, n, g, prev.1);
            },
            None => {
                match ident_after_keyword(s, kw_fn()) {
                    None => {},
                    Some(name) => {
                        let g = OpenFunction {
                            name,
                            line: n as usize,
                            complexity: 1 + markers(s),
                            depth: brace_delta(s),
                            started: s.contains('{'),
                        };
                        assert(st == settle(g, s, prev.1, file));
                        assert(marker_sum(ls, n - 1, n - 1) == 0);
                        assert(brace_sum(ls, n - 1, n - 1) == 0);
                        assert(!body_opened(ls, n - 1, n - 1));
                        lemma_settle_spans(ls, file, n, g, prev.1);
                    },
                }
            },
        }
    }
}

/// Each reported function covers the lines from its `fn` line to the line
/// where it ends (its `;` before any `{`, or the line where its braces
/// balance after a `{`), or to the end of the text when it never ends: it
/// ends on none of the lines before, and its complexity is one plus the
/// branch markers (`if`, `match`, `for`, `while`, `loop`, `?`) on all of
/// those lines. A `fn` line with neither `{` nor `;` therefore does not
/// end its function.
pub proof fn law_complexity_spans(content: Seq<char>, file: Seq<char>)
    requires
        content.len() < usize::MAX,
    ensures
        forall|k: int|
            0 <= k < function_complexities(content, file).len() ==> entry_fits(
                lines(content),
                #[trigger] function_complexities(content, file)[k],
            ),
{
    let ls = lines(content);
    lemma_lines_size(content);
    lemma_scan_spans(ls, file, ls.len() as int);
    lemma_scan_agrees(ls, file, ls.len() as int);
    lemma_prefix_len_mono(ls, 0, ls.len() as int);
    let last = scan_upto(ls, file, ls.len() as int);
    let all = function_complexities(content, file);
    match last.0 {
        Some(f) => {
            let e = finish(f, file);
            assert(all == last.1.push(e));
            assert(span_fits(ls, e.line - 1, ls.len() - 1, e.complexity as int));
            assert forall|k: int| 0 <= k < all.len() implies entry_fits(ls, #[trigger] all[k]) by {
                if k < last.1.len() {
                    assert(all[k] == last.1[k]);
                }
            }
        },
        None => {},
    }
}

} // verus!
