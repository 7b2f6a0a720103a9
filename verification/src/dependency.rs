//! Module dependencies: the paths named by `use` declarations.
use vstd::prelude::*;
use vstd::slice::slice_to_vec;
use crate::error::{ErrorModel, RustScopeError};
use crate::model::{DependencyEdge, DependencyModel};
use crate::parser::{block_state, searchable, strip_comments};
use crate::text::{chars_of, has_prefix, lines, split_lines, starts_with, string_from_chars, trim, trim_chars, trim_start, trim_start_chars};

verus! {

/// `line` with one leading `pub(crate) `, `pub(super) ` or `pub ` removed.
pub open spec fn without_visibility(line: Seq<char>) -> Seq<char> {
    if has_prefix(line, "pub(crate) "@) {
        line.skip(11)
    } else if has_prefix(line, "pub(super) "@) {
        line.skip(11)
    } else if has_prefix(line, "pub "@) {
        line.skip(4)
    } else {
        line
    }
}

/// Index of the first `';'` at or after `i`, or the length.
pub open spec fn semicolon_at(s: Seq<char>, i: int) -> int
    decreases s.len() - i,
{
    if i < 0 || i >= s.len() || s[i] == ';' {
        i
    } else {
        semicolon_at(s, i + 1)
    }
}

pub proof fn lemma_semicolon_at(s: Seq<char>, i: int)
    requires
        0 <= i <= s.len(),
    ensures
        i <= semicolon_at(s, i) <= s.len(),
    decreases s.len() - i,
{
    if i < s.len() && s[i] != ';' {
        lemma_semicolon_at(s, i + 1);
    }
}

/// For a (left-trimmed, comment-free) `use` line, the imported path: the
/// text after `use ` up to the first `;`, trimmed. `None` for other lines.
pub open spec fn use_target(line: Seq<char>) -> Option<Seq<char>> {
    let l = without_visibility(line);
    if has_prefix(l, "use "@) {
        let after = l.skip(4);
        Some(trim(after.take(semicolon_at(after, 0))))
    } else {
        None
    }
}

proof fn lemma_not_prefix(line: Seq<char>, p: Seq<char>, i: int)
    requires
        0 <= i < p.len(),
        i < line.len(),
        line[i] != p[i],
    ensures
        !has_prefix(line, p),
{
    if has_prefix(line, p) {
        assert(line.take(p.len() as int)[i] == line[i]);
    }
}

proof fn lemma_use_line(t: Seq<char>, rest: Seq<char>)
    requires
        forall|k: int| 0 <= k < t.len() ==> t[k] != ';',
    ensures
        without_visibility("use "@ + t + seq![';'] + rest) == "use "@ + t + seq![';'] + rest,
        use_target("use "@ + t + seq![';'] + rest) == Some(trim(t)),
{
    reveal_strlit("use ");
    reveal_strlit("pub ");
    reveal_strlit("pub(crate) ");
    reveal_strlit("pub(super) ");
    let line = "use "@ + t + seq![';'] + rest;
    assert(line[0] == 'u');
    lemma_not_prefix(line, "pub(crate) "@, 0);
    lemma_not_prefix(line, "pub(super) "@, 0);
    lemma_not_prefix(line, "pub "@, 0);
    assert(line.take(4) =~= "use "@);
    let after = line.skip(4);
    assert(after =~= t + seq![';'] + rest);
    lemma_semicolon_to(after, 0, t.len() as int);
    assert(after.take(t.len() as int) =~= t);
}

proof fn lemma_semicolon_to(s: Seq<char>, i: int, j: int)
    requires
        0 <= i <= j < s.len(),
        s[j] == ';',
        forall|k: int| i <= k < j ==> s[k] != ';',
    ensures
        semicolon_at(s, i) == j,
    decreases j - i,
{
    if i < j {
        lemma_semicolon_to(s, i + 1, j);
    }
}

/// The path of a `use` declaration is the text between `use ` and the
/// first `;`, trimmed, whether or not the declaration is marked `pub`,
/// `pub(crate)` or `pub(super)`; a line that starts with neither `u` nor
/// `p` declares nothing.
pub proof fn law_use_target(t: Seq<char>, rest: Seq<char>, line: Seq<char>)
    requires
        forall|k: int| 0 <= k < t.len() ==> t[k] != ';',
    ensures
        use_target("use "@ + t + seq![';'] + rest) == Some(trim(t)),
        use_target("pub "@ + ("use "@ + t + seq![';'] + rest)) == Some(trim(t)),
        use_target("pub(crate) "@ + ("use "@ + t + seq![';'] + rest)) == Some(trim(t)),
        use_target("pub(super) "@ + ("use "@ + t + seq![';'] + rest)) == Some(trim(t)),
        line.len() > 0 && line[0] != 'u' && line[0] != 'p' ==> use_target(line) is None,
{
    reveal_strlit("use ");
    reveal_strlit("pub ");
    reveal_strlit("pub(crate) ");
    reveal_strlit("pub(super) ");
    lemma_use_line(t, rest);
    let u = "use "@ + t + seq![';'] + rest;
    let a = "pub "@ + u;
    assert(a[3] == ' ');
    lemma_not_prefix(a, "pub(crate) "@, 3);
    lemma_not_prefix(a, "pub(super) "@, 3);
    assert(a.take(4) =~= "pub "@);
    assert(a.skip(4) =~= u);
    let b = "pub(crate) "@ + u;
    assert(b.take(11) =~= "pub(crate) "@);
    assert(b.skip(11) =~= u);
    let c = "pub(super) "@ + u;
    assert(c[4] == 's');
    lemma_not_prefix(c, "pub(crate) "@, 4);
    assert(c.take(11) =~= "pub(super) "@);
    assert(c.skip(11) =~= u);
    if line.len() > 0 && line[0] != 'u' && line[0] != 'p' {
        lemma_not_prefix(line, "pub(crate) "@, 0);
        lemma_not_prefix(line, "pub(super) "@, 0);
        lemma_not_prefix(line, "pub "@, 0);
        lemma_not_prefix(line, "use "@, 0);
    }
}

pub open spec fn empty_use_message() -> Seq<char> {
    "empty use dependency path"@
}

/// The path imported by a `use` line; an error for `use` with an empty path.
pub fn extract_use_path(line: &[char]) -> (r: Result<Option<String>, RustScopeError>)
    ensures
        match use_target(line@) {
            None => r matches Ok(None),
            Some(t) => if t.len() == 0 {
                r matches Err(e) && e@ == ErrorModel::Parse(empty_use_message())
            } else {
                r matches Ok(Some(p)) && p@ == t
            },
        },
{
    let l: &[char] = if starts_with(line, &['p', 'u', 'b', '(', 'c', 'r', 'a', 't', 'e', ')', ' ']) {
        assert(seq!['p', 'u', 'b', '(', 'c', 'r', 'a', 't', 'e', ')', ' '] == "pub(crate) "@) by {
            reveal_strlit("pub(crate) ");
        }
        &line[11..line.len()]
    } else if starts_with(line, &['p', 'u', 'b', '(', 's', 'u', 'p', 'e', 'r', ')', ' ']) {
        assert(seq!['p', 'u', 'b', '(', 's', 'u', 'p', 'e', 'r', ')', ' '] == "pub(super) "@) by {
            reveal_strlit("pub(super) ");
        }
        assert(seq!['p', 'u', 'b', '(', 'c', 'r', 'a', 't', 'e', ')', ' '] == "pub(crate) "@) by {
            reveal_strlit("pub(crate) ");
        }
        &line[11..line.len()]
    } else if starts_with(line, &['p', 'u', 'b', ' ']) {
        assert(seq!['p', 'u', 'b', ' '] == "pub "@) by {
            reveal_strlit("pub ");
        }
        assert(seq!['p', 'u', 'b', '(', 's', 'u', 'p', 'e', 'r', ')', ' '] == "pub(super) "@) by {
            reveal_strlit("pub(super) ");
        }
        assert(seq!['p', 'u', 'b', '(', 'c', 'r', 'a', 't', 'e', ')', ' '] == "pub(crate) "@) by {
            reveal_strlit("pub(crate) ");
        }
        &line[4..line.len()]
    } else {
        assert(seq!['p', 'u', 'b', ' '] == "pub "@) by {
            reveal_strlit("pub ");
        }
        assert(seq!['p', 'u', 'b', '(', 's', 'u', 'p', 'e', 'r', ')', ' '] == "pub(super) "@) by {
            reveal_strlit("pub(super) ");
        }
        assert(seq!['p', 'u', 'b', '(', 'c', 'r', 'a', 't', 'e', ')', ' '] == "pub(crate) "@) by {
            reveal_strlit("pub(crate) ");
        }
        line
    };
    assert(l@ == without_visibility(line@));
    assert(seq!['u', 's', 'e', ' '] == "use "@) by {
        reveal_strlit("use ");
    }
    if !starts_with(l, &['u', 's', 'e', ' ']) {
        return Ok(None);
    }
    let after = &l[4..l.len()];
    assert(after@ == l@.skip(4));
    let mut k: usize = 0;
    while k < after.len() && after[k] != ';'
        invariant
            k <= after@.len(),
            semicolon_at(after@, 0) == semicolon_at(after@, k as int),
        decreases after@.len() - k,
    {
        k = k + 1;
    }
    let before_semicolon = trim_chars(&after[0..k]);
    if before_semicolon.len() == 0 {
        return Err(RustScopeError::Parse(String::from_str("empty use dependency path")));
    }
    Ok(Some(string_from_chars(before_semicolon.as_slice())))
}

/// `file` with every `\\` turned into `/`.
pub open spec fn module_name(file: Seq<char>) -> Seq<char> {
    file.map_values(|c: char| if c == '\\' { '/' } else { c })
}

/// A file's module name has the file's length and no `\\`: each `\\` of
/// the path becomes `/`, and every other character stays as it is.
pub proof fn law_module_name(file: Seq<char>)
    ensures
        module_name(file).len() == file.len(),
        forall|k: int|
            0 <= k < file.len() ==> (#[trigger] module_name(file)[k]) == if file[k] == '\\' {
                '/'
            } else {
                file[k]
            },
        forall|k: int| 0 <= k < file.len() ==> #[trigger] module_name(file)[k] != '\\',
{
}

/// The name a file is known by as the source of dependency edges.
pub fn module_name_from_path(file: &str) -> (name: String)
    ensures
        name@ == module_name(file@),
{
    let chars = chars_of(file);
    let mut out: Vec<char> = Vec::new();
    let mut i: usize = 0;
    while i < chars.len()
        invariant
            i <= chars@.len(),
            out@ == module_name(chars@.take(i as int)),
        decreases chars@.len() - i,
    {
        let c = chars[i];
        out.push(if c == '\\' { '/' } else { c });
        proof {
            assert(chars@.take(i + 1) == chars@.take(i as int).push(c));
            assert(module_name(chars@.take(i + 1)) =~= module_name(chars@.take(i as int)).push(
                if c == '\\' { '/' } else { c },
            ));
        }
        i = i + 1;
    }
    assert(chars@.take(chars@.len() as int) == chars@);
    string_from_chars(out.as_slice())
}

/// The dependency edges of the first `n` lines of `ls`, or `None` when one
/// of them is a `use` with an empty path.
pub open spec fn dependencies_upto(ls: Seq<Seq<char>>, from: Seq<char>, n: int) -> Option<Seq<DependencyModel>>
    decreases n,
{
    if n <= 0 {
        Some(seq![])
    } else {
        match dependencies_upto(ls, from, n - 1) {
            None => None,
            Some(d) => match use_target(trim_start(searchable(ls, n - 1))) {
                None => Some(d),
                Some(t) => if t.len() == 0 {
                    None
                } else {
                    Some(d.push(DependencyModel { from, to: t }))
                },
            },
        }
    }
}

/// Once a line is refused, so is every longer prefix of the text.
pub proof fn lemma_dependencies_refused(ls: Seq<Seq<char>>, from: Seq<char>, m: int, n: int)
    requires
        0 <= m <= n,
        dependencies_upto(ls, from, m) is None,
    ensures
        dependencies_upto(ls, from, n) is None,
    decreases n - m,
{
    if m < n {
        lemma_dependencies_refused(ls, from, m, n - 1);
    }
}

/// The dependency edges of a whole text, from `file`.
pub open spec fn dependencies_of(content: Seq<char>, file: Seq<char>) -> Option<Seq<DependencyModel>> {
    dependencies_upto(lines(content), module_name(file), lines(content).len() as int)
}

/// One edge from `file` to each path named by a `use` declaration outside
/// comments, in order; an error when a `use` names an empty path.
pub fn parse_use_dependencies(content: &str, file: &str) -> (r: Result<Vec<DependencyEdge>, RustScopeError>)
    ensures
        match dependencies_of(content@, file@) {
            Some(d) => r matches Ok(v) && v.deep_view() == d,
            None => r matches Err(e) && e@ == ErrorModel::Parse(empty_use_message()),
        },
        r matches Ok(v) ==> forall|k: int|
            0 <= k < v@.len() ==> (#[trigger] v@[k]).from@ == module_name(file@) && v@[k].to@.len() > 0,
{
    let chars = chars_of(content);
    let ls = split_lines(chars.as_slice());
    let ghost gl = lines(content@);
    let from = module_name_from_path(file);
    let mut dependencies: Vec<DependencyEdge> = Vec::new();
    let mut in_block_comment = false;
    let mut index: usize = 0;
    while index < ls.len()
        invariant
            gl == lines(content@),
            ls@.len() == gl.len(),
            forall|i: int| 0 <= i < ls@.len() ==> #[trigger] ls@[i]@ == gl[i],
            index <= ls@.len(),
            from@ == module_name(file@),
            in_block_comment == block_state(gl, index as int),
            dependencies_upto(gl, from@, index as int) == Some(dependencies.deep_view()),
            forall|k: int|
                0 <= k < dependencies@.len() ==> (#[trigger] dependencies@[k]).from@ == from@
                    && dependencies@[k].to@.len() > 0,
        decreases ls@.len() - index,
    {
        let s = strip_comments(ls[index].as_slice(), &mut in_block_comment);
        let trimmed = trim_start_chars(s.as_slice());
        assert(s@ == searchable(gl, index as int));
        match extract_use_path(trimmed.as_slice()) {
            Err(e) => {
                proof {
                    assert(dependencies_upto(gl, from@, index + 1) is None);
                    lemma_dependencies_refused(gl, from@, index + 1, gl.len() as int);
                }
                return Err(e);
            },
            Ok(None) => {
            },
            Ok(Some(path)) => {
                let ghost before = dependencies.deep_view();
                let edge = DependencyEdge { from: from.clone(), to: path };
                dependencies.push(edge);
                assert(dependencies.deep_view() =~= before.push(edge@));
            },
        }
        index = index + 1;
    }
    Ok(dependencies)
}

} // verus!
