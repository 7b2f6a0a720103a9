//! Which files of a project are analyzed, and in what order.
use vstd::prelude::*;
use vstd::slice::slice_to_vec;
use crate::error::{ErrorModel, RustScopeError};
use crate::order::{compare_paths, components_of, keys_lt, lemma_keys_order, path_components, Rank};
use crate::sort::{is_sorted, lemma_sorted_by_multiset, lemma_sorted_by_sorted, sort_by_order, sorted_by, Order};
use crate::text::chars_of;

verus! {

/// The last component of a path when it is a name (`Path::file_name`).
pub open spec fn file_name(p: Seq<char>) -> Option<Seq<char>> {
    let ks = path_components(p);
    if ks.len() > 0 && ks.last().len() > 0 && ks.last()[0] == '\u{3}' {
        Some(ks.last().drop_first())
    } else {
        None
    }
}

/// Index of the last `'.'` before `n`, or -1.
pub open spec fn last_dot(name: Seq<char>, n: int) -> int
    decreases n,
{
    if n <= 0 {
        -1
    } else if name[n - 1] == '.' {
        n - 1
    } else {
        last_dot(name, n - 1)
    }
}

/// The extension of a file name: the text after its last `.`, unless that
/// dot starts the name (`Path::extension`).
pub open spec fn extension(name: Seq<char>) -> Option<Seq<char>> {
    let k = last_dot(name, name.len() as int);
    if k <= 0 {
        None
    } else {
        Some(name.skip(k + 1))
    }
}

proof fn lemma_last_dot(name: Seq<char>, n: int)
    requires
        0 <= n <= name.len(),
    ensures
        -1 <= last_dot(name, n) < n,
        last_dot(name, n) >= 0 ==> name[last_dot(name, n)] == '.',
    decreases n,
{
    if n > 0 && name[n - 1] != '.' {
        lemma_last_dot(name, n - 1);
    }
}

/// A file is collected exactly when its name has at least one character
/// before a final `.rs`.
pub proof fn law_rust_file_names(p: Seq<char>)
    ensures
        rust_file(p) <==> (file_name(p) matches Some(n) && n.len() >= 4 && n[n.len() - 3] == '.' && n[n.len()
            - 2] == 'r' && n[n.len() - 1] == 's'),
{
    if let Some(n) = file_name(p) {
        let l = n.len() as int;
        lemma_last_dot(n, l);
        let k = last_dot(n, l);
        if k > 0 && n.skip(k + 1) == seq!['r', 's'] {
            assert(n.skip(k + 1).len() == 2);
            assert(n[l - 2] == n.skip(k + 1)[0]);
            assert(n[l - 1] == n.skip(k + 1)[1]);
        }
        if l >= 4 && n[l - 3] == '.' && n[l - 2] == 'r' && n[l - 1] == 's' {
            assert(last_dot(n, l - 2) == l - 3);
            assert(last_dot(n, l - 1) == l - 3);
            assert(n.skip(l - 2) =~= seq!['r', 's']);
        }
    }
}

/// Directories that a scan does not enter.
pub open spec fn ignored_dir(p: Seq<char>) -> bool {
    file_name(p) == Some(seq!['t', 'a', 'r', 'g', 'e', 't']) || file_name(p) == Some(seq!['.', 'g', 'i', 't'])
}

/// Files that a scan collects: those with the extension `rs`.
pub open spec fn rust_file(p: Seq<char>) -> bool {
    match file_name(p) {
        Some(n) => extension(n) == Some(seq!['r', 's']),
        None => false,
    }
}

fn name_of(p: &str) -> (r: Option<Vec<char>>)
    ensures
        match file_name(p@) {
            Some(n) => r matches Some(v) && v@ == n,
            None => r is None,
        },
{
    let chars = chars_of(p);
    let keys = components_of(chars.as_slice());
    if keys.len() == 0 {
        return None;
    }
    let last = &keys[keys.len() - 1];
    assert(last@ == path_components(p@).last());
    if last.len() > 0 && last[0] == '\u{3}' {
        let name = slice_to_vec(&last.as_slice()[1..last.len()]);
        assert(name@ =~= last@.drop_first());
        Some(name)
    } else {
        None
    }
}

fn same_chars(a: &[char], b: &[char]) -> (r: bool)
    ensures
        r == (a@ == b@),
{
    if a.len() != b.len() {
        return false;
    }
    let mut i: usize = 0;
    while i < a.len()
        invariant
            a@.len() == b@.len(),
            i <= a@.len(),
            forall|k: int| 0 <= k < i ==> a@[k] == b@[k],
        decreases a@.len() - i,
    {
        if a[i] != b[i] {
            return false;
        }
        i = i + 1;
    }
    assert(a@ =~= b@);
    true
}

/// Whether a scan skips the directory `path` (`target` and `.git`).
pub fn should_ignore_dir(path: &str) -> (r: bool)
    ensures
        r == ignored_dir(path@),
{
    match name_of(path) {
        None => false,
        Some(n) => same_chars(n.as_slice(), &['t', 'a', 'r', 'g', 'e', 't']) || same_chars(
            n.as_slice(),
            &['.', 'g', 'i', 't'],
        ),
    }
}

/// Whether `path` names a Rust source file (extension `rs`).
pub fn is_rust_file(path: &str) -> (r: bool)
    ensures
        r == rust_file(path@),
{
    match name_of(path) {
        None => false,
        Some(n) => {
            let mut k = n.len();
            while k > 0 && n[k - 1] != '.'
                invariant
                    k <= n@.len(),
                    last_dot(n@, n@.len() as int) == last_dot(n@, k as int),
                decreases k,
            {
                k = k - 1;
            }
            if k <= 1 {
                false
            } else {
                let ext = &n.as_slice()[k..n.len()];
                assert(ext@ == n@.skip(k as int));
                same_chars(ext, &['r', 's'])
            }
        },
    }
}

/// Paths in `Path` order.
pub struct ByPathText;

impl Order<String> for ByPathText {
    open spec fn before(a: Seq<char>, b: Seq<char>) -> bool {
        keys_lt(path_components(a), path_components(b))
    }

    fn less(a: &String, b: &String) -> (r: bool) {
        compare_paths(a.as_str(), b.as_str()) == Rank::Before
    }

    proof fn lemma_strict_weak(a: Seq<char>, b: Seq<char>, c: Seq<char>) {
        let ka = path_components(a);
        let kb = path_components(b);
        let kc = path_components(c);
        lemma_keys_order(ka, kb, kc);
        lemma_keys_order(kb, kc, ka);
        lemma_keys_order(kc, ka, kb);
        lemma_keys_order(ka, kc, kb);
    }
}

/// What the project path turned out to be.
#[derive(Debug, Clone, Copy, PartialEq, Eq, Structural)]
pub enum RootKind {
    Missing,
    NotDirectory,
    Directory,
}

/// The outcome of a scan: an error for a project path that is missing or
/// not a directory, else the Rust files found, in path order.
pub open spec fn scan_outcome(root: Seq<char>, kind: RootKind, found: Seq<Seq<char>>) -> Result<Seq<Seq<char>>, ErrorModel> {
    match kind {
        RootKind::Missing => Err(ErrorModel::InvalidPath("Project path does not exist: "@ + root)),
        RootKind::NotDirectory => Err(ErrorModel::InvalidPath("Project path is not a directory: "@ + root)),
        RootKind::Directory => Ok(sorted_by::<String, ByPathText>(found)),
    }
}

pub open spec fn scan_result_model(r: Result<Vec<String>, RustScopeError>) -> Result<Seq<Seq<char>>, ErrorModel> {
    match r {
        Ok(v) => Ok(v.deep_view()),
        Err(e) => Err(e@),
    }
}

/// Checks the project path and puts the Rust files found under it (by a
/// walk that skips the directories `should_ignore_dir` names and keeps the
/// files `is_rust_file` accepts) in path order.
pub fn scan_rust_files(root: &str, kind: RootKind, found: Vec<String>) -> (r: Result<Vec<String>, RustScopeError>)
    ensures
        scan_result_model(r) == scan_outcome(root@, kind, found.deep_view()),
        r matches Ok(v) ==> v.deep_view().to_multiset() == found.deep_view().to_multiset()
            && is_sorted::<String, ByPathText>(v.deep_view()),
{
    proof {
        lemma_sorted_by_multiset::<String, ByPathText>(found.deep_view());
        lemma_sorted_by_sorted::<String, ByPathText>(found.deep_view());
    }
    match kind {
        RootKind::Missing => {
            let mut message = String::from_str("Project path does not exist: ");
            message.append(root);
            Err(RustScopeError::InvalidPath(message))
        },
        RootKind::NotDirectory => {
            let mut message = String::from_str("Project path is not a directory: ");
            message.append(root);
            Err(RustScopeError::InvalidPath(message))
        },
        RootKind::Directory => Ok(sort_by_order::<String, ByPathText>(found)),
    }
}

} // verus!
