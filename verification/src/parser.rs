//! Recognizes code items (functions, structs, enums, traits, modules and
//! impl blocks) line by line, ignoring comments.
use vstd::prelude::*;
use vstd::slice::slice_to_vec;
use crate::model::{CodeItem, CodeItemModel, ItemKind};
use crate::text::{chars_of, lemma_lines_size, is_ident, is_ident_char, is_whitespace, lines, split_lines, string_from_chars, trim, trim_chars, trim_start, trim_start_chars};

verus! {

// ---------------------------------------------------------------- comments

/// Scans `line` from `i` on: `//` ends the line, `/*` opens a block comment
/// that lasts until `*/` (possibly on a later line); other characters
/// outside comments are kept. Returns the kept text and whether a block
/// comment is still open at the end of the line.
pub open spec fn strip_from(line: Seq<char>, i: int, in_block: bool, acc: Seq<char>) -> (Seq<char>, bool)
    decreases line.len() - i,
{
    if i < 0 || i >= line.len() {
        (acc, in_block)
    } else if in_block {
        if line[i] == '*' && i + 1 < line.len() && line[i + 1] == '/' {
            strip_from(line, i + 2, false, acc)
        } else {
            strip_from(line, i + 1, true, acc)
        }
    } else if line[i] == '/' && i + 1 < line.len() && line[i + 1] == '/' {
        (acc, false)
    } else if line[i] == '/' && i + 1 < line.len() && line[i + 1] == '*' {
        strip_from(line, i + 2, true, acc)
    } else {
        strip_from(line, i + 1, false, acc.push(line[i]))
    }
}

/// The text of `line` outside comments, and the block-comment state after it.
pub open spec fn strip_line(line: Seq<char>, in_block: bool) -> (Seq<char>, bool) {
    strip_from(line, 0, in_block, seq![])
}

/// Removes comments from one line; `in_block_comment` carries an open
/// `/* ... */` comment from one line to the next.
pub fn strip_comments(line: &[char], in_block_comment: &mut bool) -> (out: Vec<char>)
    ensures
        (out@, *final(in_block_comment)) == strip_line(line@, *old(in_block_comment)),
        out@.len() <= line@.len(),
{
    let mut out: Vec<char> = Vec::new();
    let n = line.len();
    let mut i: usize = 0;
    while i < n
        invariant
            n == line@.len(),
            i <= n,
            out@.len() <= i,
            strip_from(line@, i as int, *in_block_comment, out@) == strip_line(
                line@,
                *old(in_block_comment),
            ),
        decreases n - i,
    {
        let c = line[i];
        if *in_block_comment {
            if c == '*' && i + 1 < n && line[i + 1] == '/' {
                *in_block_comment = false;
                i = i + 2;
            } else {
                i = i + 1;
            }
        } else if c == '/' && i + 1 < n && line[i + 1] == '/' {
            return out;
        } else if c == '/' && i + 1 < n && line[i + 1] == '*' {
            *in_block_comment = true;
            i = i + 2;
        } else {
            out.push(c);
            i = i + 1;
        }
    }
    out
}

proof fn lemma_strip_plain(line: Seq<char>, i: int, j: int, acc: Seq<char>)
    requires
        0 <= i <= j <= line.len(),
        forall|k: int| i <= k < j ==> line[k] != '/',
    ensures
        strip_from(line, i, false, acc) == strip_from(line, j, false, acc + line.subrange(i, j)),
    decreases j - i,
{
    if i < j {
        lemma_strip_plain(line, i + 1, j, acc.push(line[i]));
        assert(acc.push(line[i]) + line.subrange(i + 1, j) =~= acc + line.subrange(i, j));
    } else {
        assert(acc + line.subrange(i, j) =~= acc);
    }
}

proof fn lemma_strip_block(line: Seq<char>, i: int, j: int, acc: Seq<char>)
    requires
        0 <= i <= j <= line.len(),
        forall|k: int| i <= k < j ==> line[k] != '*',
    ensures
        strip_from(line, i, true, acc) == strip_from(line, j, true, acc),
    decreases j - i,
{
    if i < j {
        lemma_strip_block(line, i + 1, j, acc);
    }
}

/// Outside a block comment, text without `/` is kept as it is; `//` drops
/// the rest of the line; `/*` drops the rest of a line without `*` and
/// leaves a block comment open.
pub proof fn law_strip_line_comments(a: Seq<char>, b: Seq<char>)
    requires
        forall|k: int| 0 <= k < a.len() ==> a[k] != '/',
    ensures
        strip_line(a, false) == (a, false),
        strip_line(a + seq!['/', '/'] + b, false) == (a, false),
        (forall|k: int| 0 <= k < b.len() ==> b[k] != '*') ==> strip_line(a + seq!['/', '*'] + b, false) == (
            a,
            true,
        ),
{
    lemma_strip_plain(a, 0, a.len() as int, seq![]);
    assert(seq![] + a.subrange(0, a.len() as int) =~= a);
    let l = a + seq!['/', '/'] + b;
    lemma_strip_plain(l, 0, a.len() as int, seq![]);
    assert(seq![] + l.subrange(0, a.len() as int) =~= a);
    assert(l[a.len() as int] == '/' && l[a.len() + 1int] == '/');
    let m = a + seq!['/', '*'] + b;
    lemma_strip_plain(m, 0, a.len() as int, seq![]);
    assert(seq![] + m.subrange(0, a.len() as int) =~= a);
    assert(m[a.len() as int] == '/' && m[a.len() + 1int] == '*');
    if forall|k: int| 0 <= k < b.len() ==> b[k] != '*' {
        assert forall|k: int| a.len() + 2 <= k < m.len() implies m[k] != '*' by {
            assert(m[k] == b[k - a.len() - 2]);
        }
        lemma_strip_block(m, a.len() + 2int, m.len() as int, a);
    }
}

/// Inside a block comment, text without `*` is dropped and the comment
/// stays open; `*/` closes it, and a following text without `/` is kept.
pub proof fn law_strip_line_block(a: Seq<char>, b: Seq<char>)
    requires
        forall|k: int| 0 <= k < a.len() ==> a[k] != '*',
    ensures
        strip_line(a, true) == (Seq::<char>::empty(), true),
        (forall|k: int| 0 <= k < b.len() ==> b[k] != '/') ==> strip_line(a + seq!['*', '/'] + b, true) == (
            b,
            false,
        ),
{
    lemma_strip_block(a, 0, a.len() as int, seq![]);
    let l = a + seq!['*', '/'] + b;
    lemma_strip_block(l, 0, a.len() as int, seq![]);
    assert(l[a.len() as int] == '*' && l[a.len() + 1int] == '/');
    if forall|k: int| 0 <= k < b.len() ==> b[k] != '/' {
        assert forall|k: int| a.len() + 2 <= k < l.len() implies l[k] != '/' by {
            assert(l[k] == b[k - a.len() - 2]);
        }
        lemma_strip_plain(l, a.len() + 2int, l.len() as int, seq![]);
        assert(seq![] + l.subrange(a.len() + 2int, l.len() as int) =~= b);
    }
}

/// Block-comment state before line `n` of `ls`, starting outside comments.
pub open spec fn block_state(ls: Seq<Seq<char>>, n: int) -> bool
    decreases n,
{
    if n <= 0 {
        false
    } else {
        strip_line(ls[n - 1], block_state(ls, n - 1)).1
    }
}

/// Line `n` of `ls` with its comments removed.
pub open spec fn searchable(ls: Seq<Seq<char>>, n: int) -> Seq<char> {
    strip_line(ls[n], block_state(ls, n)).0
}

// ---------------------------------------------------------------- keywords

/// `kw` occurs in `s` at `p`.
pub open spec fn occurs_at(s: Seq<char>, kw: Seq<char>, p: int) -> bool {
    0 <= p && p + kw.len() <= s.len() && s.subrange(p, p + kw.len()) == kw
}

/// Neither the character before `p` nor the one at `p + n` is an
/// identifier character.
pub open spec fn bounded_at(s: Seq<char>, p: int, n: int) -> bool {
    &&& (p == 0 || !is_ident(s[p - 1]))
    &&& (p + n >= s.len() || !is_ident(s[p + n]))
}

/// `kw` occurs at `p` as a whole word.
pub open spec fn keyword_at(s: Seq<char>, kw: Seq<char>, p: int) -> bool {
    occurs_at(s, kw, p) && bounded_at(s, p, kw.len() as int)
}

/// The first position at or after `p` where `kw` occurs as a whole word.
pub open spec fn find_keyword_from(s: Seq<char>, kw: Seq<char>, p: int) -> Option<int>
    decreases s.len() + 1 - p,
{
    if p < 0 || p + kw.len() > s.len() {
        None
    } else if keyword_at(s, kw, p) {
        Some(p)
    } else {
        find_keyword_from(s, kw, p + 1)
    }
}

/// The first position where `kw` occurs as a whole word.
pub open spec fn keyword_position(s: Seq<char>, kw: Seq<char>) -> Option<int> {
    find_keyword_from(s, kw, 0)
}

pub proof fn lemma_find_keyword_from(s: Seq<char>, kw: Seq<char>, p: int)
    requires
        0 <= p,
    ensures
        find_keyword_from(s, kw, p) matches Some(q) ==> p <= q && keyword_at(s, kw, q) && forall|
            r: int,
        | p <= r < q ==> !keyword_at(s, kw, r),
        find_keyword_from(s, kw, p) is None ==> forall|r: int| p <= r ==> !keyword_at(s, kw, r),
    decreases s.len() + 1 - p,
{
    if p + kw.len() <= s.len() && !keyword_at(s, kw, p) {
        lemma_find_keyword_from(s, kw, p + 1);
    }
}

pub(crate) fn matches_at(s: &[char], p: usize, kw: &[char]) -> (r: bool)
    requires
        p <= s@.len(),
    ensures
        r == occurs_at(s@, kw@, p as int),
{
    let n = s.len();
    if kw.len() > n - p {
        return false;
    }
    let mut k: usize = 0;
    while k < kw.len()
        invariant
            n == s@.len(),
            p + kw@.len() <= s@.len(),
            k <= kw@.len(),
            forall|j: int| 0 <= j < k ==> s@[p + j] == kw@[j],
        decreases kw@.len() - k,
    {
        if s[p + k] != kw[k] {
            assert(s@.subrange(p as int, p + kw@.len())[k as int] != kw@[k as int]);
            return false;
        }
        k = k + 1;
    }
    assert(s@.subrange(p as int, p + kw@.len()) =~= kw@);
    true
}

/// Whether the characters around `s[position..position + len]` are not
/// identifier characters.
pub(crate) fn has_keyword_boundaries(s: &[char], position: usize, len: usize) -> (r: bool)
    requires
        position + len <= s@.len(),
    ensures
        r == bounded_at(s@, position as int, len as int),
{
    let before_ok = position == 0 || !is_ident_char(s[position - 1]);
    let after_ok = position + len >= s.len() || !is_ident_char(s[position + len]);
    before_ok && after_ok
}

/// The first position where `keyword` occurs in `line` as a whole word.
pub fn find_keyword(line: &[char], keyword: &[char]) -> (r: Option<usize>)
    ensures
        r matches Some(p) ==> keyword_position(line@, keyword@) == Some(p as int),
        r is None ==> keyword_position(line@, keyword@) is None,
{
    if keyword.len() > line.len() {
        return None;
    }
    let last = line.len() - keyword.len();
    let mut p: usize = 0;
    loop
        invariant
            last + keyword@.len() == line@.len(),
            p <= last,
            find_keyword_from(line@, keyword@, 0) == find_keyword_from(line@, keyword@, p as int),
        decreases last - p,
    {
        if matches_at(line, p, keyword) && has_keyword_boundaries(line, p, keyword.len()) {
            return Some(p);
        }
        if p == last {
            assert(find_keyword_from(line@, keyword@, p + 1) is None);
            return None;
        }
        p = p + 1;
    }
}

// ---------------------------------------------------------------- names

/// Index of the first non-identifier character at or after `i`.
pub open spec fn ident_end(s: Seq<char>, i: int) -> int
    decreases s.len() - i,
{
    if i < 0 || i >= s.len() || !is_ident(s[i]) {
        i
    } else {
        ident_end(s, i + 1)
    }
}

pub proof fn lemma_ident_end(s: Seq<char>, i: int)
    requires
        0 <= i <= s.len(),
    ensures
        i <= ident_end(s, i) <= s.len(),
    decreases s.len() - i,
{
    if i < s.len() && is_ident(s[i]) {
        lemma_ident_end(s, i + 1);
    }
}

/// The longest prefix of `s` made of identifier characters.
pub open spec fn ident_prefix(s: Seq<char>) -> Seq<char> {
    s.take(ident_end(s, 0))
}

fn leading_ident(s: &[char]) -> (out: Vec<char>)
    ensures
        out@ == ident_prefix(s@),
{
    let mut k: usize = 0;
    while k < s.len() && is_ident_char(s[k])
        invariant
            k <= s@.len(),
            ident_end(s@, 0) == ident_end(s@, k as int),
        decreases s@.len() - k,
    {
        k = k + 1;
    }
    slice_to_vec(&s[0..k])
}

/// The identifier that follows the first whole-word occurrence of `kw`,
/// after any whitespace; `None` when `kw` does not occur or no identifier
/// character follows it.
pub open spec fn ident_after_keyword(s: Seq<char>, kw: Seq<char>) -> Option<Seq<char>> {
    match keyword_position(s, kw) {
        None => None,
        Some(p) => {
            let name = ident_prefix(trim_start(s.skip(p + kw.len())));
            if name.len() == 0 {
                None
            } else {
                Some(name)
            }
        },
    }
}

/// The identifier after the keyword `keyword` in `line`, if any.
pub fn extract_ident_after_keyword(line: &[char], keyword: &[char]) -> (r: Option<Vec<char>>)
    ensures
        r matches Some(v) ==> ident_after_keyword(line@, keyword@) == Some(v@),
        r is None ==> ident_after_keyword(line@, keyword@) is None,
{
    let position = find_keyword(line, keyword);
    match position {
        None => None,
        Some(p) => {
            proof {
                lemma_find_keyword_from(line@, keyword@, 0);
            }
            let n = line.len();
            assert(p + keyword@.len() <= n);
            let after = &line[p + keyword.len()..n];
            assert(after@ == line@.skip(p + keyword@.len()));
            let candidate = trim_start_chars(after);
            let name = leading_ident(candidate.as_slice());
            if name.len() == 0 {
                None
            } else {
                Some(name)
            }
        },
    }
}

proof fn lemma_leading_split(s: Seq<char>) -> (k: int)
    ensures
        0 <= k <= s.len(),
        trim_start(s) == s.skip(k),
        forall|j: int| 0 <= j < k ==> is_whitespace(#[trigger] s[j]),
    decreases s.len(),
{
    if s.len() > 0 && is_whitespace(s[0]) {
        let k = lemma_leading_split(s.drop_first());
        assert(s.drop_first().skip(k) =~= s.skip(k + 1));
        assert forall|j: int| 0 <= j < k + 1 implies is_whitespace(#[trigger] s[j]) by {
            if j > 0 {
                assert(s[j] == s.drop_first()[j - 1]);
            }
        }
        k + 1
    } else {
        assert(s.skip(0) =~= s);
        0
    }
}

proof fn lemma_keyword_shift(s: Seq<char>, kw: Seq<char>, k: int, p: int)
    requires
        0 <= k <= s.len(),
        0 <= p,
        forall|j: int| 0 <= j < k ==> is_whitespace(#[trigger] s[j]),
    ensures
        keyword_at(s.skip(k), kw, p) == keyword_at(s, kw, p + k),
{
    let t = s.skip(k);
    let n = kw.len() as int;
    if p + n <= t.len() {
        assert(t.subrange(p, p + n) =~= s.subrange(p + k, p + k + n));
        if p > 0 {
            assert(t[p - 1] == s[p + k - 1]);
        } else if k > 0 {
            assert(is_whitespace(s[k - 1]));
        }
        if p + n < t.len() {
            assert(t[p + n] == s[p + k + n]);
        }
    }
}

proof fn lemma_find_in_whitespace(s: Seq<char>, kw: Seq<char>, k: int, r: int)
    requires
        0 <= r <= k <= s.len(),
        kw.len() > 0,
        !is_whitespace(kw[0]),
        forall|j: int| 0 <= j < k ==> is_whitespace(#[trigger] s[j]),
    ensures
        find_keyword_from(s, kw, r) == find_keyword_from(s, kw, k),
    decreases k - r,
{
    if r < k && r + kw.len() <= s.len() {
        assert(s.subrange(r, r + kw.len())[0] == s[r]);
        assert(!keyword_at(s, kw, r));
        lemma_find_in_whitespace(s, kw, k, r + 1);
    }
}

proof fn lemma_find_shift(s: Seq<char>, kw: Seq<char>, k: int, p: int)
    requires
        0 <= k <= s.len(),
        0 <= p,
        forall|j: int| 0 <= j < k ==> is_whitespace(#[trigger] s[j]),
    ensures
        find_keyword_from(s, kw, p + k) == match find_keyword_from(s.skip(k), kw, p) {
            Some(q) => Some(q + k),
            None => None,
        },
    decreases s.len() + 1 - p - k,
{
    lemma_keyword_shift(s, kw, k, p);
    if p + k + kw.len() <= s.len() && !keyword_at(s, kw, p + k) {
        lemma_find_shift(s, kw, k, p + 1);
    }
}

/// Leading whitespace does not change the identifier found after a keyword
/// that starts with a character other than whitespace.
pub proof fn lemma_ident_after_trim(s: Seq<char>, kw: Seq<char>)
    requires
        kw.len() > 0,
        !is_whitespace(kw[0]),
    ensures
        ident_after_keyword(trim_start(s), kw) == ident_after_keyword(s, kw),
{
    let k = lemma_leading_split(s);
    let t = s.skip(k);
    lemma_find_in_whitespace(s, kw, k, 0);
    lemma_find_shift(s, kw, k, 0);
    match find_keyword_from(t, kw, 0) {
        Some(q) => {
            lemma_find_keyword_from(t, kw, 0);
            assert(t.skip(q + kw.len()) =~= s.skip(q + k + kw.len()));
        },
        None => {},
    }
}

proof fn lemma_strip_from_len(line: Seq<char>, i: int, in_block: bool, acc: Seq<char>)
    requires
        0 <= i <= line.len(),
    ensures
        strip_from(line, i, in_block, acc).0.len() <= acc.len() + line.len() - i,
    decreases line.len() - i,
{
    if i < line.len() {
        if in_block {
            if line[i] == '*' && i + 1 < line.len() && line[i + 1] == '/' {
                lemma_strip_from_len(line, i + 2, false, acc);
            } else {
                lemma_strip_from_len(line, i + 1, true, acc);
            }
        } else if line[i] == '/' && i + 1 < line.len() && line[i + 1] == '/' {
        } else if line[i] == '/' && i + 1 < line.len() && line[i + 1] == '*' {
            lemma_strip_from_len(line, i + 2, true, acc);
        } else {
            lemma_strip_from_len(line, i + 1, false, acc.push(line[i]));
        }
    }
}

/// A line without its comments is no longer than the line.
pub proof fn lemma_searchable_len(ls: Seq<Seq<char>>, n: int)
    requires
        0 <= n < ls.len(),
    ensures
        searchable(ls, n).len() <= ls[n].len(),
{
    lemma_strip_from_len(ls[n], 0, block_state(ls, n), seq![]);
}

/// An ASCII letter, an ASCII digit or an underscore.
pub open spec fn word_char(c: char) -> bool {
    ('a' <= c && c <= 'z') || ('A' <= c && c <= 'Z') || ('0' <= c && c <= '9') || c == '_'
}

proof fn lemma_ident_end_word(r: Seq<char>, i: int)
    requires
        0 <= i <= r.len(),
        forall|t: int| 0 <= t < i ==> word_char(#[trigger] r[t]),
    ensures
        i <= ident_end(r, i) <= r.len(),
        forall|t: int| 0 <= t < ident_end(r, i) ==> word_char(#[trigger] r[t]),
        ident_end(r, i) == r.len() || !word_char(r[ident_end(r, i)]),
    decreases r.len() - i,
{
    if i < r.len() && is_ident(r[i]) {
        assert forall|t: int| 0 <= t < i + 1 implies word_char(#[trigger] r[t]) by {
            if t == i {
            }
        }
        lemma_ident_end_word(r, i + 1);
    }
}

/// The name found after a keyword is a whole word of the line: a
/// non-empty run of ASCII letters, digits and underscores that the line
/// holds at some position, and that is not followed by another such
/// character. A digit therefore never ends a name.
pub proof fn law_ident_is_whole_word(s: Seq<char>, kw: Seq<char>)
    ensures
        ident_after_keyword(s, kw) matches Some(name) ==> exists|j: int|
            {
                &&& 0 <= j
                &&& j + name.len() <= s.len()
                &&& #[trigger] s.subrange(j, j + name.len()) == name
                &&& name.len() > 0
                &&& forall|t: int| 0 <= t < name.len() ==> word_char(#[trigger] name[t])
                &&& j + name.len() == s.len() || !word_char(s[j + name.len()])
            },
{
    if let Some(name) = ident_after_keyword(s, kw) {
        lemma_find_keyword_from(s, kw, 0);
        let p = keyword_position(s, kw)->0;
        let after = s.skip(p + kw.len());
        let k = lemma_leading_split(after);
        let rest = after.skip(k);
        lemma_ident_end_word(rest, 0);
        let e = ident_end(rest, 0);
        let j = p + kw.len() + k;
        assert(name == rest.take(e));
        assert(s.subrange(j, j + name.len()) =~= name);
        assert forall|t: int| 0 <= t < name.len() implies word_char(#[trigger] name[t]) by {
            assert(name[t] == rest[t]);
        }
        if j + name.len() < s.len() {
            assert(s[j + name.len()] == rest[e]);
        }
    }
}

/// The keyword is found at its first occurrence as a whole word: the line
/// holds it there, no ASCII letter, digit or underscore touches it on
/// either side, and every earlier occurrence is touched on some side.
pub proof fn law_keyword_whole_word(s: Seq<char>, kw: Seq<char>)
    ensures
        keyword_position(s, kw) matches Some(p) ==> {
            &&& 0 <= p && p + kw.len() <= s.len()
            &&& s.subrange(p, p + kw.len()) == kw
            &&& p == 0 || !word_char(s[p - 1])
            &&& p + kw.len() == s.len() || !word_char(s[p + kw.len()])
            &&& forall|q: int|
                0 <= q < p && q + kw.len() <= s.len() && #[trigger] s.subrange(q, q + kw.len()) == kw ==> (q > 0
                    && word_char(s[q - 1])) || (q + kw.len() < s.len() && word_char(s[q + kw.len()]))
        },
        keyword_position(s, kw) is None ==> forall|q: int|
            0 <= q && q + kw.len() <= s.len() && #[trigger] s.subrange(q, q + kw.len()) == kw ==> (q > 0
                && word_char(s[q - 1])) || (q + kw.len() < s.len() && word_char(s[q + kw.len()])),
{
    lemma_find_keyword_from(s, kw, 0);
    assert forall|q: int|
        0 <= q && q + kw.len() <= s.len() && #[trigger] s.subrange(q, q + kw.len()) == kw && !keyword_at(
            s,
            kw,
            q,
        ) implies (q > 0 && word_char(s[q - 1])) || (q + kw.len() < s.len() && word_char(s[q + kw.len()])) by {
    }
}

/// Index of the first `'{'` or `';'` at or after `i`, or the length.
pub open spec fn body_start(s: Seq<char>, i: int) -> int
    decreases s.len() - i,
{
    if i < 0 || i >= s.len() || s[i] == '{' || s[i] == ';' {
        i
    } else {
        body_start(s, i + 1)
    }
}

pub proof fn lemma_body_start(s: Seq<char>, i: int)
    requires
        0 <= i <= s.len(),
    ensures
        i <= body_start(s, i) <= s.len(),
    decreases s.len() - i,
{
    if i < s.len() && s[i] != '{' && s[i] != ';' {
        lemma_body_start(s, i + 1);
    }
}

/// Index of the first occurrence of `pat` at or after `p`, or the length
/// when there is none.
pub open spec fn first_occurrence(s: Seq<char>, pat: Seq<char>, p: int) -> int
    decreases s.len() + 1 - p,
{
    if p < 0 || p + pat.len() > s.len() {
        s.len() as int
    } else if occurs_at(s, pat, p) {
        p
    } else {
        first_occurrence(s, pat, p + 1)
    }
}

pub proof fn lemma_first_occurrence(s: Seq<char>, pat: Seq<char>, p: int)
    requires
        0 <= p,
    ensures
        first_occurrence(s, pat, p) <= s.len(),
        p <= s.len() ==> p <= first_occurrence(s, pat, p),
    decreases s.len() + 1 - p,
{
    if p + pat.len() <= s.len() && !occurs_at(s, pat, p) {
        lemma_first_occurrence(s, pat, p + 1);
    }
}

pub open spec fn impl_keyword() -> Seq<char> {
    seq!['i', 'm', 'p', 'l']
}

pub open spec fn where_separator() -> Seq<char> {
    seq![' ', 'w', 'h', 'e', 'r', 'e', ' ']
}

/// The header of the first impl block on a line: the text after `impl` up
/// to the first `{` or `;`, cut before `" where "` and trimmed; an empty
/// header reads `<anonymous impl>`. `None` without `impl`, or with nothing
/// after it.
pub open spec fn impl_name(s: Seq<char>) -> Option<Seq<char>> {
    match keyword_position(s, impl_keyword()) {
        None => None,
        Some(p) => {
            let after = trim_start(s.skip(p + 4));
            if after.len() == 0 {
                None
            } else {
                let before_body = after.take(body_start(after, 0));
                let head = before_body.take(first_occurrence(before_body, where_separator(), 0));
                let name = trim(head);
                if name.len() == 0 {
                    Some("<anonymous impl>"@)
                } else {
                    Some(name)
                }
            }
        },
    }
}

proof fn lemma_body_start_to(s: Seq<char>, i: int, j: int)
    requires
        0 <= i <= j < s.len(),
        s[j] == '{',
        forall|k: int| i <= k < j ==> s[k] != '{' && s[k] != ';',
    ensures
        body_start(s, i) == j,
    decreases j - i,
{
    if i < j {
        lemma_body_start_to(s, i + 1, j);
    }
}

proof fn lemma_first_occurrence_to(s: Seq<char>, pat: Seq<char>, p: int, j: int)
    requires
        0 <= p <= j,
        j == s.len() || occurs_at(s, pat, j),
        pat.len() > 0,
        forall|q: int| p <= q < j ==> !occurs_at(s, pat, q),
    ensures
        first_occurrence(s, pat, p) == j || (j == s.len() && first_occurrence(s, pat, p) == s.len()),
    decreases j - p,
{
    if p < j && p + pat.len() <= s.len() {
        lemma_first_occurrence_to(s, pat, p + 1, j);
    }
}

proof fn lemma_impl_at_start(y: Seq<char>)
    ensures
        keyword_position(seq!['i', 'm', 'p', 'l', ' '] + y, impl_keyword()) == Some(0int),
        trim_start((seq!['i', 'm', 'p', 'l', ' '] + y).skip(4)) == trim_start(y),
{
    let line = seq!['i', 'm', 'p', 'l', ' '] + y;
    assert(line.subrange(0, 4) =~= impl_keyword());
    assert(line[4] == ' ');
    assert(keyword_at(line, impl_keyword(), 0));
    let x = line.skip(4);
    assert(x =~= seq![' '] + y);
    assert(x.drop_first() =~= y);
}

/// Leading whitespace of `h` followed by `tail` is that of `h` alone when
/// `h` holds more than whitespace.
proof fn lemma_trim_start_prefix(h: Seq<char>, tail: Seq<char>)
    requires
        trim(h).len() > 0,
    ensures
        trim_start(h + tail) == trim_start(h) + tail,
        trim_start(h).len() > 0,
        !is_whitespace(trim_start(h)[0]),
        trim_start(trim_start(h)) == trim_start(h),
{
    let kh = lemma_leading_split(h);
    let hs = h.skip(kh);
    assert(hs.len() > 0) by {
        if hs.len() == 0 {
            assert(trim_start(h) =~= Seq::<char>::empty());
        }
    }
    crate::text::lemma_trim_start_skip(h, kh);
    assert(!is_whitespace(hs[0])) by {
        if is_whitespace(hs[0]) {
            let k2 = lemma_leading_split(hs.drop_first());
            assert(trim_start(hs) == trim_start(hs.drop_first()));
        }
    }
    let y = h + tail;
    assert forall|q: int| 0 <= q < kh implies is_whitespace(#[trigger] y[q]) by {
        assert(y[q] == h[q]);
    }
    crate::text::lemma_trim_start_skip(y, kh);
    assert(y.skip(kh) =~= hs + tail);
    assert((hs + tail)[0] == hs[0]);
}

#[verifier::spinoff_prover]
proof fn lemma_impl_general(h: Seq<char>, m: Seq<char>, rest: Seq<char>)
    requires
        forall|q: int| 0 <= q < h.len() ==> h[q] != '{' && h[q] != ';',
        forall|q: int| 0 <= q < m.len() ==> m[q] != '{' && m[q] != ';',
        trim(h).len() > 0,
        forall|q: int| 0 <= q < h.len() ==> !occurs_at(h + m, where_separator(), q),
        m.len() == 0 || occurs_at(h + m, where_separator(), h.len() as int),
    ensures
        impl_name(seq!['i', 'm', 'p', 'l', ' '] + h + m + seq!['{'] + rest) == Some(trim(h)),
{
    let y = h + (m + seq!['{'] + rest);
    assert(seq!['i', 'm', 'p', 'l', ' '] + h + m + seq!['{'] + rest =~= seq!['i', 'm', 'p', 'l', ' '] + y);
    lemma_impl_at_start(y);
    lemma_trim_start_prefix(h, m + seq!['{'] + rest);
    let hs = trim_start(h);
    let kh = lemma_leading_split(h);
    let after = hs + (m + seq!['{'] + rest);
    let b: int = (hs.len() + m.len()) as int;
    assert forall|q: int| 0 <= q < b implies after[q] != '{' && after[q] != ';' by {
        if q < hs.len() {
            assert(after[q] == h[q + kh]);
        } else {
            assert(after[q] == m[q - hs.len()]);
        }
    }
    assert(after[b] == '{');
    lemma_body_start_to(after, 0, b);
    let before_body = after.take(b);
    assert(before_body =~= hs + m);
    assert(hs == h.skip(kh));
    assert forall|q: int| 0 <= q < hs.len() implies !occurs_at(before_body, where_separator(), q) by {
        assert(!occurs_at(h + m, where_separator(), q + kh));
        if occurs_at(before_body, where_separator(), q) {
            assert((h + m).subrange(q + kh, q + kh + 7) =~= before_body.subrange(q, q + 7));
        }
    }
    if m.len() > 0 {
        assert((h + m).subrange(h.len() as int, h.len() + 7int) =~= before_body.subrange(
            hs.len() as int,
            hs.len() + 7int,
        ));
    }
    lemma_first_occurrence_to(before_body, where_separator(), 0, hs.len() as int);
    let head = before_body.take(first_occurrence(before_body, where_separator(), 0));
    assert(head =~= hs);
}

/// The header of an impl block is the text between `impl ` and the `{`
/// that opens its body, trimmed, or the text up to ` where ` (here `ws`)
/// when a where clause comes first.
pub proof fn law_impl_header(h: Seq<char>, ws: Seq<char>, w: Seq<char>, rest: Seq<char>)
    requires
        ws == seq![' ', 'w', 'h', 'e', 'r', 'e', ' '],
        forall|q: int| 0 <= q < h.len() ==> h[q] != '{' && h[q] != ';',
        trim(h).len() > 0,
    ensures
        (forall|q: int| 0 <= q && q + 7 <= h.len() ==> #[trigger] h.subrange(q, q + 7) != ws) ==> impl_name(
            seq!['i', 'm', 'p', 'l', ' '] + h + seq!['{'] + rest,
        ) == Some(trim(h)),
        (forall|q: int| 0 <= q < w.len() ==> w[q] != '{' && w[q] != ';') && (forall|q: int|
            0 <= q < h.len() ==> #[trigger] (h + ws + w).subrange(q, q + 7) != ws) ==> impl_name(
            seq!['i', 'm', 'p', 'l', ' '] + h + (ws + w) + seq!['{'] + rest,
        ) == Some(trim(h)),
{
    assert(where_separator() == ws);
    if forall|q: int| 0 <= q && q + 7 <= h.len() ==> #[trigger] h.subrange(q, q + 7) != ws {
        assert(h + Seq::<char>::empty() =~= h);
        assert forall|q: int| 0 <= q < h.len() implies !occurs_at(h + Seq::<char>::empty(), where_separator(), q) by {
            if q + 7 <= h.len() {
                assert(h.subrange(q, q + 7) != ws);
            }
        }
        lemma_impl_general(h, Seq::<char>::empty(), rest);
    }
    let m = ws + w;
    if (forall|q: int| 0 <= q < w.len() ==> w[q] != '{' && w[q] != ';') && (forall|q: int|
        0 <= q < h.len() ==> #[trigger] (h + ws + w).subrange(q, q + 7) != ws) {
        assert(h + m =~= h + ws + w);
        assert forall|q: int| 0 <= q < m.len() implies m[q] != '{' && m[q] != ';' by {
            if q >= 7 {
                assert(m[q] == w[q - 7]);
            }
        }
        assert forall|q: int| 0 <= q < h.len() implies !occurs_at(h + m, where_separator(), q) by {
            assert((h + ws + w).subrange(q, q + 7) != ws);
        }
        assert((h + m).subrange(h.len() as int, h.len() + 7int) =~= ws);
        lemma_impl_general(h, m, rest);
    }
}

/// The header of the first impl block in `line`, if any.
pub fn extract_impl_name(line: &[char]) -> (r: Option<String>)
    ensures
        opt_view(r) == impl_name(line@),
{
    let kw = vec!['i', 'm', 'p', 'l'];
    assert(kw@ == impl_keyword());
    let position = find_keyword(line, kw.as_slice());
    let p = match position {
        None => {
            return None;
        },
        Some(p) => p,
    };
    proof {
        lemma_find_keyword_from(line@, impl_keyword(), 0);
    }
    let n = line.len();
    assert(p + 4 <= n);
    let after = trim_start_chars(&line[p + 4..n]);
    assert(line@.subrange(p + 4, line@.len() as int) == line@.skip(p + 4));
    if after.len() == 0 {
        return None;
    }
    let mut b: usize = 0;
    while b < after.len() && after[b] != '{' && after[b] != ';'
        invariant
            b <= after@.len(),
            body_start(after@, 0) == body_start(after@, b as int),
        decreases after@.len() - b,
    {
        b = b + 1;
    }
    let before_body = slice_to_vec(&after[0..b]);
    let sep = vec![' ', 'w', 'h', 'e', 'r', 'e', ' '];
    assert(sep@ == where_separator());
    let blen = before_body.len();
    let mut w: usize = 0;
    while blen - w >= 7 && !matches_at(before_body.as_slice(), w, sep.as_slice())
        invariant
            blen == before_body@.len(),
            sep@ == where_separator(),
            w <= before_body@.len(),
            first_occurrence(before_body@, where_separator(), 0) == first_occurrence(
                before_body@,
                where_separator(),
                w as int,
            ),
        decreases before_body@.len() + 1 - w,
    {
        assert(where_separator().len() == 7);
        assert(!occurs_at(before_body@, where_separator(), w as int));
        w = w + 1;
    }
    if blen - w < 7 {
        w = blen;
    }
    let name = trim_chars(&before_body.as_slice()[0..w]);
    if name.len() == 0 {
        Some(String::from_str("<anonymous impl>"))
    } else {
        Some(string_from_chars(name.as_slice()))
    }
}

// ---------------------------------------------------------------- items

pub open spec fn kw_fn() -> Seq<char> {
    seq!['f', 'n']
}

pub open spec fn kw_struct() -> Seq<char> {
    seq!['s', 't', 'r', 'u', 'c', 't']
}

pub open spec fn kw_enum() -> Seq<char> {
    seq!['e', 'n', 'u', 'm']
}

pub open spec fn kw_trait() -> Seq<char> {
    seq!['t', 'r', 'a', 'i', 't']
}

pub open spec fn kw_mod() -> Seq<char> {
    seq!['m', 'o', 'd']
}

pub open spec fn item_if(name: Option<Seq<char>>, kind: ItemKind, file: Seq<char>, line: usize) -> Seq<CodeItemModel> {
    match name {
        Some(n) => seq![CodeItemModel { name: n, kind, file, line }],
        None => seq![],
    }
}

/// The items recognized on one comment-free, left-trimmed line, in the
/// order function, struct, enum, trait, module, impl.
pub open spec fn line_items(t: Seq<char>, file: Seq<char>, line: usize) -> Seq<CodeItemModel> {
    item_if(ident_after_keyword(t, kw_fn()), ItemKind::Function, file, line)
        + item_if(ident_after_keyword(t, kw_struct()), ItemKind::Struct, file, line)
        + item_if(ident_after_keyword(t, kw_enum()), ItemKind::Enum, file, line)
        + item_if(ident_after_keyword(t, kw_trait()), ItemKind::Trait, file, line)
        + item_if(ident_after_keyword(t, kw_mod()), ItemKind::Module, file, line)
        + item_if(impl_name(t), ItemKind::Impl, file, line)
}

/// The items on the first `n` lines of `ls`; line numbers start at 1.
pub open spec fn items_upto(ls: Seq<Seq<char>>, file: Seq<char>, n: int) -> Seq<CodeItemModel>
    decreases n,
{
    if n <= 0 {
        seq![]
    } else {
        items_upto(ls, file, n - 1) + line_items(
            trim_start(searchable(ls, n - 1)),
            file,
            n as usize,
        )
    }
}

/// Every item of `s` is from `file` and on line `line`.
pub open spec fn all_on_line(s: Seq<CodeItemModel>, file: Seq<char>, line: usize) -> bool {
    forall|k: int| 0 <= k < s.len() ==> (#[trigger] s[k]).file == file && s[k].line == line
}

proof fn lemma_all_on_line_add(a: Seq<CodeItemModel>, b: Seq<CodeItemModel>, file: Seq<char>, line: usize)
    requires
        all_on_line(a, file, line),
        all_on_line(b, file, line),
    ensures
        all_on_line(a + b, file, line),
{
    assert forall|k: int| 0 <= k < (a + b).len() implies (#[trigger] (a + b)[k]).file == file && (a
        + b)[k].line == line by {
        if k < a.len() {
            assert((a + b)[k] == a[k]);
        } else {
            assert((a + b)[k] == b[k - a.len()]);
        }
    }
}

proof fn lemma_line_items_on_line(t: Seq<char>, file: Seq<char>, line: usize)
    ensures
        all_on_line(line_items(t, file, line), file, line),
{
    let a = item_if(ident_after_keyword(t, kw_fn()), ItemKind::Function, file, line);
    let b = item_if(ident_after_keyword(t, kw_struct()), ItemKind::Struct, file, line);
    let c = item_if(ident_after_keyword(t, kw_enum()), ItemKind::Enum, file, line);
    let d = item_if(ident_after_keyword(t, kw_trait()), ItemKind::Trait, file, line);
    let e = item_if(ident_after_keyword(t, kw_mod()), ItemKind::Module, file, line);
    let g = item_if(impl_name(t), ItemKind::Impl, file, line);
    lemma_all_on_line_add(a, b, file, line);
    lemma_all_on_line_add(a + b, c, file, line);
    lemma_all_on_line_add(a + b + c, d, file, line);
    lemma_all_on_line_add(a + b + c + d, e, file, line);
    lemma_all_on_line_add(a + b + c + d + e, g, file, line);
}

/// The items of the first `n` lines come from `file`, with line numbers
/// from 1 to `n` in increasing order.
pub proof fn lemma_items_upto_lines(ls: Seq<Seq<char>>, file: Seq<char>, n: int)
    requires
        0 <= n <= usize::MAX,
    ensures
        forall|k: int|
            0 <= k < items_upto(ls, file, n).len() ==> (#[trigger] items_upto(ls, file, n)[k]).file == file
                && 1 <= items_upto(ls, file, n)[k].line <= n,
        forall|i: int, j: int|
            0 <= i < j < items_upto(ls, file, n).len() ==> #[trigger] items_upto(ls, file, n)[i].line
                <= #[trigger] items_upto(ls, file, n)[j].line,
    decreases n,
{
    if n > 0 {
        lemma_items_upto_lines(ls, file, n - 1);
        let prev = items_upto(ls, file, n - 1);
        let here = line_items(trim_start(searchable(ls, n - 1)), file, n as usize);
        lemma_line_items_on_line(trim_start(searchable(ls, n - 1)), file, n as usize);
        let all = items_upto(ls, file, n);
        assert(all == prev + here);
        assert forall|k: int| 0 <= k < all.len() implies (#[trigger] all[k]).file == file && 1 <= all[k].line
            <= n by {
            if k < prev.len() {
                assert(all[k] == prev[k]);
            } else {
                assert(all[k] == here[k - prev.len()]);
            }
        }
        assert forall|i: int, j: int| 0 <= i < j < all.len() implies #[trigger] all[i].line
            <= #[trigger] all[j].line by {
            if j < prev.len() {
                assert(all[i] == prev[i]);
                assert(all[j] == prev[j]);
            } else if i < prev.len() {
                assert(all[i] == prev[i]);
                assert(all[j] == here[j - prev.len()]);
            } else {
                assert(all[i] == here[i - prev.len()]);
                assert(all[j] == here[j - prev.len()]);
            }
        }
    }
}

/// The keyword that introduces an item of each kind.
pub open spec fn kind_keyword(kind: ItemKind) -> Seq<char> {
    match kind {
        ItemKind::Function => seq!['f', 'n'],
        ItemKind::Struct => seq!['s', 't', 'r', 'u', 'c', 't'],
        ItemKind::Enum => seq!['e', 'n', 'u', 'm'],
        ItemKind::Trait => seq!['t', 'r', 'a', 'i', 't'],
        ItemKind::Module => seq!['m', 'o', 'd'],
        ItemKind::Impl => seq!['i', 'm', 'p', 'l'],
    }
}

/// Every item of `s` other than an impl block is named by the identifier
/// after its kind's keyword in `t`.
pub open spec fn named_after_keyword(s: Seq<CodeItemModel>, t: Seq<char>) -> bool {
    forall|k: int|
        0 <= k < s.len() && (#[trigger] s[k]).kind != ItemKind::Impl ==> ident_after_keyword(
            t,
            kind_keyword(s[k].kind),
        ) == Some(s[k].name)
}

proof fn lemma_named_add(a: Seq<CodeItemModel>, b: Seq<CodeItemModel>, t: Seq<char>)
    requires
        named_after_keyword(a, t),
        named_after_keyword(b, t),
    ensures
        named_after_keyword(a + b, t),
{
    assert forall|k: int| 0 <= k < (a + b).len() && (#[trigger] (a + b)[k]).kind != ItemKind::Impl implies ident_after_keyword(
        t,
        kind_keyword((a + b)[k].kind),
    ) == Some((a + b)[k].name) by {
        if k < a.len() {
            assert((a + b)[k] == a[k]);
        } else {
            assert((a + b)[k] == b[k - a.len()]);
        }
    }
}

proof fn lemma_line_items_named(t: Seq<char>, file: Seq<char>, line: usize)
    ensures
        named_after_keyword(line_items(t, file, line), t),
{
    let a = item_if(ident_after_keyword(t, kw_fn()), ItemKind::Function, file, line);
    let b = item_if(ident_after_keyword(t, kw_struct()), ItemKind::Struct, file, line);
    let c = item_if(ident_after_keyword(t, kw_enum()), ItemKind::Enum, file, line);
    let d = item_if(ident_after_keyword(t, kw_trait()), ItemKind::Trait, file, line);
    let e = item_if(ident_after_keyword(t, kw_mod()), ItemKind::Module, file, line);
    let g = item_if(impl_name(t), ItemKind::Impl, file, line);
    assert(kind_keyword(ItemKind::Function) == kw_fn());
    assert(kind_keyword(ItemKind::Struct) == kw_struct());
    assert(kind_keyword(ItemKind::Enum) == kw_enum());
    assert(kind_keyword(ItemKind::Trait) == kw_trait());
    assert(kind_keyword(ItemKind::Module) == kw_mod());
    assert(named_after_keyword(a, t));
    assert(named_after_keyword(b, t));
    assert(named_after_keyword(c, t));
    assert(named_after_keyword(d, t));
    assert(named_after_keyword(e, t));
    assert(named_after_keyword(g, t));
    lemma_named_add(a, b, t);
    lemma_named_add(a + b, c, t);
    lemma_named_add(a + b + c, d, t);
    lemma_named_add(a + b + c + d, e, t);
    lemma_named_add(a + b + c + d + e, g, t);
}

/// Every item of the first `n` lines other than an impl block is named by
/// the identifier after its kind's keyword on its own line.
pub open spec fn items_named(ls: Seq<Seq<char>>, items: Seq<CodeItemModel>) -> bool {
    forall|k: int|
        0 <= k < items.len() && (#[trigger] items[k]).kind != ItemKind::Impl ==> 1 <= items[k].line <= ls.len()
            && ident_after_keyword(searchable(ls, items[k].line - 1), kind_keyword(items[k].kind)) == Some(
            items[k].name,
        )
}

proof fn lemma_items_upto_named(ls: Seq<Seq<char>>, file: Seq<char>, n: int)
    requires
        0 <= n <= ls.len(),
        ls.len() <= usize::MAX,
    ensures
        items_named(ls, items_upto(ls, file, n)),
    decreases n,
{
    if n > 0 {
        lemma_items_upto_named(ls, file, n - 1);
        let prev = items_upto(ls, file, n - 1);
        let s = searchable(ls, n - 1);
        let t = trim_start(s);
        let here = line_items(t, file, n as usize);
        lemma_line_items_named(t, file, n as usize);
        lemma_line_items_on_line(t, file, n as usize);
        let all = items_upto(ls, file, n);
        assert(all == prev + here);
        assert forall|k: int| 0 <= k < all.len() && (#[trigger] all[k]).kind != ItemKind::Impl implies 1
            <= all[k].line <= ls.len() && ident_after_keyword(searchable(ls, all[k].line - 1), kind_keyword(all[k].kind))
            == Some(all[k].name) by {
            if k < prev.len() {
                assert(all[k] == prev[k]);
            } else {
                let x = here[k - prev.len()];
                assert(all[k] == x);
                assert(x.line == n);
                lemma_ident_after_trim(s, kind_keyword(x.kind));
            }
        }
    }
}

/// Every item other than an impl block is named by the identifier that
/// follows its kind's keyword (`fn`, `struct`, `enum`, `trait`, `mod`) as a
/// whole word on the item's line, comments removed.
pub proof fn law_item_kinds(content: Seq<char>, file: Seq<char>)
    requires
        content.len() <= usize::MAX,
    ensures
        items_named(lines(content), code_items(content, file)),
{
    lemma_lines_size(content);
    lemma_items_upto_named(lines(content), file, lines(content).len() as int);
}

/// The items of a whole text.
pub open spec fn code_items(content: Seq<char>, file: Seq<char>) -> Seq<CodeItemModel> {
    items_upto(lines(content), file, lines(content).len() as int)
}

pub open spec fn opt_view(o: Option<String>) -> Option<Seq<char>> {
    match o {
        Some(n) => Some(n@),
        None => None,
    }
}

fn push_item(items: &mut Vec<CodeItem>, name: Option<String>, kind: ItemKind, file: &str, line: usize)
    ensures
        final(items).deep_view() == old(items).deep_view() + item_if(opt_view(name), kind, file@, line),
{
    match name {
        Some(n) => {
            let item = CodeItem { name: n, kind, file: file.to_owned(), line };
            items.push(item);
            assert(items.deep_view() =~= old(items).deep_view().push(item@));
        },
        None => {
            assert(items.deep_view() =~= old(items).deep_view() + Seq::<CodeItemModel>::empty());
        },
    }
}

fn ident_string(line: &[char], keyword: &[char]) -> (r: Option<String>)
    ensures
        opt_view(r) == ident_after_keyword(line@, keyword@),
{
    match extract_ident_after_keyword(line, keyword) {
        Some(v) => Some(string_from_chars(v.as_slice())),
        None => None,
    }
}

fn push_line_items(items: &mut Vec<CodeItem>, t: &[char], file: &str, line_number: usize)
    ensures
        final(items).deep_view() == old(items).deep_view() + line_items(t@, file@, line_number),
{
    let ghost v0 = items.deep_view();
    let ghost f = file@;
    let a = ident_string(t, &['f', 'n']);
    push_item(items, a, ItemKind::Function, file, line_number);
    let ghost acc = item_if(opt_view(a), ItemKind::Function, f, line_number);
    let b = ident_string(t, &['s', 't', 'r', 'u', 'c', 't']);
    push_item(items, b, ItemKind::Struct, file, line_number);
    proof {
        let x = item_if(opt_view(b), ItemKind::Struct, f, line_number);
        assert(v0 + acc + x =~= v0 + (acc + x));
        acc = acc + x;
    }
    let c = ident_string(t, &['e', 'n', 'u', 'm']);
    push_item(items, c, ItemKind::Enum, file, line_number);
    proof {
        let x = item_if(opt_view(c), ItemKind::Enum, f, line_number);
        assert(v0 + acc + x =~= v0 + (acc + x));
        acc = acc + x;
    }
    let d = ident_string(t, &['t', 'r', 'a', 'i', 't']);
    push_item(items, d, ItemKind::Trait, file, line_number);
    proof {
        let x = item_if(opt_view(d), ItemKind::Trait, f, line_number);
        assert(v0 + acc + x =~= v0 + (acc + x));
        acc = acc + x;
    }
    let e = ident_string(t, &['m', 'o', 'd']);
    push_item(items, e, ItemKind::Module, file, line_number);
    proof {
        let x = item_if(opt_view(e), ItemKind::Module, f, line_number);
        assert(v0 + acc + x =~= v0 + (acc + x));
        acc = acc + x;
    }
    let g = extract_impl_name(t);
    push_item(items, g, ItemKind::Impl, file, line_number);
    proof {
        let x = item_if(opt_view(g), ItemKind::Impl, f, line_number);
        assert(v0 + acc + x =~= v0 + (acc + x));
        acc = acc + x;
        assert(opt_view(g) == impl_name(t@));
        assert(acc == line_items(t@, f, line_number));
    }
}

/// Every function, struct, enum, trait, module and impl block of `content`,
/// line by line, with `file` and the 1-based line number.
pub fn parse_code_items(content: &str, file: &str) -> (items: Vec<CodeItem>)
    ensures
        items.deep_view() == code_items(content@, file@),
        forall|k: int|
            0 <= k < items@.len() ==> (#[trigger] items@[k]).file@ == file@ && 1 <= items@[k].line <= lines(
                content@,
            ).len(),
        forall|i: int, j: int|
            0 <= i < j < items@.len() ==> #[trigger] items@[i].line <= #[trigger] items@[j].line,
{
    let chars = chars_of(content);
    let ls = split_lines(chars.as_slice());
    let ghost gl = lines(content@);
    let mut items: Vec<CodeItem> = Vec::new();
    let mut in_block_comment = false;
    let mut index: usize = 0;
    while index < ls.len()
        invariant
            ls@.len() == gl.len(),
            forall|i: int| 0 <= i < ls@.len() ==> #[trigger] ls@[i]@ == gl[i],
            index <= ls@.len(),
            in_block_comment == block_state(gl, index as int),
            items.deep_view() == items_upto(gl, file@, index as int),
        decreases ls@.len() - index,
    {
        let line_number = index + 1;
        let searchable_line = strip_comments(ls[index].as_slice(), &mut in_block_comment);
        let trimmed = trim_start_chars(searchable_line.as_slice());
        push_line_items(&mut items, trimmed.as_slice(), file, line_number);
        index = index + 1;
    }
    proof {
        lemma_items_upto_lines(gl, file@, gl.len() as int);
        assert forall|k: int| 0 <= k < items@.len() implies (#[trigger] items@[k]).file@ == file@ && 1
            <= items@[k].line <= gl.len() by {
            assert(items.deep_view()[k] == items@[k]@);
        }
        assert forall|i: int, j: int| 0 <= i < j < items@.len() implies #[trigger] items@[i].line
            <= #[trigger] items@[j].line by {
            assert(items.deep_view()[i] == items@[i]@);
            assert(items.deep_view()[j] == items@[j]@);
        }
    }
    items
}

} // verus!
