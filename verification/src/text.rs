//! Character-level text primitives: whitespace, identifiers, line
//! splitting and trimming, all stated over `Seq<char>`.
use vstd::prelude::*;
use vstd::slice::slice_to_vec;

verus! {

/// Unicode `White_Space`, the set that `char::is_whitespace` accepts.
pub open spec fn is_whitespace(c: char) -> bool {
    ||| ('\u{9}' <= c && c <= '\u{d}')
    ||| c == ' '
    ||| c == '\u{85}'
    ||| c == '\u{a0}'
    ||| c == '\u{1680}'
    ||| ('\u{2000}' <= c && c <= '\u{200a}')
    ||| c == '\u{2028}'
    ||| c == '\u{2029}'
    ||| c == '\u{202f}'
    ||| c == '\u{205f}'
    ||| c == '\u{3000}'
}

pub fn is_whitespace_char(c: char) -> (r: bool)
    ensures
        r == is_whitespace(c),
{
    ('\u{9}' <= c && c <= '\u{d}') || c == ' ' || c == '\u{85}' || c == '\u{a0}' || c
        == '\u{1680}' || ('\u{2000}' <= c && c <= '\u{200a}') || c == '\u{2028}' || c
        == '\u{2029}' || c == '\u{202f}' || c == '\u{205f}' || c == '\u{3000}'
}

/// An ASCII letter or digit, or an underscore.
pub open spec fn is_ident(c: char) -> bool {
    ||| ('a' <= c && c <= 'z')
    ||| ('A' <= c && c <= 'Z')
    ||| ('0' <= c && c <= '9')
    ||| c == '_'
}

pub fn is_ident_char(c: char) -> (r: bool)
    ensures
        r == is_ident(c),
{
    ('a' <= c && c <= 'z') || ('A' <= c && c <= 'Z') || ('0' <= c && c <= '9') || c == '_'
}

/// The characters of a string slice, in order.
pub fn chars_of(s: &str) -> (out: Vec<char>)
    ensures
        out@ == s@,
{
    let mut out: Vec<char> = Vec::new();
    for c in it: s.chars()
        invariant
            out@ == it.seq().take(it.index() as int),
    {
        out.push(c);
    }
    out
}

/// Calls `String::push`, which appends one character; the claim is that
/// the string afterwards holds its former characters followed by `c`.
#[verifier::external_body]
fn push_char(s: &mut String, c: char)
    ensures
        final(s)@ == old(s)@.push(c),
{
    s.push(c);
}

/// The string made of the characters `cs`, in order.
pub fn string_from_chars(cs: &[char]) -> (s: String)
    ensures
        s@ == cs@,
{
    let mut s = String::new();
    let mut i: usize = 0;
    while i < cs.len()
        invariant
            i <= cs@.len(),
            s@ == cs@.take(i as int),
        decreases cs@.len() - i,
    {
        push_char(&mut s, cs[i]);
        assert(cs@.take(i + 1) == cs@.take(i as int).push(cs@[i as int]));
        i = i + 1;
    }
    assert(cs@.take(cs@.len() as int) == cs@);
    s
}

/// `s` with its leading whitespace removed (`str::trim_start`).
pub open spec fn trim_start(s: Seq<char>) -> Seq<char>
    decreases s.len(),
{
    if s.len() > 0 && is_whitespace(s[0]) {
        trim_start(s.drop_first())
    } else {
        s
    }
}

/// `s` with its trailing whitespace removed (`str::trim_end`).
pub open spec fn trim_end(s: Seq<char>) -> Seq<char>
    decreases s.len(),
{
    if s.len() > 0 && is_whitespace(s.last()) {
        trim_end(s.drop_last())
    } else {
        s
    }
}

/// `s` with whitespace removed at both ends (`str::trim`).
pub open spec fn trim(s: Seq<char>) -> Seq<char> {
    trim_end(trim_start(s))
}

pub proof fn lemma_trim_start_skip(s: Seq<char>, i: int)
    requires
        0 <= i <= s.len(),
        forall|k: int| 0 <= k < i ==> is_whitespace(#[trigger] s[k]),
    ensures
        trim_start(s) == trim_start(s.skip(i)),
    decreases i,
{
    if i > 0 {
        assert(s.skip(1) == s.drop_first());
        lemma_trim_start_skip(s.drop_first(), i - 1);
        assert(s.drop_first().skip(i - 1) == s.skip(i));
    } else {
        assert(s.skip(0) == s);
    }
}

proof fn lemma_trim_end_take(s: Seq<char>, j: int)
    requires
        0 <= j <= s.len(),
        forall|k: int| j <= k < s.len() ==> is_whitespace(#[trigger] s[k]),
    ensures
        trim_end(s) == trim_end(s.take(j)),
    decreases s.len() - j,
{
    if j < s.len() {
        assert(s.take(s.len() - 1) == s.drop_last());
        lemma_trim_end_take(s.drop_last(), j);
        assert(s.drop_last().take(j) == s.take(j));
    } else {
        assert(s.take(j) == s);
    }
}

/// Index of the first non-whitespace character, or the length.
pub fn leading_whitespace(s: &[char]) -> (i: usize)
    ensures
        i <= s@.len(),
        trim_start(s@) == s@.skip(i as int),
{
    let mut i: usize = 0;
    while i < s.len() && is_whitespace_char(s[i])
        invariant
            i <= s@.len(),
            forall|k: int| 0 <= k < i ==> is_whitespace(#[trigger] s@[k]),
        decreases s@.len() - i,
    {
        i = i + 1;
    }
    proof {
        lemma_trim_start_skip(s@, i as int);
        let t = s@.skip(i as int);
        if t.len() > 0 {
            assert(t[0] == s@[i as int]);
        }
    }
    i
}

/// Index one past the last non-whitespace character at or after `from`,
/// or `from` when only whitespace follows.
fn trailing_whitespace_start(s: &[char], from: usize) -> (j: usize)
    requires
        from <= s@.len(),
    ensures
        from <= j <= s@.len(),
        trim_end(s@.subrange(from as int, s@.len() as int)) == s@.subrange(from as int, j as int),
{
    let mut j: usize = s.len();
    while j > from && is_whitespace_char(s[j - 1])
        invariant
            from <= j <= s@.len(),
            forall|k: int| j <= k < s@.len() ==> is_whitespace(#[trigger] s@[k]),
        decreases j,
    {
        j = j - 1;
    }
    proof {
        let t = s@.subrange(from as int, s@.len() as int);
        assert forall|k: int| j - from <= k < t.len() implies is_whitespace(#[trigger] t[k]) by {
            assert(t[k] == s@[k + from]);
        }
        lemma_trim_end_take(t, j - from);
        assert(t.take(j - from) == s@.subrange(from as int, j as int));
        let u = t.take(j - from);
        if u.len() > 0 {
            assert(u.last() == s@[j - 1]);
        }
    }
    j
}

/// `str::trim_start` on characters.
pub fn trim_start_chars(s: &[char]) -> (out: Vec<char>)
    ensures
        out@ == trim_start(s@),
{
    let i = leading_whitespace(s);
    slice_to_vec(&s[i..s.len()])
}

/// `str::trim` on characters.
pub fn trim_chars(s: &[char]) -> (out: Vec<char>)
    ensures
        out@ == trim(s@),
{
    let i = leading_whitespace(s);
    let j = trailing_whitespace_start(s, i);
    assert(s@.skip(i as int) == s@.subrange(i as int, s@.len() as int));
    slice_to_vec(&s[i..j])
}


/// Index of the first `'\n'` at or after `i`, or the length of `s`.
pub open spec fn line_end(s: Seq<char>, i: int) -> int
    decreases s.len() - i,
{
    if i < 0 || i >= s.len() || s[i] == '\n' {
        i
    } else {
        line_end(s, i + 1)
    }
}

pub proof fn lemma_line_end(s: Seq<char>, i: int)
    requires
        0 <= i <= s.len(),
    ensures
        i <= line_end(s, i) <= s.len(),
        line_end(s, i) < s.len() ==> s[line_end(s, i)] == '\n',
        forall|k: int| i <= k < line_end(s, i) ==> s[k] != '\n',
    decreases s.len() - i,
{
    if i < s.len() && s[i] != '\n' {
        lemma_line_end(s, i + 1);
    }
}

/// A line ended by `'\n'` loses a trailing `'\r'` as well.
pub open spec fn strip_cr(raw: Seq<char>) -> Seq<char> {
    if raw.len() > 0 && raw.last() == '\r' {
        raw.drop_last()
    } else {
        raw
    }
}

/// The lines of `s` from index `start` on, as `str::lines` yields them:
/// split at `'\n'`, a `"\r\n"` ending counts as one line ending, and a
/// final line ending yields no empty last line.
pub open spec fn lines_from(s: Seq<char>, start: int) -> Seq<Seq<char>>
    decreases s.len() - start,
{
    if start < 0 || start >= s.len() {
        seq![]
    } else {
        let e = line_end(s, start);
        proof {
            lemma_line_end(s, start);
        }
        if e < s.len() {
            seq![strip_cr(s.subrange(start, e))] + lines_from(s, e + 1)
        } else {
            seq![s.subrange(start, e)]
        }
    }
}

/// The lines of `s`, as `str::lines` yields them.
pub open spec fn lines(s: Seq<char>) -> Seq<Seq<char>> {
    lines_from(s, 0)
}

/// Total length of the first `n` sequences of `ls`.
pub open spec fn prefix_len(ls: Seq<Seq<char>>, n: int) -> int
    decreases n,
{
    if n <= 0 {
        0
    } else {
        prefix_len(ls, n - 1) + ls[n - 1].len()
    }
}

pub proof fn lemma_prefix_len_cons(l: Seq<char>, rest: Seq<Seq<char>>, n: int)
    requires
        0 <= n <= rest.len(),
    ensures
        prefix_len(seq![l] + rest, n + 1) == l.len() + prefix_len(rest, n),
    decreases n,
{
    let ls = seq![l] + rest;
    if n > 0 {
        lemma_prefix_len_cons(l, rest, n - 1);
        assert(ls[n] == rest[n - 1]);
        assert(prefix_len(ls, n + 1) == prefix_len(ls, n) + ls[n].len());
        assert(prefix_len(rest, n) == prefix_len(rest, n - 1) + rest[n - 1].len());
    } else {
        assert(ls[0] == l);
        assert(prefix_len(ls, 1) == prefix_len(ls, 0) + ls[0].len());
    }
}

pub proof fn lemma_prefix_len_mono(ls: Seq<Seq<char>>, m: int, n: int)
    requires
        0 <= m <= n <= ls.len(),
    ensures
        prefix_len(ls, m) <= prefix_len(ls, n),
    decreases n - m,
{
    if m < n {
        lemma_prefix_len_mono(ls, m, n - 1);
    }
}

/// The lines of `s` number at most its length, and together are no longer.
pub proof fn lemma_lines_from_size(s: Seq<char>, start: int)
    requires
        0 <= start <= s.len(),
    ensures
        lines_from(s, start).len() <= s.len() - start,
        prefix_len(lines_from(s, start), lines_from(s, start).len() as int) <= s.len() - start,
    decreases s.len() - start,
{
    if start < s.len() {
        lemma_line_end(s, start);
        let e = line_end(s, start);
        if e < s.len() {
            lemma_lines_from_size(s, e + 1);
            let rest = lines_from(s, e + 1);
            let l = strip_cr(s.subrange(start, e));
            assert(l.len() <= e - start);
            assert(lines_from(s, start) == seq![l] + rest);
            lemma_prefix_len_cons(l, rest, rest.len() as int);
        } else {
            let ls = lines_from(s, start);
            assert(ls == seq![s.subrange(start, e)]);
            assert(prefix_len(ls, 1) == prefix_len(ls, 0) + ls[0].len());
        }
    }
}

pub proof fn lemma_lines_size(s: Seq<char>)
    ensures
        lines(s).len() <= s.len(),
        prefix_len(lines(s), lines(s).len() as int) <= s.len(),
{
    lemma_lines_from_size(s, 0);
}

proof fn lemma_line_end_shift(p: Seq<char>, b: Seq<char>, k: int)
    requires
        0 <= k <= b.len(),
    ensures
        line_end(p + b, p.len() + k) == p.len() + line_end(b, k),
    decreases b.len() - k,
{
    if k < b.len() {
        assert((p + b)[p.len() + k] == b[k]);
        if b[k] != '\n' {
            lemma_line_end_shift(p, b, k + 1);
        }
    }
}

proof fn lemma_lines_from_shift(p: Seq<char>, b: Seq<char>, k: int)
    requires
        0 <= k <= b.len(),
    ensures
        lines_from(p + b, p.len() + k) == lines_from(b, k),
    decreases b.len() - k,
{
    if k < b.len() {
        lemma_line_end_shift(p, b, k);
        lemma_line_end(b, k);
        let e = line_end(b, k);
        assert((p + b).subrange(p.len() + k, p.len() + e) =~= b.subrange(k, e));
        if e < b.len() {
            lemma_lines_from_shift(p, b, e + 1);
        }
    }
}

proof fn lemma_line_end_prefix(a: Seq<char>, b: Seq<char>, i: int)
    requires
        0 <= i < a.len(),
        a.last() == '\n',
    ensures
        line_end(a + b, i) == line_end(a, i),
    decreases a.len() - i,
{
    assert((a + b)[i] == a[i]);
    if a[i] != '\n' {
        lemma_line_end_prefix(a, b, i + 1);
    }
}

proof fn lemma_lines_from_prefix(a: Seq<char>, b: Seq<char>, i: int)
    requires
        0 <= i <= a.len(),
        a.len() == 0 || a.last() == '\n',
    ensures
        lines_from(a + b, i) == lines_from(a, i) + lines(b),
    decreases a.len() - i,
{
    if i == a.len() {
        lemma_lines_from_shift(a, b, 0);
        assert(lines_from(a, i) + lines(b) =~= lines(b));
    } else {
        lemma_line_end_prefix(a, b, i);
        lemma_line_end(a, i);
        let e = line_end(a, i);
        if e == a.len() {
            assert(a[a.len() - 1] != '\n');
        }
        assert((a + b).subrange(i, e) =~= a.subrange(i, e));
        lemma_lines_from_prefix(a, b, e + 1);
        let first = seq![strip_cr(a.subrange(i, e))];
        assert(lines_from(a + b, i) == first + lines_from(a + b, e + 1));
        assert(lines_from(a, i) == first + lines_from(a, e + 1));
        assert(first + (lines_from(a, e + 1) + lines(b)) =~= first + lines_from(a, e + 1) + lines(b));
    }
}

/// When `a` is empty or ends in a line break, the lines of `a` followed by
/// `b` are the lines of `a` followed by the lines of `b`.
pub proof fn lemma_lines_concat(a: Seq<char>, b: Seq<char>)
    requires
        a.len() == 0 || a.last() == '\n',
    ensures
        lines(a + b) == lines(a) + lines(b),
{
    lemma_lines_from_prefix(a, b, 0);
}

/// A text without line breaks is one line (none when empty); a line
/// ended by `\n` or by `\r\n` is that line without its ending. With
/// `lemma_lines_concat` this fixes the lines of any text.
pub proof fn law_lines_shape(l: Seq<char>)
    requires
        forall|k: int| 0 <= k < l.len() ==> l[k] != '\n',
    ensures
        l.len() == 0 ==> lines(l) == Seq::<Seq<char>>::empty(),
        l.len() > 0 ==> lines(l) == seq![l],
        lines(l + seq!['\r', '\n']) == seq![l],
        l.len() == 0 || l.last() != '\r' ==> lines(l + seq!['\n']) == seq![l],
{
    if l.len() > 0 {
        lemma_line_end(l, 0);
        assert(l.subrange(0, l.len() as int) =~= l);
    }
    let a = l + seq!['\r', '\n'];
    lemma_line_end(a, 0);
    assert(a[l.len() + 1int] == '\n');
    assert(a[l.len() as int] == '\r');
    if line_end(a, 0) < l.len() + 1 {
        assert(a[line_end(a, 0)] == l[line_end(a, 0)]);
    }
    assert(a.subrange(0, l.len() + 1int) =~= l.push('\r'));
    assert(l.push('\r').drop_last() =~= l);
    assert(lines_from(a, l.len() + 2int) == Seq::<Seq<char>>::empty());
    assert(seq![l] + Seq::<Seq<char>>::empty() =~= seq![l]);
    let b = l + seq!['\n'];
    lemma_line_end(b, 0);
    assert(b[l.len() as int] == '\n');
    if line_end(b, 0) < l.len() {
        assert(b[line_end(b, 0)] == l[line_end(b, 0)]);
    }
    assert(b.subrange(0, l.len() as int) =~= l);
    assert(lines_from(b, l.len() + 1int) == Seq::<Seq<char>>::empty());
}

/// Splits `s` into its lines (`str::lines`).
pub fn split_lines(s: &[char]) -> (out: Vec<Vec<char>>)
    ensures
        out@.len() == lines(s@).len(),
        forall|i: int| 0 <= i < out@.len() ==> #[trigger] out@[i]@ == lines(s@)[i],
{
    let mut out: Vec<Vec<char>> = Vec::new();
    let mut start: usize = 0;
    let ghost done: Seq<Seq<char>> = seq![];
    while start < s.len()
        invariant
            start <= s@.len(),
            done.len() == out@.len(),
            forall|i: int| 0 <= i < out@.len() ==> #[trigger] out@[i]@ == done[i],
            done + lines_from(s@, start as int) == lines(s@),
        decreases s@.len() - start,
    {
        let mut e: usize = start;
        while e < s.len() && s[e] != '\n'
            invariant
                start <= e <= s@.len(),
                line_end(s@, start as int) == line_end(s@, e as int),
            decreases s@.len() - e,
        {
            e = e + 1;
        }
        proof {
            lemma_line_end(s@, start as int);
        }
        let ghost rest = lines_from(s@, start as int);
        if e < s.len() {
            let mut stop = e;
            if stop > start && s[stop - 1] == '\r' {
                stop = stop - 1;
            }
            let line = slice_to_vec(&s[start..stop]);
            proof {
                let raw = s@.subrange(start as int, e as int);
                assert(line@ == strip_cr(raw));
                assert(rest == seq![line@] + lines_from(s@, e + 1));
                done = done.push(line@);
                assert(done + lines_from(s@, e + 1) == lines(s@));
            }
            out.push(line);
            start = e + 1;
        } else {
            let line = slice_to_vec(&s[start..e]);
            proof {
                assert(rest == seq![line@]);
                done = done.push(line@);
                assert(lines_from(s@, e as int) == Seq::<Seq<char>>::empty());
                assert(done + lines_from(s@, e as int) == lines(s@));
            }
            out.push(line);
            start = e;
        }
    }
    assert(lines_from(s@, start as int) == Seq::<Seq<char>>::empty());
    assert(done == lines(s@));
    out
}

/// `s` begins with `prefix`.
pub open spec fn has_prefix(s: Seq<char>, prefix: Seq<char>) -> bool {
    prefix.len() <= s.len() && s.take(prefix.len() as int) == prefix
}

/// `str::starts_with` on characters.
pub fn starts_with(s: &[char], prefix: &[char]) -> (r: bool)
    ensures
        r == has_prefix(s@, prefix@),
{
    if prefix.len() > s.len() {
        return false;
    }
    let mut k: usize = 0;
    while k < prefix.len()
        invariant
            prefix@.len() <= s@.len(),
            k <= prefix@.len(),
            forall|j: int| 0 <= j < k ==> s@[j] == prefix@[j],
        decreases prefix@.len() - k,
    {
        if s[k] != prefix[k] {
            assert(s@.take(prefix@.len() as int)[k as int] != prefix@[k as int]);
            return false;
        }
        k = k + 1;
    }
    assert(s@.take(prefix@.len() as int) =~= prefix@);
    true
}

/// The character of a decimal digit.
pub open spec fn digit_char(d: int) -> char {
    if d == 0 {
        '0'
    } else if d == 1 {
        '1'
    } else if d == 2 {
        '2'
    } else if d == 3 {
        '3'
    } else if d == 4 {
        '4'
    } else if d == 5 {
        '5'
    } else if d == 6 {
        '6'
    } else if d == 7 {
        '7'
    } else if d == 8 {
        '8'
    } else {
        '9'
    }
}

/// The decimal representation of `n`, without leading zeros.
pub open spec fn decimal(n: nat) -> Seq<char>
    decreases n,
{
    if n < 10 {
        seq![digit_char(n as int)]
    } else {
        decimal(n / 10).push(digit_char((n % 10) as int))
    }
}

/// The number that a string of decimal digits denotes.
pub open spec fn digits_value(s: Seq<char>) -> int
    decreases s.len(),
{
    if s.len() == 0 {
        0
    } else {
        digits_value(s.drop_last()) * 10 + (s.last() as int - '0' as int)
    }
}

proof fn lemma_digit_char(d: int)
    requires
        0 <= d < 10,
    ensures
        '0' <= digit_char(d) <= '9',
        digit_char(d) as int - '0' as int == d,
{
}

/// `n` is written with the digits `0` to `9` only, without a leading zero
/// unless it is zero, and those digits denote `n`.
pub proof fn law_decimal(n: nat)
    ensures
        decimal(n).len() > 0,
        forall|k: int| 0 <= k < decimal(n).len() ==> '0' <= #[trigger] decimal(n)[k] <= '9',
        n > 0 ==> decimal(n)[0] != '0',
        digits_value(decimal(n)) == n,
    decreases n,
{
    if n < 10 {
        lemma_digit_char(n as int);
        let s = decimal(n);
        assert(s.drop_last() =~= Seq::<char>::empty());
        assert(digits_value(s.drop_last()) == 0);
        assert(s.last() == digit_char(n as int));
        assert(digits_value(s) == digits_value(s.drop_last()) * 10 + (s.last() as int - '0' as int));
    } else {
        let q = n / 10;
        let r = n % 10;
        law_decimal(q);
        lemma_digit_char(r as int);
        let s = decimal(n);
        assert(s == decimal(q).push(digit_char(r as int)));
        assert(s.drop_last() =~= decimal(q));
        assert(s[0] == decimal(q)[0]);
        assert forall|k: int| 0 <= k < s.len() implies '0' <= #[trigger] s[k] <= '9' by {
            if k < decimal(q).len() {
                assert(s[k] == decimal(q)[k]);
            }
        }
        assert(q * 10 + r == n) by (nonlinear_arith)
            requires
                q == n / 10,
                r == n % 10,
        ;
        assert(q > 0);
        assert(s.last() == digit_char(r as int));
        assert(digits_value(s) == digits_value(s.drop_last()) * 10 + (s.last() as int - '0' as int));
    }
}

fn digit(d: usize) -> (c: char)
    requires
        d < 10,
    ensures
        c == digit_char(d as int),
{
    if d == 0 {
        '0'
    } else if d == 1 {
        '1'
    } else if d == 2 {
        '2'
    } else if d == 3 {
        '3'
    } else if d == 4 {
        '4'
    } else if d == 5 {
        '5'
    } else if d == 6 {
        '6'
    } else if d == 7 {
        '7'
    } else if d == 8 {
        '8'
    } else {
        '9'
    }
}

fn push_decimal(out: &mut Vec<char>, n: usize)
    ensures
        final(out)@ == old(out)@ + decimal(n as nat),
    decreases n,
{
    if n >= 10 {
        push_decimal(out, n / 10);
    }
    out.push(digit(n % 10));
    proof {
        if n >= 10 {
            assert(old(out)@ + decimal((n / 10) as nat) + seq![digit_char((n % 10) as int)] =~= old(out)@
                + decimal(n as nat));
        } else {
            assert(old(out)@.push(digit_char(n as int)) =~= old(out)@ + decimal(n as nat));
        }
    }
}

/// `n` written in decimal, as `format!("{}", n)` writes it.
pub fn decimal_string(n: usize) -> (s: String)
    ensures
        s@ == decimal(n as nat),
{
    let mut out: Vec<char> = Vec::new();
    push_decimal(&mut out, n);
    assert(Seq::<char>::empty() + decimal(n as nat) =~= decimal(n as nat));
    string_from_chars(out.as_slice())
}

} // verus!
