//! The orders in which results are sorted: text in character order, and
//! paths component by component, as `str` and `Path` compare.
use vstd::prelude::*;
use vstd::slice::slice_to_vec;

verus! {

/// The outcome of comparing two values.
#[derive(Debug, Clone, Copy, PartialEq, Eq, Structural)]
pub enum Rank {
    Before,
    Same,
    After,
}

// ---------------------------------------------------------------- text

/// `a` sorts strictly before `b` in character order (a proper prefix sorts
/// first).
pub open spec fn text_lt(a: Seq<char>, b: Seq<char>) -> bool
    decreases a.len(),
{
    if a.len() == 0 {
        b.len() > 0
    } else if b.len() == 0 {
        false
    } else if a[0] != b[0] {
        a[0] < b[0]
    } else {
        text_lt(a.drop_first(), b.drop_first())
    }
}

pub open spec fn text_rank(a: Seq<char>, b: Seq<char>) -> Rank {
    if text_lt(a, b) {
        Rank::Before
    } else if a == b {
        Rank::Same
    } else {
        Rank::After
    }
}

pub proof fn lemma_text_irreflexive(a: Seq<char>)
    ensures
        !text_lt(a, a),
    decreases a.len(),
{
    if a.len() > 0 {
        lemma_text_irreflexive(a.drop_first());
    }
}

pub proof fn lemma_text_transitive(a: Seq<char>, b: Seq<char>, c: Seq<char>)
    requires
        text_lt(a, b),
        text_lt(b, c),
    ensures
        text_lt(a, c),
    decreases a.len(),
{
    if a.len() > 0 && b.len() > 0 && c.len() > 0 && a[0] == b[0] && b[0] == c[0] {
        lemma_text_transitive(a.drop_first(), b.drop_first(), c.drop_first());
    }
}

pub proof fn lemma_text_total(a: Seq<char>, b: Seq<char>)
    ensures
        a == b || text_lt(a, b) || text_lt(b, a),
    decreases a.len(),
{
    if a.len() > 0 && b.len() > 0 && a[0] == b[0] {
        lemma_text_total(a.drop_first(), b.drop_first());
        if a.drop_first() == b.drop_first() {
            assert(a =~= seq![a[0]] + a.drop_first());
            assert(b =~= seq![b[0]] + b.drop_first());
        }
    } else if a.len() == 0 && b.len() == 0 {
        assert(a =~= b);
    }
}

/// Character order is a strict total order.
pub proof fn lemma_text_order(a: Seq<char>, b: Seq<char>, c: Seq<char>)
    ensures
        !text_lt(a, a),
        text_lt(a, b) ==> !text_lt(b, a),
        text_lt(a, b) && text_lt(b, c) ==> text_lt(a, c),
        a == b || text_lt(a, b) || text_lt(b, a),
{
    lemma_text_irreflexive(a);
    lemma_text_total(a, b);
    if text_lt(a, b) && text_lt(b, a) {
        lemma_text_transitive(a, b, a);
    }
    if text_lt(a, b) && text_lt(b, c) {
        lemma_text_transitive(a, b, c);
    }
}

/// `a` differs from `b` first at `i`, where `a` has the smaller character.
pub open spec fn first_smaller_at(a: Seq<char>, b: Seq<char>, i: int) -> bool {
    0 <= i < a.len() && i < b.len() && a.take(i) == b.take(i) && a[i] < b[i]
}

/// Text order is dictionary order by character: `a` sorts before `b`
/// exactly when `a` has the smaller character where they first differ, or
/// `a` is a proper prefix of `b`.
pub proof fn law_text_order(a: Seq<char>, b: Seq<char>)
    ensures
        text_lt(a, b) <==> (exists|i: int| #[trigger] first_smaller_at(a, b, i)) || (a.len() < b.len()
            && b.take(a.len() as int) == a),
    decreases a.len(),
{
    if a.len() == 0 {
        assert(b.take(0) =~= a);
    } else if b.len() == 0 {
    } else if a[0] != b[0] {
        if a[0] < b[0] {
            assert(a.take(0) =~= b.take(0));
            assert(first_smaller_at(a, b, 0));
        } else {
            assert forall|i: int| !first_smaller_at(a, b, i) by {
                if first_smaller_at(a, b, i) && i > 0 {
                    assert(a.take(i)[0] == b.take(i)[0]);
                }
            }
            if a.len() < b.len() && b.take(a.len() as int) == a {
                assert(b.take(a.len() as int)[0] == b[0]);
            }
        }
    } else {
        let a1 = a.drop_first();
        let b1 = b.drop_first();
        law_text_order(a1, b1);
        if exists|i: int| #[trigger] first_smaller_at(a1, b1, i) {
            let i = choose|i: int| #[trigger] first_smaller_at(a1, b1, i);
            assert(a.take(i + 1) =~= seq![a[0]] + a1.take(i));
            assert(b.take(i + 1) =~= seq![b[0]] + b1.take(i));
            assert(first_smaller_at(a, b, i + 1));
        }
        if a1.len() < b1.len() && b1.take(a1.len() as int) == a1 {
            assert(b.take(a.len() as int) =~= seq![b[0]] + b1.take(a1.len() as int));
            assert(a =~= seq![a[0]] + a1);
        }
        if exists|i: int| #[trigger] first_smaller_at(a, b, i) {
            let i = choose|i: int| #[trigger] first_smaller_at(a, b, i);
            if i == 0 {
            } else {
                assert(a1.take(i - 1) =~= a.take(i).drop_first());
                assert(b1.take(i - 1) =~= b.take(i).drop_first());
                assert(first_smaller_at(a1, b1, i - 1));
            }
        }
        if a.len() < b.len() && b.take(a.len() as int) == a {
            assert(b1.take(a1.len() as int) =~= b.take(a.len() as int).drop_first());
        }
    }
}

/// Compares two texts in character order.
pub fn compare_text(a: &[char], b: &[char]) -> (r: Rank)
    ensures
        r == text_rank(a@, b@),
{
    let mut i: usize = 0;
    assert(a@.skip(0) == a@ && b@.skip(0) == b@);
    while i < a.len() && i < b.len() && a[i] == b[i]
        invariant
            i <= a@.len(),
            i <= b@.len(),
            a@.take(i as int) == b@.take(i as int),
            text_lt(a@, b@) == text_lt(a@.skip(i as int), b@.skip(i as int)),
        decreases a@.len() - i,
    {
        proof {
            let sa = a@.skip(i as int);
            let sb = b@.skip(i as int);
            assert(sa[0] == sb[0]);
            assert(sa.drop_first() =~= a@.skip(i + 1));
            assert(sb.drop_first() =~= b@.skip(i + 1));
            assert(a@.take(i + 1) =~= a@.take(i as int).push(a@[i as int]));
            assert(b@.take(i + 1) =~= b@.take(i as int).push(b@[i as int]));
        }
        i = i + 1;
    }
    let ghost sa = a@.skip(i as int);
    let ghost sb = b@.skip(i as int);
    if i == a.len() {
        if i == b.len() {
            assert(a@ =~= a@.take(i as int));
            assert(b@ =~= b@.take(i as int));
            proof {
                lemma_text_irreflexive(a@);
            }
            Rank::Same
        } else {
            assert(sa.len() == 0 && sb.len() > 0);
            Rank::Before
        }
    } else if i == b.len() {
        assert(sb.len() == 0 && sa.len() > 0);
        assert(a@ != b@);
        Rank::After
    } else {
        assert(sa[0] == a@[i as int] && sb[0] == b@[i as int]);
        assert(a@[i as int] != b@[i as int]);
        assert(a@ != b@) by {
            if a@ == b@ {
                assert(a@[i as int] == b@[i as int]);
            }
        }
        if a[i] < b[i] {
            Rank::Before
        } else {
            Rank::After
        }
    }
}

/// Compares two strings in character order.
pub fn compare_strings(a: &str, b: &str) -> (r: Rank)
    ensures
        r == text_rank(a@, b@),
{
    let ca = crate::text::chars_of(a);
    let cb = crate::text::chars_of(b);
    compare_text(ca.as_slice(), cb.as_slice())
}

// ---------------------------------------------------------------- paths

/// Index of the first `'/'` at or after `i`, or the length.
pub open spec fn slash_at(p: Seq<char>, i: int) -> int
    decreases p.len() - i,
{
    if i < 0 || i >= p.len() || p[i] == '/' {
        i
    } else {
        slash_at(p, i + 1)
    }
}

pub proof fn lemma_slash_at(p: Seq<char>, i: int)
    requires
        0 <= i <= p.len(),
    ensures
        i <= slash_at(p, i) <= p.len(),
    decreases p.len() - i,
{
    if i < p.len() && p[i] != '/' {
        lemma_slash_at(p, i + 1);
    }
}

/// The pieces of `p` between separators from index `i` on, empty pieces
/// included (`"a//b/"` has the pieces `a`, ``, `b`, ``).
pub open spec fn pieces_from(p: Seq<char>, i: int) -> Seq<Seq<char>>
    decreases p.len() - i + 1,
{
    if i < 0 || i > p.len() {
        seq![]
    } else {
        let e = slash_at(p, i);
        proof {
            lemma_slash_at(p, i);
        }
        if e < p.len() {
            seq![p.subrange(i, e)] + pieces_from(p, e + 1)
        } else {
            seq![p.subrange(i, e)]
        }
    }
}

pub open spec fn pieces(p: Seq<char>) -> Seq<Seq<char>> {
    pieces_from(p, 0)
}

pub proof fn lemma_pieces_nonempty(p: Seq<char>, i: int)
    requires
        0 <= i <= p.len(),
    ensures
        pieces_from(p, i).len() >= 1,
{
}

/// A piece as a component key: `..` is a parent component, anything else
/// a normal one; the leading character ranks the kinds (root, current
/// directory, parent, normal) as `std::path::Component` does.
pub open spec fn component_key(piece: Seq<char>) -> Seq<char> {
    if piece == seq!['.', '.'] {
        seq!['\u{2}']
    } else {
        seq!['\u{3}'] + piece
    }
}

/// The first component: the root for an absolute path, the current
/// directory for a path that starts with `.` as a whole piece, none for the
/// empty path, else the first piece.
pub open spec fn head_components(p: Seq<char>, first: Seq<char>) -> Seq<Seq<char>> {
    if p.len() > 0 && p[0] == '/' {
        seq![seq!['\u{0}']]
    } else if first == seq!['.'] {
        seq![seq!['\u{1}']]
    } else if first.len() == 0 {
        seq![]
    } else {
        seq![component_key(first)]
    }
}

/// The components of pieces `1..n`: empty pieces and `.` are skipped.
pub open spec fn tail_components(ps: Seq<Seq<char>>, n: int) -> Seq<Seq<char>>
    decreases n,
{
    if n <= 1 {
        seq![]
    } else {
        let prev = tail_components(ps, n - 1);
        let q = ps[n - 1];
        if q.len() == 0 || q == seq!['.'] {
            prev
        } else {
            prev.push(component_key(q))
        }
    }
}

/// The components of a path, as `Path::components` yields them.
pub open spec fn path_components(p: Seq<char>) -> Seq<Seq<char>> {
    let ps = pieces(p);
    head_components(p, ps[0]) + tail_components(ps, ps.len() as int)
}

fn split_pieces(p: &[char]) -> (out: Vec<Vec<char>>)
    ensures
        out@.len() == pieces(p@).len(),
        forall|i: int| 0 <= i < out@.len() ==> #[trigger] out@[i]@ == pieces(p@)[i],
{
    let mut out: Vec<Vec<char>> = Vec::new();
    let mut start: usize = 0;
    let ghost done: Seq<Seq<char>> = seq![];
    loop
        invariant
            start <= p@.len(),
            done.len() == out@.len(),
            forall|i: int| 0 <= i < out@.len() ==> #[trigger] out@[i]@ == done[i],
            done + pieces_from(p@, start as int) == pieces(p@),
        decreases p@.len() - start,
    {
        let mut e: usize = start;
        while e < p.len() && p[e] != '/'
            invariant
                start <= e <= p@.len(),
                slash_at(p@, start as int) == slash_at(p@, e as int),
            decreases p@.len() - e,
        {
            e = e + 1;
        }
        proof {
            lemma_slash_at(p@, start as int);
        }
        let piece = slice_to_vec(&p[start..e]);
        proof {
            done = done.push(piece@);
        }
        out.push(piece);
        if e < p.len() {
            start = e + 1;
        } else {
            assert(done == pieces(p@));
            return out;
        }
    }
}

fn is_dot(piece: &[char]) -> (r: bool)
    ensures
        r == (piece@ == seq!['.']),
{
    let r = piece.len() == 1 && piece[0] == '.';
    if r {
        assert(piece@ =~= seq!['.']);
    }
    r
}

fn make_component_key(piece: &[char]) -> (key: Vec<char>)
    ensures
        key@ == component_key(piece@),
{
    if piece.len() == 2 && piece[0] == '.' && piece[1] == '.' {
        assert(piece@ =~= seq!['.', '.']);
        vec!['\u{2}']
    } else {
        assert(piece@ != seq!['.', '.']) by {
            if piece@ == seq!['.', '.'] {
                assert(piece@.len() == 2 && piece@[0] == '.' && piece@[1] == '.');
            }
        }
        let mut key = vec!['\u{3}'];
        let mut i: usize = 0;
        while i < piece.len()
            invariant
                i <= piece@.len(),
                key@ == seq!['\u{3}'] + piece@.take(i as int),
            decreases piece@.len() - i,
        {
            key.push(piece[i]);
            proof {
                assert(piece@.take(i + 1) =~= piece@.take(i as int).push(piece@[i as int]));
                assert(key@ =~= seq!['\u{3}'] + piece@.take(i + 1));
            }
            i = i + 1;
        }
        assert(piece@.take(piece@.len() as int) == piece@);
        key
    }
}

/// The components of a path as comparable keys.
pub fn components_of(p: &[char]) -> (out: Vec<Vec<char>>)
    ensures
        out@.len() == path_components(p@).len(),
        forall|i: int| 0 <= i < out@.len() ==> #[trigger] out@[i]@ == path_components(p@)[i],
{
    let ps = split_pieces(p);
    let ghost gps = pieces(p@);
    proof {
        lemma_pieces_nonempty(p@, 0);
    }
    let mut out: Vec<Vec<char>> = Vec::new();
    let ghost head = head_components(p@, gps[0]);
    if p.len() > 0 && p[0] == '/' {
        out.push(vec!['\u{0}']);
    } else if is_dot(ps[0].as_slice()) {
        out.push(vec!['\u{1}']);
    } else if ps[0].len() == 0 {
    } else {
        out.push(make_component_key(ps[0].as_slice()));
    }
    assert(out@.len() == head.len());
    assert(forall|i: int| 0 <= i < out@.len() ==> #[trigger] out@[i]@ == head[i]);
    let mut n: usize = 1;
    while n < ps.len()
        invariant
            1 <= n <= ps@.len(),
            ps@.len() == gps.len(),
            forall|i: int| 0 <= i < ps@.len() ==> #[trigger] ps@[i]@ == gps[i],
            out@.len() == (head + tail_components(gps, n as int)).len(),
            forall|i: int| 0 <= i < out@.len() ==> #[trigger] out@[i]@ == (head + tail_components(gps, n as int))[i],
        decreases ps@.len() - n,
    {
        let q = ps[n].as_slice();
        let ghost before = head + tail_components(gps, n as int);
        if q.len() == 0 || is_dot(q) {
            assert(head + tail_components(gps, n + 1) == before);
        } else {
            let key = make_component_key(q);
            out.push(key);
            assert(head + tail_components(gps, n + 1) =~= before.push(component_key(gps[n as int])));
        }
        n = n + 1;
    }
    out
}

/// `a` sorts strictly before `b`, comparing component keys in order (a
/// proper prefix sorts first).
pub open spec fn keys_lt(a: Seq<Seq<char>>, b: Seq<Seq<char>>) -> bool
    decreases a.len(),
{
    if a.len() == 0 {
        b.len() > 0
    } else if b.len() == 0 {
        false
    } else if a[0] != b[0] {
        text_lt(a[0], b[0])
    } else {
        keys_lt(a.drop_first(), b.drop_first())
    }
}

pub proof fn lemma_keys_irreflexive(a: Seq<Seq<char>>)
    ensures
        !keys_lt(a, a),
    decreases a.len(),
{
    if a.len() > 0 {
        lemma_keys_irreflexive(a.drop_first());
    }
}

pub proof fn lemma_keys_transitive(a: Seq<Seq<char>>, b: Seq<Seq<char>>, c: Seq<Seq<char>>)
    requires
        keys_lt(a, b),
        keys_lt(b, c),
    ensures
        keys_lt(a, c),
    decreases a.len(),
{
    if a.len() > 0 && b.len() > 0 && c.len() > 0 {
        if a[0] == b[0] && b[0] == c[0] {
            lemma_keys_transitive(a.drop_first(), b.drop_first(), c.drop_first());
        } else {
            lemma_text_order(a[0], b[0], c[0]);
        }
    }
}

pub proof fn lemma_keys_total(a: Seq<Seq<char>>, b: Seq<Seq<char>>)
    ensures
        a == b || keys_lt(a, b) || keys_lt(b, a),
    decreases a.len(),
{
    if a.len() > 0 && b.len() > 0 {
        if a[0] == b[0] {
            lemma_keys_total(a.drop_first(), b.drop_first());
            if a.drop_first() == b.drop_first() {
                assert(a =~= seq![a[0]] + a.drop_first());
                assert(b =~= seq![b[0]] + b.drop_first());
            }
        } else {
            lemma_text_order(a[0], b[0], b[0]);
        }
    } else if a.len() == 0 && b.len() == 0 {
        assert(a =~= b);
    }
}

/// Component order is a strict total order on component sequences.
pub proof fn lemma_keys_order(a: Seq<Seq<char>>, b: Seq<Seq<char>>, c: Seq<Seq<char>>)
    ensures
        !keys_lt(a, a),
        keys_lt(a, b) ==> !keys_lt(b, a),
        keys_lt(a, b) && keys_lt(b, c) ==> keys_lt(a, c),
        a == b || keys_lt(a, b) || keys_lt(b, a),
{
    lemma_keys_irreflexive(a);
    lemma_keys_total(a, b);
    if keys_lt(a, b) && keys_lt(b, a) {
        lemma_keys_transitive(a, b, a);
    }
    if keys_lt(a, b) && keys_lt(b, c) {
        lemma_keys_transitive(a, b, c);
    }
}

pub open spec fn keys_rank(a: Seq<Seq<char>>, b: Seq<Seq<char>>) -> Rank {
    if keys_lt(a, b) {
        Rank::Before
    } else if a == b {
        Rank::Same
    } else {
        Rank::After
    }
}

spec fn key_views(v: Seq<Vec<char>>) -> Seq<Seq<char>> {
    v.map_values(|x: Vec<char>| x@)
}

fn compare_keys(a: &Vec<Vec<char>>, b: &Vec<Vec<char>>) -> (r: Rank)
    ensures
        r == keys_rank(key_views(a@), key_views(b@)),
{
    let ghost ka = key_views(a@);
    let ghost kb = key_views(b@);
    let mut i: usize = 0;
    assert(ka.skip(0) == ka && kb.skip(0) == kb);
    loop
        invariant
            i <= a@.len(),
            i <= b@.len(),
            ka == key_views(a@),
            kb == key_views(b@),
            ka.take(i as int) == kb.take(i as int),
            keys_lt(ka, kb) == keys_lt(ka.skip(i as int), kb.skip(i as int)),
        decreases a@.len() - i,
    {
        let ghost sa = ka.skip(i as int);
        let ghost sb = kb.skip(i as int);
        if i == a.len() {
            if i == b.len() {
                assert(ka =~= ka.take(i as int));
                assert(kb =~= kb.take(i as int));
                proof {
                    lemma_keys_irreflexive(ka);
                }
                return Rank::Same;
            } else {
                assert(sa.len() == 0 && sb.len() > 0);
                return Rank::Before;
            }
        } else if i == b.len() {
            assert(sb.len() == 0 && sa.len() > 0);
            assert(ka != kb);
            return Rank::After;
        }
        assert(sa[0] == ka[i as int] && ka[i as int] == a@[i as int]@);
        assert(sb[0] == kb[i as int] && kb[i as int] == b@[i as int]@);
        match compare_text(a[i].as_slice(), b[i].as_slice()) {
            Rank::Same => {
                proof {
                    assert(sa.drop_first() =~= ka.skip(i + 1));
                    assert(sb.drop_first() =~= kb.skip(i + 1));
                    assert(ka.take(i + 1) =~= ka.take(i as int).push(ka[i as int]));
                    assert(kb.take(i + 1) =~= kb.take(i as int).push(kb[i as int]));
                }
                i = i + 1;
            },
            Rank::Before => {
                proof {
                    lemma_text_irreflexive(ka[i as int]);
                    assert(sa.len() > 0 && sb.len() > 0 && sa[0] != sb[0]);
                    assert(keys_lt(sa, sb));
                }
                assert(ka != kb) by {
                    if ka == kb {
                        lemma_text_irreflexive(ka[i as int]);
                    }
                }
                return Rank::Before;
            },
            Rank::After => {
                proof {
                    lemma_text_order(ka[i as int], kb[i as int], kb[i as int]);
                }
                assert(ka != kb) by {
                    if ka == kb {
                        assert(ka[i as int] == kb[i as int]);
                    }
                }
                return Rank::After;
            },
        }
    }
}

/// Compares two paths component by component, as `Path::cmp` does.
pub open spec fn path_rank(a: Seq<char>, b: Seq<char>) -> Rank {
    keys_rank(path_components(a), path_components(b))
}

/// Compares two paths component by component.
pub fn compare_paths(a: &str, b: &str) -> (r: Rank)
    ensures
        r == path_rank(a@, b@),
{
    let ca = crate::text::chars_of(a);
    let cb = crate::text::chars_of(b);
    let ka = components_of(ca.as_slice());
    let kb = components_of(cb.as_slice());
    assert(key_views(ka@) =~= path_components(a@));
    assert(key_views(kb@) =~= path_components(b@));
    compare_keys(&ka, &kb)
}

} // verus!
