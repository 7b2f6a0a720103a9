//! Stable sorting over a strict weak order. The result is specified as
//! stable insertion and computed by merging sorted halves; its laws: the
//! result is sorted, is a permutation of the input, and is the only sorted
//! permutation when no two elements are equivalent.
use vstd::prelude::*;

verus! {

broadcast use vstd::seq_lib::group_to_multiset_ensures;

/// A strict weak order on the models of `T`, with an executable test.
pub trait Order<T: DeepView> {
    /// `a` sorts strictly before `b`.
    spec fn before(a: T::V, b: T::V) -> bool;

    fn less(a: &T, b: &T) -> (r: bool)
        ensures
            r == Self::before(a.deep_view(), b.deep_view()),
    ;

    /// Irreflexivity, transitivity and transitivity of "not before".
    proof fn lemma_strict_weak(a: T::V, b: T::V, c: T::V)
        ensures
            !Self::before(a, a),
            Self::before(a, b) && Self::before(b, c) ==> Self::before(a, c),
            !Self::before(a, b) && !Self::before(b, c) ==> !Self::before(a, c),
    ;
}

/// `s` with `x` inserted after every element that `x` does not sort before.
pub open spec fn insert_sorted<T: DeepView, O: Order<T>>(s: Seq<T::V>, x: T::V) -> Seq<T::V>
    decreases s.len(),
{
    if s.len() == 0 || !O::before(x, s.last()) {
        s.push(x)
    } else {
        insert_sorted::<T, O>(s.drop_last(), x).push(s.last())
    }
}

/// The stable sort of `s`: elements that neither sorts before keep their
/// relative order.
pub open spec fn sorted_by<T: DeepView, O: Order<T>>(s: Seq<T::V>) -> Seq<T::V>
    decreases s.len(),
{
    if s.len() == 0 {
        s
    } else {
        insert_sorted::<T, O>(sorted_by::<T, O>(s.drop_last()), s.last())
    }
}

/// No element sorts before an element to its left.
pub open spec fn is_sorted<T: DeepView, O: Order<T>>(s: Seq<T::V>) -> bool {
    forall|i: int, j: int| 0 <= i < j < s.len() ==> !O::before(#[trigger] s[j], #[trigger] s[i])
}

/// Every element sorts strictly before every element to its right.
pub open spec fn is_strictly_sorted<T: DeepView, O: Order<T>>(s: Seq<T::V>) -> bool {
    forall|i: int, j: int| 0 <= i < j < s.len() ==> O::before(#[trigger] s[i], #[trigger] s[j])
}

proof fn lemma_insert_multiset<T: DeepView, O: Order<T>>(s: Seq<T::V>, x: T::V)
    ensures
        insert_sorted::<T, O>(s, x).to_multiset() =~= s.to_multiset().insert(x),
        insert_sorted::<T, O>(s, x).len() == s.len() + 1,
    decreases s.len(),
{
    if s.len() > 0 && O::before(x, s.last()) {
        lemma_insert_multiset::<T, O>(s.drop_last(), x);
        assert(s.drop_last().push(s.last()) == s);
    }
}

/// Sorting keeps exactly the elements of the input.
pub proof fn lemma_sorted_by_multiset<T: DeepView, O: Order<T>>(s: Seq<T::V>)
    ensures
        sorted_by::<T, O>(s).to_multiset() =~= s.to_multiset(),
        sorted_by::<T, O>(s).len() == s.len(),
    decreases s.len(),
{
    if s.len() > 0 {
        lemma_sorted_by_multiset::<T, O>(s.drop_last());
        lemma_insert_multiset::<T, O>(sorted_by::<T, O>(s.drop_last()), s.last());
        assert(s.drop_last().push(s.last()) == s);
    }
}

proof fn lemma_insert_sorted_sorted<T: DeepView, O: Order<T>>(s: Seq<T::V>, x: T::V)
    requires
        is_sorted::<T, O>(s),
    ensures
        is_sorted::<T, O>(insert_sorted::<T, O>(s, x)),
    decreases s.len(),
{
    let r = insert_sorted::<T, O>(s, x);
    if s.len() == 0 {
    } else if !O::before(x, s.last()) {
        assert forall|i: int, j: int| 0 <= i < j < r.len() implies !O::before(
            #[trigger] r[j],
            #[trigger] r[i],
        ) by {
            if j == r.len() - 1 {
                // x sorts no earlier than the last element, hence no earlier than s[i]
                O::lemma_strict_weak(x, s.last(), s[i]);
                if i < s.len() - 1 {
                    assert(!O::before(s.last(), s[i]));
                }
            }
        }
    } else {
        let t = s.drop_last();
        lemma_insert_sorted_sorted::<T, O>(t, x);
        let u = insert_sorted::<T, O>(t, x);
        lemma_insert_multiset::<T, O>(t, x);
        assert forall|i: int, j: int| 0 <= i < j < r.len() implies !O::before(
            #[trigger] r[j],
            #[trigger] r[i],
        ) by {
            if j == r.len() - 1 {
                // r[i] is x or an element of t, none sorts after s.last()
                let y = u[i];
                assert(u.to_multiset().count(y) > 0);
                assert(t.to_multiset().insert(x).count(y) > 0);
                if y != x {
                    assert(t.to_multiset().count(y) > 0);
                    assert(t.contains(y));
                    let k = choose|k: int| 0 <= k < t.len() && t[k] == y;
                    assert(!O::before(s[s.len() - 1], s[k]));
                } else {
                    O::lemma_strict_weak(x, s.last(), x);
                }
            }
        }
    }
}

/// The result of sorting is sorted.
pub proof fn lemma_sorted_by_sorted<T: DeepView, O: Order<T>>(s: Seq<T::V>)
    ensures
        is_sorted::<T, O>(sorted_by::<T, O>(s)),
    decreases s.len(),
{
    if s.len() > 0 {
        lemma_sorted_by_sorted::<T, O>(s.drop_last());
        lemma_insert_sorted_sorted::<T, O>(sorted_by::<T, O>(s.drop_last()), s.last());
    }
}

/// A sorted sequence and a strictly sorted one with the same elements are
/// the same sequence.
pub proof fn lemma_sorted_unique<T: DeepView, O: Order<T>>(a: Seq<T::V>, b: Seq<T::V>)
    requires
        is_sorted::<T, O>(a),
        is_strictly_sorted::<T, O>(b),
        a.to_multiset() == b.to_multiset(),
    ensures
        a == b,
    decreases a.len(),
{
    assert(a.len() == a.to_multiset().len());
    assert(b.len() == b.to_multiset().len());
    if a.len() > 0 {
        let n = a.len() - 1;
        let x = a[n];
        let y = b[n];
        assert(b.to_multiset().count(x) > 0) by {
            assert(a.contains(x));
        }
        assert(b.contains(x));
        let m = choose|m: int| 0 <= m < b.len() && b[m] == x;
        assert(a.to_multiset().count(y) > 0) by {
            assert(b.contains(y));
        }
        assert(a.contains(y));
        let k = choose|k: int| 0 <= k < a.len() && a[k] == y;
        if m < n {
            assert(O::before(b[m], b[n]));
            if k < n {
                assert(!O::before(a[n], a[k]));
            } else {
                O::lemma_strict_weak(x, x, x);
            }
        }
        assert(x == y);
        assert(a.remove(n) == a.drop_last());
        assert(b.remove(n) == b.drop_last());
        assert(a.drop_last().to_multiset() == b.drop_last().to_multiset());
        lemma_sorted_unique::<T, O>(a.drop_last(), b.drop_last());
        assert(a == a.drop_last().push(x));
        assert(b == b.drop_last().push(y));
    }
}

/// The stable merge of `a` and `b`, built from the back: the last element
/// of `a` goes last when the last element of `b` sorts strictly before it,
/// and otherwise the last element of `b` does.
pub open spec fn merge<T: DeepView, O: Order<T>>(a: Seq<T::V>, b: Seq<T::V>) -> Seq<T::V>
    decreases a.len() + b.len(),
{
    if a.len() == 0 {
        b
    } else if b.len() == 0 {
        a
    } else if O::before(b.last(), a.last()) {
        merge::<T, O>(a.drop_last(), b).push(a.last())
    } else {
        merge::<T, O>(a, b.drop_last()).push(b.last())
    }
}

proof fn lemma_insert_merge<T: DeepView, O: Order<T>>(a: Seq<T::V>, b: Seq<T::V>, x: T::V)
    ensures
        insert_sorted::<T, O>(merge::<T, O>(a, b), x) == merge::<T, O>(a, insert_sorted::<T, O>(b, x)),
    decreases a.len() + b.len(),
{
    let ib = insert_sorted::<T, O>(b, x);
    if a.len() == 0 {
    } else if b.len() == 0 {
        let xa = a.last();
        assert(ib == b.push(x));
        assert(ib.last() == x);
        assert(ib.drop_last() == b);
        if O::before(x, xa) {
            lemma_insert_merge::<T, O>(a.drop_last(), b, x);
            assert(merge::<T, O>(a.drop_last(), b) == a.drop_last());
            assert(merge::<T, O>(a, ib) == merge::<T, O>(a.drop_last(), ib).push(xa));
            assert(merge::<T, O>(a, b) == a);
            assert(a.drop_last().push(xa) == a);
        } else {
            assert(merge::<T, O>(a, ib) == merge::<T, O>(a, b).push(x));
            assert(merge::<T, O>(a, b) == a);
        }
    } else {
        let xa = a.last();
        let xb = b.last();
        let m = merge::<T, O>(a, b);
        O::lemma_strict_weak(x, xb, xa);
        if O::before(x, xb) {
            assert(ib == insert_sorted::<T, O>(b.drop_last(), x).push(xb));
            assert(ib.last() == xb);
            assert(ib.drop_last() == insert_sorted::<T, O>(b.drop_last(), x));
        } else {
            assert(ib == b.push(x));
            assert(ib.last() == x);
            assert(ib.drop_last() == b);
        }
        if O::before(xb, xa) {
            assert(m == merge::<T, O>(a.drop_last(), b).push(xa));
            assert(m.last() == xa);
            assert(m.drop_last() == merge::<T, O>(a.drop_last(), b));
            if O::before(x, xa) {
                lemma_insert_merge::<T, O>(a.drop_last(), b, x);
                assert(insert_sorted::<T, O>(m, x) == insert_sorted::<T, O>(m.drop_last(), x).push(xa));
                assert(merge::<T, O>(a, ib) == merge::<T, O>(a.drop_last(), ib).push(xa));
            } else {
                assert(insert_sorted::<T, O>(m, x) == m.push(x));
                assert(merge::<T, O>(a, ib) == merge::<T, O>(a, b).push(x));
            }
        } else {
            assert(m == merge::<T, O>(a, b.drop_last()).push(xb));
            assert(m.last() == xb);
            assert(m.drop_last() == merge::<T, O>(a, b.drop_last()));
            if O::before(x, xb) {
                lemma_insert_merge::<T, O>(a, b.drop_last(), x);
                assert(insert_sorted::<T, O>(m, x) == insert_sorted::<T, O>(m.drop_last(), x).push(xb));
                assert(merge::<T, O>(a, ib) == merge::<T, O>(a, ib.drop_last()).push(xb));
            } else {
                assert(insert_sorted::<T, O>(m, x) == m.push(x));
                assert(merge::<T, O>(a, ib) == merge::<T, O>(a, b).push(x));
            }
        }
    }
}

/// Sorting a concatenation gives the stable merge of the sorted parts.
pub proof fn lemma_sorted_by_concat<T: DeepView, O: Order<T>>(l: Seq<T::V>, r: Seq<T::V>)
    ensures
        sorted_by::<T, O>(l + r) == merge::<T, O>(sorted_by::<T, O>(l), sorted_by::<T, O>(r)),
    decreases r.len(),
{
    if r.len() == 0 {
        assert(l + r == l);
    } else {
        lemma_sorted_by_concat::<T, O>(l, r.drop_last());
        assert((l + r).drop_last() == l + r.drop_last());
        assert((l + r).last() == r.last());
        lemma_insert_merge::<T, O>(sorted_by::<T, O>(l), sorted_by::<T, O>(r.drop_last()), r.last());
    }
}

/// Merges two vectors as `merge` does: the elements are moved from the
/// backs of `a` and `b` into a reversed buffer, which is then emptied.
fn merge_vecs<T: DeepView, O: Order<T>>(a: Vec<T>, b: Vec<T>) -> (out: Vec<T>)
    ensures
        out.deep_view() == merge::<T, O>(a.deep_view(), b.deep_view()),
{
    let ghost whole = merge::<T, O>(a.deep_view(), b.deep_view());
    let mut a = a;
    let mut b = b;
    let mut rev: Vec<T> = Vec::new();
    let ghost mut tail: Seq<T::V> = Seq::empty();
    while a.len() > 0 || b.len() > 0
        invariant
            whole == merge::<T, O>(a.deep_view(), b.deep_view()) + tail,
            rev@.len() == tail.len(),
            forall|k: int| 0 <= k < tail.len() ==> #[trigger] rev@[k].deep_view() == tail[tail.len() - 1 - k],
        decreases a@.len() + b@.len(),
    {
        let ghost da = a.deep_view();
        let ghost db = b.deep_view();
        let from_a = if a.len() == 0 {
            false
        } else if b.len() == 0 {
            true
        } else {
            assert(da.last() == a@[a@.len() - 1].deep_view());
            assert(db.last() == b@[b@.len() - 1].deep_view());
            O::less(&b[b.len() - 1], &a[a.len() - 1])
        };
        let ghost old_tail = tail;
        let ghost old_rev = rev@;
        if from_a {
            match a.pop() {
                Some(x) => {
                    proof {
                        assert(a.deep_view() =~= da.drop_last());
                        assert(x.deep_view() == da.last());
                        assert(whole == merge::<T, O>(a.deep_view(), db) + seq![x.deep_view()] + old_tail);
                        tail = seq![x.deep_view()] + old_tail;
                        assert(whole =~= merge::<T, O>(a.deep_view(), b.deep_view()) + tail);
                    }
                    rev.push(x);
                },
                None => {},
            }
        } else {
            match b.pop() {
                Some(x) => {
                    proof {
                        assert(b.deep_view() =~= db.drop_last());
                        assert(x.deep_view() == db.last());
                        assert(whole == merge::<T, O>(da, b.deep_view()) + seq![x.deep_view()] + old_tail);
                        tail = seq![x.deep_view()] + old_tail;
                        assert(whole =~= merge::<T, O>(a.deep_view(), b.deep_view()) + tail);
                    }
                    rev.push(x);
                },
                None => {},
            }
        }
        assert forall|k: int| 0 <= k < tail.len() implies #[trigger] rev@[k].deep_view() == tail[tail.len()
            - 1 - k] by {
            if k < old_rev.len() {
                assert(rev@[k] == old_rev[k]);
            }
        }
    }
    assert(a.deep_view() =~= Seq::<T::V>::empty());
    assert(b.deep_view() =~= Seq::<T::V>::empty());
    assert(whole =~= tail);
    let mut out: Vec<T> = Vec::new();
    let ghost mut rest: Seq<T::V> = tail;
    while rev.len() > 0
        invariant
            whole == out.deep_view() + rest,
            rev@.len() == rest.len(),
            forall|k: int| 0 <= k < rest.len() ==> #[trigger] rev@[k].deep_view() == rest[rest.len() - 1 - k],
        decreases rev@.len(),
    {
        let ghost old_rev = rev@;
        let ghost old_out = out.deep_view();
        match rev.pop() {
            Some(x) => {
                proof {
                    assert(x == old_rev[old_rev.len() - 1]);
                    assert(x.deep_view() == rest[0]);
                    assert(whole =~= old_out.push(x.deep_view()) + rest.drop_first());
                    rest = rest.drop_first();
                }
                out.push(x);
                assert(out.deep_view() =~= old_out.push(x.deep_view()));
                assert forall|k: int| 0 <= k < rest.len() implies #[trigger] rev@[k].deep_view() == rest[rest.len()
                    - 1 - k] by {
                    assert(rev@[k] == old_rev[k]);
                }
            },
            None => {},
        }
    }
    assert(rest =~= Seq::<T::V>::empty());
    assert(out.deep_view() + rest =~= out.deep_view());
    out
}

/// Sorts `v` stably by `O`, by merging sorted halves.
pub fn sort_by_order<T: DeepView, O: Order<T>>(v: Vec<T>) -> (out: Vec<T>)
    ensures
        out.deep_view() == sorted_by::<T, O>(v.deep_view()),
    decreases v@.len(),
{
    let ghost whole = v.deep_view();
    let n = v.len();
    if n <= 1 {
        proof {
            if n == 1 {
                assert(whole.drop_last() =~= Seq::<T::V>::empty());
                assert(sorted_by::<T, O>(whole.drop_last()) == whole.drop_last());
                assert(whole.drop_last().push(whole.last()) =~= whole);
            }
        }
        return v;
    }
    let mut left = v;
    let right = left.split_off(n / 2);
    proof {
        assert(whole =~= left.deep_view() + right.deep_view());
        lemma_sorted_by_concat::<T, O>(left.deep_view(), right.deep_view());
    }
    let sorted_left = sort_by_order::<T, O>(left);
    let sorted_right = sort_by_order::<T, O>(right);
    merge_vecs::<T, O>(sorted_left, sorted_right)
}

} // verus!
