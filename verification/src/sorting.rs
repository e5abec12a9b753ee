//! Stable sorting by a "goes before" relation, as `slice::sort_by` orders
//! elements: an element is placed after every earlier one it does not go
//! before.
use vstd::prelude::*;

verus! {

/// Inserts `p` into `sorted` in front of the first element it goes before.
pub open spec fn insert_by<T>(sorted: Seq<T>, p: T, before: spec_fn(T, T) -> bool) -> Seq<T>
    decreases sorted.len(),
{
    if sorted.len() == 0 {
        seq![p]
    } else if before(p, sorted[0]) {
        seq![p] + sorted
    } else {
        seq![sorted[0]] + insert_by(sorted.drop_first(), p, before)
    }
}

/// The elements of `s` inserted one after the other, in order.
pub open spec fn sort_by<T>(s: Seq<T>, before: spec_fn(T, T) -> bool) -> Seq<T>
    decreases s.len(),
{
    if s.len() == 0 {
        Seq::empty()
    } else {
        insert_by(sort_by(s.drop_last(), before), s.last(), before)
    }
}

/// Inserting at the first position whose element `p` goes before splits
/// the sequence there.
pub proof fn lemma_insert_by_at<T>(s: Seq<T>, p: T, before: spec_fn(T, T) -> bool, j: int)
    requires
        0 <= j <= s.len(),
        forall|i: int| 0 <= i < j ==> !before(p, #[trigger] s[i]),
        j < s.len() ==> before(p, s[j]),
    ensures
        insert_by(s, p, before) == s.take(j).push(p) + s.skip(j),
    decreases s.len(),
{
    if s.len() == 0 {
        assert(s.take(0).push(p) + s.skip(0) =~= seq![p]);
    } else if j == 0 {
        assert(s.take(0).push(p) + s.skip(0) =~= seq![p] + s);
    } else {
        let t = s.drop_first();
        assert forall|i: int| 0 <= i < j - 1 implies !before(p, #[trigger] t[i]) by {
            assert(t[i] == s[i + 1]);
        }
        lemma_insert_by_at(t, p, before, j - 1);
        assert(seq![s[0]] + (t.take(j - 1).push(p) + t.skip(j - 1)) =~= s.take(j).push(p) + s.skip(
            j,
        ));
    }
}

/// Sorting keeps every element: the result is as long as the input, and
/// holds exactly its elements.
pub proof fn lemma_sort_by_elements<T>(s: Seq<T>, before: spec_fn(T, T) -> bool)
    ensures
        sort_by(s, before).len() == s.len(),
        forall|x: T| #[trigger] sort_by(s, before).contains(x) <==> s.contains(x),
    decreases s.len(),
{
    if s.len() > 0 {
        lemma_sort_by_elements(s.drop_last(), before);
        lemma_insert_by_elements(sort_by(s.drop_last(), before), s.last(), before);
        assert forall|x: T| s.contains(x) <==> (s.drop_last().contains(x) || x == s.last()) by {
            if s.contains(x) {
                let i = choose|i: int| 0 <= i < s.len() && s[i] == x;
                if i < s.len() - 1 {
                    assert(s.drop_last()[i] == x);
                }
            }
            if s.drop_last().contains(x) {
                let i = choose|i: int| 0 <= i < s.drop_last().len() && s.drop_last()[i] == x;
                assert(s[i] == x);
            }
            if x == s.last() {
                assert(s[s.len() - 1] == x);
            }
        }
    }
}

proof fn lemma_insert_by_elements<T>(s: Seq<T>, p: T, before: spec_fn(T, T) -> bool)
    ensures
        insert_by(s, p, before).len() == s.len() + 1,
        forall|x: T| #[trigger] insert_by(s, p, before).contains(x) <==> (s.contains(x) || x == p),
    decreases s.len(),
{
    let r = insert_by(s, p, before);
    if s.len() == 0 {
        assert forall|x: T| r.contains(x) <==> (s.contains(x) || x == p) by {
            if x == p {
                assert(r[0] == p);
            }
        }
    } else if before(p, s[0]) {
        assert forall|x: T| r.contains(x) <==> (s.contains(x) || x == p) by {
            if r.contains(x) {
                let i = choose|i: int| 0 <= i < r.len() && r[i] == x;
                if i > 0 {
                    assert(s[i - 1] == x);
                }
            }
            if s.contains(x) {
                let i = choose|i: int| 0 <= i < s.len() && s[i] == x;
                assert(r[i + 1] == x);
            }
            if x == p {
                assert(r[0] == p);
            }
        }
    } else {
        let t = s.drop_first();
        lemma_insert_by_elements(t, p, before);
        let q = insert_by(t, p, before);
        assert(r == seq![s[0]] + q);
        assert forall|x: T| r.contains(x) <==> (s.contains(x) || x == p) by {
            if r.contains(x) {
                let i = choose|i: int| 0 <= i < r.len() && r[i] == x;
                if i == 0 {
                    assert(s[0] == x);
                } else {
                    assert(q[i - 1] == x);
                    assert(q.contains(x));
                    if t.contains(x) {
                        let k = choose|k: int| 0 <= k < t.len() && t[k] == x;
                        assert(s[k + 1] == x);
                    }
                }
            }
            if s.contains(x) {
                let i = choose|i: int| 0 <= i < s.len() && s[i] == x;
                if i == 0 {
                    assert(r[0] == x);
                } else {
                    assert(t[i - 1] == x);
                    assert(t.contains(x));
                    assert(insert_by(t, p, before).contains(x));
                    let k = choose|k: int| 0 <= k < q.len() && q[k] == x;
                    assert(r[k + 1] == x);
                }
            }
            if x == p {
                assert(insert_by(t, p, before).contains(p));
                let k = choose|k: int| 0 <= k < q.len() && q[k] == x;
                assert(r[k + 1] == x);
            }
        }
    }
}

} // verus!
