//! Lines laid end to end: what a flattened sequence of lines contains.

use vstd::prelude::*;
use vstd::seq_lib::{
    lemma_no_dup_in_concat, to_multiset_build, to_multiset_contains, to_multiset_len,
    to_multiset_remove,
};

verus! {

/// The element `x` stands at position `k` of line `i`.
pub open spec fn occurs_at<A>(lines: Seq<Seq<A>>, i: int, k: int, x: A) -> bool {
    0 <= i < lines.len() && 0 <= k < lines[i].len() && lines[i][k] == x
}

/// No element stands at two places of `lines`.
pub open spec fn all_distinct<A>(lines: Seq<Seq<A>>) -> bool {
    forall|i: int, k: int, j: int, l: int|
        0 <= i < lines.len() && 0 <= k < lines[i].len() && 0 <= j < lines.len() && 0 <= l
            < lines[j].len() && (i != j || k != l) ==> #[trigger] lines[i][k]
            != #[trigger] lines[j][l]
}

/// Laid end to end, the lines are all but the last laid end to end, followed
/// by the last.
pub proof fn lemma_flatten_last<A>(lines: Seq<Seq<A>>)
    requires
        lines.len() > 0,
    ensures
        lines.flatten() == lines.drop_last().flatten() + lines.last(),
{
    assert(lines =~= lines.drop_last().push(lines.last()));
    lines.drop_last().lemma_flatten_push(lines.last());
}

/// Laid end to end, the lines contain exactly the elements that stand
/// somewhere on some line.
pub proof fn lemma_flatten_contains<A>(lines: Seq<Seq<A>>, x: A)
    ensures
        lines.flatten().contains(x) <==> exists|i: int, k: int| occurs_at(lines, i, k, x),
    decreases lines.len(),
{
    let flat = lines.flatten();
    if lines.len() == 0 {
        assert(flat =~= Seq::<A>::empty());
    } else {
        let front = lines.drop_last();
        let n = front.flatten().len() as int;
        lemma_flatten_last(lines);
        lemma_flatten_contains(front, x);
        if flat.contains(x) {
            let j = choose|j: int| 0 <= j < flat.len() && flat[j] == x;
            if j < n {
                assert(front.flatten()[j] == x);
                let (i, k) = choose|i: int, k: int| occurs_at(front, i, k, x);
                assert(occurs_at(lines, i, k, x));
            } else {
                assert(occurs_at(lines, lines.len() - 1, j - n, x));
            }
        }
        if exists|i: int, k: int| occurs_at(lines, i, k, x) {
            let (i, k) = choose|i: int, k: int| occurs_at(lines, i, k, x);
            if i < lines.len() - 1 {
                assert(occurs_at(front, i, k, x));
                let j = choose|j: int| 0 <= j < n && front.flatten()[j] == x;
                assert(flat[j] == x);
            } else {
                assert(flat[n + k] == x);
            }
        }
    }
}

/// Lines in which no element stands twice have no duplicates when laid end
/// to end.
pub proof fn lemma_flatten_no_duplicates<A>(lines: Seq<Seq<A>>)
    requires
        all_distinct(lines),
    ensures
        lines.flatten().no_duplicates(),
    decreases lines.len(),
{
    if lines.len() == 0 {
        assert(lines.flatten() =~= Seq::<A>::empty());
    } else {
        let front = lines.drop_last();
        let last = lines.last();
        let m = lines.len() - 1;
        lemma_flatten_last(lines);
        assert(all_distinct(front)) by {
            assert forall|i: int, k: int, j: int, l: int|
                0 <= i < front.len() && 0 <= k < front[i].len() && 0 <= j < front.len() && 0 <= l
                    < front[j].len() && (i != j || k != l) implies #[trigger] front[i][k]
                != #[trigger] front[j][l] by {
                assert(lines[i][k] != lines[j][l]);
            }
        }
        lemma_flatten_no_duplicates(front);
        assert(last.no_duplicates()) by {
            assert forall|k: int, l: int|
                0 <= k < last.len() && 0 <= l < last.len() && k != l implies last[k] != last[l] by {
                assert(lines[m][k] != lines[m][l]);
            }
        }
        assert forall|a: int, b: int|
            0 <= a < front.flatten().len() && 0 <= b < last.len() implies front.flatten()[a]
            != last[b] by {
            let x = front.flatten()[a];
            lemma_flatten_contains(front, x);
            assert(front.flatten().contains(x));
            let (i, k) = choose|i: int, k: int| occurs_at(front, i, k, x);
            assert(lines[i][k] != lines[m][b]);
        }
        lemma_no_dup_in_concat(front.flatten(), last);
    }
}

/// Lines of one length `n`, laid end to end, have `n` elements per line.
pub proof fn lemma_flatten_uniform<A>(lines: Seq<Seq<A>>, n: nat)
    requires
        forall|i: int| 0 <= i < lines.len() ==> (#[trigger] lines[i]).len() == n,
    ensures
        lines.flatten().len() == lines.len() * n,
    decreases lines.len(),
{
    if lines.len() == 0 {
        assert(lines.flatten() =~= Seq::<A>::empty());
        assert(0 * n == 0) by (nonlinear_arith);
    } else {
        lemma_flatten_last(lines);
        lemma_flatten_uniform(lines.drop_last(), n);
        let m = lines.len() as int;
        assert((m - 1) * n + n == m * n) by (nonlinear_arith);
    }
}

/// Two sequences without duplicates that contain the same elements hold the
/// same multiset.
pub proof fn lemma_same_elements<A>(s: Seq<A>, t: Seq<A>)
    requires
        s.no_duplicates(),
        t.no_duplicates(),
        forall|x: A| s.contains(x) <==> t.contains(x),
    ensures
        s.to_multiset() == t.to_multiset(),
{
    s.lemma_multiset_has_no_duplicates();
    t.lemma_multiset_has_no_duplicates();
    assert forall|x: A| s.to_multiset().count(x) == t.to_multiset().count(x) by {
        to_multiset_contains(s, x);
        to_multiset_contains(t, x);
        assert(s.contains(x) <==> t.contains(x));
    }
    assert(s.to_multiset() =~= t.to_multiset());
}

/// Sequences that hold the same multiset still do after every element is
/// replaced by its image under `f`.
pub proof fn lemma_map_rearranged<A, B>(s: Seq<A>, t: Seq<A>, f: spec_fn(A) -> B)
    requires
        s.to_multiset() == t.to_multiset(),
    ensures
        s.map_values(f).to_multiset() == t.map_values(f).to_multiset(),
    decreases s.len(),
{
    broadcast use vstd::multiset::group_multiset_axioms;

    to_multiset_len(s);
    to_multiset_len(t);
    if s.len() == 0 {
        assert(s.map_values(f) =~= t.map_values(f));
    } else {
        let a = s.last();
        let s1 = s.drop_last();
        assert(s =~= s1.push(a));
        to_multiset_build(s1, a);
        to_multiset_contains(t, a);
        let j = choose|j: int| 0 <= j < t.len() && t[j] == a;
        let t1 = t.remove(j);
        to_multiset_remove(t, j);
        assert(s1.to_multiset() =~= t1.to_multiset());
        lemma_map_rearranged(s1, t1, f);
        assert(s.map_values(f) =~= s1.map_values(f).push(f(a)));
        to_multiset_build(s1.map_values(f), f(a));
        assert(t.map_values(f).remove(j) =~= t1.map_values(f));
        to_multiset_remove(t.map_values(f), j);
        to_multiset_contains(t.map_values(f), f(a));
        assert(t.map_values(f)[j] == f(a));
        assert(t.map_values(f).to_multiset() =~= t1.map_values(f).to_multiset().insert(f(a)));
    }
}

} // verus!
