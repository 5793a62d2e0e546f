use vstd::prelude::*;

use crate::order::{
    lemma_path_order_strict_total, path_lt, path_order, path_view,
};

verus! {

/// The models of a sequence of relative paths.
pub open spec fn paths_view(ps: Seq<Vec<Vec<u8>>>) -> Seq<Seq<Seq<u8>>> {
    ps.map_values(|p: Vec<Vec<u8>>| path_view(p))
}

/// `p` is one of the first `n` matched paths or one of their ancestors
/// (not counting the empty path, which is the root itself).
pub open spec fn in_closure_upto(matched: Seq<Seq<Seq<u8>>>, n: int, p: Seq<Seq<u8>>) -> bool {
    exists|m: int, k: int|
        0 <= m < n && 1 <= k <= matched[m].len() && p == #[trigger] matched[m].subrange(0, k)
}

/// `p` is a matched path or an ancestor of one, below the root.
pub open spec fn in_closure(matched: Seq<Seq<Seq<u8>>>, p: Seq<Seq<u8>>) -> bool {
    in_closure_upto(matched, matched.len() as int, p)
}

/// Each path sorts strictly before every later one: sorted and duplicate-free.
pub open spec fn is_sorted_strict(r: Seq<Seq<Seq<u8>>>) -> bool {
    forall|i: int, j: int| 0 <= i < j < r.len() ==> path_order()(#[trigger] r[i], #[trigger] r[j])
}

/// `r` is the sorted, duplicate-free ancestor closure of `matched`.
pub open spec fn is_rel_path_set(matched: Seq<Seq<Seq<u8>>>, r: Seq<Seq<Seq<u8>>>) -> bool {
    &&& is_sorted_strict(r)
    &&& forall|p: Seq<Seq<u8>>| #[trigger] r.contains(p) <==> in_closure(matched, p)
}

pub(crate) fn copy_component(c: &Vec<u8>) -> (r: Vec<u8>)
    ensures
        r@ == c@,
{
    let r = c.clone();
    assert(r@ =~= c@);
    r
}

pub(crate) fn copy_path(p: &Vec<Vec<u8>>) -> (r: Vec<Vec<u8>>)
    ensures
        path_view(r) == path_view(*p),
{
    let mut r: Vec<Vec<u8>> = Vec::new();
    let mut i: usize = 0;
    while i < p.len()
        invariant
            0 <= i <= p.len(),
            r@.len() == i,
            forall|j: int| 0 <= j < i ==> (#[trigger] r@[j])@ == p@[j]@,
        decreases p.len() - i,
    {
        r.push(copy_component(&p[i]));
        i = i + 1;
    }
    assert(path_view(r) =~= path_view(*p));
    r
}

/// Inserts `p` at its place in a sorted, duplicate-free list, unless present.
fn insert_sorted(r: &mut Vec<Vec<Vec<u8>>>, p: Vec<Vec<u8>>)
    requires
        is_sorted_strict(paths_view(old(r)@)),
    ensures
        is_sorted_strict(paths_view(final(r)@)),
        forall|q: Seq<Seq<u8>>|
            #[trigger] paths_view(final(r)@).contains(q) <==> (paths_view(old(r)@).contains(q) || q == path_view(p)),
{
    proof {
        lemma_path_order_strict_total();
    }
    let ghost old_v = paths_view(r@);
    let ghost pv = path_view(p);
    let mut j: usize = 0;
    while j < r.len() && path_lt(&r[j], &p)
        invariant
            0 <= j <= r.len(),
            r@ == old(r)@,
            old_v == paths_view(r@),
            pv == path_view(p),
            forall|i: int| 0 <= i < j ==> path_order()(#[trigger] old_v[i], pv),
        decreases r.len() - j,
    {
        j = j + 1;
    }
    if j < r.len() && !path_lt(&p, &r[j]) {
        assert(old_v[j as int] == pv);
        assert(old_v.contains(pv));
        return;
    }
    assert forall|i: int| j <= i < old_v.len() implies path_order()(pv, #[trigger] old_v[i]) by {
        if i > j {
            assert(path_order()(old_v[j as int], old_v[i]));
        }
    }
    r.insert(j, p);
    let ghost new_v = paths_view(r@);
    assert(new_v =~= old_v.insert(j as int, pv));
    assert forall|a: int, b: int| 0 <= a < b < new_v.len() implies path_order()(#[trigger] new_v[a], #[trigger] new_v[b]) by {
        if a < j && b == j {
        } else if a < j && b > j {
            assert(new_v[b] == old_v[b - 1]);
            assert(path_order()(old_v[a], old_v[b - 1]));
        } else if a == j {
            assert(new_v[b] == old_v[b - 1]);
        } else if b < j {
            assert(new_v[a] == old_v[a] && new_v[b] == old_v[b]);
        } else {
            assert(new_v[a] == old_v[a - 1] && new_v[b] == old_v[b - 1]);
        }
    }
    assert forall|q: Seq<Seq<u8>>| #[trigger] new_v.contains(q) <==> (old_v.contains(q) || q == pv) by {
        if new_v.contains(q) {
            let t = choose|t: int| 0 <= t < new_v.len() && new_v[t] == q;
            if t < j {
                assert(old_v[t] == q);
            } else if t > j {
                assert(old_v[t - 1] == q);
            }
        }
        if old_v.contains(q) {
            let t = choose|t: int| 0 <= t < old_v.len() && old_v[t] == q;
            if t < j {
                assert(new_v[t] == q);
            } else {
                assert(new_v[t + 1] == q);
            }
        }
        if q == pv {
            assert(new_v[j as int] == q);
        }
    }
}

/// Relative paths to visit below a root, given the paths that a filtered
/// walk yielded in any order: every matched path and every ancestor of one,
/// each once, sorted component by component.
pub fn get_sorted_rel_paths(matched: &Vec<Vec<Vec<u8>>>) -> (r: Vec<Vec<Vec<u8>>>)
    ensures
        is_rel_path_set(paths_view(matched@), paths_view(r@)),
{
    let ghost mv = paths_view(matched@);
    let mut r: Vec<Vec<Vec<u8>>> = Vec::new();
    let mut mi: usize = 0;
    while mi < matched.len()
        invariant
            0 <= mi <= matched.len(),
            mv == paths_view(matched@),
            is_sorted_strict(paths_view(r@)),
            forall|q: Seq<Seq<u8>>| #[trigger] paths_view(r@).contains(q) <==> in_closure_upto(mv, mi as int, q),
        decreases matched.len() - mi,
    {
        let m = &matched[mi];
        let mut prefix: Vec<Vec<u8>> = Vec::new();
        let mut k: usize = 0;
        while k < m.len()
            invariant
                0 <= mi < matched.len(),
                m == matched@[mi as int],
                mv == paths_view(matched@),
                0 <= k <= m.len(),
                prefix@.len() == k,
                forall|j: int| 0 <= j < k ==> (#[trigger] prefix@[j])@ == m@[j]@,
                path_view(prefix) =~= mv[mi as int].subrange(0, k as int),
                is_sorted_strict(paths_view(r@)),
                forall|q: Seq<Seq<u8>>| #[trigger] paths_view(r@).contains(q) <==> (in_closure_upto(mv, mi as int, q)
                    || exists|kk: int| 1 <= kk <= k && q == #[trigger] mv[mi as int].subrange(0, kk)),
            decreases m.len() - k,
        {
            prefix.push(copy_component(&m[k]));
            assert(mv[mi as int] == path_view(*m));
            assert(path_view(prefix) =~= mv[mi as int].subrange(0, k + 1));
            let ghost before = paths_view(r@);
            insert_sorted(&mut r, copy_path(&prefix));
            k = k + 1;
            assert forall|q: Seq<Seq<u8>>| #[trigger] paths_view(r@).contains(q) <==> (in_closure_upto(mv, mi as int, q)
                || exists|kk: int| 1 <= kk <= k && q == #[trigger] mv[mi as int].subrange(0, kk)) by {
                if q == mv[mi as int].subrange(0, k as int) {
                    assert(paths_view(r@).contains(q));
                }
                if exists|kk: int| 1 <= kk <= k && q == #[trigger] mv[mi as int].subrange(0, kk) {
                    let kk = choose|kk: int| 1 <= kk <= k && q == #[trigger] mv[mi as int].subrange(0, kk);
                    if kk < k {
                        assert(before.contains(q));
                    }
                }
            }
        }
        assert forall|q: Seq<Seq<u8>>| #[trigger] paths_view(r@).contains(q) <==> in_closure_upto(mv, mi + 1, q) by {
            if paths_view(r@).contains(q) && !in_closure_upto(mv, mi as int, q) {
                let kk = choose|kk: int| 1 <= kk <= k && q == #[trigger] mv[mi as int].subrange(0, kk);
                assert(mv[mi as int].len() == m@.len());
                assert(in_closure_upto(mv, mi + 1, q));
            }
            if in_closure_upto(mv, mi + 1, q) {
                let (m2, k2) = choose|m2: int, k2: int|
                    0 <= m2 < mi + 1 && 1 <= k2 <= mv[m2].len() && q == #[trigger] mv[m2].subrange(0, k2);
                if m2 < mi {
                    assert(in_closure_upto(mv, mi as int, q));
                } else {
                    assert(mv[mi as int].len() == m@.len());
                    assert(exists|kk: int| 1 <= kk <= k && q == #[trigger] mv[mi as int].subrange(0, kk));
                }
            }
        }
        mi = mi + 1;
    }
    r
}

proof fn lemma_sorted_same_contents_equal(r1: Seq<Seq<Seq<u8>>>, r2: Seq<Seq<Seq<u8>>>)
    requires
        is_sorted_strict(r1),
        is_sorted_strict(r2),
        forall|p: Seq<Seq<u8>>| r1.contains(p) <==> r2.contains(p),
    ensures
        r1 == r2,
    decreases r1.len(),
{
    lemma_path_order_strict_total();
    if r1.len() == 0 {
        if r2.len() > 0 {
            assert(r2.contains(r2[0]));
        }
        assert(r1 =~= r2);
    } else {
        assert(r1.contains(r1[0]));
        let t = choose|t: int| 0 <= t < r2.len() && r2[t] == r1[0];
        assert(r2.contains(r2[0]));
        let s = choose|s: int| 0 <= s < r1.len() && r1[s] == r2[0];
        if t > 0 {
            assert(path_order()(r2[0], r2[t]));
            if s > 0 {
                assert(path_order()(r1[0], r1[s]));
            }
            assert(false);
        }
        let d1 = r1.drop_first();
        let d2 = r2.drop_first();
        assert forall|i: int, j: int| 0 <= i < j < d1.len() implies path_order()(#[trigger] d1[i], #[trigger] d1[j]) by {
            assert(d1[i] == r1[i + 1] && d1[j] == r1[j + 1]);
        }
        assert forall|i: int, j: int| 0 <= i < j < d2.len() implies path_order()(#[trigger] d2[i], #[trigger] d2[j]) by {
            assert(d2[i] == r2[i + 1] && d2[j] == r2[j + 1]);
        }
        assert forall|p: Seq<Seq<u8>>| d1.contains(p) implies d2.contains(p) by {
            let a = choose|a: int| 0 <= a < d1.len() && d1[a] == p;
            assert(path_order()(r1[0], r1[a + 1]));
            assert(r2.contains(p));
            let b = choose|b: int| 0 <= b < r2.len() && r2[b] == p;
            if b == 0 {
                assert(false);
            }
            assert(d2[b - 1] == p);
        }
        assert forall|p: Seq<Seq<u8>>| d2.contains(p) implies d1.contains(p) by {
            let a = choose|a: int| 0 <= a < d2.len() && d2[a] == p;
            assert(path_order()(r2[0], r2[a + 1]));
            assert(r1.contains(p));
            let b = choose|b: int| 0 <= b < r1.len() && r1[b] == p;
            if b == 0 {
                assert(false);
            }
            assert(d1[b - 1] == p);
        }
        lemma_sorted_same_contents_equal(d1, d2);
        assert(r1 =~= seq![r1[0]] + d1);
        assert(r2 =~= seq![r2[0]] + d2);
    }
}

/// The enumeration does not depend on the order in which the walk yielded
/// its paths, nor on repetitions: walks that yield the same set of paths
/// give the same list.
pub proof fn lemma_rel_paths_order_independent(
    a: Seq<Seq<Seq<u8>>>,
    b: Seq<Seq<Seq<u8>>>,
    ra: Seq<Seq<Seq<u8>>>,
    rb: Seq<Seq<Seq<u8>>>,
)
    requires
        a.to_set() == b.to_set(),
        is_rel_path_set(a, ra),
        is_rel_path_set(b, rb),
    ensures
        ra == rb,
{
    assert forall|p: Seq<Seq<u8>>| in_closure(a, p) implies in_closure(b, p) by {
        let (m, k) = choose|m: int, k: int|
            0 <= m < a.len() && 1 <= k <= a[m].len() && p == #[trigger] a[m].subrange(0, k);
        assert(a.to_set().contains(a[m]));
        assert(b.to_set().contains(a[m]));
        let m2 = choose|m2: int| 0 <= m2 < b.len() && b[m2] == a[m];
        assert(p == b[m2].subrange(0, k));
    }
    assert forall|p: Seq<Seq<u8>>| in_closure(b, p) implies in_closure(a, p) by {
        let (m, k) = choose|m: int, k: int|
            0 <= m < b.len() && 1 <= k <= b[m].len() && p == #[trigger] b[m].subrange(0, k);
        assert(b.to_set().contains(b[m]));
        assert(a.to_set().contains(b[m]));
        let m2 = choose|m2: int| 0 <= m2 < a.len() && a[m2] == b[m];
        assert(p == a[m2].subrange(0, k));
    }
    assert forall|p: Seq<Seq<u8>>| ra.contains(p) <==> rb.contains(p) by {
        assert(ra.contains(p) == in_closure(a, p));
        assert(rb.contains(p) == in_closure(b, p));
    }
    lemma_sorted_same_contents_equal(ra, rb);
}

/// Every matched path and each of its ancestors below the root is listed,
/// and every listed path has all of its ancestors listed too.
pub proof fn lemma_rel_paths_ancestor_closed(matched: Seq<Seq<Seq<u8>>>, r: Seq<Seq<Seq<u8>>>, p: Seq<Seq<u8>>, k: int)
    requires
        is_rel_path_set(matched, r),
        1 <= k <= p.len(),
    ensures
        matched.contains(p) ==> r.contains(p.subrange(0, k)),
        r.contains(p) ==> r.contains(p.subrange(0, k)),
{
    if matched.contains(p) {
        let m = choose|m: int| 0 <= m < matched.len() && matched[m] == p;
        assert(in_closure(matched, matched[m].subrange(0, k)));
    }
    if r.contains(p) {
        assert(in_closure(matched, p));
        let (m, j) = choose|m: int, j: int|
            0 <= m < matched.len() && 1 <= j <= matched[m].len() && p == #[trigger] matched[m].subrange(0, j);
        assert(p.subrange(0, k) =~= matched[m].subrange(0, k));
        assert(in_closure(matched, matched[m].subrange(0, k)));
    }
}

} // verus!
