//! Subtree aggregation over a tree stored as a parent-index array in which
//! every node's parent precedes it.

use vstd::prelude::*;

verus! {

/// Node 0 is the root (its own parent); every other node's parent comes earlier.
pub open spec fn parents_ok(p: Seq<usize>) -> bool {
    &&& p.len() > 0 ==> p[0] == 0
    &&& forall|i: int| 0 < i < p.len() ==> (#[trigger] p[i] as int) < i
}

/// `a` is `i` or an ancestor of `i`.
pub open spec fn anc(p: Seq<usize>, a: int, i: int) -> bool
    decreases i,
{
    if i < 0 || i >= p.len() {
        false
    } else if i == a {
        true
    } else if i == 0 {
        false
    } else if p[i] as int >= i {
        false
    } else {
        anc(p, a, p[i] as int)
    }
}

pub proof fn lemma_anc_le(p: Seq<usize>, a: int, i: int)
    requires
        anc(p, a, i),
    ensures
        a <= i,
        0 <= a,
        i < p.len(),
    decreases i,
{
    if i != a {
        lemma_anc_le(p, a, p[i] as int);
    }
}

pub proof fn lemma_anc_root(p: Seq<usize>, i: int)
    requires
        parents_ok(p),
        0 <= i < p.len(),
    ensures
        anc(p, 0, i),
    decreases i,
{
    if i > 0 {
        lemma_anc_root(p, p[i] as int);
    }
}

pub proof fn lemma_anc_trans(p: Seq<usize>, a: int, b: int, c: int)
    requires
        anc(p, a, b),
        anc(p, b, c),
    ensures
        anc(p, a, c),
    decreases c,
{
    if c != b {
        lemma_anc_trans(p, a, b, p[c] as int);
    }
}

/// Two ancestors of one node are comparable.
pub proof fn lemma_anc_chain(p: Seq<usize>, a: int, b: int, j: int)
    requires
        anc(p, a, j),
        anc(p, b, j),
        a <= b,
    ensures
        anc(p, a, b),
    decreases j,
{
    if j == b {
    } else {
        lemma_anc_le(p, a, j);
        if j == a {
            lemma_anc_le(p, b, j);
        } else {
            lemma_anc_chain(p, a, b, p[j] as int);
        }
    }
}

/// A proper ancestor of `b` is an ancestor of `b`'s parent.
pub proof fn lemma_anc_step(p: Seq<usize>, a: int, b: int)
    requires
        anc(p, a, b),
        a != b,
    ensures
        b > 0,
        p[b] as int <= b,
        anc(p, a, p[b] as int),
{
}

/// `anc(p, d, i)` for the node being walked: the ancestors of `j` above `cur`
/// are exactly the ancestors of `cur`.
pub proof fn lemma_walk(p: Seq<usize>, cur: int, j: int, d: int)
    requires
        parents_ok(p),
        anc(p, cur, j),
        0 <= d,
    ensures
        (anc(p, d, j) && d <= cur) <==> anc(p, d, cur),
{
    if anc(p, d, j) && d <= cur {
        lemma_anc_chain(p, d, cur, j);
    }
    if anc(p, d, cur) {
        lemma_anc_trans(p, d, cur, j);
        lemma_anc_le(p, d, cur);
    }
}

/// Sum of `vals` over the nodes of the subtree of `d` among the first `m` nodes.
pub open spec fn subtree_sum(p: Seq<usize>, vals: Seq<u64>, d: int, m: int) -> int
    decreases m,
{
    if m <= 0 {
        0
    } else {
        subtree_sum(p, vals, d, m - 1) + if anc(p, d, m - 1) {
            vals[m - 1] as int
        } else {
            0
        }
    }
}

/// Sum of the first `m` values.
pub open spec fn prefix_sum(vals: Seq<u64>, m: int) -> int
    decreases m,
{
    if m <= 0 {
        0
    } else {
        prefix_sum(vals, m - 1) + vals[m - 1] as int
    }
}

/// The root's subtree holds every node.
pub proof fn lemma_subtree_sum_root(p: Seq<usize>, vals: Seq<u64>, m: int)
    requires
        parents_ok(p),
        0 <= m <= p.len(),
    ensures
        subtree_sum(p, vals, 0, m) == prefix_sum(vals, m),
    decreases m,
{
    if m > 0 {
        lemma_subtree_sum_root(p, vals, m - 1);
        lemma_anc_root(p, m - 1);
    }
}

pub proof fn lemma_subtree_sum_bound(p: Seq<usize>, vals: Seq<u64>, d: int, m: int)
    requires
        m >= 0,
    ensures
        0 <= subtree_sum(p, vals, d, m) <= m * 0xFFFF_FFFF_FFFF_FFFF,
    decreases m,
{
    if m > 0 {
        lemma_subtree_sum_bound(p, vals, d, m - 1);
        assert((m - 1) * 0xFFFF_FFFF_FFFF_FFFF + 0xFFFF_FFFF_FFFF_FFFF == m * 0xFFFF_FFFF_FFFF_FFFF)
            by (nonlinear_arith);
    }
}

proof fn lemma_bound_small(m: int)
    requires
        0 <= m <= 0x1_0000_0000,
    ensures
        m * 0xFFFF_FFFF_FFFF_FFFF < 0x1_0000_0000_0000_0000_0000_0000,
{
    assert(m * 0xFFFF_FFFF_FFFF_FFFF <= 0x1_0000_0000 * 0xFFFF_FFFF_FFFF_FFFF) by (nonlinear_arith)
        requires
            0 <= m <= 0x1_0000_0000,
    ;
}

/// For every node, the exact sum of `vals` over its subtree (itself and all
/// descendants).
pub fn subtree_sums(parents: &Vec<usize>, vals: &Vec<u64>) -> (r: Vec<u128>)
    requires
        parents_ok(parents@),
        vals@.len() == parents@.len(),
        parents@.len() <= 0x1_0000_0000,
    ensures
        r@.len() == parents@.len(),
        forall|d: int|
            0 <= d < r@.len() ==> #[trigger] r@[d] as int == subtree_sum(
                parents@,
                vals@,
                d,
                parents@.len() as int,
            ),
{
    let n: usize = parents.len();
    let ghost p = parents@;
    let mut acc: Vec<u128> = Vec::new();
    let mut k: usize = 0;
    while k < n
        invariant
            k <= n,
            acc@.len() == k,
            forall|d: int| 0 <= d < k ==> #[trigger] acc@[d] == 0,
        decreases n - k,
    {
        acc.push(0);
        k += 1;
    }
    let mut j: usize = 0;
    while j < n
        invariant
            n == p.len(),
            p == parents@,
            vals@.len() == n,
            parents_ok(p),
            n <= 0x1_0000_0000,
            j <= n,
            acc@.len() == n,
            forall|d: int| 0 <= d < n ==> #[trigger] acc@[d] as int == subtree_sum(p, vals@, d, j as int),
        decreases n - j,
    {
        let v: u64 = vals[j];
        let mut cur: usize = j;
        proof {
            assert(anc(p, j as int, j as int));
            assert forall|d: int| anc(p, d, j as int) implies d <= j by {
                lemma_anc_le(p, d, j as int);
            }
        }
        loop
            invariant_except_break
                forall|d: int|
                    0 <= d < n ==> #[trigger] acc@[d] as int == subtree_sum(p, vals@, d, j as int) + if anc(
                        p,
                        d,
                        j as int,
                    ) && d > cur {
                        v as int
                    } else {
                        0
                    },
            invariant
                n == p.len(),
                p == parents@,
                vals@.len() == n,
                parents_ok(p),
                n <= 0x1_0000_0000,
                j < n,
                v == vals@[j as int],
                cur <= j,
                anc(p, cur as int, j as int),
                acc@.len() == n,
            ensures
                acc@.len() == n,
                forall|d: int|
                    0 <= d < n ==> #[trigger] acc@[d] as int == subtree_sum(p, vals@, d, j + 1),
            decreases cur,
        {
            proof {
                lemma_subtree_sum_bound(p, vals@, cur as int, j as int);
                lemma_bound_small(j as int);
            }
            let old_v: u128 = acc[cur];
            acc.set(cur, old_v + v as u128);
            proof {
                assert forall|d: int| 0 <= d < n implies #[trigger] acc@[d] as int == subtree_sum(
                    p,
                    vals@,
                    d,
                    j as int,
                ) + if anc(p, d, j as int) && d >= cur {
                    v as int
                } else {
                    0
                } by {
                    if d != cur {
                        if anc(p, d, j as int) && d > cur {
                        }
                    }
                }
            }
            if cur == 0 {
                proof {
                    assert forall|d: int| 0 <= d < n implies #[trigger] acc@[d] as int
                        == subtree_sum(p, vals@, d, j + 1) by {
                        assert(subtree_sum(p, vals@, d, j + 1) == subtree_sum(p, vals@, d, j as int)
                            + if anc(p, d, j as int) {
                            vals@[j as int] as int
                        } else {
                            0
                        });
                    }
                }
                break;
            }
            let next: usize = parents[cur];
            proof {
                assert(anc(p, next as int, j as int)) by {
                    assert(anc(p, next as int, next as int));
                    assert(anc(p, next as int, cur as int));
                    lemma_anc_trans(p, next as int, cur as int, j as int);
                }
                assert forall|d: int| 0 <= d < n implies (anc(p, d, j as int) && d >= cur) == (anc(
                    p,
                    d,
                    j as int,
                ) && d > next) by {
                    lemma_walk(p, next as int, j as int, d);
                    if anc(p, d, j as int) && d > next && d < cur {
                        lemma_walk(p, cur as int, j as int, d);
                        lemma_anc_step(p, d, cur as int);
                        lemma_anc_le(p, d, next as int);
                    }
                }
            }
            cur = next;
        }
        j += 1;
    }
    acc
}

} // verus!
