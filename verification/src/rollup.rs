//! Per-directory roll-ups of a settled tree: logical and referenced sizes,
//! allocation knowledge, and unique allocation in which every object that
//! occurs in a scope is counted once.

use crate::aggregate::{alloc_conflict, alloc_fold, grouped, is_rep, member, member_seq, Groups};
use crate::graph::{CompactEntry, EntryKind};
use crate::model::{ObjectIdentity, ValueKnowledge};
use crate::tree::{anc, lemma_anc_le, lemma_anc_trans, lemma_walk, parents_ok, subtree_sum};
use vstd::prelude::*;

verus! {

/// Logical size carried by each entry itself (files carry theirs).
pub open spec fn logical_vals(es: Seq<CompactEntry>) -> Seq<u64> {
    Seq::new(
        es.len(),
        |i: int|
            match es[i].logical_size {
                Some(x) => x,
                None => 0,
            },
    )
}

/// Allocation referenced by each entry itself.
pub open spec fn referenced_vals(es: Seq<CompactEntry>) -> Seq<u64> {
    Seq::new(es.len(), |i: int| es[i].referenced_allocated_bytes)
}

/// Allocation counted once per entry: everything but files in alias groups,
/// which are counted once per group instead.
pub open spec fn base_vals(es: Seq<CompactEntry>, ids: Seq<Option<ObjectIdentity>>) -> Seq<u64> {
    Seq::new(
        es.len(),
        |i: int|
            if grouped(es, ids, i) {
                0
            } else {
                es[i].referenced_allocated_bytes
            },
    )
}

/// An entry whose allocation is not known: a special object, a file without
/// an allocation size, or a file whose aliases disagree on it.
pub open spec fn is_unknown(es: Seq<CompactEntry>, ids: Seq<Option<ObjectIdentity>>, i: int) -> bool {
    ||| es[i].kind == EntryKind::Special
    ||| es[i].kind == EntryKind::File && (es[i].allocated_size is None || (grouped(es, ids, i)
        && alloc_conflict(es, ids, ids[i]->0)))
}

pub open spec fn unknown_vals(es: Seq<CompactEntry>, ids: Seq<Option<ObjectIdentity>>) -> Seq<u64> {
    Seq::new(
        es.len(),
        |i: int|
            if is_unknown(es, ids, i) {
                1
            } else {
                0
            },
    )
}

/// The weight of the object behind the files that carry `x`: their
/// smallest allocation size.
pub open spec fn group_weight(es: Seq<CompactEntry>, ids: Seq<Option<ObjectIdentity>>, x: ObjectIdentity) -> u64 {
    match alloc_fold(es, ids, x, es.len() as int).0 {
        Some(w) => w,
        None => 0,
    }
}

/// Some file that carries `x` lies in the subtree of `d`.
pub open spec fn covers(
    es: Seq<CompactEntry>,
    ids: Seq<Option<ObjectIdentity>>,
    p: Seq<usize>,
    d: int,
    x: ObjectIdentity,
) -> bool {
    exists|k: int| 0 <= k < es.len() && member(es, ids, x, k) && #[trigger] anc(p, d, k)
}

/// The weights of the alias groups, first seen among the first `m` entries,
/// that occur in the subtree of `d`.
pub open spec fn presence(
    es: Seq<CompactEntry>,
    ids: Seq<Option<ObjectIdentity>>,
    p: Seq<usize>,
    d: int,
    m: int,
) -> int
    decreases m,
{
    if m <= 0 {
        0
    } else {
        presence(es, ids, p, d, m - 1) + if is_rep(es, ids, m - 1) && covers(
            es,
            ids,
            p,
            d,
            ids[m - 1]->0,
        ) {
            group_weight(es, ids, ids[m - 1]->0) as int
        } else {
            0
        }
    }
}

proof fn lemma_presence_bound(
    es: Seq<CompactEntry>,
    ids: Seq<Option<ObjectIdentity>>,
    p: Seq<usize>,
    d: int,
    m: int,
)
    requires
        m >= 0,
    ensures
        0 <= presence(es, ids, p, d, m) <= m * 0xFFFF_FFFF_FFFF_FFFF,
    decreases m,
{
    if m > 0 {
        lemma_presence_bound(es, ids, p, d, m - 1);
        assert((m - 1) * 0xFFFF_FFFF_FFFF_FFFF + 0xFFFF_FFFF_FFFF_FFFF == m * 0xFFFF_FFFF_FFFF_FFFF)
            by (nonlinear_arith);
    }
}

proof fn lemma_small_product(m: int)
    requires
        0 <= m <= 0x1_0000_0000,
    ensures
        m * 0xFFFF_FFFF_FFFF_FFFF <= 0x1_0000_0000 * 0xFFFF_FFFF_FFFF_FFFF,
{
    assert(m * 0xFFFF_FFFF_FFFF_FFFF <= 0x1_0000_0000 * 0xFFFF_FFFF_FFFF_FFFF) by (nonlinear_arith)
        requires
            0 <= m <= 0x1_0000_0000,
    ;
}

/// The member list of `x` holds exactly its files, in range.
proof fn lemma_member_seq(
    es: Seq<CompactEntry>,
    ids: Seq<Option<ObjectIdentity>>,
    x: ObjectIdentity,
    m: int,
)
    requires
        0 <= m <= 0xFFFF_FFFF,
    ensures
        forall|s: int|
            0 <= s < member_seq(es, ids, x, m).len() ==> (#[trigger] member_seq(es, ids, x, m)[s]) < m
                && member(es, ids, x, member_seq(es, ids, x, m)[s] as int),
        forall|k: int|
            0 <= k < m && member(es, ids, x, k) ==> exists|s: int|
                0 <= s < member_seq(es, ids, x, m).len() && #[trigger] member_seq(es, ids, x, m)[s] == k,
    decreases m,
{
    if m > 0 {
        lemma_member_seq(es, ids, x, m - 1);
        let prev = member_seq(es, ids, x, m - 1);
        let cur = member_seq(es, ids, x, m);
        assert forall|k: int| 0 <= k < m && member(es, ids, x, k) implies exists|s: int|
            0 <= s < cur.len() && #[trigger] cur[s] == k by {
            if k < m - 1 {
                let s = choose|s: int| 0 <= s < prev.len() && #[trigger] prev[s] == k;
                assert(cur[s] == prev[s]);
            } else {
                assert(cur == prev.push(k as usize));
                assert(cur[cur.len() - 1] == k);
            }
        }
    }
}

fn zeros128(n: usize) -> (r: Vec<u128>)
    ensures
        r@.len() == n,
        forall|i: int| 0 <= i < n ==> #[trigger] r@[i] == 0,
{
    let mut r: Vec<u128> = Vec::new();
    let mut k: usize = 0;
    while k < n
        invariant
            k <= n,
            r@.len() == k,
            forall|i: int| 0 <= i < k ==> #[trigger] r@[i] == 0,
        decreases n - k,
    {
        r.push(0);
        k += 1;
    }
    r
}

/// For every entry `d`, the summed weights of the alias groups that occur in
/// its subtree, each group counted once however many of its files occur there.
pub fn presence_sums(
    es: &Vec<CompactEntry>,
    ids: &Vec<Option<ObjectIdentity>>,
    links: &Vec<ValueKnowledge>,
    parents: &Vec<usize>,
    g: &Groups,
) -> (r: Vec<u128>)
    requires
        es@.len() == ids@.len(),
        es@.len() == links@.len(),
        es@.len() == parents@.len(),
        es@.len() < 0xFFFF_FFFF,
        parents_ok(parents@),
        g.wf(es@, ids@, links@, es@.len() as int),
    ensures
        r@.len() == es@.len(),
        forall|d: int| 0 <= d < r@.len() ==> #[trigger] r@[d] as int == presence(es@, ids@, parents@, d, es@.len() as int),
{
    let n: usize = es.len();
    let ghost e = es@;
    let ghost ds = ids@;
    let ghost p = parents@;
    let mut acc: Vec<u128> = zeros128(n);
    let mut stamp: Vec<usize> = Vec::new();
    let mut k: usize = 0;
    while k < n
        invariant
            k <= n,
            stamp@.len() == k,
            forall|i: int| 0 <= i < k ==> #[trigger] stamp@[i] == 0,
        decreases n - k,
    {
        stamp.push(0);
        k += 1;
    }
    let mut r: usize = 0;
    while r < n
        invariant
            n == e.len(),
            e == es@,
            ds == ids@,
            p == parents@,
            e.len() == ds.len(),
            e.len() == links@.len(),
            e.len() == p.len(),
            n < 0xFFFF_FFFF,
            parents_ok(p),
            g.wf(e, ds, links@, n as int),
            r <= n,
            acc@.len() == n,
            stamp@.len() == n,
            forall|d: int| 0 <= d < n ==> #[trigger] stamp@[d] <= r,
            forall|d: int| 0 <= d < n ==> #[trigger] acc@[d] as int == presence(e, ds, p, d, r as int),
        decreases n - r,
    {
        let mut rep_group: Option<usize> = None;
        match g.group_of[r] {
            Some(q) => {
                if g.reps[q] == r {
                    rep_group = Some(q);
                }
            },
            None => {},
        }
        proof {
            match g.group_of@[r as int] {
                Some(q) => {
                    let r2 = g.reps@[q as int] as int;
                    assert(is_rep(e, ds, r2));
                    assert(ds[r2] == ds[r as int]);
                    if is_rep(e, ds, r as int) && r2 != r {
                        if r2 < r {
                            assert(member(e, ds, ds[r as int]->0, r2));
                        } else {
                            assert(member(e, ds, ds[r2]->0, r as int));
                        }
                    }
                },
                None => {},
            }
            assert(rep_group is Some <==> is_rep(e, ds, r as int));
        }
        match rep_group {
            None => {
                proof {
                    assert forall|d: int| 0 <= d < n implies #[trigger] acc@[d] as int == presence(e, ds, p, d, r + 1) by {
                    }
                }
            },
            Some(q) => {
                let w: u64 = match g.alloc_states[q].0 {
                    Some(w) => w,
                    None => 0,
                };
                let ghost x = ds[r as int]->0;
                proof {
                    assert(ds[g.reps@[q as int] as int] == ds[r as int]);
                    assert(w == group_weight(e, ds, x));
                }
                if w > 0 {
                    let ghost mseq = g.members@[q as int]@;
                    proof {
                        lemma_member_seq(e, ds, x, n as int);
                    }
                    let tag: usize = r + 1;
                    let mut t: usize = 0;
                    while t < g.members[q].len()
                        invariant
                            n == e.len(),
                            e == es@,
                            ds == ids@,
                            p == parents@,
                            e.len() == p.len(),
                            n < 0xFFFF_FFFF,
                            parents_ok(p),
                            g.wf(e, ds, links@, n as int),
                            q < g.members@.len(),
                            mseq == g.members@[q as int]@,
                            mseq == member_seq(e, ds, x, n as int),
                            forall|s: int| 0 <= s < mseq.len() ==> (#[trigger] mseq[s]) < n,
                            r < n,
                            tag == r + 1,
                            t <= mseq.len(),
                            acc@.len() == n,
                            stamp@.len() == n,
                            forall|d: int| 0 <= d < n ==> #[trigger] stamp@[d] <= tag,
                            forall|d: int|
                                0 <= d < n ==> (#[trigger] stamp@[d] == tag <==> exists|s: int|
                                    0 <= s < t && #[trigger] anc(p, d, mseq[s] as int)),
                            forall|d: int|
                                0 <= d < n ==> #[trigger] acc@[d] as int == presence(e, ds, p, d, r as int) + if stamp@[d] == tag {
                                    w as int
                                } else {
                                    0
                                },
                        decreases mseq.len() - t,
                    {
                        let kk: usize = g.members[q][t];
                        let mut cur: usize = kk;
                        proof {
                            assert(kk == mseq[t as int]);
                            assert(anc(p, kk as int, kk as int));
                            assert forall|d: int| anc(p, d, kk as int) implies d <= kk by {
                                lemma_anc_le(p, d, kk as int);
                            }
                        }
                        loop
                            invariant_except_break
                                forall|d: int|
                                    0 <= d < n ==> (#[trigger] stamp@[d] == tag <==> (exists|s: int|
                                        0 <= s < t && #[trigger] anc(p, d, mseq[s] as int)) || (anc(p, d, kk as int) && d > cur)),
                            invariant
                                n == e.len(),
                                p == parents@,
                                e.len() == p.len(),
                                n < 0xFFFF_FFFF,
                                parents_ok(p),
                                t < mseq.len(),
                                kk == mseq[t as int],
                                kk < n,
                                cur <= kk,
                                anc(p, cur as int, kk as int),
                                r < n,
                                tag == r + 1,
                                acc@.len() == n,
                                stamp@.len() == n,
                                forall|d: int| 0 <= d < n ==> #[trigger] stamp@[d] <= tag,
                                forall|d: int|
                                    0 <= d < n ==> #[trigger] acc@[d] as int == presence(e, ds, p, d, r as int) + if stamp@[d] == tag {
                                        w as int
                                    } else {
                                        0
                                    },
                            ensures
                                forall|d: int|
                                    0 <= d < n ==> (#[trigger] stamp@[d] == tag <==> exists|s: int|
                                        0 <= s < t + 1 && #[trigger] anc(p, d, mseq[s] as int)),
                            decreases cur,
                        {
                            if stamp[cur] == tag {
                                proof {
                                    assert(exists|s: int| 0 <= s < t && #[trigger] anc(p, cur as int, mseq[s] as int));
                                    let s0 = choose|s: int| 0 <= s < t && #[trigger] anc(p, cur as int, mseq[s] as int);
                                    assert forall|d: int| 0 <= d < n implies (#[trigger] stamp@[d] == tag <==> exists|s: int|
                                        0 <= s < t + 1 && #[trigger] anc(p, d, mseq[s] as int)) by {
                                        if anc(p, d, kk as int) && d <= cur {
                                            lemma_walk(p, cur as int, kk as int, d);
                                            lemma_anc_trans(p, d, cur as int, mseq[s0] as int);
                                        }
                                        if exists|s: int| 0 <= s < t + 1 && #[trigger] anc(p, d, mseq[s] as int) {
                                            let s1 = choose|s: int| 0 <= s < t + 1 && #[trigger] anc(p, d, mseq[s] as int);
                                            if s1 == t {
                                                assert(anc(p, d, kk as int));
                                            }
                                        }
                                        if anc(p, d, kk as int) {
                                            assert(anc(p, d, mseq[t as int] as int));
                                        }
                                    }
                                }
                                break;
                            }
                            proof {
                                lemma_presence_bound(e, ds, p, cur as int, r as int);
                                lemma_small_product(r as int);
                            }
                            let old_acc: u128 = acc[cur];
                            acc.set(cur, old_acc + w as u128);
                            stamp.set(cur, tag);
                            if cur == 0 {
                                proof {
                                    assert forall|d: int| 0 <= d < n implies (#[trigger] stamp@[d] == tag <==> exists|s: int|
                                        0 <= s < t + 1 && #[trigger] anc(p, d, mseq[s] as int)) by {
                                        if exists|s: int| 0 <= s < t + 1 && #[trigger] anc(p, d, mseq[s] as int) {
                                            let s1 = choose|s: int| 0 <= s < t + 1 && #[trigger] anc(p, d, mseq[s] as int);
                                            if s1 == t {
                                                assert(anc(p, d, kk as int));
                                                lemma_anc_le(p, d, kk as int);
                                            }
                                        }
                                        if anc(p, d, kk as int) {
                                            assert(anc(p, d, mseq[t as int] as int));
                                            lemma_anc_le(p, d, kk as int);
                                        }
                                    }
                                }
                                break;
                            }
                            let next: usize = parents[cur];
                            proof {
                                assert(anc(p, next as int, kk as int)) by {
                                    assert(anc(p, next as int, next as int));
                                    assert(anc(p, next as int, cur as int));
                                    lemma_anc_trans(p, next as int, cur as int, kk as int);
                                }
                                assert forall|d: int| 0 <= d < n implies (anc(p, d, kk as int) && d >= cur) == (anc(
                                    p,
                                    d,
                                    kk as int,
                                ) && d > next) by {
                                    lemma_walk(p, next as int, kk as int, d);
                                    if anc(p, d, kk as int) && d > next && d < cur {
                                        lemma_walk(p, cur as int, kk as int, d);
                                        lemma_anc_le(p, d, next as int);
                                    }
                                }
                            }
                            cur = next;
                        }
                        t += 1;
                    }
                    proof {
                        assert forall|d: int| 0 <= d < n implies #[trigger] acc@[d] as int == presence(e, ds, p, d, r + 1) by {
                            if stamp@[d] == tag {
                                let s = choose|s: int| 0 <= s < mseq.len() && #[trigger] anc(p, d, mseq[s] as int);
                                assert(member(e, ds, x, mseq[s] as int));
                                assert(covers(e, ds, p, d, x));
                            } else {
                                if covers(e, ds, p, d, x) {
                                    let k2 = choose|k2: int| 0 <= k2 < n && member(e, ds, x, k2) && #[trigger] anc(p, d, k2);
                                    let s = choose|s: int| 0 <= s < mseq.len() && #[trigger] mseq[s] == k2;
                                    assert(anc(p, d, mseq[s] as int));
                                }
                            }
                        }
                    }
                } else {
                    proof {
                        assert forall|d: int| 0 <= d < n implies #[trigger] acc@[d] as int == presence(e, ds, p, d, r + 1) by {
                        }
                    }
                }
            },
        }
        r += 1;
    }
    acc
}

} // verus!

verus! {

/// Saturation at `u64::MAX`.
pub open spec fn sat64(x: int) -> u64 {
    if x > 0xFFFF_FFFF_FFFF_FFFF {
        0xFFFF_FFFF_FFFF_FFFF
    } else {
        x as u64
    }
}

/// An entry as it stands once the tree is settled (its child range aside):
/// directories carry their subtree roll-ups, files their object's weight and
/// alias-checked allocation knowledge, and every entry its object index.
pub open spec fn settled_entry(
    es: Seq<CompactEntry>,
    ids: Seq<Option<ObjectIdentity>>,
    p: Seq<usize>,
    oi: Seq<u32>,
    i: int,
) -> CompactEntry {
    let e = es[i];
    let n = es.len() as int;
    match e.kind {
        EntryKind::Directory => {
            let referenced = sat64(subtree_sum(p, referenced_vals(es), i, n));
            CompactEntry {
                logical_size: Some(sat64(subtree_sum(p, logical_vals(es), i, n))),
                referenced_allocated_bytes: referenced,
                known_subtotal_allocated_bytes: referenced,
                allocated_size: Some(referenced),
                allocated_size_known: subtree_sum(p, unknown_vals(es, ids), i, n) == 0,
                unique_allocated_bytes: (subtree_sum(p, base_vals(es, ids), i, n) + presence(
                    es,
                    ids,
                    p,
                    i,
                    n,
                )) as u64,
                object_index: oi[i],
                ..e
            }
        },
        EntryKind::File => CompactEntry {
            allocated_size_known: !is_unknown(es, ids, i),
            unique_allocated_bytes: if grouped(es, ids, i) {
                group_weight(es, ids, ids[i]->0)
            } else {
                e.referenced_allocated_bytes
            },
            object_index: oi[i],
            ..e
        },
        EntryKind::Special => CompactEntry { object_index: oi[i], ..e },
    }
}

fn logical_values(es: &Vec<CompactEntry>) -> (v: Vec<u64>)
    ensures
        v@ == logical_vals(es@),
{
    let mut v: Vec<u64> = Vec::new();
    let mut i: usize = 0;
    while i < es.len()
        invariant
            i <= es@.len(),
            v@ =~= logical_vals(es@).subrange(0, i as int),
        decreases es@.len() - i,
    {
        let x: u64 = match es[i].logical_size {
            Some(x) => x,
            None => 0,
        };
        v.push(x);
        i += 1;
    }
    v
}

fn referenced_values(es: &Vec<CompactEntry>) -> (v: Vec<u64>)
    ensures
        v@ == referenced_vals(es@),
{
    let mut v: Vec<u64> = Vec::new();
    let mut i: usize = 0;
    while i < es.len()
        invariant
            i <= es@.len(),
            v@ =~= referenced_vals(es@).subrange(0, i as int),
        decreases es@.len() - i,
    {
        v.push(es[i].referenced_allocated_bytes);
        i += 1;
    }
    v
}

fn base_values(
    es: &Vec<CompactEntry>,
    ids: &Vec<Option<ObjectIdentity>>,
    links: &Vec<ValueKnowledge>,
    g: &Groups,
) -> (v: Vec<u64>)
    requires
        es@.len() == ids@.len(),
        g.wf(es@, ids@, links@, es@.len() as int),
    ensures
        v@ == base_vals(es@, ids@),
{
    let mut v: Vec<u64> = Vec::new();
    let mut i: usize = 0;
    while i < es.len()
        invariant
            i <= es@.len(),
            es@.len() == ids@.len(),
            g.wf(es@, ids@, links@, es@.len() as int),
            v@ =~= base_vals(es@, ids@).subrange(0, i as int),
        decreases es@.len() - i,
    {
        let x: u64 = match g.group_of[i] {
            Some(_) => 0,
            None => es[i].referenced_allocated_bytes,
        };
        v.push(x);
        i += 1;
    }
    v
}

fn unknown_values(
    es: &Vec<CompactEntry>,
    ids: &Vec<Option<ObjectIdentity>>,
    links: &Vec<ValueKnowledge>,
    g: &Groups,
) -> (v: Vec<u64>)
    requires
        es@.len() == ids@.len(),
        g.wf(es@, ids@, links@, es@.len() as int),
    ensures
        v@ == unknown_vals(es@, ids@),
{
    let mut v: Vec<u64> = Vec::new();
    let mut i: usize = 0;
    while i < es.len()
        invariant
            i <= es@.len(),
            es@.len() == ids@.len(),
            g.wf(es@, ids@, links@, es@.len() as int),
            v@ =~= unknown_vals(es@, ids@).subrange(0, i as int),
        decreases es@.len() - i,
    {
        let unknown: bool = match es[i].kind {
            EntryKind::Special => true,
            EntryKind::Directory => false,
            EntryKind::File => {
                let conflict: bool = match g.group_of[i] {
                    Some(q) => {
                        proof {
                            assert(ids@[g.reps@[q as int] as int] == ids@[i as int]);
                        }
                        g.alloc_states[q].2
                    },
                    None => false,
                };
                es[i].allocated_size.is_none() || conflict
            },
        };
        v.push(if unknown { 1 } else { 0 });
        i += 1;
    }
    v
}

fn saturate(x: u128) -> (r: u64)
    ensures
        r == sat64(x as int),
{
    if x > 0xFFFF_FFFF_FFFF_FFFF {
        0xFFFF_FFFF_FFFF_FFFF
    } else {
        x as u64
    }
}

/// Settles every entry in place (child ranges aside; see `settled_entry`).
pub fn settle_entries(
    entries: &mut Vec<CompactEntry>,
    ids: &Vec<Option<ObjectIdentity>>,
    links: &Vec<ValueKnowledge>,
    parents: &Vec<usize>,
    g: &Groups,
    oi: &Vec<u32>,
)
    requires
        old(entries)@.len() == ids@.len(),
        old(entries)@.len() == links@.len(),
        old(entries)@.len() == parents@.len(),
        old(entries)@.len() == oi@.len(),
        old(entries)@.len() < 0xFFFF_FFFF,
        parents_ok(parents@),
        g.wf(old(entries)@, ids@, links@, old(entries)@.len() as int),
    ensures
        final(entries)@.len() == old(entries)@.len(),
        forall|i: int|
            0 <= i < old(entries)@.len() ==> #[trigger] final(entries)@[i] == settled_entry(
                old(entries)@,
                ids@,
                parents@,
                oi@,
                i,
            ),
{
    let ghost es = entries@;
    let n: usize = entries.len();
    let logical = logical_values(entries);
    let referenced = referenced_values(entries);
    let base = base_values(entries, ids, links, g);
    let unknown = unknown_values(entries, ids, links, g);
    let logical_sum = crate::tree::subtree_sums(parents, &logical);
    let referenced_sum = crate::tree::subtree_sums(parents, &referenced);
    let base_sum = crate::tree::subtree_sums(parents, &base);
    let unknown_sum = crate::tree::subtree_sums(parents, &unknown);
    let shared = presence_sums(entries, ids, links, parents, g);
    let mut i: usize = 0;
    while i < n
        invariant
            n == es.len(),
            entries@.len() == n,
            es.len() == ids@.len(),
            es.len() == oi@.len(),
            es.len() == parents@.len(),
            n < 0xFFFF_FFFF,
            g.wf(es, ids@, links@, n as int),
            i <= n,
            logical_sum@.len() == n,
            referenced_sum@.len() == n,
            base_sum@.len() == n,
            unknown_sum@.len() == n,
            shared@.len() == n,
            forall|d: int| 0 <= d < n ==> #[trigger] logical_sum@[d] as int == subtree_sum(parents@, logical_vals(es), d, n as int),
            forall|d: int| 0 <= d < n ==> #[trigger] referenced_sum@[d] as int == subtree_sum(parents@, referenced_vals(es), d, n as int),
            forall|d: int| 0 <= d < n ==> #[trigger] base_sum@[d] as int == subtree_sum(parents@, base_vals(es, ids@), d, n as int),
            forall|d: int| 0 <= d < n ==> #[trigger] unknown_sum@[d] as int == subtree_sum(parents@, unknown_vals(es, ids@), d, n as int),
            forall|d: int| 0 <= d < n ==> #[trigger] shared@[d] as int == presence(es, ids@, parents@, d, n as int),
            forall|k: int| 0 <= k < i ==> #[trigger] entries@[k] == settled_entry(es, ids@, parents@, oi@, k),
            forall|k: int| i <= k < n ==> #[trigger] entries@[k] == es[k],
        decreases n - i,
    {
        let ghost before = entries@;
        let kind = entries[i].kind;
        let object_index: u32 = oi[i];
        match kind {
            EntryKind::Directory => {
                let referenced_total: u64 = saturate(referenced_sum[i]);
                let logical_total: u64 = saturate(logical_sum[i]);
                let known: bool = unknown_sum[i] == 0;
                proof {
                    crate::tree::lemma_subtree_sum_bound(parents@, base_vals(es, ids@), i as int, n as int);
                    lemma_presence_bound(es, ids@, parents@, i as int, n as int);
                    lemma_small_product(n as int);
                }
                let unique_total: u128 = base_sum[i] + shared[i];
                let unique: u64 = #[verifier::truncate] (unique_total as u64);
                entries[i].logical_size = Some(logical_total);
                entries[i].referenced_allocated_bytes = referenced_total;
                entries[i].known_subtotal_allocated_bytes = referenced_total;
                entries[i].allocated_size = Some(referenced_total);
                entries[i].allocated_size_known = known;
                entries[i].unique_allocated_bytes = unique;
                entries[i].object_index = object_index;
            },
            EntryKind::File => {
                let (unique, conflict): (u64, bool) = match g.group_of[i] {
                    Some(q) => {
                        proof {
                            assert(ids@[g.reps@[q as int] as int] == ids@[i as int]);
                        }
                        let w: u64 = match g.alloc_states[q].0 {
                            Some(w) => w,
                            None => 0,
                        };
                        (w, g.alloc_states[q].2)
                    },
                    None => (entries[i].referenced_allocated_bytes, false),
                };
                let known: bool = entries[i].allocated_size.is_some() && !conflict;
                entries[i].allocated_size_known = known;
                entries[i].unique_allocated_bytes = unique;
                entries[i].object_index = object_index;
            },
            EntryKind::Special => {
                entries[i].object_index = object_index;
            },
        }
        proof {
            assert forall|k: int| 0 <= k < i + 1 implies #[trigger] entries@[k] == settled_entry(es, ids@, parents@, oi@, k) by {
                if k < i {
                    assert(entries@[k] == before[k]);
                }
            }
            assert forall|k: int| i + 1 <= k < n implies #[trigger] entries@[k] == es[k] by {
                assert(entries@[k] == before[k]);
            }
        }
        i += 1;
    }
}

} // verus!
