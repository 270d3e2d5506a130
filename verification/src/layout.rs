//! The child lists of a settled tree: each directory's children in display
//! order, laid out one directory after another in entry order.

use crate::graph::{CompactEntry, EntryKind};
use crate::order::{
    distinct_key_ids, entry_key, key_lt, sort_by_key, sorted_by_key, to_lowercase, SortKey,
};
use crate::text::chars_of;
use crate::tree::parents_ok;
use vstd::prelude::*;

verus! {

/// The children of `d` among the entries `1..m`, in entry order.
pub open spec fn child_seq(p: Seq<usize>, d: int, m: int) -> Seq<usize>
    decreases m,
{
    if m <= 1 {
        Seq::empty()
    } else if p[m - 1] as int == d {
        child_seq(p, d, m - 1).push((m - 1) as usize)
    } else {
        child_seq(p, d, m - 1)
    }
}

/// The number of entries among `1..m` whose parent comes before `i`.
pub open spec fn parented_before(p: Seq<usize>, i: int, m: int) -> int
    decreases m,
{
    if m <= 1 {
        0
    } else {
        parented_before(p, i, m - 1) + if (p[m - 1] as int) < i {
            1int
        } else {
            0int
        }
    }
}

/// Where the children of entry `i` start: after the children of every earlier entry.
pub open spec fn range_start(p: Seq<usize>, i: int, m: int) -> int
    decreases i,
{
    if i <= 0 {
        0
    } else {
        range_start(p, i - 1, m) + child_seq(p, i - 1, m).len()
    }
}

proof fn lemma_parented_step(p: Seq<usize>, i: int, m: int)
    ensures
        parented_before(p, i + 1, m) == parented_before(p, i, m) + child_seq(p, i, m).len(),
    decreases m,
{
    if m > 1 {
        lemma_parented_step(p, i, m - 1);
    }
}

proof fn lemma_range_start(p: Seq<usize>, i: int, m: int)
    requires
        i >= 0,
    ensures
        range_start(p, i, m) == parented_before(p, i, m),
    decreases i,
{
    if i > 0 {
        lemma_range_start(p, i - 1, m);
        lemma_parented_step(p, i - 1, m);
    } else {
        lemma_parented_none(p, m);
    }
}

proof fn lemma_parented_none(p: Seq<usize>, m: int)
    ensures
        parented_before(p, 0, m) == 0,
    decreases m,
{
    if m > 1 {
        lemma_parented_none(p, m - 1);
    }
}

proof fn lemma_parented_bound(p: Seq<usize>, i: int, m: int)
    ensures
        0 <= parented_before(p, i, m),
        m >= 1 ==> parented_before(p, i, m) <= m - 1,
    decreases m,
{
    if m > 1 {
        lemma_parented_bound(p, i, m - 1);
    }
}

proof fn lemma_parented_mono(p: Seq<usize>, i: int, j: int, m: int)
    requires
        i <= j,
    ensures
        parented_before(p, i, m) <= parented_before(p, j, m),
    decreases m,
{
    if m > 1 {
        lemma_parented_mono(p, i, j, m - 1);
    }
}

/// The child list of `d` holds exactly its children, in range and in order.
pub proof fn lemma_child_seq(p: Seq<usize>, d: int, m: int)
    requires
        0 <= m <= p.len(),
        m <= 0xFFFF_FFFF,
    ensures
        forall|s: int|
            0 <= s < child_seq(p, d, m).len() ==> 1 <= (#[trigger] child_seq(p, d, m)[s]) < m
                && p[child_seq(p, d, m)[s] as int] == d,
        forall|k: int|
            1 <= k < m && p[k] as int == d ==> #[trigger] child_seq(p, d, m).contains(k as usize),
        child_seq(p, d, m).no_duplicates(),
        forall|s: int, t: int| 0 <= s < t < child_seq(p, d, m).len() ==> child_seq(p, d, m)[s] < child_seq(p, d, m)[t],
    decreases m,
{
    if m > 1 {
        lemma_child_seq(p, d, m - 1);
        let prev = child_seq(p, d, m - 1);
        let cur = child_seq(p, d, m);
        if p[m - 1] as int == d {
            assert(cur == prev.push((m - 1) as usize));
            assert forall|k: int| 1 <= k < m && p[k] as int == d implies #[trigger] cur.contains(k as usize) by {
                if k < m - 1 {
                    assert(prev.contains(k as usize));
                    let s = choose|s: int| 0 <= s < prev.len() && prev[s] == k as usize;
                    assert(cur[s] == k as usize);
                } else {
                    assert(cur[cur.len() - 1] == k as usize);
                }
            }
        }
    }
}

/// The display-order key of every entry.
fn entry_keys(es: &Vec<CompactEntry>) -> (keys: Vec<SortKey>)
    ensures
        keys@.len() == es@.len(),
        forall|i: int| 0 <= i < es@.len() ==> (#[trigger] keys@[i]).view() == entry_key(es@[i]),
{
    let mut keys: Vec<SortKey> = Vec::new();
    let mut i: usize = 0;
    while i < es.len()
        invariant
            i <= es@.len(),
            keys@.len() == i,
            forall|k: int| 0 <= k < i ==> (#[trigger] keys@[k]).view() == entry_key(es@[k]),
        decreases es@.len() - i,
    {
        let e = &es[i];
        let folded = to_lowercase(e.name.as_str());
        let logical: u64 = match e.logical_size {
            Some(x) => x,
            None => 0,
        };
        let key = SortKey {
            is_dir: e.kind == EntryKind::Directory,
            logical,
            folded: chars_of(folded.as_str()),
            name: chars_of(e.name.as_str()),
            id: e.id,
        };
        keys.push(key);
        i += 1;
    }
    keys
}

/// Child lists laid out per directory.
pub struct Layout {
    /// The entry index of every listed child, directory after directory.
    pub child_pos: Vec<usize>,
    pub starts: Vec<u32>,
    pub counts: Vec<u32>,
}

/// The child lists of every entry: directories list their children by
/// display order, one after another in entry order; other entries list none.
pub open spec fn layout_ok(es: Seq<CompactEntry>, p: Seq<usize>, l: Layout) -> bool {
    let n = es.len() as int;
    let cp = l.child_pos@;
    &&& l.starts@.len() == n
    &&& l.counts@.len() == n
    &&& cp.len() == range_start(p, n, n)
    &&& forall|a: int| 0 <= a < cp.len() ==> 1 <= #[trigger] cp[a] < n
    &&& forall|i: int|
        0 <= i < n ==> {
            &&& (#[trigger] l.counts@[i]) == child_seq(p, i, n).len()
            &&& l.starts@[i] == if es[i].kind == EntryKind::Directory {
                range_start(p, i, n)
            } else {
                0
            }
            &&& range_start(p, i, n) + l.counts@[i] <= cp.len()
            &&& cp.subrange(range_start(p, i, n), range_start(p, i, n) + l.counts@[i]).to_set()
                == child_seq(p, i, n).to_set()
            &&& forall|a: int, b: int|
                range_start(p, i, n) <= a < b < range_start(p, i, n) + l.counts@[i] ==> key_lt(
                    entry_key(es[cp[a] as int]),
                    entry_key(es[cp[b] as int]),
                )
        }
}

/// Lays out the child lists of a tree.
pub fn layout_children(es: &Vec<CompactEntry>, parents: &Vec<usize>) -> (l: Layout)
    requires
        es@.len() == parents@.len(),
        es@.len() < 0xFFFF_FFFF,
        parents_ok(parents@),
        forall|i: int, j: int| 0 <= i < j < es@.len() ==> (#[trigger] es@[i]).id != (#[trigger] es@[j]).id,
        forall|j: int| 0 < j < es@.len() ==> es@[#[trigger] parents@[j] as int].kind == EntryKind::Directory,
    ensures
        layout_ok(es@, parents@, l),
{
    let n: usize = es.len();
    let ghost p = parents@;
    let ghost e = es@;
    let mut kids: Vec<Vec<usize>> = Vec::new();
    let mut k: usize = 0;
    while k < n
        invariant
            k <= n,
            kids@.len() == k,
            forall|d: int| 0 <= d < k ==> (#[trigger] kids@[d])@ == Seq::<usize>::empty(),
        decreases n - k,
    {
        kids.push(Vec::new());
        k += 1;
    }
    let mut j: usize = 1;
    while j < n
        invariant
            1 <= j || n == 0,
            j <= n || n == 0,
            n == p.len(),
            p == parents@,
            parents_ok(p),
            kids@.len() == n,
            forall|d: int| 0 <= d < n ==> (#[trigger] kids@[d])@ == child_seq(p, d, j as int),
        decreases n - j,
    {
        let ghost k0 = kids@;
        let d: usize = parents[j];
        kids[d].push(j);
        proof {
            assert forall|d2: int| 0 <= d2 < n implies (#[trigger] kids@[d2])@ == child_seq(p, d2, j + 1) by {
                if d2 != d {
                    assert(kids@[d2] == k0[d2]);
                }
            }
        }
        j += 1;
    }
    proof {
        if n == 0 {
        } else {
            assert(j == n);
        }
    }
    let keys = entry_keys(es);
    proof {
        assert forall|a: int, b: int| 0 <= a < keys@.len() && 0 <= b < keys@.len() && a != b implies (#[trigger] keys@[a]).id
            != (#[trigger] keys@[b]).id by {
            assert(keys@[a].view() == entry_key(e[a]));
            assert(keys@[b].view() == entry_key(e[b]));
            if a < b {
                assert(e[a].id != e[b].id);
            } else {
                assert(e[b].id != e[a].id);
            }
        }
    }
    let mut child_pos: Vec<usize> = Vec::new();
    let mut starts: Vec<u32> = Vec::new();
    let mut counts: Vec<u32> = Vec::new();
    let mut d: usize = 0;
    while d < n
        invariant
            n == e.len(),
            e == es@,
            n == p.len(),
            p == parents@,
            n < 0xFFFF_FFFF,
            parents_ok(p),
            forall|j2: int| 0 < j2 < n ==> e[#[trigger] p[j2] as int].kind == EntryKind::Directory,
            kids@.len() == n,
            keys@.len() == n,
            forall|i: int| 0 <= i < n ==> (#[trigger] keys@[i]).view() == entry_key(e[i]),
            distinct_key_ids(keys@),
            forall|d2: int| d <= d2 < n ==> (#[trigger] kids@[d2])@ == child_seq(p, d2, n as int),
            d <= n,
            starts@.len() == d,
            counts@.len() == d,
            child_pos@.len() == range_start(p, d as int, n as int),
            forall|a: int| 0 <= a < child_pos@.len() ==> 1 <= #[trigger] child_pos@[a] < n,
            forall|i: int|
                0 <= i < d ==> {
                    &&& (#[trigger] counts@[i]) == child_seq(p, i, n as int).len()
                    &&& starts@[i] == if e[i].kind == EntryKind::Directory {
                        range_start(p, i, n as int)
                    } else {
                        0
                    }
                    &&& range_start(p, i, n as int) + counts@[i] <= child_pos@.len()
                    &&& child_pos@.subrange(range_start(p, i, n as int), range_start(p, i, n as int) + counts@[i]).to_set()
                        == child_seq(p, i, n as int).to_set()
                    &&& forall|a: int, b: int|
                        range_start(p, i, n as int) <= a < b < range_start(p, i, n as int) + counts@[i] ==> key_lt(
                            entry_key(e[child_pos@[a] as int]),
                            entry_key(e[child_pos@[b] as int]),
                        )
                },
        decreases n - d,
    {
        let ghost cp0 = child_pos@;
        proof {
            lemma_child_seq(p, d as int, n as int);
            lemma_range_start(p, d as int, n as int);
            lemma_range_start(p, d + 1, n as int);
            lemma_parented_bound(p, d + 1, n as int);
        }
        let mut list: Vec<usize> = Vec::new();
        std::mem::swap(&mut list, &mut kids[d]);
        let sorted = sort_by_key(&keys, list);
        let count: usize = sorted.len();
        let start: usize = child_pos.len();
        let mut t: usize = 0;
        while t < count
            invariant
                t <= count,
                count == sorted@.len(),
                start == cp0.len(),
                child_pos@ == cp0 + sorted@.subrange(0, t as int),
            decreases count - t,
        {
            child_pos.push(sorted[t]);
            proof {
                assert(sorted@.subrange(0, t + 1) =~= sorted@.subrange(0, t as int).push(sorted@[t as int]));
                assert(child_pos@ =~= cp0 + sorted@.subrange(0, t + 1));
            }
            t += 1;
        }
        let is_dir: bool = es[d].kind == EntryKind::Directory;
        starts.push(if is_dir { start as u32 } else { 0 });
        counts.push(count as u32);
        proof {
            let cs = child_seq(p, d as int, n as int);
            assert(sorted@.subrange(0, count as int) =~= sorted@);
            assert(child_pos@.subrange(start as int, start + count) =~= sorted@);
            assert(start == range_start(p, d as int, n as int));
            assert(sorted@.to_set() == cs.to_set());
            assert forall|x: int| 0 <= x < sorted@.len() implies 1 <= #[trigger] sorted@[x] < n by {
                assert(sorted@.to_set().contains(sorted@[x]));
                assert(cs.contains(sorted@[x]));
                let s0 = choose|s0: int| 0 <= s0 < cs.len() && cs[s0] == sorted@[x];
                assert(1 <= cs[s0] < n);
            }
            assert forall|a: int| 0 <= a < cp0.len() implies #[trigger] child_pos@[a] == cp0[a] by {}
            assert forall|a: int| 0 <= a < child_pos@.len() implies 1 <= #[trigger] child_pos@[a] < n by {
                if a >= cp0.len() {
                    assert(child_pos@[a] == sorted@[a - start]);
                }
            }
            assert forall|i: int| 0 <= i < d implies child_pos@.subrange(range_start(p, i, n as int), range_start(p, i, n as int) + counts@[i])
                =~= cp0.subrange(range_start(p, i, n as int), range_start(p, i, n as int) + counts@[i]) by {
                lemma_range_start(p, i, n as int);
                lemma_parented_bound(p, i, n as int);
            }
            assert forall|a: int, b: int|
                start <= a < b < start + count implies key_lt(entry_key(e[child_pos@[a] as int]), entry_key(e[child_pos@[b] as int])) by {
                assert(child_pos@[a] == sorted@[a - start]);
                assert(child_pos@[b] == sorted@[b - start]);
                assert(sorted@[a - start] < n);
                assert(sorted@[b - start] < n);
                assert(keys@[sorted@[a - start] as int].view() == entry_key(e[sorted@[a - start] as int]));
                assert(keys@[sorted@[b - start] as int].view() == entry_key(e[sorted@[b - start] as int]));
            }
            if !is_dir {
                if cs.len() > 0 {
                    let c = cs[0];
                    assert(p[c as int] == d);
                }
            }
            assert forall|i: int| 0 <= i < d + 1 implies {
                    &&& (#[trigger] counts@[i]) == child_seq(p, i, n as int).len()
                    &&& starts@[i] == if e[i].kind == EntryKind::Directory {
                        range_start(p, i, n as int)
                    } else {
                        0
                    }
                    &&& range_start(p, i, n as int) + counts@[i] <= child_pos@.len()
                    &&& child_pos@.subrange(range_start(p, i, n as int), range_start(p, i, n as int) + counts@[i]).to_set()
                        == child_seq(p, i, n as int).to_set()
                    &&& forall|a: int, b: int|
                        range_start(p, i, n as int) <= a < b < range_start(p, i, n as int) + counts@[i] ==> key_lt(
                            entry_key(e[child_pos@[a] as int]),
                            entry_key(e[child_pos@[b] as int]),
                        )
                } by {
                if i < d {
                    lemma_range_start(p, i, n as int);
                    lemma_parented_bound(p, i, n as int);
                    assert(child_pos@.subrange(range_start(p, i, n as int), range_start(p, i, n as int) + counts@[i])
                        =~= cp0.subrange(range_start(p, i, n as int), range_start(p, i, n as int) + counts@[i]));
                }
            }
        }
        d += 1;
    }
    Layout { child_pos, starts, counts }
}


/// The ids of the entries at the given positions.
pub open spec fn ids_at(es: Seq<CompactEntry>, s: Seq<usize>) -> Seq<u32> {
    Seq::new(s.len(), |x: int| es[s[x] as int].id)
}

/// Position lists with the same elements list the same ids.
pub proof fn lemma_ids_at_set(es: Seq<CompactEntry>, s1: Seq<usize>, s2: Seq<usize>)
    requires
        s1.to_set() == s2.to_set(),
    ensures
        ids_at(es, s1).to_set() == ids_at(es, s2).to_set(),
{
    assert forall|x: u32| ids_at(es, s1).to_set().contains(x) implies ids_at(es, s2).to_set().contains(x) by {
        let a = choose|a: int| 0 <= a < ids_at(es, s1).len() && ids_at(es, s1)[a] == x;
        assert(s1.to_set().contains(s1[a]));
        assert(s2.contains(s1[a]));
        let b = choose|b: int| 0 <= b < s2.len() && s2[b] == s1[a];
        assert(ids_at(es, s2)[b] == x);
    }
    assert forall|x: u32| ids_at(es, s2).to_set().contains(x) implies ids_at(es, s1).to_set().contains(x) by {
        let a = choose|a: int| 0 <= a < ids_at(es, s2).len() && ids_at(es, s2)[a] == x;
        assert(s2.to_set().contains(s2[a]));
        assert(s1.contains(s2[a]));
        let b = choose|b: int| 0 <= b < s1.len() && s1[b] == s2[a];
        assert(ids_at(es, s1)[b] == x);
    }
    assert(ids_at(es, s1).to_set() =~= ids_at(es, s2).to_set());
}

/// Writes each entry's child range and lists the children's ids.
pub fn place_children(entries: &mut Vec<CompactEntry>, l: &Layout) -> (all: Vec<u32>)
    requires
        l.starts@.len() == old(entries)@.len(),
        l.counts@.len() == old(entries)@.len(),
        forall|a: int| 0 <= a < l.child_pos@.len() ==> #[trigger] l.child_pos@[a] < old(entries)@.len(),
    ensures
        final(entries)@.len() == old(entries)@.len(),
        forall|i: int|
            0 <= i < old(entries)@.len() ==> #[trigger] final(entries)@[i] == (CompactEntry {
                child_start: l.starts@[i],
                child_count: l.counts@[i],
                ..old(entries)@[i]
            }),
        all@ == ids_at(old(entries)@, l.child_pos@),
{
    let ghost es = entries@;
    let n: usize = entries.len();
    let mut all: Vec<u32> = Vec::new();
    let mut a: usize = 0;
    while a < l.child_pos.len()
        invariant
            a <= l.child_pos@.len(),
            entries@ == es,
            n == es.len(),
            forall|b: int| 0 <= b < l.child_pos@.len() ==> #[trigger] l.child_pos@[b] < n,
            all@ == ids_at(es, l.child_pos@.subrange(0, a as int)),
        decreases l.child_pos@.len() - a,
    {
        let k: usize = l.child_pos[a];
        all.push(entries[k].id);
        proof {
            assert(l.child_pos@.subrange(0, a + 1) =~= l.child_pos@.subrange(0, a as int).push(k));
            assert(all@ =~= ids_at(es, l.child_pos@.subrange(0, a + 1)));
        }
        a += 1;
    }
    proof {
        assert(l.child_pos@.subrange(0, a as int) =~= l.child_pos@);
    }
    let mut i: usize = 0;
    while i < n
        invariant
            i <= n,
            n == es.len(),
            entries@.len() == n,
            l.starts@.len() == n,
            l.counts@.len() == n,
            forall|k: int|
                0 <= k < i ==> #[trigger] entries@[k] == (CompactEntry {
                    child_start: l.starts@[k],
                    child_count: l.counts@[k],
                    ..es[k]
                }),
            forall|k: int| i <= k < n ==> #[trigger] entries@[k] == es[k],
        decreases n - i,
    {
        let ghost before = entries@;
        entries[i].child_start = l.starts[i];
        entries[i].child_count = l.counts[i];
        proof {
            assert forall|k: int| 0 <= k < i + 1 implies #[trigger] entries@[k] == (CompactEntry {
                child_start: l.starts@[k],
                child_count: l.counts@[k],
                ..es[k]
            }) by {
                if k < i {
                    assert(entries@[k] == before[k]);
                }
            }
            assert forall|k: int| i + 1 <= k < n implies #[trigger] entries@[k] == es[k] by {
                assert(entries@[k] == before[k]);
            }
        }
        i += 1;
    }
    all
}

} // verus!
