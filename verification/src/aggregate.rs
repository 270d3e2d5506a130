//! Settlement of a finished observation tree: alias grouping of files that
//! share an object identity, normalized object records, and the evidence
//! folds that decide each object's link count, status and weight.

use crate::graph::{CompactEntry, EntryKind, ObjectRecord, StreamBreakdown};
use crate::model::{
    derive_status, identity_eq, ExternalReferenceStatus, ObjectIdentity, ValueKnowledge,
};
use std::collections::HashMap;
use vstd::prelude::*;

verus! {

broadcast use vstd::std_specs::hash::group_hash_axioms;

/// Entry `i` is a file that carries an object identity.
pub open spec fn grouped(es: Seq<CompactEntry>, ids: Seq<Option<ObjectIdentity>>, i: int) -> bool {
    es[i].kind == EntryKind::File && ids[i] is Some
}

/// Entry `i` is a file that carries the identity `x`.
pub open spec fn member(
    es: Seq<CompactEntry>,
    ids: Seq<Option<ObjectIdentity>>,
    x: ObjectIdentity,
    i: int,
) -> bool {
    es[i].kind == EntryKind::File && ids[i] == Some(x)
}

/// Entry `r` is the first file that carries its identity.
pub open spec fn is_rep(es: Seq<CompactEntry>, ids: Seq<Option<ObjectIdentity>>, r: int) -> bool {
    &&& grouped(es, ids, r)
    &&& forall|k: int| 0 <= k < r ==> !#[trigger] member(es, ids, ids[r]->0, k)
}

/// The files among the first `m` entries that carry identity `x`, in entry order.
pub open spec fn member_seq(
    es: Seq<CompactEntry>,
    ids: Seq<Option<ObjectIdentity>>,
    x: ObjectIdentity,
    m: int,
) -> Seq<usize>
    decreases m,
{
    if m <= 0 {
        Seq::empty()
    } else if member(es, ids, x, m - 1) {
        member_seq(es, ids, x, m - 1).push((m - 1) as usize)
    } else {
        member_seq(es, ids, x, m - 1)
    }
}

/// The number of files among the first `m` entries that carry identity `x`.
pub open spec fn alias_count(
    es: Seq<CompactEntry>,
    ids: Seq<Option<ObjectIdentity>>,
    x: ObjectIdentity,
    m: int,
) -> int
    decreases m,
{
    if m <= 0 {
        0
    } else {
        alias_count(es, ids, x, m - 1) + if member(es, ids, x, m - 1) {
            1int
        } else {
            0int
        }
    }
}

/// Link evidence gathered so far: the resolved count, the first known
/// count, and whether two known counts disagreed.
pub type LinkState = (ValueKnowledge, Option<u32>, bool);

/// Allocation evidence gathered so far: the smallest size, the first size,
/// and whether two sizes disagreed.
pub type AllocState = (Option<u64>, Option<u64>, bool);

pub open spec fn link_init() -> LinkState {
    (ValueKnowledge::NotObserved, None, false)
}

pub open spec fn alloc_init() -> AllocState {
    (None, None, false)
}

/// One alias's link count folded into the evidence: the first known count
/// wins and any different known count is a conflict; without a known count,
/// unavailable outranks not-applicable.
pub open spec fn link_step(s: LinkState, l: ValueKnowledge) -> LinkState {
    match l {
        ValueKnowledge::Known(k) => match s.1 {
            None => (ValueKnowledge::Known(k), Some(k), s.2),
            Some(p) => (s.0, s.1, s.2 || p != k),
        },
        ValueKnowledge::Unavailable => if s.1 is None {
            (ValueKnowledge::Unavailable, s.1, s.2)
        } else {
            s
        },
        ValueKnowledge::NotApplicable => if s.1 is None && !(s.0 is Unavailable) {
            (ValueKnowledge::NotApplicable, s.1, s.2)
        } else {
            s
        },
        ValueKnowledge::NotObserved => s,
    }
}

/// One alias's allocation size folded into the evidence.
pub open spec fn alloc_step(s: AllocState, a: Option<u64>) -> AllocState {
    match a {
        None => s,
        Some(x) => (
            Some(
                match s.0 {
                    None => x,
                    Some(m) => if m <= x {
                        m
                    } else {
                        x
                    },
                },
            ),
            match s.1 {
                None => Some(x),
                Some(f) => Some(f),
            },
            s.2 || match s.1 {
                None => false,
                Some(f) => f != x,
            },
        ),
    }
}

/// The link evidence of the files among the first `m` entries that carry `x`.
pub open spec fn link_fold(
    es: Seq<CompactEntry>,
    ids: Seq<Option<ObjectIdentity>>,
    links: Seq<ValueKnowledge>,
    x: ObjectIdentity,
    m: int,
) -> LinkState
    decreases m,
{
    if m <= 0 {
        link_init()
    } else if member(es, ids, x, m - 1) {
        link_step(link_fold(es, ids, links, x, m - 1), links[m - 1])
    } else {
        link_fold(es, ids, links, x, m - 1)
    }
}

/// The allocation evidence of the files among the first `m` entries that carry `x`.
pub open spec fn alloc_fold(
    es: Seq<CompactEntry>,
    ids: Seq<Option<ObjectIdentity>>,
    x: ObjectIdentity,
    m: int,
) -> AllocState
    decreases m,
{
    if m <= 0 {
        alloc_init()
    } else if member(es, ids, x, m - 1) {
        alloc_step(alloc_fold(es, ids, x, m - 1), es[m - 1].allocated_size)
    } else {
        alloc_fold(es, ids, x, m - 1)
    }
}

/// The record of the object behind the files that carry `x`.
pub open spec fn group_record(
    es: Seq<CompactEntry>,
    ids: Seq<Option<ObjectIdentity>>,
    links: Seq<ValueKnowledge>,
    x: ObjectIdentity,
) -> ObjectRecord {
    let n = es.len() as int;
    let lf = link_fold(es, ids, links, x, n);
    let af = alloc_fold(es, ids, x, n);
    let count = alias_count(es, ids, x, n) as u32;
    ObjectRecord {
        identity: Some(x),
        observed_alias_count: count,
        total_link_count: lf.0,
        external_reference_status: if lf.2 {
            ExternalReferenceStatus::InconsistentEvidence
        } else {
            derive_status(lf.0, count)
        },
        weight: match af.0 {
            Some(w) => w,
            None => 0,
        },
    }
}

/// The files that carry `x` reported different allocation sizes.
pub open spec fn alloc_conflict(
    es: Seq<CompactEntry>,
    ids: Seq<Option<ObjectIdentity>>,
    x: ObjectIdentity,
) -> bool {
    alloc_fold(es, ids, x, es.len() as int).2
}

/// Alias groups of the files among the first `m` entries.
pub struct Groups {
    /// The first file of each group.
    pub reps: Vec<usize>,
    /// The files of each group, in entry order.
    pub members: Vec<Vec<usize>>,
    /// The group of each entry that is a file with an identity.
    pub group_of: Vec<Option<usize>>,
    pub link_states: Vec<LinkState>,
    pub alloc_states: Vec<AllocState>,
    pub counts: Vec<u32>,
}

impl Groups {
    /// The groups describe exactly the files with an identity among the
    /// first `m` entries: one group per distinct identity, in order of first
    /// occurrence, with the evidence folded over its members.
    pub open spec fn wf(
        &self,
        es: Seq<CompactEntry>,
        ids: Seq<Option<ObjectIdentity>>,
        links: Seq<ValueKnowledge>,
        m: int,
    ) -> bool {
        let g = self.reps@.len();
        &&& self.members@.len() == g
        &&& self.link_states@.len() == g
        &&& self.alloc_states@.len() == g
        &&& self.counts@.len() == g
        &&& self.group_of@.len() == m
        &&& forall|q: int|
            0 <= q < g ==> {
                &&& (#[trigger] self.reps@[q]) < m
                &&& is_rep(es, ids, self.reps@[q] as int)
            }
        &&& forall|q1: int, q2: int|
            0 <= q1 < q2 < g ==> ids[#[trigger] self.reps@[q1] as int] != ids[#[trigger] self.reps@[q2] as int]
        &&& forall|i: int|
            0 <= i < m ==> match #[trigger] self.group_of@[i] {
                Some(q) => grouped(es, ids, i) && q < g && ids[self.reps@[q as int] as int] == ids[i],
                None => !grouped(es, ids, i),
            }
        &&& forall|q: int|
            0 <= q < g ==> (#[trigger] self.members@[q])@ == member_seq(es, ids, ids[self.reps@[q] as int]->0, m)
        &&& forall|q: int|
            0 <= q < g ==> #[trigger] self.link_states@[q] == link_fold(es, ids, links, ids[self.reps@[q] as int]->0, m)
        &&& forall|q: int|
            0 <= q < g ==> #[trigger] self.alloc_states@[q] == alloc_fold(es, ids, ids[self.reps@[q] as int]->0, m)
        &&& forall|q: int|
            0 <= q < g ==> #[trigger] self.counts@[q] == alias_count(es, ids, ids[self.reps@[q] as int]->0, m)
    }
}

/// Before the first file that carries `x`, every fold is at its start.
proof fn lemma_folds_empty(
    es: Seq<CompactEntry>,
    ids: Seq<Option<ObjectIdentity>>,
    links: Seq<ValueKnowledge>,
    x: ObjectIdentity,
    m: int,
)
    requires
        forall|k: int| 0 <= k < m ==> !#[trigger] member(es, ids, x, k),
    ensures
        member_seq(es, ids, x, m) == Seq::<usize>::empty(),
        link_fold(es, ids, links, x, m) == link_init(),
        alloc_fold(es, ids, x, m) == alloc_init(),
        alias_count(es, ids, x, m) == 0,
    decreases m,
{
    if m > 0 {
        assert(!member(es, ids, x, m - 1));
        lemma_folds_empty(es, ids, links, x, m - 1);
    }
}

/// An alias count never exceeds the number of entries it ranges over, and
/// the root directory is never an alias.
pub proof fn lemma_alias_count_bound(
    es: Seq<CompactEntry>,
    ids: Seq<Option<ObjectIdentity>>,
    x: ObjectIdentity,
    m: int,
)
    requires
        1 <= m <= es.len(),
        es[0].kind == EntryKind::Directory,
    ensures
        0 <= alias_count(es, ids, x, m) <= m - 1,
    decreases m,
{
    if m > 1 {
        lemma_alias_count_bound(es, ids, x, m - 1);
    } else {
        assert(alias_count(es, ids, x, 0) == 0);
        assert(!member(es, ids, x, 0));
    }
}

fn link_step_exec(s: LinkState, l: ValueKnowledge) -> (r: LinkState)
    ensures
        r == link_step(s, l),
{
    match l {
        ValueKnowledge::Known(k) => match s.1 {
            None => (ValueKnowledge::Known(k), Some(k), s.2),
            Some(p) => (s.0, s.1, s.2 || p != k),
        },
        ValueKnowledge::Unavailable => if s.1.is_none() {
            (ValueKnowledge::Unavailable, s.1, s.2)
        } else {
            s
        },
        ValueKnowledge::NotApplicable => {
            let unavailable = match s.0 {
                ValueKnowledge::Unavailable => true,
                _ => false,
            };
            if s.1.is_none() && !unavailable {
                (ValueKnowledge::NotApplicable, s.1, s.2)
            } else {
                s
            }
        },
        ValueKnowledge::NotObserved => s,
    }
}

fn alloc_step_exec(s: AllocState, a: Option<u64>) -> (r: AllocState)
    ensures
        r == alloc_step(s, a),
{
    match a {
        None => s,
        Some(x) => {
            let least: u64 = match s.0 {
                None => x,
                Some(m) => if m <= x {
                    m
                } else {
                    x
                },
            };
            let first: u64 = match s.1 {
                None => x,
                Some(f) => f,
            };
            let conflict: bool = match s.1 {
                None => s.2,
                Some(f) => s.2 || f != x,
            };
            (Some(least), Some(first), conflict)
        },
    }
}

/// The group whose first file carries `x`, if any. A file-id index gives the
/// usual answer at once; a mismatch on the volume falls back to a scan.
fn find_group(
    reps: &Vec<usize>,
    ids: &Vec<Option<ObjectIdentity>>,
    by_file_id: &HashMap<u128, usize>,
    x: &ObjectIdentity,
) -> (r: Option<usize>)
    requires
        forall|q: int| 0 <= q < reps@.len() ==> (#[trigger] reps@[q]) < ids@.len() && ids@[reps@[q] as int] is Some,
        forall|key: u128| #[trigger] by_file_id@.contains_key(key) ==> by_file_id@[key] < reps@.len(),
        forall|q: int| 0 <= q < reps@.len() ==> #[trigger] by_file_id@.contains_key(ids@[reps@[q] as int]->0.file_id),
    ensures
        r matches Some(q) ==> q < reps@.len() && ids@[reps@[q as int] as int] == Some(*x),
        r is None ==> forall|q: int| 0 <= q < reps@.len() ==> ids@[(#[trigger] reps@[q]) as int] != Some(*x),
{
    match by_file_id.get(&x.file_id) {
        None => {
            proof {
                assert forall|q: int| 0 <= q < reps@.len() implies ids@[(#[trigger] reps@[q]) as int]
                    != Some(*x) by {
                    assert(by_file_id@.contains_key(ids@[reps@[q] as int]->0.file_id));
                }
            }
            return None;
        },
        Some(q) => {
            let q: usize = *q;
            match ids[reps[q]] {
                Some(y) => {
                    if identity_eq(&y, x) {
                        return Some(q);
                    }
                },
                None => {},
            }
        },
    }
    let mut q: usize = 0;
    while q < reps.len()
        invariant
            q <= reps@.len(),
            forall|k: int| 0 <= k < reps@.len() ==> (#[trigger] reps@[k]) < ids@.len() && ids@[reps@[k] as int] is Some,
            forall|k: int| 0 <= k < q ==> ids@[(#[trigger] reps@[k]) as int] != Some(*x),
        decreases reps@.len() - q,
    {
        match ids[reps[q]] {
            Some(y) => {
                if identity_eq(&y, x) {
                    return Some(q);
                }
            },
            None => {},
        }
        q += 1;
    }
    None
}

/// Groups the files that carry an object identity by that identity.
pub fn group_files(
    es: &Vec<CompactEntry>,
    ids: &Vec<Option<ObjectIdentity>>,
    links: &Vec<ValueKnowledge>,
) -> (g: Groups)
    requires
        es@.len() == ids@.len(),
        es@.len() == links@.len(),
        es@.len() < 0xFFFF_FFFF,
        es@.len() > 0 ==> es@[0].kind == EntryKind::Directory,
    ensures
        g.wf(es@, ids@, links@, es@.len() as int),
{
    let n: usize = es.len();
    let ghost e = es@;
    let ghost d = ids@;
    let ghost l = links@;
    let mut g = Groups {
        reps: Vec::new(),
        members: Vec::new(),
        group_of: Vec::new(),
        link_states: Vec::new(),
        alloc_states: Vec::new(),
        counts: Vec::new(),
    };
    let mut by_file_id: HashMap<u128, usize> = HashMap::new();
    let mut j: usize = 0;
    while j < n
        invariant
            n == e.len(),
            e == es@,
            d == ids@,
            l == links@,
            e.len() == d.len(),
            e.len() == l.len(),
            n < 0xFFFF_FFFF,
            n > 0 ==> e[0].kind == EntryKind::Directory,
            j <= n,
            g.wf(e, d, l, j as int),
            forall|key: u128| #[trigger] by_file_id@.contains_key(key) ==> by_file_id@[key] < g.reps@.len(),
            forall|q: int| 0 <= q < g.reps@.len() ==> #[trigger] by_file_id@.contains_key(d[g.reps@[q] as int]->0.file_id),
        decreases n - j,
    {
        let ghost g0 = g;
        let is_file: bool = es[j].kind == EntryKind::File;
        let ident: Option<ObjectIdentity> = ids[j];
        match ident {
            Some(x) => {
                if is_file {
                    proof {
                        assert forall|q: int| 0 <= q < g.reps@.len() implies (#[trigger] g.reps@[q]) < d.len()
                            && d[g.reps@[q] as int] is Some by {
                            assert(is_rep(e, d, g.reps@[q] as int));
                        }
                    }
                    let found = find_group(&g.reps, ids, &by_file_id, &x);
                    match found {
                        Some(q) => {
                            proof {
                                lemma_alias_count_bound(e, d, x, j as int + 1);
                            }
                            g.members[q].push(j);
                            let ls = link_step_exec(g.link_states[q], links[j]);
                            g.link_states.set(q, ls);
                            let als = alloc_step_exec(g.alloc_states[q], es[j].allocated_size);
                            g.alloc_states.set(q, als);
                            let c: u32 = g.counts[q];
                            g.counts.set(q, c + 1);
                            g.group_of.push(Some(q));
                            proof {
                                assert(member(e, d, x, j as int));

                                assert forall|q2: int| 0 <= q2 < g.reps@.len() && q2 != q implies !member(
                                    e,
                                    d,
                                    d[(#[trigger] g.reps@[q2]) as int]->0,
                                    j as int,
                                ) by {
                                    assert(is_rep(e, d, g.reps@[q2] as int));
                                    if q2 < q {
                                        assert(d[g.reps@[q2] as int] != d[g.reps@[q as int] as int]);
                                    } else {
                                        assert(d[g.reps@[q as int] as int] != d[g.reps@[q2] as int]);
                                    }
                                }
                                assert forall|i: int| 0 <= i < j + 1 implies match #[trigger] g.group_of@[i] {
                                    Some(q3) => grouped(e, d, i) && q3 < g.reps@.len() && d[g.reps@[q3 as int] as int] == d[i],
                                    None => !grouped(e, d, i),
                                } by {
                                    if i < j {
                                        assert(g.group_of@[i] == g0.group_of@[i]);
                                    }
                                }
                            }
                        },
                        None => {
                            let q: usize = g.reps.len();
                            proof {
                                assert forall|k: int| 0 <= k < j implies !#[trigger] member(e, d, x, k) by {
                                    if member(e, d, x, k) {
                                        assert(g.group_of@[k] is Some);
                                        let q4 = g.group_of@[k]->0;
                                        assert(d[g.reps@[q4 as int] as int] == Some(x));
                                    }
                                }
                                lemma_folds_empty(e, d, l, x, j as int);
                                assert(is_rep(e, d, j as int));
                            }
                            g.reps.push(j);
                            let mut first_members: Vec<usize> = Vec::new();
                            first_members.push(j);
                            g.members.push(first_members);
                            let ls = link_step_exec((ValueKnowledge::NotObserved, None, false), links[j]);
                            g.link_states.push(ls);
                            let als = alloc_step_exec((None, None, false), es[j].allocated_size);
                            g.alloc_states.push(als);
                            g.counts.push(1);
                            g.group_of.push(Some(q));
                            by_file_id.insert(x.file_id, q);
                            proof {
                                assert(member_seq(e, d, x, j as int + 1) =~= seq![j]);
                                assert forall|q2: int| 0 <= q2 < q implies !member(
                                    e,
                                    d,
                                    d[(#[trigger] g.reps@[q2]) as int]->0,
                                    j as int,
                                ) by {
                                    assert(g.reps@[q2] == g0.reps@[q2]);
                                }
                                assert forall|q1: int, q2: int| 0 <= q1 < q2 < g.reps@.len() implies d[#[trigger] g.reps@[q1] as int]
                                    != d[#[trigger] g.reps@[q2] as int] by {
                                    if q2 < q {
                                        assert(g.reps@[q1] == g0.reps@[q1]);
                                        assert(g.reps@[q2] == g0.reps@[q2]);
                                    } else {
                                        assert(g.reps@[q1] == g0.reps@[q1]);
                                    }
                                }
                                assert forall|i: int| 0 <= i < j + 1 implies match #[trigger] g.group_of@[i] {
                                    Some(q3) => grouped(e, d, i) && q3 < g.reps@.len() && d[g.reps@[q3 as int] as int] == d[i],
                                    None => !grouped(e, d, i),
                                } by {
                                    if i < j {
                                        assert(g.group_of@[i] == g0.group_of@[i]);
                                        if let Some(q3) = g.group_of@[i] {
                                            assert(g.reps@[q3 as int] == g0.reps@[q3 as int]);
                                        }
                                    }
                                }
                                assert forall|q2: int| 0 <= q2 < g.reps@.len() implies #[trigger] by_file_id@.contains_key(
                                    d[g.reps@[q2] as int]->0.file_id,
                                ) by {
                                    if q2 < q {
                                        assert(g.reps@[q2] == g0.reps@[q2]);
                                    }
                                }
                            }
                        },
                    }
                } else {
                    g.group_of.push(None);
                    proof {
                        assert forall|i: int| 0 <= i < j + 1 implies match #[trigger] g.group_of@[i] {
                            Some(q3) => grouped(e, d, i) && q3 < g.reps@.len() && d[g.reps@[q3 as int] as int] == d[i],
                            None => !grouped(e, d, i),
                        } by {
                            if i < j {
                                assert(g.group_of@[i] == g0.group_of@[i]);
                            }
                        }
                    }
                }
            },
            None => {
                g.group_of.push(None);
                proof {
                    assert forall|i: int| 0 <= i < j + 1 implies match #[trigger] g.group_of@[i] {
                        Some(q3) => grouped(e, d, i) && q3 < g.reps@.len() && d[g.reps@[q3 as int] as int] == d[i],
                        None => !grouped(e, d, i),
                    } by {
                        if i < j {
                            assert(g.group_of@[i] == g0.group_of@[i]);
                        }
                    }
                }
            },
        }
        j += 1;
    }
    g
}

} // verus!

verus! {

/// The record of a directory's own object.
pub open spec fn dir_record(x: ObjectIdentity) -> ObjectRecord {
    ObjectRecord {
        identity: Some(x),
        observed_alias_count: 1,
        total_link_count: ValueKnowledge::NotApplicable,
        external_reference_status: ExternalReferenceStatus::NotApplicable,
        weight: 0,
    }
}

/// The record of a file without identity whose link count was observed.
pub open spec fn linked_record(link: ValueKnowledge, alloc: Option<u64>) -> ObjectRecord {
    ObjectRecord {
        identity: None,
        observed_alias_count: 1,
        total_link_count: link,
        external_reference_status: derive_status(link, 1),
        weight: match alloc {
            Some(a) => a,
            None => 0,
        },
    }
}

/// Entry `i` gets an object of its own: a directory with an identity, or a
/// file without identity whose link count was observed.
pub open spec fn own_object(
    es: Seq<CompactEntry>,
    ids: Seq<Option<ObjectIdentity>>,
    links: Seq<ValueKnowledge>,
    i: int,
) -> bool {
    ||| es[i].kind == EntryKind::Directory && ids[i] is Some
    ||| es[i].kind == EntryKind::File && ids[i] is None && links[i] != ValueKnowledge::NotObserved
}

/// The object record that entry `i` refers to, if any.
pub open spec fn record_of(
    es: Seq<CompactEntry>,
    ids: Seq<Option<ObjectIdentity>>,
    links: Seq<ValueKnowledge>,
    i: int,
) -> ObjectRecord {
    if grouped(es, ids, i) {
        group_record(es, ids, links, ids[i]->0)
    } else if es[i].kind == EntryKind::Directory {
        dir_record(ids[i]->0)
    } else {
        linked_record(links[i], es[i].allocated_size)
    }
}

/// Entry `i` refers to an object record.
pub open spec fn has_object(
    es: Seq<CompactEntry>,
    ids: Seq<Option<ObjectIdentity>>,
    links: Seq<ValueKnowledge>,
    i: int,
) -> bool {
    grouped(es, ids, i) || own_object(es, ids, links, i)
}

/// The normalized objects and the object index of each entry: files that
/// share an identity share one object, every other object belongs to one
/// entry, entries without evidence have none, and no object is unreferenced.
pub open spec fn objects_ok(
    es: Seq<CompactEntry>,
    ids: Seq<Option<ObjectIdentity>>,
    links: Seq<ValueKnowledge>,
    oi: Seq<u32>,
    objs: Seq<ObjectRecord>,
) -> bool {
    let n = es.len();
    &&& oi.len() == n
    &&& objs.len() <= n
    &&& forall|i: int|
        0 <= i < n ==> if has_object(es, ids, links, i) {
            &&& (#[trigger] oi[i]) < objs.len()
            &&& objs[oi[i] as int] == record_of(es, ids, links, i)
        } else {
            oi[i] == crate::graph::NO_OBJECT
        }
    &&& forall|i: int, j: int|
        0 <= i < n && 0 <= j < n && i != j && has_object(es, ids, links, i) && has_object(
            es,
            ids,
            links,
            j,
        ) ==> ((#[trigger] oi[i] == #[trigger] oi[j]) <==> (grouped(es, ids, i) && grouped(
            es,
            ids,
            j,
        ) && ids[i] == ids[j]))
    &&& forall|o: int| 0 <= o < objs.len() ==> #[trigger] index_used(oi, o)
}

/// Some entry refers to object index `o`.
pub open spec fn index_used(oi: Seq<u32>, o: int) -> bool {
    exists|i: int| 0 <= i < oi.len() && oi[i] == o
}

/// The number of objects whose external-reference status is indeterminate,
/// among the first `m` entries: alias groups counted at their first file,
/// and every file without identity counted as one object of its own.
pub open spec fn indeterminate_count(
    es: Seq<CompactEntry>,
    ids: Seq<Option<ObjectIdentity>>,
    links: Seq<ValueKnowledge>,
    m: int,
) -> int
    decreases m,
{
    if m <= 0 {
        0
    } else {
        let i = m - 1;
        indeterminate_count(es, ids, links, m - 1) + if is_rep(es, ids, i) && group_record(
            es,
            ids,
            links,
            ids[i]->0,
        ).external_reference_status == ExternalReferenceStatus::Indeterminate {
            1int
        } else if es[i].kind == EntryKind::File && ids[i] is None && derive_status(links[i], 1)
            == ExternalReferenceStatus::Indeterminate {
            1int
        } else {
            0int
        }
    }
}

/// Some alias group reported different allocation sizes.
pub open spec fn any_alloc_conflict(es: Seq<CompactEntry>, ids: Seq<Option<ObjectIdentity>>) -> bool {
    exists|i: int| 0 <= i < es.len() && grouped(es, ids, i) && #[trigger] alloc_conflict(es, ids, ids[i]->0)
}

/// The object layer of a settled tree.
pub struct ObjectLayer {
    pub objects: Vec<ObjectRecord>,
    pub object_index: Vec<u32>,
    pub indeterminate: u64,
    pub any_conflict: bool,
}

proof fn lemma_count_step_bound(es: Seq<CompactEntry>, ids: Seq<Option<ObjectIdentity>>, links: Seq<ValueKnowledge>, m: int)
    requires
        m >= 0,
    ensures
        0 <= indeterminate_count(es, ids, links, m) <= m,
    decreases m,
{
    if m > 0 {
        lemma_count_step_bound(es, ids, links, m - 1);
    }
}

/// Builds the object records and each entry's object index from the alias groups.
pub fn settle_objects(
    es: &Vec<CompactEntry>,
    ids: &Vec<Option<ObjectIdentity>>,
    links: &Vec<ValueKnowledge>,
    g: &Groups,
) -> (r: ObjectLayer)
    requires
        es@.len() == ids@.len(),
        es@.len() == links@.len(),
        es@.len() < 0xFFFF_FFFF,
        es@.len() > 0 ==> es@[0].kind == EntryKind::Directory,
        g.wf(es@, ids@, links@, es@.len() as int),
    ensures
        objects_ok(es@, ids@, links@, r.object_index@, r.objects@),
        r.indeterminate == indeterminate_count(es@, ids@, links@, es@.len() as int),
        r.any_conflict == any_alloc_conflict(es@, ids@),
{
    let n: usize = es.len();
    let ghost e = es@;
    let ghost d = ids@;
    let ghost l = links@;
    let ghost ng = g.reps@.len();
    let mut objs: Vec<ObjectRecord> = Vec::new();
    let mut oi: Vec<u32> = Vec::new();
    let mut group_obj: Vec<u32> = Vec::new();
    let mut k: usize = 0;
    while k < g.reps.len()
        invariant
            k <= ng,
            ng == g.reps@.len(),
            group_obj@.len() == k,
            forall|q: int| 0 <= q < k ==> group_obj@[q] == crate::graph::NO_OBJECT,
        decreases ng - k,
    {
        group_obj.push(crate::graph::NO_OBJECT);
        k += 1;
    }
    let mut indeterminate: u64 = 0;
    let mut any_conflict: bool = false;
    let ghost mut owner: Seq<int> = Seq::empty();
    let mut i: usize = 0;
    while i < n
        invariant
            n == e.len(),
            e == es@,
            d == ids@,
            l == links@,
            e.len() == d.len(),
            e.len() == l.len(),
            n < 0xFFFF_FFFF,
            n > 0 ==> e[0].kind == EntryKind::Directory,
            g.wf(e, d, l, n as int),
            ng == g.reps@.len(),
            i <= n,
            group_obj@.len() == ng,
            oi@.len() == i,
            objs@.len() <= i,
            forall|q: int|
                0 <= q < ng && (#[trigger] g.reps@[q]) < i ==> {
                    &&& group_obj@[q] < objs@.len()
                    &&& objs@[group_obj@[q] as int] == group_record(e, d, l, d[g.reps@[q] as int]->0)
                    &&& oi@[g.reps@[q] as int] == group_obj@[q]
                },
            forall|q: int| 0 <= q < ng && (#[trigger] g.reps@[q]) >= i ==> group_obj@[q] == crate::graph::NO_OBJECT,
            forall|q1: int, q2: int|
                0 <= q1 < ng && 0 <= q2 < ng && q1 != q2 && (#[trigger] g.reps@[q1]) < i && (#[trigger] g.reps@[q2]) < i ==> group_obj@[q1] != group_obj@[q2],
            forall|a: int|
                0 <= a < i ==> if has_object(e, d, l, a) {
                    &&& (#[trigger] oi@[a]) < objs@.len()
                    &&& objs@[oi@[a] as int] == record_of(e, d, l, a)
                } else {
                    oi@[a] == crate::graph::NO_OBJECT
                },
            forall|a: int|
                0 <= a < i && grouped(e, d, a) ==> #[trigger] oi@[a] == group_obj@[g.group_of@[a]->0 as int],
            forall|a: int, b: int|
                0 <= a < i && 0 <= b < i && a != b && own_object(e, d, l, a) && has_object(e, d, l, b) ==> #[trigger] oi@[a] != #[trigger] oi@[b],
            owner.len() == objs@.len(),
            forall|o: int| 0 <= o < objs@.len() ==> 0 <= #[trigger] owner[o] < i && oi@[owner[o]] == o,
            indeterminate == indeterminate_count(e, d, l, i as int),
            any_conflict == exists|a: int| 0 <= a < i && grouped(e, d, a) && #[trigger] alloc_conflict(e, d, d[a]->0),
        decreases n - i,
    {
        proof {
            lemma_count_step_bound(e, d, l, i as int);
        }
        let ghost objs0 = objs@;
        let ghost oi0 = oi@;
        let ghost go0 = group_obj@;
        let kind = es[i].kind;
        let ident: Option<ObjectIdentity> = ids[i];
        let link: ValueKnowledge = links[i];
        match g.group_of[i] {
            Some(q) => {
                let x: ObjectIdentity = match ident {
                    Some(x) => x,
                    None => {
                        proof { assert(false); }
                        return ObjectLayer { objects: objs, object_index: oi, indeterminate, any_conflict };
                    }
                };
                if g.reps[q] == i {
                    let (resolved, _first, link_conflict) = g.link_states[q];
                    let count: u32 = g.counts[q];
                    let status = if link_conflict {
                        ExternalReferenceStatus::InconsistentEvidence
                    } else {
                        ExternalReferenceStatus::derive(resolved, count)
                    };
                    let weight: u64 = match g.alloc_states[q].0 {
                        Some(w) => w,
                        None => 0,
                    };
                    let idx: u32 = objs.len() as u32;
                    objs.push(ObjectRecord {
                        identity: Some(x),
                        observed_alias_count: count,
                        total_link_count: resolved,
                        external_reference_status: status,
                        weight,
                    });
                    group_obj.set(q, idx);
                    oi.push(idx);
                    if status == ExternalReferenceStatus::Indeterminate {
                        indeterminate = indeterminate + 1;
                    }
                    proof {
                        let x0 = d[i as int]->0;
                        assert(d[g.reps@[q as int] as int] == d[i as int]);
                        assert(is_rep(e, d, i as int));
                        lemma_alias_count_bound(e, d, x0, n as int);
                        assert(objs@[idx as int] == group_record(e, d, l, x0));
                        assert forall|q2: int| 0 <= q2 < ng && q2 != q && (#[trigger] g.reps@[q2]) < i + 1 implies g.reps@[q2] < i by {
                            if g.reps@[q2] == i {
                                if q2 < q {
                                    assert(d[g.reps@[q2] as int] != d[g.reps@[q as int] as int]);
                                } else {
                                    assert(d[g.reps@[q as int] as int] != d[g.reps@[q2] as int]);
                                }
                            }
                        }
                        assert forall|a: int| 0 <= a < i && grouped(e, d, a) implies g.group_of@[a]->0 != q by {
                            if g.group_of@[a]->0 == q {
                                assert(member(e, d, x0, a));
                            }
                        }
                    }
                } else {
                    proof {
                        let x0 = d[i as int]->0;
                        let r0 = g.reps@[q as int] as int;
                        assert(d[r0] == d[i as int]);
                        assert(is_rep(e, d, r0));
                        assert(member(e, d, x0, i as int));
                        assert(r0 < i);
                        assert(member(e, d, x0, r0));
                        assert(!is_rep(e, d, i as int));
                    }
                    let idx: u32 = group_obj[q];
                    oi.push(idx);
                    proof {
                        assert forall|a: int, b: int|
                            0 <= a < i + 1 && 0 <= b < i + 1 && a != b && own_object(e, d, l, a) && has_object(e, d, l, b) implies #[trigger] oi@[a] != #[trigger] oi@[b] by {
                            let r0 = g.reps@[q as int] as int;
                            if b == i {
                                assert(oi0[a] != oi0[r0]);
                            } else if a == i {
                            } else {
                                assert(oi0[a] != oi0[b]);
                            }
                        }
                    }
                }
                proof {
                    assert(d[g.reps@[q as int] as int] == d[i as int]);
                    assert(g.alloc_states@[q as int].2 == alloc_conflict(e, d, d[i as int]->0));
                }
                if g.alloc_states[q].2 {
                    any_conflict = true;
                }
            },
            None => {
                if kind == EntryKind::Directory && ident.is_some() {
                    let x: ObjectIdentity = match ident {
                        Some(x) => x,
                        None => {
                            proof { assert(false); }
                            return ObjectLayer { objects: objs, object_index: oi, indeterminate, any_conflict };
                        }
                    };
                    let idx: u32 = objs.len() as u32;
                    objs.push(ObjectRecord {
                        identity: Some(x),
                        observed_alias_count: 1,
                        total_link_count: ValueKnowledge::NotApplicable,
                        external_reference_status: ExternalReferenceStatus::NotApplicable,
                        weight: 0,
                    });
                    oi.push(idx);
                } else if kind == EntryKind::File {
                    let status = ExternalReferenceStatus::derive(link, 1);
                    if status == ExternalReferenceStatus::Indeterminate {
                        indeterminate = indeterminate + 1;
                    }
                    let observed: bool = match link {
                        ValueKnowledge::NotObserved => false,
                        _ => true,
                    };
                    if observed {
                        let idx: u32 = objs.len() as u32;
                        let weight: u64 = match es[i].allocated_size {
                            Some(a) => a,
                            None => 0,
                        };
                        objs.push(ObjectRecord {
                            identity: None,
                            observed_alias_count: 1,
                            total_link_count: link,
                            external_reference_status: status,
                            weight,
                        });
                        oi.push(idx);
                    } else {
                        oi.push(crate::graph::NO_OBJECT);
                    }
                } else {
                    oi.push(crate::graph::NO_OBJECT);
                }
            },
        }
        proof {
            assert(objs@.len() == objs0.len() || (objs@.len() == objs0.len() + 1 && oi@[i as int] == objs0.len()));
            assert(oi@.subrange(0, i as int) =~= oi0);
            if objs@.len() > objs0.len() {
                owner = owner.push(i as int);
            }
            assert forall|o: int| 0 <= o < objs@.len() implies 0 <= #[trigger] owner[o] < i + 1 && oi@[owner[o]] == o by {
                if o < objs0.len() {
                    assert(oi@[owner[o]] == oi0[owner[o]]);
                }
            }
        }
        i += 1;
    }
    proof {
        assert forall|o: int| 0 <= o < objs@.len() implies #[trigger] index_used(oi@, o) by {
            assert(oi@[owner[o]] == o);
        }
        assert forall|a: int, b: int|
            0 <= a < n && 0 <= b < n && a != b && has_object(e, d, l, a) && has_object(e, d, l, b) implies ((#[trigger] oi@[a] == #[trigger] oi@[b]) <==> (grouped(e, d, a) && grouped(e, d, b) && d[a] == d[b])) by {
            if grouped(e, d, a) && grouped(e, d, b) {
                let qa = g.group_of@[a]->0 as int;
                let qb = g.group_of@[b]->0 as int;
                assert(oi@[a] == group_obj@[qa]);
                assert(oi@[b] == group_obj@[qb]);
                assert(g.reps@[qa] < n);
                assert(g.reps@[qb] < n);
                if d[a] == d[b] {
                    if qa < qb {
                        assert(d[g.reps@[qa] as int] != d[g.reps@[qb] as int]);
                    } else if qb < qa {
                        assert(d[g.reps@[qb] as int] != d[g.reps@[qa] as int]);
                    }
                } else {
                    assert(qa != qb);
                }
            } else if own_object(e, d, l, a) {
                assert(oi@[a] != oi@[b]);
            } else {
                assert(own_object(e, d, l, b));
                assert(oi@[b] != oi@[a]);
            }
        }
    }
    proof {
    }
    ObjectLayer { objects: objs, object_index: oi, indeterminate, any_conflict }
}

} // verus!

verus! {

/// The content streams, in observation order, whose parent entry refers to object `o`.
pub open spec fn object_streams_of(
    streams: Seq<(usize, StreamBreakdown)>,
    oi: Seq<u32>,
    o: int,
    m: int,
) -> Seq<StreamBreakdown>
    decreases m,
{
    if m <= 0 {
        Seq::empty()
    } else if oi[streams[m - 1].0 as int] == o {
        object_streams_of(streams, oi, o, m - 1).push(streams[m - 1].1)
    } else {
        object_streams_of(streams, oi, o, m - 1)
    }
}

/// A field-by-field copy of a stream breakdown.
pub fn copy_breakdown(b: &StreamBreakdown) -> (r: StreamBreakdown)
    ensures
        r == *b,
{
    StreamBreakdown { name: b.name.clone(), logical_bytes: b.logical_bytes, allocated_bytes: b.allocated_bytes }
}

/// Attributes each content stream to the object behind its parent entry;
/// streams whose parent has no object are dropped.
pub fn attribute_streams(
    streams: &Vec<(usize, StreamBreakdown)>,
    oi: &Vec<u32>,
    nobj: usize,
) -> (r: Vec<Vec<StreamBreakdown>>)
    requires
        forall|k: int| 0 <= k < streams@.len() ==> (#[trigger] streams@[k]).0 < oi@.len(),
        nobj < crate::graph::NO_OBJECT,
    ensures
        r@.len() == nobj,
        forall|o: int| 0 <= o < nobj ==> (#[trigger] r@[o])@ == object_streams_of(streams@, oi@, o, streams@.len() as int),
{
    let mut r: Vec<Vec<StreamBreakdown>> = Vec::new();
    let mut k: usize = 0;
    while k < nobj
        invariant
            k <= nobj,
            r@.len() == k,
            forall|o: int| 0 <= o < k ==> (#[trigger] r@[o])@ == Seq::<StreamBreakdown>::empty(),
        decreases nobj - k,
    {
        r.push(Vec::new());
        k += 1;
    }
    let mut s: usize = 0;
    while s < streams.len()
        invariant
            s <= streams@.len(),
            nobj < crate::graph::NO_OBJECT,
            r@.len() == nobj,
            forall|k: int| 0 <= k < streams@.len() ==> (#[trigger] streams@[k]).0 < oi@.len(),
            forall|o: int| 0 <= o < nobj ==> (#[trigger] r@[o])@ == object_streams_of(streams@, oi@, o, s as int),
        decreases streams@.len() - s,
    {
        let ghost r0 = r@;
        let o: u32 = oi[streams[s].0];
        if (o as usize) < nobj {
            let b = copy_breakdown(&streams[s].1);
            r[o as usize].push(b);
            proof {
                assert forall|o2: int| 0 <= o2 < nobj implies (#[trigger] r@[o2])@ == object_streams_of(streams@, oi@, o2, s + 1) by {
                    if o2 != o {
                        assert(r@[o2] == r0[o2]);
                    }
                }
            }
        }
        s += 1;
    }
    r
}

} // verus!
