//! Directory graph data structures and read-only queries.

use crate::model::{
    derive_status, CoverageGapObservation, ExternalReferenceStatus, ObjectIdentity,
    TerminalObservation, ValueKnowledge,
};
use std::collections::HashMap;
use vstd::prelude::*;

verus! {

broadcast use vstd::std_specs::hash::group_hash_axioms;

/// Marker for an entry without a normalized object record.
pub const NO_OBJECT: u32 = 0xFFFF_FFFF;

#[derive(Debug, Clone, Copy, PartialEq, Eq, Structural)]
pub enum EntryKind {
    Directory,
    File,
    Special,
}

impl EntryKind {
    pub fn is_directory(&self) -> (r: bool)
        ensures
            r == (*self is Directory),
    {
        match self {
            EntryKind::Directory => true,
            _ => false,
        }
    }

    pub fn is_file(&self) -> (r: bool)
        ensures
            r == (*self is File),
    {
        match self {
            EntryKind::File => true,
            _ => false,
        }
    }

    pub fn is_special(&self) -> (r: bool)
        ensures
            r == (*self is Special),
    {
        match self {
            EntryKind::Special => true,
            _ => false,
        }
    }
}

/// Normalized identity, link evidence, and canonical weight of a distinct filesystem object.
#[derive(Debug, Clone, Copy, PartialEq, Eq)]
pub struct ObjectRecord {
    pub identity: Option<ObjectIdentity>,
    pub observed_alias_count: u32,
    pub total_link_count: ValueKnowledge,
    pub external_reference_status: ExternalReferenceStatus,
    pub weight: u64,
}

/// Size breakdown of one observed secondary content stream of an object.
#[derive(Debug, Clone, PartialEq, Eq)]
pub struct StreamBreakdown {
    pub name: String,
    pub logical_bytes: u64,
    pub allocated_bytes: Option<u64>,
}

/// Summary of one distinct object with alias or external-reference evidence,
/// with the display paths of the entries that refer to it.
#[derive(Debug, Clone, PartialEq, Eq)]
pub struct HardLinkSummary {
    pub identity: ObjectIdentity,
    pub observed_alias_count: u32,
    pub total_link_count: ValueKnowledge,
    pub external_reference_status: ExternalReferenceStatus,
    pub entry_paths: Vec<String>,
}

/// Compact representation of an entry in the directory graph.
#[derive(Debug, Clone, PartialEq, Eq)]
pub struct CompactEntry {
    pub id: u32,
    pub parent_id: u32,
    pub name: String,
    pub kind: EntryKind,
    pub allocated_size_known: bool,
    pub logical_size: Option<u64>,
    pub allocated_size: Option<u64>,
    pub referenced_allocated_bytes: u64,
    pub unique_allocated_bytes: u64,
    pub known_subtotal_allocated_bytes: u64,
    pub object_index: u32,
    pub file_attributes: u32,
    pub reparse_tag: u32,
    pub child_start: u32,
    pub child_count: u32,
    pub creation_time_utc_ms: u64,
    pub last_write_time_utc_ms: u64,
    pub last_access_time_utc_ms: u64,
}

/// Storage backend for graph entries: a dense vector for sequential IDs with a sparse fallback.
#[derive(Debug, Clone, PartialEq, Eq)]
pub enum EntryStorage {
    Dense(Vec<CompactEntry>),
    Sparse { entries: Vec<CompactEntry>, id_to_idx: HashMap<u32, u32> },
}

/// The entries of a storage in index order.
pub open spec fn storage_entries(s: &EntryStorage) -> Seq<CompactEntry> {
    match s {
        EntryStorage::Dense(v) => v@,
        EntryStorage::Sparse { entries, .. } => entries@,
    }
}

/// The entry that `get(id)` finds: dense storage holds id `k` at index `k - 1`;
/// sparse storage follows its id-to-index map.
pub open spec fn storage_lookup(s: &EntryStorage, id: u32) -> Option<CompactEntry> {
    if id == 0 {
        None
    } else {
        match s {
            EntryStorage::Dense(v) => if id as int - 1 < v@.len() {
                Some(v@[id as int - 1])
            } else {
                None
            },
            EntryStorage::Sparse { entries, id_to_idx } => if id_to_idx@.contains_key(id)
                && (id_to_idx@[id] as int) < entries@.len() {
                Some(entries@[id_to_idx@[id] as int])
            } else {
                None
            },
        }
    }
}

/// The index at which `get(id)` finds its entry.
pub open spec fn storage_index(s: &EntryStorage, id: u32) -> int {
    match s {
        EntryStorage::Dense(_) => id as int - 1,
        EntryStorage::Sparse { id_to_idx, .. } => id_to_idx@[id] as int,
    }
}

/// Every entry is found under its own id, and at most one index holds each id.
pub open spec fn storage_consistent(s: &EntryStorage) -> bool {
    let es = storage_entries(s);
    &&& es.len() <= 0xFFFF_FFFF
    &&& forall|i: int, j: int| 0 <= i < j < es.len() ==> (#[trigger] es[i]).id != (#[trigger] es[j]).id
    &&& match s {
        EntryStorage::Dense(v) => forall|i: int| 0 <= i < v@.len() ==> (#[trigger] v@[i]).id == i + 1,
        EntryStorage::Sparse { entries, id_to_idx } => {
            &&& forall|i: int| 0 <= i < entries@.len() ==> #[trigger] id_to_idx@.contains_key(
                entries@[i].id,
            ) && id_to_idx@[entries@[i].id] == i
            &&& forall|id: u32| #[trigger] id_to_idx@.contains_key(id) ==> (id_to_idx@[id] as int)
                < entries@.len() && entries@[id_to_idx@[id] as int].id == id
        },
    }
}

/// In a consistent storage, a nonzero id is found exactly when some entry carries it.
pub proof fn lemma_storage_lookup(s: &EntryStorage, id: u32)
    requires
        storage_consistent(s),
    ensures
        storage_lookup(s, id) is Some <==> id != 0 && exists|i: int|
            0 <= i < storage_entries(s).len() && (#[trigger] storage_entries(s)[i]).id == id,
        storage_lookup(s, id) is Some ==> {
            let i = storage_index(s, id);
            &&& 0 <= i < storage_entries(s).len()
            &&& storage_entries(s)[i].id == id
            &&& storage_lookup(s, id) == Some(storage_entries(s)[i])
        },
{
    let es = storage_entries(s);
    match s {
        EntryStorage::Dense(v) => {
            assert(es == v@);
            if exists|i: int| 0 <= i < es.len() && (#[trigger] es[i]).id == id {
                let i = choose|i: int| 0 <= i < es.len() && (#[trigger] es[i]).id == id;
                assert(v@[i].id == i + 1);
                assert(storage_lookup(s, id) is Some);
            }
            if storage_lookup(s, id) is Some {
                assert(v@[id as int - 1].id == id as int - 1 + 1);
                assert(es[id as int - 1].id == id);
            }
        },
        EntryStorage::Sparse { entries, id_to_idx } => {
            if exists|i: int| 0 <= i < es.len() && (#[trigger] es[i]).id == id {
                let i = choose|i: int| 0 <= i < es.len() && (#[trigger] es[i]).id == id;
                assert(id_to_idx@.contains_key(entries@[i].id));
            }
            if storage_lookup(s, id) is Some {
                let k = id_to_idx@[id] as int;
                assert(es[k].id == id);
            }
        },
    }
}

impl EntryStorage {
    pub fn len(&self) -> (r: usize)
        ensures
            r == storage_entries(self).len(),
    {
        match self {
            EntryStorage::Dense(v) => v.len(),
            EntryStorage::Sparse { entries, .. } => entries.len(),
        }
    }

    pub fn is_empty(&self) -> (r: bool)
        ensures
            r == (storage_entries(self).len() == 0),
    {
        self.len() == 0
    }

    /// Finds the entry with the given id.
    pub fn get(&self, id: u32) -> (r: Option<&CompactEntry>)
        ensures
            r is Some == storage_lookup(self, id) is Some,
            r is Some ==> *r->0 == storage_lookup(self, id)->0,
    {
        if id == 0 {
            return None;
        }
        match self {
            EntryStorage::Dense(v) => {
                let idx: usize = (id - 1) as usize;
                if idx < v.len() {
                    Some(&v[idx])
                } else {
                    None
                }
            },
            EntryStorage::Sparse { entries, id_to_idx } => {
                match id_to_idx.get(&id) {
                    Some(idx_ref) => {
                        let idx: usize = *idx_ref as usize;
                        if idx < entries.len() {
                            Some(&entries[idx])
                        } else {
                            None
                        }
                    },
                    None => None,
                }
            },
        }
    }

    /// The storage index under which an id is found.
    pub(crate) fn find_index(&self, id: u32) -> (r: Option<usize>)
        requires
            storage_consistent(self),
        ensures
            r is Some == storage_lookup(self, id) is Some,
            r matches Some(i) ==> i == storage_index(self, id) && i < storage_entries(self).len(),
    {
        if id == 0 {
            return None;
        }
        match self {
            EntryStorage::Dense(v) => {
                let idx: usize = (id - 1) as usize;
                if idx < v.len() {
                    Some(idx)
                } else {
                    None
                }
            },
            EntryStorage::Sparse { entries, id_to_idx } => {
                match id_to_idx.get(&id) {
                    Some(idx_ref) => {
                        let idx: usize = *idx_ref as usize;
                        if idx < entries.len() {
                            Some(idx)
                        } else {
                            None
                        }
                    },
                    None => None,
                }
            },
        }
    }

    /// The entry at a storage index.
    pub fn get_by_index(&self, idx: usize) -> (r: Option<&CompactEntry>)
        ensures
            r is Some == (idx < storage_entries(self).len()),
            r is Some ==> *r->0 == storage_entries(self)[idx as int],
    {
        match self {
            EntryStorage::Dense(v) => if idx < v.len() {
                Some(&v[idx])
            } else {
                None
            },
            EntryStorage::Sparse { entries, .. } => if idx < entries.len() {
                Some(&entries[idx])
            } else {
                None
            },
        }
    }
}

/// A projected public entry of the directory graph.
#[derive(Debug, Clone, PartialEq, Eq)]
pub struct GraphEntry {
    pub id: u32,
    pub parent_id: u32,
    pub name: String,
    pub kind: EntryKind,
    pub logical_size: Option<u64>,
    pub allocated_size: Option<u64>,
    pub allocated_size_known: bool,
    pub referenced_allocated_bytes: u64,
    pub unique_allocated_bytes: u64,
    pub known_subtotal_allocated_bytes: u64,
    pub object_id: Option<ObjectIdentity>,
    pub observed_alias_count: u32,
    pub total_link_count: ValueKnowledge,
    pub external_reference_status: ExternalReferenceStatus,
    pub file_attributes: u32,
    pub reparse_tag: u32,
    pub creation_time_utc_ms: u64,
    pub last_write_time_utc_ms: u64,
    pub last_access_time_utc_ms: u64,
    pub children: Vec<u32>,
}

#[derive(Debug, Clone, PartialEq, Eq)]
pub enum GraphQueryError {
    ParentNotFound(u32),
    ParentNotDirectory(u32),
}


/// The logical content of a directory graph.
pub struct GraphView {
    pub root_target: Seq<char>,
    pub root_id: u32,
    pub storage: EntryStorage,
    pub all_children: Seq<u32>,
    pub objects: Seq<ObjectRecord>,
    pub object_streams: Seq<Seq<StreamBreakdown>>,
    pub gaps: Seq<CoverageGapObservation>,
    pub terminal: TerminalObservation,
    pub allocated_bytes_known: bool,
    pub indeterminate: u64,
}

/// The graph's entries in storage order.
pub open spec fn graph_entries(v: GraphView) -> Seq<CompactEntry> {
    storage_entries(&v.storage)
}

/// The structural invariant of a directory graph: consistent storage, the
/// root first, every other entry after a parent found under its parent id,
/// and object indices and child ranges in bounds.
pub open spec fn graph_wf(v: GraphView) -> bool {
    let es = graph_entries(v);
    let n = es.len();
    &&& storage_consistent(&v.storage)
    &&& v.root_id == if n > 0 {
        1u32
    } else {
        0u32
    }
    &&& n > 0 ==> es[0].id == 1 && es[0].parent_id == 0 && es[0].kind == EntryKind::Directory
    &&& forall|i: int|
        0 < i < n ==> {
            &&& (#[trigger] es[i]).parent_id != 0
            &&& storage_lookup(&v.storage, es[i].parent_id) is Some
            &&& storage_index(&v.storage, es[i].parent_id) < i
        }
    &&& v.objects.len() == v.object_streams.len()
    &&& v.objects.len() < NO_OBJECT
    &&& forall|i: int|
        0 <= i < n ==> (#[trigger] es[i]).object_index == NO_OBJECT || es[i].object_index
            < v.objects.len()
    &&& forall|i: int|
        0 <= i < n ==> (#[trigger] es[i]).child_start + es[i].child_count <= v.all_children.len()
    &&& forall|k: int| 0 <= k < v.all_children.len() ==> #[trigger] is_entry_id(v, v.all_children[k])
}

/// Some entry of the graph carries this id.
pub open spec fn is_entry_id(v: GraphView, id: u32) -> bool {
    exists|i: int| 0 <= i < graph_entries(v).len() && (#[trigger] graph_entries(v)[i]).id == id
}

/// The ids of `s` other than 0, in order.
pub open spec fn nonzero_ids(s: Seq<u32>) -> Seq<u32> {
    s.filter(|id: u32| id != 0)
}

proof fn lemma_nonzero_push(s: Seq<u32>, id: u32)
    ensures
        nonzero_ids(s.push(id)) == if id != 0 {
            nonzero_ids(s).push(id)
        } else {
            nonzero_ids(s)
        },
{
    let t = s.push(id);
    assert(t.drop_last() =~= s);
    assert(t.last() == id);
    reveal_with_fuel(Seq::filter, 2);
}

/// Every id a listing names is an entry's id.
pub proof fn lemma_listing_entry_ids(v: GraphView, parent_id: u32)
    requires
        graph_wf(v),
        listing(v, parent_id) is Ok,
    ensures
        forall|j: int|
            0 <= j < listing(v, parent_id)->Ok_0.len() ==> #[trigger] is_entry_id(
                v,
                listing(v, parent_id)->Ok_0[j],
            ),
{
    let ids = listing(v, parent_id)->Ok_0;
    assert forall|j: int| 0 <= j < ids.len() implies #[trigger] is_entry_id(v, ids[j]) by {
        if parent_id == 0 {
            lemma_storage_lookup(&v.storage, v.root_id);
            let i = storage_index(&v.storage, v.root_id);
            assert(graph_entries(v)[i].id == ids[j]);
        } else {
            lemma_storage_lookup(&v.storage, parent_id);
            let i = storage_index(&v.storage, parent_id);
            let pe = graph_entries(v)[i];
            assert(pe.child_start + pe.child_count <= v.all_children.len());
            assert(ids[j] == v.all_children[pe.child_start + j]);
        }
    }
}

/// Of ids that are all 0 or entry ids, the ones the graph can look up are
/// exactly the nonzero ones.
proof fn lemma_resolvable_nonzero(v: GraphView, s: Seq<u32>)
    requires
        storage_consistent(&v.storage),
        forall|k: int| 0 <= k < s.len() ==> s[k] == 0 || #[trigger] is_entry_id(v, s[k]),
    ensures
        resolvable(v, s) == nonzero_ids(s),
    decreases s.len(),
{
    if s.len() > 0 {
        let t = s.drop_last();
        assert forall|k: int| 0 <= k < t.len() implies t[k] == 0 || #[trigger] is_entry_id(v, t[k]) by {
            assert(t[k] == s[k]);
        }
        lemma_resolvable_nonzero(v, t);
        assert(s =~= t.push(s.last()));
        assert(s[s.len() - 1] == 0 || is_entry_id(v, s[s.len() - 1]));
        lemma_resolvable_push(v, t, s.last());
        lemma_nonzero_push(t, s.last());
        lemma_storage_lookup(&v.storage, s.last());
        assert(s.last() == s[s.len() - 1]);
    } else {
        assert(resolvable(v, s) =~= Seq::<u32>::empty()) by {
            reveal_with_fuel(Seq::filter, 1);
        }
        assert(nonzero_ids(s) =~= Seq::<u32>::empty()) by {
            reveal_with_fuel(Seq::filter, 1);
        }
    }
}

/// The object-derived fields of an entry: its object's, or the defaults of
/// its kind when it has none.
pub open spec fn object_fields(v: GraphView, c: CompactEntry) -> (
    Option<ObjectIdentity>,
    u32,
    ValueKnowledge,
    ExternalReferenceStatus,
) {
    if c.object_index != NO_OBJECT {
        let o = v.objects[c.object_index as int];
        (o.identity, o.observed_alias_count, o.total_link_count, o.external_reference_status)
    } else {
        match c.kind {
            EntryKind::File => (
                None,
                1,
                ValueKnowledge::NotObserved,
                derive_status(ValueKnowledge::NotObserved, 1),
            ),
            _ => (None, 1, ValueKnowledge::NotApplicable, ExternalReferenceStatus::NotApplicable),
        }
    }
}

/// The ids that a child range selects from a child list.
pub open spec fn listed_ids(all_children: Seq<u32>, c: CompactEntry) -> Seq<u32> {
    if c.child_count == 0 {
        Seq::empty()
    } else {
        all_children.subrange(c.child_start as int, c.child_start + c.child_count)
    }
}

/// The ids listed as children of an entry.
pub open spec fn child_ids_of(v: GraphView, c: CompactEntry) -> Seq<u32> {
    listed_ids(v.all_children, c)
}

/// `r` is the public projection of the compact entry `c`.
pub open spec fn projects(v: GraphView, c: CompactEntry, r: GraphEntry) -> bool {
    let f = object_fields(v, c);
    &&& r.id == c.id
    &&& r.parent_id == c.parent_id
    &&& r.name == c.name
    &&& r.kind == c.kind
    &&& r.logical_size == c.logical_size
    &&& r.allocated_size == c.allocated_size
    &&& r.allocated_size_known == c.allocated_size_known
    &&& r.referenced_allocated_bytes == c.referenced_allocated_bytes
    &&& r.unique_allocated_bytes == c.unique_allocated_bytes
    &&& r.known_subtotal_allocated_bytes == c.known_subtotal_allocated_bytes
    &&& r.object_id == f.0
    &&& r.observed_alias_count == f.1
    &&& r.total_link_count == f.2
    &&& r.external_reference_status == f.3
    &&& r.file_attributes == c.file_attributes
    &&& r.reparse_tag == c.reparse_tag
    &&& r.creation_time_utc_ms == c.creation_time_utc_ms
    &&& r.last_write_time_utc_ms == c.last_write_time_utc_ms
    &&& r.last_access_time_utc_ms == c.last_access_time_utc_ms
    &&& r.children@ == child_ids_of(v, c)
}

/// The storage index of an entry's parent, when it lies before the entry.
pub open spec fn parent_index(v: GraphView, i: int) -> Option<int> {
    let es = graph_entries(v);
    let pid = es[i].parent_id;
    let j = storage_index(&v.storage, pid);
    if pid != 0 && storage_lookup(&v.storage, pid) is Some && 0 <= j < i {
        Some(j)
    } else {
        None
    }
}

/// The indices from an entry up to the top of its tree, the entry first.
pub open spec fn up_chain(v: GraphView, i: int) -> Seq<int>
    decreases i,
{
    match parent_index(v, i) {
        Some(j) => if 0 <= j < i {
            seq![i] + up_chain(v, j)
        } else {
            seq![i]
        },
        None => seq![i],
    }
}

/// The names along `u[0..t]`, from `u[t-1]` down to `u[0]`, each followed by a separator.
pub open spec fn path_suffix(v: GraphView, u: Seq<int>, t: int) -> Seq<char>
    decreases t,
{
    if t <= 0 {
        Seq::empty()
    } else {
        graph_entries(v)[u[t - 1]].name@ + seq!['\\'] + path_suffix(v, u, t - 1)
    }
}

/// The top name with a trailing separator.
pub open spec fn path_head(name: Seq<char>) -> Seq<char> {
    if name.len() > 0 && name.last() == '\\' {
        name
    } else {
        name.push('\\')
    }
}

/// The display path of an entry: the root target's name, then the names of
/// the entries below it, separated by backslashes.
pub open spec fn display_path_of(v: GraphView, i: int) -> Seq<char> {
    let u = up_chain(v, i);
    (path_head(graph_entries(v)[u.last()].name@) + path_suffix(v, u, u.len() - 1)).drop_last()
}

/// An object worth reporting: two or more observed aliases, or a definite
/// statement about links outside the target.
pub open spec fn reportable(o: ObjectRecord) -> bool {
    ||| o.observed_alias_count >= 2
    ||| o.external_reference_status == ExternalReferenceStatus::ConfirmedExternal
    ||| o.external_reference_status == ExternalReferenceStatus::InconsistentEvidence
}

/// Entry `i` refers to a reportable object and can be looked up by its id.
pub open spec fn reported_entry(v: GraphView, i: int) -> bool {
    let e = graph_entries(v)[i];
    &&& e.object_index != NO_OBJECT
    &&& reportable(v.objects[e.object_index as int])
    &&& storage_lookup(&v.storage, e.id) is Some
}

/// The reportable objects in order of their first reported entry among the first `m`.
pub open spec fn first_seen(v: GraphView, m: int) -> Seq<u32>
    decreases m,
{
    if m <= 0 {
        Seq::empty()
    } else {
        let s = first_seen(v, m - 1);
        let o = graph_entries(v)[m - 1].object_index;
        if reported_entry(v, m - 1) && !s.contains(o) {
            s.push(o)
        } else {
            s
        }
    }
}

/// The display paths, in entry order, of the reported entries among the first `m` that refer to `o`.
pub open spec fn paths_of(v: GraphView, o: u32, m: int) -> Seq<Seq<char>>
    decreases m,
{
    if m <= 0 {
        Seq::empty()
    } else {
        let p = paths_of(v, o, m - 1);
        if reported_entry(v, m - 1) && graph_entries(v)[m - 1].object_index == o {
            p.push(display_path_of(v, m - 1))
        } else {
            p
        }
    }
}

/// The objects of `s` that carry an identity, in order.
pub open spec fn with_identity(v: GraphView, s: Seq<u32>) -> Seq<u32> {
    s.filter(|o: u32| v.objects[o as int].identity is Some)
}

proof fn lemma_with_identity_push(v: GraphView, s: Seq<u32>, o: u32)
    ensures
        with_identity(v, s.push(o)) == if v.objects[o as int].identity is Some {
            with_identity(v, s).push(o)
        } else {
            with_identity(v, s)
        },
{
    let t = s.push(o);
    assert(t.drop_last() =~= s);
    assert(t.last() == o);
    reveal_with_fuel(Seq::filter, 2);
}

proof fn lemma_first_seen_unique(v: GraphView, m: int)
    ensures
        first_seen(v, m).no_duplicates(),
    decreases m,
{
    if m > 0 {
        lemma_first_seen_unique(v, m - 1);
    }
}

/// The reported objects that carry an identity, in order of first report.
pub open spec fn reported_objects(v: GraphView) -> Seq<u32> {
    with_identity(v, first_seen(v, graph_entries(v).len() as int))
}

/// `r` summarizes object `o` with its entry paths.
pub open spec fn summarizes(v: GraphView, o: u32, r: HardLinkSummary) -> bool {
    let obj = v.objects[o as int];
    &&& obj.identity == Some(r.identity)
    &&& r.observed_alias_count == obj.observed_alias_count
    &&& r.total_link_count == obj.total_link_count
    &&& r.external_reference_status == obj.external_reference_status
    &&& r.entry_paths@.map_values(|p: String| p@) == paths_of(v, o, graph_entries(v).len() as int)
}

/// One secondary content stream of a listed entry.
#[derive(Debug, Clone, PartialEq, Eq)]
pub struct ContentStreamNode {
    pub name: String,
    pub logical_bytes: u64,
    pub allocated_bytes: u64,
    pub allocated_size_known: bool,
}

/// One entry of a page of children.
#[derive(Debug, Clone, PartialEq, Eq)]
pub struct DirectoryEntryNode {
    pub id: u32,
    pub parent_id: u32,
    pub name: String,
    /// 1 for a directory, 2 for a file, 3 for a special object.
    pub entry_kind: i32,
    pub logical_bytes: u64,
    pub referenced_allocated_bytes: u64,
    pub allocated_size_known: bool,
    pub child_count: u32,
    pub has_children: bool,
    pub unique_allocated_bytes: u64,
    pub observed_alias_count: u32,
    pub total_link_count: Option<ValueKnowledge>,
    pub external_reference_status: ExternalReferenceStatus,
    pub known_subtotal_allocated_bytes: u64,
    pub content_streams: Vec<ContentStreamNode>,
}

/// The wire number of an entry kind.
pub open spec fn kind_number(k: EntryKind) -> i32 {
    match k {
        EntryKind::Directory => 1,
        EntryKind::File => 2,
        EntryKind::Special => 3,
    }
}

/// The listed form of a content stream.
pub open spec fn stream_node_ok(b: StreamBreakdown, r: ContentStreamNode) -> bool {
    &&& r.name == b.name
    &&& r.logical_bytes == b.logical_bytes
    &&& r.allocated_bytes == match b.allocated_bytes {
        Some(a) => a,
        None => 0,
    }
    &&& r.allocated_size_known == b.allocated_bytes is Some
}

/// The content streams of an entry's object, or none.
pub open spec fn entry_streams(v: GraphView, c: CompactEntry) -> Seq<StreamBreakdown> {
    if c.object_index != NO_OBJECT {
        v.object_streams[c.object_index as int]
    } else {
        Seq::empty()
    }
}

/// `r` is the listed form of the compact entry `c`.
pub open spec fn node_of(v: GraphView, c: CompactEntry, r: DirectoryEntryNode) -> bool {
    let f = object_fields(v, c);
    let streams = entry_streams(v, c);
    &&& r.id == c.id
    &&& r.parent_id == c.parent_id
    &&& r.name == c.name
    &&& r.entry_kind == kind_number(c.kind)
    &&& r.logical_bytes == match c.logical_size {
        Some(x) => x,
        None => 0,
    }
    &&& r.referenced_allocated_bytes == c.referenced_allocated_bytes
    &&& r.allocated_size_known == c.allocated_size_known
    &&& r.child_count == c.child_count
    &&& r.has_children == (c.child_count > 0)
    &&& r.unique_allocated_bytes == c.unique_allocated_bytes
    &&& r.observed_alias_count == f.1
    &&& r.total_link_count == Some(f.2)
    &&& r.external_reference_status == f.3
    &&& r.known_subtotal_allocated_bytes == c.known_subtotal_allocated_bytes
    &&& r.content_streams@.len() == streams.len()
    &&& forall|k: int| 0 <= k < streams.len() ==> stream_node_ok(streams[k], #[trigger] r.content_streams@[k])
}

/// The ids listed under `parent_id` (the root for 0), or the query error.
pub open spec fn listing(v: GraphView, parent_id: u32) -> Result<Seq<u32>, GraphQueryError> {
    if parent_id == 0 {
        if v.root_id != 0 && storage_lookup(&v.storage, v.root_id) is Some {
            Ok(seq![v.root_id])
        } else {
            Ok(Seq::empty())
        }
    } else {
        match storage_lookup(&v.storage, parent_id) {
            None => Err(GraphQueryError::ParentNotFound(parent_id)),
            Some(p) => if p.kind != EntryKind::Directory {
                Err(GraphQueryError::ParentNotDirectory(parent_id))
            } else {
                Ok(child_ids_of(v, p))
            },
        }
    }
}

/// The ids of a page: `limit` ids from `offset` on, clipped to the list.
pub open spec fn page_window(ids: Seq<u32>, offset: int, limit: int) -> Seq<u32> {
    if offset >= ids.len() {
        Seq::empty()
    } else if offset + limit >= ids.len() {
        ids.subrange(offset, ids.len() as int)
    } else {
        ids.subrange(offset, offset + limit)
    }
}

/// The ids of `s` that the graph can look up, in order.
pub open spec fn resolvable(v: GraphView, s: Seq<u32>) -> Seq<u32> {
    s.filter(|id: u32| storage_lookup(&v.storage, id) is Some)
}

proof fn lemma_resolvable_push(v: GraphView, s: Seq<u32>, id: u32)
    ensures
        resolvable(v, s.push(id)) == if storage_lookup(&v.storage, id) is Some {
            resolvable(v, s).push(id)
        } else {
            resolvable(v, s)
        },
{
    let t = s.push(id);
    assert(t.drop_last() =~= s);
    assert(t.last() == id);
    reveal_with_fuel(Seq::filter, 2);
}

/// A settled directory graph with aggregates, objects, and sorted child lists.
#[derive(Debug)]
pub struct DirectoryGraph {
    pub(crate) root_target: String,
    pub(crate) root_id: u32,
    pub(crate) storage: EntryStorage,
    pub(crate) all_children: Vec<u32>,
    pub(crate) objects: Vec<ObjectRecord>,
    pub(crate) object_streams: Vec<Vec<StreamBreakdown>>,
    pub(crate) gaps: Vec<CoverageGapObservation>,
    pub(crate) terminal: TerminalObservation,
    pub(crate) allocated_bytes_known: bool,
    pub(crate) indeterminate_external_reference_objects: u64,
}

impl View for DirectoryGraph {
    type V = GraphView;

    closed spec fn view(&self) -> GraphView {
        GraphView {
            root_target: self.root_target@,
            root_id: self.root_id,
            storage: self.storage,
            all_children: self.all_children@,
            objects: self.objects@,
            object_streams: self.object_streams@.map_values(|s: Vec<StreamBreakdown>| s@),
            gaps: self.gaps@,
            terminal: self.terminal,
            allocated_bytes_known: self.allocated_bytes_known,
            indeterminate: self.indeterminate_external_reference_objects,
        }
    }
}

/// The root's value of a field, or 0 when the graph has no root.
/// The root entry, found under the root id.
pub open spec fn root_entry(v: GraphView) -> Option<CompactEntry> {
    storage_lookup(&v.storage, v.root_id)
}

/// The root's logical size and referenced allocation are the terminal
/// record's total logical and allocated bytes.
pub open spec fn root_totals_agree(v: GraphView) -> bool {
    match root_entry(v) {
        Some(r) => r.referenced_allocated_bytes == v.terminal.total_allocated_bytes
            && r.logical_size == Some(v.terminal.total_logical_bytes),
        None => true,
    }
}

pub open spec fn root_field(v: GraphView, f: spec_fn(CompactEntry) -> u64) -> u64 {
    match storage_lookup(&v.storage, v.root_id) {
        Some(r) => f(r),
        None => 0,
    }
}

impl DirectoryGraph {
    #[verifier::type_invariant]
    closed spec fn well_formed(self) -> bool {
        graph_wf(self@)
    }

    /// Puts a graph together from its parts.
    pub(crate) fn assemble(
        root_target: String,
        root_id: u32,
        storage: EntryStorage,
        all_children: Vec<u32>,
        objects: Vec<ObjectRecord>,
        object_streams: Vec<Vec<StreamBreakdown>>,
        gaps: Vec<CoverageGapObservation>,
        terminal: TerminalObservation,
        allocated_bytes_known: bool,
        indeterminate: u64,
    ) -> (r: DirectoryGraph)
        requires
            graph_wf(
                GraphView {
                    root_target: root_target@,
                    root_id,
                    storage,
                    all_children: all_children@,
                    objects: objects@,
                    object_streams: object_streams@.map_values(|s: Vec<StreamBreakdown>| s@),
                    gaps: gaps@,
                    terminal,
                    allocated_bytes_known,
                    indeterminate,
                },
            ),
        ensures
            r@ == (GraphView {
                root_target: root_target@,
                root_id,
                storage,
                all_children: all_children@,
                objects: objects@,
                object_streams: object_streams@.map_values(|s: Vec<StreamBreakdown>| s@),
                gaps: gaps@,
                terminal,
                allocated_bytes_known,
                indeterminate,
            }),
    {
        DirectoryGraph {
            root_target,
            root_id,
            storage,
            all_children,
            objects,
            object_streams,
            gaps,
            terminal,
            allocated_bytes_known,
            indeterminate_external_reference_objects: indeterminate,
        }
    }

    pub fn root_target(&self) -> (r: &str)
        ensures
            r@ == self@.root_target,
    {
        self.root_target.as_str()
    }

    pub fn root_id(&self) -> (r: u32)
        ensures
            r == self@.root_id,
    {
        self.root_id
    }

    /// The projected entry with the given id, if any.
    pub fn entry(&self, id: u32) -> (r: Option<GraphEntry>)
        ensures
            r is Some == storage_lookup(&self@.storage, id) is Some,
            r is Some ==> projects(self@, storage_lookup(&self@.storage, id)->0, r->0),
    {
        match self.storage.get(id) {
            Some(compact) => {
                proof {
                    use_type_invariant(self);
                    lemma_storage_lookup(&self.storage, id);
                }
                Some(self.project_graph_entry(compact))
            },
            None => None,
        }
    }

    /// The projected root entry. The graph must have one.
    pub fn root(&self) -> (r: GraphEntry)
        requires
            graph_entries(self@).len() > 0,
        ensures
            storage_lookup(&self@.storage, self@.root_id) is Some,
            projects(self@, storage_lookup(&self@.storage, self@.root_id)->0, r),
    {
        proof {
            use_type_invariant(self);
            lemma_storage_lookup(&self.storage, self.root_id);
            assert(graph_entries(self@)[0].id == self.root_id);
        }
        match self.entry(self.root_id) {
            Some(e) => e,
            None => {
                proof {
                    assert(false);
                }
                self.project_graph_entry(&self.storage.get_by_index(0).unwrap())
            },
        }
    }

    /// The projected root entry, if the graph has one.
    pub fn try_root(&self) -> (r: Option<GraphEntry>)
        ensures
            r is Some == storage_lookup(&self@.storage, self@.root_id) is Some,
            r is Some ==> projects(self@, storage_lookup(&self@.storage, self@.root_id)->0, r->0),
    {
        self.entry(self.root_id)
    }

    /// The content streams of the object behind an entry, in observation order.
    pub fn streams_for_entry(&self, entry_id: u32) -> (r: &[StreamBreakdown])
        ensures
            r@ == match storage_lookup(&self@.storage, entry_id) {
                Some(c) => if c.object_index != NO_OBJECT {
                    self@.object_streams[c.object_index as int]
                } else {
                    Seq::empty()
                },
                None => Seq::empty(),
            },
    {
        proof {
            use_type_invariant(self);
        }
        match self.storage.get(entry_id) {
            Some(compact) => {
                if compact.object_index != NO_OBJECT {
                    proof {
                        lemma_storage_lookup(&self.storage, entry_id);
                    }
                    self.object_streams[compact.object_index as usize].as_slice()
                } else {
                    &[]
                }
            },
            None => &[],
        }
    }

    pub fn gaps(&self) -> (r: &[CoverageGapObservation])
        ensures
            r@ == self@.gaps,
    {
        self.gaps.as_slice()
    }

    pub fn terminal(&self) -> (r: &TerminalObservation)
        ensures
            *r == self@.terminal,
    {
        &self.terminal
    }

    pub fn total_entries(&self) -> (r: usize)
        ensures
            r == graph_entries(self@).len(),
    {
        self.storage.len()
    }

    pub fn allocated_bytes_known(&self) -> (r: bool)
        ensures
            r == self@.allocated_bytes_known,
    {
        self.allocated_bytes_known
    }

    /// The root's referenced allocation, or 0 without a root.
    pub fn referenced_allocated_bytes(&self) -> (r: u64)
        ensures
            r == root_field(self@, |c: CompactEntry| c.referenced_allocated_bytes),
    {
        match self.storage.get(self.root_id) {
            Some(root) => root.referenced_allocated_bytes,
            None => 0,
        }
    }

    /// The root's unique allocation, or 0 without a root.
    pub fn unique_allocated_bytes(&self) -> (r: u64)
        ensures
            r == root_field(self@, |c: CompactEntry| c.unique_allocated_bytes),
    {
        match self.storage.get(self.root_id) {
            Some(root) => root.unique_allocated_bytes,
            None => 0,
        }
    }

    /// The root's known-subtotal allocation, or 0 without a root.
    pub fn known_subtotal_allocated_bytes(&self) -> (r: u64)
        ensures
            r == root_field(self@, |c: CompactEntry| c.known_subtotal_allocated_bytes),
    {
        match self.storage.get(self.root_id) {
            Some(root) => root.known_subtotal_allocated_bytes,
            None => 0,
        }
    }

    /// The root's logical size, or 0 without a root.
    pub fn logical_bytes(&self) -> (r: u64)
        ensures
            r == root_field(
                self@,
                |c: CompactEntry|
                    match c.logical_size {
                        Some(x) => x,
                        None => 0,
                    },
            ),
    {
        match self.storage.get(self.root_id) {
            Some(root) => match root.logical_size {
                Some(x) => x,
                None => 0,
            },
            None => 0,
        }
    }

    /// The number of distinct objects whose external-reference status is indeterminate.
    pub fn indeterminate_external_reference_objects(&self) -> (r: u64)
        ensures
            r == self@.indeterminate,
    {
        self.indeterminate_external_reference_objects
    }

    pub fn storage(&self) -> (r: &EntryStorage)
        ensures
            *r == self@.storage,
    {
        &self.storage
    }

    pub fn objects(&self) -> (r: &[ObjectRecord])
        ensures
            r@ == self@.objects,
    {
        self.objects.as_slice()
    }

    /// The ids listed as children of a compact entry of this graph.
    pub(crate) fn children_of(&self, compact: &CompactEntry) -> (r: Vec<u32>)
        requires
            compact.child_start + compact.child_count <= self@.all_children.len(),
        ensures
            r@ == child_ids_of(self@, *compact),
    {
        let mut r: Vec<u32> = Vec::new();
        if compact.child_count == 0 {
            return r;
        }
        let start: usize = compact.child_start as usize;
        let count: usize = compact.child_count as usize;
        let total: usize = self.all_children.len();
        let mut k: usize = 0;
        while k < count
            invariant
                k <= count,
                start + count <= self.all_children@.len(),
                total == self.all_children@.len(),
                r@ == self.all_children@.subrange(start as int, start + k),
            decreases count - k,
        {
            proof {
                assert(start + k < self.all_children@.len());
            }
            r.push(self.all_children[start + k]);
            proof {
                assert(self.all_children@.subrange(start as int, start + k + 1) =~= self.all_children@.subrange(start as int, start + k).push(self.all_children@[start + k]));
            }
            k += 1;
        }
        r
    }

    /// Summaries of every distinct object with alias or external-reference
    /// evidence, with the display paths of the entries that refer to it, in
    /// order of the first such entry.
    pub fn hard_link_objects(&self) -> (r: Vec<HardLinkSummary>)
        ensures
            r@.len() == reported_objects(self@).len(),
            forall|k: int| 0 <= k < r@.len() ==> summarizes(self@, reported_objects(self@)[k], #[trigger] r@[k]),
    {
        proof {
            use_type_invariant(self);
        }
        let ghost v = self@;
        let n: usize = self.storage.len();
        let nobj: usize = self.objects.len();
        let mut paths: Vec<Vec<String>> = Vec::new();
        let mut seen: Vec<bool> = Vec::new();
        let mut k: usize = 0;
        while k < nobj
            invariant
                k <= nobj,
                paths@.len() == k,
                seen@.len() == k,
                forall|o: int| 0 <= o < k ==> (#[trigger] paths@[o])@ == Seq::<String>::empty(),
                forall|o: int| 0 <= o < k ==> !(#[trigger] seen@[o]),
            decreases nobj - k,
        {
            paths.push(Vec::new());
            seen.push(false);
            k += 1;
        }
        let mut ordered: Vec<u32> = Vec::new();
        let mut i: usize = 0;
        while i < n
            invariant
                v == self@,
                graph_wf(v),
                n == graph_entries(v).len(),
                nobj == v.objects.len(),
                i <= n,
                paths@.len() == nobj,
                seen@.len() == nobj,
                ordered@ == first_seen(v, i as int),
                forall|o: int| 0 <= o < nobj ==> (#[trigger] seen@[o] <==> first_seen(v, i as int).contains(o as u32)),
                forall|x: int| 0 <= x < ordered@.len() ==> (#[trigger] ordered@[x]) < nobj,
                forall|o: int| 0 <= o < nobj ==> (#[trigger] paths@[o])@.map_values(|p: String| p@) == paths_of(v, o as u32, i as int),
            decreases n - i,
        {
            let e = self.storage.get_by_index(i).unwrap();
            let o: u32 = e.object_index;
            let ghost seen0 = seen@;
            let ghost paths0 = paths@;
            let mut reported: bool = false;
            if o != NO_OBJECT {
                let obj = &self.objects[o as usize];
                let is_reportable: bool = obj.observed_alias_count >= 2
                    || obj.external_reference_status == ExternalReferenceStatus::ConfirmedExternal
                    || obj.external_reference_status == ExternalReferenceStatus::InconsistentEvidence;
                if is_reportable {
                    proof {
                        lemma_storage_lookup(&self.storage, e.id);
                        if storage_lookup(&self.storage, e.id) is Some {
                            let j = storage_index(&self.storage, e.id);
                            if j != i {
                                if j < i {
                                    assert(graph_entries(v)[j].id != graph_entries(v)[i as int].id);
                                } else {
                                    assert(graph_entries(v)[i as int].id != graph_entries(v)[j].id);
                                }
                            }
                        }
                    }
                    match self.display_path(e.id) {
                        Some(path) => {
                            reported = true;
                            if !seen[o as usize] {
                                seen.set(o as usize, true);
                                ordered.push(o);
                            }
                            paths[o as usize].push(path);
                        },
                        None => {},
                    }
                }
            }
            proof {
                assert(reported == reported_entry(v, i as int));
                let fs = first_seen(v, i + 1);
                assert forall|o2: int| 0 <= o2 < nobj implies (#[trigger] seen@[o2] <==> fs.contains(o2 as u32)) by {
                    if reported && o2 == o {
                        assert(fs.last() == o2 as u32 || first_seen(v, i as int).contains(o2 as u32));
                        if first_seen(v, i as int).contains(o2 as u32) {
                            let x = choose|x: int| 0 <= x < first_seen(v, i as int).len() && first_seen(v, i as int)[x] == o2 as u32;
                            assert(fs[x] == o2 as u32);
                        }
                    } else {
                        assert(seen@[o2] == seen0[o2]);
                        if fs.contains(o2 as u32) {
                            let x = choose|x: int| 0 <= x < fs.len() && fs[x] == o2 as u32;
                            if x < first_seen(v, i as int).len() {
                                assert(first_seen(v, i as int)[x] == o2 as u32);
                            }
                        }
                        if first_seen(v, i as int).contains(o2 as u32) {
                            let x = choose|x: int| 0 <= x < first_seen(v, i as int).len() && first_seen(v, i as int)[x] == o2 as u32;
                            assert(fs[x] == o2 as u32);
                        }
                    }
                }
                assert forall|o2: int| 0 <= o2 < nobj implies (#[trigger] paths@[o2])@.map_values(|p: String| p@) == paths_of(v, o2 as u32, i + 1) by {
                    if reported && o2 == o {
                        assert(paths@[o2]@.map_values(|p: String| p@) =~= paths0[o2]@.map_values(|p: String| p@).push(display_path_of(v, i as int)));
                    } else {
                        assert(paths@[o2] == paths0[o2]);
                    }
                }
            }
            i += 1;
        }
        let mut r: Vec<HardLinkSummary> = Vec::new();
        proof {
            lemma_first_seen_unique(v, n as int);
            assert(ordered@.subrange(0, 0) =~= Seq::<u32>::empty());
            assert(with_identity(v, Seq::<u32>::empty()) =~= Seq::<u32>::empty());
        }
        let mut x: usize = 0;
        while x < ordered.len()
            invariant
                v == self@,
                graph_wf(v),
                n == graph_entries(v).len(),
                nobj == v.objects.len(),
                x <= ordered@.len(),
                paths@.len() == nobj,
                ordered@ == first_seen(v, n as int),
                ordered@.no_duplicates(),
                forall|y: int| 0 <= y < ordered@.len() ==> (#[trigger] ordered@[y]) < nobj,
                forall|y: int| x <= y < ordered@.len() ==> (#[trigger] paths@[ordered@[y] as int])@.map_values(|p: String| p@) == paths_of(v, ordered@[y], n as int),
                r@.len() == with_identity(v, ordered@.subrange(0, x as int)).len(),
                forall|k: int| 0 <= k < r@.len() ==> summarizes(v, with_identity(v, ordered@.subrange(0, x as int))[k], #[trigger] r@[k]),
            decreases ordered@.len() - x,
        {
            let o: u32 = ordered[x];
            let obj = &self.objects[o as usize];
            let ghost before = ordered@.subrange(0, x as int);
            proof {
                assert(ordered@.subrange(0, x + 1) =~= before.push(o));
                lemma_with_identity_push(v, before, o);
            }
            match obj.identity {
                Some(identity) => {
                    let mut list: Vec<String> = Vec::new();
                    std::mem::swap(&mut list, &mut paths[o as usize]);
                    let ghost paths_mid = paths@;
                    r.push(HardLinkSummary {
                        identity,
                        observed_alias_count: obj.observed_alias_count,
                        total_link_count: obj.total_link_count,
                        external_reference_status: obj.external_reference_status,
                        entry_paths: list,
                    });
                    proof {
                        assert forall|y: int| x + 1 <= y < ordered@.len() implies (#[trigger] paths@[ordered@[y] as int])@.map_values(|p: String| p@) == paths_of(v, ordered@[y], n as int) by {
                            assert(ordered@[y] != ordered@[x as int]);
                        }
                    }
                },
                None => {},
            }
            x += 1;
        }
        proof {
            assert(ordered@.subrange(0, ordered@.len() as int) =~= ordered@);
        }
        r
    }

    /// The listed form of a compact entry of this graph.
    fn entry_node(&self, compact: &CompactEntry) -> (r: DirectoryEntryNode)
        requires
            compact.object_index == NO_OBJECT || compact.object_index < self@.objects.len(),
            self@.objects.len() == self@.object_streams.len(),
        ensures
            node_of(self@, *compact, r),
    {
        let (observed_alias_count, total_link_count, external_reference_status) =
            if compact.object_index != NO_OBJECT {
            let obj = &self.objects[compact.object_index as usize];
            (obj.observed_alias_count, obj.total_link_count, obj.external_reference_status)
        } else {
            match compact.kind {
                EntryKind::File => (1, ValueKnowledge::NotObserved, ExternalReferenceStatus::Indeterminate),
                _ => (1, ValueKnowledge::NotApplicable, ExternalReferenceStatus::NotApplicable),
            }
        };
        let mut content_streams: Vec<ContentStreamNode> = Vec::new();
        if compact.object_index != NO_OBJECT {
            let streams = &self.object_streams[compact.object_index as usize];
            let mut k: usize = 0;
            while k < streams.len()
                invariant
                    k <= streams@.len(),
                    content_streams@.len() == k,
                    forall|j: int| 0 <= j < k ==> stream_node_ok(streams@[j], #[trigger] content_streams@[j]),
                decreases streams@.len() - k,
            {
                let b = &streams[k];
                content_streams.push(ContentStreamNode {
                    name: b.name.clone(),
                    logical_bytes: b.logical_bytes,
                    allocated_bytes: match b.allocated_bytes {
                        Some(a) => a,
                        None => 0,
                    },
                    allocated_size_known: b.allocated_bytes.is_some(),
                });
                k += 1;
            }
        }
        DirectoryEntryNode {
            id: compact.id,
            parent_id: compact.parent_id,
            name: compact.name.clone(),
            entry_kind: match compact.kind {
                EntryKind::Directory => 1,
                EntryKind::File => 2,
                EntryKind::Special => 3,
            },
            logical_bytes: match compact.logical_size {
                Some(x) => x,
                None => 0,
            },
            referenced_allocated_bytes: compact.referenced_allocated_bytes,
            allocated_size_known: compact.allocated_size_known,
            child_count: compact.child_count,
            has_children: compact.child_count > 0,
            unique_allocated_bytes: compact.unique_allocated_bytes,
            observed_alias_count,
            total_link_count: Some(total_link_count),
            external_reference_status,
            known_subtotal_allocated_bytes: compact.known_subtotal_allocated_bytes,
            content_streams,
        }
    }

    /// One page of the children of `parent_id` (of the root entry for 0), in
    /// display order: the total number of children, and the entries of up
    /// to `limit` of them from `offset` on.
    pub fn get_children_page(&self, parent_id: u32, offset: usize, limit: usize) -> (r: Result<
        (usize, Vec<DirectoryEntryNode>),
        GraphQueryError,
    >)
        requires
            offset + limit <= usize::MAX,
        ensures
            match listing(self@, parent_id) {
                Err(e) => r == Err::<(usize, Vec<DirectoryEntryNode>), GraphQueryError>(e),
                Ok(ids) => r is Ok && {
                    let (total, nodes) = r->Ok_0;
                    let shown = resolvable(self@, page_window(ids, offset as int, limit as int));
                    &&& total == ids.len()
                    &&& shown == nonzero_ids(page_window(ids, offset as int, limit as int))
                    &&& nodes@.len() == shown.len()
                    &&& forall|k: int|
                        0 <= k < shown.len() ==> node_of(
                            self@,
                            storage_lookup(&self@.storage, shown[k])->0,
                            #[trigger] nodes@[k],
                        )
                },
            },
    {
        proof {
            use_type_invariant(self);
        }
        let ids: Vec<u32> = if parent_id == 0 {
            let mut ids: Vec<u32> = Vec::new();
            if self.root_id != 0 && self.storage.get(self.root_id).is_some() {
                ids.push(self.root_id);
            }
            proof {
                assert(Ok::<Seq<u32>, GraphQueryError>(ids@) == listing(self@, parent_id));
            }
            ids
        } else {
            match self.storage.get(parent_id) {
                None => {
                    return Err(GraphQueryError::ParentNotFound(parent_id));
                },
                Some(parent) => {
                    if parent.kind != EntryKind::Directory {
                        return Err(GraphQueryError::ParentNotDirectory(parent_id));
                    }
                    proof {
                        lemma_storage_lookup(&self.storage, parent_id);
                    }
                    self.children_of(parent)
                },
            }
        };
        let total: usize = ids.len();
        let mut nodes: Vec<DirectoryEntryNode> = Vec::new();
        let ghost v = self@;
        let ghost window = page_window(ids@, offset as int, limit as int);
        if offset < total {
            let end: usize = if limit >= total - offset {
                total
            } else {
                offset + limit
            };
            proof {
                assert(window =~= ids@.subrange(offset as int, end as int));
            }
            let mut k: usize = offset;
            while k < end
                invariant
                    v == self@,
                    graph_wf(v),
                    offset <= k <= end,
                    end <= ids@.len(),
                    window == ids@.subrange(offset as int, end as int),
                    nodes@.len() == resolvable(v, ids@.subrange(offset as int, k as int)).len(),
                    forall|j: int|
                        0 <= j < nodes@.len() ==> node_of(
                            v,
                            storage_lookup(&v.storage, resolvable(v, ids@.subrange(offset as int, k as int))[j])->0,
                            #[trigger] nodes@[j],
                        ),
                decreases end - k,
            {
                let id: u32 = ids[k];
                proof {
                    assert(ids@.subrange(offset as int, k + 1) =~= ids@.subrange(offset as int, k as int).push(id));
                    lemma_resolvable_push(v, ids@.subrange(offset as int, k as int), id);
                }
                match self.storage.get(id) {
                    Some(compact) => {
                        proof {
                            lemma_storage_lookup(&self.storage, id);
                        }
                        let node = self.entry_node(compact);
                        nodes.push(node);
                    },
                    None => {},
                }
                k += 1;
            }
        } else {
            proof {
                assert(window =~= Seq::<u32>::empty());
                assert(resolvable(v, window) =~= Seq::<u32>::empty());
            }
        }
        proof {
            assert forall|j: int| 0 <= j < ids@.len() implies ids@[j] == 0 || #[trigger] is_entry_id(
                v,
                ids@[j],
            ) by {
                if parent_id == 0 {
                    lemma_storage_lookup(&v.storage, v.root_id);
                    let i = storage_index(&v.storage, v.root_id);
                    assert(graph_entries(v)[i].id == ids@[j]);
                } else {
                    lemma_storage_lookup(&v.storage, parent_id);
                    let i = storage_index(&v.storage, parent_id);
                    let pe = graph_entries(v)[i];
                    assert(pe.child_start + pe.child_count <= v.all_children.len());
                    assert(ids@[j] == v.all_children[pe.child_start + j]);
                }
            }
            assert forall|k: int| 0 <= k < window.len() implies window[k] == 0 || #[trigger] is_entry_id(
                v,
                window[k],
            ) by {
                assert(window[k] == ids@[offset + k]);
            }
            lemma_resolvable_nonzero(v, window);
        }
        Ok((total, nodes))
    }

    /// The display path of the entry with the given id.
    pub(crate) fn display_path(&self, id: u32) -> (r: Option<String>)
        ensures
            r is Some == storage_lookup(&self@.storage, id) is Some,
            r is Some ==> r->0@ == display_path_of(self@, storage_index(&self@.storage, id)),
    {
        proof {
            use_type_invariant(self);
        }
        let start: usize = match self.storage.find_index(id) {
            Some(i) => i,
            None => {
                return None;
            },
        };
        let ghost v = self@;
        let mut up: Vec<usize> = Vec::new();
        up.push(start);
        let mut cur: usize = start;
        loop
            invariant
                graph_wf(v),
                v == self@,
                cur < graph_entries(v).len(),
                up@.len() > 0,
                up@.last() == cur,
                forall|k: int| 0 <= k < up@.len() ==> (#[trigger] up@[k]) < graph_entries(v).len(),
                up_chain(v, start as int) == up@.map_values(|x: usize| x as int).drop_last() + up_chain(v, cur as int),
            ensures
                up@.len() > 0,
                forall|k: int| 0 <= k < up@.len() ==> (#[trigger] up@[k]) < graph_entries(v).len(),
                up@.map_values(|x: usize| x as int) == up_chain(v, start as int),
            decreases cur,
        {
            let e = self.storage.get_by_index(cur).unwrap();
            if e.parent_id == 0 {
                proof {
                    assert(up_chain(v, cur as int) == seq![cur as int]);
                    assert(up@.map_values(|x: usize| x as int) =~= up@.map_values(|x: usize| x as int).drop_last() + seq![cur as int]);
                }
                break;
            }
            let next: usize = match self.storage.find_index(e.parent_id) {
                Some(j) => j,
                None => {
                    proof {
                        assert(false);
                    }
                    return None;
                },
            };
            proof {
                assert(parent_index(v, cur as int) == Some(next as int));
                assert(up_chain(v, cur as int) == seq![cur as int] + up_chain(v, next as int));
            }
            let ghost up0 = up@;
            up.push(next);
            proof {
                assert(up@.map_values(|x: usize| x as int).drop_last() =~= up0.map_values(|x: usize| x as int));
                assert(up0.map_values(|x: usize| x as int) =~= up0.map_values(|x: usize| x as int).drop_last() + seq![cur as int]);
            }
            cur = next;
        }
        let ghost u = up@.map_values(|x: usize| x as int);
        proof {
            assert(u == up_chain(v, start as int));
        }
        let len: usize = up.len();
        let root = self.storage.get_by_index(up[len - 1]).unwrap();
        let mut out: Vec<char> = Vec::new();
        crate::text::append_chars(&mut out, root.name.as_str());
        let ends_with_sep: bool = out.len() > 0 && out[out.len() - 1] == '\\';
        if !ends_with_sep {
            out.push('\\');
        }
        proof {
            assert(out@ == path_head(graph_entries(v)[u.last()].name@));
        }
        let ghost head = out@;
        let mut t: usize = len - 1;
        while t > 0
            invariant
                t < len,
                len == up@.len(),
                u == up@.map_values(|x: usize| x as int),
                forall|k: int| 0 <= k < up@.len() ==> (#[trigger] up@[k]) < graph_entries(v).len(),
                v == self@,
                graph_wf(v),
                out@ + path_suffix(v, u, t as int) == head + path_suffix(v, u, len - 1),
            decreases t,
        {
            let e = self.storage.get_by_index(up[t - 1]).unwrap();
            let ghost out0 = out@;
            crate::text::append_chars(&mut out, e.name.as_str());
            out.push('\\');
            proof {
                assert(u[t - 1] == up@[t - 1] as int);
                assert(path_suffix(v, u, t as int) == graph_entries(v)[u[t - 1]].name@ + seq!['\\'] + path_suffix(v, u, t - 1));
                assert(out@ =~= out0 + graph_entries(v)[u[t - 1]].name@ + seq!['\\']);
                assert(out@ + path_suffix(v, u, t - 1) =~= out0 + path_suffix(v, u, t as int));
            }
            t -= 1;
        }
        proof {
            assert(path_suffix(v, u, 0) == Seq::<char>::empty());
            assert(out@ =~= head + path_suffix(v, u, len - 1));
            assert(out@.len() > 0);
        }
        out.pop();
        Some(crate::text::string_from_chars(out.as_slice()))
    }

    /// The public projection of a compact entry of this graph.
    pub(crate) fn project_graph_entry(&self, compact: &CompactEntry) -> (r: GraphEntry)
        requires
            compact.child_start + compact.child_count <= self@.all_children.len(),
            compact.object_index == NO_OBJECT || compact.object_index < self@.objects.len(),
        ensures
            projects(self@, *compact, r),
    {
        let children = self.children_of(compact);
        let (object_id, observed_alias_count, total_link_count, external_reference_status) =
            if compact.object_index != NO_OBJECT {
            let obj = &self.objects[compact.object_index as usize];
            (obj.identity, obj.observed_alias_count, obj.total_link_count, obj.external_reference_status)
        } else {
            match compact.kind {
                EntryKind::File => (
                    None,
                    1,
                    ValueKnowledge::NotObserved,
                    ExternalReferenceStatus::derive(ValueKnowledge::NotObserved, 1),
                ),
                _ => (None, 1, ValueKnowledge::NotApplicable, ExternalReferenceStatus::NotApplicable),
            }
        };
        GraphEntry {
            id: compact.id,
            parent_id: compact.parent_id,
            name: compact.name.clone(),
            kind: compact.kind,
            logical_size: compact.logical_size,
            allocated_size: compact.allocated_size,
            allocated_size_known: compact.allocated_size_known,
            referenced_allocated_bytes: compact.referenced_allocated_bytes,
            unique_allocated_bytes: compact.unique_allocated_bytes,
            known_subtotal_allocated_bytes: compact.known_subtotal_allocated_bytes,
            object_id,
            observed_alias_count,
            total_link_count,
            external_reference_status,
            file_attributes: compact.file_attributes,
            reparse_tag: compact.reparse_tag,
            creation_time_utc_ms: compact.creation_time_utc_ms,
            last_write_time_utc_ms: compact.last_write_time_utc_ms,
            last_access_time_utc_ms: compact.last_access_time_utc_ms,
            children,
        }
    }
}

} // verus!
