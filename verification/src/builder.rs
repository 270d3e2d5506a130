//! Incremental ingestion of an observation stream into a directory tree,
//! with the structural checks that reject malformed streams.

use crate::aggregate::{
    any_alloc_conflict, attribute_streams, group_files, indeterminate_count, object_streams_of,
    objects_ok, settle_objects,
};
use crate::graph::{
    child_ids_of, graph_entries, graph_wf, lemma_storage_lookup, root_totals_agree,
    storage_entries, storage_index, storage_lookup, CompactEntry, DirectoryGraph, EntryKind, EntryStorage, GraphView,
    StreamBreakdown, NO_OBJECT,
};
use crate::layout::{
    child_seq, ids_at, layout_children, lemma_child_seq, lemma_ids_at_set, place_children, range_start,
};
use crate::model::{
    CoverageGapObservation, DirectoryObservation, FileObservation, ObjectIdentity,
    ObservationRecord, RunOutcome, SpecialObservation, StreamObservation, TerminalObservation,
    ValueKnowledge,
};
use crate::order::{entry_key, key_lt};
use crate::rollup::{logical_vals, referenced_vals, settle_entries, settled_entry};
use crate::tree::{lemma_subtree_sum_root, parents_ok, prefix_sum};
use std::collections::HashMap;
use vstd::prelude::*;
use vstd::set_lib::{lemma_int_range, lemma_len_subset, set_int_range};

verus! {

broadcast use vstd::std_specs::hash::group_hash_axioms;

/// Reasons for rejecting an observation stream.
#[derive(Debug, Clone, PartialEq, Eq)]
pub enum GraphBuildError {
    InvalidRoot { entry_id: u32, parent_id: u32 },
    DuplicateEntryId(u32),
    MissingParent { entry_id: u32, parent_id: u32 },
    ParentNotDirectory { entry_id: u32, parent_id: u32 },
    SelfParent(u32),
    UnknownStreamParent { entry_id: u32 },
    RecordAfterTerminal,
    DuplicateTerminal,
    MissingTerminal,
    AggregateMismatch { field: &'static str, expected: u64, actual: u64 },
}


/// Saturation at `u64::MAX`.
pub open spec fn sat(x: int) -> int {
    if x > 0xFFFF_FFFF_FFFF_FFFF {
        0xFFFF_FFFF_FFFF_FFFF
    } else {
        x
    }
}

/// Some entry carries this id.
pub open spec fn has_id(es: Seq<CompactEntry>, id: u32) -> bool {
    exists|i: int| 0 <= i < es.len() && (#[trigger] es[i]).id == id
}

/// The index of the entry that carries this id.
pub open spec fn index_of_id(es: Seq<CompactEntry>, id: u32) -> int {
    choose|i: int| 0 <= i < es.len() && (#[trigger] es[i]).id == id
}

/// No two entries carry the same id.
pub open spec fn distinct_ids(es: Seq<CompactEntry>) -> bool {
    forall|i: int, j: int| 0 <= i < j < es.len() ==> (#[trigger] es[i]).id != (#[trigger] es[j]).id
}

/// Number of entries of a kind.
pub open spec fn count_kind(es: Seq<CompactEntry>, k: EntryKind) -> int
    decreases es.len(),
{
    if es.len() == 0 {
        0
    } else {
        count_kind(es.drop_last(), k) + if es.last().kind == k {
            1int
        } else {
            0int
        }
    }
}

/// Sum of the logical sizes carried by entries (files carry one).
pub open spec fn sum_logical(es: Seq<CompactEntry>) -> int
    decreases es.len(),
{
    if es.len() == 0 {
        0
    } else {
        sum_logical(es.drop_last()) + match es.last().logical_size {
            Some(x) => x as int,
            None => 0int,
        }
    }
}

/// Sum of the allocation sizes carried by entries (directories' own and files').
pub open spec fn sum_alloc(es: Seq<CompactEntry>) -> int
    decreases es.len(),
{
    if es.len() == 0 {
        0
    } else {
        sum_alloc(es.drop_last()) + match es.last().allocated_size {
            Some(x) => x as int,
            None => 0int,
        }
    }
}

/// Every file carries an allocation size.
pub open spec fn all_files_alloc_known(es: Seq<CompactEntry>) -> bool {
    forall|i: int| 0 <= i < es.len() && (#[trigger] es[i]).kind == EntryKind::File ==> es[i].allocated_size is Some
}

/// The compact entry recorded for a directory observation.
pub open spec fn dir_entry(d: DirectoryObservation) -> CompactEntry {
    let a = match d.allocated_size {
        Some(x) => x,
        None => 0u64,
    };
    CompactEntry {
        id: d.entry_id,
        parent_id: d.parent_id,
        name: d.name,
        kind: EntryKind::Directory,
        allocated_size_known: true,
        logical_size: None,
        allocated_size: d.allocated_size,
        referenced_allocated_bytes: a,
        unique_allocated_bytes: a,
        known_subtotal_allocated_bytes: a,
        object_index: NO_OBJECT,
        file_attributes: d.file_attributes,
        reparse_tag: d.reparse_tag,
        child_start: 0,
        child_count: 0,
        creation_time_utc_ms: d.creation_time_utc_ms,
        last_write_time_utc_ms: d.last_write_time_utc_ms,
        last_access_time_utc_ms: d.last_access_time_utc_ms,
    }
}

/// The compact entry recorded for a file observation.
pub open spec fn file_entry(f: FileObservation) -> CompactEntry {
    let a = match f.allocated_size {
        Some(x) => x,
        None => 0u64,
    };
    CompactEntry {
        id: f.entry_id,
        parent_id: f.parent_id,
        name: f.name,
        kind: EntryKind::File,
        allocated_size_known: f.allocated_size is Some,
        logical_size: Some(f.logical_size),
        allocated_size: f.allocated_size,
        referenced_allocated_bytes: a,
        unique_allocated_bytes: a,
        known_subtotal_allocated_bytes: a,
        object_index: NO_OBJECT,
        file_attributes: f.file_attributes,
        reparse_tag: f.reparse_tag,
        child_start: 0,
        child_count: 0,
        creation_time_utc_ms: f.creation_time_utc_ms,
        last_write_time_utc_ms: f.last_write_time_utc_ms,
        last_access_time_utc_ms: f.last_access_time_utc_ms,
    }
}

/// The compact entry recorded for a special-object observation.
pub open spec fn special_entry(s: SpecialObservation) -> CompactEntry {
    CompactEntry {
        id: s.entry_id,
        parent_id: s.parent_id,
        name: s.name,
        kind: EntryKind::Special,
        allocated_size_known: false,
        logical_size: None,
        allocated_size: None,
        referenced_allocated_bytes: 0,
        unique_allocated_bytes: 0,
        known_subtotal_allocated_bytes: 0,
        object_index: NO_OBJECT,
        file_attributes: s.file_attributes,
        reparse_tag: s.reparse_tag,
        child_start: 0,
        child_count: 0,
        creation_time_utc_ms: s.creation_time_utc_ms,
        last_write_time_utc_ms: s.last_write_time_utc_ms,
        last_access_time_utc_ms: s.last_access_time_utc_ms,
    }
}

/// The logical state of a builder: the accepted entries with the index of
/// each entry's parent, per-entry evidence, and the stream's other records.
pub struct BuilderView {
    pub root_target: Seq<char>,
    pub entries: Seq<CompactEntry>,
    pub parents: Seq<usize>,
    pub self_alloc: Seq<u64>,
    pub identities: Seq<Option<ObjectIdentity>>,
    pub links: Seq<ValueKnowledge>,
    pub dense: bool,
    pub streams: Seq<(usize, StreamBreakdown)>,
    pub gaps: Seq<CoverageGapObservation>,
    pub terminal: Option<TerminalObservation>,
    pub current_dir_id: u32,
}

/// Appends one accepted entry to the view.
pub open spec fn push_entry(
    v: BuilderView,
    e: CompactEntry,
    parent: usize,
    self_alloc: u64,
    identity: Option<ObjectIdentity>,
    link: ValueKnowledge,
) -> BuilderView {
    BuilderView {
        entries: v.entries.push(e),
        parents: v.parents.push(parent),
        self_alloc: v.self_alloc.push(self_alloc),
        identities: v.identities.push(identity),
        links: v.links.push(link),
        ..v
    }
}

/// The outcome of offering one entry: the structural checks in order
/// (self parent, root shape, duplicate id, missing parent, parent kind), the
/// switch from dense to sparse id storage, and the insertion.
pub open spec fn insert_spec(
    v: BuilderView,
    e: CompactEntry,
    self_alloc: u64,
    identity: Option<ObjectIdentity>,
    link: ValueKnowledge,
) -> (BuilderView, Result<(), GraphBuildError>) {
    let id = e.id;
    let pid = e.parent_id;
    let n = v.entries.len();
    if id == pid {
        (v, Err(GraphBuildError::SelfParent(id)))
    } else if n == 0 {
        if id != 1 || pid != 0 || e.kind != EntryKind::Directory {
            (v, Err(GraphBuildError::InvalidRoot { entry_id: id, parent_id: pid }))
        } else {
            (push_entry(v, e, 0, self_alloc, identity, link), Ok(()))
        }
    } else if pid == 0 || id == 1 {
        (v, Err(GraphBuildError::InvalidRoot { entry_id: id, parent_id: pid }))
    } else {
        let dense = v.dense && id == (#[verifier::truncate] ((n + 1) as u32));
        let v2 = BuilderView { dense, ..v };
        let dup = if dense {
            id as int <= (n as u32) as int
        } else {
            has_id(v.entries, id)
        };
        let missing = if dense {
            pid as int > (n as u32) as int
        } else {
            !has_id(v.entries, pid)
        };
        let p = if dense {
            pid as int - 1
        } else {
            index_of_id(v.entries, pid)
        };
        if dup {
            (v2, Err(GraphBuildError::DuplicateEntryId(id)))
        } else if missing {
            (v2, Err(GraphBuildError::MissingParent { entry_id: id, parent_id: pid }))
        } else if v.entries[p].kind != EntryKind::Directory {
            (v2, Err(GraphBuildError::ParentNotDirectory { entry_id: id, parent_id: pid }))
        } else {
            (push_entry(v2, e, p as usize, self_alloc, identity, link), Ok(()))
        }
    }
}

/// The index under which an entry id is found, if any.
pub open spec fn lookup_index(v: BuilderView, id: u32) -> Option<int> {
    if v.dense {
        if id == 0 || id as int > v.entries.len() {
            None
        } else {
            Some(id as int - 1)
        }
    } else if has_id(v.entries, id) {
        Some(index_of_id(v.entries, id))
    } else {
        None
    }
}

/// The terminal record's totals checked against the observed aggregates, in order.
pub open spec fn terminal_check(v: BuilderView, t: TerminalObservation) -> Result<(), GraphBuildError> {
    let dirs = count_kind(v.entries, EntryKind::Directory);
    let files = count_kind(v.entries, EntryKind::File);
    let logical = sat(sum_logical(v.entries));
    let alloc = sat(sum_alloc(v.entries));
    let gaps = v.gaps.len();
    if t.total_directories != dirs {
        Err(
            GraphBuildError::AggregateMismatch {
                field: "total_directories",
                expected: t.total_directories,
                actual: dirs as u64,
            },
        )
    } else if t.total_files != files {
        Err(
            GraphBuildError::AggregateMismatch {
                field: "total_files",
                expected: t.total_files,
                actual: files as u64,
            },
        )
    } else if t.total_logical_bytes != logical {
        Err(
            GraphBuildError::AggregateMismatch {
                field: "total_logical_bytes",
                expected: t.total_logical_bytes,
                actual: logical as u64,
            },
        )
    } else if t.total_allocated_bytes != alloc {
        Err(
            GraphBuildError::AggregateMismatch {
                field: "total_allocated_bytes",
                expected: t.total_allocated_bytes,
                actual: alloc as u64,
            },
        )
    } else if t.coverage_gap_count != (#[verifier::truncate] (gaps as u32)) {
        Err(
            GraphBuildError::AggregateMismatch {
                field: "coverage_gap_count",
                expected: t.coverage_gap_count as u64,
                actual: gaps as u64,
            },
        )
    } else {
        Ok(())
    }
}

/// One ingestion step: the next view and the result for a record.
pub open spec fn ingest_spec(v: BuilderView, rec: ObservationRecord) -> (
    BuilderView,
    Result<(), GraphBuildError>,
) {
    if v.terminal is Some {
        (v, Err(GraphBuildError::RecordAfterTerminal))
    } else {
        match rec {
            ObservationRecord::Directory(d) => {
                let cur = if d.parent_id == 0 {
                    d.entry_id
                } else {
                    d.parent_id
                };
                let a = match d.allocated_size {
                    Some(x) => x,
                    None => 0u64,
                };
                insert_spec(
                    BuilderView { current_dir_id: cur, ..v },
                    dir_entry(d),
                    a,
                    d.object_id,
                    ValueKnowledge::NotObserved,
                )
            },
            ObservationRecord::File(f) => insert_spec(
                BuilderView { current_dir_id: f.parent_id, ..v },
                file_entry(f),
                0,
                f.object_id,
                f.total_link_count,
            ),
            ObservationRecord::Special(s) => insert_spec(
                BuilderView { current_dir_id: s.parent_id, ..v },
                special_entry(s),
                0,
                None,
                ValueKnowledge::NotObserved,
            ),
            ObservationRecord::ContentStream(st) => match lookup_index(v, st.parent_entry_id) {
                Some(i) => (
                    BuilderView {
                        streams: v.streams.push(
                            (
                                i as usize,
                                StreamBreakdown {
                                    name: st.name,
                                    logical_bytes: st.logical_size,
                                    allocated_bytes: st.allocated_size,
                                },
                            ),
                        ),
                        ..v
                    },
                    Ok(()),
                ),
                None => (
                    v,
                    Err(GraphBuildError::UnknownStreamParent { entry_id: st.parent_entry_id }),
                ),
            },
            ObservationRecord::CoverageGap(g) => (BuilderView { gaps: v.gaps.push(g), ..v }, Ok(())),
            ObservationRecord::Terminal(t) => match terminal_check(v, t) {
                Ok(()) => (BuilderView { terminal: Some(t), ..v }, Ok(())),
                Err(e) => (v, Err(e)),
            },
        }
    }
}

/// Two builder views hold the same stream content: they differ at most in
/// how ids are stored (dense or sparse) and in the directory last visited.
pub open spec fn same_content(a: BuilderView, b: BuilderView) -> bool {
    (BuilderView { dense: a.dense, current_dir_id: a.current_dir_id, ..b }) == a
}

/// The view of a builder that has seen no record yet.
pub open spec fn fresh_view(root_target: Seq<char>) -> BuilderView {
    BuilderView {
        root_target,
        entries: Seq::empty(),
        parents: Seq::empty(),
        self_alloc: Seq::empty(),
        identities: Seq::empty(),
        links: Seq::empty(),
        dense: true,
        streams: Seq::empty(),
        gaps: Seq::empty(),
        terminal: None,
        current_dir_id: 0,
    }
}

/// The first `n` records ingested in order, stopping at the first refusal:
/// the view reached and the result of the last step taken.
pub open spec fn ingest_upto(v: BuilderView, recs: Seq<ObservationRecord>, n: nat) -> (
    BuilderView,
    Result<(), GraphBuildError>,
)
    decreases n,
{
    if n == 0 {
        (v, Ok(()))
    } else {
        let prev = ingest_upto(v, recs, (n - 1) as nat);
        if prev.1 is Ok {
            ingest_spec(prev.0, recs[n - 1])
        } else {
            prev
        }
    }
}

/// What building a graph from a whole record stream gives: the first
/// refusal if any, else the outcome of settling the view reached.
pub open spec fn build_outcome(
    v: BuilderView,
    recs: Seq<ObservationRecord>,
    r: Result<DirectoryGraph, GraphBuildError>,
) -> bool {
    let w = ingest_upto(v, recs, recs.len()).0;
    let s = ingest_upto(v, recs, recs.len()).1;
    &&& s is Err ==> r == Err::<DirectoryGraph, GraphBuildError>(s->Err_0)
    &&& s is Ok && w.terminal is None ==> r == Err::<DirectoryGraph, GraphBuildError>(
        GraphBuildError::MissingTerminal,
    )
    &&& s is Ok && w.terminal is Some && w.entries.len() == 0 && w.terminal->0.outcome
        == RunOutcome::Finished ==> r == Err::<DirectoryGraph, GraphBuildError>(
        GraphBuildError::InvalidRoot { entry_id: 0, parent_id: 0 },
    )
    &&& s is Ok && w.terminal is Some && !(w.entries.len() == 0 && w.terminal->0.outcome
        == RunOutcome::Finished) ==> r is Ok && settled_graph(w, r->Ok_0@)
}

/// Once a step is refused, later records change nothing.
proof fn lemma_ingest_stops(v: BuilderView, recs: Seq<ObservationRecord>, i: nat, n: nat)
    requires
        i <= n,
        ingest_upto(v, recs, i).1 is Err,
    ensures
        ingest_upto(v, recs, n) == ingest_upto(v, recs, i),
    decreases n - i,
{
    if n > i {
        lemma_ingest_stops(v, recs, i, (n - 1) as nat);
    }
}

/// The tree shape of a view: a directory root with id 1 first, every later
/// entry under an earlier directory whose id it names as parent, distinct ids.
pub open spec fn tree_shaped(v: BuilderView) -> bool {
    let es = v.entries;
    let n = es.len();
    &&& v.parents.len() == n
    &&& v.self_alloc.len() == n
    &&& v.identities.len() == n
    &&& v.links.len() == n
    &&& distinct_ids(es)
    &&& n > 0 ==> es[0].id == 1 && es[0].parent_id == 0 && es[0].kind == EntryKind::Directory
        && v.parents[0] == 0
    &&& forall|i: int|
        0 < i < n ==> {
            &&& (#[trigger] v.parents[i]) < i
            &&& es[v.parents[i] as int].kind == EntryKind::Directory
            &&& es[v.parents[i] as int].id == es[i].parent_id
            &&& es[i].parent_id != 0
            &&& es[i].id != 1
        }
    &&& v.dense ==> forall|i: int| 0 <= i < n ==> (#[trigger] es[i]).id == i + 1
    &&& forall|i: int| 0 <= i < v.streams.len() ==> (#[trigger] v.streams[i]).0 < n
    &&& forall|i: int|
        0 <= i < n ==> entry_facts(#[trigger] es[i], v.self_alloc[i], v.identities[i], v.links[i])
}

/// What an accepted, not yet finalized entry records about itself.
pub open spec fn entry_facts(
    e: CompactEntry,
    self_alloc: u64,
    identity: Option<ObjectIdentity>,
    link: ValueKnowledge,
) -> bool {
    &&& e.object_index == NO_OBJECT
    &&& e.child_start == 0
    &&& e.child_count == 0
    &&& e.kind == EntryKind::Directory ==> {
        &&& e.logical_size is None
        &&& e.referenced_allocated_bytes == self_alloc
        &&& e.known_subtotal_allocated_bytes == self_alloc
        &&& self_alloc == match e.allocated_size {
            Some(x) => x,
            None => 0u64,
        }
        &&& link == ValueKnowledge::NotObserved
    }
    &&& e.kind == EntryKind::File ==> {
        &&& e.logical_size is Some
        &&& e.allocated_size_known == e.allocated_size is Some
        &&& e.referenced_allocated_bytes == match e.allocated_size {
            Some(x) => x,
            None => 0u64,
        }
        &&& e.known_subtotal_allocated_bytes == e.referenced_allocated_bytes
        &&& self_alloc == 0
    }
    &&& e.kind == EntryKind::Special ==> {
        &&& e.logical_size is None
        &&& e.allocated_size is None
        &&& !e.allocated_size_known
        &&& e.referenced_allocated_bytes == 0
        &&& e.known_subtotal_allocated_bytes == 0
        &&& e.unique_allocated_bytes == 0
        &&& self_alloc == 0
        &&& identity is None
        &&& link == ValueKnowledge::NotObserved
    }
}

/// Conditions under which an entry may be appended at index `entries.len()`
/// under the directory at index `p`.
pub open spec fn push_ok(v: BuilderView, e: CompactEntry, p: usize) -> bool {
    let n = v.entries.len();
    let es = v.entries;
    &&& !has_id(es, e.id)
    &&& e.id != e.parent_id
    &&& n == 0 ==> e.id == 1 && e.parent_id == 0 && e.kind == EntryKind::Directory && p == 0
    &&& n > 0 ==> p < n && es[p as int].kind == EntryKind::Directory && es[p as int].id
        == e.parent_id && e.parent_id != 0 && e.id != 1
    &&& v.dense ==> e.id == n + 1
}

/// What a graph settled from the builder view `v` holds: the same entries
/// in the same storage order with their roll-ups, objects and child lists
/// (see `settled_entry`, `objects_ok`, `child_seq`), the streams attributed
/// per object, the coverage gaps, and the terminal record.
pub open spec fn settled_graph(v: BuilderView, g: GraphView) -> bool {
    let es = v.entries;
    let ids = v.identities;
    let links = v.links;
    let p = v.parents;
    let n = es.len() as int;
    let fs = graph_entries(g);
    let oi = fs.map_values(|e: CompactEntry| e.object_index);
    &&& g.root_target == v.root_target
    &&& g.gaps == v.gaps
    &&& v.terminal == Some(g.terminal)
    &&& g.root_id == if n > 0 {
        1u32
    } else {
        0u32
    }
    &&& fs.len() == n
    &&& n > 0 ==> ((g.storage is Dense) == v.dense)
    &&& forall|i: int|
        0 <= i < n ==> #[trigger] fs[i] == (CompactEntry {
            child_start: fs[i].child_start,
            child_count: fs[i].child_count,
            ..settled_entry(es, ids, p, oi, i)
        })
    &&& objects_ok(es, ids, links, oi, g.objects)
    &&& forall|o: int|
        0 <= o < g.objects.len() ==> #[trigger] g.object_streams[o] == object_streams_of(
            v.streams,
            oi,
            o,
            v.streams.len() as int,
        )
    &&& g.allocated_bytes_known == (all_files_alloc_known(es) && !any_alloc_conflict(es, ids))
    &&& g.indeterminate == indeterminate_count(es, ids, links, n)
    &&& forall|i: int|
        0 <= i < n ==> {
            &&& (#[trigger] fs[i]).child_count == child_seq(p, i, n).len()
            &&& fs[i].child_start == if es[i].kind == EntryKind::Directory {
                range_start(p, i, n)
            } else {
                0
            }
            &&& child_ids_of(g, fs[i]).to_set() == ids_at(es, child_seq(p, i, n)).to_set()
            &&& forall|a: int, b: int|
                0 <= a < b < child_ids_of(g, fs[i]).len() ==> key_lt(
                    entry_key(fs[index_of_id(fs, child_ids_of(g, fs[i])[a])]),
                    entry_key(fs[index_of_id(fs, child_ids_of(g, fs[i])[b])]),
                )
        }
}


/// The allocation sizes summed over the first `m` entries are their
/// referenced allocations summed.
pub proof fn lemma_sum_alloc_prefix(v: BuilderView, m: int)
    requires
        tree_shaped(v),
        0 <= m <= v.entries.len(),
    ensures
        sum_alloc(v.entries.subrange(0, m)) == prefix_sum(referenced_vals(v.entries), m),
    decreases m,
{
    let es = v.entries;
    if m > 0 {
        lemma_sum_alloc_prefix(v, m - 1);
        assert(es.subrange(0, m).drop_last() =~= es.subrange(0, m - 1));
        assert(entry_facts(es[m - 1], v.self_alloc[m - 1], v.identities[m - 1], v.links[m - 1]));
    } else {
        assert(es.subrange(0, m) =~= Seq::<CompactEntry>::empty());
    }
}

/// The logical sizes summed over the first `m` entries.
proof fn lemma_sum_logical_prefix(es: Seq<CompactEntry>, m: int)
    requires
        0 <= m <= es.len(),
    ensures
        sum_logical(es.subrange(0, m)) == prefix_sum(logical_vals(es), m),
    decreases m,
{
    if m > 0 {
        lemma_sum_logical_prefix(es, m - 1);
        assert(es.subrange(0, m).drop_last() =~= es.subrange(0, m - 1));
    } else {
        assert(es.subrange(0, m) =~= Seq::<CompactEntry>::empty());
    }
}

/// A graph settled from a view whose terminal record passed its checks has
/// a root whose logical size and referenced allocation are the terminal totals.
proof fn lemma_root_totals(v: BuilderView, g: GraphView)
    requires
        tree_shaped(v),
        terminal_ok(v),
        v.terminal is Some,
        settled_graph(v, g),
        graph_wf(g),
    ensures
        root_totals_agree(g),
{
    let es = v.entries;
    let n = es.len() as int;
    let fs = graph_entries(g);
    if n > 0 {
        let t = v.terminal->0;
        assert(parents_ok(v.parents));
        lemma_subtree_sum_root(v.parents, referenced_vals(es), n);
        lemma_subtree_sum_root(v.parents, logical_vals(es), n);
        lemma_sum_alloc_prefix(v, n);
        lemma_sum_logical_prefix(es, n);
        assert(es.subrange(0, n) =~= es);
        lemma_storage_lookup(&g.storage, 1);
        let k = storage_index(&g.storage, 1);
        assert(fs[0].id == 1);
        assert(k == 0);
        let oi = fs.map_values(|e: CompactEntry| e.object_index);
        assert(fs[0] == (CompactEntry {
            child_start: fs[0].child_start,
            child_count: fs[0].child_count,
            ..settled_entry(es, v.identities, v.parents, oi, 0)
        }));
    }
}

/// Settling keeps each entry's id, parent and kind.
proof fn lemma_settled_keep(
    es0: Seq<CompactEntry>,
    es1: Seq<CompactEntry>,
    ids: Seq<Option<ObjectIdentity>>,
    p: Seq<usize>,
    oi: Seq<u32>,
)
    requires
        es1.len() == es0.len(),
        forall|i: int| 0 <= i < es0.len() ==> #[trigger] es1[i] == settled_entry(es0, ids, p, oi, i),
    ensures
        forall|i: int|
            0 <= i < es0.len() ==> (#[trigger] es1[i]).id == es0[i].id && es1[i].parent_id
                == es0[i].parent_id && es1[i].kind == es0[i].kind && es1[i].name == es0[i].name,
{
    assert forall|i: int| 0 <= i < es0.len() implies (#[trigger] es1[i]).id == es0[i].id && es1[i].parent_id
        == es0[i].parent_id && es1[i].kind == es0[i].kind && es1[i].name == es0[i].name by {
        assert(es1[i] == settled_entry(es0, ids, p, oi, i));
    }
}

/// The storage of a settled graph finds every entry under its id, and each
/// entry's parent at an earlier index.
#[verifier::spinoff_prover]
#[verifier::rlimit(40)]
proof fn lemma_settled_storage(
    v: BuilderView,
    m: Map<u32, u32>,
    es1: Seq<CompactEntry>,
    fs: Seq<CompactEntry>,
    layout: crate::layout::Layout,
    storage: EntryStorage,
)
    requires
        tree_shaped(v),
        v.entries.len() < 0xFFFF_FFFF,
        es1.len() == v.entries.len(),
        forall|i: int|
            0 <= i < es1.len() ==> (#[trigger] es1[i]).id == v.entries[i].id && es1[i].parent_id
                == v.entries[i].parent_id && es1[i].kind == v.entries[i].kind,
        fs.len() == es1.len(),
        layout.starts@.len() == es1.len(),
        layout.counts@.len() == es1.len(),
        forall|i: int|
            0 <= i < es1.len() ==> #[trigger] fs[i] == (CompactEntry {
                child_start: layout.starts@[i],
                child_count: layout.counts@[i],
                ..es1[i]
            }),
        storage_entries(&storage) == fs,
        (storage is Dense) == v.dense,
        match storage {
            EntryStorage::Sparse { id_to_idx, .. } => id_to_idx@ == m,
            _ => true,
        },
        !v.dense ==> {
            &&& forall|i: int|
                0 <= i < v.entries.len() ==> #[trigger] m.contains_key(v.entries[i].id) && m[v.entries[i].id]
                    == i
            &&& forall|id: u32| #[trigger] m.contains_key(id) ==> has_id(v.entries, id)
        },
    ensures
        crate::graph::storage_consistent(&storage),
        forall|i: int|
            0 < i < fs.len() ==> {
                &&& (#[trigger] fs[i]).parent_id != 0
                &&& storage_lookup(&storage, fs[i].parent_id) is Some
                &&& storage_index(&storage, fs[i].parent_id) < i
            },
{
    let es0 = v.entries;
    let nn = fs.len() as int;
    let p = v.parents;
    assert forall|i: int| 0 <= i < nn implies (#[trigger] fs[i]).id == es0[i].id by {
        assert(fs[i].id == es1[i].id);
    }
    assert forall|i: int, j: int| 0 <= i < j < nn implies (#[trigger] fs[i]).id != (#[trigger] fs[j]).id by {
        assert(fs[i].id == es0[i].id);
        assert(fs[j].id == es0[j].id);
    }
    if !v.dense {
        assert forall|id: u32| #[trigger] m.contains_key(id) implies (m[id] as int) < nn && fs[m[id] as int].id == id by {
            assert(has_id(es0, id));
            let k = index_of_id(es0, id);
            assert(m.contains_key(es0[k].id));
            assert(m[es0[k].id] == k);
        }
        assert forall|i: int| 0 <= i < nn implies #[trigger] m.contains_key(fs[i].id) && m[fs[i].id] == i by {
            assert(fs[i].id == es0[i].id);
            assert(m.contains_key(es0[i].id));
        }
    } else {
        assert forall|i: int| 0 <= i < nn implies (#[trigger] fs[i]).id == i + 1 by {
            assert(fs[i].id == es0[i].id);
            assert(es0[i].id == i + 1);
        }
    }
    match storage {
        EntryStorage::Dense(vv) => {
            assert(vv@ == fs);
        },
        EntryStorage::Sparse { entries, id_to_idx } => {
            assert(entries@ == fs);
            assert(id_to_idx@ == m);
        },
    }
    assert(crate::graph::storage_consistent(&storage));
    assert forall|i: int| 0 < i < nn implies {
        &&& (#[trigger] fs[i]).parent_id != 0
        &&& storage_lookup(&storage, fs[i].parent_id) is Some
        &&& storage_index(&storage, fs[i].parent_id) < i
    } by {
        let q = p[i] as int;
        assert(fs[i].parent_id == es1[i].parent_id);
        assert(es0[q].id == es0[i].parent_id);
        assert(fs[q].id == es0[q].id);
        if v.dense {
            assert(es0[q].id == q + 1);
        } else {
            assert(0 <= q < es0.len());
            assert(m.contains_key(es0[q].id));
            assert(m[es0[q].id] == q);
        }
    }
}

/// The child lists of a settled graph: sizes, ranges, contents, and order.
proof fn lemma_settled_children(
    v: BuilderView,
    es1: Seq<CompactEntry>,
    fs: Seq<CompactEntry>,
    layout: crate::layout::Layout,
    ac: Seq<u32>,
)
    requires
        tree_shaped(v),
        v.entries.len() < 0xFFFF_FFFF,
        es1.len() == v.entries.len(),
        forall|i: int|
            0 <= i < es1.len() ==> (#[trigger] es1[i]).id == v.entries[i].id && es1[i].parent_id
                == v.entries[i].parent_id && es1[i].kind == v.entries[i].kind,
        crate::layout::layout_ok(es1, v.parents, layout),
        fs.len() == es1.len(),
        forall|i: int|
            0 <= i < es1.len() ==> #[trigger] fs[i] == (CompactEntry {
                child_start: layout.starts@[i],
                child_count: layout.counts@[i],
                ..es1[i]
            }),
        ac == ids_at(es1, layout.child_pos@),
    ensures
        forall|i: int|
            0 <= i < fs.len() ==> (#[trigger] fs[i]).child_start + fs[i].child_count <= ac.len(),
        forall|i: int|
            0 <= i < fs.len() ==> {
                &&& (#[trigger] fs[i]).child_count == child_seq(v.parents, i, fs.len() as int).len()
                &&& fs[i].child_start == if v.entries[i].kind == EntryKind::Directory {
                    range_start(v.parents, i, fs.len() as int)
                } else {
                    0
                }
                &&& crate::graph::listed_ids(ac, fs[i]).to_set() == ids_at(v.entries, child_seq(v.parents, i, fs.len() as int)).to_set()
                &&& forall|a: int, b: int|
                    0 <= a < b < crate::graph::listed_ids(ac, fs[i]).len() ==> key_lt(
                        entry_key(fs[index_of_id(fs, crate::graph::listed_ids(ac, fs[i])[a])]),
                        entry_key(fs[index_of_id(fs, crate::graph::listed_ids(ac, fs[i])[b])]),
                    )
            },
{
    let es0 = v.entries;
    let p = v.parents;
    let nn = fs.len() as int;
    let cp = layout.child_pos@;
    assert forall|i: int| 0 <= i < nn implies (#[trigger] fs[i]).id == es0[i].id by {
        assert(fs[i].id == es1[i].id);
    }
    assert forall|i: int| 0 <= i < nn && es0[i].kind != EntryKind::Directory implies child_seq(p, i, nn).len() == 0 by {
        lemma_child_seq(p, i, nn);
        if child_seq(p, i, nn).len() > 0 {
            let c = child_seq(p, i, nn)[0];
            assert(p[c as int] == i);
        }
    }
    assert forall|i: int| 0 <= i < nn implies (#[trigger] fs[i]).child_start + fs[i].child_count <= ac.len() by {
        assert(fs[i].child_start == layout.starts@[i]);
    }
    assert forall|i: int| 0 <= i < nn implies {
        &&& (#[trigger] fs[i]).child_count == child_seq(p, i, nn).len()
        &&& fs[i].child_start == if es0[i].kind == EntryKind::Directory {
            range_start(p, i, nn)
        } else {
            0
        }
        &&& crate::graph::listed_ids(ac, fs[i]).to_set() == ids_at(es0, child_seq(p, i, nn)).to_set()
        &&& forall|a: int, b: int|
            0 <= a < b < crate::graph::listed_ids(ac, fs[i]).len() ==> key_lt(
                entry_key(fs[index_of_id(fs, crate::graph::listed_ids(ac, fs[i])[a])]),
                entry_key(fs[index_of_id(fs, crate::graph::listed_ids(ac, fs[i])[b])]),
            )
    } by {
        let cs = child_seq(p, i, nn);
        let cnt = fs[i].child_count as int;
        let st = range_start(p, i, nn);
        let l = crate::graph::listed_ids(ac, fs[i]);
        lemma_child_seq(p, i, nn);
        if cnt == 0 {
            assert(cs =~= Seq::<usize>::empty());
            assert(ids_at(es0, cs) =~= Seq::<u32>::empty());
        } else {
            assert(es0[i].kind == EntryKind::Directory);
            assert(fs[i].child_start == st);
            let sub = cp.subrange(st, st + cnt);
            assert(l =~= ids_at(es0, sub)) by {
                assert forall|x: int| 0 <= x < sub.len() implies es1[sub[x] as int].id == es0[sub[x] as int].id by {
                    assert(sub[x] == cp[st + x]);
                }
            }
            lemma_ids_at_set(es0, sub, cs);
            assert forall|a: int, b: int| 0 <= a < b < l.len() implies key_lt(
                entry_key(fs[index_of_id(fs, l[a])]),
                entry_key(fs[index_of_id(fs, l[b])]),
            ) by {
                let ka = cp[st + a] as int;
                let kb = cp[st + b] as int;
                assert(l[a] == es1[ka].id);
                assert(l[b] == es1[kb].id);
                assert(fs[ka].id == l[a]);
                assert(fs[kb].id == l[b]);
                let ia = index_of_id(fs, l[a]);
                let ib = index_of_id(fs, l[b]);
                assert(fs[ia].id == l[a]);
                assert(fs[ib].id == l[b]);
                if ia != ka {
                    if ia < ka {
                        assert(fs[ia].id != fs[ka].id);
                    } else {
                        assert(fs[ka].id != fs[ia].id);
                    }
                }
                if ib != kb {
                    if ib < kb {
                        assert(fs[ib].id != fs[kb].id);
                    } else {
                        assert(fs[kb].id != fs[ib].id);
                    }
                }
                assert(entry_key(fs[ka]) == entry_key(es1[ka]));
                assert(entry_key(fs[kb]) == entry_key(es1[kb]));
            }
        }
    }
}

/// The indices met walking up from the entry with id `id` through parent
/// ids, at most `fuel` of them, stopping at id 0 or an unknown id.
pub open spec fn walk_up(v: BuilderView, id: u32, fuel: nat) -> Seq<int>
    decreases fuel,
{
    if fuel == 0 || id == 0 {
        Seq::empty()
    } else {
        match lookup_index(v, id) {
            None => Seq::empty(),
            Some(i) => seq![i] + walk_up(v, v.entries[i].parent_id, (fuel - 1) as nat),
        }
    }
}

/// A joined path ends with a separator of either kind.
pub open spec fn ends_with_separator(s: Seq<char>) -> bool {
    s.len() > 0 && (s.last() == '\\' || s.last() == '/')
}

/// The first `k` components joined, a backslash inserted where the path
/// so far does not end with a separator.
pub open spec fn join_components(c: Seq<Seq<char>>, k: int) -> Seq<char>
    decreases k,
{
    if k <= 1 {
        c[0]
    } else {
        let r = join_components(c, k - 1);
        (if ends_with_separator(r) {
            r
        } else {
            r.push('\\')
        }) + c[k - 1]
    }
}

/// The names along an upward walk, top first.
pub open spec fn walk_names(v: BuilderView, w: Seq<int>) -> Seq<Seq<char>> {
    Seq::new(w.len(), |t: int| v.entries[w[w.len() - 1 - t]].name@)
}

/// The path of a directory as the stream has described it so far: the
/// names from the top down to it (at most 10000 levels), or the root
/// target when there is nothing to walk.
pub open spec fn reconstructed_path(v: BuilderView, dir_id: u32) -> Seq<char> {
    let w = walk_up(v, dir_id, 10000);
    if dir_id == 0 || v.entries.len() == 0 || w.len() == 0 {
        v.root_target
    } else {
        join_components(walk_names(v, w), w.len() as int)
    }
}

/// The running totals that a progress report carries.
#[derive(Debug, Clone, Copy, PartialEq, Eq)]
pub struct ProgressCounts {
    pub directories: u64,
    pub files: u64,
    pub logical_bytes: u64,
    pub referenced_allocated_bytes: u64,
    pub coverage_gaps: u32,
}

/// Builder for constructing a directory graph from an observation stream.
#[derive(Debug)]
pub struct GraphBuilder {
    pub(crate) root_target: String,
    pub(crate) entries: Vec<CompactEntry>,
    pub(crate) parents: Vec<usize>,
    pub(crate) self_alloc: Vec<u64>,
    pub(crate) identities: Vec<Option<ObjectIdentity>>,
    pub(crate) links: Vec<ValueKnowledge>,
    pub(crate) is_dense: bool,
    pub(crate) id_to_idx: HashMap<u32, u32>,
    pub(crate) pending_streams: Vec<(usize, StreamBreakdown)>,
    pub(crate) gaps: Vec<CoverageGapObservation>,
    pub(crate) terminal: Option<TerminalObservation>,
    pub(crate) dir_count: u64,
    pub(crate) file_count: u64,
    pub(crate) special_count: u64,
    pub(crate) logical_bytes: u64,
    pub(crate) allocated_bytes: u64,
    pub(crate) allocated_bytes_known: bool,
    pub(crate) current_dir_id: u32,
}

impl View for GraphBuilder {
    type V = BuilderView;

    closed spec fn view(&self) -> BuilderView {
        BuilderView {
            root_target: self.root_target@,
            entries: self.entries@,
            parents: self.parents@,
            self_alloc: self.self_alloc@,
            identities: self.identities@,
            links: self.links@,
            dense: self.is_dense,
            streams: self.pending_streams@,
            gaps: self.gaps@,
            terminal: self.terminal,
            current_dir_id: self.current_dir_id,
        }
    }
}

/// The tree shape does not depend on the current directory, gaps or terminal.
proof fn lemma_tree_shaped_frame(a: BuilderView, b: BuilderView)
    requires
        tree_shaped(a),
        b.entries == a.entries,
        b.parents == a.parents,
        b.self_alloc == a.self_alloc,
        b.identities == a.identities,
        b.links == a.links,
        b.dense == a.dense,
        b.streams == a.streams,
    ensures
        tree_shaped(b),
{
}

/// Attributing one more stream to an accepted entry keeps the tree shape.
proof fn lemma_push_stream(a: BuilderView, b: BuilderView)
    requires
        tree_shaped(a),
        b.streams.len() == a.streams.len() + 1,
        b.streams.drop_last() == a.streams,
        b.streams.last().0 < a.entries.len(),
        b.entries == a.entries,
        b.parents == a.parents,
        b.self_alloc == a.self_alloc,
        b.identities == a.identities,
        b.links == a.links,
        b.dense == a.dense,
    ensures
        tree_shaped(b),
{
    assert forall|i: int| 0 <= i < b.streams.len() implies (#[trigger] b.streams[i]).0 < b.entries.len() by {
        if i < b.streams.len() - 1 {
            assert(b.streams[i] == b.streams.drop_last()[i]);
        }
    }
}

/// The id index: empty while ids are positional, otherwise mapping every
/// entry's id to its index and nothing else.
pub open spec fn index_ok(dense: bool, m: Map<u32, u32>, es: Seq<CompactEntry>) -> bool {
    &&& dense ==> m == Map::<u32, u32>::empty()
    &&& !dense ==> {
        &&& forall|i: int| 0 <= i < es.len() ==> #[trigger] m.contains_key(es[i].id) && m[es[i].id] == i
        &&& forall|id: u32| #[trigger] m.contains_key(id) ==> has_id(es, id)
    }
}

/// The running totals agree with the entries.
pub open spec fn totals_ok(
    es: Seq<CompactEntry>,
    dirs: u64,
    files: u64,
    specials: u64,
    logical: u64,
    allocated: u64,
    known: bool,
) -> bool {
    &&& dirs == count_kind(es, EntryKind::Directory)
    &&& files == count_kind(es, EntryKind::File)
    &&& specials == count_kind(es, EntryKind::Special)
    &&& logical == sat(sum_logical(es))
    &&& allocated == sat(sum_alloc(es))
    &&& known == all_files_alloc_known(es)
}

/// A terminal record, once accepted, agrees with the entries and gaps.
pub open spec fn terminal_ok(v: BuilderView) -> bool {
    match v.terminal {
        Some(t) => terminal_check(v, t) is Ok,
        None => true,
    }
}

/// More than `2^32 - 1` entries with distinct `u32` ids use up every id.
proof fn lemma_ids_exhausted(es: Seq<CompactEntry>, x: u32)
    requires
        distinct_ids(es),
        !has_id(es, x),
    ensures
        es.len() < 0x1_0000_0000,
{
    let t = es.map_values(|e: CompactEntry| e.id as int);
    assert(t.no_duplicates()) by {
        assert forall|i: int, j: int| 0 <= i < t.len() && 0 <= j < t.len() && i != j implies t[i]
            != t[j] by {
            if i < j {
                assert(es[i].id != es[j].id);
            } else {
                assert(es[j].id != es[i].id);
            }
        }
    }
    t.unique_seq_to_set();
    let full = set_int_range(0, 0x1_0000_0000);
    lemma_int_range(0, 0x1_0000_0000);
    let rest = full.remove(x as int);
    assert(t.to_set().subset_of(rest)) by {
        assert forall|y: int| t.to_set().contains(y) implies rest.contains(y) by {
            let k = choose|k: int| 0 <= k < t.len() && t[k] == y;
            assert(es[k].id as int == y);
        }
    }
    lemma_len_subset(t.to_set(), rest);
}


/// Counts never exceed the number of entries.
proof fn lemma_counts_bounded(es: Seq<CompactEntry>)
    ensures
        0 <= count_kind(es, EntryKind::Directory) <= es.len(),
        0 <= count_kind(es, EntryKind::File) <= es.len(),
        0 <= count_kind(es, EntryKind::Special) <= es.len(),
    decreases es.len(),
{
    if es.len() > 0 {
        lemma_counts_bounded(es.drop_last());
    }
}

/// Sums of sizes are never negative.
proof fn lemma_sums_nonneg(es: Seq<CompactEntry>)
    ensures
        sum_logical(es) >= 0,
        sum_alloc(es) >= 0,
    decreases es.len(),
{
    if es.len() > 0 {
        lemma_sums_nonneg(es.drop_last());
    }
}

impl GraphBuilder {
    /// The structural and aggregate invariants of a builder.
    pub closed spec fn wf(&self) -> bool {
        &&& tree_shaped(self@)
        &&& index_ok(self.is_dense, self.id_to_idx@, self.entries@)
        &&& totals_ok(
            self.entries@,
            self.dir_count,
            self.file_count,
            self.special_count,
            self.logical_bytes,
            self.allocated_bytes,
            self.allocated_bytes_known,
        )
        &&& terminal_ok(self@)
    }

    /// Every builder state that `new` and `ingest_record` reach (both keep
    /// `wf`) is tree-shaped (a directory root with id 1 first, every other
    /// entry after a directory it names as parent, distinct ids), and a
    /// terminal record in it agrees with the entries and gaps.
    pub proof fn law_state_is_tree_shaped(&self)
        requires
            self.wf(),
        ensures
            tree_shaped(self@),
            terminal_ok(self@),
    {
    }

    /// A new builder for a stream that scans `root_target`.
    pub fn new(root_target: String) -> (r: Self)
        ensures
            r.wf(),
            r@ == fresh_view(root_target@),
    {
        GraphBuilder {
            root_target,
            entries: Vec::new(),
            parents: Vec::new(),
            self_alloc: Vec::new(),
            identities: Vec::new(),
            links: Vec::new(),
            is_dense: true,
            id_to_idx: HashMap::new(),
            pending_streams: Vec::new(),
            gaps: Vec::new(),
            terminal: None,
            dir_count: 0,
            file_count: 0,
            special_count: 0,
            logical_bytes: 0,
            allocated_bytes: 0,
            allocated_bytes_known: true,
            current_dir_id: 0,
        }
    }


    /// Offers one entry to the tree (see `insert_spec`).
    #[verifier::spinoff_prover]
    #[verifier::rlimit(40)]
    fn insert_entry(
        &mut self,
        entry: CompactEntry,
        self_alloc: u64,
        identity: Option<ObjectIdentity>,
        link: ValueKnowledge,
    ) -> (r: Result<(), GraphBuildError>)
        requires
            old(self).wf(),
            old(self)@.terminal is None,
            entry_facts(entry, self_alloc, identity, link),
        ensures
            final(self).wf(),
            (final(self)@, r) == insert_spec(old(self)@, entry, self_alloc, identity, link),
    {
        match self.check_entry(&entry) {
            Err(e) => Err(e),
            Ok(parent_idx) => {
                self.push_checked(entry, parent_idx, self_alloc, identity, link);
                Ok(())
            },
        }
    }

    /// The structural checks of `insert_spec`; on success, the parent index.
    #[verifier::spinoff_prover]
    #[verifier::rlimit(40)]
    fn check_entry(&mut self, entry: &CompactEntry) -> (r: Result<usize, GraphBuildError>)
        requires
            old(self).wf(),
            old(self)@.terminal is None,
        ensures
            final(self).wf(),
            final(self)@.terminal is None,
            match r {
                Err(e) => forall|sa: u64, ident: Option<ObjectIdentity>, link: ValueKnowledge|
                    #[trigger] insert_spec(old(self)@, *entry, sa, ident, link) == (final(self)@, Err::<(), GraphBuildError>(e)),
                Ok(p) => {
                    &&& push_ok(final(self)@, *entry, p)
                    &&& final(self)@.entries == old(self)@.entries
                    &&& forall|sa: u64, ident: Option<ObjectIdentity>, link: ValueKnowledge|
                        #[trigger] insert_spec(old(self)@, *entry, sa, ident, link) == (push_entry(final(self)@, *entry, p, sa, ident, link), Ok::<(), GraphBuildError>(()))
                },
            },
    {
        let ghost v0 = self@;
        let id: u32 = entry.id;
        let pid: u32 = entry.parent_id;
        if id == pid {
            return Err(GraphBuildError::SelfParent(id));
        }
        let curr_idx: usize = self.entries.len();
        if curr_idx == 0 {
            if id != 1 || pid != 0 || entry.kind != EntryKind::Directory {
                return Err(GraphBuildError::InvalidRoot { entry_id: id, parent_id: pid });
            }
            return Ok(0);
        }
        if pid == 0 || id == 1 {
            return Err(GraphBuildError::InvalidRoot { entry_id: id, parent_id: pid });
        }
        if self.is_dense {
            proof {
                assert(self.entries@[curr_idx - 1].id == curr_idx);
            }
            let expected: u32 = #[verifier::truncate] ((curr_idx as u64 + 1) as u32);
            if id != expected {
                self.switch_to_sparse();
            }
        }
        proof {
            assert(self@ == (BuilderView { dense: v0.dense && id == (#[verifier::truncate] ((v0.entries.len() + 1) as u32)), ..v0 }));
        }
        let parent_idx: usize;
        if self.is_dense {
            if id <= curr_idx as u32 {
                return Err(GraphBuildError::DuplicateEntryId(id));
            }
            if pid > curr_idx as u32 {
                return Err(GraphBuildError::MissingParent { entry_id: id, parent_id: pid });
            }
            parent_idx = (pid - 1) as usize;
            proof {
                let es = self.entries@;
                assert(es[parent_idx as int].id == parent_idx + 1);
                if has_id(es, id) {
                    let k = index_of_id(es, id);
                    assert(es[k].id == k + 1);
                }
            }
        } else {
            if self.id_to_idx.contains_key(&id) {
                return Err(GraphBuildError::DuplicateEntryId(id));
            }
            match self.id_to_idx.get(&pid) {
                Some(p) => {
                    parent_idx = *p as usize;
                    proof {
                        let es = self.entries@;
                        assert(has_id(es, pid));
                        let k = index_of_id(es, pid);
                        assert(self.id_to_idx@[es[k].id] == k);
                    }
                },
                None => {
                    proof {
                        if has_id(self.entries@, pid) {
                            let k = index_of_id(self.entries@, pid);
                            assert(self.id_to_idx@.contains_key(self.entries@[k].id));
                        }
                    }
                    return Err(GraphBuildError::MissingParent { entry_id: id, parent_id: pid });
                },
            }
            proof {
                let es = self.entries@;
                if has_id(es, id) {
                    let k = index_of_id(es, id);
                    assert(self.id_to_idx@.contains_key(es[k].id));
                }
            }
        }
        if self.entries[parent_idx].kind != EntryKind::Directory {
            return Err(GraphBuildError::ParentNotDirectory { entry_id: id, parent_id: pid });
        }
        Ok(parent_idx)
    }

    /// Appends an entry that passed the structural checks.
    #[verifier::rlimit(40)]
    #[verifier::spinoff_prover]
    fn push_checked(
        &mut self,
        entry: CompactEntry,
        parent_idx: usize,
        self_alloc: u64,
        identity: Option<ObjectIdentity>,
        link: ValueKnowledge,
    )
        requires
            old(self).wf(),
            old(self)@.terminal is None,
            push_ok(old(self)@, entry, parent_idx),
            entry_facts(entry, self_alloc, identity, link),
        ensures
            final(self).wf(),
            final(self)@ == push_entry(old(self)@, entry, parent_idx, self_alloc, identity, link),
    {
        let ghost v0 = self@;
        let ghost m0 = self.id_to_idx@;
        let id: u32 = entry.id;
        let curr_idx: usize = self.entries.len();
        proof {
            lemma_ids_exhausted(v0.entries, id);
        }
        self.record_counts(&entry);
        if !self.is_dense {
            self.id_to_idx.insert(id, curr_idx as u32);
        }
        self.entries.push(entry);
        self.parents.push(parent_idx);
        self.self_alloc.push(self_alloc);
        self.identities.push(identity);
        self.links.push(link);
        proof {
            let v = self@;
            let es = v.entries;
            let n = es.len();
            assert(es.drop_last() =~= v0.entries);
            assert forall|i: int, j: int| 0 <= i < j < n implies (#[trigger] es[i]).id
                != (#[trigger] es[j]).id by {
                if j == n - 1 {
                    assert(v0.entries[i].id != id);
                } else {
                    assert(v0.entries[i].id != v0.entries[j].id);
                }
            }
            assert forall|i: int| 0 <= i < n implies entry_facts(
                #[trigger] es[i],
                v.self_alloc[i],
                v.identities[i],
                v.links[i],
            ) by {
                if i < n - 1 {
                    assert(es[i] == v0.entries[i]);
                }
            }
            if !self.is_dense {
                assert forall|k: u32| #[trigger] self.id_to_idx@.contains_key(k) implies has_id(
                    es,
                    k,
                ) by {
                    if k == id {
                        assert(es[n - 1].id == id);
                    } else {
                        assert(has_id(v0.entries, k));
                        let w = index_of_id(v0.entries, k);
                        assert(es[w].id == k);
                    }
                }
                assert forall|i: int| 0 <= i < n implies #[trigger] self.id_to_idx@.contains_key(
                    es[i].id,
                ) && self.id_to_idx@[es[i].id] == i by {
                    if i < n - 1 {
                        assert(v0.entries[i].id != id);
                        assert(es[i] == v0.entries[i]);
                        assert(m0.contains_key(v0.entries[i].id) && m0[v0.entries[i].id] == i);
                    }
                }
            }
        }
    }

    /// Moves id lookups from positional to mapped storage.
    #[verifier::spinoff_prover]
    #[verifier::rlimit(40)]
    fn switch_to_sparse(&mut self)
        requires
            old(self).wf(),
            old(self)@.terminal is None,
            old(self).is_dense,
        ensures
            final(self).wf(),
            final(self)@ == (BuilderView { dense: false, ..old(self)@ }),
    {
        let ghost es = self.entries@;
        let n: usize = self.entries.len();
        proof {
            if n > 0 {
                assert(es[n - 1].id == n);
            }
        }
        let mut m: HashMap<u32, u32> = HashMap::new();
        let mut i: usize = 0;
        while i < n
            invariant
                n == es.len(),
                es == self.entries@,
                i <= n,
                n < 0x1_0000_0000,
                forall|k: int| 0 <= k < es.len() ==> (#[trigger] es[k]).id == k + 1,
                forall|k: int|
                    0 <= k < i ==> #[trigger] m@.contains_key(es[k].id) && m@[es[k].id] == k,
                forall|key: u32| #[trigger]
                    m@.contains_key(key) ==> (exists|k: int| 0 <= k < i && (#[trigger] es[k]).id == key),
            decreases n - i,
        {
            let key: u32 = self.entries[i].id;
            m.insert(key, i as u32);
            proof {
                assert forall|k: int| 0 <= k < i + 1 implies #[trigger] m@.contains_key(es[k].id)
                    && m@[es[k].id] == k by {
                    if k < i {
                        assert(es[k].id != es[i as int].id);
                    }
                }
                assert forall|key2: u32| #[trigger] m@.contains_key(key2) implies (exists|k: int|
                    0 <= k < i + 1 && (#[trigger] es[k]).id == key2) by {
                    if key2 == key {
                        assert(es[i as int].id == key2);
                    }
                }
            }
            i += 1;
        }
        proof {
            assert forall|id: u32| #[trigger] m@.contains_key(id) implies has_id(es, id) by {
                let k = choose|k: int| 0 <= k < n && (#[trigger] es[k]).id == id;
                assert(es[k].id == id);
            }
            assert(index_ok(false, m@, es));
        }
        self.id_to_idx = m;
        self.is_dense = false;
    }

    /// Adds one accepted entry to the running counts and totals.
    #[verifier::spinoff_prover]
    #[verifier::rlimit(40)]
    fn record_counts(&mut self, entry: &CompactEntry)
        requires
            old(self).wf(),
            old(self)@.terminal is None,
            old(self).entries@.len() < 0x1_0000_0000,
            entry_facts(*entry, 0, None, ValueKnowledge::NotObserved) || entry.kind
                != EntryKind::Special,
            entry.kind == EntryKind::File ==> entry.logical_size is Some,
        ensures
            final(self)@ == old(self)@,
            final(self).id_to_idx == old(self).id_to_idx,
            final(self).is_dense == old(self).is_dense,
            ({
                let es = old(self).entries@.push(*entry);
                &&& final(self).dir_count == count_kind(es, EntryKind::Directory)
                &&& final(self).file_count == count_kind(es, EntryKind::File)
                &&& final(self).special_count == count_kind(es, EntryKind::Special)
                &&& final(self).logical_bytes == sat(sum_logical(es))
                &&& final(self).allocated_bytes == sat(sum_alloc(es))
                &&& final(self).allocated_bytes_known == all_files_alloc_known(es)
            }),
    {
        let ghost es0 = self.entries@;
        let ghost es = es0.push(*entry);
        proof {
            assert(es.drop_last() =~= es0);
            lemma_counts_bounded(es0);
            lemma_sums_nonneg(es0);
        }
        match entry.kind {
            EntryKind::Directory => {
                self.dir_count = self.dir_count + 1;
            },
            EntryKind::File => {
                self.file_count = self.file_count + 1;
            },
            EntryKind::Special => {
                self.special_count = self.special_count + 1;
            },
        }
        match entry.logical_size {
            Some(x) => {
                self.logical_bytes = self.logical_bytes.saturating_add(x);
            },
            None => {},
        }
        match entry.allocated_size {
            Some(x) => {
                self.allocated_bytes = self.allocated_bytes.saturating_add(x);
            },
            None => {
                if entry.kind == EntryKind::File {
                    self.allocated_bytes_known = false;
                }
            },
        }
        proof {
            if self.allocated_bytes_known {
                assert forall|i: int| 0 <= i < es.len() && (#[trigger] es[i]).kind
                    == EntryKind::File implies es[i].allocated_size is Some by {
                    if i < es0.len() {
                        assert(es0[i] == es[i]);
                    }
                }
            } else {
                if all_files_alloc_known(es0) {
                    assert(es[es.len() - 1] == *entry);
                } else {
                    let k = choose|k: int| 0 <= k < es0.len() && (#[trigger] es0[k]).kind
                        == EntryKind::File && !(es0[k].allocated_size is Some);
                    assert(es[k] == es0[k]);
                }
            }
        }
    }

    /// Ingests one observation record (see `ingest_spec`): structural checks
    /// for entries, attribution of content streams, coverage gaps, and the
    /// terminal record's aggregate checks. Nothing is accepted after the terminal.
    #[verifier::spinoff_prover]
    #[verifier::rlimit(40)]
    pub fn ingest_record(&mut self, record: ObservationRecord) -> (r: Result<(), GraphBuildError>)
        requires
            old(self).wf(),
        ensures
            final(self).wf(),
            (final(self)@, r) == ingest_spec(old(self)@, record),
            r is Err ==> same_content(final(self)@, old(self)@),
    {
        if self.terminal.is_some() {
            return Err(GraphBuildError::RecordAfterTerminal);
        }
        let ghost v0 = self@;
        match record {
            ObservationRecord::Directory(dir) => self.ingest_directory(dir),
            ObservationRecord::File(file) => self.ingest_file(file),
            ObservationRecord::Special(special) => self.ingest_special(special),
            ObservationRecord::ContentStream(stream) => self.ingest_stream(stream),
            ObservationRecord::CoverageGap(gap) => {
                self.gaps.push(gap);
                proof {
                    lemma_tree_shaped_frame(v0, self@);
                }
                Ok(())
            },
            ObservationRecord::Terminal(term) => self.ingest_terminal(term),
        }
    }

    fn ingest_directory(&mut self, dir: DirectoryObservation) -> (r: Result<(), GraphBuildError>)
        requires
            old(self).wf(),
            old(self)@.terminal is None,
        ensures
            final(self).wf(),
            (final(self)@, r) == ingest_spec(old(self)@, ObservationRecord::Directory(dir)),
    {
                self.current_dir_id = if dir.parent_id == 0 {
                    dir.entry_id
                } else {
                    dir.parent_id
                };
                proof {
                    lemma_tree_shaped_frame(old(self)@, self@);
                }
                let a: u64 = match dir.allocated_size {
                    Some(x) => x,
                    None => 0,
                };
                let identity = dir.object_id;
                let entry = CompactEntry {
                    id: dir.entry_id,
                    parent_id: dir.parent_id,
                    name: dir.name,
                    kind: EntryKind::Directory,
                    allocated_size_known: true,
                    logical_size: None,
                    allocated_size: dir.allocated_size,
                    referenced_allocated_bytes: a,
                    unique_allocated_bytes: a,
                    known_subtotal_allocated_bytes: a,
                    object_index: NO_OBJECT,
                    file_attributes: dir.file_attributes,
                    reparse_tag: dir.reparse_tag,
                    child_start: 0,
                    child_count: 0,
                    creation_time_utc_ms: dir.creation_time_utc_ms,
                    last_write_time_utc_ms: dir.last_write_time_utc_ms,
                    last_access_time_utc_ms: dir.last_access_time_utc_ms,
                };
                self.insert_entry(entry, a, identity, ValueKnowledge::NotObserved)
    }

    fn ingest_file(&mut self, file: FileObservation) -> (r: Result<(), GraphBuildError>)
        requires
            old(self).wf(),
            old(self)@.terminal is None,
        ensures
            final(self).wf(),
            (final(self)@, r) == ingest_spec(old(self)@, ObservationRecord::File(file)),
    {
                self.current_dir_id = file.parent_id;
                proof {
                    lemma_tree_shaped_frame(old(self)@, self@);
                }
                let a: u64 = match file.allocated_size {
                    Some(x) => x,
                    None => 0,
                };
                let identity = file.object_id;
                let link = file.total_link_count;
                let entry = CompactEntry {
                    id: file.entry_id,
                    parent_id: file.parent_id,
                    name: file.name,
                    kind: EntryKind::File,
                    allocated_size_known: file.allocated_size.is_some(),
                    logical_size: Some(file.logical_size),
                    allocated_size: file.allocated_size,
                    referenced_allocated_bytes: a,
                    unique_allocated_bytes: a,
                    known_subtotal_allocated_bytes: a,
                    object_index: NO_OBJECT,
                    file_attributes: file.file_attributes,
                    reparse_tag: file.reparse_tag,
                    child_start: 0,
                    child_count: 0,
                    creation_time_utc_ms: file.creation_time_utc_ms,
                    last_write_time_utc_ms: file.last_write_time_utc_ms,
                    last_access_time_utc_ms: file.last_access_time_utc_ms,
                };
                self.insert_entry(entry, 0, identity, link)
    }

    fn ingest_special(&mut self, special: SpecialObservation) -> (r: Result<(), GraphBuildError>)
        requires
            old(self).wf(),
            old(self)@.terminal is None,
        ensures
            final(self).wf(),
            (final(self)@, r) == ingest_spec(old(self)@, ObservationRecord::Special(special)),
    {
                self.current_dir_id = special.parent_id;
                proof {
                    lemma_tree_shaped_frame(old(self)@, self@);
                }
                let entry = CompactEntry {
                    id: special.entry_id,
                    parent_id: special.parent_id,
                    name: special.name,
                    kind: EntryKind::Special,
                    allocated_size_known: false,
                    logical_size: None,
                    allocated_size: None,
                    referenced_allocated_bytes: 0,
                    unique_allocated_bytes: 0,
                    known_subtotal_allocated_bytes: 0,
                    object_index: NO_OBJECT,
                    file_attributes: special.file_attributes,
                    reparse_tag: special.reparse_tag,
                    child_start: 0,
                    child_count: 0,
                    creation_time_utc_ms: special.creation_time_utc_ms,
                    last_write_time_utc_ms: special.last_write_time_utc_ms,
                    last_access_time_utc_ms: special.last_access_time_utc_ms,
                };
                self.insert_entry(entry, 0, None, ValueKnowledge::NotObserved)
    }

    /// The index under which an entry id is found.
    fn storage_get_idx(&self, id: u32) -> (r: Option<usize>)
        requires
            self.wf(),
        ensures
            r matches Some(i) ==> lookup_index(self@, id) == Some(i as int),
            r is None ==> lookup_index(self@, id) is None,
    {
        if self.is_dense {
            if id == 0 || id as usize > self.entries.len() {
                None
            } else {
                Some(id as usize - 1)
            }
        } else {
            match self.id_to_idx.get(&id) {
                Some(idx) => {
                    proof {
                        let es = self.entries@;
                        assert(has_id(es, id));
                        let k = index_of_id(es, id);
                        assert(self.id_to_idx@[es[k].id] == k);
                    }
                    Some(*idx as usize)
                },
                None => {
                    proof {
                        if has_id(self.entries@, id) {
                            let k = index_of_id(self.entries@, id);
                            assert(self.id_to_idx@.contains_key(self.entries@[k].id));
                        }
                    }
                    None
                },
            }
        }
    }

    /// Attributes a secondary content stream to its parent entry.
    #[verifier::spinoff_prover]
    #[verifier::rlimit(40)]
    fn ingest_stream(&mut self, stream: StreamObservation) -> (r: Result<(), GraphBuildError>)
        requires
            old(self).wf(),
            old(self)@.terminal is None,
        ensures
            final(self).wf(),
            (final(self)@, r) == ingest_spec(old(self)@, ObservationRecord::ContentStream(stream)),
    {
        match self.storage_get_idx(stream.parent_entry_id) {
            Some(entry_idx) => {
                proof {
                    if !self.is_dense {
                        let es = self.entries@;
                        assert(has_id(es, stream.parent_entry_id));
                        let k = index_of_id(es, stream.parent_entry_id);
                        assert(0 <= k < es.len());
                    }
                }
                self.pending_streams.push(
                    (
                        entry_idx,
                        StreamBreakdown {
                            name: stream.name,
                            logical_bytes: stream.logical_size,
                            allocated_bytes: stream.allocated_size,
                        },
                    ),
                );
                proof {
                    assert(self@.streams.drop_last() =~= old(self)@.streams);
                    lemma_push_stream(old(self)@, self@);
                }
                Ok(())
            },
            None => Err(GraphBuildError::UnknownStreamParent { entry_id: stream.parent_entry_id }),
        }
    }

    /// Checks the terminal record's totals against the observed aggregates.
    #[verifier::rlimit(40)]
    #[verifier::spinoff_prover]
    fn ingest_terminal(&mut self, term: TerminalObservation) -> (r: Result<(), GraphBuildError>)
        requires
            old(self).wf(),
            old(self)@.terminal is None,
        ensures
            final(self).wf(),
            (final(self)@, r) == ingest_spec(old(self)@, ObservationRecord::Terminal(term)),
    {
        if term.total_directories != self.dir_count {
            return Err(
                GraphBuildError::AggregateMismatch {
                    field: "total_directories",
                    expected: term.total_directories,
                    actual: self.dir_count,
                },
            );
        }
        if term.total_files != self.file_count {
            return Err(
                GraphBuildError::AggregateMismatch {
                    field: "total_files",
                    expected: term.total_files,
                    actual: self.file_count,
                },
            );
        }
        if term.total_logical_bytes != self.logical_bytes {
            return Err(
                GraphBuildError::AggregateMismatch {
                    field: "total_logical_bytes",
                    expected: term.total_logical_bytes,
                    actual: self.logical_bytes,
                },
            );
        }
        if term.total_allocated_bytes != self.allocated_bytes {
            return Err(
                GraphBuildError::AggregateMismatch {
                    field: "total_allocated_bytes",
                    expected: term.total_allocated_bytes,
                    actual: self.allocated_bytes,
                },
            );
        }
        let gap_count: usize = self.gaps.len();
        if term.coverage_gap_count != #[verifier::truncate] (gap_count as u32) {
            return Err(
                GraphBuildError::AggregateMismatch {
                    field: "coverage_gap_count",
                    expected: term.coverage_gap_count as u64,
                    actual: gap_count as u64,
                },
            );
        }
        let ghost v0 = self@;
        self.terminal = Some(term);
        proof {
            lemma_tree_shaped_frame(v0, self@);
        }
        Ok(())
    }

    /// Settles the stream into a directory graph: alias groups and object
    /// records, subtree roll-ups, and sorted child lists. A stream without a
    /// terminal record is refused, and so is a finished one without entries.
    #[verifier::spinoff_prover]
    #[verifier::rlimit(60)]
    pub fn finish(self) -> (r: Result<DirectoryGraph, GraphBuildError>)
        requires
            self.wf(),
            self@.entries.len() < 0xFFFF_FFFF,
        ensures
            self@.terminal is None ==> r == Err::<DirectoryGraph, GraphBuildError>(
                GraphBuildError::MissingTerminal,
            ),
            self@.terminal is Some && self@.entries.len() == 0 && self@.terminal->0.outcome
                == RunOutcome::Finished ==> r == Err::<DirectoryGraph, GraphBuildError>(
                GraphBuildError::InvalidRoot { entry_id: 0, parent_id: 0 },
            ),
            self@.terminal is Some && !(self@.entries.len() == 0 && self@.terminal->0.outcome
                == RunOutcome::Finished) ==> r is Ok && settled_graph(self@, r->Ok_0@),
            r is Ok ==> root_totals_agree(r->Ok_0@),
    {
        let ghost v = self@;
        let ghost m = self.id_to_idx@;
        let GraphBuilder {
            root_target,
            entries,
            parents,
            identities,
            links,
            is_dense,
            id_to_idx,
            pending_streams,
            gaps,
            terminal,
            allocated_bytes_known,
            ..
        } = self;
        let term = match terminal {
            Some(t) => t,
            None => {
                return Err(GraphBuildError::MissingTerminal);
            },
        };
        if entries.len() == 0 {
            if term.outcome == RunOutcome::Finished {
                return Err(GraphBuildError::InvalidRoot { entry_id: 0, parent_id: 0 });
            }
            let storage = EntryStorage::Dense(Vec::new());
            let all_children: Vec<u32> = Vec::new();
            let objects: Vec<crate::graph::ObjectRecord> = Vec::new();
            let object_streams: Vec<Vec<StreamBreakdown>> = Vec::new();
            proof {
                assert(storage_entries(&storage) =~= Seq::<CompactEntry>::empty());
                assert(object_streams@.map_values(|s: Vec<StreamBreakdown>| s@) =~= Seq::<Seq<StreamBreakdown>>::empty());
                assert(!any_alloc_conflict(v.entries, v.identities));
            }
            let g = DirectoryGraph::assemble(
                root_target,
                0,
                storage,
                all_children,
                objects,
                object_streams,
                gaps,
                term,
                allocated_bytes_known,
                0,
            );
            proof {
                let fs = graph_entries(g@);
                assert(fs =~= Seq::<CompactEntry>::empty());
                assert(fs.map_values(|e: CompactEntry| e.object_index) =~= Seq::<u32>::empty());
            }
            return Ok(g);
        }
        let n: usize = entries.len();
        proof {
            assert(entries@ == v.entries);
            assert(identities@ == v.identities);
            assert(links@ == v.links);
            assert(parents@ == v.parents);
            assert(pending_streams@ == v.streams);
        }
        let groups = group_files(&entries, &identities, &links);
        let layer = settle_objects(&entries, &identities, &links, &groups);
        let object_streams = attribute_streams(&pending_streams, &layer.object_index, layer.objects.len());
        let ghost es0 = entries@;
        let ghost oi = layer.object_index@;
        let mut entries = entries;
        settle_entries(&mut entries, &identities, &links, &parents, &groups, &layer.object_index);
        let ghost es1 = entries@;
        proof {
            lemma_settled_keep(es0, es1, identities@, parents@, oi);
        }
        let layout = layout_children(&entries, &parents);
        let all_children = place_children(&mut entries, &layout);
        let ghost fs = entries@;
        let known: bool = allocated_bytes_known && !layer.any_conflict;
        let storage = if is_dense {
            EntryStorage::Dense(entries)
        } else {
            EntryStorage::Sparse { entries, id_to_idx }
        };
        let ghost gv = GraphView {
            root_target: root_target@,
            root_id: 1,
            storage,
            all_children: all_children@,
            objects: layer.objects@,
            object_streams: object_streams@.map_values(|s: Vec<StreamBreakdown>| s@),
            gaps: gaps@,
            terminal: term,
            allocated_bytes_known: known,
            indeterminate: layer.indeterminate,
        };
        proof {
            assert(storage_entries(&storage) == fs);
            lemma_settled_storage(v, m, es1, fs, layout, storage);
            lemma_settled_children(v, es1, fs, layout, all_children@);
            assert(fs.map_values(|e: CompactEntry| e.object_index) =~= oi) by {
                assert forall|i: int| 0 <= i < fs.len() implies #[trigger] fs[i].object_index == oi[i] by {
                    assert(fs[i].object_index == es1[i].object_index);
                }
            }
            assert(graph_wf(gv));
            assert(settled_graph(v, gv));
            lemma_root_totals(v, gv);
        }
        let g = DirectoryGraph::assemble(
            root_target,
            1,
            storage,
            all_children,
            layer.objects,
            object_streams,
            gaps,
            term,
            known,
            layer.indeterminate,
        );
        Ok(g)
    }

    /// The totals observed so far, for a progress report.
    pub fn progress_counts(&self) -> (r: ProgressCounts)
        requires
            self.wf(),
        ensures
            r.directories == count_kind(self@.entries, EntryKind::Directory),
            r.files == count_kind(self@.entries, EntryKind::File),
            r.logical_bytes == sat(sum_logical(self@.entries)),
            r.referenced_allocated_bytes == sat(sum_alloc(self@.entries)),
            r.coverage_gaps == #[verifier::truncate] (self@.gaps.len() as u32),
    {
        ProgressCounts {
            directories: self.dir_count,
            files: self.file_count,
            logical_bytes: self.logical_bytes,
            referenced_allocated_bytes: self.allocated_bytes,
            coverage_gaps: #[verifier::truncate] (self.gaps.len() as u32),
        }
    }

    /// The path of the directory being traversed (see `reconstructed_path`).
    pub fn current_directory_path(&self) -> (r: String)
        requires
            self.wf(),
        ensures
            r@ == reconstructed_path(self@, self@.current_dir_id),
    {
        self.reconstruct_path(self.current_dir_id)
    }

    /// The path of a directory by id (see `reconstructed_path`).
    pub fn reconstruct_path(&self, dir_id: u32) -> (r: String)
        requires
            self.wf(),
        ensures
            r@ == reconstructed_path(self@, dir_id),
    {
        if dir_id == 0 || self.entries.len() == 0 {
            return self.root_target.clone();
        }
        let ghost v = self@;
        let mut up: Vec<usize> = Vec::new();
        let mut curr: u32 = dir_id;
        let mut depth: usize = 0;
        while curr != 0 && depth < 10000
            invariant
                self.wf(),
                v == self@,
                depth <= 10000,
                forall|k: int| 0 <= k < up@.len() ==> (#[trigger] up@[k]) < v.entries.len(),
                walk_up(v, dir_id, 10000) == up@.map_values(|x: usize| x as int) + walk_up(
                    v,
                    curr,
                    (10000 - depth) as nat,
                ),
            ensures
                forall|k: int| 0 <= k < up@.len() ==> (#[trigger] up@[k]) < v.entries.len(),
                walk_up(v, dir_id, 10000) =~= up@.map_values(|x: usize| x as int),
            decreases 10000 - depth,
        {
            match self.storage_get_idx(curr) {
                None => {
                    proof {
                        assert(walk_up(v, curr, (10000 - depth) as nat) == Seq::<int>::empty());
                        assert(up@.map_values(|x: usize| x as int) + Seq::<int>::empty() =~= up@.map_values(|x: usize| x as int));
                    }
                    break;
                },
                Some(idx) => {
                    proof {
                        if !self.is_dense {
                            let es = self.entries@;
                            assert(has_id(es, curr));
                        }
                        assert(walk_up(v, curr, (10000 - depth) as nat) == seq![idx as int] + walk_up(
                            v,
                            v.entries[idx as int].parent_id,
                            (10000 - depth - 1) as nat,
                        ));
                    }
                    let ghost up0 = up@;
                    up.push(idx);
                    proof {
                        assert(up@.map_values(|x: usize| x as int) =~= up0.map_values(|x: usize| x as int).push(idx as int));
                        assert(up0.map_values(|x: usize| x as int) + (seq![idx as int] + walk_up(
                            v,
                            v.entries[idx as int].parent_id,
                            (10000 - depth - 1) as nat,
                        )) =~= up@.map_values(|x: usize| x as int) + walk_up(
                            v,
                            v.entries[idx as int].parent_id,
                            (10000 - depth - 1) as nat,
                        ));
                    }
                    curr = self.entries[idx].parent_id;
                    depth += 1;
                },
            }
        }
        let ghost w = walk_up(v, dir_id, 10000);
        proof {
            assert(w =~= up@.map_values(|x: usize| x as int));
        }
        let len: usize = up.len();
        if len == 0 {
            return self.root_target.clone();
        }
        let ghost names = walk_names(v, w);
        let mut out: Vec<char> = Vec::new();
        crate::text::append_chars(&mut out, self.entries[up[len - 1]].name.as_str());
        proof {
            assert(names[0] == v.entries[w[len - 1]].name@);
            assert(out@ == join_components(names, 1));
        }
        let mut k: usize = 1;
        while k < len
            invariant
                1 <= k <= len,
                len == up@.len(),
                len == w.len(),
                w == up@.map_values(|x: usize| x as int),
                names == walk_names(v, w),
                v == self@,
                forall|j: int| 0 <= j < up@.len() ==> (#[trigger] up@[j]) < v.entries.len(),
                out@ == join_components(names, k as int),
            decreases len - k,
        {
            let n_out: usize = out.len();
            let sep: bool = n_out > 0 && (out[n_out - 1] == '\\' || out[n_out - 1] == '/');
            if !sep {
                out.push('\\');
            }
            let ghost mid = out@;
            crate::text::append_chars(&mut out, self.entries[up[len - 1 - k]].name.as_str());
            proof {
                assert(names[k as int] == v.entries[w[len - 1 - k]].name@);
                assert(out@ == join_components(names, k + 1));
            }
            k += 1;
        }
        crate::text::string_from_chars(out.as_slice())
    }

    /// Whether every file observed so far carries an allocation size.
    pub fn allocated_bytes_known(&self) -> (r: bool)
        requires
            self.wf(),
        ensures
            r == all_files_alloc_known(self@.entries),
    {
        self.allocated_bytes_known
    }
}

/// Builds a graph from a whole record stream scanned under `root_target`:
/// each record is ingested in order, the first refusal is returned, and a
/// stream taken whole is settled (see `build_outcome`).
#[verifier::spinoff_prover]
#[verifier::rlimit(40)]
pub fn build_graph(root_target: String, records: Vec<ObservationRecord>) -> (r: Result<
    DirectoryGraph,
    GraphBuildError,
>)
    requires
        records.len() < 0xFFFF_FFFF,
    ensures
        build_outcome(fresh_view(root_target@), records@, r),
        r is Ok ==> root_totals_agree(r->Ok_0@),
{
    let ghost recs = records@;
    let ghost rt = root_target@;
    let mut builder = GraphBuilder::new(root_target);
    let ghost v0 = builder@;
    for rec in it: records.into_iter()
        invariant
            builder.wf(),
            it.seq() == recs,
            recs == records@,
            v0 == fresh_view(rt),
            rt == root_target@,
            recs.len() < 0xFFFF_FFFF,
            ingest_upto(v0, recs, it.index() as nat) == (builder@, Ok::<(), GraphBuildError>(())),
            builder@.entries.len() <= it.index(),
    {
        let ghost i = it.index();
        let ghost before = builder@;
        let res = builder.ingest_record(rec);
        proof {
            assert(rec == recs[i]);
            assert(ingest_upto(v0, recs, (i + 1) as nat) == ingest_spec(before, recs[i]));
        }
        if let Err(e) = res {
            proof {
                assert(i + 1 <= recs.len());
                assert(ingest_upto(v0, recs, (i + 1) as nat).1 == Err::<(), GraphBuildError>(e));
                lemma_ingest_stops(v0, recs, (i + 1) as nat, recs.len());
            }
            return Err(e);
        }
    }
    builder.finish()
}

} // verus!
