//! Properties of the library that span several calls or hold of every input.

use crate::aggregate::{
    alloc_conflict, alloc_fold, alloc_init, alloc_step, group_record, grouped, is_rep, link_fold,
    member,
};
use crate::builder::{
    all_files_alloc_known, dir_entry, entry_facts, insert_spec, same_content, lookup_index, terminal_check, file_entry, has_id, index_of_id, ingest_spec, lemma_sum_alloc_prefix, settled_graph,
    special_entry, sum_alloc, tree_shaped, BuilderView, GraphBuildError,
};
use crate::cli::{
    format_name, parse_format, scan_exit_code_spec, OutputFormat, EXIT_CANCELLED, EXIT_SUCCESS,
};
use crate::graph::{
    child_ids_of, first_seen, graph_entries, graph_wf, is_entry_id, lemma_listing_entry_ids, listing,
    nonzero_ids, page_window, reportable, reported_entry, reported_objects,
    resolvable, storage_lookup, CompactEntry, EntryKind,
    GraphView,
};
use crate::layout::{child_seq, ids_at, lemma_child_seq};
use crate::model::{
    ExternalReferenceStatus, ObjectIdentity, ObservationRecord, RunOutcome, StreamObservation,
    ValueKnowledge,
};
use crate::order::{entry_key, key_lt};
use crate::process::{backslashes, forces_quotes, needs_quotes, quote_body, quoted_arg};
use crate::runner::expected_exit_code;
use crate::scan_call::{scan_step, ScanCallView, ScanFrame, ScanStep};
use crate::security::{channel_key_input, sha256_digest};
use crate::session::{client_handshake_verdict, server_handshake_ok, HandshakeRejection};
use crate::rollup::{base_vals, covers, group_weight, presence, referenced_vals, settled_entry};
use crate::security::{broad_sid, grant, granted_restricted, pipe_sddl, restricted_grants};
use crate::text::trim_seq;
use crate::validator::{
    lemma_encode_nonzero, lemma_nul_len, lemma_utf16_round_trip, nul_terminated_len,
    utf16_decode_lossy, utf16_encode,
};
use crate::tree::{
    anc, lemma_anc_root, lemma_subtree_sum_bound, lemma_subtree_sum_root, parents_ok, prefix_sum,
    subtree_sum,
};
use vstd::prelude::*;

verus! {

/// The entry a directory, file or special record offers.
pub open spec fn offered_entry(rec: ObservationRecord) -> Option<CompactEntry> {
    match rec {
        ObservationRecord::Directory(d) => Some(dir_entry(d)),
        ObservationRecord::File(f) => Some(file_entry(f)),
        ObservationRecord::Special(s) => Some(special_entry(s)),
        _ => None,
    }
}

/// Once the terminal record is in, every further record is refused with
/// `RecordAfterTerminal` and changes nothing.
pub proof fn law_terminal_is_final(v: BuilderView, rec: ObservationRecord)
    requires
        v.terminal is Some,
    ensures
        ingest_spec(v, rec) == (v, Err::<(), GraphBuildError>(GraphBuildError::RecordAfterTerminal)),
{
}

/// A refused record adds no entry, content stream, coverage gap or terminal.
pub proof fn law_refusal_adds_nothing(v: BuilderView, rec: ObservationRecord)
    requires
        ingest_spec(v, rec).1 is Err,
    ensures
        ingest_spec(v, rec).0.entries == v.entries,
        ingest_spec(v, rec).0.parents == v.parents,
        ingest_spec(v, rec).0.streams == v.streams,
        ingest_spec(v, rec).0.gaps == v.gaps,
        ingest_spec(v, rec).0.terminal == v.terminal,
{
}

/// An accepted directory, file or special record appends exactly the entry it
/// offers, and touches no stream, gap or terminal.
pub proof fn law_accepted_entry_appends(v: BuilderView, rec: ObservationRecord)
    requires
        offered_entry(rec) is Some,
        ingest_spec(v, rec).1 is Ok,
    ensures
        ingest_spec(v, rec).0.entries == v.entries.push(offered_entry(rec)->0),
        ingest_spec(v, rec).0.streams == v.streams,
        ingest_spec(v, rec).0.gaps == v.gaps,
        ingest_spec(v, rec).0.terminal == v.terminal,
{
}

/// A content stream never creates an entry and never changes the entries,
/// and so none of the aggregates computed from them.
pub proof fn law_streams_leave_entries(v: BuilderView, st: StreamObservation)
    ensures
        ingest_spec(v, ObservationRecord::ContentStream(st)).0.entries == v.entries,
        ingest_spec(v, ObservationRecord::ContentStream(st)).0.parents == v.parents,
        ingest_spec(v, ObservationRecord::ContentStream(st)).0.gaps == v.gaps,
        ingest_spec(v, ObservationRecord::ContentStream(st)).0.terminal == v.terminal,
{
}

/// An entry id already taken is refused as a duplicate whenever the record
/// passes the checks made before it (no self parent, not shaped like a root).
pub proof fn law_duplicate_id_refused(v: BuilderView, rec: ObservationRecord)
    requires
        tree_shaped(v),
        v.terminal is None,
        v.entries.len() > 0,
        offered_entry(rec) is Some,
        has_id(v.entries, offered_entry(rec)->0.id),
        offered_entry(rec)->0.id != offered_entry(rec)->0.parent_id,
        offered_entry(rec)->0.parent_id != 0,
        offered_entry(rec)->0.id != 1,
    ensures
        ingest_spec(v, rec).1 == Err::<(), GraphBuildError>(
            GraphBuildError::DuplicateEntryId(offered_entry(rec)->0.id),
        ),
{
    let e = offered_entry(rec)->0;
    let n = v.entries.len();
    let i = choose|i: int| 0 <= i < n && (#[trigger] v.entries[i]).id == e.id;
    if v.dense {
        assert(v.entries[i].id == i + 1);
    }
}


/// No two files carry the same object identity.
pub open spec fn identities_distinct(es: Seq<CompactEntry>, ids: Seq<Option<ObjectIdentity>>) -> bool {
    forall|i: int, j: int|
        0 <= i < j < es.len() && grouped(es, ids, i) && grouped(es, ids, j) ==> ids[i] != ids[j]
}

/// The referenced allocation of the files that carry an identity, 0 elsewhere.
pub open spec fn grouped_vals(es: Seq<CompactEntry>, ids: Seq<Option<ObjectIdentity>>) -> Seq<u64> {
    Seq::new(
        es.len(),
        |i: int|
            if grouped(es, ids, i) {
                es[i].referenced_allocated_bytes
            } else {
                0
            },
    )
}

/// The allocation evidence of an identity carried by one file only.
proof fn lemma_single_member_fold(
    es: Seq<CompactEntry>,
    ids: Seq<Option<ObjectIdentity>>,
    x: ObjectIdentity,
    i: int,
    m: int,
)
    requires
        0 <= i < es.len(),
        0 <= m <= es.len(),
        member(es, ids, x, i),
        forall|k: int| 0 <= k < es.len() && #[trigger] member(es, ids, x, k) ==> k == i,
    ensures
        alloc_fold(es, ids, x, m) == if m > i {
            alloc_step(alloc_init(), es[i].allocated_size)
        } else {
            alloc_init()
        },
    decreases m,
{
    if m > 0 {
        lemma_single_member_fold(es, ids, x, i, m - 1);
    }
}

/// With every identity carried by one file, the weights of the alias groups
/// present in a subtree are the referenced allocations of its identified files.
proof fn lemma_presence_singletons(
    es: Seq<CompactEntry>,
    ids: Seq<Option<ObjectIdentity>>,
    p: Seq<usize>,
    d: int,
    m: int,
)
    requires
        ids.len() == es.len(),
        0 <= m <= es.len(),
        identities_distinct(es, ids),
        forall|i: int|
            0 <= i < es.len() && grouped(es, ids, i) ==> (#[trigger] es[i]).referenced_allocated_bytes
                == match es[i].allocated_size {
                Some(a) => a,
                None => 0u64,
            },
    ensures
        presence(es, ids, p, d, m) == subtree_sum(p, grouped_vals(es, ids), d, m),
    decreases m,
{
    if m > 0 {
        lemma_presence_singletons(es, ids, p, d, m - 1);
        let j = m - 1;
        if grouped(es, ids, j) {
            let x = ids[j]->0;
            assert forall|k: int| 0 <= k < es.len() && #[trigger] member(es, ids, x, k) implies k == j by {
                if k < j {
                    assert(grouped(es, ids, k));
                } else if k > j {
                    assert(grouped(es, ids, k));
                }
            }
            assert(member(es, ids, x, j));
            assert(is_rep(es, ids, j));
            if anc(p, d, j) {
                assert(covers(es, ids, p, d, x));
            } else {
                if covers(es, ids, p, d, x) {
                    let k = choose|k: int| 0 <= k < es.len() && member(es, ids, x, k) && #[trigger] anc(p, d, k);
                    assert(k == j);
                }
            }
            lemma_single_member_fold(es, ids, x, j, es.len() as int);
        } else {
            assert(!is_rep(es, ids, j));
        }
    }
}

/// A subtree sum of pointwise sums is the sum of the subtree sums.
proof fn lemma_subtree_sum_add(p: Seq<usize>, a: Seq<u64>, b: Seq<u64>, c: Seq<u64>, d: int, m: int)
    requires
        0 <= m <= a.len(),
        a.len() == b.len(),
        a.len() == c.len(),
        forall|i: int| 0 <= i < a.len() ==> c[i] as int == a[i] as int + b[i] as int,
    ensures
        subtree_sum(p, c, d, m) == subtree_sum(p, a, d, m) + subtree_sum(p, b, d, m),
    decreases m,
{
    if m > 0 {
        lemma_subtree_sum_add(p, a, b, c, d, m - 1);
    }
}

/// A subtree sum is at most the sum over all nodes.
proof fn lemma_subtree_le_prefix(p: Seq<usize>, vals: Seq<u64>, d: int, m: int)
    requires
        0 <= m <= vals.len(),
    ensures
        subtree_sum(p, vals, d, m) <= prefix_sum(vals, m),
    decreases m,
{
    if m > 0 {
        lemma_subtree_le_prefix(p, vals, d, m - 1);
    }
}

/// When no two files share an object identity and the allocation total fits
/// in 64 bits, every entry's unique allocation equals its referenced
/// allocation: without hard links nothing is counted twice.
pub proof fn law_independent_files_count_once(v: BuilderView, g: GraphView)
    requires
        tree_shaped(v),
        settled_graph(v, g),
        identities_distinct(v.entries, v.identities),
        sum_alloc(v.entries) <= 0xFFFF_FFFF_FFFF_FFFF,
    ensures
        forall|i: int|
            0 <= i < graph_entries(g).len() ==> (#[trigger] graph_entries(g)[i]).unique_allocated_bytes
                == graph_entries(g)[i].referenced_allocated_bytes,
{
    let es = v.entries;
    let ids = v.identities;
    let p = v.parents;
    let n = es.len() as int;
    let fs = graph_entries(g);
    let oi = fs.map_values(|e: CompactEntry| e.object_index);
    lemma_sum_alloc_prefix(v, n);
    assert(es.subrange(0, n) =~= es);
    assert forall|i: int|
        0 <= i < es.len() && grouped(es, ids, i) implies (#[trigger] es[i]).referenced_allocated_bytes
            == match es[i].allocated_size {
            Some(a) => a,
            None => 0u64,
        } by {
        assert(entry_facts(es[i], v.self_alloc[i], ids[i], v.links[i]));
    }
    assert forall|i: int| 0 <= i < fs.len() implies (#[trigger] fs[i]).unique_allocated_bytes
        == fs[i].referenced_allocated_bytes by {
        assert(fs[i] == (CompactEntry {
            child_start: fs[i].child_start,
            child_count: fs[i].child_count,
            ..settled_entry(es, ids, p, oi, i)
        }));
        assert(entry_facts(es[i], v.self_alloc[i], ids[i], v.links[i]));
        if es[i].kind == EntryKind::Directory {
            lemma_presence_singletons(es, ids, p, i, n);
            lemma_subtree_sum_add(p, base_vals(es, ids), grouped_vals(es, ids), referenced_vals(es), i, n);
            lemma_subtree_le_prefix(p, referenced_vals(es), i, n);
        } else if es[i].kind == EntryKind::File && grouped(es, ids, i) {
            let x = ids[i]->0;
            assert forall|k: int| 0 <= k < es.len() && #[trigger] member(es, ids, x, k) implies k == i by {
                if k < i {
                    assert(grouped(es, ids, k));
                } else if k > i {
                    assert(grouped(es, ids, k));
                }
            }
            lemma_single_member_fold(es, ids, x, i, n);
        }
    }
}


/// The objects first seen among the first `m` entries are all reportable.
proof fn lemma_first_seen_reportable(v: GraphView, m: int)
    ensures
        forall|k: int|
            0 <= k < first_seen(v, m).len() ==> reportable(
                v.objects[#[trigger] first_seen(v, m)[k] as int],
            ),
    decreases m,
{
    if m > 0 {
        lemma_first_seen_reportable(v, m - 1);
        let s = first_seen(v, m - 1);
        let o = graph_entries(v)[m - 1].object_index;
        if reported_entry(v, m - 1) && !s.contains(o) {
            assert forall|k: int| 0 <= k < s.push(o).len() implies reportable(
                v.objects[#[trigger] s.push(o)[k] as int],
            ) by {
                if k < s.len() {
                    assert(s.push(o)[k] == s[k]);
                }
            }
        }
    }
}

/// Every object that the hard-link report lists carries an identity and is
/// worth reporting: two or more observed aliases, or an external-reference
/// status that says something definitive about links outside the target.
pub proof fn law_hard_link_report_lists_reportable(v: GraphView)
    ensures
        forall|k: int|
            0 <= k < reported_objects(v).len() ==> {
                &&& reportable(v.objects[#[trigger] reported_objects(v)[k] as int])
                &&& v.objects[reported_objects(v)[k] as int].identity is Some
            },
{
    let n = graph_entries(v).len() as int;
    let s = first_seen(v, n);
    let pred = |o: u32| v.objects[o as int].identity is Some;
    lemma_first_seen_reportable(v, n);
    assert forall|k: int| 0 <= k < reported_objects(v).len() implies {
        &&& reportable(v.objects[#[trigger] reported_objects(v)[k] as int])
        &&& v.objects[reported_objects(v)[k] as int].identity is Some
    } by {
        let o = reported_objects(v)[k];
        assert(reported_objects(v) == s.filter(pred));
        s.lemma_filter_pred(pred, k);
        assert(s.filter(pred).contains(o));
        s.lemma_filter_contains_rev(pred, o);
        let j = choose|j: int| 0 <= j < s.len() && s[j] == o;
        assert(reportable(v.objects[s[j] as int]));
    }
}


/// Every settled child list is strictly ordered by the display key
/// (`key_lt` of `entry_key`): directories before everything else, then the
/// larger logical size first, then the case-folded name, the name and the id
/// ascending. In particular a directory is never listed after a
/// non-directory, and among children of the same kind a larger logical size
/// comes first.
pub proof fn law_children_directories_first(v: BuilderView, g: GraphView, i: int, a: int, b: int)
    requires
        settled_graph(v, g),
        0 <= i < graph_entries(g).len(),
        0 <= a < b < child_ids_of(g, graph_entries(g)[i]).len(),
    ensures
        ({
            let fs = graph_entries(g);
            let cs = child_ids_of(g, fs[i]);
            let ea = fs[index_of_id(fs, cs[a])];
            let eb = fs[index_of_id(fs, cs[b])];
            &&& eb.kind == EntryKind::Directory ==> ea.kind == EntryKind::Directory
            &&& key_lt(entry_key(ea), entry_key(eb))
            &&& (ea.kind == EntryKind::Directory) == (eb.kind == EntryKind::Directory) ==> entry_key(
                ea,
            ).1 >= entry_key(eb).1
        }),
{
    let fs = graph_entries(g);
    assert(0 <= i < v.entries.len());
    let cs = child_ids_of(g, fs[i]);
    assert(key_lt(entry_key(fs[index_of_id(fs, cs[a])]), entry_key(fs[index_of_id(fs, cs[b])])));
}


/// Consecutive pages of a listing join up: the page of `l1` children from
/// `offset` followed by the page of `l2` children from where it ended is
/// the page of `l1 + l2` children from `offset`, also once only the
/// entries that can be looked up are shown.
pub proof fn law_pages_join(v: GraphView, ids: Seq<u32>, offset: int, l1: int, l2: int)
    requires
        0 <= offset,
        0 <= l1,
        0 <= l2,
    ensures
        page_window(ids, offset, l1) + page_window(ids, offset + l1, l2) == page_window(
            ids,
            offset,
            l1 + l2,
        ),
        resolvable(v, page_window(ids, offset, l1)) + resolvable(v, page_window(ids, offset + l1, l2))
            == resolvable(v, page_window(ids, offset, l1 + l2)),
{
    let a = page_window(ids, offset, l1);
    let b = page_window(ids, offset + l1, l2);
    assert(a + b =~= page_window(ids, offset, l1 + l2));
    let pred = |id: u32| storage_lookup(&v.storage, id) is Some;
    Seq::filter_distributes_over_add(a, b, pred);
}


/// The restricted SIDs that the pipe grants, trimmed, in order, among the first `m`.
pub open spec fn granted_sids(user_sid: Seq<char>, rs: Seq<Seq<char>>, m: int) -> Seq<Seq<char>>
    decreases m,
{
    if m <= 0 {
        Seq::empty()
    } else if granted_restricted(user_sid, rs[m - 1]) {
        granted_sids(user_sid, rs, m - 1).push(trim_seq(rs[m - 1]))
    } else {
        granted_sids(user_sid, rs, m - 1)
    }
}

/// The access-control entries granting each SID of `sids`, in order.
pub open spec fn grants_of(sids: Seq<Seq<char>>) -> Seq<char>
    decreases sids.len(),
{
    if sids.len() == 0 {
        Seq::empty()
    } else {
        grants_of(sids.drop_last()) + grant(sids.last())
    }
}

proof fn lemma_restricted_grants(user_sid: Seq<char>, rs: Seq<Seq<char>>, m: int)
    ensures
        restricted_grants(user_sid, rs, m) == grants_of(granted_sids(user_sid, rs, m)),
        forall|k: int|
            0 <= k < granted_sids(user_sid, rs, m).len() ==> {
                let s = #[trigger] granted_sids(user_sid, rs, m)[k];
                &&& s.len() > 0
                &&& s != user_sid
                &&& !broad_sid(s)
            },
    decreases m,
{
    if m > 0 {
        lemma_restricted_grants(user_sid, rs, m - 1);
        let g = granted_sids(user_sid, rs, m - 1);
        if granted_restricted(user_sid, rs[m - 1]) {
            assert(g.push(trim_seq(rs[m - 1])).drop_last() =~= g);
        }
    }
}

/// The SIDs the pipe grants, in order: the user SID unless it is empty or
/// broad, then the granted restricted SIDs.
pub open spec fn pipe_granted_sids(user_sid: Seq<char>, rs: Seq<Seq<char>>) -> Seq<Seq<char>> {
    (if broad_sid(user_sid) {
        Seq::empty()
    } else {
        seq![user_sid]
    }) + granted_sids(user_sid, rs, rs.len() as int)
}

/// The pipe's DACL grants exactly the SIDs of `pipe_granted_sids`, none of
/// which is empty or names a broad well-known group, and no restricted SID
/// repeats the user SID: a broad group is never granted access.
pub proof fn law_pipe_grants_only_user_and_specific_sids(user_sid: Seq<char>, rs: Seq<Seq<char>>)
    ensures
        pipe_sddl(user_sid, rs) == "D:"@ + grants_of(pipe_granted_sids(user_sid, rs))
            + "S:(ML;;NW;;;ME)"@,
        forall|k: int|
            0 <= k < pipe_granted_sids(user_sid, rs).len() ==> {
                let s = #[trigger] pipe_granted_sids(user_sid, rs)[k];
                &&& trim_seq(s).len() > 0
                &&& !broad_sid(s)
            },
        forall|k: int|
            0 <= k < granted_sids(user_sid, rs, rs.len() as int).len() ==> #[trigger] granted_sids(
                user_sid,
                rs,
                rs.len() as int,
            )[k] != user_sid,
{
    let gs = granted_sids(user_sid, rs, rs.len() as int);
    lemma_restricted_grants(user_sid, rs, rs.len() as int);
    if broad_sid(user_sid) {
        assert(pipe_granted_sids(user_sid, rs) =~= gs);
        assert("D:"@ + Seq::<char>::empty() =~= "D:"@);
    } else {
        lemma_grants_prepend(user_sid, gs);
    }
    assert forall|k: int| 0 <= k < pipe_granted_sids(user_sid, rs).len() implies {
        let s = #[trigger] pipe_granted_sids(user_sid, rs)[k];
        &&& trim_seq(s).len() > 0
        &&& !broad_sid(s)
    } by {
        if !broad_sid(user_sid) && k == 0 {
        } else {
            let j = if broad_sid(user_sid) { k } else { k - 1 };
            assert(pipe_granted_sids(user_sid, rs)[k] == gs[j]);
        }
    }
}

/// Granting one more SID in front puts its entry in front.
proof fn lemma_grants_prepend(first: Seq<char>, sids: Seq<Seq<char>>)
    ensures
        grants_of(seq![first] + sids) == grant(first) + grants_of(sids),
    decreases sids.len(),
{
    let all = seq![first] + sids;
    if sids.len() == 0 {
        assert(all.drop_last() =~= Seq::<Seq<char>>::empty());
        assert(all.last() == first);
        assert(grants_of(all) == grants_of(all.drop_last()) + grant(all.last()));
        assert(grants_of(all) =~= grant(first));
        assert(grant(first) + grants_of(sids) =~= grant(first));
    } else {
        lemma_grants_prepend(first, sids.drop_last());
        assert(all.drop_last() =~= seq![first] + sids.drop_last());
        assert(all.last() == sids.last());
        assert(grants_of(all) == grants_of(all.drop_last()) + grant(all.last()));
        assert(grants_of(sids) == grants_of(sids.drop_last()) + grant(sids.last()));
        assert(grant(first) + grants_of(sids.drop_last()) + grant(sids.last()) =~= grant(first) + (
        grants_of(sids.drop_last()) + grant(sids.last())));
    }
}


/// How a Windows command-line parser reads the rest of a quoted argument,
/// `pending` backslashes having been read: `2n` backslashes before a quote
/// give `n` backslashes and that quote closes the argument (which must end
/// there), `2n + 1` give `n` backslashes and a literal quote, and
/// backslashes before any other character are literal.
pub open spec fn read_quoted(t: Seq<char>, pending: nat) -> Option<Seq<char>>
    decreases t.len(),
{
    if t.len() == 0 {
        None
    } else if t[0] == '\\' {
        read_quoted(t.drop_first(), pending + 1)
    } else if t[0] == '"' {
        if pending % 2 == 0 {
            if t.len() == 1 {
                Some(backslashes(pending / 2))
            } else {
                None
            }
        } else {
            match read_quoted(t.drop_first(), 0) {
                Some(rest) => Some(backslashes((pending / 2) as nat) + seq!['"'] + rest),
                None => None,
            }
        }
    } else {
        match read_quoted(t.drop_first(), 0) {
            Some(rest) => Some(backslashes(pending) + seq![t[0]] + rest),
            None => None,
        }
    }
}

/// How a Windows command-line parser reads one argument: a quoted one as
/// `read_quoted` says, an unquoted one (no blank, no quote) as it stands.
pub open spec fn read_arg(t: Seq<char>) -> Option<Seq<char>> {
    if t.len() > 0 && t[0] == '"' {
        read_quoted(t.drop_first(), 0)
    } else if t.len() > 0 && !needs_quotes(t) {
        Some(t)
    } else {
        None
    }
}

proof fn lemma_read_backslashes(j: nat, t: Seq<char>, pending: nat)
    ensures
        read_quoted(backslashes(j) + t, pending) == read_quoted(t, pending + j),
    decreases j,
{
    if j > 0 {
        let u = backslashes(j) + t;
        assert(u[0] == '\\');
        assert(u.drop_first() =~= backslashes((j - 1) as nat) + t);
        lemma_read_backslashes((j - 1) as nat, t, pending + 1);
    } else {
        assert(backslashes(0) + t =~= t);
    }
}

proof fn lemma_read_quote_body(s: Seq<char>, k: nat)
    ensures
        read_quoted(quote_body(s, k) + seq!['"'], 0) == Some(backslashes(k) + s),
    decreases s.len(),
{
    let close = seq!['"'];
    if s.len() == 0 {
        lemma_read_backslashes(2 * k, close, 0);
        assert(quote_body(s, k) + close == backslashes(2 * k) + close);
        assert((2 * k) / 2 == k) by (nonlinear_arith);
        assert(backslashes(k) + s =~= backslashes(k));
    } else if s[0] == '\\' {
        lemma_read_quote_body(s.drop_first(), k + 1);
        assert(backslashes(k + 1) + s.drop_first() =~= backslashes(k) + s);
    } else if s[0] == '"' {
        lemma_read_quote_body(s.drop_first(), 0);
        let rest = quote_body(s.drop_first(), 0) + close;
        let t = seq!['"'] + rest;
        assert(quote_body(s, k) + close =~= backslashes(2 * k + 1) + t);
        lemma_read_backslashes(2 * k + 1, t, 0);
        assert(t[0] == '"');
        assert(t.drop_first() =~= rest);
        assert(((2 * k + 1) as nat) % 2 == 1) by (nonlinear_arith);
        assert(((2 * k + 1) as nat) / 2 == k) by (nonlinear_arith);
        assert(backslashes(0) + s.drop_first() =~= s.drop_first());
        assert(backslashes(k) + seq!['"'] + s.drop_first() =~= backslashes(k) + s);
    } else {
        lemma_read_quote_body(s.drop_first(), 0);
        let rest = quote_body(s.drop_first(), 0) + close;
        let t = seq![s[0]] + rest;
        assert(quote_body(s, k) + close =~= backslashes(k) + t);
        lemma_read_backslashes(k, t, 0);
        assert(t[0] == s[0]);
        assert(t.drop_first() =~= rest);
        assert(backslashes(0) + s.drop_first() =~= s.drop_first());
        assert(backslashes(k) + seq![s[0]] + s.drop_first() =~= backslashes(k) + s);
    }
}

/// Every argument, once quoted, reads back as itself under the Windows
/// command-line parsing rules.
pub proof fn law_quoted_arg_reads_back(s: Seq<char>)
    ensures
        read_arg(quoted_arg(s)) == Some(s),
{
    if s.len() == 0 {
        let q = seq!['"', '"'];
        assert(q.drop_first() =~= seq!['"']);
        assert(backslashes(0) =~= s);
    } else if needs_quotes(s) {
        let q = seq!['"'] + quote_body(s, 0) + seq!['"'];
        assert(q.drop_first() =~= quote_body(s, 0) + seq!['"']);
        lemma_read_quote_body(s, 0);
        assert(backslashes(0) + s =~= s);
    } else {
        assert(s[0] != '"') by {
            if s[0] == '"' {
                assert(forces_quotes(s[0]));
            }
        }
    }
}


/// A format's name parses back to that format.
pub proof fn law_format_name_parses_back(f: OutputFormat)
    ensures
        parse_format(format_name(f)) == Ok::<OutputFormat, Seq<char>>(f),
{
    reveal_strlit("json");
    reveal_strlit("ndjson");
    assert(format_name(OutputFormat::Ndjson) != "json"@) by {
        assert(format_name(OutputFormat::Ndjson).len() != "json"@.len());
    }
}

/// A cancelled scan always exits with the cancellation code, whatever the
/// run outcome, gaps or scope say; and a scan exits successfully exactly
/// when it was not cancelled, finished, and covered its whole scope.
pub proof fn law_exit_code_precedence(
    is_cancelled: bool,
    run_outcome: RunOutcome,
    has_gaps: bool,
    scope_partial: bool,
)
    ensures
        is_cancelled ==> scan_exit_code_spec(is_cancelled, run_outcome, has_gaps, scope_partial)
            == EXIT_CANCELLED,
        (scan_exit_code_spec(is_cancelled, run_outcome, has_gaps, scope_partial) == EXIT_SUCCESS) <==> (
        !is_cancelled && run_outcome == RunOutcome::Finished && !has_gaps && !scope_partial),
{
}

/// Each run outcome calls for its own worker exit code, so the exit code
/// tells the outcome apart.
pub proof fn law_worker_exit_codes_distinct(a: RunOutcome, b: RunOutcome)
    ensures
        expected_exit_code(a) == expected_exit_code(b) ==> a == b,
{
}

/// Whatever frame arrives, a scan call keeps its operation id, never
/// forgets a sent cancel, and its last progress sequence number never
/// decreases; an accepted progress report strictly increases it.
pub proof fn law_scan_call_progress_monotone(s: ScanCallView, f: ScanFrame)
    ensures
        scan_step(s, f).0.operation_id == s.operation_id,
        scan_step(s, f).0.cancel_sent == s.cancel_sent,
        scan_step(s, f).0.last_progress_seq >= s.last_progress_seq,
        scan_step(s, f).1 == ScanStep::Progress ==> scan_step(s, f).0.last_progress_seq
            > s.last_progress_seq,
{
}

/// Once a cancel was sent, the call never ends as finished.
pub proof fn law_cancel_sent_never_finishes(s: ScanCallView, f: ScanFrame)
    requires
        s.cancel_sent,
    ensures
        scan_step(s, f).1 != ScanStep::Finished,
{
}

/// A client that presents the launch nonce and its own process id is
/// accepted, and the engine's answer carrying the channel key derived from
/// the three nonces is accepted by the client: both ends hold the same key.
pub proof fn law_honest_handshake_accepted(
    bootstrap_nonce: Seq<u8>,
    client_nonce: Seq<u8>,
    server_nonce: Seq<u8>,
    client_pid: u32,
    engine_pid: u32,
)
    ensures
        client_handshake_verdict(true, bootstrap_nonce, client_pid, bootstrap_nonce, client_pid)
            == Ok::<(), HandshakeRejection>(()),
        server_handshake_ok(
            true,
            0,
            engine_pid,
            sha256_digest(channel_key_input(bootstrap_nonce, client_nonce, server_nonce)),
            engine_pid,
            bootstrap_nonce,
            client_nonce,
            server_nonce,
        ),
{
}

/// A request with any other nonce than the launch nonce is refused on the
/// command channel, whatever process id it claims.
pub proof fn law_wrong_nonce_refused(presented: Seq<u8>, bootstrap_nonce: Seq<u8>, presented_pid: u32, connected_pid: u32)
    requires
        presented != bootstrap_nonce,
    ensures
        client_handshake_verdict(true, presented, presented_pid, bootstrap_nonce, connected_pid)
            == Err::<(), HandshakeRejection>(HandshakeRejection::NonceMismatch),
{
}


/// A settled directory's child list names exactly the entries whose parent
/// it is: every entry but the root is listed under its parent, and nowhere else.
pub proof fn law_children_are_the_entries_under(v: BuilderView, g: GraphView, i: int, j: int)
    requires
        tree_shaped(v),
        settled_graph(v, g),
        graph_wf(g),
        0 <= i < graph_entries(g).len(),
        0 <= j < graph_entries(g).len(),
    ensures
        child_ids_of(g, graph_entries(g)[i]).contains(graph_entries(g)[j].id) <==> (j > 0
            && graph_entries(g)[j].parent_id == graph_entries(g)[i].id),
{
    let es = v.entries;
    let p = v.parents;
    let n = es.len() as int;
    let fs = graph_entries(g);
    let oi = fs.map_values(|e: CompactEntry| e.object_index);
    let cs = child_seq(p, i, n);
    let kids = child_ids_of(g, fs[i]);
    assert(fs[i] == (CompactEntry {
        child_start: fs[i].child_start,
        child_count: fs[i].child_count,
        ..settled_entry(es, v.identities, p, oi, i)
    }));
    assert(fs[j] == (CompactEntry {
        child_start: fs[j].child_start,
        child_count: fs[j].child_count,
        ..settled_entry(es, v.identities, p, oi, j)
    }));
    lemma_child_seq(p, i, n);
    assert(kids.to_set() == ids_at(es, cs).to_set());
    if kids.contains(fs[j].id) {
        assert(kids.to_set().contains(fs[j].id));
        assert(ids_at(es, cs).to_set().contains(es[j].id));
        let s = choose|s: int| 0 <= s < ids_at(es, cs).len() && ids_at(es, cs)[s] == es[j].id;
        let k = cs[s] as int;
        assert(es[k].id == es[j].id);
        assert(k == j) by {
            if k != j {
                if k < j {
                    assert(es[k].id != es[j].id);
                } else {
                    assert(es[j].id != es[k].id);
                }
            }
        }
        assert(p[j] as int == i);
    }
    if j > 0 && fs[j].parent_id == fs[i].id {
        let q = p[j] as int;
        assert(es[q].id == es[j].parent_id);
        assert(q == i) by {
            if q != i {
                if q < i {
                    assert(es[q].id != es[i].id);
                } else {
                    assert(es[i].id != es[q].id);
                }
            }
        }
        assert(cs.contains(j as usize));
        let s = choose|s: int| 0 <= s < cs.len() && cs[s] == j as usize;
        assert(ids_at(es, cs)[s] == es[j].id);
        assert(ids_at(es, cs).to_set().contains(es[j].id));
        assert(kids.to_set().contains(fs[j].id));
    }
}


/// Some file among the first `m` that carries `x` reports allocation size `a`.
pub open spec fn reports_size(es: Seq<CompactEntry>, ids: Seq<Option<ObjectIdentity>>, x: ObjectIdentity, m: int, a: u64) -> bool {
    exists|k: int| 0 <= k < m && #[trigger] member(es, ids, x, k) && es[k].allocated_size == Some(a)
}

/// Some file among the first `m` that carries `x` reports the known link count `c`.
pub open spec fn reports_links(
    es: Seq<CompactEntry>,
    ids: Seq<Option<ObjectIdentity>>,
    links: Seq<ValueKnowledge>,
    x: ObjectIdentity,
    m: int,
    c: u32,
) -> bool {
    exists|k: int| 0 <= k < m && #[trigger] member(es, ids, x, k) && links[k] == ValueKnowledge::Known(c)
}

proof fn lemma_alloc_fold_facts(es: Seq<CompactEntry>, ids: Seq<Option<ObjectIdentity>>, x: ObjectIdentity, m: int)
    requires
        0 <= m <= es.len(),
    ensures
        ({
            let s = alloc_fold(es, ids, x, m);
            &&& s.0 is None <==> s.1 is None
            &&& s.1 is None ==> forall|a: u64| !reports_size(es, ids, x, m, a)
            &&& s.0 matches Some(w) ==> reports_size(es, ids, x, m, w)
            &&& s.0 matches Some(w) ==> forall|a: u64| reports_size(es, ids, x, m, a) ==> w <= a
            &&& s.1 matches Some(f) ==> reports_size(es, ids, x, m, f)
            &&& !s.2 ==> forall|a: u64| reports_size(es, ids, x, m, a) ==> s.1 == Some(a)
            &&& s.2 ==> exists|a: u64, b: u64| a != b && reports_size(es, ids, x, m, a) && reports_size(es, ids, x, m, b)
        }),
    decreases m,
{
    if m > 0 {
        lemma_alloc_fold_facts(es, ids, x, m - 1);
        let j = m - 1;
        let p = alloc_fold(es, ids, x, j);
        let s = alloc_fold(es, ids, x, m);
        assert forall|a: u64| reports_size(es, ids, x, m, a) implies reports_size(es, ids, x, j, a) || (member(es, ids, x, j) && es[j].allocated_size == Some(a)) by {
            let k = choose|k: int| 0 <= k < m && #[trigger] member(es, ids, x, k) && es[k].allocated_size == Some(a);
            if k < j {
                assert(reports_size(es, ids, x, j, a));
            }
        }
        assert forall|a: u64| reports_size(es, ids, x, j, a) implies reports_size(es, ids, x, m, a) by {
            let k = choose|k: int| 0 <= k < j && #[trigger] member(es, ids, x, k) && es[k].allocated_size == Some(a);
            assert(member(es, ids, x, k));
        }
        if member(es, ids, x, j) {
            if let Some(a) = es[j].allocated_size {
                assert(reports_size(es, ids, x, m, a)) by {
                    assert(member(es, ids, x, j));
                }
                if p.2 {
                    let (u, v) = choose|u: u64, v: u64| u != v && reports_size(es, ids, x, j, u) && reports_size(es, ids, x, j, v);
                    assert(reports_size(es, ids, x, m, u) && reports_size(es, ids, x, m, v));
                } else if let Some(f) = p.1 {
                    if f != a {
                        assert(reports_size(es, ids, x, m, f) && reports_size(es, ids, x, m, a));
                    }
                }
            }
        }
    }
}

proof fn lemma_link_fold_facts(
    es: Seq<CompactEntry>,
    ids: Seq<Option<ObjectIdentity>>,
    links: Seq<ValueKnowledge>,
    x: ObjectIdentity,
    m: int,
)
    requires
        0 <= m <= es.len(),
        links.len() == es.len(),
    ensures
        ({
            let s = link_fold(es, ids, links, x, m);
            &&& s.1 is None ==> forall|c: u32| !reports_links(es, ids, links, x, m, c)
            &&& s.1 matches Some(f) ==> reports_links(es, ids, links, x, m, f)
            &&& !s.2 ==> forall|c: u32| reports_links(es, ids, links, x, m, c) ==> s.1 == Some(c)
            &&& s.2 ==> exists|a: u32, b: u32| a != b && reports_links(es, ids, links, x, m, a)
                && reports_links(es, ids, links, x, m, b)
        }),
    decreases m,
{
    if m > 0 {
        lemma_link_fold_facts(es, ids, links, x, m - 1);
        let j = m - 1;
        let p = link_fold(es, ids, links, x, j);
        assert forall|c: u32| reports_links(es, ids, links, x, m, c) implies reports_links(es, ids, links, x, j, c) || (member(es, ids, x, j) && links[j] == ValueKnowledge::Known(c)) by {
            let k = choose|k: int| 0 <= k < m && #[trigger] member(es, ids, x, k) && links[k] == ValueKnowledge::Known(c);
            if k < j {
                assert(reports_links(es, ids, links, x, j, c));
            }
        }
        assert forall|c: u32| reports_links(es, ids, links, x, j, c) implies reports_links(es, ids, links, x, m, c) by {
            let k = choose|k: int| 0 <= k < j && #[trigger] member(es, ids, x, k) && links[k] == ValueKnowledge::Known(c);
            assert(member(es, ids, x, k));
        }
        if member(es, ids, x, j) {
            if let ValueKnowledge::Known(c) = links[j] {
                assert(reports_links(es, ids, links, x, m, c)) by {
                    assert(member(es, ids, x, j));
                }
                if p.2 {
                    let (u, v) = choose|u: u32, v: u32| u != v && reports_links(es, ids, links, x, j, u) && reports_links(es, ids, links, x, j, v);
                    assert(reports_links(es, ids, links, x, m, u) && reports_links(es, ids, links, x, m, v));
                } else if let Some(f) = p.1 {
                    if f != c {
                        assert(reports_links(es, ids, links, x, m, f) && reports_links(es, ids, links, x, m, c));
                    }
                }
            }
        }
    }
}

/// The record of the object behind the files that carry `x` does not depend
/// on the order in which its aliases were observed: its weight is the
/// smallest allocation size any alias reports (0 when none does), its
/// allocation is in conflict exactly when two aliases report different
/// sizes, and two aliases that report different known link counts make its
/// external-reference status inconsistent.
pub proof fn law_alias_evidence_is_order_free(
    es: Seq<CompactEntry>,
    ids: Seq<Option<ObjectIdentity>>,
    links: Seq<ValueKnowledge>,
    x: ObjectIdentity,
)
    requires
        links.len() == es.len(),
    ensures
        (forall|a: u64| !reports_size(es, ids, x, es.len() as int, a)) ==> group_record(es, ids, links, x).weight == 0,
        forall|a: u64| reports_size(es, ids, x, es.len() as int, a) ==> group_record(es, ids, links, x).weight <= a,
        (exists|a: u64| reports_size(es, ids, x, es.len() as int, a)) ==> reports_size(
            es,
            ids,
            x,
            es.len() as int,
            group_record(es, ids, links, x).weight,
        ),
        alloc_conflict(es, ids, x) <==> exists|a: u64, b: u64|
            a != b && reports_size(es, ids, x, es.len() as int, a) && reports_size(es, ids, x, es.len() as int, b),
        (group_record(es, ids, links, x).external_reference_status == ExternalReferenceStatus::InconsistentEvidence)
            <== exists|a: u32, b: u32|
            a != b && reports_links(es, ids, links, x, es.len() as int, a) && reports_links(
                es,
                ids,
                links,
                x,
                es.len() as int,
                b,
            ),
{
    let n = es.len() as int;
    lemma_alloc_fold_facts(es, ids, x, n);
    lemma_link_fold_facts(es, ids, links, x, n);
    let s = alloc_fold(es, ids, x, n);
    if exists|a: u64| reports_size(es, ids, x, n, a) {
        let a = choose|a: u64| reports_size(es, ids, x, n, a);
        assert(s.1 is Some);
    }
    if exists|a: u64, b: u64| a != b && reports_size(es, ids, x, n, a) && reports_size(es, ids, x, n, b) {
        let (a, b) = choose|a: u64, b: u64| a != b && reports_size(es, ids, x, n, a) && reports_size(es, ids, x, n, b);
        if !s.2 {
            assert(s.1 == Some(a) && s.1 == Some(b));
        }
    }
    let l = link_fold(es, ids, links, x, n);
    if exists|a: u32, b: u32| a != b && reports_links(es, ids, links, x, n, a) && reports_links(es, ids, links, x, n, b) {
        let (a, b) = choose|a: u32, b: u32| a != b && reports_links(es, ids, links, x, n, a) && reports_links(es, ids, links, x, n, b);
        if !l.2 {
            assert(l.1 == Some(a) && l.1 == Some(b));
        }
    }
}


/// A subtree sum is at least any one of its terms.
proof fn lemma_subtree_sum_ge_term(p: Seq<usize>, vals: Seq<u64>, d: int, m: int, k: int)
    requires
        0 <= k < m <= vals.len(),
        anc(p, d, k),
    ensures
        subtree_sum(p, vals, d, m) >= vals[k] as int,
    decreases m,
{
    if m - 1 > k {
        lemma_subtree_sum_ge_term(p, vals, d, m - 1, k);
    } else {
        lemma_subtree_sum_bound(p, vals, d, m - 1);
    }
}

/// A file among the first `m` entries carries `x`.
pub open spec fn seen_before(es: Seq<CompactEntry>, ids: Seq<Option<ObjectIdentity>>, x: ObjectIdentity, m: int) -> bool {
    exists|j: int| 0 <= j < m && #[trigger] member(es, ids, x, j)
}

/// The referenced allocation of the identified files whose identity occurs
/// among the first `m` entries, 0 elsewhere.
pub open spec fn held_vals(es: Seq<CompactEntry>, ids: Seq<Option<ObjectIdentity>>, m: int) -> Seq<u64> {
    Seq::new(
        es.len(),
        |k: int|
            if grouped(es, ids, k) && seen_before(es, ids, ids[k]->0, m) {
                es[k].referenced_allocated_bytes
            } else {
                0
            },
    )
}

/// The referenced allocation of the identified files whose identity first
/// occurs at entry `m`, 0 elsewhere.
pub open spec fn new_vals(es: Seq<CompactEntry>, ids: Seq<Option<ObjectIdentity>>, m: int) -> Seq<u64> {
    Seq::new(
        es.len(),
        |k: int|
            if grouped(es, ids, k) && !seen_before(es, ids, ids[k]->0, m) && member(es, ids, ids[k]->0, m) {
                es[k].referenced_allocated_bytes
            } else {
                0
            },
    )
}

/// With every file's allocation known, the weights of the alias groups
/// present in a subtree are covered by the referenced allocations of the
/// identified files in it.
proof fn lemma_presence_le_held(
    es: Seq<CompactEntry>,
    ids: Seq<Option<ObjectIdentity>>,
    p: Seq<usize>,
    d: int,
    m: int,
)
    requires
        ids.len() == es.len(),
        p.len() == es.len(),
        0 <= m <= es.len(),
        forall|i: int|
            0 <= i < es.len() && grouped(es, ids, i) ==> (#[trigger] es[i]).allocated_size
                == Some(es[i].referenced_allocated_bytes),
    ensures
        presence(es, ids, p, d, m) <= subtree_sum(p, held_vals(es, ids, m), d, es.len() as int),
    decreases m,
{
    let n = es.len() as int;
    if m == 0 {
        assert(held_vals(es, ids, 0) =~= Seq::new(es.len(), |k: int| 0u64)) by {
            assert forall|k: int| 0 <= k < n implies held_vals(es, ids, 0)[k] == 0u64 by {
                assert(!seen_before(es, ids, ids[k]->0, 0));
            }
        }
        lemma_subtree_sum_bound(p, held_vals(es, ids, 0), d, n);
    } else {
        let j = m - 1;
        lemma_presence_le_held(es, ids, p, d, j);
        let before = held_vals(es, ids, j);
        let after = held_vals(es, ids, m);
        let fresh = new_vals(es, ids, j);
        assert forall|k: int| 0 <= k < n implies after[k] as int == before[k] as int + fresh[k] as int by {
            if grouped(es, ids, k) {
                let x = ids[k]->0;
                if seen_before(es, ids, x, j) {
                    let w = choose|w: int| 0 <= w < j && #[trigger] member(es, ids, x, w);
                    assert(seen_before(es, ids, x, m)) by {
                        assert(member(es, ids, x, w));
                    }
                } else if member(es, ids, x, j) {
                    assert(seen_before(es, ids, x, m));
                } else {
                    assert(!seen_before(es, ids, x, m)) by {
                        if seen_before(es, ids, x, m) {
                            let w = choose|w: int| 0 <= w < m && #[trigger] member(es, ids, x, w);
                            assert(w < j);
                        }
                    }
                }
            }
        }
        lemma_subtree_sum_add(p, before, fresh, after, d, n);
        lemma_subtree_sum_bound(p, fresh, d, n);
        if is_rep(es, ids, j) && covers(es, ids, p, d, ids[j]->0) {
            let x = ids[j]->0;
            let k = choose|k: int| 0 <= k < n && member(es, ids, x, k) && #[trigger] anc(p, d, k);
            assert(!seen_before(es, ids, x, j)) by {
                if seen_before(es, ids, x, j) {
                    let w = choose|w: int| 0 <= w < j && #[trigger] member(es, ids, x, w);
                    assert(!member(es, ids, x, w));
                }
            }
            assert(ids[k]->0 == x);
            assert(grouped(es, ids, k));
            assert(fresh[k] == es[k].referenced_allocated_bytes);
            lemma_subtree_sum_ge_term(p, fresh, d, n, k);
            lemma_alloc_fold_facts(es, ids, x, n);
            assert(reports_size(es, ids, x, n, es[k].referenced_allocated_bytes)) by {
                assert(member(es, ids, x, k));
            }
        }
    }
}

/// When every file's allocation size is known and the allocation total fits
/// in 64 bits, no entry's unique allocation exceeds its referenced
/// allocation: counting each object once never counts more than counting
/// every path to it.
pub proof fn law_unique_within_referenced(v: BuilderView, g: GraphView)
    requires
        tree_shaped(v),
        settled_graph(v, g),
        all_files_alloc_known(v.entries),
        sum_alloc(v.entries) <= 0xFFFF_FFFF_FFFF_FFFF,
    ensures
        forall|i: int|
            0 <= i < graph_entries(g).len() ==> (#[trigger] graph_entries(g)[i]).unique_allocated_bytes
                <= graph_entries(g)[i].referenced_allocated_bytes,
{
    let es = v.entries;
    let ids = v.identities;
    let p = v.parents;
    let n = es.len() as int;
    let fs = graph_entries(g);
    let oi = fs.map_values(|e: CompactEntry| e.object_index);
    lemma_sum_alloc_prefix(v, n);
    assert(es.subrange(0, n) =~= es);
    assert forall|i: int|
        0 <= i < es.len() && grouped(es, ids, i) implies (#[trigger] es[i]).allocated_size == Some(
            es[i].referenced_allocated_bytes,
        ) by {
        assert(entry_facts(es[i], v.self_alloc[i], ids[i], v.links[i]));
    }
    assert forall|i: int| 0 <= i < fs.len() implies (#[trigger] fs[i]).unique_allocated_bytes
        <= fs[i].referenced_allocated_bytes by {
        assert(fs[i] == (CompactEntry {
            child_start: fs[i].child_start,
            child_count: fs[i].child_count,
            ..settled_entry(es, ids, p, oi, i)
        }));
        assert(entry_facts(es[i], v.self_alloc[i], ids[i], v.links[i]));
        if es[i].kind == EntryKind::Directory {
            lemma_presence_le_held(es, ids, p, i, n);
            assert(held_vals(es, ids, n) =~= grouped_vals(es, ids)) by {
                assert forall|k: int| 0 <= k < n implies held_vals(es, ids, n)[k] == grouped_vals(es, ids)[k] by {
                    if grouped(es, ids, k) {
                        assert(seen_before(es, ids, ids[k]->0, n)) by {
                            assert(member(es, ids, ids[k]->0, k));
                        }
                    }
                }
            }
            lemma_subtree_sum_add(p, base_vals(es, ids), grouped_vals(es, ids), referenced_vals(es), i, n);
            lemma_subtree_le_prefix(p, referenced_vals(es), i, n);
            lemma_subtree_sum_bound(p, base_vals(es, ids), i, n);
            lemma_presence_nonneg(es, ids, p, i, n);
        } else if es[i].kind == EntryKind::File && grouped(es, ids, i) {
            let x = ids[i]->0;
            lemma_alloc_fold_facts(es, ids, x, n);
            assert(reports_size(es, ids, x, n, es[i].referenced_allocated_bytes)) by {
                assert(member(es, ids, x, i));
            }
        }
    }
}

proof fn lemma_presence_nonneg(
    es: Seq<CompactEntry>,
    ids: Seq<Option<ObjectIdentity>>,
    p: Seq<usize>,
    d: int,
    m: int,
)
    ensures
        presence(es, ids, p, d, m) >= 0,
    decreases m,
{
    if m > 0 {
        lemma_presence_nonneg(es, ids, p, d, m - 1);
    }
}


/// The first `k` pages of `limit` children each, taken in order.
pub open spec fn first_pages(ids: Seq<u32>, limit: int, k: nat) -> Seq<u32>
    decreases k,
{
    if k == 0 {
        Seq::empty()
    } else {
        first_pages(ids, limit, (k - 1) as nat) + page_window(ids, (k - 1) * limit, limit)
    }
}

/// Paging through a listing from the start, `limit` children at a time,
/// lists every child once, in order: the first `k` pages are the listing's
/// first `k * limit` children, and pages past the end are empty.
pub proof fn law_pages_cover_listing(ids: Seq<u32>, limit: int, k: nat)
    requires
        limit >= 0,
    ensures
        first_pages(ids, limit, k) == page_window(ids, 0, k * limit),
        k * limit >= ids.len() ==> first_pages(ids, limit, k) == ids,
    decreases k,
{
    let total = k * limit;
    if k == 0 {
        assert(total == 0) by (nonlinear_arith)
            requires
                k == 0,
                total == k * limit,
        ;
        assert(page_window(ids, 0, 0) =~= Seq::<u32>::empty());
    } else {
        let prev = (k - 1) * limit;
        law_pages_cover_listing(ids, limit, (k - 1) as nat);
        assert(prev + limit == total && prev >= 0) by (nonlinear_arith)
            requires
                k >= 1,
                limit >= 0,
                prev == (k - 1) * limit,
                total == k * limit,
        ;
        let a = page_window(ids, 0, prev);
        let b = page_window(ids, prev, limit);
        assert(first_pages(ids, limit, k) == a + b);
        assert(a + b =~= page_window(ids, 0, total));
    }
    if total >= ids.len() {
        assert(page_window(ids, 0, total) =~= ids);
    }
}


/// The weights of the distinct objects first carried by the first `m` entries.
pub open spec fn object_weights(es: Seq<CompactEntry>, ids: Seq<Option<ObjectIdentity>>, m: int) -> int
    decreases m,
{
    if m <= 0 {
        0
    } else {
        object_weights(es, ids, m - 1) + if is_rep(es, ids, m - 1) {
            group_weight(es, ids, ids[m - 1]->0) as int
        } else {
            0
        }
    }
}

proof fn lemma_presence_at_root(
    es: Seq<CompactEntry>,
    ids: Seq<Option<ObjectIdentity>>,
    p: Seq<usize>,
    m: int,
)
    requires
        parents_ok(p),
        p.len() == es.len(),
        0 <= m <= es.len(),
    ensures
        presence(es, ids, p, 0, m) == object_weights(es, ids, m),
    decreases m,
{
    if m > 0 {
        lemma_presence_at_root(es, ids, p, m - 1);
        let j = m - 1;
        if is_rep(es, ids, j) {
            lemma_anc_root(p, j);
            assert(member(es, ids, ids[j]->0, j));
            assert(covers(es, ids, p, 0, ids[j]->0));
        }
    }
}

/// At the root, every distinct object is counted once: the root's unique
/// allocation is the allocation of every entry outside the alias groups
/// plus, once per distinct identified object, that object's weight.
pub proof fn law_root_counts_each_object_once(v: BuilderView, g: GraphView)
    requires
        tree_shaped(v),
        settled_graph(v, g),
        v.entries.len() > 0,
    ensures
        graph_entries(g)[0].unique_allocated_bytes == (prefix_sum(
            base_vals(v.entries, v.identities),
            v.entries.len() as int,
        ) + object_weights(v.entries, v.identities, v.entries.len() as int)) as u64,
{
    let es = v.entries;
    let ids = v.identities;
    let p = v.parents;
    let n = es.len() as int;
    let fs = graph_entries(g);
    let oi = fs.map_values(|e: CompactEntry| e.object_index);
    assert(fs[0] == (CompactEntry {
        child_start: fs[0].child_start,
        child_count: fs[0].child_count,
        ..settled_entry(es, ids, p, oi, 0)
    }));
    assert(parents_ok(p));
    lemma_presence_at_root(es, ids, p, n);
    lemma_subtree_sum_root(p, base_vals(es, ids), n);
}


/// When no entry carries the id 0, every page of a listing shows exactly
/// its window of the listing: every listed child can be looked up. (An
/// entry with id 0 can be accepted once ids are sparse; it is listed but
/// cannot be looked up, and pages leave it out.)
pub proof fn law_page_is_whole_window(v: GraphView, parent_id: u32, offset: int, limit: int)
    requires
        graph_wf(v),
        listing(v, parent_id) is Ok,
        forall|i: int| 0 <= i < graph_entries(v).len() ==> (#[trigger] graph_entries(v)[i]).id != 0,
        0 <= offset,
        0 <= limit,
    ensures
        nonzero_ids(page_window(listing(v, parent_id)->Ok_0, offset, limit)) == page_window(
            listing(v, parent_id)->Ok_0,
            offset,
            limit,
        ),
{
    let ids = listing(v, parent_id)->Ok_0;
    let w = page_window(ids, offset, limit);
    lemma_listing_entry_ids(v, parent_id);
    assert forall|k: int| 0 <= k < w.len() implies w[k] != 0 by {
        let j = offset + k;
        assert(w[k] == ids[j]);
        assert(is_entry_id(v, ids[j]));
    }
    lemma_filter_keeps_all(w);
}

proof fn lemma_filter_keeps_all(w: Seq<u32>)
    requires
        forall|k: int| 0 <= k < w.len() ==> w[k] != 0,
    ensures
        nonzero_ids(w) == w,
    decreases w.len(),
{
    reveal_with_fuel(Seq::filter, 1);
    if w.len() > 0 {
        let t = w.drop_last();
        assert forall|k: int| 0 <= k < t.len() implies t[k] != 0 by {
            assert(t[k] == w[k]);
        }
        lemma_filter_keeps_all(t);
        assert(w[w.len() - 1] != 0);
        assert(w =~= t.push(w.last()));
    } else {
        assert(nonzero_ids(w) =~= w);
    }
}

/// A refused record changes nothing of the stream's content: only the id
/// storage may have switched to sparse and the directory last visited may
/// have moved (as the original's refusals also do).
pub proof fn law_refusal_is_neutral(v: BuilderView, rec: ObservationRecord)
    requires
        ingest_spec(v, rec).1 is Err,
    ensures
        same_content(ingest_spec(v, rec).0, v),
{
}

proof fn lemma_dense_lookup(es: Seq<CompactEntry>, id: u32)
    requires
        forall|i: int| 0 <= i < es.len() ==> (#[trigger] es[i]).id == i + 1,
    ensures
        has_id(es, id) <==> (1 <= id && id as int <= es.len()),
        has_id(es, id) ==> index_of_id(es, id) == id as int - 1,
{
    if 1 <= id && id as int <= es.len() {
        assert(es[id as int - 1].id == id);
    }
    if has_id(es, id) {
        let k = index_of_id(es, id);
        assert(es[k].id == k + 1);
    }
}

/// The dense flag of a tree-shaped view only speeds up lookups.
proof fn lemma_dense_ids(v: BuilderView)
    requires
        tree_shaped(v),
        v.dense,
    ensures
        forall|i: int| 0 <= i < v.entries.len() ==> (#[trigger] v.entries[i]).id == i + 1,
        v.entries.len() < 0x1_0000_0000,
{
    let es = v.entries;
    if es.len() > 0 {
        assert(es[es.len() - 1].id == es.len());
    }
}

proof fn lemma_insert_same(
    a: BuilderView,
    b: BuilderView,
    e: CompactEntry,
    sa: u64,
    ident: Option<ObjectIdentity>,
    link: ValueKnowledge,
)
    requires
        tree_shaped(a),
        tree_shaped(b),
        same_content(a, b),
        a.entries.len() < 0xFFFF_FFFF,
    ensures
        insert_spec(a, e, sa, ident, link).1 == insert_spec(b, e, sa, ident, link).1,
        same_content(insert_spec(a, e, sa, ident, link).0, insert_spec(b, e, sa, ident, link).0),
{
    let es = a.entries;
    assert(b.entries == es);
    let n = es.len();
    let id = e.id;
    let pid = e.parent_id;
    if id != pid && n > 0 && !(pid == 0 || id == 1) {
        if a.dense || b.dense {
            if a.dense {
                lemma_dense_ids(a);
            } else {
                lemma_dense_ids(b);
            }
            lemma_dense_lookup(es, id);
            lemma_dense_lookup(es, pid);
            assert((n as u32) as int == n);
            let next: u32 = (n + 1) as u32;
            assert(next as int == n + 1);
            let da = a.dense && id == next;
            let db = b.dense && id == next;
            let dup_a = if da { id as int <= n } else { has_id(es, id) };
            let dup_b = if db { id as int <= n } else { has_id(es, id) };
            assert(dup_a == dup_b);
            let miss_a = if da { pid as int > n } else { !has_id(es, pid) };
            let miss_b = if db { pid as int > n } else { !has_id(es, pid) };
            assert(miss_a == miss_b);
            if !miss_a {
                let p_a = if da { pid as int - 1 } else { index_of_id(es, pid) };
                let p_b = if db { pid as int - 1 } else { index_of_id(es, pid) };
                assert(p_a == p_b);
            }
        }
    }
}

proof fn lemma_lookup_same(a: BuilderView, b: BuilderView, id: u32)
    requires
        tree_shaped(a),
        tree_shaped(b),
        same_content(a, b),
    ensures
        lookup_index(a, id) == lookup_index(b, id),
{
    let es = a.entries;
    assert(b.entries == es);
    if a.dense {
        lemma_dense_ids(a);
        lemma_dense_lookup(es, id);
    }
    if b.dense {
        lemma_dense_ids(b);
        lemma_dense_lookup(es, id);
    }
}

/// Views with the same content answer every record alike: the same result,
/// and again views with the same content. So after a refused record, the
/// builder accepts and refuses the later records, and settles the stream,
/// as if the record had never been offered; only whether the finished
/// graph stores its entries densely can differ.
pub proof fn law_same_content_same_answers(a: BuilderView, b: BuilderView, rec: ObservationRecord)
    requires
        tree_shaped(a),
        tree_shaped(b),
        same_content(a, b),
        a.entries.len() < 0xFFFF_FFFF,
    ensures
        ingest_spec(a, rec).1 == ingest_spec(b, rec).1,
        same_content(ingest_spec(a, rec).0, ingest_spec(b, rec).0),
{
    assert(a.terminal == b.terminal && a.entries == b.entries && a.gaps == b.gaps);
    if a.terminal is None {
        match rec {
            ObservationRecord::Directory(d) => {
                let cur = if d.parent_id == 0 {
                    d.entry_id
                } else {
                    d.parent_id
                };
                let al = match d.allocated_size {
                    Some(x) => x,
                    None => 0u64,
                };
                lemma_insert_same(
                    BuilderView { current_dir_id: cur, ..a },
                    BuilderView { current_dir_id: cur, ..b },
                    dir_entry(d),
                    al,
                    d.object_id,
                    ValueKnowledge::NotObserved,
                );
            },
            ObservationRecord::File(f) => {
                lemma_insert_same(
                    BuilderView { current_dir_id: f.parent_id, ..a },
                    BuilderView { current_dir_id: f.parent_id, ..b },
                    file_entry(f),
                    0,
                    f.object_id,
                    f.total_link_count,
                );
            },
            ObservationRecord::Special(sp) => {
                lemma_insert_same(
                    BuilderView { current_dir_id: sp.parent_id, ..a },
                    BuilderView { current_dir_id: sp.parent_id, ..b },
                    special_entry(sp),
                    0,
                    None,
                    ValueKnowledge::NotObserved,
                );
            },
            ObservationRecord::ContentStream(st) => {
                lemma_lookup_same(a, b, st.parent_entry_id);
            },
            ObservationRecord::CoverageGap(_) => {},
            ObservationRecord::Terminal(t) => {
                assert(terminal_check(a, t) == terminal_check(b, t));
            },
        }
    }
}

/// Reading back the NUL-terminated wide form of a string without NUL
/// (`wide_slice_to_string` of `to_wide_null`) gives the string: the NUL that
/// `to_wide_null` appends is the first one, and decoding undoes encoding.
pub proof fn law_wide_string_round_trip(s: Seq<char>)
    requires
        forall|k: int| 0 <= k < s.len() ==> #[trigger] s[k] != '\0',
    ensures
        ({
            let w = utf16_encode(s).push(0u16);
            utf16_decode_lossy(w.take(nul_terminated_len(w))) == s
        }),
{
    let e = utf16_encode(s);
    let w = e.push(0u16);
    lemma_encode_nonzero(s);
    assert forall|k: int| 0 <= k < e.len() implies #[trigger] w[k] != 0 by {
        assert(w[k] == e[k]);
    }
    lemma_nul_len(w, e.len() as int);
    assert(w.take(e.len() as int) =~= e);
    lemma_utf16_round_trip(s);
}

} // verus!
