use pigtree::builder::{build_graph, GraphBuildError, GraphBuilder};
use pigtree::cli::{settle_scan_outcome, OutputFormat, ScanCallOutcome};
use pigtree::graph::{DirectoryGraph, EntryKind};
use pigtree::model::{
    DirectoryObservation, FileObservation, ObjectIdentity, ObservationRecord, RunOutcome,
    StreamObservation, TerminalObservation, ValueKnowledge,
};
use pigtree::process::quote_windows_arg;
use pigtree::runner::expected_worker_exit_code;
use pigtree::scan_call::{ResponseBody, ScanCall, ScanCallError, ScanFrame, ScanStep};
use pigtree::security::{build_pipe_sddl, derive_channel_key};
use pigtree::validator::{to_wide_null, wide_slice_to_string};
use pigtree::session::{check_client_handshake, check_server_handshake, HandshakeRejection};

fn dir(id: u32, parent: u32, name: &str) -> ObservationRecord {
    ObservationRecord::Directory(DirectoryObservation {
        entry_id: id,
        parent_id: parent,
        name: name.to_string(),
        file_attributes: 0x10,
        reparse_tag: 0,
        creation_time_utc_ms: 0,
        last_write_time_utc_ms: 0,
        last_access_time_utc_ms: 0,
        object_id: None,
        allocated_size: None,
        total_link_count: ValueKnowledge::NotObserved,
    })
}

fn file(
    id: u32,
    parent: u32,
    name: &str,
    logical: u64,
    alloc: Option<u64>,
    object: Option<ObjectIdentity>,
) -> ObservationRecord {
    ObservationRecord::File(FileObservation {
        entry_id: id,
        parent_id: parent,
        name: name.to_string(),
        logical_size: logical,
        allocated_size: alloc,
        file_attributes: 0x20,
        reparse_tag: 0,
        creation_time_utc_ms: 0,
        last_write_time_utc_ms: 0,
        last_access_time_utc_ms: 0,
        object_id: object,
        total_link_count: if object.is_some() {
            ValueKnowledge::Known(2)
        } else {
            ValueKnowledge::NotObserved
        },
    })
}

fn terminal(dirs: u64, files: u64, logical: u64, alloc: u64) -> ObservationRecord {
    ObservationRecord::Terminal(TerminalObservation {
        outcome: RunOutcome::Finished,
        total_directories: dirs,
        total_files: files,
        total_logical_bytes: logical,
        total_allocated_bytes: alloc,
        coverage_gap_count: 0,
        duration_ms: 1,
    })
}

fn small_tree() -> Vec<ObservationRecord> {
    vec![
        dir(1, 0, "Root"),
        dir(2, 1, "Sub"),
        file(3, 1, "a.bin", 100, Some(4096), None),
        file(4, 2, "b.bin", 50, Some(512), None),
        terminal(2, 2, 150, 4608),
    ]
}

fn built(records: Vec<ObservationRecord>) -> DirectoryGraph {
    build_graph(r"C:\Root".to_string(), records).expect("graph builds")
}

#[test]
fn test_law_terminal_is_final() {
    let mut b = GraphBuilder::new(r"C:\Root".to_string());
    for r in small_tree() {
        b.ingest_record(r).unwrap();
    }
    assert_eq!(
        b.ingest_record(file(9, 1, "late.bin", 1, Some(1), None)),
        Err(GraphBuildError::RecordAfterTerminal)
    );
    assert_eq!(
        b.ingest_record(terminal(2, 2, 150, 4608)),
        Err(GraphBuildError::RecordAfterTerminal)
    );
    let g = b.finish().unwrap();
    assert_eq!(g.total_entries(), 4);
    assert!(g.entry(9).is_none());
}

#[test]
fn test_law_refusal_adds_nothing() {
    let mut b = GraphBuilder::new(r"C:\Root".to_string());
    b.ingest_record(dir(1, 0, "Root")).unwrap();
    b.ingest_record(file(2, 1, "a", 10, Some(10), None)).unwrap();
    assert_eq!(
        b.ingest_record(file(2, 1, "again", 99, Some(99), None)),
        Err(GraphBuildError::DuplicateEntryId(2))
    );
    assert_eq!(
        b.ingest_record(file(5, 7, "orphan", 1, Some(1), None)),
        Err(GraphBuildError::MissingParent { entry_id: 5, parent_id: 7 })
    );
    let p = b.progress_counts();
    assert_eq!(p.files, 1);
    assert_eq!(p.logical_bytes, 10);
    b.ingest_record(terminal(1, 1, 10, 10)).unwrap();
    let g = b.finish().unwrap();
    assert_eq!(g.entry(2).unwrap().name, "a");
    assert_eq!(g.total_entries(), 2);
}

#[test]
fn test_law_streams_leave_entries() {
    let mut records = small_tree();
    records.insert(
        4,
        ObservationRecord::ContentStream(StreamObservation {
            parent_entry_id: 3,
            name: "Zone.Identifier".to_string(),
            logical_size: 26,
            allocated_size: Some(4096),
        }),
    );
    let g = built(records);
    assert_eq!(g.total_entries(), 4);
    assert_eq!(g.referenced_allocated_bytes(), 4608);
    assert_eq!(g.logical_bytes(), 150);
}

#[test]
fn test_law_root_totals_match_terminal() {
    let g = built(small_tree());
    assert_eq!(g.referenced_allocated_bytes(), g.terminal().total_allocated_bytes);
    assert_eq!(g.logical_bytes(), g.terminal().total_logical_bytes);
    assert_eq!(g.root().logical_size, Some(150));
}

#[test]
fn test_law_independent_files_count_once() {
    let g = built(small_tree());
    for id in 1..=4u32 {
        let e = g.entry(id).unwrap();
        assert_eq!(e.unique_allocated_bytes, e.referenced_allocated_bytes);
    }
}

#[test]
fn test_law_hard_link_report_lists_reportable() {
    let shared = ObjectIdentity::new([7u8; 16], 77);
    let single = ObjectIdentity::new([7u8; 16], 78);
    let records = vec![
        dir(1, 0, "Root"),
        file(2, 1, "x1", 10, Some(10), Some(shared)),
        file(3, 1, "x2", 10, Some(10), Some(shared)),
        ObservationRecord::File(FileObservation {
            entry_id: 4,
            parent_id: 1,
            name: "alone".to_string(),
            logical_size: 5,
            allocated_size: Some(5),
            file_attributes: 0x20,
            reparse_tag: 0,
            creation_time_utc_ms: 0,
            last_write_time_utc_ms: 0,
            last_access_time_utc_ms: 0,
            object_id: Some(single),
            total_link_count: ValueKnowledge::Known(1),
        }),
        terminal(1, 3, 25, 25),
    ];
    let g = built(records);
    let report = g.hard_link_objects();
    assert_eq!(report.len(), 1);
    assert_eq!(report[0].identity, shared);
    assert_eq!(report[0].observed_alias_count, 2);
    assert_eq!(report[0].entry_paths.len(), 2);
}

#[test]
fn test_law_children_directories_first() {
    let records = vec![
        dir(1, 0, "Root"),
        file(2, 1, "big.bin", 900, Some(900), None),
        dir(3, 1, "zeta"),
        file(4, 1, "small.bin", 10, Some(10), None),
        dir(5, 1, "alpha"),
        terminal(3, 2, 910, 910),
    ];
    let g = built(records);
    let (total, page) = g.get_children_page(1, 0, 10).unwrap();
    assert_eq!(total, 4);
    let names: Vec<&str> = page.iter().map(|n| n.name.as_str()).collect();
    assert_eq!(names, vec!["alpha", "zeta", "big.bin", "small.bin"]);
    assert_eq!(page[0].entry_kind, 1);
    assert_eq!(page[2].entry_kind, 2);
}

#[test]
fn test_law_children_are_the_entries_under() {
    let g = built(small_tree());
    assert_eq!(g.root().children, vec![2, 3]);
    assert_eq!(g.entry(2).unwrap().children, vec![4]);
    assert!(g.entry(3).unwrap().children.is_empty());
}

#[test]
fn test_law_pages_join() {
    let mut records = vec![dir(1, 0, "Root")];
    for i in 0..6u32 {
        records.push(file(2 + i, 1, &format!("f{i}"), 100 - u64::from(i), Some(1), None));
    }
    records.push(terminal(1, 6, 585, 6));
    let g = built(records);
    let (_, first) = g.get_children_page(1, 1, 2).unwrap();
    let (_, second) = g.get_children_page(1, 3, 3).unwrap();
    let (_, whole) = g.get_children_page(1, 1, 5).unwrap();
    let joined: Vec<u32> = first.iter().chain(second.iter()).map(|n| n.id).collect();
    let direct: Vec<u32> = whole.iter().map(|n| n.id).collect();
    assert_eq!(joined, direct);
    assert_eq!(direct, vec![3, 4, 5, 6, 7]);
}

#[test]
fn test_law_pipe_grants_only_user_and_specific_sids() {
    let user = "S-1-5-21-1-2-3-1000";
    let restricted = vec![
        "  S-1-5-5-0-99  ".to_string(),
        " WD ".to_string(),
        format!(" {user} "),
        "\t".to_string(),
    ];
    let sddl = build_pipe_sddl(user, &restricted);
    assert_eq!(
        sddl,
        "D:(A;;GA;;;S-1-5-21-1-2-3-1000)(A;;GA;;;S-1-5-5-0-99)S:(ML;;NW;;;ME)"
    );
}

#[test]
fn test_law_quoted_arg_reads_back() {
    assert_eq!(quote_windows_arg(r#"a\"b c"#), r#""a\\\"b c""#);
    assert_eq!(quote_windows_arg(r"tail\\ x\\"), r#""tail\\ x\\\\""#);
    assert_eq!(quote_windows_arg(r"no\space"), r"no\space");
    assert_eq!(quote_windows_arg("\""), "\"\\\"\"");
}

#[test]
fn test_law_format_name_parses_back() {
    for f in [OutputFormat::Json, OutputFormat::Ndjson] {
        assert_eq!(OutputFormat::parse(f.as_str()), Ok(f));
    }
    assert_eq!(
        OutputFormat::parse("JSON"),
        Err("Invalid value for --format: 'JSON'. Expected 'json' or 'ndjson'".to_string())
    );
}

#[test]
fn test_law_exit_code_precedence() {
    let s = settle_scan_outcome(ScanCallOutcome::Cancelled, RunOutcome::Failed, true, true, "{}".to_string());
    assert_eq!(s.exit_code, 3);
    assert_eq!(s.stdout, "{}");
    let s = settle_scan_outcome(ScanCallOutcome::Finished, RunOutcome::Failed, true, false, String::new());
    assert_eq!(s.exit_code, 4);
    let s = settle_scan_outcome(ScanCallOutcome::Finished, RunOutcome::Failed, false, false, String::new());
    assert_eq!(s.exit_code, 1);
    let s = settle_scan_outcome(ScanCallOutcome::Finished, RunOutcome::Finished, false, false, String::new());
    assert_eq!(s.exit_code, 0);
    let s = settle_scan_outcome(ScanCallOutcome::Finished, RunOutcome::Finished, false, true, String::new());
    assert_eq!(s.exit_code, 4);
}

#[test]
fn test_law_worker_exit_codes_distinct() {
    assert_eq!(expected_worker_exit_code(RunOutcome::Finished), 0);
    assert_eq!(expected_worker_exit_code(RunOutcome::Failed), 1);
    assert_eq!(expected_worker_exit_code(RunOutcome::Cancelled), 3);
}

fn progress(op: &str, seq: u64) -> ScanFrame {
    ScanFrame::Progress { operation_id: op.to_string(), sequence_number: seq }
}

fn scan_done(op: &str, cancelled: bool) -> ScanFrame {
    ScanFrame::Response {
        request_id: op.to_string(),
        status: 0,
        error_code: String::new(),
        error_message: String::new(),
        body: ResponseBody::Scan { operation_id: op.to_string(), outcome_cancelled: cancelled },
    }
}

#[test]
fn test_law_scan_call_progress_monotone() {
    let mut call = ScanCall::new("op-1".to_string());
    assert_eq!(call.on_frame(progress("op-1", 1)), ScanStep::Progress);
    assert_eq!(call.on_frame(progress("op-1", 5)), ScanStep::Progress);
    assert_eq!(call.last_progress_seq(), 5);
    assert_eq!(
        call.on_frame(progress("op-1", 5)),
        ScanStep::Failed(ScanCallError::StaleProgress)
    );
    assert_eq!(
        call.on_frame(progress("op-1", 3)),
        ScanStep::Failed(ScanCallError::StaleProgress)
    );
    assert_eq!(call.last_progress_seq(), 5);
    assert_eq!(call.operation_id(), "op-1");
}

#[test]
fn test_law_cancel_sent_never_finishes() {
    let mut call = ScanCall::new("op-2".to_string());
    call.mark_cancel_sent();
    assert_eq!(call.on_frame(scan_done("op-2", false)), ScanStep::Cancelled);
    assert!(call.cancel_sent());
    let mut fresh = ScanCall::new("op-3".to_string());
    assert_eq!(fresh.on_frame(scan_done("op-3", false)), ScanStep::Finished);
}

#[test]
fn test_law_honest_handshake_accepted() {
    let bootstrap = [1u8; 32];
    let client = [2u8; 32];
    let server = [3u8; 32];
    assert_eq!(check_client_handshake(true, &bootstrap, 42, &bootstrap, 42), Ok(()));
    let engine_key = derive_channel_key(&bootstrap, &client, &server);
    let accepted = check_server_handshake(true, 0, "", 7, &engine_key, 7, &bootstrap, &client, &server);
    assert_eq!(accepted, Ok(engine_key));
}

#[test]
fn test_law_wrong_nonce_refused() {
    let bootstrap = [1u8; 32];
    let other = [9u8; 32];
    assert_eq!(
        check_client_handshake(true, &other, 42, &bootstrap, 42),
        Err(HandshakeRejection::NonceMismatch)
    );
    assert_eq!(
        check_client_handshake(true, &other, 1, &bootstrap, 42),
        Err(HandshakeRejection::NonceMismatch)
    );
}

#[test]
fn test_law_duplicate_id_refused_in_sparse_storage() {
    let records = vec![
        dir(1, 0, "Root"),
        dir(10, 1, "Sparse"),
        file(20, 10, "x", 1, Some(1), None),
        file(20, 1, "y", 1, Some(1), None),
    ];
    assert_eq!(
        build_graph("C:".to_string(), records).err(),
        Some(GraphBuildError::DuplicateEntryId(20))
    );
    let g = built(vec![
        dir(1, 0, "Root"),
        dir(10, 1, "Sparse"),
        file(20, 10, "x", 1, Some(1), None),
        terminal(2, 1, 1, 1),
    ]);
    assert_eq!(g.entry(20).unwrap().kind, EntryKind::File);
}

#[test]
fn test_law_pages_cover_listing() {
    let mut records = vec![dir(1, 0, "Root")];
    for i in 0..7u32 {
        records.push(file(2 + i, 1, &format!("f{i}"), 70 - u64::from(i), Some(1), None));
    }
    records.push(terminal(1, 7, 469, 7));
    let g = built(records);
    let mut seen = Vec::new();
    for k in 0..4usize {
        let (total, page) = g.get_children_page(1, k * 3, 3).unwrap();
        assert_eq!(total, 7);
        seen.extend(page.iter().map(|n| n.id));
    }
    assert_eq!(seen, vec![2, 3, 4, 5, 6, 7, 8]);
}

#[test]
fn test_law_unique_within_referenced() {
    let x = ObjectIdentity::new([3u8; 16], 300);
    let y = ObjectIdentity::new([3u8; 16], 301);
    let records = vec![
        dir(1, 0, "Root"),
        dir(2, 1, "A"),
        dir(3, 1, "B"),
        file(4, 2, "x1", 10, Some(100), Some(x)),
        file(5, 3, "x2", 10, Some(200), Some(x)),
        file(6, 2, "y1", 10, Some(50), Some(y)),
        file(7, 2, "y2", 10, Some(50), Some(y)),
        file(8, 3, "solo", 10, Some(7), None),
    ];
    let mut records = records;
    records.push(terminal(3, 5, 50, 407));
    let g = built(records);
    for id in 1..=8u32 {
        let e = g.entry(id).unwrap();
        assert!(e.unique_allocated_bytes <= e.referenced_allocated_bytes, "entry {id}");
    }
    assert_eq!(g.root().unique_allocated_bytes, 100 + 50 + 7);
    assert_eq!(g.entry(2).unwrap().unique_allocated_bytes, 150);
    assert_eq!(g.entry(3).unwrap().unique_allocated_bytes, 107);
}

#[test]
fn test_law_root_counts_each_object_once() {
    let x = ObjectIdentity::new([4u8; 16], 400);
    let records = vec![
        dir(1, 0, "Root"),
        dir(2, 1, "A"),
        file(3, 2, "x1", 10, Some(64), Some(x)),
        file(4, 1, "x2", 10, Some(64), Some(x)),
        file(5, 2, "x3", 10, Some(64), Some(x)),
        file(6, 1, "plain", 10, Some(5), None),
        terminal(2, 4, 40, 197),
    ];
    let g = built(records);
    assert_eq!(g.referenced_allocated_bytes(), 197);
    assert_eq!(g.unique_allocated_bytes(), 64 + 5);
}

#[test]
fn test_law_refusal_is_neutral() {
    let mut with_refusals = GraphBuilder::new(r"C:\Root".to_string());
    let mut plain = GraphBuilder::new(r"C:\Root".to_string());
    let records = small_tree();
    for (i, r) in records.into_iter().enumerate() {
        if i == 2 {
            assert!(with_refusals.ingest_record(file(2, 1, "dup", 7, Some(7), None)).is_err());
            assert!(with_refusals.ingest_record(file(8, 42, "orphan", 7, Some(7), None)).is_err());
        }
        let a = with_refusals.ingest_record(r.clone());
        let b = plain.ingest_record(r);
        assert_eq!(a, b);
    }
    let g1 = with_refusals.finish().unwrap();
    let g2 = plain.finish().unwrap();
    assert_eq!(g1.total_entries(), g2.total_entries());
    for id in 0..10u32 {
        assert_eq!(g1.entry(id), g2.entry(id));
    }
    assert_eq!(g1.logical_bytes(), g2.logical_bytes());
    assert_eq!(g1.referenced_allocated_bytes(), g2.referenced_allocated_bytes());
    assert_eq!(g1.unique_allocated_bytes(), g2.unique_allocated_bytes());
    assert_eq!(g1.allocated_bytes_known(), g2.allocated_bytes_known());
}

#[test]
fn test_law_page_is_whole_window() {
    let g = built(small_tree());
    let children = g.entry(1).unwrap().children;
    assert_eq!(children, vec![2, 3]);
    for offset in 0..4usize {
        for limit in 0..4usize {
            let (total, page) = g.get_children_page(1, offset, limit).unwrap();
            assert_eq!(total, children.len());
            let lo = offset.min(children.len());
            let hi = (offset + limit).min(children.len());
            let ids: Vec<u32> = page.iter().map(|n| n.id).collect();
            assert_eq!(ids, children[lo..hi].to_vec());
        }
    }
}

#[test]
fn test_law_wide_string_round_trip() {
    for s in ["", "plain", "C:\\Data\\caf\u{e9}", "\u{1F600}\u{10FFFF}x\u{FFFF}\u{E000}"] {
        assert_eq!(wide_slice_to_string(&to_wide_null(s)), s);
    }
}
