use pigtree::engine_host::{
    cancel_reply_id, cancelled_while_waiting, effective_delay, reply_to, EngineReply,
    EngineRequest, HostFacts,
};

fn facts() -> HostFacts {
    HostFacts {
        now_utc_ms: 1_700_000_000_123,
        uptime_ms: 42,
        handle_count: 17,
        private_bytes: Some(4096),
        session_id: "sess-1".to_string(),
        engine_version: "0.1.0".to_string(),
        build_date: "2024-01-01".to_string(),
        commit_hash: "abc123".to_string(),
    }
}

#[test]
fn test_effective_delay_takes_the_longer() {
    assert_eq!(effective_delay(&EngineRequest::Ping { timestamp_utc_ms: 1, delay_ms: 300 }, 100), 300);
    assert_eq!(effective_delay(&EngineRequest::Status { delay_ms: 5 }, 100), 100);
    assert_eq!(effective_delay(&EngineRequest::Shutdown, 0), 0);
    assert_eq!(effective_delay(&EngineRequest::Cancel { target_request_id: "x".to_string() }, 7), 7);
}

#[test]
fn test_cancel_reply_id_falls_back_to_target() {
    assert_eq!(cancel_reply_id("", "req-9"), "req-9");
    assert_eq!(cancel_reply_id("req-1", "req-9"), "req-1");
    assert_eq!(
        cancelled_while_waiting(),
        EngineReply::Cancel { cancelled: true, message: "Operation cancelled by client".to_string() }
    );
}

#[test]
fn test_reply_to_each_command() {
    assert_eq!(
        reply_to(EngineRequest::Ping { timestamp_utc_ms: 5, delay_ms: 0 }, facts()),
        (EngineReply::Ping { timestamp_utc_ms: 5, echo_timestamp_utc_ms: 1_700_000_000_123 }, false)
    );
    assert_eq!(
        reply_to(EngineRequest::Echo { payload: "hi there".to_string(), delay_ms: 0 }, facts()),
        (EngineReply::Echo { payload: "hi there".to_string() }, false)
    );
    assert_eq!(
        reply_to(EngineRequest::Health { include_memory: true, delay_ms: 0 }, facts()),
        (
            EngineReply::Health {
                status: "HEALTHY".to_string(),
                uptime_ms: 42,
                memory_private_bytes: 4096,
                handle_count: 17
            },
            false
        )
    );
    assert_eq!(
        reply_to(EngineRequest::Health { include_memory: false, delay_ms: 0 }, facts()).0,
        EngineReply::Health {
            status: "HEALTHY".to_string(),
            uptime_ms: 42,
            memory_private_bytes: 0,
            handle_count: 17
        }
    );
    assert_eq!(
        reply_to(EngineRequest::Status { delay_ms: 0 }, facts()).0,
        EngineReply::Status {
            state: "IDLE".to_string(),
            active_runs: 0,
            total_observations: 0,
            session_id: "sess-1".to_string()
        }
    );
    assert_eq!(
        reply_to(EngineRequest::Version { delay_ms: 0 }, facts()).0,
        EngineReply::Version {
            engine_version: "0.1.0".to_string(),
            protocol_version: 1,
            build_date: "2024-01-01".to_string(),
            commit_hash: "abc123".to_string(),
            capabilities: vec!["scan".to_string(), "remediation".to_string()]
        }
    );
    assert_eq!(
        reply_to(EngineRequest::Cancel { target_request_id: "op-7".to_string() }, facts()),
        (EngineReply::Cancel { cancelled: true, message: "Request op-7 cancelled".to_string() }, false)
    );
    assert_eq!(
        reply_to(EngineRequest::Shutdown, facts()),
        (EngineReply::Shutdown { status: 0 }, true)
    );
    assert_eq!(
        reply_to(EngineRequest::Unknown, facts()),
        (
            EngineReply::Error {
                code: "UNKNOWN_COMMAND".to_string(),
                message: "Requested command verb is not supported".to_string()
            },
            false
        )
    );
}
