//! The engine host's command loop, decision by decision: which delay a
//! request waits, which id a cancellation answers, and the reply to each
//! command. The host reads requests, waits, measures itself and sends
//! replies; it hands the measurements in as plain values.

use crate::text::append_chars;
use vstd::prelude::*;

verus! {

/// A command request, as the host decodes it.
#[derive(Debug, Clone, PartialEq, Eq)]
pub enum EngineRequest {
    Ping { timestamp_utc_ms: u64, delay_ms: u32 },
    Echo { payload: String, delay_ms: u32 },
    Health { include_memory: bool, delay_ms: u32 },
    Status { delay_ms: u32 },
    Version { delay_ms: u32 },
    Cancel { target_request_id: String },
    Shutdown,
    Unknown,
}

/// The delay a request asks for (only the commands that can be slowed down carry one).
pub open spec fn requested_delay(req: EngineRequest) -> u32 {
    match req {
        EngineRequest::Ping { delay_ms, .. } => delay_ms,
        EngineRequest::Echo { delay_ms, .. } => delay_ms,
        EngineRequest::Health { delay_ms, .. } => delay_ms,
        EngineRequest::Status { delay_ms } => delay_ms,
        EngineRequest::Version { delay_ms } => delay_ms,
        _ => 0,
    }
}

/// How long the host waits before answering: the longer of the request's
/// delay and the one configured in the environment.
pub fn effective_delay(req: &EngineRequest, env_delay: u32) -> (r: u32)
    ensures
        r == if requested_delay(*req) >= env_delay {
            requested_delay(*req)
        } else {
            env_delay
        },
{
    let d: u32 = match req {
        EngineRequest::Ping { delay_ms, .. } => *delay_ms,
        EngineRequest::Echo { delay_ms, .. } => *delay_ms,
        EngineRequest::Health { delay_ms, .. } => *delay_ms,
        EngineRequest::Status { delay_ms } => *delay_ms,
        EngineRequest::Version { delay_ms } => *delay_ms,
        _ => 0,
    };
    if d >= env_delay {
        d
    } else {
        env_delay
    }
}

/// The request id a cancellation received while waiting is answered under:
/// its own id, or the id it cancels when it carries none.
pub fn cancel_reply_id(request_id: &str, target_request_id: &str) -> (r: String)
    ensures
        r@ == if request_id@.len() == 0 {
            target_request_id@
        } else {
            request_id@
        },
{
    if request_id.is_empty() {
        target_request_id.to_owned()
    } else {
        request_id.to_owned()
    }
}

/// What the host measured about itself when a request arrived.
#[derive(Debug, Clone, PartialEq, Eq)]
pub struct HostFacts {
    pub now_utc_ms: u64,
    pub uptime_ms: u64,
    pub handle_count: u32,
    /// The private bytes in use, when they were asked for and could be read.
    pub private_bytes: Option<u64>,
    pub session_id: String,
    pub engine_version: String,
    pub build_date: String,
    pub commit_hash: String,
}

/// A reply to a command.
#[allow(inconsistent_fields)]
#[derive(Debug, Clone, PartialEq, Eq)]
pub enum EngineReply {
    Ping { timestamp_utc_ms: u64, echo_timestamp_utc_ms: u64 },
    Echo { payload: String },
    Health { status: String, uptime_ms: u64, memory_private_bytes: u64, handle_count: u32 },
    Status { state: String, active_runs: u32, total_observations: u64, session_id: String },
    Version {
        engine_version: String,
        protocol_version: u32,
        build_date: String,
        commit_hash: String,
        capabilities: Vec<String>,
    },
    Cancel { cancelled: bool, message: String },
    Shutdown { status: u32 },
    Error { code: String, message: String },
}

/// The message of the reply to a cancel command.
pub open spec fn cancel_message(target: Seq<char>) -> Seq<char> {
    "Request "@ + target + " cancelled"@
}

/// The reply to a cancellation that arrived while the host waited.
pub fn cancelled_while_waiting() -> (r: EngineReply)
    ensures
        r matches EngineReply::Cancel { cancelled, message } && cancelled && message@
            == "Operation cancelled by client"@,
{
    EngineReply::Cancel { cancelled: true, message: "Operation cancelled by client".to_owned() }
}

/// Answers one request: the reply, and whether the host stops after sending
/// it (only on shutdown). A health reply reports 0 private bytes unless
/// they were asked for and measured; the host is always idle between
/// commands; an unknown command is refused with `UNKNOWN_COMMAND`.
pub fn reply_to(req: EngineRequest, facts: HostFacts) -> (r: (EngineReply, bool))
    ensures
        r.1 == (req == EngineRequest::Shutdown),
        match req {
            EngineRequest::Ping { timestamp_utc_ms, .. } => r.0 == (EngineReply::Ping {
                timestamp_utc_ms,
                echo_timestamp_utc_ms: facts.now_utc_ms,
            }),
            EngineRequest::Echo { payload, .. } => r.0 == (EngineReply::Echo { payload }),
            EngineRequest::Health { include_memory, .. } => r.0 matches EngineReply::Health {
                status,
                uptime_ms,
                memory_private_bytes,
                handle_count,
            } && status@ == "HEALTHY"@ && uptime_ms == facts.uptime_ms && handle_count
                == facts.handle_count && memory_private_bytes == (if include_memory {
                match facts.private_bytes {
                    Some(b) => b,
                    None => 0,
                }
            } else {
                0
            }),
            EngineRequest::Status { .. } => r.0 matches EngineReply::Status {
                state,
                active_runs,
                total_observations,
                session_id,
            } && state@ == "IDLE"@ && active_runs == 0 && total_observations == 0 && session_id@
                == facts.session_id@,
            EngineRequest::Version { .. } => r.0 matches EngineReply::Version {
                engine_version,
                protocol_version,
                build_date,
                commit_hash,
                capabilities,
            } && engine_version@ == facts.engine_version@ && protocol_version == 1 && build_date@
                == facts.build_date@ && commit_hash@ == facts.commit_hash@ && capabilities@.len()
                == 2 && capabilities@[0]@ == "scan"@ && capabilities@[1]@ == "remediation"@,
            EngineRequest::Cancel { target_request_id } => r.0 matches EngineReply::Cancel {
                cancelled,
                message,
            } && cancelled && message@ == cancel_message(target_request_id@),
            EngineRequest::Shutdown => r.0 == (EngineReply::Shutdown { status: 0 }),
            EngineRequest::Unknown => r.0 matches EngineReply::Error { code, message } && code@
                == "UNKNOWN_COMMAND"@ && message@ == "Requested command verb is not supported"@,
        },
{
    match req {
        EngineRequest::Ping { timestamp_utc_ms, .. } => (
            EngineReply::Ping { timestamp_utc_ms, echo_timestamp_utc_ms: facts.now_utc_ms },
            false,
        ),
        EngineRequest::Echo { payload, .. } => (EngineReply::Echo { payload }, false),
        EngineRequest::Health { include_memory, .. } => {
            let mem: u64 = if include_memory {
                match facts.private_bytes {
                    Some(b) => b,
                    None => 0,
                }
            } else {
                0
            };
            (
                EngineReply::Health {
                    status: "HEALTHY".to_owned(),
                    uptime_ms: facts.uptime_ms,
                    memory_private_bytes: mem,
                    handle_count: facts.handle_count,
                },
                false,
            )
        },
        EngineRequest::Status { .. } => (
            EngineReply::Status {
                state: "IDLE".to_owned(),
                active_runs: 0,
                total_observations: 0,
                session_id: facts.session_id,
            },
            false,
        ),
        EngineRequest::Version { .. } => {
            let mut capabilities: Vec<String> = Vec::new();
            capabilities.push("scan".to_owned());
            capabilities.push("remediation".to_owned());
            (
                EngineReply::Version {
                    engine_version: facts.engine_version,
                    protocol_version: 1,
                    build_date: facts.build_date,
                    commit_hash: facts.commit_hash,
                    capabilities,
                },
                false,
            )
        },
        EngineRequest::Cancel { target_request_id } => {
            let mut out: Vec<char> = Vec::new();
            append_chars(&mut out, "Request ");
            append_chars(&mut out, target_request_id.as_str());
            append_chars(&mut out, " cancelled");
            proof {
                assert(out@ =~= cancel_message(target_request_id@));
            }
            (
                EngineReply::Cancel {
                    cancelled: true,
                    message: crate::text::string_from_chars(out.as_slice()),
                },
                false,
            )
        },
        EngineRequest::Shutdown => (EngineReply::Shutdown { status: 0 }, true),
        EngineRequest::Unknown => (
            EngineReply::Error {
                code: "UNKNOWN_COMMAND".to_owned(),
                message: "Requested command verb is not supported".to_owned(),
            },
            false,
        ),
    }
}

} // verus!
