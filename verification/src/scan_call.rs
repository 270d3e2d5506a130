//! The client side of a scan call: which frames it accepts while the scan
//! runs, and how the call ends.

use crate::text::str_eq;
use vstd::prelude::*;

verus! {

/// What a command-channel response carries.
#[derive(Debug, Clone, PartialEq, Eq)]
pub enum ResponseBody {
    /// A scan response: its operation id and whether its run outcome is cancelled.
    Scan { operation_id: String, outcome_cancelled: bool },
    /// An error response.
    Error { code: String, message: String },
    /// Any other response.
    Other,
}

/// A frame received while a scan call is in flight.
#[derive(Debug, Clone, PartialEq, Eq)]
pub enum ScanFrame {
    /// A progress pulse: its operation id and sequence number.
    Progress { operation_id: String, sequence_number: u64 },
    /// A progress-channel frame without a progress report.
    MalformedProgress,
    /// A command-channel response.
    Response {
        request_id: String,
        status: u32,
        error_code: String,
        error_message: String,
        body: ResponseBody,
    },
    /// A frame on another channel, with its tag.
    OtherChannel(u8),
}

/// Why a scan call fails.
#[derive(Debug, Clone, PartialEq, Eq)]
pub enum ScanCallError {
    /// A progress pulse for another operation.
    ForeignProgress,
    /// A progress pulse whose sequence number does not increase.
    StaleProgress,
    /// A progress-channel frame without a progress report.
    MalformedProgress,
    /// A response that does not belong to this call or does not end it.
    UnexpectedResponse,
    /// The engine refused the command.
    CommandError { code: String, message: String },
    /// A frame on a channel the call does not use.
    InvalidChannel(u8),
}

/// What the call does after a frame.
#[derive(Debug, Clone, PartialEq, Eq)]
pub enum ScanStep {
    /// A progress report was accepted; hand it on and keep waiting.
    Progress,
    /// The scan finished.
    Finished,
    /// The scan ended cancelled.
    Cancelled,
    /// The call failed.
    Failed(ScanCallError),
}

/// The state of an in-flight scan call.
pub struct ScanCall {
    operation_id: String,
    last_progress_seq: u64,
    cancel_sent: bool,
}

/// The logical state of a scan call.
pub struct ScanCallView {
    pub operation_id: Seq<char>,
    pub last_progress_seq: u64,
    pub cancel_sent: bool,
}

/// The step a frame causes in a call in state `s`, and the state after it.
pub open spec fn scan_step(s: ScanCallView, f: ScanFrame) -> (ScanCallView, ScanStep) {
    match f {
        ScanFrame::Progress { operation_id, sequence_number } => if operation_id@ != s.operation_id {
            (s, ScanStep::Failed(ScanCallError::ForeignProgress))
        } else if sequence_number <= s.last_progress_seq {
            (s, ScanStep::Failed(ScanCallError::StaleProgress))
        } else {
            (ScanCallView { last_progress_seq: sequence_number, ..s }, ScanStep::Progress)
        },
        ScanFrame::MalformedProgress => (s, ScanStep::Failed(ScanCallError::MalformedProgress)),
        ScanFrame::Response { request_id, status, error_code, error_message, body } => if request_id@.len()
            > 0 && request_id@ != s.operation_id {
            (s, ScanStep::Failed(ScanCallError::UnexpectedResponse))
        } else if status != 0 {
            (s, ScanStep::Failed(ScanCallError::CommandError { code: error_code, message: error_message }))
        } else {
            match body {
                ResponseBody::Scan { operation_id, outcome_cancelled } => if operation_id@ != s.operation_id {
                    (s, ScanStep::Failed(ScanCallError::UnexpectedResponse))
                } else if s.cancel_sent || outcome_cancelled {
                    (s, ScanStep::Cancelled)
                } else {
                    (s, ScanStep::Finished)
                },
                ResponseBody::Error { code, message } => (
                    s,
                    ScanStep::Failed(ScanCallError::CommandError { code, message }),
                ),
                ResponseBody::Other => (s, ScanStep::Failed(ScanCallError::UnexpectedResponse)),
            }
        },
        ScanFrame::OtherChannel(tag) => (s, ScanStep::Failed(ScanCallError::InvalidChannel(tag))),
    }
}

impl View for ScanCall {
    type V = ScanCallView;

    closed spec fn view(&self) -> ScanCallView {
        ScanCallView {
            operation_id: self.operation_id@,
            last_progress_seq: self.last_progress_seq,
            cancel_sent: self.cancel_sent,
        }
    }
}

impl ScanCall {
    /// A call for the given operation, before any progress and any cancel.
    pub fn new(operation_id: String) -> (r: Self)
        ensures
            r@ == (ScanCallView { operation_id: operation_id@, last_progress_seq: 0, cancel_sent: false }),
    {
        ScanCall { operation_id, last_progress_seq: 0, cancel_sent: false }
    }

    /// The operation id of the call.
    pub fn operation_id(&self) -> (r: &str)
        ensures
            r@ == self@.operation_id,
    {
        self.operation_id.as_str()
    }

    /// The last accepted progress sequence number.
    pub fn last_progress_seq(&self) -> (r: u64)
        ensures
            r == self@.last_progress_seq,
    {
        self.last_progress_seq
    }

    /// Whether a cancel request was sent.
    pub fn cancel_sent(&self) -> (r: bool)
        ensures
            r == self@.cancel_sent,
    {
        self.cancel_sent
    }

    /// Records that a cancel request was sent: from now on, the scan's end
    /// counts as cancelled.
    pub fn mark_cancel_sent(&mut self)
        ensures
            final(self)@ == (ScanCallView { cancel_sent: true, ..old(self)@ }),
    {
        self.cancel_sent = true;
    }

    /// Takes in one frame (see `scan_step`).
    pub fn on_frame(&mut self, frame: ScanFrame) -> (r: ScanStep)
        ensures
            (final(self)@, r) == scan_step(old(self)@, frame),
    {
        match frame {
            ScanFrame::Progress { operation_id, sequence_number } => {
                let ghost s0 = self@;
                if !str_eq(operation_id.as_str(), self.operation_id.as_str()) {
                    return ScanStep::Failed(ScanCallError::ForeignProgress);
                }
                if sequence_number <= self.last_progress_seq {
                    return ScanStep::Failed(ScanCallError::StaleProgress);
                }
                self.last_progress_seq = sequence_number;
                proof {
                    assert(self@ == (ScanCallView { last_progress_seq: sequence_number, ..s0 }));
                }
                ScanStep::Progress
            },
            ScanFrame::MalformedProgress => ScanStep::Failed(ScanCallError::MalformedProgress),
            ScanFrame::Response { request_id, status, error_code, error_message, body } => {
                if !request_id.as_str().is_empty() && !str_eq(request_id.as_str(), self.operation_id.as_str()) {
                    return ScanStep::Failed(ScanCallError::UnexpectedResponse);
                }
                if status != 0 {
                    return ScanStep::Failed(
                        ScanCallError::CommandError { code: error_code, message: error_message },
                    );
                }
                match body {
                    ResponseBody::Scan { operation_id, outcome_cancelled } => {
                        if !str_eq(operation_id.as_str(), self.operation_id.as_str()) {
                            return ScanStep::Failed(ScanCallError::UnexpectedResponse);
                        }
                        if self.cancel_sent || outcome_cancelled {
                            ScanStep::Cancelled
                        } else {
                            ScanStep::Finished
                        }
                    },
                    ResponseBody::Error { code, message } => ScanStep::Failed(
                        ScanCallError::CommandError { code, message },
                    ),
                    ResponseBody::Other => ScanStep::Failed(ScanCallError::UnexpectedResponse),
                }
            },
            ScanFrame::OtherChannel(tag) => ScanStep::Failed(ScanCallError::InvalidChannel(tag)),
        }
    }
}


/// How long a call waits for the scan to end once a cancel was sent.
pub const CANCEL_GRACE_MS: u64 = 2000;

/// Whether a call that sent a cancel at `cancel_sent_at_ms` (if it did) has
/// waited past its grace period at `now_ms`, and so ends as cancelled
/// without waiting for the scan's answer.
pub fn cancel_deadline_passed(cancel_sent_at_ms: Option<u64>, now_ms: u64) -> (r: bool)
    ensures
        r == match cancel_sent_at_ms {
            Some(t) => now_ms >= t + CANCEL_GRACE_MS,
            None => false,
        },
{
    match cancel_sent_at_ms {
        Some(t) => t <= now_ms && now_ms - t >= CANCEL_GRACE_MS,
        None => false,
    }
}

} // verus!
