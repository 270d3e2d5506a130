//! Observation records produced by a scan worker, and the link-evidence
//! vocabulary shared by the builder and the graph.

use vstd::prelude::*;

verus! {

/// Knowledge about one measured value: known, unavailable, not applicable to
/// this kind of object, or not observed at all.
#[derive(Debug, Clone, Copy, PartialEq, Eq, Structural)]
pub enum ValueKnowledge {
    Known(u32),
    Unavailable,
    NotApplicable,
    NotObserved,
}

/// What the link evidence says about links that live outside the scan target.
#[derive(Debug, Clone, Copy, PartialEq, Eq, Structural)]
pub enum ExternalReferenceStatus {
    NotApplicable,
    ConfirmedNone,
    ConfirmedExternal,
    Indeterminate,
    InconsistentEvidence,
}

/// The external-reference status derived from a total link count and the
/// number of aliases observed inside the target.
pub open spec fn derive_status(link: ValueKnowledge, observed: u32) -> ExternalReferenceStatus {
    match link {
        ValueKnowledge::Known(k) => if k == observed {
            ExternalReferenceStatus::ConfirmedNone
        } else if k > observed {
            ExternalReferenceStatus::ConfirmedExternal
        } else {
            ExternalReferenceStatus::InconsistentEvidence
        },
        ValueKnowledge::NotApplicable => ExternalReferenceStatus::NotApplicable,
        ValueKnowledge::Unavailable => ExternalReferenceStatus::Indeterminate,
        ValueKnowledge::NotObserved => ExternalReferenceStatus::Indeterminate,
    }
}

impl ExternalReferenceStatus {
    /// Derives the status: all links seen (ConfirmedNone), more links than
    /// aliases (ConfirmedExternal), fewer (InconsistentEvidence), no count
    /// (Indeterminate), or not a linkable object (NotApplicable).
    pub fn derive(link: ValueKnowledge, observed: u32) -> (r: ExternalReferenceStatus)
        ensures
            r == derive_status(link, observed),
    {
        match link {
            ValueKnowledge::Known(k) => if k == observed {
                ExternalReferenceStatus::ConfirmedNone
            } else if k > observed {
                ExternalReferenceStatus::ConfirmedExternal
            } else {
                ExternalReferenceStatus::InconsistentEvidence
            },
            ValueKnowledge::NotApplicable => ExternalReferenceStatus::NotApplicable,
            ValueKnowledge::Unavailable => ExternalReferenceStatus::Indeterminate,
            ValueKnowledge::NotObserved => ExternalReferenceStatus::Indeterminate,
        }
    }
}

/// Volume-qualified identity of a filesystem object.
#[derive(Debug, Clone, Copy, PartialEq, Eq)]
pub struct ObjectIdentity {
    pub volume_guid: [u8; 16],
    pub file_id: u128,
}

impl ObjectIdentity {
    pub fn new(volume_guid: [u8; 16], file_id: u128) -> (r: ObjectIdentity)
        ensures
            r.volume_guid == volume_guid,
            r.file_id == file_id,
    {
        ObjectIdentity { volume_guid, file_id }
    }
}

/// Compares two identities field by field.
pub fn identity_eq(a: &ObjectIdentity, b: &ObjectIdentity) -> (r: bool)
    ensures
        r == (*a == *b),
{
    if a.file_id != b.file_id {
        return false;
    }
    let mut i: usize = 0;
    while i < 16
        invariant
            i <= 16,
            forall|k: int| 0 <= k < i ==> a.volume_guid[k] == b.volume_guid[k],
        decreases 16 - i,
    {
        if a.volume_guid[i] != b.volume_guid[i] {
            return false;
        }
        i += 1;
    }
    proof {
        assert(a.volume_guid =~= b.volume_guid);
    }
    true
}

/// Final outcome of a scan run.
#[derive(Debug, Clone, Copy, PartialEq, Eq, Structural)]
pub enum RunOutcome {
    Finished,
    Cancelled,
    Failed,
}

/// A directory seen during traversal.
#[derive(Debug, Clone, PartialEq, Eq)]
pub struct DirectoryObservation {
    pub entry_id: u32,
    pub parent_id: u32,
    pub name: String,
    pub file_attributes: u32,
    pub reparse_tag: u32,
    pub creation_time_utc_ms: u64,
    pub last_write_time_utc_ms: u64,
    pub last_access_time_utc_ms: u64,
    pub object_id: Option<ObjectIdentity>,
    pub allocated_size: Option<u64>,
    pub total_link_count: ValueKnowledge,
}

/// A regular file seen during traversal.
#[derive(Debug, Clone, PartialEq, Eq)]
pub struct FileObservation {
    pub entry_id: u32,
    pub parent_id: u32,
    pub name: String,
    pub logical_size: u64,
    pub allocated_size: Option<u64>,
    pub file_attributes: u32,
    pub reparse_tag: u32,
    pub creation_time_utc_ms: u64,
    pub last_write_time_utc_ms: u64,
    pub last_access_time_utc_ms: u64,
    pub object_id: Option<ObjectIdentity>,
    pub total_link_count: ValueKnowledge,
}

/// A special object (reparse point, device, ...) seen during traversal.
#[derive(Debug, Clone, PartialEq, Eq)]
pub struct SpecialObservation {
    pub entry_id: u32,
    pub parent_id: u32,
    pub name: String,
    pub file_attributes: u32,
    pub reparse_tag: u32,
    pub creation_time_utc_ms: u64,
    pub last_write_time_utc_ms: u64,
    pub last_access_time_utc_ms: u64,
    pub object_id: Option<ObjectIdentity>,
}

/// A secondary content stream of an already observed entry.
#[derive(Debug, Clone, PartialEq, Eq)]
pub struct StreamObservation {
    pub parent_entry_id: u32,
    pub name: String,
    pub logical_size: u64,
    pub allocated_size: Option<u64>,
}

/// A part of the target that could not be traversed.
#[derive(Debug, Clone, PartialEq, Eq)]
pub struct CoverageGapObservation {
    pub path: String,
    pub error_code: u32,
    pub error_message: String,
}

/// The closing record of a stream with the worker's own totals.
#[derive(Debug, Clone, Copy, PartialEq, Eq)]
pub struct TerminalObservation {
    pub outcome: RunOutcome,
    pub total_directories: u64,
    pub total_files: u64,
    pub total_logical_bytes: u64,
    pub total_allocated_bytes: u64,
    pub coverage_gap_count: u32,
    pub duration_ms: u64,
}

/// One record of the observation stream.
#[derive(Debug, Clone, PartialEq, Eq)]
pub enum ObservationRecord {
    Directory(DirectoryObservation),
    File(FileObservation),
    Special(SpecialObservation),
    ContentStream(StreamObservation),
    CoverageGap(CoverageGapObservation),
    Terminal(TerminalObservation),
}

} // verus!
