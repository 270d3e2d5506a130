//! The texts of the library's errors.

use crate::builder::GraphBuildError;
use crate::graph::GraphQueryError;
use crate::validator::{drive_kind_name, TargetValidationError};
use crate::cli::{append_decimal, decimal_digits};
use crate::text::append_chars;
use vstd::prelude::*;

verus! {

/// The text of a build error.
pub open spec fn build_error_message(e: GraphBuildError) -> Seq<char> {
    match e {
        GraphBuildError::InvalidRoot { entry_id, parent_id } => "invalid root entry: expected id=1 and parent_id=0, got id="@
            + decimal_digits(entry_id as nat) + " and parent_id="@ + decimal_digits(parent_id as nat),
        GraphBuildError::DuplicateEntryId(id) => "duplicate entry ID: "@ + decimal_digits(id as nat),
        GraphBuildError::MissingParent { entry_id, parent_id } => "missing or out-of-order parent: entry "@
            + decimal_digits(entry_id as nat) + " references non-existent parent "@ + decimal_digits(
            parent_id as nat,
        ),
        GraphBuildError::ParentNotDirectory { entry_id, parent_id } => "parent of entry "@ + decimal_digits(
            entry_id as nat,
        ) + " (id="@ + decimal_digits(parent_id as nat) + ") is not a directory"@,
        GraphBuildError::SelfParent(id) => "entry "@ + decimal_digits(id as nat)
            + " has self-referencing parent_id"@,
        GraphBuildError::UnknownStreamParent { entry_id } => "content stream references unknown entry "@
            + decimal_digits(entry_id as nat),
        GraphBuildError::RecordAfterTerminal => "received observation record after terminal record"@,
        GraphBuildError::DuplicateTerminal => "received duplicate terminal record"@,
        GraphBuildError::MissingTerminal => "stream finished without a terminal record"@,
        GraphBuildError::AggregateMismatch { field, expected, actual } => "terminal aggregate mismatch on "@
            + field@ + ": expected "@ + decimal_digits(expected as nat) + ", actual "@ + decimal_digits(
            actual as nat,
        ),
    }
}

impl GraphBuildError {
    /// The error's text (see `build_error_message`).
    pub fn message(&self) -> (r: String)
        ensures
            r@ == build_error_message(*self),
    {
        let mut out: Vec<char> = Vec::new();
        match self {
            GraphBuildError::InvalidRoot { entry_id, parent_id } => {
                append_chars(&mut out, "invalid root entry: expected id=1 and parent_id=0, got id=");
                append_decimal(&mut out, *entry_id as u64);
                append_chars(&mut out, " and parent_id=");
                append_decimal(&mut out, *parent_id as u64);
            },
            GraphBuildError::DuplicateEntryId(id) => {
                append_chars(&mut out, "duplicate entry ID: ");
                append_decimal(&mut out, *id as u64);
            },
            GraphBuildError::MissingParent { entry_id, parent_id } => {
                append_chars(&mut out, "missing or out-of-order parent: entry ");
                append_decimal(&mut out, *entry_id as u64);
                append_chars(&mut out, " references non-existent parent ");
                append_decimal(&mut out, *parent_id as u64);
            },
            GraphBuildError::ParentNotDirectory { entry_id, parent_id } => {
                append_chars(&mut out, "parent of entry ");
                append_decimal(&mut out, *entry_id as u64);
                append_chars(&mut out, " (id=");
                append_decimal(&mut out, *parent_id as u64);
                append_chars(&mut out, ") is not a directory");
            },
            GraphBuildError::SelfParent(id) => {
                append_chars(&mut out, "entry ");
                append_decimal(&mut out, *id as u64);
                append_chars(&mut out, " has self-referencing parent_id");
            },
            GraphBuildError::UnknownStreamParent { entry_id } => {
                append_chars(&mut out, "content stream references unknown entry ");
                append_decimal(&mut out, *entry_id as u64);
            },
            GraphBuildError::RecordAfterTerminal => {
                append_chars(&mut out, "received observation record after terminal record");
            },
            GraphBuildError::DuplicateTerminal => {
                append_chars(&mut out, "received duplicate terminal record");
            },
            GraphBuildError::MissingTerminal => {
                append_chars(&mut out, "stream finished without a terminal record");
            },
            GraphBuildError::AggregateMismatch { field, expected, actual } => {
                append_chars(&mut out, "terminal aggregate mismatch on ");
                append_chars(&mut out, field);
                append_chars(&mut out, ": expected ");
                append_decimal(&mut out, *expected);
                append_chars(&mut out, ", actual ");
                append_decimal(&mut out, *actual);
            },
        }
        proof {
            assert(out@ =~= build_error_message(*self));
        }
        crate::text::string_from_chars(out.as_slice())
    }
}


/// The text of a graph query error.
pub open spec fn query_error_message(e: GraphQueryError) -> Seq<char> {
    match e {
        GraphQueryError::ParentNotFound(id) => "Parent entry ID "@ + decimal_digits(id as nat)
            + " not found"@,
        GraphQueryError::ParentNotDirectory(id) => "Entry ID "@ + decimal_digits(id as nat)
            + " is not a directory"@,
    }
}

impl GraphQueryError {
    /// The error's text (see `query_error_message`).
    pub fn message(&self) -> (r: String)
        ensures
            r@ == query_error_message(*self),
    {
        let mut out: Vec<char> = Vec::new();
        match self {
            GraphQueryError::ParentNotFound(id) => {
                append_chars(&mut out, "Parent entry ID ");
                append_decimal(&mut out, *id as u64);
                append_chars(&mut out, " not found");
            },
            GraphQueryError::ParentNotDirectory(id) => {
                append_chars(&mut out, "Entry ID ");
                append_decimal(&mut out, *id as u64);
                append_chars(&mut out, " is not a directory");
            },
        }
        proof {
            assert(out@ =~= query_error_message(*self));
        }
        crate::text::string_from_chars(out.as_slice())
    }
}

/// The text of a scan-target refusal.
pub open spec fn target_error_message(e: TargetValidationError) -> Seq<char> {
    match e {
        TargetValidationError::EmptyPath => "Target directory path cannot be empty"@,
        TargetValidationError::UncPathNotSupported { path } => "UNC and network paths are not supported: "@
            + path@,
        TargetValidationError::NotFound { path } => "Target directory does not exist: "@ + path@,
        TargetValidationError::NotADirectory { path } => "Target path is not a directory: "@ + path@,
        TargetValidationError::CanonicalizationFailed { path, reason } => "Failed to resolve target path '"@
            + path@ + "': "@ + reason@,
        TargetValidationError::VolumeResolutionFailed { path, win32_code } => "Failed to determine volume root for '"@
            + path@ + "' (Win32 error "@ + decimal_digits(win32_code as nat) + ")"@,
        TargetValidationError::UnsupportedDriveType { volume_root, drive_kind, .. } => "Target volume '"@
            + volume_root@ + "' has unsupported drive type '"@ + drive_kind_name(drive_kind)
            + "' (only fixed and removable local drives are supported)"@,
        TargetValidationError::VolumeInformationFailed { volume_root, win32_code, .. } => "Failed to query volume information for '"@
            + volume_root@ + "' (Win32 error "@ + decimal_digits(win32_code as nat) + ")"@,
        TargetValidationError::UnsupportedFileSystem { volume_root, filesystem_name, .. } => "Filesystem '"@
            + filesystem_name@ + "' on volume '"@ + volume_root@
            + "' is not supported (supported filesystems: NTFS, ReFS, FAT32, exFAT)"@,
    }
}

impl TargetValidationError {
    /// The refusal's text (see `target_error_message`).
    pub fn message(&self) -> (r: String)
        ensures
            r@ == target_error_message(*self),
    {
        let mut out: Vec<char> = Vec::new();
        match self {
            TargetValidationError::EmptyPath => {
                append_chars(&mut out, "Target directory path cannot be empty");
            },
            TargetValidationError::UncPathNotSupported { path } => {
                append_chars(&mut out, "UNC and network paths are not supported: ");
                append_chars(&mut out, path.as_str());
            },
            TargetValidationError::NotFound { path } => {
                append_chars(&mut out, "Target directory does not exist: ");
                append_chars(&mut out, path.as_str());
            },
            TargetValidationError::NotADirectory { path } => {
                append_chars(&mut out, "Target path is not a directory: ");
                append_chars(&mut out, path.as_str());
            },
            TargetValidationError::CanonicalizationFailed { path, reason } => {
                append_chars(&mut out, "Failed to resolve target path '");
                append_chars(&mut out, path.as_str());
                append_chars(&mut out, "': ");
                append_chars(&mut out, reason.as_str());
            },
            TargetValidationError::VolumeResolutionFailed { path, win32_code } => {
                append_chars(&mut out, "Failed to determine volume root for '");
                append_chars(&mut out, path.as_str());
                append_chars(&mut out, "' (Win32 error ");
                append_decimal(&mut out, *win32_code as u64);
                append_chars(&mut out, ")");
            },
            TargetValidationError::UnsupportedDriveType { volume_root, drive_kind, .. } => {
                append_chars(&mut out, "Target volume '");
                append_chars(&mut out, volume_root.as_str());
                append_chars(&mut out, "' has unsupported drive type '");
                append_chars(&mut out, drive_kind.as_str());
                append_chars(&mut out, "' (only fixed and removable local drives are supported)");
            },
            TargetValidationError::VolumeInformationFailed { volume_root, win32_code, .. } => {
                append_chars(&mut out, "Failed to query volume information for '");
                append_chars(&mut out, volume_root.as_str());
                append_chars(&mut out, "' (Win32 error ");
                append_decimal(&mut out, *win32_code as u64);
                append_chars(&mut out, ")");
            },
            TargetValidationError::UnsupportedFileSystem { volume_root, filesystem_name, .. } => {
                append_chars(&mut out, "Filesystem '");
                append_chars(&mut out, filesystem_name.as_str());
                append_chars(&mut out, "' on volume '");
                append_chars(&mut out, volume_root.as_str());
                append_chars(
                    &mut out,
                    "' is not supported (supported filesystems: NTFS, ReFS, FAT32, exFAT)",
                );
            },
        }
        proof {
            assert(out@ =~= target_error_message(*self));
        }
        crate::text::string_from_chars(out.as_slice())
    }
}

} // verus!
