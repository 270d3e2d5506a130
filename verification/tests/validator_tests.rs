use pigtree::validator::{
    check_target_text, is_lexical_unc, validate_scan_target_facts, DriveKind, FileSystemKind,
    TargetValidationError, ValidatedScanTarget,
};
use pigtree::win32::{
    DRIVE_CDROM, DRIVE_FIXED, DRIVE_NO_ROOT_DIR, DRIVE_RAMDISK, DRIVE_REMOTE, DRIVE_REMOVABLE,
    DRIVE_UNKNOWN,
};

#[test]
fn test_lexical_unc_detection() {
    // UNC network paths (standard and forward slash)
    assert!(is_lexical_unc(r"\\server\share"));
    assert!(is_lexical_unc("//server/share"));
    assert!(is_lexical_unc(r"\\localhost\c$"));
    assert!(is_lexical_unc(r"\\127.0.0.1\c$"));
    assert!(is_lexical_unc(r"\\192.168.1.1\share\dir"));

    // Extended UNC paths
    assert!(is_lexical_unc(r"\\?\UNC\server\share"));
    assert!(is_lexical_unc(r"\\?\unc\server\share"));
    assert!(is_lexical_unc(r"\\.\UNC\server\share"));
    assert!(is_lexical_unc("//?/UNC/server/share"));
    assert!(is_lexical_unc(r"\??\UNC\server\share"));

    // Non-UNC paths (local paths, drive letters, extended DOS paths)
    assert!(!is_lexical_unc(r"C:\"));
    assert!(!is_lexical_unc("C:/"));
    assert!(!is_lexical_unc(r"C:\Users\test"));
    assert!(!is_lexical_unc("C:/Users/test"));
    assert!(!is_lexical_unc(r"\\?\C:\Users\test"));
    assert!(!is_lexical_unc(r"\\.\C:\Users\test"));
    assert!(!is_lexical_unc(r"\\?\D:\"));
    assert!(!is_lexical_unc("."));
    assert!(!is_lexical_unc(".."));
    assert!(!is_lexical_unc(r"relative\path"));
    assert!(!is_lexical_unc(""));
}

#[test]
fn test_drive_kind_classification() {
    // Accepted drive types: FIXED and REMOVABLE
    assert!(DriveKind::from_raw(DRIVE_FIXED).is_supported());
    assert_eq!(DriveKind::from_raw(DRIVE_FIXED), DriveKind::Fixed);
    assert_eq!(DriveKind::from_raw(DRIVE_FIXED).as_str(), "DRIVE_FIXED");

    assert!(DriveKind::from_raw(DRIVE_REMOVABLE).is_supported());
    assert_eq!(DriveKind::from_raw(DRIVE_REMOVABLE), DriveKind::Removable);
    assert_eq!(
        DriveKind::from_raw(DRIVE_REMOVABLE).as_str(),
        "DRIVE_REMOVABLE"
    );

    // Rejected drive types
    assert!(!DriveKind::from_raw(DRIVE_REMOTE).is_supported());
    assert_eq!(DriveKind::from_raw(DRIVE_REMOTE), DriveKind::Remote);
    assert_eq!(DriveKind::from_raw(DRIVE_REMOTE).as_str(), "DRIVE_REMOTE");

    assert!(!DriveKind::from_raw(DRIVE_CDROM).is_supported());
    assert_eq!(DriveKind::from_raw(DRIVE_CDROM), DriveKind::CdRom);
    assert_eq!(DriveKind::from_raw(DRIVE_CDROM).as_str(), "DRIVE_CDROM");

    assert!(!DriveKind::from_raw(DRIVE_RAMDISK).is_supported());
    assert_eq!(DriveKind::from_raw(DRIVE_RAMDISK), DriveKind::RamDisk);
    assert_eq!(DriveKind::from_raw(DRIVE_RAMDISK).as_str(), "DRIVE_RAMDISK");

    assert!(!DriveKind::from_raw(DRIVE_UNKNOWN).is_supported());
    assert_eq!(DriveKind::from_raw(DRIVE_UNKNOWN), DriveKind::Unknown);

    assert!(!DriveKind::from_raw(DRIVE_NO_ROOT_DIR).is_supported());
    assert_eq!(DriveKind::from_raw(DRIVE_NO_ROOT_DIR), DriveKind::NoRootDir);

    assert!(!DriveKind::from_raw(999).is_supported());
    assert_eq!(DriveKind::from_raw(999), DriveKind::Other(999));
}

#[test]
fn test_filesystem_kind_classification() {
    // Accepted filesystems (case-insensitive)
    for name in &["NTFS", "ntfs", "Ntfs", "  NTFS  "] {
        let kind = FileSystemKind::parse(name);
        assert!(kind.is_supported(), "Expected {name} to be supported");
        assert_eq!(kind, FileSystemKind::Ntfs);
        assert_eq!(kind.as_str(), "NTFS");
    }

    for name in &["ReFS", "refs", "REFS"] {
        let kind = FileSystemKind::parse(name);
        assert!(kind.is_supported(), "Expected {name} to be supported");
        assert_eq!(kind, FileSystemKind::ReFs);
        assert_eq!(kind.as_str(), "ReFS");
    }

    for name in &["FAT32", "fat32", "Fat32"] {
        let kind = FileSystemKind::parse(name);
        assert!(kind.is_supported(), "Expected {name} to be supported");
        assert_eq!(kind, FileSystemKind::Fat32);
        assert_eq!(kind.as_str(), "FAT32");
    }

    for name in &["exFAT", "exfat", "EXFAT"] {
        let kind = FileSystemKind::parse(name);
        assert!(kind.is_supported(), "Expected {name} to be supported");
        assert_eq!(kind, FileSystemKind::ExFat);
        assert_eq!(kind.as_str(), "exFAT");
    }

    // Rejected filesystems
    for name in &[
        "FAT",
        "FAT12",
        "FAT16",
        "CDFS",
        "UDF",
        "NFS",
        "SMB",
        "ext4",
        "CSVFS",
        "UnknownFS",
    ] {
        let kind = FileSystemKind::parse(name);
        assert!(!kind.is_supported(), "Expected {name} to be rejected");
        assert_eq!(kind, FileSystemKind::Unsupported(name.to_string()));
    }
}

#[test]
fn test_validate_empty_and_unc_paths() {
    // Empty path
    assert_eq!(check_target_text(""), Err(TargetValidationError::EmptyPath));
    assert_eq!(check_target_text("   "), Err(TargetValidationError::EmptyPath));

    // Standard UNC
    match check_target_text(r"\\nonexistent_server\share") {
        Err(TargetValidationError::UncPathNotSupported { path }) => {
            assert!(path.contains("nonexistent_server"));
        }
        other => panic!("Expected UncPathNotSupported, got {other:?}"),
    }

    // Extended UNC
    match check_target_text(r"\\?\UNC\dummy\share") {
        Err(TargetValidationError::UncPathNotSupported { path }) => {
            assert!(path.contains("dummy"));
        }
        other => panic!("Expected UncPathNotSupported, got {other:?}"),
    }
}

fn facts(
    display: &str,
    exists: bool,
    is_dir: bool,
    canonical: Result<&str, &str>,
    root: Result<&str, u32>,
    drive: u32,
    info: Result<(&str, u32), u32>,
) -> Result<ValidatedScanTarget, TargetValidationError> {
    validate_scan_target_facts(
        display,
        exists,
        is_dir,
        canonical.map(|c| c.to_string()).map_err(|e| e.to_string()),
        root.map(|r| r.to_string()),
        drive,
        info.map(|(n, s)| (n.to_string(), s)),
    )
}

#[test]
fn test_validate_facts_accepts_local_ntfs_directory() {
    let v = facts(
        r"C:\data",
        true,
        true,
        Ok(r"C:\Data"),
        Ok(r"C:\"),
        DRIVE_FIXED,
        Ok(("NTFS", 0x1234_abcd)),
    )
    .unwrap();
    assert_eq!(v.display_path, r"C:\data");
    assert_eq!(v.canonical_path, r"C:\Data");
    assert_eq!(v.extended_path, r"\\?\C:\Data");
    assert_eq!(v.volume_root, r"C:\");
    assert_eq!(v.drive_kind, DriveKind::Fixed);
    assert_eq!(v.filesystem_kind, FileSystemKind::Ntfs);
    assert_eq!(v.filesystem_name, "NTFS");
    assert_eq!(v.volume_serial_number, Some(0x1234_abcd));
    assert!(v.filesystem_kind.is_supported());
    assert!(v.drive_kind.is_supported());

    // An already extended canonical path is kept as it is.
    let w = facts(
        r"D:\x",
        true,
        true,
        Ok(r"\\?\D:\x"),
        Ok(r"D:\"),
        DRIVE_REMOVABLE,
        Ok(("exFAT", 7)),
    )
    .unwrap();
    assert_eq!(w.extended_path, r"\\?\D:\x");
    assert_eq!(w.drive_kind, DriveKind::Removable);
    assert_eq!(w.filesystem_kind, FileSystemKind::ExFat);
}

#[test]
fn test_validate_facts_each_refusal() {
    let ok_info: Result<(&str, u32), u32> = Ok(("NTFS", 1));
    assert_eq!(
        facts("  ", true, true, Ok(r"C:\"), Ok(r"C:\"), DRIVE_FIXED, ok_info),
        Err(TargetValidationError::EmptyPath)
    );
    assert_eq!(
        facts(r"\\srv\share", true, true, Ok(r"C:\"), Ok(r"C:\"), DRIVE_FIXED, ok_info),
        Err(TargetValidationError::UncPathNotSupported { path: r"\\srv\share".to_string() })
    );
    assert_eq!(
        facts(r"C:\missing", false, false, Ok(r"C:\"), Ok(r"C:\"), DRIVE_FIXED, ok_info),
        Err(TargetValidationError::NotFound { path: r"C:\missing".to_string() })
    );
    assert_eq!(
        facts(r"C:\f.txt", true, false, Ok(r"C:\"), Ok(r"C:\"), DRIVE_FIXED, ok_info),
        Err(TargetValidationError::NotADirectory { path: r"C:\f.txt".to_string() })
    );
    assert_eq!(
        facts(r"C:\d", true, true, Err("denied"), Ok(r"C:\"), DRIVE_FIXED, ok_info),
        Err(TargetValidationError::CanonicalizationFailed {
            path: r"C:\d".to_string(),
            reason: "denied".to_string()
        })
    );
    assert_eq!(
        facts(r"Z:\d", true, true, Ok(r"\\?\UNC\srv\share\d"), Ok(r"Z:\"), DRIVE_FIXED, ok_info),
        Err(TargetValidationError::UncPathNotSupported { path: r"Z:\d".to_string() })
    );
    assert_eq!(
        facts(r"C:\d", true, true, Ok(r"C:\d"), Err(5), DRIVE_FIXED, ok_info),
        Err(TargetValidationError::VolumeResolutionFailed { path: r"C:\d".to_string(), win32_code: 5 })
    );
    assert_eq!(
        facts(r"E:\d", true, true, Ok(r"E:\d"), Ok(r"E:\"), DRIVE_CDROM, ok_info),
        Err(TargetValidationError::UnsupportedDriveType {
            path: r"E:\d".to_string(),
            volume_root: r"E:\".to_string(),
            drive_kind: DriveKind::CdRom
        })
    );
    assert_eq!(
        facts(r"C:\d", true, true, Ok(r"C:\d"), Ok(r"C:\"), DRIVE_FIXED, Err(21)),
        Err(TargetValidationError::VolumeInformationFailed {
            path: r"C:\d".to_string(),
            volume_root: r"C:\".to_string(),
            win32_code: 21
        })
    );
    assert_eq!(
        facts(r"C:\d", true, true, Ok(r"C:\d"), Ok(r"C:\"), DRIVE_FIXED, Ok(("FAT", 3))),
        Err(TargetValidationError::UnsupportedFileSystem {
            path: r"C:\d".to_string(),
            volume_root: r"C:\".to_string(),
            filesystem_name: "FAT".to_string()
        })
    );
}
