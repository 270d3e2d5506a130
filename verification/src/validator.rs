//! Scan-target classification: lexical UNC detection, drive and filesystem
//! kinds, and the decisions that accept or reject a local scan target.

use crate::text::{
    chars_eq_ignore_ascii_case, chars_of, eq_ignore_ascii_case_seq, string_from_chars, trim_chars,
    trim_seq,
};
use crate::win32::{
    DRIVE_CDROM, DRIVE_FIXED, DRIVE_NO_ROOT_DIR, DRIVE_RAMDISK, DRIVE_REMOTE, DRIVE_REMOVABLE,
    DRIVE_UNKNOWN,
};
use vstd::prelude::*;

verus! {

/// UTF-16 decoding with replacement: a high surrogate directly followed by a
/// low surrogate is one supplementary character, every other surrogate unit
/// is U+FFFD, and every other unit is the character of that number.
pub open spec fn utf16_decode_lossy(units: Seq<u16>) -> Seq<char>
    decreases units.len(),
{
    if units.len() == 0 {
        Seq::empty()
    } else {
        let u = units[0];
        if 0xD800 <= u <= 0xDBFF && units.len() >= 2 && 0xDC00 <= units[1] <= 0xDFFF {
            let v = (0x10000 + (u - 0xD800) * 0x400 + (units[1] - 0xDC00)) as u32;
            seq![v as char] + utf16_decode_lossy(units.subrange(2, units.len() as int))
        } else if 0xD800 <= u <= 0xDFFF {
            seq!['\u{FFFD}'] + utf16_decode_lossy(units.drop_first())
        } else {
            seq![(u as u32) as char] + utf16_decode_lossy(units.drop_first())
        }
    }
}

/// Decodes UTF-16, each unpaired surrogate becoming U+FFFD
/// (`String::from_utf16_lossy`).
#[verifier::external_body]
fn decode_utf16_lossy(units: &[u16]) -> (r: String)
    ensures
        r@ == utf16_decode_lossy(units@),
{
    String::from_utf16_lossy(units)
}

/// The UTF-16 code units of a character.
pub open spec fn utf16_units(c: char) -> Seq<u16> {
    let u = c as u32;
    if u < 0x10000 {
        seq![u as u16]
    } else {
        let v = u - 0x10000;
        seq![(0xD800 + v / 0x400) as u16, (0xDC00 + v % 0x400) as u16]
    }
}

/// The UTF-16 encoding of a character sequence.
pub open spec fn utf16_encode(s: Seq<char>) -> Seq<u16>
    decreases s.len(),
{
    if s.len() == 0 {
        Seq::empty()
    } else {
        utf16_encode(s.drop_last()) + utf16_units(s.last())
    }
}

/// Encodes a string as UTF-16 followed by a terminating NUL unit, as wide
/// Windows APIs take it.
pub fn to_wide_null(s: &str) -> (r: Vec<u16>)
    ensures
        r@ == utf16_encode(s@).push(0u16),
{
    let cs = chars_of(s);
    let mut out: Vec<u16> = Vec::new();
    let mut i: usize = 0;
    while i < cs.len()
        invariant
            i <= cs@.len(),
            cs@ == s@,
            out@ == utf16_encode(cs@.subrange(0, i as int)),
        decreases cs@.len() - i,
    {
        let c: char = cs[i];
        let u: u32 = c as u32;
        proof {
            assert(cs@.subrange(0, i + 1).drop_last() =~= cs@.subrange(0, i as int));
            assert(cs@.subrange(0, i + 1).last() == c);
        }
        if u < 0x10000 {
            out.push(u as u16);
            proof {
                assert(out@ =~= utf16_encode(cs@.subrange(0, i as int)) + utf16_units(c));
            }
        } else {
            let v: u32 = u - 0x10000;
            out.push((0xD800 + v / 0x400) as u16);
            out.push((0xDC00 + v % 0x400) as u16);
            proof {
                assert(out@ =~= utf16_encode(cs@.subrange(0, i as int)) + utf16_units(c));
            }
        }
        i += 1;
    }
    proof {
        assert(cs@.subrange(0, cs@.len() as int) =~= s@);
    }
    out.push(0);
    out
}

/// Index of the first NUL unit, or the length when there is none.
pub open spec fn nul_terminated_len(s: Seq<u16>) -> int
    decreases s.len(),
{
    if s.len() == 0 {
        0
    } else if s[0] == 0 {
        0
    } else {
        1 + nul_terminated_len(s.drop_first())
    }
}

pub(crate) proof fn lemma_nul_len(s: Seq<u16>, i: int)
    requires
        0 <= i <= s.len(),
        forall|k: int| 0 <= k < i ==> #[trigger] s[k] != 0,
        i == s.len() || s[i] == 0,
    ensures
        nul_terminated_len(s) == i,
    decreases i,
{
    if i > 0 {
        lemma_nul_len(s.drop_first(), i - 1);
    }
}

/// Converts a NUL-terminated UTF-16 buffer to a string: the units before the
/// first NUL (or all of them), decoded lossily.
pub fn wide_slice_to_string(slice: &[u16]) -> (r: String)
    ensures
        r@ == utf16_decode_lossy(slice@.take(nul_terminated_len(slice@))),
{
    let mut len: usize = 0;
    while len < slice.len() && slice[len] != 0
        invariant
            len <= slice.len(),
            forall|k: int| 0 <= k < len ==> #[trigger] slice@[k] != 0,
        decreases slice.len() - len,
    {
        len += 1;
    }
    proof {
        lemma_nul_len(slice@, len as int);
    }
    let mut prefix: Vec<u16> = Vec::new();
    let mut i: usize = 0;
    while i < len
        invariant
            i <= len <= slice.len(),
            prefix@ == slice@.take(i as int),
        decreases len - i,
    {
        prefix.push(slice[i]);
        proof {
            assert(slice@.take(i + 1) =~= slice@.take(i as int).push(slice@[i as int]));
        }
        i += 1;
    }
    decode_utf16_lossy(prefix.as_slice())
}

/// A character's UTF-16 units are never NUL unless the character is.
proof fn lemma_units_nonzero(c: char)
    requires
        c != '\0',
    ensures
        forall|k: int| 0 <= k < utf16_units(c).len() ==> #[trigger] utf16_units(c)[k] != 0,
{
    broadcast use vstd::utf8::char_u32_cast;
    let u = c as u32;
    if u == 0 {
        assert((u as char) == c);
    }
}

/// The encoding of a string, split after its first character.
proof fn lemma_encode_front(s: Seq<char>)
    requires
        s.len() > 0,
    ensures
        utf16_encode(s) == utf16_units(s[0]) + utf16_encode(s.drop_first()),
    decreases s.len(),
{
    if s.len() == 1 {
        assert(s.drop_last() =~= Seq::<char>::empty());
        assert(s.drop_first() =~= Seq::<char>::empty());
        assert(utf16_encode(s.drop_first()) =~= Seq::<u16>::empty());
        assert(utf16_encode(s) =~= utf16_units(s[0]));
    } else {
        lemma_encode_front(s.drop_last());
        assert(s.drop_first().drop_last() =~= s.drop_last().drop_first());
        assert(s.drop_first().last() == s.last());
        assert(utf16_encode(s) =~= utf16_units(s[0]) + utf16_encode(s.drop_first()));
    }
}

/// No unit of the encoding of a string without NUL is NUL.
pub(crate) proof fn lemma_encode_nonzero(s: Seq<char>)
    requires
        forall|k: int| 0 <= k < s.len() ==> #[trigger] s[k] != '\0',
    ensures
        forall|k: int| 0 <= k < utf16_encode(s).len() ==> #[trigger] utf16_encode(s)[k] != 0,
    decreases s.len(),
{
    if s.len() > 0 {
        lemma_encode_nonzero(s.drop_last());
        lemma_units_nonzero(s.last());
        let a = utf16_encode(s.drop_last());
        let b = utf16_units(s.last());
        assert(utf16_encode(s) == a + b);
        assert forall|k: int| 0 <= k < utf16_encode(s).len() implies #[trigger] utf16_encode(s)[k] != 0 by {
            if k < a.len() {
                assert(utf16_encode(s)[k] == a[k]);
            } else {
                assert(utf16_encode(s)[k] == b[k - a.len()]);
            }
        }
    }
}

/// Decoding the units of one character, then anything, gives the character
/// back first.
proof fn lemma_decode_units(c: char, rest: Seq<u16>)
    ensures
        utf16_decode_lossy(utf16_units(c) + rest) == seq![c] + utf16_decode_lossy(rest),
{
    broadcast use vstd::utf8::char_is_scalar, vstd::utf8::char_u32_cast;
    let u = c as u32;
    let us = utf16_units(c) + rest;
    assert(vstd::utf8::is_scalar(u));
    if u < 0x10000 {
        assert(us[0] == u as u16);
        assert(us.drop_first() =~= rest);
        assert(((u as u16) as u32) == u);
        assert((u as char) == c);
    } else {
        let v = u - 0x10000;
        let hi = (0xD800 + v / 0x400) as u16;
        let lo = (0xDC00 + v % 0x400) as u16;
        assert(us[0] == hi);
        assert(us[1] == lo);
        assert(0xD800 <= hi <= 0xDBFF);
        assert(0xDC00 <= lo <= 0xDFFF);
        assert(us.subrange(2, us.len() as int) =~= rest);
        assert(0x10000 + (hi - 0xD800) * 0x400 + (lo - 0xDC00) == u);
        assert((u as char) == c);
    }
}

/// Decoding the UTF-16 encoding of a string gives the string back.
pub proof fn lemma_utf16_round_trip(s: Seq<char>)
    ensures
        utf16_decode_lossy(utf16_encode(s)) == s,
    decreases s.len(),
{
    if s.len() == 0 {
        assert(utf16_encode(s) =~= Seq::<u16>::empty());
        assert(utf16_decode_lossy(utf16_encode(s)) =~= s);
    } else {
        lemma_encode_front(s);
        lemma_decode_units(s[0], utf16_encode(s.drop_first()));
        lemma_utf16_round_trip(s.drop_first());
        assert(seq![s[0]] + s.drop_first() =~= s);
    }
}

/// Win32 drive kind classification for scan targets.
#[derive(Debug, Clone, Copy, PartialEq, Eq)]
pub enum DriveKind {
    Unknown,
    NoRootDir,
    Removable,
    Fixed,
    Remote,
    CdRom,
    RamDisk,
    Other(u32),
}

/// The drive kind that a raw `GetDriveTypeW` value denotes.
pub open spec fn drive_kind_of(raw: u32) -> DriveKind {
    if raw == DRIVE_UNKNOWN {
        DriveKind::Unknown
    } else if raw == DRIVE_NO_ROOT_DIR {
        DriveKind::NoRootDir
    } else if raw == DRIVE_REMOVABLE {
        DriveKind::Removable
    } else if raw == DRIVE_FIXED {
        DriveKind::Fixed
    } else if raw == DRIVE_REMOTE {
        DriveKind::Remote
    } else if raw == DRIVE_CDROM {
        DriveKind::CdRom
    } else if raw == DRIVE_RAMDISK {
        DriveKind::RamDisk
    } else {
        DriveKind::Other(raw)
    }
}

/// Only fixed and removable local drives may be scanned.
pub open spec fn drive_kind_supported(k: DriveKind) -> bool {
    k is Fixed || k is Removable
}

impl DriveKind {
    /// Classifies a raw Win32 drive type constant returned by `GetDriveTypeW`.
    pub fn from_raw(raw: u32) -> (r: Self)
        ensures
            r == drive_kind_of(raw),
    {
        if raw == DRIVE_UNKNOWN {
            DriveKind::Unknown
        } else if raw == DRIVE_NO_ROOT_DIR {
            DriveKind::NoRootDir
        } else if raw == DRIVE_REMOVABLE {
            DriveKind::Removable
        } else if raw == DRIVE_FIXED {
            DriveKind::Fixed
        } else if raw == DRIVE_REMOTE {
            DriveKind::Remote
        } else if raw == DRIVE_CDROM {
            DriveKind::CdRom
        } else if raw == DRIVE_RAMDISK {
            DriveKind::RamDisk
        } else {
            DriveKind::Other(raw)
        }
    }

    /// Whether this drive type is supported for local scans (fixed or removable only).
    pub fn is_supported(&self) -> (r: bool)
        ensures
            r == drive_kind_supported(*self),
    {
        match self {
            DriveKind::Fixed | DriveKind::Removable => true,
            _ => false,
        }
    }

    /// The Win32 constant name of this drive kind.
    pub fn as_str(&self) -> (r: &'static str)
        ensures
            r@ == drive_kind_name(*self),
    {
        match self {
            DriveKind::Unknown => "DRIVE_UNKNOWN",
            DriveKind::NoRootDir => "DRIVE_NO_ROOT_DIR",
            DriveKind::Removable => "DRIVE_REMOVABLE",
            DriveKind::Fixed => "DRIVE_FIXED",
            DriveKind::Remote => "DRIVE_REMOTE",
            DriveKind::CdRom => "DRIVE_CDROM",
            DriveKind::RamDisk => "DRIVE_RAMDISK",
            DriveKind::Other(_) => "DRIVE_OTHER",
        }
    }
}

/// The display name of each drive kind.
pub open spec fn drive_kind_name(k: DriveKind) -> Seq<char> {
    match k {
        DriveKind::Unknown => "DRIVE_UNKNOWN"@,
        DriveKind::NoRootDir => "DRIVE_NO_ROOT_DIR"@,
        DriveKind::Removable => "DRIVE_REMOVABLE"@,
        DriveKind::Fixed => "DRIVE_FIXED"@,
        DriveKind::Remote => "DRIVE_REMOTE"@,
        DriveKind::CdRom => "DRIVE_CDROM"@,
        DriveKind::RamDisk => "DRIVE_RAMDISK"@,
        DriveKind::Other(_) => "DRIVE_OTHER"@,
    }
}

/// Filesystem kind classification for scan targets.
#[derive(Debug, Clone, PartialEq, Eq)]
pub enum FileSystemKind {
    Ntfs,
    ReFs,
    Fat32,
    ExFat,
    Unsupported(String),
}

/// Logical content of a filesystem kind.
pub enum FileSystemKindView {
    Ntfs,
    ReFs,
    Fat32,
    ExFat,
    Unsupported(Seq<char>),
}

impl View for FileSystemKind {
    type V = FileSystemKindView;

    open spec fn view(&self) -> FileSystemKindView {
        match self {
            FileSystemKind::Ntfs => FileSystemKindView::Ntfs,
            FileSystemKind::ReFs => FileSystemKindView::ReFs,
            FileSystemKind::Fat32 => FileSystemKindView::Fat32,
            FileSystemKind::ExFat => FileSystemKindView::ExFat,
            FileSystemKind::Unsupported(s) => FileSystemKindView::Unsupported(s@),
        }
    }
}

/// The classification of a filesystem name: trimmed, then matched
/// case-insensitively (ASCII) against NTFS, ReFS, FAT32 and exFAT.
pub open spec fn filesystem_kind_of(name: Seq<char>) -> FileSystemKindView {
    let t = trim_seq(name);
    if eq_ignore_ascii_case_seq(t, "NTFS"@) {
        FileSystemKindView::Ntfs
    } else if eq_ignore_ascii_case_seq(t, "ReFS"@) {
        FileSystemKindView::ReFs
    } else if eq_ignore_ascii_case_seq(t, "FAT32"@) {
        FileSystemKindView::Fat32
    } else if eq_ignore_ascii_case_seq(t, "exFAT"@) {
        FileSystemKindView::ExFat
    } else {
        FileSystemKindView::Unsupported(t)
    }
}

/// The canonical display name of each filesystem kind.
pub open spec fn filesystem_kind_name(k: FileSystemKindView) -> Seq<char> {
    match k {
        FileSystemKindView::Ntfs => "NTFS"@,
        FileSystemKindView::ReFs => "ReFS"@,
        FileSystemKindView::Fat32 => "FAT32"@,
        FileSystemKindView::ExFat => "exFAT"@,
        FileSystemKindView::Unsupported(s) => s,
    }
}

impl FileSystemKind {
    /// Parses and classifies a filesystem name string (trimmed, ASCII case-insensitive).
    pub fn parse(name: &str) -> (r: Self)
        ensures
            r@ == filesystem_kind_of(name@),
    {
        let raw = chars_of(name);
        let t = trim_chars(raw.as_slice());
        let ntfs = chars_of("NTFS");
        let refs = chars_of("ReFS");
        let fat32 = chars_of("FAT32");
        let exfat = chars_of("exFAT");
        if chars_eq_ignore_ascii_case(t.as_slice(), ntfs.as_slice()) {
            FileSystemKind::Ntfs
        } else if chars_eq_ignore_ascii_case(t.as_slice(), refs.as_slice()) {
            FileSystemKind::ReFs
        } else if chars_eq_ignore_ascii_case(t.as_slice(), fat32.as_slice()) {
            FileSystemKind::Fat32
        } else if chars_eq_ignore_ascii_case(t.as_slice(), exfat.as_slice()) {
            FileSystemKind::ExFat
        } else {
            FileSystemKind::Unsupported(string_from_chars(t.as_slice()))
        }
    }

    /// Whether this filesystem is supported for local scans.
    pub fn is_supported(&self) -> (r: bool)
        ensures
            r == !(self@ is Unsupported),
    {
        match self {
            FileSystemKind::Unsupported(_) => false,
            _ => true,
        }
    }

    /// The canonical name of a supported filesystem, or the name as observed.
    pub fn as_str(&self) -> (r: &str)
        ensures
            r@ == filesystem_kind_name(self@),
    {
        match self {
            FileSystemKind::Ntfs => "NTFS",
            FileSystemKind::ReFs => "ReFS",
            FileSystemKind::Fat32 => "FAT32",
            FileSystemKind::ExFat => "exFAT",
            FileSystemKind::Unsupported(s) => s.as_str(),
        }
    }
}

/// A path separator for lexical path checks.
pub open spec fn is_sep(c: char) -> bool {
    c == '\\' || c == '/'
}

/// ASCII letter test.
pub open spec fn is_ascii_letter(c: char) -> bool {
    ('a' <= c && c <= 'z') || ('A' <= c && c <= 'Z')
}

/// Lexical UNC/network classification of an already trimmed path.
pub open spec fn lexical_unc_trimmed(s: Seq<char>) -> bool {
    if s.len() == 0 {
        false
    } else if s.len() >= 8 && ({
        let first_two = (is_sep(s[0]) && is_sep(s[1])) || (s[0] == '\\' && s[1] == '?' && s[2]
            == '?');
        (first_two && (s[2] == '?' || s[2] == '.') && is_sep(s[3])) || (s[0] == '\\' && s[1]
            == '?' && s[2] == '?' && s[3] == '\\' && s[4] == '\\')
    }) && eq_ignore_ascii_case_seq(s.subrange(4, 7), "UNC"@) && is_sep(s[7]) {
        true
    } else if s.len() >= 2 && is_sep(s[0]) && is_sep(s[1]) {
        if s.len() >= 4 && (s[2] == '?' || s[2] == '.') && is_sep(s[3]) {
            !(s.len() >= 6 && is_ascii_letter(s[4]) && s[5] == ':')
        } else {
            true
        }
    } else {
        false
    }
}

/// Lexical UNC/network classification of a raw path string.
pub open spec fn lexical_unc(raw: Seq<char>) -> bool {
    lexical_unc_trimmed(trim_seq(raw))
}

fn is_sep_char(c: char) -> (r: bool)
    ensures
        r == is_sep(c),
{
    c == '\\' || c == '/'
}

/// Lexical classification on trimmed characters.
fn lexical_unc_chars(s: &[char]) -> (r: bool)
    ensures
        r == lexical_unc_trimmed(s@),
{
    let n: usize = s.len();
    if n == 0 {
        return false;
    }
    if n >= 8 {
        let first_two: bool = (is_sep_char(s[0]) && is_sep_char(s[1])) || (s[0] == '\\' && s[1]
            == '?' && s[2] == '?');
        let prefixed: bool = (first_two && (s[2] == '?' || s[2] == '.') && is_sep_char(s[3])) || (
        s[0] == '\\' && s[1] == '?' && s[2] == '?' && s[3] == '\\' && s[4] == '\\');
        if prefixed {
            let unc: Vec<char> = vec!['U', 'N', 'C'];
            let part: Vec<char> = vec![s[4], s[5], s[6]];
            proof {
                assert(part@ =~= s@.subrange(4, 7));
                assert(unc@ =~= "UNC"@) by {
                    reveal_strlit("UNC");
                }
            }
            if chars_eq_ignore_ascii_case(part.as_slice(), unc.as_slice()) && is_sep_char(s[7]) {
                return true;
            }
        }
    }
    if n >= 2 && is_sep_char(s[0]) && is_sep_char(s[1]) {
        if n >= 4 && (s[2] == '?' || s[2] == '.') && is_sep_char(s[3]) {
            if n >= 6 {
                let letter: bool = ('a' <= s[4] && s[4] <= 'z') || ('A' <= s[4] && s[4] <= 'Z');
                if letter && s[5] == ':' {
                    return false;
                }
            }
            return true;
        }
        return true;
    }
    false
}

/// Lexically determines whether a path string represents a UNC or network
/// path, without any filesystem or network access.
pub fn is_lexical_unc(raw: &str) -> (r: bool)
    ensures
        r == lexical_unc(raw@),
{
    let chars = chars_of(raw);
    let trimmed = trim_chars(chars.as_slice());
    lexical_unc_chars(trimmed.as_slice())
}


/// Why a scan target is refused.
#[derive(Debug, Clone, PartialEq, Eq)]
pub enum TargetValidationError {
    /// The target path is empty or whitespace only.
    EmptyPath,
    /// The target path is a UNC or network path.
    UncPathNotSupported { path: String },
    /// The target directory does not exist.
    NotFound { path: String },
    /// The target path exists but is not a directory.
    NotADirectory { path: String },
    /// The target path could not be canonicalized.
    CanonicalizationFailed { path: String, reason: String },
    /// The volume root of the target could not be resolved.
    VolumeResolutionFailed { path: String, win32_code: u32 },
    /// The target's drive type is not supported.
    UnsupportedDriveType { path: String, volume_root: String, drive_kind: DriveKind },
    /// The target volume's information could not be queried.
    VolumeInformationFailed { path: String, volume_root: String, win32_code: u32 },
    /// The target volume's filesystem is not supported.
    UnsupportedFileSystem { path: String, volume_root: String, filesystem_name: String },
}

/// A scan target that passed every check.
#[derive(Debug, Clone, PartialEq, Eq)]
pub struct ValidatedScanTarget {
    /// The path as the caller gave it.
    pub display_path: String,
    /// The canonicalized path.
    pub canonical_path: String,
    /// The canonical path in extended-length form (`\\?\` prefix).
    pub extended_path: String,
    /// The root of the target's volume.
    pub volume_root: String,
    pub drive_kind: DriveKind,
    pub filesystem_kind: FileSystemKind,
    /// The filesystem name as the volume reports it.
    pub filesystem_name: String,
    /// The volume serial number, when known.
    pub volume_serial_number: Option<u32>,
}

/// The lexical checks on the target text, before any filesystem access:
/// not empty once trimmed, and not a UNC or network path.
pub fn check_target_text(display_path: &str) -> (r: Result<(), TargetValidationError>)
    ensures
        trim_seq(display_path@).len() == 0 ==> r == Err::<(), TargetValidationError>(TargetValidationError::EmptyPath),
        trim_seq(display_path@).len() > 0 && lexical_unc(display_path@) ==> (r matches Err(
            TargetValidationError::UncPathNotSupported { path },
        ) && path@ == display_path@),
        trim_seq(display_path@).len() > 0 && !lexical_unc(display_path@) ==> r is Ok,
{
    let chars = chars_of(display_path);
    let trimmed = trim_chars(chars.as_slice());
    if trimmed.len() == 0 {
        return Err(TargetValidationError::EmptyPath);
    }
    if lexical_unc_chars(trimmed.as_slice()) {
        return Err(TargetValidationError::UncPathNotSupported { path: display_path.to_owned() });
    }
    Ok(())
}

/// A path already in an extended or device form.
pub open spec fn has_extended_prefix(s: Seq<char>) -> bool {
    s.len() >= 4 && s[0] == '\\' && s[1] == '\\' && (s[2] == '?' || s[2] == '.') && s[3] == '\\'
}

/// The extended-length form of a canonical path.
pub open spec fn extended_path_of(canonical: Seq<char>) -> Seq<char> {
    if has_extended_prefix(canonical) {
        canonical
    } else {
        seq!['\\', '\\', '?', '\\'] + canonical
    }
}

/// The checks on the canonicalized target: it must not have turned into a
/// UNC path (a network share behind a local name). On success, the
/// extended-length form of the canonical path.
pub fn check_canonical_target(display_path: &str, canonical: &str) -> (r: Result<
    String,
    TargetValidationError,
>)
    ensures
        lexical_unc(canonical@) ==> (r matches Err(TargetValidationError::UncPathNotSupported { path })
            && path@ == display_path@),
        !lexical_unc(canonical@) ==> (r matches Ok(ext) && ext@ == extended_path_of(canonical@)),
{
    if is_lexical_unc(canonical) {
        return Err(TargetValidationError::UncPathNotSupported { path: display_path.to_owned() });
    }
    let cs = chars_of(canonical);
    let prefixed: bool = cs.len() >= 4 && cs[0] == '\\' && cs[1] == '\\' && (cs[2] == '?' || cs[2]
        == '.') && cs[3] == '\\';
    if prefixed {
        return Ok(canonical.to_owned());
    }
    let mut out: Vec<char> = Vec::new();
    out.push('\\');
    out.push('\\');
    out.push('?');
    out.push('\\');
    crate::text::append_chars(&mut out, canonical);
    proof {
        assert(out@ =~= seq!['\\', '\\', '?', '\\'] + canonical@);
    }
    Ok(string_from_chars(out.as_slice()))
}

/// The drive check: only fixed and removable drives are scanned.
pub fn check_drive(display_path: &str, volume_root: &str, raw_drive_type: u32) -> (r: Result<
    DriveKind,
    TargetValidationError,
>)
    ensures
        drive_kind_supported(drive_kind_of(raw_drive_type)) ==> r == Ok::<DriveKind, TargetValidationError>(drive_kind_of(raw_drive_type)),
        !drive_kind_supported(drive_kind_of(raw_drive_type)) ==> (r matches Err(
            TargetValidationError::UnsupportedDriveType { path, volume_root: root, drive_kind },
        ) && path@ == display_path@ && root@ == volume_root@ && drive_kind == drive_kind_of(raw_drive_type)),
{
    let kind = DriveKind::from_raw(raw_drive_type);
    if !kind.is_supported() {
        return Err(
            TargetValidationError::UnsupportedDriveType {
                path: display_path.to_owned(),
                volume_root: volume_root.to_owned(),
                drive_kind: kind,
            },
        );
    }
    Ok(kind)
}

/// The filesystem check: only NTFS, ReFS, FAT32 and exFAT volumes are scanned.
pub fn check_filesystem(display_path: &str, volume_root: &str, filesystem_name: &str) -> (r: Result<
    FileSystemKind,
    TargetValidationError,
>)
    ensures
        !(filesystem_kind_of(filesystem_name@) is Unsupported) ==> (r matches Ok(k) && k@ == filesystem_kind_of(filesystem_name@)),
        filesystem_kind_of(filesystem_name@) is Unsupported ==> (r matches Err(
            TargetValidationError::UnsupportedFileSystem { path, volume_root: root, filesystem_name: name },
        ) && path@ == display_path@ && root@ == volume_root@ && name@ == filesystem_name@),
{
    let kind = FileSystemKind::parse(filesystem_name);
    if !kind.is_supported() {
        return Err(
            TargetValidationError::UnsupportedFileSystem {
                path: display_path.to_owned(),
                volume_root: volume_root.to_owned(),
                filesystem_name: filesystem_name.to_owned(),
            },
        );
    }
    Ok(kind)
}


/// The text checks pass: not empty once trimmed, not a UNC path.
pub open spec fn text_passes(d: Seq<char>) -> bool {
    trim_seq(d).len() > 0 && !lexical_unc(d)
}

/// Decides a scan target from what was learnt about it, in the order the
/// queries are made (each is only made, and only read, once the earlier
/// ones passed): the text checks, that the path exists and is a directory,
/// its canonical form (or why it could not be resolved) and that this is
/// not a UNC path, its volume root (or the Win32 error), the volume's
/// drive type, and the volume's filesystem name and serial number (or the
/// Win32 error). On success, every field of the validated target.
pub fn validate_scan_target_facts(
    display_path: &str,
    exists: bool,
    is_dir: bool,
    canonical: Result<String, String>,
    volume_root: Result<String, u32>,
    raw_drive_type: u32,
    volume_info: Result<(String, u32), u32>,
) -> (r: Result<ValidatedScanTarget, TargetValidationError>)
    ensures
        trim_seq(display_path@).len() == 0 ==> r == Err::<ValidatedScanTarget, TargetValidationError>(
            TargetValidationError::EmptyPath,
        ),
        trim_seq(display_path@).len() > 0 && lexical_unc(display_path@) ==> (r matches Err(
            TargetValidationError::UncPathNotSupported { path },
        ) && path@ == display_path@),
        text_passes(display_path@) && !exists ==> (r matches Err(
            TargetValidationError::NotFound { path },
        ) && path@ == display_path@),
        text_passes(display_path@) && exists && !is_dir ==> (r matches Err(
            TargetValidationError::NotADirectory { path },
        ) && path@ == display_path@),
        text_passes(display_path@) && exists && is_dir && canonical is Err ==> (r matches Err(
            TargetValidationError::CanonicalizationFailed { path, reason },
        ) && path@ == display_path@ && reason@ == canonical->Err_0@),
        text_passes(display_path@) && exists && is_dir && canonical is Ok && lexical_unc(
            canonical->Ok_0@,
        ) ==> (r matches Err(TargetValidationError::UncPathNotSupported { path }) && path@
            == display_path@),
        text_passes(display_path@) && exists && is_dir && canonical is Ok && !lexical_unc(
            canonical->Ok_0@,
        ) ==> match volume_root {
            Err(code) => r matches Err(TargetValidationError::VolumeResolutionFailed { path, win32_code })
                && path@ == display_path@ && win32_code == code,
            Ok(root) => if !drive_kind_supported(drive_kind_of(raw_drive_type)) {
                r matches Err(
                    TargetValidationError::UnsupportedDriveType { path, volume_root: vr, drive_kind },
                ) && path@ == display_path@ && vr@ == root@ && drive_kind == drive_kind_of(
                    raw_drive_type,
                )
            } else {
                match volume_info {
                    Err(code) => r matches Err(
                        TargetValidationError::VolumeInformationFailed { path, volume_root: vr, win32_code },
                    ) && path@ == display_path@ && vr@ == root@ && win32_code == code,
                    Ok((name, serial)) => if filesystem_kind_of(name@) is Unsupported {
                        r matches Err(
                            TargetValidationError::UnsupportedFileSystem {
                                path,
                                volume_root: vr,
                                filesystem_name,
                            },
                        ) && path@ == display_path@ && vr@ == root@ && filesystem_name@ == name@
                    } else {
                        r matches Ok(v) && v.display_path@ == display_path@ && v.canonical_path@
                            == canonical->Ok_0@ && v.extended_path@ == extended_path_of(
                            canonical->Ok_0@,
                        ) && v.volume_root@ == root@ && v.drive_kind == drive_kind_of(
                            raw_drive_type,
                        ) && v.filesystem_kind@ == filesystem_kind_of(name@)
                            && v.filesystem_name@ == name@ && v.volume_serial_number == Some(
                            serial,
                        )
                    },
                }
            },
        },
{
    check_target_text(display_path)?;
    if !exists {
        return Err(TargetValidationError::NotFound { path: display_path.to_owned() });
    }
    if !is_dir {
        return Err(TargetValidationError::NotADirectory { path: display_path.to_owned() });
    }
    let canonical_path = match canonical {
        Ok(c) => c,
        Err(reason) => {
            return Err(
                TargetValidationError::CanonicalizationFailed { path: display_path.to_owned(), reason },
            );
        },
    };
    let extended_path = check_canonical_target(display_path, canonical_path.as_str())?;
    let root = match volume_root {
        Ok(v) => v,
        Err(code) => {
            return Err(
                TargetValidationError::VolumeResolutionFailed {
                    path: display_path.to_owned(),
                    win32_code: code,
                },
            );
        },
    };
    let drive_kind = check_drive(display_path, root.as_str(), raw_drive_type)?;
    let (filesystem_name, serial) = match volume_info {
        Ok(info) => info,
        Err(code) => {
            return Err(
                TargetValidationError::VolumeInformationFailed {
                    path: display_path.to_owned(),
                    volume_root: root,
                    win32_code: code,
                },
            );
        },
    };
    let filesystem_kind = check_filesystem(display_path, root.as_str(), filesystem_name.as_str())?;
    Ok(
        ValidatedScanTarget {
            display_path: display_path.to_owned(),
            canonical_path,
            extended_path,
            volume_root: root,
            drive_kind,
            filesystem_kind,
            filesystem_name,
            volume_serial_number: Some(serial),
        },
    )
}

} // verus!
