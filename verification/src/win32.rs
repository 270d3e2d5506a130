//! Win32 constants and plain records whose meaning the library relies on.

use vstd::prelude::*;

verus! {

pub const DRIVE_UNKNOWN: u32 = 0;
pub const DRIVE_NO_ROOT_DIR: u32 = 1;
pub const DRIVE_REMOVABLE: u32 = 2;
pub const DRIVE_FIXED: u32 = 3;
pub const DRIVE_REMOTE: u32 = 4;
pub const DRIVE_CDROM: u32 = 5;
pub const DRIVE_RAMDISK: u32 = 6;

pub const WAIT_OBJECT_0: u32 = 0;
pub const WAIT_TIMEOUT: u32 = 258;
pub const INFINITE: u32 = 0xFFFF_FFFF;

pub const ERROR_BROKEN_PIPE: u32 = 109;
pub const ERROR_IO_PENDING: u32 = 997;

/// A 64-bit timestamp split into two 32-bit halves (100 ns ticks since 1601).
#[allow(non_camel_case_types, non_snake_case)]
#[derive(Debug, Clone, Copy, PartialEq, Eq)]
pub struct FILETIME {
    pub dwLowDateTime: u32,
    pub dwHighDateTime: u32,
}

impl FILETIME {
    /// The 64-bit value `high * 2^32 + low`.
    pub open spec fn spec_value(&self) -> nat {
        (self.dwHighDateTime as nat) * 0x1_0000_0000 + (self.dwLowDateTime as nat)
    }

    /// Joins the two halves into one 64-bit tick count.
    pub fn to_u64(&self) -> (r: u64)
        ensures
            r as nat == self.spec_value(),
    {
        let hi: u64 = self.dwHighDateTime as u64;
        let lo: u64 = self.dwLowDateTime as u64;
        let r: u64 = (hi << 32u64) | lo;
        proof {
            assert((hi << 32u64) | lo == hi * 0x1_0000_0000 + lo) by (bit_vector)
                requires
                    hi < 0x1_0000_0000,
                    lo < 0x1_0000_0000,
            ;
        }
        r
    }
}

/// Cumulative I/O counters of a job object.
#[allow(non_camel_case_types, non_snake_case)]
#[derive(Debug, Clone, Copy, PartialEq, Eq, Default)]
pub struct IO_COUNTERS {
    pub ReadOperationCount: u64,
    pub WriteOperationCount: u64,
    pub OtherOperationCount: u64,
    pub ReadTransferCount: u64,
    pub WriteTransferCount: u64,
    pub OtherTransferCount: u64,
}

/// Basic limits of a job object.
#[allow(non_camel_case_types, non_snake_case)]
#[derive(Debug, Clone, Copy, PartialEq, Eq, Default)]
pub struct JOBOBJECT_BASIC_LIMIT_INFORMATION {
    pub PerProcessUserTimeLimit: i64,
    pub PerJobUserTimeLimit: i64,
    pub LimitFlags: u32,
    pub MinimumWorkingSetSize: usize,
    pub MaximumWorkingSetSize: usize,
    pub ActiveProcessLimit: u32,
    pub Affinity: usize,
    pub PriorityClass: u32,
    pub SchedulingClass: u32,
}

/// Extended limits of a job object.
#[allow(non_camel_case_types, non_snake_case)]
#[derive(Debug, Clone, Copy, PartialEq, Eq, Default)]
pub struct JOBOBJECT_EXTENDED_LIMIT_INFORMATION {
    pub BasicLimitInformation: JOBOBJECT_BASIC_LIMIT_INFORMATION,
    pub IoInfo: IO_COUNTERS,
    pub ProcessMemoryLimit: usize,
    pub JobMemoryLimit: usize,
    pub PeakProcessMemoryLimit: usize,
    pub PeakJobMemoryLimit: usize,
}

/// Memory usage counters of a process.
#[allow(non_camel_case_types, non_snake_case)]
#[derive(Debug, Clone, Copy, PartialEq, Eq, Default)]
pub struct PROCESS_MEMORY_COUNTERS {
    pub cb: u32,
    pub PageFaultCount: u32,
    pub PeakWorkingSetSize: usize,
    pub WorkingSetSize: usize,
    pub QuotaPeakPagedPoolUsage: usize,
    pub QuotaPagedPoolUsage: usize,
    pub QuotaPeakNonPagedPoolUsage: usize,
    pub QuotaNonPagedPoolUsage: usize,
    pub PagefileUsage: usize,
    pub PeakPagefileUsage: usize,
}

} // verus!
