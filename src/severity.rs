use vstd::prelude::*;

verus! {

/// Bits of a validation message's severity mask.
pub const SEVERITY_VERBOSE: u32 = 0x1;
pub const SEVERITY_INFO: u32 = 0x10;
pub const SEVERITY_WARNING: u32 = 0x100;
pub const SEVERITY_ERROR: u32 = 0x1000;

/// The log level that a validation message is reported at.
#[derive(Clone, Copy, Debug, PartialEq, Eq, Structural)]
pub enum LogLevel {
    Error,
    Warn,
    Info,
    Debug,
    /// No known severity bit is set; reported at info level and marked as such.
    Unknown,
}

pub open spec fn level_spec(severity: u32) -> LogLevel {
    if severity & SEVERITY_ERROR != 0 {
        LogLevel::Error
    } else if severity & SEVERITY_WARNING != 0 {
        LogLevel::Warn
    } else if severity & SEVERITY_INFO != 0 {
        LogLevel::Info
    } else if severity & SEVERITY_VERBOSE != 0 {
        LogLevel::Debug
    } else {
        LogLevel::Unknown
    }
}

/// The level of a validation message: its most severe bit decides.
pub fn log_level_of(severity: u32) -> (r: LogLevel)
    ensures
        r == level_spec(severity),
{
    if severity & SEVERITY_ERROR != 0 {
        LogLevel::Error
    } else if severity & SEVERITY_WARNING != 0 {
        LogLevel::Warn
    } else if severity & SEVERITY_INFO != 0 {
        LogLevel::Info
    } else if severity & SEVERITY_VERBOSE != 0 {
        LogLevel::Debug
    } else {
        LogLevel::Unknown
    }
}

} // verus!
