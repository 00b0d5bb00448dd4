//! Errors that a request ends in.
use vstd::prelude::*;

verus! {

/// Why a request failed.
#[derive(Clone, Copy, PartialEq, Eq, Structural, Debug)]
pub enum MonitorErrorType {
    Unsupported,
    Unknown,
    InvalidParameters,
    PvalidateFailed,
    ReportFailed,
    ReportInvalid,
    ReportFormatInvalid,
}

/// The error of a request.
#[derive(Clone, Copy, PartialEq, Eq, Structural, Debug)]
pub struct MonitorError(pub MonitorErrorType);

impl MonitorError {
    pub fn unsupported() -> (r: Self)
        ensures
            r == MonitorError(MonitorErrorType::Unsupported),
    {
        MonitorError(MonitorErrorType::Unsupported)
    }

    pub fn unknown() -> (r: Self)
        ensures
            r == MonitorError(MonitorErrorType::Unknown),
    {
        MonitorError(MonitorErrorType::Unknown)
    }

    pub fn invalid_params() -> (r: Self)
        ensures
            r == MonitorError(MonitorErrorType::InvalidParameters),
    {
        MonitorError(MonitorErrorType::InvalidParameters)
    }

    pub fn validate_failed() -> (r: Self)
        ensures
            r == MonitorError(MonitorErrorType::PvalidateFailed),
    {
        MonitorError(MonitorErrorType::PvalidateFailed)
    }

    pub fn report_failed() -> (r: Self)
        ensures
            r == MonitorError(MonitorErrorType::ReportFailed),
    {
        MonitorError(MonitorErrorType::ReportFailed)
    }

    pub fn report_invalid() -> (r: Self)
        ensures
            r == MonitorError(MonitorErrorType::ReportInvalid),
    {
        MonitorError(MonitorErrorType::ReportInvalid)
    }

    pub fn report_format_invalid() -> (r: Self)
        ensures
            r == MonitorError(MonitorErrorType::ReportFormatInvalid),
    {
        MonitorError(MonitorErrorType::ReportFormatInvalid)
    }

    /// The error in words.
    pub fn message(&self) -> (r: &'static str)
        ensures
            r@ == (match self.0 {
                MonitorErrorType::Unsupported => "Monitor error encounterd: Unsupported"@,
                MonitorErrorType::Unknown => "Monitor error encounterd: Unknown"@,
                MonitorErrorType::InvalidParameters => "Monitor error encounterd: InvalidParameters"@,
                MonitorErrorType::PvalidateFailed => "Monitor error encounterd: PvalidateFailed"@,
                MonitorErrorType::ReportFailed => "Monitor error encounterd: ReportFailed"@,
                MonitorErrorType::ReportInvalid => "Monitor error encounterd: ReportInvalid"@,
                MonitorErrorType::ReportFormatInvalid => "Monitor error encounterd: ReportFormatInvalid"@,
            }),
    {
        match self.0 {
            MonitorErrorType::Unsupported => "Monitor error encounterd: Unsupported",
            MonitorErrorType::Unknown => "Monitor error encounterd: Unknown",
            MonitorErrorType::InvalidParameters => "Monitor error encounterd: InvalidParameters",
            MonitorErrorType::PvalidateFailed => "Monitor error encounterd: PvalidateFailed",
            MonitorErrorType::ReportFailed => "Monitor error encounterd: ReportFailed",
            MonitorErrorType::ReportInvalid => "Monitor error encounterd: ReportInvalid",
            MonitorErrorType::ReportFormatInvalid => "Monitor error encounterd: ReportFormatInvalid",
        }
    }
}

} // verus!
