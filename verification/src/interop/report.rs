//! Attestation reports.
use vstd::prelude::*;
use crate::error::{MonitorError, MonitorErrorType};

verus! {

/// Bytes of a report.
pub const REPORT_SIZE: u32 = 1184;

/// Judges how many bytes of a report were written: none is a failure.
pub fn get_regular_report(size: usize) -> (r: Result<usize, MonitorError>)
    ensures
        r == (if size == 0 {
            Err(MonitorError(MonitorErrorType::ReportFailed))
        } else {
            Ok(size)
        }),
{
    if size == 0 {
        Err(MonitorError::report_failed())
    } else {
        Ok(size)
    }
}

/// A version of the trusted computing base.
#[derive(Clone, Copy, Debug)]
pub struct TcbVersion {
    pub raw: u64,
}

/// The signature of a report.
#[derive(Clone, Copy, Debug)]
pub struct Signature {
    pub r: [u8; 72],
    pub s: [u8; 72],
    pub reserved: [u8; 368],
}

/// A report.
#[derive(Clone, Copy, Debug)]
pub struct AttestationReport {
    pub version: u32,
    pub guest_svn: u32,
    pub policy: u64,
    pub family_id: [u8; 16],
    pub image_id: [u8; 16],
    pub vmpl: u32,
    pub signature_algo: u32,
    pub platform_version: TcbVersion,
    pub platform_info: u64,
    pub flags: u32,
    pub reserved0: u32,
    pub report_data: [u8; 64],
    pub measurement: [u8; 48],
    pub host_data: [u8; 32],
    pub id_key_digest: [u8; 48],
    pub author_key_digest: [u8; 48],
    pub report_id: [u8; 32],
    pub report_id_ma: [u8; 32],
    pub reported_tcb: TcbVersion,
    pub reserved1: [u8; 24],
    pub chip_id: [u8; 64],
    pub reserved2: [u8; 192],
    pub signature: Signature,
}

/// The status of an answer.
#[derive(Clone, Copy, PartialEq, Eq, Structural, Debug)]
pub enum SnpReportResponseStatus {
    Success,
    InvalidParameters,
    InvalidKeySelection,
}

impl SnpReportResponseStatus {
    /// The number of a status.
    pub fn code(&self) -> (r: u32)
        ensures
            r == (match *self {
                SnpReportResponseStatus::Success => 0u32,
                SnpReportResponseStatus::InvalidParameters => 0x16u32,
                SnpReportResponseStatus::InvalidKeySelection => 0x27u32,
            }),
    {
        match self {
            SnpReportResponseStatus::Success => 0,
            SnpReportResponseStatus::InvalidParameters => 0x16,
            SnpReportResponseStatus::InvalidKeySelection => 0x27,
        }
    }
}

/// The answer to a request for a report.
#[derive(Clone, Copy, Debug)]
pub struct SnpReportResponse {
    pub status: u32,
    pub report_size: u32,
    pub report: AttestationReport,
}

impl SnpReportResponse {
    /// Whether the answer holds a report.
    pub fn validate(&self) -> (r: Result<(), MonitorError>)
        ensures
            r == (if self.status != 0 {
                Err(MonitorError(MonitorErrorType::ReportInvalid))
            } else if self.report_size != REPORT_SIZE {
                Err(MonitorError(MonitorErrorType::ReportFormatInvalid))
            } else {
                Ok(())
            }),
    {
        if self.status != SnpReportResponseStatus::Success.code() {
            return Err(MonitorError::report_invalid());
        }
        if self.report_size != REPORT_SIZE {
            return Err(MonitorError::report_format_invalid());
        }
        Ok(())
    }

    pub fn get_report(&self) -> (r: &AttestationReport)
        ensures
            *r == self.report,
    {
        &self.report
    }

    pub fn get_report_size(&self) -> (r: u32)
        ensures
            r == self.report_size,
    {
        self.report_size
    }
}

} // verus!
