//! Addresses, errors, time, registers and answers.
use wallet::address::{pages_above, status_to_word, PAGE_SIZE};
use wallet::attestation::process::attest_process;
use wallet::cpu::gdt::{GDTEntry, GDT};
use wallet::cpu::vmsa::{check_vmsa_ind, Vmsa};
use wallet::error::{MonitorError, MonitorErrorType};
use wallet::interop::cpuid::leaf_has_subleaf;
use wallet::interop::report::{
    get_regular_report, AttestationReport, Signature, SnpReportResponse, SnpReportResponseStatus,
    TcbVersion,
};
use wallet::process_manager::reject;
use wallet::sev::utils::{
    pvalidate, pvalidate_operands, rmp_adjust, rmp_revoke_all_guest_access,
    rmp_revoke_guest_access, rmp_set_guest_vmsa, PageSize, PvalidateOp, RMPFlags, RmpStep,
    SevSnpError, SvsmError,
};
use wallet::utils::tsc::{rdtsc, ticks_for_micros, ticks_for_secs};
use wallet::RequestParams;

#[test]
fn addresses_wrap_and_statuses_keep_their_sign() {
    assert_eq!(PAGE_SIZE, igvm_defs::PAGE_SIZE_4K);
    assert_eq!(pages_above(0x1000, 3), 0x4000);
    assert_eq!(pages_above(0xFFFF_FFFF_FFFF_F000, 2), 0x1000);
    assert_eq!(status_to_word(5), 5);
    assert_eq!(status_to_word(-1), u64::MAX);
    assert_eq!(status_to_word(-6), 0xFFFF_FFFF_FFFF_FFFA);
    assert_eq!(status_to_word(i64::MIN), 0x8000_0000_0000_0000);
}

#[test]
fn refusals_are_no_errors_and_negative() {
    let mut params = RequestParams { sev_features: 9, rcx: 1, rdx: 2, r8: 3, r9: 4 };
    assert_eq!(reject(&mut params, -3), Ok(()));
    assert_eq!(
        params,
        RequestParams { sev_features: 9, rcx: 0xFFFF_FFFF_FFFF_FFFD, rdx: 2, r8: 3, r9: 4 }
    );
    assert!((params.rcx as i64) < 0);
}

#[test]
fn errors_have_messages() {
    let all: [(MonitorError, MonitorErrorType, &str); 7] = [
        (MonitorError::unsupported(), MonitorErrorType::Unsupported, "Unsupported"),
        (MonitorError::unknown(), MonitorErrorType::Unknown, "Unknown"),
        (MonitorError::invalid_params(), MonitorErrorType::InvalidParameters, "InvalidParameters"),
        (MonitorError::validate_failed(), MonitorErrorType::PvalidateFailed, "PvalidateFailed"),
        (MonitorError::report_failed(), MonitorErrorType::ReportFailed, "ReportFailed"),
        (MonitorError::report_invalid(), MonitorErrorType::ReportInvalid, "ReportInvalid"),
        (
            MonitorError::report_format_invalid(),
            MonitorErrorType::ReportFormatInvalid,
            "ReportFormatInvalid",
        ),
    ];
    for (error, kind, name) in all {
        assert_eq!(error.0, kind);
        assert_eq!(error.message(), format!("Monitor error encounterd: {}", name));
    }
}

#[test]
fn ticks_saturate() {
    assert_eq!(ticks_for_secs(1), 2_400_008_000);
    assert_eq!(ticks_for_secs(600), 1_440_004_800_000);
    assert_eq!(ticks_for_secs(u64::MAX), u64::MAX);
    assert_eq!(ticks_for_micros(10), 24_000);
    assert_eq!(ticks_for_micros(u64::MAX), u64::MAX);
    assert!(ticks_for_secs(7) <= ticks_for_secs(8));
    assert_eq!(rdtsc(0x89AB_CDEF, 0x0123_4567), 0x0123_4567_89AB_CDEF);
}

#[test]
fn descriptors_are_flat() {
    let mut gdt = GDT::new();
    assert_eq!(gdt.entries[0], GDTEntry::null());
    assert_eq!(gdt.entries[1].0, 0x00af9b000000ffff);
    assert_eq!(gdt.entries[2].0, 0x00cf93000000ffff);
    assert_eq!(gdt.entries[3].0, 0x00affb000000ffff);
    assert_eq!(gdt.entries[4].0, 0x00cff3000000ffff);
    assert_eq!(gdt.base_limit(0x8000), (0x8000, 63));
    gdt.set_tss_entry(GDTEntry::from_raw(11), GDTEntry::from_raw(22));
    assert_eq!(gdt.entries[5], GDTEntry::null());
    assert_eq!(gdt.entries[6].0, 11);
    assert_eq!(gdt.entries[7].0, 22);
}

#[test]
fn only_matching_states_run() {
    let vmsa = Vmsa { vmpl: 1, efer: 0x1D01, sev_features: 5, ..Vmsa::default() };
    assert!(check_vmsa_ind(&vmsa, 5, 0x1000, 1));
    assert!(!check_vmsa_ind(&vmsa, 5, 0x1000, 2));
    assert!(!check_vmsa_ind(&vmsa, 4, 0x1000, 1));
    assert!(!check_vmsa_ind(&vmsa, 5, 0x2000, 1));
}

#[test]
fn leaves_with_subleaves() {
    let with: [u32; 15] =
        [4, 7, 0xb, 0xd, 0xf, 0x10, 0x12, 0x14, 0x17, 0x18, 0x1d, 0x1e, 0x1f, 0x24, 0x8000001d];
    for eax in with {
        assert!(leaf_has_subleaf(eax));
    }
    for eax in [0u32, 1, 2, 6, 0x15, 0x8000_0000, 0x8000_001e] {
        assert!(!leaf_has_subleaf(eax));
    }
}

fn response(status: u32, report_size: u32) -> SnpReportResponse {
    let tcb = TcbVersion { raw: 0 };
    SnpReportResponse {
        status,
        report_size,
        report: AttestationReport {
            version: 2,
            guest_svn: 7,
            policy: 0,
            family_id: [0; 16],
            image_id: [0; 16],
            vmpl: 0,
            signature_algo: 0,
            platform_version: tcb,
            platform_info: 0,
            flags: 0,
            reserved0: 0,
            report_data: [0; 64],
            measurement: [0; 48],
            host_data: [0; 32],
            id_key_digest: [0; 48],
            author_key_digest: [0; 48],
            report_id: [0; 32],
            report_id_ma: [0; 32],
            reported_tcb: tcb,
            reserved1: [0; 24],
            chip_id: [0; 64],
            reserved2: [0; 192],
            signature: Signature { r: [0; 72], s: [0; 72], reserved: [0; 368] },
        },
    }
}

#[test]
fn reports_are_validated() {
    assert!(attest_process());
    assert_eq!(response(0, 1184).validate(), Ok(()));
    assert_eq!(
        response(0x16, 1184).validate(),
        Err(MonitorError(MonitorErrorType::ReportInvalid))
    );
    assert_eq!(
        response(0, 1183).validate(),
        Err(MonitorError(MonitorErrorType::ReportFormatInvalid))
    );
    assert_eq!(response(0, 1184).get_report().guest_svn, 7);
    assert_eq!(response(0, 1184).get_report_size(), 1184);
    assert_eq!(SnpReportResponseStatus::Success.code(), 0);
    assert_eq!(SnpReportResponseStatus::InvalidParameters.code(), 0x16);
    assert_eq!(SnpReportResponseStatus::InvalidKeySelection.code(), 0x27);
    assert_eq!(get_regular_report(0), Err(MonitorError(MonitorErrorType::ReportFailed)));
    assert_eq!(get_regular_report(1200), Ok(1200));
}

#[test]
fn validation_outcomes() {
    assert_eq!(pvalidate_operands(0x5000, PageSize::Regular, PvalidateOp::Valid), (0x5000, 0, 1));
    assert_eq!(pvalidate_operands(0x5000, PageSize::Huge, PvalidateOp::Invalid), (0x5000, 1, 0));
    assert_eq!(pvalidate(0, 0), Ok(()));
    assert_eq!(pvalidate(0, 1), Err(SvsmError::SevSnp(SevSnpError::FAIL_UNCHANGED(0x10))));
    assert_eq!(pvalidate(1, 0), Err(SvsmError::SevSnp(SevSnpError::FAIL_INPUT(1))));
    assert_eq!(pvalidate(6, 0), Err(SvsmError::SevSnp(SevSnpError::FAIL_SIZEMISMATCH(6))));
}

#[test]
fn adjustment_outcomes() {
    assert_eq!(rmp_adjust(0, 0), Ok(()));
    assert_eq!(rmp_adjust(0, 13), Err(SvsmError::SevSnp(SevSnpError::FAIL_INPUT(1))));
    assert_eq!(rmp_adjust(1, 0), Err(SvsmError::SevSnp(SevSnpError::FAIL_INPUT(1))));
    assert_eq!(rmp_adjust(2, 0), Err(SvsmError::SevSnp(SevSnpError::FAIL_PERMISSION(2))));
    assert_eq!(rmp_adjust(3, 0), Err(SvsmError::SevSnp(SevSnpError::FAIL_INUSE(3))));
    assert_eq!(rmp_adjust(6, 0), Err(SvsmError::SevSnp(SevSnpError::FAIL_SIZEMISMATCH(6))));
    assert_eq!(SevSnpError::FAIL_INPUT(1).name(), "FAIL_INPUT");
    assert_eq!(SevSnpError::FAIL_INUSE(3).name(), "FAIL_INUSE");
    assert_eq!(SevSnpError::FAIL_UNCHANGED(16).name(), "FAIL_UNCHANGED");
    assert_eq!(SevSnpError::FAIL_PERMISSION(2).name(), "FAIL_PERMISSION");
    assert_eq!(SevSnpError::FAIL_SIZEMISMATCH(6).name(), "FAIL_SIZEMISMATCH");
    assert_eq!(RMPFlags::RWX, 0xF00);
}

fn run(step: fn(u64, Result<(), SvsmError>) -> RmpStep, fail_at: u64) -> (Vec<u64>, bool) {
    let mut operands: Vec<u64> = Vec::new();
    let mut last: Result<(), SvsmError> = Ok(());
    loop {
        match step(operands.len() as u64, last) {
            RmpStep::Adjust { flags } => {
                operands.push(flags);
                last = rmp_adjust(if operands.len() as u64 == fail_at { 3 } else { 0 }, 0);
            }
            RmpStep::Done(end) => return (operands, end.is_ok()),
        }
    }
}

#[test]
fn revocations_stop_at_the_first_failure() {
    assert_eq!(run(rmp_revoke_guest_access, 0), (vec![2, 3], true));
    assert_eq!(run(rmp_revoke_guest_access, 1), (vec![2], false));
    assert_eq!(run(rmp_revoke_guest_access, 2), (vec![2, 3], false));
    assert_eq!(run(rmp_revoke_all_guest_access, 0), (vec![1, 2, 3], true));
    assert_eq!(run(rmp_revoke_all_guest_access, 2), (vec![1, 2], false));
    assert_eq!(run(rmp_set_guest_vmsa, 0), (vec![2, 3, 0x1_0102], true));
    assert_eq!(run(rmp_set_guest_vmsa, 2), (vec![2, 3], false));
}
