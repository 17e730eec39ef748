use syscallcage::doctor::{collect_doctor_report, render_checks, CheckStatus, DoctorFacts, EbpfCheck};

fn facts(is_root: bool, ebpf: EbpfCheck) -> DoctorFacts {
    DoctorFacts {
        version: "0.2.0".to_string(),
        is_root,
        kernel_release: Some("6.8.0-45-generic\n".to_string()),
        lsm_list: Some("lockdown,capability,bpf".to_string()),
        ebpf,
    }
}

#[test]
fn test_collect_doctor_report_does_not_panic() {
    let cases = vec![
        EbpfCheck::Ready { size: 4096, sha256: "abc".to_string(), verifier: Err("EPERM".to_string()) },
        EbpfCheck::Ready { size: 4096, sha256: "abc".to_string(), verifier: Ok(()) },
        EbpfCheck::Failed("not found".to_string()),
    ];
    for ebpf in cases {
        let report = collect_doctor_report(&facts(false, ebpf));
        assert!(!report.checks.is_empty());
        assert!(!report.is_root);
        assert!(!report.has_fatal_error);
        let priv_check = report.checks.iter().find(|c| c.name == "Privilégios");
        assert!(priv_check.is_some());
        assert_eq!(priv_check.unwrap().status, CheckStatus::Warn);
    }
    let report = collect_doctor_report(&facts(
        false,
        EbpfCheck::Ready { size: 4096, sha256: "abc".to_string(), verifier: Err("EPERM".to_string()) },
    ));
    assert_eq!(report.checks[0].message, "v0.2.0");
    assert_eq!(report.checks[1].message, "6.8.0-45-generic");
    assert_eq!(report.checks[2].status, CheckStatus::Passed);
    assert_eq!(report.checks[3].message, "4096 bytes, sha256 abc");
    assert_eq!(report.checks[4].status, CheckStatus::Warn);
}

#[test]
fn root_verifier_rejection_is_fatal() {
    let report = collect_doctor_report(&facts(
        true,
        EbpfCheck::Ready { size: 1, sha256: "h".to_string(), verifier: Err("Verifier(..)".to_string()) },
    ));
    assert!(report.has_fatal_error);
    assert_eq!(report.checks[4].status, CheckStatus::Error);
    assert_eq!(report.checks[4].message, "rejeitou os programas LSM: Verifier(..)");
    assert_eq!(report.checks[5].status, CheckStatus::Passed);
}

#[test]
fn missing_object_without_root_is_not_fatal() {
    let report = collect_doctor_report(&facts(false, EbpfCheck::Failed("not found".to_string())));
    assert!(!report.has_fatal_error);
    assert_eq!(report.checks[3].status, CheckStatus::Error);
    assert_eq!(report.checks[4].status, CheckStatus::Warn);
}

#[test]
fn missing_object_is_fatal_and_lsm_fallback_warns() {
    let mut f = facts(true, EbpfCheck::Failed("not found".to_string()));
    f.lsm_list = None;
    f.kernel_release = None;
    let report = collect_doctor_report(&f);
    assert!(report.has_fatal_error);
    assert_eq!(report.checks.len(), 5);
    assert_eq!(report.checks[1].message, "desconhecido");
    assert_eq!(report.checks[2].status, CheckStatus::Warn);
    assert!(report.checks[2].detail.is_some());
    assert_eq!(report.checks[3].message, "erro ao verificar objeto eBPF: not found");
    let text = render_checks(&report);
    assert!(text.starts_with("✓ Binário instalado: v0.2.0\n"));
    assert!(text.contains("! BPF LSM: indisponível — modo reativo (fallback) será usado.\n  Isso ainda funciona"));
    assert!(text.contains("✗ Objeto eBPF embutido: erro ao verificar objeto eBPF: not found\n"));
}
