//! The `doctor` report: whether this machine can run the cage, and how.
use vstd::prelude::*;

use crate::monitor::{bpf_lsm_available, lists_bpf};
use crate::text::{chars_of, chars_trim, decimal, push_decimal, string_from_chars, to_owned_string, trim};

verus! {

broadcast use vstd::string::group_string_axioms;

/// The outcome of one check.
#[derive(Debug, Clone, Copy, PartialEq, Eq, Structural)]
pub enum CheckStatus {
    Passed,
    Warn,
    Error,
}

/// One line of the report.
#[derive(Debug, Clone)]
pub struct DoctorCheck {
    pub name: String,
    pub status: CheckStatus,
    pub message: String,
    pub detail: Option<String>,
}

/// The whole report.
#[derive(Debug, Clone)]
pub struct DoctorReport {
    pub checks: Vec<DoctorCheck>,
    pub is_root: bool,
    /// Some check failed in a way that makes the cage unusable here.
    pub has_fatal_error: bool,
}

/// What checking the embedded kernel object gave.
#[derive(Debug)]
pub enum EbpfCheck {
    /// The object is there: its size, its SHA-256, and whether the kernel's verifier
    /// accepted a trial load (with the error as `{:?}` prints it where it did not).
    Ready { size: usize, sha256: String, verifier: Result<(), String> },
    /// The object could not be checked (the error as `{}` prints it).
    Failed(String),
}

/// What the doctor found out about the machine.
#[derive(Debug)]
pub struct DoctorFacts {
    /// The version of this program.
    pub version: String,
    pub is_root: bool,
    /// The text of `/proc/sys/kernel/osrelease`, where it could be read.
    pub kernel_release: Option<String>,
    /// The text of `/sys/kernel/security/lsm`, where it could be read.
    pub lsm_list: Option<String>,
    pub ebpf: EbpfCheck,
}

/// A check as plain values: name, status, message, detail.
pub type CheckView = (Seq<char>, CheckStatus, Seq<char>, Option<Seq<char>>);

/// The plain values of a check.
pub open spec fn check_view(c: DoctorCheck) -> CheckView {
    (
        c.name@,
        c.status,
        c.message@,
        match c.detail {
            Some(d) => Some(d@),
            None => None,
        },
    )
}

/// The plain values of the checks of a report.
pub open spec fn check_views(v: Seq<DoctorCheck>) -> Seq<CheckView> {
    v.map_values(|c: DoctorCheck| check_view(c))
}

/// Whether the LSM list, where read, holds `bpf`.
pub open spec fn lsm_ok(f: DoctorFacts) -> bool {
    match f.lsm_list {
        Some(c) => lists_bpf(c@),
        None => false,
    }
}

/// The checks of the kernel object.
pub open spec fn ebpf_checks(f: DoctorFacts) -> Seq<CheckView> {
    match f.ebpf {
        EbpfCheck::Ready { size, sha256, verifier } => {
            let first = (
                "Objeto eBPF embutido"@,
                CheckStatus::Passed,
                decimal(size as nat) + " bytes, sha256 "@ + sha256@,
                None,
            );
            let second = match verifier {
                Ok(()) => (
                    "Verifier do kernel"@,
                    CheckStatus::Passed,
                    "aceitou o carregamento de teste dos programas LSM"@,
                    None,
                ),
                Err(e) => if !f.is_root {
                    (
                        "Verifier do kernel"@,
                        CheckStatus::Warn,
                        "não foi possível testar o verifier sem privilégios de root (EPERM)."@,
                        None,
                    )
                } else {
                    (
                        "Verifier do kernel"@,
                        CheckStatus::Error,
                        "rejeitou os programas LSM: "@ + e@,
                        None,
                    )
                },
            };
            seq![first, second]
        },
        EbpfCheck::Failed(e) => seq![
            (
                "Objeto eBPF embutido"@,
                CheckStatus::Error,
                "erro ao verificar objeto eBPF: "@ + e@,
                None,
            ),
        ],
    }
}

/// The checks of a report, in order: version, kernel, BPF LSM, kernel object (and
/// verifier), privileges.
pub open spec fn expected_checks(f: DoctorFacts) -> Seq<CheckView> {
    let version = ("Binário instalado"@, CheckStatus::Passed, "v"@ + f.version@, None);
    let kernel = (
        "Kernel detectado"@,
        CheckStatus::Passed,
        match f.kernel_release {
            Some(k) => trim(k@),
            None => "desconhecido"@,
        },
        None,
    );
    let lsm = if lsm_ok(f) {
        ("BPF LSM"@, CheckStatus::Passed, "disponível — modo síncrono (recomendado) será usado."@, None)
    } else {
        (
            "BPF LSM"@,
            CheckStatus::Warn,
            "indisponível — modo reativo (fallback) será usado."@,
            Some("Isso ainda funciona, mas o bloqueio acontece após a violação, não antes."@),
        )
    };
    let privileges = if f.is_root {
        ("Privilégios"@, CheckStatus::Passed, "Rodando como root — pronto para anexar eBPF."@, None)
    } else {
        (
            "Privilégios"@,
            CheckStatus::Warn,
            "Não está rodando como root. Use 'sudo' ao executar o SyscallCage de verdade."@,
            None,
        )
    };
    seq![version, kernel, lsm] + ebpf_checks(f) + seq![privileges]
}

/// The cage cannot run here: running as root, the kernel object could not be
/// checked or the verifier rejected it. Without root nothing is fatal.
pub open spec fn fatal_found(f: DoctorFacts) -> bool {
    f.is_root && match f.ebpf {
        EbpfCheck::Failed(_) => true,
        EbpfCheck::Ready { verifier, .. } => verifier is Err,
    }
}

fn check(name: &str, status: CheckStatus, message: String, detail: Option<String>) -> (c: DoctorCheck)
    ensures
        check_view(c) == (name@, status, message@, match detail {
            Some(d) => Some(d@),
            None => None,
        }),
{
    DoctorCheck { name: to_owned_string(name), status, message, detail }
}

fn push_check(v: &mut Vec<DoctorCheck>, c: DoctorCheck)
    ensures
        check_views(final(v)@) == check_views(old(v)@).push(check_view(c)),
{
    let ghost before = v@;
    v.push(c);
    assert(check_views(v@) =~= check_views(before).push(check_view(c)));
}

/// Builds the report from what was found out about the machine.
pub fn collect_doctor_report(facts: &DoctorFacts) -> (r: DoctorReport)
    ensures
        check_views(r.checks@) == expected_checks(*facts),
        r.is_root == facts.is_root,
        r.has_fatal_error == fatal_found(*facts),
{
    let mut checks: Vec<DoctorCheck> = Vec::new();
    let mut has_fatal_error = false;
    let mut version = to_owned_string("v");
    version.append(facts.version.as_str());
    push_check(&mut checks, check("Binário instalado", CheckStatus::Passed, version, None));
    let kernel = match &facts.kernel_release {
        Some(k) => {
            let c = chars_of(k.as_str());
            let t = chars_trim(c.as_slice());
            string_from_chars(t.as_slice())
        },
        None => to_owned_string("desconhecido"),
    };
    push_check(&mut checks, check("Kernel detectado", CheckStatus::Passed, kernel, None));
    let lsm = match &facts.lsm_list {
        Some(c) => bpf_lsm_available(Some(c.as_str())),
        None => bpf_lsm_available(None),
    };
    if lsm {
        push_check(
            &mut checks,
            check(
                "BPF LSM",
                CheckStatus::Passed,
                to_owned_string("disponível — modo síncrono (recomendado) será usado."),
                None,
            ),
        );
    } else {
        push_check(
            &mut checks,
            check(
                "BPF LSM",
                CheckStatus::Warn,
                to_owned_string("indisponível — modo reativo (fallback) será usado."),
                Some(
                    to_owned_string(
                        "Isso ainda funciona, mas o bloqueio acontece após a violação, não antes.",
                    ),
                ),
            ),
        );
    }
    let ghost before_ebpf = check_views(checks@);
    match &facts.ebpf {
        EbpfCheck::Ready { size, sha256, verifier } => {
            let mut m = String::new();
            push_decimal(&mut m, *size as u64);
            m.append(" bytes, sha256 ");
            m.append(sha256.as_str());
            push_check(&mut checks, check("Objeto eBPF embutido", CheckStatus::Passed, m, None));
            match verifier {
                Ok(()) => {
                    push_check(
                        &mut checks,
                        check(
                            "Verifier do kernel",
                            CheckStatus::Passed,
                            to_owned_string("aceitou o carregamento de teste dos programas LSM"),
                            None,
                        ),
                    );
                },
                Err(e) => {
                    if !facts.is_root {
                        push_check(
                            &mut checks,
                            check(
                                "Verifier do kernel",
                                CheckStatus::Warn,
                                to_owned_string(
                                    "não foi possível testar o verifier sem privilégios de root (EPERM).",
                                ),
                                None,
                            ),
                        );
                    } else {
                        let mut m = to_owned_string("rejeitou os programas LSM: ");
                        m.append(e.as_str());
                        push_check(&mut checks, check("Verifier do kernel", CheckStatus::Error, m, None));
                        has_fatal_error = true;
                    }
                },
            }
        },
        EbpfCheck::Failed(e) => {
            let mut m = to_owned_string("erro ao verificar objeto eBPF: ");
            m.append(e.as_str());
            push_check(&mut checks, check("Objeto eBPF embutido", CheckStatus::Error, m, None));
            has_fatal_error = facts.is_root;
        },
    }
    assert(check_views(checks@) =~= before_ebpf + ebpf_checks(*facts));
    if facts.is_root {
        push_check(
            &mut checks,
            check(
                "Privilégios",
                CheckStatus::Passed,
                to_owned_string("Rodando como root — pronto para anexar eBPF."),
                None,
            ),
        );
    } else {
        push_check(
            &mut checks,
            check(
                "Privilégios",
                CheckStatus::Warn,
                to_owned_string(
                    "Não está rodando como root. Use 'sudo' ao executar o SyscallCage de verdade.",
                ),
                None,
            ),
        );
    }
    assert(check_views(checks@) =~= expected_checks(*facts));
    DoctorReport { checks, is_root: facts.is_root, has_fatal_error }
}

/// The mark printed before a check of the given status.
pub open spec fn status_mark(s: CheckStatus) -> Seq<char> {
    match s {
        CheckStatus::Passed => "✓"@,
        CheckStatus::Warn => "!"@,
        CheckStatus::Error => "✗"@,
    }
}

/// The printed lines of one check: `mark name: message`, then the detail indented.
pub open spec fn check_lines(c: CheckView) -> Seq<char> {
    status_mark(c.1) + " "@ + c.0 + ": "@ + c.2 + "\n"@ + match c.3 {
        Some(d) => "  "@ + d + "\n"@,
        None => Seq::empty(),
    }
}

/// Prints the checks of a report, one after the other.
pub open spec fn report_text(v: Seq<CheckView>) -> Seq<char>
    decreases v.len(),
{
    if v.len() == 0 {
        Seq::empty()
    } else {
        report_text(v.drop_last()) + check_lines(v.last())
    }
}

/// The text that lists the checks of a report.
pub fn render_checks(report: &DoctorReport) -> (r: String)
    ensures
        r@ == report_text(check_views(report.checks@)),
{
    let ghost cv = check_views(report.checks@);
    let mut out = String::new();
    let mut i: usize = 0;
    assert(cv.take(0) =~= Seq::<CheckView>::empty());
    while i < report.checks.len()
        invariant
            i <= report.checks.len(),
            cv == check_views(report.checks@),
            out@ == report_text(cv.take(i as int)),
        decreases report.checks.len() - i,
    {
        let c = &report.checks[i];
        assert(cv.take(i + 1).drop_last() =~= cv.take(i as int));
        assert(cv.take(i + 1).last() == check_view(*c));
        match c.status {
            CheckStatus::Passed => out.append("✓"),
            CheckStatus::Warn => out.append("!"),
            CheckStatus::Error => out.append("✗"),
        }
        out.append(" ");
        out.append(c.name.as_str());
        out.append(": ");
        out.append(c.message.as_str());
        out.append("\n");
        match &c.detail {
            Some(d) => {
                out.append("  ");
                out.append(d.as_str());
                out.append("\n");
            },
            None => {},
        }
        i = i + 1;
        assert(out@ =~= report_text(cv.take(i as int)));
    }
    assert(cv.take(report.checks.len() as int) =~= cv);
    out
}

/// A run without root is never fatal, whatever the checks of the kernel object found.
pub proof fn law_unprivileged_not_fatal(f: DoctorFacts)
    requires
        !f.is_root,
    ensures
        !fatal_found(f),
{
}

/// The last check always reports the privileges, as a warning without root.
pub proof fn law_privileges_reported_last(f: DoctorFacts)
    ensures
        expected_checks(f).last().0 == "Privilégios"@,
        expected_checks(f).last().1 == (if f.is_root {
            CheckStatus::Passed
        } else {
            CheckStatus::Warn
        }),
{
}

} // verus!
