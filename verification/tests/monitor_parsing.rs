use syscallcage::enforcer::EventType;
use syscallcage::monitor::events::{decode_event, domain_key, event_from_bytes, BpfEvent, DnsCache};
use syscallcage::monitor::dns::parse_dns_answers;
use syscallcage::monitor::{
    bpf_lsm_available, detect_enforcement_mode, enforce_flag, extract_bits_offset, fork_offsets, kernel_rules,
    parse_tracepoint_offset, resolve_btf_offsets, EnforcementMode, ExitReason,
};
use syscallcage::policy::Mode;

#[test]
fn test_parse_dns_answers_valid() {
    let mut wire = vec![0u8; 12];
    wire[7] = 1;
    wire.extend_from_slice(b"\x06google\x03com\x00");
    wire.extend_from_slice(&[0, 1, 0, 1]);
    wire.extend_from_slice(&[0xc0, 12]);
    wire.extend_from_slice(&[0, 1, 0, 1]);
    wire.extend_from_slice(&[0, 0, 0, 60]);
    wire.extend_from_slice(&[0, 4]);
    wire.extend_from_slice(&[1, 2, 3, 4]);

    let res = parse_dns_answers(&wire);
    assert!(res.is_some());
    let (name, ips) = res.unwrap();
    assert_eq!(name, "google.com");
    assert_eq!(ips, vec![0x01020304]);
}

#[test]
fn test_bpf_lsm_available_mocked() {
    assert!(bpf_lsm_available(Some("lockdown,capability,bpf,landlock")));
    assert!(!bpf_lsm_available(Some("lockdown,capability,landlock")));
}

#[test]
fn lsm_detection_edges() {
    assert!(!bpf_lsm_available(None));
    assert!(bpf_lsm_available(Some("bpf\n")));
    assert!(!bpf_lsm_available(Some("bpfx,landlock")));
    assert_eq!(detect_enforcement_mode(Some("capability,bpf")), EnforcementMode::Sync);
    assert_eq!(detect_enforcement_mode(None), EnforcementMode::Reactive);
}

#[test]
fn dns_answers_edge_cases() {
    assert!(parse_dns_answers(&[0u8; 5]).is_none());
    // A response without answers gives nothing.
    let mut wire = vec![0u8; 12];
    wire.extend_from_slice(b"\x01a\x00");
    wire.extend_from_slice(&[0, 1, 0, 1]);
    assert!(parse_dns_answers(&wire).is_none());
    // An answer that is not an IPv4 address names the query without addresses.
    wire[7] = 1;
    wire.extend_from_slice(&[0xc0, 12, 0, 28, 0, 1, 0, 0, 0, 60, 0, 16]);
    wire.extend_from_slice(&[0u8; 16]);
    let (name, ips) = parse_dns_answers(&wire).unwrap();
    assert_eq!(name, "a");
    assert!(ips.is_empty());
}

#[test]
fn tracepoint_offsets() {
    let format = "name: sched_process_fork\n\tfield:char parent_comm[16];\toffset:8;\tsize:16;\n\tfield:pid_t parent_pid;\toffset:24;\tsize:4;\n\tfield:pid_t child_pid;\toffset:44;\tsize:4;\n";
    assert_eq!(parse_tracepoint_offset(format, "parent_pid"), Some(24));
    assert_eq!(parse_tracepoint_offset(format, "child_pid"), Some(44));
    assert_eq!(parse_tracepoint_offset(format, "missing"), None);
    assert_eq!(fork_offsets(Some(format)), (24, 44));
    assert_eq!(fork_offsets(None), (12, 20));
    assert_eq!(fork_offsets(Some("nothing")), (12, 20));
}

#[test]
fn btf_offsets() {
    assert_eq!(extract_bits_offset("'f_mode' type_id=1 bits_offset=32 x"), Some(32));
    assert_eq!(extract_bits_offset("'f_mode' type_id=1 bits_offset=512"), Some(512));
    assert_eq!(extract_bits_offset("'f_mode' type_id=1"), None);
    assert_eq!(extract_bits_offset("bits_offset=x1"), None);
    assert_eq!(resolve_btf_offsets(None), (4, 64, 64));
    let dump = "STRUCT 'file' size=232 vlen=2\n\t'f_mode' type_id=5 bits_offset=160\n\t'f_path' type_id=6 bits_offset=384\nSTRUCT 'linux_binprm' size=400 vlen=1\n\t'file' type_id=7 bits_offset=576\nSTRUCT 'other' size=8 vlen=1\n\t'file' type_id=7 bits_offset=8\n";
    assert_eq!(resolve_btf_offsets(Some(dump)), (20, 48, 72));
    // A header that starts with an id closes any struct being read.
    let numbered = "STRUCT 'file' size=232 vlen=1\n[9] STRUCT 'file' size=232 vlen=1\n\t'f_mode' type_id=5 bits_offset=160\n";
    assert_eq!(resolve_btf_offsets(Some(numbered)), (4, 64, 64));
}

#[test]
fn exit_reason_is_final() {
    let r = ExitReason::Running.after_target_died();
    assert!(r.is_target_died());
    assert!(r.after_close().is_target_died());
    let c = ExitReason::Running.after_close();
    assert!(!c.is_target_died());
    assert!(!c.after_target_died().is_target_died());
}

fn raw_event(kind: u32, resolved: u8, bytes: &[u8]) -> BpfEvent {
    let mut target = [0u8; 256];
    target[..bytes.len()].copy_from_slice(bytes);
    BpfEvent { pid: 42, event_type: kind, resolved, target }
}

#[test]
fn decoding_events() {
    let mut cache = DnsCache::new();
    let d = decode_event(&raw_event(1, 0, b"/etc/hosts"), &mut cache).unwrap();
    assert_eq!(d.event.event_type, EventType::Read);
    assert_eq!(d.event.target, "/etc/hosts");
    let d = decode_event(&raw_event(3, 0, b"/bin/sh"), &mut cache).unwrap();
    assert_eq!(d.event.event_type, EventType::Syscall);
    assert_eq!(d.event.target, "execve:/bin/sh");
    let d = decode_event(&raw_event(2, 0, b"/tmp/x"), &mut cache).unwrap();
    assert_eq!(d.event.event_type, EventType::Write);
    assert_eq!(d.event.target, "/tmp/x");
    let d = decode_event(&raw_event(5, 0, b"ptrace"), &mut cache).unwrap();
    assert_eq!(d.event.event_type, EventType::Syscall);
    assert_eq!(d.event.target, "ptrace");
    assert!(decode_event(&raw_event(9, 0, b"x"), &mut cache).is_none());
    let d = decode_event(&raw_event(4, 0, &[0xAA, 10, 0, 0, 7]), &mut cache).unwrap();
    assert_eq!(d.event.target, "10.0.0.7");
    assert!(!d.event.resolved);
    cache.remember(0x0A000007, "internal.example".to_string());
    let d = decode_event(&raw_event(4, 0, &[0xAA, 10, 0, 0, 7]), &mut cache).unwrap();
    assert_eq!(d.event.target, "internal.example");
    assert!(d.event.resolved);
}

#[test]
fn decoding_dns_responses_learns_addresses() {
    let mut wire = vec![0u8; 12];
    wire[7] = 1;
    wire.extend_from_slice(b"\x03api\x07example\x03com\x00");
    wire.extend_from_slice(&[0, 1, 0, 1, 0xc0, 12, 0, 1, 0, 1, 0, 0, 0, 60, 0, 4, 9, 8, 7, 6]);
    let mut cache = DnsCache::new();
    let d = decode_event(&raw_event(4, 1, &wire), &mut cache).unwrap();
    assert_eq!(d.event.target, "api.example.com");
    assert!(d.event.resolved);
    assert_eq!(d.learnt_ips, vec![0x09080706]);
    assert_eq!(cache.lookup(0x09080706), Some("api.example.com".to_string()));
}

#[test]
fn records_and_keys() {
    let mut rec = vec![0u8; 268];
    rec[0] = 0x39;
    rec[1] = 0x30;
    rec[4] = 3;
    rec[8] = 0;
    rec[9..13].copy_from_slice(b"/bin");
    let e = event_from_bytes(&rec).unwrap();
    assert_eq!(e.pid, 12345);
    assert_eq!(e.event_type, 3);
    assert_eq!(&e.target[..4], b"/bin");
    assert!(event_from_bytes(&rec[..267]).is_none());
    let k = domain_key("example.com");
    assert_eq!(&k[..12], b"example.com\0");
    assert_eq!(enforce_flag(Mode::Enforce), 1);
    assert_eq!(enforce_flag(Mode::Monitor), 0);
    let rows = kernel_rules(&vec![([7u8; 128], true), ([8u8; 128], false)]);
    assert_eq!(rows[0].kill_on_deny, 1);
    assert_eq!(rows[1].kill_on_deny, 0);
    assert_eq!(rows[1].pattern[0], 8);
}

#[test]
fn ipv6_report_reaches_the_enforcer_as_the_marker() {
    let (flag, target) =
        syscallcage::kernel::connect_record(syscallcage::kernel::ConnectAction::ReportIpv6, None).unwrap();
    let mut cache = DnsCache::new();
    let ev = BpfEvent { pid: 9, event_type: 4, resolved: flag, target };
    let d = decode_event(&ev, &mut cache).unwrap();
    assert_eq!(d.event.event_type, EventType::Network);
    assert_eq!(d.event.target, "<ipv6-nao-suportado>");
    assert!(!d.event.resolved);
    assert!(d.learnt_ips.is_empty());
}
