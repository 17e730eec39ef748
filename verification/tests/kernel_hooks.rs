use syscallcage::kernel::{
    dns_reply_worth_reading, fork_inherits, sendto_is_dns, classify_connect, connect_record, decide_exec, decide_file_open, dns_fd_key, is_sensitive_path, starts_with, ConnectAction,
    ExecVerdict, SyscallRule, Verdict,
};

fn path(s: &str) -> [u8; 256] {
    let mut b = [0u8; 256];
    b[..s.len()].copy_from_slice(s.as_bytes());
    b
}

fn entry(s: &str) -> [u8; 128] {
    let mut b = [0u8; 128];
    b[..s.len()].copy_from_slice(s.as_bytes());
    b
}

#[test]
fn prefix_matching() {
    assert!(starts_with(&path("/home/user/a"), &entry("/home/user/")));
    assert!(!starts_with(&path("/home/other"), &entry("/home/user/")));
    assert!(starts_with(&path("/x"), &entry("")));
    let full = [b'a'; 128];
    let mut p = [b'a'; 256];
    assert!(starts_with(&p, &full));
    p[127] = b'b';
    assert!(!starts_with(&p, &full));
}

#[test]
fn sensitive_paths_in_the_kernel() {
    assert!(is_sensitive_path(&path("/app/.env")));
    assert!(is_sensitive_path(&path(".env")));
    assert!(is_sensitive_path(&path("/home/u/.ssh/config")));
    assert!(is_sensitive_path(&path("/home/u/.ssh/id_rsa")));
    assert!(is_sensitive_path(&path("/keys/server.pem")));
    assert!(is_sensitive_path(&path("/home/u/id_rsa.pub")));
    assert!(is_sensitive_path(&path("id_rsa")));
    assert!(!is_sensitive_path(&path("/home/u/my_id_rsa")));
    assert!(!is_sensitive_path(&path("/app/.env.example")));
    assert!(!is_sensitive_path(&path("/app/.environment")));
    assert!(!is_sensitive_path(&path("/home/u/.ssh-key")));
    assert!(!is_sensitive_path(&path("/keys/server.pem.bak")));
    assert!(!is_sensitive_path(&path("/src/main.rs")));
}

#[test]
fn file_open_verdicts() {
    let deny = vec![Some(entry("/tmp/forbidden/")), None];
    let read = vec![Some(entry("/home/user/")), Some(entry(""))];
    let write = vec![Some(entry("/tmp/"))];
    let v = |p: &str, w: bool, enforce: bool| decide_file_open(true, &path(p), w, enforce, &deny, &read, &write);
    assert_eq!(v("/home/user/a.rs", false, true), Verdict::Allow);
    assert_eq!(v("/home/user/a.rs", true, true), Verdict::Deny);
    assert_eq!(v("/tmp/out", true, true), Verdict::Allow);
    assert_eq!(v("/tmp/forbidden/x", true, true), Verdict::Deny);
    assert_eq!(v("/tmp/forbidden/x", true, false), Verdict::Report);
    assert_eq!(v("/home/user/.env", false, true), Verdict::Deny);
    assert_eq!(v("/etc/passwd", false, true), Verdict::Deny);
    assert_eq!(v("/etc/passwd", false, false), Verdict::Report);
    assert_eq!(decide_file_open(false, &path("/home/user/a"), false, false, &deny, &read, &write), Verdict::Deny);
}

#[test]
fn exec_verdicts() {
    let rules = vec![
        None,
        Some(SyscallRule { pattern: entry("ptrace"), kill_on_deny: 1 }),
        Some(SyscallRule { pattern: entry("execve:/bin/sh"), kill_on_deny: 1 }),
        Some(SyscallRule { pattern: entry("execve:/usr/bin/"), kill_on_deny: 0 }),
    ];
    assert_eq!(decide_exec(true, &path("/bin/sh"), true, &rules), ExecVerdict::Deny { kill: true });
    assert_eq!(decide_exec(true, &path("/usr/bin/nc"), true, &rules), ExecVerdict::Deny { kill: false });
    assert_eq!(decide_exec(true, &path("/usr/bin/nc"), false, &rules), ExecVerdict::Report);
    assert_eq!(decide_exec(true, &path("/opt/tool"), true, &rules), ExecVerdict::Allow);
    assert_eq!(decide_exec(false, &path("/opt/tool"), false, &rules), ExecVerdict::Deny { kill: false });
}

#[test]
fn connections() {
    let mut v4 = [0u8; 16];
    v4[0] = 2;
    v4[2] = 0x01;
    v4[3] = 0xbb;
    v4[4..8].copy_from_slice(&[93, 184, 216, 34]);
    assert_eq!(classify_connect(2, &v4), ConnectAction::ReportIpv4(0x5DB8D822));
    v4[3] = 53;
    v4[2] = 0;
    assert_eq!(classify_connect(2, &v4), ConnectAction::MarkDnsSocket);
    v4[3] = 80;
    v4[4] = 127;
    assert_eq!(classify_connect(2, &v4), ConnectAction::Ignore);
    assert_eq!(classify_connect(1, &[]), ConnectAction::Ignore);

    let mut v6 = [0u8; 28];
    v6[3] = 80;
    v6[23] = 1;
    assert_eq!(classify_connect(10, &v6), ConnectAction::Ignore);
    v6[23] = 2;
    v6[8] = 0x20;
    assert_eq!(classify_connect(10, &v6), ConnectAction::ReportIpv6);
    v6[8] = 0xfe;
    v6[9] = 0x80;
    assert_eq!(classify_connect(10, &v6), ConnectAction::Ignore);
    v6[3] = 53;
    assert_eq!(classify_connect(10, &v6), ConnectAction::MarkDnsSocket);

    assert_eq!(dns_fd_key(7, 3), (7u64 << 32) | 3);
    assert_eq!(dns_fd_key(1, -1), (1u64 << 32) | 0xFFFF_FFFF);
}

#[test]
fn small_kernel_decisions() {
    assert!(sendto_is_dns(true, 0x3500, false));
    assert!(!sendto_is_dns(true, 53, true));
    assert!(sendto_is_dns(false, 0, true));
    assert!(fork_inherits(10, 11, true));
    assert!(!fork_inherits(10, 0, true));
    assert!(!fork_inherits(10, 11, false));
    assert!(dns_reply_worth_reading(13));
    assert!(!dns_reply_worth_reading(12));
}

#[test]
fn connect_records_reported_by_the_hook() {
    let (flag, target) = connect_record(ConnectAction::ReportIpv6, None).unwrap();
    assert_eq!(flag, 0);
    assert_eq!(&target[..20], b"<ipv6-nao-suportado>");
    assert!(target[20..].iter().all(|&b| b == 0));

    let (flag, target) = connect_record(ConnectAction::ReportIpv4(0x0A00_0007), None).unwrap();
    assert_eq!(flag, 0);
    assert_eq!(&target[..5], &[0xAA, 10, 0, 0, 7]);
    assert!(target[5..].iter().all(|&b| b == 0));

    let mut domain = [0u8; 256];
    domain[..7].copy_from_slice(b"example");
    let (flag, target) = connect_record(ConnectAction::ReportIpv4(0x0A00_0007), Some(domain)).unwrap();
    assert_eq!(flag, 2);
    assert_eq!(target, domain);

    assert!(connect_record(ConnectAction::Ignore, None).is_none());
    assert!(connect_record(ConnectAction::MarkDnsSocket, Some(domain)).is_none());
}
