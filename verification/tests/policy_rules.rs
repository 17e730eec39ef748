use syscallcage::policy::{
    Mode, Policy, PolicyError, RawFilesystem, RawNetwork, RawPolicy, RawSyscalls, SyscallDenyRule,
};

fn strings(v: &[&str]) -> Vec<String> {
    v.iter().map(|s| s.to_string()).collect()
}

fn raw(mode: &str, read: &[&str], write: &[&str], deny: &[&str]) -> RawPolicy {
    RawPolicy {
        mode: mode.to_string(),
        filesystem: RawFilesystem {
            allow_read: strings(read),
            allow_write: strings(write),
            deny_always: strings(deny),
        },
        network: RawNetwork::default(),
        syscalls: RawSyscalls::default(),
    }
}

#[test]
fn test_deny_always_wins() {
    let policy = Policy::from_raw(raw(
        "enforce",
        &["/home/user/projects/**"],
        &[],
        &["/home/user/projects/app/.env"],
    ))
    .unwrap();
    assert!(!policy.path_allowed("/home/user/projects/app/.env", false));
    assert!(policy.path_allowed("/home/user/projects/app/main.rs", false));
}

#[test]
fn test_glob_starting_with_double_star() {
    let policy = Policy::from_raw(raw("enforce", &["/home/user/**"], &[], &["**/.env"])).unwrap();
    assert!(!policy.path_allowed("/home/user/projects/app/.env", false));
    assert!(!policy.path_allowed("/other/.env", false));
    assert!(policy.path_allowed("/home/user/main.rs", false));
}

#[test]
fn test_zero_trust_default_deny() {
    let policy = Policy::from_raw(raw("enforce", &["/home/user/**"], &[], &[])).unwrap();
    assert!(!policy.path_allowed("/etc/passwd", false));
}

#[test]
fn test_domain_allowed_with_deny_all_else() {
    let mut r = raw("enforce", &["**"], &[], &[]);
    r.network = RawNetwork { allow_domains: strings(&["api.anthropic.com"]), deny_all_else: true };
    let policy = Policy::from_raw(r).unwrap();
    assert!(policy.domain_allowed("api.anthropic.com"));
    assert!(policy.domain_allowed("API.ANTHROPIC.COM"));
    assert!(!policy.domain_allowed("google.com"));

    let mut r2 = raw("enforce", &["**"], &[], &[]);
    r2.network = RawNetwork { allow_domains: strings(&["api.anthropic.com"]), deny_all_else: false };
    let policy2 = Policy::from_raw(r2).unwrap();
    assert!(policy2.domain_allowed("api.anthropic.com"));
    assert!(policy2.domain_allowed("google.com"));
}

#[test]
fn test_generic_syscall_checks() {
    let mut r = raw("enforce", &["**"], &[], &[]);
    r.syscalls = RawSyscalls {
        deny: vec![
            SyscallDenyRule::Simple("ptrace".to_string()),
            SyscallDenyRule::Structured { pattern: "execve:/bin/sh".to_string(), kill_on_deny: true },
        ],
    };
    let policy = Policy::from_raw(r).unwrap();
    assert!(policy.syscall_denied("ptrace"));
    assert!(policy.syscall_denied("ptrace:PTRACE_ATTACH"));
    assert!(!policy.should_kill_on_syscall_deny("ptrace"));

    assert!(policy.syscall_denied("execve:/bin/sh"));
    assert!(policy.should_kill_on_syscall_deny("execve:/bin/sh"));
    assert!(!policy.syscall_denied("execve:/bin/ls"));
}

#[test]
fn test_invalid_mode_returns_err() {
    let res = Policy::from_raw(raw("yolo", &["**"], &[], &[]));
    assert!(res.is_err());
    match res.err().unwrap() {
        PolicyError::InvalidMode(m) => assert_eq!(m, "yolo"),
        _ => panic!("expected PolicyError::InvalidMode"),
    }
}

#[test]
fn test_empty_allow_list_returns_err() {
    let res = Policy::from_raw(raw("enforce", &[], &[], &["**/.env"]));
    assert!(res.is_err());
    assert!(matches!(res.err().unwrap(), PolicyError::EmptyAllowList));
}

#[test]
fn mode_and_dry_run() {
    let mut policy = Policy::from_raw(raw("enforce", &["**"], &[], &[])).unwrap();
    assert_eq!(policy.mode(), Mode::Enforce);
    policy.force_dry_run();
    assert_eq!(policy.mode(), Mode::Monitor);
    let monitor = Policy::from_raw(raw("monitor", &[], &["/tmp/**"], &[])).unwrap();
    assert_eq!(monitor.mode(), Mode::Monitor);
}

#[test]
fn write_access_uses_the_write_list() {
    let policy = Policy::from_raw(raw("enforce", &["/src/**"], &["/tmp/**"], &[])).unwrap();
    assert!(policy.path_allowed("/tmp/out.log", true));
    assert!(!policy.path_allowed("/tmp/out.log", false));
    assert!(policy.path_allowed("/src/main.rs", false));
    assert!(!policy.path_allowed("/src/main.rs", true));
}

#[test]
fn single_star_stays_within_a_directory() {
    let policy = Policy::from_raw(raw("enforce", &["/data/*.csv", "/logs/?.txt"], &[], &[])).unwrap();
    assert!(policy.path_allowed("/data/a.csv", false));
    assert!(!policy.path_allowed("/data/sub/a.csv", false));
    assert!(policy.path_allowed("/logs/a.txt", false));
    assert!(!policy.path_allowed("/logs/ab.txt", false));
}

#[test]
fn regex_characters_in_globs_are_literal() {
    let policy = Policy::from_raw(raw("enforce", &["/a.b/(x)+/**"], &[], &[])).unwrap();
    assert!(policy.path_allowed("/a.b/(x)+/file", false));
    assert!(!policy.path_allowed("/aXb/(x)+/file", false));
}

#[test]
fn glob_translation() {
    assert_eq!(syscallcage::policy::matcher::glob_to_regex("**/.env").unwrap(), "^.*/\\.env$");
    assert_eq!(syscallcage::policy::matcher::glob_to_regex("/a/*?").unwrap(), "^/a/[^/]*[^/]$");
    assert_eq!(syscallcage::policy::matcher::glob_to_regex("\\*").unwrap(), "^\\*$");
}

#[test]
fn syscall_rule_without_colon_covers_details_only() {
    assert!(syscallcage::policy::matcher::rule_applies("ptrace", "ptrace:X"));
    assert!(!syscallcage::policy::matcher::rule_applies("ptrace", "ptracex"));
    assert!(!syscallcage::policy::matcher::rule_applies("execve:/bin/sh", "execve:/bin/sh:x"));
}

#[test]
fn oversized_glob_is_an_invalid_glob() {
    let huge = format!("/{}", "?".repeat(300_000));
    match Policy::from_raw(raw("enforce", &["/ok/**"], &[], &[huge.as_str()])) {
        Err(PolicyError::InvalidGlob { pattern, .. }) => assert_eq!(pattern, huge),
        Err(_) => panic!("expected PolicyError::InvalidGlob"),
        Ok(_) => panic!("expected PolicyError::InvalidGlob"),
    }
}
