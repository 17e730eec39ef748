use syscallcage::monitor::{sync_plan, SyncPlan};
use syscallcage::policy::{Policy, RawFilesystem, RawNetwork, RawPolicy, RawSyscalls, SyscallDenyRule};
use syscallcage::policy_sync_compiler::{
    extract_prefix, is_static_security_rule, string_to_bytes_128, try_compile_for_sync, SyncCompileError,
};

fn make_test_policy(
    allow_read: Vec<&str>,
    allow_write: Vec<&str>,
    deny_always: Vec<&str>,
    deny_syscalls: Vec<(&str, bool)>,
) -> Policy {
    let s = |v: Vec<&str>| v.into_iter().map(|x| x.to_string()).collect::<Vec<String>>();
    Policy::from_raw(RawPolicy {
        mode: "enforce".to_string(),
        filesystem: RawFilesystem {
            allow_read: s(allow_read),
            allow_write: s(allow_write),
            deny_always: s(deny_always),
        },
        network: RawNetwork::default(),
        syscalls: RawSyscalls {
            deny: deny_syscalls
                .into_iter()
                .map(|(p, k)| SyscallDenyRule::Structured { pattern: p.to_string(), kill_on_deny: k })
                .collect(),
        },
    })
    .unwrap()
}

#[test]
fn test_sync_compiler_success() {
    let policy = make_test_policy(
        vec!["/home/user/**", "/etc/hosts"],
        vec!["/tmp/"],
        vec!["**/.env", "/tmp/forbidden/"],
        vec![("execve:/bin/sh", false)],
    );
    let compiled = try_compile_for_sync(&policy).unwrap();
    assert_eq!(compiled.allow_read_prefixes.len(), 2);
    assert_eq!(compiled.allow_write_prefixes.len(), 1);
    assert_eq!(compiled.deny_always_prefixes.len(), 1);
    assert_eq!(compiled.deny_syscalls_rules.len(), 1);
    assert_eq!(&compiled.allow_write_prefixes[0][..5], b"/tmp/");
}

#[test]
fn test_sync_compiler_unsupported_glob() {
    let policy = make_test_policy(vec!["/home/*/projects/**"], vec![], vec![], vec![]);
    let res = try_compile_for_sync(&policy);
    assert!(res.is_err());
    assert_eq!(res.err().unwrap(), SyncCompileError::UnsupportedGlob("/home/*/projects/**".to_string()));
}

#[test]
fn test_sync_compiler_unsupported_syscall() {
    let policy = make_test_policy(vec!["/tmp/"], vec![], vec![], vec![("ptrace", true)]);
    let res = try_compile_for_sync(&policy);
    assert!(res.is_err());
    assert_eq!(res.err().unwrap(), SyncCompileError::UnsupportedGlob("ptrace".to_string()));
}

#[test]
fn sync_compiler_limit_exceeded() {
    let many: Vec<String> = (0..17).map(|i| format!("/dir{}/**", i)).collect();
    let refs: Vec<&str> = many.iter().map(|s| s.as_str()).collect();
    let policy = make_test_policy(refs, vec![], vec![], vec![]);
    assert_eq!(try_compile_for_sync(&policy).err().unwrap(), SyncCompileError::LimitExceeded);
}

#[test]
fn sync_compiler_keeps_order_and_kill_flags() {
    let policy = make_test_policy(
        vec!["**"],
        vec![],
        vec![],
        vec![("execve:/bin/sh", true), ("execve:/usr/bin/nc", false)],
    );
    let c = try_compile_for_sync(&policy).unwrap();
    assert_eq!(&c.allow_read_prefixes[0][..2], b"/\0");
    assert_eq!(&c.deny_syscalls_rules[0].0[..15], b"execve:/bin/sh\0");
    assert!(c.deny_syscalls_rules[0].1);
    assert_eq!(&c.deny_syscalls_rules[1].0[..19], b"execve:/usr/bin/nc\0");
    assert!(!c.deny_syscalls_rules[1].1);
}

#[test]
fn prefixes_of_patterns() {
    assert_eq!(extract_prefix("**"), Ok("/".to_string()));
    assert_eq!(extract_prefix("**/*"), Ok("/".to_string()));
    assert_eq!(extract_prefix("/home/user/**"), Ok("/home/user/".to_string()));
    assert_eq!(extract_prefix("/home/user/*"), Ok("/home/user/".to_string()));
    assert_eq!(extract_prefix("/home/user**"), Ok("/home/user".to_string()));
    assert_eq!(extract_prefix("/home/secret**"), Ok("/home/secret".to_string()));
    assert_eq!(extract_prefix("/home/user/**/"), Ok("/home/user".to_string()));
    assert_eq!(extract_prefix("/etc/hosts"), Ok("/etc/hosts".to_string()));
    assert_eq!(extract_prefix(""), Err(()));
    assert_eq!(extract_prefix("relative/**"), Err(()));
    assert_eq!(extract_prefix("/a/?/b"), Err(()));
    assert_eq!(extract_prefix("/a/[x]"), Err(()));
}

#[test]
fn static_rules() {
    assert!(is_static_security_rule("**/.env"));
    assert!(is_static_security_rule("  .env "));
    assert!(is_static_security_rule("**/.ssh/**"));
    assert!(is_static_security_rule("**/id_rsa*"));
    assert!(is_static_security_rule("**/*.pem"));
    assert!(!is_static_security_rule("**/.envrc"));
}

#[test]
fn entries_are_truncated_and_zero_terminated() {
    let long = "x".repeat(200);
    let b = string_to_bytes_128(&long);
    assert!(b[..127].iter().all(|&c| c == b'x'));
    assert_eq!(b[127], 0);
    let short = string_to_bytes_128("/tmp/");
    assert_eq!(&short[..5], b"/tmp/");
    assert!(short[5..].iter().all(|&c| c == 0));
}

#[test]
fn sync_plan_falls_back_to_reactive_mode() {
    let good = make_test_policy(vec!["/home/user/**"], vec!["/tmp/**"], vec!["/home/secret**"], vec![]);
    match sync_plan(Some("lockdown,capability,bpf"), &good) {
        SyncPlan::Sync(c) => {
            assert_eq!(c.deny_always_prefixes.len(), 1);
            assert_eq!(&c.deny_always_prefixes[0][..13], b"/home/secret\0");
        }
        _ => panic!("expected the synchronous hooks"),
    }
    assert!(matches!(sync_plan(Some("lockdown,capability"), &good), SyncPlan::LsmUnavailable));
    assert!(matches!(sync_plan(None, &good), SyncPlan::LsmUnavailable));
    let bad = make_test_policy(vec!["/home/*/src/**"], vec![], vec![], vec![]);
    match sync_plan(Some("bpf"), &bad) {
        SyncPlan::NotCompilable(SyncCompileError::UnsupportedGlob(g)) => assert_eq!(g, "/home/*/src/**"),
        _ => panic!("expected an unsupported glob"),
    }
}
