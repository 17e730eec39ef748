use std::sync::atomic::{AtomicBool, AtomicU32, Ordering};
use std::sync::Arc;

use syscallcage::enforcer::{
    decision_note, event_type_word, kill_outcome, Action, EnforceError, Enforcer, Event, EventType, ProcessKiller,
};
use syscallcage::policy::{
    Mode, Policy, RawFilesystem, RawNetwork, RawPolicy, RawSyscalls, SyscallDenyRule,
};

#[derive(Clone)]
struct MockKiller {
    killed: Arc<AtomicBool>,
    kill_pid: Arc<AtomicU32>,
    should_fail: bool,
}

impl ProcessKiller for MockKiller {
    fn kill(&self, pid: u32) -> std::io::Result<()> {
        if self.should_fail {
            return Err(std::io::Error::new(std::io::ErrorKind::PermissionDenied, "mock permission denied"));
        }
        self.killed.store(true, Ordering::SeqCst);
        self.kill_pid.store(pid, Ordering::SeqCst);
        Ok(())
    }
}

fn mock(should_fail: bool) -> MockKiller {
    MockKiller {
        killed: Arc::new(AtomicBool::new(false)),
        kill_pid: Arc::new(AtomicU32::new(0)),
        should_fail,
    }
}

fn test_policy(mode: Mode) -> Policy {
    Policy::from_raw(RawPolicy {
        mode: if mode == Mode::Enforce { "enforce" } else { "monitor" }.to_string(),
        filesystem: RawFilesystem {
            allow_read: vec!["/home/user/projects/**".to_string()],
            allow_write: vec!["/home/user/projects/**".to_string()],
            deny_always: vec!["**/.env".to_string()],
        },
        network: RawNetwork { allow_domains: vec!["api.anthropic.com".to_string()], deny_all_else: true },
        syscalls: RawSyscalls {
            deny: vec![SyscallDenyRule::Structured { pattern: "ptrace".to_string(), kill_on_deny: true }],
        },
    })
    .unwrap()
}

fn event(event_type: EventType, target: &str, resolved: bool) -> Event {
    Event { pid: 1234, event_type, target: target.to_string(), resolved }
}

#[test]
fn test_enforcer_allow_read() {
    let killer = mock(false);
    let enforcer = Enforcer::with_killer(test_policy(Mode::Enforce), killer.clone());
    let action = enforcer.enforce(&event(EventType::Read, "/home/user/projects/main.rs", false)).unwrap();
    assert_eq!(action, Action::Allow);
    assert!(!killer.killed.load(Ordering::SeqCst));
}

#[test]
fn test_enforcer_deny_enforce() {
    let killer = mock(false);
    let enforcer = Enforcer::with_killer(test_policy(Mode::Enforce), killer.clone());
    let action = enforcer.enforce(&event(EventType::Read, "/home/user/projects/app/.env", false)).unwrap();
    assert_eq!(action, Action::Kill);
    assert!(killer.killed.load(Ordering::SeqCst));
    assert_eq!(killer.kill_pid.load(Ordering::SeqCst), 1234);
}

#[test]
fn test_enforcer_deny_monitor() {
    let killer = mock(false);
    let enforcer = Enforcer::with_killer(test_policy(Mode::Monitor), killer.clone());
    let action = enforcer.enforce(&event(EventType::Read, "/home/user/projects/app/.env", false)).unwrap();
    assert_eq!(action, Action::Log);
    assert!(!killer.killed.load(Ordering::SeqCst));
}

#[test]
fn test_enforcer_kill_error() {
    let killer = mock(true);
    let enforcer = Enforcer::with_killer(test_policy(Mode::Enforce), killer);
    let result = enforcer.enforce(&event(EventType::Read, "/home/user/projects/app/.env", false));
    assert!(result.is_err());
    match result.err().unwrap() {
        EnforceError::KillFailed { pid, source } => {
            assert_eq!(pid, 1234);
            assert_eq!(source.kind(), std::io::ErrorKind::PermissionDenied);
        }
    }
}

#[test]
fn test_enforcer_ipv6_unsupported() {
    let killer = mock(false);
    let enforcer = Enforcer::with_killer(test_policy(Mode::Enforce), killer.clone());
    let action = enforcer.enforce(&event(EventType::Network, "<ipv6-nao-suportado>", true)).unwrap();
    assert_eq!(action, Action::Kill);
    assert!(killer.killed.load(Ordering::SeqCst));
}

#[test]
fn test_enforcer_network_unresolved() {
    let killer = mock(false);
    let enforcer = Enforcer::with_killer(test_policy(Mode::Enforce), killer.clone());
    let action = enforcer.enforce(&event(EventType::Network, "api.anthropic.com", false)).unwrap();
    assert_eq!(action, Action::Kill);
    assert!(killer.killed.load(Ordering::SeqCst));
}

#[test]
fn test_enforcer_network_allowed() {
    let killer = mock(false);
    let enforcer = Enforcer::with_killer(test_policy(Mode::Enforce), killer.clone());
    let action = enforcer.enforce(&event(EventType::Network, "api.anthropic.com", true)).unwrap();
    assert_eq!(action, Action::Allow);
    assert!(!killer.killed.load(Ordering::SeqCst));
}

#[test]
fn test_enforcer_syscall_denied() {
    let killer = mock(false);
    let enforcer = Enforcer::with_killer(test_policy(Mode::Enforce), killer.clone());
    let action = enforcer.enforce(&event(EventType::Syscall, "ptrace", false)).unwrap();
    assert_eq!(action, Action::Kill);
    assert!(killer.killed.load(Ordering::SeqCst));
}

#[test]
fn test_enforcer_syscall_allowed() {
    let killer = mock(false);
    let enforcer = Enforcer::with_killer(test_policy(Mode::Enforce), killer.clone());
    let action = enforcer.enforce(&event(EventType::Syscall, "openat", false)).unwrap();
    assert_eq!(action, Action::Allow);
    assert!(!killer.killed.load(Ordering::SeqCst));
}

#[test]
fn test_enforcer_syscall_denied_no_kill() {
    let policy = Policy::from_raw(RawPolicy {
        mode: "enforce".to_string(),
        filesystem: RawFilesystem { allow_read: vec!["**".to_string()], ..Default::default() },
        network: RawNetwork::default(),
        syscalls: RawSyscalls { deny: vec![SyscallDenyRule::Simple("ptrace".to_string())] },
    })
    .unwrap();
    let killer = mock(false);
    let enforcer = Enforcer::with_killer(policy, killer.clone());
    let action = enforcer.enforce(&event(EventType::Syscall, "ptrace", false)).unwrap();
    assert_eq!(action, Action::Log);
    assert!(!killer.killed.load(Ordering::SeqCst));
}

#[test]
fn monitor_mode_only_logs_every_refusal() {
    let killer = mock(false);
    let enforcer = Enforcer::with_killer(test_policy(Mode::Monitor), killer.clone());
    let refused = [
        event(EventType::Write, "/etc/passwd", false),
        event(EventType::Network, "google.com", true),
        event(EventType::Network, "<ipv6-nao-suportado>", true),
        event(EventType::Syscall, "ptrace", false),
    ];
    for e in refused.iter() {
        assert_eq!(enforcer.enforce(e).unwrap(), Action::Log);
    }
    assert!(!killer.killed.load(Ordering::SeqCst));
}

#[test]
fn write_outside_allow_list_kills_in_enforce_mode() {
    let killer = mock(false);
    let enforcer = Enforcer::with_killer(test_policy(Mode::Enforce), killer.clone());
    assert_eq!(enforcer.enforce(&event(EventType::Write, "/etc/passwd", false)).unwrap(), Action::Kill);
    assert_eq!(
        enforcer.enforce(&event(EventType::Write, "/home/user/projects/out.txt", false)).unwrap(),
        Action::Allow
    );
}

#[test]
fn real_killer_reports_missing_process() {
    // A PID far above any kernel's pid_max names no process: kill reports an error.
    let enforcer = Enforcer::new(test_policy(Mode::Enforce));
    let e = Event { pid: 0x3FFF_FFF0, event_type: EventType::Read, target: "/etc/shadow".to_string(), resolved: false };
    assert!(enforcer.enforce(&e).is_err());
}

#[test]
fn dry_run_logs_instead_of_killing() {
    let mut policy = test_policy(Mode::Enforce);
    policy.force_dry_run();
    let killer = mock(false);
    let enforcer = Enforcer::with_killer(policy, killer.clone());
    assert_eq!(
        enforcer.enforce(&event(EventType::Read, "/home/user/projects/app/.env", false)).unwrap(),
        Action::Log
    );
    assert_eq!(enforcer.enforce(&event(EventType::Read, "/home/user/projects/main.rs", false)).unwrap(), Action::Allow);
    assert!(!killer.killed.load(Ordering::SeqCst));
}

#[test]
fn decisions_are_noted_for_the_log() {
    let allow: Result<Action, EnforceError> = Ok(Action::Allow);
    let n = decision_note(&allow, Mode::Enforce);
    assert_eq!((n.level, n.component, n.message, n.action), ("info", "enforcer", "event allowed by policy", "allow"));
    let kill: Result<Action, EnforceError> = Ok(Action::Kill);
    assert_eq!(decision_note(&kill, Mode::Enforce).action, "kill");
    let log: Result<Action, EnforceError> = Ok(Action::Log);
    assert_eq!(
        decision_note(&log, Mode::Enforce).message,
        "violation detected, allowed without kill (kill_on_deny is false)"
    );
    assert_eq!(decision_note(&log, Mode::Monitor).message, "violation detected, allowed (monitor mode)");
    let failed: Result<Action, EnforceError> = Err(EnforceError::KillFailed {
        pid: 1,
        source: std::io::Error::new(std::io::ErrorKind::Other, "x"),
    });
    let n = decision_note(&failed, Mode::Enforce);
    assert_eq!((n.level, n.action), ("fatal", "kill_failed"));
    assert_eq!(event_type_word(EventType::Network), "network");
    let enforcer = Enforcer::with_killer(test_policy(Mode::Monitor), mock(false));
    assert_eq!(enforcer.mode(), Mode::Monitor);
}

#[test]
fn kill_target_names_the_event_pid_only_when_a_kill_is_due() {
    let enforce = Enforcer::with_killer(test_policy(Mode::Enforce), mock(false));
    let monitor = Enforcer::with_killer(test_policy(Mode::Monitor), mock(false));
    let denied = Event { pid: 77, event_type: EventType::Read, target: "/home/user/projects/app/.env".to_string(), resolved: false };
    let allowed = Event { pid: 77, event_type: EventType::Read, target: "/home/user/projects/main.rs".to_string(), resolved: false };
    assert_eq!(enforce.kill_target(&denied), Some(77));
    assert_eq!(enforce.kill_target(&allowed), None);
    assert_eq!(monitor.kill_target(&denied), None);
}

#[test]
fn kill_outcome_follows_the_killer() {
    assert_eq!(kill_outcome(5, Ok(())).unwrap(), Action::Kill);
    let err = std::io::Error::new(std::io::ErrorKind::PermissionDenied, "denied");
    match kill_outcome(5, Err(err)) {
        Err(EnforceError::KillFailed { pid, source }) => {
            assert_eq!(pid, 5);
            assert_eq!(source.kind(), std::io::ErrorKind::PermissionDenied);
        }
        Ok(_) => panic!("a failed kill must be reported"),
    }
}
