//! The enforcer: what happens to an observed event under a policy.
use vstd::prelude::*;

use crate::policy::matcher::{
    any_hit, first_rule_kill, spec_domain_allowed, spec_path_allowed, spec_syscall_denied,
};
use crate::policy::{Mode, Policy, PolicyModel};
use crate::text::{chars_eq, chars_of};

verus! {

/// The kind of access an event reports.
#[derive(Debug, Clone, Copy, PartialEq, Eq, Structural)]
pub enum EventType {
    Read,
    Write,
    Network,
    Syscall,
}

/// What the enforcer did with an event.
#[derive(Debug, Clone, Copy, PartialEq, Eq, Structural)]
pub enum Action {
    Allow,
    Log,
    Kill,
}

/// An access observed in the supervised process.
pub struct Event {
    pub pid: u32,
    pub event_type: EventType,
    /// A path, a domain (or raw IP), or a syscall name such as `execve:/bin/sh`.
    pub target: String,
    /// For network events: whether the target is a name learnt from DNS.
    pub resolved: bool,
}

/// Why the enforcer killed a process.
#[derive(Debug, Clone, Copy, PartialEq, Eq, Structural)]
pub enum KillReason {
    /// The process broke the policy.
    PolicyViolation,
}

/// The enforcer could not carry out a kill.
#[derive(Debug)]
pub enum EnforceError {
    KillFailed { pid: u32, source: std::io::Error },
}

/// Something that terminates a process by its PID.
///
/// A killer may state, through `kill_post`, what holds of what `kill` returns for a
/// PID (by default nothing); the enforcer's contract is stated over it.
pub trait ProcessKiller {
    /// What holds when `kill(pid)` returned `r`.
    open spec fn kill_post(&self, pid: u32, r: Result<(), std::io::Error>) -> bool {
        true
    }

    fn kill(&self, pid: u32) -> (r: Result<(), std::io::Error>)
        ensures
            self.kill_post(pid, r),
    ;
}

/// nix `kill(pid, SIGKILL)` (the PID taken as a signed `pid_t`); the OS error where
/// the call fails. Whether the process was there, and so what comes back, is up to
/// the system: nothing is claimed of the outcome.
#[verifier::external_body]
fn send_sigkill(pid: u32) -> (r: Result<(), std::io::Error>) {
    match nix::sys::signal::kill(
        nix::unistd::Pid::from_raw(pid as i32),
        nix::sys::signal::Signal::SIGKILL,
    ) {
        Ok(()) => Ok(()),
        Err(e) => Err(std::io::Error::from(e)),
    }
}

/// Kills with `SIGKILL`.
pub struct RealKiller;

impl ProcessKiller for RealKiller {
    /// Whether the process could be killed is up to the system: nothing is claimed.
    open spec fn kill_post(&self, pid: u32, r: Result<(), std::io::Error>) -> bool {
        true
    }

    fn kill(&self, pid: u32) -> (r: Result<(), std::io::Error>) {
        send_sigkill(pid)
    }
}

/// Applies a policy to events, killing offenders through its killer.
pub struct Enforcer<K: ProcessKiller = RealKiller> {
    policy: Policy,
    killer: K,
}

/// The target that marks an IPv6 connection, which the cage does not resolve.
pub open spec fn ipv6_marker() -> Seq<char> {
    seq![
        '<',
        'i',
        'p',
        'v',
        '6',
        '-',
        'n',
        'a',
        'o',
        '-',
        's',
        'u',
        'p',
        'o',
        'r',
        't',
        'a',
        'd',
        'o',
        '>',
    ]
}

/// Whether the policy allows the event: file reads and writes by path, network
/// connections by resolved domain (never an IPv6 or unresolved one), syscalls unless a
/// rule denies them.
pub open spec fn spec_event_allowed(
    m: PolicyModel,
    event_type: EventType,
    target: Seq<char>,
    resolved: bool,
) -> bool {
    match event_type {
        EventType::Read => spec_path_allowed(m.deny, m.allow_read, m.allow_write, target, false),
        EventType::Write => spec_path_allowed(m.deny, m.allow_read, m.allow_write, target, true),
        EventType::Network => if target == ipv6_marker() || !resolved {
            false
        } else {
            spec_domain_allowed(m.allow_domains, m.deny_all_else, target)
        },
        EventType::Syscall => !spec_syscall_denied(m.deny_syscalls, target),
    }
}

/// Whether a refused event calls for a kill: only in enforce mode, and for a syscall
/// only where its first matching rule asks for it.
pub open spec fn spec_kill_required(
    m: PolicyModel,
    event_type: EventType,
    target: Seq<char>,
    resolved: bool,
) -> bool {
    &&& !spec_event_allowed(m, event_type, target, resolved)
    &&& m.mode == Mode::Enforce
    &&& (event_type == EventType::Syscall ==> first_rule_kill(m.deny_syscalls, target))
}

/// What a kill attempt on `pid` comes to: `Kill` where the killer succeeded,
/// `KillFailed` for that PID, carrying the killer's own error, where it did not.
pub open spec fn spec_kill_outcome(pid: u32, res: Result<(), std::io::Error>) -> Result<
    Action,
    EnforceError,
> {
    match res {
        Ok(()) => Ok(Action::Kill),
        Err(e) => Err(EnforceError::KillFailed { pid, source: e }),
    }
}

/// Turns what the killer returned for `pid` into the enforcer's result.
pub fn kill_outcome(pid: u32, res: Result<(), std::io::Error>) -> (r: Result<Action, EnforceError>)
    ensures
        r == spec_kill_outcome(pid, res),
{
    match res {
        Ok(()) => Ok(Action::Kill),
        Err(source) => Err(EnforceError::KillFailed { pid, source }),
    }
}

impl Enforcer<RealKiller> {
    /// An enforcer for the policy that kills with `SIGKILL`.
    pub fn new(policy: Policy) -> (r: Self)
        ensures
            r.model() == policy@,
            r.killer() == RealKiller,
    {
        Enforcer { policy, killer: RealKiller }
    }
}

impl<K: ProcessKiller> Enforcer<K> {
    /// The policy the enforcer applies.
    pub closed spec fn model(&self) -> PolicyModel {
        self.policy@
    }

    /// The killer the enforcer kills through.
    pub closed spec fn killer(&self) -> K {
        self.killer
    }

    /// The mode of the policy the enforcer applies.
    pub fn mode(&self) -> (m: Mode)
        ensures
            m == self.model().mode,
    {
        self.policy.mode()
    }

    /// An enforcer for the policy that kills through the given killer.
    pub fn with_killer(policy: Policy, killer: K) -> (r: Self)
        ensures
            r.model() == policy@,
            r.killer() == killer,
    {
        Enforcer { policy, killer }
    }

    /// Whether the policy allows the event.
    fn event_allowed(&self, event: &Event) -> (r: bool)
        ensures
            r == spec_event_allowed(self.model(), event.event_type, event.target@, event.resolved),
    {
        match event.event_type {
            EventType::Read => self.policy.path_allowed(event.target.as_str(), false),
            EventType::Write => self.policy.path_allowed(event.target.as_str(), true),
            EventType::Network => {
                let t = chars_of(event.target.as_str());
                let marker = vec![
                    '<',
                    'i',
                    'p',
                    'v',
                    '6',
                    '-',
                    'n',
                    'a',
                    'o',
                    '-',
                    's',
                    'u',
                    'p',
                    'o',
                    'r',
                    't',
                    'a',
                    'd',
                    'o',
                    '>',
                ];
                assert(marker@ =~= ipv6_marker());
                if chars_eq(t.as_slice(), marker.as_slice()) || !event.resolved {
                    false
                } else {
                    self.policy.domain_allowed(event.target.as_str())
                }
            },
            EventType::Syscall => !self.policy.syscall_denied(event.target.as_str()),
        }
    }

    /// The process to kill for an event: its PID exactly where the policy calls for a
    /// kill, none otherwise.
    pub fn kill_target(&self, event: &Event) -> (r: Option<u32>)
        ensures
            r == (if spec_kill_required(
                self.model(),
                event.event_type,
                event.target@,
                event.resolved,
            ) {
                Some(event.pid)
            } else {
                None::<u32>
            }),
    {
        if self.event_allowed(event) {
            return None;
        }
        let mut should_kill = true;
        if event.event_type == EventType::Syscall {
            should_kill = self.policy.should_kill_on_syscall_deny(event.target.as_str());
        }
        if self.policy.mode() == Mode::Enforce && should_kill {
            Some(event.pid)
        } else {
            None
        }
    }

    /// Decides on one event.
    ///
    /// An allowed event gives `Allow`. A refused one gives `Log` in monitor mode, or for
    /// a syscall whose rule does not ask for a kill; otherwise the killer is called on
    /// the event's PID, and the result is `Kill` if it succeeded, `KillFailed` for that
    /// PID with the killer's error if it failed.
    pub fn enforce(&self, event: &Event) -> (r: Result<Action, EnforceError>)
        ensures
            spec_event_allowed(self.model(), event.event_type, event.target@, event.resolved)
                ==> r matches Ok(Action::Allow),
            !spec_event_allowed(self.model(), event.event_type, event.target@, event.resolved)
                && !spec_kill_required(
                self.model(),
                event.event_type,
                event.target@,
                event.resolved,
            ) ==> r matches Ok(Action::Log),
            spec_kill_required(self.model(), event.event_type, event.target@, event.resolved)
                ==> exists|res: Result<(), std::io::Error>|
                #![trigger spec_kill_outcome(event.pid, res)]
                self.killer().kill_post(event.pid, res) && r == spec_kill_outcome(event.pid, res),
    {
        if self.event_allowed(event) {
            return Ok(Action::Allow);
        }
        match self.kill_target(event) {
            Some(pid) => {
                let res = self.killer.kill(pid);
                let r = kill_outcome(pid, res);
                assert(self.killer().kill_post(event.pid, res) && r == spec_kill_outcome(event.pid, res));
                r
            },
            None => Ok(Action::Log),
        }
    }
}

/// The word for an event type in log lines.
pub open spec fn event_word(t: EventType) -> Seq<char> {
    match t {
        EventType::Read => "read"@,
        EventType::Write => "write"@,
        EventType::Network => "network"@,
        EventType::Syscall => "syscall"@,
    }
}

/// The word for an event type in log lines.
pub fn event_type_word(t: EventType) -> (r: &'static str)
    ensures
        r@ == event_word(t),
{
    match t {
        EventType::Read => "read",
        EventType::Write => "write",
        EventType::Network => "network",
        EventType::Syscall => "syscall",
    }
}

/// How a decision is written to the log: level, component, message and action.
pub struct DecisionNote {
    pub level: &'static str,
    pub component: &'static str,
    pub message: &'static str,
    pub action: &'static str,
}

/// The log line of a decision, as plain texts.
pub open spec fn note_of(outcome: Result<Action, EnforceError>, mode: Mode) -> (
    Seq<char>,
    Seq<char>,
    Seq<char>,
) {
    match outcome {
        Ok(Action::Allow) => ("info"@, "event allowed by policy"@, "allow"@),
        Ok(Action::Kill) => ("warn"@, "violation detected, process killed"@, "kill"@),
        Ok(Action::Log) => (
            "warn"@,
            if mode == Mode::Enforce {
                "violation detected, allowed without kill (kill_on_deny is false)"@
            } else {
                "violation detected, allowed (monitor mode)"@
            },
            "log"@,
        ),
        Err(_) => ("fatal"@, "violation detected but failed to kill process"@, "kill_failed"@),
    }
}

/// How the enforcer's decision on an event is logged (component `enforcer`): allowed
/// events at `info`, kills and tolerated violations at `warn`, a failed kill at
/// `fatal`.
pub fn decision_note(outcome: &Result<Action, EnforceError>, mode: Mode) -> (n: DecisionNote)
    ensures
        n.component@ == "enforcer"@,
        (n.level@, n.message@, n.action@) == note_of(*outcome, mode),
{
    match outcome {
        Ok(Action::Allow) => DecisionNote {
            level: "info",
            component: "enforcer",
            message: "event allowed by policy",
            action: "allow",
        },
        Ok(Action::Kill) => DecisionNote {
            level: "warn",
            component: "enforcer",
            message: "violation detected, process killed",
            action: "kill",
        },
        Ok(Action::Log) => DecisionNote {
            level: "warn",
            component: "enforcer",
            message: match mode {
                Mode::Enforce => "violation detected, allowed without kill (kill_on_deny is false)",
                Mode::Monitor => "violation detected, allowed (monitor mode)",
            },
            action: "log",
        },
        Err(_) => DecisionNote {
            level: "fatal",
            component: "enforcer",
            message: "violation detected but failed to kill process",
            action: "kill_failed",
        },
    }
}

/// Monitor mode never kills: every refused event there is only logged.
pub proof fn law_monitor_never_kills(
    m: PolicyModel,
    event_type: EventType,
    target: Seq<char>,
    resolved: bool,
)
    requires
        m.mode == Mode::Monitor,
    ensures
        !spec_kill_required(m, event_type, target, resolved),
{
}

/// An event the policy allows is never a reason to kill.
pub proof fn law_allowed_never_killed(
    m: PolicyModel,
    event_type: EventType,
    target: Seq<char>,
    resolved: bool,
)
    requires
        spec_event_allowed(m, event_type, target, resolved),
    ensures
        !spec_kill_required(m, event_type, target, resolved),
{
}

/// Zero trust on the network: an IPv6 connection or one whose domain was never resolved
/// is refused whatever domains the policy lists.
pub proof fn law_unresolved_network_refused(m: PolicyModel, target: Seq<char>, resolved: bool)
    requires
        target == ipv6_marker() || !resolved,
    ensures
        !spec_event_allowed(m, EventType::Network, target, resolved),
{
}

/// In enforce mode, a file access that a `deny_always` pattern matches kills the
/// process, even where an allow pattern matches it too.
pub proof fn law_deny_always_access_kills(
    m: PolicyModel,
    event_type: EventType,
    target: Seq<char>,
    resolved: bool,
)
    requires
        m.mode == Mode::Enforce,
        event_type == EventType::Read || event_type == EventType::Write,
        any_hit(m.deny, target),
    ensures
        spec_kill_required(m, event_type, target, resolved),
{
}

/// A dry run never kills, whatever mode the policy file asked for, and it judges every
/// event exactly as the policy does.
pub proof fn law_dry_run_never_kills(
    m: PolicyModel,
    event_type: EventType,
    target: Seq<char>,
    resolved: bool,
)
    ensures
        !spec_kill_required(
            (PolicyModel { mode: Mode::Monitor, ..m }),
            event_type,
            target,
            resolved,
        ),
        spec_event_allowed((PolicyModel { mode: Mode::Monitor, ..m }), event_type, target, resolved)
            == spec_event_allowed(m, event_type, target, resolved),
{
}

} // verus!
