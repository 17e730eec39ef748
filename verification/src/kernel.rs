//! The decisions of the kernel-side hooks, on the fixed-size buffers they work with.
//!
//! Paths come as 256 zero-padded bytes (as `bpf_d_path` writes them); table entries
//! as 128 zero-padded bytes (see `policy_sync_compiler`). A hook answers a file open
//! or an execution with a verdict, and sorts outgoing connections.
use vstd::prelude::*;

pub use crate::monitor::events::BpfEvent;

verus! {

/// An execution rule as the kernel table holds it: `execve:` and a path prefix, and
/// 1 where a match kills the process.
#[derive(Clone, Copy)]
pub struct SyscallRule {
    pub pattern: [u8; 128],
    pub kill_on_deny: u32,
}

/// The bytes of `prefix` before its first zero (all 128 where there is none) are
/// the first bytes of `path`.
pub open spec fn prefix_matches(path: Seq<u8>, prefix: Seq<u8>) -> bool {
    forall|i: int|
        0 <= i < 128 && (forall|j: int| 0 <= j <= i ==> prefix[j] != 0) ==> #[trigger] path[i]
            == prefix[i]
}

/// Whether the path begins with the (zero-terminated) prefix.
pub fn starts_with(path: &[u8; 256], prefix: &[u8; 128]) -> (r: bool)
    ensures
        r == prefix_matches(path@, prefix@),
{
    let mut i: usize = 0;
    while i < 128
        invariant
            i <= 128,
            path@.len() == 256,
            prefix@.len() == 128,
            forall|k: int| 0 <= k < i ==> prefix@[k] != 0,
            forall|k: int| 0 <= k < i ==> #[trigger] path@[k] == prefix@[k],
        decreases 128 - i,
    {
        let p = prefix[i];
        if p == 0 {
            assert(prefix_matches(path@, prefix@)) by {
                assert forall|m: int|
                    0 <= m < 128 && (forall|j: int| 0 <= j <= m ==> prefix@[j] != 0) implies #[trigger] path@[m]
                    == prefix@[m] by {
                    if m >= i {
                        assert(prefix@[i as int] != 0);
                    }
                }
            }
            return true;
        }
        if path[i] != p {
            assert(!prefix_matches(path@, prefix@)) by {
                assert(forall|j: int| 0 <= j <= i ==> prefix@[j] != 0);
                assert(path@[i as int] != prefix@[i as int]);
            }
            return false;
        }
        i = i + 1;
    }
    true
}

/// The piece at `i` starts the path or follows a `/`.
pub open spec fn starts_piece(p: Seq<u8>, i: int) -> bool {
    i == 0 || p[i - 1] == 47
}

/// The byte at `k` ends a piece: the end of the path or a `/`.
pub open spec fn ends_piece(p: Seq<u8>, k: int) -> bool {
    p[k] == 0 || p[k] == 47
}

/// A sensitive name begins at `i`: a whole `.env` or `.ssh` piece, a piece that
/// begins with `id_rsa` (such as `id_rsa.pub`), or a `.pem` ending.
///
/// The `id_rsa` case follows the documented deny pattern `**/id_rsa*`, which the
/// synchronous compiler leaves to the hook. The kernel object that the command loads
/// (built apart from this crate) checks only a whole `id_rsa` piece, so it does not
/// protect `id_rsa.pub`; this model states what the hook is meant to decide.
pub open spec fn sensitive_at(p: Seq<u8>, i: int) -> bool {
    ||| p[i] == 46 && p[i + 1] == 101 && p[i + 2] == 110 && p[i + 3] == 118 && starts_piece(p, i)
        && ends_piece(p, i + 4)
    ||| p[i] == 46 && p[i + 1] == 115 && p[i + 2] == 115 && p[i + 3] == 104 && starts_piece(p, i)
        && ends_piece(p, i + 4)
    ||| p[i] == 105 && p[i + 1] == 100 && p[i + 2] == 95 && p[i + 3] == 114 && p[i + 4] == 115
        && p[i + 5] == 97 && starts_piece(p, i)
    ||| p[i] == 46 && p[i + 1] == 112 && p[i + 2] == 101 && p[i + 3] == 109 && p[i + 4] == 0
}

/// The path (read up to its end, within its first 240 bytes) names a sensitive file.
pub open spec fn kernel_sensitive(p: Seq<u8>) -> bool {
    exists|i: int|
        0 <= i < 240 && (forall|j: int| 0 <= j <= i ==> p[j] != 0) && #[trigger] sensitive_at(p, i)
}

fn sensitive_here(path: &[u8; 256], i: usize) -> (r: bool)
    requires
        i < 240,
    ensures
        r == sensitive_at(path@, i as int),
{
    let b = path[i];
    let start = i == 0 || path[i - 1] == 47;
    if b == 46 && path[i + 1] == 101 && path[i + 2] == 110 && path[i + 3] == 118 {
        if start && (path[i + 4] == 0 || path[i + 4] == 47) {
            return true;
        }
    }
    if b == 46 && path[i + 1] == 115 && path[i + 2] == 115 && path[i + 3] == 104 {
        if start && (path[i + 4] == 0 || path[i + 4] == 47) {
            return true;
        }
    }
    if b == 105 && path[i + 1] == 100 && path[i + 2] == 95 && path[i + 3] == 114 && path[i
        + 4] == 115 && path[i + 5] == 97 {
        if start {
            return true;
        }
    }
    if b == 46 && path[i + 1] == 112 && path[i + 2] == 101 && path[i + 3] == 109 {
        if path[i + 4] == 0 {
            return true;
        }
    }
    false
}

/// Whether the path names a file the hook always protects: a `.env` or `.ssh` piece,
/// a piece beginning with `id_rsa`, or a name ending in `.pem`. Only the first 240 bytes are read,
/// so that looking a few bytes ahead stays within the buffer.
pub fn is_sensitive_path(path: &[u8; 256]) -> (r: bool)
    ensures
        r == kernel_sensitive(path@),
{
    let mut i: usize = 0;
    while i < 240
        invariant
            i <= 240,
            forall|k: int| 0 <= k < i ==> path@[k] != 0,
            forall|k: int| 0 <= k < i ==> !#[trigger] sensitive_at(path@, k),
        decreases 240 - i,
    {
        if path[i] == 0 {
            assert(!kernel_sensitive(path@)) by {
                assert forall|k: int|
                    0 <= k < 240 && (forall|j: int| 0 <= j <= k ==> path@[j] != 0) implies !#[trigger] sensitive_at(
                    path@,
                    k,
                ) by {
                    if k >= i {
                        assert(path@[i as int] != 0);
                    }
                }
            }
            return false;
        }
        if sensitive_here(path, i) {
            assert(forall|j: int| 0 <= j <= i ==> path@[j] != 0);
            return true;
        }
        i = i + 1;
    }
    false
}

/// What a hook does with an access.
#[derive(Debug, Clone, Copy, PartialEq, Eq, Structural)]
pub enum Verdict {
    /// Let it through.
    Allow,
    /// Refuse it (`-EACCES`).
    Deny,
    /// Let it through, and report it to user space (monitor mode).
    Report,
}

/// A refusal: `Deny` in enforce mode, `Report` in monitor mode.
pub open spec fn refuse(enforce: bool) -> Verdict {
    if enforce {
        Verdict::Deny
    } else {
        Verdict::Report
    }
}

/// The table slot is filled with a prefix of the path.
pub open spec fn slot_hit(path: Seq<u8>, slot: Option<[u8; 128]>) -> bool {
    match slot {
        Some(p) => p@[0] != 0 && prefix_matches(path, p@),
        None => false,
    }
}

/// Some filled slot of the table holds a prefix of the path.
pub open spec fn table_hit(path: Seq<u8>, table: Seq<Option<[u8; 128]>>) -> bool {
    exists|k: int| 0 <= k < table.len() && #[trigger] slot_hit(path, table[k])
}

/// The verdict on opening a file (the `file_open` hook): a path that could not be
/// resolved is refused outright; a sensitive path, or one a `deny_always` prefix
/// holds, is refused; one an allow prefix for the access holds is allowed; any other
/// is refused.
pub open spec fn file_open_verdict(
    resolved: bool,
    path: Seq<u8>,
    is_write: bool,
    enforce: bool,
    deny: Seq<Option<[u8; 128]>>,
    allow_read: Seq<Option<[u8; 128]>>,
    allow_write: Seq<Option<[u8; 128]>>,
) -> Verdict {
    if !resolved {
        Verdict::Deny
    } else if kernel_sensitive(path) || table_hit(path, deny) {
        refuse(enforce)
    } else if table_hit(path, if is_write { allow_write } else { allow_read }) {
        Verdict::Allow
    } else {
        refuse(enforce)
    }
}

fn table_holds(path: &[u8; 256], table: &Vec<Option<[u8; 128]>>) -> (r: bool)
    ensures
        r == table_hit(path@, table@),
{
    let mut k: usize = 0;
    while k < table.len()
        invariant
            k <= table.len(),
            forall|m: int| 0 <= m < k ==> !#[trigger] slot_hit(path@, table@[m]),
        decreases table.len() - k,
    {
        match &table[k] {
            Some(p) => {
                if p[0] != 0 && starts_with(path, p) {
                    assert(slot_hit(path@, table@[k as int]));
                    return true;
                }
            },
            None => {},
        }
        k = k + 1;
    }
    false
}

/// Decides on a file open.
pub fn decide_file_open(
    resolved: bool,
    path: &[u8; 256],
    is_write: bool,
    enforce: bool,
    deny: &Vec<Option<[u8; 128]>>,
    allow_read: &Vec<Option<[u8; 128]>>,
    allow_write: &Vec<Option<[u8; 128]>>,
) -> (v: Verdict)
    ensures
        v == file_open_verdict(
            resolved,
            path@,
            is_write,
            enforce,
            deny@,
            allow_read@,
            allow_write@,
        ),
{
    let refusal = if enforce {
        Verdict::Deny
    } else {
        Verdict::Report
    };
    if !resolved {
        return Verdict::Deny;
    }
    if is_sensitive_path(path) || table_holds(path, deny) {
        return refusal;
    }
    let allowed = if is_write {
        table_holds(path, allow_write)
    } else {
        table_holds(path, allow_read)
    };
    if allowed {
        Verdict::Allow
    } else {
        refusal
    }
}

/// `execve:` in bytes.
pub open spec fn is_exec_rule(pattern: Seq<u8>) -> bool {
    pattern[0] == 101 && pattern[1] == 120 && pattern[2] == 101 && pattern[3] == 99
        && pattern[4] == 118 && pattern[5] == 101 && pattern[6] == 58
}

/// The path part of an execution rule: the bytes after `execve:` (at most 120),
/// padded with zeros.
pub open spec fn exec_path_of(pattern: Seq<u8>) -> Seq<u8> {
    Seq::new(128, |j: int| if j < 120 { pattern[j + 7] } else { 0u8 })
}

/// The rule applies to the executed path.
pub open spec fn rule_hits(path: Seq<u8>, r: SyscallRule) -> bool {
    r.pattern@[0] != 0 && is_exec_rule(r.pattern@) && prefix_matches(path, exec_path_of(r.pattern@))
}

/// The slot holds a rule that applies.
pub open spec fn slot_rule_hit(path: Seq<u8>, slot: Option<SyscallRule>) -> bool {
    match slot {
        Some(r) => rule_hits(path, r),
        None => false,
    }
}

/// The first rule (by slot) that applies.
pub open spec fn first_exec_hit(path: Seq<u8>, rules: Seq<Option<SyscallRule>>) -> Option<int> {
    if exists|k: int| 0 <= k < rules.len() && #[trigger] slot_rule_hit(path, rules[k]) {
        Some(
            choose|k: int|
                0 <= k < rules.len() && #[trigger] slot_rule_hit(path, rules[k]) && forall|m: int|
                    0 <= m < k ==> !#[trigger] slot_rule_hit(path, rules[m]),
        )
    } else {
        None
    }
}

proof fn lemma_first_exec_hit(path: Seq<u8>, rules: Seq<Option<SyscallRule>>, k: int)
    requires
        0 <= k < rules.len(),
        slot_rule_hit(path, rules[k]),
        forall|m: int| 0 <= m < k ==> !#[trigger] slot_rule_hit(path, rules[m]),
    ensures
        first_exec_hit(path, rules) == Some(k),
{
    let c = choose|c: int|
        0 <= c < rules.len() && #[trigger] slot_rule_hit(path, rules[c]) && forall|m: int|
            0 <= m < c ==> !#[trigger] slot_rule_hit(path, rules[m]);
    if c < k {
        assert(!slot_rule_hit(path, rules[c]));
    } else if c > k {
        assert(!slot_rule_hit(path, rules[k]));
    }
}

/// What the execution hook does.
#[derive(Debug, Clone, Copy, PartialEq, Eq, Structural)]
pub enum ExecVerdict {
    Allow,
    /// Refuse the execution, killing the process where the rule asks for it.
    Deny { kill: bool },
    /// Let it run and report it (monitor mode).
    Report,
}

/// The verdict on an execution (the `bprm_check_security` hook): a path that could
/// not be resolved is refused; the first execution rule whose path is a prefix of the
/// executed one refuses it (killing where the rule says 1) in enforce mode, or reports
/// it in monitor mode; with no such rule it runs.
pub open spec fn exec_verdict(
    resolved: bool,
    path: Seq<u8>,
    enforce: bool,
    rules: Seq<Option<SyscallRule>>,
) -> ExecVerdict {
    if !resolved {
        ExecVerdict::Deny { kill: false }
    } else {
        match first_exec_hit(path, rules) {
            Some(k) => if enforce {
                ExecVerdict::Deny { kill: rules[k]->0.kill_on_deny == 1 }
            } else {
                ExecVerdict::Report
            },
            None => ExecVerdict::Allow,
        }
    }
}

fn exec_path(pattern: &[u8; 128]) -> (r: [u8; 128])
    ensures
        r@ == exec_path_of(pattern@),
{
    let mut out: [u8; 128] = [0u8; 128];
    let mut j: usize = 0;
    while j < 120
        invariant
            j <= 120,
            out@.len() == 128,
            pattern@.len() == 128,
            forall|m: int| 0 <= m < j ==> out@[m] == pattern@[m + 7],
            forall|m: int| j <= m < 128 ==> out@[m] == 0,
        decreases 120 - j,
    {
        out[j] = pattern[j + 7];
        j = j + 1;
    }
    assert(out@ =~= exec_path_of(pattern@));
    out
}

/// Decides on an execution.
pub fn decide_exec(
    resolved: bool,
    path: &[u8; 256],
    enforce: bool,
    rules: &Vec<Option<SyscallRule>>,
) -> (v: ExecVerdict)
    ensures
        v == exec_verdict(resolved, path@, enforce, rules@),
{
    if !resolved {
        return ExecVerdict::Deny { kill: false };
    }
    let mut k: usize = 0;
    while k < rules.len()
        invariant
            k <= rules.len(),
            resolved,
            forall|m: int| 0 <= m < k ==> !#[trigger] slot_rule_hit(path@, rules@[m]),
        decreases rules.len() - k,
    {
        match &rules[k] {
            Some(rule) => {
                let p = &rule.pattern;
                if p[0] != 0 && p[0] == 101 && p[1] == 120 && p[2] == 101 && p[3] == 99 && p[4]
                    == 118 && p[5] == 101 && p[6] == 58 {
                    let tail = exec_path(p);
                    if starts_with(path, &tail) {
                        proof {
                            assert(rules@[k as int] == Some(*rule));
                            assert(rule_hits(path@, *rule));
                            lemma_first_exec_hit(path@, rules@, k as int);
                        }
                        if enforce {
                            return ExecVerdict::Deny { kill: rule.kill_on_deny == 1 };
                        } else {
                            return ExecVerdict::Report;
                        }
                    }
                }
            },
            None => {},
        }
        k = k + 1;
    }
    ExecVerdict::Allow
}

/// What the connection hook does with a `connect` call.
#[derive(Debug, Clone, Copy, PartialEq, Eq, Structural)]
pub enum ConnectAction {
    /// Nothing to report: a local socket, another family, or a loopback or link-local
    /// address.
    Ignore,
    /// A connection to port 53: the socket is remembered as a DNS socket.
    MarkDnsSocket,
    /// An IPv6 connection, which is reported as unsupported.
    ReportIpv6,
    /// An IPv4 connection to the address (big-endian order), to be reported.
    ReportIpv4(u32),
}

/// The big-endian port of a socket address.
pub open spec fn port_of(sa: Seq<u8>) -> int {
    sa[2] * 256 + sa[3]
}

/// Sorts a connection by its address family and socket address (28 bytes for IPv6,
/// 16 for IPv4; both as far as the hook reads them).
pub open spec fn connect_action(family: u16, sa: Seq<u8>) -> ConnectAction {
    if family == 10 {
        if port_of(sa) == 53 {
            ConnectAction::MarkDnsSocket
        } else if (forall|k: int| 8 <= k < 23 ==> sa[k] == 0) && sa[23] == 1 {
            ConnectAction::Ignore
        } else if sa[8] == 0xfe && (sa[9] & 0xc0) == 0x80 {
            ConnectAction::Ignore
        } else {
            ConnectAction::ReportIpv6
        }
    } else if family != 2 {
        ConnectAction::Ignore
    } else if port_of(sa) == 53 {
        ConnectAction::MarkDnsSocket
    } else if sa[4] == 127 {
        ConnectAction::Ignore
    } else {
        ConnectAction::ReportIpv4(
            (sa[4] * 0x1000000 + sa[5] * 0x10000 + sa[6] * 0x100 + sa[7]) as u32,
        )
    }
}

/// Sorts a connection.
pub fn classify_connect(family: u16, sa: &[u8]) -> (r: ConnectAction)
    requires
        family == 10 ==> sa.len() >= 28,
        family == 2 ==> sa.len() >= 16,
    ensures
        r == connect_action(family, sa@),
{
    if family == 10 {
        let port: u32 = (sa[2] as u32) * 256 + (sa[3] as u32);
        if port == 53 {
            return ConnectAction::MarkDnsSocket;
        }
        let mut zeros = true;
        let mut k: usize = 8;
        while k < 23
            invariant
                8 <= k <= 23,
                sa.len() >= 28,
                zeros == (forall|m: int| 8 <= m < k ==> sa@[m] == 0),
            decreases 23 - k,
        {
            if sa[k] != 0 {
                zeros = false;
            }
            k = k + 1;
        }
        if zeros && sa[23] == 1 {
            return ConnectAction::Ignore;
        }
        if sa[8] == 0xfe && (sa[9] & 0xc0) == 0x80 {
            return ConnectAction::Ignore;
        }
        return ConnectAction::ReportIpv6;
    }
    if family != 2 {
        return ConnectAction::Ignore;
    }
    let port: u32 = (sa[2] as u32) * 256 + (sa[3] as u32);
    if port == 53 {
        return ConnectAction::MarkDnsSocket;
    }
    if sa[4] == 127 {
        return ConnectAction::Ignore;
    }
    let ip: u32 = (sa[4] as u32) * 0x1000000 + (sa[5] as u32) * 0x10000 + (sa[6] as u32) * 0x100
        + (sa[7] as u32);
    ConnectAction::ReportIpv4(ip)
}

/// The bytes of the target that marks an IPv6 connection: `<ipv6-nao-suportado>`.
pub open spec fn ipv6_marker_bytes() -> Seq<u8> {
    seq![
        60u8,
        105u8,
        112u8,
        118u8,
        54u8,
        45u8,
        110u8,
        97u8,
        111u8,
        45u8,
        115u8,
        117u8,
        112u8,
        111u8,
        114u8,
        116u8,
        97u8,
        100u8,
        111u8,
        62u8,
    ]
}

/// A record target: the bytes, then zero bytes up to 256.
pub open spec fn padded(t: Seq<u8>) -> Seq<u8> {
    Seq::new(256, |k: int| if k < t.len() { t[k] } else { 0u8 })
}

/// The four bytes of an address in big-endian order.
pub open spec fn ip_bytes(ip: u32) -> Seq<u8> {
    seq![
        (ip / 0x1000000) as u8,
        (ip / 0x10000 % 0x100) as u8,
        (ip / 0x100 % 0x100) as u8,
        (ip % 0x100) as u8,
    ]
}

/// The record (resolved flag and target) that the connection hook reports for a
/// connection, if it reports one: for IPv6 the flag 0 (a plain target, not a DNS
/// response) and `<ipv6-nao-suportado>`;
/// for IPv4 the flag 2 and the domain learnt for the address, or, where none was
/// learnt, the flag 0 and the tag `0xAA` followed by the address.
pub open spec fn connect_report(action: ConnectAction, domain: Option<Seq<u8>>) -> Option<
    (u8, Seq<u8>),
> {
    match action {
        ConnectAction::ReportIpv6 => Some((0u8, padded(ipv6_marker_bytes()))),
        ConnectAction::ReportIpv4(ip) => match domain {
            Some(d) => Some((2u8, d)),
            None => Some((0u8, padded(seq![0xAAu8] + ip_bytes(ip)))),
        },
        _ => None,
    }
}

fn padded_target(t: &[u8]) -> (r: [u8; 256])
    requires
        t.len() <= 256,
    ensures
        r@ == padded(t@),
{
    let mut buf: [u8; 256] = [0u8; 256];
    let mut i: usize = 0;
    while i < 256
        invariant
            i <= 256,
            t.len() <= 256,
            buf@.len() == 256,
            forall|j: int| 0 <= j < i ==> buf@[j] == padded(t@)[j],
        decreases 256 - i,
    {
        let v = if i < t.len() {
            t[i]
        } else {
            0u8
        };
        buf[i] = v;
        i = i + 1;
    }
    assert(buf@ =~= padded(t@));
    buf
}

/// The record the connection hook reports for a connection, given the domain learnt
/// for its address (for IPv4), if any.
pub fn connect_record(action: ConnectAction, domain: Option<[u8; 256]>) -> (r: Option<(u8, [u8; 256])>)
    ensures
        match connect_report(
            action,
            match domain {
                Some(d) => Some(d@),
                None => None,
            },
        ) {
            Some((flag, target)) => r matches Some((f, t)) && f == flag && t@ == target,
            None => r is None,
        },
{
    match action {
        ConnectAction::ReportIpv6 => {
            let marker: Vec<u8> = vec![
                60u8,
                105u8,
                112u8,
                118u8,
                54u8,
                45u8,
                110u8,
                97u8,
                111u8,
                45u8,
                115u8,
                117u8,
                112u8,
                111u8,
                114u8,
                116u8,
                97u8,
                100u8,
                111u8,
                62u8,
            ];
            assert(marker@ =~= ipv6_marker_bytes());
            Some((0u8, padded_target(marker.as_slice())))
        },
        ConnectAction::ReportIpv4(ip) => match domain {
            Some(d) => Some((2u8, d)),
            None => {
                let raw: Vec<u8> = vec![
                    0xAAu8,
                    (ip / 0x1000000) as u8,
                    (ip / 0x10000 % 0x100) as u8,
                    (ip / 0x100 % 0x100) as u8,
                    (ip % 0x100) as u8,
                ];
                assert(raw@ =~= seq![0xAAu8] + ip_bytes(ip));
                Some((0u8, padded_target(raw.as_slice())))
            },
        },
        _ => None,
    }
}

/// The key of a DNS socket in the kernel map: the PID in the high half, the file
/// descriptor (its low 32 bits) in the low half.
pub open spec fn dns_key(pid: u32, fd: i64) -> u64 {
    (pid * 0x1_0000_0000 + (fd as u32)) as u64
}

/// The key under which a socket of a process is remembered as a DNS socket.
pub fn dns_fd_key(pid: u32, fd: i64) -> (r: u64)
    ensures
        r == dns_key(pid, fd),
{
    let low: u32 = fd as u32;
    (pid as u64) * 0x1_0000_0000 + (low as u64)
}

/// Whether a `sendto` carries a DNS query: with a destination address, when its port
/// is 53 (read as a little-endian `u16`, so `0x3500`); without one, when the socket
/// was marked as a DNS socket.
pub fn sendto_is_dns(has_addr: bool, port_le: u16, fd_marked: bool) -> (r: bool)
    ensures
        r == (if has_addr {
            port_le == 0x3500
        } else {
            fd_marked
        }),
{
    if has_addr {
        port_le == 0x3500
    } else {
        fd_marked
    }
}

/// Whether a new child is watched: both PIDs were read, and the parent is watched.
pub fn fork_inherits(parent_pid: i32, child_pid: i32, parent_monitored: bool) -> (r: bool)
    ensures
        r == (parent_pid > 0 && child_pid > 0 && parent_monitored),
{
    parent_pid > 0 && child_pid > 0 && parent_monitored
}

/// Whether a `recvfrom` result can hold a DNS response: more than a 12-byte header.
pub fn dns_reply_worth_reading(ret: i64) -> (r: bool)
    ensures
        r == (ret > 12),
{
    ret > 12
}

/// A monitor-mode hook never refuses an access it has resolved: it only reports.
pub proof fn law_monitor_hook_never_denies(
    path: Seq<u8>,
    is_write: bool,
    deny: Seq<Option<[u8; 128]>>,
    allow_read: Seq<Option<[u8; 128]>>,
    allow_write: Seq<Option<[u8; 128]>>,
    rules: Seq<Option<SyscallRule>>,
)
    ensures
        file_open_verdict(true, path, is_write, false, deny, allow_read, allow_write)
            != Verdict::Deny,
        !(exec_verdict(true, path, false, rules) is Deny),
{
}

/// In enforce mode a sensitive file is never opened, whatever the allow tables hold.
pub proof fn law_sensitive_never_opened(
    resolved: bool,
    path: Seq<u8>,
    is_write: bool,
    deny: Seq<Option<[u8; 128]>>,
    allow_read: Seq<Option<[u8; 128]>>,
    allow_write: Seq<Option<[u8; 128]>>,
)
    requires
        kernel_sensitive(path),
    ensures
        file_open_verdict(resolved, path, is_write, true, deny, allow_read, allow_write)
            == Verdict::Deny,
{
}

/// Zero trust: a path that no allow prefix for the access holds is not let through.
pub proof fn law_default_deny_in_kernel(
    resolved: bool,
    path: Seq<u8>,
    is_write: bool,
    enforce: bool,
    deny: Seq<Option<[u8; 128]>>,
    allow_read: Seq<Option<[u8; 128]>>,
    allow_write: Seq<Option<[u8; 128]>>,
)
    requires
        !table_hit(path, if is_write { allow_write } else { allow_read }),
    ensures
        file_open_verdict(resolved, path, is_write, enforce, deny, allow_read, allow_write)
            != Verdict::Allow,
{
}

/// What the deny patterns that the hook keeps by itself cover, read as globs over a
/// path's bytes: `.env`, `**/.env`, `**/.ssh/**`, `**/id_rsa*` and `**/*.pem`.
pub open spec fn static_rules_cover(t: Seq<u8>) -> bool {
    let n = t.len() as int;
    ||| t == seq![46u8, 101u8, 110u8, 118u8]
    ||| (n >= 5 && t.skip(n - 5) == seq![47u8, 46u8, 101u8, 110u8, 118u8])
    ||| exists|j: int|
        0 <= j && j + 6 <= n && #[trigger] t.subrange(j, j + 6) == seq![
            47u8,
            46u8,
            115u8,
            115u8,
            104u8,
            47u8,
        ]
    ||| exists|j: int|
        0 <= j && j + 7 <= n && #[trigger] t.subrange(j, j + 7) == seq![
            47u8,
            105u8,
            100u8,
            95u8,
            114u8,
            115u8,
            97u8,
        ] && forall|k: int| j + 7 <= k < n ==> t[k] != 47
    ||| (n >= 4 && t.skip(n - 4) == seq![46u8, 112u8, 101u8, 109u8] && exists|k: int|
        0 <= k < n && t[k] == 47)
}

/// The deny patterns that the synchronous compiler leaves out of the kernel deny table
/// (`.env`, `**/.env`, `**/.ssh/**`, `**/id_rsa*`, `**/*.pem`) are kept by the hook
/// itself: a path of at most 240 bytes that one of them covers is sensitive, so that
/// in enforce mode it is never opened.
pub proof fn law_static_rules_kept_by_hook(p: Seq<u8>, n: int)
    requires
        p.len() == 256,
        0 <= n <= 240,
        forall|j: int| 0 <= j < n ==> p[j] != 0,
        p[n] == 0,
        static_rules_cover(p.take(n)),
    ensures
        kernel_sensitive(p),
{
    let t = p.take(n);
    if t == seq![46u8, 101u8, 110u8, 118u8] {
        assert(t[0] == p[0] && t[1] == p[1] && t[2] == p[2] && t[3] == p[3]);
        assert(sensitive_at(p, 0));
    } else if n >= 5 && t.skip(n - 5) == seq![47u8, 46u8, 101u8, 110u8, 118u8] {
        let i = n - 4;
        assert(t.skip(n - 5)[0] == p[i - 1]);
        assert(t.skip(n - 5)[1] == p[i]);
        assert(t.skip(n - 5)[2] == p[i + 1]);
        assert(t.skip(n - 5)[3] == p[i + 2]);
        assert(t.skip(n - 5)[4] == p[i + 3]);
        assert(sensitive_at(p, i));
    } else if exists|j: int|
        0 <= j && j + 6 <= n && #[trigger] t.subrange(j, j + 6) == seq![
            47u8,
            46u8,
            115u8,
            115u8,
            104u8,
            47u8,
        ] {
        let j = choose|j: int|
            0 <= j && j + 6 <= n && #[trigger] t.subrange(j, j + 6) == seq![
                47u8,
                46u8,
                115u8,
                115u8,
                104u8,
                47u8,
            ];
        let w = t.subrange(j, j + 6);
        assert(w[0] == p[j] && w[1] == p[j + 1] && w[2] == p[j + 2] && w[3] == p[j + 3]);
        assert(w[4] == p[j + 4] && w[5] == p[j + 5]);
        assert(sensitive_at(p, j + 1));
    } else if exists|j: int|
        0 <= j && j + 7 <= n && #[trigger] t.subrange(j, j + 7) == seq![
            47u8,
            105u8,
            100u8,
            95u8,
            114u8,
            115u8,
            97u8,
        ] && forall|k: int| j + 7 <= k < n ==> t[k] != 47 {
        let j = choose|j: int|
            0 <= j && j + 7 <= n && #[trigger] t.subrange(j, j + 7) == seq![
                47u8,
                105u8,
                100u8,
                95u8,
                114u8,
                115u8,
                97u8,
            ] && forall|k: int| j + 7 <= k < n ==> t[k] != 47;
        let w = t.subrange(j, j + 7);
        assert(w[0] == p[j] && w[1] == p[j + 1] && w[2] == p[j + 2] && w[3] == p[j + 3]);
        assert(w[4] == p[j + 4] && w[5] == p[j + 5] && w[6] == p[j + 6]);
        assert(sensitive_at(p, j + 1));
    } else {
        let i = n - 4;
        let w = t.skip(n - 4);
        assert(w[0] == p[i] && w[1] == p[i + 1] && w[2] == p[i + 2] && w[3] == p[i + 3]);
        assert(sensitive_at(p, i));
    }
}

/// A `deny_always` prefix refuses every open of a path it begins, for reading as well
/// as for writing, whatever the allow tables hold: the verdict is never `Allow`, and in
/// enforce mode it is `Deny`.
pub proof fn law_deny_prefix_refuses_every_open(
    resolved: bool,
    path: Seq<u8>,
    is_write: bool,
    enforce: bool,
    deny: Seq<Option<[u8; 128]>>,
    allow_read: Seq<Option<[u8; 128]>>,
    allow_write: Seq<Option<[u8; 128]>>,
    k: int,
    e: [u8; 128],
)
    requires
        0 <= k < deny.len(),
        deny[k] == Some(e),
        e@[0] != 0,
        forall|i: int|
            0 <= i < 128 && (forall|j: int| 0 <= j <= i ==> e@[j] != 0) ==> #[trigger] path[i]
                == e@[i],
    ensures
        file_open_verdict(resolved, path, is_write, enforce, deny, allow_read, allow_write)
            != Verdict::Allow,
        enforce ==> file_open_verdict(resolved, path, is_write, enforce, deny, allow_read, allow_write)
            == Verdict::Deny,
{
    assert(slot_hit(path, deny[k]));
}

} // verus!
