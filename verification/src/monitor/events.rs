//! Decoding the raw events that the kernel probes write into the ring buffer.
use vstd::prelude::*;
use std::collections::HashMap;

use crate::enforcer::{ipv6_marker, Event, EventType};
use crate::kernel::{connect_report, ipv6_marker_bytes, padded, ConnectAction};
use crate::monitor::dns::{be32, dns_answers, parse_dns_answers};
use crate::text::{decimal, push_char, push_decimal};

verus! {

broadcast use vstd::std_specs::hash::group_hash_axioms;

/// A file open reported by the reactive probes.
pub const EVENT_TYPE_READ: u32 = 1;

/// A file opened for writing, reported by the synchronous hook in monitor mode.
pub const EVENT_TYPE_WRITE: u32 = 2;

/// A program execution.
pub const EVENT_TYPE_EXEC: u32 = 3;

/// A network connection or a DNS response.
pub const EVENT_TYPE_NETWORK: u32 = 4;

/// A denied syscall such as `ptrace`.
pub const EVENT_TYPE_SYSCALL: u32 = 5;

/// The tag in the first target byte of a connection to an unresolved IPv4 address.
pub const RAW_IP_TAG: u8 = 0xAA;

/// An event as the kernel probes write it.
#[derive(Clone, Copy)]
pub struct BpfEvent {
    pub pid: u32,
    pub event_type: u32,
    /// 0: raw target, 1: DNS response bytes, 2: domain resolved in the kernel.
    pub resolved: u8,
    pub target: [u8; 256],
}

/// The addresses learnt from DNS responses and the names they resolve to.
pub struct DnsCache {
    entries: HashMap<u32, String>,
}

impl View for DnsCache {
    type V = Map<u32, Seq<char>>;

    closed spec fn view(&self) -> Map<u32, Seq<char>> {
        self.entries@.map_values(|s: String| s@)
    }
}

impl DnsCache {
    /// A cache that knows no address.
    pub fn new() -> (r: DnsCache)
        ensures
            r@ == Map::<u32, Seq<char>>::empty(),
    {
        let r = DnsCache { entries: HashMap::new() };
        assert(r@ =~= Map::<u32, Seq<char>>::empty());
        r
    }

    /// The name learnt for an address.
    pub fn lookup(&self, ip: u32) -> (r: Option<String>)
        ensures
            match r {
                Some(n) => self@.contains_key(ip) && self@[ip] == n@,
                None => !self@.contains_key(ip),
            },
    {
        match self.entries.get(&ip) {
            Some(n) => Some(n.clone()),
            None => None,
        }
    }

    /// Records the name of an address, replacing an earlier one.
    pub fn remember(&mut self, ip: u32, name: String)
        ensures
            final(self)@ == old(self)@.insert(ip, name@),
    {
        self.entries.insert(ip, name);
        assert(self@ =~= old(self)@.insert(ip, name@));
    }
}

/// The kind of enforcer event a probe event type stands for, if any.
pub open spec fn event_kind(t: u32) -> Option<EventType> {
    if t == EVENT_TYPE_READ {
        Some(EventType::Read)
    } else if t == EVENT_TYPE_WRITE {
        Some(EventType::Write)
    } else if t == EVENT_TYPE_EXEC || t == EVENT_TYPE_SYSCALL {
        Some(EventType::Syscall)
    } else if t == EVENT_TYPE_NETWORK {
        Some(EventType::Network)
    } else {
        None
    }
}

/// The bytes before the first zero byte (all of them where there is none).
pub open spec fn nul_terminated(b: Seq<u8>) -> Seq<u8> {
    if exists|i: int| 0 <= i < b.len() && b[i] == 0 {
        b.take(choose|i: int| 0 <= i < b.len() && b[i] == 0 && forall|j: int| 0 <= j < i ==> b[j] != 0)
    } else {
        b
    }
}

/// The text `String::from_utf8_lossy` gives for the bytes.
pub uninterp spec fn utf8_lossy(bytes: Seq<u8>) -> Seq<char>;

/// `String::from_utf8_lossy`: the text of the bytes, with each invalid sequence replaced
/// by U+FFFD; valid UTF-8 decodes as usual.
#[verifier::external_body]
fn text_lossy(bytes: &[u8]) -> (r: String)
    ensures
        r@ == utf8_lossy(bytes@),
        vstd::utf8::valid_utf8(bytes@) ==> r@ == vstd::utf8::decode_utf8(bytes@),
{
    String::from_utf8_lossy(bytes).into_owned()
}

/// The text of record bytes: valid UTF-8 decoded as usual, anything else as
/// `String::from_utf8_lossy` gives it.
pub open spec fn lossy_text(bytes: Seq<u8>) -> Seq<char> {
    if vstd::utf8::valid_utf8(bytes) {
        vstd::utf8::decode_utf8(bytes)
    } else {
        utf8_lossy(bytes)
    }
}

/// An IPv4 address in dotted-quad notation.
pub open spec fn dotted_quad(a: u8, b: u8, c: u8, d: u8) -> Seq<char> {
    decimal(a as nat) + seq!['.'] + decimal(b as nat) + seq!['.'] + decimal(c as nat) + seq!['.']
        + decimal(d as nat)
}

/// The target of a DNS response that could not be read.
pub open spec fn dns_parse_error_word() -> Seq<char> {
    seq![
        '<',
        'd',
        'n',
        's',
        '-',
        'p',
        'a',
        'r',
        's',
        'e',
        '-',
        'e',
        'r',
        'r',
        'o',
        'r',
        '>',
    ]
}

/// The prefix of an execution target.
pub open spec fn execve_prefix() -> Seq<char> {
    seq!['e', 'x', 'e', 'c', 'v', 'e', ':']
}

/// The target, resolved flag and newly learnt addresses of a probe event, given what the
/// cache knows: a tagged raw IPv4 connection takes its learnt name (resolved) or its
/// dotted form (unresolved); a DNS response gives its queried name and A addresses; any
/// other event its text up to the first zero byte, with `execve:` before an execution.
pub open spec fn decoded_target(ev: BpfEvent, cache: Map<u32, Seq<char>>) -> (
    Seq<char>,
    bool,
    Seq<u32>,
) {
    let t = ev.target@;
    if ev.event_type == EVENT_TYPE_NETWORK && ev.resolved == 0 && t[0] == RAW_IP_TAG {
        let ip = be32(t[1], t[2], t[3], t[4]) as u32;
        if cache.contains_key(ip) {
            (cache[ip], true, Seq::<u32>::empty())
        } else {
            (dotted_quad(t[1], t[2], t[3], t[4]), false, Seq::<u32>::empty())
        }
    } else if ev.event_type == EVENT_TYPE_NETWORK && ev.resolved == 1 {
        match dns_answers(t) {
            Some((name, ips)) => (name, true, ips),
            None => (dns_parse_error_word(), true, Seq::<u32>::empty()),
        }
    } else {
        let text = lossy_text(nul_terminated(t));
        (
            if ev.event_type == EVENT_TYPE_EXEC {
                execve_prefix() + text
            } else {
                text
            },
            ev.resolved == 1 || ev.resolved == 2,
            Seq::<u32>::empty(),
        )
    }
}

/// The cache after learning that every address of `ips` resolves to `name`.
pub open spec fn remember_all(m: Map<u32, Seq<char>>, ips: Seq<u32>, name: Seq<char>) -> Map<
    u32,
    Seq<char>,
>
    decreases ips.len(),
{
    if ips.len() == 0 {
        m
    } else {
        remember_all(m.insert(ips[0], name), ips.drop_first(), name)
    }
}

/// A decoded event, with the addresses a DNS response taught (which the kernel's
/// address-to-domain map must also learn, under `domain_key` of the event's target).
pub struct DecodedEvent {
    pub event: Event,
    pub learnt_ips: Vec<u32>,
}

fn push_chars(s: &mut String, cs: &Vec<char>)
    ensures
        final(s)@ == old(s)@ + cs@,
{
    let mut i: usize = 0;
    let ghost start = s@;
    while i < cs.len()
        invariant
            i <= cs.len(),
            s@ =~= start + cs@.take(i as int),
        decreases cs.len() - i,
    {
        push_char(s, cs[i]);
        i = i + 1;
    }
    assert(cs@.take(cs.len() as int) =~= cs@);
}

/// The dotted form of an IPv4 address.
fn dotted(a: u8, b: u8, c: u8, d: u8) -> (r: String)
    ensures
        r@ == dotted_quad(a, b, c, d),
{
    let mut s = String::new();
    push_decimal(&mut s, a as u64);
    push_char(&mut s, '.');
    push_decimal(&mut s, b as u64);
    push_char(&mut s, '.');
    push_decimal(&mut s, c as u64);
    push_char(&mut s, '.');
    push_decimal(&mut s, d as u64);
    assert(s@ =~= dotted_quad(a, b, c, d));
    s
}

/// The bytes before the first zero byte.
fn until_nul(b: &[u8; 256]) -> (r: Vec<u8>)
    ensures
        r@ == nul_terminated(b@),
{
    let mut out: Vec<u8> = Vec::new();
    let mut i: usize = 0;
    while i < 256
        invariant
            i <= 256,
            b@.len() == 256,
            out@ =~= b@.take(i as int),
            forall|j: int| 0 <= j < i ==> b@[j] != 0,
        decreases 256 - i,
    {
        if b[i] == 0 {
            assert(0 <= i < b@.len() && b@[i as int] == 0);
            let ghost k = choose|k: int|
                0 <= k < b@.len() && b@[k] == 0 && forall|j: int| 0 <= j < k ==> b@[j] != 0;
            assert(k == i) by {
                if k < i {
                    assert(b@[k] != 0);
                } else if k > i {
                    assert(b@[i as int] != 0);
                }
            }
            return out;
        }
        out.push(b[i]);
        i = i + 1;
    }
    assert(out@ =~= b@);
    out
}

/// Decodes one probe event into an enforcer event, learning the addresses of a DNS
/// response; `None` (and no change) for an event type the enforcer does not handle.
pub fn decode_event(ev: &BpfEvent, cache: &mut DnsCache) -> (r: Option<DecodedEvent>)
    ensures
        event_kind(ev.event_type) is None ==> r is None && final(cache)@ == old(cache)@,
        event_kind(ev.event_type) matches Some(kind) ==> r matches Some(d) && ({
            let (target, resolved, learnt) = decoded_target(*ev, old(cache)@);
            &&& d.event.pid == ev.pid
            &&& d.event.event_type == kind
            &&& d.event.target@ == target
            &&& d.event.resolved == resolved
            &&& d.learnt_ips@ == learnt
            &&& final(cache)@ == remember_all(old(cache)@, learnt, target)
        }),
{
    let kind = if ev.event_type == EVENT_TYPE_READ {
        EventType::Read
    } else if ev.event_type == EVENT_TYPE_WRITE {
        EventType::Write
    } else if ev.event_type == EVENT_TYPE_EXEC || ev.event_type == EVENT_TYPE_SYSCALL {
        EventType::Syscall
    } else if ev.event_type == EVENT_TYPE_NETWORK {
        EventType::Network
    } else {
        return None;
    };
    let t = &ev.target;
    if ev.event_type == EVENT_TYPE_NETWORK && ev.resolved == 0 && t[0] == RAW_IP_TAG {
        let ip: u32 = t[1] as u32 * 16777216 + t[2] as u32 * 65536 + t[3] as u32 * 256
            + t[4] as u32;
        let (target, resolved) = match cache.lookup(ip) {
            Some(name) => (name, true),
            None => (dotted(t[1], t[2], t[3], t[4]), false),
        };
        let learnt: Vec<u32> = Vec::new();
        assert(learnt@ =~= Seq::<u32>::empty());
        return Some(
            DecodedEvent {
                event: Event { pid: ev.pid, event_type: kind, target, resolved },
                learnt_ips: learnt,
            },
        );
    }
    if ev.event_type == EVENT_TYPE_NETWORK && ev.resolved == 1 {
        let (name, ips) = match parse_dns_answers(t.as_slice()) {
            Some((n, v)) => (n, v),
            None => {
                let w = vec![
                    '<',
                    'd',
                    'n',
                    's',
                    '-',
                    'p',
                    'a',
                    'r',
                    's',
                    'e',
                    '-',
                    'e',
                    'r',
                    'r',
                    'o',
                    'r',
                    '>',
                ];
                let mut s = String::new();
                push_chars(&mut s, &w);
                assert(s@ =~= dns_parse_error_word());
                (s, Vec::new())
            },
        };
        let mut i: usize = 0;
        let ghost start = cache@;
        assert(ips@.skip(0) =~= ips@);
        while i < ips.len()
            invariant
                i <= ips@.len(),
                remember_all(cache@, ips@.skip(i as int), name@) == remember_all(
                    start,
                    ips@,
                    name@,
                ),
            decreases ips.len() - i,
        {
            assert(ips@.skip(i as int)[0] == ips@[i as int]);
            assert(ips@.skip(i as int).drop_first() =~= ips@.skip(i + 1));
            cache.remember(ips[i], name.clone());
            i = i + 1;
        }
        assert(ips@.skip(i as int) =~= Seq::<u32>::empty());
        return Some(
            DecodedEvent {
                event: Event { pid: ev.pid, event_type: kind, target: name, resolved: true },
                learnt_ips: ips,
            },
        );
    }
    let bytes = until_nul(t);
    let text = text_lossy(bytes.as_slice());
    let target = if ev.event_type == EVENT_TYPE_EXEC {
        let w = vec!['e', 'x', 'e', 'c', 'v', 'e', ':'];
        let mut s = String::new();
        push_chars(&mut s, &w);
        s.append(text.as_str());
        assert(s@ =~= execve_prefix() + text@);
        s
    } else {
        text
    };
    let learnt: Vec<u32> = Vec::new();
    assert(learnt@ =~= Seq::<u32>::empty());
    Some(
        DecodedEvent {
            event: Event {
                pid: ev.pid,
                event_type: kind,
                target,
                resolved: ev.resolved == 1 || ev.resolved == 2,
            },
            learnt_ips: learnt,
        },
    )
}

/// The key under which the kernel's address-to-domain map stores a domain: its first
/// (at most 255) UTF-8 bytes, padded with zeros.
pub open spec fn domain_key_bytes(name: Seq<char>) -> Seq<u8> {
    let b = vstd::utf8::encode_utf8(name);
    let n = if b.len() < 255 {
        b.len()
    } else {
        255
    };
    Seq::new(256, |i: int| if i < n { b[i] } else { 0u8 })
}

/// The kernel map value for a domain name.
pub fn domain_key(name: &str) -> (r: [u8; 256])
    ensures
        r@ == domain_key_bytes(name@),
{
    let b = name.as_bytes();
    let n = if b.len() < 255 {
        b.len()
    } else {
        255
    };
    let mut buf: [u8; 256] = [0u8; 256];
    let mut i: usize = 0;
    while i < 256
        invariant
            i <= 256,
            n <= b@.len(),
            n <= 255,
            b@ == vstd::utf8::encode_utf8(name@),
            n == (if b@.len() < 255 {
                b@.len()
            } else {
                255
            }),
            buf@.len() == 256,
            forall|j: int| 0 <= j < i ==> buf@[j] == domain_key_bytes(name@)[j],
        decreases 256 - i,
    {
        let v = if i < n {
            b[i]
        } else {
            0u8
        };
        buf[i] = v;
        i = i + 1;
    }
    assert(buf@ =~= domain_key_bytes(name@));
    buf
}

/// The size of an event record in the ring buffer (`#[repr(C)]`: two `u32`, a `u8`,
/// 256 bytes, padded to a multiple of 4).
pub const BPF_EVENT_SIZE: usize = 268;

/// A little-endian `u32` at `at`.
pub open spec fn le32(b: Seq<u8>, at: int) -> u32 {
    (b[at] + b[at + 1] * 0x100 + b[at + 2] * 0x10000 + b[at + 3] * 0x1000000) as u32
}

/// The event a ring-buffer record holds, if the record is long enough: the PID and the
/// kind as little-endian `u32` (the byte order of the hosts the probes run on), the
/// resolution byte, then the 256 target bytes.
pub open spec fn event_of_record(b: Seq<u8>) -> Option<(u32, u32, u8, Seq<u8>)> {
    if b.len() < BPF_EVENT_SIZE {
        None
    } else {
        Some((le32(b, 0), le32(b, 4), b[8], b.subrange(9, 265)))
    }
}

/// Reads an event from a ring-buffer record; `None` for a record too short to hold one.
pub fn event_from_bytes(b: &[u8]) -> (r: Option<BpfEvent>)
    ensures
        match event_of_record(b@) {
            Some((pid, kind, resolved, target)) => r matches Some(e) && e.pid == pid && e.event_type
                == kind && e.resolved == resolved && e.target@ == target,
            None => r is None,
        },
{
    if b.len() < BPF_EVENT_SIZE {
        return None;
    }
    let pid: u32 = (b[0] as u32) + (b[1] as u32) * 0x100 + (b[2] as u32) * 0x10000 + (b[3] as u32)
        * 0x1000000;
    let kind: u32 = (b[4] as u32) + (b[5] as u32) * 0x100 + (b[6] as u32) * 0x10000 + (b[7] as u32)
        * 0x1000000;
    let mut target: [u8; 256] = [0u8; 256];
    let mut i: usize = 0;
    while i < 256
        invariant
            i <= 256,
            b@.len() >= BPF_EVENT_SIZE,
            target@.len() == 256,
            forall|k: int| 0 <= k < i ==> target@[k] == b@[k + 9],
        decreases 256 - i,
    {
        target[i] = b[i + 9];
        i = i + 1;
    }
    assert(target@ =~= b@.subrange(9, 265));
    Some(BpfEvent { pid, event_type: kind, resolved: b[8], target })
}

proof fn lemma_remember_all(m: Map<u32, Seq<char>>, ips: Seq<u32>, name: Seq<char>, ip: u32)
    ensures
        (ips.contains(ip) || (m.contains_key(ip) && m[ip] == name)) ==> (remember_all(
            m,
            ips,
            name,
        ).contains_key(ip) && remember_all(m, ips, name)[ip] == name),
        !ips.contains(ip) ==> (remember_all(m, ips, name).contains_key(ip) == m.contains_key(ip)
            && (m.contains_key(ip) ==> remember_all(m, ips, name)[ip] == m[ip])),
    decreases ips.len(),
{
    if ips.len() > 0 {
        lemma_remember_all(m.insert(ips[0], name), ips.drop_first(), name, ip);
        if ips.contains(ip) && ips[0] != ip {
            let k = choose|k: int| 0 <= k < ips.len() && ips[k] == ip;
            assert(ips.drop_first()[k - 1] == ip);
        }
        if !ips.contains(ip) {
            assert forall|k: int| 0 <= k < ips.drop_first().len() implies ips.drop_first()[k] != ip by {
                assert(ips.drop_first()[k] == ips[k + 1]);
            }
            assert(ips[0] != ip) by {
                assert(ips[0] == ips[0]);
            }
        }
    }
}

/// What a DNS response teaches is what a later connection reports: once the addresses
/// of a name were learnt, a raw connection to one of them is reported as that name,
/// resolved.
pub proof fn law_learnt_address_resolves(
    m: Map<u32, Seq<char>>,
    ips: Seq<u32>,
    name: Seq<char>,
    ev: BpfEvent,
)
    requires
        ev.event_type == EVENT_TYPE_NETWORK,
        ev.resolved == 0,
        ev.target@[0] == RAW_IP_TAG,
        ips.contains(be32(ev.target@[1], ev.target@[2], ev.target@[3], ev.target@[4]) as u32),
    ensures
        decoded_target(ev, remember_all(m, ips, name)) == (name, true, Seq::<u32>::empty()),
{
    lemma_remember_all(
        m,
        ips,
        name,
        be32(ev.target@[1], ev.target@[2], ev.target@[3], ev.target@[4]) as u32,
    );
}

proof fn lemma_ascii_encode(s: Seq<char>)
    requires
        forall|i: int| 0 <= i < s.len() ==> (#[trigger] s[i] as u32) < 128,
    ensures
        vstd::utf8::encode_utf8(s) == Seq::new(s.len(), |i: int| (s[i] as u32) as u8),
    decreases s.len(),
{
    if s.len() > 0 {
        let c = s[0] as u32;
        assert(c < 128);
        assert((c & 0x7F) == c) by (bit_vector)
            requires
                c < 128,
        ;
        let rest = s.drop_first();
        assert forall|i: int| 0 <= i < rest.len() implies (#[trigger] rest[i] as u32) < 128 by {
            assert(rest[i] == s[i + 1]);
        }
        lemma_ascii_encode(rest);
        assert(vstd::utf8::encode_utf8(s) =~= Seq::new(s.len(), |i: int| (s[i] as u32) as u8));
    }
}

proof fn lemma_marker_bytes_encode()
    ensures
        vstd::utf8::encode_utf8(ipv6_marker()) == ipv6_marker_bytes(),
{
    let s = ipv6_marker();
    assert forall|i: int| 0 <= i < s.len() implies (#[trigger] s[i] as u32) < 128 by {}
    lemma_ascii_encode(s);
    assert(Seq::new(s.len(), |i: int| (s[i] as u32) as u8) =~= ipv6_marker_bytes());
}

/// The record that the connection hook sends for an IPv6 connection reaches the
/// enforcer as a network event whose target is `<ipv6-nao-suportado>`, not resolved
/// (so the enforcer refuses it), and teaches the cache nothing.
pub proof fn law_ipv6_report_decodes_to_marker(ev: BpfEvent, cache: Map<u32, Seq<char>>)
    requires
        ev.event_type == EVENT_TYPE_NETWORK,
        connect_report(ConnectAction::ReportIpv6, None) == Some((ev.resolved, ev.target@)),
    ensures
        event_kind(ev.event_type) == Some(EventType::Network),
        decoded_target(ev, cache) == (ipv6_marker(), false, Seq::<u32>::empty()),
{
    let t = ev.target@;
    let m = ipv6_marker_bytes();
    assert(t == padded(m));
    assert(t[0] == 60u8);
    assert(t[20] == 0u8);
    assert forall|j: int| 0 <= j < 20 implies t[j] != 0 by {
        assert(t[j] == m[j]);
    }
    let i = choose|i: int| 0 <= i < t.len() && t[i] == 0 && forall|j: int| 0 <= j < i ==> t[j] != 0;
    assert(0 <= 20 < t.len() && t[20] == 0 && forall|j: int| 0 <= j < 20 ==> t[j] != 0);
    assert(i == 20) by {
        if i < 20 {
            assert(t[i] != 0);
        }
        if i > 20 {
            assert(t[20] != 0);
        }
    }
    assert(nul_terminated(t) =~= m);
    lemma_marker_bytes_encode();
    vstd::utf8::encode_utf8_valid_utf8(ipv6_marker());
    vstd::utf8::encode_utf8_decode_utf8(ipv6_marker());
}

} // verus!
