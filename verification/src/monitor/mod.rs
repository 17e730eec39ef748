//! Kernel monitoring: which enforcement mode the kernel allows, the offsets the probes
//! need, and the decoding of the raw events the probes report.
use vstd::prelude::*;

use crate::text::{
    chars_contain_seq, chars_find, chars_lines, chars_of, chars_parse_u32, chars_split, chars_trim,
    first_occurrence, lines_of, parse_u32, seq_contains, split_on, trim,
};

use crate::policy::Policy;
use crate::policy_sync_compiler::{
    entry_views, rule_entry_views, sync_outcome, try_compile_for_sync, SyncCompileError,
    SyncCompiledPolicy, SyncOutcome,
};

pub mod dns;
pub mod events;

verus! {

/// A syscall rule as the synchronous kernel hook stores it.
#[derive(Clone, Copy)]
pub struct BpfSyscallRule {
    pub pattern: [u8; 128],
    pub kill_on_deny: u32,
}

/// How violations are stopped: before they happen (BPF LSM hooks) or right after.
#[derive(Debug, Clone, Copy, PartialEq, Eq, Structural)]
pub enum EnforcementMode {
    Sync,
    Reactive,
}

/// The word `bpf`.
pub open spec fn bpf_word() -> Seq<char> {
    seq!['b', 'p', 'f']
}

/// Some comma-separated entry of the LSM list is `bpf`, white space around it aside.
pub open spec fn lists_bpf(content: Seq<char>) -> bool {
    exists|k: int|
        0 <= k < split_on(content, ',').len() && trim(#[trigger] split_on(content, ',')[k])
            == bpf_word()
}

/// Whether the active LSM list (the text of `/sys/kernel/security/lsm`) holds `bpf`.
pub fn lsm_list_has_bpf(content: &str) -> (r: bool)
    ensures
        r == lists_bpf(content@),
{
    let c = chars_of(content);
    let parts = chars_split(c.as_slice(), ',');
    let bpf = vec!['b', 'p', 'f'];
    assert(bpf@ =~= bpf_word());
    let mut k: usize = 0;
    while k < parts.len()
        invariant
            k <= parts@.len(),
            c@ == content@,
            bpf@ == bpf_word(),
            parts@.len() == split_on(c@, ',').len(),
            forall|j: int| 0 <= j < parts@.len() ==> #[trigger] parts@[j]@ == split_on(c@, ',')[j],
            forall|j: int| 0 <= j < k ==> trim(#[trigger] split_on(c@, ',')[j]) != bpf_word(),
        decreases parts.len() - k,
    {
        let t = chars_trim(parts[k].as_slice());
        if crate::text::chars_eq(t.as_slice(), bpf.as_slice()) {
            assert(trim(split_on(c@, ',')[k as int]) == bpf_word());
            return true;
        }
        k = k + 1;
    }
    false
}

/// Whether BPF LSM hooks are available, given the LSM list file's text (`None` where it
/// could not be read, which counts as unavailable).
pub fn bpf_lsm_available(lsm_list: Option<&str>) -> (r: bool)
    ensures
        r == match lsm_list {
            Some(c) => lists_bpf(c@),
            None => false,
        },
{
    match lsm_list {
        Some(c) => lsm_list_has_bpf(c),
        None => false,
    }
}

/// The enforcement mode the kernel allows: synchronous where BPF LSM is available,
/// reactive otherwise.
pub fn detect_enforcement_mode(lsm_list: Option<&str>) -> (r: EnforcementMode)
    ensures
        r == (if match lsm_list {
            Some(c) => lists_bpf(c@),
            None => false,
        } {
            EnforcementMode::Sync
        } else {
            EnforcementMode::Reactive
        }),
{
    if bpf_lsm_available(lsm_list) {
        EnforcementMode::Sync
    } else {
        EnforcementMode::Reactive
    }
}

/// How the monitor guards the process.
pub enum SyncPlan {
    /// With the synchronous hooks, filled with these tables.
    Sync(SyncCompiledPolicy),
    /// With the reactive probes: the kernel offers no BPF LSM.
    LsmUnavailable,
    /// With the reactive probes: the policy does not fit the kernel tables.
    NotCompilable(SyncCompileError),
}

/// The kernel's list of security modules (where it could be read) names `bpf`.
pub open spec fn offers_bpf_lsm(lsm_list: Option<&str>) -> bool {
    match lsm_list {
        Some(c) => lists_bpf(c@),
        None => false,
    }
}

/// Chooses between the synchronous hooks and the reactive probes: the hooks where the
/// kernel offers BPF LSM and the policy compiles into the kernel tables, the probes
/// otherwise, saying why.
pub fn sync_plan(lsm_list: Option<&str>, policy: &Policy) -> (r: SyncPlan)
    ensures
        !offers_bpf_lsm(lsm_list) ==> r is LsmUnavailable,
        offers_bpf_lsm(lsm_list) ==> match sync_outcome(
            policy@.raw_allow_read,
            policy@.raw_allow_write,
            policy@.raw_deny_always,
            policy@.deny_syscalls,
        ) {
            SyncOutcome::Compiled { read, write, deny, rules } => r matches SyncPlan::Sync(c)
                && entry_views(c.allow_read_prefixes@) == read && entry_views(
                c.allow_write_prefixes@,
            ) == write && entry_views(c.deny_always_prefixes@) == deny && rule_entry_views(
                c.deny_syscalls_rules@,
            ) == rules,
            SyncOutcome::Unsupported(g) => r matches SyncPlan::NotCompilable(
                SyncCompileError::UnsupportedGlob(s),
            ) && s@ == g,
            SyncOutcome::TooMany => r matches SyncPlan::NotCompilable(
                SyncCompileError::LimitExceeded,
            ),
        },
{
    if detect_enforcement_mode(lsm_list) != EnforcementMode::Sync {
        return SyncPlan::LsmUnavailable;
    }
    match try_compile_for_sync(policy) {
        Ok(c) => SyncPlan::Sync(c),
        Err(e) => SyncPlan::NotCompilable(e),
    }
}

/// Why the monitor stopped.
#[derive(Debug, Clone, Copy, PartialEq, Eq, Structural)]
pub enum ExitReason {
    Running,
    UserRequested,
    TargetDied,
}

/// The reason after a close request: the first reason recorded stays.
pub open spec fn reason_after_close(r: ExitReason) -> ExitReason {
    if r == ExitReason::Running {
        ExitReason::UserRequested
    } else {
        r
    }
}

/// The reason after the supervised process died: the first reason recorded stays.
pub open spec fn reason_after_death(r: ExitReason) -> ExitReason {
    if r == ExitReason::Running {
        ExitReason::TargetDied
    } else {
        r
    }
}

impl ExitReason {
    /// The reason after a close request: the first reason recorded stays.
    pub fn after_close(self) -> (r: ExitReason)
        ensures
            r == reason_after_close(self),
    {
        match self {
            ExitReason::Running => ExitReason::UserRequested,
            other => other,
        }
    }

    /// The reason after the supervised process was seen dead: the first reason recorded
    /// stays.
    pub fn after_target_died(self) -> (r: ExitReason)
        ensures
            r == reason_after_death(self),
    {
        match self {
            ExitReason::Running => ExitReason::TargetDied,
            other => other,
        }
    }

    /// Whether the monitor stopped because the supervised process died.
    pub fn is_target_died(self) -> (r: bool)
        ensures
            r == (self == ExitReason::TargetDied),
    {
        match self {
            ExitReason::TargetDied => true,
            _ => false,
        }
    }
}

/// Once an exit reason is recorded, neither a close request nor the death of the process
/// changes it.
pub proof fn law_exit_reason_is_final(r: ExitReason)
    requires
        r != ExitReason::Running,
    ensures
        reason_after_close(r) == r,
        reason_after_death(r) == r,
{
}

/// The word `offset:`.
pub open spec fn offset_word() -> Seq<char> {
    seq!['o', 'f', 'f', 's', 'e', 't', ':']
}

/// The first occurrence of `p` in `s`.
pub open spec fn find_first(p: Seq<char>, s: Seq<char>) -> int {
    choose|i: int| first_occurrence(p, s, i)
}

proof fn lemma_first_occurrence_unique(p: Seq<char>, s: Seq<char>, i: int)
    requires
        first_occurrence(p, s, i),
    ensures
        find_first(p, s) == i,
{
    let j = find_first(p, s);
    assert(first_occurrence(p, s, j));
    if j < i {
        assert(!crate::text::occurs_at(p, s, j));
    } else if i < j {
        assert(!crate::text::occurs_at(p, s, i));
    }
}

/// The text up to the first `;` (all of it where there is none).
pub open spec fn before_semicolon(s: Seq<char>) -> Seq<char> {
    if seq_contains(seq![';'], s) {
        s.take(find_first(seq![';'], s))
    } else {
        s
    }
}

/// The offset a tracepoint format line gives for a field: the number after `offset:`,
/// up to the next `;`, when the line names the field.
pub open spec fn line_offset(line: Seq<char>, field: Seq<char>) -> Option<u32> {
    if seq_contains(field, line) && seq_contains(offset_word(), line) {
        parse_u32(
            trim(before_semicolon(line.skip(find_first(offset_word(), line) + offset_word().len()))),
        )
    } else {
        None
    }
}

/// The offset of the first line that names the field and gives a readable offset.
pub open spec fn first_line_offset(lines: Seq<Seq<char>>, field: Seq<char>) -> Option<u32>
    decreases lines.len(),
{
    if lines.len() == 0 {
        None
    } else if line_offset(lines[0], field) is Some {
        line_offset(lines[0], field)
    } else {
        first_line_offset(lines.drop_first(), field)
    }
}

/// The offset a format line gives for a field.
fn offset_in_line(line: &Vec<char>, field: &Vec<char>) -> (r: Option<u32>)
    ensures
        r == line_offset(line@, field@),
{
    let word = vec!['o', 'f', 'f', 's', 'e', 't', ':'];
    assert(word@ =~= offset_word());
    if !(chars_contain_seq(line.as_slice(), field.as_slice()) && chars_contain_seq(
        line.as_slice(),
        word.as_slice(),
    )) {
        return None;
    }
    let pos = match chars_find(line.as_slice(), word.as_slice()) {
        Some(p) => p,
        None => {
            return None;
        },
    };
    proof {
        lemma_first_occurrence_unique(offset_word(), line@, pos as int);
    }
    assert(word@.len() == 7);
    let n = line.len();
    assert(crate::text::occurs_at(word@, line@, pos as int));
    assert(pos + 7 <= n);
    let start = pos + 7;
    let mut rest: Vec<char> = Vec::new();
    let mut i = start;
    while i < line.len()
        invariant
            start <= i <= line@.len(),
            rest@ =~= line@.subrange(start as int, i as int),
        decreases line.len() - i,
    {
        rest.push(line[i]);
        i = i + 1;
    }
    assert(rest@ =~= line@.skip(start as int));
    let semi = vec![';'];
    let end = match chars_find(rest.as_slice(), semi.as_slice()) {
        Some(e) => {
            proof {
                lemma_first_occurrence_unique(semi@, rest@, e as int);
                assert(semi@ =~= seq![';']);
            }
            e
        },
        None => {
            assert(semi@ =~= seq![';']);
            rest.len()
        },
    };
    let mut piece: Vec<char> = Vec::new();
    let mut j: usize = 0;
    while j < end
        invariant
            j <= end <= rest@.len(),
            piece@ =~= rest@.take(j as int),
        decreases end - j,
    {
        piece.push(rest[j]);
        j = j + 1;
    }
    assert(piece@ =~= before_semicolon(rest@));
    let t = chars_trim(piece.as_slice());
    chars_parse_u32(t.as_slice())
}

/// Reads a field's offset from a tracepoint `format` file: the first line that names the
/// field and has a readable `offset:` value gives it.
pub fn parse_tracepoint_offset(format_content: &str, field_name: &str) -> (r: Option<u32>)
    ensures
        r == first_line_offset(lines_of(format_content@), field_name@),
{
    let c = chars_of(format_content);
    let field = chars_of(field_name);
    let lines = chars_lines(c.as_slice());
    let ghost ls = lines_of(c@);
    let mut k: usize = 0;
    assert(ls.skip(0) =~= ls);
    while k < lines.len()
        invariant
            k <= lines@.len(),
            ls == lines_of(format_content@),
            lines@.len() == ls.len(),
            forall|j: int| 0 <= j < lines@.len() ==> #[trigger] lines@[j]@ == ls[j],
            field@ == field_name@,
            first_line_offset(ls.skip(k as int), field@) == first_line_offset(ls, field@),
        decreases lines.len() - k,
    {
        assert(ls.skip(k as int)[0] == ls[k as int]);
        let o = offset_in_line(&lines[k], &field);
        if o.is_some() {
            return o;
        }
        assert(ls.skip(k as int).drop_first() =~= ls.skip(k + 1));
        k = k + 1;
    }
    assert(ls.skip(k as int) =~= Seq::<Seq<char>>::empty());
    None
}

/// The word `bits_offset=`.
pub open spec fn bits_offset_word() -> Seq<char> {
    seq!['b', 'i', 't', 's', '_', 'o', 'f', 'f', 's', 'e', 't', '=']
}

/// The text up to the first space (all of it where there is none).
pub open spec fn before_space(s: Seq<char>) -> Seq<char> {
    if seq_contains(seq![' '], s) {
        s.take(find_first(seq![' '], s))
    } else {
        s
    }
}

/// The bit offset a BTF dump line gives: the number after `bits_offset=`, up to the next
/// space.
pub open spec fn bits_offset_of(line: Seq<char>) -> Option<u32> {
    if seq_contains(bits_offset_word(), line) {
        parse_u32(
            before_space(line.skip(find_first(bits_offset_word(), line) + bits_offset_word().len())),
        )
    } else {
        None
    }
}

/// Reads the `bits_offset=` value of a BTF dump line.
pub fn extract_bits_offset(line: &str) -> (r: Option<u32>)
    ensures
        r == bits_offset_of(line@),
{
    let l = chars_of(line);
    extract_bits_offset_chars(&l)
}

fn extract_bits_offset_chars(l: &Vec<char>) -> (r: Option<u32>)
    ensures
        r == bits_offset_of(l@),
{
    let word = vec!['b', 'i', 't', 's', '_', 'o', 'f', 'f', 's', 'e', 't', '='];
    assert(word@ =~= bits_offset_word());
    let pos = match chars_find(l.as_slice(), word.as_slice()) {
        Some(p) => p,
        None => {
            return None;
        },
    };
    proof {
        lemma_first_occurrence_unique(bits_offset_word(), l@, pos as int);
    }
    assert(word@.len() == 12);
    let n = l.len();
    assert(crate::text::occurs_at(word@, l@, pos as int));
    assert(pos + 12 <= n);
    let start = pos + 12;
    let mut rest: Vec<char> = Vec::new();
    let mut i = start;
    while i < l.len()
        invariant
            start <= i <= l@.len(),
            rest@ =~= l@.subrange(start as int, i as int),
        decreases l.len() - i,
    {
        rest.push(l[i]);
        i = i + 1;
    }
    assert(rest@ =~= l@.skip(start as int));
    let space = vec![' '];
    let end = match chars_find(rest.as_slice(), space.as_slice()) {
        Some(e) => {
            proof {
                lemma_first_occurrence_unique(space@, rest@, e as int);
                assert(space@ =~= seq![' ']);
            }
            e
        },
        None => {
            assert(space@ =~= seq![' ']);
            rest.len()
        },
    };
    let mut piece: Vec<char> = Vec::new();
    let mut j: usize = 0;
    while j < end
        invariant
            j <= end <= rest@.len(),
            piece@ =~= rest@.take(j as int),
        decreases end - j,
    {
        piece.push(rest[j]);
        j = j + 1;
    }
    assert(piece@ =~= before_space(rest@));
    chars_parse_u32(piece.as_slice())
}

/// The text `STRUCT 'file'`.
pub open spec fn struct_file_word() -> Seq<char> {
    seq!['S', 'T', 'R', 'U', 'C', 'T', ' ', '\'', 'f', 'i', 'l', 'e', '\'']
}

/// The text `STRUCT 'linux_binprm'`.
pub open spec fn struct_bprm_word() -> Seq<char> {
    seq!['S', 'T', 'R', 'U', 'C', 'T', ' ', '\'', 'l', 'i', 'n', 'u', 'x', '_', 'b', 'i', 'n', 'p', 'r', 'm', '\'']
}

/// The text `STRUCT`.
pub open spec fn struct_word() -> Seq<char> {
    seq!['S', 'T', 'R', 'U', 'C', 'T']
}

/// The text `'f_mode'`.
pub open spec fn f_mode_word() -> Seq<char> {
    seq!['\'', 'f', '_', 'm', 'o', 'd', 'e', '\'']
}

/// The text `'f_path'`.
pub open spec fn f_path_word() -> Seq<char> {
    seq!['\'', 'f', '_', 'p', 'a', 't', 'h', '\'']
}

/// The text `'file'`.
pub open spec fn file_word() -> Seq<char> {
    seq!['\'', 'f', 'i', 'l', 'e', '\'']
}

/// The state of a scan over a BTF dump: which structure the current line belongs to,
/// and the byte offsets found so far.
#[derive(Clone, Copy)]
pub struct BtfScan {
    pub in_file: bool,
    pub in_bprm: bool,
    pub f_mode: u32,
    pub f_path: u32,
    pub bprm_file: u32,
}

/// The byte offset of a field line, where it has a bit offset.
pub open spec fn byte_offset_or(line: Seq<char>, current: u32) -> u32 {
    match bits_offset_of(line) {
        Some(o) => o / 8,
        None => current,
    }
}

/// One line of a BTF dump: a `STRUCT 'file'` or `STRUCT 'linux_binprm'` header opens
/// that structure, any other structure header closes it; inside `file` the `f_mode` and
/// `f_path` members, inside `linux_binprm` the `file` member give offsets.
pub open spec fn btf_step(st: BtfScan, line: Seq<char>) -> BtfScan {
    let t = trim(line);
    if crate::text::seq_prefix(struct_file_word(), t) {
        BtfScan { in_file: true, in_bprm: false, ..st }
    } else if crate::text::seq_prefix(struct_bprm_word(), t) {
        BtfScan { in_file: false, in_bprm: true, ..st }
    } else if crate::text::seq_prefix(struct_word(), t) || (t.len() > 0 && t[0] == '['
        && seq_contains(struct_word(), t)) {
        BtfScan { in_file: false, in_bprm: false, ..st }
    } else if st.in_file {
        if seq_contains(f_mode_word(), t) {
            BtfScan { f_mode: byte_offset_or(t, st.f_mode), ..st }
        } else if seq_contains(f_path_word(), t) {
            BtfScan { f_path: byte_offset_or(t, st.f_path), ..st }
        } else {
            st
        }
    } else if st.in_bprm {
        if seq_contains(file_word(), t) {
            BtfScan { bprm_file: byte_offset_or(t, st.bprm_file), ..st }
        } else {
            st
        }
    } else {
        st
    }
}

/// The state after scanning the lines in order.
pub open spec fn btf_scan(lines: Seq<Seq<char>>, st: BtfScan) -> BtfScan
    decreases lines.len(),
{
    if lines.len() == 0 {
        st
    } else {
        btf_scan(lines.drop_first(), btf_step(st, lines[0]))
    }
}

/// The scan before any line: outside every structure, with the usual kernel offsets.
pub open spec fn btf_start() -> BtfScan {
    BtfScan { in_file: false, in_bprm: false, f_mode: 4, f_path: 64, bprm_file: 64 }
}

fn byte_offset_exec(t: &Vec<char>, current: u32) -> (r: u32)
    ensures
        r == byte_offset_or(t@, current),
{
    match extract_bits_offset_chars(t) {
        Some(o) => o / 8,
        None => current,
    }
}

fn btf_step_exec(st: BtfScan, line: &Vec<char>) -> (r: BtfScan)
    ensures
        r == btf_step(st, line@),
{
    let t = chars_trim(line.as_slice());
    let w_file = vec!['S', 'T', 'R', 'U', 'C', 'T', ' ', '\'', 'f', 'i', 'l', 'e', '\''];
    let w_bprm = vec!['S', 'T', 'R', 'U', 'C', 'T', ' ', '\'', 'l', 'i', 'n', 'u', 'x', '_', 'b', 'i', 'n', 'p', 'r', 'm', '\''];
    let w_struct = vec!['S', 'T', 'R', 'U', 'C', 'T'];
    let w_f_mode = vec!['\'', 'f', '_', 'm', 'o', 'd', 'e', '\''];
    let w_f_path = vec!['\'', 'f', '_', 'p', 'a', 't', 'h', '\''];
    let w_member = vec!['\'', 'f', 'i', 'l', 'e', '\''];
    assert(w_file@ =~= struct_file_word());
    assert(w_bprm@ =~= struct_bprm_word());
    assert(w_struct@ =~= struct_word());
    assert(w_f_mode@ =~= f_mode_word());
    assert(w_f_path@ =~= f_path_word());
    assert(w_member@ =~= file_word());
    if crate::text::chars_start_with(t.as_slice(), w_file.as_slice()) {
        BtfScan { in_file: true, in_bprm: false, ..st }
    } else if crate::text::chars_start_with(t.as_slice(), w_bprm.as_slice()) {
        BtfScan { in_file: false, in_bprm: true, ..st }
    } else if crate::text::chars_start_with(t.as_slice(), w_struct.as_slice()) || (t.len() > 0
        && t[0] == '[' && chars_contain_seq(t.as_slice(), w_struct.as_slice())) {
        BtfScan { in_file: false, in_bprm: false, ..st }
    } else if st.in_file {
        if chars_contain_seq(t.as_slice(), w_f_mode.as_slice()) {
            BtfScan { f_mode: byte_offset_exec(&t, st.f_mode), ..st }
        } else if chars_contain_seq(t.as_slice(), w_f_path.as_slice()) {
            BtfScan { f_path: byte_offset_exec(&t, st.f_path), ..st }
        } else {
            st
        }
    } else if st.in_bprm {
        if chars_contain_seq(t.as_slice(), w_member.as_slice()) {
            BtfScan { bprm_file: byte_offset_exec(&t, st.bprm_file), ..st }
        } else {
            st
        }
    } else {
        st
    }
}

/// The byte offsets of `file.f_mode`, `file.f_path` and `linux_binprm.file` from a raw
/// BTF dump of the kernel (`bpftool btf dump ... format raw`); `None` where no dump could
/// be had, which keeps the usual offsets (4, 64, 64).
pub fn resolve_btf_offsets(dump: Option<&str>) -> (r: (u32, u32, u32))
    ensures
        ({
            let end = match dump {
                Some(d) => btf_scan(lines_of(d@), btf_start()),
                None => btf_start(),
            };
            r == (end.f_mode, end.f_path, end.bprm_file)
        }),
{
    let mut st = BtfScan { in_file: false, in_bprm: false, f_mode: 4, f_path: 64, bprm_file: 64 };
    match dump {
        None => {},
        Some(d) => {
            let c = chars_of(d);
            let lines = chars_lines(c.as_slice());
            let ghost ls = lines_of(d@);
            let mut k: usize = 0;
            assert(ls.skip(0) =~= ls);
            while k < lines.len()
                invariant
                    k <= lines@.len(),
                    ls == lines_of(d@),
                    lines@.len() == ls.len(),
                    forall|j: int| 0 <= j < lines@.len() ==> #[trigger] lines@[j]@ == ls[j],
                    btf_scan(ls.skip(k as int), st) == btf_scan(ls, btf_start()),
                decreases lines.len() - k,
            {
                assert(ls.skip(k as int)[0] == ls[k as int]);
                assert(ls.skip(k as int).drop_first() =~= ls.skip(k + 1));
                st = btf_step_exec(st, &lines[k]);
                k = k + 1;
            }
            assert(ls.skip(k as int) =~= Seq::<Seq<char>>::empty());
        },
    }
    (st.f_mode, st.f_path, st.bprm_file)
}

/// The offsets of `parent_pid` and `child_pid` in the fork tracepoint record: as the
/// tracepoint's format text gives them, each falling back to 12 and 20.
pub fn fork_offsets(format: Option<&str>) -> (r: (u32, u32))
    ensures
        r == match format {
            Some(f) => (
                match first_line_offset(lines_of(f@), "parent_pid"@) {
                    Some(o) => o,
                    None => 12,
                },
                match first_line_offset(lines_of(f@), "child_pid"@) {
                    Some(o) => o,
                    None => 20,
                },
            ),
            None => (12u32, 20u32),
        },
{
    match format {
        Some(f) => {
            let parent = match parse_tracepoint_offset(f, "parent_pid") {
                Some(o) => o,
                None => 12,
            };
            let child = match parse_tracepoint_offset(f, "child_pid") {
                Some(o) => o,
                None => 20,
            };
            (parent, child)
        },
        None => (12, 20),
    }
}

/// The value of the kernel's mode switch: 1 to enforce, 0 to only report.
pub fn enforce_flag(mode: crate::policy::Mode) -> (r: u32)
    ensures
        r == (if mode == crate::policy::Mode::Enforce {
            1u32
        } else {
            0u32
        }),
{
    match mode {
        crate::policy::Mode::Enforce => 1,
        crate::policy::Mode::Monitor => 0,
    }
}

/// The kernel table rows for compiled execution rules: the pattern, and 1 where a
/// match kills.
pub fn kernel_rules(rules: &Vec<([u8; 128], bool)>) -> (r: Vec<BpfSyscallRule>)
    ensures
        r@.len() == rules@.len(),
        forall|k: int|
            0 <= k < rules@.len() ==> (#[trigger] r@[k]).pattern@ == rules@[k].0@ && r@[k].kill_on_deny
                == (if rules@[k].1 {
                1u32
            } else {
                0u32
            }),
{
    let mut out: Vec<BpfSyscallRule> = Vec::new();
    let mut i: usize = 0;
    while i < rules.len()
        invariant
            i <= rules.len(),
            out@.len() == i,
            forall|k: int|
                0 <= k < i ==> (#[trigger] out@[k]).pattern@ == rules@[k].0@ && out@[k].kill_on_deny
                    == (if rules@[k].1 {
                    1u32
                } else {
                    0u32
                }),
        decreases rules.len() - i,
    {
        let (pattern, kill) = rules[i];
        out.push(BpfSyscallRule {
            pattern,
            kill_on_deny: if kill {
                1
            } else {
                0
            },
        });
        i = i + 1;
    }
    out
}

} // verus!
