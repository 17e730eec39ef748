//! Compiling a policy into the fixed-size prefix tables of the synchronous kernel hook.
//!
//! The kernel hook can only compare path prefixes, so only globs that amount to a
//! directory prefix (or a literal path) can be compiled; anything else sends the
//! caller back to reactive enforcement.
use vstd::prelude::*;

use crate::policy::matcher::views;
use crate::policy::Policy;
use crate::policy::matcher::rule_views;
use crate::text::{
    chars_contain, chars_end_with, chars_eq, chars_of, chars_start_with, chars_take, chars_trim,
    seq_has, seq_prefix, seq_suffix, string_from_chars, trim,
};

verus! {

broadcast use vstd::string::group_string_axioms;

/// Why a policy cannot be enforced synchronously.
#[derive(Debug, PartialEq, Eq)]
pub enum SyncCompileError {
    /// A glob (or syscall rule) that is not a plain prefix.
    UnsupportedGlob(String),
    /// More than sixteen entries in one of the kernel tables.
    LimitExceeded,
}

/// The kernel tables of a policy: zero-padded prefixes of at most 127 bytes.
pub struct SyncCompiledPolicy {
    pub allow_read_prefixes: Vec<[u8; 128]>,
    pub allow_write_prefixes: Vec<[u8; 128]>,
    pub deny_always_prefixes: Vec<[u8; 128]>,
    /// Denied executions, each with whether a match kills the process.
    pub deny_syscalls_rules: Vec<([u8; 128], bool)>,
}

/// How many entries each kernel table holds at most.
pub const SYNC_TABLE_LIMIT: usize = 16;

/// The first (at most 127) bytes of `b`, padded with zeros to 128 bytes.
pub open spec fn bytes128(b: Seq<u8>) -> Seq<u8> {
    let n = if b.len() < 127 {
        b.len()
    } else {
        127
    };
    Seq::new(128, |i: int| if i < n { b[i] } else { 0u8 })
}

/// The kernel table entry for a text.
pub open spec fn entry_of(s: Seq<char>) -> Seq<u8> {
    bytes128(vstd::utf8::encode_utf8(s))
}

/// Converts a text into a kernel table entry.
pub fn string_to_bytes_128(s: &str) -> (r: [u8; 128])
    ensures
        r@ == entry_of(s@),
{
    let b = s.as_bytes();
    let n = if b.len() < 127 {
        b.len()
    } else {
        127
    };
    let mut buf: [u8; 128] = [0u8; 128];
    let mut i: usize = 0;
    while i < 128
        invariant
            i <= 128,
            n <= b@.len(),
            b@ == vstd::utf8::encode_utf8(s@),
            n == (if b@.len() < 127 {
                b@.len()
            } else {
                127
            }),
            buf@.len() == 128,
            forall|j: int| 0 <= j < i ==> buf@[j] == entry_of(s@)[j],
        decreases 128 - i,
    {
        let v = if i < n {
            b[i]
        } else {
            0u8
        };
        buf[i] = v;
        i = i + 1;
    }
    assert(buf@ =~= entry_of(s@));
    buf
}

/// `**`
pub open spec fn all_glob() -> Seq<char> {
    seq!['*', '*']
}

/// `**/*`
pub open spec fn all_files_glob() -> Seq<char> {
    seq!['*', '*', '/', '*']
}

/// `/**`
pub open spec fn tree_suffix() -> Seq<char> {
    seq!['/', '*', '*']
}

/// `/**/`
pub open spec fn tree_dir_suffix() -> Seq<char> {
    seq!['/', '*', '*', '/']
}

/// `/*`
pub open spec fn children_suffix() -> Seq<char> {
    seq!['/', '*']
}

/// The text holds a glob wildcard: `*`, `?` or `[`.
pub open spec fn has_wildcard(s: Seq<char>) -> bool {
    seq_has(s, '*') || seq_has(s, '?') || seq_has(s, '[')
}

/// The pattern without its trailing wildcard part (`/**`, `/**/`, `**` or `/*`).
pub open spec fn clean_part(p: Seq<char>) -> Seq<char> {
    if seq_suffix(tree_suffix(), p) {
        p.take(p.len() - 3)
    } else if seq_suffix(tree_dir_suffix(), p) {
        p.take(p.len() - 4)
    } else if seq_suffix(all_glob(), p) {
        p.take(p.len() - 2)
    } else if seq_suffix(children_suffix(), p) {
        p.take(p.len() - 2)
    } else {
        p
    }
}

/// The pattern ends in a wildcard that stands for what a directory holds: `/**` or
/// `/*`.
pub open spec fn names_directory(p: Seq<char>) -> bool {
    seq_suffix(tree_suffix(), p) || seq_suffix(children_suffix(), p)
}

/// The literal prefix that a pattern amounts to, if it amounts to one: `**` and
/// `**/*` are everything (`/`); otherwise an absolute pattern whose only wildcard
/// is a trailing `/**`, `/**/`, `**` or `/*`. The prefix of a pattern ending in
/// `/**` or `/*` ends with `/`; a bare trailing `**` leaves the text before it, so
/// that `/home/secret**` gives `/home/secret`.
pub open spec fn prefix_of_pattern(p: Seq<char>) -> Option<Seq<char>> {
    if p.len() == 0 {
        None
    } else if p == all_glob() || p == all_files_glob() {
        Some(seq!['/'])
    } else if p[0] != '/' {
        None
    } else if has_wildcard(clean_part(p)) {
        None
    } else if names_directory(p) && !seq_suffix(seq!['/'], clean_part(p)) {
        Some(clean_part(p).push('/'))
    } else {
        Some(clean_part(p))
    }
}

fn has_wildcard_chars(s: &[char]) -> (r: bool)
    ensures
        r == has_wildcard(s@),
{
    chars_contain(s, '*') || chars_contain(s, '?') || chars_contain(s, '[')
}

/// The literal prefix of a pattern, or `Err(())` where the pattern is not one.
pub fn extract_prefix(pattern: &str) -> (r: Result<String, ()>)
    ensures
        match prefix_of_pattern(pattern@) {
            Some(pre) => r matches Ok(s) && s@ == pre,
            None => r is Err,
        },
{
    let p = chars_of(pattern);
    if p.len() == 0 {
        return Err(());
    }
    let all = vec!['*', '*'];
    let all_files = vec!['*', '*', '/', '*'];
    assert(all@ =~= all_glob());
    assert(all_files@ =~= all_files_glob());
    if chars_eq(p.as_slice(), all.as_slice()) || chars_eq(p.as_slice(), all_files.as_slice()) {
        let root = vec!['/'];
        return Ok(string_from_chars(root.as_slice()));
    }
    if p[0] != '/' {
        return Err(());
    }
    let tree = vec!['/', '*', '*'];
    let tree_dir = vec!['/', '*', '*', '/'];
    let children = vec!['/', '*'];
    assert(tree@ =~= tree_suffix());
    assert(tree_dir@ =~= tree_dir_suffix());
    assert(children@ =~= children_suffix());
    let ends_tree = chars_end_with(p.as_slice(), tree.as_slice());
    let ends_all = chars_end_with(p.as_slice(), all.as_slice());
    let ends_children = chars_end_with(p.as_slice(), children.as_slice());
    let clean = if ends_tree {
        chars_take(p.as_slice(), p.len() - 3)
    } else if chars_end_with(p.as_slice(), tree_dir.as_slice()) {
        chars_take(p.as_slice(), p.len() - 4)
    } else if ends_all {
        chars_take(p.as_slice(), p.len() - 2)
    } else if ends_children {
        chars_take(p.as_slice(), p.len() - 2)
    } else {
        p.clone()
    };
    assert(clean@ == clean_part(p@));
    if has_wildcard_chars(clean.as_slice()) {
        return Err(());
    }
    let mut result = clean;
    if ends_tree || ends_children {
        let slash = vec!['/'];
        assert(slash@ =~= seq!['/']);
        if !chars_end_with(result.as_slice(), slash.as_slice()) {
            result.push('/');
        }
    }
    Ok(string_from_chars(result.as_slice()))
}

/// The deny patterns that the kernel hook enforces by itself.
pub open spec fn is_static_rule(p: Seq<char>) -> bool {
    let t = trim(p);
    t == seq!['*', '*', '/', '.', 'e', 'n', 'v'] || t == seq!['.', 'e', 'n', 'v'] || t == seq![
        '*',
        '*',
        '/',
        '.',
        's',
        's',
        'h',
        '/',
        '*',
        '*',
    ] || t == seq!['*', '*', '/', 'i', 'd', '_', 'r', 's', 'a', '*'] || t == seq![
        '*',
        '*',
        '/',
        '*',
        '.',
        'p',
        'e',
        'm',
    ]
}

/// Whether a deny pattern (once trimmed) is one of the rules that the kernel hook
/// enforces natively: `**/.env`, `.env`, `**/.ssh/**`, `**/id_rsa*`, `**/*.pem`.
pub fn is_static_security_rule(pattern: &str) -> (r: bool)
    ensures
        r == is_static_rule(pattern@),
{
    let c = chars_of(pattern);
    let t = chars_trim(c.as_slice());
    let a = vec!['*', '*', '/', '.', 'e', 'n', 'v'];
    let b = vec!['.', 'e', 'n', 'v'];
    let s = vec!['*', '*', '/', '.', 's', 's', 'h', '/', '*', '*'];
    let k = vec!['*', '*', '/', 'i', 'd', '_', 'r', 's', 'a', '*'];
    let m = vec!['*', '*', '/', '*', '.', 'p', 'e', 'm'];
    assert(a@ =~= seq!['*', '*', '/', '.', 'e', 'n', 'v']);
    assert(b@ =~= seq!['.', 'e', 'n', 'v']);
    assert(s@ =~= seq!['*', '*', '/', '.', 's', 's', 'h', '/', '*', '*']);
    assert(k@ =~= seq!['*', '*', '/', 'i', 'd', '_', 'r', 's', 'a', '*']);
    assert(m@ =~= seq!['*', '*', '/', '*', '.', 'p', 'e', 'm']);
    chars_eq(t.as_slice(), a.as_slice()) || chars_eq(t.as_slice(), b.as_slice()) || chars_eq(
        t.as_slice(),
        s.as_slice(),
    ) || chars_eq(t.as_slice(), k.as_slice()) || chars_eq(t.as_slice(), m.as_slice())
}

/// The table entries of a list of patterns, or the first pattern that is not a
/// prefix. With `skip_static`, the rules the kernel hook enforces itself are left out.
pub open spec fn compile_prefixes(globs: Seq<Seq<char>>, skip_static: bool) -> Result<
    Seq<Seq<u8>>,
    Seq<char>,
>
    decreases globs.len(),
{
    if globs.len() == 0 {
        Ok(Seq::empty())
    } else if skip_static && is_static_rule(globs[0]) {
        compile_prefixes(globs.drop_first(), skip_static)
    } else {
        match prefix_of_pattern(globs[0]) {
            None => Err(globs[0]),
            Some(pre) => match compile_prefixes(globs.drop_first(), skip_static) {
                Ok(rest) => Ok(seq![entry_of(pre)] + rest),
                Err(g) => Err(g),
            },
        }
    }
}

/// `execve:`
pub open spec fn execve_word() -> Seq<char> {
    seq!['e', 'x', 'e', 'c', 'v', 'e', ':']
}

/// A syscall rule the kernel hook can enforce: an execution rule without wildcards.
pub open spec fn rule_supported(p: Seq<char>) -> bool {
    !has_wildcard(p) && seq_prefix(execve_word(), p)
}

/// The table entries of the syscall rules, or the first rule that is not supported.
pub open spec fn compile_rules(rules: Seq<(Seq<char>, bool)>) -> Result<
    Seq<(Seq<u8>, bool)>,
    Seq<char>,
>
    decreases rules.len(),
{
    if rules.len() == 0 {
        Ok(Seq::empty())
    } else if !rule_supported(rules[0].0) {
        Err(rules[0].0)
    } else {
        match compile_rules(rules.drop_first()) {
            Ok(rest) => Ok(seq![(entry_of(rules[0].0), rules[0].1)] + rest),
            Err(g) => Err(g),
        }
    }
}

/// The abstract outcome of compiling a policy for the kernel hook.
pub enum SyncOutcome {
    Compiled {
        read: Seq<Seq<u8>>,
        write: Seq<Seq<u8>>,
        deny: Seq<Seq<u8>>,
        rules: Seq<(Seq<u8>, bool)>,
    },
    Unsupported(Seq<char>),
    TooMany,
}

/// What compiling gives: the first unsupported pattern (read list, then write list,
/// then deny list, then syscall rules), else a refusal where a table would hold
/// more than sixteen entries, else the tables.
pub open spec fn sync_outcome(
    read: Seq<Seq<char>>,
    write: Seq<Seq<char>>,
    deny: Seq<Seq<char>>,
    rules: Seq<(Seq<char>, bool)>,
) -> SyncOutcome {
    match (
        compile_prefixes(read, false),
        compile_prefixes(write, false),
        compile_prefixes(deny, true),
        compile_rules(rules),
    ) {
        (Err(g), _, _, _) => SyncOutcome::Unsupported(g),
        (Ok(_), Err(g), _, _) => SyncOutcome::Unsupported(g),
        (Ok(_), Ok(_), Err(g), _) => SyncOutcome::Unsupported(g),
        (Ok(_), Ok(_), Ok(_), Err(g)) => SyncOutcome::Unsupported(g),
        (Ok(r), Ok(w), Ok(d), Ok(s)) => if r.len() > 16 || w.len() > 16 || d.len() > 16 || s.len()
            > 16 {
            SyncOutcome::TooMany
        } else {
            SyncOutcome::Compiled { read: r, write: w, deny: d, rules: s }
        },
    }
}

/// The byte views of a list of table entries.
pub open spec fn entry_views(v: Seq<[u8; 128]>) -> Seq<Seq<u8>> {
    v.map_values(|a: [u8; 128]| a@)
}

/// The byte views of a list of syscall table entries.
pub open spec fn rule_entry_views(v: Seq<([u8; 128], bool)>) -> Seq<(Seq<u8>, bool)> {
    v.map_values(|a: ([u8; 128], bool)| (a.0@, a.1))
}

fn compile_prefix_list(globs: &Vec<String>, skip_static: bool) -> (r: Result<
    Vec<[u8; 128]>,
    String,
>)
    ensures
        match compile_prefixes(views(globs@), skip_static) {
            Ok(es) => r matches Ok(v) && entry_views(v@) == es,
            Err(g) => r matches Err(s) && s@ == g,
        },
{
    let ghost gs = views(globs@);
    let mut out: Vec<[u8; 128]> = Vec::new();
    let mut i: usize = 0;
    proof {
        assert(gs.skip(0) =~= gs);
        match compile_prefixes(gs, skip_static) {
            Ok(rest) => assert(entry_views(out@) + rest =~= rest),
            Err(_) => {},
        }
    }
    while i < globs.len()
        invariant
            i <= globs.len(),
            gs == views(globs@),
            compile_prefixes(gs, skip_static) == match compile_prefixes(
                gs.skip(i as int),
                skip_static,
            ) {
                Ok(rest) => Ok(entry_views(out@) + rest),
                Err(g) => Err(g),
            },
        decreases globs.len() - i,
    {
        let ghost tail = gs.skip(i as int);
        assert(tail.drop_first() =~= gs.skip(i + 1));
        assert(tail[0] == globs@[i as int]@);
        if skip_static && is_static_security_rule(globs[i].as_str()) {
            i = i + 1;
        } else {
            match extract_prefix(globs[i].as_str()) {
                Ok(pre) => {
                    let e = string_to_bytes_128(pre.as_str());
                    let ghost old_out = out@;
                    out.push(e);
                    proof {
                        assert(entry_views(out@) =~= entry_views(old_out) + seq![e@]);
                        match compile_prefixes(gs.skip(i + 1), skip_static) {
                            Ok(rest) => {
                                assert(entry_views(out@) + rest =~= entry_views(old_out) + (seq![
                                    e@,
                                ] + rest));
                            },
                            Err(_) => {},
                        }
                    }
                    i = i + 1;
                },
                Err(_) => {
                    return Err(globs[i].clone());
                },
            }
        }
    }
    assert(gs.skip(i as int) =~= Seq::<Seq<char>>::empty());
    assert(entry_views(out@) + Seq::<Seq<u8>>::empty() =~= entry_views(out@));
    Ok(out)
}

fn compile_rule_list(rules: &Vec<crate::policy::SyscallRule>) -> (r: Result<
    Vec<([u8; 128], bool)>,
    String,
>)
    ensures
        match compile_rules(rule_views(rules@)) {
            Ok(es) => r matches Ok(v) && rule_entry_views(v@) == es,
            Err(g) => r matches Err(s) && s@ == g,
        },
{
    let ghost rs = rule_views(rules@);
    let mut out: Vec<([u8; 128], bool)> = Vec::new();
    let execve = vec!['e', 'x', 'e', 'c', 'v', 'e', ':'];
    assert(execve@ =~= execve_word());
    let mut i: usize = 0;
    proof {
        assert(rs.skip(0) =~= rs);
        match compile_rules(rs) {
            Ok(rest) => assert(rule_entry_views(out@) + rest =~= rest),
            Err(_) => {},
        }
    }
    while i < rules.len()
        invariant
            i <= rules.len(),
            rs == rule_views(rules@),
            execve@ == execve_word(),
            compile_rules(rs) == match compile_rules(rs.skip(i as int)) {
                Ok(rest) => Ok(rule_entry_views(out@) + rest),
                Err(g) => Err(g),
            },
        decreases rules.len() - i,
    {
        let ghost tail = rs.skip(i as int);
        assert(tail.drop_first() =~= rs.skip(i + 1));
        assert(tail[0] == (rules@[i as int].pattern@, rules@[i as int].kill_on_deny));
        let p = chars_of(rules[i].pattern.as_str());
        if has_wildcard_chars(p.as_slice()) || !chars_start_with(p.as_slice(), execve.as_slice()) {
            return Err(rules[i].pattern.clone());
        }
        let e = string_to_bytes_128(rules[i].pattern.as_str());
        let ghost old_out = out@;
        out.push((e, rules[i].kill_on_deny));
        proof {
            assert(rule_entry_views(out@) =~= rule_entry_views(old_out) + seq![
                (e@, rules@[i as int].kill_on_deny),
            ]);
            match compile_rules(rs.skip(i + 1)) {
                Ok(rest) => {
                    assert(rule_entry_views(out@) + rest =~= rule_entry_views(old_out) + (seq![
                        (e@, rules@[i as int].kill_on_deny),
                    ] + rest));
                },
                Err(_) => {},
            }
        }
        i = i + 1;
    }
    assert(rs.skip(i as int) =~= Seq::<(Seq<char>, bool)>::empty());
    assert(rule_entry_views(out@) + Seq::<(Seq<u8>, bool)>::empty() =~= rule_entry_views(out@));
    Ok(out)
}

/// Compiles a policy into the kernel tables of the synchronous hook, or says why it
/// cannot be: a pattern that is not a plain prefix (read list first, then write,
/// then deny, then the syscall rules, which must be `execve:` rules without
/// wildcards), or a table of more than sixteen entries. The deny patterns that the
/// hook enforces by itself are left out of the deny table.
pub fn try_compile_for_sync(policy: &Policy) -> (r: Result<SyncCompiledPolicy, SyncCompileError>)
    ensures
        match sync_outcome(
            policy@.raw_allow_read,
            policy@.raw_allow_write,
            policy@.raw_deny_always,
            policy@.deny_syscalls,
        ) {
            SyncOutcome::Compiled { read, write, deny, rules } => r matches Ok(c) && entry_views(
                c.allow_read_prefixes@,
            ) == read && entry_views(c.allow_write_prefixes@) == write && entry_views(
                c.deny_always_prefixes@,
            ) == deny && rule_entry_views(c.deny_syscalls_rules@) == rules,
            SyncOutcome::Unsupported(g) => r matches Err(SyncCompileError::UnsupportedGlob(s))
                && s@ == g,
            SyncOutcome::TooMany => r matches Err(SyncCompileError::LimitExceeded),
        },
{
    let allow_read_prefixes = match compile_prefix_list(policy.allow_read_globs(), false) {
        Ok(v) => v,
        Err(g) => {
            return Err(SyncCompileError::UnsupportedGlob(g));
        },
    };
    let allow_write_prefixes = match compile_prefix_list(policy.allow_write_globs(), false) {
        Ok(v) => v,
        Err(g) => {
            return Err(SyncCompileError::UnsupportedGlob(g));
        },
    };
    let deny_always_prefixes = match compile_prefix_list(policy.deny_always_globs(), true) {
        Ok(v) => v,
        Err(g) => {
            return Err(SyncCompileError::UnsupportedGlob(g));
        },
    };
    let deny_syscalls_rules = match compile_rule_list(policy.syscall_rules()) {
        Ok(v) => v,
        Err(g) => {
            return Err(SyncCompileError::UnsupportedGlob(g));
        },
    };
    if allow_read_prefixes.len() > SYNC_TABLE_LIMIT || allow_write_prefixes.len() > SYNC_TABLE_LIMIT
        || deny_always_prefixes.len() > SYNC_TABLE_LIMIT || deny_syscalls_rules.len()
        > SYNC_TABLE_LIMIT {
        return Err(SyncCompileError::LimitExceeded);
    }
    Ok(
        SyncCompiledPolicy {
            allow_read_prefixes,
            allow_write_prefixes,
            deny_always_prefixes,
            deny_syscalls_rules,
        },
    )
}

/// Every kernel table entry is 128 bytes long and ends with a zero byte, so the
/// kernel's prefix comparison always finds the end of the prefix.
pub proof fn law_entries_zero_terminated(s: Seq<char>)
    ensures
        entry_of(s).len() == 128,
        entry_of(s)[127] == 0,
{
}

/// A pattern the kernel tables can carry: one the hook keeps by itself (where those
/// are left to it), or one that amounts to a literal prefix.
pub open spec fn representable(g: Seq<char>, skip_static: bool) -> bool {
    (skip_static && is_static_rule(g)) || prefix_of_pattern(g) is Some
}

/// The pattern gets a table entry of its own (it is not left to the hook).
pub open spec fn needs_entry(g: Seq<char>, skip_static: bool) -> bool {
    !(skip_static && is_static_rule(g))
}

/// The entry is the prefix entry of some pattern that needs one.
pub open spec fn entry_from_pattern(e: Seq<u8>, globs: Seq<Seq<char>>, skip_static: bool) -> bool {
    exists|i: int|
        0 <= i < globs.len() && needs_entry(#[trigger] globs[i], skip_static) && e == entry_of(
            prefix_of_pattern(globs[i])->0,
        )
}

/// Every entry is the prefix entry of some pattern that needs one.
pub open spec fn entries_from_patterns(es: Seq<Seq<u8>>, globs: Seq<Seq<char>>, skip_static: bool) -> bool {
    forall|k: int| 0 <= k < es.len() ==> #[trigger] entry_from_pattern(es[k], globs, skip_static)
}

proof fn lemma_compile_prefixes(globs: Seq<Seq<char>>, skip: bool)
    ensures
        (compile_prefixes(globs, skip) is Ok) <==> (forall|i: int|
            0 <= i < globs.len() ==> representable(#[trigger] globs[i], skip)),
        compile_prefixes(globs, skip) matches Ok(es) ==> (forall|i: int|
            0 <= i < globs.len() && needs_entry(#[trigger] globs[i], skip) ==> es.contains(
                entry_of(prefix_of_pattern(globs[i])->0),
            )),
        compile_prefixes(globs, skip) matches Ok(es) ==> entries_from_patterns(es, globs, skip),
        compile_prefixes(globs, skip) matches Err(g) ==> exists|i: int|
            0 <= i < globs.len() && #[trigger] globs[i] == g && !representable(g, skip),
    decreases globs.len(),
{
    if globs.len() > 0 {
        let rest = globs.drop_first();
        lemma_compile_prefixes(rest, skip);
        assert forall|i: int| 0 <= i < rest.len() implies #[trigger] rest[i] == globs[i + 1] by {}
        let g0 = globs[0];
        if skip && is_static_rule(g0) {
            if compile_prefixes(rest, skip) is Ok {
                assert forall|i: int| 0 <= i < globs.len() implies representable(
                    #[trigger] globs[i],
                    skip,
                ) by {
                    if i > 0 {
                        assert(representable(rest[i - 1], skip));
                    }
                }
                let es = compile_prefixes(rest, skip)->Ok_0;
                assert forall|i: int|
                    0 <= i < globs.len() && needs_entry(#[trigger] globs[i], skip) implies es.contains(
                    entry_of(prefix_of_pattern(globs[i])->0),
                ) by {
                    assert(i > 0);
                    assert(needs_entry(rest[i - 1], skip));
                }
                assert forall|k: int| 0 <= k < es.len() implies #[trigger] entry_from_pattern(
                    es[k],
                    globs,
                    skip,
                ) by {
                    assert(entry_from_pattern(es[k], rest, skip));
                    let j = choose|j: int|
                        0 <= j < rest.len() && needs_entry(#[trigger] rest[j], skip) && es[k]
                            == entry_of(prefix_of_pattern(rest[j])->0);
                    assert(globs[j + 1] == rest[j]);
                }
                assert(compile_prefixes(globs, skip) == Ok::<Seq<Seq<u8>>, Seq<char>>(es));
            } else {
                let g = compile_prefixes(rest, skip)->Err_0;
                let j = choose|j: int| 0 <= j < rest.len() && #[trigger] rest[j] == g && !representable(g, skip);
                assert(globs[j + 1] == g);
                assert(!representable(rest[j], skip));
            }
        } else {
            match prefix_of_pattern(g0) {
                None => {
                    assert(!representable(globs[0], skip));
                },
                Some(pre) => {
                    if compile_prefixes(rest, skip) is Ok {
                        let rs = compile_prefixes(rest, skip)->Ok_0;
                        let es = seq![entry_of(pre)] + rs;
                        assert forall|i: int| 0 <= i < globs.len() implies representable(
                            #[trigger] globs[i],
                            skip,
                        ) by {
                            if i > 0 {
                                assert(representable(rest[i - 1], skip));
                            }
                        }
                        assert forall|i: int|
                            0 <= i < globs.len() && needs_entry(#[trigger] globs[i], skip) implies es.contains(
                            entry_of(prefix_of_pattern(globs[i])->0),
                        ) by {
                            if i == 0 {
                                assert(es[0] == entry_of(pre));
                            } else {
                                assert(needs_entry(rest[i - 1], skip));
                                assert(rs.contains(entry_of(prefix_of_pattern(rest[i - 1])->0)));
                                let m = choose|m: int|
                                    0 <= m < rs.len() && rs[m] == entry_of(
                                        prefix_of_pattern(rest[i - 1])->0,
                                    );
                                assert(es[m + 1] == rs[m]);
                            }
                        }
                        assert forall|k: int| 0 <= k < es.len() implies #[trigger] entry_from_pattern(
                            es[k],
                            globs,
                            skip,
                        ) by {
                            if k == 0 {
                                assert(needs_entry(globs[0], skip));
                            } else {
                                assert(es[k] == rs[k - 1]);
                                assert(entry_from_pattern(rs[k - 1], rest, skip));
                                let j = choose|j: int|
                                    0 <= j < rest.len() && needs_entry(#[trigger] rest[j], skip)
                                        && rs[k - 1] == entry_of(prefix_of_pattern(rest[j])->0);
                                assert(globs[j + 1] == rest[j]);
                            }
                        }
                        assert(entries_from_patterns(es, globs, skip));
                assert(compile_prefixes(globs, skip) == Ok::<Seq<Seq<u8>>, Seq<char>>(es));
                    } else {
                        let g = compile_prefixes(rest, skip)->Err_0;
                        let j = choose|j: int|
                            0 <= j < rest.len() && #[trigger] rest[j] == g && !representable(g, skip);
                        assert(globs[j + 1] == g);
                        assert(!representable(rest[j], skip));
                    }
                },
            }
        }
    }
}

/// The kernel tables are built only where every pattern can be carried by them, and
/// then carry each one: every read and write pattern, and every `deny_always`
/// pattern except those the hook keeps by itself, has its prefix entry in its table,
/// and every entry comes from such a pattern. A `deny_always` pattern that is neither
/// kept by the hook nor a literal prefix makes compiling fail (never a table that
/// silently leaves it out).
pub proof fn law_sync_tables_carry_every_pattern(
    read: Seq<Seq<char>>,
    write: Seq<Seq<char>>,
    deny: Seq<Seq<char>>,
    rules: Seq<(Seq<char>, bool)>,
)
    ensures
        (exists|i: int| 0 <= i < deny.len() && !representable(#[trigger] deny[i], true))
            ==> sync_outcome(read, write, deny, rules) is Unsupported,
        sync_outcome(read, write, deny, rules) matches SyncOutcome::Compiled { read: r, write: w, deny: d, .. }
            ==> {
            &&& forall|i: int| 0 <= i < read.len() ==> (prefix_of_pattern(#[trigger] read[i]) is Some
                && r.contains(entry_of(prefix_of_pattern(read[i])->0)))
            &&& forall|i: int| 0 <= i < write.len() ==> (prefix_of_pattern(#[trigger] write[i]) is Some
                && w.contains(entry_of(prefix_of_pattern(write[i])->0)))
            &&& forall|i: int| 0 <= i < deny.len() ==> (is_static_rule(#[trigger] deny[i]) || (
            prefix_of_pattern(deny[i]) is Some && d.contains(entry_of(prefix_of_pattern(deny[i])->0))))
            &&& entries_from_patterns(d, deny, true)
        },
{
    lemma_compile_prefixes(read, false);
    lemma_compile_prefixes(write, false);
    lemma_compile_prefixes(deny, true);
    if exists|i: int| 0 <= i < deny.len() && !representable(#[trigger] deny[i], true) {
        let i = choose|i: int| 0 <= i < deny.len() && !representable(#[trigger] deny[i], true);
        assert(!(compile_prefixes(deny, true) is Ok));
    }
    if sync_outcome(read, write, deny, rules) is Compiled {
        assert forall|i: int| 0 <= i < read.len() implies (prefix_of_pattern(#[trigger] read[i]) is Some
            && compile_prefixes(read, false)->Ok_0.contains(entry_of(prefix_of_pattern(read[i])->0))) by {
            assert(representable(read[i], false));
            assert(needs_entry(read[i], false));
        }
        assert forall|i: int| 0 <= i < write.len() implies (prefix_of_pattern(#[trigger] write[i]) is Some
            && compile_prefixes(write, false)->Ok_0.contains(entry_of(prefix_of_pattern(write[i])->0))) by {
            assert(representable(write[i], false));
            assert(needs_entry(write[i], false));
        }
        let d = compile_prefixes(deny, true)->Ok_0;
        assert forall|i: int| 0 <= i < deny.len() implies (is_static_rule(#[trigger] deny[i]) || (
        prefix_of_pattern(deny[i]) is Some && d.contains(entry_of(prefix_of_pattern(deny[i])->0)))) by {
            assert(representable(deny[i], true));
            if !is_static_rule(deny[i]) {
                assert(needs_entry(deny[i], true));
            }
        }
    }
}

} // verus!
