//! Security policy: what a supervised process may read, write, reach and run.
use vstd::prelude::*;

use crate::text::{chars_eq, chars_of, eq_ignore_ascii_case};

pub mod discovery;
pub mod matcher;

use matcher::{
    any_hit, first_rule_kill, glob_regex, glob_to_regex, regex_accepts, rule_matches, rule_views,
    spec_domain_allowed, spec_path_allowed, spec_syscall_denied, views,
};

verus! {

#[verifier::external_type_specification]
#[verifier::external_body]
pub struct ExIoError(std::io::Error);

#[verifier::external_type_specification]
#[verifier::external_body]
pub struct ExYamlError(serde_yaml::Error);

/// Why a policy could not be built.
#[derive(Debug)]
pub enum PolicyError {
    /// The policy file could not be read.
    Io(std::io::Error),
    /// The policy text is not valid YAML for a policy.
    Yaml(serde_yaml::Error),
    /// A glob gave a regex that the regex engine refuses.
    InvalidGlob { pattern: String, source: regex::Error },
    /// `mode` is neither `enforce` nor `monitor`.
    InvalidMode(String),
    /// Neither `allow_read` nor `allow_write` lists anything.
    EmptyAllowList,
}

/// What a violation leads to: a kill (`Enforce`) or a log line only (`Monitor`).
#[derive(Debug, Clone, Copy, PartialEq, Eq, Structural)]
pub enum Mode {
    Enforce,
    Monitor,
}

/// The `filesystem` section of a policy file.
#[derive(Debug, Default, Clone)]
pub struct RawFilesystem {
    pub allow_read: Vec<String>,
    pub allow_write: Vec<String>,
    pub deny_always: Vec<String>,
}

/// The `network` section of a policy file.
#[derive(Debug, Default, Clone)]
pub struct RawNetwork {
    pub allow_domains: Vec<String>,
    pub deny_all_else: bool,
}

/// A syscall deny rule as written: a bare pattern, or a pattern with a kill flag.
#[derive(Debug, Clone)]
pub enum SyscallDenyRule {
    Simple(String),
    Structured { pattern: String, kill_on_deny: bool },
}

/// A syscall deny rule of a built policy.
#[derive(Debug, Clone)]
pub struct SyscallRule {
    pub pattern: String,
    pub kill_on_deny: bool,
}

/// The `syscalls` section of a policy file.
#[derive(Debug, Default, Clone)]
pub struct RawSyscalls {
    pub deny: Vec<SyscallDenyRule>,
}

/// A policy file as parsed, before validation.
#[derive(Debug, Clone)]
pub struct RawPolicy {
    pub mode: String,
    pub filesystem: RawFilesystem,
    pub network: RawNetwork,
    pub syscalls: RawSyscalls,
}

/// A validated policy whose globs are all translated into regexes the engine accepts.
/// It can only be obtained through `Policy::from_raw`.
pub struct Policy {
    mode: Mode,
    compiled_deny: Vec<String>,
    compiled_allow_read: Vec<String>,
    compiled_allow_write: Vec<String>,
    allow_domains: Vec<String>,
    deny_all_else: bool,
    deny_syscalls: Vec<SyscallRule>,
    raw_deny_always: Vec<String>,
    raw_allow_read: Vec<String>,
    raw_allow_write: Vec<String>,
}

/// The abstract content of a policy: the regexes of its globs, its domains and rules.
pub struct PolicyModel {
    pub mode: Mode,
    pub deny: Seq<Seq<char>>,
    pub allow_read: Seq<Seq<char>>,
    pub allow_write: Seq<Seq<char>>,
    pub allow_domains: Seq<Seq<char>>,
    pub deny_all_else: bool,
    pub deny_syscalls: Seq<(Seq<char>, bool)>,
    pub raw_deny_always: Seq<Seq<char>>,
    pub raw_allow_read: Seq<Seq<char>>,
    pub raw_allow_write: Seq<Seq<char>>,
}

impl Policy {
    /// The compiled regexes are those of the globs as written.
    #[verifier::type_invariant]
    spec fn compiled_from_raw(self) -> bool {
        &&& views(self.compiled_deny@) == glob_regexes(views(self.raw_deny_always@))
        &&& views(self.compiled_allow_read@) == glob_regexes(views(self.raw_allow_read@))
        &&& views(self.compiled_allow_write@) == glob_regexes(views(self.raw_allow_write@))
    }
}

fn copy_strings(v: &Vec<String>) -> (r: Vec<String>)
    ensures
        r@ == v@,
{
    let mut out: Vec<String> = Vec::new();
    let mut i: usize = 0;
    while i < v.len()
        invariant
            i <= v.len(),
            out@ == v@.take(i as int),
        decreases v.len() - i,
    {
        out.push(v[i].clone());
        i = i + 1;
        assert(out@ =~= v@.take(i as int));
    }
    assert(v@.take(v.len() as int) =~= v@);
    out
}

fn copy_rules(v: &Vec<SyscallRule>) -> (r: Vec<SyscallRule>)
    ensures
        rule_views(r@) == rule_views(v@),
{
    let mut out: Vec<SyscallRule> = Vec::new();
    let mut i: usize = 0;
    while i < v.len()
        invariant
            i <= v.len(),
            out@.len() == i,
            forall|k: int|
                0 <= k < i ==> (#[trigger] out@[k]).pattern@ == v@[k].pattern@ && out@[k].kill_on_deny
                    == v@[k].kill_on_deny,
        decreases v.len() - i,
    {
        let r = SyscallRule { pattern: v[i].pattern.clone(), kill_on_deny: v[i].kill_on_deny };
        out.push(r);
        i = i + 1;
    }
    assert(rule_views(out@) =~= rule_views(v@));
    out
}

impl Clone for Policy {
    /// A copy of the policy, with the same content.
    fn clone(&self) -> (r: Self)
        ensures
            r@ == self@,
    {
        proof {
            use_type_invariant(self);
        }
        Policy {
            mode: self.mode,
            compiled_deny: copy_strings(&self.compiled_deny),
            compiled_allow_read: copy_strings(&self.compiled_allow_read),
            compiled_allow_write: copy_strings(&self.compiled_allow_write),
            allow_domains: copy_strings(&self.allow_domains),
            deny_all_else: self.deny_all_else,
            deny_syscalls: copy_rules(&self.deny_syscalls),
            raw_deny_always: copy_strings(&self.raw_deny_always),
            raw_allow_read: copy_strings(&self.raw_allow_read),
            raw_allow_write: copy_strings(&self.raw_allow_write),
        }
    }
}

impl View for Policy {
    type V = PolicyModel;

    closed spec fn view(&self) -> PolicyModel {
        PolicyModel {
            mode: self.mode,
            deny: glob_regexes(views(self.raw_deny_always@)),
            allow_read: glob_regexes(views(self.raw_allow_read@)),
            allow_write: glob_regexes(views(self.raw_allow_write@)),
            allow_domains: views(self.allow_domains@),
            deny_all_else: self.deny_all_else,
            deny_syscalls: rule_views(self.deny_syscalls@),
            raw_deny_always: views(self.raw_deny_always@),
            raw_allow_read: views(self.raw_allow_read@),
            raw_allow_write: views(self.raw_allow_write@),
        }
    }
}

/// The word `enforce`.
pub open spec fn enforce_word() -> Seq<char> {
    seq!['e', 'n', 'f', 'o', 'r', 'c', 'e']
}

/// The word `monitor`.
pub open spec fn monitor_word() -> Seq<char> {
    seq!['m', 'o', 'n', 'i', 't', 'o', 'r']
}

/// The mode a `mode` value names, if any.
pub open spec fn mode_named(m: Seq<char>) -> Option<Mode> {
    if m == enforce_word() {
        Some(Mode::Enforce)
    } else if m == monitor_word() {
        Some(Mode::Monitor)
    } else {
        None
    }
}

/// The first glob of the list whose regex the engine refuses.
pub open spec fn first_rejected(globs: Seq<Seq<char>>) -> Option<Seq<char>>
    decreases globs.len(),
{
    if globs.len() == 0 {
        None
    } else if !regex_accepts(glob_regex(globs[0])) {
        Some(globs[0])
    } else {
        first_rejected(globs.drop_first())
    }
}

/// The regexes of a list of globs.
pub open spec fn glob_regexes(globs: Seq<Seq<char>>) -> Seq<Seq<char>> {
    globs.map_values(|g: Seq<char>| glob_regex(g))
}

/// A built rule from a written one: a bare pattern never kills.
pub open spec fn rule_of(r: SyscallDenyRule) -> (Seq<char>, bool) {
    match r {
        SyscallDenyRule::Simple(s) => (s@, false),
        SyscallDenyRule::Structured { pattern, kill_on_deny } => (pattern@, kill_on_deny),
    }
}

/// Every glob of the policy file, deny list first, then read, then write.
pub open spec fn all_globs(raw: RawPolicy) -> Seq<Seq<char>> {
    views(raw.filesystem.deny_always@) + views(raw.filesystem.allow_read@) + views(
        raw.filesystem.allow_write@,
    )
}

/// The policy that a valid policy file in the given mode describes.
pub open spec fn model_of(raw: RawPolicy, mode: Mode) -> PolicyModel {
    PolicyModel {
        mode,
        deny: glob_regexes(views(raw.filesystem.deny_always@)),
        allow_read: glob_regexes(views(raw.filesystem.allow_read@)),
        allow_write: glob_regexes(views(raw.filesystem.allow_write@)),
        allow_domains: views(raw.network.allow_domains@),
        deny_all_else: raw.network.deny_all_else,
        deny_syscalls: raw.syscalls.deny@.map_values(|r: SyscallDenyRule| rule_of(r)),
        raw_deny_always: views(raw.filesystem.deny_always@),
        raw_allow_read: views(raw.filesystem.allow_read@),
        raw_allow_write: views(raw.filesystem.allow_write@),
    }
}

proof fn lemma_first_rejected_skip(globs: Seq<Seq<char>>, i: int)
    requires
        0 <= i <= globs.len(),
        forall|j: int| 0 <= j < i ==> regex_accepts(glob_regex(#[trigger] globs[j])),
    ensures
        first_rejected(globs) == first_rejected(globs.skip(i)),
    decreases i,
{
    if i > 0 {
        assert(globs.skip(1) =~= globs.drop_first());
        lemma_first_rejected_skip(globs.drop_first(), i - 1);
        assert(globs.drop_first().skip(i - 1) =~= globs.skip(i));
    } else {
        assert(globs.skip(0) =~= globs);
    }
}

proof fn lemma_first_rejected_concat(a: Seq<Seq<char>>, b: Seq<Seq<char>>)
    ensures
        first_rejected(a + b) == if first_rejected(a) is Some {
            first_rejected(a)
        } else {
            first_rejected(b)
        },
    decreases a.len(),
{
    if a.len() == 0 {
        assert(a + b =~= b);
    } else {
        assert((a + b)[0] == a[0]);
        assert((a + b).drop_first() =~= a.drop_first() + b);
        lemma_first_rejected_concat(a.drop_first(), b);
    }
}

/// Translates every glob of the list, stopping at the first one whose regex is refused.
fn compile_globs(globs: &Vec<String>) -> (r: Result<Vec<String>, PolicyError>)
    ensures
        match r {
            Ok(v) => first_rejected(views(globs@)) is None && views(v@) == glob_regexes(
                views(globs@),
            ),
            Err(e) => first_rejected(views(globs@)) matches Some(g) && (e matches PolicyError::InvalidGlob {
                pattern: p,
                ..
            } && p@ == g),
        },
{
    let ghost gs = views(globs@);
    let mut out: Vec<String> = Vec::new();
    let mut i: usize = 0;
    while i < globs.len()
        invariant
            i <= globs.len(),
            gs == views(globs@),
            forall|j: int| 0 <= j < i ==> regex_accepts(glob_regex(#[trigger] gs[j])),
            out.len() == i,
            views(out@) =~= glob_regexes(gs).take(i as int),
        decreases globs.len() - i,
    {
        match glob_to_regex(globs[i].as_str()) {
            Ok(src) => {
                let ghost old_out = out@;
                out.push(src);
                proof {
                    assert(gs[i as int] == globs@[i as int]@);
                    assert(glob_regexes(gs)[i as int] == glob_regex(gs[i as int]));
                    assert(out@ == old_out.push(src));
                    assert(views(out@)[i as int] == src@);
                    assert forall|j: int| 0 <= j < i implies views(out@)[j] == views(old_out)[j] by {}
                }
                assert(views(out@) =~= glob_regexes(gs).take(i + 1));
            },
            Err(e) => {
                proof {
                    lemma_first_rejected_skip(gs, i as int);
                    assert(gs.skip(i as int)[0] == gs[i as int]);
                }
                return Err(e);
            },
        }
        i = i + 1;
    }
    proof {
        lemma_first_rejected_skip(gs, i as int);
        assert(gs.skip(i as int) =~= Seq::<Seq<char>>::empty());
        assert(glob_regexes(gs).take(i as int) =~= glob_regexes(gs));
    }
    Ok(out)
}

/// Whether a string is the word `enforce` or `monitor`.
fn mode_from(m: &String) -> (r: Option<Mode>)
    ensures
        r == mode_named(m@),
{
    let c = chars_of(m.as_str());
    let e = vec!['e', 'n', 'f', 'o', 'r', 'c', 'e'];
    let o = vec!['m', 'o', 'n', 'i', 't', 'o', 'r'];
    assert(e@ =~= enforce_word());
    assert(o@ =~= monitor_word());
    if chars_eq(c.as_slice(), e.as_slice()) {
        Some(Mode::Enforce)
    } else if chars_eq(c.as_slice(), o.as_slice()) {
        Some(Mode::Monitor)
    } else {
        None
    }
}

/// Copies the written syscall rules into built rules.
fn build_rules(deny: Vec<SyscallDenyRule>) -> (r: Vec<SyscallRule>)
    ensures
        rule_views(r@) == deny@.map_values(|x: SyscallDenyRule| rule_of(x)),
{
    let mut out: Vec<SyscallRule> = Vec::new();
    let mut i: usize = 0;
    while i < deny.len()
        invariant
            i <= deny.len(),
            out.len() == i,
            rule_views(out@) =~= deny@.map_values(|x: SyscallDenyRule| rule_of(x)).take(i as int),
        decreases deny.len() - i,
    {
        let rule = match &deny[i] {
            SyscallDenyRule::Simple(s) => SyscallRule { pattern: s.clone(), kill_on_deny: false },
            SyscallDenyRule::Structured { pattern, kill_on_deny } => SyscallRule {
                pattern: pattern.clone(),
                kill_on_deny: *kill_on_deny,
            },
        };
        let ghost old_out = out@;
        out.push(rule);
        proof {
            assert(out@ == old_out.push(rule));
            assert(rule_views(out@)[i as int] == rule_of(deny@[i as int]));
            assert forall|j: int| 0 <= j < i implies rule_views(out@)[j] == rule_views(old_out)[j] by {}
        }
        assert(rule_views(out@) =~= deny@.map_values(|x: SyscallDenyRule| rule_of(x)).take(
            i + 1,
        ));
        i = i + 1;
    }
    assert(deny@.map_values(|x: SyscallDenyRule| rule_of(x)).take(deny.len() as int)
        =~= deny@.map_values(|x: SyscallDenyRule| rule_of(x)));
    out
}

impl Policy {
    /// Validates a parsed policy file and translates all of its globs.
    ///
    /// The mode must be `enforce` or `monitor`; at least one of `allow_read` and
    /// `allow_write` must list something; every glob must give a regex the engine
    /// accepts (deny list first, then read, then write: the first refused glob is
    /// reported).
    pub fn from_raw(raw: RawPolicy) -> (r: Result<Policy, PolicyError>)
        ensures
            mode_named(raw.mode@) is None ==> (r matches Err(PolicyError::InvalidMode(m)) && m@
                == raw.mode@),
            mode_named(raw.mode@) is Some && raw.filesystem.allow_read.len() == 0
                && raw.filesystem.allow_write.len() == 0 ==> (r matches Err(
                PolicyError::EmptyAllowList,
            )),
            mode_named(raw.mode@) is Some && (raw.filesystem.allow_read.len() != 0
                || raw.filesystem.allow_write.len() != 0) ==> match r {
                Ok(p) => first_rejected(all_globs(raw)) is None && p@ == model_of(
                    raw,
                    mode_named(raw.mode@)->0,
                ),
                Err(e) => first_rejected(all_globs(raw)) matches Some(g) && (e matches PolicyError::InvalidGlob {
                    pattern: p,
                    ..
                } && p@ == g),
            },
    {
        let mode = match mode_from(&raw.mode) {
            Some(m) => m,
            None => {
                return Err(PolicyError::InvalidMode(raw.mode));
            },
        };
        if raw.filesystem.allow_read.len() == 0 && raw.filesystem.allow_write.len() == 0 {
            return Err(PolicyError::EmptyAllowList);
        }
        let ghost d = views(raw.filesystem.deny_always@);
        let ghost rd = views(raw.filesystem.allow_read@);
        let ghost wr = views(raw.filesystem.allow_write@);
        proof {
            lemma_first_rejected_concat(d + rd, wr);
            lemma_first_rejected_concat(d, rd);
        }
        let compiled_deny = match compile_globs(&raw.filesystem.deny_always) {
            Ok(v) => v,
            Err(e) => {
                return Err(e);
            },
        };
        let compiled_allow_read = match compile_globs(&raw.filesystem.allow_read) {
            Ok(v) => v,
            Err(e) => {
                return Err(e);
            },
        };
        let compiled_allow_write = match compile_globs(&raw.filesystem.allow_write) {
            Ok(v) => v,
            Err(e) => {
                return Err(e);
            },
        };
        let deny_syscalls = build_rules(raw.syscalls.deny);
        let raw_deny_always = raw.filesystem.deny_always.clone();
        let raw_allow_read = raw.filesystem.allow_read.clone();
        let raw_allow_write = raw.filesystem.allow_write.clone();
        let p = Policy {
            mode,
            compiled_deny,
            compiled_allow_read,
            compiled_allow_write,
            allow_domains: raw.network.allow_domains,
            deny_all_else: raw.network.deny_all_else,
            deny_syscalls,
            raw_deny_always,
            raw_allow_read,
            raw_allow_write,
        };
        assert(p@ =~= model_of(raw, mode));
        Ok(p)
    }

    /// The `allow_read` globs as written.
    pub fn allow_read_globs(&self) -> (r: &Vec<String>)
        ensures
            views(r@) == self@.raw_allow_read,
    {
        &self.raw_allow_read
    }

    /// The `allow_write` globs as written.
    pub fn allow_write_globs(&self) -> (r: &Vec<String>)
        ensures
            views(r@) == self@.raw_allow_write,
    {
        &self.raw_allow_write
    }

    /// The `deny_always` globs as written.
    pub fn deny_always_globs(&self) -> (r: &Vec<String>)
        ensures
            views(r@) == self@.raw_deny_always,
    {
        &self.raw_deny_always
    }

    /// The syscall deny rules.
    pub fn syscall_rules(&self) -> (r: &Vec<SyscallRule>)
        ensures
            rule_views(r@) == self@.deny_syscalls,
    {
        &self.deny_syscalls
    }

    /// Makes the policy a dry run: violations are then only logged, never punished.
    pub fn force_dry_run(&mut self)
        ensures
            final(self)@ == (PolicyModel { mode: Mode::Monitor, ..old(self)@ }),
    {
        proof {
            use_type_invariant(&*self);
        }
        self.mode = Mode::Monitor;
    }

    /// The mode of the policy.
    pub fn mode(&self) -> (m: Mode)
        ensures
            m == self@.mode,
    {
        self.mode
    }
}

/// The regexes a policy matches paths with are exactly those of its globs as written,
/// one for one and in order.
pub proof fn law_globs_compiled_from_raw(p: Policy)
    ensures
        p@.deny == glob_regexes(p@.raw_deny_always),
        p@.allow_read == glob_regexes(p@.raw_allow_read),
        p@.allow_write == glob_regexes(p@.raw_allow_write),
{
}

/// A path that some `deny_always` pattern matches is refused, for reading and for
/// writing, whatever the allow lists hold.
pub proof fn law_deny_always_wins(p: Policy, path: Seq<char>, for_write: bool)
    requires
        any_hit(p@.deny, path),
    ensures
        !spec_path_allowed(p@.deny, p@.allow_read, p@.allow_write, path, for_write),
{
}

/// Zero trust: a path that no pattern of the allow list for the access matches is
/// refused.
pub proof fn law_default_deny(p: Policy, path: Seq<char>, for_write: bool)
    requires
        !any_hit(if for_write { p@.allow_write } else { p@.allow_read }, path),
    ensures
        !spec_path_allowed(p@.deny, p@.allow_read, p@.allow_write, path, for_write),
{
}

/// A syscall that kills on deny is a denied syscall: no rule makes an allowed syscall
/// kill the process.
pub proof fn law_kill_implies_denied(rules: Seq<(Seq<char>, bool)>, syscall: Seq<char>)
    requires
        first_rule_kill(rules, syscall),
    ensures
        spec_syscall_denied(rules, syscall),
    decreases rules.len(),
{
    if rules.len() > 0 && !rule_matches(rules[0].0, syscall) {
        law_kill_implies_denied(rules.drop_first(), syscall);
        let i = choose|i: int|
            0 <= i < rules.drop_first().len() && rule_matches(rules.drop_first()[i].0, syscall);
        assert(rules[i + 1] == rules.drop_first()[i]);
    }
}

/// A domain is matched regardless of ASCII case.
pub proof fn law_domain_case_insensitive(
    allow_domains: Seq<Seq<char>>,
    deny_all_else: bool,
    a: Seq<char>,
    b: Seq<char>,
)
    requires
        eq_ignore_ascii_case(a, b),
    ensures
        spec_domain_allowed(allow_domains, deny_all_else, a) == spec_domain_allowed(
            allow_domains,
            deny_all_else,
            b,
        ),
{
    assert forall|i: int| 0 <= i < allow_domains.len() implies eq_ignore_ascii_case(
        allow_domains[i],
        a,
    ) == eq_ignore_ascii_case(allow_domains[i], b) by {}
}

/// A domain listed anywhere in `allow_domains` (up to ASCII case) is allowed, whatever
/// its place in the list.
pub proof fn law_listed_domain_allowed(
    allow_domains: Seq<Seq<char>>,
    deny_all_else: bool,
    domain: Seq<char>,
    i: int,
)
    requires
        0 <= i < allow_domains.len(),
        eq_ignore_ascii_case(allow_domains[i], domain),
    ensures
        spec_domain_allowed(allow_domains, deny_all_else, domain),
{
}

/// With `deny_all_else`, a domain that no listed domain equals (up to ASCII case) is
/// refused; without it, every domain is allowed.
pub proof fn law_unlisted_domain_refused(
    allow_domains: Seq<Seq<char>>,
    deny_all_else: bool,
    domain: Seq<char>,
)
    ensures
        !deny_all_else ==> spec_domain_allowed(allow_domains, deny_all_else, domain),
        deny_all_else && (forall|i: int|
            0 <= i < allow_domains.len() ==> !eq_ignore_ascii_case(#[trigger] allow_domains[i], domain))
            ==> !spec_domain_allowed(allow_domains, deny_all_else, domain),
{
}

/// The first rule that applies to a syscall, in list order, decides whether its
/// denial kills: later rules that also apply do not count.
pub proof fn law_first_applying_rule_decides_kill(
    rules: Seq<(Seq<char>, bool)>,
    syscall: Seq<char>,
    i: int,
)
    requires
        0 <= i < rules.len(),
        rule_matches(rules[i].0, syscall),
        forall|j: int| 0 <= j < i ==> !rule_matches(#[trigger] rules[j].0, syscall),
    ensures
        first_rule_kill(rules, syscall) == rules[i].1,
    decreases i,
{
    if i > 0 {
        let rest = rules.drop_first();
        assert(!rule_matches(rules[0].0, syscall));
        assert forall|j: int| 0 <= j < i - 1 implies !rule_matches(#[trigger] rest[j].0, syscall) by {
            assert(rest[j] == rules[j + 1]);
        }
        assert(rest[i - 1] == rules[i]);
        law_first_applying_rule_decides_kill(rest, syscall, i - 1);
    }
}

/// A syscall that no rule applies to is neither denied nor killed for.
pub proof fn law_no_applying_rule_no_kill(rules: Seq<(Seq<char>, bool)>, syscall: Seq<char>)
    requires
        forall|j: int| 0 <= j < rules.len() ==> !rule_matches(#[trigger] rules[j].0, syscall),
    ensures
        !first_rule_kill(rules, syscall),
        !spec_syscall_denied(rules, syscall),
    decreases rules.len(),
{
    if rules.len() > 0 {
        let rest = rules.drop_first();
        assert(!rule_matches(rules[0].0, syscall));
        assert forall|j: int| 0 <= j < rest.len() implies !rule_matches(#[trigger] rest[j].0, syscall) by {
            assert(rest[j] == rules[j + 1]);
        }
        law_no_applying_rule_no_kill(rest, syscall);
    }
}

} // verus!
