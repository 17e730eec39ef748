//! Glob patterns of a policy, their regular expressions, and the queries on paths,
//! domains and syscalls.
use vstd::prelude::*;

use crate::policy::{Policy, PolicyError};
use crate::text::{
    chars_contain, chars_eq, chars_of, chars_start_with, eq_ignore_ascii_case, push_char, seq_has,
    seq_prefix, str_eq_ignore_ascii_case, to_owned_string,
};

verus! {

broadcast use vstd::seq_lib::group_seq_properties;

/// A character with a meaning in regex syntax (as `regex_syntax::is_meta_character` lists them).
pub open spec fn is_regex_meta(c: char) -> bool {
    c == '\\' || c == '.' || c == '+' || c == '*' || c == '?' || c == '(' || c == ')' || c == '|'
        || c == '[' || c == ']' || c == '{' || c == '}' || c == '^' || c == '$' || c == '#' || c
        == '&' || c == '-' || c == '~'
}

/// One character made literal for a regex: meta characters get a backslash.
pub open spec fn escaped_char(c: char) -> Seq<char> {
    if is_regex_meta(c) {
        seq!['\\', c]
    } else {
        seq![c]
    }
}

/// A text made literal for a regex, character by character.
pub open spec fn regex_escaped(s: Seq<char>) -> Seq<char>
    decreases s.len(),
{
    if s.len() == 0 {
        Seq::<char>::empty()
    } else {
        escaped_char(s[0]) + regex_escaped(s.drop_first())
    }
}

/// `regex::escape`: puts a backslash before each regex meta character of `text`.
#[verifier::external_body]
fn regex_escape(text: &str) -> (r: String)
    ensures
        r@ == regex_escaped(text@),
{
    regex::escape(text)
}

/// Whether `regex::Regex::new` accepts the pattern.
pub uninterp spec fn regex_accepts(pattern: Seq<char>) -> bool;

/// Whether the regex built from `pattern` matches somewhere in `haystack` (`Regex::is_match`).
pub uninterp spec fn regex_matches(pattern: Seq<char>, haystack: Seq<char>) -> bool;

#[verifier::external_type_specification]
#[verifier::external_body]
pub struct ExRegexError(regex::Error);

/// `regex::Regex::new`: succeeds exactly on the patterns that `regex_accepts`; the
/// compiled regex itself is dropped, only the error is kept.
#[verifier::external_body]
fn regex_check(pattern: &str) -> (r: Result<(), regex::Error>)
    ensures
        r is Ok <==> regex_accepts(pattern@),
{
    regex::Regex::new(pattern).map(|_| ())
}

/// `regex::Regex::is_match` on the regex that `regex::Regex::new` builds from `pattern`;
/// false where the pattern is refused.
#[verifier::external_body]
fn regex_is_match(pattern: &str, haystack: &str) -> (r: bool)
    ensures
        r == (regex_accepts(pattern@) && regex_matches(pattern@, haystack@)),
{
    match regex::Regex::new(pattern) {
        Ok(re) => re.is_match(haystack),
        Err(_) => false,
    }
}

/// The regex text for the glob token at the start of `p`, and the token's length:
/// `**` is any text, `*` any text without `/`, `?` one character other than `/`,
/// `\x` the literal `x` (a trailing `\` is itself), anything else itself.
pub open spec fn glob_step(p: Seq<char>) -> (Seq<char>, nat) {
    if p.len() >= 2 && p[0] == '*' && p[1] == '*' {
        (seq!['.', '*'], 2)
    } else if p[0] == '*' {
        (seq!['[', '^', '/', ']', '*'], 1)
    } else if p[0] == '?' {
        (seq!['[', '^', '/', ']'], 1)
    } else if p[0] == '\\' {
        if p.len() >= 2 {
            (escaped_char(p[1]), 2)
        } else {
            (escaped_char('\\'), 1)
        }
    } else {
        (escaped_char(p[0]), 1)
    }
}

/// The regex body for a glob, token by token.
pub open spec fn glob_body(p: Seq<char>) -> Seq<char>
    decreases p.len(),
{
    if p.len() == 0 {
        Seq::<char>::empty()
    } else {
        glob_step(p).0 + glob_body(p.skip(glob_step(p).1 as int))
    }
}

/// The regex text and length of the glob token at position `i`.
fn glob_step_text(chars: &Vec<char>, i: usize) -> (r: (String, usize))
    requires
        i < chars.len(),
    ensures
        r.0@ == glob_step(chars@.skip(i as int)).0,
        r.1 == glob_step(chars@.skip(i as int)).1,
{
    let ghost rest = chars@.skip(i as int);
    let n = chars.len();
    assert(rest[0] == chars@[i as int]);
    if i + 1 < n && chars[i] == '*' && chars[i + 1] == '*' {
        assert(rest[1] == chars@[i + 1]);
        let mut t = String::new();
        push_char(&mut t, '.');
        push_char(&mut t, '*');
        assert(t@ =~= seq!['.', '*']);
        (t, 2)
    } else if chars[i] == '*' {
        assert(i + 1 < n ==> rest[1] == chars@[i + 1]);
        let mut t = String::new();
        push_char(&mut t, '[');
        push_char(&mut t, '^');
        push_char(&mut t, '/');
        push_char(&mut t, ']');
        push_char(&mut t, '*');
        assert(t@ =~= seq!['[', '^', '/', ']', '*']);
        (t, 1)
    } else if chars[i] == '?' {
        let mut t = String::new();
        push_char(&mut t, '[');
        push_char(&mut t, '^');
        push_char(&mut t, '/');
        push_char(&mut t, ']');
        assert(t@ =~= seq!['[', '^', '/', ']']);
        (t, 1)
    } else if chars[i] == '\\' {
        if i + 1 < n {
            assert(rest[1] == chars@[i + 1]);
            (escape_one(chars[i + 1]), 2)
        } else {
            (escape_one('\\'), 1)
        }
    } else {
        (escape_one(chars[i]), 1)
    }
}

/// The anchored regex of a glob.
pub open spec fn glob_regex(p: Seq<char>) -> Seq<char> {
    seq!['^'] + glob_body(p) + seq!['$']
}

/// A compiled regex source that is accepted and matches the text.
pub open spec fn regex_hit(src: Seq<char>, text: Seq<char>) -> bool {
    regex_accepts(src) && regex_matches(src, text)
}

/// Some regex source of the list hits the text.
pub open spec fn any_hit(srcs: Seq<Seq<char>>, text: Seq<char>) -> bool {
    exists|i: int| 0 <= i < srcs.len() && regex_hit(srcs[i], text)
}

proof fn lemma_escape_one(c: char)
    ensures
        regex_escaped(seq![c]) == escaped_char(c),
{
    reveal_with_fuel(regex_escaped, 2);
    assert(seq![c].drop_first() =~= Seq::<char>::empty());
    assert(escaped_char(c) + Seq::<char>::empty() =~= escaped_char(c));
}

/// The regex text that makes one character literal.
fn escape_one(c: char) -> (r: String)
    ensures
        r@ == escaped_char(c),
{
    let mut one = String::new();
    push_char(&mut one, c);
    proof {
        lemma_escape_one(c);
        assert(one@ =~= seq![c]);
    }
    regex_escape(one.as_str())
}

proof fn lemma_skip_skip(s: Seq<char>, i: int, k: int)
    requires
        0 <= i,
        0 <= k,
        i + k <= s.len(),
    ensures
        s.skip(i).skip(k) == s.skip(i + k),
{
    assert(s.skip(i).skip(k) =~= s.skip(i + k));
}

/// Translates a glob into an anchored regular expression and checks that the regex
/// engine accepts it.
pub fn glob_to_regex(pattern: &str) -> (r: Result<String, PolicyError>)
    ensures
        match r {
            Ok(src) => src@ == glob_regex(pattern@) && regex_accepts(src@),
            Err(e) => !regex_accepts(glob_regex(pattern@)) && (e matches PolicyError::InvalidGlob {
                pattern: p,
                ..
            } && p@ == pattern@),
        },
{
    let chars = chars_of(pattern);
    let n = chars.len();
    let mut body = String::new();
    let mut i: usize = 0;
    assert(chars@.skip(0) =~= chars@);
    while i < n
        invariant
            i <= n,
            n == chars@.len(),
            chars@ == pattern@,
            body@ + glob_body(chars@.skip(i as int)) =~= glob_body(chars@),
        decreases n - i,
    {
        let ghost rest = chars@.skip(i as int);
        let ghost before = body@;
        let (piece, k) = glob_step_text(&chars, i);
        body.append(piece.as_str());
        proof {
            assert(glob_body(rest) == glob_step(rest).0 + glob_body(rest.skip(k as int)));
            lemma_skip_skip(chars@, i as int, k as int);
            assert(body@ =~= before + piece@);
        }
        i = i + k;
    }
    proof {
        assert(chars@.skip(n as int) =~= Seq::<char>::empty());
        assert(body@ =~= glob_body(chars@));
    }
    let mut sb = String::new();
    push_char(&mut sb, '^');
    sb.append(body.as_str());
    push_char(&mut sb, '$');
    assert(sb@ =~= glob_regex(pattern@));
    match regex_check(sb.as_str()) {
        Ok(()) => Ok(sb),
        Err(source) => Err(PolicyError::InvalidGlob { pattern: to_owned_string(pattern), source }),
    }
}

/// The view of a list of strings.
pub open spec fn views(v: Seq<String>) -> Seq<Seq<char>> {
    v.map_values(|s: String| s@)
}

/// A syscall rule applies to a syscall name: the same text, or, for a rule without `:`,
/// the rule's name followed by `:` and a detail.
pub open spec fn rule_matches(pattern: Seq<char>, syscall: Seq<char>) -> bool {
    pattern == syscall || (!seq_has(pattern, ':') && seq_prefix(pattern.push(':'), syscall))
}

/// Whether a syscall rule applies to a syscall name.
pub fn rule_applies(pattern: &str, syscall: &str) -> (r: bool)
    ensures
        r == rule_matches(pattern@, syscall@),
{
    let p = chars_of(pattern);
    let s = chars_of(syscall);
    if chars_eq(p.as_slice(), s.as_slice()) {
        return true;
    }
    if !chars_contain(p.as_slice(), ':') {
        let mut q = p.clone();
        q.push(':');
        assert(q@ =~= pattern@.push(':'));
        return chars_start_with(s.as_slice(), q.as_slice());
    }
    false
}

/// The rules of a policy as (pattern, kill on deny) pairs.
pub open spec fn rule_views(v: Seq<crate::policy::SyscallRule>) -> Seq<(Seq<char>, bool)> {
    v.map_values(|r: crate::policy::SyscallRule| (r.pattern@, r.kill_on_deny))
}

/// Some rule applies to the syscall.
pub open spec fn spec_syscall_denied(rules: Seq<(Seq<char>, bool)>, syscall: Seq<char>) -> bool {
    exists|i: int| 0 <= i < rules.len() && rule_matches(rules[i].0, syscall)
}

/// The kill flag of the first rule that applies, false where none does.
pub open spec fn first_rule_kill(rules: Seq<(Seq<char>, bool)>, syscall: Seq<char>) -> bool
    decreases rules.len(),
{
    if rules.len() == 0 {
        false
    } else if rule_matches(rules[0].0, syscall) {
        rules[0].1
    } else {
        first_rule_kill(rules.drop_first(), syscall)
    }
}

/// Some allowed domain equals the domain up to ASCII case, or the policy lets every
/// other domain through.
pub open spec fn spec_domain_allowed(
    allow_domains: Seq<Seq<char>>,
    deny_all_else: bool,
    domain: Seq<char>,
) -> bool {
    (exists|i: int| 0 <= i < allow_domains.len() && eq_ignore_ascii_case(allow_domains[i], domain))
        || !deny_all_else
}

/// No deny regex hits the path, and some regex of the allow list for the access does.
pub open spec fn spec_path_allowed(
    deny: Seq<Seq<char>>,
    allow_read: Seq<Seq<char>>,
    allow_write: Seq<Seq<char>>,
    path: Seq<char>,
    for_write: bool,
) -> bool {
    !any_hit(deny, path) && any_hit(if for_write { allow_write } else { allow_read }, path)
}

/// Whether some regex of the list hits the text.
fn hits_any(srcs: &Vec<String>, text: &str) -> (r: bool)
    ensures
        r == any_hit(views(srcs@), text@),
{
    let mut i: usize = 0;
    while i < srcs.len()
        invariant
            i <= srcs.len(),
            forall|j: int| 0 <= j < i ==> !regex_hit(#[trigger] views(srcs@)[j], text@),
        decreases srcs.len() - i,
    {
        if regex_is_match(srcs[i].as_str(), text) {
            assert(regex_hit(views(srcs@)[i as int], text@));
            return true;
        }
        i = i + 1;
    }
    false
}

impl Policy {
    /// Whether the path may be read (or written, with `for_write`): a `deny_always`
    /// match refuses it whatever the allow lists say, and a path that no allow pattern
    /// matches is refused.
    pub fn path_allowed(&self, path: &str, for_write: bool) -> (r: bool)
        ensures
            r == spec_path_allowed(
                self@.deny,
                self@.allow_read,
                self@.allow_write,
                path@,
                for_write,
            ),
    {
        proof {
            use_type_invariant(self);
        }
        if hits_any(&self.compiled_deny, path) {
            return false;
        }
        if for_write {
            hits_any(&self.compiled_allow_write, path)
        } else {
            hits_any(&self.compiled_allow_read, path)
        }
    }

    /// Whether a connection to the domain is allowed: a listed domain (ignoring ASCII
    /// case) always is, any other only when `deny_all_else` is off.
    pub fn domain_allowed(&self, domain: &str) -> (r: bool)
        ensures
            r == spec_domain_allowed(self@.allow_domains, self@.deny_all_else, domain@),
    {
        let mut i: usize = 0;
        while i < self.allow_domains.len()
            invariant
                i <= self.allow_domains.len(),
                forall|j: int|
                    0 <= j < i ==> !eq_ignore_ascii_case(
                        #[trigger] views(self.allow_domains@)[j],
                        domain@,
                    ),
            decreases self.allow_domains.len() - i,
        {
            if str_eq_ignore_ascii_case(self.allow_domains[i].as_str(), domain) {
                assert(eq_ignore_ascii_case(views(self.allow_domains@)[i as int], domain@));
                return true;
            }
            i = i + 1;
        }
        !self.deny_all_else
    }

    /// Whether some deny rule applies to the syscall.
    pub fn syscall_denied(&self, syscall: &str) -> (r: bool)
        ensures
            r == spec_syscall_denied(self@.deny_syscalls, syscall@),
    {
        let mut i: usize = 0;
        while i < self.deny_syscalls.len()
            invariant
                i <= self.deny_syscalls.len(),
                forall|j: int|
                    0 <= j < i ==> !rule_matches(
                        #[trigger] rule_views(self.deny_syscalls@)[j].0,
                        syscall@,
                    ),
            decreases self.deny_syscalls.len() - i,
        {
            if rule_applies(self.deny_syscalls[i].pattern.as_str(), syscall) {
                assert(rule_matches(rule_views(self.deny_syscalls@)[i as int].0, syscall@));
                return true;
            }
            i = i + 1;
        }
        false
    }

    /// Whether a denied syscall also kills the process: the `kill_on_deny` of the first
    /// rule that applies, false where none does.
    pub fn should_kill_on_syscall_deny(&self, syscall: &str) -> (r: bool)
        ensures
            r == first_rule_kill(self@.deny_syscalls, syscall@),
    {
        let ghost rules = self@.deny_syscalls;
        let mut i: usize = 0;
        assert(rules.skip(0) =~= rules);
        while i < self.deny_syscalls.len()
            invariant
                i <= self.deny_syscalls.len(),
                rules == rule_views(self.deny_syscalls@),
                first_rule_kill(rules.skip(i as int), syscall@) == first_rule_kill(rules, syscall@),
            decreases self.deny_syscalls.len() - i,
        {
            let ghost rest = rules.skip(i as int);
            if rule_applies(self.deny_syscalls[i].pattern.as_str(), syscall) {
                assert(rest[0] == rules[i as int]);
                return self.deny_syscalls[i].kill_on_deny;
            }
            assert(rest.drop_first() =~= rules.skip(i + 1));
            i = i + 1;
        }
        assert(rules.skip(i as int) =~= Seq::<(Seq<char>, bool)>::empty());
        false
    }
}

} // verus!
