//! Drafting a policy from the events of an observed session.
use vstd::prelude::*;

use crate::path::{
    canonical, comp_views, components, last_slash, lemma_canonical_components,
    lemma_canonical_components_step, lemma_canonical_parent, lemma_canonical_prefix,
    lemma_canonical_split, lemma_render_prefix, parent_text, path_components, path_parent, render,
    render_components,
};
use crate::policy::matcher::views;
use crate::sorted::{insert_sorted, law_sorted_list_fixed_by_its_texts, strictly_sorted, text_views};
use crate::text::{
    all_ascii, ascii_lowercased, chars_contain_seq, chars_end_with, chars_eq, chars_of, char_ascii_lower, decimal, occurs_at, push_decimal, seq_contains, seq_prefix,
    seq_suffix, str_eq, string_from_chars, to_owned_string,
};

verus! {

broadcast use vstd::string::group_string_axioms;

/// How many leading components name the cluster of a path with `n` components: the
/// first two, and the third where a fourth follows.
pub open spec fn cluster_len(n: int) -> int {
    if n <= 2 {
        n
    } else if n == 3 {
        2
    } else {
        3
    }
}

/// The leading components that name the cluster of a path.
pub open spec fn cluster_key(c: Seq<Seq<char>>) -> Seq<Seq<char>> {
    c.take(cluster_len(c.len() as int))
}

/// No earlier path has the same components: this one stands for all of them.
pub open spec fn first_seen(ps: Seq<Seq<char>>, i: int) -> bool {
    forall|j: int| 0 <= j < i ==> components(#[trigger] ps[j]) != components(ps[i])
}

/// Path `j` stands for itself and lies in the cluster of path `i`.
pub open spec fn same_cluster(ps: Seq<Seq<char>>, i: int, j: int) -> bool {
    &&& 0 <= j < ps.len()
    &&& first_seen(ps, j)
    &&& cluster_key(components(ps[j])) == cluster_key(components(ps[i]))
}

/// Path `i` is the only one of its cluster.
pub open spec fn lone(ps: Seq<Seq<char>>, i: int) -> bool {
    forall|j: int| #[trigger] same_cluster(ps, i, j) ==> j == i
}

/// How many leading components two component lists share.
pub open spec fn common_len(a: Seq<Seq<char>>, b: Seq<Seq<char>>) -> nat
    decreases a.len(),
{
    if a.len() == 0 || b.len() == 0 || a[0] != b[0] {
        0
    } else {
        1 + common_len(a.drop_first(), b.drop_first())
    }
}

/// The longest common leading part of two component lists.
pub open spec fn lcp(a: Seq<Seq<char>>, b: Seq<Seq<char>>) -> Seq<Seq<char>> {
    a.take(common_len(a, b) as int)
}

/// The longest common leading part of path `i` and of the paths of its cluster
/// among the first `n`.
pub open spec fn cluster_common(ps: Seq<Seq<char>>, i: int, n: int) -> Seq<Seq<char>>
    decreases n,
{
    if n <= 0 {
        components(ps[i])
    } else if same_cluster(ps, i, n - 1) {
        lcp(cluster_common(ps, i, n - 1), components(ps[n - 1]))
    } else {
        cluster_common(ps, i, n - 1)
    }
}

/// `/**`
pub open spec fn stars() -> Seq<char> {
    seq!['/', '*', '*']
}

/// The glob of everything under the parent of a path, if it has a parent.
pub open spec fn parent_glob(p: Seq<char>) -> Option<Seq<char>> {
    match parent_text(p) {
        Some(par) => Some(
            if par == seq!['/'] {
                stars()
            } else {
                par + stars()
            },
        ),
        None => None,
    }
}

/// The glob that path `i` contributes:
/// - alone in its cluster: everything under its parent (`/**` where it has none);
/// - where the common ancestor of its cluster is empty or the root: everything
///   under its own parent;
/// - otherwise everything under the common ancestor, or under the ancestor's parent
///   (`/**` for the root) where the ancestor is itself one of the paths.
pub open spec fn glob_for(ps: Seq<Seq<char>>, i: int) -> Option<Seq<char>> {
    if lone(ps, i) {
        match parent_glob(ps[i]) {
            Some(g) => Some(g),
            None => Some(stars()),
        }
    } else {
        let common = cluster_common(ps, i, ps.len() as int);
        let cs = render(common);
        if cs.len() == 0 || cs == seq!['/'] {
            parent_glob(ps[i])
        } else if exists|j: int| #[trigger] same_cluster(ps, i, j) && components(ps[j]) == common {
            match parent_glob(cs) {
                Some(g) => Some(g),
                None => Some(cs + stars()),
            }
        } else {
            Some(cs + stars())
        }
    }
}

/// The globs contributed by the first `n` paths that stand for themselves.
pub open spec fn globs_upto(ps: Seq<Seq<char>>, n: int) -> Set<Seq<char>> {
    Set::new(
        |g: Seq<char>|
            exists|i: int| 0 <= i < n && first_seen(ps, i) && #[trigger] glob_for(ps, i) == Some(g),
    )
}

/// The globs that cover a list of observed paths.
pub open spec fn generalized(ps: Seq<Seq<char>>) -> Set<Seq<char>> {
    globs_upto(ps, ps.len() as int)
}

/// The observed paths with what the grouping reads from each.
struct Observed {
    texts: Vec<Vec<char>>,
    comps: Vec<Vec<Vec<char>>>,
    keys: Vec<Vec<Vec<char>>>,
    seen: Vec<bool>,
}

spec fn observed_of(o: &Observed, ps: Seq<Seq<char>>) -> bool {
    &&& o.texts@.len() == ps.len()
    &&& o.comps@.len() == ps.len()
    &&& o.keys@.len() == ps.len()
    &&& o.seen@.len() == ps.len()
    &&& forall|k: int|
        0 <= k < ps.len() ==> {
            &&& (#[trigger] o.texts@[k])@ == ps[k]
            &&& comp_views(o.comps@[k]@) == components(ps[k])
            &&& comp_views(o.keys@[k]@) == cluster_key(components(ps[k]))
            &&& o.seen@[k] == first_seen(ps, k)
        }
}

#[verifier::spinoff_prover]
fn comps_eq(a: &[Vec<char>], b: &[Vec<char>]) -> (r: bool)
    ensures
        r == (comp_views(a@) == comp_views(b@)),
{
    if a.len() != b.len() {
        assert(comp_views(a@).len() != comp_views(b@).len());
        return false;
    }
    let mut i: usize = 0;
    while i < a.len()
        invariant
            i <= a.len(),
            a.len() == b.len(),
            forall|j: int| 0 <= j < i ==> (#[trigger] a@[j])@ == b@[j]@,
        decreases a.len() - i,
    {
        if !chars_eq(a[i].as_slice(), b[i].as_slice()) {
            assert(comp_views(a@)[i as int] != comp_views(b@)[i as int]);
            return false;
        }
        i = i + 1;
    }
    assert(comp_views(a@) =~= comp_views(b@));
    true
}

fn take_comps(a: &[Vec<char>], k: usize) -> (r: Vec<Vec<char>>)
    requires
        k <= a.len(),
    ensures
        comp_views(r@) == comp_views(a@).take(k as int),
{
    let mut r: Vec<Vec<char>> = Vec::new();
    let mut i: usize = 0;
    while i < k
        invariant
            i <= k,
            k <= a.len(),
            comp_views(r@) == comp_views(a@).take(i as int),
        decreases k - i,
    {
        let c = a[i].clone();
        assert(c@ == a@[i as int]@);
        let ghost before = r@;
        r.push(c);
        assert(r@ == before.push(c));
        assert(comp_views(before).len() == i);
        assert(comp_views(r@).len() == i + 1);
        assert forall|j: int| 0 <= j <= i implies #[trigger] comp_views(r@)[j] == comp_views(
            a@,
        ).take(i + 1)[j] by {
            if j < i {
                assert(comp_views(before)[j] == comp_views(a@).take(i as int)[j]);
            }
        }
        i = i + 1;
        assert(comp_views(r@) =~= comp_views(a@).take(i as int));
    }
    r
}

proof fn lemma_common_len(a: Seq<Seq<char>>, b: Seq<Seq<char>>, k: int)
    requires
        0 <= k <= a.len(),
        k <= b.len(),
        forall|j: int| 0 <= j < k ==> a[j] == b[j],
        k == a.len() || k == b.len() || a[k] != b[k],
    ensures
        common_len(a, b) == k,
    decreases k,
{
    if k > 0 {
        lemma_common_len(a.drop_first(), b.drop_first(), k - 1);
    }
}

fn lcp_comps(a: &[Vec<char>], b: &[Vec<char>]) -> (r: Vec<Vec<char>>)
    ensures
        comp_views(r@) == lcp(comp_views(a@), comp_views(b@)),
{
    let mut k: usize = 0;
    while k < a.len() && k < b.len() && chars_eq(a[k].as_slice(), b[k].as_slice())
        invariant
            k <= a.len(),
            k <= b.len(),
            forall|j: int| 0 <= j < k ==> comp_views(a@)[j] == comp_views(b@)[j],
        decreases a.len() - k,
    {
        k = k + 1;
    }
    proof {
        lemma_common_len(comp_views(a@), comp_views(b@), k as int);
    }
    take_comps(a, k)
}

#[verifier::spinoff_prover]
fn observe(paths: &[String]) -> (o: Observed)
    ensures
        observed_of(&o, views(paths@)),
{
    let ghost ps = views(paths@);
    let mut texts: Vec<Vec<char>> = Vec::new();
    let mut comps: Vec<Vec<Vec<char>>> = Vec::new();
    let mut keys: Vec<Vec<Vec<char>>> = Vec::new();
    let mut i: usize = 0;
    while i < paths.len()
        invariant
            i <= paths.len(),
            ps == views(paths@),
            texts@.len() == i,
            comps@.len() == i,
            keys@.len() == i,
            forall|k: int|
                0 <= k < i ==> {
                    &&& (#[trigger] texts@[k])@ == ps[k]
                    &&& comp_views(comps@[k]@) == components(ps[k])
                    &&& comp_views(keys@[k]@) == cluster_key(components(ps[k]))
                },
        decreases paths.len() - i,
    {
        let t = chars_of(paths[i].as_str());
        let c = path_components(t.as_slice());
        let n = c.len();
        let kl: usize = if n <= 2 {
            n
        } else if n == 3 {
            2
        } else {
            3
        };
        let key = take_comps(c.as_slice(), kl);
        texts.push(t);
        comps.push(c);
        keys.push(key);
        i = i + 1;
    }
    let mut seen: Vec<bool> = Vec::new();
    assert forall|k: int| 0 <= k < ps.len() implies comp_views(#[trigger] comps@[k]@) == components(
        ps[k],
    ) by {
        assert(texts@[k]@ == ps[k]);
    }
    let mut i: usize = 0;
    while i < paths.len()
        invariant
            i <= paths.len(),
            ps.len() == paths.len(),
            comps@.len() == ps.len(),
            forall|k: int| 0 <= k < ps.len() ==> comp_views(#[trigger] comps@[k]@) == components(ps[k]),
            seen@.len() == i,
            forall|k: int| 0 <= k < i ==> #[trigger] seen@[k] == first_seen(ps, k),
        decreases paths.len() - i,
    {
        let mut fresh = true;
        let mut j: usize = 0;
        while j < i
            invariant
                j <= i,
                i < ps.len(),
                comps@.len() == ps.len(),
                forall|k: int|
                    0 <= k < ps.len() ==> comp_views(#[trigger] comps@[k]@) == components(ps[k]),
                fresh == (forall|m: int| 0 <= m < j ==> components(#[trigger] ps[m]) != components(ps[i as int])),
            decreases i - j,
        {
            if comps_eq(comps[j].as_slice(), comps[i].as_slice()) {
                fresh = false;
            }
            j = j + 1;
        }
        seen.push(fresh);
        i = i + 1;
    }
    let o = Observed { texts, comps, keys, seen };
    assert forall|k: int| 0 <= k < ps.len() implies {
        &&& (#[trigger] o.texts@[k])@ == ps[k]
        &&& comp_views(o.comps@[k]@) == components(ps[k])
        &&& comp_views(o.keys@[k]@) == cluster_key(components(ps[k]))
        &&& o.seen@[k] == first_seen(ps, k)
    } by {
        assert(o.seen@[k] == first_seen(ps, k));
    }
    o
}

fn same_cluster_at(o: &Observed, Ghost(ps): Ghost<Seq<Seq<char>>>, i: usize, j: usize) -> (r: bool)
    requires
        observed_of(o, ps),
        i < ps.len(),
        j < ps.len(),
    ensures
        r == same_cluster(ps, i as int, j as int),
{
    assert(o.texts@[i as int]@ == ps[i as int]);
    assert(o.texts@[j as int]@ == ps[j as int]);
    o.seen[j] && comps_eq(o.keys[j].as_slice(), o.keys[i].as_slice())
}

fn parent_glob_of(p: &[char]) -> (r: Option<Vec<char>>)
    ensures
        match parent_glob(p@) {
            Some(g) => r matches Some(v) && v@ == g,
            None => r is None,
        },
{
    match path_parent(p) {
        Some(par) => {
            if par.len() == 1 && par[0] == '/' {
                assert(par@ =~= seq!['/']);
                let g = vec!['/', '*', '*'];
                assert(g@ =~= stars());
                Some(g)
            } else {
                assert(par@ != seq!['/']);
                Some(with_stars(&par))
            }
        },
        None => None,
    }
}

fn with_stars(dir: &Vec<char>) -> (r: Vec<char>)
    ensures
        r@ == dir@ + stars(),
{
    let mut g = dir.clone();
    g.push('/');
    g.push('*');
    g.push('*');
    assert(g@ =~= dir@ + stars());
    g
}

fn glob_for_at(o: &Observed, Ghost(ps): Ghost<Seq<Seq<char>>>, i: usize) -> (r: Option<Vec<char>>)
    requires
        observed_of(o, ps),
        i < ps.len(),
    ensures
        match glob_for(ps, i as int) {
            Some(g) => r matches Some(v) && v@ == g,
            None => r is None,
        },
{
    let n = o.texts.len();
    assert(o.texts@[i as int]@ == ps[i as int]);
    let mut alone = true;
    let mut j: usize = 0;
    while j < n
        invariant
            j <= n,
            n == ps.len(),
            i < n,
            observed_of(o, ps),
            alone == (forall|m: int| 0 <= m < j && #[trigger] same_cluster(ps, i as int, m) ==> m == i),
        decreases n - j,
    {
        if j != i && same_cluster_at(o, Ghost(ps), i, j) {
            alone = false;
        }
        j = j + 1;
    }
    assert(alone == lone(ps, i as int));
    if alone {
        return match parent_glob_of(o.texts[i].as_slice()) {
            Some(g) => Some(g),
            None => {
                let g = vec!['/', '*', '*'];
                assert(g@ =~= stars());
                Some(g)
            },
        };
    }
    let mut common = o.comps[i].clone();
    let mut j: usize = 0;
    while j < n
        invariant
            j <= n,
            n == ps.len(),
            i < n,
            observed_of(o, ps),
            comp_views(common@) == cluster_common(ps, i as int, j as int),
        decreases n - j,
    {
        if same_cluster_at(o, Ghost(ps), i, j) {
            assert(o.texts@[j as int]@ == ps[j as int]);
            common = lcp_comps(common.as_slice(), o.comps[j].as_slice());
        }
        j = j + 1;
    }
    let cs = render_components(common.as_slice());
    if cs.len() == 0 || (cs.len() == 1 && cs[0] == '/') {
        if cs.len() == 1 {
            assert(cs@ =~= seq!['/']);
        }
        return parent_glob_of(o.texts[i].as_slice());
    }
    assert(cs@ != seq!['/']);
    let mut is_file = false;
    let mut j: usize = 0;
    while j < n
        invariant
            j <= n,
            n == ps.len(),
            i < n,
            observed_of(o, ps),
            comp_views(common@) == cluster_common(ps, i as int, n as int),
            is_file == (exists|m: int|
                0 <= m < j && #[trigger] same_cluster(ps, i as int, m) && components(ps[m])
                    == comp_views(common@)),
        decreases n - j,
    {
        if same_cluster_at(o, Ghost(ps), i, j) {
            assert(o.texts@[j as int]@ == ps[j as int]);
            if comps_eq(o.comps[j].as_slice(), common.as_slice()) {
                is_file = true;
            }
        }
        j = j + 1;
    }
    if is_file {
        match parent_glob_of(cs.as_slice()) {
            Some(g) => Some(g),
            None => Some(with_stars(&cs)),
        }
    } else {
        Some(with_stars(&cs))
    }
}

/// Groups observed paths into the globs that cover them, sorted and without repeats.
///
/// Paths with the same components count once (the first one written stands for
/// them). Paths are clustered by their first two components (three, where the path
/// goes deeper); each cluster gives the globs described at `glob_for`.
pub fn generalize_paths(paths: &[String]) -> (r: Vec<String>)
    ensures
        strictly_sorted(views(r@)),
        views(r@).to_set() == generalized(views(paths@)),
{
    let ghost ps = views(paths@);
    let o = observe(paths);
    let mut out: Vec<Vec<char>> = Vec::new();
    let mut i: usize = 0;
    assert(text_views(out@).to_set() =~= globs_upto(ps, 0));
    while i < paths.len()
        invariant
            i <= paths.len(),
            ps == views(paths@),
            observed_of(&o, ps),
            strictly_sorted(text_views(out@)),
            text_views(out@).to_set() == globs_upto(ps, i as int),
        decreases paths.len() - i,
    {
        assert(o.texts@[i as int]@ == ps[i as int]);
        if o.seen[i] {
            match glob_for_at(&o, Ghost(ps), i) {
                Some(g) => {
                    let ghost gv = g@;
                    insert_sorted(&mut out, g);
                    assert(text_views(out@).to_set() =~= globs_upto(ps, i + 1)) by {
                        assert(globs_upto(ps, i + 1) =~= globs_upto(ps, i as int).insert(gv));
                    }
                },
                None => {
                    assert(globs_upto(ps, i + 1) =~= globs_upto(ps, i as int));
                },
            }
        } else {
            assert(globs_upto(ps, i + 1) =~= globs_upto(ps, i as int));
        }
        i = i + 1;
    }
    let mut r: Vec<String> = Vec::new();
    let mut k: usize = 0;
    while k < out.len()
        invariant
            k <= out.len(),
            r@.len() == k,
            forall|m: int| 0 <= m < k ==> (#[trigger] r@[m])@ == out@[m]@,
        decreases out.len() - k,
    {
        r.push(string_from_chars(out[k].as_slice()));
        k = k + 1;
    }
    assert(views(r@) =~= text_views(out@));
    r
}


/// What std's `str::to_lowercase` gives for a text (full Unicode lower-casing).
pub uninterp spec fn lowercase(s: Seq<char>) -> Seq<char>;

/// std `str::to_lowercase`: its result is named `lowercase`; of an ASCII text it is
/// the text with `A`..`Z` turned into `a`..`z` (what the Unicode lower-case mapping
/// gives there). Nothing more is claimed of other texts.
#[verifier::external_body]
fn to_lowercase_text(s: &str) -> (r: String)
    ensures
        r@ == lowercase(s@),
        all_ascii(s@) ==> r@ == ascii_lowercased(s@),
{
    s.to_lowercase()
}

/// The lower-case form of a path: for an ASCII path its ASCII letters lower-cased.
pub open spec fn lowered(p: Seq<char>) -> Seq<char> {
    if all_ascii(p) {
        ascii_lowercased(p)
    } else {
        lowercase(p)
    }
}

/// A path that must never be suggested for an allow list: once lower-cased it holds
/// `.env`, `.ssh` or `id_rsa`, or ends with `.pem`.
pub open spec fn sensitive(p: Seq<char>) -> bool {
    let l = lowered(p);
    seq_contains(".env"@, l) || seq_contains(".ssh"@, l) || seq_contains("id_rsa"@, l)
        || seq_suffix(".pem"@, l)
}

/// Whether a path must be kept out of generated allow lists.
pub fn is_sensitive_path(path: &str) -> (r: bool)
    ensures
        r == sensitive(path@),
{
    let lower = to_lowercase_text(path);
    let l = chars_of(lower.as_str());
    let env = chars_of(".env");
    let ssh = chars_of(".ssh");
    let key = chars_of("id_rsa");
    let pem = chars_of(".pem");
    chars_contain_seq(l.as_slice(), env.as_slice()) || chars_contain_seq(l.as_slice(), ssh.as_slice())
        || chars_contain_seq(l.as_slice(), key.as_slice()) || chars_end_with(
        l.as_slice(),
        pem.as_slice(),
    )
}

/// One line of a session log, as far as the generator reads it.
#[derive(Debug, Clone, Default)]
pub struct LogLine {
    pub event_type: Option<String>,
    pub target: Option<String>,
    pub action: Option<String>,
}

/// The `filesystem` section of a generated policy.
#[derive(Debug, Clone)]
pub struct GeneratedFilesystem {
    pub allow_read: Vec<String>,
    pub allow_write: Vec<String>,
    pub deny_always: Vec<String>,
}

/// The `network` section of a generated policy.
#[derive(Debug, Clone)]
pub struct GeneratedNetwork {
    pub allow_domains: Vec<String>,
    pub deny_all_else: bool,
}

/// The `syscalls` section of a generated policy.
#[derive(Debug, Clone)]
pub struct GeneratedSyscalls {
    pub deny: Vec<String>,
}

/// A policy drafted from an observed session.
#[derive(Debug, Clone)]
pub struct GeneratedPolicy {
    pub mode: String,
    pub filesystem: GeneratedFilesystem,
    pub network: GeneratedNetwork,
    pub syscalls: GeneratedSyscalls,
}

/// The deny patterns every generated policy holds.
pub open spec fn mandatory_deny_always() -> Seq<Seq<char>> {
    seq!["**/.env"@, "**/.ssh/**"@, "**/id_rsa*"@, "**/*.pem"@]
}

/// The syscall rules every generated policy denies.
pub open spec fn mandatory_deny_syscalls() -> Seq<Seq<char>> {
    seq!["execve:/bin/sh"@, "execve:/bin/bash"@, "ptrace"@]
}

/// The targets of the events of one kind (its lower-cased name is `word`), in log
/// order; with `skip_sensitive`, sensitive paths are left out.
pub open spec fn observed_targets(
    lines: Seq<LogLine>,
    word: Seq<char>,
    skip_sensitive: bool,
) -> Seq<Seq<char>>
    decreases lines.len(),
{
    if lines.len() == 0 {
        Seq::empty()
    } else {
        let rest = observed_targets(lines.drop_last(), word, skip_sensitive);
        match (lines.last().event_type, lines.last().target) {
            (Some(et), Some(t)) => if lowered(et@) == word && !(skip_sensitive && sensitive(t@)) {
                rest.push(t@)
            } else {
                rest
            },
            _ => rest,
        }
    }
}

/// An observed syscall is risky where it and a mandatory rule hold one another.
pub open spec fn risky(sys: Seq<char>) -> bool {
    exists|k: int|
        0 <= k < mandatory_deny_syscalls().len() && (seq_contains(
            #[trigger] mandatory_deny_syscalls()[k],
            sys,
        ) || seq_contains(sys, mandatory_deny_syscalls()[k]))
}

/// The syscall rules a generated policy denies: the mandatory ones, and the risky
/// syscalls observed.
pub open spec fn denied_syscalls(lines: Seq<LogLine>) -> Set<Seq<char>> {
    Set::new(
        |s: Seq<char>|
            mandatory_deny_syscalls().contains(s) || (observed_targets(
                lines,
                "syscall"@,
                false,
            ).contains(s) && risky(s)),
    )
}

/// The policy drafted from the lines of a session log.
pub open spec fn drafted(lines: Seq<LogLine>, g: GeneratedPolicy) -> bool {
    &&& g.mode@ == "enforce"@
    &&& strictly_sorted(views(g.filesystem.allow_read@))
    &&& views(g.filesystem.allow_read@).to_set() == generalized(
        observed_targets(lines, "read"@, true),
    )
    &&& strictly_sorted(views(g.filesystem.allow_write@))
    &&& views(g.filesystem.allow_write@).to_set() == generalized(
        observed_targets(lines, "write"@, true),
    )
    &&& views(g.filesystem.deny_always@) == mandatory_deny_always()
    &&& strictly_sorted(views(g.network.allow_domains@))
    &&& views(g.network.allow_domains@).to_set() == observed_targets(
        lines,
        "network"@,
        false,
    ).to_set()
    &&& g.network.deny_all_else
    &&& strictly_sorted(views(g.syscalls.deny@))
    &&& views(g.syscalls.deny@).to_set() == denied_syscalls(lines)
}

fn strings_of(out: &Vec<Vec<char>>) -> (r: Vec<String>)
    ensures
        views(r@) == text_views(out@),
{
    let mut r: Vec<String> = Vec::new();
    let mut k: usize = 0;
    while k < out.len()
        invariant
            k <= out.len(),
            r@.len() == k,
            forall|m: int| 0 <= m < k ==> (#[trigger] r@[m])@ == out@[m]@,
        decreases out.len() - k,
    {
        r.push(string_from_chars(out[k].as_slice()));
        k = k + 1;
    }
    assert(views(r@) =~= text_views(out@));
    r
}

/// The texts, sorted and without repeats.
fn sort_dedup(v: &Vec<String>) -> (r: Vec<String>)
    ensures
        strictly_sorted(views(r@)),
        views(r@).to_set() == views(v@).to_set(),
{
    let mut out: Vec<Vec<char>> = Vec::new();
    let mut i: usize = 0;
    assert(text_views(out@).to_set() =~= views(v@).take(0).to_set());
    while i < v.len()
        invariant
            i <= v.len(),
            strictly_sorted(text_views(out@)),
            text_views(out@).to_set() == views(v@).take(i as int).to_set(),
        decreases v.len() - i,
    {
        let c = chars_of(v[i].as_str());
        insert_sorted(&mut out, c);
        assert(views(v@).take(i + 1) =~= views(v@).take(i as int).push(v@[i as int]@));
        proof {
            views(v@).take(i as int).lemma_push_to_set_commute(v@[i as int]@);
        }
        i = i + 1;
    }
    assert(views(v@).take(v.len() as int) =~= views(v@));
    strings_of(&out)
}

fn is_risky(sys: &str) -> (r: bool)
    ensures
        r == risky(sys@),
{
    let s = chars_of(sys);
    let m0 = chars_of("execve:/bin/sh");
    let m1 = chars_of("execve:/bin/bash");
    let m2 = chars_of("ptrace");
    let ghost ms = mandatory_deny_syscalls();
    assert(ms[0] == m0@ && ms[1] == m1@ && ms[2] == m2@);
    let r = chars_contain_seq(s.as_slice(), m0.as_slice()) || chars_contain_seq(
        m0.as_slice(),
        s.as_slice(),
    ) || chars_contain_seq(s.as_slice(), m1.as_slice()) || chars_contain_seq(
        m1.as_slice(),
        s.as_slice(),
    ) || chars_contain_seq(s.as_slice(), m2.as_slice()) || chars_contain_seq(
        m2.as_slice(),
        s.as_slice(),
    );
    proof {
        if risky(sys@) {
            let k = choose|k: int|
                0 <= k < ms.len() && (seq_contains(#[trigger] ms[k], sys@) || seq_contains(
                    sys@,
                    ms[k],
                ));
            assert(k == 0 || k == 1 || k == 2);
        }
        if r {
            if seq_contains(m0@, s@) || seq_contains(s@, m0@) {
                assert(seq_contains(ms[0], sys@) || seq_contains(sys@, ms[0]));
            } else if seq_contains(m1@, s@) || seq_contains(s@, m1@) {
                assert(seq_contains(ms[1], sys@) || seq_contains(sys@, ms[1]));
            } else {
                assert(seq_contains(ms[2], sys@) || seq_contains(sys@, ms[2]));
            }
        }
    }
    r
}

/// Drafts a policy from the parsed lines of a session log.
///
/// Reads and writes of paths that are not sensitive are generalized into globs;
/// observed domains are allowed, and everything else on the network is denied;
/// the mandatory deny patterns and syscall rules are always there, and an observed
/// syscall adds a rule only where it is risky. No syscall is ever allowed.
pub fn draft_policy(lines: &Vec<LogLine>) -> (g: GeneratedPolicy)
    ensures
        drafted(lines@, g),
{
    let mut reads: Vec<String> = Vec::new();
    let mut writes: Vec<String> = Vec::new();
    let mut domains: Vec<String> = Vec::new();
    let mut syscalls: Vec<String> = Vec::new();
    let mut i: usize = 0;
    assert(lines@.take(0) =~= Seq::<LogLine>::empty());
    while i < lines.len()
        invariant
            i <= lines.len(),
            views(reads@) == observed_targets(lines@.take(i as int), "read"@, true),
            views(writes@) == observed_targets(lines@.take(i as int), "write"@, true),
            views(domains@) == observed_targets(lines@.take(i as int), "network"@, false),
            views(syscalls@) == observed_targets(lines@.take(i as int), "syscall"@, false),
        decreases lines.len() - i,
    {
        proof {
            reveal_strlit("read");
            reveal_strlit("write");
            reveal_strlit("network");
            reveal_strlit("syscall");
            assert("read"@.len() == 4);
            assert("write"@.len() == 5);
            assert("network"@.len() == 7);
            assert("syscall"@.len() == 7);
            assert("network"@[0] != "syscall"@[0]);
        }
        let ghost pre = lines@.take(i as int);
        assert(lines@.take(i + 1).drop_last() =~= pre);
        assert(lines@.take(i + 1).last() == lines@[i as int]);
        let line = &lines[i];
        match (&line.event_type, &line.target) {
            (Some(et), Some(target)) => {
                let lower = to_lowercase_text(et.as_str());
                if str_eq(lower.as_str(), "read") {
                    if !is_sensitive_path(target.as_str()) {
                        reads.push(target.clone());
                        assert(views(reads@) =~= observed_targets(pre, "read"@, true).push(target@));
                    }
                } else if str_eq(lower.as_str(), "write") {
                    if !is_sensitive_path(target.as_str()) {
                        writes.push(target.clone());
                        assert(views(writes@) =~= observed_targets(pre, "write"@, true).push(
                            target@,
                        ));
                    }
                } else if str_eq(lower.as_str(), "network") {
                    domains.push(target.clone());
                    assert(views(domains@) =~= observed_targets(pre, "network"@, false).push(
                        target@,
                    ));
                } else if str_eq(lower.as_str(), "syscall") {
                    syscalls.push(target.clone());
                    assert(views(syscalls@) =~= observed_targets(pre, "syscall"@, false).push(
                        target@,
                    ));
                }
            },
            _ => {},
        }
        i = i + 1;
    }
    assert(lines@.take(lines.len() as int) =~= lines@);
    let allow_read = generalize_paths(reads.as_slice());
    let allow_write = generalize_paths(writes.as_slice());
    let allow_domains = sort_dedup(&domains);
    let mut deny: Vec<Vec<char>> = Vec::new();
    let m0 = chars_of("execve:/bin/sh");
    let m1 = chars_of("execve:/bin/bash");
    let m2 = chars_of("ptrace");
    insert_sorted(&mut deny, m0);
    insert_sorted(&mut deny, m1);
    insert_sorted(&mut deny, m2);
    let ghost obs = views(syscalls@);
    let ghost ms = mandatory_deny_syscalls();
    assert(text_views(deny@).to_set() =~= ms.to_set()) by {
        assert forall|x: Seq<char>| ms.contains(x) implies x == ms[0] || x == ms[1] || x == ms[2] by {}
        assert(ms.contains(ms[0]) && ms.contains(ms[1]) && ms.contains(ms[2]));
    }
    let mut k: usize = 0;
    while k < syscalls.len()
        invariant
            k <= syscalls.len(),
            obs == views(syscalls@),
            ms == mandatory_deny_syscalls(),
            strictly_sorted(text_views(deny@)),
            text_views(deny@).to_set() == Set::new(
                |s: Seq<char>| ms.contains(s) || (obs.take(k as int).contains(s) && risky(s)),
            ),
        decreases syscalls.len() - k,
    {
        let ghost before = text_views(deny@).to_set();
        let hit = is_risky(syscalls[k].as_str());
        assert(obs[k as int] == syscalls@[k as int]@);
        if hit {
            let c = chars_of(syscalls[k].as_str());
            insert_sorted(&mut deny, c);
        }
        assert forall|s: Seq<char>|
            obs.take(k + 1).contains(s) <==> (obs.take(k as int).contains(s) || s == obs[k as int]) by {
            if obs.take(k + 1).contains(s) {
                let j = choose|j: int| 0 <= j < k + 1 && #[trigger] obs.take(k + 1)[j] == s;
                if j < k {
                    assert(obs.take(k as int)[j] == s);
                }
            }
            if obs.take(k as int).contains(s) {
                let j = choose|j: int| 0 <= j < k && #[trigger] obs.take(k as int)[j] == s;
                assert(obs.take(k + 1)[j] == s);
            }
            if s == obs[k as int] {
                assert(obs.take(k + 1)[k as int] == s);
            }
        }
        let ghost target = Set::new(
            |s: Seq<char>| ms.contains(s) || (obs.take(k + 1).contains(s) && risky(s)),
        );
        assert forall|s: Seq<char>| text_views(deny@).to_set().contains(s) <==> target.contains(
            s,
        ) by {
            if s == obs[k as int] {
                assert(obs.take(k + 1)[k as int] == s);
                assert(obs.take(k + 1).contains(s));
            }
        }
        assert(text_views(deny@).to_set() =~= target);
        k = k + 1;
    }
    assert(obs.take(syscalls.len() as int) =~= obs);
    assert(text_views(deny@).to_set() =~= denied_syscalls(lines@));
    let deny_syscalls = strings_of(&deny);
    let mut deny_always: Vec<String> = Vec::new();
    deny_always.push(to_owned_string("**/.env"));
    deny_always.push(to_owned_string("**/.ssh/**"));
    deny_always.push(to_owned_string("**/id_rsa*"));
    deny_always.push(to_owned_string("**/*.pem"));
    assert(views(deny_always@) =~= mandatory_deny_always());
    GeneratedPolicy {
        mode: to_owned_string("enforce"),
        filesystem: GeneratedFilesystem { allow_read, allow_write, deny_always },
        network: GeneratedNetwork { allow_domains, deny_all_else: true },
        syscalls: GeneratedSyscalls { deny: deny_syscalls },
    }
}

/// The last component of a path where it is a name (std `Path::file_name`).
pub open spec fn file_name(p: Seq<char>) -> Option<Seq<char>> {
    let c = components(p);
    if c.len() > 0 && c.last() != seq!['/'] && c.last() != seq!['.'] && c.last() != seq!['.', '.'] {
        Some(c.last())
    } else {
        None
    }
}

/// How the header names the session log: its file name, or `sessao.jsonl`.
pub fn log_file_label(path: &str) -> (r: String)
    ensures
        r@ == match file_name(path@) {
            Some(n) => n,
            None => "sessao.jsonl"@,
        },
{
    let p = chars_of(path);
    let c = path_components(p.as_slice());
    if c.len() > 0 {
        let last = &c[c.len() - 1];
        assert(comp_views(c@).last() == last@);
        let is_root = last.len() == 1 && last[0] == '/';
        let is_cur = last.len() == 1 && last[0] == '.';
        let is_up = last.len() == 2 && last[0] == '.' && last[1] == '.';
        if !is_root && !is_cur && !is_up {
            if last.len() == 1 {
                assert(last@ != seq!['/'] && last@ != seq!['.']);
            }
            if last.len() == 2 {
                assert(last@ != seq!['.', '.']);
            }
            return string_from_chars(last.as_slice());
        }
        if is_root {
            assert(last@ =~= seq!['/']);
        }
        if is_cur {
            assert(last@ =~= seq!['.']);
        }
        if is_up {
            assert(last@ =~= seq!['.', '.']);
        }
    }
    to_owned_string("sessao.jsonl")
}

/// The comment block written above a generated policy.
pub open spec fn generation_header(name: Seq<char>, count: nat, timestamp: Seq<char>) -> Seq<char> {
    "# Política gerada automaticamente por `syscallcage generate-policy`\n# a partir de: "@ + name
        + " ("@ + decimal(count) + " eventos analisados)\n# Gerado em: "@ + timestamp
        + "\n#\n# REVISE ANTES DE USAR EM PRODUÇÃO. Isto reflete o que foi OBSERVADO\n# numa sessão, não uma auditoria de segurança. Confirme que os paths e\n# domínios abaixo fazem sentido para o seu caso de uso antes de rodar\n# em modo enforce.\n\n"@
}

/// Writes the comment block for a policy generated from `event_count` events of
/// the log `log_name`, at `timestamp`.
pub fn policy_header(log_name: &str, event_count: usize, timestamp: &str) -> (r: String)
    ensures
        r@ == generation_header(log_name@, event_count as nat, timestamp@),
{
    let mut h = to_owned_string(
        "# Política gerada automaticamente por `syscallcage generate-policy`\n# a partir de: ",
    );
    h.append(log_name);
    h.append(" (");
    push_decimal(&mut h, event_count as u64);
    h.append(" eventos analisados)\n# Gerado em: ");
    h.append(timestamp);
    h.append(
        "\n#\n# REVISE ANTES DE USAR EM PRODUÇÃO. Isto reflete o que foi OBSERVADO\n# numa sessão, não uma auditoria de segurança. Confirme que os paths e\n# domínios abaixo fazem sentido para o seu caso de uso antes de rodar\n# em modo enforce.\n\n",
    );
    h
}

/// Whether a log line is blank (nothing but white space), and so skipped.
pub fn is_blank_line(line: &str) -> (r: bool)
    ensures
        r == (crate::text::trim(line@).len() == 0),
{
    let c = chars_of(line);
    let t = crate::text::chars_trim(c.as_slice());
    t.len() == 0
}

/// A drafted policy never takes a sensitive path as evidence for an allow list: every
/// read or write it generalizes is one that is not sensitive.
pub proof fn law_sensitive_paths_left_out(lines: Seq<LogLine>, word: Seq<char>, k: int)
    requires
        0 <= k < observed_targets(lines, word, true).len(),
    ensures
        !sensitive(observed_targets(lines, word, true)[k]),
    decreases lines.len(),
{
    if lines.len() > 0 {
        let rest = observed_targets(lines.drop_last(), word, true);
        if k < rest.len() {
            law_sensitive_paths_left_out(lines.drop_last(), word, k);
        }
    }
}

/// Whatever the session showed, a drafted policy denies the mandatory credential
/// patterns and the mandatory syscall rules, and denies every other domain.
pub proof fn law_mandatory_denies_kept(lines: Seq<LogLine>, g: GeneratedPolicy)
    requires
        drafted(lines, g),
    ensures
        views(g.filesystem.deny_always@) == mandatory_deny_always(),
        forall|k: int|
            0 <= k < mandatory_deny_syscalls().len() ==> views(g.syscalls.deny@).contains(
                #[trigger] mandatory_deny_syscalls()[k],
            ),
        g.network.deny_all_else,
{
    assert forall|k: int| 0 <= k < mandatory_deny_syscalls().len() implies views(
        g.syscalls.deny@,
    ).contains(#[trigger] mandatory_deny_syscalls()[k]) by {
        assert(mandatory_deny_syscalls().contains(mandatory_deny_syscalls()[k]));
        assert(denied_syscalls(lines).contains(mandatory_deny_syscalls()[k]));
        assert(views(g.syscalls.deny@).to_set().contains(mandatory_deny_syscalls()[k]));
    }
}

/// An observed syscall that is not risky never becomes a rule of its own.
pub proof fn law_harmless_syscalls_add_no_rule(lines: Seq<LogLine>, g: GeneratedPolicy, s: Seq<char>)
    requires
        drafted(lines, g),
        !risky(s),
        !mandatory_deny_syscalls().contains(s),
    ensures
        !views(g.syscalls.deny@).contains(s),
{
    if views(g.syscalls.deny@).contains(s) {
        assert(views(g.syscalls.deny@).to_set().contains(s));
    }
}

/// The glob `d/**` covers the path as text: `d` followed by `/` begins the path.
pub open spec fn tree_covers(g: Seq<char>, p: Seq<char>) -> bool {
    g.len() >= 3 && g.skip(g.len() - 3) == stars() && seq_prefix(g.take(g.len() - 2), p)
}

/// `a` is a leading part of `b`.
pub open spec fn is_prefix(a: Seq<Seq<char>>, b: Seq<Seq<char>>) -> bool {
    a.len() <= b.len() && b.take(a.len() as int) == a
}

proof fn lemma_prefix_trans(a: Seq<Seq<char>>, b: Seq<Seq<char>>, c: Seq<Seq<char>>)
    requires
        is_prefix(a, b),
        is_prefix(b, c),
    ensures
        is_prefix(a, c),
{
    assert(c.take(a.len() as int) =~= b.take(a.len() as int));
}

proof fn lemma_lcp(a: Seq<Seq<char>>, b: Seq<Seq<char>>)
    ensures
        common_len(a, b) <= a.len(),
        common_len(a, b) <= b.len(),
        is_prefix(lcp(a, b), a),
        is_prefix(lcp(a, b), b),
        a.len() >= 1 && b.len() >= 1 && a[0] == b[0] ==> (lcp(a, b).len() >= 1 && lcp(a, b)[0]
            == a[0]),
    decreases a.len(),
{
    if a.len() > 0 && b.len() > 0 && a[0] == b[0] {
        let a1 = a.drop_first();
        let b1 = b.drop_first();
        lemma_lcp(a1, b1);
        let n = common_len(a1, b1) as int;
        assert(common_len(a, b) == n + 1);
        assert(a.take(n + 1) =~= seq![a[0]] + a1.take(n));
        assert(b.take(n + 1) =~= seq![b[0]] + b1.take(n));
        assert(lcp(a, b) == a.take(n + 1));
        assert(lcp(a1, b1) == a1.take(n));
        assert(b1.take(n) == a1.take(n));
        assert(b.take(lcp(a, b).len() as int) =~= lcp(a, b));
        assert(a.take(lcp(a, b).len() as int) =~= lcp(a, b));
    } else {
        assert(common_len(a, b) == 0);
        assert(lcp(a, b) =~= Seq::<Seq<char>>::empty());
        assert(b.take(0) =~= Seq::<Seq<char>>::empty());
        assert(a.take(0) =~= Seq::<Seq<char>>::empty());
    }
}

proof fn lemma_cluster_common(ps: Seq<Seq<char>>, i: int, n: int)
    requires
        0 <= i < ps.len(),
        n <= ps.len(),
        forall|t: int| 0 <= t < ps.len() ==> canonical(#[trigger] ps[t]),
    ensures
        is_prefix(cluster_common(ps, i, n), components(ps[i])),
        forall|j: int| 0 <= j < n && #[trigger] same_cluster(ps, i, j) ==> is_prefix(
            cluster_common(ps, i, n),
            components(ps[j]),
        ),
        cluster_common(ps, i, n).len() >= 1,
        cluster_common(ps, i, n)[0] == seq!['/'],
    decreases n,
{
    lemma_canonical_components(ps[i]);
    if n <= 0 {
        assert(components(ps[i]).take(components(ps[i]).len() as int) =~= components(ps[i]));
    } else {
        lemma_cluster_common(ps, i, n - 1);
        let prev = cluster_common(ps, i, n - 1);
        if same_cluster(ps, i, n - 1) {
            let c = components(ps[n - 1]);
            lemma_canonical_components(ps[n - 1]);
            lemma_lcp(prev, c);
            let l = lcp(prev, c);
            lemma_prefix_trans(l, prev, components(ps[i]));
            assert forall|j: int| 0 <= j < n && #[trigger] same_cluster(ps, i, j) implies is_prefix(
                l,
                components(ps[j]),
            ) by {
                if j < n - 1 {
                    lemma_prefix_trans(l, prev, components(ps[j]));
                }
            }
        }
    }
}

proof fn lemma_cluster_common_prefix(ps: Seq<Seq<char>>, i: int, n: int)
    requires
        0 <= i < ps.len(),
        n <= ps.len(),
    ensures
        is_prefix(cluster_common(ps, i, n), components(ps[i])),
        forall|j: int| 0 <= j < n && #[trigger] same_cluster(ps, i, j) ==> is_prefix(
            cluster_common(ps, i, n),
            components(ps[j]),
        ),
    decreases n,
{
    if n <= 0 {
        assert(components(ps[i]).take(components(ps[i]).len() as int) =~= components(ps[i]));
    } else {
        lemma_cluster_common_prefix(ps, i, n - 1);
        let prev = cluster_common(ps, i, n - 1);
        if same_cluster(ps, i, n - 1) {
            let c = components(ps[n - 1]);
            lemma_lcp(prev, c);
            let l = lcp(prev, c);
            lemma_prefix_trans(l, prev, components(ps[i]));
            assert forall|j: int| 0 <= j < n && #[trigger] same_cluster(ps, i, j) implies is_prefix(
                l,
                components(ps[j]),
            ) by {
                if j < n - 1 {
                    lemma_prefix_trans(l, prev, components(ps[j]));
                }
            }
        }
    }
}

proof fn lemma_parent_glob_covers(p: Seq<char>)
    requires
        canonical(p),
    ensures
        parent_glob(p) matches Some(g) && tree_covers(g, p),
{
    lemma_canonical_parent(p);
    lemma_canonical_split(p);
    let j = last_slash(p);
    assert(p[0] == '/') by {
        lemma_canonical_components(p);
        reveal(canonical);
    }
    if j == 0 {
        let g = stars();
        assert(g.skip(0) =~= stars());
        assert(g.take(1) =~= seq!['/']);
        assert(p.take(1) =~= seq!['/']);
    } else {
        let par = p.take(j);
        assert(par != seq!['/']) by {
            assert(par.len() >= 2);
        }
        let g = par + stars();
        assert(g.skip(g.len() - 3) =~= stars());
        assert(g.take(g.len() - 2) =~= p.take(j + 1));
    }
}

/// The first path with the same components as path `k`.
proof fn lemma_first_of_kind(ps: Seq<Seq<char>>, k: int) -> (i: int)
    requires
        0 <= k < ps.len(),
    ensures
        0 <= i <= k,
        first_seen(ps, i),
        components(ps[i]) == components(ps[k]),
    decreases k,
{
    if first_seen(ps, k) {
        k
    } else {
        let j = choose|j: int| 0 <= j < k && components(#[trigger] ps[j]) == components(ps[k]);
        lemma_first_of_kind(ps, j)
    }
}

/// `/**` covers every absolute path.
proof fn lemma_root_tree_covers(p: Seq<char>)
    requires
        canonical(p),
    ensures
        tree_covers(stars(), p),
{
    reveal(canonical);
    assert(stars().skip(0) =~= stars());
    assert(stars().take(1) =~= seq!['/']);
    assert(p.take(1) =~= seq!['/']);
}

/// The ancestor right under the root has the root as its parent.
proof fn lemma_ancestor_parent_root(p: Seq<char>)
    requires
        canonical(p),
        2 <= components(p).len(),
    ensures
        parent_text(render(components(p).take(2))) == Some(seq!['/']),
{
    let m = lemma_render_prefix(p, 2);
    let cs = p.take(m);
    if m < p.len() {
        lemma_canonical_prefix(p, m);
    } else {
        assert(p.take(m) =~= p);
    }
    lemma_canonical_components_step(cs);
    lemma_canonical_split(cs);
    lemma_canonical_parent(cs);
    if last_slash(cs) > 0 {
        lemma_canonical_components(cs.take(last_slash(cs)));
        assert(components(cs).len() >= 3);
    }
}

/// For an ancestor of at least three components, its parent's tree covers the path.
#[verifier::spinoff_prover]
proof fn lemma_ancestor_parent_covers(p: Seq<char>, kl: int)
    requires
        canonical(p),
        3 <= kl <= components(p).len(),
    ensures
        parent_text(render(components(p).take(kl))) matches Some(par) && tree_covers(
            par + stars(),
            p,
        ),
{
    let m = lemma_render_prefix(p, kl);
    let cs = p.take(m);
    if m < p.len() {
        lemma_canonical_prefix(p, m);
    } else {
        assert(p.take(m) =~= p);
    }
    lemma_canonical_components_step(cs);
    lemma_canonical_split(cs);
    lemma_canonical_parent(cs);
    let jj = last_slash(cs);
    assert(jj > 0);
    let par = cs.take(jj);
    let g = par + stars();
    assert(g.skip(g.len() - 3) =~= stars());
    assert(g.take(g.len() - 2) =~= p.take(jj + 1));
}

/// For an ancestor that is not the path itself, its tree covers the path.
#[verifier::spinoff_prover]
proof fn lemma_ancestor_covers(p: Seq<char>, kl: int)
    requires
        canonical(p),
        2 <= kl < components(p).len(),
    ensures
        render(components(p).take(kl)).len() >= 2,
        tree_covers(render(components(p).take(kl)) + stars(), p),
{
    let m = lemma_render_prefix(p, kl);
    let cs = p.take(m);
    let g = cs + stars();
    assert(g.skip(g.len() - 3) =~= stars());
    assert(g.take(g.len() - 2) =~= p.take(m + 1));
}

/// The ancestor of a cluster is at least two components long unless it is the root,
/// and then it is written `/`.
proof fn lemma_ancestor_text(p: Seq<char>, l: Seq<Seq<char>>)
    requires
        canonical(p),
        is_prefix(l, components(p)),
        l.len() >= 1,
        l[0] == seq!['/'],
    ensures
        l.len() == 1 ==> render(l) == seq!['/'],
        l.len() >= 2 ==> render(l).len() >= 2,
{
    if l.len() == 1 {
        assert(l =~= seq![seq!['/']]);
        assert(l.drop_last() =~= Seq::<Seq<char>>::empty());
        assert(render(l) =~= seq!['/']);
    } else {
        lemma_canonical_components(p);
        let m = lemma_render_prefix(p, l.len() as int);
    }
}

#[verifier::spinoff_prover]
#[verifier::rlimit(50)]
proof fn lemma_glob_for_covers(ps: Seq<Seq<char>>, i: int)
    requires
        0 <= i < ps.len(),
        first_seen(ps, i),
        forall|t: int| 0 <= t < ps.len() ==> canonical(#[trigger] ps[t]),
    ensures
        glob_for(ps, i) matches Some(g) && tree_covers(g, ps[i]),
{
    let p = ps[i];
    assert(canonical(p));
    lemma_canonical_components(p);
    lemma_parent_glob_covers(p);
    if !lone(ps, i) {
        let n = ps.len() as int;
        lemma_cluster_common(ps, i, n);
        let l = cluster_common(ps, i, n);
        let c = components(p);
        let kl = l.len() as int;
        lemma_ancestor_text(p, l);
        if kl >= 2 {
            assert(c.take(kl) == l);
            if exists|j: int| #[trigger] same_cluster(ps, i, j) && components(ps[j]) == l {
                let cs = render(l);
                if kl == 2 {
                    lemma_ancestor_parent_root(p);
                } else {
                    lemma_ancestor_parent_covers(p, kl);
                }
                lemma_root_tree_covers(p);
            } else {
                assert(same_cluster(ps, i, i));
                if kl == c.len() {
                    assert(c.take(kl) =~= c);
                }
                lemma_ancestor_covers(p, kl);
            }
        }
    }
}

/// Every observed path is covered by one of the generalized globs: some glob `d/**`
/// has `d/` at the start of the path. This holds for absolute paths written without
/// repeated separators, `.` pieces or a trailing separator.
pub proof fn law_generalized_globs_cover(ps: Seq<Seq<char>>, k: int)
    requires
        0 <= k < ps.len(),
        forall|t: int| 0 <= t < ps.len() ==> canonical(#[trigger] ps[t]),
    ensures
        exists|g: Seq<char>| generalized(ps).contains(g) && tree_covers(g, ps[k]),
{
    let i = lemma_first_of_kind(ps, k);
    lemma_canonical_components(ps[i]);
    lemma_canonical_components(ps[k]);
    assert(ps[i] == ps[k]);
    lemma_glob_for_covers(ps, i);
    let g = glob_for(ps, i)->0;
    assert(generalized(ps).contains(g));
}

/// The component lists of the paths in the cluster of path `i`, each once.
pub open spec fn cluster_members(ps: Seq<Seq<char>>, i: int) -> Set<Seq<Seq<char>>> {
    Set::new(
        |c: Seq<Seq<char>>| exists|j: int| #[trigger] same_cluster(ps, i, j) && components(ps[j]) == c,
    )
}

/// `l` is the longest leading part that all of `t` share: a leading part of each, and
/// either one of them or the point where two of them part.
pub open spec fn longest_common(t: Set<Seq<Seq<char>>>, l: Seq<Seq<char>>) -> bool {
    &&& forall|c: Seq<Seq<char>>| #[trigger] t.contains(c) ==> is_prefix(l, c)
    &&& parts_at(t, l)
}

/// `l` is one of `t`, or two of `t` go on past `l` and differ right after it.
pub open spec fn parts_at(t: Set<Seq<Seq<char>>>, l: Seq<Seq<char>>) -> bool {
    t.contains(l) || exists|c1: Seq<Seq<char>>, c2: Seq<Seq<char>>|
        #![trigger t.contains(c1), t.contains(c2)]
        t.contains(c1) && t.contains(c2) && c1.len() > l.len() && c2.len() > l.len() && c1[l.len()
            as int] != c2[l.len() as int]
}

proof fn lemma_common_len_stop(a: Seq<Seq<char>>, b: Seq<Seq<char>>)
    ensures
        common_len(a, b) < a.len() && common_len(a, b) < b.len() ==> a[common_len(a, b) as int]
            != b[common_len(a, b) as int],
    decreases a.len(),
{
    if a.len() > 0 && b.len() > 0 && a[0] == b[0] {
        lemma_common_len_stop(a.drop_first(), b.drop_first());
    }
}

proof fn lemma_shorter_not_longest(t: Set<Seq<Seq<char>>>, l1: Seq<Seq<char>>, l2: Seq<Seq<char>>)
    requires
        parts_at(t, l1),
        forall|c: Seq<Seq<char>>| #[trigger] t.contains(c) ==> is_prefix(l2, c),
    ensures
        l2.len() <= l1.len(),
{
    if l1.len() >= l2.len() {
    } else if t.contains(l1) {
        assert(is_prefix(l2, l1));
    } else {
        let (c1, c2) = choose|c1: Seq<Seq<char>>, c2: Seq<Seq<char>>|
            #![trigger t.contains(c1), t.contains(c2)]
            t.contains(c1) && t.contains(c2) && c1.len() > l1.len() && c2.len() > l1.len()
                && c1[l1.len() as int] != c2[l1.len() as int];
        assert(is_prefix(l2, c1));
        assert(is_prefix(l2, c2));
        let k = l1.len() as int;
        assert(c1.take(l2.len() as int)[k] == c1[k]);
        assert(c2.take(l2.len() as int)[k] == c2[k]);
    }
}

/// Two longest common parts of one non-empty set are the same.
proof fn lemma_longest_common_unique(
    t: Set<Seq<Seq<char>>>,
    l1: Seq<Seq<char>>,
    l2: Seq<Seq<char>>,
    c0: Seq<Seq<char>>,
)
    requires
        t.contains(c0),
        longest_common(t, l1),
        longest_common(t, l2),
    ensures
        l1 == l2,
{
    lemma_shorter_not_longest(t, l1, l2);
    lemma_shorter_not_longest(t, l2, l1);
    assert(is_prefix(l1, c0));
    assert(is_prefix(l2, c0));
    assert(l1 =~= l2);
}

/// No two different texts of the list name the same path (have the same
/// components).
pub open spec fn one_text_per_path(ps: Seq<Seq<char>>) -> bool {
    forall|a: int, b: int|
        #![trigger components(ps[a]), components(ps[b])]
        0 <= a < ps.len() && 0 <= b < ps.len() && components(ps[a]) == components(ps[b]) ==> ps[a]
            == ps[b]
}

/// The common ancestor of a cluster is one of its paths or where two of them part.
proof fn lemma_cluster_common_parts(ps: Seq<Seq<char>>, i: int, n: int)
    requires
        0 <= i < ps.len(),
        first_seen(ps, i),
        0 <= n <= ps.len(),
    ensures
        parts_at(cluster_members(ps, i), cluster_common(ps, i, n)),
    decreases n,
{
    let t = cluster_members(ps, i);
    assert(same_cluster(ps, i, i));
    assert(t.contains(components(ps[i])));
    if n > 0 {
        lemma_cluster_common_parts(ps, i, n - 1);
        if same_cluster(ps, i, n - 1) {
            let prev = cluster_common(ps, i, n - 1);
            let c = components(ps[n - 1]);
            assert(t.contains(c));
            lemma_lcp(prev, c);
            lemma_common_len_stop(prev, c);
            lemma_cluster_common_prefix(ps, i, n - 1);
            let k = common_len(prev, c) as int;
            let l = lcp(prev, c);
            if k == prev.len() {
                assert(l =~= prev);
            } else if k == c.len() {
                assert(l =~= c);
            } else {
                let ci = components(ps[i]);
                assert(ci.take(prev.len() as int)[k] == ci[k]);
                assert(t.contains(ci) && t.contains(c) && ci.len() > l.len() && c.len() > l.len()
                    && ci[l.len() as int] != c[l.len() as int]);
            }
        }
    }
}

/// The common ancestor of a cluster is the longest part its paths share.
proof fn lemma_cluster_common_longest(ps: Seq<Seq<char>>, i: int)
    requires
        0 <= i < ps.len(),
        first_seen(ps, i),
    ensures
        longest_common(cluster_members(ps, i), cluster_common(ps, i, ps.len() as int)),
{
    let t = cluster_members(ps, i);
    let n = ps.len() as int;
    lemma_cluster_common_prefix(ps, i, n);
    lemma_cluster_common_parts(ps, i, n);
    assert forall|c: Seq<Seq<char>>| #[trigger] t.contains(c) implies is_prefix(
        cluster_common(ps, i, n),
        c,
    ) by {
        let j = choose|j: int| #[trigger] same_cluster(ps, i, j) && components(ps[j]) == c;
    }
}

/// Path `i` is alone in its cluster exactly when its cluster holds no other
/// component list.
proof fn lemma_lone_members(ps: Seq<Seq<char>>, i: int)
    requires
        0 <= i < ps.len(),
        first_seen(ps, i),
    ensures
        lone(ps, i) <==> (forall|c: Seq<Seq<char>>| #[trigger]
            cluster_members(ps, i).contains(c) ==> c == components(ps[i])),
{
    let t = cluster_members(ps, i);
    if lone(ps, i) {
        assert forall|c: Seq<Seq<char>>| #[trigger] t.contains(c) implies c == components(ps[i]) by {
            let j = choose|j: int| #[trigger] same_cluster(ps, i, j) && components(ps[j]) == c;
        }
    }
    if forall|c: Seq<Seq<char>>| #[trigger] t.contains(c) ==> c == components(ps[i]) {
        assert forall|j: int| #[trigger] same_cluster(ps, i, j) implies j == i by {
            assert(t.contains(components(ps[j])));
            if j < i {
                assert(components(ps[j]) != components(ps[i]));
            } else if j > i {
                assert(components(ps[i]) != components(ps[j]));
            }
        }
    }
}

proof fn lemma_members_sub(ps: Seq<Seq<char>>, ps2: Seq<Seq<char>>, i: int, i2: int)
    requires
        ps.to_set() == ps2.to_set(),
        0 <= i < ps.len(),
        0 <= i2 < ps2.len(),
        components(ps[i]) == components(ps2[i2]),
    ensures
        forall|c: Seq<Seq<char>>| #[trigger]
            cluster_members(ps, i).contains(c) ==> cluster_members(ps2, i2).contains(c),
{
    assert forall|c: Seq<Seq<char>>| #[trigger]
        cluster_members(ps, i).contains(c) implies cluster_members(ps2, i2).contains(c) by {
        let j = choose|j: int| #[trigger] same_cluster(ps, i, j) && components(ps[j]) == c;
        assert(ps.contains(ps[j]));
        assert(ps.to_set().contains(ps[j]));
        assert(ps2.to_set().contains(ps[j]));
        let k = choose|k: int| 0 <= k < ps2.len() && ps2[k] == ps[j];
        let j2 = lemma_first_of_kind(ps2, k);
        assert(same_cluster(ps2, i2, j2));
    }
}

proof fn lemma_glob_for_same(ps: Seq<Seq<char>>, ps2: Seq<Seq<char>>, i: int, i2: int)
    requires
        one_text_per_path(ps),
        one_text_per_path(ps2),
        ps.to_set() == ps2.to_set(),
        0 <= i < ps.len(),
        0 <= i2 < ps2.len(),
        first_seen(ps, i),
        first_seen(ps2, i2),
        ps[i] == ps2[i2],
    ensures
        glob_for(ps, i) == glob_for(ps2, i2),
{
    lemma_members_sub(ps, ps2, i, i2);
    lemma_members_sub(ps2, ps, i2, i);
    let t = cluster_members(ps, i);
    assert(t =~= cluster_members(ps2, i2));
    lemma_lone_members(ps, i);
    lemma_lone_members(ps2, i2);
    if !lone(ps, i) {
        lemma_cluster_common_longest(ps, i);
        lemma_cluster_common_longest(ps2, i2);
        assert(same_cluster(ps, i, i));
        assert(t.contains(components(ps[i])));
        let l = cluster_common(ps, i, ps.len() as int);
        lemma_longest_common_unique(
            t,
            l,
            cluster_common(ps2, i2, ps2.len() as int),
            components(ps[i]),
        );
        assert((exists|j: int| #[trigger] same_cluster(ps, i, j) && components(ps[j]) == l)
            == t.contains(l));
        assert((exists|j: int| #[trigger] same_cluster(ps2, i2, j) && components(ps2[j]) == l)
            == t.contains(l));
    }
}

proof fn lemma_generalized_sub(ps: Seq<Seq<char>>, ps2: Seq<Seq<char>>)
    requires
        one_text_per_path(ps),
        one_text_per_path(ps2),
        ps.to_set() == ps2.to_set(),
    ensures
        forall|g: Seq<char>| #[trigger] generalized(ps).contains(g) ==> generalized(ps2).contains(g),
{
    assert forall|g: Seq<char>| #[trigger] generalized(ps).contains(g) implies generalized(
        ps2,
    ).contains(g) by {
        let i = choose|i: int|
            0 <= i < ps.len() && first_seen(ps, i) && #[trigger] glob_for(ps, i) == Some(g);
        assert(ps.contains(ps[i]));
        assert(ps.to_set().contains(ps[i]));
        assert(ps2.to_set().contains(ps[i]));
        let k = choose|k: int| 0 <= k < ps2.len() && ps2[k] == ps[i];
        let i2 = lemma_first_of_kind(ps2, k);
        assert(ps2[i2] == ps2[k]);
        lemma_glob_for_same(ps, ps2, i, i2);
        assert(0 <= i2 < ps2.len() && first_seen(ps2, i2) && glob_for(ps2, i2) == Some(g));
    }
}

/// The globs depend only on which paths were observed: listing the same paths in
/// another order, or with repeats, gives the same globs. This holds where no two
/// different texts name the same path (as `/a/b` and `/a//b` do), which is the case
/// for paths written without repeated separators, `.` pieces or a trailing
/// separator.
pub proof fn law_generalized_ignores_order_and_repeats(ps: Seq<Seq<char>>, ps2: Seq<Seq<char>>)
    requires
        one_text_per_path(ps),
        one_text_per_path(ps2),
        ps.to_set() == ps2.to_set(),
    ensures
        generalized(ps) == generalized(ps2),
{
    lemma_generalized_sub(ps, ps2);
    lemma_generalized_sub(ps2, ps);
    assert(generalized(ps) =~= generalized(ps2));
}

/// Every generalized glob is a `d/**` that covers at least one observed path: no glob
/// is drafted for nothing. This holds for absolute paths written without repeated
/// separators, `.` pieces or a trailing separator.
pub proof fn law_each_glob_covers_an_observed_path(ps: Seq<Seq<char>>, g: Seq<char>)
    requires
        forall|t: int| 0 <= t < ps.len() ==> canonical(#[trigger] ps[t]),
        generalized(ps).contains(g),
    ensures
        g.len() >= 3 && g.skip(g.len() - 3) == stars(),
        exists|k: int| 0 <= k < ps.len() && tree_covers(g, #[trigger] ps[k]),
{
    let i = choose|i: int|
        0 <= i < ps.len() && first_seen(ps, i) && #[trigger] glob_for(ps, i) == Some(g);
    lemma_glob_for_covers(ps, i);
    assert(tree_covers(g, ps[i]));
}

/// There are globs exactly when some path was observed (for absolute paths written
/// without repeated separators, `.` pieces or a trailing separator).
pub proof fn law_generalized_empty_exactly_without_paths(ps: Seq<Seq<char>>)
    requires
        forall|t: int| 0 <= t < ps.len() ==> canonical(#[trigger] ps[t]),
    ensures
        (generalized(ps) == Set::<Seq<char>>::empty()) <==> ps.len() == 0,
{
    if ps.len() == 0 {
        assert(generalized(ps) =~= Set::<Seq<char>>::empty());
    } else {
        assert(first_seen(ps, 0));
        lemma_glob_for_covers(ps, 0);
        let g = glob_for(ps, 0)->0;
        assert(generalized(ps).contains(g));
    }
}

/// What `generalize_paths` returns for two lists of the same paths (in any order,
/// with any repeats) is the same list: both are the strictly sorted list of the same
/// globs.
pub proof fn law_generalize_paths_output_ignores_order_and_repeats(
    ps: Seq<Seq<char>>,
    ps2: Seq<Seq<char>>,
    r: Seq<Seq<char>>,
    r2: Seq<Seq<char>>,
)
    requires
        one_text_per_path(ps),
        one_text_per_path(ps2),
        ps.to_set() == ps2.to_set(),
        strictly_sorted(r),
        r.to_set() == generalized(ps),
        strictly_sorted(r2),
        r2.to_set() == generalized(ps2),
    ensures
        r == r2,
{
    law_generalized_ignores_order_and_repeats(ps, ps2);
    law_sorted_list_fixed_by_its_texts(r, r2);
}

/// A path is sensitive exactly when its lower-cased text holds `.env`, `.ssh` or
/// `id_rsa` anywhere, or ends with `.pem`: each of the four marks alone is enough.
pub proof fn law_sensitive_marks(p: Seq<char>)
    ensures
        seq_contains(".env"@, lowered(p)) ==> sensitive(p),
        seq_contains(".ssh"@, lowered(p)) ==> sensitive(p),
        seq_contains("id_rsa"@, lowered(p)) ==> sensitive(p),
        seq_suffix(".pem"@, lowered(p)) ==> sensitive(p),
        sensitive(p) ==> seq_contains(".env"@, lowered(p)) || seq_contains(".ssh"@, lowered(p))
            || seq_contains("id_rsa"@, lowered(p)) || seq_suffix(".pem"@, lowered(p)),
{
}

proof fn lemma_lower_mark_kept(w: Seq<char>, p: Seq<char>, i: int)
    requires
        all_ascii(p),
        occurs_at(w, p, i),
        forall|k: int| 0 <= k < w.len() ==> !(65 <= (#[trigger] w[k] as u32) <= 90),
    ensures
        occurs_at(w, lowered(p), i),
{
    let l = lowered(p);
    assert forall|k: int| 0 <= k < w.len() implies #[trigger] l.subrange(i, i + w.len())[k] == w[k] by {
        assert(p.subrange(i, i + w.len())[k] == w[k]);
        assert(l[i + k] == char_ascii_lower(p[i + k]));
    }
    assert(l.subrange(i, i + w.len()) =~= w);
}

/// An ASCII path that holds `id_rsa`, `.env` or `.ssh` as written (in lower case) is
/// sensitive, and so never taken as evidence for a drafted allow list.
pub proof fn law_key_names_make_a_path_sensitive(p: Seq<char>, i: int)
    requires
        all_ascii(p),
        occurs_at("id_rsa"@, p, i) || occurs_at(".env"@, p, i) || occurs_at(".ssh"@, p, i),
    ensures
        sensitive(p),
{
    reveal_strlit("id_rsa");
    reveal_strlit(".env");
    reveal_strlit(".ssh");
    if occurs_at("id_rsa"@, p, i) {
        lemma_lower_mark_kept("id_rsa"@, p, i);
    } else if occurs_at(".env"@, p, i) {
        lemma_lower_mark_kept(".env"@, p, i);
    } else {
        lemma_lower_mark_kept(".ssh"@, p, i);
    }
}

} // verus!
