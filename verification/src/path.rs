//! Unix paths as std's `Path` reads them: components, parent, and joining.
//!
//! A component is written as text: `/` for the root, `.` for a leading current
//! directory, `..` for a parent directory, and the name itself otherwise.
use vstd::prelude::*;

use crate::text::{chars_split, split_on};

verus! {

/// The path starts at the root.
pub open spec fn has_root(s: Seq<char>) -> bool {
    s.len() > 0 && s[0] == '/'
}

/// The relative path starts with a `.` component (`.` alone or `./...`).
pub open spec fn has_cur_dir(s: Seq<char>) -> bool {
    !has_root(s) && s.len() > 0 && s[0] == '.' && (s.len() == 1 || s[1] == '/')
}

/// The length of what stands before the body of the path: the root, or a leading `.`.
pub open spec fn body_start(s: Seq<char>) -> int {
    if has_root(s) || has_cur_dir(s) {
        1
    } else {
        0
    }
}

/// The pieces of a path that are components: not empty, and not `.`.
pub open spec fn keep_pieces(ps: Seq<Seq<char>>) -> Seq<Seq<char>>
    decreases ps.len(),
{
    if ps.len() == 0 {
        Seq::empty()
    } else {
        let k = keep_pieces(ps.drop_last());
        if ps.last().len() == 0 || ps.last() == seq!['.'] {
            k
        } else {
            k.push(ps.last())
        }
    }
}

/// The components of a path (std `Path::components`): repeated separators and `.`
/// are ignored, except for a leading `.`; a trailing separator is ignored.
pub open spec fn components(s: Seq<char>) -> Seq<Seq<char>> {
    let lead = if has_root(s) {
        seq![seq!['/']]
    } else if has_cur_dir(s) {
        seq![seq!['.']]
    } else {
        Seq::empty()
    };
    lead + keep_pieces(split_on(s, '/'))
}

/// The text views of a list of components.
pub open spec fn comp_views(v: Seq<Vec<char>>) -> Seq<Seq<char>> {
    v.map_values(|x: Vec<char>| x@)
}

/// The components of a path.
pub fn path_components(s: &[char]) -> (r: Vec<Vec<char>>)
    ensures
        comp_views(r@) == components(s@),
{
    let pieces = chars_split(s, '/');
    let ghost ps = split_on(s@, '/');
    let mut out: Vec<Vec<char>> = Vec::new();
    if s.len() > 0 && s[0] == '/' {
        let r = vec!['/'];
        assert(r@ =~= seq!['/']);
        out.push(r);
        assert(comp_views(out@) =~= seq![seq!['/']]);
    } else if s.len() > 0 && s[0] == '.' && (s.len() == 1 || s[1] == '/') {
        let c = vec!['.'];
        assert(c@ =~= seq!['.']);
        out.push(c);
        assert(comp_views(out@) =~= seq![seq!['.']]);
    } else {
        assert(comp_views(out@) =~= Seq::<Seq<char>>::empty());
    }
    let ghost lead = comp_views(out@);
    assert(lead =~= (if has_root(s@) {
        seq![seq!['/']]
    } else if has_cur_dir(s@) {
        seq![seq!['.']]
    } else {
        Seq::empty()
    }));
    let mut i: usize = 0;
    assert(ps.take(0) =~= Seq::<Seq<char>>::empty());
    assert(comp_views(out@) =~= lead + keep_pieces(ps.take(0)));
    while i < pieces.len()
        invariant
            i <= pieces.len(),
            pieces@.len() == ps.len(),
            forall|k: int| 0 <= k < pieces@.len() ==> #[trigger] pieces@[k]@ == ps[k],
            comp_views(out@) == lead + keep_pieces(ps.take(i as int)),
        decreases pieces.len() - i,
    {
        let ghost before = out@;
        let p = &pieces[i];
        assert(ps.take(i + 1).drop_last() =~= ps.take(i as int));
        assert(ps.take(i + 1).last() == p@);
        if p.len() == 0 || (p.len() == 1 && p[0] == '.') {
            if p.len() == 1 {
                assert(p@ =~= seq!['.']);
            }
        } else {
            assert(p@ != seq!['.']);
            out.push(p.clone());
            assert(comp_views(out@) =~= comp_views(before).push(p@));
        }
        i = i + 1;
    }
    assert(ps.take(pieces.len() as int) =~= ps);
    out
}

/// Appends a component as std's `PathBuf::push` does: an absolute one replaces the
/// whole path; otherwise a separator is put in between unless the path is empty or
/// already ends with one.
pub open spec fn push_text(buf: Seq<char>, x: Seq<char>) -> Seq<char> {
    if x.len() > 0 && x[0] == '/' {
        x
    } else if buf.len() > 0 && buf.last() != '/' {
        buf + seq!['/'] + x
    } else {
        buf + x
    }
}

/// The text of the path made by pushing the components one by one onto an empty path.
pub open spec fn render(c: Seq<Seq<char>>) -> Seq<char>
    decreases c.len(),
{
    if c.len() == 0 {
        Seq::empty()
    } else {
        push_text(render(c.drop_last()), c.last())
    }
}

/// Builds the text of a list of components.
pub fn render_components(c: &[Vec<char>]) -> (r: Vec<char>)
    ensures
        r@ == render(comp_views(c@)),
{
    let ghost cs = comp_views(c@);
    let mut buf: Vec<char> = Vec::new();
    let mut i: usize = 0;
    assert(cs.take(0) =~= Seq::<Seq<char>>::empty());
    while i < c.len()
        invariant
            i <= c.len(),
            cs == comp_views(c@),
            buf@ == render(cs.take(i as int)),
        decreases c.len() - i,
    {
        assert(cs.take(i + 1).drop_last() =~= cs.take(i as int));
        assert(cs.take(i + 1).last() == c@[i as int]@);
        let x = &c[i];
        if x.len() > 0 && x[0] == '/' {
            buf = x.clone();
        } else {
            if buf.len() > 0 && buf[buf.len() - 1] != '/' {
                buf.push('/');
            }
            let mut k: usize = 0;
            let ghost base = buf@;
            while k < x.len()
                invariant
                    k <= x.len(),
                    buf@ == base + x@.take(k as int),
                decreases x.len() - k,
            {
                buf.push(x[k]);
                k = k + 1;
                assert(buf@ =~= base + x@.take(k as int));
            }
            assert(x@.take(x.len() as int) =~= x@);
        }
        i = i + 1;
        assert(buf@ =~= render(cs.take(i as int)));
    }
    assert(cs.take(c.len() as int) =~= cs);
    buf
}

/// Where the last piece of `s.take(k)` begins: just after its last separator in the
/// body (at or after `b`), or at `b` where the body holds none.
pub open spec fn piece_start(s: Seq<char>, b: int, k: int) -> int
    decreases k - b,
{
    if k <= b {
        b
    } else if s[k - 1] == '/' {
        k
    } else {
        piece_start(s, b, k - 1)
    }
}

/// How much of `s.take(k)` is left once its last piece and that piece's separator
/// are removed.
pub open spec fn cut_at(b: int, ps: int) -> int {
    if ps > b {
        ps - 1
    } else {
        b
    }
}

/// The length of `s.take(m)` without its trailing empty and `.` pieces.
pub open spec fn strip_len(s: Seq<char>, b: int, m: int) -> int
    decreases m - b,
{
    if m <= b {
        m
    } else {
        let ps = piece_start(s, b, m);
        proof {
            lemma_piece_start_bounds(s, b, m);
        }
        if ps >= m || (m - ps == 1 && s[ps] == '.') {
            strip_len(s, b, cut_at(b, ps))
        } else {
            m
        }
    }
}

/// The last piece begins within the body, just after a separator where it does not
/// begin the body.
pub proof fn lemma_piece_start_bounds(s: Seq<char>, b: int, k: int)
    requires
        b <= k,
    ensures
        b <= piece_start(s, b, k) <= k,
        piece_start(s, b, k) > b ==> s[piece_start(s, b, k) - 1] == '/',
    decreases k - b,
{
    if k > b && s[k - 1] != '/' {
        lemma_piece_start_bounds(s, b, k - 1);
    }
}

proof fn lemma_strip_len_bounds(s: Seq<char>, b: int, m: int)
    requires
        0 <= b <= m,
    ensures
        b <= strip_len(s, b, m) <= m,
    decreases m - b,
{
    if m > b {
        let ps = piece_start(s, b, m);
        lemma_piece_start_bounds(s, b, m);
        if ps >= m || (m - ps == 1 && s[ps] == '.') {
            lemma_strip_len_bounds(s, b, cut_at(b, ps));
        }
    }
}

/// The length of the parent of a path (std `Path::parent`), if it has one: the path
/// without its last component and without the empty and `.` pieces around it. A
/// path that is the root, or empty, has none; `.` has the empty path as parent.
pub open spec fn parent_len(s: Seq<char>) -> Option<int> {
    let b = body_start(s);
    let m = strip_len(s, b, s.len() as int);
    if m > b {
        Some(strip_len(s, b, cut_at(b, piece_start(s, b, m))))
    } else if has_cur_dir(s) {
        Some(0)
    } else {
        None
    }
}

/// The parent of a path, as text.
pub open spec fn parent_text(s: Seq<char>) -> Option<Seq<char>> {
    match parent_len(s) {
        Some(n) => Some(s.take(n)),
        None => None,
    }
}

fn piece_start_of(s: &[char], b: usize, k: usize) -> (r: usize)
    requires
        b <= k <= s.len(),
    ensures
        r as int == piece_start(s@, b as int, k as int),
{
    let mut j: usize = k;
    while j > b && s[j - 1] != '/'
        invariant
            b <= j <= k,
            k <= s.len(),
            piece_start(s@, b as int, k as int) == piece_start(s@, b as int, j as int),
        decreases j - b,
    {
        j = j - 1;
    }
    j
}

fn strip_len_of(s: &[char], b: usize, m: usize) -> (r: usize)
    requires
        b <= m <= s.len(),
    ensures
        r as int == strip_len(s@, b as int, m as int),
        b <= r <= m,
{
    let mut cur: usize = m;
    loop
        invariant
            b <= cur <= m,
            m <= s.len(),
            strip_len(s@, b as int, m as int) == strip_len(s@, b as int, cur as int),
        decreases cur - b,
    {
        if cur <= b {
            return cur;
        }
        let ps = piece_start_of(s, b, cur);
        proof {
            lemma_piece_start_bounds(s@, b as int, cur as int);
        }
        if ps >= cur || (cur - ps == 1 && s[ps] == '.') {
            cur = if ps > b {
                ps - 1
            } else {
                b
            };
        } else {
            proof {
                lemma_strip_len_bounds(s@, b as int, cur as int);
            }
            return cur;
        }
    }
}

/// The parent of a path, as text, if it has one.
pub fn path_parent(s: &[char]) -> (r: Option<Vec<char>>)
    ensures
        match parent_text(s@) {
            Some(p) => r matches Some(v) && v@ == p,
            None => r is None,
        },
{
    let root = s.len() > 0 && s[0] == '/';
    let cur = !root && s.len() > 0 && s[0] == '.' && (s.len() == 1 || s[1] == '/');
    let b: usize = if root || cur {
        1
    } else {
        0
    };
    assert(b as int == body_start(s@));
    let m = strip_len_of(s, b, s.len());
    if m > b {
        let ps = piece_start_of(s, b, m);
        proof {
            lemma_piece_start_bounds(s@, b as int, m as int);
        }
        let c = if ps > b {
            ps - 1
        } else {
            b
        };
        let n = strip_len_of(s, b, c);
        let mut out: Vec<char> = Vec::new();
        let mut k: usize = 0;
        while k < n
            invariant
                k <= n,
                n <= s.len(),
                out@ == s@.take(k as int),
            decreases n - k,
        {
            out.push(s[k]);
            k = k + 1;
            assert(out@ =~= s@.take(k as int));
        }
        Some(out)
    } else if cur {
        let out: Vec<char> = Vec::new();
        assert(out@ =~= s@.take(0));
        Some(out)
    } else {
        None
    }
}

/// An absolute path written without repeated separators, without `.` pieces and
/// without a trailing separator (the form in which the kernel reports paths).
#[verifier::opaque]
pub open spec fn canonical(p: Seq<char>) -> bool {
    &&& p.len() >= 2
    &&& p[0] == '/'
    &&& p.last() != '/'
    &&& forall|i: int| 0 <= i < p.len() - 1 && #[trigger] p[i] == '/' ==> p[i + 1] != '/'
    &&& forall|i: int|
        0 <= i < p.len() - 1 && #[trigger] p[i] == '/' && p[i + 1] == '.' ==> (i + 2 < p.len() && p[i
            + 2] != '/')
}

/// The position of the last separator of a path that holds one.
pub open spec fn last_slash(p: Seq<char>) -> int {
    choose|j: int| 0 <= j < p.len() && p[j] == '/' && forall|k: int| j < k < p.len() ==> p[k] != '/'
}

proof fn lemma_slash_at_or_before(p: Seq<char>, j: int)
    requires
        0 <= j < p.len(),
        p[0] == '/',
        forall|k: int| j < k < p.len() ==> p[k] != '/',
    ensures
        exists|i: int| 0 <= i < p.len() && p[i] == '/' && forall|k: int| i < k < p.len() ==> p[k] != '/',
    decreases j,
{
    if p[j] == '/' {
        assert(0 <= j < p.len() && p[j] == '/' && forall|k: int| j < k < p.len() ==> p[k] != '/');
    } else {
        lemma_slash_at_or_before(p, j - 1);
    }
}

proof fn lemma_last_slash(p: Seq<char>)
    requires
        p.len() > 0,
        p[0] == '/',
    ensures
        0 <= last_slash(p) < p.len(),
        p[last_slash(p)] == '/',
        forall|k: int| last_slash(p) < k < p.len() ==> p[k] != '/',
{
    lemma_slash_at_or_before(p, p.len() - 1);
}

/// A piece that is a name: not empty, not `.`, without a separator.
pub open spec fn name_piece(x: Seq<char>) -> bool {
    x.len() > 0 && x != seq!['.'] && forall|k: int| 0 <= k < x.len() ==> x[k] != '/'
}

proof fn lemma_split_append(q: Seq<char>, x: Seq<char>)
    requires
        forall|k: int| 0 <= k < x.len() ==> x[k] != '/',
    ensures
        split_on(q + seq!['/'] + x, '/') == split_on(q, '/').push(x),
    decreases x.len(),
{
    let s = q + seq!['/'] + x;
    if x.len() == 0 {
        assert(s.drop_last() =~= q);
        assert(s.last() == '/');
        assert(split_on(s, '/') == split_on(q, '/').push(Seq::<char>::empty()));
        assert(x =~= Seq::<char>::empty());
    } else {
        let y = x.drop_last();
        assert forall|k: int| 0 <= k < y.len() implies y[k] != '/' by {
            assert(y[k] == x[k]);
        }
        lemma_split_append(q, y);
        assert(s.drop_last() =~= q + seq!['/'] + y);
        assert(s.last() == x.last());
        assert(x.last() == x[x.len() - 1]);
        assert(x =~= y.push(x.last()));
        let before = split_on(q, '/').push(y);
        assert(split_on(s, '/') == before.update(before.len() - 1, before.last().push(s.last())));
        assert(before.update(before.len() - 1, before.last().push(s.last())) =~= split_on(q, '/').push(
            x,
        ));
    }
}

/// A canonical path is its last name after the separator that ends its parent.
pub proof fn lemma_canonical_split(p: Seq<char>)
    requires
        canonical(p),
    ensures
        0 <= last_slash(p) < p.len() - 1,
        p[last_slash(p)] == '/',
        forall|k: int| last_slash(p) < k < p.len() ==> p[k] != '/',
        last_slash(p) > 0 ==> last_slash(p) >= 2,
        name_piece(p.skip(last_slash(p) + 1)),
        p =~= p.take(last_slash(p)) + seq!['/'] + p.skip(last_slash(p) + 1),
        last_slash(p) > 0 ==> canonical(p.take(last_slash(p))),
{
    reveal(canonical);
    lemma_last_slash(p);
    let j = last_slash(p);
    let q = p.take(j);
    let x = p.skip(j + 1);
    assert(j < p.len() - 1);
    assert forall|k: int| 0 <= k < x.len() implies x[k] != '/' by {
        assert(x[k] == p[j + 1 + k]);
    }
    assert(x.len() > 0);
    if x == seq!['.'] {
        assert(x[0] == p[j + 1]);
        assert(p[j + 1] == '.');
        assert(p[j] == '/');
        assert(x.len() == 1);
    }
    assert(p =~= q + seq!['/'] + x);
    if j > 0 {
        assert(q[0] == '/');
        assert(p[1] != '/');
        assert(p[j - 1] != '/') by {
            assert(p[j - 1] == '/' ==> p[j] != '/');
        }
        assert forall|i: int| 0 <= i < q.len() - 1 && #[trigger] q[i] == '/' implies q[i + 1] != '/' by {
            assert(p[i] == '/');
        }
        assert forall|i: int|
            0 <= i < q.len() - 1 && #[trigger] q[i] == '/' && q[i + 1] == '.' implies (i + 2 < q.len()
                && q[i + 2] != '/') by {
            assert(p[i] == '/' && p[i + 1] == '.');
            if i + 2 == q.len() {
                assert(p[i + 2] == '/');
            }
        }
    }
}

/// The components of a canonical path: those of its parent and its last name.
#[verifier::spinoff_prover]
pub proof fn lemma_canonical_components_step(p: Seq<char>)
    requires
        canonical(p),
    ensures
        components(p) == (if last_slash(p) == 0 {
            seq![seq!['/'], p.skip(1)]
        } else {
            components(p.take(last_slash(p))).push(p.skip(last_slash(p) + 1))
        }),
{
    lemma_canonical_split(p);
    reveal(canonical);
    let j = last_slash(p);
    let q = p.take(j);
    let x = p.skip(j + 1);
    lemma_split_append(q, x);
    assert(split_on(p, '/') == split_on(q, '/').push(x));
    assert(has_root(p));
    if j > 0 {
        assert(q[0] == '/');
        assert(has_root(q));
        let kq = keep_pieces(split_on(q, '/'));
        assert(split_on(q, '/').push(x).drop_last() =~= split_on(q, '/'));
        assert(keep_pieces(split_on(q, '/').push(x)) == kq.push(x));
        assert(components(p) =~= components(q).push(x));
    } else {
        assert(q =~= Seq::<char>::empty());
        assert(split_on(q, '/') =~= seq![Seq::<char>::empty()]);
        let ps = split_on(q, '/').push(x);
        assert(ps.drop_last() =~= seq![Seq::<char>::empty()]);
        assert(seq![Seq::<char>::empty()].drop_last() =~= Seq::<Seq<char>>::empty());
        assert(keep_pieces(Seq::<Seq<char>>::empty()) =~= Seq::<Seq<char>>::empty());
        assert(seq![Seq::<char>::empty()].last() =~= Seq::<char>::empty());
        assert(keep_pieces(seq![Seq::<char>::empty()]) =~= Seq::<Seq<char>>::empty());
        assert(keep_pieces(ps) =~= seq![x]);
        assert(x =~= p.skip(1));
        assert(components(p) =~= seq![seq!['/'], p.skip(1)]);
    }
}

/// A canonical path has its root and at least one name, and `render` writes its
/// components back as the path.
#[verifier::spinoff_prover]
pub proof fn lemma_canonical_components(p: Seq<char>)
    requires
        canonical(p),
    ensures
        components(p).len() >= 2,
        components(p)[0] == seq!['/'],
        render(components(p)) == p,
    decreases p.len(),
{
    lemma_canonical_split(p);
    lemma_canonical_components_step(p);
    let j = last_slash(p);
    let x = p.skip(j + 1);
    assert(x.len() > 0 && x[0] != '/');
    if j == 0 {
        let c = seq![seq!['/'], x];
        assert(components(p) == c);
        assert(c.drop_last() =~= seq![seq!['/']]);
        assert(seq![seq!['/']].drop_last() =~= Seq::<Seq<char>>::empty());
        assert(render(seq![seq!['/']]) =~= seq!['/']);
        assert(render(c) == push_text(seq!['/'], x));
        assert(render(c) =~= seq!['/'] + x);
    } else {
        let q = p.take(j);
        lemma_canonical_components(q);
        let c = components(q).push(x);
        assert(components(p) == c);
        assert(c.drop_last() =~= components(q));
        assert(q.last() != '/') by {
            reveal(canonical);
        }
        assert(render(c) == push_text(q, x));
        assert(render(c) =~= q + seq!['/'] + x);
    }
}

/// Rendering the first `k` components of a canonical path (`k` at least 2) gives the
/// path up to a separator (the length returned), or the whole path.
#[verifier::spinoff_prover]
pub proof fn lemma_render_prefix(p: Seq<char>, k: int) -> (m: int)
    requires
        canonical(p),
        2 <= k <= components(p).len(),
    ensures
        2 <= m <= p.len(),
        render(components(p).take(k)) == p.take(m),
        k < components(p).len() ==> (m < p.len() && p[m] == '/'),
        k == components(p).len() ==> m == p.len(),
        components(p.take(m)) == components(p).take(k),
    decreases p.len(),
{
    lemma_canonical_split(p);
    lemma_canonical_components_step(p);
    lemma_canonical_components(p);
    let j = last_slash(p);
    let n = components(p).len();
    if k == n {
        assert(components(p).take(k) =~= components(p));
        assert(p.take(p.len() as int) =~= p);
        p.len() as int
    } else {
        let q = p.take(j);
        assert(j > 0) by {
            if j == 0 {
                assert(n == 2);
            }
        }
        lemma_canonical_components(q);
        assert(components(p) == components(q).push(p.skip(j + 1)));
        assert(components(p).take(k) =~= components(q).take(k));
        let m = lemma_render_prefix(q, k);
        assert(q.take(m) =~= p.take(m));
        assert(components(q).take(k) =~= components(p).take(k));
        if k < components(q).len() {
            assert(p[m] == q[m]);
        } else {
            assert(m == j);
        }
        m
    }
}

/// A canonical path cut just before one of its separators is canonical.
pub proof fn lemma_canonical_prefix(p: Seq<char>, m: int)
    requires
        canonical(p),
        2 <= m < p.len(),
        p[m] == '/',
    ensures
        canonical(p.take(m)),
{
    reveal(canonical);
    let q = p.take(m);
    assert(p[m - 1] != '/') by {
        assert(p[m - 1] == '/' ==> p[m] != '/');
    }
    assert forall|i: int| 0 <= i < q.len() - 1 && #[trigger] q[i] == '/' implies q[i + 1] != '/' by {
        assert(p[i] == '/');
    }
    assert forall|i: int|
        0 <= i < q.len() - 1 && #[trigger] q[i] == '/' && q[i + 1] == '.' implies (i + 2 < q.len() && q[i
            + 2] != '/') by {
        assert(p[i] == '/' && p[i + 1] == '.');
        if i + 2 == q.len() {
            assert(p[i + 2] == '/');
        }
    }
}

proof fn lemma_piece_start_after(s: Seq<char>, b: int, k: int, j: int)
    requires
        b <= j < k <= s.len(),
        s[j] == '/',
        forall|t: int| j < t < k ==> s[t] != '/',
    ensures
        piece_start(s, b, k) == j + 1,
    decreases k - j,
{
    if k > j + 1 {
        lemma_piece_start_after(s, b, k - 1, j);
    }
}

proof fn lemma_piece_start_none(s: Seq<char>, b: int, k: int)
    requires
        b <= k <= s.len(),
        forall|t: int| b <= t < k ==> s[t] != '/',
    ensures
        piece_start(s, b, k) == b,
    decreases k - b,
{
    if k > b {
        lemma_piece_start_none(s, b, k - 1);
    }
}

/// In a canonical path, the piece that ends at `m` (the end, or just before a
/// separator) is a name, so nothing is stripped there.
#[verifier::spinoff_prover]
proof fn lemma_strip_at_name(p: Seq<char>, m: int)
    requires
        canonical(p),
        2 <= m <= p.len(),
        m < p.len() ==> p[m] == '/',
    ensures
        strip_len(p, 1, m) == m,
        piece_start(p, 1, m) == (if last_slash(p.take(m)) == 0 {
            1
        } else {
            last_slash(p.take(m)) + 1
        }),
{
    let q = p.take(m);
    if m < p.len() {
        lemma_canonical_prefix(p, m);
    } else {
        assert(q =~= p);
    }
    lemma_canonical_split(q);
    let j = last_slash(q);
    assert forall|t: int| j < t < m implies p[t] != '/' by {
        assert(q[t] == p[t]);
    }
    if j == 0 {
        lemma_piece_start_none(p, 1, m);
    } else {
        lemma_piece_start_after(p, 1, m, j);
    }
    let ps = piece_start(p, 1, m);
    assert(ps < m);
    if m - ps == 1 && p[ps] == '.' {
        assert(q.skip(j + 1) =~= seq!['.']);
    }
}

/// The parent of a canonical path is the path up to its last separator (the root for
/// a name right under it).
#[verifier::spinoff_prover]
pub proof fn lemma_canonical_parent(p: Seq<char>)
    requires
        canonical(p),
    ensures
        parent_text(p) == Some(
            if last_slash(p) == 0 {
                seq!['/']
            } else {
                p.take(last_slash(p))
            },
        ),
{
    lemma_canonical_split(p);
    let j = last_slash(p);
    assert(has_root(p)) by {
        reveal(canonical);
    }
    assert(body_start(p) == 1);
    lemma_strip_at_name(p, p.len() as int);
    assert(p.take(p.len() as int) =~= p);
    if j == 0 {
        assert(p.take(1) =~= seq!['/']);
    } else {
        lemma_strip_at_name(p, j);
    }
}

} // verus!
