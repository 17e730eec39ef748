//! Texts kept in strictly increasing order (as std sorts and dedups `String`s).
use vstd::prelude::*;

verus! {

/// `a` comes strictly before `b` in the order of `String`s: the first differing
/// character decides, and a proper prefix comes first.
pub open spec fn lex_lt(a: Seq<char>, b: Seq<char>) -> bool
    decreases a.len(),
{
    if a.len() == 0 {
        b.len() > 0
    } else if b.len() == 0 {
        false
    } else if a[0] != b[0] {
        a[0] < b[0]
    } else {
        lex_lt(a.drop_first(), b.drop_first())
    }
}

/// Every text comes strictly before the ones after it: sorted, with no repeats.
pub open spec fn strictly_sorted(s: Seq<Seq<char>>) -> bool {
    forall|i: int, j: int| 0 <= i < j < s.len() ==> lex_lt(#[trigger] s[i], #[trigger] s[j])
}

/// The text views of a list of character vectors.
pub open spec fn text_views(v: Seq<Vec<char>>) -> Seq<Seq<char>> {
    v.map_values(|x: Vec<char>| x@)
}

/// No text comes before itself.
pub proof fn lemma_lex_irreflexive(a: Seq<char>)
    ensures
        !lex_lt(a, a),
    decreases a.len(),
{
    if a.len() > 0 {
        lemma_lex_irreflexive(a.drop_first());
    }
}

/// The order is transitive.
pub proof fn lemma_lex_transitive(a: Seq<char>, b: Seq<char>, c: Seq<char>)
    requires
        lex_lt(a, b),
        lex_lt(b, c),
    ensures
        lex_lt(a, c),
    decreases a.len(),
{
    if a.len() > 0 && b.len() > 0 && c.len() > 0 && a[0] == b[0] && b[0] == c[0] {
        lemma_lex_transitive(a.drop_first(), b.drop_first(), c.drop_first());
    }
}

/// Two different texts are ordered one way or the other.
pub proof fn lemma_lex_total(a: Seq<char>, b: Seq<char>)
    requires
        a != b,
    ensures
        lex_lt(a, b) || lex_lt(b, a),
    decreases a.len(),
{
    if a.len() > 0 && b.len() > 0 && a[0] == b[0] {
        if a.drop_first() == b.drop_first() {
            assert(a =~= seq![a[0]] + a.drop_first());
            assert(b =~= seq![b[0]] + b.drop_first());
        }
        lemma_lex_total(a.drop_first(), b.drop_first());
    } else if a.len() == 0 && b.len() == 0 {
        assert(a =~= b);
    }
}

/// Whether `a` comes strictly before `b`.
pub fn chars_lt(a: &[char], b: &[char]) -> (r: bool)
    ensures
        r == lex_lt(a@, b@),
{
    let mut i: usize = 0;
    assert(a@.skip(0) =~= a@);
    assert(b@.skip(0) =~= b@);
    while i < a.len() && i < b.len()
        invariant
            i <= a.len(),
            i <= b.len(),
            lex_lt(a@, b@) == lex_lt(a@.skip(i as int), b@.skip(i as int)),
        decreases a.len() - i,
    {
        assert(a@.skip(i as int)[0] == a@[i as int]);
        assert(b@.skip(i as int)[0] == b@[i as int]);
        if a[i] != b[i] {
            return a[i] < b[i];
        }
        assert(a@.skip(i as int).drop_first() =~= a@.skip(i + 1));
        assert(b@.skip(i as int).drop_first() =~= b@.skip(i + 1));
        i = i + 1;
    }
    i < b.len()
}

/// Adds a text to a strictly sorted list, where it is not there yet.
pub fn insert_sorted(out: &mut Vec<Vec<char>>, g: Vec<char>)
    requires
        strictly_sorted(text_views(old(out)@)),
    ensures
        strictly_sorted(text_views(final(out)@)),
        text_views(final(out)@).to_set() == text_views(old(out)@).to_set().insert(g@),
{
    let ghost before = text_views(out@);
    let mut k: usize = 0;
    while k < out.len() && chars_lt(out[k].as_slice(), g.as_slice())
        invariant
            k <= out.len(),
            before == text_views(out@),
            forall|j: int| 0 <= j < k ==> lex_lt(#[trigger] before[j], g@),
        decreases out.len() - k,
    {
        k = k + 1;
    }
    if k < out.len() && crate::text::chars_eq(out[k].as_slice(), g.as_slice()) {
        assert(before[k as int] == g@);
        assert(before.to_set().insert(g@) =~= before.to_set());
        return;
    }
    proof {
        if k < out.len() {
            assert(!lex_lt(before[k as int], g@));
            lemma_lex_total(before[k as int], g@);
        }
    }
    out.insert(k, g);
    let ghost after = text_views(out@);
    assert(after =~= before.insert(k as int, g@));
    assert forall|i: int, j: int| 0 <= i < j < after.len() implies lex_lt(
        #[trigger] after[i],
        #[trigger] after[j],
    ) by {
        if j < k {
        } else if j == k {
        } else if i < k {
            lemma_lex_transitive(after[i], g@, before[k as int]);
            if j - 1 > k {
                lemma_lex_transitive(after[i], before[k as int], before[j - 1]);
            }
        } else if i == k {
            if j - 1 > k {
                lemma_lex_transitive(g@, before[k as int], before[j - 1]);
            }
        } else {
        }
    }
    assert forall|x: Seq<char>| after.to_set().contains(x) == before.to_set().insert(
        g@,
    ).contains(x) by {
        if after.contains(x) {
            let i = choose|i: int| 0 <= i < after.len() && after[i] == x;
            if i < k {
                assert(before[i] == x);
            } else if i > k {
                assert(before[i - 1] == x);
            }
        }
        if before.contains(x) {
            let i = choose|i: int| 0 <= i < before.len() && before[i] == x;
            if i < k {
                assert(after[i] == x);
            } else {
                assert(after[i + 1] == x);
            }
        }
        if x == g@ {
            assert(after[k as int] == x);
        }
    }
    assert(after.to_set() =~= before.to_set().insert(g@));
}

/// A strictly sorted list is fixed by the texts it holds: two strictly sorted lists of
/// the same texts are the same list.
pub proof fn law_sorted_list_fixed_by_its_texts(x: Seq<Seq<char>>, y: Seq<Seq<char>>)
    requires
        strictly_sorted(x),
        strictly_sorted(y),
        x.to_set() == y.to_set(),
    ensures
        x == y,
    decreases x.len(),
{
    if x.len() == 0 {
        if y.len() > 0 {
            assert(y.to_set().contains(y[0]));
        }
        assert(x =~= y);
    } else {
        assert(x.to_set().contains(x[0]));
        let j = choose|j: int| 0 <= j < y.len() && y[j] == x[0];
        assert(y.to_set().contains(y[0]));
        let k = choose|k: int| 0 <= k < x.len() && x[k] == y[0];
        if j > 0 {
            assert(lex_lt(y[0], y[j]));
            if k > 0 {
                assert(lex_lt(x[0], x[k]));
                lemma_lex_transitive(x[0], x[k], x[0]);
            }
            lemma_lex_irreflexive(x[0]);
        }
        let x1 = x.drop_first();
        let y1 = y.drop_first();
        assert forall|e: Seq<char>| x1.to_set().contains(e) implies y1.to_set().contains(e) by {
            let m = choose|m: int| 0 <= m < x1.len() && x1[m] == e;
            assert(x.to_set().contains(x[m + 1]));
            let n = choose|n: int| 0 <= n < y.len() && y[n] == e;
            if n == 0 {
                assert(lex_lt(x[0], x[m + 1]));
                lemma_lex_irreflexive(x[0]);
            }
            assert(y1[n - 1] == e);
        }
        assert forall|e: Seq<char>| y1.to_set().contains(e) implies x1.to_set().contains(e) by {
            let m = choose|m: int| 0 <= m < y1.len() && y1[m] == e;
            assert(y.to_set().contains(y[m + 1]));
            let n = choose|n: int| 0 <= n < x.len() && x[n] == e;
            if n == 0 {
                assert(lex_lt(y[0], y[m + 1]));
                lemma_lex_irreflexive(y[0]);
            }
            assert(x1[n - 1] == e);
        }
        assert(x1.to_set() =~= y1.to_set());
        assert(strictly_sorted(x1)) by {
            assert forall|a: int, b: int| 0 <= a < b < x1.len() implies lex_lt(
                #[trigger] x1[a],
                #[trigger] x1[b],
            ) by {
                assert(x1[a] == x[a + 1] && x1[b] == x[b + 1]);
            }
        }
        assert(strictly_sorted(y1)) by {
            assert forall|a: int, b: int| 0 <= a < b < y1.len() implies lex_lt(
                #[trigger] y1[a],
                #[trigger] y1[b],
            ) by {
                assert(y1[a] == y[a + 1] && y1[b] == y[b + 1]);
            }
        }
        law_sorted_list_fixed_by_its_texts(x1, y1);
        assert(x =~= seq![x[0]] + x1);
        assert(y =~= seq![y[0]] + y1);
    }
}

} // verus!
