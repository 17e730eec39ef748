//! Character-level helpers shared by the policy, monitor and generator modules.
use vstd::prelude::*;
use vstd::std_specs::iter::IteratorSpec;

verus! {

broadcast use vstd::string::group_string_axioms;

/// Appends one character to a string (std `String::push`).
#[verifier::external_body]
pub fn push_char(s: &mut String, c: char)
    ensures
        final(s)@ == old(s)@.push(c),
{
    s.push(c);
}

/// The characters of a string slice, in order.
pub fn chars_of(s: &str) -> (v: Vec<char>)
    ensures
        v@ == s@,
{
    let mut v: Vec<char> = Vec::new();
    for c in iter: s.chars()
        invariant
            v@ == iter.seq().take(iter.index() as int),
            iter.seq() == s@,
    {
        v.push(c);
    }
    v
}

/// Builds a string from a sequence of characters.
pub fn string_from_chars(v: &[char]) -> (s: String)
    ensures
        s@ == v@,
{
    let mut s = String::new();
    let mut i: usize = 0;
    while i < v.len()
        invariant
            i <= v.len(),
            s@ == v@.take(i as int),
        decreases v.len() - i,
    {
        push_char(&mut s, v[i]);
        i = i + 1;
        assert(s@ =~= v@.take(i as int));
    }
    assert(v@.take(v.len() as int) =~= v@);
    s
}

/// A copy of a string slice as an owned string.
pub fn to_owned_string(s: &str) -> (r: String)
    ensures
        r@ == s@,
{
    let v = chars_of(s);
    string_from_chars(v.as_slice())
}

/// Whether two character sequences are equal.
pub fn chars_eq(a: &[char], b: &[char]) -> (r: bool)
    ensures
        r == (a@ == b@),
{
    if a.len() != b.len() {
        return false;
    }
    let mut i: usize = 0;
    while i < a.len()
        invariant
            i <= a.len(),
            a.len() == b.len(),
            forall|j: int| 0 <= j < i ==> a@[j] == b@[j],
        decreases a.len() - i,
    {
        if a[i] != b[i] {
            return false;
        }
        i = i + 1;
    }
    assert(a@ =~= b@);
    true
}

/// The first `k` characters.
pub fn chars_take(v: &[char], k: usize) -> (r: Vec<char>)
    requires
        k <= v.len(),
    ensures
        r@ == v@.take(k as int),
{
    let mut r: Vec<char> = Vec::new();
    let mut i: usize = 0;
    while i < k
        invariant
            i <= k,
            k <= v.len(),
            r@ == v@.take(i as int),
        decreases k - i,
    {
        r.push(v[i]);
        i = i + 1;
        assert(r@ =~= v@.take(i as int));
    }
    r
}

/// Whether two string slices hold the same characters.
pub fn str_eq(a: &str, b: &str) -> (r: bool)
    ensures
        r == (a@ == b@),
{
    let va = chars_of(a);
    let vb = chars_of(b);
    chars_eq(va.as_slice(), vb.as_slice())
}

/// `s` holds the character `c` somewhere.
pub open spec fn seq_has(s: Seq<char>, c: char) -> bool {
    exists|i: int| 0 <= i < s.len() && s[i] == c
}

/// Whether the characters hold `c`.
pub fn chars_contain(s: &[char], c: char) -> (r: bool)
    ensures
        r == seq_has(s@, c),
{
    let mut i: usize = 0;
    while i < s.len()
        invariant
            i <= s.len(),
            forall|j: int| 0 <= j < i ==> s@[j] != c,
        decreases s.len() - i,
    {
        if s[i] == c {
            return true;
        }
        i = i + 1;
    }
    false
}

/// `p` is a prefix of `s`.
pub open spec fn seq_prefix(p: Seq<char>, s: Seq<char>) -> bool {
    p.len() <= s.len() && s.take(p.len() as int) == p
}

/// `p` is a suffix of `s`.
pub open spec fn seq_suffix(p: Seq<char>, s: Seq<char>) -> bool {
    p.len() <= s.len() && s.skip(s.len() - p.len()) == p
}

/// `p` occurs in `s` at position `i`.
pub open spec fn occurs_at(p: Seq<char>, s: Seq<char>, i: int) -> bool {
    0 <= i && i + p.len() <= s.len() && s.subrange(i, i + p.len()) == p
}

/// `p` occurs somewhere in `s`.
pub open spec fn seq_contains(p: Seq<char>, s: Seq<char>) -> bool {
    exists|i: int| occurs_at(p, s, i)
}

/// Whether `p` is a prefix of `s`.
pub fn chars_start_with(s: &[char], p: &[char]) -> (r: bool)
    ensures
        r == seq_prefix(p@, s@),
{
    if p.len() > s.len() {
        return false;
    }
    let mut i: usize = 0;
    while i < p.len()
        invariant
            i <= p.len(),
            p.len() <= s.len(),
            forall|j: int| 0 <= j < i ==> s@[j] == p@[j],
        decreases p.len() - i,
    {
        if s[i] != p[i] {
            assert(s@.take(p.len() as int)[i as int] != p@[i as int]);
            return false;
        }
        i = i + 1;
    }
    assert(s@.take(p.len() as int) =~= p@);
    true
}

/// Whether `p` is a suffix of `s`.
pub fn chars_end_with(s: &[char], p: &[char]) -> (r: bool)
    ensures
        r == seq_suffix(p@, s@),
{
    if p.len() > s.len() {
        return false;
    }
    let off = s.len() - p.len();
    let mut i: usize = 0;
    while i < p.len()
        invariant
            i <= p.len(),
            off + p.len() == s.len(),
            forall|j: int| 0 <= j < i ==> s@[off + j] == p@[j],
        decreases p.len() - i,
    {
        if s[off + i] != p[i] {
            assert(s@.skip(off as int)[i as int] != p@[i as int]);
            return false;
        }
        i = i + 1;
    }
    assert(s@.skip(off as int) =~= p@);
    true
}

/// Whether `p` occurs at position `i` of `s`.
pub fn chars_occur_at(s: &[char], p: &[char], i: usize) -> (r: bool)
    ensures
        r == occurs_at(p@, s@, i as int),
{
    if i > s.len() || p.len() > s.len() - i {
        return false;
    }
    let mut k: usize = 0;
    while k < p.len()
        invariant
            k <= p.len(),
            i + p.len() <= s.len(),
            forall|j: int| 0 <= j < k ==> s@[i + j] == p@[j],
        decreases p.len() - k,
    {
        if s[i + k] != p[k] {
            assert(s@.subrange(i as int, i + p.len())[k as int] != p@[k as int]);
            return false;
        }
        k = k + 1;
    }
    assert(s@.subrange(i as int, i + p.len()) =~= p@);
    true
}

/// The first position at which `p` occurs in `s`.
pub open spec fn first_occurrence(p: Seq<char>, s: Seq<char>, i: int) -> bool {
    occurs_at(p, s, i) && forall|j: int| 0 <= j < i ==> !occurs_at(p, s, j)
}

/// Finds the first occurrence of `p` in `s` (std `str::find`).
pub fn chars_find(s: &[char], p: &[char]) -> (r: Option<usize>)
    ensures
        match r {
            Some(i) => first_occurrence(p@, s@, i as int),
            None => !seq_contains(p@, s@),
        },
{
    let mut i: usize = 0;
    loop
        invariant
            i <= s.len(),
            forall|j: int| 0 <= j < i ==> !occurs_at(p@, s@, j),
        ensures
            i == s.len(),
            forall|j: int| 0 <= j <= i ==> !occurs_at(p@, s@, j),
        decreases s.len() - i,
    {
        if chars_occur_at(s, p, i) {
            return Some(i);
        }
        if i == s.len() {
            break;
        }
        i = i + 1;
    }
    assert forall|j: int| !occurs_at(p@, s@, j) by {
        if 0 <= j && j <= i {
        }
    }
    None
}

/// Whether `p` occurs in `s`.
pub fn chars_contain_seq(s: &[char], p: &[char]) -> (r: bool)
    ensures
        r == seq_contains(p@, s@),
{
    match chars_find(s, p) {
        Some(_) => true,
        None => false,
    }
}

/// The ASCII lower-case form of a byte.
pub open spec fn ascii_lower(b: u8) -> u8 {
    if 65 <= b <= 90 {
        (b + 32) as u8
    } else {
        b
    }
}

/// The ASCII lower-case form of a character: `A`..`Z` become `a`..`z`, any other
/// character stays.
pub open spec fn char_ascii_lower(c: char) -> char {
    if 65 <= (c as u32) <= 90 {
        ((c as u32) + 32) as char
    } else {
        c
    }
}

/// Every character of the text is ASCII.
pub open spec fn all_ascii(s: Seq<char>) -> bool {
    forall|i: int| 0 <= i < s.len() ==> (#[trigger] s[i] as u32) < 128
}

/// The text with its ASCII letters lower-cased.
pub open spec fn ascii_lowercased(s: Seq<char>) -> Seq<char> {
    s.map_values(|c: char| char_ascii_lower(c))
}

/// The bytes are equal up to ASCII case (std `eq_ignore_ascii_case`).
pub open spec fn bytes_eq_ignore_ascii_case(a: Seq<u8>, b: Seq<u8>) -> bool {
    a.len() == b.len() && forall|i: int| 0 <= i < a.len() ==> ascii_lower(a[i]) == ascii_lower(b[i])
}

/// Two strings are equal up to ASCII case, compared byte by byte in UTF-8.
pub open spec fn eq_ignore_ascii_case(a: Seq<char>, b: Seq<char>) -> bool {
    bytes_eq_ignore_ascii_case(vstd::utf8::encode_utf8(a), vstd::utf8::encode_utf8(b))
}

/// Compares two strings ignoring ASCII case.
pub fn str_eq_ignore_ascii_case(a: &str, b: &str) -> (r: bool)
    ensures
        r == eq_ignore_ascii_case(a@, b@),
{
    let x = a.as_bytes();
    let y = b.as_bytes();
    if x.len() != y.len() {
        return false;
    }
    let mut i: usize = 0;
    while i < x.len()
        invariant
            i <= x.len(),
            x.len() == y.len(),
            x@ == vstd::utf8::encode_utf8(a@),
            y@ == vstd::utf8::encode_utf8(b@),
            forall|j: int| 0 <= j < i ==> ascii_lower(x@[j]) == ascii_lower(y@[j]),
        decreases x.len() - i,
    {
        let p = x[i];
        let q = y[i];
        let lp: u8 = if 65 <= p && p <= 90 { p + 32 } else { p };
        let lq: u8 = if 65 <= q && q <= 90 { q + 32 } else { q };
        if lp != lq {
            return false;
        }
        i = i + 1;
    }
    true
}

/// The decimal digits of `n`, most significant first, with no leading zero.
pub open spec fn decimal(n: nat) -> Seq<char>
    decreases n,
{
    if n < 10 {
        seq![digit_char(n)]
    } else {
        decimal(n / 10).push(digit_char(n % 10))
    }
}

/// The character of a decimal digit.
pub open spec fn digit_char(d: nat) -> char {
    if d == 0 {
        '0'
    } else if d == 1 {
        '1'
    } else if d == 2 {
        '2'
    } else if d == 3 {
        '3'
    } else if d == 4 {
        '4'
    } else if d == 5 {
        '5'
    } else if d == 6 {
        '6'
    } else if d == 7 {
        '7'
    } else if d == 8 {
        '8'
    } else {
        '9'
    }
}

fn digit(d: u64) -> (c: char)
    requires
        d < 10,
    ensures
        c == digit_char(d as nat),
{
    if d == 0 {
        '0'
    } else if d == 1 {
        '1'
    } else if d == 2 {
        '2'
    } else if d == 3 {
        '3'
    } else if d == 4 {
        '4'
    } else if d == 5 {
        '5'
    } else if d == 6 {
        '6'
    } else if d == 7 {
        '7'
    } else if d == 8 {
        '8'
    } else {
        '9'
    }
}

/// Appends the decimal form of `n` (as `format!("{}", n)` prints it).
pub fn push_decimal(s: &mut String, n: u64)
    ensures
        final(s)@ == old(s)@ + decimal(n as nat),
    decreases n,
{
    if n < 10 {
        push_char(s, digit(n));
        assert(decimal(n as nat) == seq![digit_char(n as nat)]);
        assert(final(s)@ =~= old(s)@ + decimal(n as nat));
    } else {
        push_decimal(s, n / 10);
        push_char(s, digit(n % 10));
        assert(final(s)@ =~= old(s)@ + decimal(n as nat));
    }
}

/// A character with the Unicode `White_Space` property (std `char::is_whitespace`).
pub open spec fn is_ws(c: char) -> bool {
    ('\u{9}' <= c && c <= '\u{d}') || c == ' ' || c == '\u{85}' || c == '\u{a0}' || c
        == '\u{1680}' || ('\u{2000}' <= c && c <= '\u{200a}') || c == '\u{2028}' || c
        == '\u{2029}' || c == '\u{202f}' || c == '\u{205f}' || c == '\u{3000}'
}

/// Whether a character is Unicode white space.
pub fn char_is_ws(c: char) -> (r: bool)
    ensures
        r == is_ws(c),
{
    ('\u{9}' <= c && c <= '\u{d}') || c == ' ' || c == '\u{85}' || c == '\u{a0}' || c
        == '\u{1680}' || ('\u{2000}' <= c && c <= '\u{200a}') || c == '\u{2028}' || c
        == '\u{2029}' || c == '\u{202f}' || c == '\u{205f}' || c == '\u{3000}'
}

/// The text without its leading white space.
pub open spec fn trim_start(x: Seq<char>) -> Seq<char>
    decreases x.len(),
{
    if x.len() > 0 && is_ws(x[0]) {
        trim_start(x.drop_first())
    } else {
        x
    }
}

/// The text without its trailing white space.
pub open spec fn trim_end(x: Seq<char>) -> Seq<char>
    decreases x.len(),
{
    if x.len() > 0 && is_ws(x.last()) {
        trim_end(x.drop_last())
    } else {
        x
    }
}

/// The text without leading and trailing white space (std `str::trim`).
pub open spec fn trim(x: Seq<char>) -> Seq<char> {
    trim_end(trim_start(x))
}

/// Removes leading and trailing white space.
pub fn chars_trim(x: &[char]) -> (r: Vec<char>)
    ensures
        r@ == trim(x@),
{
    let n = x.len();
    let mut a: usize = 0;
    assert(x@.skip(0) =~= x@);
    while a < n && char_is_ws(x[a])
        invariant
            a <= n,
            n == x@.len(),
            trim_start(x@.skip(a as int)) == trim_start(x@),
        decreases n - a,
    {
        assert(x@.skip(a as int).drop_first() =~= x@.skip(a + 1));
        a = a + 1;
    }
    let ghost front = x@.skip(a as int);
    assert(trim_start(front) == front);
    let mut b: usize = n;
    assert(front.take(front.len() as int) =~= front);
    while b > a && char_is_ws(x[b - 1])
        invariant
            a <= b <= n,
            n == x@.len(),
            front == x@.skip(a as int),
            trim_end(front.take(b - a)) == trim_end(front),
        decreases b,
    {
        assert(front.take(b - a).drop_last() =~= front.take(b - 1 - a));
        b = b - 1;
    }
    let mut r: Vec<char> = Vec::new();
    let mut i = a;
    while i < b
        invariant
            a <= i <= b <= n,
            n == x@.len(),
            r@ =~= x@.subrange(a as int, i as int),
        decreases b - i,
    {
        r.push(x[i]);
        i = i + 1;
    }
    assert(r@ =~= front.take(b - a));
    r
}

/// The pieces of `s` between occurrences of `sep`, in order, empty pieces included
/// (std `str::split` with a character).
pub open spec fn split_on(s: Seq<char>, sep: char) -> Seq<Seq<char>>
    decreases s.len(),
{
    if s.len() == 0 {
        seq![Seq::<char>::empty()]
    } else if s.last() == sep {
        split_on(s.drop_last(), sep).push(Seq::<char>::empty())
    } else {
        let p = split_on(s.drop_last(), sep);
        p.update(p.len() - 1, p.last().push(s.last()))
    }
}

proof fn lemma_split_nonempty(s: Seq<char>, sep: char)
    ensures
        split_on(s, sep).len() >= 1,
    decreases s.len(),
{
    if s.len() > 0 {
        lemma_split_nonempty(s.drop_last(), sep);
    }
}

/// Splits the characters at each `sep`.
pub fn chars_split(s: &[char], sep: char) -> (r: Vec<Vec<char>>)
    ensures
        r@.len() == split_on(s@, sep).len(),
        forall|k: int| 0 <= k < r@.len() ==> #[trigger] r@[k]@ == split_on(s@, sep)[k],
{
    let mut done: Vec<Vec<char>> = Vec::new();
    let mut cur: Vec<char> = Vec::new();
    let mut i: usize = 0;
    assert(s@.take(0) =~= Seq::<char>::empty());
    while i < s.len()
        invariant
            i <= s.len(),
            done@.len() + 1 == split_on(s@.take(i as int), sep).len(),
            forall|k: int|
                0 <= k < done@.len() ==> #[trigger] done@[k]@ == split_on(
                    s@.take(i as int),
                    sep,
                )[k],
            cur@ == split_on(s@.take(i as int), sep).last(),
        decreases s.len() - i,
    {
        let ghost before = s@.take(i as int);
        assert(s@.take(i + 1).drop_last() =~= before);
        assert(s@.take(i + 1).last() == s@[i as int]);
        proof {
            lemma_split_nonempty(before, sep);
        }
        if s[i] == sep {
            done.push(cur);
            cur = Vec::new();
            assert(cur@ =~= Seq::<char>::empty());
        } else {
            cur.push(s[i]);
        }
        i = i + 1;
    }
    assert(s@.take(s.len() as int) =~= s@);
    done.push(cur);
    done
}

/// The lines of a text (std `str::lines`): pieces between line feeds, without a final
/// empty piece, with the carriage return of a `\r\n` ending dropped.
pub open spec fn lines_of(s: Seq<char>) -> Seq<Seq<char>> {
    if s.len() == 0 {
        Seq::<Seq<char>>::empty()
    } else {
        let pieces = split_on(s, '\n');
        let kept = if s.last() == '\n' {
            pieces.drop_last()
        } else {
            pieces
        };
        Seq::new(
            kept.len(),
            |k: int|
                if (k < kept.len() - 1 || s.last() == '\n') && kept[k].len() > 0 && kept[k].last()
                    == '\r' {
                    kept[k].drop_last()
                } else {
                    kept[k]
                },
        )
    }
}

/// Splits a text into lines.
pub fn chars_lines(s: &[char]) -> (r: Vec<Vec<char>>)
    ensures
        r@.len() == lines_of(s@).len(),
        forall|k: int| 0 <= k < r@.len() ==> #[trigger] r@[k]@ == lines_of(s@)[k],
{
    let mut out: Vec<Vec<char>> = Vec::new();
    if s.len() == 0 {
        return out;
    }
    let pieces = chars_split(s, '\n');
    let ends_nl = s[s.len() - 1] == '\n';
    proof {
        lemma_split_nonempty(s@, '\n');
    }
    let kept_len = if ends_nl {
        pieces.len() - 1
    } else {
        pieces.len()
    };
    let mut k: usize = 0;
    while k < kept_len
        invariant
            k <= kept_len,
            kept_len <= pieces@.len(),
            s@.len() > 0,
            ends_nl == (s@.last() == '\n'),
            kept_len == lines_of(s@).len(),
            pieces@.len() == split_on(s@, '\n').len(),
            forall|j: int| 0 <= j < pieces@.len() ==> #[trigger] pieces@[j]@ == split_on(s@, '\n')[j],
            out@.len() == k,
            forall|j: int| 0 <= j < k ==> #[trigger] out@[j]@ == lines_of(s@)[j],
        decreases kept_len - k,
    {
        let p = &pieces[k];
        let strip = (k + 1 < kept_len || ends_nl) && p.len() > 0 && p[p.len() - 1] == '\r';
        let mut line: Vec<char> = Vec::new();
        let m = if strip {
            p.len() - 1
        } else {
            p.len()
        };
        let mut i: usize = 0;
        while i < m
            invariant
                i <= m <= p@.len(),
                line@ =~= p@.take(i as int),
            decreases m - i,
        {
            line.push(p[i]);
            i = i + 1;
        }
        proof {
            let kept = if s@.last() == '\n' {
                split_on(s@, '\n').drop_last()
            } else {
                split_on(s@, '\n')
            };
            assert(kept[k as int] == p@);
            if strip {
                assert(line@ =~= p@.drop_last());
            } else {
                assert(line@ =~= p@);
            }
        }
        out.push(line);
        k = k + 1;
    }
    out
}

/// The value of a non-empty sequence of ASCII digits.
pub open spec fn digits_value(d: Seq<char>) -> nat
    decreases d.len(),
{
    if d.len() == 0 {
        0
    } else {
        digits_value(d.drop_last()) * 10 + ((d.last() as nat) - ('0' as nat)) as nat
    }
}

/// An ASCII digit.
pub open spec fn is_digit(c: char) -> bool {
    '0' <= c && c <= '9'
}

/// The digits part of a number: the text without one leading `+`.
pub open spec fn unsigned_digits(x: Seq<char>) -> Seq<char> {
    if x.len() > 0 && x[0] == '+' {
        x.drop_first()
    } else {
        x
    }
}

/// Every character is an ASCII digit.
pub open spec fn all_digits(d: Seq<char>) -> bool {
    forall|i: int| 0 <= i < d.len() ==> is_digit(#[trigger] d[i])
}

/// A `u32` as std `u32::from_str` reads it: an optional `+`, then one or more ASCII
/// digits whose value fits.
pub open spec fn parse_u32(x: Seq<char>) -> Option<u32> {
    let d = unsigned_digits(x);
    if d.len() == 0 || !all_digits(d) || digits_value(d) > u32::MAX {
        None
    } else {
        Some(digits_value(d) as u32)
    }
}

proof fn lemma_digits_prefix_le(d: Seq<char>, i: int)
    requires
        0 <= i <= d.len(),
        forall|j: int| 0 <= j < d.len() ==> is_digit(d[j]),
    ensures
        digits_value(d.take(i)) <= digits_value(d),
    decreases d.len() - i,
{
    if i < d.len() {
        lemma_digits_prefix_le(d, i + 1);
        assert(d.take(i + 1).drop_last() =~= d.take(i));
    } else {
        assert(d.take(i) =~= d);
    }
}

/// Reads a `u32` in decimal.
pub fn chars_parse_u32(x: &[char]) -> (r: Option<u32>)
    ensures
        r == parse_u32(x@),
{
    let start: usize = if x.len() > 0 && x[0] == '+' {
        1
    } else {
        0
    };
    let ghost d = unsigned_digits(x@);
    assert(d =~= x@.skip(start as int));
    if start == x.len() {
        return None;
    }
    let mut i = start;
    let mut v: u32 = 0;
    assert(d.take(0) =~= Seq::<char>::empty());
    while i < x.len()
        invariant
            start <= i <= x.len(),
            d == x@.skip(start as int),
            d == unsigned_digits(x@),
            forall|j: int| 0 <= j < i - start ==> is_digit(d[j]),
            v == digits_value(d.take(i - start)),
        decreases x.len() - i,
    {
        let c = x[i];
        assert(d[i - start] == x@[i as int]);
        if !('0' <= c && c <= '9') {
            assert(!is_digit(d[i - start]));
            assert(!all_digits(d));
            assert(unsigned_digits(x@) == d);
            assert(parse_u32(x@) is None);
            return None;
        }
        let dig: u32 = (c as u32) - ('0' as u32);
        assert(d.take(i + 1 - start).drop_last() =~= d.take(i - start));
        assert(d.take(i + 1 - start).last() == c);
        if v > 429496729 || (v == 429496729 && dig > 5) {
            proof {
                assert(digits_value(d.take(i + 1 - start)) > u32::MAX);
                if all_digits(d) {
                    lemma_digits_prefix_le(d, i + 1 - start);
                    assert(digits_value(d) > u32::MAX);
                }
                assert(unsigned_digits(x@) == d);
                assert(parse_u32(x@) is None);
            }
            return None;
        }
        v = v * 10 + dig;
        i = i + 1;
    }
    assert(d.take(i - start) =~= d);
    Some(v)
}

} // verus!
