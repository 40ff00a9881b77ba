//! Character-level text utilities over `String` / `&str`, specified on the
//! `Seq<char>` views of their arguments.
use vstd::prelude::*;

verus! {

/// Appends one character to a string by calling std's `String::push`.
/// Trusted: the contract claims, as std documents, that afterwards the
/// string holds its former characters followed by `c`.
#[verifier::external_body]
pub(crate) fn push_char(s: &mut String, c: char)
    ensures
        final(s)@ == old(s)@.push(c),
{
    s.push(c);
}

/// Appends a string slice to a string.
pub fn push_text(s: &mut String, t: &str)
    ensures
        final(s)@ == old(s)@ + t@,
{
    s.append(t);
}

/// An owned copy of a string slice.
pub fn owned(t: &str) -> (s: String)
    ensures
        s@ == t@,
{
    String::from_str(t)
}

/// The characters of a string slice, in order.
pub fn chars_of(s: &str) -> (v: Vec<char>)
    ensures
        v@ == s@,
{
    let mut v: Vec<char> = Vec::new();
    for c in it: s.chars()
        invariant
            v@ == it.seq().take(it.index() as int),
    {
        v.push(c);
    }
    v
}

// ---------------------------------------------------------------------------
// Decimal rendering of unsigned integers
// ---------------------------------------------------------------------------

/// The ASCII digit for `d` (`d < 10`).
pub open spec fn digit_char(d: nat) -> char {
    (48 + d) as char
}

/// The decimal representation of `n`, most significant digit first, without
/// sign or leading zeros (as `format!("{}", n)` writes an unsigned integer).
pub open spec fn decimal_digits(n: nat) -> Seq<char>
    decreases n,
{
    if n < 10 {
        seq![digit_char(n)]
    } else {
        decimal_digits(n / 10).push(digit_char(n % 10))
    }
}

/// Appends the decimal representation of `n` to `out`.
pub fn push_decimal(out: &mut String, n: u64)
    ensures
        final(out)@ == old(out)@ + decimal_digits(n as nat),
    decreases n,
{
    if n >= 10 {
        push_decimal(out, n / 10);
    }
    let d: u8 = (n % 10) as u8;
    let c: char = (48u8 + d) as char;
    assert(c == digit_char((n % 10) as nat));
    push_char(out, c);
    assert(decimal_digits(n as nat) =~= (if n >= 10 { decimal_digits((n / 10) as nat) } else { Seq::empty() }).push(c));
}

/// The decimal representation of `n` as a new string.
pub fn decimal_text(n: u64) -> (s: String)
    ensures
        s@ == decimal_digits(n as nat),
{
    let mut s = String::new();
    push_decimal(&mut s, n);
    assert(s@ =~= decimal_digits(n as nat));
    s
}

// ---------------------------------------------------------------------------
// Lexicographic order on text
// ---------------------------------------------------------------------------

/// Strict lexicographic order of two texts by Unicode scalar value. This is
/// the order of `String`'s `Ord`: UTF-8 preserves scalar order, so comparing
/// the encoded bytes and comparing the characters agree.
pub open spec fn text_lt(a: Seq<char>, b: Seq<char>) -> bool
    decreases a.len(),
{
    if a.len() == 0 {
        b.len() > 0
    } else if b.len() == 0 {
        false
    } else if a[0] != b[0] {
        a[0] < b[0]
    } else {
        text_lt(a.drop_first(), b.drop_first())
    }
}

/// `text_lt` is irreflexive.
pub proof fn lemma_text_lt_irreflexive(a: Seq<char>)
    ensures
        !text_lt(a, a),
    decreases a.len(),
{
    if a.len() > 0 {
        lemma_text_lt_irreflexive(a.drop_first());
    }
}

/// `text_lt` is transitive.
pub proof fn lemma_text_lt_transitive(a: Seq<char>, b: Seq<char>, c: Seq<char>)
    requires
        text_lt(a, b),
        text_lt(b, c),
    ensures
        text_lt(a, c),
    decreases a.len(),
{
    if a.len() > 0 && b.len() > 0 && c.len() > 0 {
        if a[0] == b[0] && b[0] == c[0] {
            lemma_text_lt_transitive(a.drop_first(), b.drop_first(), c.drop_first());
        }
    }
}

/// Any two texts are ordered one way or the other, or are equal.
pub proof fn lemma_text_lt_total(a: Seq<char>, b: Seq<char>)
    ensures
        text_lt(a, b) || text_lt(b, a) || a == b,
    decreases a.len(),
{
    if a.len() > 0 && b.len() > 0 {
        if a[0] == b[0] {
            lemma_text_lt_total(a.drop_first(), b.drop_first());
            if a.drop_first() == b.drop_first() {
                assert(a =~= seq![a[0]] + a.drop_first());
                assert(b =~= seq![b[0]] + b.drop_first());
            }
        }
    } else if a.len() == 0 && b.len() == 0 {
        assert(a =~= b);
    }
}

/// `text_lt` is asymmetric.
pub proof fn lemma_text_lt_asymmetric(a: Seq<char>, b: Seq<char>)
    requires
        text_lt(a, b),
    ensures
        !text_lt(b, a),
{
    if text_lt(b, a) {
        lemma_text_lt_transitive(a, b, a);
        lemma_text_lt_irreflexive(a);
    }
}

/// Whether `a` comes strictly before `b` in text order.
pub fn text_less(a: &str, b: &str) -> (r: bool)
    ensures
        r == text_lt(a@, b@),
{
    let va = chars_of(a);
    let vb = chars_of(b);
    let mut i: usize = 0;
    assert(a@.skip(0) =~= a@);
    assert(b@.skip(0) =~= b@);
    while i < va.len() && i < vb.len()
        invariant
            va@ == a@,
            vb@ == b@,
            i <= va.len(),
            i <= vb.len(),
            text_lt(a@, b@) == text_lt(a@.skip(i as int), b@.skip(i as int)),
        decreases va.len() - i,
    {
        let ca = va[i];
        let cb = vb[i];
        if ca != cb {
            assert(a@.skip(i as int)[0] == ca);
            assert(b@.skip(i as int)[0] == cb);
            return ca < cb;
        }
        assert(a@.skip(i as int).drop_first() =~= a@.skip(i + 1));
        assert(b@.skip(i as int).drop_first() =~= b@.skip(i + 1));
        i = i + 1;
    }
    i < vb.len()
}

/// Whether two texts are equal.
pub fn text_equal(a: &str, b: &str) -> (r: bool)
    ensures
        r == (a@ == b@),
{
    let va = chars_of(a);
    let vb = chars_of(b);
    if va.len() != vb.len() {
        return false;
    }
    let mut i: usize = 0;
    while i < va.len()
        invariant
            va@ == a@,
            vb@ == b@,
            va.len() == vb.len(),
            i <= va.len(),
            a@.take(i as int) == b@.take(i as int),
        decreases va.len() - i,
    {
        if va[i] != vb[i] {
            return false;
        }
        assert(a@.take(i + 1) =~= a@.take(i as int).push(va[i as int]));
        assert(b@.take(i + 1) =~= b@.take(i as int).push(vb[i as int]));
        i = i + 1;
    }
    assert(a@ =~= a@.take(i as int));
    assert(b@ =~= b@.take(i as int));
    true
}

// ---------------------------------------------------------------------------
// Prefixes, repetition, ASCII case
// ---------------------------------------------------------------------------

/// Whether `p` is a prefix of `s`.
pub open spec fn has_prefix(s: Seq<char>, p: Seq<char>) -> bool {
    p.len() <= s.len() && s.take(p.len() as int) == p
}

/// `s` without the prefix `p` if it has it, else `s` unchanged
/// (`str::strip_prefix(..).unwrap_or(s)`).
pub open spec fn strip_prefix_or_keep(s: Seq<char>, p: Seq<char>) -> Seq<char> {
    if has_prefix(s, p) {
        s.skip(p.len() as int)
    } else {
        s
    }
}

/// `s` without the prefix `p` if it has it, else a copy of `s`.
pub fn strip_prefix_text(s: &str, p: &str) -> (r: String)
    ensures
        r@ == strip_prefix_or_keep(s@, p@),
{
    let vs = chars_of(s);
    let vp = chars_of(p);
    let start: usize = if occurs_at_exec(&vs, &vp, 0) { vp.len() } else { 0 };
    proof {
        assert(s@.subrange(0, p@.len() as int) =~= s@.take(p@.len() as int));
    }
    let mut r = String::new();
    let mut i: usize = start;
    assert(r@ =~= s@.subrange(start as int, start as int));
    while i < vs.len()
        invariant
            vs@ == s@,
            start <= i <= vs.len(),
            r@ == s@.subrange(start as int, i as int),
        decreases vs.len() - i,
    {
        push_char(&mut r, vs[i]);
        i = i + 1;
        assert(r@ =~= s@.subrange(start as int, i as int));
    }
    assert(r@ =~= strip_prefix_or_keep(s@, p@));
    r
}

/// Whether `p` occurs in `s` starting at position `i`.
pub open spec fn occurs_at(s: Seq<char>, p: Seq<char>, i: int) -> bool {
    0 <= i && i + p.len() <= s.len() && s.subrange(i, i + p.len()) == p
}

/// Whether `p` occurs anywhere in `s`.
pub open spec fn contains_text(s: Seq<char>, p: Seq<char>) -> bool {
    exists|i: int| occurs_at(s, p, i)
}

/// Whether `p` occurs in `s` at position `i` (exec).
pub fn occurs_at_exec(s: &Vec<char>, p: &Vec<char>, i: usize) -> (r: bool)
    ensures
        r == occurs_at(s@, p@, i as int),
{
    if i > s.len() || p.len() > s.len() - i {
        return false;
    }
    let mut k: usize = 0;
    while k < p.len()
        invariant
            i + p.len() <= s.len(),
            k <= p.len(),
            forall|j: int| 0 <= j < k ==> s@[i + j] == p@[j],
        decreases p.len() - k,
    {
        if s[i + k] != p[k] {
            assert(s@.subrange(i as int, i + p.len())[k as int] != p@[k as int]);
            return false;
        }
        k = k + 1;
    }
    assert(s@.subrange(i as int, i + p.len()) =~= p@);
    true
}

/// `t` written `n` times in a row.
pub open spec fn repeat_text(t: Seq<char>, n: nat) -> Seq<char>
    decreases n,
{
    if n == 0 {
        Seq::empty()
    } else {
        repeat_text(t, (n - 1) as nat) + t
    }
}

/// Appends `t` written `n` times to `out` (`str::repeat`).
pub fn push_repeated(out: &mut String, t: &str, n: usize)
    ensures
        final(out)@ == old(out)@ + repeat_text(t@, n as nat),
{
    let mut i: usize = 0;
    while i < n
        invariant
            i <= n,
            out@ == old(out)@ + repeat_text(t@, i as nat),
        decreases n - i,
    {
        push_text(out, t);
        i = i + 1;
        assert(out@ =~= old(out)@ + repeat_text(t@, i as nat));
    }
}

/// ASCII lower case of one character; others unchanged
/// (`char::to_ascii_lowercase`).
pub open spec fn ascii_lower(c: char) -> char {
    if 'A' <= c && c <= 'Z' {
        ((c as u32) + 32) as char
    } else {
        c
    }
}

/// ASCII lower case of a text (`str::to_ascii_lowercase`).
pub open spec fn ascii_lower_text(s: Seq<char>) -> Seq<char> {
    s.map_values(|c: char| ascii_lower(c))
}

/// Appends the ASCII lower case of `t` to `out`.
pub fn push_ascii_lower(out: &mut String, t: &str)
    ensures
        final(out)@ == old(out)@ + ascii_lower_text(t@),
{
    let v = chars_of(t);
    let mut i: usize = 0;
    while i < v.len()
        invariant
            v@ == t@,
            i <= v.len(),
            out@ == old(out)@ + ascii_lower_text(t@.take(i as int)),
        decreases v.len() - i,
    {
        let c = v[i];
        let l: char = if 'A' <= c && c <= 'Z' {
            let u: u32 = (c as u32) + 32;
            assert(u < 0xD800);
            char_from_ascii_upper(c)
        } else {
            c
        };
        push_char(out, l);
        assert(ascii_lower_text(t@.take(i + 1)) =~= ascii_lower_text(t@.take(i as int)).push(ascii_lower(c)));
        i = i + 1;
    }
    assert(t@.take(i as int) =~= t@);
}

/// The lower-case letter for an ASCII upper-case letter.
fn char_from_ascii_upper(c: char) -> (l: char)
    requires
        'A' <= c && c <= 'Z',
    ensures
        l == ascii_lower(c),
{
    let b: u8 = (c as u32) as u8;
    let r: char = (b + 32) as char;
    r
}

// ---------------------------------------------------------------------------
// Replacement of every occurrence of a pattern
// ---------------------------------------------------------------------------

/// `s` with every non-overlapping occurrence of the non-empty pattern `p`,
/// found from left to right, replaced by `r` (`str::replace`).
pub open spec fn replace_all(s: Seq<char>, p: Seq<char>, r: Seq<char>) -> Seq<char>
    decreases s.len(),
{
    if s.len() == 0 {
        s
    } else if p.len() > 0 && has_prefix(s, p) {
        r + replace_all(s.skip(p.len() as int), p, r)
    } else {
        seq![s[0]] + replace_all(s.drop_first(), p, r)
    }
}

/// Replaces every occurrence of the non-empty pattern `p` in `s` by `r`.
pub fn replace_text(s: &str, p: &str, r: &str) -> (out: String)
    requires
        p@.len() > 0,
    ensures
        out@ == replace_all(s@, p@, r@),
{
    let vs = chars_of(s);
    let vp = chars_of(p);
    let mut out = String::new();
    let mut i: usize = 0;
    assert(s@.skip(0) =~= s@);
    assert(out@ + s@ =~= s@);
    while i < vs.len()
        invariant
            vs@ == s@,
            vp@ == p@,
            p@.len() > 0,
            i <= vs.len(),
            replace_all(s@, p@, r@) == out@ + replace_all(s@.skip(i as int), p@, r@),
        decreases vs.len() - i,
    {
        let rest = Ghost(s@.skip(i as int));
        if occurs_at_exec(&vs, &vp, i) {
            assert(rest@.take(p@.len() as int) =~= s@.subrange(i as int, i + p@.len()));
            assert(rest@.skip(p@.len() as int) =~= s@.skip(i + p@.len()));
            push_text(&mut out, r);
            i = i + vp.len();
        } else {
            assert(!has_prefix(rest@, p@)) by {
                if has_prefix(rest@, p@) {
                    assert(rest@.take(p@.len() as int) =~= s@.subrange(i as int, i + p@.len()));
                }
            }
            assert(rest@.drop_first() =~= s@.skip(i + 1));
            push_char(&mut out, vs[i]);
            i = i + 1;
        }
        assert(out@ + replace_all(s@.skip(i as int), p@, r@) =~= replace_all(s@, p@, r@));
    }
    assert(s@.skip(i as int) =~= Seq::<char>::empty());
    assert(out@ + Seq::<char>::empty() =~= out@);
    out
}

}
