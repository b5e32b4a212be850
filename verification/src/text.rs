//! Verified helpers over `&str` and its `Seq<char>` view: equality,
//! lexicographic order, prefix test, ASCII trimming and splitting on a
//! delimiter character.

use vstd::prelude::*;

verus! {

/// Character-wise equality of two string slices.
pub fn str_eq(a: &str, b: &str) -> (r: bool)
    ensures
        r == (a@ == b@),
{
    let an = a.unicode_len();
    let bn = b.unicode_len();
    if an != bn {
        assert(a@ != b@) by {
            assert(a@.len() != b@.len());
        }
        return false;
    }
    let mut i: usize = 0;
    while i < an
        invariant
            an == a@.len(),
            an == b@.len(),
            i <= an,
            forall|k: int| 0 <= k < i ==> a@[k] == b@[k],
        decreases an - i,
    {
        if a.get_char(i) != b.get_char(i) {
            return false;
        }
        i += 1;
    }
    proof {
        assert(a@ =~= b@);
    }
    true
}

/// Lexicographic order on character sequences, by Unicode scalar value;
/// this is the order `str`'s own comparison uses.
pub open spec fn lex_le(a: Seq<char>, b: Seq<char>) -> bool
    decreases a.len(),
{
    if a.len() == 0 {
        true
    } else if b.len() == 0 {
        false
    } else if (a[0] as int) < (b[0] as int) {
        true
    } else if (a[0] as int) > (b[0] as int) {
        false
    } else {
        lex_le(a.drop_first(), b.drop_first())
    }
}

/// Strict lexicographic order.
pub open spec fn lex_lt(a: Seq<char>, b: Seq<char>) -> bool {
    lex_le(a, b) && a != b
}

/// Any two sequences are ordered one way or the other.
pub proof fn lemma_lex_total(a: Seq<char>, b: Seq<char>)
    ensures
        lex_le(a, b) || lex_le(b, a),
    decreases a.len(),
{
    if a.len() != 0 && b.len() != 0 && (a[0] as int) == (b[0] as int) {
        lemma_lex_total(a.drop_first(), b.drop_first());
    }
}

/// Lexicographic order is transitive.
pub proof fn lemma_lex_trans(a: Seq<char>, b: Seq<char>, c: Seq<char>)
    requires
        lex_le(a, b),
        lex_le(b, c),
    ensures
        lex_le(a, c),
    decreases a.len(),
{
    if a.len() != 0 && b.len() != 0 && c.len() != 0 && (a[0] as int) == (b[0] as int) && (b[0]
        as int) == (c[0] as int) {
        lemma_lex_trans(a.drop_first(), b.drop_first(), c.drop_first());
    }
}

/// Two sequences each at or below the other are equal.
pub proof fn lemma_lex_antisym(a: Seq<char>, b: Seq<char>)
    requires
        lex_le(a, b),
        lex_le(b, a),
    ensures
        a == b,
    decreases a.len(),
{
    if a.len() == 0 {
        assert(b.len() == 0);
        assert(a =~= b);
    } else {
        assert(b.len() != 0);
        assert((a[0] as int) == (b[0] as int));
        assert(a[0] == b[0]);
        lemma_lex_antisym(a.drop_first(), b.drop_first());
        assert(forall|k: int|
            1 <= k < a.len() ==> a[k] == a.drop_first()[k - 1] && b[k] == b.drop_first()[k - 1]);
        assert(a =~= b);
    }
}

/// Lexicographic comparison of two string slices.
pub fn str_lex_le(a: &str, b: &str) -> (r: bool)
    ensures
        r == lex_le(a@, b@),
{
    let an = a.unicode_len();
    let bn = b.unicode_len();
    let mut i: usize = 0;
    proof {
        assert(a@.subrange(0, an as int) =~= a@);
        assert(b@.subrange(0, bn as int) =~= b@);
    }
    loop
        invariant
            an == a@.len(),
            bn == b@.len(),
            i <= an,
            i <= bn,
            lex_le(a@, b@) == lex_le(
                a@.subrange(i as int, an as int),
                b@.subrange(i as int, bn as int),
            ),
        decreases an - i,
    {
        proof {
            assert(a@.subrange(i as int, an as int).len() == an - i);
            assert(b@.subrange(i as int, bn as int).len() == bn - i);
        }
        if i >= an {
            return true;
        }
        if i >= bn {
            return false;
        }
        let ca = a.get_char(i);
        let cb = b.get_char(i);
        if (ca as u32) < (cb as u32) {
            return true;
        }
        if (ca as u32) > (cb as u32) {
            return false;
        }
        proof {
            let sa = a@.subrange(i as int, an as int);
            let sb = b@.subrange(i as int, bn as int);
            assert(sa.drop_first() =~= a@.subrange(i + 1, an as int));
            assert(sb.drop_first() =~= b@.subrange(i + 1, bn as int));
        }
        i += 1;
    }
}

/// `p` is a prefix of `s`.
pub open spec fn has_prefix(s: Seq<char>, p: Seq<char>) -> bool {
    p.len() <= s.len() && s.subrange(0, p.len() as int) == p
}

/// Prefix test on string slices.
pub fn starts_with_str(s: &str, p: &str) -> (r: bool)
    ensures
        r == has_prefix(s@, p@),
{
    let sn = s.unicode_len();
    let pn = p.unicode_len();
    if pn > sn {
        return false;
    }
    let mut i: usize = 0;
    while i < pn
        invariant
            sn == s@.len(),
            pn == p@.len(),
            pn <= sn,
            i <= pn,
            forall|k: int| 0 <= k < i ==> s@[k] == p@[k],
        decreases pn - i,
    {
        if s.get_char(i) != p.get_char(i) {
            assert(s@.subrange(0, pn as int)[i as int] != p@[i as int]);
            return false;
        }
        i += 1;
    }
    proof {
        assert(s@.subrange(0, pn as int) =~= p@);
    }
    true
}

/// The whitespace characters trimming removes: the ASCII blanks.
pub open spec fn is_ws(c: char) -> bool {
    c == ' ' || c == '\t' || c == '\r' || c == '\n' || c == '\x0b' || c == '\x0c'
}

/// `s` without its leading whitespace.
pub open spec fn drop_leading_ws(s: Seq<char>) -> Seq<char>
    decreases s.len(),
{
    if s.len() > 0 && is_ws(s[0]) {
        drop_leading_ws(s.drop_first())
    } else {
        s
    }
}

/// `s` without its trailing whitespace.
pub open spec fn drop_trailing_ws(s: Seq<char>) -> Seq<char>
    decreases s.len(),
{
    if s.len() > 0 && is_ws(s.last()) {
        drop_trailing_ws(s.drop_last())
    } else {
        s
    }
}

/// `s` without leading and trailing whitespace.
pub open spec fn trim_spec(s: Seq<char>) -> Seq<char> {
    drop_trailing_ws(drop_leading_ws(s))
}

/// Trims ASCII whitespace from both ends of a string slice.
pub fn trim_str(s: &str) -> (r: &str)
    ensures
        r@ == trim_spec(s@),
{
    let n = s.unicode_len();
    let mut i: usize = 0;
    proof {
        assert(s@.subrange(0, n as int) =~= s@);
    }
    while i < n && is_ws_char(s.get_char(i))
        invariant
            n == s@.len(),
            i <= n,
            drop_leading_ws(s@) == drop_leading_ws(s@.subrange(i as int, n as int)),
        decreases n - i,
    {
        proof {
            let sub = s@.subrange(i as int, n as int);
            assert(sub[0] == s@[i as int]);
            assert(sub.drop_first() =~= s@.subrange(i + 1, n as int));
        }
        i += 1;
    }
    proof {
        let sub = s@.subrange(i as int, n as int);
        if i < n {
            assert(sub[0] == s@[i as int]);
            assert(drop_leading_ws(sub) == sub);
        } else {
            assert(sub.len() == 0);
            assert(drop_leading_ws(sub) == sub);
        }
    }
    let mut j: usize = n;
    while j > i && is_ws_char(s.get_char(j - 1))
        invariant
            n == s@.len(),
            i <= j <= n,
            drop_leading_ws(s@) == s@.subrange(i as int, n as int),
            drop_trailing_ws(s@.subrange(i as int, n as int)) == drop_trailing_ws(
                s@.subrange(i as int, j as int),
            ),
        decreases j,
    {
        proof {
            let sub = s@.subrange(i as int, j as int);
            assert(sub.last() == s@[j - 1]);
            assert(sub.drop_last() =~= s@.subrange(i as int, j - 1));
        }
        j -= 1;
    }
    proof {
        let sub = s@.subrange(i as int, j as int);
        if j > i {
            assert(sub.last() == s@[j - 1]);
            assert(drop_trailing_ws(sub) == sub);
        } else {
            assert(sub.len() == 0);
            assert(drop_trailing_ws(sub) == sub);
        }
    }
    s.substring_char(i, j)
}

/// Executable form of [`is_ws`].
pub fn is_ws_char(c: char) -> (r: bool)
    ensures
        r == is_ws(c),
{
    c == ' ' || c == '\t' || c == '\r' || c == '\n' || c == '\x0b' || c == '\x0c'
}

/// Index of the first occurrence of `d` in `s`, or `s.len()` if absent.
pub open spec fn find_char(s: Seq<char>, d: char) -> nat
    decreases s.len(),
{
    if s.len() == 0 {
        0
    } else if s[0] == d {
        0
    } else {
        1 + find_char(s.drop_first(), d)
    }
}

/// `find_char` is determined by the facts the search loop establishes.
pub proof fn lemma_find_char_of(s: Seq<char>, d: char, m: int)
    requires
        0 <= m <= s.len(),
        m < s.len() ==> s[m] == d,
        m == s.len() ==> forall|k: int| 0 <= k < s.len() ==> s[k] != d,
        forall|k: int| 0 <= k < m ==> s[k] != d,
    ensures
        find_char(s, d) == m,
    decreases s.len(),
{
    if s.len() > 0 && s[0] != d {
        assert(m > 0);
        let t = s.drop_first();
        assert(forall|k: int| 0 <= k < t.len() ==> t[k] == s[k + 1]);
        lemma_find_char_of(t, d, m - 1);
    }
}

/// `s` split on the delimiter `d`: the (possibly empty) segments between
/// occurrences of `d`.  A sequence without `d` is one segment; every
/// occurrence of `d` separates two segments.
pub open spec fn split_on(s: Seq<char>, d: char) -> Seq<Seq<char>>
    decreases s.len(),
{
    let i = find_char(s, d) as int;
    if i >= s.len() {
        seq![s]
    } else {
        seq![s.subrange(0, i)] + split_on(s.subrange(i + 1, s.len() as int), d)
    }
}

/// Splits a string slice on a delimiter character.
pub fn split_str(s: &str, d: char) -> (r: Vec<String>)
    ensures
        r.deep_view() == split_on(s@, d),
{
    let n = s.unicode_len();
    let mut out: Vec<String> = Vec::new();
    let mut seg: usize = 0;
    let mut i: usize = 0;
    proof {
        assert(s@.subrange(0, n as int) =~= s@);
        assert(out.deep_view() =~= Seq::<Seq<char>>::empty());
        assert(out.deep_view() + split_on(s@, d) =~= split_on(s@, d));
    }
    while i < n
        invariant
            n == s@.len(),
            seg <= i <= n,
            forall|k: int| seg <= k < i ==> s@[k] != d,
            split_on(s@, d) == out.deep_view() + split_on(s@.subrange(seg as int, n as int), d),
        decreases n - i,
    {
        if s.get_char(i) == d {
            proof {
                let sub = s@.subrange(seg as int, n as int);
                assert(forall|k: int| 0 <= k < i - seg ==> sub[k] == s@[k + seg] && sub[k] != d);
                assert(sub[i - seg] == s@[i as int]);
                lemma_find_char_of(sub, d, i - seg);
                assert(sub.subrange(0, i - seg) =~= s@.subrange(seg as int, i as int));
                assert(sub.subrange(i - seg + 1, sub.len() as int) =~= s@.subrange(
                    i + 1,
                    n as int,
                ));
                assert(out.deep_view() + split_on(sub, d) =~= (out.deep_view() + seq![
                    s@.subrange(seg as int, i as int),
                ]) + split_on(s@.subrange(i + 1, n as int), d));
            }
            let field = s.substring_char(seg, i).to_owned();
            out.push(field);
            seg = i + 1;
        }
        i += 1;
    }
    proof {
        let sub = s@.subrange(seg as int, n as int);
        assert(forall|k: int| 0 <= k < sub.len() ==> sub[k] == s@[k + seg] && sub[k] != d);
        lemma_find_char_of(sub, d, sub.len() as int);
        assert(split_on(sub, d) == seq![sub]);
    }
    let last = s.substring_char(seg, n).to_owned();
    out.push(last);
    proof {
        assert(out.deep_view() =~= split_on(s@, d));
    }
    out
}

} // verus!
