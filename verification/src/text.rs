//! Character-level string utilities: ASCII case folding, substring
//! search and character search, specified over `Seq<char>` views.

use vstd::prelude::*;
use vstd::string::*;

verus! {

/// ASCII case folding of one character.
pub open spec fn lower_char(c: char) -> char {
    if 'A' <= c && c <= 'Z' {
        ((c as u8) + 32) as char
    } else {
        c
    }
}

/// ASCII case folding of a character sequence.
pub open spec fn lower_seq(s: Seq<char>) -> Seq<char> {
    s.map_values(|c: char| lower_char(c))
}

/// `n` occurs in `h` starting at position `i`.
pub open spec fn matches_at(h: Seq<char>, n: Seq<char>, i: int) -> bool {
    &&& 0 <= i
    &&& i + n.len() <= h.len()
    &&& forall|j: int| 0 <= j < n.len() ==> h[i + j] == n[j]
}

/// `n` occurs somewhere in `h` as a contiguous subsequence.
pub open spec fn seq_contains(h: Seq<char>, n: Seq<char>) -> bool {
    exists|i: int| matches_at(h, n, i)
}

/// `n` is a prefix of `h`.
pub open spec fn seq_starts_with(h: Seq<char>, n: Seq<char>) -> bool {
    matches_at(h, n, 0)
}

/// Relies on String::push: appends exactly the given character.
#[verifier::external_body]
pub(crate) fn push_char(s: &mut String, c: char)
    ensures
        final(s)@ == old(s)@.push(c),
{
    s.push(c);
}

/// ASCII lower-case copy of a string; other characters pass unchanged.
pub fn to_ascii_lowercase(s: &str) -> (r: String)
    ensures
        r@ == lower_seq(s@),
{
    let len: usize = s.unicode_len();
    let mut out: String = String::new();
    let mut i: usize = 0;
    while i < len
        invariant
            i <= len,
            len == s@.len(),
            out@ == lower_seq(s@.subrange(0, i as int)),
        decreases len - i,
    {
        let c: char = s.get_char(i);
        let lc: char = if c >= 'A' && c <= 'Z' {
            (((c as u8) + 32) as char)
        } else {
            c
        };
        assert(lc == lower_char(s@[i as int]));
        push_char(&mut out, lc);
        proof {
            assert(s@.subrange(0, i + 1) =~= s@.subrange(0, i as int).push(s@[i as int]));
            assert(lower_seq(s@.subrange(0, i + 1)) =~= lower_seq(
                s@.subrange(0, i as int),
            ).push(lower_char(s@[i as int])));
        }
        i = i + 1;
    }
    proof {
        assert(s@.subrange(0, len as int) =~= s@);
    }
    out
}

/// Character-wise string equality.
pub fn str_eq(a: &str, b: &str) -> (r: bool)
    ensures
        r == (a@ == b@),
{
    let alen: usize = a.unicode_len();
    let blen: usize = b.unicode_len();
    if alen != blen {
        proof {
            assert(a@ != b@);
        }
        return false;
    }
    let mut i: usize = 0;
    while i < alen
        invariant
            i <= alen,
            alen == a@.len(),
            alen == b@.len(),
            forall|j: int| 0 <= j < i ==> a@[j] == b@[j],
        decreases alen - i,
    {
        if a.get_char(i) != b.get_char(i) {
            proof {
                assert(a@[i as int] != b@[i as int]);
            }
            return false;
        }
        i = i + 1;
    }
    proof {
        assert(a@ =~= b@);
    }
    true
}

/// Whether `n` is a prefix of `h`.
pub fn starts_with_str(h: &str, n: &str) -> (r: bool)
    ensures
        r == seq_starts_with(h@, n@),
{
    let hlen: usize = h.unicode_len();
    let nlen: usize = n.unicode_len();
    if nlen > hlen {
        return false;
    }
    let mut j: usize = 0;
    while j < nlen
        invariant
            j <= nlen,
            nlen <= hlen,
            hlen == h@.len(),
            nlen == n@.len(),
            forall|k: int| 0 <= k < j ==> h@[k] == n@[k],
        decreases nlen - j,
    {
        if h.get_char(j) != n.get_char(j) {
            proof {
                assert(h@[j as int] != n@[j as int]);
            }
            return false;
        }
        j = j + 1;
    }
    true
}

/// Whether `n` occurs in `h` as a contiguous subsequence.
pub fn contains_str(h: &str, n: &str) -> (r: bool)
    ensures
        r == seq_contains(h@, n@),
{
    let hlen: usize = h.unicode_len();
    let nlen: usize = n.unicode_len();
    if nlen > hlen {
        proof {
            assert(forall|i: int| !matches_at(h@, n@, i));
        }
        return false;
    }
    let mut i: usize = 0;
    while i <= hlen - nlen
        invariant
            nlen <= hlen,
            hlen == h@.len(),
            nlen == n@.len(),
            i <= hlen - nlen + 1,
            forall|p: int| 0 <= p < i ==> !matches_at(h@, n@, p),
        decreases hlen - nlen + 1 - i,
    {
        let mut j: usize = 0;
        let mut hit: bool = true;
        while j < nlen
            invariant
                j <= nlen,
                i + nlen <= hlen,
                hlen == h@.len(),
                nlen == n@.len(),
                hit ==> forall|k: int| 0 <= k < j ==> h@[i + k] == n@[k],
                !hit ==> !matches_at(h@, n@, i as int),
            decreases nlen - j,
        {
            if h.get_char(i + j) != n.get_char(j) {
                proof {
                    assert(h@[i + j] != n@[j as int]);
                }
                hit = false;
                j = nlen;
            } else {
                j = j + 1;
            }
        }
        if hit {
            proof {
                assert(matches_at(h@, n@, i as int));
            }
            return true;
        }
        i = i + 1;
    }
    proof {
        assert(forall|p: int| 0 <= p <= hlen - nlen ==> !matches_at(h@, n@, p));
        assert(forall|p: int| !matches_at(h@, n@, p));
    }
    false
}

/// First position of `c` in `s`, if any.
pub fn find_char(s: &str, c: char) -> (r: Option<usize>)
    ensures
        match r {
            Some(i) => i < s@.len() && s@[i as int] == c && forall|j: int|
                0 <= j < i ==> s@[j] != c,
            None => forall|j: int| 0 <= j < s@.len() ==> s@[j] != c,
        },
{
    let len: usize = s.unicode_len();
    let mut i: usize = 0;
    while i < len
        invariant
            i <= len,
            len == s@.len(),
            forall|j: int| 0 <= j < i ==> s@[j] != c,
        decreases len - i,
    {
        if s.get_char(i) == c {
            return Some(i);
        }
        i = i + 1;
    }
    None
}

/// The suffix after the last occurrence of `c`; the whole sequence
/// when `c` does not occur.
pub open spec fn after_last(s: Seq<char>, c: char) -> Seq<char>
    decreases s.len(),
{
    if s.len() == 0 {
        s
    } else if s.last() == c {
        Seq::empty()
    } else {
        after_last(s.drop_last(), c).push(s.last())
    }
}

/// The suffix after a last occurrence, computed from its position.
pub proof fn lemma_after_last_at(s: Seq<char>, c: char, i: int)
    requires
        0 <= i < s.len(),
        s[i] == c,
        forall|j: int| i < j < s.len() ==> s[j] != c,
    ensures
        after_last(s, c) == s.subrange(i + 1, s.len() as int),
    decreases s.len(),
{
    if i == s.len() - 1 {
        assert(s.subrange(i + 1, s.len() as int) =~= Seq::<char>::empty());
    } else {
        assert(s.last() != c);
        lemma_after_last_at(s.drop_last(), c, i);
        assert(s.drop_last().subrange(i + 1, s.len() - 1).push(s.last()) =~= s.subrange(
            i + 1,
            s.len() as int,
        ));
    }
}

/// Without an occurrence the suffix is the whole sequence.
pub proof fn lemma_after_last_none(s: Seq<char>, c: char)
    requires
        forall|j: int| 0 <= j < s.len() ==> s[j] != c,
    ensures
        after_last(s, c) == s,
    decreases s.len(),
{
    if s.len() > 0 {
        lemma_after_last_none(s.drop_last(), c);
        assert(s.drop_last().push(s.last()) =~= s);
    }
}

/// Last position of `c` in `s`, if any.
pub fn rfind_char(s: &str, c: char) -> (r: Option<usize>)
    ensures
        match r {
            Some(i) => i < s@.len() && s@[i as int] == c && forall|j: int|
                i < j < s@.len() ==> s@[j] != c,
            None => forall|j: int| 0 <= j < s@.len() ==> s@[j] != c,
        },
{
    let len: usize = s.unicode_len();
    let mut i: usize = len;
    while i > 0
        invariant
            i <= len,
            len == s@.len(),
            forall|j: int| i <= j < len ==> s@[j] != c,
        decreases i,
    {
        i = i - 1;
        if s.get_char(i) == c {
            return Some(i);
        }
    }
    None
}

} // verus!
