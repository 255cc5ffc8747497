//! Character-level string operations: lexicographic comparison, substring,
//! prefix and suffix tests, and case folding through the standard library.

use vstd::prelude::*;
use vstd::string::StrSliceExecFns;

verus! {

/// Three-way lexicographic comparison of `a` and `b` by code point, starting
/// at position `i`: -1 when `a` comes first, 1 when `b` comes first, 0 when
/// the remainders are equal.
pub open spec fn lex_cmp_from(a: Seq<char>, b: Seq<char>, i: int) -> int
    decreases a.len() - i,
{
    if i >= a.len() && i >= b.len() {
        0
    } else if i >= a.len() {
        -1
    } else if i >= b.len() {
        1
    } else if a[i] != b[i] {
        if (a[i] as int) < (b[i] as int) {
            -1
        } else {
            1
        }
    } else {
        lex_cmp_from(a, b, i + 1)
    }
}

/// Lexicographic order on whole character sequences; this is the order of
/// `str` comparison, since comparing UTF-8 bytes and comparing code points
/// agree.
pub open spec fn text_cmp(a: Seq<char>, b: Seq<char>) -> int {
    lex_cmp_from(a, b, 0)
}

/// `p` occurs at the front of `s`.
pub open spec fn is_prefix_of(p: Seq<char>, s: Seq<char>) -> bool {
    p.len() <= s.len() && p == s.subrange(0, p.len() as int)
}

/// `p` occurs at the end of `s`.
pub open spec fn is_suffix_of(p: Seq<char>, s: Seq<char>) -> bool {
    p.len() <= s.len() && p == s.subrange(s.len() - p.len(), s.len() as int)
}

/// `sub` occurs contiguously somewhere inside `s`.
pub open spec fn contains_sub(s: Seq<char>, sub: Seq<char>) -> bool {
    exists|k: int|
        0 <= k && k + sub.len() <= s.len() && sub == #[trigger] s.subrange(
            k,
            k + sub.len(),
        )
}

/// What `str::to_lowercase` returns: a function of the characters alone.
pub uninterp spec fn lower_of(s: Seq<char>) -> Seq<char>;

/// Relies on `str::to_lowercase`: the result depends on the characters alone,
/// and an empty string stays empty.
#[verifier::external_body]
pub fn lowercase(s: &str) -> (r: String)
    ensures
        r@ == lower_of(s@),
        s@.len() == 0 ==> r@.len() == 0,
{
    s.to_lowercase()
}

/// Whether `char::is_whitespace` holds of the character.
pub uninterp spec fn is_space(c: char) -> bool;

/// Relies on `char::is_whitespace`: the Unicode white-space property of the
/// character.
#[verifier::external_body]
pub fn char_is_space(c: char) -> (r: bool)
    ensures
        r == is_space(c),
{
    c.is_whitespace()
}

/// Every character of `s` is white space; true of the empty sequence.  This
/// is exactly when trimming leaves nothing.
pub open spec fn all_space(s: Seq<char>) -> bool {
    forall|i: int| 0 <= i < s.len() ==> is_space(s[i])
}

/// Code-point comparison of two characters.
pub fn char_lt(ca: char, cb: char) -> (r: bool)
    ensures
        r == ((ca as int) < (cb as int)),
{
    (ca as u32) < (cb as u32)
}

/// Three-way comparison of two strings in lexicographic code-point order.
pub fn str_cmp(a: &str, b: &str) -> (r: i8)
    ensures
        r as int == text_cmp(a@, b@),
        -1 <= r <= 1,
{
    let alen = a.unicode_len();
    let blen = b.unicode_len();
    let mut i: usize = 0;
    loop
        invariant
            i <= alen,
            i <= blen,
            alen == a@.len(),
            blen == b@.len(),
            lex_cmp_from(a@, b@, 0) == lex_cmp_from(a@, b@, i as int),
        decreases alen - i,
    {
        if i >= alen && i >= blen {
            return 0;
        } else if i >= alen {
            return -1;
        } else if i >= blen {
            return 1;
        } else {
            let ca = a.get_char(i);
            let cb = b.get_char(i);
            if ca != cb {
                if char_lt(ca, cb) {
                    return -1;
                } else {
                    return 1;
                }
            }
            i = i + 1;
        }
    }
}

/// Whether `p` is a prefix of `s`.
pub fn starts_with_str(s: &str, p: &str) -> (r: bool)
    ensures
        r == is_prefix_of(p@, s@),
{
    let slen = s.unicode_len();
    let plen = p.unicode_len();
    if plen > slen {
        assert(!is_prefix_of(p@, s@));
        return false;
    }
    let mut i: usize = 0;
    while i < plen
        invariant
            i <= plen <= slen,
            slen == s@.len(),
            plen == p@.len(),
            forall|j: int| 0 <= j < i ==> p@[j] == s@[j],
        decreases plen - i,
    {
        if s.get_char(i) != p.get_char(i) {
            assert(!is_prefix_of(p@, s@)) by {
                assert(p@[i as int] != s@.subrange(0, p@.len() as int)[i as int]);
            }
            return false;
        }
        i = i + 1;
    }
    assert(p@ =~= s@.subrange(0, p@.len() as int));
    true
}

/// Whether `p` is a suffix of `s`.
pub fn ends_with_str(s: &str, p: &str) -> (r: bool)
    ensures
        r == is_suffix_of(p@, s@),
{
    let slen = s.unicode_len();
    let plen = p.unicode_len();
    if plen > slen {
        assert(!is_suffix_of(p@, s@));
        return false;
    }
    let off = slen - plen;
    let mut i: usize = 0;
    while i < plen
        invariant
            i <= plen <= slen,
            slen == s@.len(),
            plen == p@.len(),
            off == slen - plen,
            forall|j: int| 0 <= j < i ==> p@[j] == s@[off + j],
        decreases plen - i,
    {
        if s.get_char(off + i) != p.get_char(i) {
            assert(!is_suffix_of(p@, s@)) by {
                assert(p@[i as int] != s@.subrange(
                    s@.len() - p@.len(),
                    s@.len() as int,
                )[i as int]);
            }
            return false;
        }
        i = i + 1;
    }
    assert(p@ =~= s@.subrange(s@.len() - p@.len(), s@.len() as int));
    true
}

/// Whether `sub` occurs contiguously inside `s`.
pub fn contains_str(s: &str, sub: &str) -> (r: bool)
    ensures
        r == contains_sub(s@, sub@),
{
    let slen = s.unicode_len();
    let mlen = sub.unicode_len();
    if mlen > slen {
        assert(!contains_sub(s@, sub@));
        return false;
    }
    if mlen == 0 {
        assert(sub@ =~= s@.subrange(0, 0 + sub@.len() as int));
        assert(contains_sub(s@, sub@));
        return true;
    }
    let mut k: usize = 0;
    while k <= slen - mlen
        invariant
            slen == s@.len(),
            mlen == sub@.len(),
            1 <= mlen <= slen,
            k <= slen - mlen + 1,
            forall|k0: int|
                0 <= k0 < k ==> sub@ != #[trigger] s@.subrange(k0, k0 + sub@.len()),
        decreases slen - k,
    {
        let mut i: usize = 0;
        let mut hit = true;
        while i < mlen && hit
            invariant
                i <= mlen,
                k + mlen <= slen,
                slen == s@.len(),
                mlen == sub@.len(),
                hit ==> forall|j: int| 0 <= j < i ==> sub@[j] == s@[k + j],
                !hit ==> sub@ != s@.subrange(k as int, k + sub@.len()),
            decreases mlen - i + (if hit { 1int } else { 0int }),
        {
            if s.get_char(k + i) != sub.get_char(i) {
                hit = false;
                assert(sub@[i as int] != s@.subrange(
                    k as int,
                    k + sub@.len(),
                )[i as int]);
            } else {
                i = i + 1;
            }
        }
        if hit {
            assert(sub@ =~= s@.subrange(k as int, k + sub@.len()));
            return true;
        }
        assert(sub@ != s@.subrange(k as int, k + sub@.len()));
        k = k + 1;
    }
    assert(forall|k0: int|
        0 <= k0 && k0 + sub@.len() <= s@.len() ==> sub@ != #[trigger] s@.subrange(
            k0,
            k0 + sub@.len(),
        ));
    false
}

/// Whether two strings hold the same characters.
pub fn str_eq(a: &str, b: &str) -> (r: bool)
    ensures
        r == (a@ == b@),
{
    let alen = a.unicode_len();
    let blen = b.unicode_len();
    if alen != blen {
        return false;
    }
    let mut i: usize = 0;
    while i < alen
        invariant
            i <= alen,
            alen == a@.len(),
            alen == b@.len(),
            forall|j: int| 0 <= j < i ==> a@[j] == b@[j],
        decreases alen - i,
    {
        if a.get_char(i) != b.get_char(i) {
            return false;
        }
        i = i + 1;
    }
    assert(a@ =~= b@);
    true
}

/// Every character of the string is white space (or the string is empty):
/// the string trims to nothing.
pub fn is_blank_str(s: &str) -> (r: bool)
    ensures
        r == all_space(s@),
{
    let n = s.unicode_len();
    let mut i: usize = 0;
    while i < n
        invariant
            i <= n,
            n == s@.len(),
            forall|j: int| 0 <= j < i ==> is_space(s@[j]),
        decreases n - i,
    {
        if !char_is_space(s.get_char(i)) {
            return false;
        }
        i = i + 1;
    }
    true
}

/// Lexicographic comparison is antisymmetric: swapping the arguments flips
/// the sign.
pub proof fn lemma_lex_cmp_antisym(a: Seq<char>, b: Seq<char>, i: int)
    ensures
        lex_cmp_from(a, b, i) == -lex_cmp_from(b, a, i),
    decreases a.len() + b.len() - i,
{
    if i < a.len() && i < b.len() && a[i] == b[i] {
        lemma_lex_cmp_antisym(a, b, i + 1);
    }
}

/// Lexicographic comparison is transitive, both in its strict-or-equal and
/// its equal form.
pub proof fn lemma_lex_cmp_trans(a: Seq<char>, b: Seq<char>, c: Seq<char>, i: int)
    ensures
        lex_cmp_from(a, b, i) <= 0 && lex_cmp_from(b, c, i) <= 0 ==> lex_cmp_from(a, c, i) <= 0,
        lex_cmp_from(a, b, i) == 0 && lex_cmp_from(b, c, i) == 0 ==> lex_cmp_from(a, c, i) == 0,
    decreases a.len() + b.len() + c.len() - i,
{
    if i < a.len() && i < b.len() && i < c.len() && a[i] == b[i] && b[i] == c[i] {
        lemma_lex_cmp_trans(a, b, c, i + 1);
    }
}

} // verus!
