//! Numeric cells: a decimal grammar for cell values (optional sign, digits
//! with an optional point, optional scientific exponent) and an exact
//! three-way comparison of the values the grammar denotes.
//!
//! A parsed value is kept in scientific normal form: sign, significant
//! digits with no leading or trailing zero, and a decimal exponent, denoting
//! `(-1)^neg * 0.digits * 10^exp`.  Zero is canonical: no digits, exponent
//! zero, non-negative.  Two values compare by sign, then exponent, then
//! digit sequence, which is exactly the order of the denoted numbers.

use vstd::prelude::*;
use vstd::string::StrSliceExecFns;
use crate::textops::lex_cmp_from;

verus! {

/// The character is a decimal digit.
pub open spec fn is_digit(c: char) -> bool {
    48 <= c as int && c as int <= 57
}

/// First position at or after `i` that does not hold a digit.
pub open spec fn digit_run_end(s: Seq<char>, i: int) -> int
    decreases s.len() - i,
{
    if i < s.len() && is_digit(s[i]) {
        digit_run_end(s, i + 1)
    } else {
        i
    }
}

pub broadcast proof fn lemma_digit_run_end(s: Seq<char>, i: int)
    requires
        0 <= i <= s.len(),
    ensures
        i <= #[trigger] digit_run_end(s, i) <= s.len(),
        forall|j: int| i <= j < digit_run_end(s, i) ==> is_digit(s[j]),
        digit_run_end(s, i) == s.len() || !is_digit(s[digit_run_end(s, i)]),
    decreases s.len() - i,
{
    if i < s.len() && is_digit(s[i]) {
        lemma_digit_run_end(s, i + 1);
    }
}

/// A decimal value in scientific normal form.
pub struct DecNorm {
    pub neg: bool,
    pub digits: Seq<char>,
    pub exp: int,
}

/// Numeric value of a run of digit characters.
pub open spec fn digits_val(d: Seq<char>) -> int
    decreases d.len(),
{
    if d.len() == 0 {
        0
    } else {
        digits_val(d.drop_last()) * 10 + (d.last() as int - 48)
    }
}

/// Strip leading zero digits, lowering the exponent of a `0.digits * 10^e`
/// form once per digit stripped.
pub open spec fn strip_leading_zeros(d: Seq<char>, e: int) -> (Seq<char>, int)
    decreases d.len(),
{
    if d.len() > 0 && d[0] == '0' {
        strip_leading_zeros(d.drop_first(), e - 1)
    } else {
        (d, e)
    }
}

/// Strip trailing zero digits; they do not change the denoted value.
pub open spec fn strip_trailing_zeros(d: Seq<char>) -> Seq<char>
    decreases d.len(),
{
    if d.len() > 0 && d.last() == '0' {
        strip_trailing_zeros(d.drop_last())
    } else {
        d
    }
}

/// Bring sign, digit run and exponent into scientific normal form.
pub open spec fn normalize_dec(neg: bool, d: Seq<char>, e: int) -> DecNorm {
    let stripped = strip_leading_zeros(d, e);
    let d2 = strip_trailing_zeros(stripped.0);
    if d2.len() == 0 {
        DecNorm { neg: false, digits: d2, exp: 0 }
    } else {
        DecNorm { neg, digits: d2, exp: stripped.1 }
    }
}

/// Parse a character sequence as a decimal literal: an optional sign, a
/// digit run with at most one point and at least one digit, and an optional
/// exponent part `e`/`E`, optional sign, and a digit run whose value has at
/// most eighteen significant digits.  `None` when the sequence is not of
/// this shape.
pub open spec fn parse_dec(s: Seq<char>) -> Option<DecNorm> {
    let n = s.len() as int;
    if n == 0 {
        None
    } else {
        let has_sign = s[0] == '+' || s[0] == '-';
        let neg = s[0] == '-';
        let i0: int = if has_sign { 1 } else { 0 };
        let int_end = digit_run_end(s, i0);
        let has_dot = int_end < n && s[int_end] == '.';
        let fs = if has_dot { int_end + 1 } else { int_end };
        let frac_end = digit_run_end(s, fs);
        let mant = s.subrange(i0, int_end) + s.subrange(fs, frac_end);
        if mant.len() == 0 {
            None
        } else if frac_end == n {
            Some(normalize_dec(neg, mant, int_end - i0))
        } else if s[frac_end] == 'e' || s[frac_end] == 'E' {
            let j0 = frac_end + 1;
            if j0 >= n {
                None
            } else {
                let esign = s[j0] == '+' || s[j0] == '-';
                let eneg = s[j0] == '-';
                let j1: int = if esign { j0 + 1 } else { j0 };
                let j2 = digit_run_end(s, j1);
                if j2 != n || j2 == j1 {
                    None
                } else {
                    let stripped = strip_leading_zeros(s.subrange(j1, j2), 0);
                    if stripped.0.len() > 18 {
                        None
                    } else {
                        let ev: int = if eneg {
                            -digits_val(stripped.0)
                        } else {
                            digits_val(stripped.0)
                        };
                        Some(normalize_dec(neg, mant, int_end - i0 + ev))
                    }
                }
            }
        } else {
            None
        }
    }
}

/// The sequence is a decimal literal of the library's grammar.
pub open spec fn is_number(s: Seq<char>) -> bool {
    parse_dec(s) is Some
}

/// Three-way comparison of two normal-form magnitudes `0.digits * 10^exp`.
pub open spec fn mag_cmp(a: DecNorm, b: DecNorm) -> int {
    if a.digits.len() == 0 && b.digits.len() == 0 {
        0
    } else if a.digits.len() == 0 {
        -1
    } else if b.digits.len() == 0 {
        1
    } else if a.exp != b.exp {
        if a.exp < b.exp {
            -1
        } else {
            1
        }
    } else {
        lex_cmp_from(a.digits, b.digits, 0)
    }
}

/// Three-way comparison of two normal-form decimal values.
pub open spec fn dec_cmp(a: DecNorm, b: DecNorm) -> int {
    if a.neg && b.neg {
        -mag_cmp(a, b)
    } else if a.neg {
        -1
    } else if b.neg {
        1
    } else {
        mag_cmp(a, b)
    }
}

/// Numbers-first comparison of two raw cells: two values of the grammar
/// compare by value; a value of the grammar comes before a cell outside it;
/// two cells outside the grammar are tied.
pub open spec fn num_key_cmp(a: Seq<char>, b: Seq<char>) -> int {
    match (parse_dec(a), parse_dec(b)) {
        (Some(x), Some(y)) => dec_cmp(x, y),
        (Some(_), None) => -1,
        (None, Some(_)) => 1,
        (None, None) => 0,
    }
}

/// Two cells of the grammar denote the same value.
pub open spec fn num_eq(a: Seq<char>, b: Seq<char>) -> bool {
    is_number(a) && is_number(b) && dec_cmp(parse_dec(a)->Some_0, parse_dec(b)->Some_0) == 0
}

/// A parsed decimal value in scientific normal form.
pub struct DecValue {
    pub neg: bool,
    pub digits: Vec<char>,
    pub exp: i128,
}

impl DecValue {
    /// The normal form this value carries.
    pub open spec fn model(&self) -> DecNorm {
        DecNorm { neg: self.neg, digits: self.digits@, exp: self.exp as int }
    }
}

/// Ten to the `n`.
pub open spec fn pow10(n: nat) -> int
    decreases n,
{
    if n == 0 {
        1
    } else {
        10 * pow10((n - 1) as nat)
    }
}

proof fn lemma_digits_val_bound(d: Seq<char>)
    requires
        forall|j: int| 0 <= j < d.len() ==> is_digit(d[j]),
    ensures
        0 <= digits_val(d) < pow10(d.len()),
    decreases d.len(),
{
    if d.len() > 0 {
        lemma_digits_val_bound(d.drop_last());
    }
}

proof fn lemma_strip_leading(d: Seq<char>, e: int, z: int)
    requires
        0 <= z <= d.len(),
        forall|j: int| 0 <= j < z ==> d[j] == '0',
        z == d.len() || d[z] != '0',
    ensures
        strip_leading_zeros(d, e) == (d.subrange(z, d.len() as int), e - z),
    decreases z,
{
    if z == 0 {
        assert(d =~= d.subrange(0, d.len() as int));
    } else {
        lemma_strip_leading(d.drop_first(), e - 1, z - 1);
        assert(d.drop_first().subrange(z - 1, d.drop_first().len() as int) =~= d.subrange(
            z,
            d.len() as int,
        ));
    }
}

proof fn lemma_strip_trailing(d: Seq<char>, c: int)
    requires
        0 <= c <= d.len(),
        forall|j: int| c <= j < d.len() ==> d[j] == '0',
        c == 0 || d[c - 1] != '0',
    ensures
        strip_trailing_zeros(d) == d.subrange(0, c),
    decreases d.len(),
{
    if d.len() > c {
        lemma_strip_trailing(d.drop_last(), c);
        assert(d.drop_last().subrange(0, c) =~= d.subrange(0, c));
    } else {
        assert(d =~= d.subrange(0, c));
    }
}

/// First position at or after `from` in `s` that does not hold a digit.
fn scan_digits(s: &str, from: usize, n: usize) -> (r: usize)
    requires
        from <= n,
        n == s@.len(),
    ensures
        r as int == digit_run_end(s@, from as int),
        from <= r <= n,
{
    let mut j = from;
    loop
        invariant
            from <= j <= n,
            n == s@.len(),
            digit_run_end(s@, from as int) == digit_run_end(s@, j as int),
        decreases n - j,
    {
        if j == n {
            return j;
        }
        let c = s.get_char(j);
        if (c as u32) < 48 || (c as u32) > 57 {
            return j;
        }
        j = j + 1;
    }
}

/// Parse a string as a decimal literal of the library's grammar.
#[verifier::rlimit(100)]
#[verifier::spinoff_prover]
pub fn parse_dec_str(s: &str) -> (r: Option<DecValue>)
    ensures
        match r {
            Some(v) => parse_dec(s@) == Some(v.model()),
            None => parse_dec(s@) is None,
        },
{
    broadcast use lemma_digit_run_end;

    let n = s.unicode_len();
    if n == 0 {
        return None;
    }
    let c0 = s.get_char(0);
    let has_sign = c0 == '+' || c0 == '-';
    let neg = c0 == '-';
    let i0: usize = if has_sign {
        1
    } else {
        0
    };
    let int_end = scan_digits(s, i0, n);
    let has_dot = int_end < n && s.get_char(int_end) == '.';
    let fs: usize = if has_dot {
        int_end + 1
    } else {
        int_end
    };
    let frac_end = scan_digits(s, fs, n);

    // collect the mantissa digits: integer part, then fraction part
    let mut mant: Vec<char> = Vec::new();
    let mut j = i0;
    while j < int_end
        invariant
            i0 <= j <= int_end <= n,
            n == s@.len(),
            mant@ == s@.subrange(i0 as int, j as int),
        decreases int_end - j,
    {
        mant.push(s.get_char(j));
        assert(mant@ =~= s@.subrange(i0 as int, j + 1));
        j = j + 1;
    }
    let mut j = fs;
    while j < frac_end
        invariant
            fs <= j <= frac_end <= n,
            n == s@.len(),
            mant@ == s@.subrange(i0 as int, int_end as int) + s@.subrange(fs as int, j as int),
        decreases frac_end - j,
    {
        mant.push(s.get_char(j));
        assert(mant@ =~= s@.subrange(i0 as int, int_end as int) + s@.subrange(fs as int, j + 1));
        j = j + 1;
    }
    let ghost mant_spec = s@.subrange(i0 as int, int_end as int) + s@.subrange(
        fs as int,
        digit_run_end(s@, fs as int),
    );
    assert(mant@ =~= s@.subrange(i0 as int, int_end as int) + s@.subrange(
        fs as int,
        frac_end as int,
    ));
    assert(mant@ == mant_spec);
    if mant.len() == 0 {
        return None;
    }

    // the exponent part
    let exp_val: i128;
    if frac_end == n {
        exp_val = 0;
    } else {
        let ec = s.get_char(frac_end);
        if ec != 'e' && ec != 'E' {
            return None;
        }
        let j0 = frac_end + 1;
        if j0 >= n {
            return None;
        }
        let sc = s.get_char(j0);
        let esign = sc == '+' || sc == '-';
        let eneg = sc == '-';
        let j1: usize = if esign {
            j0 + 1
        } else {
            j0
        };
        let j2 = scan_digits(s, j1, n);
        if j2 != n || j2 == j1 {
            return None;
        }
        // skip leading zeros of the exponent digit run
        let mut z = j1;
        while z < j2 && s.get_char(z) == '0'
            invariant
                j1 <= z <= j2 <= n,
                n == s@.len(),
                forall|k: int| j1 <= k < z ==> s@[k] == '0',
            decreases j2 - z,
        {
            z = z + 1;
        }
        proof {
            lemma_strip_leading(s@.subrange(j1 as int, j2 as int), 0, z - j1);
            assert(s@.subrange(j1 as int, j2 as int).subrange(
                z - j1,
                s@.subrange(j1 as int, j2 as int).len() as int,
            ) =~= s@.subrange(z as int, j2 as int));
        }
        let ghost ed = strip_leading_zeros(s@.subrange(j1 as int, j2 as int), 0).0;
        assert(ed == s@.subrange(z as int, j2 as int));
        if j2 - z > 18 {
            return None;
        }
        // fold the at most eighteen significant exponent digits
        let mut ev: u64 = 0;
        let mut k = z;
        proof {
            assert(s@.subrange(z as int, z as int) =~= Seq::<char>::empty());
        }
        while k < j2
            invariant
                z <= k <= j2 <= n,
                j2 - z <= 18,
                n == s@.len(),
                forall|t: int| z <= t < j2 ==> is_digit(s@[t]),
                ev as int == digits_val(s@.subrange(z as int, k as int)),
                (ev as int) < pow10((k - z) as nat),
            decreases j2 - k,
        {
            let c = s.get_char(k);
            let dv = (c as u32) - 48;
            proof {
                lemma_digits_val_bound(s@.subrange(z as int, k as int));
                assert(pow10((k - z) as nat) <= pow10(17)) by {
                    lemma_pow10_le((k - z) as nat, 17);
                }
                assert(pow10(17) == 100000000000000000) by {
                    reveal_with_fuel(pow10, 19);
                }
                assert(s@.subrange(z as int, k + 1).drop_last() =~= s@.subrange(
                    z as int,
                    k as int,
                ));
            }
            ev = ev * 10 + (dv as u64);
            k = k + 1;
        }
        assert(ev as int == digits_val(ed));
        exp_val = if eneg {
            -(ev as i128)
        } else {
            ev as i128
        };
    }

    // normalize: value is 0.mant * 10^(int_len + exp_val)
    let e0: i128 = (int_end - i0) as i128 + exp_val;

    // find the significant digit window [lead, cut)
    let mlen = mant.len();
    let mut lead: usize = 0;
    while lead < mlen && mant[lead] == '0'
        invariant
            lead <= mlen,
            mlen == mant@.len(),
            forall|t: int| 0 <= t < lead ==> mant@[t] == '0',
        decreases mlen - lead,
    {
        lead = lead + 1;
    }
    proof {
        lemma_strip_leading(mant@, e0 as int, lead as int);
    }
    if lead == mlen {
        // all mantissa digits are zero: the canonical zero
        let ghost stripped = strip_leading_zeros(mant@, e0 as int);
        proof {
            assert(stripped.0 =~= Seq::<char>::empty());
        }
        return Some(DecValue { neg: false, digits: Vec::new(), exp: 0 });
    }
    let mut cut: usize = mlen;
    while cut > lead && mant[cut - 1] == '0'
        invariant
            lead <= cut <= mlen,
            mlen == mant@.len(),
            forall|t: int| cut <= t < mlen ==> mant@[t] == '0',
        decreases cut,
    {
        cut = cut - 1;
    }
    let mut nd: Vec<char> = Vec::new();
    let mut j = lead;
    while j < cut
        invariant
            lead <= j <= cut <= mlen,
            mlen == mant@.len(),
            nd@ == mant@.subrange(lead as int, j as int),
        decreases cut - j,
    {
        nd.push(mant[j]);
        assert(nd@ =~= mant@.subrange(lead as int, j + 1));
        j = j + 1;
    }
    proof {
        let d1 = mant@.subrange(lead as int, mlen as int);
        lemma_strip_trailing(d1, cut - lead);
        assert(d1.subrange(0, cut - lead) =~= mant@.subrange(lead as int, cut as int));
    }
    Some(DecValue { neg, digits: nd, exp: e0 - lead as i128 })
}

proof fn lemma_pow10_pos(a: nat)
    ensures
        pow10(a) >= 1,
    decreases a,
{
    if a > 0 {
        lemma_pow10_pos((a - 1) as nat);
    }
}

proof fn lemma_pow10_le(a: nat, b: nat)
    requires
        a <= b,
    ensures
        pow10(a) <= pow10(b),
        pow10(a) >= 1,
    decreases b,
{
    lemma_pow10_pos(a);
    if a < b {
        lemma_pow10_le(a, (b - 1) as nat);
        lemma_pow10_pos((b - 1) as nat);
    }
}

/// Three-way comparison of two parsed decimal values.
pub fn dec_cmp_exec(a: &DecValue, b: &DecValue) -> (r: i8)
    ensures
        r as int == dec_cmp(a.model(), b.model()),
        -1 <= r <= 1,
{
    if a.neg && b.neg {
        -mag_cmp_exec(a, b)
    } else if a.neg {
        -1
    } else if b.neg {
        1
    } else {
        mag_cmp_exec(a, b)
    }
}

proof fn lemma_lex_skip_eq(a: Seq<char>, b: Seq<char>, i: int)
    requires
        0 <= i <= a.len(),
        i <= b.len(),
        forall|j: int| 0 <= j < i ==> a[j] == b[j],
    ensures
        lex_cmp_from(a, b, 0) == lex_cmp_from(a, b, i),
    decreases i,
{
    if i > 0 {
        lemma_lex_skip_eq(a, b, i - 1);
    }
}

fn lex_cmp_digits(a: &Vec<char>, b: &Vec<char>) -> (r: i8)
    ensures
        r as int == lex_cmp_from(a@, b@, 0),
        -1 <= r <= 1,
{
    let alen = a.len();
    let blen = b.len();
    let mut i: usize = 0;
    while i < alen && i < blen
        invariant
            i <= alen,
            i <= blen,
            alen == a@.len(),
            blen == b@.len(),
            forall|j: int| 0 <= j < i ==> a@[j] == b@[j],
        decreases alen - i,
    {
        let ca = a[i];
        let cb = b[i];
        if ca != cb {
            proof {
                lemma_lex_skip_eq(a@, b@, i as int);
            }
            if crate::textops::char_lt(ca, cb) {
                return -1;
            } else {
                return 1;
            }
        }
        i = i + 1;
    }
    proof {
        lemma_lex_skip_eq(a@, b@, i as int);
    }
    if alen == blen {
        0
    } else if alen < blen {
        -1
    } else {
        1
    }
}

fn mag_cmp_exec(a: &DecValue, b: &DecValue) -> (r: i8)
    ensures
        r as int == mag_cmp(a.model(), b.model()),
        -1 <= r <= 1,
{
    if a.digits.len() == 0 && b.digits.len() == 0 {
        0
    } else if a.digits.len() == 0 {
        -1
    } else if b.digits.len() == 0 {
        1
    } else if a.exp != b.exp {
        if a.exp < b.exp {
            -1
        } else {
            1
        }
    } else {
        lex_cmp_digits(&a.digits, &b.digits)
    }
}

/// The string is a decimal literal of the library's grammar.
pub fn is_number_str(s: &str) -> (r: bool)
    ensures
        r == is_number(s@),
{
    parse_dec_str(s).is_some()
}

/// Numbers-first three-way comparison of two raw cells.
pub fn cmp_numeric(a: &str, b: &str) -> (r: i8)
    ensures
        r as int == num_key_cmp(a@, b@),
        -1 <= r <= 1,
{
    let pa = parse_dec_str(a);
    let pb = parse_dec_str(b);
    match (pa, pb) {
        (Some(x), Some(y)) => dec_cmp_exec(&x, &y),
        (Some(_), None) => -1,
        (None, Some(_)) => 1,
        (None, None) => 0,
    }
}

/// Decimal comparison is antisymmetric: swapping the arguments flips the
/// sign.
pub proof fn lemma_dec_cmp_antisym(a: DecNorm, b: DecNorm)
    ensures
        dec_cmp(a, b) == -dec_cmp(b, a),
{
    crate::textops::lemma_lex_cmp_antisym(a.digits, b.digits, 0);
}

proof fn lemma_mag_cmp_trans(a: DecNorm, b: DecNorm, c: DecNorm)
    ensures
        mag_cmp(a, b) <= 0 && mag_cmp(b, c) <= 0 ==> mag_cmp(a, c) <= 0,
        mag_cmp(a, b) == 0 && mag_cmp(b, c) == 0 ==> mag_cmp(a, c) == 0,
{
    crate::textops::lemma_lex_cmp_trans(a.digits, b.digits, c.digits, 0);
}

/// Decimal comparison is transitive, both in its strict-or-equal and its
/// equal form.
pub proof fn lemma_dec_cmp_trans(a: DecNorm, b: DecNorm, c: DecNorm)
    ensures
        dec_cmp(a, b) <= 0 && dec_cmp(b, c) <= 0 ==> dec_cmp(a, c) <= 0,
        dec_cmp(a, b) == 0 && dec_cmp(b, c) == 0 ==> dec_cmp(a, c) == 0,
{
    lemma_mag_cmp_trans(a, b, c);
    lemma_mag_cmp_trans(c, b, a);
    crate::textops::lemma_lex_cmp_antisym(a.digits, b.digits, 0);
    crate::textops::lemma_lex_cmp_antisym(b.digits, c.digits, 0);
    crate::textops::lemma_lex_cmp_antisym(a.digits, c.digits, 0);
    crate::textops::lemma_lex_cmp_trans(c.digits, b.digits, a.digits, 0);
}

/// The numbers-first cell comparison is antisymmetric.
pub proof fn lemma_num_key_cmp_antisym(a: Seq<char>, b: Seq<char>)
    ensures
        num_key_cmp(a, b) == -num_key_cmp(b, a),
{
    if parse_dec(a) is Some && parse_dec(b) is Some {
        lemma_dec_cmp_antisym(parse_dec(a)->Some_0, parse_dec(b)->Some_0);
    }
}

/// The numbers-first cell comparison is transitive.
pub proof fn lemma_num_key_cmp_trans(a: Seq<char>, b: Seq<char>, c: Seq<char>)
    ensures
        num_key_cmp(a, b) <= 0 && num_key_cmp(b, c) <= 0 ==> num_key_cmp(a, c) <= 0,
        num_key_cmp(a, b) == 0 && num_key_cmp(b, c) == 0 ==> num_key_cmp(a, c) == 0,
{
    if parse_dec(a) is Some && parse_dec(b) is Some && parse_dec(c) is Some {
        lemma_dec_cmp_trans(parse_dec(a)->Some_0, parse_dec(b)->Some_0, parse_dec(c)->Some_0);
    }
}

} // verus!

