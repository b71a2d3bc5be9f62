//! Byte-level text helpers: the decimal grammar of unsigned integers and the
//! floating-point literal grammar, both as Rust's own number parsers accept
//! them. The metadata parser validates values against these grammars.

use vstd::prelude::*;

verus! {

/// ASCII decimal digit.
pub open spec fn is_digit(b: u8) -> bool {
    0x30 <= b <= 0x39
}

/// Every byte of `s` is a decimal digit.
pub open spec fn all_digits(s: Seq<u8>) -> bool {
    forall|i: int| 0 <= i < s.len() ==> is_digit(s[i])
}

/// Numeric value of a digit sequence, most significant digit first.
pub open spec fn dec_value(s: Seq<u8>) -> int
    decreases s.len(),
{
    if s.len() == 0 {
        0
    } else {
        dec_value(s.drop_last()) * 10 + (s.last() - 0x30)
    }
}

/// The digit value never goes down when digits are appended.
pub proof fn lemma_dec_value_monotone(s: Seq<u8>, k: int)
    requires
        all_digits(s),
        0 <= k <= s.len(),
    ensures
        0 <= dec_value(s.take(k)) <= dec_value(s),
    decreases s.len() - k,
{
    lemma_dec_value_nonneg(s.take(k));
    if k < s.len() {
        assert(s.take(k + 1).drop_last() =~= s.take(k));
        assert(is_digit(s[k]));
        assert(s.take(k + 1).last() == s[k]);
        assert(dec_value(s.take(k + 1)) == dec_value(s.take(k)) * 10 + (s[k] - 0x30));
        lemma_dec_value_nonneg(s.take(k));
        assert(dec_value(s.take(k)) <= dec_value(s.take(k + 1)));
        lemma_dec_value_monotone(s, k + 1);
        assert(s.take(s.len() as int) =~= s);
    } else {
        assert(s.take(k) =~= s);
    }
}

/// A digit sequence's value is never negative.
pub proof fn lemma_dec_value_nonneg(s: Seq<u8>)
    requires
        all_digits(s),
    ensures
        dec_value(s) >= 0,
    decreases s.len(),
{
    if s.len() > 0 {
        assert(all_digits(s.drop_last()));
        lemma_dec_value_nonneg(s.drop_last());
    }
}

/// Rust's unsigned-integer text grammar: an optional leading `+`, then at
/// least one digit.
pub open spec fn is_uint_text(s: Seq<u8>) -> bool {
    uint_digits(s).len() > 0 && all_digits(uint_digits(s))
}

/// The digits of an unsigned-integer text, with the optional `+` removed.
pub open spec fn uint_digits(s: Seq<u8>) -> Seq<u8> {
    if s.len() > 0 && s[0] == 0x2B {
        s.skip(1)
    } else {
        s
    }
}

/// Parse an unsigned decimal integer exactly as Rust's `u64` text parsing
/// does: `Some` exactly on well-formed texts whose value fits.
pub fn parse_u64(s: &[u8]) -> (r: Option<u64>)
    ensures
        match r {
            Some(v) => is_uint_text(s@) && v == dec_value(uint_digits(s@)),
            None => !is_uint_text(s@) || dec_value(uint_digits(s@)) > u64::MAX,
        },
{
    let n = s.len();
    let start: usize = if n > 0 && s[0] == 0x2B {
        1
    } else {
        0
    };
    if n == start {
        return None;
    }
    let ghost digits = uint_digits(s@);
    proof {
        assert(digits =~= s@.skip(start as int));
    }
    let mut acc: u64 = 0;
    let mut i: usize = start;
    while i < n
        invariant
            start <= i <= n,
            n == s@.len(),
            digits == s@.skip(start as int),
            digits == uint_digits(s@),
            all_digits(digits.take(i - start)),
            acc == dec_value(digits.take(i - start)),
        decreases n - i,
    {
        let b = s[i];
        if b < 0x30 || b > 0x39 {
            proof {
                assert(digits[i - start] == b);
                assert(!all_digits(digits));
            }
            return None;
        }
        let d: u64 = (b - 0x30) as u64;
        proof {
            assert(digits[i - start] == b);
        }
        let shifted = match acc.checked_mul(10) {
            Some(x) => x,
            None => {
                proof {
                    assert(dec_value(digits.take(i - start)) * 10 + (b - 0x30) > u64::MAX);
                    overflow_reaches_end(digits, i - start, b);
                    assert(uint_digits(s@) == digits);
                }
                return None;
            },
        };
        let next = match shifted.checked_add(d) {
            Some(x) => x,
            None => {
                proof {
                    assert(dec_value(digits.take(i - start)) * 10 + (b - 0x30) > u64::MAX);
                    overflow_reaches_end(digits, i - start, b);
                    assert(uint_digits(s@) == digits);
                }
                return None;
            },
        };
        acc = next;
        proof {
            assert(digits.take(i - start + 1).drop_last() =~= digits.take(i - start));
            assert(digits.take(i - start + 1).last() == b);
        }
        i = i + 1;
    }
    proof {
        assert(digits.take((n - start) as int) =~= digits);
    }
    Some(acc)
}

/// If one more digit already pushes the value past `u64::MAX`, the whole
/// digit string's value is past it too.
proof fn overflow_reaches_end(digits: Seq<u8>, k: int, b: u8)
    requires
        0 <= k < digits.len(),
        all_digits(digits.take(k)),
        digits[k] == b,
        is_digit(b),
        dec_value(digits.take(k)) * 10 + (b - 0x30) > u64::MAX,
    ensures
        !all_digits(digits) || dec_value(digits) > u64::MAX,
{
    if all_digits(digits) {
        assert(digits.take(k + 1).drop_last() =~= digits.take(k));
        assert(digits.take(k + 1).last() == b);
        assert(dec_value(digits.take(k + 1)) > u64::MAX);
        lemma_dec_value_monotone(digits, k + 1);
    }
}

/// ASCII lower-casing of one byte.
pub open spec fn ascii_lower(b: u8) -> u8 {
    if 0x41 <= b <= 0x5A {
        (b + 0x20) as u8
    } else {
        b
    }
}

/// `s` spells `w` up to ASCII case, where `w` is already lower-case.
pub open spec fn lower_eq(s: Seq<u8>, w: Seq<u8>) -> bool {
    s.len() == w.len() && forall|i: int| 0 <= i < s.len() ==> ascii_lower(s[i]) == w[i]
}

/// The letters `inf`.
pub open spec fn inf_text() -> Seq<u8> {
    seq![0x69u8, 0x6Eu8, 0x66u8]
}

/// The letters `infinity`.
pub open spec fn infinity_text() -> Seq<u8> {
    seq![0x69u8, 0x6Eu8, 0x66u8, 0x69u8, 0x6Eu8, 0x69u8, 0x74u8, 0x79u8]
}

/// The letters `nan`.
pub open spec fn nan_text() -> Seq<u8> {
    seq![0x6Eu8, 0x61u8, 0x6Eu8]
}

/// The named special float values, compared without regard to ASCII case.
pub open spec fn is_special_float(t: Seq<u8>) -> bool {
    lower_eq(t, inf_text()) || lower_eq(t, infinity_text()) || lower_eq(t, nan_text())
}

/// Count of `.` bytes in `s`.
pub open spec fn dot_count(s: Seq<u8>) -> int
    decreases s.len(),
{
    if s.len() == 0 {
        0
    } else {
        dot_count(s.drop_last()) + if s.last() == 0x2E {
            1int
        } else {
            0int
        }
    }
}

/// A float mantissa: nonempty, only digits and dots, at most one dot, and at
/// least one digit (`1`, `1.`, `.5`, `3.25`; not `.` or empty).
pub open spec fn is_mantissa(m: Seq<u8>) -> bool {
    &&& m.len() > 0
    &&& forall|i: int| 0 <= i < m.len() ==> is_digit(m[i]) || m[i] == 0x2E
    &&& dot_count(m) <= 1
    &&& exists|i: int| 0 <= i < m.len() && is_digit(m[i])
}

/// An exponent tail (what follows `e` or `E`): an optional sign, then at
/// least one digit.
pub open spec fn is_exp_tail(x: Seq<u8>) -> bool {
    let y = if x.len() > 0 && (x[0] == 0x2B || x[0] == 0x2D) {
        x.skip(1)
    } else {
        x
    };
    y.len() > 0 && all_digits(y)
}

/// `e` or `E`.
pub open spec fn is_e(b: u8) -> bool {
    b == 0x65 || b == 0x45
}

/// Index of the first `e`/`E` in `t`, or `t.len()` when there is none.
/// Neither a mantissa nor an exponent tail may contain an `e`, so a number
/// can only split into the two at this index.
pub open spec fn first_e_index(t: Seq<u8>) -> int
    decreases t.len(),
{
    if t.len() == 0 {
        0
    } else if is_e(t[0]) {
        0
    } else {
        1 + first_e_index(t.skip(1))
    }
}

/// What [`first_e_index`] finds: an in-bounds `e` with none before it, or
/// the text's end with no `e` anywhere.
pub proof fn lemma_first_e_index(t: Seq<u8>)
    ensures
        0 <= first_e_index(t) <= t.len(),
        first_e_index(t) < t.len() ==> is_e(t[first_e_index(t)]),
        forall|j: int| 0 <= j < first_e_index(t) ==> !is_e(t[j]),
    decreases t.len(),
{
    if t.len() == 0 {
    } else if is_e(t[0]) {
    } else {
        lemma_first_e_index(t.skip(1));
        let f = first_e_index(t);
        assert(f == 1 + first_e_index(t.skip(1)));
        assert(forall|j: int| 0 <= j < f - 1 ==> t.skip(1)[j] == t[j + 1]);
        if f < t.len() {
            assert(t.skip(1)[f - 1] == t[f]);
        }
        assert forall|j: int| 0 <= j < f implies !is_e(t[j]) by {
            if j > 0 {
                assert(t.skip(1)[j - 1] == t[j]);
            }
        }
    }
}

/// An unsigned number: a mantissa, optionally followed by `e`/`E` and an
/// exponent tail. The split stands at the first `e`.
pub open spec fn is_number_text(t: Seq<u8>) -> bool {
    let i = first_e_index(t);
    if i == t.len() {
        is_mantissa(t)
    } else {
        is_mantissa(t.take(i)) && is_exp_tail(t.skip(i + 1))
    }
}

/// Rust's float text grammar: an optional sign, then `inf`, `infinity` or
/// `nan` in any ASCII case, or a number. Float parsing never fails on this
/// grammar (out-of-range values round to infinity), and fails off it.
pub open spec fn is_float_text(s: Seq<u8>) -> bool {
    let t = if s.len() > 0 && (s[0] == 0x2B || s[0] == 0x2D) {
        s.skip(1)
    } else {
        s
    };
    is_special_float(t) || is_number_text(t)
}

/// Lower-case one ASCII byte.
fn ascii_lower_exec(b: u8) -> (r: u8)
    ensures
        r == ascii_lower(b),
{
    if 0x41 <= b && b <= 0x5A {
        b + 0x20
    } else {
        b
    }
}

/// Whether `t` spells one of the special float names, up to ASCII case.
fn special_float(t: &[u8], start: usize) -> (r: bool)
    requires
        start <= t@.len(),
    ensures
        r == is_special_float(t@.skip(start as int)),
{
    let n = t.len();
    let len = n - start;
    if len == 3 {
        let a = ascii_lower_exec(t[start]);
        let b = ascii_lower_exec(t[start + 1]);
        let c = ascii_lower_exec(t[start + 2]);
        let r = (a == 0x69 && b == 0x6E && c == 0x66) || (a == 0x6E && b == 0x61 && c == 0x6E);
        proof {
            let s = t@.skip(start as int);
            assert(s.len() == 3);
            assert(s[0] == t@[start as int] && s[1] == t@[start as int + 1] && s[2] == t@[start as int + 2]);
        }
        r
    } else if len == 8 {
        let mut ok = true;
        let word: [u8; 8] = [0x69, 0x6E, 0x66, 0x69, 0x6E, 0x69, 0x74, 0x79];
        let mut i: usize = 0;
        while i < 8
            invariant
                0 <= i <= 8,
                n == t@.len(),
                start + 8 == n,
                word@ == infinity_text(),
                ok == (forall|j: int|
                    0 <= j < i ==> ascii_lower(t@.skip(start as int)[j]) == infinity_text()[j]),
            decreases 8 - i,
        {
            let c = ascii_lower_exec(t[start + i]);
            proof {
                assert(t@.skip(start as int)[i as int] == t@[start as int + i]);
            }
            if c != word[i] {
                ok = false;
            }
            i = i + 1;
        }
        proof {
            if ok {
                assert(lower_eq(t@.skip(start as int), infinity_text()));
            }
        }
        ok
    } else {
        proof {
            assert(t@.skip(start as int).len() != 3 && t@.skip(start as int).len() != 8);
        }
        false
    }
}

/// Whether `s` is a float literal Rust's float parsing accepts.
#[verifier::rlimit(50)]
pub fn is_float_literal(s: &[u8]) -> (r: bool)
    ensures
        r == is_float_text(s@),
{
    let n = s.len();
    let start: usize = if n > 0 && (s[0] == 0x2B || s[0] == 0x2D) {
        1
    } else {
        0
    };
    let ghost t = if s@.len() > 0 && (s@[0] == 0x2B || s@[0] == 0x2D) {
        s@.skip(1)
    } else {
        s@
    };
    proof {
        assert(t =~= s@.skip(start as int));
    }
    if special_float(s, start) {
        return true;
    }
    // Scan the mantissa: digits and at most one dot, stopping at the first
    // byte that is neither.
    let mut i: usize = start;
    let mut digits: bool = false;
    let mut dots: usize = 0;
    while i < n
        invariant
            start <= i <= n,
            n == s@.len(),
            t == s@.skip(start as int),
            dots <= i,
            forall|j: int| 0 <= j < i - start ==> is_digit(t[j]) || t[j] == 0x2E,
            dots == dot_count(t.take(i - start)),
            digits == exists|j: int| 0 <= j < i - start && is_digit(t[j]),
        ensures
            start <= i <= n,
            i == n || !(is_digit(t[i - start]) || t[i - start] == 0x2E),
            forall|j: int| 0 <= j < i - start ==> is_digit(t[j]) || t[j] == 0x2E,
            dots == dot_count(t.take(i - start)),
            digits == exists|j: int| 0 <= j < i - start && is_digit(t[j]),
        decreases n - i,
    {
        let b = s[i];
        proof {
            assert(t[i - start] == s@[i as int]);
            assert(t.take(i - start + 1).drop_last() =~= t.take(i - start));
        }
        if b >= 0x30 && b <= 0x39 {
            digits = true;
            i = i + 1;
        } else if b == 0x2E {
            dots = dots + 1;
            i = i + 1;
        } else {
            break ;
        }
    }
    if i == n {
        // The whole text is the mantissa.
        let r = digits && dots <= 1;
        proof {
            assert(t.take((n - start) as int) =~= t);
            lemma_first_e_index(t);
            assert(first_e_index(t) == t.len()) by {
                if first_e_index(t) < t.len() {
                    assert(is_digit(t[first_e_index(t)]) || t[first_e_index(t)] == 0x2E);
                }
            }
            if r {
                assert(is_mantissa(t));
            }
        }
        return r;
    }
    let b = s[i];
    proof {
        assert(t[i - start] == s@[i as int]);
    }
    if !(b == 0x65 || b == 0x45) {
        proof {
            lemma_bad_char_no_number(t, (i - start) as int);
        }
        return false;
    }
    // `i` is the first byte of `t` that is no digit and no dot, and it is an
    // `e`: the mantissa can only be what stands before it.
    let m = i;
    let ghost em = (m - start) as int;
    let mantissa_ok = digits && dots <= 1;
    proof {
        assert(forall|q: int| 0 <= q < em ==> t.take(em)[q] == t[q]);
        if mantissa_ok {
            let jd = choose|j: int| 0 <= j < em && is_digit(t[j]);
            assert(is_digit(t.take(em)[jd]));
            assert(is_mantissa(t.take(em)));
        }
    }
    // Exponent tail: an optional sign, then at least one digit.
    let sgn: usize = if m + 1 < n && (s[m + 1] == 0x2B || s[m + 1] == 0x2D) {
        1
    } else {
        0
    };
    let d0 = m + 1 + sgn;
    let mut all_dig = d0 < n;
    let mut j = d0;
    while j < n
        invariant
            d0 <= j <= n,
            n == s@.len(),
            all_dig == (d0 < n && forall|k: int| d0 <= k < j ==> is_digit(s@[k])),
        decreases n - j,
    {
        let b2 = s[j];
        if b2 < 0x30 || b2 > 0x39 {
            all_dig = false;
        }
        j = j + 1;
    }
    proof {
        let y0 = t.skip(em + 1);
        assert(y0.len() == n - m - 1);
        assert(forall|q: int| 0 <= q < y0.len() ==> y0[q] == s@[m + 1 + q]);
        let y = if y0.len() > 0 && (y0[0] == 0x2B || y0[0] == 0x2D) {
            y0.skip(1)
        } else {
            y0
        };
        if y0.len() > 0 {
            assert(y0[0] == s@[m + 1]);
        }
        assert((y0.len() > 0 && (y0[0] == 0x2B || y0[0] == 0x2D)) == (sgn == 1));
        assert(y.len() == n - d0);
        assert(forall|q: int| 0 <= q < y.len() ==> y[q] == s@[d0 + q]);
        if all_dig {
            assert forall|q: int| 0 <= q < y.len() implies is_digit(y[q]) by {
                assert(y[q] == s@[d0 + q]);
            }
            assert(is_exp_tail(y0));
        } else if d0 < n {
            let k = choose|k: int| d0 <= k < n && !is_digit(s@[k]);
            assert(y[k - d0] == s@[k]);
            assert(!all_digits(y));
            assert(!is_exp_tail(y0));
        } else {
            assert(y.len() == 0);
            assert(!is_exp_tail(y0));
        }
        lemma_first_e_split(t, em);
        assert(is_number_text(t) == (is_mantissa(t.take(em)) && is_exp_tail(t.skip(em + 1))));
        if !mantissa_ok {
            assert(!is_mantissa(t.take(em))) by {
                assert(t.take(em).len() == em);
                assert(forall|q: int| 0 <= q < em ==> t.take(em)[q] == t[q]);
                if !digits {
                    assert(forall|q: int| 0 <= q < em ==> !is_digit(t.take(em)[q]));
                }
            }
        }
    }
    mantissa_ok && all_dig
}

/// With `t[em]` the first byte of `t` that is neither digit nor dot, and an
/// `e`, the only split that can make `t` a number is at `em`.
/// Whether `s` spells `w` up to ASCII case; `w` is a fixed lower-case word.
pub fn lower_matches(s: &[u8], w: &[u8]) -> (r: bool)
    ensures
        r == lower_eq(s@, w@),
{
    let n = s.len();
    if n != w.len() {
        return false;
    }
    let mut i: usize = 0;
    while i < n
        invariant
            0 <= i <= n,
            n == s@.len(),
            n == w@.len(),
            forall|k: int| 0 <= k < i ==> ascii_lower(s@[k]) == w@[k],
        decreases n - i,
    {
        if ascii_lower_exec(s[i]) != w[i] {
            return false;
        }
        i = i + 1;
    }
    true
}

/// A dot-free sequence has no dots to count.
pub proof fn lemma_dot_count_none(s: Seq<u8>)
    requires
        forall|j: int| 0 <= j < s.len() ==> s[j] != 0x2E,
    ensures
        dot_count(s) == 0,
    decreases s.len(),
{
    if s.len() > 0 {
        assert(forall|j: int| 0 <= j < s.drop_last().len() ==> s.drop_last()[j] == s[j]);
        lemma_dot_count_none(s.drop_last());
    }
}

/// A sequence with a dot in exactly one place counts exactly one dot.
pub proof fn lemma_dot_count_one(s: Seq<u8>, d: int)
    requires
        0 <= d < s.len(),
        s[d] == 0x2E,
        forall|j: int| 0 <= j < s.len() && j != d ==> s[j] != 0x2E,
    ensures
        dot_count(s) == 1,
    decreases s.len(),
{
    assert(forall|j: int| 0 <= j < s.drop_last().len() ==> s.drop_last()[j] == s[j]);
    if d == s.len() - 1 {
        lemma_dot_count_none(s.drop_last());
    } else {
        lemma_dot_count_one(s.drop_last(), d);
    }
}

/// A mantissa with no sign and no exponent is already a full float literal.
pub proof fn lemma_mantissa_is_float(s: Seq<u8>)
    requires
        is_mantissa(s),
    ensures
        is_float_text(s),
{
    lemma_first_e_index(s);
    let f = first_e_index(s);
    if f < s.len() {
        assert(is_e(s[f]));
        assert(is_digit(s[f]) || s[f] == 0x2E);
        assert(false);
    }
    assert(is_number_text(s));
    assert(!(s[0] == 0x2B || s[0] == 0x2D));
}

/// Digits alone make a float literal.
pub proof fn lemma_digits_are_float(s: Seq<u8>)
    requires
        s.len() > 0,
        all_digits(s),
    ensures
        is_float_text(s),
{
    lemma_dot_count_none(s);
    assert(is_digit(s[0]));
    assert(is_mantissa(s));
    lemma_mantissa_is_float(s);
}

/// Digits around a single dot, starting with a digit, make a float literal.
pub proof fn lemma_decimal_is_float(s: Seq<u8>, d: int)
    requires
        0 < d < s.len(),
        s[d] == 0x2E,
        forall|j: int| 0 <= j < s.len() && j != d ==> is_digit(s[j]),
    ensures
        is_float_text(s),
{
    lemma_dot_count_one(s, d);
    assert(is_digit(s[0]));
    assert(is_mantissa(s));
    lemma_mantissa_is_float(s);
}

/// A UTF-8 continuation byte.
pub open spec fn is_cont(b: u8) -> bool {
    0x80 <= b <= 0xBF
}

/// UTF-8 validity of a byte sequence: runs of one lead byte and its
/// continuation bytes, with the ranges that rule out overlong forms
/// (`C0`/`C1`, `E0 80`–`E0 9F`, `F0 80`–`F0 8F`), surrogates (`ED A0`–
/// `ED BF`) and code points past `10FFFF` (`F4 90`– and `F5`–`FF`).
pub open spec fn is_valid_utf8(s: Seq<u8>) -> bool
    decreases s.len(),
{
    if s.len() == 0 {
        true
    } else {
        let b0 = s[0];
        if b0 < 0x80 {
            is_valid_utf8(s.skip(1))
        } else if 0xC2 <= b0 && b0 <= 0xDF {
            s.len() >= 2 && is_cont(s[1]) && is_valid_utf8(s.skip(2))
        } else if b0 == 0xE0 {
            s.len() >= 3 && 0xA0 <= s[1] && s[1] <= 0xBF && is_cont(s[2]) && is_valid_utf8(
                s.skip(3),
            )
        } else if b0 == 0xED {
            s.len() >= 3 && 0x80 <= s[1] && s[1] <= 0x9F && is_cont(s[2]) && is_valid_utf8(
                s.skip(3),
            )
        } else if 0xE1 <= b0 && b0 <= 0xEF {
            s.len() >= 3 && is_cont(s[1]) && is_cont(s[2]) && is_valid_utf8(s.skip(3))
        } else if b0 == 0xF0 {
            s.len() >= 4 && 0x90 <= s[1] && s[1] <= 0xBF && is_cont(s[2]) && is_cont(s[3])
                && is_valid_utf8(s.skip(4))
        } else if b0 == 0xF4 {
            s.len() >= 4 && 0x80 <= s[1] && s[1] <= 0x8F && is_cont(s[2]) && is_cont(s[3])
                && is_valid_utf8(s.skip(4))
        } else if 0xF1 <= b0 && b0 <= 0xF3 {
            s.len() >= 4 && is_cont(s[1]) && is_cont(s[2]) && is_cont(s[3]) && is_valid_utf8(
                s.skip(4),
            )
        } else {
            false
        }
    }
}

/// Check a byte buffer for UTF-8 validity.
pub fn validate_utf8(s: &[u8]) -> (r: bool)
    ensures
        r == is_valid_utf8(s@),
{
    let n = s.len();
    let mut i: usize = 0;
    proof {
        assert(s@.skip(0) =~= s@);
    }
    while i < n
        invariant
            0 <= i <= n,
            n == s@.len(),
            is_valid_utf8(s@) == is_valid_utf8(s@.skip(i as int)),
        decreases n - i,
    {
        let ghost rest = s@.skip(i as int);
        proof {
            assert(rest.len() == n - i);
            assert(forall|q: int| 0 <= q < rest.len() ==> rest[q] == s@[i + q]);
        }
        let b0 = s[i];
        let width: usize = if b0 < 0x80 {
            1
        } else if 0xC2 <= b0 && b0 <= 0xDF {
            if !(n - i >= 2 && 0x80 <= s[i + 1] && s[i + 1] <= 0xBF) {
                return false;
            }
            2
        } else if b0 == 0xE0 {
            if !(n - i >= 3 && 0xA0 <= s[i + 1] && s[i + 1] <= 0xBF && 0x80 <= s[i + 2] && s[i + 2]
                <= 0xBF) {
                return false;
            }
            3
        } else if b0 == 0xED {
            if !(n - i >= 3 && 0x80 <= s[i + 1] && s[i + 1] <= 0x9F && 0x80 <= s[i + 2] && s[i + 2]
                <= 0xBF) {
                return false;
            }
            3
        } else if 0xE1 <= b0 && b0 <= 0xEF {
            if !(n - i >= 3 && 0x80 <= s[i + 1] && s[i + 1] <= 0xBF && 0x80 <= s[i + 2] && s[i + 2]
                <= 0xBF) {
                return false;
            }
            3
        } else if b0 == 0xF0 {
            if !(n - i >= 4 && 0x90 <= s[i + 1] && s[i + 1] <= 0xBF && 0x80 <= s[i + 2] && s[i + 2]
                <= 0xBF && 0x80 <= s[i + 3] && s[i + 3] <= 0xBF) {
                return false;
            }
            4
        } else if b0 == 0xF4 {
            if !(n - i >= 4 && 0x80 <= s[i + 1] && s[i + 1] <= 0x8F && 0x80 <= s[i + 2] && s[i + 2]
                <= 0xBF && 0x80 <= s[i + 3] && s[i + 3] <= 0xBF) {
                return false;
            }
            4
        } else if 0xF1 <= b0 && b0 <= 0xF3 {
            if !(n - i >= 4 && 0x80 <= s[i + 1] && s[i + 1] <= 0xBF && 0x80 <= s[i + 2] && s[i + 2]
                <= 0xBF && 0x80 <= s[i + 3] && s[i + 3] <= 0xBF) {
                return false;
            }
            4
        } else {
            return false;
        };
        proof {
            assert(s@.skip(i as int).skip(width as int) =~= s@.skip(i + width));
        }
        i = i + width;
    }
    proof {
        assert(s@.skip(n as int).len() == 0);
    }
    true
}

proof fn lemma_first_e_split(t: Seq<u8>, em: int)
    requires
        0 <= em < t.len(),
        is_e(t[em]),
        forall|j: int| 0 <= j < em ==> is_digit(t[j]) || t[j] == 0x2E,
    ensures
        is_number_text(t) == (is_mantissa(t.take(em)) && is_exp_tail(t.skip(em + 1))),
{
    lemma_first_e_index(t);
    let f = first_e_index(t);
    assert(f == em) by {
        if f < em {
            assert(is_e(t[f]));
            assert(is_digit(t[f]) || t[f] == 0x2E);
            assert(false);
        } else if f > em {
            assert(!is_e(t[em]));
            assert(false);
        }
    }
}

/// With `t[k]` the first byte of `t` that is no digit and no dot, and not an
/// `e` either, `t` is no number: any `e` stands past the bad byte, so every
/// candidate mantissa contains it.
proof fn lemma_bad_char_no_number(t: Seq<u8>, k: int)
    requires
        0 <= k < t.len(),
        !is_digit(t[k]),
        t[k] != 0x2E,
        !is_e(t[k]),
        forall|j: int| 0 <= j < k ==> is_digit(t[j]) || t[j] == 0x2E,
    ensures
        !is_number_text(t),
{
    lemma_first_e_index(t);
    let f = first_e_index(t);
    assert(f > k) by {
        if f < k {
            assert(is_e(t[f]));
            assert(is_digit(t[f]) || t[f] == 0x2E);
            assert(false);
        } else if f == k {
            assert(is_e(t[k]));
            assert(false);
        }
    }
    if f == t.len() {
        assert(!is_mantissa(t));
    } else {
        assert(t.take(f)[k] == t[k]);
        assert(!is_mantissa(t.take(f)));
    }
}

} // verus!
