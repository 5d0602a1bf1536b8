//! Layered settings resolution, size strings, and configuration validation.

use vstd::prelude::*;
use vstd::arithmetic::div_mod::{
    lemma_div_denominator, lemma_div_is_ordered, lemma_div_pos_is_pos, lemma_hoist_over_denominator,
};
use vstd::arithmetic::mul::{
    lemma_mul_inequality, lemma_mul_is_associative, lemma_mul_is_commutative,
    lemma_mul_is_distributive_add_other_way, lemma_mul_nonnegative,
};

use crate::errors::ConfigError;
use crate::text;

verus! {

pub const KB: u64 = 1024;

pub const MB: u64 = 1048576;

pub const GB: u64 = 1073741824;

/// The ceiling applied when no layer configures a size limit.
pub const DEFAULT_MAX_FILE_SIZE: u64 = 100 * MB;

/// A decimal digit.
pub open spec fn is_digit(c: char) -> bool {
    '0' <= c && c <= '9'
}

/// The value of a decimal digit character.
pub open spec fn digit_val(c: char) -> int {
    c as u32 - 48
}

/// Every character of the sequence is a decimal digit.
pub open spec fn all_digits(s: Seq<char>) -> bool {
    forall|i: int| 0 <= i < s.len() ==> is_digit(#[trigger] s[i])
}

/// The value of a digit sequence read as a decimal numeral; empty reads as zero.
pub open spec fn digits_val(s: Seq<char>) -> int
    decreases s.len(),
{
    if s.len() == 0 {
        0
    } else {
        digits_val(s.drop_last()) * 10 + digit_val(s.last())
    }
}

/// Ten to the power `n` (one for non-positive `n`).
pub open spec fn pow10(n: int) -> int
    decreases n,
{
    if n <= 0 {
        1
    } else {
        10 * pow10(n - 1)
    }
}

/// The number of decimal points in the sequence.
pub open spec fn dot_count(s: Seq<char>) -> int
    decreases s.len(),
{
    if s.len() == 0 {
        0
    } else {
        dot_count(s.drop_last()) + if s.last() == '.' {
            1int
        } else {
            0int
        }
    }
}

/// A well-formed size number: only digits and at most one decimal point,
/// and at least one digit.
pub open spec fn is_size_number(s: Seq<char>) -> bool {
    &&& dot_count(s) <= 1
    &&& s.len() > dot_count(s)
    &&& forall|i: int| 0 <= i < s.len() ==> (is_digit(#[trigger] s[i]) || s[i] == '.')
}

/// The position of the first decimal point, or the length if there is none.
pub open spec fn dot_pos(s: Seq<char>) -> int
    decreases s.len(),
{
    if s.len() == 0 {
        0
    } else if s[0] == '.' {
        0
    } else {
        1 + dot_pos(s.drop_first())
    }
}

/// The digits before the decimal point.
pub open spec fn int_digits(s: Seq<char>) -> Seq<char> {
    s.subrange(0, dot_pos(s))
}

/// The digits after the decimal point; empty if there is none.
pub open spec fn frac_digits(s: Seq<char>) -> Seq<char> {
    if dot_pos(s) == s.len() {
        Seq::empty()
    } else {
        s.subrange(dot_pos(s) + 1, s.len() as int)
    }
}

/// The byte value denoted by a well-formed size number under the given
/// multiplier, rounded down to a whole number of bytes.
pub open spec fn size_value(num: Seq<char>, mult: int) -> int {
    (digits_val(int_digits(num)) * pow10(frac_digits(num).len() as int) + digits_val(
        frac_digits(num),
    )) * mult / pow10(frac_digits(num).len() as int)
}

/// Saturate an integer at the largest u64.
pub open spec fn sat64(v: int) -> int {
    if v > u64::MAX {
        u64::MAX as int
    } else {
        v
    }
}

/// An ASCII letter.
pub open spec fn is_alpha(c: char) -> bool {
    ('a' <= c && c <= 'z') || ('A' <= c && c <= 'Z')
}

/// The position of the first ASCII letter, or the length if there is none.
pub open spec fn first_alpha(s: Seq<char>) -> int
    decreases s.len(),
{
    if s.len() == 0 {
        0
    } else if is_alpha(s[0]) {
        0
    } else {
        1 + first_alpha(s.drop_first())
    }
}

/// The multiplier of a size unit, compared without regard to ASCII case;
/// `None` for an unknown unit.
pub open spec fn unit_mult(u: Seq<char>) -> Option<int> {
    if u.len() == 0 || text::eq_icase_spec(u, "B"@) {
        Some(1int)
    } else if text::eq_icase_spec(u, "KB"@) || text::eq_icase_spec(u, "K"@) {
        Some(KB as int)
    } else if text::eq_icase_spec(u, "MB"@) || text::eq_icase_spec(u, "M"@) {
        Some(MB as int)
    } else if text::eq_icase_spec(u, "GB"@) || text::eq_icase_spec(u, "G"@) {
        Some(GB as int)
    } else {
        None
    }
}

/// The multiplier of a size unit.
pub fn unit_multiplier(u: &str) -> (r: Option<u64>)
    ensures
        match r {
            Some(m) => unit_mult(u@) == Some(m as int),
            None => unit_mult(u@) is None,
        },
{
    if u.unicode_len() == 0 || text::eq_ignore_ascii_case(u, "B") {
        Some(1)
    } else if text::eq_ignore_ascii_case(u, "KB") || text::eq_ignore_ascii_case(u, "K") {
        Some(KB)
    } else if text::eq_ignore_ascii_case(u, "MB") || text::eq_ignore_ascii_case(u, "M") {
        Some(MB)
    } else if text::eq_ignore_ascii_case(u, "GB") || text::eq_ignore_ascii_case(u, "G") {
        Some(GB)
    } else {
        None
    }
}

/// If the first `i` characters are not letters, and the `i`-th is (or the
/// sequence ends there), then `i` is the first-letter position.
proof fn lemma_first_alpha_at(s: Seq<char>, i: int)
    requires
        0 <= i <= s.len(),
        forall|j: int| 0 <= j < i ==> !is_alpha(#[trigger] s[j]),
        i < s.len() ==> is_alpha(s[i]),
    ensures
        first_alpha(s) == i,
    decreases i,
{
    if i == 0 {
        if s.len() == 0 {
        } else {
            assert(is_alpha(s[0]));
        }
    } else {
        assert(!is_alpha(s[0]));
        lemma_first_alpha_at(s.drop_first(), i - 1);
    }
}

/// The analogous fact for the first decimal point.
proof fn lemma_dot_pos_at(s: Seq<char>, i: int)
    requires
        0 <= i <= s.len(),
        forall|j: int| 0 <= j < i ==> #[trigger] s[j] != '.',
        i < s.len() ==> s[i] == '.',
    ensures
        dot_pos(s) == i,
    decreases i,
{
    if i == 0 {
    } else {
        lemma_dot_pos_at(s.drop_first(), i - 1);
    }
}

/// A digit sequence of length `n` reads as a value below ten to the `n`.
proof fn lemma_digits_val_bound(s: Seq<char>)
    requires
        all_digits(s),
    ensures
        0 <= digits_val(s) < pow10(s.len() as int),
    decreases s.len(),
{
    if s.len() == 0 {
    } else {
        assert(all_digits(s.drop_last())) by {
            assert(forall|i: int| 0 <= i < s.len() - 1 ==> s.drop_last()[i] == #[trigger] s[i]);
        }
        lemma_digits_val_bound(s.drop_last());
        assert(is_digit(s.last()));
        assert(0 <= digit_val(s.last()) <= 9);
    }
}

/// Extending a numeral by one digit multiplies its value by ten and adds
/// the digit.
proof fn lemma_digits_val_snoc(s: Seq<char>, i: int)
    requires
        0 <= i < s.len(),
    ensures
        digits_val(s.subrange(0, i + 1)) == digits_val(s.subrange(0, i)) * 10 + digit_val(s[i]),
{
    let t = s.subrange(0, i + 1);
    assert(t.drop_last() =~= s.subrange(0, i));
    assert(t.last() == s[i]);
}

/// The right-to-left evaluation of a fraction's contribution: each step
/// folds one digit into the running value.
pub open spec fn frac_rec(ds: Seq<char>, m: int) -> int
    decreases ds.len(),
{
    if ds.len() == 0 {
        0
    } else {
        (digit_val(ds[0]) * m + frac_rec(ds.drop_first(), m)) / 10
    }
}

/// A numeral expands at the front as its leading digit times a power of ten.
proof fn lemma_digits_val_front(s: Seq<char>)
    requires
        s.len() > 0,
    ensures
        digits_val(s) == digit_val(s[0]) * pow10(s.len() - 1) + digits_val(s.drop_first()),
    decreases s.len(),
{
    if s.len() == 1 {
        assert(s.drop_first() =~= Seq::<char>::empty());
        assert(s.drop_last() =~= Seq::<char>::empty());
        assert(digits_val(Seq::<char>::empty()) == 0);
        assert(s.last() == s[0]);
        assert(digits_val(s) == digit_val(s[0]));
        assert(pow10(0) == 1);
    } else {
        let t = s.drop_last();
        let d0 = digit_val(s[0]);
        let rest = s.drop_first();
        lemma_digits_val_front(t);
        assert(t.drop_first() =~= rest.drop_last());
        assert(t[0] == s[0]);
        assert(rest.last() == s.last());
        // digits_val(s) == digits_val(t) * 10 + digit_val(s.last())
        //               == (d0 * pow10(len-2) + digits_val(t.drop_first())) * 10 + dlast
        assert((d0 * pow10(s.len() - 2) + digits_val(t.drop_first())) * 10 == d0 * pow10(
            s.len() - 2,
        ) * 10 + digits_val(t.drop_first()) * 10) by {
            lemma_mul_is_distributive_add_other_way(
                10,
                d0 * pow10(s.len() - 2),
                digits_val(t.drop_first()),
            );
        }
        assert(d0 * pow10(s.len() - 2) * 10 == d0 * (pow10(s.len() - 2) * 10)) by {
            lemma_mul_is_associative(d0, pow10(s.len() - 2), 10);
        }
        assert(pow10(s.len() - 2) * 10 == 10 * pow10(s.len() - 2)) by {
            lemma_mul_is_commutative(pow10(s.len() - 2), 10);
        }
        assert(pow10(s.len() - 2) * 10 == pow10(s.len() - 1));
        assert(digits_val(rest) == digits_val(t.drop_first()) * 10 + digit_val(s.last()));
        assert(digits_val(s) == digits_val(t) * 10 + digit_val(s.last()));
        assert(digits_val(t) * 10 == (d0 * pow10(s.len() - 2) + digits_val(t.drop_first())) * 10);
        assert(digits_val(s) == d0 * pow10(s.len() - 1) + digits_val(rest));
    }
}

/// The right-to-left fold computes exactly the floor of `value * m / 10^len`.
proof fn lemma_frac_rec_div(ds: Seq<char>, m: int)
    requires
        all_digits(ds),
        m >= 0,
    ensures
        frac_rec(ds, m) == digits_val(ds) * m / pow10(ds.len() as int),
    decreases ds.len(),
{
    if ds.len() == 0 {
        assert(digits_val(ds) * m == 0);
    } else {
        let rest = ds.drop_first();
        assert(all_digits(rest)) by {
            assert(forall|i: int| 0 <= i < rest.len() ==> rest[i] == #[trigger] ds[i + 1]);
        }
        lemma_frac_rec_div(rest, m);
        let p = pow10(rest.len() as int);
        let d0 = digit_val(ds[0]);
        let rv = digits_val(rest);
        lemma_digits_val_front(ds);
        // digits_val(ds) * m == d0 * m * p + rv * m
        assert((d0 * p + rv) * m == d0 * p * m + rv * m) by {
            lemma_mul_is_distributive_add_other_way(m, d0 * p, rv);
        }
        assert(d0 * p * m == d0 * m * p) by {
            lemma_mul_is_associative(d0, p, m);
            lemma_mul_is_commutative(p, m);
            lemma_mul_is_associative(d0, m, p);
        }
        assert(pow10(ds.len() as int) == p * 10) by {
            lemma_mul_is_commutative(10, p);
        }
        // (d0*m*p + rv*m) / (p*10) == ((d0*m*p + rv*m)/p) / 10
        assert(p > 0) by {
            lemma_pow10_pos(rest.len() as int);
        }
        assert(0 <= rv) by {
            lemma_digits_val_bound(rest);
        }
        assert(0 <= d0 * m * p && 0 <= rv * m) by {
            lemma_mul_nonnegative(d0, m);
            lemma_mul_nonnegative(d0 * m, p);
            lemma_mul_nonnegative(rv, m);
        }
        lemma_div_denominator(d0 * m * p + rv * m, p, 10);
        // (d0*m*p + rv*m)/p == d0*m + rv*m/p
        lemma_hoist_over_denominator(rv * m, d0 * m, p as nat);
        assert(digits_val(ds) * m / pow10(ds.len() as int) == (d0 * m + rv * m / p) / 10);
    }
}

/// Ten to any power is positive.
proof fn lemma_pow10_pos(n: int)
    ensures
        pow10(n) >= 1,
    decreases n,
{
    if n > 0 {
        lemma_pow10_pos(n - 1);
    }
}

/// The fraction's contribution never exceeds the multiplier.
proof fn lemma_frac_rec_bound(ds: Seq<char>, m: int)
    requires
        all_digits(ds),
        m >= 0,
    ensures
        0 <= frac_rec(ds, m) <= m,
    decreases ds.len(),
{
    if ds.len() == 0 {
    } else {
        let rest = ds.drop_first();
        assert(all_digits(rest)) by {
            assert(forall|i: int| 0 <= i < rest.len() ==> rest[i] == #[trigger] ds[i + 1]);
        }
        lemma_frac_rec_bound(rest, m);
        assert(is_digit(ds[0]));
        assert(0 <= digit_val(ds[0]) <= 9);
        assert(digit_val(ds[0]) * m <= 9 * m) by {
            lemma_mul_inequality(digit_val(ds[0]), 9, m);
        }
        assert((digit_val(ds[0]) * m + frac_rec(rest, m)) / 10 <= (9 * m + m) / 10) by {
            lemma_div_is_ordered(digit_val(ds[0]) * m + frac_rec(rest, m), 9 * m + m, 10);
        }
        assert((9 * m + m) / 10 == m);
        assert(digit_val(ds[0]) * m >= 0) by {
            lemma_mul_nonnegative(digit_val(ds[0]), m);
        }
        lemma_div_pos_is_pos(digit_val(ds[0]) * m + frac_rec(rest, m), 10);
    }
}

/// Executable form of `is_alpha`.
pub fn is_alpha_char(c: char) -> (r: bool)
    ensures
        r == is_alpha(c),
{
    let v = c as u32;
    (97 <= v && v <= 122) || (65 <= v && v <= 90)
}

/// Executable form of `is_digit`.
pub fn is_digit_char(c: char) -> (r: bool)
    ensures
        r == is_digit(c),
{
    let v = c as u32;
    48 <= v && v <= 57
}

/// The error a rejected size string produces: a malformed number is
/// reported with the whole trimmed input, an unknown unit with the unit.
pub open spec fn size_error_matches(s: Seq<char>, e: ConfigError) -> bool {
    let t = text::trim_spec(s);
    let k = first_alpha(t);
    let num = text::trim_spec(t.subrange(0, k));
    let unit = t.subrange(k, t.len() as int);
    ||| {
        &&& !is_size_number(num)
        &&& e matches ConfigError::InvalidSizeNumber { input } && input@ == t
    }
    ||| {
        &&& is_size_number(num)
        &&& unit_mult(unit) is None
        &&& e matches ConfigError::InvalidSizeUnit { unit: u } && u@ == unit
    }
}

/// Parse a human-readable size string of the form `<number><unit>`, where
/// the unit is one of (nothing), B, KB/K, MB/M, GB/G in any ASCII case and
/// the number is a decimal numeral with an optional fractional part.  The
/// value is rounded down to whole bytes and saturates at the largest u64.
pub fn parse_file_size(s: &str) -> (r: Result<u64, ConfigError>)
    ensures
        match r {
            Ok(v) => size_spec_of(s@) == Some(v as int),
            Err(e) => size_spec_of(s@) is None && size_error_matches(s@, e),
        },
{
    let t = text::trim(s);
    let tlen = t.as_str().unicode_len();

    // Split at the first ASCII letter: number before, unit from there on.
    let mut k: usize = 0;
    while k < tlen && !is_alpha_char(t.as_str().get_char(k))
        invariant
            k <= tlen,
            tlen == t@.len(),
            forall|j: int| 0 <= j < k ==> !is_alpha(#[trigger] t@[j]),
        decreases tlen - k,
    {
        k = k + 1;
    }
    proof {
        lemma_first_alpha_at(t@, k as int);
    }

    let num_s = text::trim(t.as_str().substring_char(0, k));
    let nlen = num_s.as_str().unicode_len();
    let ghost num = num_s@;

    // One scan of the number: check the characters, count the decimal
    // points, and record where the first one sits.
    let mut dots: usize = 0;
    let mut d: usize = nlen;
    let mut all_ok = true;
    let mut i: usize = 0;
    proof {
        assert(num.subrange(0, 0) =~= Seq::<char>::empty());
    }
    while i < nlen
        invariant
            i <= nlen,
            nlen == num.len(),
            num_s@ == num,
            all_ok <==> (forall|j: int| 0 <= j < i ==> (is_digit(#[trigger] num[j]) || num[j]
                == '.')),
            dots == dot_count(num.subrange(0, i as int)),
            dots <= i,
            d == nlen || (d < i && num[d as int] == '.'),
            d == nlen ==> dots == 0,
            d < nlen ==> dots >= 1,
            forall|j: int| 0 <= j < i && j < d ==> #[trigger] num[j] != '.',
            (all_ok && dots <= 1) ==> forall|j: int|
                0 <= j < i && j != d ==> is_digit(#[trigger] num[j]),
        decreases nlen - i,
    {
        let c = num_s.as_str().get_char(i);
        proof {
            assert(num.subrange(0, i + 1).drop_last() =~= num.subrange(0, i as int));
        }
        if c == '.' {
            if d == nlen {
                d = i;
            }
            dots = dots + 1;
        } else if !is_digit_char(c) {
            all_ok = false;
        }
        i = i + 1;
    }
    proof {
        assert(num.subrange(0, nlen as int) =~= num);
        lemma_dot_pos_at(num, d as int);
    }

    if !(all_ok && dots <= 1 && nlen > dots) {
        return Err(ConfigError::InvalidSizeNumber { input: t });
    }
    assert(is_size_number(num));

    let mult = match unit_multiplier(t.as_str().substring_char(k, tlen)) {
        Some(m) => m,
        None => {
            return Err(
                ConfigError::InvalidSizeUnit {
                    unit: String::from_str(t.as_str().substring_char(k, tlen)),
                },
            );
        },
    };

    // The digits before the point, saturating above u64::MAX.
    let ghost ints = int_digits(num);
    proof {
        assert(ints =~= num.subrange(0, d as int));
        assert(all_digits(ints));
    }
    let mut acc: u128 = 0;
    let mut sat = false;
    let mut i2: usize = 0;
    proof {
        assert(num.subrange(0, 0) =~= Seq::<char>::empty());
    }
    while i2 < d
        invariant
            i2 <= d <= nlen,
            nlen == num.len(),
            num_s@ == num,
            forall|j: int| 0 <= j < d ==> is_digit(#[trigger] num[j]),
            !sat ==> acc == digits_val(num.subrange(0, i2 as int)) && acc <= u64::MAX,
            sat ==> digits_val(num.subrange(0, i2 as int)) > u64::MAX,
        decreases d - i2,
    {
        let c = num_s.as_str().get_char(i2);
        assert(is_digit(c));
        let dv = (c as u32 - 48) as u128;
        proof {
            lemma_digits_val_snoc(num, i2 as int);
        }
        if !sat {
            acc = acc * 10 + dv;
            if acc > u64::MAX as u128 {
                sat = true;
            }
        }
        i2 = i2 + 1;
    }
    proof {
        assert(num.subrange(0, d as int) == ints);
    }

    // The digits after the point, folded right to left: each step divides
    // by ten after adding one digit's contribution.
    let fstart: usize = if dots == 1 {
        d + 1
    } else {
        nlen
    };
    let ghost fseq = frac_digits(num);
    proof {
        if dots == 1 {
            assert(fseq =~= num.subrange(d + 1, nlen as int));
        } else {
            assert(dot_pos(num) == nlen);
            assert(fseq =~= Seq::<char>::empty());
        }
        assert(all_digits(fseq)) by {
            assert(forall|j: int|
                0 <= j < fseq.len() ==> #[trigger] fseq[j] == num[j + fstart]);
            assert(forall|j: int| 0 <= j < fseq.len() ==> j + fstart != d && is_digit(
                #[trigger] num[j + fstart],
            ));
        }
        assert(1 <= mult && mult <= GB);
        assert(fseq.skip(fseq.len() as int) =~= Seq::<char>::empty());
        assert(frac_rec(Seq::<char>::empty(), mult as int) == 0);
    }
    let mut fs: u64 = 0;
    let mut j: usize = nlen;
    while j > fstart
        invariant
            fstart <= j <= nlen,
            nlen == num.len(),
            num_s@ == num,
            fseq == frac_digits(num),
            fseq.len() == nlen - fstart,
            all_digits(fseq),
            forall|jj: int| 0 <= jj < fseq.len() ==> #[trigger] fseq[jj] == num[jj + fstart],
            1 <= mult <= GB,
            fs == frac_rec(fseq.skip(j - fstart), mult as int),
            fs <= mult,
        decreases j,
    {
        j = j - 1;
        proof {
            assert(fseq[j - fstart] == num[j as int]);
            assert(is_digit(fseq[j - fstart]));
        }
        let c = num_s.as_str().get_char(j);
        assert(is_digit(c));
        let dv = (c as u32 - 48) as u64;
        proof {
            assert(dv * mult <= 9 * (GB as int)) by {
                vstd::arithmetic::mul::lemma_mul_upper_bound(
                    dv as int,
                    9,
                    mult as int,
                    GB as int,
                );
            }
            assert(fseq.skip(j - fstart).drop_first() =~= fseq.skip(j - fstart + 1));
            assert(fseq.skip(j - fstart)[0] == fseq[j - fstart]);
            assert(all_digits(fseq.skip(j - fstart))) by {
                assert(forall|jj: int|
                    0 <= jj < fseq.skip(j - fstart).len() ==> #[trigger] fseq.skip(j - fstart)[jj]
                        == fseq[jj + j - fstart]);
            }
        }
        fs = (dv * mult + fs) / 10;
        proof {
            lemma_frac_rec_bound(fseq.skip(j - fstart), mult as int);
        }
    }
    proof {
        assert(fseq.skip(0) =~= fseq);
    }

    // Combine, saturating at u64::MAX.
    let ghost iv = digits_val(ints);
    let ghost fv = digits_val(fseq);
    let ghost p = pow10(fseq.len() as int);
    let ghost m = mult as int;
    proof {
        lemma_digits_val_bound(ints);
        lemma_digits_val_bound(fseq);
        lemma_pow10_pos(fseq.len() as int);
        lemma_size_decompose(iv, fv, p, m);
        lemma_frac_rec_div(fseq, m);
        assert(size_value(num, m) == iv * m + fv * m / p);
    }
    if sat {
        proof {
            assert(iv > u64::MAX);
            assert(iv * 1 <= iv * m) by {
                lemma_mul_inequality(1, m, iv);
                lemma_mul_is_commutative(1, iv);
                lemma_mul_is_commutative(m, iv);
            }
            assert(fv * m >= 0) by {
                lemma_mul_nonnegative(fv, m);
            }
            assert(fv * m / p >= 0) by {
                lemma_div_pos_is_pos(fv * m, p);
            }
            assert(size_value(num, m) > u64::MAX);
        }
        return Ok(u64::MAX);
    }
    proof {
        assert(acc * (mult as u128) <= u64::MAX * (GB as u128)) by {
            vstd::arithmetic::mul::lemma_mul_upper_bound(
                acc as int,
                u64::MAX as int,
                mult as int,
                GB as int,
            );
        }
    }
    let total: u128 = acc * (mult as u128) + fs as u128;
    proof {
        assert(acc * (mult as u128) == iv * m);
        assert(fs == fv * m / p);
    }
    if total > u64::MAX as u128 {
        Ok(u64::MAX)
    } else {
        Ok(total as u64)
    }
}

/// The size a parse yields, or `None` where the string is rejected.
pub open spec fn size_spec_of(s: Seq<char>) -> Option<int> {
    let t = text::trim_spec(s);
    let k = first_alpha(t);
    let num = text::trim_spec(t.subrange(0, k));
    let unit = t.subrange(k, t.len() as int);
    if is_size_number(num) && unit_mult(unit) is Some {
        Some(sat64(size_value(num, unit_mult(unit)->Some_0)))
    } else {
        None
    }
}

/// The value displayed by `format_size`, in tenths of the chosen unit,
/// rounded to the nearest tenth (half away from zero).
pub open spec fn scaled_tenths(b: int, u: int) -> int {
    (10 * b + u / 2) / u
}

/// The unit `format_size` displays a byte count in.
pub open spec fn format_unit(b: int) -> int {
    if b >= GB {
        GB as int
    } else if b >= MB {
        MB as int
    } else if b >= KB {
        KB as int
    } else {
        1
    }
}

/// What `format_size` prints: one decimal place and a unit suffix for a
/// kilobyte or more, the raw byte count below that.
pub open spec fn format_size_spec(b: int) -> Seq<char> {
    if b >= KB {
        let u = format_unit(b);
        let t = scaled_tenths(b, u);
        let suffix = if b >= GB {
            "GB"@
        } else if b >= MB {
            "MB"@
        } else {
            "KB"@
        };
        text::dec_spec(t / 10) + seq!['.'] + seq![text::dec_digit(t % 10)] + suffix
    } else {
        text::dec_spec(b) + "B"@
    }
}

/// Render a byte count scaled to the given unit with one decimal place.
fn format_scaled(bytes: u64, u: u64, suffix: &str) -> (r: String)
    requires
        1024 <= u <= 1073741824,
    ensures
        r@ == text::dec_spec(scaled_tenths(bytes as int, u as int) / 10) + seq!['.'] + seq![
            text::dec_digit(scaled_tenths(bytes as int, u as int) % 10),
        ] + suffix@,
{
    let num: u128 = 10u128 * (bytes as u128) + ((u / 2) as u128);
    let ghost t_spec = scaled_tenths(bytes as int, u as int);
    proof {
        assert(num as int == 10 * (bytes as int) + (u as int) / 2);
        vstd::arithmetic::div_mod::lemma_div_is_ordered_by_denominator(num as int, 1024, u as int);
        lemma_div_is_ordered(num as int, 10 * (u64::MAX as int) + 536870912, 1024);
    }
    let t128: u128 = num / (u as u128);
    let t = t128 as u64;
    assert(t == t_spec);
    let mut r = text::dec_str(t / 10);
    r.append(".");
    r.append(text::digit_str(t % 10));
    r.append(suffix);
    proof {
        reveal_strlit(".");
        assert("."@ =~= seq!['.']);
        assert(r@ =~= text::dec_spec(t_spec / 10) + seq!['.'] + seq![text::dec_digit(t_spec % 10)]
            + suffix@);
    }
    r
}

/// Format a byte count for display: `B` below a kilobyte, otherwise the
/// largest unit the count reaches, with one decimal place.
pub fn format_size(bytes: u64) -> (r: String)
    ensures
        r@ == format_size_spec(bytes as int),
{
    if bytes >= GB {
        format_scaled(bytes, GB, "GB")
    } else if bytes >= MB {
        format_scaled(bytes, MB, "MB")
    } else if bytes >= KB {
        format_scaled(bytes, KB, "KB")
    } else {
        let mut r = text::dec_str(bytes);
        r.append("B");
        assert(r@ =~= format_size_spec(bytes as int));
        r
    }
}

/// A sequence of digits contains no decimal point.
proof fn lemma_all_digits_no_dots(s: Seq<char>)
    requires
        all_digits(s),
    ensures
        dot_count(s) == 0,
        forall|i: int| 0 <= i < s.len() ==> #[trigger] s[i] != '.',
    decreases s.len(),
{
    if s.len() > 0 {
        assert(all_digits(s.drop_last())) by {
            assert(forall|i: int| 0 <= i < s.len() - 1 ==> s.drop_last()[i] == #[trigger] s[i]);
        }
        lemma_all_digits_no_dots(s.drop_last());
        assert(is_digit(s.last()));
    }
}

/// The decimal representation consists of digits and is never empty.
proof fn lemma_dec_digits(n: int)
    requires
        n >= 0,
    ensures
        all_digits(text::dec_spec(n)),
        text::dec_spec(n).len() >= 1,
    decreases n,
{
    if n < 10 {
        assert(is_digit(text::dec_digit(n)));
    } else {
        lemma_dec_digits(n / 10);
        assert(is_digit(text::dec_digit(n % 10)));
        assert(text::dec_spec(n) == text::dec_spec(n / 10).push(text::dec_digit(n % 10)));
        assert(forall|i: int|
            0 <= i < text::dec_spec(n).len() ==> is_digit(#[trigger] text::dec_spec(n)[i]));
    }
}

/// Reading a decimal representation back yields the number.
proof fn lemma_dec_val(n: int)
    requires
        n >= 0,
    ensures
        digits_val(text::dec_spec(n)) == n,
    decreases n,
{
    if n < 10 {
        let s = text::dec_spec(n);
        assert(s.drop_last() =~= Seq::<char>::empty());
        assert(digits_val(Seq::<char>::empty()) == 0);
        assert(s.last() == text::dec_digit(n));
        assert(digit_val(text::dec_digit(n)) == n);
    } else {
        lemma_dec_val(n / 10);
        let s = text::dec_spec(n);
        assert(s == text::dec_spec(n / 10).push(text::dec_digit(n % 10)));
        assert(s.drop_last() =~= text::dec_spec(n / 10));
        assert(s.last() == text::dec_digit(n % 10));
        assert(digit_val(text::dec_digit(n % 10)) == n % 10);
        assert(digits_val(s) == (n / 10) * 10 + n % 10);
        assert((n / 10) * 10 + n % 10 == n) by {
            vstd::arithmetic::div_mod::lemma_fundamental_div_mod(n, 10);
        }
    }
}

/// Parsing a scaled rendering `<digits>.<digit><suffix>` yields the
/// saturated value of the displayed tenths times the unit over ten.
proof fn lemma_scaled_parse(b: int, u: int, suffix: Seq<char>)
    requires
        0 <= b,
        1024 <= u,
        unit_mult(suffix) == Some(u),
        suffix.len() >= 1,
        forall|i: int| 0 <= i < suffix.len() ==> is_alpha(#[trigger] suffix[i]),
    ensures
        ({
            let t = scaled_tenths(b, u);
            let f = text::dec_spec(t / 10) + seq!['.'] + seq![text::dec_digit(t % 10)] + suffix;
            size_spec_of(f) == Some(sat64(t * u / 10))
        }),
{
    let t = scaled_tenths(b, u);
    assert(t >= 0) by {
        lemma_div_pos_is_pos(10 * b + u / 2, u);
    }
    let dec = text::dec_spec(t / 10);
    let dd = text::dec_digit(t % 10);
    let numpart = dec + seq!['.'] + seq![dd];
    let f = numpart + suffix;
    lemma_dec_digits(t / 10);
    lemma_dec_val(t / 10);
    assert(is_digit(dd) && digit_val(dd) == t % 10) by {
        vstd::arithmetic::div_mod::lemma_mod_division_less_than_divisor(t, 10);
    }

    // No whitespace at either end, so trimming changes nothing.
    assert(f[0] == dec[0] && is_digit(dec[0]));
    assert(!text::is_space(f[0]));
    assert(f.last() == suffix.last() && is_alpha(f.last()));
    assert(!text::is_space(f.last()));
    assert(text::trim_start_spec(f) == f);
    assert(text::trim_end_spec(f) == f);
    assert(text::trim_spec(f) == f);

    // The first letter is the first character of the suffix.
    let k = numpart.len() as int;
    assert(first_alpha(f) == k) by {
        assert(forall|j: int| 0 <= j < dec.len() ==> !is_alpha(#[trigger] f[j]));
        assert(f[dec.len() as int] == '.' && !is_alpha('.'));
        assert(f[dec.len() as int + 1] == dd && !is_alpha(dd));
        assert(forall|j: int| 0 <= j < k ==> !is_alpha(#[trigger] f[j]));
        assert(is_alpha(f[k]));
        lemma_first_alpha_at(f, k);
    }
    let num = f.subrange(0, k);
    assert(num =~= numpart);
    assert(!text::is_space(num[0]) && !text::is_space(num.last()));
    assert(text::trim_spec(num) == num);
    let unit = f.subrange(k, f.len() as int);
    assert(unit =~= suffix);

    // The number part is well formed, with the point before the last digit.
    lemma_all_digits_no_dots(dec);
    assert(dot_count(numpart) == 1) by {
        let dp = dec + seq!['.'];
        assert(numpart.drop_last() =~= dp);
        assert(numpart.last() == dd && dd != '.');
        assert(dot_count(numpart) == dot_count(dp));
        assert(dp.drop_last() =~= dec);
        assert(dp.last() == '.');
        assert(dot_count(dp) == dot_count(dec) + 1);
        assert(dot_count(dec) == 0);
    }
    assert(is_size_number(numpart)) by {
        assert(forall|i: int|
            0 <= i < numpart.len() ==> (is_digit(#[trigger] numpart[i]) || numpart[i] == '.'));
    }
    assert(dot_pos(numpart) == dec.len()) by {
        assert(forall|j: int| 0 <= j < dec.len() ==> #[trigger] numpart[j] != '.');
        assert(numpart[dec.len() as int] == '.');
        lemma_dot_pos_at(numpart, dec.len() as int);
    }
    assert(int_digits(numpart) =~= dec);
    assert(frac_digits(numpart) =~= seq![dd]);

    // The value parses back to the saturated tenths.
    assert(digits_val(seq![dd]) == t % 10) by {
        assert(seq![dd].drop_last() =~= Seq::<char>::empty());
        assert(digits_val(Seq::<char>::empty()) == 0);
    }
    assert(pow10(0) == 1);
    assert(pow10(1) == 10);
    assert(size_value(numpart, u) == ((t / 10) * 10 + t % 10) * u / 10);
    assert((t / 10) * 10 + t % 10 == t) by {
        vstd::arithmetic::div_mod::lemma_fundamental_div_mod(t, 10);
    }
    assert(size_spec_of(f) == Some(sat64(t * u / 10)));
}

/// The saturated round-trip value lies within half a displayed tenth of
/// the original count: at most a twentieth of the unit above it, at most a
/// twentieth and the one byte lost to rounding down below it.
proof fn lemma_scaled_bounds(b: int, u: int)
    requires
        0 <= b <= u64::MAX,
        1024 <= u,
        u % 2 == 0,
    ensures
        ({
            let v = sat64(scaled_tenths(b, u) * u / 10);
            v <= b + u / 20 && b <= v + u / 20 + 1
        }),
{
    let t = scaled_tenths(b, u);
    let x = 10 * b + u / 2;
    vstd::arithmetic::div_mod::lemma_fundamental_div_mod(x, u);
    let rr = x % u;
    vstd::arithmetic::div_mod::lemma_mod_division_less_than_divisor(x, u);
    assert(x == u * t + rr && 0 <= rr < u);
    assert(t * u == x - rr) by {
        lemma_mul_is_commutative(u, t);
    }
    let v0 = t * u / 10;

    // Upper bound: t*u <= 10*b + u/2, so v0 <= b + u/20.
    assert(v0 <= x / 10) by {
        lemma_div_is_ordered(t * u, x, 10);
    }
    assert(x / 10 == b + (u / 2) / 10) by {
        lemma_hoist_over_denominator(u / 2, b, 10);
    }
    assert((u / 2) / 10 == u / 20) by {
        lemma_div_denominator(u, 2, 10);
    }
    assert(v0 <= b + u / 20);

    // Lower bound: t*u >= 10*b - u/2 + 1, and 10*(u/20) is within eleven of
    // u/2, so v0 >= b - u/20 - 1.
    let w = u / 20;
    vstd::arithmetic::div_mod::lemma_fundamental_div_mod(u, 20);
    vstd::arithmetic::div_mod::lemma_mod_division_less_than_divisor(u, 20);
    assert(20 * w >= u - 19);
    assert(u / 2 + u / 2 == u) by {
        vstd::arithmetic::div_mod::lemma_fundamental_div_mod(u, 2);
    }
    assert((10 * w + 11) * 2 >= (u / 2) * 2);
    assert(10 * w + 11 >= u / 2);
    assert(t * u >= 10 * b - u / 2 + 1);
    assert(t * u >= 10 * (b - w - 1));
    assert(v0 >= (10 * (b - w - 1)) / 10) by {
        lemma_div_is_ordered(10 * (b - w - 1), t * u, 10);
    }
    assert((10 * (b - w - 1)) / 10 == b - w - 1) by {
        vstd::arithmetic::div_mod::lemma_div_multiples_vanish(b - w - 1, 10);
    }
    assert(v0 >= b - u / 20 - 1);

    // Saturation keeps both bounds, because b itself fits in a u64.
    let v = sat64(v0);
    if v0 > u64::MAX {
        assert(v == u64::MAX);
        assert(b <= v);
    }
}

/// Law: formatting a byte count and parsing the rendering back yields a
/// value again, exactly the original below one kilobyte; otherwise within
/// half a displayed tenth: at most a twentieth of the display unit above
/// the original, at most a twentieth and one byte below it.
pub proof fn lemma_size_round_trip(b: u64)
    ensures
        size_spec_of(format_size_spec(b as int)) is Some,
        b < KB ==> size_spec_of(format_size_spec(b as int)) == Some(b as int),
        ({
            let v = size_spec_of(format_size_spec(b as int))->Some_0;
            let u = format_unit(b as int);
            v <= b + u / 20 && b <= v + u / 20 + 1
        }),
{
    reveal_strlit("B");
    reveal_strlit("KB");
    reveal_strlit("MB");
    reveal_strlit("GB");
    reveal_strlit("K");
    reveal_strlit("M");
    reveal_strlit("G");
    let bi = b as int;
    if b >= KB {
        let u = format_unit(bi);
        let suffix = if bi >= GB {
            "GB"@
        } else if bi >= MB {
            "MB"@
        } else {
            "KB"@
        };
        if bi >= GB {
            assert(!text::eq_icase_spec(suffix, "B"@));
            assert(!text::eq_icase_spec(suffix, "KB"@)) by {
                assert(text::lower32("GB"@[0]) != text::lower32("KB"@[0]));
            }
            assert(!text::eq_icase_spec(suffix, "K"@));
            assert(!text::eq_icase_spec(suffix, "MB"@)) by {
                assert(text::lower32("GB"@[0]) != text::lower32("MB"@[0]));
            }
            assert(!text::eq_icase_spec(suffix, "M"@));
            assert(text::eq_icase_spec(suffix, "GB"@));
        } else if bi >= MB {
            assert(!text::eq_icase_spec(suffix, "B"@));
            assert(!text::eq_icase_spec(suffix, "KB"@)) by {
                assert(text::lower32("MB"@[0]) != text::lower32("KB"@[0]));
            }
            assert(!text::eq_icase_spec(suffix, "K"@));
            assert(text::eq_icase_spec(suffix, "MB"@));
        } else {
            assert(!text::eq_icase_spec(suffix, "B"@));
            assert(text::eq_icase_spec(suffix, "KB"@));
        }
        assert(unit_mult(suffix) == Some(u));
        assert(suffix.len() == 2);
        assert(forall|i: int| 0 <= i < suffix.len() ==> is_alpha(#[trigger] suffix[i]));
        lemma_scaled_parse(bi, u, suffix);
        lemma_scaled_bounds(bi, u);
    } else {
        // Below a kilobyte the rendering is the exact count and a `B`.
        let dec = text::dec_spec(bi);
        let f = dec + "B"@;
        lemma_dec_digits(bi);
        lemma_dec_val(bi);
        assert(f[0] == dec[0] && is_digit(dec[0]));
        assert(!text::is_space(f[0]));
        assert(f.last() == 'B' && is_alpha('B'));
        assert(!text::is_space(f.last()));
        assert(text::trim_start_spec(f) == f);
        assert(text::trim_end_spec(f) == f);
        assert(text::trim_spec(f) == f);
        let k = dec.len() as int;
        assert(first_alpha(f) == k) by {
            assert(forall|j: int| 0 <= j < k ==> !is_alpha(#[trigger] f[j]));
            assert(is_alpha(f[k]));
            lemma_first_alpha_at(f, k);
        }
        let num = f.subrange(0, k);
        assert(num =~= dec);
        assert(!text::is_space(num[0]) && !text::is_space(num.last()));
        assert(text::trim_spec(num) == num);
        let unit = f.subrange(k, f.len() as int);
        assert(unit =~= "B"@);
        assert(unit_mult(unit) == Some(1int)) by {
            assert(text::eq_icase_spec(unit, "B"@));
        }
        lemma_all_digits_no_dots(dec);
        assert(is_size_number(num)) by {
            assert(dot_count(num) == dot_count(dec));
        }
        assert(dot_pos(num) == num.len()) by {
            lemma_dot_pos_at(num, num.len() as int);
        }
        assert(int_digits(num) =~= dec);
        assert(frac_digits(num) =~= Seq::<char>::empty());
        assert(digits_val(Seq::<char>::empty()) == 0);
        assert(pow10(0) == 1);
        assert(size_value(num, 1) == (bi * 1 + 0) * 1 / 1);
        assert(bi * 1 == bi) by {
            vstd::arithmetic::mul::lemma_mul_basics(bi);
        }
        assert(bi / 1 == bi);
        assert(size_spec_of(f) == Some(bi));
    }
}

/// The whole-and-fraction decomposition of a size value.
proof fn lemma_size_decompose(iv: int, fv: int, p: int, m: int)
    requires
        iv >= 0,
        0 <= fv,
        p >= 1,
        m >= 0,
    ensures
        (iv * p + fv) * m / p == iv * m + fv * m / p,
{
    assert((iv * p + fv) * m == iv * p * m + fv * m) by {
        lemma_mul_is_distributive_add_other_way(m, iv * p, fv);
    }
    assert(iv * p * m == iv * m * p) by {
        lemma_mul_is_associative(iv, p, m);
        lemma_mul_is_commutative(p, m);
        lemma_mul_is_associative(iv, m, p);
    }
    lemma_hoist_over_denominator(fv * m, iv * m, p as nat);
}

/// The `[default]` section of the configuration file: every field optional.
pub struct DefaultConfig {
    pub channel: Option<String>,
    pub max_file_size: Option<String>,
    pub confirm: Option<bool>,
    pub output: Option<String>,
    pub search_types: Option<Vec<String>>,
    pub token_store: Option<String>,
}

/// A named profile section: a partial settings record layered over the
/// default section.
pub struct Profile {
    pub channel: Option<String>,
    pub max_file_size: Option<String>,
    pub confirm: Option<bool>,
    pub output: Option<String>,
    pub search_types: Option<Vec<String>>,
}

/// The configuration file: the default section and the named profiles, in
/// file order.
pub struct ConfigFile {
    pub default: DefaultConfig,
    pub profiles: Vec<(String, Profile)>,
}

/// The recognized environment variables, captured once per invocation by
/// the surrounding program and threaded explicitly through resolution.
pub struct EnvSnapshot {
    pub token: Option<String>,
    pub channel: Option<String>,
    pub max_file_size: Option<String>,
    pub confirm: Option<String>,
    pub output: Option<String>,
    pub search_types: Option<String>,
    pub headless: Option<String>,
    pub profile: Option<String>,
}

impl EnvSnapshot {
    /// A snapshot in which no variable is set.
    pub fn empty() -> (r: EnvSnapshot)
        ensures
            r.token is None,
            r.channel is None,
            r.max_file_size is None,
            r.confirm is None,
            r.output is None,
            r.search_types is None,
            r.headless is None,
            r.profile is None,
    {
        EnvSnapshot {
            token: None,
            channel: None,
            max_file_size: None,
            confirm: None,
            output: None,
            search_types: None,
            headless: None,
            profile: None,
        }
    }
}

/// Fully resolved settings, ready to hand to a dispatcher.
#[derive(Debug)]
pub struct ResolvedConfig {
    pub token: String,
    pub channel: String,
    pub max_file_size: u64,
    pub confirm: bool,
}

impl ResolvedConfig {
    /// Credential and destination are non-empty.
    pub open spec fn wf(&self) -> bool {
        self.token@.len() > 0 && self.channel@.len() > 0
    }
}

/// A valid output format value, in any ASCII case.
pub open spec fn is_valid_output(v: Seq<char>) -> bool {
    ||| text::eq_icase_spec(v, "table"@)
    ||| text::eq_icase_spec(v, "tsv"@)
    ||| text::eq_icase_spec(v, "json"@)
}

/// A valid search type, in any ASCII case.
pub open spec fn is_valid_search_type_icase(v: Seq<char>) -> bool {
    ||| text::eq_icase_spec(v, "public_channel"@)
    ||| text::eq_icase_spec(v, "private_channel"@)
    ||| text::eq_icase_spec(v, "im"@)
    ||| text::eq_icase_spec(v, "mpim"@)
}

/// A valid search type, written exactly.
pub open spec fn is_valid_search_type_exact(v: Seq<char>) -> bool {
    ||| v == "public_channel"@
    ||| v == "private_channel"@
    ||| v == "im"@
    ||| v == "mpim"@
}

/// An absent output value, or a valid one.
pub open spec fn output_ok(o: Option<String>) -> bool {
    match o {
        Some(v) => is_valid_output(v@),
        None => true,
    }
}

/// Every member of the list is a valid search type.
pub open spec fn all_search_types_valid(v: Seq<String>) -> bool {
    forall|i: int| 0 <= i < v.len() ==> is_valid_search_type_icase((#[trigger] v[i])@)
}

/// An absent search-type list, or one whose members are all valid.
pub open spec fn search_types_ok(ts: Option<Vec<String>>) -> bool {
    match ts {
        Some(v) => all_search_types_valid(v@),
        None => true,
    }
}

/// An absent token_store, or one naming a usable backend: `file` always,
/// `keychain` only where the platform secure store exists.
pub open spec fn token_store_ok(ts: Option<String>, keychain_supported: bool) -> bool {
    match ts {
        Some(v) => (text::eq_icase_spec(v@, "keychain"@) && keychain_supported)
            || text::eq_icase_spec(v@, "file"@),
        None => true,
    }
}

/// A profile section passes validation.
pub open spec fn profile_ok(p: Profile) -> bool {
    output_ok(p.output) && search_types_ok(p.search_types)
}

/// The whole configuration passes validation.
pub open spec fn config_valid(c: ConfigFile, keychain_supported: bool) -> bool {
    &&& output_ok(c.default.output)
    &&& search_types_ok(c.default.search_types)
    &&& token_store_ok(c.default.token_store, keychain_supported)
    &&& forall|i: int| 0 <= i < c.profiles@.len() ==> profile_ok((#[trigger] c.profiles@[i]).1)
}

/// Executable check of `is_valid_output`.
pub fn check_output(v: &str) -> (r: bool)
    ensures
        r == is_valid_output(v@),
{
    text::eq_ignore_ascii_case(v, "table") || text::eq_ignore_ascii_case(v, "tsv")
        || text::eq_ignore_ascii_case(v, "json")
}

/// Executable check of `is_valid_search_type_icase`.
pub fn check_search_type(v: &str) -> (r: bool)
    ensures
        r == is_valid_search_type_icase(v@),
{
    text::eq_ignore_ascii_case(v, "public_channel") || text::eq_ignore_ascii_case(
        v,
        "private_channel",
    ) || text::eq_ignore_ascii_case(v, "im") || text::eq_ignore_ascii_case(v, "mpim")
}

/// The list holds this invalid search-type value.
pub open spec fn invalid_member(ts: Option<Vec<String>>, value: Seq<char>) -> bool {
    match ts {
        Some(v) => !is_valid_search_type_icase(value) && exists|j: int|
            0 <= j < v@.len() && (#[trigger] v@[j])@ == value,
        None => false,
    }
}

/// Validate the output and search-type values of one section; the error
/// names the section and carries the offending value of that section.
pub fn validate_section_values(
    section: &str,
    output: &Option<String>,
    search_types: &Option<Vec<String>>,
) -> (r: Result<(), ConfigError>)
    ensures
        r is Ok <==> (output_ok(*output) && search_types_ok(*search_types)),
        r matches Err(e) ==> match e {
            ConfigError::InvalidOutput { section: sec, value } => sec@ == section@
                && opt_view(*output) == Some(value@) && !is_valid_output(value@),
            ConfigError::InvalidSearchType { section: sec, value } => sec@ == section@
                && invalid_member(*search_types, value@),
            _ => false,
        },
{
    if let Some(v) = output {
        if !check_output(v.as_str()) {
            return Err(
                ConfigError::InvalidOutput {
                    section: String::from_str(section),
                    value: v.clone(),
                },
            );
        }
    }
    if let Some(ts) = search_types {
        let n = ts.len();
        let mut i: usize = 0;
        while i < n
            invariant
                i <= n,
                n == ts@.len(),
                *search_types == Some(*ts),
                forall|j: int| 0 <= j < i ==> is_valid_search_type_icase((#[trigger] ts@[j])@),
            decreases n - i,
        {
            if !check_search_type(ts[i].as_str()) {
                proof {
                    assert(!is_valid_search_type_icase((ts@[i as int])@));
                    assert(!all_search_types_valid(ts@));
                    assert(!search_types_ok(*search_types));
                }
                return Err(
                    ConfigError::InvalidSearchType {
                        section: String::from_str(section),
                        value: ts[i].clone(),
                    },
                );
            }
            i = i + 1;
        }
    }
    Ok(())
}

/// The named section of the configuration holds this invalid output value.
pub open spec fn output_offender(c: ConfigFile, section: Seq<char>, value: Seq<char>) -> bool {
    &&& !is_valid_output(value)
    &&& {
        ||| (section == "default"@ && opt_view(c.default.output) == Some(value))
        ||| exists|i: int|
            0 <= i < c.profiles@.len() && section == "profiles."@ + (#[trigger] c.profiles@[i]).0@
                && opt_view(c.profiles@[i].1.output) == Some(value)
    }
}

/// The named section of the configuration holds this invalid search type.
pub open spec fn search_type_offender(c: ConfigFile, section: Seq<char>, value: Seq<char>) -> bool {
    ||| (section == "default"@ && invalid_member(c.default.search_types, value))
    ||| exists|i: int|
        0 <= i < c.profiles@.len() && section == "profiles."@ + (#[trigger] c.profiles@[i]).0@
            && invalid_member(c.profiles@[i].1.search_types, value)
}

/// Validate the whole configuration: the default section, the token_store
/// value, and every profile section, in that order.  An error names the
/// offending section and carries that section's own invalid value.
pub fn validate_config(config: &ConfigFile, keychain_supported: bool) -> (r: Result<
    (),
    ConfigError,
>)
    ensures
        r is Ok <==> config_valid(*config, keychain_supported),
        r matches Err(e) ==> match e {
            ConfigError::InvalidOutput { section: sec, value } => output_offender(
                *config,
                sec@,
                value@,
            ),
            ConfigError::InvalidSearchType { section: sec, value } => search_type_offender(
                *config,
                sec@,
                value@,
            ),
            ConfigError::InvalidTokenStore { value } => opt_view(config.default.token_store)
                == Some(value@) && !text::eq_icase_spec(value@, "keychain"@)
                && !text::eq_icase_spec(value@, "file"@),
            ConfigError::TokenStoreUnsupported { value } => opt_view(config.default.token_store)
                == Some(value@) && text::eq_icase_spec(value@, "keychain"@) && !keychain_supported,
            _ => false,
        },
{
    match validate_section_values("default", &config.default.output, &config.default.search_types) {
        Ok(_) => {},
        Err(e) => {
            return Err(e);
        },
    }
    if let Some(v) = &config.default.token_store {
        let is_keychain = text::eq_ignore_ascii_case(v.as_str(), "keychain");
        let is_file = text::eq_ignore_ascii_case(v.as_str(), "file");
        if !is_keychain && !is_file {
            return Err(ConfigError::InvalidTokenStore { value: v.clone() });
        }
        if is_keychain && !keychain_supported {
            proof {
                reveal_strlit("keychain");
                reveal_strlit("file");
                assert(!text::eq_icase_spec(v@, "file"@));
                assert(!token_store_ok(config.default.token_store, keychain_supported));
            }
            return Err(ConfigError::TokenStoreUnsupported { value: v.clone() });
        }
    }
    let n = config.profiles.len();
    let mut i: usize = 0;
    while i < n
        invariant
            i <= n,
            n == config.profiles@.len(),
            forall|j: int| 0 <= j < i ==> profile_ok((#[trigger] config.profiles@[j]).1),
            output_ok(config.default.output),
            search_types_ok(config.default.search_types),
            token_store_ok(config.default.token_store, keychain_supported),
        decreases n - i,
    {
        let mut section = String::from_str("profiles.");
        section.append(config.profiles[i].0.as_str());
        match validate_section_values(
            section.as_str(),
            &config.profiles[i].1.output,
            &config.profiles[i].1.search_types,
        ) {
            Ok(_) => {},
            Err(e) => {
                return Err(e);
            },
        }
        i = i + 1;
    }
    Ok(())
}

/// A truthy environment value: `1`, `true` or `yes` in any ASCII case.
pub open spec fn truthy_spec(s: Seq<char>) -> bool {
    ||| text::eq_icase_spec(s, "1"@)
    ||| text::eq_icase_spec(s, "true"@)
    ||| text::eq_icase_spec(s, "yes"@)
}

/// Executable check of `truthy_spec`.
pub fn is_truthy(s: &str) -> (r: bool)
    ensures
        r == truthy_spec(s@),
{
    text::eq_ignore_ascii_case(s, "1") || text::eq_ignore_ascii_case(s, "true")
        || text::eq_ignore_ascii_case(s, "yes")
}

/// A present, non-empty optional string, as a view.
pub open spec fn nonempty_view(v: Option<String>) -> Option<Seq<char>> {
    match v {
        Some(s) => if s@.len() > 0 {
            Some(s@)
        } else {
            None
        },
        None => None,
    }
}

/// A present optional string, as a view.
pub open spec fn opt_view(v: Option<String>) -> Option<Seq<char>> {
    match v {
        Some(s) => Some(s@),
        None => None,
    }
}

/// A later layer's present field overwrites an earlier layer's value;
/// absent fields fall through.
pub open spec fn override_opt<T>(base: Option<T>, upper: Option<T>) -> Option<T> {
    if upper is Some {
        upper
    } else {
        base
    }
}

/// Law: folding the default, profile and environment layers picks the value
/// of the highest-priority layer that defines the field, whatever the three
/// layers hold.
pub proof fn lemma_layer_precedence<T>(d: Option<T>, p: Option<T>, e: Option<T>)
    ensures
        e is Some ==> override_opt(override_opt(d, p), e) == e,
        e is None && p is Some ==> override_opt(override_opt(d, p), e) == p,
        e is None && p is None ==> override_opt(override_opt(d, p), e) == d,
{
}

/// The platform default backend for the credential store.
pub open spec fn default_store_spec(keychain_supported: bool) -> Seq<char> {
    if keychain_supported {
        "keychain"@
    } else {
        "file"@
    }
}

/// The default credential-store backend: the platform secure store where
/// one exists, a permissioned file otherwise.
pub fn default_token_store(keychain_supported: bool) -> (r: String)
    ensures
        r@ == default_store_spec(keychain_supported),
{
    if keychain_supported {
        String::from_str("keychain")
    } else {
        String::from_str("file")
    }
}

/// The credential-store backend the configuration selects: the configured
/// value lower-cased, or the platform default where none is configured.
pub open spec fn token_store_of(c: ConfigFile, keychain_supported: bool) -> Seq<char> {
    match c.default.token_store {
        Some(v) => text::ascii_lower_seq(v@),
        None => default_store_spec(keychain_supported),
    }
}

/// Resolve the credential-store backend from the configuration, falling
/// back to the platform default.  A configured value comes out lower-cased.
pub fn resolve_token_store(config: &ConfigFile, keychain_supported: bool) -> (r: String)
    ensures
        r@ == token_store_of(*config, keychain_supported),
{
    match &config.default.token_store {
        Some(v) => text::ascii_lower(v.as_str()),
        None => default_token_store(keychain_supported),
    }
}

/// What credential resolution yields: the environment override wins; then
/// the configured store's stored credential; `None` when nothing usable is
/// configured.
pub open spec fn resolved_token_view(
    store: Seq<char>,
    env: EnvSnapshot,
    stored: Option<String>,
) -> Option<Seq<char>> {
    match nonempty_view(env.token) {
        Some(t) => Some(t),
        None => if store == "keychain"@ || store == "file"@ {
            nonempty_view(stored)
        } else {
            None
        },
    }
}

/// Resolve the credential: the environment variable wins over the store;
/// an unknown store or a missing credential is an error.
pub fn resolve_token(token_store: &str, env: &EnvSnapshot, stored: Option<String>) -> (r: Result<
    String,
    ConfigError,
>)
    ensures
        match r {
            Ok(t) => t@.len() > 0 && resolved_token_view(token_store@, *env, stored) == Some(t@),
            Err(e) => {
                &&& resolved_token_view(token_store@, *env, stored) is None
                &&& match e {
                    ConfigError::InvalidTokenStore { value } => value@ == token_store@
                        && token_store@ != "keychain"@ && token_store@ != "file"@,
                    ConfigError::CredentialNotConfigured => token_store@ == "keychain"@
                        || token_store@ == "file"@,
                    _ => false,
                }
            },
        },
{
    if let Some(t) = &env.token {
        if t.as_str().unicode_len() > 0 {
            return Ok(t.clone());
        }
    }
    if !(text::eq_str(token_store, "keychain") || text::eq_str(token_store, "file")) {
        return Err(ConfigError::InvalidTokenStore { value: String::from_str(token_store) });
    }
    match stored {
        Some(s) => {
            if s.as_str().unicode_len() > 0 {
                Ok(s)
            } else {
                Err(ConfigError::CredentialNotConfigured)
            }
        },
        None => Err(ConfigError::CredentialNotConfigured),
    }
}

/// Describe where the credential currently comes from: the environment
/// variable, the platform secure store, or the token file at the given
/// location.  `stored_present` says whether the selected store holds one.
pub fn describe_token_source(
    token_store: &str,
    env: &EnvSnapshot,
    stored_present: bool,
    file_location: &String,
) -> (r: Result<(String, String), ConfigError>)
    ensures
        match r {
            Ok(sl) => {
                ||| {
                    &&& nonempty_view(env.token) is Some
                    &&& sl.0@ == "env"@ && sl.1@ == "SLAFLING_TOKEN"@
                }
                ||| {
                    &&& nonempty_view(env.token) is None
                    &&& token_store@ == "keychain"@ && stored_present
                    &&& sl.0@ == "keychain"@ && sl.1@ == "macOS Keychain"@
                }
                ||| {
                    &&& nonempty_view(env.token) is None
                    &&& token_store@ == "file"@ && stored_present
                    &&& sl.0@ == "file"@ && sl.1@ == file_location@
                }
            },
            Err(e) => {
                &&& nonempty_view(env.token) is None
                &&& match e {
                    ConfigError::InvalidTokenStore { value } => value@ == token_store@
                        && token_store@ != "keychain"@ && token_store@ != "file"@,
                    ConfigError::CredentialNotConfigured => (token_store@ == "keychain"@
                        || token_store@ == "file"@) && !stored_present,
                    _ => false,
                }
            },
        },
{
    if let Some(t) = &env.token {
        if t.as_str().unicode_len() > 0 {
            return Ok((String::from_str("env"), String::from_str("SLAFLING_TOKEN")));
        }
    }
    let is_keychain = text::eq_str(token_store, "keychain");
    let is_file = text::eq_str(token_store, "file");
    if !is_keychain && !is_file {
        return Err(ConfigError::InvalidTokenStore { value: String::from_str(token_store) });
    }
    if !stored_present {
        return Err(ConfigError::CredentialNotConfigured);
    }
    if is_keychain {
        proof {
            reveal_strlit("keychain");
            reveal_strlit("file");
        }
        Ok((String::from_str("keychain"), String::from_str("macOS Keychain")))
    } else {
        Ok((String::from_str("file"), file_location.clone()))
    }
}

/// The first profile with the given name, in file order.
pub open spec fn find_profile_spec(ps: Seq<(String, Profile)>, name: Seq<char>) -> Option<Profile>
    decreases ps.len(),
{
    if ps.len() == 0 {
        None
    } else if ps[0].0@ == name {
        Some(ps[0].1)
    } else {
        find_profile_spec(ps.drop_first(), name)
    }
}

/// If the first `i` names differ and the `i`-th matches (or the list ends),
/// the lookup resolves there.
proof fn lemma_find_profile_at(ps: Seq<(String, Profile)>, name: Seq<char>, i: int)
    requires
        0 <= i <= ps.len(),
        forall|j: int| 0 <= j < i ==> (#[trigger] ps[j]).0@ != name,
        i < ps.len() ==> ps[i].0@ == name,
    ensures
        find_profile_spec(ps, name) == if i < ps.len() {
            Some(ps[i].1)
        } else {
            None::<Profile>
        },
    decreases i,
{
    if i == 0 {
    } else {
        lemma_find_profile_at(ps.drop_first(), name, i - 1);
    }
}

/// Look a profile up by name; `None` when no profile carries it.
pub fn find_profile_index(ps: &Vec<(String, Profile)>, name: &String) -> (r: Option<usize>)
    ensures
        match r {
            Some(i) => i < ps@.len() && ps@[i as int].0@ == name@ && find_profile_spec(
                ps@,
                name@,
            ) == Some(ps@[i as int].1),
            None => find_profile_spec(ps@, name@) is None,
        },
{
    let n = ps.len();
    let mut i: usize = 0;
    while i < n
        invariant
            i <= n,
            n == ps@.len(),
            forall|j: int| 0 <= j < i ==> (#[trigger] ps@[j]).0@ != name@,
        decreases n - i,
    {
        if ps[i].0 == *name {
            proof {
                lemma_find_profile_at(ps@, name@, i as int);
            }
            return Some(i);
        }
        i = i + 1;
    }
    proof {
        lemma_find_profile_at(ps@, name@, n as int);
    }
    None
}

/// The channel after folding the three layers.
pub open spec fn layered_channel(c: ConfigFile, p: Option<Profile>, env: EnvSnapshot) -> Option<
    Seq<char>,
> {
    override_opt(
        override_opt(
            opt_view(c.default.channel),
            match p {
                Some(pp) => opt_view(pp.channel),
                None => None,
            },
        ),
        nonempty_view(env.channel),
    )
}

/// The size string after folding the three layers.
pub open spec fn layered_size_str(c: ConfigFile, p: Option<Profile>, env: EnvSnapshot) -> Option<
    Seq<char>,
> {
    override_opt(
        override_opt(
            opt_view(c.default.max_file_size),
            match p {
                Some(pp) => opt_view(pp.max_file_size),
                None => None,
            },
        ),
        nonempty_view(env.max_file_size),
    )
}

/// The confirmation flag after folding the three layers.
pub open spec fn layered_confirm(c: ConfigFile, p: Option<Profile>, env: EnvSnapshot) -> Option<
    bool,
> {
    override_opt(
        override_opt(
            c.default.confirm,
            match p {
                Some(pp) => pp.confirm,
                None => None,
            },
        ),
        match nonempty_view(env.confirm) {
            Some(s) => Some(truthy_spec(s)),
            None => None,
        },
    )
}

/// Resolve the full settings record from the configuration, the selected
/// profile, the environment snapshot, and the credential the selected store
/// holds.  Precedence per field: environment, then profile, then default.
pub fn resolve(
    config: &ConfigFile,
    profile_name: Option<&String>,
    env: &EnvSnapshot,
    stored_token: Option<String>,
    keychain_supported: bool,
) -> (r: Result<ResolvedConfig, ConfigError>)
    ensures
        ({
            let store = token_store_of(*config, keychain_supported);
            let tok = resolved_token_view(store, *env, stored_token);
            let pf = match profile_name {
                Some(n) => find_profile_spec(config.profiles@, n@),
                None => None,
            };
            let ch = layered_channel(*config, pf, *env);
            let sz = layered_size_str(*config, pf, *env);
            let cf = layered_confirm(*config, pf, *env);
            match r {
                Ok(rc) => {
                    &&& tok == Some(rc.token@)
                    &&& profile_name is Some ==> pf is Some
                    &&& ch is Some && ch->0.len() > 0 && rc.channel@ == ch->0
                    &&& match sz {
                        Some(s) => size_spec_of(s) == Some(rc.max_file_size as int),
                        None => rc.max_file_size == DEFAULT_MAX_FILE_SIZE,
                    }
                    &&& rc.confirm == match cf {
                        Some(b) => b,
                        None => false,
                    }
                    &&& rc.wf()
                },
                Err(e) => {
                    ||| {
                        &&& tok is None
                        &&& match e {
                            ConfigError::InvalidTokenStore { value } => value@ == store && store
                                != "keychain"@ && store != "file"@,
                            ConfigError::CredentialNotConfigured => store == "keychain"@ || store
                                == "file"@,
                            _ => false,
                        }
                    }
                    ||| {
                        &&& tok is Some
                        &&& profile_name is Some && pf is None
                        &&& e matches ConfigError::ProfileNotFound { name } && name@
                            == profile_name->0@
                    }
                    ||| {
                        &&& tok is Some
                        &&& (profile_name is Some ==> pf is Some)
                        &&& (ch is None || ch->0.len() == 0)
                        &&& e == ConfigError::DestinationNotConfigured
                    }
                    ||| {
                        &&& tok is Some
                        &&& (profile_name is Some ==> pf is Some)
                        &&& ch is Some && ch->0.len() > 0
                        &&& sz is Some && size_spec_of(sz->0) is None
                        &&& size_error_matches(sz->0, e)
                    }
                },
            }
        }),
{
    let store = resolve_token_store(config, keychain_supported);
    let token = match resolve_token(store.as_str(), env, stored_token) {
        Ok(t) => t,
        Err(e) => {
            return Err(e);
        },
    };

    let prof: Option<&Profile> = match profile_name {
        Some(name) => match find_profile_index(&config.profiles, name) {
            Some(i) => Some(&config.profiles[i].1),
            None => {
                return Err(ConfigError::ProfileNotFound { name: name.clone() });
            },
        },
        None => None,
    };
    let ghost pf = match profile_name {
        Some(n) => find_profile_spec(config.profiles@, n@),
        None => None,
    };

    // Channel: default, then profile, then environment.
    let mut channel_opt: Option<String> = match &config.default.channel {
        Some(c) => Some(c.clone()),
        None => None,
    };
    if let Some(p) = prof {
        if let Some(c) = &p.channel {
            channel_opt = Some(c.clone());
        }
    }
    if let Some(c) = &env.channel {
        if c.as_str().unicode_len() > 0 {
            channel_opt = Some(c.clone());
        }
    }
    assert(opt_view(channel_opt) == layered_channel(*config, pf, *env));
    let channel = match channel_opt {
        Some(c) => {
            if c.as_str().unicode_len() > 0 {
                c
            } else {
                return Err(ConfigError::DestinationNotConfigured);
            }
        },
        None => {
            return Err(ConfigError::DestinationNotConfigured);
        },
    };

    // Size ceiling: same layering, then parsed.
    let mut size_opt: Option<String> = match &config.default.max_file_size {
        Some(s) => Some(s.clone()),
        None => None,
    };
    if let Some(p) = prof {
        if let Some(s) = &p.max_file_size {
            size_opt = Some(s.clone());
        }
    }
    if let Some(s) = &env.max_file_size {
        if s.as_str().unicode_len() > 0 {
            size_opt = Some(s.clone());
        }
    }
    assert(opt_view(size_opt) == layered_size_str(*config, pf, *env));
    let max_file_size = match size_opt {
        Some(s) => match parse_file_size(s.as_str()) {
            Ok(v) => v,
            Err(e) => {
                return Err(e);
            },
        },
        None => DEFAULT_MAX_FILE_SIZE,
    };

    // Confirmation flag: same layering, defaulting to off.
    let mut confirm_opt: Option<bool> = config.default.confirm;
    if let Some(p) = prof {
        if let Some(b) = p.confirm {
            confirm_opt = Some(b);
        }
    }
    if let Some(s) = &env.confirm {
        if s.as_str().unicode_len() > 0 {
            confirm_opt = Some(is_truthy(s.as_str()));
        }
    }
    assert(confirm_opt == layered_confirm(*config, pf, *env));
    let confirm = match confirm_opt {
        Some(b) => b,
        None => false,
    };

    Ok(ResolvedConfig { token, channel, max_file_size, confirm })
}

/// Executable check of `is_valid_search_type_exact`.
pub fn check_search_type_exact(v: &str) -> (r: bool)
    ensures
        r == is_valid_search_type_exact(v@),
{
    text::eq_str(v, "public_channel") || text::eq_str(v, "private_channel") || text::eq_str(
        v,
        "im",
    ) || text::eq_str(v, "mpim")
}

/// Validate a comma-separated search-types string: every piece, once
/// trimmed, must be a valid search type written exactly.
pub fn validate_search_types_str(s: &str) -> (r: Result<(), ConfigError>)
    ensures
        r is Ok <==> (forall|i: int|
            0 <= i < text::split_commas_spec(s@).len() ==> is_valid_search_type_exact(
                text::trim_spec(#[trigger] text::split_commas_spec(s@)[i]),
            )),
        r matches Err(e) ==> e matches ConfigError::InvalidSearchTypeValue { value }
            && !is_valid_search_type_exact(value@) && exists|i: int|
            0 <= i < text::split_commas_spec(s@).len() && value@ == text::trim_spec(
                #[trigger] text::split_commas_spec(s@)[i],
            ),
{
    let pieces = text::split_commas(s);
    let n = pieces.len();
    let mut i: usize = 0;
    while i < n
        invariant
            i <= n,
            n == pieces@.len(),
            pieces.deep_view() == text::split_commas_spec(s@),
            pieces.deep_view().len() == pieces@.len(),
            forall|k: int| 0 <= k < pieces@.len() ==> pieces.deep_view()[k] == #[trigger] pieces@[k]@,
            forall|k: int| 0 <= k < i ==> is_valid_search_type_exact(
                text::trim_spec(#[trigger] pieces.deep_view()[k]),
            ),
        decreases n - i,
    {
        let t = text::trim(pieces[i].as_str());
        if !check_search_type_exact(t.as_str()) {
            proof {
                assert(!is_valid_search_type_exact(
                    text::trim_spec(text::split_commas_spec(s@)[i as int]),
                ));
            }
            return Err(ConfigError::InvalidSearchTypeValue { value: t });
        }
        i = i + 1;
    }
    Ok(())
}

/// The search-type list after folding default and profile layers.
pub open spec fn layered_types(c: ConfigFile, p: Option<Profile>) -> Option<Vec<String>> {
    override_opt(
        c.default.search_types,
        match p {
            Some(pp) => pp.search_types,
            None => None,
        },
    )
}

/// Resolve the search types: a non-empty environment override wins; then
/// the profile's list; then the default's; each list joined with commas.
pub fn resolve_search_types(
    config: &ConfigFile,
    profile_name: Option<&String>,
    env: &EnvSnapshot,
) -> (r: Option<String>)
    ensures
        ({
            let pf = match profile_name {
                Some(n) => find_profile_spec(config.profiles@, n@),
                None => None,
            };
            match nonempty_view(env.search_types) {
                Some(sv) => r matches Some(x) && x@ == sv,
                None => match layered_types(*config, pf) {
                    Some(v) => r matches Some(x) && x@ == text::join_commas_spec(v.deep_view()),
                    None => r is None,
                },
            }
        }),
{
    if let Some(sv) = &env.search_types {
        if sv.as_str().unicode_len() > 0 {
            return Some(sv.clone());
        }
    }
    let prof: Option<&Profile> = match profile_name {
        Some(name) => match find_profile_index(&config.profiles, name) {
            Some(i) => Some(&config.profiles[i].1),
            None => None,
        },
        None => None,
    };
    let mut types: &Option<Vec<String>> = &config.default.search_types;
    if let Some(p) = prof {
        if p.search_types.is_some() {
            types = &p.search_types;
        }
    }
    match types {
        Some(v) => Some(text::join_commas(v)),
        None => None,
    }
}

/// Resolve the output format string: the environment variable wins even
/// when empty; then the profile's value; then the default's.
pub fn resolve_output(config: &ConfigFile, profile_name: Option<&String>, env: &EnvSnapshot) -> (r:
    Option<String>)
    ensures
        ({
            let pf = match profile_name {
                Some(n) => find_profile_spec(config.profiles@, n@),
                None => None,
            };
            match env.output {
                Some(v) => r matches Some(x) && x@ == v@,
                None => r == override_opt(
                    config.default.output,
                    match pf {
                        Some(pp) => pp.output,
                        None => None,
                    },
                ),
            }
        }),
{
    if let Some(v) = &env.output {
        return Some(v.clone());
    }
    let prof: Option<&Profile> = match profile_name {
        Some(name) => match find_profile_index(&config.profiles, name) {
            Some(i) => Some(&config.profiles[i].1),
            None => None,
        },
        None => None,
    };
    let mut output: &Option<String> = &config.default.output;
    if let Some(p) = prof {
        if p.output.is_some() {
            output = &p.output;
        }
    }
    match output {
        Some(v) => Some(v.clone()),
        None => None,
    }
}

/// Is headless resolution switched on by the environment?
pub fn is_headless_env(env: &EnvSnapshot) -> (r: bool)
    ensures
        r == match env.headless {
            Some(v) => truthy_spec(v@),
            None => false,
        },
{
    match &env.headless {
        Some(v) => is_truthy(v.as_str()),
        None => false,
    }
}

/// Resolve the credential from the environment alone.
pub fn resolve_token_from_env(env: &EnvSnapshot) -> (r: Result<String, ConfigError>)
    ensures
        match r {
            Ok(t) => nonempty_view(env.token) == Some(t@),
            Err(e) => nonempty_view(env.token) is None && e
                == ConfigError::HeadlessTokenMissing,
        },
{
    if let Some(t) = &env.token {
        if t.as_str().unicode_len() > 0 {
            return Ok(t.clone());
        }
    }
    Err(ConfigError::HeadlessTokenMissing)
}

/// Resolve the search types from the environment alone.
pub fn resolve_search_types_from_env(env: &EnvSnapshot) -> (r: Option<String>)
    ensures
        match r {
            Some(s) => nonempty_view(env.search_types) == Some(s@),
            None => nonempty_view(env.search_types) is None,
        },
{
    if let Some(s) = &env.search_types {
        if s.as_str().unicode_len() > 0 {
            return Some(s.clone());
        }
    }
    None
}

/// Resolve every settings field from the environment alone: missing
/// credential or destination is an immediate error; size and confirmation
/// fall back to their defaults.
pub fn resolve_from_env(env: &EnvSnapshot) -> (r: Result<ResolvedConfig, ConfigError>)
    ensures
        ({
            let tok = nonempty_view(env.token);
            let ch = nonempty_view(env.channel);
            let sz = nonempty_view(env.max_file_size);
            match r {
                Ok(rc) => {
                    &&& tok == Some(rc.token@)
                    &&& ch == Some(rc.channel@)
                    &&& match sz {
                        Some(s) => size_spec_of(s) == Some(rc.max_file_size as int),
                        None => rc.max_file_size == DEFAULT_MAX_FILE_SIZE,
                    }
                    &&& rc.confirm == match nonempty_view(env.confirm) {
                        Some(c) => truthy_spec(c),
                        None => false,
                    }
                    &&& rc.wf()
                },
                Err(e) => {
                    ||| (tok is None && e == ConfigError::HeadlessTokenMissing)
                    ||| (tok is Some && ch is None && e == ConfigError::HeadlessChannelMissing)
                    ||| {
                        &&& tok is Some && ch is Some
                        &&& sz is Some && size_spec_of(sz->0) is None
                        &&& size_error_matches(sz->0, e)
                    }
                },
            }
        }),
{
    let token = match resolve_token_from_env(env) {
        Ok(t) => t,
        Err(e) => {
            return Err(e);
        },
    };
    let channel = match &env.channel {
        Some(c) => {
            if c.as_str().unicode_len() > 0 {
                c.clone()
            } else {
                return Err(ConfigError::HeadlessChannelMissing);
            }
        },
        None => {
            return Err(ConfigError::HeadlessChannelMissing);
        },
    };
    let mut max_file_size = DEFAULT_MAX_FILE_SIZE;
    if let Some(s) = &env.max_file_size {
        if s.as_str().unicode_len() > 0 {
            max_file_size = match parse_file_size(s.as_str()) {
                Ok(v) => v,
                Err(e) => {
                    return Err(e);
                },
            };
        }
    }
    let mut confirm = false;
    if let Some(c) = &env.confirm {
        if c.as_str().unicode_len() > 0 {
            confirm = is_truthy(c.as_str());
        }
    }
    Ok(ResolvedConfig { token, channel, max_file_size, confirm })
}

/// A fresh configuration file body with the given credential-store value in
/// the commented token_store line.
fn init_config_with_store(store: &str) -> (r: String)
    ensures
        r@
            == "# slafling configuration\n\n[default]\n\n# Default channel to send to\n# channel = \"#general\"\n\n# Largest payload to upload\n# max_file_size = \"100MB\"\n\n# Ask before sending\n# confirm = false\n\n# Output format for search: table, tsv, or json\n# output = \"table\"\n\n# Channel types to search\n# search_types = [\"public_channel\"]\n\n# Where the token is stored: keychain or file\n# token_store = \""@
            + store@
            + "\"\n\n# Example profile overriding the default section\n# [profiles.work]\n# channel = \"#work\"\n"@,
{
    let mut r = String::from_str(
        "# slafling configuration\n\n[default]\n\n# Default channel to send to\n# channel = \"#general\"\n\n# Largest payload to upload\n# max_file_size = \"100MB\"\n\n# Ask before sending\n# confirm = false\n\n# Output format for search: table, tsv, or json\n# output = \"table\"\n\n# Channel types to search\n# search_types = [\"public_channel\"]\n\n# Where the token is stored: keychain or file\n# token_store = \"",
    );
    r.append(store);
    r.append(
        "\"\n\n# Example profile overriding the default section\n# [profiles.work]\n# channel = \"#work\"\n",
    );
    r
}

/// The configuration template as shipped, with the secure store named in
/// the commented token_store line.
pub fn config_template() -> (r: String)
    ensures
        r@
            == "# slafling configuration\n\n[default]\n\n# Default channel to send to\n# channel = \"#general\"\n\n# Largest payload to upload\n# max_file_size = \"100MB\"\n\n# Ask before sending\n# confirm = false\n\n# Output format for search: table, tsv, or json\n# output = \"table\"\n\n# Channel types to search\n# search_types = [\"public_channel\"]\n\n# Where the token is stored: keychain or file\n# token_store = \""@
            + "keychain"@
            + "\"\n\n# Example profile overriding the default section\n# [profiles.work]\n# channel = \"#work\"\n"@,
{
    init_config_with_store("keychain")
}

/// A fresh configuration file body, naming the platform's default
/// credential store in the commented token_store line.
pub fn generate_init_config(keychain_supported: bool) -> (r: String)
    ensures
        r@
            == "# slafling configuration\n\n[default]\n\n# Default channel to send to\n# channel = \"#general\"\n\n# Largest payload to upload\n# max_file_size = \"100MB\"\n\n# Ask before sending\n# confirm = false\n\n# Output format for search: table, tsv, or json\n# output = \"table\"\n\n# Channel types to search\n# search_types = [\"public_channel\"]\n\n# Where the token is stored: keychain or file\n# token_store = \""@
            + default_store_spec(keychain_supported)
            + "\"\n\n# Example profile overriding the default section\n# [profiles.work]\n# channel = \"#work\"\n"@,
{
    let store = default_token_store(keychain_supported);
    init_config_with_store(store.as_str())
}

/// The configuration file's path under the given home directory.
pub fn config_path(home: &str) -> (r: String)
    ensures
        r@ == home@ + "/.config/slafling/config.toml"@,
{
    let mut r = String::from_str(home);
    r.append("/.config/slafling/config.toml");
    r
}

} // verus!
