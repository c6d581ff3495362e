//! Arithmetic on IEEE-754 binary64 numbers, carried as their 64-bit
//! encodings.  Equality, ordering and negation are bit-level functions of
//! the encoding and are implemented and verified here directly.  Rounding
//! arithmetic, decimal parsing and decimal formatting are performed by the
//! `rustc_apfloat` software implementation of IEEE-754 behind trusted
//! wrappers; each result is a function of the argument bits alone.
use vstd::prelude::*;
use rustc_apfloat::Float;
use crate::text::{ascii_bytes, str_byte_vec};

verus! {

/// The sign bit of a binary64 encoding.
pub open spec fn f64_sign_bit() -> u64 {
    0x8000_0000_0000_0000
}

/// A binary64 encoding denotes NaN when the exponent field is all ones and
/// the significand field is not zero.
pub open spec fn f64_is_nan(bits: u64) -> bool {
    (bits & 0x7FF0_0000_0000_0000) == 0x7FF0_0000_0000_0000
        && (bits & 0x000F_FFFF_FFFF_FFFF) != 0
}

/// A binary64 encoding denotes an infinity when the exponent field is
/// all ones and the significand field is zero.
pub open spec fn f64_is_inf(bits: u64) -> bool {
    (bits & 0x7FFF_FFFF_FFFF_FFFF) == 0x7FF0_0000_0000_0000
}

/// A binary64 encoding denotes a zero (of either sign) when all bits but
/// the sign bit are clear.
pub open spec fn f64_is_zero(bits: u64) -> bool {
    (bits & 0x7FFF_FFFF_FFFF_FFFF) == 0
}

/// IEEE-754 equality of two binary64 numbers: NaN equals nothing, the two
/// zeroes are equal, and otherwise equal numbers have equal encodings.
pub open spec fn f64_eq(a: u64, b: u64) -> bool {
    !f64_is_nan(a) && !f64_is_nan(b) && (a == b || (f64_is_zero(a) && f64_is_zero(b)))
}

/// The encodings of non-NaN binary64 numbers, mapped so that the map is
/// monotone in the numeric order: negative numbers (sign bit set) have all
/// bits flipped, others have the sign bit set.  This is the standard
/// total-order key for IEEE-754 bit patterns.
pub open spec fn f64_order_key(bits: u64) -> u64 {
    if bits & f64_sign_bit() != 0 {
        !bits
    } else {
        bits | 0x8000_0000_0000_0000
    }
}

/// IEEE-754 `<` on two binary64 numbers: false when either is NaN or both
/// are zeroes, and otherwise the order of the keys.
pub open spec fn f64_lt(a: u64, b: u64) -> bool {
    !f64_is_nan(a) && !f64_is_nan(b) && !(f64_is_zero(a) && f64_is_zero(b))
        && f64_order_key(a) < f64_order_key(b)
}

/// IEEE-754 negation flips the sign bit of the encoding and changes
/// nothing else.
pub open spec fn f64_neg(bits: u64) -> u64 {
    bits ^ 0x8000_0000_0000_0000
}

pub fn number_is_nan(bits: u64) -> (r: bool)
    ensures
        r == f64_is_nan(bits),
{
    (bits & 0x7FF0_0000_0000_0000) == 0x7FF0_0000_0000_0000
        && (bits & 0x000F_FFFF_FFFF_FFFF) != 0
}

pub fn number_is_inf(bits: u64) -> (r: bool)
    ensures
        r == f64_is_inf(bits),
{
    (bits & 0x7FFF_FFFF_FFFF_FFFF) == 0x7FF0_0000_0000_0000
}

pub fn number_is_zero(bits: u64) -> (r: bool)
    ensures
        r == f64_is_zero(bits),
{
    (bits & 0x7FFF_FFFF_FFFF_FFFF) == 0
}

/// IEEE-754 equality on encodings.
pub fn number_eq(a: u64, b: u64) -> (r: bool)
    ensures
        r == f64_eq(a, b),
{
    !number_is_nan(a) && !number_is_nan(b)
        && (a == b || (number_is_zero(a) && number_is_zero(b)))
}

fn order_key(bits: u64) -> (r: u64)
    ensures
        r == f64_order_key(bits),
{
    if bits & 0x8000_0000_0000_0000 != 0 {
        !bits
    } else {
        bits | 0x8000_0000_0000_0000
    }
}

/// IEEE-754 `<` on encodings.
pub fn number_lt(a: u64, b: u64) -> (r: bool)
    ensures
        r == f64_lt(a, b),
{
    !number_is_nan(a) && !number_is_nan(b) && !(number_is_zero(a) && number_is_zero(b))
        && order_key(a) < order_key(b)
}

/// IEEE-754 negation on encodings.
pub fn number_neg(bits: u64) -> (r: u64)
    ensures
        r == f64_neg(bits),
{
    bits ^ 0x8000_0000_0000_0000
}

/// The binary64 sum of two binary64 numbers, rounded to nearest, ties to
/// even, as computed by `rustc_apfloat`.
pub uninterp spec fn f64_add(a: u64, b: u64) -> u64;

/// The binary64 difference, rounded to nearest, ties to even.
pub uninterp spec fn f64_sub(a: u64, b: u64) -> u64;

/// The binary64 product, rounded to nearest, ties to even.
pub uninterp spec fn f64_mul(a: u64, b: u64) -> u64;

/// The binary64 quotient, rounded to nearest, ties to even.
pub uninterp spec fn f64_div(a: u64, b: u64) -> u64;

/// The binary64 number a decimal byte string denotes, rounded to nearest,
/// ties to even; `None` when the bytes are not a decimal number.
pub uninterp spec fn f64_of_decimal(s: Seq<u8>) -> Option<u64>;

/// The decimal text of a binary64 number as `rustc_apfloat` prints it
/// with a wide zero-padding threshold: enough significant digits to read
/// the encoding back exactly (not necessarily the fewest), in plain
/// notation except that a magnitude whose integer part outgrows the
/// seventeen-digit significand (at least 1e17) prints as `d.dddE+nn`;
/// the renderer below expands that form back to plain digits.
pub uninterp spec fn f64_text(bits: u64) -> Seq<u8>;

/// The ASCII digits `0` through `9`.
pub open spec fn is_digit_byte(b: u8) -> bool {
    0x30 <= b <= 0x39
}

pub open spec fn all_digit_bytes(s: Seq<u8>) -> bool {
    forall|i: int| 0 <= i < s.len() ==> is_digit_byte(#[trigger] s[i])
}

/// The shape of a number token: one or more digits, optionally followed by
/// a point and one or more digits.
pub open spec fn is_number_lexeme(s: Seq<u8>) -> bool {
    s.len() > 0 && (all_digit_bytes(s) || exists|k: int|
        0 < k < s.len() - 1 && #[trigger] s[k] == 0x2E && all_digit_bytes(s.subrange(0, k))
            && all_digit_bytes(s.subrange(k + 1, s.len() as int)))
}

/// Relies on `rustc_apfloat`'s `add_r` for binary64 with round to nearest,
/// ties to even: the sum depends on the two encodings alone.
#[verifier::external_body]
pub fn number_add(a: u64, b: u64) -> (r: u64)
    ensures
        r == f64_add(a, b),
{
    let x = rustc_apfloat::ieee::Double::from_bits(a as u128);
    let y = rustc_apfloat::ieee::Double::from_bits(b as u128);
    (x + y).value.to_bits() as u64
}

/// Relies on `rustc_apfloat`'s `sub_r` for binary64 with round to nearest,
/// ties to even: the difference depends on the two encodings alone.
#[verifier::external_body]
pub fn number_sub(a: u64, b: u64) -> (r: u64)
    ensures
        r == f64_sub(a, b),
{
    let x = rustc_apfloat::ieee::Double::from_bits(a as u128);
    let y = rustc_apfloat::ieee::Double::from_bits(b as u128);
    (x - y).value.to_bits() as u64
}

/// Relies on `rustc_apfloat`'s `mul_r` for binary64 with round to nearest,
/// ties to even: the product depends on the two encodings alone.
#[verifier::external_body]
pub fn number_mul(a: u64, b: u64) -> (r: u64)
    ensures
        r == f64_mul(a, b),
{
    let x = rustc_apfloat::ieee::Double::from_bits(a as u128);
    let y = rustc_apfloat::ieee::Double::from_bits(b as u128);
    (x * y).value.to_bits() as u64
}

/// Relies on `rustc_apfloat`'s `div_r` for binary64 with round to nearest,
/// ties to even: the quotient depends on the two encodings alone.
#[verifier::external_body]
pub fn number_div(a: u64, b: u64) -> (r: u64)
    ensures
        r == f64_div(a, b),
{
    let x = rustc_apfloat::ieee::Double::from_bits(a as u128);
    let y = rustc_apfloat::ieee::Double::from_bits(b as u128);
    (x / y).value.to_bits() as u64
}

/// Relies on `rustc_apfloat`'s `from_str_r` for binary64: the parse
/// depends on the bytes alone, and a string of digits, optionally with a
/// point between digits, parses successfully.  A digit-shaped input takes
/// the decimal branch, which only saturates and truncates; any other
/// input may reach the hexadecimal branch, whose exponent-offset
/// conversion would overflow on an input of 2^31 bytes or more, so such
/// inputs are admitted only below that length.
#[verifier::external_body]
pub fn number_of_decimal(s: &[u8]) -> (r: Option<u64>)
    requires
        is_number_lexeme(s@) || s@.len() < 0x8000_0000,
    ensures
        r == f64_of_decimal(s@),
        is_number_lexeme(s@) ==> r is Some,
{
    match core::str::from_utf8(s) {
        Err(_) => None,
        Ok(text) => match text.parse::<rustc_apfloat::ieee::Double>() {
            Err(_) => None,
            Ok(d) => Some(d.to_bits() as u64),
        },
    }
}

/// Relies on `rustc_apfloat`'s `Display` for binary64: the decimal text
/// depends on the encoding alone.  The format width is only the number
/// of zeros the formatter will pad before falling back to exponent
/// notation; 700 covers every small-magnitude double, so exponent
/// notation remains only for integer parts beyond the seventeen-digit
/// significand (`d.dddE+nn`, expanded by the renderer).  The length is a
/// sign, at most 17 significant digits, a point, at most 700 padded
/// zeros and an exponent, so 2048 bounds it.
#[verifier::external_body]
pub fn number_text(bits: u64) -> (r: Vec<u8>)
    ensures
        r@ == f64_text(bits),
        r@.len() <= 2048,
{
    let value = rustc_apfloat::ieee::Double::from_bits(bits as u128);
    format!("{:700}", value).into_bytes()
}

/// The decimal digits with the last one incremented, carrying through
/// nines and the decimal point; a carry out of the leading digit
/// prepends a one, behind a leading minus sign if there is one.
pub open spec fn spec_increment_digits(s: Seq<u8>) -> Seq<u8>
    decreases s.len(),
{
    if s.len() == 0 {
        seq![0x31u8]
    } else if s.last() == 0x39 {
        spec_increment_digits(s.drop_last()).push(0x30)
    } else if s.last() == 0x2E {
        spec_increment_digits(s.drop_last()).push(0x2E)
    } else if s.last() == 0x2D {
        s.push(0x31)
    } else {
        s.drop_last().push((s.last() + 1) as u8)
    }
}

fn increment_digits(s: &[u8]) -> (r: Vec<u8>)
    ensures
        r@ == spec_increment_digits(s@),
    decreases s@.len(),
{
    let n = s.len();
    if n == 0 {
        let mut one: Vec<u8> = Vec::new();
        one.push(0x31);
        proof {
            assert(one@ =~= spec_increment_digits(s@));
        }
        one
    } else {
        let last = s[n - 1];
        let rest = vstd::slice::slice_subrange(s, 0, n - 1);
        proof {
            assert(rest@ =~= s@.drop_last());
        }
        if last == 0x39 {
            let mut r = increment_digits(rest);
            r.push(0x30);
            r
        } else if last == 0x2E {
            let mut r = increment_digits(rest);
            r.push(0x2E);
            r
        } else if last == 0x2D {
            let mut r = vstd::slice::slice_to_vec(s);
            r.push(0x31);
            r
        } else {
            let mut r = vstd::slice::slice_to_vec(rest);
            let next: u8 = #[verifier::truncate] ((last as u16 + 1) as u8);
            r.push(next);
            r
        }
    }
}

proof fn lemma_increment_digits_len(s: Seq<u8>)
    ensures
        spec_increment_digits(s).len() <= s.len() + 1,
    decreases s.len(),
{
    if s.len() > 0 && (s.last() == 0x39 || s.last() == 0x2E) {
        lemma_increment_digits_len(s.drop_last());
    }
}

/// The position of the first occurrence of a byte at or after `i`.
pub open spec fn spec_byte_position(t: Seq<u8>, b: u8, i: int) -> Option<int>
    decreases t.len() - i,
{
    if !(0 <= i < t.len()) {
        None
    } else if t[i] == b {
        Some(i)
    } else {
        spec_byte_position(t, b, i + 1)
    }
}

/// The position of the first decimal point, if any.
pub open spec fn spec_dot_position(t: Seq<u8>, i: int) -> Option<int> {
    spec_byte_position(t, 0x2E, i)
}

fn find_byte(t: &[u8], b: u8) -> (r: Option<usize>)
    ensures
        r matches Some(d) ==> 0 <= d < t@.len() && spec_byte_position(t@, b, 0) == Some(d as int),
        r is None ==> spec_byte_position(t@, b, 0) is None,
{
    let mut i: usize = 0;
    while i < t.len()
        invariant
            i <= t@.len(),
            spec_byte_position(t@, b, 0) == spec_byte_position(t@, b, i as int),
        decreases t@.len() - i,
    {
        if t[i] == b {
            return Some(i);
        }
        i = i + 1;
    }
    None
}

fn find_dot(t: &[u8]) -> (r: Option<usize>)
    ensures
        r matches Some(d) ==> 0 <= d < t@.len() && spec_dot_position(t@, 0) == Some(d as int),
        r is None ==> spec_dot_position(t@, 0) is None,
{
    find_byte(t, 0x2E)
}

/// The number a string of decimal digits denotes.
pub open spec fn spec_digit_seq_value(s: Seq<u8>) -> int
    decreases s.len(),
{
    if s.len() == 0 {
        0
    } else {
        10 * spec_digit_seq_value(s.drop_last()) + (s.last() - 0x30)
    }
}

/// `n` zero digits.
pub open spec fn zero_bytes(n: int) -> Seq<u8>
    decreases n,
{
    if n <= 0 {
        Seq::empty()
    } else {
        zero_bytes(n - 1).push(0x30)
    }
}

proof fn lemma_digit_seq_value_bounds(s: Seq<u8>)
    requires
        all_digit_bytes(s),
    ensures
        0 <= spec_digit_seq_value(s),
        s.len() <= 1 ==> spec_digit_seq_value(s) <= 9,
        s.len() <= 2 ==> spec_digit_seq_value(s) <= 99,
        s.len() <= 3 ==> spec_digit_seq_value(s) <= 999,
        s.len() <= 4 ==> spec_digit_seq_value(s) <= 9999,
    decreases s.len(),
{
    if s.len() > 0 {
        assert(forall|i: int|
            0 <= i < s.drop_last().len() ==> is_digit_byte(#[trigger] s.drop_last()[i]));
        lemma_digit_seq_value_bounds(s.drop_last());
    }
}

proof fn lemma_zero_bytes_len(n: int)
    ensures
        zero_bytes(n).len() == if n <= 0 {
            0int
        } else {
            n
        },
    decreases n,
{
    if n > 0 {
        lemma_zero_bytes_len(n - 1);
    }
}

/// The exponent form `d.dddE+nn` written out in plain digits: the
/// mantissa's digits followed by the zeros the exponent calls for.  Text
/// of any other shape — no exponent, a negative or oversized exponent,
/// or an exponent smaller than the fraction — is returned unchanged.
pub open spec fn spec_expand_scientific(t: Seq<u8>) -> Seq<u8> {
    match spec_byte_position(t, 0x45, 0) {
        None => t,
        Some(e) => match spec_byte_position(t, 0x2E, 0) {
            None => t,
            Some(d) => if !(d < e && e + 2 < t.len() && t[e + 1] == 0x2B && t.len() - (e + 2) <= 4
                && all_digit_bytes(t.subrange(e + 2, t.len() as int))) {
                t
            } else {
                let exp = spec_digit_seq_value(t.subrange(e + 2, t.len() as int));
                let frac = e - d - 1;
                if exp < frac {
                    t
                } else {
                    t.subrange(0, d) + t.subrange(d + 1, e) + zero_bytes(exp - frac)
                }
            },
        },
    }
}

/// Write an exponent-form text out in plain digits.
fn expand_scientific(t: Vec<u8>) -> (r: Vec<u8>)
    ensures
        r@ == spec_expand_scientific(t@),
        r@.len() <= t@.len() + 9999,
{
    proof {
        lemma_zero_bytes_len(0);
    }
    let e = match find_byte(t.as_slice(), 0x45) {
        None => {
            return t;
        },
        Some(e) => e,
    };
    let d = match find_byte(t.as_slice(), 0x2E) {
        None => {
            return t;
        },
        Some(d) => d,
    };
    if !(d < e && t.len() - e > 2 && t[e + 1] == 0x2B && t.len() - (e + 2) <= 4) {
        return t;
    }
    let mut exp: usize = 0;
    let mut i: usize = e + 2;
    while i < t.len()
        invariant
            e + 2 <= i <= t@.len(),
            t@.len() - (e + 2) <= 4,
            spec_byte_position(t@, 0x45, 0) == Some(e as int),
            spec_byte_position(t@, 0x2E, 0) == Some(d as int),
            d < e < t@.len(),
            t@[e + 1] == 0x2B,
            exp == spec_digit_seq_value(t@.subrange(e + 2, i as int)),
            exp <= 9999,
            all_digit_bytes(t@.subrange(e + 2, i as int)),
        decreases t@.len() - i,
    {
        let b = t[i];
        if !(0x30 <= b && b <= 0x39) {
            proof {
                assert(!is_digit_byte(t@.subrange(e + 2, t@.len() as int)[i - (e + 2)]));
            }
            return t;
        }
        proof {
            assert(t@.subrange(e + 2, i + 1).drop_last() =~= t@.subrange(e + 2, i as int));
        }
        exp = exp * 10 + ((b - 0x30) as usize);
        i = i + 1;
        proof {
            lemma_digit_seq_value_bounds(t@.subrange(e + 2, i as int));
        }
    }
    proof {
        assert(t@.subrange(e + 2, t@.len() as int) == t@.subrange(e + 2, i as int));
    }
    let frac = e - d - 1;
    if exp < frac {
        return t;
    }
    let mut out = vstd::slice::slice_to_vec(vstd::slice::slice_subrange(t.as_slice(), 0, d));
    crate::text::append_bytes(&mut out, vstd::slice::slice_subrange(t.as_slice(), d + 1, e));
    let zeros = exp - frac;
    let mut z: usize = 0;
    while z < zeros
        invariant
            z <= zeros,
            spec_byte_position(t@, 0x45, 0) == Some(e as int),
            spec_byte_position(t@, 0x2E, 0) == Some(d as int),
            d < e < t@.len(),
            e + 2 < t@.len(),
            t@.len() - (e + 2) <= 4,
            t@[e + 1] == 0x2B,
            all_digit_bytes(t@.subrange(e + 2, t@.len() as int)),
            exp == spec_digit_seq_value(t@.subrange(e + 2, t@.len() as int)),
            exp <= 9999,
            frac == e - d - 1,
            zeros == exp - frac,
            exp >= frac,
            out@ == t@.subrange(0, d as int) + t@.subrange(d as int + 1, e as int) + zero_bytes(
                z as int,
            ),
        decreases zeros - z,
    {
        out.push(0x30);
        proof {
            assert(out@ =~= t@.subrange(0, d as int) + t@.subrange(d as int + 1, e as int)
                + zero_bytes(z + 1));
        }
        z = z + 1;
    }
    proof {
        lemma_zero_bytes_len(zeros as int);
    }
    out
}

/// The shortest of the candidate texts from `k` fraction digits up that
/// reads back to the same encoding: at each length, the truncation, then
/// the truncation with its last digit rounded up; if none reads back,
/// the full text.
pub open spec fn spec_short_decimal_from(t: Seq<u8>, bits: u64, dot: int, k: int) -> Seq<u8>
    decreases t.len() - dot - 1 - k,
{
    if !(0 <= dot && 1 <= k && dot + 1 + k <= t.len()) {
        t
    } else {
        let trunc = t.subrange(0, dot + 1 + k);
        let rounded = spec_increment_digits(trunc);
        if f64_of_decimal(trunc) == Some(bits) {
            trunc
        } else if f64_of_decimal(rounded) == Some(bits) {
            rounded
        } else if dot + 1 + k == t.len() {
            t
        } else {
            spec_short_decimal_from(t, bits, dot, k + 1)
        }
    }
}

/// The printed text of a number: `NaN` and signed infinity by name, and
/// otherwise the formatter's digits, any exponent form written out in
/// plain digits, with trailing fraction digits dropped — rounding the
/// last kept digit up where that is what reads back — as long as the
/// shorter text still reads back to the same encoding.
pub open spec fn spec_number_render(bits: u64) -> Seq<u8> {
    if f64_is_nan(bits) {
        ascii_bytes("NaN"@)
    } else if f64_is_inf(bits) {
        if bits & 0x8000_0000_0000_0000 != 0 {
            ascii_bytes("-inf"@)
        } else {
            ascii_bytes("inf"@)
        }
    } else {
        let t = spec_expand_scientific(f64_text(bits));
        match spec_dot_position(t, 0) {
            Some(dot) => spec_short_decimal_from(t, bits, dot, 1),
            None => t,
        }
    }
}

/// Render a number as the text `print` writes for it.
pub fn number_render(bits: u64) -> (r: Vec<u8>)
    ensures
        r@ == spec_number_render(bits),
{
    proof {
        reveal_strlit("NaN");
        reveal_strlit("inf");
        reveal_strlit("-inf");
    }
    if number_is_nan(bits) {
        return str_byte_vec("NaN");
    }
    if number_is_inf(bits) {
        if bits & 0x8000_0000_0000_0000 != 0 {
            return str_byte_vec("-inf");
        }
        return str_byte_vec("inf");
    }
    let t = expand_scientific(number_text(bits));
    let dot = match find_dot(t.as_slice()) {
        None => {
            return t;
        },
        Some(d) => d,
    };
    if dot + 2 > t.len() {
        return t;
    }
    let mut k: usize = 1;
    loop
        invariant
            t@ == spec_expand_scientific(f64_text(bits)),
            t@.len() <= 12047,
            !f64_is_nan(bits),
            !f64_is_inf(bits),
            spec_dot_position(t@, 0) == Some(dot as int),
            0 <= dot < t@.len(),
            1 <= k,
            dot + 1 + k <= t@.len(),
            spec_number_render(bits) == spec_short_decimal_from(t@, bits, dot as int, k as int),
        decreases t@.len() - dot - 1 - k,
    {
        let trunc = vstd::slice::slice_to_vec(
            vstd::slice::slice_subrange(t.as_slice(), 0, dot + 1 + k),
        );
        let rounded = increment_digits(trunc.as_slice());
        proof {
            lemma_increment_digits_len(trunc@);
        }
        let trunc_hit = match number_of_decimal(trunc.as_slice()) {
            Some(b) => b == bits,
            None => false,
        };
        if trunc_hit {
            return trunc;
        }
        let rounded_hit = match number_of_decimal(rounded.as_slice()) {
            Some(b) => b == bits,
            None => false,
        };
        if rounded_hit {
            return rounded;
        }
        if dot + 1 + k == t.len() {
            return t;
        }
        k = k + 1;
    }
}

} // verus!
