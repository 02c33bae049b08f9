//! Parsing integers from ASCII bytes under a radix of 2 to 36.

use vstd::prelude::*;

use crate::base::FromAscii;

verus! {

/// The kind of failure met while parsing an integer.
#[derive(Debug, Clone, Copy, PartialEq, Eq, Structural)]
pub enum IntErrorKind {
    /// No digits were left to parse after an optional sign.
    Empty,
    /// The carried byte is not a digit under the active radix.
    InvalidDigit(u8),
    /// The accumulated value exceeded the target type's maximum.
    Overflow,
    /// The accumulated value went below the target type's minimum.
    Underflow,
    /// The carried radix lies outside 2 to 36.
    InvalidRadix(u8),
}

/// An error returned when parsing a numeric value from an ASCII byte slice
/// fails. Its view is the `IntErrorKind` it carries.
#[derive(Debug, Clone, Copy, PartialEq, Eq, Structural)]
pub struct ParseIntError {
    kind: IntErrorKind,
}

impl View for ParseIntError {
    type V = IntErrorKind;

    closed spec fn view(&self) -> IntErrorKind {
        self.kind
    }
}

impl ParseIntError {
    /// The kind of failure this error reports.
    pub fn kind(&self) -> (k: IntErrorKind)
        ensures
            k == self@,
    {
        self.kind
    }

    /// A short description of the failure: that of the kind it carries.
    pub fn description(&self) -> (r: &'static str)
        ensures
            self@ is Empty ==> r@ == "cannot parse integer from empty string"@,
            self@ is InvalidDigit ==> r@ == "invalid digit found in string"@,
            self@ is Overflow ==> r@ == "number too large to fit in target type"@,
            self@ is Underflow ==> r@ == "number too small to fit in target type"@,
            self@ is InvalidRadix ==> r@ == "radix should be in 2..36 range"@,
    {
        self.kind.description()
    }
}

impl IntErrorKind {
    /// A short description of the failure.
    pub fn description(&self) -> (r: &'static str)
        ensures
            self is Empty ==> r@ == "cannot parse integer from empty string"@,
            self is InvalidDigit ==> r@ == "invalid digit found in string"@,
            self is Overflow ==> r@ == "number too large to fit in target type"@,
            self is Underflow ==> r@ == "number too small to fit in target type"@,
            self is InvalidRadix ==> r@ == "radix should be in 2..36 range"@,
    {
        match self {
            IntErrorKind::Empty => "cannot parse integer from empty string",
            IntErrorKind::InvalidDigit(_) => "invalid digit found in string",
            IntErrorKind::Overflow => "number too large to fit in target type",
            IntErrorKind::Underflow => "number too small to fit in target type",
            IntErrorKind::InvalidRadix(_) => "radix should be in 2..36 range",
        }
    }
}

/// The digit value of the byte `c` under the case-insensitive alphanumeric
/// table: `0`-`9` map to 0-9 and `a`-`z` / `A`-`Z` map to 10-35. Bytes
/// outside the table have no digit value.
pub open spec fn spec_digit_val(c: u8) -> Option<u8> {
    if 48u8 <= c && c <= 57u8 {
        Some((c - 48u8) as u8)
    } else if 97u8 <= c && c <= 122u8 {
        Some((c - 97u8 + 10) as u8)
    } else if 65u8 <= c && c <= 90u8 {
        Some((c - 65u8 + 10) as u8)
    } else {
        None
    }
}

/// The digit value of `c` when it is valid under `radix`: a table value that
/// is strictly less than the radix.
pub open spec fn spec_dec_to_digit(c: u8, radix: u8) -> Option<u8> {
    match spec_digit_val(c) {
        Some(v) => if v < radix {
            Some(v)
        } else {
            None
        },
        None => None,
    }
}

/// A trait to abstract the idea of creating a new instance of a numeric type
/// from an ASCII byte slice interpreted under a given radix.
///
/// It is a near clone of the standard `FromStr` trait, with an explicit
/// radix of 2 to 36. Each implementation states exactly which value or which
/// `IntErrorKind` every input yields.
pub trait FromAsciiRadix: Sized {
    /// The associated error which can be returned from parsing.
    type Err;

    /// Parses the byte slice `s`, interpreting its digits under `radix`, to
    /// return a value of this type.
    ///
    /// If parsing succeeds, the value is returned inside `Ok`; otherwise,
    /// when the bytes are ill-formed for this type, an error specific to the
    /// implementation is returned inside `Err`.
    fn from_ascii_radix(s: &[u8], radix: u8) -> Result<Self, Self::Err>;
}

/// The result of accumulating the digit string `digits` left to right,
/// starting from 0, as `value * radix + digit`, against the upper bound
/// `max`. The first failing position decides the error: a byte with no digit
/// value under `radix` yields `InvalidDigit` with that byte, and a value
/// exceeding `max` yields `Overflow`.
pub open spec fn spec_accum_pos(digits: Seq<u8>, radix: u8, max: int) -> Result<int, IntErrorKind>
    decreases digits.len(),
{
    if digits.len() == 0 {
        Ok(0)
    } else {
        match spec_accum_pos(digits.drop_last(), radix, max) {
            Ok(v) => match spec_dec_to_digit(digits.last(), radix) {
                Some(d) => if v * radix + d > max {
                    Err(IntErrorKind::Overflow)
                } else {
                    Ok(v * radix + d)
                },
                None => Err(IntErrorKind::InvalidDigit(digits.last())),
            },
            Err(e) => Err(e),
        }
    }
}

/// The result of accumulating the digit string `digits` left to right,
/// starting from 0, as `value * radix - digit`, against the lower bound
/// `min`. The first failing position decides the error: a byte with no digit
/// value under `radix` yields `InvalidDigit` with that byte, and a value
/// below `min` yields `Underflow`.
pub open spec fn spec_accum_neg(digits: Seq<u8>, radix: u8, min: int) -> Result<int, IntErrorKind>
    decreases digits.len(),
{
    if digits.len() == 0 {
        Ok(0)
    } else {
        match spec_accum_neg(digits.drop_last(), radix, min) {
            Ok(v) => match spec_dec_to_digit(digits.last(), radix) {
                Some(d) => if v * radix - d < min {
                    Err(IntErrorKind::Underflow)
                } else {
                    Ok(v * radix - d)
                },
                None => Err(IntErrorKind::InvalidDigit(digits.last())),
            },
            Err(e) => Err(e),
        }
    }
}

/// What parsing the bytes `s` under `radix` returns for a target type with
/// range `min..=max`, `signed` saying whether a leading `-` is legal.
///
/// A radix outside 2 to 36 fails with `InvalidRadix` before anything else.
/// An empty input, or one that is empty after a leading sign, fails with
/// `Empty`. A leading `+` is consumed; a leading `-` is consumed only for a
/// signed target and switches to negative accumulation toward `min`; for an
/// unsigned target the `-` byte falls through to digit mapping and fails as
/// `InvalidDigit` carrying it. All remaining bytes are accumulated digits.
pub open spec fn spec_parse_radix(
    s: Seq<u8>,
    radix: u8,
    signed: bool,
    min: int,
    max: int,
) -> Result<int, IntErrorKind> {
    if radix < 2 || radix > 36 {
        Err(IntErrorKind::InvalidRadix(radix))
    } else if s.len() == 0 {
        Err(IntErrorKind::Empty)
    } else if s[0] == 43 {
        if s.len() == 1 {
            Err(IntErrorKind::Empty)
        } else {
            spec_accum_pos(s.subrange(1, s.len() as int), radix, max)
        }
    } else if s[0] == 45 && signed {
        if s.len() == 1 {
            Err(IntErrorKind::Empty)
        } else {
            spec_accum_neg(s.subrange(1, s.len() as int), radix, min)
        }
    } else {
        spec_accum_pos(s, radix, max)
    }
}

/// Once a prefix of `s` fails positive accumulation, the whole of `s` fails
/// with the same error.
proof fn lemma_accum_pos_err_extends(s: Seq<u8>, j: int, radix: u8, max: int)
    requires
        0 <= j <= s.len(),
        spec_accum_pos(s.subrange(0, j), radix, max) is Err,
    ensures
        spec_accum_pos(s, radix, max) == spec_accum_pos(s.subrange(0, j), radix, max),
    decreases s.len() - j,
{
    if j == s.len() {
        assert(s.subrange(0, j) =~= s);
    } else {
        assert(s.subrange(0, j + 1).drop_last() =~= s.subrange(0, j));
        lemma_accum_pos_err_extends(s, j + 1, radix, max);
    }
}

/// Once a prefix of `s` fails negative accumulation, the whole of `s` fails
/// with the same error.
proof fn lemma_accum_neg_err_extends(s: Seq<u8>, j: int, radix: u8, min: int)
    requires
        0 <= j <= s.len(),
        spec_accum_neg(s.subrange(0, j), radix, min) is Err,
    ensures
        spec_accum_neg(s, radix, min) == spec_accum_neg(s.subrange(0, j), radix, min),
    decreases s.len() - j,
{
    if j == s.len() {
        assert(s.subrange(0, j) =~= s);
    } else {
        assert(s.subrange(0, j + 1).drop_last() =~= s.subrange(0, j));
        lemma_accum_neg_err_extends(s, j + 1, radix, min);
    }
}

/// Maps one ASCII byte to its digit value under `radix`, case-insensitively:
/// `0`-`9` to 0-9 and `a`-`z` / `A`-`Z` to 10-35, accepted only when the
/// value is strictly less than `radix`.
#[inline]
pub fn dec_to_digit(c: u8, radix: u8) -> (r: Option<u8>)
    ensures
        r == spec_dec_to_digit(c, radix),
{
    let val: u8 = if 48u8 <= c && c <= 57u8 {
        c - 48u8
    } else if 97u8 <= c && c <= 122u8 {
        c - 97u8 + 10
    } else if 65u8 <= c && c <= 90u8 {
        c - 65u8 + 10
    } else {
        return None;
    };
    if val < radix {
        Some(val)
    } else {
        None
    }
}

/// The one parsing engine behind every integer implementation: parses `src`
/// under `radix` into a value of the target range `min..=max`, `signed`
/// saying whether a leading `-` is legal. The accumulator is wide enough to
/// hold one more digit step for any 64-bit-or-narrower target, so the range
/// checks against `min` and `max` are exact.
fn parse_radix_core(src: &[u8], radix: u8, signed: bool, min: i128, max: i128) -> (r: Result<
    i128,
    ParseIntError,
>)
    requires
        -0x8000_0000_0000_0000 <= min <= 0,
        0 <= max <= 0xffff_ffff_ffff_ffff,
    ensures
        (match (r, spec_parse_radix(src@, radix, signed, min as int, max as int)) {
            (Ok(v), Ok(sv)) => v as int == sv && min <= v <= max,
            (Err(e), Err(k)) => e@ == k,
            _ => false,
        }),
{
    if radix < 2 || radix > 36 {
        return Err(ParseIntError { kind: IntErrorKind::InvalidRadix(radix) });
    }
    let n: usize = src.len();
    if n == 0 {
        return Err(ParseIntError { kind: IntErrorKind::Empty });
    }
    let first: u8 = src[0];
    let (is_positive, start): (bool, usize) = if first == 43u8 {
        (true, 1)
    } else if first == 45u8 && signed {
        (false, 1)
    } else {
        (true, 0)
    };
    if start == n {
        return Err(ParseIntError { kind: IntErrorKind::Empty });
    }
    let ghost digits = src@.subrange(start as int, n as int);
    proof {
        if first == 43u8 || (first == 45u8 && signed) {
            assert(digits =~= src@.subrange(1, src@.len() as int));
        } else {
            assert(digits =~= src@);
        }
    }
    let mut result: i128 = 0;
    let mut i: usize = start;
    if is_positive {
        while i < n
            invariant
                start <= i <= n,
                n == src@.len(),
                digits == src@.subrange(start as int, n as int),
                2 <= radix <= 36,
                0 <= max <= 0xffff_ffff_ffff_ffff,
                spec_parse_radix(src@, radix, signed, min as int, max as int)
                    == spec_accum_pos(digits, radix, max as int),
                spec_accum_pos(digits.subrange(0, i - start), radix, max as int)
                    == Ok::<int, IntErrorKind>(result as int),
                0 <= result <= max,
            decreases n - i,
        {
            let c: u8 = src[i];
            let ghost prefix = digits.subrange(0, i - start);
            let ghost extended = digits.subrange(0, i + 1 - start);
            proof {
                assert(extended.drop_last() =~= prefix);
                assert(extended.last() == src@[i as int]);
            }
            match dec_to_digit(c, radix) {
                None => {
                    proof {
                        lemma_accum_pos_err_extends(digits, i + 1 - start, radix, max as int);
                    }
                    return Err(ParseIntError { kind: IntErrorKind::InvalidDigit(c) });
                },
                Some(d) => {
                    proof {
                        assert(result * (radix as i128) <= max * 36) by (nonlinear_arith)
                            requires
                                0 <= result <= max,
                                0 < radix <= 36,
                        ;
                        assert(result * (radix as i128) >= 0) by (nonlinear_arith)
                            requires
                                0 <= result,
                                0 < radix,
                        ;
                    }
                    let wide: i128 = result * (radix as i128) + (d as i128);
                    if wide > max {
                        proof {
                            lemma_accum_pos_err_extends(digits, i + 1 - start, radix, max as int);
                        }
                        return Err(ParseIntError { kind: IntErrorKind::Overflow });
                    }
                    result = wide;
                    i = i + 1;
                },
            }
        }
        proof {
            assert(digits.subrange(0, n - start) =~= digits);
        }
        Ok(result)
    } else {
        while i < n
            invariant
                start <= i <= n,
                n == src@.len(),
                digits == src@.subrange(start as int, n as int),
                2 <= radix <= 36,
                -0x8000_0000_0000_0000 <= min <= 0,
                spec_parse_radix(src@, radix, signed, min as int, max as int)
                    == spec_accum_neg(digits, radix, min as int),
                spec_accum_neg(digits.subrange(0, i - start), radix, min as int)
                    == Ok::<int, IntErrorKind>(result as int),
                min <= result <= 0,
            decreases n - i,
        {
            let c: u8 = src[i];
            let ghost prefix = digits.subrange(0, i - start);
            let ghost extended = digits.subrange(0, i + 1 - start);
            proof {
                assert(extended.drop_last() =~= prefix);
                assert(extended.last() == src@[i as int]);
            }
            match dec_to_digit(c, radix) {
                None => {
                    proof {
                        lemma_accum_neg_err_extends(digits, i + 1 - start, radix, min as int);
                    }
                    return Err(ParseIntError { kind: IntErrorKind::InvalidDigit(c) });
                },
                Some(d) => {
                    proof {
                        assert(result * (radix as i128) >= min * 36) by (nonlinear_arith)
                            requires
                                min <= result <= 0,
                                0 < radix <= 36,
                        ;
                        assert(result * (radix as i128) <= 0) by (nonlinear_arith)
                            requires
                                result <= 0,
                                0 < radix,
                        ;
                    }
                    let wide: i128 = result * (radix as i128) - (d as i128);
                    if wide < min {
                        proof {
                            lemma_accum_neg_err_extends(digits, i + 1 - start, radix, min as int);
                        }
                        return Err(ParseIntError { kind: IntErrorKind::Underflow });
                    }
                    result = wide;
                    i = i + 1;
                },
            }
        }
        proof {
            assert(digits.subrange(0, n - start) =~= digits);
        }
        Ok(result)
    }
}

/// Every byte of `s` is a valid digit under `radix`.
pub open spec fn spec_all_digits(s: Seq<u8>, radix: u8) -> bool {
    forall|i: int| 0 <= i < s.len() ==> spec_dec_to_digit(s[i], radix) is Some
}

/// The digit value of `c` under `radix`; meaningful only for bytes that are
/// valid digits under it.
pub open spec fn spec_digit_of(c: u8, radix: u8) -> int {
    match spec_dec_to_digit(c, radix) {
        Some(d) => d as int,
        None => 0,
    }
}

/// The mathematical value of the digit string `s` under `radix`, most
/// significant digit first; meaningful only when every byte of `s` is a
/// valid digit under it.
pub open spec fn spec_seq_val(s: Seq<u8>, radix: u8) -> int
    decreases s.len(),
{
    if s.len() == 0 {
        0
    } else {
        spec_seq_val(s.drop_last(), radix) * radix + spec_digit_of(s.last(), radix)
    }
}

/// On a string of valid digits, positive accumulation computes exactly the
/// mathematical value of the string, failing with `Overflow` precisely when
/// that value exceeds `max`.
pub proof fn lemma_accum_pos_of_digits(s: Seq<u8>, radix: u8, max: int)
    requires
        2 <= radix <= 36,
        spec_all_digits(s, radix),
        0 <= max,
    ensures
        0 <= spec_seq_val(s, radix),
        spec_seq_val(s, radix) <= max ==> spec_accum_pos(s, radix, max) == Ok::<
            int,
            IntErrorKind,
        >(spec_seq_val(s, radix)),
        spec_seq_val(s, radix) > max ==> spec_accum_pos(s, radix, max) == Err::<
            int,
            IntErrorKind,
        >(IntErrorKind::Overflow),
    decreases s.len(),
{
    if s.len() > 0 {
        let p = s.drop_last();
        assert forall|i: int| 0 <= i < p.len() implies spec_dec_to_digit(
            p[i],
            radix,
        ) is Some by {
            assert(p[i] == s[i]);
        }
        lemma_accum_pos_of_digits(p, radix, max);
        let v = spec_seq_val(p, radix);
        let d = spec_digit_of(s.last(), radix);
        assert(spec_dec_to_digit(s[s.len() - 1], radix) is Some);
        assert(0 <= d < radix);
        if v > max {
            assert(v * radix >= v * 2) by (nonlinear_arith)
                requires
                    0 <= v,
                    2 <= radix,
            ;
        } else {
            assert(v * radix >= v) by (nonlinear_arith)
                requires
                    0 <= v,
                    1 <= radix,
            ;
        }
    }
}

/// The value of a digit string is never negative.
pub proof fn lemma_seq_val_nonneg(s: Seq<u8>, radix: u8)
    requires
        1 <= radix,
    ensures
        spec_seq_val(s, radix) >= 0,
    decreases s.len(),
{
    if s.len() > 0 {
        lemma_seq_val_nonneg(s.drop_last(), radix);
        let v = spec_seq_val(s.drop_last(), radix);
        assert(v * radix >= 0) by (nonlinear_arith)
            requires
                0 <= v,
                1 <= radix,
        ;
    }
}

/// On a string of valid digits, negative accumulation computes exactly the
/// negated mathematical value of the string, failing with `Underflow`
/// precisely when that negated value goes below `min`.
pub proof fn lemma_accum_neg_of_digits(s: Seq<u8>, radix: u8, min: int)
    requires
        2 <= radix <= 36,
        spec_all_digits(s, radix),
        min <= 0,
    ensures
        min <= -spec_seq_val(s, radix) ==> spec_accum_neg(s, radix, min) == Ok::<
            int,
            IntErrorKind,
        >(-spec_seq_val(s, radix)),
        -spec_seq_val(s, radix) < min ==> spec_accum_neg(s, radix, min) == Err::<
            int,
            IntErrorKind,
        >(IntErrorKind::Underflow),
    decreases s.len(),
{
    if s.len() > 0 {
        let p = s.drop_last();
        assert forall|i: int| 0 <= i < p.len() implies spec_dec_to_digit(
            p[i],
            radix,
        ) is Some by {
            assert(p[i] == s[i]);
        }
        lemma_accum_neg_of_digits(p, radix, min);
        lemma_seq_val_nonneg(p, radix);
        let v = spec_seq_val(p, radix);
        let d = spec_digit_of(s.last(), radix);
        assert(spec_dec_to_digit(s[s.len() - 1], radix) is Some);
        assert(0 <= d < radix);
        assert(spec_seq_val(s, radix) == v * radix + d);
        if -v < min {
            assert(v * radix >= v * 2) by (nonlinear_arith)
                requires
                    0 <= v,
                    2 <= radix,
            ;
        } else {
            assert((-v) * radix == -(v * radix)) by (nonlinear_arith);
            assert(v * radix >= v) by (nonlinear_arith)
                requires
                    0 <= v,
                    1 <= radix,
            ;
        }
    }
}

/// Any nonempty string of digits valid under `radix` whose value is at most
/// `max` parses to exactly that value, for signed and unsigned targets
/// alike: a valid digit is never a sign byte, so no byte is consumed before
/// accumulation.
pub proof fn lemma_parse_digits_exact(s: Seq<u8>, radix: u8, signed: bool, min: int, max: int)
    requires
        2 <= radix <= 36,
        s.len() > 0,
        spec_all_digits(s, radix),
        min <= 0 <= max,
        spec_seq_val(s, radix) <= max,
    ensures
        spec_parse_radix(s, radix, signed, min, max) == Ok::<int, IntErrorKind>(
            spec_seq_val(s, radix),
        ),
{
    assert(spec_dec_to_digit(s[0], radix) is Some);
    assert(s[0] != 43 && s[0] != 45);
    lemma_accum_pos_of_digits(s, radix, max);
}

/// The canonical byte for the digit value `d`: `0`-`9` for values below ten,
/// lowercase `a`-`z` for the rest.
pub open spec fn spec_digit_char(d: u8) -> u8 {
    if d < 10 {
        (48 + d) as u8
    } else {
        (97 + d - 10) as u8
    }
}

/// The canonical digit string of the value `v` under `radix`: most
/// significant digit first, lowercase letters for digit values above 9, no
/// sign and no leading zeros (a single `0` byte for zero).
pub open spec fn spec_canonical_digits(v: nat, radix: u8) -> Seq<u8>
    decreases v,
    when radix >= 2
    via canonical_digits_decreases
{
    if v < radix {
        seq![spec_digit_char(v as u8)]
    } else {
        spec_canonical_digits(v / (radix as nat), radix).push(
            spec_digit_char((v % (radix as nat)) as u8),
        )
    }
}

#[via_fn]
proof fn canonical_digits_decreases(v: nat, radix: u8) {
    if 2 <= radix && radix <= v {
        vstd::arithmetic::div_mod::lemma_div_decreases(v as int, radix as int);
    }
}

/// The canonical digit string of `v` under `radix` is nonempty, consists
/// only of digits valid under `radix`, and evaluates back to exactly `v`.
pub proof fn lemma_canonical_digits(v: nat, radix: u8)
    requires
        2 <= radix <= 36,
    ensures
        spec_canonical_digits(v, radix).len() > 0,
        spec_all_digits(spec_canonical_digits(v, radix), radix),
        spec_seq_val(spec_canonical_digits(v, radix), radix) == v,
    decreases v,
{
    let s = spec_canonical_digits(v, radix);
    if v < radix {
        assert(spec_dec_to_digit(spec_digit_char(v as u8), radix) == Some(v as u8));
        assert(s == seq![spec_digit_char(v as u8)]);
        assert(s.len() == 1);
        assert(s.last() == spec_digit_char(v as u8));
        assert(s.drop_last() =~= Seq::<u8>::empty());
        assert(spec_seq_val(s.drop_last(), radix) == 0);
        assert(spec_seq_val(s, radix) == spec_seq_val(s.drop_last(), radix) * radix
            + spec_digit_of(s.last(), radix));
    } else {
        let q = v / (radix as nat);
        let r = v % (radix as nat);
        vstd::arithmetic::div_mod::lemma_div_decreases(v as int, radix as int);
        lemma_canonical_digits(q, radix);
        vstd::arithmetic::div_mod::lemma_fundamental_div_mod(v as int, radix as int);
        let c = spec_canonical_digits(q, radix);
        assert(s == c.push(spec_digit_char(r as u8)));
        assert(s.drop_last() =~= c);
        assert(r < radix) by {
            vstd::arithmetic::div_mod::lemma_mod_bound(v as int, radix as int);
        }
        assert(spec_dec_to_digit(spec_digit_char(r as u8), radix) == Some(r as u8));
        assert forall|i: int| 0 <= i < s.len() implies spec_dec_to_digit(
            s[i],
            radix,
        ) is Some by {
            if i < c.len() {
                assert(s[i] == c[i]);
            } else {
                assert(s[i] == spec_digit_char(r as u8));
            }
        }
        assert(spec_seq_val(s, radix) == q * radix + r);
    }
}

/// Round trip: for every radix 2 to 36 and every value within the target
/// range, parsing the canonical digit string of the value under that radix
/// returns exactly the value, whatever the signedness of the target.
pub proof fn lemma_parse_canonical_round_trip(v: nat, radix: u8, signed: bool, min: int, max: int)
    requires
        2 <= radix <= 36,
        min <= 0,
        v <= max,
    ensures
        spec_parse_radix(spec_canonical_digits(v, radix), radix, signed, min, max) == Ok::<
            int,
            IntErrorKind,
        >(v as int),
{
    lemma_canonical_digits(v, radix);
    lemma_parse_digits_exact(spec_canonical_digits(v, radix), radix, signed, min, max);
}

/// Round trip for negative values: a `-` sign followed by the canonical
/// digit string of `v` parses, for a signed target whose range admits `-v`,
/// to exactly `-v`.
pub proof fn lemma_parse_negative_canonical_round_trip(v: nat, radix: u8, min: int, max: int)
    requires
        2 <= radix <= 36,
        min <= -(v as int),
        0 <= max,
    ensures
        spec_parse_radix(seq![45u8] + spec_canonical_digits(v, radix), radix, true, min, max)
            == Ok::<int, IntErrorKind>(-(v as int)),
{
    let c = spec_canonical_digits(v, radix);
    lemma_canonical_digits(v, radix);
    let s = seq![45u8] + c;
    assert(s[0] == 45);
    assert(s.len() == 1 + c.len());
    assert(s.subrange(1, s.len() as int) =~= c);
    lemma_accum_neg_of_digits(c, radix, min);
}

/// Parsing is pure: the outcome is a function of the bytes, the radix and
/// the target range alone, so re-parsing the same bytes any number of times
/// yields an identical result. Every parsing function of this crate pins its
/// result to `spec_parse_radix`, of which this is stated.
pub proof fn lemma_parse_deterministic(
    r1: Result<int, IntErrorKind>,
    r2: Result<int, IntErrorKind>,
    s: Seq<u8>,
    radix: u8,
    signed: bool,
    min: int,
    max: int,
)
    requires
        r1 == spec_parse_radix(s, radix, signed, min, max),
        r2 == spec_parse_radix(s, radix, signed, min, max),
    ensures
        r1 == r2,
{
}

impl FromAsciiRadix for i8 {
    type Err = ParseIntError;

    fn from_ascii_radix(s: &[u8], radix: u8) -> (r: Result<i8, ParseIntError>)
        ensures
            (match (r, spec_parse_radix(s@, radix, true, i8::MIN as int, i8::MAX as int)) {
                (Ok(v), Ok(sv)) => v as int == sv,
                (Err(e), Err(k)) => e@ == k,
                _ => false,
            }),
    {
        match parse_radix_core(s, radix, true, i8::MIN as i128, i8::MAX as i128) {
            Ok(v) => Ok(v as i8),
            Err(e) => Err(e),
        }
    }
}

impl FromAscii for i8 {
    type Err = ParseIntError;

    fn from_ascii(s: &[u8]) -> (r: Result<i8, ParseIntError>)
        ensures
            (match (r, spec_parse_radix(s@, 10, true, i8::MIN as int, i8::MAX as int)) {
                (Ok(v), Ok(sv)) => v as int == sv,
                (Err(e), Err(k)) => e@ == k,
                _ => false,
            }),
    {
        <i8 as FromAsciiRadix>::from_ascii_radix(s, 10)
    }
}

impl FromAsciiRadix for i16 {
    type Err = ParseIntError;

    fn from_ascii_radix(s: &[u8], radix: u8) -> (r: Result<i16, ParseIntError>)
        ensures
            (match (r, spec_parse_radix(s@, radix, true, i16::MIN as int, i16::MAX as int)) {
                (Ok(v), Ok(sv)) => v as int == sv,
                (Err(e), Err(k)) => e@ == k,
                _ => false,
            }),
    {
        match parse_radix_core(s, radix, true, i16::MIN as i128, i16::MAX as i128) {
            Ok(v) => Ok(v as i16),
            Err(e) => Err(e),
        }
    }
}

impl FromAscii for i16 {
    type Err = ParseIntError;

    fn from_ascii(s: &[u8]) -> (r: Result<i16, ParseIntError>)
        ensures
            (match (r, spec_parse_radix(s@, 10, true, i16::MIN as int, i16::MAX as int)) {
                (Ok(v), Ok(sv)) => v as int == sv,
                (Err(e), Err(k)) => e@ == k,
                _ => false,
            }),
    {
        <i16 as FromAsciiRadix>::from_ascii_radix(s, 10)
    }
}

impl FromAsciiRadix for i32 {
    type Err = ParseIntError;

    fn from_ascii_radix(s: &[u8], radix: u8) -> (r: Result<i32, ParseIntError>)
        ensures
            (match (r, spec_parse_radix(s@, radix, true, i32::MIN as int, i32::MAX as int)) {
                (Ok(v), Ok(sv)) => v as int == sv,
                (Err(e), Err(k)) => e@ == k,
                _ => false,
            }),
    {
        match parse_radix_core(s, radix, true, i32::MIN as i128, i32::MAX as i128) {
            Ok(v) => Ok(v as i32),
            Err(e) => Err(e),
        }
    }
}

impl FromAscii for i32 {
    type Err = ParseIntError;

    fn from_ascii(s: &[u8]) -> (r: Result<i32, ParseIntError>)
        ensures
            (match (r, spec_parse_radix(s@, 10, true, i32::MIN as int, i32::MAX as int)) {
                (Ok(v), Ok(sv)) => v as int == sv,
                (Err(e), Err(k)) => e@ == k,
                _ => false,
            }),
    {
        <i32 as FromAsciiRadix>::from_ascii_radix(s, 10)
    }
}

impl FromAsciiRadix for i64 {
    type Err = ParseIntError;

    fn from_ascii_radix(s: &[u8], radix: u8) -> (r: Result<i64, ParseIntError>)
        ensures
            (match (r, spec_parse_radix(s@, radix, true, i64::MIN as int, i64::MAX as int)) {
                (Ok(v), Ok(sv)) => v as int == sv,
                (Err(e), Err(k)) => e@ == k,
                _ => false,
            }),
    {
        match parse_radix_core(s, radix, true, i64::MIN as i128, i64::MAX as i128) {
            Ok(v) => Ok(v as i64),
            Err(e) => Err(e),
        }
    }
}

impl FromAscii for i64 {
    type Err = ParseIntError;

    fn from_ascii(s: &[u8]) -> (r: Result<i64, ParseIntError>)
        ensures
            (match (r, spec_parse_radix(s@, 10, true, i64::MIN as int, i64::MAX as int)) {
                (Ok(v), Ok(sv)) => v as int == sv,
                (Err(e), Err(k)) => e@ == k,
                _ => false,
            }),
    {
        <i64 as FromAsciiRadix>::from_ascii_radix(s, 10)
    }
}

impl FromAsciiRadix for isize {
    type Err = ParseIntError;

    fn from_ascii_radix(s: &[u8], radix: u8) -> (r: Result<isize, ParseIntError>)
        ensures
            (match (r, spec_parse_radix(s@, radix, true, isize::MIN as int, isize::MAX as int)) {
                (Ok(v), Ok(sv)) => v as int == sv,
                (Err(e), Err(k)) => e@ == k,
                _ => false,
            }),
    {
        match parse_radix_core(s, radix, true, isize::MIN as i128, isize::MAX as i128) {
            Ok(v) => Ok(v as isize),
            Err(e) => Err(e),
        }
    }
}

impl FromAscii for isize {
    type Err = ParseIntError;

    fn from_ascii(s: &[u8]) -> (r: Result<isize, ParseIntError>)
        ensures
            (match (r, spec_parse_radix(s@, 10, true, isize::MIN as int, isize::MAX as int)) {
                (Ok(v), Ok(sv)) => v as int == sv,
                (Err(e), Err(k)) => e@ == k,
                _ => false,
            }),
    {
        <isize as FromAsciiRadix>::from_ascii_radix(s, 10)
    }
}

impl FromAsciiRadix for u8 {
    type Err = ParseIntError;

    fn from_ascii_radix(s: &[u8], radix: u8) -> (r: Result<u8, ParseIntError>)
        ensures
            (match (r, spec_parse_radix(s@, radix, false, 0, u8::MAX as int)) {
                (Ok(v), Ok(sv)) => v as int == sv,
                (Err(e), Err(k)) => e@ == k,
                _ => false,
            }),
    {
        match parse_radix_core(s, radix, false, 0, u8::MAX as i128) {
            Ok(v) => Ok(v as u8),
            Err(e) => Err(e),
        }
    }
}

impl FromAscii for u8 {
    type Err = ParseIntError;

    fn from_ascii(s: &[u8]) -> (r: Result<u8, ParseIntError>)
        ensures
            (match (r, spec_parse_radix(s@, 10, false, 0, u8::MAX as int)) {
                (Ok(v), Ok(sv)) => v as int == sv,
                (Err(e), Err(k)) => e@ == k,
                _ => false,
            }),
    {
        <u8 as FromAsciiRadix>::from_ascii_radix(s, 10)
    }
}

impl FromAsciiRadix for u16 {
    type Err = ParseIntError;

    fn from_ascii_radix(s: &[u8], radix: u8) -> (r: Result<u16, ParseIntError>)
        ensures
            (match (r, spec_parse_radix(s@, radix, false, 0, u16::MAX as int)) {
                (Ok(v), Ok(sv)) => v as int == sv,
                (Err(e), Err(k)) => e@ == k,
                _ => false,
            }),
    {
        match parse_radix_core(s, radix, false, 0, u16::MAX as i128) {
            Ok(v) => Ok(v as u16),
            Err(e) => Err(e),
        }
    }
}

impl FromAscii for u16 {
    type Err = ParseIntError;

    fn from_ascii(s: &[u8]) -> (r: Result<u16, ParseIntError>)
        ensures
            (match (r, spec_parse_radix(s@, 10, false, 0, u16::MAX as int)) {
                (Ok(v), Ok(sv)) => v as int == sv,
                (Err(e), Err(k)) => e@ == k,
                _ => false,
            }),
    {
        <u16 as FromAsciiRadix>::from_ascii_radix(s, 10)
    }
}

impl FromAsciiRadix for u32 {
    type Err = ParseIntError;

    fn from_ascii_radix(s: &[u8], radix: u8) -> (r: Result<u32, ParseIntError>)
        ensures
            (match (r, spec_parse_radix(s@, radix, false, 0, u32::MAX as int)) {
                (Ok(v), Ok(sv)) => v as int == sv,
                (Err(e), Err(k)) => e@ == k,
                _ => false,
            }),
    {
        match parse_radix_core(s, radix, false, 0, u32::MAX as i128) {
            Ok(v) => Ok(v as u32),
            Err(e) => Err(e),
        }
    }
}

impl FromAscii for u32 {
    type Err = ParseIntError;

    fn from_ascii(s: &[u8]) -> (r: Result<u32, ParseIntError>)
        ensures
            (match (r, spec_parse_radix(s@, 10, false, 0, u32::MAX as int)) {
                (Ok(v), Ok(sv)) => v as int == sv,
                (Err(e), Err(k)) => e@ == k,
                _ => false,
            }),
    {
        <u32 as FromAsciiRadix>::from_ascii_radix(s, 10)
    }
}

impl FromAsciiRadix for u64 {
    type Err = ParseIntError;

    fn from_ascii_radix(s: &[u8], radix: u8) -> (r: Result<u64, ParseIntError>)
        ensures
            (match (r, spec_parse_radix(s@, radix, false, 0, u64::MAX as int)) {
                (Ok(v), Ok(sv)) => v as int == sv,
                (Err(e), Err(k)) => e@ == k,
                _ => false,
            }),
    {
        match parse_radix_core(s, radix, false, 0, u64::MAX as i128) {
            Ok(v) => Ok(v as u64),
            Err(e) => Err(e),
        }
    }
}

impl FromAscii for u64 {
    type Err = ParseIntError;

    fn from_ascii(s: &[u8]) -> (r: Result<u64, ParseIntError>)
        ensures
            (match (r, spec_parse_radix(s@, 10, false, 0, u64::MAX as int)) {
                (Ok(v), Ok(sv)) => v as int == sv,
                (Err(e), Err(k)) => e@ == k,
                _ => false,
            }),
    {
        <u64 as FromAsciiRadix>::from_ascii_radix(s, 10)
    }
}

impl FromAsciiRadix for usize {
    type Err = ParseIntError;

    fn from_ascii_radix(s: &[u8], radix: u8) -> (r: Result<usize, ParseIntError>)
        ensures
            (match (r, spec_parse_radix(s@, radix, false, 0, usize::MAX as int)) {
                (Ok(v), Ok(sv)) => v as int == sv,
                (Err(e), Err(k)) => e@ == k,
                _ => false,
            }),
    {
        match parse_radix_core(s, radix, false, 0, usize::MAX as i128) {
            Ok(v) => Ok(v as usize),
            Err(e) => Err(e),
        }
    }
}

impl FromAscii for usize {
    type Err = ParseIntError;

    fn from_ascii(s: &[u8]) -> (r: Result<usize, ParseIntError>)
        ensures
            (match (r, spec_parse_radix(s@, 10, false, 0, usize::MAX as int)) {
                (Ok(v), Ok(sv)) => v as int == sv,
                (Err(e), Err(k)) => e@ == k,
                _ => false,
            }),
    {
        <usize as FromAsciiRadix>::from_ascii_radix(s, 10)
    }
}

} // verus!
