use crate::digits::{
    all_digits, decimal_repr, decimal_string, digits_value, is_digit, lemma_decimal_repr,
    lemma_digits_bound, lemma_padded_repr, padded_repr, canonical_digits,
    is_digit_group, read_digits, DigitGroup,
};
use crate::error::{debug_quoted, str_debug};
use vstd::arithmetic::power::{lemma_pow_adds, lemma_pow_increases, lemma_pow_positive, pow};
use vstd::prelude::*;
use vstd::string::StringExecFns;

verus! {

/// Why a decimal number could not be read.
#[derive(Debug, Clone, PartialEq, Eq)]
pub enum DecimalNumberParsingError {
    /// The text is not `<digits>` or `<digits>.<digits>`; carries the whole text.
    InvalidNumber(String),
    /// The count does not fit in 64 bits; carries the whole part in decimal.
    LongWhole(String),
    /// The fractional part has more digits than the scale can hold; carries it.
    LongFractional(String),
}

/// A decimal parse failure with its text as characters.
pub enum DecimalFailure {
    InvalidNumber(Seq<char>),
    LongWhole(Seq<char>),
    LongFractional(Seq<char>),
}

impl View for DecimalNumberParsingError {
    type V = DecimalFailure;

    open spec fn view(&self) -> DecimalFailure {
        match self {
            DecimalNumberParsingError::InvalidNumber(s) => DecimalFailure::InvalidNumber(s@),
            DecimalNumberParsingError::LongWhole(s) => DecimalFailure::LongWhole(s@),
            DecimalNumberParsingError::LongFractional(s) => DecimalFailure::LongFractional(s@),
        }
    }
}

/// The name of a failure's variant.
pub open spec fn failure_name(e: DecimalFailure) -> Seq<char> {
    match e {
        DecimalFailure::InvalidNumber(_) => "InvalidNumber"@,
        DecimalFailure::LongWhole(_) => "LongWhole"@,
        DecimalFailure::LongFractional(_) => "LongFractional"@,
    }
}

/// The text that a failure carries.
pub open spec fn failure_text(e: DecimalFailure) -> Seq<char> {
    match e {
        DecimalFailure::InvalidNumber(s) => s,
        DecimalFailure::LongWhole(s) => s,
        DecimalFailure::LongFractional(s) => s,
    }
}

/// The message that describes a failure.
pub open spec fn failure_message(e: DecimalFailure) -> Seq<char> {
    match e {
        DecimalFailure::InvalidNumber(s) => "Invalid number: "@ + s,
        DecimalFailure::LongWhole(s) => "Long whole part: "@ + s,
        DecimalFailure::LongFractional(s) => "Long fractional part: "@ + s,
    }
}

impl DecimalNumberParsingError {
    /// The message that describes the failure, such as `"Invalid number: 1h4"`.
    pub fn to_string(&self) -> (r: String)
        ensures
            r@ == failure_message(self@),
    {
        let (mut r, s) = match self {
            DecimalNumberParsingError::InvalidNumber(s) => ("Invalid number: ".to_owned(), s),
            DecimalNumberParsingError::LongWhole(s) => ("Long whole part: ".to_owned(), s),
            DecimalNumberParsingError::LongFractional(s) => ("Long fractional part: ".to_owned(), s),
        };
        r.append(s.as_str());
        r
    }

    /// The debug form of the failure, `Name(quoted)`, given the quoted form
    /// of its text.
    pub fn debug_string_from(&self, quoted: &str) -> (r: String)
        ensures
            r@ == failure_name(self@) + "("@ + quoted@ + ")"@,
    {
        let mut r = match self {
            DecimalNumberParsingError::InvalidNumber(_) => "InvalidNumber".to_owned(),
            DecimalNumberParsingError::LongWhole(_) => "LongWhole".to_owned(),
            DecimalNumberParsingError::LongFractional(_) => "LongFractional".to_owned(),
        };
        r.append("(");
        r.append(quoted);
        r.append(")");
        r
    }

    /// The debug form of the failure, such as `InvalidNumber("1h4")`.
    pub fn debug_string(&self) -> (r: String)
        ensures
            r@ == failure_name(self@) + "("@ + str_debug(failure_text(self@)) + ")"@,
    {
        let s = match self {
            DecimalNumberParsingError::InvalidNumber(s) => s,
            DecimalNumberParsingError::LongWhole(s) => s,
            DecimalNumberParsingError::LongFractional(s) => s,
        };
        let quoted = debug_quoted(s.as_str());
        self.debug_string_from(quoted.as_str())
    }
}

pub open spec fn decimal_result_view(r: Result<u64, DecimalNumberParsingError>) -> Result<
    u64,
    DecimalFailure,
> {
    match r {
        Ok(v) => Ok(v),
        Err(e) => Err(e@),
    }
}

/// `i` is the position of the first '.' in `s`.
pub open spec fn is_first_dot(s: Seq<char>, i: int) -> bool {
    &&& 0 <= i < s.len()
    &&& s[i] == '.'
    &&& forall|k: int| 0 <= k < i ==> s[k] != '.'
}

pub open spec fn first_dot(s: Seq<char>) -> Option<int> {
    if exists|i: int| is_first_dot(s, i) {
        Some(choose|i: int| is_first_dot(s, i))
    } else {
        None
    }
}

/// The count that the decimal text `s` denotes at `scale` gas per unit, or why
/// there is none: `<digits>` or `<digits>.<digits>`, no more fractional digits
/// than the scale can hold exactly, and a count that fits in 64 bits.
pub open spec fn decimal_number_spec(s: Seq<char>, scale: u64) -> Result<u64, DecimalFailure> {
    match first_dot(s) {
        None => {
            if !is_digit_group(s) {
                Err(DecimalFailure::InvalidNumber(s))
            } else if digits_value(s) * scale > u64::MAX {
                Err(DecimalFailure::LongWhole(decimal_repr(digits_value(s))))
            } else {
                Ok((digits_value(s) * scale) as u64)
            }
        },
        Some(i) => {
            let whole = s.subrange(0, i);
            let frac = s.subrange(i + 1, s.len() as int);
            let tens = pow(10, frac.len());
            if !is_digit_group(whole) || !is_digit_group(frac) {
                Err(DecimalFailure::InvalidNumber(s))
            } else if tens > scale {
                Err(DecimalFailure::LongFractional(frac))
            } else if digits_value(whole) * scale + digits_value(frac) * (scale as int / tens)
                > u64::MAX {
                Err(DecimalFailure::LongWhole(decimal_repr(digits_value(whole))))
            } else {
                Ok((digits_value(whole) * scale + digits_value(frac) * (scale as int / tens)) as u64)
            }
        },
    }
}

pub proof fn lemma_first_dot(s: Seq<char>, i: int)
    requires
        is_first_dot(s, i),
    ensures
        first_dot(s) == Some(i),
{
    let j = choose|j: int| is_first_dot(s, j);
    if j < i {
        assert(s[j] != '.');
    } else if i < j {
        assert(s[i] != '.');
    }
}

pub proof fn lemma_no_dot(s: Seq<char>)
    requires
        forall|k: int| 0 <= k < s.len() ==> s[k] != '.',
    ensures
        first_dot(s) == None::<int>,
{
    if exists|i: int| is_first_dot(s, i) {
        let i = choose|i: int| is_first_dot(s, i);
        assert(s[i] == '.');
    }
}

/// Finds the first '.' in `s`.
fn find_dot(s: &str) -> (r: Option<usize>)
    ensures
        match r {
            Some(i) => is_first_dot(s@, i as int),
            None => forall|k: int| 0 <= k < s@.len() ==> s@[k] != '.',
        },
{
    let n = s.unicode_len();
    let mut i: usize = 0;
    while i < n
        invariant
            n == s@.len(),
            i <= n,
            forall|k: int| 0 <= k < i ==> s@[k] != '.',
        decreases n - i,
    {
        if s.get_char(i) == '.' {
            return Some(i);
        }
        i = i + 1;
    }
    None
}

/// Reads the decimal number `s` as a count of gas at `pref_const` gas per unit.
///
/// The text is `<digits>` or `<digits>.<digits>`, with no sign, exponent or
/// whitespace. The result is exact: a fractional part with more digits than
/// the scale can hold is refused, not rounded.
#[verifier::loop_isolation(false)]
pub fn parse_decimal_number(s: &str, pref_const: u64) -> (r: Result<
    u64,
    DecimalNumberParsingError,
>)
    ensures
        decimal_result_view(r) == decimal_number_spec(s@, pref_const),
{
    match find_dot(s) {
        None => {
            proof {
                lemma_no_dot(s@);
            }
            match read_digits(s) {
                DigitGroup::NotDigits => Err(DecimalNumberParsingError::InvalidNumber(s.to_owned())),
                DigitGroup::TooLarge => {
                    if pref_const == 0 {
                        assert(digits_value(s@) * pref_const == 0);
                        Ok(0)
                    } else {
                        assert(digits_value(s@) * pref_const > u64::MAX) by (nonlinear_arith)
                            requires
                                digits_value(s@) > u64::MAX,
                                pref_const >= 1,
                        ;
                        Err(DecimalNumberParsingError::LongWhole(canonical_digits(s)))
                    }
                },
                DigitGroup::Value(w) => match w.checked_mul(pref_const) {
                    Some(v) => Ok(v),
                    None => Err(DecimalNumberParsingError::LongWhole(decimal_string(w))),
                },
            }
        },
        Some(i) => {
            proof {
                lemma_first_dot(s@, i as int);
            }
            let n = s.unicode_len();
            let whole = s.substring_char(0, i);
            let fractional = s.substring_char(i + 1, n);
            let whole_group = read_digits(whole);
            let frac_group = read_digits(fractional);
            if matches!(whole_group, DigitGroup::NotDigits) || matches!(frac_group, DigitGroup::NotDigits) {
                return Err(DecimalNumberParsingError::InvalidNumber(s.to_owned()));
            }
            let len = fractional.unicode_len();
            let mut tens: u64 = 1;
            let mut j: usize = 0;
            proof {
                reveal(pow);
            }
            while j < len
                invariant
                    j <= len,
                    len == fractional@.len(),
                    tens == pow(10, j as nat),
                    tens >= 1,
                decreases len - j,
            {
                proof {
                    reveal(pow);
                    lemma_pow_increases(10, (j + 1) as nat, len as nat);
                    assert(pow(10, (j + 1) as nat) == 10 * pow(10, j as nat));
                }
                match tens.checked_mul(10) {
                    Some(t) => {
                        tens = t;
                    },
                    None => {
                        return Err(DecimalNumberParsingError::LongFractional(fractional.to_owned()));
                    },
                }
                j = j + 1;
            }
            if tens > pref_const {
                return Err(DecimalNumberParsingError::LongFractional(fractional.to_owned()));
            }
            proof {
                lemma_digits_bound(fractional@);
            }
            // Fewer fractional digits than the scale has zeros: the fraction fits.
            let f = match frac_group {
                DigitGroup::Value(f) => f,
                _ => {
                    return Err(DecimalNumberParsingError::LongFractional(fractional.to_owned()));
                },
            };
            let fscale = pref_const / tens;
            assert(f * fscale <= pref_const) by (nonlinear_arith)
                requires
                    f < tens,
                    fscale == pref_const / tens,
                    tens > 0,
            ;
            let fv = f * fscale;
            let w = match whole_group {
                DigitGroup::Value(w) => w,
                _ => {
                    assert(digits_value(whole@) * pref_const > u64::MAX) by (nonlinear_arith)
                        requires
                            digits_value(whole@) > u64::MAX,
                            pref_const >= 1,
                    ;
                    return Err(DecimalNumberParsingError::LongWhole(canonical_digits(whole)));
                },
            };
            let wv = match w.checked_mul(pref_const) {
                Some(wv) => wv,
                None => {
                    return Err(DecimalNumberParsingError::LongWhole(decimal_string(w)));
                },
            };
            match fv.checked_add(wv) {
                Some(v) => Ok(v),
                None => Err(DecimalNumberParsingError::LongWhole(decimal_string(w))),
            }
        },
    }
}

/// `n` written with `k` fractional digits: the whole units at scale `10^k`,
/// a dot, and the rest padded to `k` digits; no dot when `k` is zero.
pub open spec fn decimal_of(n: nat, k: nat) -> Seq<char> {
    if k == 0 {
        decimal_repr(n)
    } else {
        decimal_repr(n / (pow(10, k) as nat)) + seq!['.'] + padded_repr(n % (pow(10, k) as nat), k)
    }
}

/// Where digits stand before a dot, that dot is the first one.
pub proof fn lemma_split_at_dot(whole: Seq<char>, frac: Seq<char>)
    requires
        all_digits(whole),
    ensures
        first_dot(whole + seq!['.'] + frac) == Some(whole.len() as int),
        (whole + seq!['.'] + frac).subrange(0, whole.len() as int) == whole,
        (whole + seq!['.'] + frac).subrange((whole.len() + 1) as int, (whole + seq!['.'] + frac).len() as int)
            == frac,
{
    let s = whole + seq!['.'] + frac;
    assert forall|k: int| 0 <= k < whole.len() implies s[k] != '.' by {
        assert(is_digit(whole[k]));
    }
    lemma_first_dot(s, whole.len() as int);
    assert(s.subrange(0, whole.len() as int) =~= whole);
    assert(s.subrange((whole.len() + 1) as int, s.len() as int) =~= frac);
}

/// Parsing `n` written with as many fractional digits as the scale has zeros
/// gives back `n`.
pub proof fn lemma_parse_reconstructs(n: u64, k: nat)
    requires
        pow(10, k) <= u64::MAX,
    ensures
        decimal_number_spec(decimal_of(n as nat, k), pow(10, k) as u64) == Ok::<u64, DecimalFailure>(
            n,
        ),
{
    let scale = pow(10, k);
    lemma_pow_positive(10, k);
    if k == 0 {
        reveal(pow);
        let s = decimal_repr(n as nat);
        lemma_decimal_repr(n as nat);
        assert forall|i: int| 0 <= i < s.len() implies s[i] != '.' by {
            assert(is_digit(s[i]));
        }
        lemma_no_dot(s);
    } else {
        let q = n as nat / (scale as nat);
        let m = n as nat % (scale as nat);
        let whole = decimal_repr(q);
        let frac = padded_repr(m, k);
        lemma_decimal_repr(q);
        lemma_padded_repr(m, k);
        lemma_split_at_dot(whole, frac);
        vstd::arithmetic::div_mod::lemma_fundamental_div_mod(n as int, scale);
        vstd::arithmetic::div_mod::lemma_mod_bound(n as int, scale);
        vstd::arithmetic::div_mod::lemma_small_mod(m, scale as nat);
        vstd::arithmetic::div_mod::lemma_div_pos_is_pos(n as int, scale);
        assert(q <= n) by (nonlinear_arith)
            requires
                q == n as nat / (scale as nat),
                scale >= 1,
        ;
        assert(scale / scale == 1) by (nonlinear_arith)
            requires
                scale >= 1,
        ;
    }
}

/// A fraction with a non-zero digit at place `k` after the dot, where `10^k`
/// exceeds the scale, is refused as too long.
pub proof fn lemma_inexact_fraction_refused(
    whole: Seq<char>,
    frac: Seq<char>,
    scale: u64,
    k: nat,
)
    requires
        is_digit_group(whole),
        is_digit_group(frac),
        1 <= k <= frac.len(),
        frac[k - 1] != '0',
        pow(10, k) > scale,
    ensures
        decimal_number_spec(whole + seq!['.'] + frac, scale) == Err::<u64, DecimalFailure>(
            DecimalFailure::LongFractional(frac),
        ),
{
    lemma_split_at_dot(whole, frac);
    lemma_pow_increases(10, k, frac.len());
}

/// The literal `whole`, or `whole.frac` where `frac` is not empty.
pub open spec fn literal(whole: Seq<char>, frac: Seq<char>) -> Seq<char> {
    if frac.len() == 0 {
        whole
    } else {
        whole + seq!['.'] + frac
    }
}

/// A literal whose value in gas (its value times the scale) is `2^64` or more
/// is refused as a long whole or a long fractional part, where the scale is a
/// power of ten.
pub proof fn lemma_overflow_refused(whole: Seq<char>, frac: Seq<char>, m: nat)
    requires
        pow(10, m) <= u64::MAX,
        is_digit_group(whole),
        frac.len() == 0 || is_digit_group(frac),
        (digits_value(whole) * pow(10, frac.len()) + digits_value(frac)) * pow(10, m) >= 0x1_0000_0000_0000_0000
            * pow(10, frac.len()),
    ensures
        decimal_number_spec(literal(whole, frac), pow(10, m) as u64) matches Err(e) && (
        e is LongWhole || e is LongFractional),
{
    let scale = pow(10, m);
    let len = frac.len();
    let tens = pow(10, len);
    let w = digits_value(whole);
    let f = digits_value(frac);
    lemma_pow_positive(10, len);
    lemma_pow_positive(10, m);
    if len == 0 {
        reveal(pow);
        assert(f == 0);
        assert forall|i: int| 0 <= i < whole.len() implies whole[i] != '.' by {
            assert(is_digit(whole[i]));
        }
        lemma_no_dot(whole);
        assert(w * scale >= 0x1_0000_0000_0000_0000);
    } else {
        lemma_split_at_dot(whole, frac);
        if tens <= scale {
            if len > m {
                vstd::arithmetic::power::lemma_pow_strictly_increases(10, m, len);
            }
            let d = (m - len) as nat;
            let p = pow(10, d);
            lemma_pow_positive(10, d);
            lemma_pow_adds(10, len, d);
            assert(scale == tens * p);
            vstd::arithmetic::div_mod::lemma_div_multiples_vanish(p, tens);
            assert(scale / tens == p) by (nonlinear_arith)
                requires
                    scale == tens * p,
                    (tens * p) / tens == p,
            ;
            assert(w * scale + f * p >= 0x1_0000_0000_0000_0000) by (nonlinear_arith)
                requires
                    (w * tens + f) * scale >= 0x1_0000_0000_0000_0000 * tens,
                    scale == tens * p,
                    tens > 0,
            ;
        }
    }
}

} // verus!
