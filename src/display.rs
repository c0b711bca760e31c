use crate::decimal::{decimal_number_spec, lemma_no_dot, lemma_split_at_dot, DecimalFailure};
use crate::digits::{
    all_digits, decimal_repr, decimal_string, digits_value, is_digit, lemma_decimal_repr, lemma_padded_repr,
    padded_repr, padded_string,
};
use crate::gas::{NearGas, ONE_GIGA_GAS, ONE_TERA_GAS};
use vstd::arithmetic::div_mod::{lemma_div_is_ordered, lemma_fundamental_div_mod, lemma_mod_bound};
use vstd::arithmetic::power::pow;
use vstd::prelude::*;
use vstd::string::StringExecFns;

verus! {

/// `a + b`, held at the largest 64-bit count.
pub open spec fn saturating_sum(a: int, b: int) -> int {
    if a + b > u64::MAX {
        u64::MAX as int
    } else {
        a + b
    }
}

/// Gigagas in `c`, rounded up (for the band below one teragas).
pub open spec fn gigagas_up(c: u64) -> nat {
    ((c + ONE_GIGA_GAS - 1) / (ONE_GIGA_GAS as int)) as nat
}

/// Tenths of a teragas in `c`, rounded up, where the sum stops at the
/// largest 64-bit count.
pub open spec fn tenths_up(c: u64) -> nat {
    (saturating_sum(c as int, 100 * ONE_GIGA_GAS - 1) / (100 * ONE_GIGA_GAS as int)) as nat
}

/// The number shown for a count of gas `c`, in teragas: zero; below one
/// gigagas; three digits under one teragas; one digit above it, always
/// rounded up.
pub open spec fn shown_number(c: u64) -> Seq<char> {
    if c == 0 {
        "0"@
    } else if c < ONE_GIGA_GAS {
        "<0.001"@
    } else if c <= 999 * ONE_GIGA_GAS {
        "0."@ + padded_repr(gigagas_up(c), 3)
    } else {
        decimal_repr(tenths_up(c) / 10) + "."@ + decimal_repr(tenths_up(c) % 10)
    }
}

/// The text shown for a count of gas `c`.
pub open spec fn display_spec(c: u64) -> Seq<char> {
    shown_number(c) + " Tgas"@
}

/// Writes the number shown for a count of gas.
fn shown_number_string(c: u64) -> (r: String)
    ensures
        r@ == shown_number(c),
{
    if c == 0 {
        "0".to_owned()
    } else if c < ONE_GIGA_GAS {
        "<0.001".to_owned()
    } else if c <= 999 * ONE_GIGA_GAS {
        let gigagas_rounded_up = c.saturating_add(ONE_GIGA_GAS - 1) / ONE_GIGA_GAS;
        let mut s = "0.".to_owned();
        s.append(padded_string(gigagas_rounded_up, 3).as_str());
        s
    } else {
        let tenths_rounded_up = c.saturating_add(100 * ONE_GIGA_GAS - 1) / ONE_GIGA_GAS / 100;
        proof {
            let x = saturating_sum(c as int, 100 * ONE_GIGA_GAS - 1);
            vstd::arithmetic::div_mod::lemma_div_denominator(x, ONE_GIGA_GAS as int, 100);
            assert(tenths_rounded_up == tenths_up(c));
        }
        let mut s = decimal_string(tenths_rounded_up / 10);
        s.append(".");
        s.append(decimal_string(tenths_rounded_up % 10).as_str());
        s
    }
}

impl NearGas {
    /// Renders the amount in teragas for people to read, rounded up: `"0 Tgas"`,
    /// `"<0.001 Tgas"`, `"0.ddd Tgas"` below one teragas, `"d.d Tgas"` above.
    pub fn to_string(&self) -> (r: String)
        ensures
            r@ == display_spec(self@),
    {
        let mut s = shown_number_string(self.as_gas());
        s.append(" Tgas");
        s
    }
}

/// The count that the shown number stands for, where it is a decimal.
pub open spec fn shown_value(c: u64) -> nat {
    if c == 0 {
        0
    } else if c <= 999 * ONE_GIGA_GAS {
        (gigagas_up(c) * ONE_GIGA_GAS) as nat
    } else {
        (tenths_up(c) * (100 * ONE_GIGA_GAS)) as nat
    }
}

/// The shown number, read back at teragas scale, is the count it stands for.
proof fn lemma_shown_number_parses(c: u64)
    requires
        !(0 < c < ONE_GIGA_GAS),
    ensures
        shown_value(c) <= u64::MAX,
        decimal_number_spec(shown_number(c), ONE_TERA_GAS) == Ok::<u64, DecimalFailure>(
            shown_value(c) as u64,
        ),
{
    reveal_with_fuel(pow, 4);
    let zero = seq!['0'];
    assert(digits_value(zero) == 0) by {
        assert(zero.drop_last() =~= Seq::<char>::empty());
        assert(digits_value(Seq::<char>::empty()) == 0);
        assert(zero.last() == '0');
    }
    assert(all_digits(zero)) by {
        assert(is_digit(zero[0]));
    }
    if c == 0 {
        reveal_strlit("0");
        assert("0"@ =~= zero);
        lemma_no_dot(zero);
    } else if c <= 999 * ONE_GIGA_GAS {
        reveal_strlit("0.");
        let g = gigagas_up(c);
        let frac = padded_repr(g, 3);
        assert(g <= 999);
        lemma_padded_repr(g, 3);
        vstd::arithmetic::div_mod::lemma_small_mod(g, 1000);
        assert("0."@ + frac =~= zero + seq!['.'] + frac);
        lemma_split_at_dot(zero, frac);
        let s = zero + seq!['.'] + frac;
        assert(shown_number(c) == s);
        assert(pow(10, 3) == 1000);
        assert(ONE_TERA_GAS as int / 1000 == ONE_GIGA_GAS);
        assert(decimal_number_spec(s, ONE_TERA_GAS) == Ok::<u64, DecimalFailure>((g * ONE_GIGA_GAS) as u64));
    } else {
        let d = tenths_up(c);
        let whole = decimal_repr(d / 10);
        let frac = decimal_repr(d % 10);
        reveal_strlit(".");
        lemma_decimal_repr(d / 10);
        lemma_decimal_repr(d % 10);
        assert(frac.len() == 1);
        lemma_split_at_dot(whole, frac);
        lemma_fundamental_div_mod(d as int, 10);
        assert(d * (100 * ONE_GIGA_GAS) <= u64::MAX) by (nonlinear_arith)
            requires
                d == saturating_sum(c as int, 100 * ONE_GIGA_GAS - 1) / (100 * ONE_GIGA_GAS as int),
                saturating_sum(c as int, 100 * ONE_GIGA_GAS - 1) <= u64::MAX,
        ;
        let s = whole + seq!['.'] + frac;
        assert(shown_number(c) == s);
        assert(ONE_TERA_GAS as int / 10 == 100 * ONE_GIGA_GAS);
        assert((d / 10) * ONE_TERA_GAS + (d % 10) * (100 * ONE_GIGA_GAS) == d * (100 * ONE_GIGA_GAS));
        assert(decimal_number_spec(s, ONE_TERA_GAS) == Ok::<u64, DecimalFailure>((d * (100 * ONE_GIGA_GAS)) as u64));
    }
}

/// Read back at teragas scale, a larger amount never shows a smaller number
/// (for amounts whose shown number is a decimal, that is, not below one
/// gigagas other than zero).
pub proof fn lemma_display_monotone(a: u64, b: u64)
    requires
        a <= b,
        !(0 < a < ONE_GIGA_GAS),
        !(0 < b < ONE_GIGA_GAS),
    ensures
        decimal_number_spec(shown_number(a), ONE_TERA_GAS) is Ok,
        decimal_number_spec(shown_number(b), ONE_TERA_GAS) is Ok,
        decimal_number_spec(shown_number(a), ONE_TERA_GAS)->Ok_0 <= decimal_number_spec(
            shown_number(b),
            ONE_TERA_GAS,
        )->Ok_0,
{
    lemma_shown_number_parses(a);
    lemma_shown_number_parses(b);
    let h = 100 * ONE_GIGA_GAS as int;
    if a != 0 {
        if b <= 999 * ONE_GIGA_GAS {
            lemma_div_is_ordered(a + ONE_GIGA_GAS - 1, b + ONE_GIGA_GAS - 1, ONE_GIGA_GAS as int);
        } else if a <= 999 * ONE_GIGA_GAS {
            assert(gigagas_up(a) <= 999) by {
                lemma_div_is_ordered(
                    a + ONE_GIGA_GAS - 1,
                    999 * ONE_GIGA_GAS + ONE_GIGA_GAS - 1,
                    ONE_GIGA_GAS as int,
                );
            }
            lemma_div_is_ordered(10 * h, saturating_sum(b as int, h - 1), h);
            assert((10 * h) / h == 10);
        } else {
            lemma_div_is_ordered(saturating_sum(a as int, h - 1), saturating_sum(b as int, h - 1), h);
        }
    }
}

/// Under one teragas, the shown number read back at teragas scale is never
/// below the amount.
pub proof fn lemma_display_rounds_up(c: u64)
    requires
        ONE_GIGA_GAS <= c <= 999 * ONE_GIGA_GAS,
    ensures
        decimal_number_spec(shown_number(c), ONE_TERA_GAS) is Ok,
        decimal_number_spec(shown_number(c), ONE_TERA_GAS)->Ok_0 >= c,
{
    lemma_shown_number_parses(c);
    let x = c + ONE_GIGA_GAS - 1;
    lemma_fundamental_div_mod(x, ONE_GIGA_GAS as int);
    lemma_mod_bound(x, ONE_GIGA_GAS as int);
}

/// From one teragas up, the shown number read back at teragas scale is the
/// amount rounded up to a tenth of a teragas (where that sum fits in 64 bits).
pub proof fn lemma_display_tenths(c: u64)
    requires
        c > 999 * ONE_GIGA_GAS,
    ensures
        decimal_number_spec(shown_number(c), ONE_TERA_GAS) == Ok::<u64, DecimalFailure>(
            (tenths_up(c) * (100 * ONE_GIGA_GAS)) as u64,
        ),
{
    lemma_shown_number_parses(c);
}

/// The lowest band, shown as `"<0.001"`, stands between zero and one gigagas:
/// an amount at or below one in that band is zero or in that band too, and an
/// amount above one in that band and outside it shows a number that reads
/// back at teragas scale as one gigagas or more.
pub proof fn lemma_display_monotone_lowest_band(a: u64, b: u64)
    requires
        a <= b,
        (0 < a < ONE_GIGA_GAS) || (0 < b < ONE_GIGA_GAS),
    ensures
        0 < a < ONE_GIGA_GAS ==> shown_number(a) == "<0.001"@,
        0 < b < ONE_GIGA_GAS ==> shown_number(b) == "<0.001"@,
        0 < b < ONE_GIGA_GAS ==> (0 < a < ONE_GIGA_GAS) || (a == 0 && decimal_number_spec(
            shown_number(a),
            ONE_TERA_GAS,
        ) == Ok::<u64, DecimalFailure>(0)),
        !(0 < b < ONE_GIGA_GAS) ==> decimal_number_spec(shown_number(b), ONE_TERA_GAS) is Ok
            && decimal_number_spec(shown_number(b), ONE_TERA_GAS)->Ok_0 >= ONE_GIGA_GAS,
{
    if a == 0 {
        lemma_shown_number_parses(a);
    }
    if !(0 < b < ONE_GIGA_GAS) {
        lemma_shown_number_parses(b);
        if b <= 999 * ONE_GIGA_GAS {
            lemma_div_is_ordered(
                2 * ONE_GIGA_GAS - 1,
                b + ONE_GIGA_GAS - 1,
                ONE_GIGA_GAS as int,
            );
        } else {
            let h = 100 * ONE_GIGA_GAS as int;
            lemma_div_is_ordered(10 * h, saturating_sum(b as int, h - 1), h);
            assert((10 * h) / h == 10);
        }
    }
}

} // verus!
