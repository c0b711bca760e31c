use std::str::FromStr;

use near_gas::{DecimalNumberParsingError, NearGas, NearGasError};

#[test]
fn binary_form_is_little_endian() {
    let g = NearGas::from_gas(0x0102_0304_0506_0708);
    assert_eq!(g.to_bytes(), vec![8, 7, 6, 5, 4, 3, 2, 1]);
    assert_eq!(NearGas::try_from_slice(&g.to_bytes()), Some(g));
}

#[test]
fn binary_form_needs_eight_bytes() {
    assert_eq!(NearGas::try_from_slice(&[1, 2, 3]), None);
    assert_eq!(NearGas::try_from_slice(&[0; 9]), None);
    assert_eq!(NearGas::try_from_slice(&[]), None);
    assert_eq!(
        NearGas::try_from_slice(&[1, 0, 0, 0, 0, 0, 0, 0]),
        Some(NearGas::from_gas(1))
    );
}

#[test]
fn decimal_string_form() {
    assert_eq!(NearGas::from_gas(0).to_decimal_string(), "0");
    assert_eq!(NearGas::from_gas(8).to_decimal_string(), "8");
    assert_eq!(
        NearGas::from_gas(u64::MAX).to_decimal_string(),
        "18446744073709551615"
    );
}

#[test]
fn string_and_integer_forms_agree() {
    for n in [0u64, 100, 9_007_199_254_740_993, i64::MAX as u64, u64::MAX] {
        let text = NearGas::from_gas(n).to_decimal_string();
        assert_eq!(NearGas::from_decimal_str(&text), Some(NearGas::from_gas(n)));
    }
    assert_eq!(
        NearGas::from_decimal_str("100"),
        NearGas::from_i64(100)
    );
    assert_eq!(NearGas::from_i64(100), Some(NearGas::from_gas(100)));
    assert_eq!(NearGas::from_i64(i64::MAX), Some(NearGas::from_gas(i64::MAX as u64)));
}

#[test]
fn negative_and_malformed_forms_are_refused() {
    assert_eq!(NearGas::from_i64(-1), None);
    assert_eq!(NearGas::from_i64(i64::MIN), None);
    assert_eq!(NearGas::from_decimal_str("-1"), None);
    assert_eq!(NearGas::from_decimal_str(""), None);
    assert_eq!(NearGas::from_decimal_str("1.0"), None);
    assert_eq!(NearGas::from_decimal_str("18446744073709551616"), None);
    assert_eq!(
        NearGas::from_decimal_str("007"),
        Some(NearGas::from_gas(7))
    );
}

#[test]
fn text_form_trims_and_ignores_case() {
    assert_eq!(
        NearGas::from_str("  10 tgas"),
        Ok(NearGas::from_gas(10_000_000_000_000))
    );
    assert_eq!(
        NearGas::from_str("\u{3000}5 GiGaGaS\u{a0}"),
        Ok(NearGas::from_gas(5_000_000_000))
    );
    assert_eq!(
        NearGas::from_str("1.5\tPgas"),
        Ok(NearGas::from_gas(1_500_000_000_000_000))
    );
    assert_eq!(NearGas::parse("0.001 tgas"), Ok(NearGas::from_ggas(1)));
}

#[test]
fn text_form_unit_errors() {
    assert_eq!(
        NearGas::from_str("10 tgas x"),
        Err(NearGasError::IncorrectUnit("10 tgas x".to_string()))
    );
    assert_eq!(
        NearGas::from_str("  "),
        Err(NearGasError::IncorrectUnit("  ".to_string()))
    );
    assert_eq!(
        NearGas::from_str(" 5 gas "),
        Err(NearGasError::IncorrectUnit(" 5 gas ".to_string()))
    );
}

#[test]
fn text_form_number_errors() {
    assert_eq!(
        NearGas::from_str("20000000 tgas"),
        Err(NearGasError::IncorrectNumber(
            DecimalNumberParsingError::LongWhole("20000000".to_string())
        ))
    );
    assert_eq!(
        NearGas::from_str("tgas"),
        Err(NearGasError::IncorrectNumber(
            DecimalNumberParsingError::InvalidNumber("".to_string())
        ))
    );
    assert_eq!(
        NearGas::from_str("18446744073709551616 ggas"),
        Err(NearGasError::IncorrectNumber(
            DecimalNumberParsingError::LongWhole("18446744073709551616".to_string())
        ))
    );
    assert_eq!(
        NearGas::from_str("1.0000000001 ggas"),
        Err(NearGasError::IncorrectNumber(
            DecimalNumberParsingError::LongFractional("0000000001".to_string())
        ))
    );
}

#[test]
fn error_messages() {
    assert_eq!(
        DecimalNumberParsingError::InvalidNumber("1h4".to_string()).to_string(),
        "Invalid number: 1h4"
    );
    assert_eq!(
        DecimalNumberParsingError::LongWhole("12".to_string()).to_string(),
        "Long whole part: 12"
    );
    assert_eq!(
        DecimalNumberParsingError::LongFractional("0001".to_string()).to_string(),
        "Long fractional part: 0001"
    );
    assert_eq!(
        NearGasError::IncorrectUnit("0 pas".to_string()).to_string(),
        "Incorrect unit: 0 pas"
    );
    assert_eq!(
        NearGasError::IncorrectNumber(DecimalNumberParsingError::InvalidNumber("-1".to_string()))
            .to_string(),
        "Incorrect number: InvalidNumber(\"-1\")"
    );
}

#[test]
fn debug_forms_of_decimal_errors() {
    let e = DecimalNumberParsingError::LongWhole("12".to_string());
    assert_eq!(e.debug_string_from("<12>"), "LongWhole(<12>)");
    assert_eq!(e.debug_string(), "LongWhole(\"12\")");
    let q = DecimalNumberParsingError::InvalidNumber("a\"b\n".to_string());
    assert_eq!(q.debug_string(), format!("{:?}", q));
    assert_eq!(q.debug_string(), "InvalidNumber(\"a\\\"b\\n\")");
}

#[test]
fn decimal_string_form_takes_one_plus_sign() {
    assert_eq!(NearGas::from_decimal_str("+5"), Some(NearGas::from_gas(5)));
    assert_eq!(
        NearGas::from_decimal_str("+18446744073709551615"),
        Some(NearGas::from_gas(u64::MAX))
    );
    assert_eq!(NearGas::from_decimal_str("+"), None);
    assert_eq!(NearGas::from_decimal_str("++5"), None);
    assert_eq!(NearGas::from_decimal_str("5+"), None);
}

#[test]
fn from_str_matches_parse() {
    for s in ["10 tgas", "  10 tgas", "   a", "0", "-1 TeraGas", "1.5 pgas"] {
        assert_eq!(NearGas::from_str(s), NearGas::parse(s));
    }
    assert_eq!(
        NearGas::from_str("   a"),
        Err(NearGasError::IncorrectUnit("   a".to_string()))
    );
}
