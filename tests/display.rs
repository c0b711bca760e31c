use near_gas::NearGas;

#[test]
fn test_display() {
    for (near_gas, expected_display) in [
        (NearGas::from_gas(0), "0 Tgas"),
        (NearGas::from_gas(1), "<0.001 Tgas"),
        (NearGas::from_gas(999_999_999), "<0.001 Tgas"),
        (NearGas::from_gas(1_000_000_000), "0.001 Tgas"),
        (NearGas::from_gas(1_000_000_001), "0.002 Tgas"),
        (NearGas::from_gas(2_000_000_000), "0.002 Tgas"),
        (NearGas::from_gas(200_000_000_000), "0.200 Tgas"),
        (NearGas::from_gas(999_000_000_000), "0.999 Tgas"),
        (NearGas::from_gas(999_000_000_001), "1.0 Tgas"),
        (NearGas::from_gas(999_999_999_999), "1.0 Tgas"),
        (NearGas::from_gas(1_000_000_000_000), "1.0 Tgas"),
        (NearGas::from_gas(1_000_000_000_001), "1.1 Tgas"),
        (NearGas::from_gas(1_234_567_000_000), "1.3 Tgas"),
        (NearGas::from_gas(1_500_000_000_000), "1.5 Tgas"),
        (NearGas::from_gas(10_000_000_000_000), "10.0 Tgas"),
        (NearGas::from_gas(10_500_000_000_000), "10.5 Tgas"),
        (NearGas::from_gas(99_999_999_999_999), "100.0 Tgas"),
        (NearGas::from_gas(100_000_000_000_000), "100.0 Tgas"),
        (NearGas::from_gas(100_500_000_000_000), "100.5 Tgas"),
        (NearGas::from_gas(1_000_500_000_000_000), "1000.5 Tgas"),
        (
            NearGas::from_gas(1_000_000_500_000_000_000),
            "1000000.5 Tgas",
        ),
    ] {
        assert_eq!(
            near_gas.to_string(),
            expected_display,
            "gas: {}",
            near_gas.as_gas()
        );
    }
}
