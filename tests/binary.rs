use near_gas::NearGas;

#[test]
fn borsh() {
    let cases: [(u64, [u8; 8]); 3] = [
        (u64::MAX, [255, 255, 255, 255, 255, 255, 255, 255]),
        (8, [8, 0, 0, 0, 0, 0, 0, 0]),
        (0, [0, 0, 0, 0, 0, 0, 0, 0]),
    ];
    for (val, expected_serialized_value) in cases {
        let gas = NearGas::from_gas(val);
        let ser = gas.to_bytes();
        assert_eq!(expected_serialized_value, ser.as_slice());
        let de: NearGas = NearGas::try_from_slice(&ser).unwrap();
        assert_eq!(de.as_gas(), val);
    }
}
