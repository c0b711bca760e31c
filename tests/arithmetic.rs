use near_gas::NearGas;

#[test]
fn checked_add_gas() {
    let gas = NearGas::from_gas(u64::MAX - 3);
    let any_gas = NearGas::from_gas(3);
    let more_gas = NearGas::from_gas(4);
    assert_eq!(gas.checked_add(any_gas), Some(NearGas::from_gas(u64::MAX)));
    assert_eq!(gas.checked_add(more_gas), None);
}

#[test]
fn checked_sub_gas() {
    let gas = NearGas::from_gas(3);
    let any_gas = NearGas::from_gas(1);
    let more_gas = NearGas::from_gas(4);
    assert_eq!(gas.checked_sub(any_gas), Some(NearGas::from_gas(2)));
    assert_eq!(gas.checked_sub(more_gas), None);
}

#[test]
fn checked_mul_gas() {
    let gas = NearGas::from_gas(u64::MAX / 10);
    assert_eq!(
        gas.checked_mul(10),
        Some(NearGas::from_gas(u64::MAX / 10 * 10))
    );
    assert_eq!(gas.checked_mul(11), None);
}

#[test]
fn checked_div_gas() {
    let gas = NearGas::from_gas(10);
    assert_eq!(gas.checked_div(2), Some(NearGas::from_gas(5)));
    assert_eq!(gas.checked_div(11), Some(NearGas::from_gas(0)));
    assert_eq!(gas.checked_div(0), None);
}

#[test]
fn saturating_add_gas() {
    let gas = NearGas::from_gas(100);
    let added_gas = NearGas::from_gas(1);
    let another_gas = NearGas::from_gas(u64::MAX);
    assert_eq!(gas.saturating_add(added_gas), NearGas::from_gas(101));
    assert_eq!(
        another_gas.saturating_add(added_gas),
        NearGas::from_gas(u64::MAX)
    );
}

#[test]
fn saturating_sub_gas() {
    let gas = NearGas::from_gas(100);
    let rhs_gas = NearGas::from_gas(1);
    let another_gas = NearGas::from_gas(u64::MIN);
    assert_eq!(gas.saturating_sub(rhs_gas), NearGas::from_gas(99));
    assert_eq!(
        another_gas.saturating_sub(rhs_gas),
        NearGas::from_gas(u64::MIN)
    );
}

#[test]
fn saturating_mul_gas() {
    let gas = NearGas::from_gas(2);
    let rhs = 10;
    let another_gas = u64::MAX;
    assert_eq!(gas.saturating_mul(rhs), NearGas::from_gas(20));
    assert_eq!(gas.saturating_mul(another_gas), NearGas::from_gas(u64::MAX));
}

#[test]
fn saturating_div_gas() {
    let gas = NearGas::from_gas(10);
    let rhs = 2;
    let another_gas = 20;
    assert_eq!(gas.saturating_div(rhs), NearGas::from_gas(5));
    assert_eq!(gas.saturating_div(another_gas), NearGas::from_gas(0));
}
