use frenyum_storage::gas::Gas;
use std::ops::{Add, Div, Mul, Sub};

#[test]
fn test_gas_allocation() {
    let initial_gas = Gas::new(1000);
    let additional_gas = Gas::new(500);

    let result_gas = initial_gas.add(additional_gas.amount());

    assert_eq!(result_gas.amount(), 1500);
}

#[test]
fn test_gas_consumption() {
    let initial_gas = Gas::new(1000);
    let consumed_gas = Gas::new(700);

    let result_gas = initial_gas.sub(consumed_gas);

    assert_eq!(result_gas.amount(), 300);
}

#[test]
fn test_gas_multiplication() {
    let gas1 = Gas::new(100);
    let gas2 = Gas::new(5);

    let result_gas = gas1.mul(gas2);

    assert_eq!(result_gas.amount(), 500);
}

#[test]
fn test_gas_division() {
    let initial_gas = Gas::new(1000);
    let divisor_gas = Gas::new(200);

    let result_gas = initial_gas.div(divisor_gas);

    assert_eq!(result_gas.amount(), 5);
}

#[test]
fn gas_subtraction_stops_at_zero() {
    assert_eq!((Gas::new(300) - Gas::new(700)).amount(), 0);
}

#[test]
fn gas_division_by_zero_gives_zero() {
    assert_eq!((Gas::new(1000) / Gas::new(0)).amount(), 0);
}

#[test]
fn gas_from_and_default() {
    assert_eq!(Gas::from(42).amount(), 42);
    assert_eq!(Gas::default().amount(), 0);
}

#[test]
fn gas_as_ref_is_amount() {
    let g = Gas::new(77);
    let r: &u64 = g.as_ref();
    assert_eq!(*r, 77);
}
