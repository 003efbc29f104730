use inventory_core::money::{checked_sum, Amount, MAX_MANTISSA, MAX_SCALE};

fn amount(mantissa: i128, scale: u32) -> Amount {
    Amount::new(mantissa, scale).unwrap()
}

#[test]
fn exact_sum_of_two_item_prices() {
    // 10.50 + 5.25 == 15.75, exactly, as decimals
    let a = amount(1050, 2);
    let b = amount(525, 2);
    let total = a.checked_add(b).unwrap();
    assert_eq!(total.mantissa, 1575);
    assert_eq!(total.scale, 2);
}

#[test]
fn sum_aligns_different_scales() {
    // 1.5 + 0.25 == 1.75
    let total = amount(15, 1).checked_add(amount(25, 2)).unwrap();
    assert_eq!(total.mantissa, 175);
    assert_eq!(total.scale, 2);
}

#[test]
fn sum_handles_signs() {
    // -10.50 + 5.25 == -5.25
    let total = amount(-1050, 2).checked_add(amount(525, 2)).unwrap();
    assert_eq!(total.mantissa, -525);
    assert_eq!(total.scale, 2);
}

#[test]
fn overflowing_sum_is_reported_not_wrapped() {
    assert_eq!(amount(MAX_MANTISSA, 0).checked_add(amount(1, 0)), None);
    // aligning the largest mantissa across 28 digits cannot be exact
    assert_eq!(amount(MAX_MANTISSA, 0).checked_add(amount(1, 28)), None);
}

#[test]
fn list_sum_folds_in_order() {
    let v = vec![amount(1050, 2), amount(525, 2)];
    let total = checked_sum(&v).unwrap();
    assert_eq!(total.mantissa, 1575);
    assert_eq!(total.scale, 2);
}

#[test]
fn empty_list_sums_to_zero() {
    let v: Vec<Amount> = Vec::new();
    let total = checked_sum(&v).unwrap();
    assert_eq!(total.mantissa, 0);
    assert_eq!(total.scale, 0);
}

#[test]
fn construction_rejects_out_of_range_values() {
    assert!(Amount::new(0, MAX_SCALE).is_some());
    assert_eq!(Amount::new(0, MAX_SCALE + 1), None);
    assert!(Amount::new(MAX_MANTISSA, 0).is_some());
    assert_eq!(Amount::new(MAX_MANTISSA + 1, 0), None);
    assert_eq!(Amount::new(-MAX_MANTISSA - 1, 0), None);
}
