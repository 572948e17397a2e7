use aleo_prover_actor::text::{decimal_string, push_fixed2};

#[test]
fn decimal_rendering() {
    assert_eq!(decimal_string(0), "0");
    assert_eq!(decimal_string(7), "7");
    assert_eq!(decimal_string(10), "10");
    assert_eq!(decimal_string(1234567890), "1234567890");
    assert_eq!(decimal_string(u64::MAX as u128), u64::MAX.to_string());
    assert_eq!(decimal_string(u128::MAX), u128::MAX.to_string());
}

#[test]
fn fixed_two_decimals() {
    for (h, text) in [(0u128, "0.00"), (5, "0.05"), (10, "0.10"), (199, "1.99"), (10000, "100.00"), (123456, "1234.56")] {
        let mut s = String::from("x=");
        push_fixed2(&mut s, h);
        assert_eq!(s, format!("x={}", text));
    }
}

