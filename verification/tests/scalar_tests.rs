use verdure::scalar::Value;

const U: i64 = 65536;

#[test]
fn finiteness_of_each_variant() {
    assert!(Value::Finite(0).is_finite());
    assert!(Value::Finite(i64::MIN).is_finite());
    assert!(!Value::Nan.is_finite());
    assert!(!Value::PosInf.is_finite());
    assert!(!Value::NegInf.is_finite());
}

#[test]
fn addition_saturates_to_infinities() {
    assert_eq!(
        Value::Finite(i64::MAX).add(Value::Finite(1)),
        Value::PosInf
    );
    assert_eq!(
        Value::Finite(i64::MIN).add(Value::Finite(-1)),
        Value::NegInf
    );
    assert_eq!(Value::Finite(3).add(Value::Finite(4)), Value::Finite(7));
}

#[test]
fn invalid_values_absorb_addition() {
    assert_eq!(Value::Nan.add(Value::Finite(5)), Value::Nan);
    assert_eq!(Value::PosInf.add(Value::NegInf), Value::Nan);
    assert_eq!(Value::PosInf.add(Value::Finite(-100)), Value::PosInf);
    assert_eq!(Value::NegInf.add(Value::Finite(100)), Value::NegInf);
}

#[test]
fn comparison_skips_the_unordered() {
    assert!(Value::Finite(1).lt(Value::Finite(2)));
    assert!(!Value::Finite(2).lt(Value::Finite(1)));
    assert!(!Value::Nan.lt(Value::Finite(1)));
    assert!(!Value::Finite(1).lt(Value::Nan));
    assert!(!Value::Nan.lt(Value::Nan));
    assert!(Value::NegInf.lt(Value::Finite(i64::MIN)));
    assert!(Value::Finite(i64::MAX).lt(Value::PosInf));
    assert!(!Value::PosInf.lt(Value::PosInf));
}

#[test]
fn lerp_is_exact_at_the_endpoints() {
    assert_eq!(Value::Nan.lerp(Value::Finite(5), 0), Value::Nan);
    assert_eq!(Value::Nan.lerp(Value::Finite(5), U), Value::Finite(5));
    assert_eq!(Value::PosInf.lerp(Value::Finite(5), 0), Value::PosInf);
    assert_eq!(Value::Finite(9).lerp(Value::PosInf, 0), Value::Finite(9));
}

#[test]
fn lerp_blends_finite_values() {
    assert_eq!(
        Value::Finite(0).lerp(Value::Finite(100), U / 2),
        Value::Finite(50)
    );
    assert_eq!(
        Value::Finite(-100).lerp(Value::Finite(100), U / 4),
        Value::Finite(-50)
    );
    // A non-finite operand strictly inside poisons the blend.
    assert_eq!(Value::Finite(0).lerp(Value::Nan, U / 2), Value::Nan);
    assert_eq!(Value::PosInf.lerp(Value::Finite(0), 7), Value::Nan);
}
