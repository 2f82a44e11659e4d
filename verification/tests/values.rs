use luno::value::{Key, Variable, key_of};

#[test]
fn nan_is_not_equal_to_itself() {
    let nan = Variable::Float(f64::NAN.to_bits());
    assert!(!nan.is_equal(&nan));
}

#[test]
fn zeros_are_equal() {
    let pos = Variable::Float(0.0f64.to_bits());
    let neg = Variable::Float((-0.0f64).to_bits());
    assert!(pos.is_equal(&neg));
}

#[test]
fn truthiness() {
    assert!(!Variable::Nil.is_truthy());
    assert!(!Variable::Boolean(false).is_truthy());
    assert!(Variable::Boolean(true).is_truthy());
    assert!(Variable::Float(0.0f64.to_bits()).is_truthy());
}

#[test]
fn keys_of_non_numbers() {
    assert_eq!(key_of(Variable::Boolean(true)), Some(Key::Boolean(true)));
    assert_eq!(key_of(Variable::Float(1.0f64.to_bits())), None);
}

