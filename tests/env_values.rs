use bril_jit::env::{Env, Value};
use bril_jit::interpreter::checked_trunc_div;

#[test]
fn env_put_get_overwrite() {
    let mut e = Env::new();
    let x = "x".to_string();
    let y = "y".to_string();
    assert_eq!(e.get(&x), None);
    e.put(&x, Value::Int(1));
    e.put(&y, Value::Bool(true));
    assert_eq!(e.get(&x), Some(Value::Int(1)));
    e.put(&x, Value::Int(2));
    assert_eq!(e.get(&x), Some(Value::Int(2)));
    assert_eq!(e.get(&y), Some(Value::Bool(true)));
}

#[test]
fn words_of_values() {
    assert_eq!(Value::Int(-4).to_word(), -4);
    assert_eq!(Value::Bool(true).to_word(), 1);
    assert_eq!(Value::Bool(false).to_word(), 0);
}

#[test]
fn truncating_division() {
    assert_eq!(checked_trunc_div(7, 2), Some(3));
    assert_eq!(checked_trunc_div(-7, 2), Some(-3));
    assert_eq!(checked_trunc_div(i64::MIN, 1), Some(i64::MIN));
    assert_eq!(checked_trunc_div(i64::MIN, 2), Some(i64::MIN / 2));
    assert_eq!(checked_trunc_div(i64::MIN, -1), None);
    assert_eq!(checked_trunc_div(3, 0), None);
}
