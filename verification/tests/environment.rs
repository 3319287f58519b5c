use scriptling::environment::Environment;
use scriptling::number::Number;
use scriptling::value::Value;

fn num(value: f64) -> Value {
    Value::Number(Number::from_bits(value.to_bits()))
}

#[test]
fn new_environment_binds_nothing() {
    let env = Environment::new();
    assert_eq!(env.get(&"x".to_string()), None);
    assert_eq!(env.get(&String::new()), None);
}

#[test]
fn insert_binds_and_rebinds() {
    let mut env = Environment::new();
    env.insert("x".to_string(), num(1.0));
    env.insert("y".to_string(), Value::String("why".to_string()));
    assert_eq!(env.get(&"x".to_string()), Some(num(1.0)));
    assert_eq!(env.get(&"y".to_string()), Some(Value::String("why".to_string())));
    env.insert("x".to_string(), Value::Boolean(true));
    assert_eq!(env.get(&"x".to_string()), Some(Value::Boolean(true)));
    assert_eq!(env.get(&"y".to_string()), Some(Value::String("why".to_string())));
    assert_eq!(env.get(&"z".to_string()), None);
    env.insert("y".to_string(), Value::Null);
    assert_eq!(env.get(&"y".to_string()), Some(Value::Null));
    assert_eq!(env.get(&"x".to_string()), Some(Value::Boolean(true)));
}

#[test]
fn names_are_told_apart_exactly() {
    let mut env = Environment::new();
    env.insert("ab".to_string(), num(1.0));
    assert_eq!(env.get(&"a".to_string()), None);
    assert_eq!(env.get(&"abc".to_string()), None);
    assert_eq!(env.get(&"AB".to_string()), None);
    assert_eq!(env.get(&"ab".to_string()), Some(num(1.0)));
}

#[test]
fn copy_is_independent() {
    let mut env = Environment::new();
    env.insert("x".to_string(), num(1.0));
    let mut copy = env.duplicate();
    copy.insert("x".to_string(), num(2.0));
    copy.insert("y".to_string(), num(3.0));
    assert_eq!(env.get(&"x".to_string()), Some(num(1.0)));
    assert_eq!(env.get(&"y".to_string()), None);
    assert_eq!(copy.get(&"x".to_string()), Some(num(2.0)));
    assert_eq!(copy.get(&"y".to_string()), Some(num(3.0)));
    let again = env.clone();
    assert_eq!(again.get(&"x".to_string()), Some(num(1.0)));
}
