use rublox::LoxError;
use rublox::interp::LoxValue::LNumber;
use rublox::environ::Environment;

#[test]
fn test_environment() {
    let mut env = Environment::new();
    env.define(0, "x", LNumber(4.0f64.to_bits()));
    assert_eq!(env.lookup(0, "x"), Some(LNumber(4.0f64.to_bits())));
    assert!(env.set(0, "x", LNumber(10.0f64.to_bits())).is_ok());
    assert_eq!(env.lookup(0, "x"), Some(LNumber(10.0f64.to_bits())));
}

#[test]
fn test_environment_chain() {
    let mut env = Environment::new();
    env.define(0, "x", LNumber(1.0f64.to_bits()));
    let child = env.new_scope(0);
    // the child reads through the chain
    assert_eq!(env.lookup(child, "x"), Some(LNumber(1.0f64.to_bits())));
    // a local definition shadows without touching the parent
    env.define(child, "x", LNumber(2.0f64.to_bits()));
    assert_eq!(env.lookup(child, "x"), Some(LNumber(2.0f64.to_bits())));
    assert_eq!(env.lookup(0, "x"), Some(LNumber(1.0f64.to_bits())));
    // assignment from the child writes the innermost existing binding
    env.define(0, "y", LNumber(3.0f64.to_bits()));
    assert!(env.set(child, "y", LNumber(4.0f64.to_bits())).is_ok());
    assert_eq!(env.lookup(0, "y"), Some(LNumber(4.0f64.to_bits())));
}

#[test]
fn test_environment_set_unknown_name_fails() {
    let mut env = Environment::new();
    let r = env.set(0, "nope", LNumber(1.0f64.to_bits()));
    assert_eq!(
        r,
        Err(LoxError::UndefinedVariable { name: String::from("nope") })
    );
    assert_eq!(env.lookup(0, "nope"), None);
}

#[test]
fn test_environment_redefine_replaces() {
    let mut env = Environment::new();
    env.define(0, "x", LNumber(1.0f64.to_bits()));
    env.define(0, "x", LNumber(2.0f64.to_bits()));
    assert_eq!(env.lookup(0, "x"), Some(LNumber(2.0f64.to_bits())));
}
