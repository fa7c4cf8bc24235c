use fasb::registry::{negate, split_sign, Registry};

#[test]
fn registry_insert_and_lookup() {
    let mut r = Registry::new();
    assert!(r.insert("p(1,2)".to_string(), 4));
    assert!(r.insert("q".to_string(), 9));
    assert!(r.insert("p(1,2)".to_string(), 6));
    assert_eq!(r.get(&"p(1,2)".to_string()), Some(6));
    assert_eq!(r.get(&"r".to_string()), None);
    assert_eq!(r.resolve(&"~q".to_string()), Some(-9));
    assert_eq!(r.resolve(&"q".to_string()), Some(9));
}

#[test]
fn registry_refuses_unnegatable_literal() {
    let mut r = Registry::new();
    assert!(!r.insert("x".to_string(), i32::MIN));
    assert_eq!(r.get(&"x".to_string()), None);
}

#[test]
fn sign_of_repr() {
    assert_eq!(split_sign(&"~a".to_string()), (true, "a".to_string()));
    assert_eq!(split_sign(&"a".to_string()), (false, "a".to_string()));
    assert_eq!(split_sign(&"".to_string()), (false, "".to_string()));
    assert_eq!(negate(5), -5);
}
