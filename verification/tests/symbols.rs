use std::collections::HashMap;

use string_intern::{AlphaNumString, AnyString, InternTable, Symbol, Validator};

type Atom = Symbol<AnyString>;
type AlphaNum = Symbol<AlphaNumString>;

fn assert_sync<T: Sync>(_: T) {}

fn assert_send<T: Send>(_: T) {}

#[test]
fn eq() {
    let mut t = InternTable::new();
    assert_eq!(Atom::from(&mut t, "x"), Atom::from(&mut t, "x"));
}

#[test]
fn ord() {
    let mut t = InternTable::new();
    assert!(Atom::from(&mut t, "a") < Atom::from(&mut t, "b"));
}

#[test]
fn clone() {
    let mut t = InternTable::new();
    assert_eq!(Atom::from(&mut t, "x").clone(), Atom::from(&mut t, "x"));
}

#[test]
fn hash() {
    let mut t = InternTable::new();
    let mut h = HashMap::new();
    h.insert(Atom::from(&mut t, "x"), 123);
    assert_eq!(h.get("x"), Some(&123));
    assert_eq!(h.get(&Atom::from(&mut t, "x")), Some(&123));
    assert_eq!(h.get("y"), None);
    assert_eq!(h.get(&Atom::from(&mut t, "y")), None);
}

#[test]
fn test_sync() {
    let mut t = InternTable::new();
    assert_sync(Symbol::<AnyString>::from(&mut t, "x"));
}

#[test]
fn test_send() {
    let mut t = InternTable::new();
    assert_send(Symbol::<AnyString>::from(&mut t, "x"));
}

#[test]
#[should_panic]
fn distinct_validators() {
    let mut t = InternTable::new();
    let _xa = Atom::from(&mut t, "x");
    let _xn = AlphaNum::from(&mut t, "x");
    let _ya = Atom::from(&mut t, "a-b");
    // The alphanumeric domain rejects this value, so the trusted-constant
    // construction path halts.
    let _yn = AlphaNum::from(&mut t, "a-b");
}

#[test]
fn content_access() {
    let mut t = InternTable::new();
    let a = Atom::from(&mut t, "hello world");
    assert_eq!(a.as_str(), "hello world");
    assert_eq!(a.to_text(), String::from("hello world"));
}

#[test]
fn unicode_content() {
    let mut t = InternTable::new();
    let a: Atom = t.resolve("héllo wörld").unwrap();
    assert_eq!(a.as_str(), "héllo wörld");
    let b: Atom = t.resolve("héllo wörld").unwrap();
    assert!(a.same_storage(&b));
}

#[test]
fn lexical_order() {
    let mut t = InternTable::new();
    let ab: Atom = t.resolve("ab").unwrap();
    let abc: Atom = t.resolve("abc").unwrap();
    let abd: Atom = t.resolve("abd").unwrap();
    assert!(ab < abc);
    assert!(abc < abd);
    assert!(ab < abd);
    assert!(abd > abc);
    assert!(abc <= abc.clone());
    assert!(!(abc < abc.clone()));
}

#[test]
fn total_order_sorts() {
    let mut t = InternTable::new();
    let a: Atom = t.resolve("apple").unwrap();
    let b: Atom = t.resolve("banana").unwrap();
    let c: Atom = t.resolve("cherry").unwrap();
    let mut v = vec![c.clone(), a.clone(), b.clone()];
    v.sort();
    assert_eq!(v, vec![a, b, c]);
}

#[test]
fn validate_directly() {
    assert!(<AlphaNumString as Validator>::validate_symbol("abc123").is_ok());
    assert!(<AlphaNumString as Validator>::validate_symbol("").is_ok());
    assert!(<AlphaNumString as Validator>::validate_symbol("a b").is_err());
    assert!(<AlphaNumString as Validator>::validate_symbol("a-b").is_err());
    assert!(<AnyString as Validator>::validate_symbol("a-b").is_ok());
}

#[test]
fn storage_not_shared_between_contents() {
    let mut t = InternTable::new();
    let a: Atom = t.resolve("one").unwrap();
    let b: Atom = t.resolve("two").unwrap();
    assert!(!a.same_storage(&b));
    assert_ne!(a, b);
    let c = a.clone();
    assert!(a.same_storage(&c));
}
