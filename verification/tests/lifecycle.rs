use string_intern::{AlphaNumString, AnyString, InternTable, NotAlphaNumeric, Symbol};

type Atom = Symbol<AnyString>;
type AlphaNum = Symbol<AlphaNumString>;

#[test]
fn resolve_deduplicates() {
    let mut t = InternTable::new();
    let a: Atom = t.resolve("value").unwrap();
    let b: Atom = t.resolve("value").unwrap();
    assert_eq!(a, b);
    assert!(a.same_storage(&b));
    assert_eq!(t.len(), 1);
    assert_eq!(t.count_of("value"), 2);
}

#[test]
fn round_trip() {
    let mut t = InternTable::new();
    let a: Atom = t.resolve("some text").unwrap();
    let rendered = a.to_text();
    let b: Atom = t.resolve(&rendered).unwrap();
    assert_eq!(a, b);
    assert!(a.same_storage(&b));
}

#[test]
fn shared_across_domains() {
    let mut t = InternTable::new();
    let a: Atom = t.resolve("abc").unwrap();
    let b: AlphaNum = t.resolve("abc").unwrap();
    // One slot serves both domains; the handles stay distinct types.
    assert_eq!(t.len(), 1);
    assert_eq!(t.count_of("abc"), 2);
    assert_eq!(a.as_str(), b.as_str());
}

#[test]
fn validation_not_bypassed_by_sharing() {
    let mut t = InternTable::new();
    let _a: Atom = t.resolve("a-b").unwrap();
    assert_eq!(t.len(), 1);
    // The content is already interned, yet the stricter domain still
    // rejects it: rejection leaves the table untouched.
    let r: Result<AlphaNum, NotAlphaNumeric> = t.resolve("a-b");
    assert_eq!(r.unwrap_err(), NotAlphaNumeric);
    assert_eq!(t.len(), 1);
    assert_eq!(t.count_of("a-b"), 1);
}

#[test]
fn release_reclaims_slot() {
    let mut t = InternTable::new();
    let a: Atom = t.resolve("gone").unwrap();
    let b: Atom = t.resolve("gone").unwrap();
    let witness = b.clone();
    assert_eq!(t.len(), 1);
    t.release(a);
    assert_eq!(t.len(), 1);
    assert_eq!(t.count_of("gone"), 1);
    t.release(b);
    assert_eq!(t.len(), 0);
    assert!(!t.contains("gone"));
    // A later intern of the same content allocates afresh.
    let c: Atom = t.resolve("gone").unwrap();
    assert_eq!(c, witness);
    assert!(!c.same_storage(&witness));
    assert_eq!(t.len(), 1);
    assert_eq!(t.count_of("gone"), 1);
}

#[test]
fn release_of_unregistered_handle_is_harmless() {
    let mut t1 = InternTable::new();
    let mut t2 = InternTable::new();
    let a: Atom = t1.resolve("x").unwrap();
    t2.release(a);
    assert_eq!(t2.len(), 0);
    assert_eq!(t1.len(), 1);
    assert_eq!(t1.count_of("x"), 1);
}

#[test]
fn acquire_counts_a_duplicate() {
    let mut t = InternTable::new();
    let a: Atom = t.resolve("dup").unwrap();
    let b = t.acquire(&a);
    assert!(a.same_storage(&b));
    assert_eq!(t.count_of("dup"), 2);
    t.release(a);
    t.release(b);
    assert_eq!(t.len(), 0);
}

#[test]
fn acquire_reinterns_after_reclaim() {
    let mut t = InternTable::new();
    let a: Atom = t.resolve("back").unwrap();
    let kept = a.clone();
    t.release(a);
    assert_eq!(t.len(), 0);
    // The uncounted clone is still usable and can be registered again.
    let b = t.acquire(&kept);
    assert_eq!(t.len(), 1);
    assert_eq!(t.count_of("back"), 1);
    assert!(b.same_storage(&kept));
}

#[test]
fn empty_content_interns() {
    let mut t = InternTable::new();
    let a: AlphaNum = t.resolve("").unwrap();
    assert_eq!(a.as_str(), "");
    assert_eq!(t.len(), 1);
    assert!(t.contains(""));
}

#[test]
fn counts_are_per_content() {
    let mut t = InternTable::new();
    let _a: Atom = t.resolve("one").unwrap();
    let _b: Atom = t.resolve("one").unwrap();
    let _c: Atom = t.resolve("two").unwrap();
    assert_eq!(t.len(), 2);
    assert_eq!(t.count_of("one"), 2);
    assert_eq!(t.count_of("two"), 1);
    assert_eq!(t.count_of("three"), 0);
    assert!(t.contains("one"));
    assert!(!t.contains("three"));
}
