use rust_url_shortner::Registry;
use rust_url_shortner::StorageError;

#[test]
fn empty_registry_has_no_highest_id() {
    let reg = Registry::new();
    assert_eq!(reg.highest_id(), None);
    assert_eq!(reg.len(), 0);
}

#[test]
fn insert_assigns_increasing_ids() {
    let mut reg = Registry::new();
    assert!(reg.insert("https://one.example/", "a").is_ok());
    assert_eq!(reg.highest_id(), Some(1));
    assert!(reg.insert("https://two.example/", "b").is_ok());
    assert_eq!(reg.highest_id(), Some(2));
    assert_eq!(reg.len(), 2);
}

#[test]
fn find_by_long_url_hits_and_misses() {
    let mut reg = Registry::new();
    reg.insert("https://one.example/", "a").unwrap();
    let rec = reg.find_by_long_url("https://one.example/").unwrap();
    assert_eq!(rec.original_url, "https://one.example/");
    assert_eq!(rec.short_code, "a");
    assert_eq!(rec.id, 1);
    assert!(reg.find_by_long_url("https://other.example/").is_none());
}

#[test]
fn find_by_short_code_hits_and_misses() {
    let mut reg = Registry::new();
    reg.insert("https://one.example/", "a").unwrap();
    let rec = reg.find_by_short_code("a").unwrap();
    assert_eq!(rec.original_url, "https://one.example/");
    assert!(reg.find_by_short_code("b").is_none());
}

#[test]
fn duplicate_url_conflicts() {
    let mut reg = Registry::new();
    reg.insert("https://one.example/", "a").unwrap();
    let r = reg.insert("https://one.example/", "b");
    assert_eq!(r, Err(StorageError::Conflict));
    // the failed insert changed nothing
    assert_eq!(reg.len(), 1);
    assert!(reg.find_by_short_code("b").is_none());
}

#[test]
fn duplicate_code_conflicts() {
    let mut reg = Registry::new();
    reg.insert("https://one.example/", "a").unwrap();
    let r = reg.insert("https://two.example/", "a");
    assert_eq!(r, Err(StorageError::Conflict));
    assert_eq!(reg.len(), 1);
    assert!(reg.find_by_long_url("https://two.example/").is_none());
}
