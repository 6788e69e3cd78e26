use rust_url_shortner::generate_short_code;
use rust_url_shortner::Registry;
use rust_url_shortner::ResolveError;
use rust_url_shortner::ShortenError;
use rust_url_shortner::resolve;
use rust_url_shortner::shorten;
use rust_url_shortner::validate_url;

#[test]
fn validation_accepts_and_rejects() {
    assert!(!validate_url(""));
    assert!(!validate_url("ftp://x"));
    assert!(!validate_url("example.com"));
    assert!(!validate_url("http:/x"));
    assert!(validate_url("http://x"));
    assert!(validate_url("https://x"));
}

#[test]
fn next_code_follows_the_highest_identifier() {
    // an empty relation starts the sequence at identifier 1, code "a"
    assert_eq!(generate_short_code(None), "a");
    assert_eq!(generate_short_code(Some(1)), "b");
    assert_eq!(generate_short_code(Some(61)), "9");
    assert_eq!(generate_short_code(Some(62)), "ab");
}

#[test]
fn shorten_rejects_empty_url() {
    let mut reg = Registry::new();
    assert_eq!(shorten(&mut reg, ""), Err(ShortenError::InvalidUrl));
    assert_eq!(reg.len(), 0);
}

#[test]
fn shorten_rejects_wrong_scheme() {
    let mut reg = Registry::new();
    assert_eq!(shorten(&mut reg, "ftp://x"), Err(ShortenError::InvalidUrl));
    assert_eq!(reg.len(), 0);
}

#[test]
fn shorten_accepts_both_schemes() {
    let mut reg = Registry::new();
    assert!(shorten(&mut reg, "http://x").is_ok());
    assert!(shorten(&mut reg, "https://x").is_ok());
    assert_eq!(reg.len(), 2);
}

#[test]
fn first_codes_follow_the_sequence() {
    // empty registry: first URL gets "a" (identifier 1), a second distinct
    // URL gets "b" (identifier 2), re-shortening the first URL gets "a"
    // again without a new record
    let mut reg = Registry::new();
    let first = shorten(&mut reg, "https://example.com/a").unwrap();
    assert_eq!(first, "a");
    let rec = reg.find_by_short_code("a").unwrap();
    assert_eq!(rec.original_url, "https://example.com/a");

    let second = shorten(&mut reg, "https://example.com/b").unwrap();
    assert_eq!(second, "b");

    let again = shorten(&mut reg, "https://example.com/a").unwrap();
    assert_eq!(again, "a");
    assert_eq!(reg.len(), 2);
}

#[test]
fn shorten_is_idempotent_per_url() {
    let mut reg = Registry::new();
    let c1 = shorten(&mut reg, "https://example.com/long/path").unwrap();
    let len_after_first = reg.len();
    let c2 = shorten(&mut reg, "https://example.com/long/path").unwrap();
    assert_eq!(c1, c2);
    assert_eq!(reg.len(), len_after_first);
    assert_eq!(len_after_first, 1);
}

#[test]
fn shorten_then_resolve_round_trips() {
    let mut reg = Registry::new();
    let urls = [
        "https://example.com/one",
        "http://example.com/two",
        "https://example.com/a/very/long/path?with=query",
    ];
    let mut codes = Vec::new();
    for url in urls.iter() {
        codes.push(shorten(&mut reg, url).unwrap());
    }
    for (url, code) in urls.iter().zip(codes.iter()) {
        assert_eq!(resolve(&reg, code).as_deref(), Ok(*url));
    }
}

#[test]
fn resolve_of_unknown_code_is_not_found() {
    let mut reg = Registry::new();
    assert_eq!(resolve(&reg, "zzz"), Err(ResolveError::NotFound));
    shorten(&mut reg, "https://example.com/one").unwrap();
    assert_eq!(resolve(&reg, "zzz"), Err(ResolveError::NotFound));
}

#[test]
fn shorten_exhausts_when_next_code_is_taken() {
    let mut reg = Registry::new();
    // a record whose code is the one identifier 2 would get
    reg.insert("https://taken.example/x", "b").unwrap();
    let r = shorten(&mut reg, "https://new.example/y");
    assert_eq!(r, Err(ShortenError::Exhausted));
    // the exhausted request left no record behind
    assert_eq!(reg.len(), 1);
}
