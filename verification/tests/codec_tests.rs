use rust_url_shortner::encode_base62;

#[test]
fn encode_is_deterministic() {
    for id in [1u64, 2, 61, 62, 63, 1000, 123456789, u64::MAX] {
        assert_eq!(encode_base62(id), encode_base62(id));
    }
}

#[test]
fn encode_is_injective_on_samples() {
    let ids = [
        1u64,
        2,
        25,
        26,
        27,
        52,
        53,
        61,
        62,
        63,
        64,
        124,
        125,
        3844,
        3845,
        1000000,
        u64::MAX,
    ];
    for (n, i) in ids.iter().enumerate() {
        for j in ids.iter().skip(n + 1) {
            assert_ne!(encode_base62(*i), encode_base62(*j), "ids {} and {}", i, j);
        }
    }
}

#[test]
fn encode_exact_values() {
    // identifier n encodes the numeral of n - 1, least-significant digit
    // first, over a..z, A..Z, 0..9
    assert_eq!(encode_base62(1), "a");
    assert_eq!(encode_base62(2), "b");
    assert_eq!(encode_base62(26), "z");
    assert_eq!(encode_base62(27), "A");
    assert_eq!(encode_base62(52), "Z");
    assert_eq!(encode_base62(53), "0");
    assert_eq!(encode_base62(62), "9");
    // 63 - 1 = 62 = 0 + 1 * 62: digits [0, 1]
    assert_eq!(encode_base62(63), "ab");
    // 125 - 1 = 124 = 0 + 2 * 62: digits [0, 2]
    assert_eq!(encode_base62(125), "ac");
    // 3845 - 1 = 3844 = 62 * 62: digits [0, 0, 1]
    assert_eq!(encode_base62(3845), "aab");
}

#[test]
fn encode_is_nonempty_base62() {
    for id in [1u64, 7, 62, 63, 9999999, u64::MAX] {
        let code = encode_base62(id);
        assert!(!code.is_empty());
        assert!(code.chars().all(|c| c.is_ascii_alphanumeric()));
    }
}
