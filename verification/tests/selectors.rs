use function_selector_miner::{
    function_selector_to_hex, lengths_fit, normalize_endianess, parse_selector, try_nonce,
    try_nonces4, write_decimal, SmallString, Sponge,
};

#[test]
fn normalize_endianess_swaps_bytes() {
    assert_eq!(normalize_endianess(0x12345678), 0x78563412);
    assert_eq!(normalize_endianess(normalize_endianess(0xa9059cbb)), 0xa9059cbb);
    assert_eq!(normalize_endianess(0), 0);
}

#[test]
fn hex_text_of_selectors() {
    assert_eq!(function_selector_to_hex(0xa9059cbb), "0xa9059cbb");
    assert_eq!(function_selector_to_hex(1), "0x00000001");
    assert_eq!(function_selector_to_hex(0xFFFFFFFF), "0xffffffff");
}

#[test]
fn parsing_selectors() {
    let be = normalize_endianess(0xa9059cbb);
    assert_eq!(parse_selector("0xa9059cbb"), Some(be));
    assert_eq!(parse_selector("a9059cbb"), Some(be));
    assert_eq!(parse_selector("0XA9059CBB"), Some(be));
    assert_eq!(parse_selector("0x0xa9059cbb"), Some(be));
    assert_eq!(parse_selector("+ff"), Some(normalize_endianess(0xff)));
    assert_eq!(parse_selector("0x+1"), Some(normalize_endianess(1)));
    assert_eq!(parse_selector("0"), Some(0));
    assert_eq!(parse_selector("ffffffff"), Some(0xffffffff));
    assert_eq!(parse_selector("100000000"), None);
    assert_eq!(parse_selector(""), None);
    assert_eq!(parse_selector("0x"), None);
    assert_eq!(parse_selector("+"), None);
    assert_eq!(parse_selector("-1"), None);
    assert_eq!(parse_selector("0xg"), None);
    assert_eq!(parse_selector("00x1"), None);
    assert_eq!(parse_selector("0x é"), None);
}

#[test]
fn hex_round_trip() {
    for x in [0u32, 1, 0xa9059cbb, 0xdeadbeef, 0xffffffff, 0x00ff00ff] {
        let text = function_selector_to_hex(x);
        assert_eq!(parse_selector(&text), Some(normalize_endianess(x)));
    }
}

#[test]
fn decimal_digits() {
    let mut out = [0xAAu8; 40];
    assert_eq!(write_decimal(&mut out, 0), 0);
    assert!(out[..32].iter().all(|&b| b == 0));
    assert_eq!(out[32], 0xAA);
    let mut out = [0xAAu8; 40];
    assert_eq!(write_decimal(&mut out, 12345), 5);
    assert_eq!(&out[..5], b"12345");
    assert!(out[5..32].iter().all(|&b| b == 0));
    assert!(out[32..].iter().all(|&b| b == 0xAA));
    assert_eq!(write_decimal(&mut out, u64::MAX), 20);
    assert_eq!(&out[..20], b"18446744073709551615");
    assert_eq!(write_decimal(&mut out, 100), 3);
    assert_eq!(&out[..3], b"100");
}

#[test]
fn known_selectors() {
    let mut s = Sponge::default();
    let name = SmallString::new("transfer");
    let params = SmallString::new("(address,uint256)");
    s.fill(&name, 0, &params);
    let c = s.compute_selectors();
    assert_eq!(c, 0xbb9c05a9);
    assert_eq!(function_selector_to_hex(normalize_endianess(c)), "0xa9059cbb");

    let mut e = Sponge::default();
    let empty = SmallString::new("");
    e.fill(&empty, 0, &empty);
    assert_eq!(normalize_endianess(e.compute_selectors()), 0xc5d24601);

    let mut f = Sponge::default();
    let foo = SmallString::new("foo");
    f.fill(&foo, 42, &foo);
    assert_eq!(f.compute_selectors(), 0x2423806d);
}

#[test]
fn trying_nonces() {
    let name = SmallString::new("transfer");
    let params = SmallString::new("(address,uint256)");
    assert_eq!(try_nonce(&name, 0, &params, 0xbb9c05a9), Some("transfer(address,uint256)".to_string()));
    assert_eq!(try_nonce(&name, 1, &params, 0xbb9c05a9), None);

    let name = SmallString::new("someFunction");
    let params = SmallString::new("(uint256,address)");
    assert_eq!(
        try_nonces4(&name, 0, &params, 0x82f28866),
        Some("someFunction2(uint256,address)".to_string())
    );
    assert_eq!(
        try_nonces4(&name, 0, &params, 0x894a9488),
        Some("someFunction(uint256,address)".to_string())
    );
    assert_eq!(try_nonces4(&name, 1, &params, 0x894a9488), None);
    assert_eq!(try_nonce(&name, 3, &params, 0xe05850fc), Some("someFunction3(uint256,address)".to_string()));
}

#[test]
fn length_limit() {
    let a = SmallString::new(&"a".repeat(100));
    let b = SmallString::new(&"b".repeat(14));
    let c = SmallString::new(&"c".repeat(15));
    assert!(lengths_fit(&a, &b));
    assert!(!lengths_fit(&a, &c));
}

#[test]
fn hex_text_reads_back_as_the_number() {
    for x in [0u32, 7, 0xa9059cbb, 0x80000000, 0xffffffff] {
        let text = function_selector_to_hex(x);
        assert_eq!(text.len(), 10);
        assert!(text.starts_with("0x"));
        assert!(text[2..].chars().all(|c| c.is_ascii_digit() || ('a'..='f').contains(&c)));
        assert_eq!(u32::from_str_radix(&text[2..], 16), Ok(x));
    }
}

#[test]
fn decimal_digits_at_chunk_edges() {
    let mut out = [0u8; 32];
    for (x, text) in [
        (1u64, "1"),
        (9, "9"),
        (10, "10"),
        (99, "99"),
        (999, "999"),
        (1000, "1000"),
        (9999, "9999"),
        (10000, "10000"),
        (100000000, "100000000"),
        (1234567890123, "1234567890123"),
    ] {
        let n = write_decimal(&mut out, x);
        assert_eq!(&out[..n], text.as_bytes());
    }
}
