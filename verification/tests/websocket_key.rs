use habits_display::encode_websocket_key;

#[test]
fn encodes_rfc6455_sample_nonce() {
    let nonce: [u8; 16] = *b"the sample nonce";
    assert_eq!(&encode_websocket_key(&nonce), b"dGhlIHNhbXBsZSBub25jZQ==");
}

#[test]
fn encodes_counting_bytes() {
    let mut input = [0u8; 16];
    for (i, b) in input.iter_mut().enumerate() {
        *b = (i + 1) as u8;
    }
    assert_eq!(&encode_websocket_key(&input), b"AQIDBAUGBwgJCgsMDQ4PEA==");
}

#[test]
fn encodes_extreme_bytes() {
    assert_eq!(&encode_websocket_key(&[0u8; 16]), b"AAAAAAAAAAAAAAAAAAAAAA==");
    assert_eq!(&encode_websocket_key(&[0xffu8; 16]), b"/////////////////////w==");
}

#[test]
fn key_has_symbols_then_padding() {
    let input: [u8; 16] = [0xfb, 0xef, 0xbe, 0x00, 0x10, 0x83, 7, 200, 33, 99, 250, 1, 2, 3, 4, 5];
    let key = encode_websocket_key(&input);
    assert_eq!(&key[22..], b"==");
    for &c in &key[..22] {
        assert!(c.is_ascii_alphanumeric() || c == b'+' || c == b'/');
    }
    assert_eq!(&key[..4], b"++++");
}

#[test]
fn law_key_injective_example() {
    let a = [7u8; 16];
    let mut b = a;
    b[15] = 8;
    assert_ne!(encode_websocket_key(&a), encode_websocket_key(&b));
    let mut c = a;
    c[0] = 6;
    assert_ne!(encode_websocket_key(&a), encode_websocket_key(&c));
}
