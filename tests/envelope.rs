use delphi::{signing_payload, CryptoPriceResponse, PROCESS_DATA_SCOPE};

fn from_hex(text: &str) -> Vec<u8> {
    (0..text.len())
        .step_by(2)
        .map(|i| u8::from_str_radix(&text[i..i + 2], 16).unwrap())
        .collect()
}

fn response(coin: &str) -> CryptoPriceResponse {
    CryptoPriceResponse {
        kind: 2,
        date: "01-01-2024".to_string(),
        coin: coin.to_string(),
        comparator: 1,
        price: 42000_000_000_000u64,
        result: 1u64,
    }
}

#[test]
fn test_serde() {
    let payload = response("bitcoin");
    let timestamp = 1744038900000;
    let signing_payload = signing_payload(PROCESS_DATA_SCOPE, timestamp, &payload);
    assert!(
        signing_payload
            == from_hex("0020b1d1109601000002000000000000000a30312d30312d3230323407626974636f696e010000000000000000a014e3322600000100000000000000")
    );
}

#[test]
fn envelope_is_deterministic() {
    let a = signing_payload(PROCESS_DATA_SCOPE, 7, &response("ether"));
    let b = signing_payload(PROCESS_DATA_SCOPE, 7, &response("ether"));
    assert_eq!(a, b);
    let c = signing_payload(PROCESS_DATA_SCOPE, 8, &response("ether"));
    assert_ne!(a, c);
}

#[test]
fn long_strings_get_a_two_byte_length() {
    let coin = "x".repeat(200);
    let bytes = signing_payload(3, 0, &response(&coin));
    assert_eq!(bytes[0], 3);
    assert_eq!(&bytes[1..9], &[0u8; 8]);
    assert_eq!(&bytes[9..17], &[2, 0, 0, 0, 0, 0, 0, 0]);
    assert_eq!(bytes[17], 10);
    assert_eq!(&bytes[28..30], &[0xc8, 0x01]);
    assert_eq!(bytes.len(), 1 + 8 + 8 + 11 + 202 + 24);
}

#[test]
fn non_ascii_strings_count_bytes() {
    let bytes = signing_payload(0, 0, &response("é"));
    assert_eq!(&bytes[28..31], &[2, 0xc3, 0xa9]);
}
