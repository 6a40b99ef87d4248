use oracle_timestamp::request::{
    encode_get_all_currency_pairs_request, encode_get_price_request, encode_get_prices_request,
};

#[test]
fn price_request_bytes() {
    let r = encode_get_price_request(&"BTC".to_string(), &"USD".to_string()).unwrap();
    assert_eq!(r, vec![0x0a, 10, 0x0a, 3, b'B', b'T', b'C', 0x12, 3, b'U', b'S', b'D']);
}

#[test]
fn price_request_skips_empty_strings() {
    assert_eq!(encode_get_price_request(&String::new(), &String::new()).unwrap(), vec![0x0a, 0]);
    assert_eq!(
        encode_get_price_request(&String::new(), &"ETH".to_string()).unwrap(),
        vec![0x0a, 5, 0x12, 3, b'E', b'T', b'H']
    );
}

#[test]
fn prices_request_bytes() {
    let ids = vec!["BTC/USD".to_string(), String::new()];
    let mut expected = vec![0x0a, 7];
    expected.extend_from_slice(b"BTC/USD");
    expected.extend_from_slice(&[0x0a, 0]);
    assert_eq!(encode_get_prices_request(&ids).unwrap(), expected);
    assert_eq!(encode_get_prices_request(&vec![]).unwrap(), Vec::<u8>::new());
}

#[test]
fn long_field_length_is_a_varint() {
    let id = "x".repeat(300);
    let r = encode_get_prices_request(&vec![id]).unwrap();
    assert_eq!(&r[..3], &[0x0a, 0xac, 0x02]);
    assert_eq!(r.len(), 303);
}

#[test]
fn all_pairs_request_is_empty() {
    assert!(encode_get_all_currency_pairs_request().is_empty());
}
