use crypto_prices::json::parse_envelope;

fn example_body() -> Vec<u8> {
    br#"{"data":{"BTC":{"id":1,"name":"Bitcoin","symbol":"BTC","slug":"bitcoin","quote":{"USD":{"price":50000.5,"percent_change_7d":3.2,"volume_24h":1,"market_cap":1}}}}}"#
        .to_vec()
}

#[test]
fn parses_documented_example() {
    let env = parse_envelope(&example_body()).unwrap();
    assert_eq!(env.data.len(), 1);
    let (sym, cur) = &env.data[0];
    assert_eq!(sym, &b"BTC".to_vec());
    assert_eq!(cur.id, 1);
    assert_eq!(cur.name, b"Bitcoin".to_vec());
    assert_eq!(cur.symbol, b"BTC".to_vec());
    assert_eq!(cur.slug, b"bitcoin".to_vec());
    assert_eq!(cur.quote.len(), 1);
    assert_eq!(cur.quote[0].0, b"USD".to_vec());
    assert_eq!(cur.quote[0].1.price, b"50000.5".to_vec());
    assert_eq!(cur.quote[0].1.percent_change_7d, b"3.2".to_vec());
    assert_eq!(cur.quote[0].1.volume_24h, b"1".to_vec());
    assert_eq!(cur.quote[0].1.market_cap, b"1".to_vec());
}

#[test]
fn tolerates_whitespace_between_tokens() {
    let body = b"{ \"data\" : { \"BTC\" : { \"id\" : 1 , \"name\" : \"Bitcoin\" , \"symbol\" : \"BTC\" , \"slug\" : \"bitcoin\" , \"quote\" : { \"USD\" : { \"price\" : 2.5 , \"percent_change_7d\" : -0.5 , \"volume_24h\" : 3 , \"market_cap\" : 4 } } } } }\n".to_vec();
    let env = parse_envelope(&body).unwrap();
    assert_eq!(env.data[0].1.quote[0].1.price, b"2.5".to_vec());
    assert_eq!(env.data[0].1.quote[0].1.percent_change_7d, b"-0.5".to_vec());
}

#[test]
fn decodes_string_escapes() {
    let body = br#"{"data":{"X":{"id":2,"name":"A\"B\\C\nD","symbol":"X","slug":"x","quote":{}}}}"#
        .to_vec();
    let env = parse_envelope(&body).unwrap();
    assert_eq!(env.data[0].1.name, b"A\"B\\C\nD".to_vec());
}

#[test]
fn keeps_number_text_exactly() {
    let body = br#"{"data":{"X":{"id":3,"name":"N","symbol":"X","slug":"x","quote":{"USD":{"price":50000.50,"percent_change_7d":1.0e3,"volume_24h":-0.25E-2,"market_cap":7}}}}}"#
        .to_vec();
    let env = parse_envelope(&body).unwrap();
    let q = &env.data[0].1.quote[0].1;
    assert_eq!(q.price, b"50000.50".to_vec());
    assert_eq!(q.percent_change_7d, b"1.0e3".to_vec());
    assert_eq!(q.volume_24h, b"-0.25E-2".to_vec());
}

#[test]
fn empty_data_map_is_well_formed() {
    let env = parse_envelope(&b"{\"data\":{}}".to_vec()).unwrap();
    assert_eq!(env.data.len(), 0);
}

#[test]
fn preserves_response_order() {
    let body = br#"{"data":{"ETH":{"id":1027,"name":"Ethereum","symbol":"ETH","slug":"ethereum","quote":{}},"BTC":{"id":1,"name":"Bitcoin","symbol":"BTC","slug":"bitcoin","quote":{}}}}"#
        .to_vec();
    let env = parse_envelope(&body).unwrap();
    assert_eq!(env.data.len(), 2);
    assert_eq!(env.data[0].0, b"ETH".to_vec());
    assert_eq!(env.data[1].0, b"BTC".to_vec());
}

#[test]
fn rejects_truncated_body() {
    assert!(parse_envelope(&b"{\"data\":{".to_vec()).is_none());
}

#[test]
fn rejects_missing_member() {
    let body = br#"{"data":{"BTC":{"id":1,"name":"Bitcoin","symbol":"BTC","quote":{}}}}"#.to_vec();
    assert!(parse_envelope(&body).is_none());
}

#[test]
fn rejects_wrongly_typed_member() {
    let body =
        br#"{"data":{"BTC":{"id":"1","name":"Bitcoin","symbol":"BTC","slug":"bitcoin","quote":{}}}}"#
            .to_vec();
    assert!(parse_envelope(&body).is_none());
}

#[test]
fn rejects_fractional_id() {
    let body =
        br#"{"data":{"BTC":{"id":1.5,"name":"Bitcoin","symbol":"BTC","slug":"bitcoin","quote":{}}}}"#
            .to_vec();
    assert!(parse_envelope(&body).is_none());
}

#[test]
fn rejects_trailing_garbage() {
    let body = b"{\"data\":{}} x".to_vec();
    assert!(parse_envelope(&body).is_none());
}

#[test]
fn rejects_leading_zero_number() {
    let body = br#"{"data":{"X":{"id":007,"name":"N","symbol":"X","slug":"x","quote":{}}}}"#
        .to_vec();
    assert!(parse_envelope(&body).is_none());
}

#[test]
fn accepts_negative_id() {
    let body = br#"{"data":{"X":{"id":-42,"name":"N","symbol":"X","slug":"x","quote":{}}}}"#
        .to_vec();
    let env = parse_envelope(&body).unwrap();
    assert_eq!(env.data[0].1.id, -42);
}
