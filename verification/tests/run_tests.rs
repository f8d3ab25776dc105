use crypto_prices::model::RunError;
use crypto_prices::run::process_response;

fn example_body() -> Vec<u8> {
    br#"{"data":{"BTC":{"id":1,"name":"Bitcoin","symbol":"BTC","slug":"bitcoin","quote":{"USD":{"price":50000.5,"percent_change_7d":3.2,"volume_24h":1,"market_cap":1}}}}}"#
        .to_vec()
}

#[test]
fn example_btc_yields_two_line_report() {
    let out = process_response(200, &example_body()).unwrap().unwrap();
    assert_eq!(
        out,
        b"name,symbol,price,percent_change_7d\nBitcoin,BTC,50000.5,3.2\n".to_vec()
    );
}

#[test]
fn non_200_yields_no_report_and_no_error() {
    let r = process_response(404, &b"rate limited".to_vec());
    assert!(matches!(r, Ok(None)));
    let r = process_response(500, &example_body());
    assert!(matches!(r, Ok(None)));
}

#[test]
fn malformed_body_is_an_error() {
    let r = process_response(200, &b"{\"data\":".to_vec());
    assert!(matches!(r, Err(RunError::MalformedResponse)));
}

#[test]
fn missing_usd_quote_is_an_error() {
    let body = br#"{"data":{"BTC":{"id":1,"name":"Bitcoin","symbol":"BTC","slug":"bitcoin","quote":{"EUR":{"price":1,"percent_change_7d":2,"volume_24h":3,"market_cap":4}}}}}"#
        .to_vec();
    let r = process_response(200, &body);
    assert!(matches!(r, Err(RunError::MissingUsdQuote)));
}

#[test]
fn numeric_text_survives_the_round_trip() {
    let body = br#"{"data":{"X":{"id":9,"name":"N","symbol":"X","slug":"n","quote":{"USD":{"price":50000.50,"percent_change_7d":0.001,"volume_24h":1,"market_cap":1}}}}}"#
        .to_vec();
    let out = process_response(200, &body).unwrap().unwrap();
    assert_eq!(
        out,
        b"name,symbol,price,percent_change_7d\nN,X,50000.50,0.001\n".to_vec()
    );
}

#[test]
fn report_has_one_line_per_currency() {
    let body = br#"{"data":{"BTC":{"id":1,"name":"Bitcoin","symbol":"BTC","slug":"bitcoin","quote":{"USD":{"price":1,"percent_change_7d":2,"volume_24h":3,"market_cap":4}}},"ETH":{"id":1027,"name":"Ethereum","symbol":"ETH","slug":"ethereum","quote":{"USD":{"price":5,"percent_change_7d":6,"volume_24h":7,"market_cap":8}}}}}"#
        .to_vec();
    let out = process_response(200, &body).unwrap().unwrap();
    let lines = out.iter().filter(|&&c| c == b'\n').count();
    assert_eq!(lines, 3);
    assert_eq!(
        out,
        b"name,symbol,price,percent_change_7d\nBitcoin,BTC,1,2\nEthereum,ETH,5,6\n".to_vec()
    );
}
