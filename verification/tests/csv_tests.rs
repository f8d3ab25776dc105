use crypto_prices::csvout::write_csv;
use crypto_prices::model::Currency;
use crypto_prices::model::Envelope;
use crypto_prices::model::Quote;

fn quote(price: &str, pc7d: &str) -> Quote {
    Quote {
        price: price.as_bytes().to_vec(),
        percent_change_7d: pc7d.as_bytes().to_vec(),
        volume_24h: b"1".to_vec(),
        market_cap: b"1".to_vec(),
    }
}

fn currency(name: &str, symbol: &str, quotes: Vec<(Vec<u8>, Quote)>) -> Currency {
    Currency {
        id: 1,
        name: name.as_bytes().to_vec(),
        symbol: symbol.as_bytes().to_vec(),
        slug: name.to_lowercase().as_bytes().to_vec(),
        quote: quotes,
    }
}

#[test]
fn empty_envelope_writes_header_only() {
    let out = write_csv(&Envelope { data: vec![] }).unwrap();
    assert_eq!(out, b"name,symbol,price,percent_change_7d\n".to_vec());
}

#[test]
fn one_row_per_currency_in_order() {
    let env = Envelope {
        data: vec![
            (
                b"ETH".to_vec(),
                currency("Ethereum", "ETH", vec![(b"USD".to_vec(), quote("4000", "-1.5"))]),
            ),
            (
                b"BTC".to_vec(),
                currency("Bitcoin", "BTC", vec![(b"USD".to_vec(), quote("50000.5", "3.2"))]),
            ),
        ],
    };
    let out = write_csv(&env).unwrap();
    assert_eq!(
        out,
        b"name,symbol,price,percent_change_7d\nEthereum,ETH,4000,-1.5\nBitcoin,BTC,50000.5,3.2\n"
            .to_vec()
    );
}

#[test]
fn line_count_is_currencies_plus_header() {
    let env = Envelope {
        data: vec![
            (b"A".to_vec(), currency("A", "A", vec![(b"USD".to_vec(), quote("1", "2"))])),
            (b"B".to_vec(), currency("B", "B", vec![(b"USD".to_vec(), quote("3", "4"))])),
        ],
    };
    let out = write_csv(&env).unwrap();
    let lines = out.iter().filter(|&&c| c == b'\n').count();
    assert_eq!(lines, 3);
}

#[test]
fn field_with_comma_is_quoted() {
    let env = Envelope {
        data: vec![
            (
                b"X".to_vec(),
                currency("Name, Inc.", "X", vec![(b"USD".to_vec(), quote("1", "2"))]),
            ),
        ],
    };
    let out = write_csv(&env).unwrap();
    assert_eq!(
        out,
        b"name,symbol,price,percent_change_7d\n\"Name, Inc.\",X,1,2\n".to_vec()
    );
}

#[test]
fn field_with_quote_is_doubled() {
    let env = Envelope {
        data: vec![
            (
                b"X".to_vec(),
                currency("A\"B", "X", vec![(b"USD".to_vec(), quote("1", "2"))]),
            ),
        ],
    };
    let out = write_csv(&env).unwrap();
    assert_eq!(
        out,
        b"name,symbol,price,percent_change_7d\n\"A\"\"B\",X,1,2\n".to_vec()
    );
}

#[test]
fn missing_usd_quote_fails_whole_report() {
    let env = Envelope {
        data: vec![
            (b"A".to_vec(), currency("A", "A", vec![(b"USD".to_vec(), quote("1", "2"))])),
            (b"B".to_vec(), currency("B", "B", vec![(b"EUR".to_vec(), quote("3", "4"))])),
        ],
    };
    assert!(write_csv(&env).is_none());
}

#[test]
fn later_usd_entry_is_found() {
    let env = Envelope {
        data: vec![
            (
                b"A".to_vec(),
                currency(
                    "A",
                    "A",
                    vec![
                        (b"EUR".to_vec(), quote("9", "9")),
                        (b"USD".to_vec(), quote("1", "2")),
                    ],
                ),
            ),
        ],
    };
    let out = write_csv(&env).unwrap();
    assert_eq!(out, b"name,symbol,price,percent_change_7d\nA,A,1,2\n".to_vec());
}
