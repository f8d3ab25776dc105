use crypto_prices::config::resolve_config;
use crypto_prices::config::ConfigError;

#[test]
fn missing_currencies_flag() {
    let r = resolve_config(None, Some(b"k123".to_vec()));
    assert!(matches!(r, Err(ConfigError::MissingCurrencies)));
}

#[test]
fn missing_api_key() {
    let r = resolve_config(Some(b"BTC".to_vec()), None);
    assert!(matches!(r, Err(ConfigError::MissingApiKey)));
}

#[test]
fn both_missing_reports_flag_first() {
    let r = resolve_config(None, None);
    assert!(matches!(r, Err(ConfigError::MissingCurrencies)));
}

#[test]
fn config_resolved() {
    let c = resolve_config(Some(b"BTC,ETH".to_vec()), Some(b"k123".to_vec())).unwrap();
    assert_eq!(c.currencies, b"BTC,ETH".to_vec());
    assert_eq!(c.api_key, b"k123".to_vec());
}
