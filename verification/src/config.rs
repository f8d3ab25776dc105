//! Startup configuration: the currency list from the command line and the
//! API credential from the environment, validated before any network work.

use vstd::prelude::*;

verus! {

/// Why the startup configuration could not be resolved.
#[derive(Debug, Clone, Copy, PartialEq, Eq, Structural)]
pub enum ConfigError {
    /// The required `--currencies` flag was absent.
    MissingCurrencies,
    /// The `CMS_API_KEY` environment variable was unset.
    MissingApiKey,
}

/// Validated startup configuration: the raw comma-separated symbol list and
/// the API credential, both as the bytes the caller received them in.
pub struct Config {
    pub currencies: Vec<u8>,
    pub api_key: Vec<u8>,
}

/// Resolves the startup configuration from the optional flag value and the
/// optional environment value. The flag is checked first, so a run missing
/// both is reported as missing the flag, as the command-line parser would.
pub fn resolve_config(currencies: Option<Vec<u8>>, api_key: Option<Vec<u8>>) -> (r: Result<
    Config,
    ConfigError,
>)
    ensures
        currencies is None ==> (r matches Err(e) && e == ConfigError::MissingCurrencies),
        currencies is Some && api_key is None ==> (r matches Err(e) && e
            == ConfigError::MissingApiKey),
        currencies is Some && api_key is Some ==> (r matches Ok(c) && c.currencies
            == currencies->0 && c.api_key == api_key->0),
{
    match (currencies, api_key) {
        (None, _) => Err(ConfigError::MissingCurrencies),
        (Some(_), None) => Err(ConfigError::MissingApiKey),
        (Some(c), Some(k)) => Ok(Config { currencies: c, api_key: k }),
    }
}

} // verus!
