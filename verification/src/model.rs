//! Data model of a quote-API response.
//!
//! Numeric market fields are kept as the decimal text they arrived in, so
//! that rendering them back into the CSV report preserves them exactly.
//! All text is handled as UTF-8 bytes. Each exec type has a mathematical
//! view used by the contracts.

use vstd::prelude::*;

verus! {

/// One currency's market snapshot in a single settlement currency.
/// Each field holds the number token exactly as it appeared in the response.
pub struct Quote {
    pub price: Vec<u8>,
    pub percent_change_7d: Vec<u8>,
    pub volume_24h: Vec<u8>,
    pub market_cap: Vec<u8>,
}

/// Mathematical view of a `Quote`.
pub struct QuoteView {
    pub price: Seq<u8>,
    pub percent_change_7d: Seq<u8>,
    pub volume_24h: Seq<u8>,
    pub market_cap: Seq<u8>,
}

impl View for Quote {
    type V = QuoteView;

    open spec fn view(&self) -> QuoteView {
        QuoteView {
            price: self.price@,
            percent_change_7d: self.percent_change_7d@,
            volume_24h: self.volume_24h@,
            market_cap: self.market_cap@,
        }
    }
}

/// View of one quote-map entry.
pub open spec fn quote_pair_view(p: (Vec<u8>, Quote)) -> (Seq<u8>, QuoteView) {
    (p.0@, p.1@)
}

/// View of a quote map: settlement-currency code to quote, order kept.
pub open spec fn quote_map_view(v: Seq<(Vec<u8>, Quote)>) -> Seq<(Seq<u8>, QuoteView)> {
    v.map_values(|p: (Vec<u8>, Quote)| quote_pair_view(p))
}

/// One requested currency: identity fields and its quotes, keyed by
/// settlement-currency code, in response order.
pub struct Currency {
    pub id: i64,
    pub name: Vec<u8>,
    pub symbol: Vec<u8>,
    pub slug: Vec<u8>,
    pub quote: Vec<(Vec<u8>, Quote)>,
}

/// Mathematical view of a `Currency`.
pub struct CurrencyView {
    pub id: int,
    pub name: Seq<u8>,
    pub symbol: Seq<u8>,
    pub slug: Seq<u8>,
    pub quote: Seq<(Seq<u8>, QuoteView)>,
}

impl View for Currency {
    type V = CurrencyView;

    open spec fn view(&self) -> CurrencyView {
        CurrencyView {
            id: self.id as int,
            name: self.name@,
            symbol: self.symbol@,
            slug: self.slug@,
            quote: quote_map_view(self.quote@),
        }
    }
}

/// View of one data-map entry.
pub open spec fn data_pair_view(p: (Vec<u8>, Currency)) -> (Seq<u8>, CurrencyView) {
    (p.0@, p.1@)
}

/// View of a data map: symbol to currency, order kept.
pub open spec fn data_map_view(v: Seq<(Vec<u8>, Currency)>) -> Seq<(Seq<u8>, CurrencyView)> {
    v.map_values(|p: (Vec<u8>, Currency)| data_pair_view(p))
}

/// The top-level response envelope: symbol to currency, in response order.
pub struct Envelope {
    pub data: Vec<(Vec<u8>, Currency)>,
}

/// Mathematical view of an `Envelope`.
pub struct EnvelopeView {
    pub data: Seq<(Seq<u8>, CurrencyView)>,
}

impl View for Envelope {
    type V = EnvelopeView;

    open spec fn view(&self) -> EnvelopeView {
        EnvelopeView { data: data_map_view(self.data@) }
    }
}

/// Why a well-received response still could not be turned into a report.
#[derive(Debug, Clone, Copy, PartialEq, Eq, Structural)]
pub enum RunError {
    /// The body of a 200 response did not match the documented schema.
    MalformedResponse,
    /// Some returned currency had no quote in the settlement currency.
    MissingUsdQuote,
}

} // verus!
