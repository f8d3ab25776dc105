//! Parser for the quote-API response body.
//!
//! The response grammar is the documented schema and nothing more: a JSON
//! object `{"data": {SYMBOL: currency, ...}}`, where each currency object
//! carries `id`, `name`, `symbol`, `slug` and `quote` in that order, and
//! each quote object carries `price`, `percent_change_7d`, `volume_24h`
//! and `market_cap` in that order. Number tokens are kept as their exact
//! decimal text; `id` must be a plain integer of at most eighteen digits.
//! String escapes are the single-character ones; `\u` is not accepted.
//!
//! The spec functions below define the grammar as a recursive-descent
//! parser over byte sequences; the exec parser is proved to return exactly
//! what they denote.

use vstd::prelude::*;

use crate::model::Currency;
use crate::model::CurrencyView;
use crate::model::Envelope;
use crate::model::EnvelopeView;
use crate::model::Quote;
use crate::model::QuoteView;
use crate::model::data_map_view;
use crate::model::quote_map_view;

verus! {

// ---------------------------------------------------------------------------
// Object member keys, as byte sequences.
// ---------------------------------------------------------------------------

pub open spec fn data_key() -> Seq<u8> {
    seq![100u8, 97u8, 116u8, 97u8]
}

pub open spec fn id_key() -> Seq<u8> {
    seq![105u8, 100u8]
}

pub open spec fn name_key() -> Seq<u8> {
    seq![110u8, 97u8, 109u8, 101u8]
}

pub open spec fn symbol_key() -> Seq<u8> {
    seq![115u8, 121u8, 109u8, 98u8, 111u8, 108u8]
}

pub open spec fn slug_key() -> Seq<u8> {
    seq![115u8, 108u8, 117u8, 103u8]
}

pub open spec fn quote_key() -> Seq<u8> {
    seq![113u8, 117u8, 111u8, 116u8, 101u8]
}

pub open spec fn price_key() -> Seq<u8> {
    seq![112u8, 114u8, 105u8, 99u8, 101u8]
}

pub open spec fn percent_change_7d_key() -> Seq<u8> {
    seq![
        112u8, 101u8, 114u8, 99u8, 101u8, 110u8, 116u8, 95u8, 99u8, 104u8, 97u8, 110u8, 103u8,
        101u8, 95u8, 55u8, 100u8,
    ]
}

pub open spec fn volume_24h_key() -> Seq<u8> {
    seq![118u8, 111u8, 108u8, 117u8, 109u8, 101u8, 95u8, 50u8, 52u8, 104u8]
}

pub open spec fn market_cap_key() -> Seq<u8> {
    seq![109u8, 97u8, 114u8, 107u8, 101u8, 116u8, 95u8, 99u8, 97u8, 112u8]
}

// ---------------------------------------------------------------------------
// Lexical layer: whitespace, punctuation, strings, numbers.
// ---------------------------------------------------------------------------

/// JSON insignificant whitespace.
pub open spec fn is_ws(c: u8) -> bool {
    c == 32 || c == 9 || c == 10 || c == 13
}

/// First position at or after `i` holding no whitespace.
pub open spec fn skip_ws(s: Seq<u8>, i: int) -> int
    decreases s.len() - i,
{
    if 0 <= i < s.len() && is_ws(s[i]) {
        skip_ws(s, i + 1)
    } else {
        i
    }
}

/// Consumes the single byte `c` at position `i`.
pub open spec fn expect(s: Seq<u8>, i: int, c: u8) -> Option<int> {
    if 0 <= i < s.len() && s[i] == c {
        Some(i + 1)
    } else {
        None
    }
}

/// The byte denoted by the escape `\c`, for the single-character escapes.
pub open spec fn escape_byte(c: u8) -> Option<u8> {
    if c == 34 {
        Some(34u8)
    } else if c == 92 {
        Some(92u8)
    } else if c == 47 {
        Some(47u8)
    } else if c == 98 {
        Some(8u8)
    } else if c == 102 {
        Some(12u8)
    } else if c == 110 {
        Some(10u8)
    } else if c == 114 {
        Some(13u8)
    } else if c == 116 {
        Some(9u8)
    } else {
        None
    }
}

/// String contents from `i` (just after the opening quote) to the closing
/// quote: escapes decoded, control bytes refused.
pub open spec fn string_body(s: Seq<u8>, i: int) -> Option<(Seq<u8>, int)>
    decreases s.len() - i,
{
    if !(0 <= i < s.len()) {
        None
    } else if s[i] == 34 {
        Some((Seq::empty(), i + 1))
    } else if s[i] == 92 {
        if i + 1 < s.len() {
            match escape_byte(s[i + 1]) {
                Some(b) => match string_body(s, i + 2) {
                    Some((t, j)) => Some((seq![b] + t, j)),
                    None => None,
                },
                None => None,
            }
        } else {
            None
        }
    } else if s[i] < 32 {
        None
    } else {
        match string_body(s, i + 1) {
            Some((t, j)) => Some((seq![s[i]] + t, j)),
            None => None,
        }
    }
}

/// A JSON string starting at `i`: its decoded contents and the position
/// after the closing quote.
pub open spec fn parse_string(s: Seq<u8>, i: int) -> Option<(Seq<u8>, int)> {
    if 0 <= i < s.len() && s[i] == 34 {
        string_body(s, i + 1)
    } else {
        None
    }
}

pub open spec fn is_digit(c: u8) -> bool {
    48 <= c <= 57
}

/// First position at or after `i` holding no decimal digit.
pub open spec fn skip_digits(s: Seq<u8>, i: int) -> int
    decreases s.len() - i,
{
    if 0 <= i < s.len() && is_digit(s[i]) {
        skip_digits(s, i + 1)
    } else {
        i
    }
}

/// End of the optional fraction part starting at `i`, or `None` if a dot
/// stands there without digits after it.
pub open spec fn frac_end(s: Seq<u8>, i: int) -> Option<int> {
    if 0 <= i < s.len() && s[i] == 46 {
        let k = skip_digits(s, i + 1);
        if k > i + 1 {
            Some(k)
        } else {
            None
        }
    } else {
        Some(i)
    }
}

/// End of the optional exponent part starting at `i`, or `None` if an
/// exponent marker stands there without digits after it.
pub open spec fn exp_end(s: Seq<u8>, i: int) -> Option<int> {
    if 0 <= i < s.len() && (s[i] == 101 || s[i] == 69) {
        let j = if i + 1 < s.len() && (s[i + 1] == 43 || s[i + 1] == 45) {
            i + 2
        } else {
            i + 1
        };
        let k = skip_digits(s, j);
        if k > j {
            Some(k)
        } else {
            None
        }
    } else {
        Some(i)
    }
}

/// A JSON number starting at `i`: its exact token text and the position
/// after it. Leading zeros are refused, as the JSON grammar does.
pub open spec fn parse_number(s: Seq<u8>, i: int) -> Option<(Seq<u8>, int)> {
    let j0 = if 0 <= i < s.len() && s[i] == 45 {
        i + 1
    } else {
        i
    };
    let j1 = skip_digits(s, j0);
    if j1 == j0 || (j1 > j0 + 1 && s[j0] == 48) {
        None
    } else {
        match frac_end(s, j1) {
            None => None,
            Some(j2) => match exp_end(s, j2) {
                None => None,
                Some(j3) => Some((s.subrange(i, j3), j3)),
            },
        }
    }
}

// ---------------------------------------------------------------------------
// Integer tokens, for the `id` member.
// ---------------------------------------------------------------------------

pub open spec fn all_digits(t: Seq<u8>) -> bool {
    forall|k: int| 0 <= k < t.len() ==> is_digit(#[trigger] t[k])
}

/// The value of a sequence of decimal digits.
pub open spec fn digits_val(t: Seq<u8>) -> int
    decreases t.len(),
{
    if t.len() == 0 {
        0
    } else {
        digits_val(t.drop_last()) * 10 + (t.last() - 48)
    }
}

/// The value of a number token that is a plain integer of at most
/// eighteen digits; `None` for any other token.
pub open spec fn int_token_val(t: Seq<u8>) -> Option<int> {
    if t.len() > 0 && t[0] == 45 {
        let d = t.subrange(1, t.len() as int);
        if 1 <= d.len() <= 18 && all_digits(d) {
            Some(-digits_val(d))
        } else {
            None
        }
    } else {
        if 1 <= t.len() <= 18 && all_digits(t) {
            Some(digits_val(t))
        } else {
            None
        }
    }
}

// ---------------------------------------------------------------------------
// Grammatical layer: members, objects, the envelope.
// ---------------------------------------------------------------------------

/// Consumes `ws "key" ws :` starting at `i` and yields the position of the
/// member's value (whitespace before the value already consumed).
pub open spec fn member_start(s: Seq<u8>, i: int, key: Seq<u8>) -> Option<int> {
    match parse_string(s, skip_ws(s, i)) {
        None => None,
        Some((k, j)) => if k == key {
            match expect(s, skip_ws(s, j), 58) {
                None => None,
                Some(j2) => Some(skip_ws(s, j2)),
            }
        } else {
            None
        },
    }
}

/// Consumes `ws ,` starting at `i`.
pub open spec fn after_comma(s: Seq<u8>, i: int) -> Option<int> {
    expect(s, skip_ws(s, i), 44)
}

/// A number-valued member `ws "key" ws : ws number` starting at `i`.
pub open spec fn number_member(s: Seq<u8>, i: int, key: Seq<u8>) -> Option<(Seq<u8>, int)> {
    match member_start(s, i, key) {
        None => None,
        Some(j) => parse_number(s, j),
    }
}

/// A string-valued member `ws "key" ws : ws string` starting at `i`.
pub open spec fn string_member(s: Seq<u8>, i: int, key: Seq<u8>) -> Option<(Seq<u8>, int)> {
    match member_start(s, i, key) {
        None => None,
        Some(j) => parse_string(s, j),
    }
}

/// A quote object `{price, percent_change_7d, volume_24h, market_cap}`
/// starting at `i`.
pub open spec fn parse_quote_obj(s: Seq<u8>, i: int) -> Option<(QuoteView, int)> {
    match expect(s, i, 123) {
        None => None,
        Some(i1) => match number_member(s, i1, price_key()) {
            None => None,
            Some((price, i2)) => match after_comma(s, i2) {
                None => None,
                Some(i3) => match number_member(s, i3, percent_change_7d_key()) {
                    None => None,
                    Some((pc7d, i4)) => match after_comma(s, i4) {
                        None => None,
                        Some(i5) => match number_member(s, i5, volume_24h_key()) {
                            None => None,
                            Some((vol, i6)) => match after_comma(s, i6) {
                                None => None,
                                Some(i7) => match number_member(s, i7, market_cap_key()) {
                                    None => None,
                                    Some((cap, i8)) => match expect(s, skip_ws(s, i8), 125) {
                                        None => None,
                                        Some(i9) => Some(
                                            (
                                                QuoteView {
                                                    price: price,
                                                    percent_change_7d: pc7d,
                                                    volume_24h: vol,
                                                    market_cap: cap,
                                                },
                                                i9,
                                            ),
                                        ),
                                    },
                                },
                            },
                        },
                    },
                },
            },
        },
    }
}

/// The entries of a non-empty quote map, starting just after its `{`.
pub open spec fn quote_entries(s: Seq<u8>, i: int) -> Option<(Seq<(Seq<u8>, QuoteView)>, int)>
    decreases s.len() - i,
{
    match parse_string(s, skip_ws(s, i)) {
        None => None,
        Some((k, j)) => match expect(s, skip_ws(s, j), 58) {
            None => None,
            Some(j2) => match parse_quote_obj(s, skip_ws(s, j2)) {
                None => None,
                Some((q, j3)) => {
                    let j4 = skip_ws(s, j3);
                    if 0 <= j4 < s.len() && s[j4] == 44 {
                        if i < j4 + 1 <= s.len() {
                            match quote_entries(s, j4 + 1) {
                                None => None,
                                Some((rest, j5)) => Some((seq![(k, q)] + rest, j5)),
                            }
                        } else {
                            None
                        }
                    } else if 0 <= j4 < s.len() && s[j4] == 125 {
                        Some((seq![(k, q)], j4 + 1))
                    } else {
                        None
                    }
                },
            },
        },
    }
}

/// A quote map `{CODE: quote, ...}` starting at `i`; possibly empty.
pub open spec fn parse_quote_map(s: Seq<u8>, i: int) -> Option<(Seq<(Seq<u8>, QuoteView)>, int)> {
    match expect(s, i, 123) {
        None => None,
        Some(i1) => {
            let j = skip_ws(s, i1);
            if 0 <= j < s.len() && s[j] == 125 {
                Some((Seq::empty(), j + 1))
            } else {
                quote_entries(s, i1)
            }
        },
    }
}

/// A currency object `{id, name, symbol, slug, quote}` starting at `i`.
pub open spec fn parse_currency(s: Seq<u8>, i: int) -> Option<(CurrencyView, int)> {
    match expect(s, i, 123) {
        None => None,
        Some(i1) => match number_member(s, i1, id_key()) {
            None => None,
            Some((idt, i2)) => match int_token_val(idt) {
                None => None,
                Some(id) => match after_comma(s, i2) {
                    None => None,
                    Some(i3) => match string_member(s, i3, name_key()) {
                        None => None,
                        Some((name, i4)) => match after_comma(s, i4) {
                            None => None,
                            Some(i5) => match string_member(s, i5, symbol_key()) {
                                None => None,
                                Some((sym, i6)) => match after_comma(s, i6) {
                                    None => None,
                                    Some(i7) => match string_member(s, i7, slug_key()) {
                                        None => None,
                                        Some((slug, i8)) => match after_comma(s, i8) {
                                            None => None,
                                            Some(i9) => match member_start(s, i9, quote_key()) {
                                                None => None,
                                                Some(i10) => match parse_quote_map(s, i10) {
                                                    None => None,
                                                    Some((qm, i11)) => match expect(
                                                        s,
                                                        skip_ws(s, i11),
                                                        125,
                                                    ) {
                                                        None => None,
                                                        Some(i12) => Some(
                                                            (
                                                                CurrencyView {
                                                                    id: id,
                                                                    name: name,
                                                                    symbol: sym,
                                                                    slug: slug,
                                                                    quote: qm,
                                                                },
                                                                i12,
                                                            ),
                                                        ),
                                                    },
                                                },
                                            },
                                        },
                                    },
                                },
                            },
                        },
                    },
                },
            },
        },
    }
}

/// The entries of a non-empty data map, starting just after its `{`.
pub open spec fn data_entries(s: Seq<u8>, i: int) -> Option<(Seq<(Seq<u8>, CurrencyView)>, int)>
    decreases s.len() - i,
{
    match parse_string(s, skip_ws(s, i)) {
        None => None,
        Some((k, j)) => match expect(s, skip_ws(s, j), 58) {
            None => None,
            Some(j2) => match parse_currency(s, skip_ws(s, j2)) {
                None => None,
                Some((c, j3)) => {
                    let j4 = skip_ws(s, j3);
                    if 0 <= j4 < s.len() && s[j4] == 44 {
                        if i < j4 + 1 <= s.len() {
                            match data_entries(s, j4 + 1) {
                                None => None,
                                Some((rest, j5)) => Some((seq![(k, c)] + rest, j5)),
                            }
                        } else {
                            None
                        }
                    } else if 0 <= j4 < s.len() && s[j4] == 125 {
                        Some((seq![(k, c)], j4 + 1))
                    } else {
                        None
                    }
                },
            },
        },
    }
}

/// A data map `{SYMBOL: currency, ...}` starting at `i`; possibly empty.
pub open spec fn parse_data_map(s: Seq<u8>, i: int) -> Option<(Seq<(Seq<u8>, CurrencyView)>, int)> {
    match expect(s, i, 123) {
        None => None,
        Some(i1) => {
            let j = skip_ws(s, i1);
            if 0 <= j < s.len() && s[j] == 125 {
                Some((Seq::empty(), j + 1))
            } else {
                data_entries(s, i1)
            }
        },
    }
}

/// The whole response body: `ws { ws "data" ws : ws datamap ws } ws`,
/// with nothing after it.
pub open spec fn json_envelope(s: Seq<u8>) -> Option<EnvelopeView> {
    match expect(s, skip_ws(s, 0), 123) {
        None => None,
        Some(i1) => match member_start(s, i1, data_key()) {
            None => None,
            Some(i2) => match parse_data_map(s, i2) {
                None => None,
                Some((d, i3)) => match expect(s, skip_ws(s, i3), 125) {
                    None => None,
                    Some(i4) => if skip_ws(s, i4) == s.len() {
                        Some(EnvelopeView { data: d })
                    } else {
                        None
                    },
                },
            },
        },
    }
}

// ---------------------------------------------------------------------------
// Relating exec results to spec results.
// ---------------------------------------------------------------------------

pub open spec fn pos_matches(r: Option<usize>, sp: Option<int>) -> bool {
    match (r, sp) {
        (Some(a), Some(b)) => a as int == b,
        (None, None) => true,
        _ => false,
    }
}

pub open spec fn tok_matches(r: Option<(Vec<u8>, usize)>, sp: Option<(Seq<u8>, int)>) -> bool {
    match (r, sp) {
        (Some(a), Some(b)) => a.0@ == b.0 && a.1 as int == b.1,
        (None, None) => true,
        _ => false,
    }
}

pub open spec fn quote_obj_matches(r: Option<(Quote, usize)>, sp: Option<(QuoteView, int)>) -> bool {
    match (r, sp) {
        (Some(a), Some(b)) => a.0@ == b.0 && a.1 as int == b.1,
        (None, None) => true,
        _ => false,
    }
}

pub open spec fn qmap_matches(
    r: Option<(Vec<(Vec<u8>, Quote)>, usize)>,
    sp: Option<(Seq<(Seq<u8>, QuoteView)>, int)>,
) -> bool {
    match (r, sp) {
        (Some(a), Some(b)) => quote_map_view(a.0@) == b.0 && a.1 as int == b.1,
        (None, None) => true,
        _ => false,
    }
}

pub open spec fn currency_matches(r: Option<(Currency, usize)>, sp: Option<(CurrencyView, int)>) -> bool {
    match (r, sp) {
        (Some(a), Some(b)) => a.0@ == b.0 && a.1 as int == b.1,
        (None, None) => true,
        _ => false,
    }
}

pub open spec fn dmap_matches(
    r: Option<(Vec<(Vec<u8>, Currency)>, usize)>,
    sp: Option<(Seq<(Seq<u8>, CurrencyView)>, int)>,
) -> bool {
    match (r, sp) {
        (Some(a), Some(b)) => data_map_view(a.0@) == b.0 && a.1 as int == b.1,
        (None, None) => true,
        _ => false,
    }
}

// ---------------------------------------------------------------------------
// Exec lexical layer.
// ---------------------------------------------------------------------------

fn ws_at(s: &Vec<u8>, i: usize) -> (r: usize)
    requires
        i <= s.len(),
    ensures
        r as int == skip_ws(s@, i as int),
        i <= r <= s.len(),
{
    let mut j = i;
    while j < s.len() && (s[j] == 32 || s[j] == 9 || s[j] == 10 || s[j] == 13)
        invariant
            i <= j <= s.len(),
            skip_ws(s@, i as int) == skip_ws(s@, j as int),
        decreases s.len() - j,
    {
        j = j + 1;
    }
    j
}

fn take(s: &Vec<u8>, i: usize, c: u8) -> (r: Option<usize>)
    requires
        i <= s.len(),
    ensures
        pos_matches(r, expect(s@, i as int, c)),
        (r matches Some(p) ==> i < p <= s.len()),
{
    if i < s.len() && s[i] == c {
        Some(i + 1)
    } else {
        None
    }
}

fn escape_b(c: u8) -> (r: Option<u8>)
    ensures
        r == escape_byte(c),
{
    if c == 34 {
        Some(34u8)
    } else if c == 92 {
        Some(92u8)
    } else if c == 47 {
        Some(47u8)
    } else if c == 98 {
        Some(8u8)
    } else if c == 102 {
        Some(12u8)
    } else if c == 110 {
        Some(10u8)
    } else if c == 114 {
        Some(13u8)
    } else if c == 116 {
        Some(9u8)
    } else {
        None
    }
}

fn string_body_at(s: &Vec<u8>, i: usize) -> (r: Option<(Vec<u8>, usize)>)
    requires
        i <= s.len(),
    ensures
        tok_matches(r, string_body(s@, i as int)),
        (r matches Some(p) ==> i < p.1 <= s.len()),
    decreases s.len() - i,
{
    if i >= s.len() {
        return None;
    }
    let c = s[i];
    if c == 34 {
        return Some((Vec::new(), i + 1));
    }
    if c == 92 {
        if i + 1 < s.len() {
            match escape_b(s[i + 1]) {
                Some(b) => match string_body_at(s, i + 2) {
                    Some((t, j)) => {
                        let ghost tv = t@;
                        let mut v: Vec<u8> = Vec::new();
                        v.push(b);
                        let mut t2 = t;
                        v.append(&mut t2);
                        proof {
                            assert(v@ =~= seq![b] + tv);
                        }
                        Some((v, j))
                    },
                    None => None,
                },
                None => None,
            }
        } else {
            None
        }
    } else if c < 32 {
        None
    } else {
        match string_body_at(s, i + 1) {
            Some((t, j)) => {
                let ghost tv = t@;
                let mut v: Vec<u8> = Vec::new();
                v.push(c);
                let mut t2 = t;
                v.append(&mut t2);
                proof {
                    assert(v@ =~= seq![c] + tv);
                }
                Some((v, j))
            },
            None => None,
        }
    }
}

fn string_at(s: &Vec<u8>, i: usize) -> (r: Option<(Vec<u8>, usize)>)
    requires
        i <= s.len(),
    ensures
        tok_matches(r, parse_string(s@, i as int)),
        (r matches Some(p) ==> i < p.1 <= s.len()),
{
    if i < s.len() && s[i] == 34 {
        string_body_at(s, i + 1)
    } else {
        None
    }
}

fn digits_at(s: &Vec<u8>, i: usize) -> (r: usize)
    requires
        i <= s.len(),
    ensures
        r as int == skip_digits(s@, i as int),
        i <= r <= s.len(),
{
    let mut j = i;
    while j < s.len() && 48 <= s[j] && s[j] <= 57
        invariant
            i <= j <= s.len(),
            skip_digits(s@, i as int) == skip_digits(s@, j as int),
        decreases s.len() - j,
    {
        j = j + 1;
    }
    j
}

fn frac_at(s: &Vec<u8>, i: usize) -> (r: Option<usize>)
    requires
        i <= s.len(),
    ensures
        pos_matches(r, frac_end(s@, i as int)),
        (r matches Some(p) ==> i <= p <= s.len()),
{
    if i < s.len() && s[i] == 46 {
        let k = digits_at(s, i + 1);
        if k > i + 1 {
            Some(k)
        } else {
            None
        }
    } else {
        Some(i)
    }
}

fn exp_at(s: &Vec<u8>, i: usize) -> (r: Option<usize>)
    requires
        i <= s.len(),
    ensures
        pos_matches(r, exp_end(s@, i as int)),
        (r matches Some(p) ==> i <= p <= s.len()),
{
    if i < s.len() && (s[i] == 101 || s[i] == 69) {
        let j = if i + 1 < s.len() && (s[i + 1] == 43 || s[i + 1] == 45) {
            i + 2
        } else {
            i + 1
        };
        let k = digits_at(s, j);
        if k > j {
            Some(k)
        } else {
            None
        }
    } else {
        Some(i)
    }
}

fn copy_range(s: &Vec<u8>, i: usize, j: usize) -> (v: Vec<u8>)
    requires
        i <= j && j <= s.len(),
    ensures
        v@ == s@.subrange(i as int, j as int),
{
    let mut v: Vec<u8> = Vec::new();
    proof {
        assert(v@ =~= s@.subrange(i as int, i as int));
    }
    let mut k = i;
    while k < j
        invariant
            i <= k <= j <= s.len(),
            v@ == s@.subrange(i as int, k as int),
        decreases j - k,
    {
        v.push(s[k]);
        proof {
            assert(s@.subrange(i as int, k as int + 1) =~= s@.subrange(i as int, k as int)
                + seq![s@[k as int]]);
        }
        k = k + 1;
    }
    v
}

fn number_at(s: &Vec<u8>, i: usize) -> (r: Option<(Vec<u8>, usize)>)
    requires
        i <= s.len(),
    ensures
        tok_matches(r, parse_number(s@, i as int)),
        (r matches Some(p) ==> i < p.1 <= s.len()),
{
    let j0 = if i < s.len() && s[i] == 45 {
        i + 1
    } else {
        i
    };
    let j1 = digits_at(s, j0);
    if j1 == j0 {
        return None;
    }
    if j1 > j0 + 1 && s[j0] == 48 {
        return None;
    }
    let j2 = match frac_at(s, j1) {
        None => return None,
        Some(x) => x,
    };
    let j3 = match exp_at(s, j2) {
        None => return None,
        Some(x) => x,
    };
    Some((copy_range(s, i, j3), j3))
}

// ---------------------------------------------------------------------------
// Integer tokens.
// ---------------------------------------------------------------------------

pub open spec fn pow10(n: nat) -> int
    decreases n,
{
    if n == 0 {
        1
    } else {
        10 * pow10((n - 1) as nat)
    }
}

pub proof fn lemma_pow10_pos(n: nat)
    ensures
        pow10(n) >= 1,
    decreases n,
{
    if n > 0 {
        lemma_pow10_pos((n - 1) as nat);
    }
}

pub proof fn lemma_pow10_mono(a: nat, b: nat)
    requires
        a <= b,
    ensures
        pow10(a) <= pow10(b),
    decreases b,
{
    if a < b {
        lemma_pow10_mono(a, (b - 1) as nat);
        lemma_pow10_pos((b - 1) as nat);
    }
}

/// Turns a number token into its integer value, refusing fractions,
/// exponents and tokens of more than eighteen digits.
fn int_from_token(t: &Vec<u8>) -> (r: Option<i64>)
    ensures
        (match (r, int_token_val(t@)) {
            (Some(a), Some(b)) => a as int == b,
            (None, None) => true,
            _ => false,
        }),
{
    let neg = t.len() > 0 && t[0] == 45;
    let start: usize = if neg {
        1
    } else {
        0
    };
    let n = t.len();
    if n < start + 1 || n > start + 18 {
        return None;
    }
    let mut k = start;
    while k < n
        invariant
            start <= k <= n,
            n == t.len(),
            start + 1 <= n <= start + 18,
            neg == (t@.len() > 0 && t@[0] == 45),
            neg ==> start == 1,
            !neg ==> start == 0,
            forall|m: int| start <= m < k ==> is_digit(#[trigger] t@[m]),
        decreases n - k,
    {
        if !(48 <= t[k] && t[k] <= 57) {
            proof {
                assert(!is_digit(t@[k as int]));
                if neg {
                    let d = t@.subrange(1, t@.len() as int);
                    let m: int = k as int - 1;
                    assert(0 <= m < d.len());
                    assert(d[m] == t@[m + 1]);
                    assert(!is_digit(d[m]));
                    assert(!all_digits(d));
                } else {
                    assert(!all_digits(t@));
                }
            }
            return None;
        }
        k = k + 1;
    }
    let mut val: i64 = 0;
    let mut k2 = start;
    proof {
        assert(t@.subrange(start as int, start as int) =~= Seq::<u8>::empty());
    }
    while k2 < n
        invariant
            start <= k2 <= n,
            n == t.len(),
            n <= start + 18,
            start <= 1,
            forall|m: int| start <= m < n ==> is_digit(#[trigger] t@[m]),
            val as int == digits_val(t@.subrange(start as int, k2 as int)),
            0 <= val as int,
            (val as int) < pow10((k2 - start) as nat),
        decreases n - k2,
    {
        let d = t[k2];
        proof {
            lemma_pow10_mono((k2 - start) as nat, 17);
            assert(pow10(17) == 100000000000000000) by {
                reveal_with_fuel(pow10, 18);
            }
            let sub1 = t@.subrange(start as int, k2 as int + 1);
            assert(sub1.drop_last() =~= t@.subrange(start as int, k2 as int));
            assert(sub1.last() == t@[k2 as int]);
        }
        val = val * 10 + ((d - 48) as i64);
        k2 = k2 + 1;
    }
    proof {
        lemma_pow10_mono((n - start) as nat, 18);
        assert(pow10(18) == 1000000000000000000) by {
            reveal_with_fuel(pow10, 19);
        }
    }
    if neg {
        proof {
            let d = t@.subrange(1, t@.len() as int);
            assert(forall|m: int| 0 <= m < d.len() ==> is_digit(#[trigger] d[m]));
            assert(all_digits(d));
        }
        Some(-val)
    } else {
        proof {
            assert(t@.subrange(0, t@.len() as int) =~= t@);
            assert(all_digits(t@));
        }
        Some(val)
    }
}

// ---------------------------------------------------------------------------
// Key constants.
// ---------------------------------------------------------------------------

fn data_key_v() -> (v: Vec<u8>)
    ensures
        v@ == data_key(),
{
    let mut v: Vec<u8> = Vec::new();
    v.push(100);
    v.push(97);
    v.push(116);
    v.push(97);
    proof {
        assert(v@ =~= data_key());
    }
    v
}

fn id_key_v() -> (v: Vec<u8>)
    ensures
        v@ == id_key(),
{
    let mut v: Vec<u8> = Vec::new();
    v.push(105);
    v.push(100);
    proof {
        assert(v@ =~= id_key());
    }
    v
}

fn name_key_v() -> (v: Vec<u8>)
    ensures
        v@ == name_key(),
{
    let mut v: Vec<u8> = Vec::new();
    v.push(110);
    v.push(97);
    v.push(109);
    v.push(101);
    proof {
        assert(v@ =~= name_key());
    }
    v
}

fn symbol_key_v() -> (v: Vec<u8>)
    ensures
        v@ == symbol_key(),
{
    let mut v: Vec<u8> = Vec::new();
    v.push(115);
    v.push(121);
    v.push(109);
    v.push(98);
    v.push(111);
    v.push(108);
    proof {
        assert(v@ =~= symbol_key());
    }
    v
}

fn slug_key_v() -> (v: Vec<u8>)
    ensures
        v@ == slug_key(),
{
    let mut v: Vec<u8> = Vec::new();
    v.push(115);
    v.push(108);
    v.push(117);
    v.push(103);
    proof {
        assert(v@ =~= slug_key());
    }
    v
}

fn quote_key_v() -> (v: Vec<u8>)
    ensures
        v@ == quote_key(),
{
    let mut v: Vec<u8> = Vec::new();
    v.push(113);
    v.push(117);
    v.push(111);
    v.push(116);
    v.push(101);
    proof {
        assert(v@ =~= quote_key());
    }
    v
}

fn price_key_v() -> (v: Vec<u8>)
    ensures
        v@ == price_key(),
{
    let mut v: Vec<u8> = Vec::new();
    v.push(112);
    v.push(114);
    v.push(105);
    v.push(99);
    v.push(101);
    proof {
        assert(v@ =~= price_key());
    }
    v
}

fn percent_change_7d_key_v() -> (v: Vec<u8>)
    ensures
        v@ == percent_change_7d_key(),
{
    let mut v: Vec<u8> = Vec::new();
    v.push(112);
    v.push(101);
    v.push(114);
    v.push(99);
    v.push(101);
    v.push(110);
    v.push(116);
    v.push(95);
    v.push(99);
    v.push(104);
    v.push(97);
    v.push(110);
    v.push(103);
    v.push(101);
    v.push(95);
    v.push(55);
    v.push(100);
    proof {
        assert(v@ =~= percent_change_7d_key());
    }
    v
}

fn volume_24h_key_v() -> (v: Vec<u8>)
    ensures
        v@ == volume_24h_key(),
{
    let mut v: Vec<u8> = Vec::new();
    v.push(118);
    v.push(111);
    v.push(108);
    v.push(117);
    v.push(109);
    v.push(101);
    v.push(95);
    v.push(50);
    v.push(52);
    v.push(104);
    proof {
        assert(v@ =~= volume_24h_key());
    }
    v
}

fn market_cap_key_v() -> (v: Vec<u8>)
    ensures
        v@ == market_cap_key(),
{
    let mut v: Vec<u8> = Vec::new();
    v.push(109);
    v.push(97);
    v.push(114);
    v.push(107);
    v.push(101);
    v.push(116);
    v.push(95);
    v.push(99);
    v.push(97);
    v.push(112);
    proof {
        assert(v@ =~= market_cap_key());
    }
    v
}

pub(crate) fn bytes_eq(a: &Vec<u8>, b: &Vec<u8>) -> (r: bool)
    ensures
        r == (a@ == b@),
{
    if a.len() != b.len() {
        return false;
    }
    let mut idx: usize = 0;
    while idx < a.len()
        invariant
            0 <= idx <= a.len(),
            a.len() == b.len(),
            forall|m: int| 0 <= m < idx ==> a@[m] == b@[m],
        decreases a.len() - idx,
    {
        if a[idx] != b[idx] {
            return false;
        }
        idx = idx + 1;
    }
    proof {
        assert(a@ =~= b@);
    }
    true
}

// ---------------------------------------------------------------------------
// Exec grammatical layer.
// ---------------------------------------------------------------------------

fn member_start_at(s: &Vec<u8>, i: usize, key: &Vec<u8>) -> (r: Option<usize>)
    requires
        i <= s.len(),
    ensures
        pos_matches(r, member_start(s@, i as int, key@)),
        (r matches Some(p) ==> i < p <= s.len()),
{
    let j = ws_at(s, i);
    match string_at(s, j) {
        None => None,
        Some((k, j2)) => {
            if !bytes_eq(&k, key) {
                return None;
            }
            let j3 = ws_at(s, j2);
            match take(s, j3, 58) {
                None => None,
                Some(j4) => Some(ws_at(s, j4)),
            }
        },
    }
}

fn comma_at(s: &Vec<u8>, i: usize) -> (r: Option<usize>)
    requires
        i <= s.len(),
    ensures
        pos_matches(r, after_comma(s@, i as int)),
        (r matches Some(p) ==> i < p <= s.len()),
{
    let j = ws_at(s, i);
    take(s, j, 44)
}

fn number_member_at(s: &Vec<u8>, i: usize, key: &Vec<u8>) -> (r: Option<(Vec<u8>, usize)>)
    requires
        i <= s.len(),
    ensures
        tok_matches(r, number_member(s@, i as int, key@)),
        (r matches Some(p) ==> i < p.1 <= s.len()),
{
    match member_start_at(s, i, key) {
        None => None,
        Some(j) => number_at(s, j),
    }
}

fn string_member_at(s: &Vec<u8>, i: usize, key: &Vec<u8>) -> (r: Option<(Vec<u8>, usize)>)
    requires
        i <= s.len(),
    ensures
        tok_matches(r, string_member(s@, i as int, key@)),
        (r matches Some(p) ==> i < p.1 <= s.len()),
{
    match member_start_at(s, i, key) {
        None => None,
        Some(j) => string_at(s, j),
    }
}

fn quote_obj_at(s: &Vec<u8>, i: usize) -> (r: Option<(Quote, usize)>)
    requires
        i <= s.len(),
    ensures
        quote_obj_matches(r, parse_quote_obj(s@, i as int)),
        (r matches Some(p) ==> i < p.1 <= s.len()),
{
    let i1 = match take(s, i, 123) {
        None => return None,
        Some(x) => x,
    };
    let kp = price_key_v();
    let (price, i2) = match number_member_at(s, i1, &kp) {
        None => return None,
        Some(x) => x,
    };
    let i3 = match comma_at(s, i2) {
        None => return None,
        Some(x) => x,
    };
    let kc = percent_change_7d_key_v();
    let (pc7d, i4) = match number_member_at(s, i3, &kc) {
        None => return None,
        Some(x) => x,
    };
    let i5 = match comma_at(s, i4) {
        None => return None,
        Some(x) => x,
    };
    let kv = volume_24h_key_v();
    let (vol, i6) = match number_member_at(s, i5, &kv) {
        None => return None,
        Some(x) => x,
    };
    let i7 = match comma_at(s, i6) {
        None => return None,
        Some(x) => x,
    };
    let km = market_cap_key_v();
    let (cap, i8) = match number_member_at(s, i7, &km) {
        None => return None,
        Some(x) => x,
    };
    let j = ws_at(s, i8);
    let i9 = match take(s, j, 125) {
        None => return None,
        Some(x) => x,
    };
    Some((Quote { price, percent_change_7d: pc7d, volume_24h: vol, market_cap: cap }, i9))
}

fn quote_entries_at(s: &Vec<u8>, i: usize) -> (r: Option<(Vec<(Vec<u8>, Quote)>, usize)>)
    requires
        i <= s.len(),
    ensures
        qmap_matches(r, quote_entries(s@, i as int)),
        (r matches Some(p) ==> i < p.1 <= s.len()),
    decreases s.len() - i,
{
    let j0 = ws_at(s, i);
    let (k, j) = match string_at(s, j0) {
        None => return None,
        Some(x) => x,
    };
    let j1 = ws_at(s, j);
    let j2 = match take(s, j1, 58) {
        None => return None,
        Some(x) => x,
    };
    let j2w = ws_at(s, j2);
    let (q, j3) = match quote_obj_at(s, j2w) {
        None => return None,
        Some(x) => x,
    };
    let j4 = ws_at(s, j3);
    let ghost kv = k@;
    let ghost qv = q@;
    if j4 < s.len() && s[j4] == 44 {
        match quote_entries_at(s, j4 + 1) {
            None => None,
            Some((rest, j5)) => {
                let mut v: Vec<(Vec<u8>, Quote)> = Vec::new();
                v.push((k, q));
                let mut rest2 = rest;
                let ghost rest0 = rest2@;
                v.append(&mut rest2);
                proof {
                    assert(quote_map_view(v@) =~= seq![(kv, qv)] + quote_map_view(rest0));
                }
                Some((v, j5))
            },
        }
    } else if j4 < s.len() && s[j4] == 125 {
        let mut v: Vec<(Vec<u8>, Quote)> = Vec::new();
        v.push((k, q));
        proof {
            assert(quote_map_view(v@) =~= seq![(kv, qv)]);
        }
        Some((v, j4 + 1))
    } else {
        None
    }
}

fn quote_map_at(s: &Vec<u8>, i: usize) -> (r: Option<(Vec<(Vec<u8>, Quote)>, usize)>)
    requires
        i <= s.len(),
    ensures
        qmap_matches(r, parse_quote_map(s@, i as int)),
        (r matches Some(p) ==> i < p.1 <= s.len()),
{
    let i1 = match take(s, i, 123) {
        None => return None,
        Some(x) => x,
    };
    let j = ws_at(s, i1);
    if j < s.len() && s[j] == 125 {
        let v: Vec<(Vec<u8>, Quote)> = Vec::new();
        proof {
            assert(quote_map_view(v@) =~= Seq::<(Seq<u8>, QuoteView)>::empty());
        }
        Some((v, j + 1))
    } else {
        quote_entries_at(s, i1)
    }
}

fn currency_at(s: &Vec<u8>, i: usize) -> (r: Option<(Currency, usize)>)
    requires
        i <= s.len(),
    ensures
        currency_matches(r, parse_currency(s@, i as int)),
        (r matches Some(p) ==> i < p.1 <= s.len()),
{
    let i1 = match take(s, i, 123) {
        None => return None,
        Some(x) => x,
    };
    let kid = id_key_v();
    let (idt, i2) = match number_member_at(s, i1, &kid) {
        None => return None,
        Some(x) => x,
    };
    let id = match int_from_token(&idt) {
        None => return None,
        Some(x) => x,
    };
    let i3 = match comma_at(s, i2) {
        None => return None,
        Some(x) => x,
    };
    let kn = name_key_v();
    let (name, i4) = match string_member_at(s, i3, &kn) {
        None => return None,
        Some(x) => x,
    };
    let i5 = match comma_at(s, i4) {
        None => return None,
        Some(x) => x,
    };
    let ks = symbol_key_v();
    let (sym, i6) = match string_member_at(s, i5, &ks) {
        None => return None,
        Some(x) => x,
    };
    let i7 = match comma_at(s, i6) {
        None => return None,
        Some(x) => x,
    };
    let ksl = slug_key_v();
    let (slug, i8) = match string_member_at(s, i7, &ksl) {
        None => return None,
        Some(x) => x,
    };
    let i9 = match comma_at(s, i8) {
        None => return None,
        Some(x) => x,
    };
    let kq = quote_key_v();
    let i10 = match member_start_at(s, i9, &kq) {
        None => return None,
        Some(x) => x,
    };
    let (qm, i11) = match quote_map_at(s, i10) {
        None => return None,
        Some(x) => x,
    };
    let j = ws_at(s, i11);
    let i12 = match take(s, j, 125) {
        None => return None,
        Some(x) => x,
    };
    Some((Currency { id, name, symbol: sym, slug, quote: qm }, i12))
}

fn data_entries_at(s: &Vec<u8>, i: usize) -> (r: Option<(Vec<(Vec<u8>, Currency)>, usize)>)
    requires
        i <= s.len(),
    ensures
        dmap_matches(r, data_entries(s@, i as int)),
        (r matches Some(p) ==> i < p.1 <= s.len()),
    decreases s.len() - i,
{
    let j0 = ws_at(s, i);
    let (k, j) = match string_at(s, j0) {
        None => return None,
        Some(x) => x,
    };
    let j1 = ws_at(s, j);
    let j2 = match take(s, j1, 58) {
        None => return None,
        Some(x) => x,
    };
    let j2w = ws_at(s, j2);
    let (c, j3) = match currency_at(s, j2w) {
        None => return None,
        Some(x) => x,
    };
    let j4 = ws_at(s, j3);
    let ghost kv = k@;
    let ghost cv = c@;
    if j4 < s.len() && s[j4] == 44 {
        match data_entries_at(s, j4 + 1) {
            None => None,
            Some((rest, j5)) => {
                let mut v: Vec<(Vec<u8>, Currency)> = Vec::new();
                v.push((k, c));
                let mut rest2 = rest;
                let ghost rest0 = rest2@;
                v.append(&mut rest2);
                proof {
                    assert(data_map_view(v@) =~= seq![(kv, cv)] + data_map_view(rest0));
                }
                Some((v, j5))
            },
        }
    } else if j4 < s.len() && s[j4] == 125 {
        let mut v: Vec<(Vec<u8>, Currency)> = Vec::new();
        v.push((k, c));
        proof {
            assert(data_map_view(v@) =~= seq![(kv, cv)]);
        }
        Some((v, j4 + 1))
    } else {
        None
    }
}

fn data_map_at(s: &Vec<u8>, i: usize) -> (r: Option<(Vec<(Vec<u8>, Currency)>, usize)>)
    requires
        i <= s.len(),
    ensures
        dmap_matches(r, parse_data_map(s@, i as int)),
        (r matches Some(p) ==> i < p.1 <= s.len()),
{
    let i1 = match take(s, i, 123) {
        None => return None,
        Some(x) => x,
    };
    let j = ws_at(s, i1);
    if j < s.len() && s[j] == 125 {
        let v: Vec<(Vec<u8>, Currency)> = Vec::new();
        proof {
            assert(data_map_view(v@) =~= Seq::<(Seq<u8>, CurrencyView)>::empty());
        }
        Some((v, j + 1))
    } else {
        data_entries_at(s, i1)
    }
}

// ---------------------------------------------------------------------------
// Number tokens of a parsed response hold only number bytes.
// ---------------------------------------------------------------------------

/// Bytes that can stand in a number token.
pub open spec fn is_number_byte(c: u8) -> bool {
    is_digit(c) || c == 43 || c == 45 || c == 46 || c == 101 || c == 69
}

pub open spec fn all_number_bytes(f: Seq<u8>) -> bool {
    forall|k: int| 0 <= k < f.len() ==> is_number_byte(#[trigger] f[k])
}

/// All four numeric fields of the quote are made of number bytes.
pub open spec fn quote_numbers(q: QuoteView) -> bool {
    all_number_bytes(q.price) && all_number_bytes(q.percent_change_7d) && all_number_bytes(
        q.volume_24h,
    ) && all_number_bytes(q.market_cap)
}

pub open spec fn entries_numbers(es: Seq<(Seq<u8>, QuoteView)>) -> bool {
    forall|k: int| 0 <= k < es.len() ==> quote_numbers((#[trigger] es[k]).1)
}

pub open spec fn currency_numbers(c: CurrencyView) -> bool {
    entries_numbers(c.quote)
}

pub open spec fn envelope_numbers(e: EnvelopeView) -> bool {
    forall|k: int| 0 <= k < e.data.len() ==> currency_numbers((#[trigger] e.data[k]).1)
}

proof fn lemma_skip_digits_range(s: Seq<u8>, i: int)
    ensures
        i <= skip_digits(s, i),
        0 <= i && i <= s.len() ==> skip_digits(s, i) <= s.len(),
        forall|m: int| i <= m < skip_digits(s, i) ==> is_digit(#[trigger] s[m]),
    decreases s.len() - i,
{
    if 0 <= i < s.len() && is_digit(s[i]) {
        lemma_skip_digits_range(s, i + 1);
    }
}

/// A number token accepted by the grammar holds only number bytes.
proof fn lemma_number_token_bytes(s: Seq<u8>, i: int)
    requires
        parse_number(s, i) is Some,
    ensures
        all_number_bytes((parse_number(s, i)->0).0),
{
    let j0 = if 0 <= i < s.len() && s[i] == 45 {
        i + 1
    } else {
        i
    };
    let j1 = skip_digits(s, j0);
    lemma_skip_digits_range(s, j0);
    let j2 = frac_end(s, j1)->0;
    let j3 = exp_end(s, j2)->0;
    let tok = (parse_number(s, i)->0).0;
    assert(tok == s.subrange(i, j3));
    if 0 <= j1 < s.len() && s[j1] == 46 {
        lemma_skip_digits_range(s, j1 + 1);
    }
    let je = if j2 + 1 < s.len() && (s[j2 + 1] == 43 || s[j2 + 1] == 45) {
        j2 + 2
    } else {
        j2 + 1
    };
    if 0 <= j2 < s.len() && (s[j2] == 101 || s[j2] == 69) {
        lemma_skip_digits_range(s, je);
        assert(j3 == skip_digits(s, je));
    } else {
        assert(j3 == j2);
    }
    assert forall|m: int| 0 <= m < tok.len() implies is_number_byte(#[trigger] tok[m]) by {
        let p = i + m;
        assert(tok[m] == s[p]);
        if p < j0 {
            assert(s[p] == 45);
        } else if p < j1 {
            assert(is_digit(s[p]));
        } else if p < j2 {
            if p == j1 {
                assert(s[p] == 46);
            } else {
                assert(is_digit(s[p]));
            }
        } else if p == j2 {
            assert(s[p] == 101 || s[p] == 69);
        } else if p < je {
            assert(s[p] == 43 || s[p] == 45);
        } else {
            assert(is_digit(s[p]));
        }
    }
}

proof fn lemma_quote_obj_numbers(s: Seq<u8>, i: int)
    requires
        parse_quote_obj(s, i) is Some,
    ensures
        quote_numbers((parse_quote_obj(s, i)->0).0),
{
    let i1 = expect(s, i, 123)->0;
    let ms1 = member_start(s, i1, price_key())->0;
    lemma_number_token_bytes(s, ms1);
    let i2 = (number_member(s, i1, price_key())->0).1;
    let i3 = after_comma(s, i2)->0;
    let ms2 = member_start(s, i3, percent_change_7d_key())->0;
    lemma_number_token_bytes(s, ms2);
    let i4 = (number_member(s, i3, percent_change_7d_key())->0).1;
    let i5 = after_comma(s, i4)->0;
    let ms3 = member_start(s, i5, volume_24h_key())->0;
    lemma_number_token_bytes(s, ms3);
    let i6 = (number_member(s, i5, volume_24h_key())->0).1;
    let i7 = after_comma(s, i6)->0;
    let ms4 = member_start(s, i7, market_cap_key())->0;
    lemma_number_token_bytes(s, ms4);
}

proof fn lemma_quote_entries_numbers(s: Seq<u8>, i: int)
    requires
        quote_entries(s, i) is Some,
    ensures
        entries_numbers((quote_entries(s, i)->0).0),
    decreases s.len() - i,
{
    let j = (parse_string(s, skip_ws(s, i))->0).1;
    let j2 = expect(s, skip_ws(s, j), 58)->0;
    lemma_quote_obj_numbers(s, skip_ws(s, j2));
    let q = (parse_quote_obj(s, skip_ws(s, j2))->0).0;
    let j3 = (parse_quote_obj(s, skip_ws(s, j2))->0).1;
    let j4 = skip_ws(s, j3);
    let es = (quote_entries(s, i)->0).0;
    if 0 <= j4 < s.len() && s[j4] == 44 {
        lemma_quote_entries_numbers(s, j4 + 1);
        let rest = (quote_entries(s, j4 + 1)->0).0;
        assert forall|k: int| 0 <= k < es.len() implies quote_numbers((#[trigger] es[k]).1) by {
            if k == 0 {
                assert(es[k].1 == q);
            } else {
                assert(es[k] == rest[k - 1]);
            }
        }
    } else {
        assert forall|k: int| 0 <= k < es.len() implies quote_numbers((#[trigger] es[k]).1) by {
            assert(es[k].1 == q);
        }
    }
}

proof fn lemma_quote_map_numbers(s: Seq<u8>, i: int)
    requires
        parse_quote_map(s, i) is Some,
    ensures
        entries_numbers((parse_quote_map(s, i)->0).0),
{
    let i1 = expect(s, i, 123)->0;
    let j = skip_ws(s, i1);
    if 0 <= j < s.len() && s[j] == 125 {
    } else {
        lemma_quote_entries_numbers(s, i1);
    }
}

proof fn lemma_currency_numbers(s: Seq<u8>, i: int)
    requires
        parse_currency(s, i) is Some,
    ensures
        currency_numbers((parse_currency(s, i)->0).0),
{
    let i1 = expect(s, i, 123)->0;
    let i2 = (number_member(s, i1, id_key())->0).1;
    let i3 = after_comma(s, i2)->0;
    let i4 = (string_member(s, i3, name_key())->0).1;
    let i5 = after_comma(s, i4)->0;
    let i6 = (string_member(s, i5, symbol_key())->0).1;
    let i7 = after_comma(s, i6)->0;
    let i8 = (string_member(s, i7, slug_key())->0).1;
    let i9 = after_comma(s, i8)->0;
    let i10 = member_start(s, i9, quote_key())->0;
    lemma_quote_map_numbers(s, i10);
}

proof fn lemma_data_entries_numbers(s: Seq<u8>, i: int)
    requires
        data_entries(s, i) is Some,
    ensures
        forall|k: int|
            0 <= k < (data_entries(s, i)->0).0.len() ==> currency_numbers(
                (#[trigger] (data_entries(s, i)->0).0[k]).1,
            ),
    decreases s.len() - i,
{
    let j = (parse_string(s, skip_ws(s, i))->0).1;
    let j2 = expect(s, skip_ws(s, j), 58)->0;
    lemma_currency_numbers(s, skip_ws(s, j2));
    let c = (parse_currency(s, skip_ws(s, j2))->0).0;
    let j3 = (parse_currency(s, skip_ws(s, j2))->0).1;
    let j4 = skip_ws(s, j3);
    let es = (data_entries(s, i)->0).0;
    if 0 <= j4 < s.len() && s[j4] == 44 {
        lemma_data_entries_numbers(s, j4 + 1);
        let rest = (data_entries(s, j4 + 1)->0).0;
        assert forall|k: int| 0 <= k < es.len() implies currency_numbers((#[trigger] es[k]).1) by {
            if k == 0 {
                assert(es[k].1 == c);
            } else {
                assert(es[k] == rest[k - 1]);
            }
        }
    } else {
        assert forall|k: int| 0 <= k < es.len() implies currency_numbers((#[trigger] es[k]).1) by {
            assert(es[k].1 == c);
        }
    }
}

/// Law: in a parsed response, every numeric field of every quote of every
/// currency holds nothing but number bytes, so it is exactly the token
/// that stood in the body.
pub proof fn lemma_envelope_numbers(s: Seq<u8>)
    requires
        json_envelope(s) is Some,
    ensures
        envelope_numbers(json_envelope(s)->0),
{
    let i1 = expect(s, skip_ws(s, 0), 123)->0;
    let i2 = member_start(s, i1, data_key())->0;
    let i1b = expect(s, i2, 123)->0;
    let j = skip_ws(s, i1b);
    if 0 <= j < s.len() && s[j] == 125 {
    } else {
        lemma_data_entries_numbers(s, i1b);
    }
}

/// Parses a whole response body against the documented schema.
/// Returns `None` exactly when the body does not match it.
pub fn parse_envelope(s: &Vec<u8>) -> (r: Option<Envelope>)
    ensures
        (match (r, json_envelope(s@)) {
            (Some(e), Some(ev)) => e@ == ev,
            (None, None) => true,
            _ => false,
        }),
{
    let i0 = ws_at(s, 0);
    let i1 = match take(s, i0, 123) {
        None => return None,
        Some(x) => x,
    };
    let kd = data_key_v();
    let i2 = match member_start_at(s, i1, &kd) {
        None => return None,
        Some(x) => x,
    };
    let (d, i3) = match data_map_at(s, i2) {
        None => return None,
        Some(x) => x,
    };
    let j = ws_at(s, i3);
    let i4 = match take(s, j, 125) {
        None => return None,
        Some(x) => x,
    };
    let i5 = ws_at(s, i4);
    if i5 == s.len() {
        Some(Envelope { data: d })
    } else {
        None
    }
}

} // verus!
