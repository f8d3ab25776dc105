//! CSV rendering of a parsed response.
//!
//! The report is a fixed four-column header `name,symbol,price,
//! percent_change_7d`, then one row per currency, in response order. A
//! field containing a comma, a double quote, a line feed or a carriage
//! return is quoted, with inner quotes doubled; every other field is
//! written as it stands. Rows end in a line feed. A currency without a
//! quote in the settlement currency makes the whole report fail.

use vstd::prelude::*;

use crate::json::all_number_bytes;
use crate::json::entries_numbers;
use crate::json::is_number_byte;
use crate::json::name_key;
use crate::json::percent_change_7d_key;
use crate::json::price_key;
use crate::json::quote_numbers;
use crate::json::symbol_key;
use crate::model::CurrencyView;
use crate::model::Envelope;
use crate::model::EnvelopeView;
use crate::model::QuoteView;

verus! {

/// The fixed settlement-currency code, `USD`.
pub open spec fn usd_key() -> Seq<u8> {
    seq![85u8, 83u8, 68u8]
}

/// Bytes that force a field to be quoted.
pub open spec fn is_special(c: u8) -> bool {
    c == 44 || c == 34 || c == 10 || c == 13
}

pub open spec fn needs_quoting(f: Seq<u8>) -> bool {
    exists|k: int| 0 <= k < f.len() && is_special(#[trigger] f[k])
}

/// The field's bytes from position `i` on, with every double quote doubled.
pub open spec fn doubled_from(f: Seq<u8>, i: int) -> Seq<u8>
    decreases f.len() - i,
{
    if 0 <= i < f.len() {
        if f[i] == 34 {
            seq![34u8, 34u8] + doubled_from(f, i + 1)
        } else {
            seq![f[i]] + doubled_from(f, i + 1)
        }
    } else {
        Seq::empty()
    }
}

/// A rendered CSV field: quoted exactly when it holds a special byte.
pub open spec fn csv_field(f: Seq<u8>) -> Seq<u8> {
    if needs_quoting(f) {
        seq![34u8] + doubled_from(f, 0) + seq![34u8]
    } else {
        f
    }
}

/// One rendered CSV record of four fields, ending in a line feed.
pub open spec fn csv_row(a: Seq<u8>, b: Seq<u8>, c: Seq<u8>, d: Seq<u8>) -> Seq<u8> {
    csv_field(a) + seq![44u8] + csv_field(b) + seq![44u8] + csv_field(c) + seq![44u8] + csv_field(
        d,
    ) + seq![10u8]
}

/// The fixed header record `name,symbol,price,percent_change_7d`.
pub open spec fn header_row() -> Seq<u8> {
    name_key() + seq![44u8] + symbol_key() + seq![44u8] + price_key() + seq![44u8]
        + percent_change_7d_key() + seq![10u8]
}

/// The first quote listed under the `USD` code, from position `i` on.
pub open spec fn usd_from(q: Seq<(Seq<u8>, QuoteView)>, i: int) -> Option<QuoteView>
    decreases q.len() - i,
{
    if 0 <= i < q.len() {
        if q[i].0 == usd_key() {
            Some(q[i].1)
        } else {
            usd_from(q, i + 1)
        }
    } else {
        None
    }
}

/// The currency's quote in the settlement currency, if it has one.
pub open spec fn usd_quote(c: CurrencyView) -> Option<QuoteView> {
    usd_from(c.quote, 0)
}

/// The currency's rendered record; `None` when it lacks the quote.
pub open spec fn currency_row(c: CurrencyView) -> Option<Seq<u8>> {
    match usd_quote(c) {
        None => None,
        Some(q) => Some(csv_row(c.name, c.symbol, q.price, q.percent_change_7d)),
    }
}

/// The rendered records of the currencies from position `i` on, or `None`
/// if any of them lacks the settlement-currency quote.
pub open spec fn rows_from(d: Seq<(Seq<u8>, CurrencyView)>, i: int) -> Option<Seq<u8>>
    decreases d.len() - i,
{
    if 0 <= i < d.len() {
        match currency_row(d[i].1) {
            None => None,
            Some(row) => match rows_from(d, i + 1) {
                None => None,
                Some(rest) => Some(row + rest),
            },
        }
    } else {
        Some(Seq::empty())
    }
}

/// The whole report: header, then one record per currency, in order.
pub open spec fn csv_report(e: EnvelopeView) -> Option<Seq<u8>> {
    match rows_from(e.data, 0) {
        None => None,
        Some(rows) => Some(header_row() + rows),
    }
}

// ---------------------------------------------------------------------------
// Shape of the report: line counting and failure characterization.
// ---------------------------------------------------------------------------

/// Number of line feeds; since every record ends in exactly one, this is
/// the number of lines of a report whose fields hold none themselves.
pub open spec fn line_count(s: Seq<u8>) -> int
    decreases s.len(),
{
    if s.len() == 0 {
        0
    } else {
        (if s[0] == 10 {
            1int
        } else {
            0int
        }) + line_count(s.skip(1))
    }
}

pub proof fn lemma_line_count_add(a: Seq<u8>, b: Seq<u8>)
    ensures
        line_count(a + b) == line_count(a) + line_count(b),
    decreases a.len(),
{
    if a.len() == 0 {
        assert(a + b =~= b);
    } else {
        assert((a + b).skip(1) =~= a.skip(1) + b);
        assert((a + b)[0] == a[0]);
        lemma_line_count_add(a.skip(1), b);
    }
}

/// The field holds no line feed.
pub open spec fn no_newline(f: Seq<u8>) -> bool {
    forall|k: int| 0 <= k < f.len() ==> #[trigger] f[k] != 10
}

proof fn lemma_count_no_newline(f: Seq<u8>)
    requires
        no_newline(f),
    ensures
        line_count(f) == 0,
    decreases f.len(),
{
    if f.len() > 0 {
        assert forall|k: int| 0 <= k < f.skip(1).len() implies #[trigger] f.skip(1)[k] != 10 by {
            assert(f.skip(1)[k] == f[k + 1]);
        }
        lemma_count_no_newline(f.skip(1));
    }
}

proof fn lemma_doubled_no_newline(f: Seq<u8>, i: int)
    requires
        no_newline(f),
        0 <= i <= f.len(),
    ensures
        line_count(doubled_from(f, i)) == 0,
    decreases f.len() - i,
{
    reveal_with_fuel(line_count, 4);
    if i < f.len() {
        lemma_doubled_no_newline(f, i + 1);
        if f[i] == 34 {
            lemma_line_count_add(seq![34u8, 34u8], doubled_from(f, i + 1));
            assert(seq![34u8, 34u8].skip(1) =~= seq![34u8]);
            assert(seq![34u8].skip(1) =~= Seq::<u8>::empty());
        } else {
            lemma_line_count_add(seq![f[i]], doubled_from(f, i + 1));
            assert(seq![f[i]].skip(1) =~= Seq::<u8>::empty());
        }
    }
}

proof fn lemma_field_line_count(f: Seq<u8>)
    requires
        no_newline(f),
    ensures
        line_count(csv_field(f)) == 0,
{
    reveal_with_fuel(line_count, 4);
    if needs_quoting(f) {
        lemma_doubled_no_newline(f, 0);
        lemma_line_count_add(seq![34u8], doubled_from(f, 0));
        lemma_line_count_add(seq![34u8] + doubled_from(f, 0), seq![34u8]);
        assert(seq![34u8].skip(1) =~= Seq::<u8>::empty());
    } else {
        lemma_count_no_newline(f);
    }
}

proof fn lemma_row_line_count(a: Seq<u8>, b: Seq<u8>, c: Seq<u8>, d: Seq<u8>)
    requires
        no_newline(a),
        no_newline(b),
        no_newline(c),
        no_newline(d),
    ensures
        line_count(csv_row(a, b, c, d)) == 1,
{
    reveal_with_fuel(line_count, 4);
    lemma_field_line_count(a);
    lemma_field_line_count(b);
    lemma_field_line_count(c);
    lemma_field_line_count(d);
    assert(seq![44u8].skip(1) =~= Seq::<u8>::empty());
    assert(seq![10u8].skip(1) =~= Seq::<u8>::empty());
    let fa = csv_field(a);
    let fb = csv_field(b);
    let fc = csv_field(c);
    let fd = csv_field(d);
    lemma_line_count_add(fa, seq![44u8]);
    lemma_line_count_add(fa + seq![44u8], fb);
    lemma_line_count_add(fa + seq![44u8] + fb, seq![44u8]);
    lemma_line_count_add(fa + seq![44u8] + fb + seq![44u8], fc);
    lemma_line_count_add(fa + seq![44u8] + fb + seq![44u8] + fc, seq![44u8]);
    lemma_line_count_add(fa + seq![44u8] + fb + seq![44u8] + fc + seq![44u8], fd);
    lemma_line_count_add(fa + seq![44u8] + fb + seq![44u8] + fc + seq![44u8] + fd, seq![10u8]);
}

proof fn lemma_header_line_count()
    ensures
        line_count(header_row()) == 1,
{
    reveal_with_fuel(line_count, 4);
    assert(no_newline(name_key()));
    assert(no_newline(symbol_key()));
    assert(no_newline(price_key()));
    assert(no_newline(percent_change_7d_key()));
    lemma_count_no_newline(name_key());
    lemma_count_no_newline(symbol_key());
    lemma_count_no_newline(price_key());
    lemma_count_no_newline(percent_change_7d_key());
    assert(seq![44u8].skip(1) =~= Seq::<u8>::empty());
    assert(seq![10u8].skip(1) =~= Seq::<u8>::empty());
    lemma_line_count_add(name_key(), seq![44u8]);
    lemma_line_count_add(name_key() + seq![44u8], symbol_key());
    lemma_line_count_add(name_key() + seq![44u8] + symbol_key(), seq![44u8]);
    lemma_line_count_add(name_key() + seq![44u8] + symbol_key() + seq![44u8], price_key());
    lemma_line_count_add(
        name_key() + seq![44u8] + symbol_key() + seq![44u8] + price_key(),
        seq![44u8],
    );
    lemma_line_count_add(
        name_key() + seq![44u8] + symbol_key() + seq![44u8] + price_key() + seq![44u8],
        percent_change_7d_key(),
    );
    lemma_line_count_add(
        name_key() + seq![44u8] + symbol_key() + seq![44u8] + price_key() + seq![44u8]
            + percent_change_7d_key(),
        seq![10u8],
    );
}

/// The four written fields of the currency hold no line feed.
pub open spec fn row_fields_no_newline(c: CurrencyView) -> bool {
    no_newline(c.name) && no_newline(c.symbol) && (match usd_quote(c) {
        Some(q) => no_newline(q.price) && no_newline(q.percent_change_7d),
        None => true,
    })
}

proof fn lemma_rows_from_count(d: Seq<(Seq<u8>, CurrencyView)>, i: int)
    requires
        0 <= i <= d.len(),
        forall|k: int| 0 <= k < d.len() ==> usd_quote(#[trigger] d[k].1) is Some,
        forall|k: int| 0 <= k < d.len() ==> row_fields_no_newline(#[trigger] d[k].1),
    ensures
        (rows_from(d, i) matches Some(rest) && line_count(rest) == d.len() - i),
    decreases d.len() - i,
{
    if i < d.len() {
        lemma_rows_from_count(d, i + 1);
        let c = d[i].1;
        let q = usd_quote(c)->0;
        lemma_row_line_count(c.name, c.symbol, q.price, q.percent_change_7d);
        lemma_line_count_add(
            csv_row(c.name, c.symbol, q.price, q.percent_change_7d),
            rows_from(d, i + 1)->0,
        );
    }
}

/// Law: a well-formed response of N currencies, each carrying the
/// settlement-currency quote and line-feed-free fields, yields a report
/// of exactly N + 1 lines: the header line and one line per currency.
pub proof fn lemma_report_line_count(e: EnvelopeView)
    requires
        forall|k: int| 0 <= k < e.data.len() ==> usd_quote(#[trigger] e.data[k].1) is Some,
        forall|k: int| 0 <= k < e.data.len() ==> row_fields_no_newline(#[trigger] e.data[k].1),
    ensures
        (csv_report(e) matches Some(v) && line_count(v) == e.data.len() + 1),
{
    lemma_rows_from_count(e.data, 0);
    lemma_header_line_count();
    lemma_line_count_add(header_row(), rows_from(e.data, 0)->0);
}

proof fn lemma_rows_from_none(d: Seq<(Seq<u8>, CurrencyView)>, i: int)
    requires
        0 <= i <= d.len(),
    ensures
        (rows_from(d, i) is None) <==> (exists|k: int|
            i <= k < d.len() && usd_quote(#[trigger] d[k].1) is None),
    decreases d.len() - i,
{
    if i < d.len() {
        lemma_rows_from_none(d, i + 1);
    }
}

/// Law: the report fails exactly when some returned currency lacks its
/// quote in the settlement currency; one such currency fails the whole
/// run, whatever the other currencies hold.
pub proof fn lemma_report_missing_quote(e: EnvelopeView)
    ensures
        (csv_report(e) is None) <==> (exists|k: int|
            0 <= k < e.data.len() && usd_quote(#[trigger] e.data[k].1) is None),
{
    lemma_rows_from_none(e.data, 0);
}

/// Law: a response in which every currency carries the settlement-currency
/// quote always yields a report.
pub proof fn lemma_report_total(e: EnvelopeView)
    requires
        forall|k: int| 0 <= k < e.data.len() ==> usd_quote(#[trigger] e.data[k].1) is Some,
    ensures
        csv_report(e) is Some,
{
    lemma_report_missing_quote(e);
}

// ---------------------------------------------------------------------------
// Numeric fields are rendered exactly as the response spelled them.
// ---------------------------------------------------------------------------

/// Law: a field made of number bytes never needs quoting, so it is
/// rendered byte for byte as it stands.
pub proof fn lemma_number_field_verbatim(f: Seq<u8>)
    requires
        all_number_bytes(f),
    ensures
        csv_field(f) == f,
{
    if needs_quoting(f) {
        let k = choose|k: int| 0 <= k < f.len() && is_special(#[trigger] f[k]);
        assert(is_number_byte(f[k]));
        assert(false);
    }
}

proof fn lemma_usd_from_numbers(qs: Seq<(Seq<u8>, QuoteView)>, i: int)
    requires
        entries_numbers(qs),
        0 <= i,
        usd_from(qs, i) is Some,
    ensures
        quote_numbers(usd_from(qs, i)->0),
    decreases qs.len() - i,
{
    if qs[i].0 == usd_key() {
    } else {
        lemma_usd_from_numbers(qs, i + 1);
    }
}

/// The currency's record carries its settlement-currency price and percent
/// change verbatim, with no quoting around them.
pub open spec fn row_numbers_verbatim(c: CurrencyView) -> bool {
    match usd_quote(c) {
        Some(q) => currency_row(c) == Some(
            csv_field(c.name) + seq![44u8] + csv_field(c.symbol) + seq![44u8] + q.price + seq![44u8]
                + q.percent_change_7d + seq![10u8],
        ),
        None => true,
    }
}

/// Law: in the report of a parsed response, each currency's row shows its
/// price and percent change byte for byte as the response body spelled
/// them: the numeric text survives the round trip unchanged.
pub proof fn lemma_report_numbers_verbatim(s: Seq<u8>)
    requires
        crate::json::json_envelope(s) is Some,
    ensures
        forall|k: int|
            0 <= k < crate::json::json_envelope(s)->0.data.len() ==> row_numbers_verbatim(
                (#[trigger] crate::json::json_envelope(s)->0.data[k]).1,
            ),
{
    crate::json::lemma_envelope_numbers(s);
    let e = crate::json::json_envelope(s)->0;
    assert forall|k: int| 0 <= k < e.data.len() implies row_numbers_verbatim(
        (#[trigger] e.data[k]).1,
    ) by {
        let c = e.data[k].1;
        if usd_quote(c) is Some {
            lemma_usd_from_numbers(c.quote, 0);
            let q = usd_quote(c)->0;
            lemma_number_field_verbatim(q.price);
            lemma_number_field_verbatim(q.percent_change_7d);
        }
    }
}

// ---------------------------------------------------------------------------
// Exec layer.
// ---------------------------------------------------------------------------

fn usd_key_v() -> (v: Vec<u8>)
    ensures
        v@ == usd_key(),
{
    let mut v: Vec<u8> = Vec::new();
    v.push(85);
    v.push(83);
    v.push(68);
    proof {
        assert(v@ =~= usd_key());
    }
    v
}

fn field_needs_quoting(f: &Vec<u8>) -> (r: bool)
    ensures
        r == needs_quoting(f@),
{
    let mut k: usize = 0;
    while k < f.len()
        invariant
            0 <= k <= f.len(),
            forall|m: int| 0 <= m < k ==> !is_special(#[trigger] f@[m]),
        decreases f.len() - k,
    {
        let c = f[k];
        if c == 44 || c == 34 || c == 10 || c == 13 {
            proof {
                assert(is_special(f@[k as int]));
            }
            return true;
        }
        k = k + 1;
    }
    false
}

/// Appends the rendered form of one field.
fn push_field(out: &mut Vec<u8>, f: &Vec<u8>)
    ensures
        final(out)@ == old(out)@ + csv_field(f@),
{
    let ghost out0 = out@;
    if !field_needs_quoting(f) {
        let mut k: usize = 0;
        while k < f.len()
            invariant
                0 <= k <= f.len(),
                out@ == out0 + f@.subrange(0, k as int),
            decreases f.len() - k,
        {
            out.push(f[k]);
            proof {
                assert(f@.subrange(0, k as int + 1) =~= f@.subrange(0, k as int) + seq![
                    f@[k as int],
                ]);
                assert(out@ =~= out0 + f@.subrange(0, k as int + 1));
            }
            k = k + 1;
        }
        proof {
            assert(f@.subrange(0, f@.len() as int) =~= f@);
        }
    } else {
        out.push(34);
        let mut k: usize = 0;
        while k < f.len()
            invariant
                0 <= k <= f.len(),
                out@ + doubled_from(f@, k as int) == out0 + seq![34u8] + doubled_from(f@, 0),
            decreases f.len() - k,
        {
            let c = f[k];
            if c == 34 {
                out.push(34);
                out.push(34);
                proof {
                    assert(doubled_from(f@, k as int) =~= seq![34u8, 34u8] + doubled_from(
                        f@,
                        k as int + 1,
                    ));
                    assert(out@ + doubled_from(f@, k as int + 1) =~= out0 + seq![34u8]
                        + doubled_from(f@, 0));
                }
            } else {
                out.push(c);
                proof {
                    assert(doubled_from(f@, k as int) =~= seq![f@[k as int]] + doubled_from(
                        f@,
                        k as int + 1,
                    ));
                    assert(out@ + doubled_from(f@, k as int + 1) =~= out0 + seq![34u8]
                        + doubled_from(f@, 0));
                }
            }
            k = k + 1;
        }
        out.push(34);
        proof {
            assert(out@ =~= out0 + (seq![34u8] + doubled_from(f@, 0) + seq![34u8]));
        }
    }
}

/// Appends one currency's record, or appends nothing and reports `false`
/// when the currency lacks the settlement-currency quote.
fn push_row(out: &mut Vec<u8>, c: &crate::model::Currency) -> (r: bool)
    ensures
        (match currency_row(c@) {
            Some(row) => r && final(out)@ == old(out)@ + row,
            None => !r && final(out)@ == old(out)@,
        }),
{
    let usd = usd_key_v();
    let mut k: usize = 0;
    while k < c.quote.len()
        invariant
            0 <= k <= c.quote.len(),
            usd@ == usd_key(),
            usd_from(c@.quote, 0) == usd_from(c@.quote, k as int),
            out@ == old(out)@,
        decreases c.quote.len() - k,
    {
        proof {
            assert(c@.quote[k as int] == crate::model::quote_pair_view(c.quote@[k as int]));
        }
        if crate::json::bytes_eq(&c.quote[k].0, &usd) {
            let q = &c.quote[k].1;
            proof {
                assert(usd_from(c@.quote, k as int) == Some(q@));
            }
            let ghost out0 = out@;
            push_field(out, &c.name);
            out.push(44);
            push_field(out, &c.symbol);
            out.push(44);
            push_field(out, &q.price);
            out.push(44);
            push_field(out, &q.percent_change_7d);
            out.push(10);
            proof {
                assert(out@ =~= out0 + csv_row(c@.name, c@.symbol, q@.price, q@.percent_change_7d));
            }
            return true;
        }
        proof {
            assert(usd_from(c@.quote, k as int) == usd_from(c@.quote, k as int + 1));
        }
        k = k + 1;
    }
    false
}

/// Builds the fixed header record.
#[verifier::rlimit(50)]
fn header_v() -> (v: Vec<u8>)
    ensures
        v@ == header_row(),
{
    let mut v: Vec<u8> = Vec::new();
    v.push(110);
    v.push(97);
    v.push(109);
    v.push(101);
    v.push(44);
    v.push(115);
    v.push(121);
    v.push(109);
    v.push(98);
    v.push(111);
    v.push(108);
    v.push(44);
    v.push(112);
    v.push(114);
    v.push(105);
    v.push(99);
    v.push(101);
    v.push(44);
    v.push(112);
    v.push(101);
    v.push(114);
    v.push(99);
    v.push(101);
    v.push(110);
    v.push(116);
    v.push(95);
    v.push(99);
    v.push(104);
    v.push(97);
    v.push(110);
    v.push(103);
    v.push(101);
    v.push(95);
    v.push(55);
    v.push(100);
    v.push(10);
    proof {
        assert(v@ =~= header_row());
    }
    v
}

/// Renders the whole report, or returns `None` exactly when some currency
/// lacks the settlement-currency quote.
pub fn write_csv(e: &Envelope) -> (r: Option<Vec<u8>>)
    ensures
        (match (r, csv_report(e@)) {
            (Some(v), Some(sv)) => v@ == sv,
            (None, None) => true,
            _ => false,
        }),
{
    let mut out = header_v();
    let mut idx: usize = 0;
    while idx < e.data.len()
        invariant
            0 <= idx <= e.data.len(),
            e.data.len() == e@.data.len(),
            (match rows_from(e@.data, idx as int) {
                None => rows_from(e@.data, 0) is None,
                Some(rest) => (rows_from(e@.data, 0) matches Some(all) && header_row() + all == out@
                    + rest),
            }),
        decreases e.data.len() - idx,
    {
        proof {
            assert(e@.data[idx as int] == crate::model::data_pair_view(e.data@[idx as int]));
        }
        let ghost out0 = out@;
        let ok = push_row(&mut out, &e.data[idx].1);
        if !ok {
            proof {
                assert(currency_row(e@.data[idx as int].1) is None);
                assert(rows_from(e@.data, idx as int) is None);
            }
            return None;
        }
        proof {
            let cv = e@.data[idx as int].1;
            let row = currency_row(cv)->0;
            assert(out@ == out0 + row);
            match rows_from(e@.data, idx as int + 1) {
                None => {
                    assert(rows_from(e@.data, idx as int) is None);
                },
                Some(rest2) => {
                    assert(rows_from(e@.data, idx as int) == Some(row + rest2));
                    assert(out0 + (row + rest2) =~= (out0 + row) + rest2);
                },
            }
        }
        idx = idx + 1;
    }
    proof {
        assert(rows_from(e@.data, e@.data.len() as int) == Some(Seq::<u8>::empty()));
        match rows_from(e@.data, 0) {
            None => {
                assert(false);
            },
            Some(all) => {
                assert(header_row() + all =~= out@ + Seq::<u8>::empty());
                assert(out@ + Seq::<u8>::empty() =~= out@);
            },
        }
    }
    Some(out)
}

} // verus!
