//! River exports: from rows to candidates.
//!
//! River writes one row for each transaction and gives it no identifier, so
//! the identity of a transaction is made of its time and its amount. Two
//! transactions of one amount within one second therefore count as one.
use crate::engine::{candidate_views, Candidate, CandidateView};
use crate::error::{
    btc_error, usd_error, ImportError, ImportErrorView, ParseErrorView, ParseField,
};
use crate::models::{CreateBitcoinTransactionRequest, RequestView, TransactionType};
use crate::money::{btc_to_sats, btc_to_sats_spec, usd_to_cents, usd_to_cents_spec};
use crate::order::{reordered, sort_order, stable_order};
use crate::records::{river_views, RiverRecord, RiverRecordView};
use crate::text::{
    append_str, push_signed_decimal, same_text, signed_decimal_text, string_from_chars,
};
use crate::time::{parse_river_timestamp, river_instant, time_key, time_key_of, Timestamp};
use vstd::prelude::*;

verus! {

/// The key by which a row is put in the order of time. A row whose date
/// cannot be read comes behind all rows whose date can.
pub open spec fn river_key(r: RiverRecordView) -> i128 {
    match river_instant(r.date) {
        Some(t) => time_key(t),
        None => i128::MAX,
    }
}

/// The keys of the rows.
pub open spec fn river_keys(records: Seq<RiverRecordView>) -> Seq<i128> {
    records.map_values(|r: RiverRecordView| river_key(r))
}

/// What a purchase trades, as River writes it: the text of the bitcoin
/// amount and the text of the dollar amount. None unless dollars were sent
/// and bitcoin was received.
pub open spec fn purchase_sides(r: RiverRecordView) -> Option<(Seq<char>, Seq<char>)> {
    if r.sent_currency == "USD"@ && r.received_currency == "BTC"@ {
        Some((r.received_amount, r.sent_amount))
    } else {
        None
    }
}

/// What a sale trades, as River writes it: the text of the bitcoin amount
/// and the text of the dollar amount. None unless bitcoin was sent and
/// dollars were received.
pub open spec fn sale_sides(r: RiverRecordView) -> Option<(Seq<char>, Seq<char>)> {
    if r.sent_currency == "BTC"@ && r.received_currency == "USD"@ {
        Some((r.sent_amount, r.received_amount))
    } else {
        None
    }
}

/// What a row trades: the kind of transaction, the text of the bitcoin
/// amount and the text of the dollar amount. None unless the row is tagged
/// as a purchase of bitcoin for dollars or as a sale of bitcoin for dollars.
pub open spec fn river_sides(r: RiverRecordView) -> Option<(TransactionType, Seq<char>, Seq<char>)> {
    if r.tag == "Buy"@ {
        match purchase_sides(r) {
            Some((btc_text, usd_text)) => Some((TransactionType::Buy, btc_text, usd_text)),
            None => None,
        }
    } else if r.tag == "Sell"@ {
        match sale_sides(r) {
            Some((btc_text, usd_text)) => Some((TransactionType::Sell, btc_text, usd_text)),
            None => None,
        }
    } else {
        None
    }
}

/// The identity of a River transaction: its time in seconds since the epoch
/// and its amount in satoshis, behind `river_`.
pub open spec fn river_provider_id(secs: i64, sats: i64) -> Seq<char> {
    "river_"@ + signed_decimal_text(secs as int) + "_"@ + signed_decimal_text(sats as int)
}

/// The error for a date that cannot be read.
pub open spec fn date_error(text: Seq<char>) -> ParseErrorView {
    ParseErrorView { field: ParseField::RiverTimestamp, value: text }
}

/// The candidate of a purchase or a sale at the instant `t`: the amounts are
/// read in the order bitcoin, dollars, fee, and the first that cannot be
/// read fails the candidate.
pub open spec fn trade_candidate(
    kind: TransactionType,
    btc_text: Seq<char>,
    usd_text: Seq<char>,
    fee_text: Seq<char>,
    t: Timestamp,
) -> CandidateView {
    if btc_to_sats_spec(btc_text) is None {
        CandidateView::Fail(ImportErrorView::Parse(btc_error(btc_text)))
    } else if usd_to_cents_spec(usd_text) is None {
        CandidateView::Fail(ImportErrorView::Parse(usd_error(usd_text)))
    } else if usd_to_cents_spec(fee_text) is None {
        CandidateView::Fail(ImportErrorView::Parse(usd_error(fee_text)))
    } else {
        let sats = btc_to_sats_spec(btc_text)->0 as i64;
        let id = river_provider_id(t.secs, sats);
        CandidateView::Entry {
            provider_id: id,
            request: Ok(
                RequestView {
                    kind,
                    amount_sats: sats,
                    subtotal_cents: Some(usd_to_cents_spec(usd_text)->0 as i64),
                    fee_cents: Some(usd_to_cents_spec(fee_text)->0 as i64),
                    memo: Some("River"@),
                    timestamp: t,
                    provider_id: Some(id),
                },
            ),
        }
    }
}

/// The candidate that a row makes. The date is read first, whatever the row
/// is; then a row that is no purchase or sale of bitcoin for dollars is
/// passed over; then the amounts are read.
pub open spec fn river_candidate(r: RiverRecordView) -> CandidateView {
    match river_instant(r.date) {
        None => CandidateView::Fail(ImportErrorView::Parse(date_error(r.date))),
        Some(t) => match river_sides(r) {
            None => CandidateView::Skip,
            Some((kind, btc_text, usd_text)) => trade_candidate(
                kind,
                btc_text,
                usd_text,
                r.fee_amount,
                t,
            ),
        },
    }
}

/// The candidates that the rows of an export make: one for each row, the
/// rows in the order of time, rows of one instant staying as they stood.
pub open spec fn river_candidates(records: Seq<RiverRecordView>) -> Seq<CandidateView> {
    reordered(records, stable_order(river_keys(records))).map_values(
        |r: RiverRecordView| river_candidate(r),
    )
}

/// Writes the identity of a River transaction.
pub fn river_id(secs: i64, sats: i64) -> (id: String)
    ensures
        id@ == river_provider_id(secs, sats),
{
    let mut out: Vec<char> = Vec::new();
    append_str(&mut out, "river_");
    push_signed_decimal(&mut out, secs);
    append_str(&mut out, "_");
    push_signed_decimal(&mut out, sats);
    assert(out@ =~= river_provider_id(secs, sats));
    string_from_chars(&out)
}

/// Makes the candidate of a purchase or a sale whose date has been read.
fn candidate_of_trade(
    kind: TransactionType,
    btc_text: &str,
    usd_text: &str,
    fee_text: &str,
    t: Timestamp,
) -> (c: Candidate)
    ensures
        c@ == trade_candidate(kind, btc_text@, usd_text@, fee_text@, t),
{
    let sats = match btc_to_sats(btc_text) {
        Ok(v) => v,
        Err(e) => { return Candidate::Fail(ImportError::Parse(e)); },
    };
    let subtotal = match usd_to_cents(usd_text) {
        Ok(v) => v,
        Err(e) => { return Candidate::Fail(ImportError::Parse(e)); },
    };
    let fee = match usd_to_cents(fee_text) {
        Ok(v) => v,
        Err(e) => { return Candidate::Fail(ImportError::Parse(e)); },
    };
    let provider_id = river_id(t.secs, sats);
    Candidate::Entry {
        provider_id: provider_id.clone(),
        request: Ok(
            CreateBitcoinTransactionRequest {
                kind,
                amount_sats: sats,
                subtotal_cents: Some(subtotal),
                fee_cents: Some(fee),
                memo: Some(String::from_str("River")),
                timestamp: t,
                provider_id: Some(provider_id),
            },
        ),
    }
}

/// Makes the candidate of a row tagged as a purchase, its date having been
/// read as `timestamp`: passed over unless dollars were sent and bitcoin
/// was received; else the bitcoin received for the dollars sent.
pub fn process_river_buy_transaction(
    timestamp: &Timestamp,
    sent_amount: &str,
    sent_currency: &str,
    received_amount: &str,
    received_currency: &str,
    fee_amount: &str,
) -> (c: Candidate)
    ensures
        c@ == (if sent_currency@ == "USD"@ && received_currency@ == "BTC"@ {
            trade_candidate(
                TransactionType::Buy,
                received_amount@,
                sent_amount@,
                fee_amount@,
                *timestamp,
            )
        } else {
            CandidateView::Skip
        }),
{
    if !same_text(sent_currency, "USD") || !same_text(received_currency, "BTC") {
        return Candidate::Skip;
    }
    candidate_of_trade(TransactionType::Buy, received_amount, sent_amount, fee_amount, *timestamp)
}

/// Makes the candidate of a row tagged as a sale, its date having been read
/// as `timestamp`: passed over unless bitcoin was sent and dollars were
/// received; else the bitcoin sent for the dollars received.
pub fn process_river_sell_transaction(
    timestamp: &Timestamp,
    sent_amount: &str,
    sent_currency: &str,
    received_amount: &str,
    received_currency: &str,
    fee_amount: &str,
) -> (c: Candidate)
    ensures
        c@ == (if sent_currency@ == "BTC"@ && received_currency@ == "USD"@ {
            trade_candidate(
                TransactionType::Sell,
                sent_amount@,
                received_amount@,
                fee_amount@,
                *timestamp,
            )
        } else {
            CandidateView::Skip
        }),
{
    if !same_text(sent_currency, "BTC") || !same_text(received_currency, "USD") {
        return Candidate::Skip;
    }
    candidate_of_trade(TransactionType::Sell, sent_amount, received_amount, fee_amount, *timestamp)
}

/// Makes the candidate of a row.
pub fn candidate_of_record(r: &RiverRecord) -> (c: Candidate)
    ensures
        c@ == river_candidate(r@),
{
    let t = match parse_river_timestamp(r.date.as_str()) {
        Ok(t) => t,
        Err(e) => { return Candidate::Fail(ImportError::Parse(e)); },
    };
    if same_text(r.tag.as_str(), "Buy") {
        process_river_buy_transaction(
            &t,
            r.sent_amount.as_str(),
            r.sent_currency.as_str(),
            r.received_amount.as_str(),
            r.received_currency.as_str(),
            r.fee_amount.as_str(),
        )
    } else if same_text(r.tag.as_str(), "Sell") {
        process_river_sell_transaction(
            &t,
            r.sent_amount.as_str(),
            r.sent_currency.as_str(),
            r.received_amount.as_str(),
            r.received_currency.as_str(),
            r.fee_amount.as_str(),
        )
    } else {
        Candidate::Skip
    }
}

/// Makes the candidates of the rows of an export.
pub fn candidates_of_records(records: &Vec<RiverRecord>) -> (out: Vec<Candidate>)
    ensures
        candidate_views(out@) == river_candidates(river_views(records@)),
{
    let n = records.len();
    let ghost rows = river_views(records@);
    let mut keys: Vec<i128> = Vec::new();
    let mut i: usize = 0;
    while i < n
        invariant
            i <= n,
            n == records.len(),
            rows == river_views(records@),
            keys@.len() == i,
            forall|k: int| 0 <= k < i ==> #[trigger] keys@[k] == river_key(rows[k]),
        decreases n - i,
    {
        assert(rows[i as int] == records@[i as int]@);
        let key = match parse_river_timestamp(records[i].date.as_str()) {
            Ok(t) => time_key_of(&t),
            Err(_) => i128::MAX,
        };
        keys.push(key);
        i += 1;
    }
    assert(keys@ =~= river_keys(rows));
    let order = sort_order(&keys);
    let mut out: Vec<Candidate> = Vec::new();
    let mut k: usize = 0;
    while k < n
        invariant
            k <= n,
            n == records.len(),
            n == order.len(),
            rows == river_views(records@),
            forall|j: int| 0 <= j < n ==> #[trigger] order@[j] < n,
            out@.len() == k,
            forall|j: int| 0 <= j < k ==> (#[trigger] out@[j])@ == river_candidate(rows[order@[j] as int]),
        decreases n - k,
    {
        let at = order[k];
        assert(rows[at as int] == records@[at as int]@);
        out.push(candidate_of_record(&records[at]));
        k += 1;
    }
    assert(candidate_views(out@) =~= river_candidates(rows));
    out
}

} // verus!
