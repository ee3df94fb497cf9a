//! The records that the tracker keeps: kinds of transaction, a logical
//! transaction as it is stored, and the request from which one is created.
use crate::text::{append_str, lowercase_of, same_text, string_from_chars, to_lowercase};
use crate::time::Timestamp;
use vstd::prelude::*;

verus! {

/// What a string that may be absent holds.
pub open spec fn opt_text(s: Option<String>) -> Option<Seq<char>> {
    match s {
        Some(t) => Some(t@),
        None => None,
    }
}

/// The direction of an exchange transaction.
#[derive(Clone, Copy, Debug, PartialEq, Eq, Structural)]
pub enum TransactionType {
    Buy,
    Sell,
}

/// The word that stands for a kind of transaction in the store.
pub open spec fn transaction_type_word(t: TransactionType) -> Seq<char> {
    match t {
        TransactionType::Buy => "buy"@,
        TransactionType::Sell => "sell"@,
    }
}

/// The kind of transaction that a lower-case word names.
pub open spec fn transaction_type_named(lowered: Seq<char>) -> Option<TransactionType> {
    if lowered == "buy"@ {
        Some(TransactionType::Buy)
    } else if lowered == "sell"@ {
        Some(TransactionType::Sell)
    } else {
        None
    }
}

impl TransactionType {
    /// The word that stands for this kind: `buy` or `sell`.
    pub fn to_string(&self) -> (s: String)
        ensures
            s@ == transaction_type_word(*self),
    {
        match self {
            TransactionType::Buy => String::from_str("buy"),
            TransactionType::Sell => String::from_str("sell"),
        }
    }

    /// The kind that the word `lowered` names, `given` being the text it was
    /// made from; an error that quotes `given` where it names none.
    pub fn from_lowercase(lowered: &str, given: &str) -> (r: Result<TransactionType, String>)
        ensures
            match r {
                Ok(t) => transaction_type_named(lowered@) == Some(t),
                Err(m) => transaction_type_named(lowered@) is None && m@
                    == "Invalid transaction type: "@ + given@,
            },
    {
        if same_text(lowered, "buy") {
            Ok(TransactionType::Buy)
        } else if same_text(lowered, "sell") {
            Ok(TransactionType::Sell)
        } else {
            let mut out: Vec<char> = Vec::new();
            append_str(&mut out, "Invalid transaction type: ");
            append_str(&mut out, given);
            assert(out@ =~= "Invalid transaction type: "@ + given@);
            Err(string_from_chars(&out))
        }
    }

    /// Reads a kind of transaction, whatever the case of the letters.
    pub fn from_str(s: &str) -> (r: Result<TransactionType, String>)
        ensures
            match r {
                Ok(t) => transaction_type_named(lowercase_of(s@)) == Some(t),
                Err(m) => transaction_type_named(lowercase_of(s@)) is None && m@
                    == "Invalid transaction type: "@ + s@,
            },
    {
        let lowered = to_lowercase(s);
        TransactionType::from_lowercase(lowered.as_str(), s)
    }

    /// Reads a kind of transaction from an owned string.
    pub fn try_from(value: String) -> (r: Result<TransactionType, String>)
        ensures
            match r {
                Ok(t) => transaction_type_named(lowercase_of(value@)) == Some(t),
                Err(m) => transaction_type_named(lowercase_of(value@)) is None && m@
                    == "Invalid transaction type: "@ + value@,
            },
    {
        TransactionType::from_str(value.as_str())
    }
}

/// What changes a balance: a purchase, a sale or a fee.
#[derive(Clone, Copy, Debug, PartialEq, Eq, Structural)]
pub enum BalanceChangeType {
    Buy,
    Sell,
    Fee,
}

/// The word that stands for a kind of balance change.
pub open spec fn balance_change_word(t: BalanceChangeType) -> Seq<char> {
    match t {
        BalanceChangeType::Buy => "Buy"@,
        BalanceChangeType::Sell => "Sell"@,
        BalanceChangeType::Fee => "Fee"@,
    }
}

/// The kind of balance change that a word names, letter for letter.
pub open spec fn balance_change_named(word: Seq<char>) -> Option<BalanceChangeType> {
    if word == "Buy"@ {
        Some(BalanceChangeType::Buy)
    } else if word == "Sell"@ {
        Some(BalanceChangeType::Sell)
    } else if word == "Fee"@ {
        Some(BalanceChangeType::Fee)
    } else {
        None
    }
}

impl BalanceChangeType {
    /// The word that stands for this kind: `Buy`, `Sell` or `Fee`.
    pub fn to_string(&self) -> (s: String)
        ensures
            s@ == balance_change_word(*self),
    {
        match self {
            BalanceChangeType::Buy => String::from_str("Buy"),
            BalanceChangeType::Sell => String::from_str("Sell"),
            BalanceChangeType::Fee => String::from_str("Fee"),
        }
    }

    /// Reads a kind of balance change; an error that quotes `s` where it
    /// names none.
    pub fn from_str(s: &str) -> (r: Result<BalanceChangeType, String>)
        ensures
            match r {
                Ok(t) => balance_change_named(s@) == Some(t),
                Err(m) => balance_change_named(s@) is None && m@ == "Invalid event type: "@ + s@,
            },
    {
        if same_text(s, "Buy") {
            Ok(BalanceChangeType::Buy)
        } else if same_text(s, "Sell") {
            Ok(BalanceChangeType::Sell)
        } else if same_text(s, "Fee") {
            Ok(BalanceChangeType::Fee)
        } else {
            let mut out: Vec<char> = Vec::new();
            append_str(&mut out, "Invalid event type: ");
            append_str(&mut out, s);
            assert(out@ =~= "Invalid event type: "@ + s@);
            Err(string_from_chars(&out))
        }
    }

    /// Reads a kind of balance change from an owned string.
    pub fn try_from(value: String) -> (r: Result<BalanceChangeType, String>)
        ensures
            match r {
                Ok(t) => balance_change_named(value@) == Some(t),
                Err(m) => balance_change_named(value@) is None && m@ == "Invalid event type: "@
                    + value@,
            },
    {
        BalanceChangeType::from_str(value.as_str())
    }
}

/// What is needed to create a transaction: everything but the time of
/// creation.
#[derive(Debug)]
pub struct CreateBitcoinTransactionRequest {
    pub kind: TransactionType,
    pub amount_sats: i64,
    pub subtotal_cents: Option<i64>,
    pub fee_cents: Option<i64>,
    pub memo: Option<String>,
    pub timestamp: Timestamp,
    pub provider_id: Option<String>,
}

/// What a [`CreateBitcoinTransactionRequest`] holds, as plain values.
pub struct RequestView {
    pub kind: TransactionType,
    pub amount_sats: i64,
    pub subtotal_cents: Option<i64>,
    pub fee_cents: Option<i64>,
    pub memo: Option<Seq<char>>,
    pub timestamp: Timestamp,
    pub provider_id: Option<Seq<char>>,
}

impl View for CreateBitcoinTransactionRequest {
    type V = RequestView;

    open spec fn view(&self) -> RequestView {
        RequestView {
            kind: self.kind,
            amount_sats: self.amount_sats,
            subtotal_cents: self.subtotal_cents,
            fee_cents: self.fee_cents,
            memo: opt_text(self.memo),
            timestamp: self.timestamp,
            provider_id: opt_text(self.provider_id),
        }
    }
}

/// A purchase or a sale as the store keeps it, made from one or more rows of
/// an export or entered by hand.
#[derive(Debug)]
pub struct LogicalTransaction {
    pub amount_sats: i64,
    pub subtotal_cents: Option<i64>,
    pub fee_cents: Option<i64>,
    pub kind: TransactionType,
    pub memo: Option<String>,
    /// When the transaction took place.
    pub timestamp: Timestamp,
    /// The identity under which an import knows the transaction; none for a
    /// transaction entered by hand.
    pub provider_id: Option<String>,
    /// When the transaction came into the store.
    pub created_at: Timestamp,
}

/// What a [`LogicalTransaction`] holds, as plain values.
pub struct TransactionView {
    pub amount_sats: i64,
    pub subtotal_cents: Option<i64>,
    pub fee_cents: Option<i64>,
    pub kind: TransactionType,
    pub memo: Option<Seq<char>>,
    pub timestamp: Timestamp,
    pub provider_id: Option<Seq<char>>,
    pub created_at: Timestamp,
}

impl View for LogicalTransaction {
    type V = TransactionView;

    open spec fn view(&self) -> TransactionView {
        TransactionView {
            amount_sats: self.amount_sats,
            subtotal_cents: self.subtotal_cents,
            fee_cents: self.fee_cents,
            kind: self.kind,
            memo: opt_text(self.memo),
            timestamp: self.timestamp,
            provider_id: opt_text(self.provider_id),
            created_at: self.created_at,
        }
    }
}

/// The transaction that a request asks for, created at `now`.
pub open spec fn created_from(request: RequestView, now: Timestamp) -> TransactionView {
    TransactionView {
        amount_sats: request.amount_sats,
        subtotal_cents: request.subtotal_cents,
        fee_cents: request.fee_cents,
        kind: request.kind,
        memo: request.memo,
        timestamp: request.timestamp,
        provider_id: request.provider_id,
        created_at: now,
    }
}

/// A copy of a string that may be absent.
pub fn copy_opt_text(s: &Option<String>) -> (c: Option<String>)
    ensures
        opt_text(c) == opt_text(*s),
{
    match s {
        Some(t) => Some(t.clone()),
        None => None,
    }
}

impl CreateBitcoinTransactionRequest {
    /// A copy of the request.
    pub fn duplicate(&self) -> (r: CreateBitcoinTransactionRequest)
        ensures
            r@ == self@,
    {
        CreateBitcoinTransactionRequest {
            kind: self.kind,
            amount_sats: self.amount_sats,
            subtotal_cents: self.subtotal_cents,
            fee_cents: self.fee_cents,
            memo: copy_opt_text(&self.memo),
            timestamp: self.timestamp,
            provider_id: copy_opt_text(&self.provider_id),
        }
    }
}

/// What the transactions of a sequence hold.
pub open spec fn transaction_views(items: Seq<LogicalTransaction>) -> Seq<TransactionView> {
    items.map_values(|t: LogicalTransaction| t@)
}

impl LogicalTransaction {
    /// The transaction that `request` asks for, created at `now`.
    pub fn create(request: CreateBitcoinTransactionRequest, now: Timestamp) -> (t:
        LogicalTransaction)
        ensures
            t@ == created_from(request@, now),
    {
        LogicalTransaction {
            amount_sats: request.amount_sats,
            subtotal_cents: request.subtotal_cents,
            fee_cents: request.fee_cents,
            kind: request.kind,
            memo: request.memo,
            timestamp: request.timestamp,
            provider_id: request.provider_id,
            created_at: now,
        }
    }

    /// A copy of the transaction.
    pub fn duplicate(&self) -> (t: LogicalTransaction)
        ensures
            t@ == self@,
    {
        LogicalTransaction {
            amount_sats: self.amount_sats,
            subtotal_cents: self.subtotal_cents,
            fee_cents: self.fee_cents,
            kind: self.kind,
            memo: copy_opt_text(&self.memo),
            timestamp: self.timestamp,
            provider_id: copy_opt_text(&self.provider_id),
            created_at: self.created_at,
        }
    }
}

/// One purchase as the analytics read it: when, and how many satoshis.
#[derive(Clone, Copy, Debug, PartialEq, Eq, Structural)]
pub struct BuyEvent {
    pub timestamp: Timestamp,
    pub amount_sats: i64,
}

} // verus!
