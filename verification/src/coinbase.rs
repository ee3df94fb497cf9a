//! Coinbase exports: from rows to candidates.
//!
//! Coinbase may report one order as several rows, one for each fill. Rows of
//! one kind that lie within a few seconds of one another are therefore taken
//! together as one logical transaction.
use crate::engine::{candidate_views, Candidate, CandidateView};
use crate::error::{
    btc_error, usd_error, ImportError, ImportErrorView, ParseError, ParseErrorView, ParseField,
};
use crate::hash::{hash_list, hash_texts};
use crate::models::{CreateBitcoinTransactionRequest, RequestView, TransactionType};
use crate::money::{btc_to_sats, btc_to_sats_spec, usd_to_cents, usd_to_cents_spec};
use crate::order::{reordered, sort_order, stable_order};
use crate::records::{coinbase_views, CoinbaseRecord, CoinbaseRecordView};
use crate::text::{
    append_chars, append_str, chars_of, decimal_text, hex_text, join_from, joined, push_decimal,
    push_hex, same_text, string_from_chars, texts,
};
use crate::text_sort::{lemma_sorted_texts_order_free, sort_texts, sorted_texts};
use crate::time::{
    coinbase_instant, nanos_between, parse_coinbase_timestamp, time_key, time_key_of, Timestamp,
};
use vstd::prelude::*;

verus! {

/// The identifiers that Coinbase gave to the rows of a group.
pub open spec fn native_ids(group: Seq<CoinbaseRecordView>) -> Seq<Seq<char>> {
    group.map_values(|r: CoinbaseRecordView| r.id)
}

/// The identity of the logical transaction that a group of rows makes: for
/// one row, Coinbase's own identifier behind `coinbase_`; for another number
/// of rows, behind `coinbase_group_`, the hash of their identifiers in
/// sorted order, in hexadecimal.
pub open spec fn coinbase_provider_id(group: Seq<CoinbaseRecordView>) -> Seq<char> {
    if group.len() == 1 {
        "coinbase_"@ + group[0].id
    } else {
        "coinbase_group_"@ + hex_text(hash_texts(sorted_texts(native_ids(group))) as nat)
    }
}

/// The identity of a group does not depend on the order of its rows: two
/// groups whose rows have the same identifiers, equally often, have the same
/// identity.
pub proof fn lemma_provider_id_order_free(
    first: Seq<CoinbaseRecordView>,
    second: Seq<CoinbaseRecordView>,
)
    requires
        native_ids(first).to_multiset() == native_ids(second).to_multiset(),
    ensures
        coinbase_provider_id(first) == coinbase_provider_id(second),
{
    let a = native_ids(first);
    let b = native_ids(second);
    a.to_multiset_ensures();
    b.to_multiset_ensures();
    assert(first.len() == second.len());
    if first.len() == 1 {
        assert(a[0] == first[0].id);
        assert(a.contains(a[0]));
        assert(a.to_multiset().count(a[0]) > 0);
        assert(b.to_multiset().count(a[0]) > 0);
        assert(b.contains(a[0]));
        assert(b[0] == second[0].id);
    } else {
        lemma_sorted_texts_order_free(a, b);
    }
}

/// The identity of the logical transaction that a group of rows makes.
pub fn generate_coinbase_provider_id(records: &[CoinbaseRecord]) -> (id: String)
    ensures
        id@ == coinbase_provider_id(coinbase_views(records@)),
{
    let ghost group = coinbase_views(records@);
    let mut out: Vec<char> = Vec::new();
    if records.len() == 1 {
        append_str(&mut out, "coinbase_");
        append_str(&mut out, records[0].id.as_str());
        assert(group[0].id == records@[0].id@);
        assert(out@ =~= coinbase_provider_id(group));
    } else {
        let mut ids: Vec<Vec<char>> = Vec::new();
        let mut i: usize = 0;
        while i < records.len()
            invariant
                i <= records.len(),
                group == coinbase_views(records@),
                ids@.len() == i,
                forall|k: int| 0 <= k < i ==> (#[trigger] ids@[k])@ == group[k].id,
            decreases records.len() - i,
        {
            ids.push(chars_of(records[i].id.as_str()));
            i += 1;
        }
        assert(texts(ids@) =~= native_ids(group));
        let sorted = sort_texts(&ids);
        let h = hash_list(&sorted);
        append_str(&mut out, "coinbase_group_");
        push_hex(&mut out, h);
        assert(out@ =~= coinbase_provider_id(group));
    }
    string_from_chars(&out)
}

/// The kind of transaction that a row stands for: none unless the asset is
/// bitcoin and the row is a purchase or a sale, plain or by advanced trade.
pub open spec fn coinbase_kind(r: CoinbaseRecordView) -> Option<TransactionType> {
    if r.asset != "BTC"@ {
        None
    } else if r.transaction_type == "Buy"@ || r.transaction_type == "Advanced Trade Buy"@ {
        Some(TransactionType::Buy)
    } else if r.transaction_type == "Sell"@ || r.transaction_type == "Advanced Trade Sell"@ {
        Some(TransactionType::Sell)
    } else {
        None
    }
}

/// The kind of transaction that a row stands for.
pub fn kind_of_record(r: &CoinbaseRecord) -> (k: Option<TransactionType>)
    ensures
        k == coinbase_kind(r@),
{
    if !same_text(r.asset.as_str(), "BTC") {
        None
    } else if same_text(r.transaction_type.as_str(), "Buy") || same_text(
        r.transaction_type.as_str(),
        "Advanced Trade Buy",
    ) {
        Some(TransactionType::Buy)
    } else if same_text(r.transaction_type.as_str(), "Sell") || same_text(
        r.transaction_type.as_str(),
        "Advanced Trade Sell",
    ) {
        Some(TransactionType::Sell)
    } else {
        None
    }
}

/// The rows that stand for transactions of one kind, in the order of the
/// file.
pub open spec fn of_kind(records: Seq<CoinbaseRecordView>, kind: TransactionType) -> Seq<
    CoinbaseRecordView,
>
    decreases records.len(),
{
    if records.len() == 0 {
        Seq::empty()
    } else if coinbase_kind(records.last()) == Some(kind) {
        of_kind(records.drop_last(), kind).push(records.last())
    } else {
        of_kind(records.drop_last(), kind)
    }
}

/// Picks the rows that stand for transactions of one kind.
pub fn records_of_kind(records: &Vec<CoinbaseRecord>, kind: TransactionType) -> (own: Vec<
    CoinbaseRecord,
>)
    ensures
        coinbase_views(own@) == of_kind(coinbase_views(records@), kind),
{
    let ghost all = coinbase_views(records@);
    let mut own: Vec<CoinbaseRecord> = Vec::new();
    let mut i: usize = 0;
    assert(all.take(0) =~= Seq::<CoinbaseRecordView>::empty());
    assert(coinbase_views(own@) =~= Seq::<CoinbaseRecordView>::empty());
    while i < records.len()
        invariant
            i <= records.len(),
            all == coinbase_views(records@),
            coinbase_views(own@) == of_kind(all.take(i as int), kind),
        decreases records.len() - i,
    {
        proof {
            assert(all.take(i + 1).drop_last() =~= all.take(i as int));
            assert(all.take(i + 1).last() == records@[i as int]@);
        }
        if kind_of_record(&records[i]) == Some(kind) {
            let ghost before = coinbase_views(own@);
            own.push(records[i].duplicate());
            assert(coinbase_views(own@) =~= before.push(records@[i as int]@));
        }
        i += 1;
    }
    assert(all.take(records.len() as int) =~= all);
    own
}

/// The error for the time of a row that cannot be read.
pub open spec fn time_error(r: CoinbaseRecordView) -> ParseErrorView {
    ParseErrorView { field: ParseField::CoinbaseTimestamp, value: r.timestamp }
}

/// The instants of the rows, or the error of the first row whose time cannot
/// be read.
pub open spec fn record_instants(records: Seq<CoinbaseRecordView>) -> Result<
    Seq<Timestamp>,
    ParseErrorView,
>
    decreases records.len(),
{
    if records.len() == 0 {
        Ok(Seq::empty())
    } else {
        match record_instants(records.drop_last()) {
            Err(e) => Err(e),
            Ok(front) => match coinbase_instant(records.last().timestamp) {
                None => Err(time_error(records.last())),
                Some(t) => Ok(front.push(t)),
            },
        }
    }
}

/// An unreadable time among the first rows is the error of all rows.
pub proof fn lemma_instants_error_stays(records: Seq<CoinbaseRecordView>, n: int)
    requires
        0 <= n <= records.len(),
    ensures
        record_instants(records.take(n)) is Err ==> record_instants(records) == record_instants(
            records.take(n),
        ),
    decreases records.len() - n,
{
    if n == records.len() {
        assert(records.take(n) =~= records);
    } else {
        assert(records.take(n + 1).drop_last() =~= records.take(n));
        lemma_instants_error_stays(records, n + 1);
    }
}

/// Reads the times of the rows.
pub fn read_instants(records: &Vec<CoinbaseRecord>) -> (r: Result<Vec<Timestamp>, ParseError>)
    ensures
        match r {
            Ok(instants) => record_instants(coinbase_views(records@)) == Ok::<
                Seq<Timestamp>,
                ParseErrorView,
            >(instants@) && instants@.len() == records@.len(),
            Err(e) => record_instants(coinbase_views(records@)) == Err::<
                Seq<Timestamp>,
                ParseErrorView,
            >(e@),
        },
{
    let ghost all = coinbase_views(records@);
    let mut instants: Vec<Timestamp> = Vec::new();
    let mut i: usize = 0;
    assert(all.take(0) =~= Seq::<CoinbaseRecordView>::empty());
    while i < records.len()
        invariant
            i <= records.len(),
            all == coinbase_views(records@),
            instants@.len() == i,
            record_instants(all.take(i as int)) == Ok::<Seq<Timestamp>, ParseErrorView>(
                instants@,
            ),
        decreases records.len() - i,
    {
        proof {
            assert(all.take(i + 1).drop_last() =~= all.take(i as int));
            assert(all.take(i + 1).last() == records@[i as int]@);
            lemma_instants_error_stays(all, i + 1);
        }
        match parse_coinbase_timestamp(records[i].timestamp.as_str()) {
            Ok(t) => {
                instants.push(t);
            },
            Err(e) => {
                return Err(e);
            },
        }
        i += 1;
    }
    assert(all.take(records.len() as int) =~= all);
    Ok(instants)
}

/// The longest gap, in nanoseconds, over which two rows still belong to one
/// transaction: five seconds.
pub const GROUP_TOLERANCE_NANOS: i128 = 5_000_000_000;

/// Two instants lie no more than five seconds apart.
pub open spec fn close_in_time(a: Timestamp, b: Timestamp) -> bool {
    -5_000_000_000 <= nanos_between(a, b) <= 5_000_000_000
}

/// Whether two instants lie no more than five seconds apart.
pub fn is_close_in_time(a: &Timestamp, b: &Timestamp) -> (r: bool)
    ensures
        r == close_in_time(*a, *b),
{
    let gap: i128 = b.nanos_since_epoch() - a.nanos_since_epoch();
    -GROUP_TOLERANCE_NANOS <= gap && gap <= GROUP_TOLERANCE_NANOS
}

/// A group opens at position `at`: it is the first position, or the instant
/// there lies more than five seconds from the one before it.
pub open spec fn opens_group(instants: Seq<Timestamp>, at: int) -> bool {
    0 <= at < instants.len() && (at == 0 || !close_in_time(instants[at - 1], instants[at]))
}

/// The positions at which groups open among instants in the order of time:
/// one pass from the first to the last, in which an instant joins the group
/// of the one before it if the two lie close in time, and opens a group of
/// its own if not. A group reaches from where it opens to where the next
/// one opens. Only the neighbour before is asked, so a group may span more
/// than the tolerance.
pub open spec fn group_starts(instants: Seq<Timestamp>) -> Seq<usize>
    decreases instants.len(),
{
    if instants.len() == 0 {
        Seq::empty()
    } else {
        let before = group_starts(instants.drop_last());
        let at = instants.len() - 1;
        if opens_group(instants, at) {
            before.push(at as usize)
        } else {
            before
        }
    }
}

/// The pass groups by its rule: the starts are the positions that open a
/// group, in ascending order. So a row no more than five seconds behind the
/// row before it shares its group, and a row more than five seconds behind
/// opens a new one.
pub proof fn lemma_group_starts(instants: Seq<Timestamp>)
    requires
        instants.len() <= usize::MAX,
    ensures
        ({
            let starts = group_starts(instants);
            &&& starts.len() <= instants.len()
            &&& instants.len() > 0 ==> starts.len() > 0 && starts[0] == 0
            &&& forall|k: int| 0 <= k < starts.len() ==> opens_group(instants, #[trigger] starts[k] as int)
            &&& forall|k: int, l: int| 0 <= k < l < starts.len() ==> starts[k] < starts[l]
            &&& forall|at: int|
                opens_group(instants, at) ==> exists|k: int|
                    0 <= k < starts.len() && #[trigger] starts[k] == at
        }),
    decreases instants.len(),
{
    if instants.len() > 0 {
        let front = instants.drop_last();
        lemma_group_starts(front);
        let before = group_starts(front);
        let starts = group_starts(instants);
        let last = instants.len() - 1;
        assert forall|at: int| 0 <= at < front.len() implies opens_group(front, at) == opens_group(
            instants,
            at,
        ) by {}
        assert forall|k: int| 0 <= k < starts.len() implies opens_group(
            instants,
            #[trigger] starts[k] as int,
        ) by {
            if k < before.len() {
                assert(opens_group(front, before[k] as int));
            }
        }
        assert forall|k: int, l: int| 0 <= k < l < starts.len() implies starts[k] < starts[l] by {
            if l < before.len() {
            } else {
                assert(opens_group(front, before[k] as int));
            }
        }
        assert forall|at: int| opens_group(instants, at) implies exists|k: int|
            0 <= k < starts.len() && #[trigger] starts[k] == at by {
            if at < last {
                assert(opens_group(front, at));
                let k = choose|k: int| 0 <= k < before.len() && #[trigger] before[k] == at;
                assert(starts[k] == at);
            } else {
                assert(starts[starts.len() - 1] == at);
            }
        }
        if before.len() > 0 {
            assert(starts[0] == before[0]);
        }
    }
}

/// Finds where groups open among instants that stand in the order of time.
pub fn group_by_time(instants: &Vec<Timestamp>) -> (starts: Vec<usize>)
    ensures
        starts@ == group_starts(instants@),
        starts@.len() <= instants@.len(),
        forall|k: int| 0 <= k < starts@.len() ==> #[trigger] starts@[k] < instants@.len(),
        forall|k: int, l: int| 0 <= k < l < starts@.len() ==> starts@[k] < starts@[l],
{
    let mut starts: Vec<usize> = Vec::new();
    let mut i: usize = 0;
    assert(instants@.take(0) =~= Seq::<Timestamp>::empty());
    while i < instants.len()
        invariant
            i <= instants.len(),
            starts@ == group_starts(instants@.take(i as int)),
        decreases instants.len() - i,
    {
        proof {
            assert(instants@.take(i + 1).drop_last() =~= instants@.take(i as int));
            assert(instants@.take(i + 1)[i as int] == instants@[i as int]);
            if i > 0 {
                assert(instants@.take(i + 1)[i - 1] == instants@[i - 1]);
            }
        }
        if i == 0 || !is_close_in_time(&instants[i - 1], &instants[i]) {
            starts.push(i);
        }
        i += 1;
    }
    assert(instants@.take(instants.len() as int) =~= instants@);
    proof {
        lemma_group_starts(instants@);
    }
    starts
}

/// Where the group that opens at `starts[g]` ends: where the next one opens,
/// or behind the last row.
pub open spec fn group_end(starts: Seq<usize>, g: int, count: int) -> int {
    if g + 1 < starts.len() {
        starts[g + 1] as int
    } else {
        count
    }
}

/// What the rows of a group add up to.
pub struct Totals {
    pub sats: int,
    pub subtotal: int,
    pub total: int,
    pub fees: int,
}

/// The amounts of one row: the quantity in satoshis, then subtotal, total
/// and fees in cents; the error of the first of them that cannot be read.
pub open spec fn record_amounts(r: CoinbaseRecordView) -> Result<Totals, ParseErrorView> {
    if btc_to_sats_spec(r.quantity_transacted) is None {
        Err(btc_error(r.quantity_transacted))
    } else if usd_to_cents_spec(r.subtotal) is None {
        Err(usd_error(r.subtotal))
    } else if usd_to_cents_spec(r.total_inclusive) is None {
        Err(usd_error(r.total_inclusive))
    } else if usd_to_cents_spec(r.fees_and_spread) is None {
        Err(usd_error(r.fees_and_spread))
    } else {
        Ok(
            Totals {
                sats: btc_to_sats_spec(r.quantity_transacted)->0,
                subtotal: usd_to_cents_spec(r.subtotal)->0,
                total: usd_to_cents_spec(r.total_inclusive)->0,
                fees: usd_to_cents_spec(r.fees_and_spread)->0,
            },
        )
    }
}

/// The sums over the rows of a group; the error of the first row with an
/// amount that cannot be read.
pub open spec fn group_totals(group: Seq<CoinbaseRecordView>) -> Result<Totals, ParseErrorView>
    decreases group.len(),
{
    if group.len() == 0 {
        Ok(Totals { sats: 0, subtotal: 0, total: 0, fees: 0 })
    } else {
        match group_totals(group.drop_last()) {
            Err(e) => Err(e),
            Ok(t) => match record_amounts(group.last()) {
                Err(e) => Err(e),
                Ok(a) => Ok(
                    Totals {
                        sats: t.sats + a.sats,
                        subtotal: t.subtotal + a.subtotal,
                        total: t.total + a.total,
                        fees: t.fees + a.fees,
                    },
                ),
            },
        }
    }
}

/// A sum as far as an `i64` holds it: `i64::MAX` where it is larger.
pub open spec fn cap_amount(v: int) -> i64 {
    if v > i64::MAX {
        i64::MAX
    } else {
        v as i64
    }
}

/// A sum as far as an `i64` holds it.
fn cap_sum(v: i128) -> (r: i64)
    requires
        v >= 0,
    ensures
        r == cap_amount(v as int),
{
    if v > 9223372036854775807i128 {
        i64::MAX
    } else {
        v as i64
    }
}

/// Reads the amounts of one row.
fn read_amounts(r: &CoinbaseRecord) -> (res: Result<(i64, i64, i64, i64), ParseError>)
    ensures
        match res {
            Ok(a) => record_amounts(r@) == Ok::<Totals, ParseErrorView>(
                Totals { sats: a.0 as int, subtotal: a.1 as int, total: a.2 as int, fees: a.3 as int },
            ) && a.0 >= 0 && a.1 >= 0 && a.2 >= 0 && a.3 >= 0,
            Err(e) => record_amounts(r@) == Err::<Totals, ParseErrorView>(e@),
        },
{
    let sats = match btc_to_sats(r.quantity_transacted.as_str()) {
        Ok(v) => v,
        Err(e) => { return Err(e); },
    };
    let subtotal = match usd_to_cents(r.subtotal.as_str()) {
        Ok(v) => v,
        Err(e) => { return Err(e); },
    };
    let total = match usd_to_cents(r.total_inclusive.as_str()) {
        Ok(v) => v,
        Err(e) => { return Err(e); },
    };
    let fees = match usd_to_cents(r.fees_and_spread.as_str()) {
        Ok(v) => v,
        Err(e) => { return Err(e); },
    };
    Ok((sats, subtotal, total, fees))
}

/// An unreadable amount among the first rows is the error of the group.
pub proof fn lemma_totals_error_stays(group: Seq<CoinbaseRecordView>, n: int)
    requires
        0 <= n <= group.len(),
    ensures
        group_totals(group.take(n)) is Err ==> group_totals(group) == group_totals(group.take(n)),
    decreases group.len() - n,
{
    if n == group.len() {
        assert(group.take(n) =~= group);
    } else {
        assert(group.take(n + 1).drop_last() =~= group.take(n));
        lemma_totals_error_stays(group, n + 1);
    }
}

/// Adds up the amounts of a group.
fn sum_group(group: &[CoinbaseRecord]) -> (res: Result<(i64, i64, i64, i64), ParseError>)
    ensures
        match res {
            Ok(a) => match group_totals(coinbase_views(group@)) {
                Ok(t) => a.0 == cap_amount(t.sats) && a.1 == cap_amount(t.subtotal) && a.2
                    == cap_amount(t.total) && a.3 == cap_amount(t.fees),
                Err(_) => false,
            },
            Err(e) => group_totals(coinbase_views(group@)) == Err::<Totals, ParseErrorView>(e@),
        },
{
    let ghost all = coinbase_views(group@);
    let mut sats: i128 = 0;
    let mut subtotal: i128 = 0;
    let mut total: i128 = 0;
    let mut fees: i128 = 0;
    let mut i: usize = 0;
    assert(all.take(0) =~= Seq::<CoinbaseRecordView>::empty());
    while i < group.len()
        invariant
            i <= group.len(),
            all == coinbase_views(group@),
            group_totals(all.take(i as int)) == Ok::<Totals, ParseErrorView>(
                Totals {
                    sats: sats as int,
                    subtotal: subtotal as int,
                    total: total as int,
                    fees: fees as int,
                },
            ),
            0 <= sats <= i * 9223372036854775807,
            0 <= subtotal <= i * 9223372036854775807,
            0 <= total <= i * 9223372036854775807,
            0 <= fees <= i * 9223372036854775807,
        decreases group.len() - i,
    {
        proof {
            assert(all.take(i + 1).drop_last() =~= all.take(i as int));
            assert(all.take(i + 1).last() == group@[i as int]@);
            lemma_totals_error_stays(all, i + 1);
        }
        match read_amounts(&group[i]) {
            Err(e) => {
                return Err(e);
            },
            Ok(a) => {
                sats = sats + a.0 as i128;
                subtotal = subtotal + a.1 as i128;
                total = total + a.2 as i128;
                fees = fees + a.3 as i128;
            },
        }
        i += 1;
    }
    assert(all.take(group.len() as int) =~= all);
    Ok((cap_sum(sats), cap_sum(subtotal), cap_sum(total), cap_sum(fees)))
}

/// The notes of the rows that have one, in the order of the rows.
pub open spec fn notes_of(group: Seq<CoinbaseRecordView>) -> Seq<Seq<char>>
    decreases group.len(),
{
    if group.len() == 0 {
        Seq::empty()
    } else if group.last().notes.len() > 0 {
        notes_of(group.drop_last()).push(group.last().notes)
    } else {
        notes_of(group.drop_last())
    }
}

/// The memo of the transaction that a group makes: the provider, how many
/// rows were taken together if more than one, and the notes with `, `
/// between them.
pub open spec fn coinbase_memo(group: Seq<CoinbaseRecordView>) -> Seq<char> {
    if group.len() > 1 {
        "Coinbase (grouped "@ + decimal_text(group.len()) + " transactions): "@ + joined(
            notes_of(group),
            ", "@,
        )
    } else {
        "Coinbase: "@ + joined(notes_of(group), ", "@)
    }
}

/// Writes the memo of a group.
fn write_memo(group: &[CoinbaseRecord]) -> (memo: String)
    ensures
        memo@ == coinbase_memo(coinbase_views(group@)),
{
    let ghost all = coinbase_views(group@);
    let mut notes: Vec<Vec<char>> = Vec::new();
    let mut i: usize = 0;
    assert(all.take(0) =~= Seq::<CoinbaseRecordView>::empty());
    assert(texts(notes@) =~= Seq::<Seq<char>>::empty());
    while i < group.len()
        invariant
            i <= group.len(),
            all == coinbase_views(group@),
            texts(notes@) == notes_of(all.take(i as int)),
        decreases group.len() - i,
    {
        proof {
            assert(all.take(i + 1).drop_last() =~= all.take(i as int));
            assert(all.take(i + 1).last() == group@[i as int]@);
        }
        let note = chars_of(group[i].notes.as_str());
        if note.len() > 0 {
            let ghost before = texts(notes@);
            let ghost added = note@;
            notes.push(note);
            assert(texts(notes@) =~= before.push(added));
        }
        i += 1;
    }
    assert(all.take(group.len() as int) =~= all);
    let sep = chars_of(", ");
    let tail = join_from(&notes, 0, &sep);
    assert(texts(notes@).skip(0) =~= texts(notes@));
    let mut out: Vec<char> = Vec::new();
    if group.len() > 1 {
        append_str(&mut out, "Coinbase (grouped ");
        push_decimal(&mut out, group.len() as u64);
        append_str(&mut out, " transactions): ");
    } else {
        append_str(&mut out, "Coinbase: ");
    }
    append_chars(&mut out, &tail);
    assert(out@ =~= coinbase_memo(all));
    string_from_chars(&out)
}

/// The request for the transaction that a group makes: the sums of its
/// rows, its memo, and the time of its first row.
pub open spec fn group_request(
    group: Seq<CoinbaseRecordView>,
    kind: TransactionType,
    timestamp: Timestamp,
) -> Result<RequestView, ImportErrorView> {
    match group_totals(group) {
        Err(e) => Err(ImportErrorView::Parse(e)),
        Ok(t) => Ok(
            RequestView {
                kind,
                amount_sats: cap_amount(t.sats),
                subtotal_cents: Some(cap_amount(t.subtotal)),
                fee_cents: Some(cap_amount(t.fees)),
                memo: Some(coinbase_memo(group)),
                timestamp,
                provider_id: Some(coinbase_provider_id(group)),
            },
        ),
    }
}

/// The candidate that a group makes.
pub open spec fn group_candidate(
    group: Seq<CoinbaseRecordView>,
    kind: TransactionType,
    timestamp: Timestamp,
) -> CandidateView {
    CandidateView::Entry {
        provider_id: coinbase_provider_id(group),
        request: group_request(group, kind, timestamp),
    }
}

/// Makes the candidate of a group of rows of one kind, `timestamp` being
/// the time of the first.
pub fn candidate_of_group(group: &[CoinbaseRecord], kind: TransactionType, timestamp: Timestamp)
    -> (c: Candidate)
    ensures
        c@ == group_candidate(coinbase_views(group@), kind, timestamp),
{
    let provider_id = generate_coinbase_provider_id(group);
    let request = match sum_group(group) {
        Err(e) => Err(ImportError::Parse(e)),
        Ok(sums) => Ok(
            CreateBitcoinTransactionRequest {
                kind,
                amount_sats: sums.0,
                subtotal_cents: Some(sums.1),
                fee_cents: Some(sums.3),
                memo: Some(write_memo(group)),
                timestamp,
                provider_id: Some(provider_id.clone()),
            },
        ),
    };
    Candidate::Entry { provider_id, request }
}

/// The keys by which instants are put in the order of time.
pub open spec fn instant_keys(instants: Seq<Timestamp>) -> Seq<i128> {
    instants.map_values(|t: Timestamp| time_key(t))
}

/// The candidates that rows of one kind make, the rows standing in the
/// order of time with their instants beside them: one for each group.
pub open spec fn grouped_candidates(
    sorted: Seq<CoinbaseRecordView>,
    times: Seq<Timestamp>,
    kind: TransactionType,
) -> Seq<CandidateView> {
    let starts = group_starts(times);
    Seq::new(
        starts.len(),
        |g: int|
            group_candidate(
                sorted.subrange(starts[g] as int, group_end(starts, g, sorted.len() as int)),
                kind,
                times[starts[g] as int],
            ),
    )
}

/// The candidates that the rows of one kind make: the rows are put in the
/// order of time, rows of one instant staying as they stood, and grouped. If
/// the time of a row cannot be read, there is one candidate, which fails
/// with the error of the first such row.
pub open spec fn kind_candidates(records: Seq<CoinbaseRecordView>, kind: TransactionType) -> Seq<
    CandidateView,
> {
    let own = of_kind(records, kind);
    match record_instants(own) {
        Err(e) => seq![CandidateView::Fail(ImportErrorView::Parse(e))],
        Ok(instants) => {
            let order = stable_order(instant_keys(instants));
            grouped_candidates(reordered(own, order), reordered(instants, order), kind)
        },
    }
}

/// The candidates that the rows of an export make: those of the purchases,
/// then those of the sales.
pub open spec fn coinbase_candidates(records: Seq<CoinbaseRecordView>) -> Seq<CandidateView> {
    kind_candidates(records, TransactionType::Buy) + kind_candidates(
        records,
        TransactionType::Sell,
    )
}

/// Groups rows that stand in the order of time and makes their candidates.
pub fn candidates_of_sorted(
    sorted: &Vec<CoinbaseRecord>,
    times: &Vec<Timestamp>,
    kind: TransactionType,
) -> (out: Vec<Candidate>)
    requires
        sorted.len() == times.len(),
    ensures
        candidate_views(out@) == grouped_candidates(coinbase_views(sorted@), times@, kind),
{
    let starts = group_by_time(times);
    let n = sorted.len();
    let ghost rows = coinbase_views(sorted@);
    let mut out: Vec<Candidate> = Vec::new();
    let mut g: usize = 0;
    while g < starts.len()
        invariant
            g <= starts.len(),
            n == sorted.len(),
            n == times.len(),
            rows == coinbase_views(sorted@),
            starts@ == group_starts(times@),
            forall|k: int| 0 <= k < starts@.len() ==> #[trigger] starts@[k] < n,
            forall|k: int, l: int| 0 <= k < l < starts@.len() ==> starts@[k] < starts@[l],
            out@.len() == g,
            forall|k: int|
                0 <= k < g ==> (#[trigger] out@[k])@ == group_candidate(
                    rows.subrange(starts@[k] as int, group_end(starts@, k, n as int)),
                    kind,
                    times@[starts@[k] as int],
                ),
        decreases starts.len() - g,
    {
        let from = starts[g];
        let to = if g + 1 < starts.len() {
            starts[g + 1]
        } else {
            n
        };
        assert(to == group_end(starts@, g as int, n as int));
        let group = vstd::slice::slice_subrange(sorted.as_slice(), from, to);
        assert(coinbase_views(group@) =~= rows.subrange(from as int, to as int));
        let c = candidate_of_group(group, kind, times[from]);
        out.push(c);
        g += 1;
    }
    assert(candidate_views(out@) =~= grouped_candidates(rows, times@, kind));
    out
}

/// Makes the candidates of the rows of one kind.
pub fn candidates_of_kind(records: &Vec<CoinbaseRecord>, kind: TransactionType) -> (out: Vec<
    Candidate,
>)
    ensures
        candidate_views(out@) == kind_candidates(coinbase_views(records@), kind),
{
    let own = records_of_kind(records, kind);
    let instants = match read_instants(&own) {
        Ok(v) => v,
        Err(e) => {
            let mut out: Vec<Candidate> = Vec::new();
            out.push(Candidate::Fail(ImportError::Parse(e)));
            assert(candidate_views(out@) =~= kind_candidates(coinbase_views(records@), kind));
            return out;
        },
    };
    let n = own.len();
    let mut keys: Vec<i128> = Vec::new();
    let mut i: usize = 0;
    while i < n
        invariant
            i <= n,
            n == instants.len(),
            keys@.len() == i,
            forall|k: int| 0 <= k < i ==> #[trigger] keys@[k] == time_key(instants@[k]),
        decreases n - i,
    {
        keys.push(time_key_of(&instants[i]));
        i += 1;
    }
    assert(keys@ =~= instant_keys(instants@));
    let order = sort_order(&keys);
    let mut sorted: Vec<CoinbaseRecord> = Vec::new();
    let mut times: Vec<Timestamp> = Vec::new();
    let ghost rows = coinbase_views(own@);
    let mut k: usize = 0;
    while k < n
        invariant
            k <= n,
            n == own.len(),
            n == instants.len(),
            n == order.len(),
            rows == coinbase_views(own@),
            forall|j: int| 0 <= j < n ==> #[trigger] order@[j] < n,
            sorted@.len() == k,
            times@.len() == k,
            forall|j: int| 0 <= j < k ==> (#[trigger] sorted@[j])@ == rows[order@[j] as int],
            forall|j: int| 0 <= j < k ==> #[trigger] times@[j] == instants@[order@[j] as int],
        decreases n - k,
    {
        let at = order[k];
        assert(rows[at as int] == own@[at as int]@);
        sorted.push(own[at].duplicate());
        times.push(instants[at]);
        k += 1;
    }
    assert(coinbase_views(sorted@) =~= reordered(rows, order@));
    assert(times@ =~= reordered(instants@, order@));
    candidates_of_sorted(&sorted, &times, kind)
}

/// Makes the candidates of the rows of an export.
pub fn candidates_of_records(records: &Vec<CoinbaseRecord>) -> (out: Vec<Candidate>)
    ensures
        candidate_views(out@) == coinbase_candidates(coinbase_views(records@)),
{
    let mut out = candidates_of_kind(records, TransactionType::Buy);
    let mut sales = candidates_of_kind(records, TransactionType::Sell);
    let ghost first = candidate_views(out@);
    let ghost second = candidate_views(sales@);
    out.append(&mut sales);
    assert(candidate_views(out@) =~= first + second);
    out
}

} // verus!
