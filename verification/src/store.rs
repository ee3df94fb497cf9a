//! The transaction store as the engines see it: an append-only log in which
//! no identity given by an import occurs twice.
use crate::models::{BuyEvent, LogicalTransaction, TransactionType, TransactionView};
use crate::order::{reordered, sort_order, stable_order};
use crate::text::same_text;
use crate::time::{time_key, time_key_of};
use vstd::prelude::*;

verus! {

/// Some transaction of `log` has the identity `provider_id`.
pub open spec fn holds_identity(log: Seq<TransactionView>, provider_id: Seq<char>) -> bool {
    exists|i: int| 0 <= i < log.len() && (#[trigger] log[i]).provider_id == Some(provider_id)
}

/// No identity occurs twice in `log`.
pub open spec fn identities_unique(log: Seq<TransactionView>) -> bool {
    forall|i: int, j: int|
        0 <= i < j < log.len() && (#[trigger] log[i]).provider_id is Some ==> log[i].provider_id != (
        #[trigger] log[j]).provider_id
}

/// `log` with `tx` appended, unless `tx` has an identity that `log` already
/// holds: then `log` as it is.
pub open spec fn with_transaction(log: Seq<TransactionView>, tx: TransactionView) -> Seq<
    TransactionView,
> {
    if tx.provider_id is Some && holds_identity(log, tx.provider_id->0) {
        log
    } else {
        log.push(tx)
    }
}

/// The purchases of `log`, in the order of the log.
pub open spec fn purchases(log: Seq<TransactionView>) -> Seq<BuyEvent>
    decreases log.len(),
{
    if log.len() == 0 {
        Seq::empty()
    } else if log.last().kind == TransactionType::Buy {
        purchases(log.drop_last()).push(
            BuyEvent { timestamp: log.last().timestamp, amount_sats: log.last().amount_sats },
        )
    } else {
        purchases(log.drop_last())
    }
}

/// The keys by which events are put in the order of time.
pub open spec fn event_keys(events: Seq<BuyEvent>) -> Seq<i128> {
    events.map_values(|e: BuyEvent| time_key(e.timestamp))
}

/// `events` from the earliest to the latest, events of one instant in the
/// order in which they stand.
pub open spec fn in_time_order(events: Seq<BuyEvent>) -> Seq<BuyEvent> {
    reordered(events, stable_order(event_keys(events)))
}

/// An append-only log of transactions. A store starts empty and grows by
/// [`TransactionStore::insert`] alone, so no identity occurs twice in it.
pub struct TransactionStore {
    transactions: Vec<LogicalTransaction>,
}

impl View for TransactionStore {
    type V = Seq<TransactionView>;

    closed spec fn view(&self) -> Seq<TransactionView> {
        self.transactions@.map_values(|t: LogicalTransaction| t@)
    }
}

impl TransactionStore {
    /// A store without transactions.
    pub fn new() -> (store: TransactionStore)
        ensures
            store@ == Seq::<TransactionView>::empty(),
    {
        let store = TransactionStore { transactions: Vec::new() };
        assert(store@ =~= Seq::<TransactionView>::empty());
        store
    }

    /// How many transactions the store holds.
    pub fn len(&self) -> (n: usize)
        ensures
            n == self@.len(),
    {
        self.transactions.len()
    }

    /// The transaction at position `i` of the log.
    pub fn get(&self, i: usize) -> (t: &LogicalTransaction)
        requires
            i < self@.len(),
        ensures
            t@ == self@[i as int],
    {
        &self.transactions[i]
    }

    /// Whether a transaction with the identity `provider_id` is in the store.
    pub fn has_provider_id(&self, provider_id: &str) -> (found: bool)
        ensures
            found == holds_identity(self@, provider_id@),
    {
        let mut i: usize = 0;
        while i < self.transactions.len()
            invariant
                i <= self.transactions.len(),
                forall|k: int| 0 <= k < i ==> (#[trigger] self@[k]).provider_id != Some(provider_id@),
            decreases self.transactions.len() - i,
        {
            match &self.transactions[i].provider_id {
                Some(id) => {
                    if same_text(id.as_str(), provider_id) {
                        assert(self@[i as int].provider_id == Some(provider_id@));
                        return true;
                    }
                },
                None => {},
            }
            assert(self@[i as int].provider_id != Some(provider_id@));
            i += 1;
        }
        false
    }

    /// Appends `tx`, unless it has an identity that the store already holds:
    /// then the store stays as it is. Tells whether `tx` was appended.
    pub fn insert(&mut self, tx: LogicalTransaction) -> (inserted: bool)
        ensures
            final(self)@ == with_transaction(old(self)@, tx@),
            inserted == !(tx@.provider_id is Some && holds_identity(
                old(self)@,
                tx@.provider_id->0,
            )),
            identities_unique(old(self)@) ==> identities_unique(final(self)@),
    {
        let known = match &tx.provider_id {
            Some(id) => self.has_provider_id(id.as_str()),
            None => false,
        };
        if known {
            return false;
        }
        let ghost before = self@;
        let ghost added = tx@;
        self.transactions.push(tx);
        proof {
            assert(self@ =~= before.push(added));
            assert forall|i: int, j: int|
                identities_unique(before) && 0 <= i < j < self@.len() && (
                #[trigger] self@[i]).provider_id is Some implies self@[i].provider_id != (
                #[trigger] self@[j]).provider_id by {
                if j == before.len() {
                    assert(before[i] == self@[i]);
                    if added.provider_id is Some {
                        assert(!holds_identity(before, added.provider_id->0));
                    }
                } else {
                    assert(before[i] == self@[i]);
                    assert(before[j] == self@[j]);
                }
            }
        }
        true
    }

    /// The purchases in the store, from the earliest to the latest.
    pub fn list_buy_events(&self) -> (events: Vec<BuyEvent>)
        ensures
            events@ == in_time_order(purchases(self@)),
    {
        let mut found: Vec<BuyEvent> = Vec::new();
        let mut keys: Vec<i128> = Vec::new();
        let mut i: usize = 0;
        assert(self@.take(0) =~= Seq::<TransactionView>::empty());
        while i < self.transactions.len()
            invariant
                i <= self.transactions.len(),
                found@ == purchases(self@.take(i as int)),
                keys@ == event_keys(found@),
            decreases self.transactions.len() - i,
        {
            let t = &self.transactions[i];
            assert(self@.take(i + 1).drop_last() =~= self@.take(i as int));
            assert(self@.take(i + 1).last() == t@);
            if t.kind == TransactionType::Buy {
                let e = BuyEvent { timestamp: t.timestamp, amount_sats: t.amount_sats };
                found.push(e);
                keys.push(time_key_of(&e.timestamp));
                assert(keys@ =~= event_keys(found@));
            }
            i += 1;
        }
        assert(self@.take(self.transactions.len() as int) =~= self@);
        let order = sort_order(&keys);
        let mut events: Vec<BuyEvent> = Vec::new();
        let mut k: usize = 0;
        while k < order.len()
            invariant
                k <= order.len(),
                order@ == stable_order(keys@),
                keys@.len() == found@.len(),
                order@.len() == found@.len(),
                forall|j: int| 0 <= j < order@.len() ==> #[trigger] order@[j] < found@.len(),
                events@.len() == k,
                forall|j: int| 0 <= j < k ==> events@[j] == found@[order@[j] as int],
            decreases order.len() - k,
        {
            events.push(found[order[k]]);
            k += 1;
        }
        assert(events@ =~= in_time_order(found@));
        events
    }
}

} // verus!
