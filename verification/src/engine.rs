//! Committing what an export yields to the store.
//!
//! A provider's reader turns a file into candidates, one for each logical
//! transaction that the file may hold. They are committed in order: a
//! candidate whose identity the store already holds is passed over, the
//! others are created, and the first failure ends the run. What was created
//! before a failure stays in the store.
use crate::error::{ImportError, ImportErrorView};
use crate::models::{
    created_from, transaction_views, CreateBitcoinTransactionRequest, LogicalTransaction,
    RequestView, TransactionView,
};
use crate::store::{holds_identity, identities_unique, TransactionStore};
use crate::time::Timestamp;
use vstd::prelude::*;

verus! {

/// What a file holds in the place of one logical transaction.
#[derive(Debug)]
pub enum Candidate {
    /// Rows that are no purchase or sale of bitcoin.
    Skip,
    /// Rows that cannot be read far enough to tell their identity.
    Fail(ImportError),
    /// A transaction with its identity. The request is read only if the
    /// identity is new to the store, and may then turn out to be unreadable.
    Entry { provider_id: String, request: Result<CreateBitcoinTransactionRequest, ImportError> },
}

/// What a [`Candidate`] holds, as plain values.
pub enum CandidateView {
    Skip,
    Fail(ImportErrorView),
    Entry { provider_id: Seq<char>, request: Result<RequestView, ImportErrorView> },
}

impl View for Candidate {
    type V = CandidateView;

    open spec fn view(&self) -> CandidateView {
        match self {
            Candidate::Skip => CandidateView::Skip,
            Candidate::Fail(e) => CandidateView::Fail(e@),
            Candidate::Entry { provider_id, request } => CandidateView::Entry {
                provider_id: provider_id@,
                request: match request {
                    Ok(r) => Ok(r@),
                    Err(e) => Err(e@),
                },
            },
        }
    }
}

/// What the candidates of a sequence hold.
pub open spec fn candidate_views(items: Seq<Candidate>) -> Seq<CandidateView> {
    items.map_values(|c: Candidate| c@)
}

/// How a run ends.
pub struct Committed {
    /// The log of the store after the run.
    pub log: Seq<TransactionView>,
    /// The transactions that the run created, in the order of creation.
    pub created: Seq<TransactionView>,
    /// Why the run stopped early, if it did.
    pub error: Option<ImportErrorView>,
}

/// The transaction that a request asks for under the identity
/// `provider_id`, created at `now`.
pub open spec fn created_as(provider_id: Seq<char>, request: RequestView, now: Timestamp)
    -> TransactionView {
    created_from(RequestView { provider_id: Some(provider_id), ..request }, now)
}

/// How committing `candidates` to a store with the log `log` ends.
pub open spec fn committed(log: Seq<TransactionView>, candidates: Seq<CandidateView>, now: Timestamp)
    -> Committed
    decreases candidates.len(),
{
    if candidates.len() == 0 {
        Committed { log, created: Seq::empty(), error: None }
    } else {
        let rest = candidates.skip(1);
        match candidates[0] {
            CandidateView::Skip => committed(log, rest, now),
            CandidateView::Fail(e) => Committed { log, created: Seq::empty(), error: Some(e) },
            CandidateView::Entry { provider_id, request } => {
                if holds_identity(log, provider_id) {
                    committed(log, rest, now)
                } else {
                    match request {
                        Err(e) => Committed { log, created: Seq::empty(), error: Some(e) },
                        Ok(r) => {
                            let tx = created_as(provider_id, r, now);
                            let after = committed(log.push(tx), rest, now);
                            Committed {
                                log: after.log,
                                created: seq![tx] + after.created,
                                error: after.error,
                            }
                        },
                    }
                }
            },
        }
    }
}

/// An identity that the store holds is still held after a run.
pub proof fn lemma_commit_keeps(
    log: Seq<TransactionView>,
    candidates: Seq<CandidateView>,
    now: Timestamp,
    provider_id: Seq<char>,
)
    requires
        holds_identity(log, provider_id),
    ensures
        holds_identity(committed(log, candidates, now).log, provider_id),
    decreases candidates.len(),
{
    if candidates.len() > 0 {
        let rest = candidates.skip(1);
        match candidates[0] {
            CandidateView::Skip => lemma_commit_keeps(log, rest, now, provider_id),
            CandidateView::Fail(e) => {},
            CandidateView::Entry { provider_id: id, request } => {
                if holds_identity(log, id) {
                    lemma_commit_keeps(log, rest, now, provider_id);
                } else {
                    match request {
                        Err(e) => {},
                        Ok(r) => {
                            let tx = created_as(id, r, now);
                            let i = choose|i: int|
                                0 <= i < log.len() && (#[trigger] log[i]).provider_id == Some(
                                    provider_id,
                                );
                            assert(log.push(tx)[i].provider_id == Some(provider_id));
                            lemma_commit_keeps(log.push(tx), rest, now, provider_id);
                        },
                    }
                }
            },
        }
    }
}

/// A run only appends: the log afterwards is the log before with the
/// transactions that the run created behind it. Nothing that was in the
/// store is changed or taken out.
pub proof fn lemma_commit_appends(
    log: Seq<TransactionView>,
    candidates: Seq<CandidateView>,
    now: Timestamp,
)
    ensures
        committed(log, candidates, now).log == log + committed(log, candidates, now).created,
    decreases candidates.len(),
{
    let end = committed(log, candidates, now);
    if candidates.len() == 0 {
        assert(log + Seq::<TransactionView>::empty() =~= log);
    } else {
        let rest = candidates.skip(1);
        match candidates[0] {
            CandidateView::Skip => lemma_commit_appends(log, rest, now),
            CandidateView::Fail(e) => {
                assert(log + Seq::<TransactionView>::empty() =~= log);
            },
            CandidateView::Entry { provider_id, request } => {
                if holds_identity(log, provider_id) {
                    lemma_commit_appends(log, rest, now);
                } else {
                    match request {
                        Err(e) => {
                            assert(log + Seq::<TransactionView>::empty() =~= log);
                        },
                        Ok(r) => {
                            let tx = created_as(provider_id, r, now);
                            lemma_commit_appends(log.push(tx), rest, now);
                            let after = committed(log.push(tx), rest, now);
                            assert(log.push(tx) + after.created =~= log + (seq![tx]
                                + after.created));
                        },
                    }
                }
            },
        }
    }
}

/// A run keeps identities apart: if no identity occurs twice in the store
/// before, none does afterwards.
pub proof fn lemma_commit_keeps_unique(
    log: Seq<TransactionView>,
    candidates: Seq<CandidateView>,
    now: Timestamp,
)
    requires
        identities_unique(log),
    ensures
        identities_unique(committed(log, candidates, now).log),
    decreases candidates.len(),
{
    if candidates.len() > 0 {
        let rest = candidates.skip(1);
        match candidates[0] {
            CandidateView::Skip => lemma_commit_keeps_unique(log, rest, now),
            CandidateView::Fail(e) => {},
            CandidateView::Entry { provider_id, request } => {
                if holds_identity(log, provider_id) {
                    lemma_commit_keeps_unique(log, rest, now);
                } else {
                    match request {
                        Err(e) => {},
                        Ok(r) => {
                            let tx = created_as(provider_id, r, now);
                            let grown = log.push(tx);
                            assert forall|i: int, j: int|
                                0 <= i < j < grown.len() && (
                                #[trigger] grown[i]).provider_id is Some implies grown[i].provider_id
                                != (#[trigger] grown[j]).provider_id by {
                                if j == log.len() {
                                    assert(log[i] == grown[i]);
                                } else {
                                    assert(log[i] == grown[i]);
                                    assert(log[j] == grown[j]);
                                }
                            }
                            lemma_commit_keeps_unique(grown, rest, now);
                        },
                    }
                }
            },
        }
    }
}

/// Importing the same candidates twice creates nothing the second time:
/// after a run, a second run over the same candidates, at whatever time,
/// leaves the store as the first run left it and creates no transaction.
pub proof fn lemma_commit_twice(
    log: Seq<TransactionView>,
    candidates: Seq<CandidateView>,
    first: Timestamp,
    second: Timestamp,
)
    ensures
        ({
            let once = committed(log, candidates, first);
            let twice = committed(once.log, candidates, second);
            &&& twice.log == once.log
            &&& twice.created == Seq::<TransactionView>::empty()
            &&& twice.error == once.error
        }),
    decreases candidates.len(),
{
    let once = committed(log, candidates, first);
    if candidates.len() > 0 {
        let rest = candidates.skip(1);
        match candidates[0] {
            CandidateView::Skip => lemma_commit_twice(log, rest, first, second),
            CandidateView::Fail(e) => {},
            CandidateView::Entry { provider_id, request } => {
                if holds_identity(log, provider_id) {
                    lemma_commit_keeps(log, rest, first, provider_id);
                    lemma_commit_twice(log, rest, first, second);
                } else {
                    match request {
                        Err(e) => {},
                        Ok(r) => {
                            let tx = created_as(provider_id, r, first);
                            let grown = log.push(tx);
                            assert(grown[log.len() as int].provider_id == Some(provider_id));
                            assert(holds_identity(grown, provider_id));
                            lemma_commit_keeps(grown, rest, first, provider_id);
                            lemma_commit_twice(grown, rest, first, second);
                        },
                    }
                }
            },
        }
    }
}

/// What a run gives back: the transactions that it created, and the error
/// that ended it early, if one did.
#[derive(Debug)]
pub struct ImportOutcome {
    pub created: Vec<LogicalTransaction>,
    pub error: Option<ImportError>,
}

/// What an [`ImportOutcome`] holds, as plain values.
pub struct OutcomeView {
    pub created: Seq<TransactionView>,
    pub error: Option<ImportErrorView>,
}

impl View for ImportOutcome {
    type V = OutcomeView;

    open spec fn view(&self) -> OutcomeView {
        OutcomeView {
            created: transaction_views(self.created@),
            error: match self.error {
                Some(e) => Some(e@),
                None => None,
            },
        }
    }
}

/// Commits `candidates` to `store` in order, each transaction created at
/// `now`.
pub fn commit_candidates(store: &mut TransactionStore, candidates: &Vec<Candidate>, now: Timestamp)
    -> (outcome: ImportOutcome)
    ensures
        ({
            let end = committed(old(store)@, candidate_views(candidates@), now);
            &&& final(store)@ == end.log
            &&& outcome@.created == end.created
            &&& outcome@.error == end.error
        }),
        final(store)@ == old(store)@ + outcome@.created,
        identities_unique(old(store)@) ==> identities_unique(final(store)@),
{
    proof {
        lemma_commit_appends(old(store)@, candidate_views(candidates@), now);
        if identities_unique(old(store)@) {
            lemma_commit_keeps_unique(old(store)@, candidate_views(candidates@), now);
        }
    }
    let ghost all = candidate_views(candidates@);
    let ghost start = store@;
    let mut created: Vec<LogicalTransaction> = Vec::new();
    let mut i: usize = 0;
    assert(all.skip(0) =~= all);
    assert(transaction_views(created@) =~= Seq::<TransactionView>::empty());
    while i < candidates.len()
        invariant
            i <= candidates.len(),
            all == candidate_views(candidates@),
            start == old(store)@,
            committed(start, all, now).log == start + committed(start, all, now).created,
            identities_unique(start) ==> identities_unique(committed(start, all, now).log),
            ({
                let end = committed(start, all, now);
                let rest = committed(store@, all.skip(i as int), now);
                &&& end.log == rest.log
                &&& end.created == transaction_views(created@) + rest.created
                &&& end.error == rest.error
            }),
        decreases candidates.len() - i,
    {
        proof {
            assert(all.skip(i as int)[0] == candidates@[i as int]@);
            assert(all.skip(i as int).skip(1) =~= all.skip(i + 1));
        }
        match &candidates[i] {
            Candidate::Skip => {},
            Candidate::Fail(e) => {
                let outcome = ImportOutcome { created, error: Some(e.duplicate()) };
                assert(outcome@.created =~= committed(start, all, now).created);
                return outcome;
            },
            Candidate::Entry { provider_id, request } => {
                if !store.has_provider_id(provider_id.as_str()) {
                    match request {
                        Err(e) => {
                            let outcome = ImportOutcome { created, error: Some(e.duplicate()) };
                            assert(outcome@.created =~= committed(start, all, now).created);
                            return outcome;
                        },
                        Ok(r) => {
                            let mut asked = r.duplicate();
                            asked.provider_id = Some(provider_id.clone());
                            let tx = LogicalTransaction::create(asked, now);
                            let ghost added = tx@;
                            assert(added == created_as(provider_id@, r@, now));
                            let ghost before = transaction_views(created@);
                            created.push(tx.duplicate());
                            store.insert(tx);
                            proof {
                                assert(transaction_views(created@) =~= before.push(added));
                                let rest = committed(store@, all.skip(i + 1), now);
                                assert(before + (seq![added] + rest.created) =~= before.push(added)
                                    + rest.created);
                            }
                        },
                    }
                }
            },
        }
        i += 1;
    }
    let outcome = ImportOutcome { created, error: None };
    assert(outcome@.created =~= committed(start, all, now).created);
    outcome
}

} // verus!
