//! Deciding, at start-up, whether the corpus has to be ingested and loaded
//! into the index. The decisions are made here; the caller checks the store,
//! runs the ingestion and loads the documents, and reports back.

use vstd::prelude::*;

verus! {

/// The collection that holds the indexed corpus.
pub const COLLECTION_NAME: &'static str = "langchain-rs";

/// The address of the store where none is configured.
pub const DEFAULT_STORE_ADDRESS: &'static str = "http://127.0.0.1:6334";

/// Where the initialisation stands.
#[derive(Clone, Copy, Debug, PartialEq, Eq, Structural)]
pub enum IndexState {
    /// Nothing is known of the store yet.
    Unchecked,
    /// The corpus is being ingested.
    Ingesting,
    /// The documents are being added to the store.
    Loading,
    /// The service can take questions.
    Ready,
    /// The documents could not be added; the service must not start.
    Failed,
}

/// What the caller reports.
#[derive(Clone, Copy, Debug, PartialEq, Eq, Structural)]
pub enum IndexEvent {
    /// The answer of the existence check; `None` where the check failed.
    Existence(Option<bool>),
    /// The ingestion has run and made this many documents.
    Ingested(usize),
    /// Adding the documents has ended, well or not.
    Loaded(bool),
}

/// What the caller is to do next.
#[derive(Clone, Copy, Debug, PartialEq, Eq, Structural)]
pub enum IndexAction {
    /// Run the ingestion and report the number of documents.
    Ingest,
    /// Add the documents to the store and report how it went.
    AddDocuments,
    /// Warn that the corpus is empty, leave the store alone, and serve.
    WarnEmptyCorpus,
    /// Serve: the index is in place.
    Serve,
    /// Give up: serving without an index would go unnoticed.
    Abort,
    /// The report does not belong to this state; nothing is to be done.
    Ignore,
}

/// The state after an event, and the action it calls for.
///
/// A collection that exists is never ingested again. A check that fails
/// counts as a collection that is missing. An empty corpus is not loaded,
/// so that no empty collection is later taken for an index.
pub open spec fn next(state: IndexState, event: IndexEvent) -> (IndexState, IndexAction) {
    match (state, event) {
        (IndexState::Unchecked, IndexEvent::Existence(Some(true))) => (
            IndexState::Ready,
            IndexAction::Serve,
        ),
        (IndexState::Unchecked, IndexEvent::Existence(_)) => (
            IndexState::Ingesting,
            IndexAction::Ingest,
        ),
        (IndexState::Ingesting, IndexEvent::Ingested(count)) => if count == 0 {
            (IndexState::Ready, IndexAction::WarnEmptyCorpus)
        } else {
            (IndexState::Loading, IndexAction::AddDocuments)
        },
        (IndexState::Loading, IndexEvent::Loaded(true)) => (IndexState::Ready, IndexAction::Serve),
        (IndexState::Loading, IndexEvent::Loaded(false)) => (
            IndexState::Failed,
            IndexAction::Abort,
        ),
        _ => (state, IndexAction::Ignore),
    }
}

/// Takes one step of the initialisation: see [`next`].
pub fn step(state: IndexState, event: IndexEvent) -> (r: (IndexState, IndexAction))
    ensures
        r == next(state, event),
{
    match state {
        IndexState::Unchecked => match event {
            IndexEvent::Existence(Some(true)) => (IndexState::Ready, IndexAction::Serve),
            IndexEvent::Existence(_) => (IndexState::Ingesting, IndexAction::Ingest),
            _ => (state, IndexAction::Ignore),
        },
        IndexState::Ingesting => match event {
            IndexEvent::Ingested(count) => if count == 0 {
                (IndexState::Ready, IndexAction::WarnEmptyCorpus)
            } else {
                (IndexState::Loading, IndexAction::AddDocuments)
            },
            _ => (state, IndexAction::Ignore),
        },
        IndexState::Loading => match event {
            IndexEvent::Loaded(true) => (IndexState::Ready, IndexAction::Serve),
            IndexEvent::Loaded(false) => (IndexState::Failed, IndexAction::Abort),
            _ => (state, IndexAction::Ignore),
        },
        _ => (state, IndexAction::Ignore),
    }
}

/// The address of the store: the configured one, or the local default.
pub fn store_address(configured: Option<String>) -> (r: String)
    ensures
        r@ == match configured {
            Some(address) => address@,
            None => DEFAULT_STORE_ADDRESS@,
        },
{
    match configured {
        Some(address) => address,
        None => DEFAULT_STORE_ADDRESS.to_owned(),
    }
}

/// The actions of one whole run of the initialisation, from the first
/// check on: what the store answers, how many documents the ingestion
/// makes where it runs, and whether loading succeeds where it is tried.
pub open spec fn run(existence: Option<bool>, documents: usize, loaded: bool) -> Seq<IndexAction> {
    let (checked, first) = next(IndexState::Unchecked, IndexEvent::Existence(existence));
    if checked != IndexState::Ingesting {
        seq![first]
    } else {
        let (ingested, second) = next(checked, IndexEvent::Ingested(documents));
        if ingested != IndexState::Loading {
            seq![first, second]
        } else {
            seq![first, second, next(ingested, IndexEvent::Loaded(loaded)).1]
        }
    }
}

/// How often `action` occurs among `actions`.
pub open spec fn count(actions: Seq<IndexAction>, action: IndexAction) -> nat {
    actions.filter(|a: IndexAction| a == action).len()
}

/// Two runs in a row, the second against a store that reports the
/// collection, ingest at most once between them: the second run serves at
/// once and neither ingests nor loads.
pub proof fn lemma_second_run_skips_ingestion(
    existence: Option<bool>,
    documents: usize,
    loaded: bool,
    documents_again: usize,
    loaded_again: bool,
)
    ensures
        run(Some(true), documents_again, loaded_again) == seq![IndexAction::Serve],
        count(run(existence, documents, loaded), IndexAction::Ingest) + count(
            run(Some(true), documents_again, loaded_again),
            IndexAction::Ingest,
        ) <= 1,
{
    reveal_with_fuel(Seq::filter, 5);
    let first = run(existence, documents, loaded);
    let keep = |a: IndexAction| a == IndexAction::Ingest;
    if first.len() == 1 {
        assert(first.drop_last() =~= Seq::<IndexAction>::empty());
    } else if first.len() == 2 {
        assert(first.drop_last() =~= seq![first[0]]);
        assert(first.drop_last().drop_last() =~= Seq::<IndexAction>::empty());
    } else {
        assert(first.drop_last() =~= seq![first[0], first[1]]);
        assert(first.drop_last().drop_last() =~= seq![first[0]]);
        assert(first.drop_last().drop_last().drop_last() =~= Seq::<IndexAction>::empty());
    }
    let second = seq![IndexAction::Serve];
    assert(second.drop_last() =~= Seq::<IndexAction>::empty());
}

/// An empty corpus ends the initialisation in `Ready`, with a warning and
/// with the store untouched: no run on an empty corpus adds documents or
/// aborts.
pub proof fn lemma_empty_corpus_leaves_store(existence: Option<bool>, loaded: bool)
    requires
        existence != Some(true),
    ensures
        run(existence, 0, loaded) == seq![IndexAction::Ingest, IndexAction::WarnEmptyCorpus],
        next(IndexState::Ingesting, IndexEvent::Ingested(0)) == (
            IndexState::Ready,
            IndexAction::WarnEmptyCorpus,
        ),
{
}

} // verus!
