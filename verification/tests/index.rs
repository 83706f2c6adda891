use docs_bot::index::{
    step, store_address, IndexAction, IndexEvent, IndexState, COLLECTION_NAME,
    DEFAULT_STORE_ADDRESS,
};

fn run(existence: Option<bool>, documents: usize, loaded: bool) -> (IndexState, Vec<IndexAction>) {
    let mut actions = Vec::new();
    let (mut state, mut action) = step(IndexState::Unchecked, IndexEvent::Existence(existence));
    loop {
        actions.push(action);
        let event = match action {
            IndexAction::Ingest => IndexEvent::Ingested(documents),
            IndexAction::AddDocuments => IndexEvent::Loaded(loaded),
            _ => return (state, actions),
        };
        (state, action) = step(state, event);
    }
}

#[test]
fn existing_collection_is_served_at_once() {
    assert_eq!(
        step(IndexState::Unchecked, IndexEvent::Existence(Some(true))),
        (IndexState::Ready, IndexAction::Serve)
    );
}

#[test]
fn missing_collection_is_ingested() {
    assert_eq!(
        step(IndexState::Unchecked, IndexEvent::Existence(Some(false))),
        (IndexState::Ingesting, IndexAction::Ingest)
    );
}

#[test]
fn failed_check_counts_as_missing() {
    assert_eq!(
        step(IndexState::Unchecked, IndexEvent::Existence(None)),
        (IndexState::Ingesting, IndexAction::Ingest)
    );
}

#[test]
fn documents_are_loaded() {
    assert_eq!(
        step(IndexState::Ingesting, IndexEvent::Ingested(1)),
        (IndexState::Loading, IndexAction::AddDocuments)
    );
    assert_eq!(
        step(IndexState::Loading, IndexEvent::Loaded(true)),
        (IndexState::Ready, IndexAction::Serve)
    );
}

#[test]
fn empty_corpus_warns_and_leaves_the_store() {
    assert_eq!(
        step(IndexState::Ingesting, IndexEvent::Ingested(0)),
        (IndexState::Ready, IndexAction::WarnEmptyCorpus)
    );
    for existence in [Some(false), None] {
        let (state, actions) = run(existence, 0, false);
        assert_eq!(state, IndexState::Ready);
        assert_eq!(actions, vec![IndexAction::Ingest, IndexAction::WarnEmptyCorpus]);
    }
}

#[test]
fn failed_load_aborts() {
    assert_eq!(
        step(IndexState::Loading, IndexEvent::Loaded(false)),
        (IndexState::Failed, IndexAction::Abort)
    );
    let (state, actions) = run(Some(false), 3, false);
    assert_eq!(state, IndexState::Failed);
    assert_eq!(actions, vec![IndexAction::Ingest, IndexAction::AddDocuments, IndexAction::Abort]);
}

#[test]
fn second_run_does_not_ingest_again() {
    let (first_state, first) = run(Some(false), 5, true);
    assert_eq!(first_state, IndexState::Ready);
    assert_eq!(first, vec![IndexAction::Ingest, IndexAction::AddDocuments, IndexAction::Serve]);
    let (second_state, second) = run(Some(true), 5, true);
    assert_eq!(second_state, IndexState::Ready);
    assert_eq!(second, vec![IndexAction::Serve]);
    let ingestions = first
        .iter()
        .chain(second.iter())
        .filter(|a| **a == IndexAction::Ingest)
        .count();
    assert_eq!(ingestions, 1);
}

#[test]
fn reports_out_of_turn_are_ignored() {
    let states = [
        IndexState::Unchecked,
        IndexState::Ingesting,
        IndexState::Loading,
        IndexState::Ready,
        IndexState::Failed,
    ];
    for state in states {
        if state != IndexState::Unchecked {
            assert_eq!(
                step(state, IndexEvent::Existence(Some(false))),
                (state, IndexAction::Ignore)
            );
        }
        if state != IndexState::Ingesting {
            assert_eq!(step(state, IndexEvent::Ingested(2)), (state, IndexAction::Ignore));
        }
        if state != IndexState::Loading {
            assert_eq!(step(state, IndexEvent::Loaded(true)), (state, IndexAction::Ignore));
        }
    }
}

#[test]
fn store_address_falls_back_to_the_local_default() {
    assert_eq!(store_address(None), "http://127.0.0.1:6334");
    assert_eq!(store_address(None), DEFAULT_STORE_ADDRESS);
    assert_eq!(store_address(Some("http://qdrant:6334".to_string())), "http://qdrant:6334");
    assert_eq!(COLLECTION_NAME, "langchain-rs");
}
