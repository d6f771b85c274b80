use kallax::keeper::{BlockchainLayer, PeerReport};
use kallax::query::{get_chain_spec, get_peers, GetChainSpecError, STATUS_NOT_FOUND};
use kallax::registry::{ChainSpecStore, PeerAddressBook};

fn strings(v: &[&str]) -> Vec<String> {
    v.iter().map(|s| s.to_string()).collect()
}

#[test]
fn unknown_chain_has_no_peers_and_no_spec() {
    let mut book = PeerAddressBook::new();
    book.upsert("other".to_string(), strings(&["p1"]));
    let store = ChainSpecStore::new();
    assert!(book.fetch(&"mainnet".to_string()).is_empty());
    assert!(store.get(&"mainnet".to_string()).is_none());
    assert!(get_peers(&book, &"mainnet".to_string()).is_empty());
    assert_eq!(
        get_chain_spec(&store, &"mainnet".to_string()),
        Err(GetChainSpecError::NotFound)
    );
}

#[test]
fn second_upsert_replaces_the_first() {
    let mut book = PeerAddressBook::new();
    book.upsert("x".to_string(), strings(&["A", "B"]));
    assert_eq!(book.fetch(&"x".to_string()), strings(&["A", "B"]));
    book.upsert("x".to_string(), strings(&["C"]));
    assert_eq!(book.fetch(&"x".to_string()), strings(&["C"]));
}

#[test]
fn upsert_drops_repeated_addresses() {
    let mut book = PeerAddressBook::new();
    book.upsert("x".to_string(), strings(&["A", "B", "A"]));
    assert_eq!(book.fetch(&"x".to_string()), strings(&["A", "B"]));
}

#[test]
fn chains_are_kept_apart() {
    let mut book = PeerAddressBook::new();
    book.upsert("x".to_string(), strings(&["A"]));
    book.upsert("y".to_string(), strings(&["B"]));
    book.upsert("x".to_string(), Vec::new());
    assert!(book.fetch(&"x".to_string()).is_empty());
    assert_eq!(book.fetch(&"y".to_string()), strings(&["B"]));
}

#[test]
fn a_report_is_an_upsert_whatever_its_layer() {
    let mut book = PeerAddressBook::new();
    book.apply_report(PeerReport {
        chain_id: "leaf".to_string(),
        layer: BlockchainLayer::Leafchain,
        peers: strings(&["p", "p", "q"]),
    });
    assert_eq!(get_peers(&book, &"leaf".to_string()), strings(&["p", "q"]));
}

#[test]
fn chain_spec_is_stored_once() {
    let mut store = ChainSpecStore::new();
    assert!(store.insert("mainnet".to_string(), vec![1, 2, 3]));
    assert!(!store.insert("mainnet".to_string(), vec![9]));
    assert_eq!(store.get(&"mainnet".to_string()), Some(vec![1, 2, 3]));
    assert_eq!(get_chain_spec(&store, &"mainnet".to_string()), Ok(vec![1, 2, 3]));
    assert!(store.insert("leaf".to_string(), Vec::new()));
    assert_eq!(store.get(&"leaf".to_string()), Some(Vec::new()));
}

#[test]
fn not_found_answers_with_an_empty_body() {
    let (status, body) = GetChainSpecError::NotFound.response_parts();
    assert_eq!(status, STATUS_NOT_FOUND);
    assert_eq!(status, 404);
    assert!(body.is_empty());
}
