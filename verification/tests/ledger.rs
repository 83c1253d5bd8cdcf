use garuda::blockchain::Blockchain;
use garuda::p2p::{P2PNetwork, Peer};

#[test]
fn creates_genesis_block() {
    let chain = Blockchain::new();
    assert_eq!(chain.len(), 1);
    assert_eq!(chain.latest().map(|block| block.payload.as_str()), Some("genesis"));
}

#[test]
fn appends_blocks() {
    let mut chain = Blockchain::new();
    let block = chain.add_block("payload");
    assert_eq!(block.index, 1);
    assert_eq!(chain.len(), 2);
}

#[test]
fn tracks_peers() {
    let mut network = P2PNetwork::new();
    network.add_peer(Peer::new("a", "127.0.0.1:9000"));
    assert_eq!(network.peer_count(), 1);
    assert!(network.has_peer("a"));
}

#[test]
fn records_broadcasts_and_nullifiers() {
    let mut network = P2PNetwork::new();
    network.broadcast("hello");
    network.add_nullifier("n1");
    assert_eq!(network.broadcasts(), &["hello".to_string()]);
    assert!(network.has_nullifier("n1"));
}
