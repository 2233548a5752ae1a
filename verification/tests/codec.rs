use minichain::block::Block;
use minichain::codec::{
    decode_balances, decode_blocks, decode_message, decode_peer, decode_peers, decode_total_fees,
    decode_txs, encode_balances, encode_blocks, encode_message, encode_peer, encode_peers,
    encode_total_fees, encode_txs,
};
use minichain::message::NetworkMessage;
use minichain::peers::Peer;
use minichain::transaction::Transaction;

fn b(s: &str) -> Vec<u8> {
    s.as_bytes().to_vec()
}

fn sample_blocks() -> Vec<Block> {
    let b0 = Block::new_at(0, b("0"), b("Genesis block"), 2, 1000);
    let b1 = Block::new_at(1, b0.hash.clone(), b("payload"), 3, 1009);
    vec![b0, b1]
}

fn sample_tx() -> Transaction {
    Transaction::new(b("A"), b("B"), 500, b("3045aa"))
}

fn sample_peers() -> Vec<Peer> {
    vec![
        Peer { id: b("p1"), address: b("127.0.0.1:6001") },
        Peer { id: b("p2"), address: b("127.0.0.1:6002") },
    ]
}

#[test]
fn request_blockchain_round_trips() {
    let m = NetworkMessage::RequestBlockchain;
    assert_eq!(decode_message(&encode_message(&m)), Some(m));
}

#[test]
fn request_peers_round_trips() {
    let m = NetworkMessage::RequestPeers;
    assert_eq!(decode_message(&encode_message(&m)), Some(m));
}

#[test]
fn mine_new_block_round_trips() {
    let m = NetworkMessage::MineNewBlock;
    assert_eq!(decode_message(&encode_message(&m)), Some(m));
}

#[test]
fn send_blockchain_round_trips() {
    let m = NetworkMessage::SendBlockchain(sample_blocks());
    assert_eq!(decode_message(&encode_message(&m)), Some(m));
}

#[test]
fn send_empty_blockchain_round_trips() {
    let m = NetworkMessage::SendBlockchain(Vec::new());
    assert_eq!(decode_message(&encode_message(&m)), Some(m));
}

#[test]
fn send_peers_round_trips() {
    let m = NetworkMessage::SendPeers(sample_peers());
    assert_eq!(decode_message(&encode_message(&m)), Some(m));
}

#[test]
fn new_transaction_round_trips() {
    let m = NetworkMessage::NewTransaction(sample_tx(), b("02deadbeef"));
    assert_eq!(decode_message(&encode_message(&m)), Some(m));
}

#[test]
fn unit_messages_use_their_tag_as_wire_text() {
    assert_eq!(encode_message(&NetworkMessage::RequestBlockchain), b("\"RequestBlockchain\""));
    assert_eq!(encode_message(&NetworkMessage::RequestPeers), b("\"RequestPeers\""));
    assert_eq!(encode_message(&NetworkMessage::MineNewBlock), b("\"MineNewBlock\""));
}

#[test]
fn transaction_wire_form_is_plain_json() {
    let txs = vec![sample_tx()];
    assert_eq!(
        encode_txs(&txs),
        b("[{\"sender\":\"A\",\"recipient\":\"B\",\"amount\":500,\"signature\":\"3045aa\",\"fee\":1}]")
    );
}

#[test]
fn peer_wire_form_is_plain_json() {
    let p = Peer { id: b("p1"), address: b("127.0.0.1:6001") };
    assert_eq!(encode_peer(&p), b("{\"id\":\"p1\",\"address\":\"127.0.0.1:6001\"}"));
}

#[test]
fn stored_chain_round_trips() {
    let chain = sample_blocks();
    assert_eq!(decode_blocks(&encode_blocks(&chain)), Some(chain));
}

#[test]
fn stored_mempool_round_trips() {
    let txs = vec![sample_tx(), Transaction::new(b("C"), b("D"), u64::MAX, Vec::new())];
    assert_eq!(decode_txs(&encode_txs(&txs)), Some(txs));
}

#[test]
fn stored_peer_entry_round_trips() {
    let p = Peer { id: b("p1"), address: b("127.0.0.1:6001") };
    assert_eq!(decode_peer(&encode_peer(&p)), Some(p));
}

#[test]
fn stored_peer_list_round_trips() {
    let ps = sample_peers();
    assert_eq!(decode_peers(&encode_peers(&ps)), Some(ps));
}

#[test]
fn stored_balances_round_trip() {
    let entries: Vec<(Vec<u8>, u64)> = vec![(b("A"), 499), (b("B"), 500), (b("M"), u64::MAX)];
    assert_eq!(decode_balances(&encode_balances(&entries)), Some(entries));
    let empty: Vec<(Vec<u8>, u64)> = Vec::new();
    assert_eq!(encode_balances(&empty), b("{}"));
    assert_eq!(decode_balances(&b("{}")), Some(Vec::new()));
}

#[test]
fn stored_fee_counter_round_trips() {
    assert_eq!(decode_total_fees(&encode_total_fees(0)), Some(0));
    assert_eq!(encode_total_fees(102), b("102"));
    assert_eq!(decode_total_fees(&encode_total_fees(u64::MAX)), Some(u64::MAX));
}

#[test]
fn strings_with_quotes_and_backslashes_round_trip() {
    let mut id = b("a\"b");
    id.push(92);
    id.push(99);
    let p = Peer { id: id.clone(), address: b("\\\"") };
    let encoded = encode_peer(&p);
    assert_eq!(decode_peer(&encoded), Some(p));
}

#[test]
fn malformed_input_is_refused() {
    assert_eq!(decode_message(&b("garbage")), None);
    assert_eq!(decode_message(&b("\"RequestBlockchain\" ")), None);
    assert_eq!(decode_message(&b("{\"SendBlockchain\":[}")), None);
    assert_eq!(decode_blocks(&b("[{]")), None);
    assert_eq!(decode_total_fees(&b("12a")), None);
    assert_eq!(decode_total_fees(&b("99999999999999999999999999")), None);
    assert_eq!(decode_balances(&b("{\"A\":1")), None);
}

#[test]
fn transaction_hash_matches_reference_digest() {
    let tx = Transaction::new(b("A"), b("B"), 500, Vec::new());
    // SHA-256 of the bytes "AB5001"
    assert_eq!(tx.hash(), b("d1ee36e9628973f3ddc693389288cbea92b5d3abbc7f79b0806b6d656a6394de"));
}

#[test]
fn block_hash_matches_reference_digest() {
    // SHA-256 of little-endian 0, "1000", "0", "data", little-endian 0
    let h = Block::calculate_hash(0, &b("1000"), &b("0"), &b("data"), 0);
    assert_eq!(h, b("3a27e416dda25b50d4adca25edacc8596ddc33697bb5f7e7c173ab5a50a0cb25"));
}

#[test]
fn target_check_counts_leading_zeros() {
    assert!(Block::hash_meets_target(&b("00ab"), 2));
    assert!(!Block::hash_meets_target(&b("0a"), 2));
    assert!(Block::hash_meets_target(&b("ff"), 0));
    assert!(!Block::hash_meets_target(&b("00"), 3));
}

#[test]
fn transaction_structural_validity() {
    assert!(sample_tx().is_valid());
    assert!(!Transaction::new(b(""), b("B"), 5, Vec::new()).is_valid());
    assert!(!Transaction::new(b("A"), b(""), 5, Vec::new()).is_valid());
    assert!(!Transaction::new(b("A"), b("B"), 0, Vec::new()).is_valid());
}
