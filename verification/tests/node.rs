use minichain::balances::Balances;
use minichain::block::Block;
use minichain::blockchain::Blockchain;
use minichain::ledger::{AdmitOutcome, Ledger, MineOutcome};
use minichain::message::NetworkMessage;
use minichain::peers::{Peer, PeerManager};
use minichain::server::handle_message;
use minichain::transaction::Transaction;
use minichain::wallet::Wallet;

fn b(s: &str) -> Vec<u8> {
    s.as_bytes().to_vec()
}

fn fresh_ledger_with(balances: Vec<(&str, u64)>) -> Ledger {
    let entries = balances.into_iter().map(|(k, v)| (b(k), v)).collect();
    Ledger::new(Vec::new(), Vec::new(), Balances { entries }, Wallet::new())
}

fn signed_tx(w: &Wallet, sender: &str, recipient: &str, amount: u64) -> Transaction {
    let mut tx = Transaction::new(b(sender), b(recipient), amount, Vec::new());
    w.sign_transaction(&mut tx);
    tx
}

fn linked_chain(timestamps: &[u64]) -> Vec<Block> {
    let mut chain: Vec<Block> = Vec::new();
    let mut prev = b("0");
    for (i, t) in timestamps.iter().enumerate() {
        let blk = Block::new_at(i as u64, prev.clone(), b("x"), 2, *t);
        prev = blk.hash.clone();
        chain.push(blk);
    }
    chain
}

#[test]
fn bootstrap_fresh_node() {
    let l = fresh_ledger_with(vec![]);
    assert_eq!(l.chain.len(), 1);
    let g = &l.chain[0];
    assert_eq!(g.index, 0);
    assert_eq!(g.previous_hash, b("0"));
    assert_eq!(g.data, b("Genesis block"));
    assert_eq!(g.nonce, 0);
    assert_eq!(g.difficulty, 2);
    assert_eq!(g.hash.len(), 64);
    assert!(l.mempool.is_empty());
    assert!(l.balances.entries.is_empty());
    assert_eq!(l.difficulty, 2);
    assert_eq!(l.total_fees_collected, 0);
    assert!(l.is_valid_chain());
}

#[test]
fn wallet_address_is_hex_digest_of_public_key() {
    let w = Wallet::new();
    assert_eq!(w.address.len(), 64);
    assert!(w.address.iter().all(|c| c.is_ascii_hexdigit()));
    assert_eq!(w.public_key.len(), 66);
}

#[test]
fn admission_debits_sender_and_credits_recipient() {
    let wallet = Wallet::new();
    let mut l = fresh_ledger_with(vec![("A", 1000)]);
    let tx = signed_tx(&wallet, "A", "B", 500);
    let out = l.add_transaction(tx, &wallet.public_key);
    assert_eq!(out, AdmitOutcome::Admitted);
    assert_eq!(l.balances.get(&b("A")), 499);
    assert_eq!(l.balances.get(&b("B")), 500);
    assert_eq!(l.mempool.len(), 1);
}

#[test]
fn admission_rejects_insufficient_funds() {
    let wallet = Wallet::new();
    let mut l = fresh_ledger_with(vec![("A", 100)]);
    let tx = signed_tx(&wallet, "A", "B", 500);
    let out = l.add_transaction(tx, &wallet.public_key);
    assert_eq!(out, AdmitOutcome::InsufficientFunds);
    assert_eq!(l.balances.get(&b("A")), 100);
    assert_eq!(l.balances.get(&b("B")), 0);
    assert!(l.mempool.is_empty());
}

#[test]
fn admission_rejects_bad_signature() {
    let wallet = Wallet::new();
    let mut l = fresh_ledger_with(vec![("A", 1000)]);
    let mut tx = signed_tx(&wallet, "A", "B", 500);
    tx.signature = b("3045deadbeef");
    let out = l.add_transaction(tx, &wallet.public_key);
    assert_eq!(out, AdmitOutcome::InvalidSignature);
    assert_eq!(l.balances.get(&b("A")), 1000);
    assert!(l.mempool.is_empty());
}

#[test]
fn admission_rejects_signature_under_wrong_key() {
    let wallet = Wallet::new();
    let other = Wallet::new();
    let mut l = fresh_ledger_with(vec![("A", 1000)]);
    let tx = signed_tx(&wallet, "A", "B", 500);
    let out = l.add_transaction(tx, &other.public_key);
    assert_eq!(out, AdmitOutcome::InvalidSignature);
}

#[test]
fn admission_rejects_recipient_overflow() {
    let wallet = Wallet::new();
    let mut l = fresh_ledger_with(vec![("A", 10), ("B", u64::MAX)]);
    let tx = signed_tx(&wallet, "A", "B", 1);
    let out = l.add_transaction(tx, &wallet.public_key);
    assert_eq!(out, AdmitOutcome::RecipientOverflow);
    assert_eq!(l.balances.get(&b("A")), 10);
    assert_eq!(l.balances.get(&b("B")), u64::MAX);
}

#[test]
fn empty_mempool_does_not_mine() {
    let mut l = fresh_ledger_with(vec![]);
    assert_eq!(l.mine_block(), MineOutcome::NotEnoughTransactions);
    assert_eq!(l.chain.len(), 1);
}

#[test]
fn one_transaction_does_not_mine() {
    let wallet = Wallet::new();
    let mut l = fresh_ledger_with(vec![("A", 1000)]);
    let tx = signed_tx(&wallet, "A", "B", 500);
    assert_eq!(l.add_transaction(tx, &wallet.public_key), AdmitOutcome::Admitted);
    assert_eq!(l.mine_block(), MineOutcome::NotEnoughTransactions);
    assert_eq!(l.chain.len(), 1);
    assert_eq!(l.mempool.len(), 1);
}

#[test]
fn two_transactions_mine_a_block() {
    let wallet = Wallet::new();
    let mut l = fresh_ledger_with(vec![("A", 1000)]);
    let t1 = signed_tx(&wallet, "A", "B", 500);
    let t2 = signed_tx(&wallet, "A", "B", 100);
    assert_eq!(l.add_transaction(t1, &wallet.public_key), AdmitOutcome::Admitted);
    assert_eq!(l.add_transaction(t2, &wallet.public_key), AdmitOutcome::Admitted);
    let miner = l.miner_wallet.address.clone();
    assert_eq!(l.mine_block(), MineOutcome::Mined);
    assert_eq!(l.chain.len(), 2);
    assert!(l.mempool.is_empty());
    // block reward 1.00 plus two fees of 0.01 each
    assert_eq!(l.balances.get(&miner), 102);
    assert_eq!(l.total_fees_collected, 2);
    let mined = &l.chain[1];
    assert_eq!(mined.index, 1);
    assert_eq!(&mined.hash[..2], b("00").as_slice());
    assert_eq!(mined.previous_hash, l.chain[0].hash);
    assert_eq!(mined.difficulty, 2);
    assert!(l.is_valid_chain());
}

#[test]
fn mining_sorts_fees_descending_into_the_block() {
    let wallet = Wallet::new();
    let mut l = fresh_ledger_with(vec![]);
    let mut cheap = Transaction::new(b("A"), b("B"), 5, Vec::new());
    cheap.fee = 1;
    let mut dear = Transaction::new(b("C"), b("D"), 5, Vec::new());
    dear.fee = 9;
    // hydrate the mempool directly, as a restart would
    l = Ledger::new(Vec::new(), vec![cheap, dear], Balances { entries: vec![] }, wallet);
    assert_eq!(l.mine_block(), MineOutcome::Mined);
    assert_eq!(l.total_fees_collected, 10);
    let data = &l.chain[1].data;
    let dear_at = data.windows(8).position(|w| w == b("\"fee\":9}").as_slice()).unwrap();
    let cheap_at = data.windows(8).position(|w| w == b("\"fee\":1}").as_slice()).unwrap();
    assert!(dear_at < cheap_at);
}

#[test]
fn mining_at_difficulty_zero_always_succeeds() {
    let wallet = Wallet::new();
    let mut l = fresh_ledger_with(vec![("A", 1000)]);
    l.difficulty = 0;
    let t1 = signed_tx(&wallet, "A", "B", 10);
    let t2 = signed_tx(&wallet, "A", "B", 20);
    assert_eq!(l.add_transaction(t1, &wallet.public_key), AdmitOutcome::Admitted);
    assert_eq!(l.add_transaction(t2, &wallet.public_key), AdmitOutcome::Admitted);
    assert_eq!(l.mine_block(), MineOutcome::Mined);
    assert_eq!(l.chain.len(), 2);
    assert_eq!(l.chain[1].nonce, 0);
}

#[test]
fn mining_rejects_fee_overflow_and_keeps_state() {
    let wallet = Wallet::new();
    let mut t1 = Transaction::new(b("A"), b("B"), 1, Vec::new());
    t1.fee = u64::MAX;
    let mut t2 = Transaction::new(b("C"), b("D"), 1, Vec::new());
    t2.fee = 5;
    let mut l = Ledger::new(Vec::new(), vec![t1, t2], Balances { entries: vec![] }, wallet);
    assert_eq!(l.mine_block(), MineOutcome::FeeOverflow);
    assert_eq!(l.chain.len(), 1);
    assert_eq!(l.mempool.len(), 2);
    assert_eq!(l.total_fees_collected, 0);
}

#[test]
fn mining_rejects_reward_overflow() {
    let wallet = Wallet::new();
    let mut t1 = Transaction::new(b("A"), b("B"), 1, Vec::new());
    t1.fee = u64::MAX - 60;
    let mut t2 = Transaction::new(b("C"), b("D"), 1, Vec::new());
    t2.fee = 10;
    let mut l = Ledger::new(Vec::new(), vec![t1, t2], Balances { entries: vec![] }, wallet);
    assert_eq!(l.mine_block(), MineOutcome::RewardOverflow);
    assert_eq!(l.chain.len(), 1);
    assert_eq!(l.mempool.len(), 2);
}

#[test]
fn difficulty_rises_after_a_fast_window() {
    let chain = linked_chain(&[100, 102, 104, 107, 110]);
    let mut l = Ledger::new(chain, Vec::new(), Balances { entries: vec![] }, Wallet::new());
    assert_eq!(l.chain.len(), 5);
    l.adjust_difficulty();
    assert_eq!(l.difficulty, 3);
}

#[test]
fn difficulty_falls_after_a_slow_window() {
    let chain = linked_chain(&[100, 150, 200, 300, 401]);
    let mut l = Ledger::new(chain, Vec::new(), Balances { entries: vec![] }, Wallet::new());
    l.adjust_difficulty();
    assert_eq!(l.difficulty, 1);
}

#[test]
fn difficulty_never_falls_below_zero() {
    let chain = linked_chain(&[100, 150, 200, 300, 401]);
    let mut l = Ledger::new(chain, Vec::new(), Balances { entries: vec![] }, Wallet::new());
    l.difficulty = 0;
    l.adjust_difficulty();
    assert_eq!(l.difficulty, 0);
}

#[test]
fn difficulty_keeps_still_inside_the_band() {
    let chain = linked_chain(&[100, 110, 120, 130, 150]);
    let mut l = Ledger::new(chain, Vec::new(), Balances { entries: vec![] }, Wallet::new());
    l.adjust_difficulty();
    assert_eq!(l.difficulty, 2);
}

#[test]
fn short_chain_leaves_difficulty_alone() {
    let chain = linked_chain(&[100, 102]);
    let mut l = Ledger::new(chain, Vec::new(), Balances { entries: vec![] }, Wallet::new());
    l.adjust_difficulty();
    assert_eq!(l.difficulty, 2);
}

#[test]
fn hydration_keeps_a_valid_chain_and_drops_a_broken_one() {
    let good = linked_chain(&[5, 6, 7]);
    let l = Ledger::new(good.clone(), Vec::new(), Balances { entries: vec![] }, Wallet::new());
    assert_eq!(l.chain, good);

    let mut bad = linked_chain(&[5, 6, 7]);
    bad[2].previous_hash = b("junk");
    let l2 = Ledger::new(bad, Vec::new(), Balances { entries: vec![] }, Wallet::new());
    assert_eq!(l2.chain.len(), 1);
    assert_eq!(l2.chain[0].data, b("Genesis block"));
}

#[test]
fn hydration_drops_balances_with_a_repeated_address() {
    let dup = Balances { entries: vec![(b("A"), 1), (b("A"), 2)] };
    let l = Ledger::new(Vec::new(), Vec::new(), dup, Wallet::new());
    assert!(l.balances.entries.is_empty());
}

#[test]
fn longer_valid_chain_replaces_local() {
    let mut l = fresh_ledger_with(vec![]);
    let mut pm = PeerManager::new();
    let longer = linked_chain(&[5, 6]);
    let resp = handle_message(&mut l, &mut pm, NetworkMessage::SendBlockchain(longer.clone()));
    assert!(resp.is_none());
    assert_eq!(l.chain, longer);
}

#[test]
fn equal_or_shorter_chain_is_ignored() {
    let mut l = fresh_ledger_with(vec![]);
    let mut pm = PeerManager::new();
    let local = l.chain.clone();
    let same_len = linked_chain(&[9]);
    handle_message(&mut l, &mut pm, NetworkMessage::SendBlockchain(same_len));
    assert_eq!(l.chain, local);
}

#[test]
fn chain_with_broken_links_is_not_adopted() {
    let mut l = fresh_ledger_with(vec![]);
    let local = l.chain.clone();
    let mut bad = linked_chain(&[5, 6, 7]);
    bad[1].previous_hash = b("junk");
    assert!(!l.replace_chain(bad));
    assert_eq!(l.chain, local);
}

#[test]
fn validation_spots_a_tampered_block() {
    let chain = linked_chain(&[5, 6, 7]);
    let mut l = Ledger::new(chain, Vec::new(), Balances { entries: vec![] }, Wallet::new());
    assert!(l.is_valid_chain());
    l.chain[1].data = b("rewritten");
    assert!(!l.is_valid_chain());
}

#[test]
fn request_blockchain_answers_with_the_chain() {
    let mut l = fresh_ledger_with(vec![]);
    let mut pm = PeerManager::new();
    let resp = handle_message(&mut l, &mut pm, NetworkMessage::RequestBlockchain);
    assert_eq!(resp, Some(NetworkMessage::SendBlockchain(l.chain.clone())));
}

#[test]
fn request_peers_answers_with_the_directory() {
    let mut l = fresh_ledger_with(vec![]);
    let mut pm = PeerManager::new();
    pm.add_peer(&Peer { id: b("p1"), address: b("127.0.0.1:6001") });
    let resp = handle_message(&mut l, &mut pm, NetworkMessage::RequestPeers);
    assert_eq!(resp, Some(NetworkMessage::SendPeers(pm.get_all_peers())));
}

#[test]
fn mine_request_mines_when_the_mempool_is_full_enough() {
    let wallet = Wallet::new();
    let mut l = fresh_ledger_with(vec![("A", 1000)]);
    let pk = wallet.public_key.clone();
    let mut pm = PeerManager::new();
    let t1 = signed_tx(&wallet, "A", "B", 10);
    let t2 = signed_tx(&wallet, "A", "B", 20);
    handle_message(&mut l, &mut pm, NetworkMessage::NewTransaction(t1, pk.clone()));
    handle_message(&mut l, &mut pm, NetworkMessage::NewTransaction(t2, pk));
    assert_eq!(l.mempool.len(), 2);
    let resp = handle_message(&mut l, &mut pm, NetworkMessage::MineNewBlock);
    assert!(resp.is_none());
    assert_eq!(l.chain.len(), 2);
    assert!(l.mempool.is_empty());
}

#[test]
fn structurally_invalid_transaction_is_dropped_at_dispatch() {
    let wallet = Wallet::new();
    let mut l = fresh_ledger_with(vec![("A", 1000)]);
    let mut pm = PeerManager::new();
    let zero_amount = signed_tx(&wallet, "A", "B", 0);
    let pk = wallet.public_key.clone();
    handle_message(&mut l, &mut pm, NetworkMessage::NewTransaction(zero_amount, pk));
    assert!(l.mempool.is_empty());
    assert_eq!(l.balances.get(&b("A")), 1000);
}

#[test]
fn peer_merge_skips_a_known_id() {
    let mut l = fresh_ledger_with(vec![]);
    let mut pm = PeerManager::new();
    let p1 = Peer { id: b("p1"), address: b("127.0.0.1:6001") };
    let p2 = Peer { id: b("p2"), address: b("127.0.0.1:6002") };
    pm.add_peer(&p1);
    handle_message(&mut l, &mut pm, NetworkMessage::SendPeers(vec![p1.clone(), p2.clone()]));
    assert_eq!(pm.peers, vec![p1, p2]);
}

#[test]
fn adding_a_peer_twice_changes_nothing_after_the_first() {
    let mut pm = PeerManager::new();
    let p = Peer { id: b("p1"), address: b("127.0.0.1:6001") };
    assert!(pm.add_peer(&p));
    let snapshot = pm.get_all_peers();
    assert!(!pm.add_peer(&p));
    assert_eq!(pm.get_all_peers(), snapshot);
    assert_eq!(pm.peers.len(), 1);
}

#[test]
fn directory_lookup_and_removal() {
    let mut pm = PeerManager::new();
    let p = Peer { id: b("p1"), address: b("127.0.0.1:6001") };
    pm.add_peer(&p);
    assert_eq!(pm.get_peer(&b("p1")), Some(p));
    assert_eq!(pm.get_peer(&b("p2")), None);
    pm.remove_peer(&b("p1"));
    assert_eq!(pm.get_peer(&b("p1")), None);
    assert!(pm.peers.is_empty());
}

#[test]
fn merge_skips_the_dialed_address() {
    let mut pm = PeerManager::new();
    let me = Peer { id: b("seed"), address: b("127.0.0.1:6000") };
    let other = Peer { id: b("p2"), address: b("127.0.0.1:6002") };
    pm.merge_peers(&vec![me, other.clone()], &b("127.0.0.1:6000"));
    assert_eq!(pm.peers, vec![other]);
}

#[test]
fn blockchain_shell_forwards_to_the_ledger() {
    let wallet = Wallet::new();
    let signer = Wallet::new();
    let entries = vec![(b("A"), 1000)];
    let mut chain = Blockchain::new(Vec::new(), Vec::new(), Balances { entries }, wallet);
    let mut tx = Transaction::new(b("A"), b("B"), 500, Vec::new());
    signer.sign_transaction(&mut tx);
    let out = chain.add_transaction(b("A"), b("B"), 500, tx.signature, signer.public_key.clone());
    assert_eq!(out, AdmitOutcome::Admitted);
    assert_eq!(chain.mine_block(), MineOutcome::NotEnoughTransactions);
    assert!(chain.is_valid());
}
