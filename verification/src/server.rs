use vstd::prelude::*;
use crate::block::{blocks_view, clone_blocks};
use crate::ledger::{admit_spec, mine_spec, wf_chain, AdmitOutcome, Ledger, MineOutcome};
use crate::message::{MsgV, NetworkMessage};
use crate::peers::{peers_view, spec_add_peers, PeerManager};
use crate::transaction::{tx_valid, TransactionV};

verus! {

/// What dispatching one message does to the ledger and the peer
/// directory, and which response goes back on the wire. Every mutation a
/// session performs passes through here, under both locks.
pub open spec fn dispatch_spec(
    pre_ledger: Ledger,
    post_ledger: Ledger,
    pre_peers: Seq<crate::peers::PeerV>,
    post_peers: Seq<crate::peers::PeerV>,
    msg: MsgV,
    r: Option<NetworkMessage>,
) -> bool {
    &&& (msg is RequestBlockchain ==> {
        &&& post_ledger == pre_ledger
        &&& post_peers == pre_peers
        &&& (r matches Some(resp) && resp@ == MsgV::SendBlockchain(
            blocks_view(pre_ledger.chain@),
        ))
    })
    &&& (msg matches MsgV::SendBlockchain(c) ==> {
        &&& r is None
        &&& post_peers == pre_peers
        &&& (c.len() > pre_ledger.chain@.len() && wf_chain(c) ==> blocks_view(post_ledger.chain@)
            == c)
        &&& (!(c.len() > pre_ledger.chain@.len() && wf_chain(c)) ==> post_ledger.chain@
            == pre_ledger.chain@)
        &&& post_ledger.mempool@ == pre_ledger.mempool@
        &&& post_ledger.balances@ == pre_ledger.balances@
        &&& post_ledger.difficulty == pre_ledger.difficulty
        &&& post_ledger.total_fees_collected == pre_ledger.total_fees_collected
    })
    &&& (msg is RequestPeers ==> {
        &&& post_ledger == pre_ledger
        &&& post_peers == pre_peers
        &&& (r matches Some(resp) && resp@ == MsgV::SendPeers(pre_peers))
    })
    &&& (msg matches MsgV::SendPeers(ps) ==> {
        &&& r is None
        &&& post_ledger == pre_ledger
        &&& post_peers == spec_add_peers(pre_peers, ps)
    })
    &&& (msg matches MsgV::NewTransaction(tx, pk) ==> {
        &&& r is None
        &&& post_peers == pre_peers
        &&& new_tx_dispatch(pre_ledger, post_ledger, tx, pk)
    })
    &&& (msg is MineNewBlock ==> {
        &&& r is None
        &&& post_peers == pre_peers
        &&& exists|outcome: MineOutcome|
            #[trigger] mine_spec(pre_ledger, post_ledger, outcome)
    })
}

/// What handling a new transaction does: a structurally valid one goes
/// through admission with some outcome; an invalid one changes nothing.
pub open spec fn new_tx_dispatch(
    pre_ledger: Ledger,
    post_ledger: Ledger,
    tx: TransactionV,
    pk: Seq<u8>,
) -> bool {
    &&& (tx_valid(tx) ==> exists|outcome: AdmitOutcome|
        #[trigger] admit_spec(pre_ledger, post_ledger, tx, pk, outcome))
    &&& (!tx_valid(tx) ==> post_ledger == pre_ledger)
}

proof fn lemma_dispatch_new_tx(
    pre_l: Ledger,
    post_l: Ledger,
    prs: Seq<crate::peers::PeerV>,
    tx: TransactionV,
    pk: Seq<u8>,
    outcome: AdmitOutcome,
)
    requires
        tx_valid(tx) ==> admit_spec(pre_l, post_l, tx, pk, outcome),
        !tx_valid(tx) ==> post_l == pre_l,
    ensures
        dispatch_spec(pre_l, post_l, prs, prs, MsgV::NewTransaction(tx, pk), None::<
            NetworkMessage,
        >),
{
    if tx_valid(tx) {
        assert(exists|o: AdmitOutcome| #[trigger] admit_spec(pre_l, post_l, tx, pk, o));
    }
}

/// Dispatch one decoded message: serve a chain or peer snapshot, adopt a
/// longer valid chain, admit a structurally valid transaction, store
/// gossiped peers, or mine. The response, if any, is what the session
/// writes back.
#[verifier::rlimit(100)]
#[verifier::spinoff_prover]
pub fn handle_message(
    ledger: &mut Ledger,
    peers: &mut PeerManager,
    msg: NetworkMessage,
) -> (r: Option<NetworkMessage>)
    requires
        old(ledger).wf(),
        old(peers).wf(),
    ensures
        final(ledger).wf(),
        final(peers).wf(),
        dispatch_spec(*old(ledger), *final(ledger), old(peers)@, final(peers)@, msg@, r),
{
    match msg {
        NetworkMessage::RequestBlockchain => {
            let snapshot = clone_blocks(&ledger.chain);
            Some(NetworkMessage::SendBlockchain(snapshot))
        },
        NetworkMessage::SendBlockchain(received) => {
            ledger.replace_chain(received);
            None
        },
        NetworkMessage::RequestPeers => {
            let snapshot = peers.get_all_peers();
            proof {
                assert(peers_view(snapshot@) =~= peers@);
            }
            Some(NetworkMessage::SendPeers(snapshot))
        },
        NetworkMessage::SendPeers(received) => {
            peers.store_peers(&received);
            None
        },
        NetworkMessage::NewTransaction(transaction, public_key) => {
            proof {
                assert(msg@ == MsgV::NewTransaction(transaction@, public_key@));
            }
            if transaction.is_valid() {
                let outcome = ledger.add_transaction(transaction, &public_key);
                proof {
                    lemma_dispatch_new_tx(
                        *old(ledger),
                        *ledger,
                        peers@,
                        transaction@,
                        public_key@,
                        outcome,
                    );
                }
                None
            } else {
                proof {
                    lemma_dispatch_new_tx(
                        *old(ledger),
                        *ledger,
                        peers@,
                        transaction@,
                        public_key@,
                        AdmitOutcome::Admitted,
                    );
                }
                None
            }
        },
        NetworkMessage::MineNewBlock => {
            let outcome = ledger.mine_block();
            proof {
                assert(mine_spec(*old(ledger), *ledger, outcome));
            }
            None
        },
    }
}

} // verus!
