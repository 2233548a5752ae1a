use vstd::prelude::*;
use crate::block::{blocks_view, Block, BlockV};
use crate::peers::{peers_view, Peer, PeerV};
use crate::transaction::{Transaction, TransactionV};

verus! {

/// One wire message. A new transaction travels with the sender's public
/// key, as hex text.
#[derive(Debug, PartialEq)]
pub enum NetworkMessage {
    RequestBlockchain,
    SendBlockchain(Vec<Block>),
    RequestPeers,
    SendPeers(Vec<Peer>),
    NewTransaction(Transaction, Vec<u8>),
    MineNewBlock,
}

/// The mathematical image of a wire message.
pub enum MsgV {
    RequestBlockchain,
    SendBlockchain(Seq<BlockV>),
    RequestPeers,
    SendPeers(Seq<PeerV>),
    NewTransaction(TransactionV, Seq<u8>),
    MineNewBlock,
}

impl View for NetworkMessage {
    type V = MsgV;

    open spec fn view(&self) -> MsgV {
        match self {
            NetworkMessage::RequestBlockchain => MsgV::RequestBlockchain,
            NetworkMessage::SendBlockchain(bs) => MsgV::SendBlockchain(blocks_view(bs@)),
            NetworkMessage::RequestPeers => MsgV::RequestPeers,
            NetworkMessage::SendPeers(ps) => MsgV::SendPeers(peers_view(ps@)),
            NetworkMessage::NewTransaction(t, pk) => MsgV::NewTransaction(t@, pk@),
            NetworkMessage::MineNewBlock => MsgV::MineNewBlock,
        }
    }
}

} // verus!
