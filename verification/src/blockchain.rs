use vstd::prelude::*;
use crate::balances::Balances;
use crate::block::{blocks_view, Block};
use crate::ledger::{
    admit_spec, is_genesis, mine_spec, valid_chain, wf_chain, AdmitOutcome, Ledger, MineOutcome,
};
use crate::transaction::{Transaction, TransactionV};
use crate::wallet::Wallet;

verus! {

/// The chain-facing face of the node: a thin shell around the ledger.
pub struct Blockchain {
    pub ledger: Ledger,
}

impl Blockchain {
    /// Open the node on hydrated state, as the ledger does.
    pub fn new(
        chain: Vec<Block>,
        mempool: Vec<Transaction>,
        balances: Balances,
        miner_wallet: Wallet,
    ) -> (r: Blockchain)
        ensures
            r.ledger.wf(),
            wf_chain(blocks_view(chain@)) ==> r.ledger.chain@ == chain@,
            !wf_chain(blocks_view(chain@)) ==> r.ledger.chain@.len() == 1 && is_genesis(
                blocks_view(r.ledger.chain@)[0],
            ),
            balances.wf() ==> r.ledger.balances@ == balances@,
            !balances.wf() ==> r.ledger.balances@.len() == 0,
            r.ledger.mempool@ == mempool@,
            r.ledger.difficulty == crate::block::GENESIS_DIFFICULTY,
            r.ledger.total_fees_collected == 0,
            r.ledger.miner_wallet == miner_wallet,
    {
        Blockchain { ledger: Ledger::new(chain, mempool, balances, miner_wallet) }
    }

    /// Build a transaction at the base fee and hand it to admission.
    pub fn add_transaction(
        &mut self,
        sender: Vec<u8>,
        recipient: Vec<u8>,
        amount: u64,
        signature: Vec<u8>,
        public_key: Vec<u8>,
    ) -> (r: AdmitOutcome)
        requires
            old(self).ledger.wf(),
        ensures
            final(self).ledger.wf(),
            admit_spec(
                old(self).ledger,
                final(self).ledger,
                TransactionV {
                    sender: sender@,
                    recipient: recipient@,
                    amount,
                    signature: signature@,
                    fee: crate::transaction::BASE_FEE,
                },
                public_key@,
                r,
            ),
    {
        let transaction = Transaction::new(sender, recipient, amount, signature);
        self.ledger.add_transaction(transaction, &public_key)
    }

    /// Mine one block, as the ledger does.
    pub fn mine_block(&mut self) -> (r: MineOutcome)
        requires
            old(self).ledger.wf(),
        ensures
            final(self).ledger.wf(),
            mine_spec(old(self).ledger, final(self).ledger, r),
    {
        self.ledger.mine_block()
    }

    /// Link and hash integrity of the held chain.
    pub fn is_valid(&self) -> (r: bool)
        ensures
            r == valid_chain(blocks_view(self.ledger.chain@)),
    {
        self.ledger.is_valid_chain()
    }
}

} // verus!
