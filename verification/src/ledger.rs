use vstd::prelude::*;
use vstd::multiset::Multiset;
use crate::balances::{lookup, total, Balances};
use crate::block::{
    block_hash_of, block_hash_ok, blocks_view, hash_input, leading_zeros_ok, meets_target, Block,
    BlockV, GENESIS_DIFFICULTY,
};
use crate::digest::sha256_hex_of;
use crate::bytes::{bytes_eq, copy_bytes};
use crate::lits::{lit_genesis_data, spec_lit_genesis_data};
use crate::numfmt::{dec_digits, parse_u64, spec_parse_u64};
use crate::transaction::{txs_view, Transaction, TransactionV};
use crate::wallet::Wallet;

verus! {

/// Seconds a block is aimed to take to mine.
pub const BLOCK_TARGET_TIME: u64 = 10;

/// How many trailing blocks the difficulty controller inspects.
pub const ADJUSTMENT_BLOCK_COUNT: usize = 5;

/// The mempool must hold at least this many transactions for a mine to run.
pub const MIN_TRANSACTIONS_FOR_BLOCK: usize = 2;

/// What mining one block earns, in hundredths of a coin (1 coin).
pub const BLOCK_REWARD: u64 = 100;

/// Links hold: each block names the hash of its predecessor.
pub open spec fn chain_linked(c: Seq<BlockV>) -> bool {
    forall|i: int| 1 <= i < c.len() ==> c[i].previous_hash == c[i - 1].hash
}

/// Hash integrity holds for every block after the genesis.
pub open spec fn chain_hashes_ok(c: Seq<BlockV>) -> bool {
    forall|i: int| 1 <= i < c.len() ==> block_hash_ok(#[trigger] c[i])
}

/// What chain validation checks: link integrity and hash integrity, from
/// the second block on.
pub open spec fn valid_chain(c: Seq<BlockV>) -> bool {
    chain_linked(c) && chain_hashes_ok(c)
}

/// Indices are the positions: `c[i].index == i`.
pub open spec fn chain_indexed(c: Seq<BlockV>) -> bool {
    forall|i: int| 0 <= i < c.len() ==> c[i].index == i
}

/// The shape every chain the ledger holds has: non-empty, indexed in
/// order, and valid.
pub open spec fn wf_chain(c: Seq<BlockV>) -> bool {
    c.len() >= 1 && chain_indexed(c) && valid_chain(c)
}

/// The number a block timestamp denotes; an unreadable timestamp counts
/// as 0.
pub open spec fn ts_seconds(ts: Seq<u8>) -> u64 {
    match spec_parse_u64(ts, 0) {
        Some((v, e)) => if e == ts.len() {
            v
        } else {
            0
        },
        None => 0,
    }
}

/// The seconds the last window of blocks actually spanned. Negative when
/// the timestamps run backwards.
pub open spec fn spec_actual_time(c: Seq<BlockV>) -> int {
    ts_seconds(c[c.len() - 1].timestamp) - ts_seconds(c[c.len() - ADJUSTMENT_BLOCK_COUNT].timestamp)
}

/// The difficulty controller's rule. A step up saturates at the type's
/// ceiling, a step down at 0; the band `[expected/2, expected*2]` leaves
/// the difficulty alone.
pub open spec fn spec_adjusted_difficulty(c: Seq<BlockV>, d: u32) -> u32 {
    if c.len() < ADJUSTMENT_BLOCK_COUNT {
        d
    } else {
        let expected = BLOCK_TARGET_TIME * ADJUSTMENT_BLOCK_COUNT;
        let actual = spec_actual_time(c);
        if actual < expected / 2 {
            if d < u32::MAX {
                (d + 1) as u32
            } else {
                d
            }
        } else if actual > expected * 2 {
            if d > 0 {
                (d - 1) as u32
            } else {
                0
            }
        } else {
            d
        }
    }
}

/// The sum of the fees of a transaction list.
pub open spec fn sum_fees(ts: Seq<TransactionV>) -> int
    decreases ts.len(),
{
    if ts.len() == 0 {
        0
    } else {
        ts[0].fee + sum_fees(ts.drop_first())
    }
}

/// Fees never increase along the list.
pub open spec fn fee_sorted_desc(ts: Seq<TransactionV>) -> bool {
    forall|i: int, j: int| 0 <= i < j < ts.len() ==> ts[i].fee >= ts[j].fee
}

/// The genesis block's fixed shape; its hash is computed but owes nothing
/// to the difficulty target.
pub open spec fn is_genesis(b: BlockV) -> bool {
    &&& b.index == 0
    &&& b.previous_hash == seq![48u8]
    &&& b.data == spec_lit_genesis_data()
    &&& b.nonce == 0
    &&& b.difficulty == GENESIS_DIFFICULTY
    &&& block_hash_ok(b)
}

proof fn lemma_sum_fees_snoc(ts: Seq<TransactionV>, x: TransactionV)
    ensures
        sum_fees(ts.push(x)) == sum_fees(ts) + x.fee,
    decreases ts.len(),
{
    if ts.len() == 0 {
        assert(ts.push(x)[0] == x);
        assert(ts.push(x).drop_first() =~= Seq::<TransactionV>::empty());
        assert(sum_fees(Seq::<TransactionV>::empty()) == 0);
    } else {
        assert(ts.push(x)[0] == ts[0]);
        assert(ts.push(x).drop_first() =~= ts.drop_first().push(x));
        lemma_sum_fees_snoc(ts.drop_first(), x);
    }
}

proof fn lemma_sum_fees_nonneg(ts: Seq<TransactionV>)
    ensures
        sum_fees(ts) >= 0,
    decreases ts.len(),
{
    if ts.len() > 0 {
        lemma_sum_fees_nonneg(ts.drop_first());
    }
}

proof fn lemma_sum_fees_skip_nonneg(ts: Seq<TransactionV>, i: int)
    requires
        0 <= i <= ts.len(),
    ensures
        sum_fees(ts) >= sum_fees(ts.take(i)),
    decreases ts.len() - i,
{
    if i < ts.len() {
        lemma_sum_fees_snoc(ts.take(i), ts[i]);
        assert(ts.take(i + 1) =~= ts.take(i).push(ts[i]));
        lemma_sum_fees_skip_nonneg(ts, i + 1);
    } else {
        assert(ts.take(i) =~= ts);
    }
}

proof fn lemma_sum_fees_remove(s: Seq<TransactionV>, i: int)
    requires
        0 <= i < s.len(),
    ensures
        sum_fees(s) == s[i].fee + sum_fees(s.remove(i)),
    decreases i,
{
    if i == 0 {
        assert(s.remove(0) =~= s.drop_first());
    } else {
        assert(s.remove(i)[0] == s[0]);
        assert(s.remove(i).drop_first() =~= s.drop_first().remove(i - 1));
        lemma_sum_fees_remove(s.drop_first(), i - 1);
        assert(s.drop_first()[i - 1] == s[i]);
    }
}

/// The fee sum is a function of the multiset alone: reordering the
/// mempool does not change it.
proof fn lemma_sum_fees_permutation(a: Seq<TransactionV>, b: Seq<TransactionV>)
    requires
        a.to_multiset() == b.to_multiset(),
    ensures
        sum_fees(a) == sum_fees(b),
    decreases a.len(),
{
    broadcast use vstd::seq_lib::group_to_multiset_ensures;

    if a.len() == 0 {
        assert(a.to_multiset().len() == a.len());
        assert(b.to_multiset().len() == b.len());
        assert(b.len() == 0);
    } else {
        let x = a[0];
        assert(a.contains(x));
        assert(b.to_multiset().count(x) > 0);
        assert(b.contains(x));
        let i = choose|i: int| 0 <= i < b.len() && b[i] == x;
        lemma_sum_fees_remove(b, i);
        assert(a.drop_first() =~= a.remove(0));
        assert(a.remove(0).to_multiset() =~= a.to_multiset().remove(x));
        assert(b.remove(i).to_multiset() =~= b.to_multiset().remove(x));
        lemma_sum_fees_permutation(a.drop_first(), b.remove(i));
    }
}

/// Why a transaction was turned away, or that it was admitted.
#[derive(Clone, Copy, Debug, PartialEq, Eq, Structural)]
pub enum AdmitOutcome {
    Admitted,
    InsufficientFunds,
    InvalidSignature,
    RecipientOverflow,
}

/// What a mining call did.
#[derive(Clone, Copy, Debug, PartialEq, Eq, Structural)]
pub enum MineOutcome {
    Mined,
    NotEnoughTransactions,
    FeeOverflow,
    RewardOverflow,
    NonceExhausted,
}

/// The ledger: the chain, the mempool, per-address balances, the
/// difficulty in force, the fee counter and the local mining identity.
pub struct Ledger {
    pub chain: Vec<Block>,
    pub mempool: Vec<Transaction>,
    pub balances: Balances,
    pub difficulty: u32,
    pub total_fees_collected: u64,
    pub miner_wallet: Wallet,
}

/// What one admission call does, for outcome `r`: which outcome comes on
/// which inputs, and how the balances and the mempool move when the
/// transaction is admitted.
pub open spec fn admit_spec(
    pre: Ledger,
    post: Ledger,
    tx: TransactionV,
    pk: Seq<u8>,
    r: AdmitOutcome,
) -> bool {
    let bal = lookup(pre.balances@, tx.sender);
    let insufficient = bal < tx.amount + tx.fee;
    let sig_ok = crate::crypto::ecdsa_verifies(pk, crate::transaction::tx_hash_of(tx), tx.signature);
    let recipient_over = tx.recipient != tx.sender && lookup(pre.balances@, tx.recipient)
        + tx.amount > u64::MAX;
    &&& (r is InsufficientFunds <==> insufficient)
    &&& (r is InvalidSignature <==> !insufficient && !sig_ok)
    &&& (r is RecipientOverflow <==> !insufficient && sig_ok && recipient_over)
    &&& (r is Admitted <==> !insufficient && sig_ok && !recipient_over)
    &&& (r is Admitted ==> {
        &&& post.mempool@.len() == pre.mempool@.len() + 1
        &&& txs_view(post.mempool@) == txs_view(pre.mempool@).push(tx)
        &&& lookup(post.balances@, tx.sender) == if tx.recipient == tx.sender {
            bal - tx.fee
        } else {
            bal - tx.amount - tx.fee
        }
        &&& (tx.recipient != tx.sender ==> lookup(post.balances@, tx.recipient) == lookup(
            pre.balances@,
            tx.recipient,
        ) + tx.amount)
        &&& (forall|k: Seq<u8>|
            k != tx.sender && k != tx.recipient ==> lookup(post.balances@, k) == lookup(
                pre.balances@,
                k,
            ))
        &&& total(post.balances@) == total(pre.balances@) - tx.fee
    })
    &&& (!(r is Admitted) ==> post.mempool@ == pre.mempool@ && post.balances@ == pre.balances@)
    &&& post.chain@ == pre.chain@
    &&& post.difficulty == pre.difficulty
    &&& post.total_fees_collected == pre.total_fees_collected
    &&& post.miner_wallet == pre.miner_wallet
}

/// What one successful mine does, tied to the fee-sorted selection `sel`
/// that filled the block: the chain grows by one block over `sel`, the
/// miner is credited with the reward plus `sel`'s fees, and the counters
/// move by exactly those fees.
pub open spec fn mined_block_with(pre: Ledger, post: Ledger, sel: Seq<TransactionV>) -> bool {
    let oldc = blocks_view(pre.chain@);
    let newc = blocks_view(post.chain@);
    let b = newc.last();
    &&& newc.len() == oldc.len() + 1
    &&& newc.subrange(0, oldc.len() as int) == oldc
    &&& b.index == oldc.last().index + 1
    &&& b.previous_hash == oldc.last().hash
    &&& b.difficulty == pre.difficulty
    &&& block_hash_ok(b)
    &&& meets_target(b)
    &&& sel.to_multiset() == txs_view(pre.mempool@).to_multiset()
    &&& fee_sorted_desc(sel)
    &&& b.data == crate::codec::spec_encode_tx_list(sel)
    &&& 0 <= sum_fees(sel) <= u64::MAX
    &&& post.total_fees_collected == pre.total_fees_collected + sum_fees(sel)
    &&& lookup(post.balances@, pre.miner_wallet.address@) == lookup(
        pre.balances@,
        pre.miner_wallet.address@,
    ) + BLOCK_REWARD + sum_fees(sel)
    &&& total(post.balances@) == total(pre.balances@) + BLOCK_REWARD + sum_fees(sel)
    &&& forall|k: Seq<u8>|
        k != pre.miner_wallet.address@ ==> lookup(post.balances@, k) == lookup(pre.balances@, k)
    &&& post.mempool@.len() == 0
    &&& post.difficulty == spec_adjusted_difficulty(newc, pre.difficulty)
}

/// The hash at this block shape and nonce misses the difficulty target.
pub open spec fn nonce_fails(
    index: u64,
    timestamp: Seq<u8>,
    previous_hash: Seq<u8>,
    data: Seq<u8>,
    difficulty: u32,
    nonce: u64,
) -> bool {
    !leading_zeros_ok(
        sha256_hex_of(hash_input(index, timestamp, previous_hash, data, nonce)),
        difficulty,
    )
}

/// Every nonce misses the target for this block shape: the fact an
/// exhausted proof-of-work search establishes.
pub open spec fn all_nonces_fail(
    index: u64,
    timestamp: Seq<u8>,
    previous_hash: Seq<u8>,
    data: Seq<u8>,
    difficulty: u32,
) -> bool {
    forall|n: u64| #[trigger] nonce_fails(index, timestamp, previous_hash, data, difficulty, n)
}

/// What an exhausted search leaves behind: for the block the mine would
/// have appended — the next index, some drawn timestamp, the tip's hash,
/// the fee-sorted mempool as data — every nonce misses the target. Only a
/// search over the whole nonce space can establish this of the named
/// digest.
pub open spec fn mining_came_up_empty(pre: Ledger, post: Ledger) -> bool {
    exists|t: u64|
        #[trigger] all_nonces_fail(
            (blocks_view(pre.chain@).last().index + 1) as u64,
            dec_digits(t as nat),
            blocks_view(pre.chain@).last().hash,
            crate::codec::spec_encode_tx_list(txs_view(post.mempool@)),
            pre.difficulty,
        )
}

/// The refusals a mine owes its caller, decided by the pre-state alone:
/// too small a mempool; a fee sum that leaves u64; a reward that would
/// overflow the fee sum, the miner's balance or the fee counter.
pub open spec fn mine_fee_overflow(pre: Ledger) -> bool {
    sum_fees(txs_view(pre.mempool@)) > u64::MAX
}

pub open spec fn mine_reward_overflow(pre: Ledger) -> bool {
    let fees = sum_fees(txs_view(pre.mempool@));
    ||| fees + BLOCK_REWARD > u64::MAX
    ||| lookup(pre.balances@, pre.miner_wallet.address@) + BLOCK_REWARD + fees > u64::MAX
    ||| pre.total_fees_collected + fees > u64::MAX
}

/// What one mining call does, for outcome `r`. Each refusal comes if and
/// only if its condition holds of the pre-state; success and an exhausted
/// nonce search split the remaining case between them (which of the two
/// comes depends on the drawn timestamp and the digest), except that at
/// difficulty 0 the very first hash meets the target, so the mine is
/// owed. A refusal leaves the chain, balances, difficulty and fee counter
/// in place; only a refusal after selection may have reordered the
/// mempool.
pub open spec fn mine_spec(pre: Ledger, post: Ledger, r: MineOutcome) -> bool {
    let enough = pre.mempool@.len() >= MIN_TRANSACTIONS_FOR_BLOCK;
    &&& (r is NotEnoughTransactions <==> !enough)
    &&& (r is FeeOverflow <==> enough && mine_fee_overflow(pre))
    &&& (r is RewardOverflow <==> enough && !mine_fee_overflow(pre) && mine_reward_overflow(pre))
    &&& ((r is Mined || r is NonceExhausted) <==> enough && !mine_fee_overflow(pre)
        && !mine_reward_overflow(pre))
    &&& (pre.difficulty == 0 && enough && !mine_fee_overflow(pre) && !mine_reward_overflow(pre)
        ==> r is Mined)
    &&& (r is NonceExhausted ==> mining_came_up_empty(pre, post))
    &&& (r is NotEnoughTransactions ==> post.chain@ == pre.chain@ && post.mempool@
        == pre.mempool@)
    &&& (!(r is Mined) ==> post.chain@ == pre.chain@ && post.balances@ == pre.balances@
        && post.difficulty == pre.difficulty && post.total_fees_collected
        == pre.total_fees_collected)
    &&& (!(r is Mined) ==> txs_view(post.mempool@).to_multiset() == txs_view(
        pre.mempool@,
    ).to_multiset() && post.mempool@.len() == pre.mempool@.len())
    &&& (r is Mined ==> exists|sel: Seq<TransactionV>| #[trigger] mined_block_with(pre, post, sel))
    &&& post.miner_wallet == pre.miner_wallet
}

/// Reorder the mempool so fees never increase along it; the multiset of
/// transactions is kept.
fn sort_mempool_desc(v: &mut Vec<Transaction>)
    ensures
        txs_view(final(v)@).to_multiset() == txs_view(old(v)@).to_multiset(),
        fee_sorted_desc(txs_view(final(v)@)),
        final(v)@.len() == old(v)@.len(),
{
    let mut out: Vec<Transaction> = Vec::new();
    proof {
        broadcast use vstd::seq_lib::group_to_multiset_ensures;

        assert(txs_view(out@).to_multiset() =~= Multiset::<TransactionV>::empty());
        assert(txs_view(out@).to_multiset().add(txs_view(v@).to_multiset()) =~= txs_view(
            v@,
        ).to_multiset());
    }
    while v.len() > 0
        invariant
            txs_view(out@).to_multiset().add(txs_view(v@).to_multiset()) == txs_view(
                old(v)@,
            ).to_multiset(),
            fee_sorted_desc(txs_view(out@)),
            forall|i: int, j: int|
                0 <= i < out@.len() && 0 <= j < v@.len() ==> txs_view(out@)[i].fee >= txs_view(
                    v@,
                )[j].fee,
            out@.len() + v@.len() == old(v)@.len(),
        decreases v@.len(),
    {
        let mut m: usize = 0;
        let mut k: usize = 1;
        while k < v.len()
            invariant
                m < k <= v@.len() || (k <= v@.len() && m == 0),
                m < v@.len(),
                forall|j: int| 0 <= j < k ==> txs_view(v@)[j].fee <= txs_view(v@)[m as int].fee,
            decreases v@.len() - k,
        {
            proof {
                assert(txs_view(v@)[k as int] == v@[k as int]@);
                assert(txs_view(v@)[m as int] == v@[m as int]@);
            }
            if v[k].fee > v[m].fee {
                m = k;
            }
            k += 1;
        }
        let ghost tv = txs_view(v@);
        let ghost ov = txs_view(out@);
        let x = v.remove(m);
        out.push(x);
        proof {
            broadcast use vstd::seq_lib::group_to_multiset_ensures;

            assert(txs_view(v@) =~= tv.remove(m as int));
            assert(txs_view(out@) =~= ov.push(x@));
            assert(x@ == tv[m as int]);
            assert(tv.remove(m as int).to_multiset() =~= tv.to_multiset().remove(tv[m as int]));
            assert(ov.push(x@).to_multiset() =~= ov.to_multiset().insert(x@));
            assert(tv.to_multiset().contains(tv[m as int]));
            assert(ov.to_multiset().insert(x@).add(tv.to_multiset().remove(x@)) =~= ov.to_multiset(
            ).add(tv.to_multiset()));
            assert(forall|j: int|
                0 <= j < txs_view(v@).len() ==> txs_view(v@)[j] == if j < m {
                    tv[j]
                } else {
                    tv[j + 1]
                });
        }
    }
    proof {
        assert(txs_view(v@).to_multiset() =~= Multiset::<TransactionV>::empty());
        assert(txs_view(out@).to_multiset().add(Multiset::<TransactionV>::empty())
            =~= txs_view(out@).to_multiset());
    }
    *v = out;
}

/// The fees the whole mempool would pay, refused when the sum leaves u64.
fn total_fees_of(v: &Vec<Transaction>) -> (r: Option<u64>)
    ensures
        match r {
            Some(f) => f == sum_fees(txs_view(v@)),
            None => sum_fees(txs_view(v@)) > u64::MAX,
        },
{
    let ghost tv = txs_view(v@);
    let mut acc: u64 = 0;
    let mut i: usize = 0;
    while i < v.len()
        invariant
            i <= v@.len(),
            tv == txs_view(v@),
            acc == sum_fees(tv.take(i as int)),
        decreases v@.len() - i,
    {
        proof {
            lemma_sum_fees_snoc(tv.take(i as int), tv[i as int]);
            assert(tv.take(i as int + 1) =~= tv.take(i as int).push(tv[i as int]));
            assert(tv[i as int] == v@[i as int]@);
        }
        if v[i].fee > u64::MAX - acc {
            proof {
                lemma_sum_fees_skip_nonneg(tv, i as int + 1);
            }
            return None;
        }
        acc = acc + v[i].fee;
        i += 1;
    }
    proof {
        assert(tv.take(tv.len() as int) =~= tv);
    }
    Some(acc)
}

/// Links and hash integrity of a block vector, as validation checks them.
fn chain_links_ok(chain: &Vec<Block>) -> (r: bool)
    ensures
        r == valid_chain(blocks_view(chain@)),
{
    let ghost c = blocks_view(chain@);
    let mut i: usize = 1;
    while i < chain.len()
        invariant
            1 <= i,
            i <= chain@.len() || chain@.len() == 0,
            c == blocks_view(chain@),
            forall|j: int| 1 <= j < i ==> c[j].previous_hash == c[j - 1].hash,
            forall|j: int| 1 <= j < i ==> block_hash_ok(#[trigger] c[j]),
        decreases chain@.len() - i,
    {
        proof {
            assert(c[i as int] == chain@[i as int]@);
            assert(c[i as int - 1] == chain@[i as int - 1]@);
        }
        if !bytes_eq(&chain[i].previous_hash, &chain[i - 1].hash) {
            proof {
                assert(c[i as int].previous_hash != c[i as int - 1].hash);
                assert(!chain_linked(c));
            }
            return false;
        }
        let recomputed = Block::calculate_hash(
            chain[i].index,
            &chain[i].timestamp,
            &chain[i].previous_hash,
            &chain[i].data,
            chain[i].nonce,
        );
        proof {
            assert(recomputed@ == block_hash_of(c[i as int]));
        }
        if !bytes_eq(&chain[i].hash, &recomputed) {
            proof {
                assert(!block_hash_ok(c[i as int]));
                assert(!chain_hashes_ok(c));
            }
            return false;
        }
        i += 1;
    }
    true
}

/// Non-empty, indexed in order, and valid: what hydration and replacement
/// accept.
fn check_chain(chain: &Vec<Block>) -> (r: bool)
    ensures
        r == wf_chain(blocks_view(chain@)),
{
    if chain.len() == 0 {
        return false;
    }
    let ghost c = blocks_view(chain@);
    let mut i: usize = 0;
    while i < chain.len()
        invariant
            i <= chain@.len(),
            c == blocks_view(chain@),
            forall|j: int| 0 <= j < i ==> c[j].index == j,
        decreases chain@.len() - i,
    {
        proof {
            assert(c[i as int] == chain@[i as int]@);
        }
        if chain[i].index != i as u64 {
            proof {
                assert(c[i as int].index != i);
                assert(!chain_indexed(c));
            }
            return false;
        }
        i += 1;
    }
    chain_links_ok(chain)
}

impl Ledger {
    /// Every state the ledger passes through keeps this.
    pub open spec fn wf(&self) -> bool {
        wf_chain(blocks_view(self.chain@)) && self.balances.wf()
    }

    /// Open the ledger on hydrated state. A chain that is empty or fails
    /// validation is replaced by a fresh genesis chain; a balance table
    /// with a repeated address is replaced by an empty one; the mempool is
    /// taken as stored. Difficulty starts at the genesis difficulty and
    /// the fee counter at 0, as a restarted node counts fees anew.
    pub fn new(
        chain: Vec<Block>,
        mempool: Vec<Transaction>,
        balances: Balances,
        miner_wallet: Wallet,
    ) -> (r: Ledger)
        ensures
            r.wf(),
            wf_chain(blocks_view(chain@)) ==> r.chain@ == chain@,
            !wf_chain(blocks_view(chain@)) ==> r.chain@.len() == 1 && is_genesis(
                blocks_view(r.chain@)[0],
            ),
            balances.wf() ==> r.balances@ == balances@,
            !balances.wf() ==> r.balances@.len() == 0,
            r.mempool@ == mempool@,
            r.difficulty == GENESIS_DIFFICULTY,
            r.total_fees_collected == 0,
            r.miner_wallet == miner_wallet,
    {
        let chain = if check_chain(&chain) {
            chain
        } else {
            let mut prev: Vec<u8> = Vec::new();
            prev.push(48);
            let genesis = Block::new(0, prev, lit_genesis_data(), GENESIS_DIFFICULTY);
            let mut fresh: Vec<Block> = Vec::new();
            fresh.push(genesis);
            proof {
                assert(blocks_view(fresh@).len() == 1);
                assert(blocks_view(fresh@)[0] == genesis@);
                assert(genesis@.previous_hash =~= seq![48u8]);
            }
            fresh
        };
        let balances = if balances.is_wf() {
            balances
        } else {
            Balances::new()
        };
        Ledger {
            chain,
            mempool,
            balances,
            difficulty: GENESIS_DIFFICULTY,
            total_fees_collected: 0,
            miner_wallet,
        }
    }

    /// Link integrity and hash integrity of the held chain, from the
    /// second block on; a chain of one block validates.
    pub fn is_valid_chain(&self) -> (r: bool)
        ensures
            r == valid_chain(blocks_view(self.chain@)),
    {
        chain_links_ok(&self.chain)
    }

    /// Adopt a received chain exactly when it is strictly longer than the
    /// held one and is itself a well-formed chain. Says whether it was
    /// adopted.
    pub fn replace_chain(&mut self, received: Vec<Block>) -> (r: bool)
        requires
            old(self).wf(),
        ensures
            final(self).wf(),
            r == (received@.len() > old(self).chain@.len() && wf_chain(blocks_view(received@))),
            r ==> final(self).chain@ == received@,
            !r ==> final(self).chain@ == old(self).chain@,
            final(self).mempool@ == old(self).mempool@,
            final(self).balances@ == old(self).balances@,
            final(self).difficulty == old(self).difficulty,
            final(self).total_fees_collected == old(self).total_fees_collected,
    {
        if received.len() > self.chain.len() && check_chain(&received) {
            self.chain = received;
            true
        } else {
            false
        }
    }

    /// Run the difficulty controller over the trailing window: mining
    /// faster than half the expected time steps the difficulty up, slower
    /// than twice the expected time steps it down, saturating at 0.
    pub fn adjust_difficulty(&mut self)
        ensures
            final(self).difficulty == spec_adjusted_difficulty(
                blocks_view(old(self).chain@),
                old(self).difficulty,
            ),
            final(self).chain@ == old(self).chain@,
            final(self).mempool@ == old(self).mempool@,
            final(self).balances@ == old(self).balances@,
            final(self).total_fees_collected == old(self).total_fees_collected,
            final(self).miner_wallet == old(self).miner_wallet,
    {
        let n = self.chain.len();
        if n < ADJUSTMENT_BLOCK_COUNT {
            return ;
        }
        let first_secs = Self::timestamp_seconds(&self.chain[n - ADJUSTMENT_BLOCK_COUNT].timestamp);
        let last_secs = Self::timestamp_seconds(&self.chain[n - 1].timestamp);
        let expected = BLOCK_TARGET_TIME * (ADJUSTMENT_BLOCK_COUNT as u64);
        proof {
            assert(blocks_view(self.chain@)[n - 1].timestamp == self.chain@[n - 1]@.timestamp);
        }
        if last_secs < first_secs || last_secs - first_secs < expected / 2 {
            if self.difficulty < u32::MAX {
                self.difficulty = self.difficulty + 1;
            }
        } else if last_secs - first_secs > expected * 2 {
            if self.difficulty > 0 {
                self.difficulty = self.difficulty - 1;
            }
        }
    }

    /// Admission control, in order: the sender's balance must cover
    /// amount plus fee; the signature must verify over the canonical hash
    /// under the given public key; the recipient's new balance must fit.
    /// An admitted transaction debits the sender by amount plus fee,
    /// credits the recipient by the amount, and joins the mempool, so the
    /// sum of all balances falls by exactly the fee. A rejection changes
    /// nothing and is reported, never raised.
    pub fn add_transaction(
        &mut self,
        transaction: Transaction,
        sender_public_key: &Vec<u8>,
    ) -> (r: AdmitOutcome)
        requires
            old(self).wf(),
        ensures
            final(self).wf(),
            admit_spec(*old(self), *final(self), transaction@, sender_public_key@, r),
    {
        let sender_balance = self.balances.get(&transaction.sender);
        if transaction.amount > u64::MAX - transaction.fee {
            return AdmitOutcome::InsufficientFunds;
        }
        let total_cost = transaction.amount + transaction.fee;
        if sender_balance < total_cost {
            return AdmitOutcome::InsufficientFunds;
        }
        let tx_hash = transaction.hash();
        if !crate::crypto::SignatureHandler::verify_signature(
            sender_public_key,
            &tx_hash,
            &transaction.signature,
        ) {
            return AdmitOutcome::InvalidSignature;
        }
        let same = bytes_eq(&transaction.recipient, &transaction.sender);
        if !same {
            let recipient_balance = self.balances.get(&transaction.recipient);
            if transaction.amount > u64::MAX - recipient_balance {
                return AdmitOutcome::RecipientOverflow;
            }
        }
        self.balances.debit(&transaction.sender, total_cost);
        let credited = self.balances.credit(&transaction.recipient, transaction.amount);
        proof {
            assert(credited);
        }
        proof {
            let ghost t = transaction@;
            assert(txs_view(self.mempool@.push(transaction)) =~= txs_view(self.mempool@).push(t));
        }
        self.mempool.push(transaction);
        AdmitOutcome::Admitted
    }

    /// Mine one block, when at least two transactions wait: sort the
    /// mempool by descending fee, take it whole, search a nonce whose hash
    /// meets the difficulty, credit the miner with the reward plus the
    /// fees, append the block, clear the mempool and run the difficulty
    /// controller. A refusal leaves everything in place, except that a
    /// refusal after selection leaves the mempool sorted (a permutation of
    /// what it held).
    #[verifier::rlimit(100)]
    #[verifier::spinoff_prover]
    pub fn mine_block(&mut self) -> (r: MineOutcome)
        requires
            old(self).wf(),
        ensures
            final(self).wf(),
            mine_spec(*old(self), *final(self), r),
    {
        if self.mempool.len() < MIN_TRANSACTIONS_FOR_BLOCK {
            return MineOutcome::NotEnoughTransactions;
        }
        sort_mempool_desc(&mut self.mempool);
        let ghost sel = txs_view(self.mempool@);
        proof {
            lemma_sum_fees_permutation(txs_view(old(self).mempool@), sel);
        }
        let total_fees = match total_fees_of(&self.mempool) {
            Some(f) => f,
            None => {
                return MineOutcome::FeeOverflow;
            },
        };
        if total_fees > u64::MAX - BLOCK_REWARD {
            return MineOutcome::RewardOverflow;
        }
        let reward = BLOCK_REWARD + total_fees;
        let miner_address = copy_bytes(&self.miner_wallet.address);
        let miner_balance = self.balances.get(&miner_address);
        if miner_balance > u64::MAX - reward {
            return MineOutcome::RewardOverflow;
        }
        if self.total_fees_collected > u64::MAX - total_fees {
            return MineOutcome::RewardOverflow;
        }
        let data = crate::codec::encode_txs(&self.mempool);
        let tip = self.chain.len() - 1;
        proof {
            assert(blocks_view(self.chain@)[tip as int] == self.chain@[tip as int]@);
            assert(self.chain@[tip as int]@.index == tip);
        }
        let tip_index = self.chain[tip].index;
        let tip_hash = copy_bytes(&self.chain[tip].hash);
        let difficulty = self.difficulty;
        let mut block = Block::new(tip_index + 1, tip_hash, data, difficulty);
        let mut found = Block::hash_meets_target(&block.hash, difficulty);
        while !found && block.nonce < u64::MAX
            invariant
                block.index == tip_index + 1,
                tip_index + 1 <= u64::MAX,
                exists|t: u64| block@.timestamp == dec_digits(t as nat),
                block@.previous_hash == blocks_view(self.chain@)[self.chain@.len() - 1].hash,
                block@.data == crate::codec::spec_encode_tx_list(sel),
                block.difficulty == difficulty,
                block_hash_ok(block@),
                found == leading_zeros_ok(block@.hash, difficulty),
                forall|n: u64|
                    n < block.nonce ==> #[trigger] nonce_fails(
                        block.index,
                        block@.timestamp,
                        block@.previous_hash,
                        block@.data,
                        difficulty,
                        n,
                    ),
            decreases u64::MAX - block.nonce,
        {
            proof {
                assert(nonce_fails(
                    block.index,
                    block@.timestamp,
                    block@.previous_hash,
                    block@.data,
                    difficulty,
                    block.nonce,
                ));
            }
            block.nonce = block.nonce + 1;
            block.hash = Block::calculate_hash(
                block.index,
                &block.timestamp,
                &block.previous_hash,
                &block.data,
                block.nonce,
            );
            found = Block::hash_meets_target(&block.hash, difficulty);
        }
        if !found {
            proof {
                if difficulty == 0 {
                    assert(leading_zeros_ok(block@.hash, 0));
                }
                assert(block.nonce == u64::MAX);
                assert(nonce_fails(
                    block.index,
                    block@.timestamp,
                    block@.previous_hash,
                    block@.data,
                    difficulty,
                    u64::MAX,
                ));
                let t = choose|t: u64| block@.timestamp == dec_digits(t as nat);
                assert(all_nonces_fail(
                    block.index,
                    dec_digits(t as nat),
                    block@.previous_hash,
                    block@.data,
                    difficulty,
                )) by {
                    assert(forall|n: u64| #[trigger] nonce_fails(
                        block.index,
                        block@.timestamp,
                        block@.previous_hash,
                        block@.data,
                        difficulty,
                        n,
                    ));
                }
                assert(block.index == (blocks_view(old(self).chain@).last().index + 1) as u64);
                assert(block@.previous_hash == blocks_view(old(self).chain@).last().hash);
                assert(mining_came_up_empty(*old(self), *self));
            }
            return MineOutcome::NonceExhausted;
        }
        let credited = self.balances.credit(&miner_address, reward);
        proof {
            assert(credited);
        }
        self.total_fees_collected = self.total_fees_collected + total_fees;
        self.chain.push(block);
        self.mempool = Vec::new();
        proof {
            let newc = blocks_view(self.chain@);
            let oldc = blocks_view(old(self).chain@);
            assert(newc =~= oldc.push(block@));
            assert(newc.subrange(0, oldc.len() as int) =~= oldc);
            assert(forall|i: int| 0 <= i < newc.len() ==> newc[i].index == i);
            assert(forall|i: int| 1 <= i < newc.len() ==> newc[i].previous_hash == newc[i
                - 1].hash);
            assert(forall|i: int| 1 <= i < newc.len() ==> block_hash_ok(#[trigger] newc[i]));
        }
        self.adjust_difficulty();
        proof {
            assert(mined_block_with(*old(self), *self, sel));
        }
        MineOutcome::Mined
    }

    /// The seconds a block timestamp denotes; an unreadable one counts
    /// as 0.
    fn timestamp_seconds(ts: &Vec<u8>) -> (r: u64)
        ensures
            r == ts_seconds(ts@),
    {
        match parse_u64(ts, 0) {
            Some((v, e)) => if e == ts.len() {
                v
            } else {
                0
            },
            None => 0,
        }
    }
}

/// Every block a mine appends carries its own recomputed hash, and that
/// hash begins with as many ASCII zeros as the difficulty it was mined
/// at demanded.
pub proof fn lemma_mined_block_meets_target(pre: Ledger, post: Ledger, sel: Seq<TransactionV>)
    requires
        mined_block_with(pre, post, sel),
    ensures
        block_hash_ok(blocks_view(post.chain@).last()),
        leading_zeros_ok(blocks_view(post.chain@).last().hash, pre.difficulty),
{
}

/// In every chain the ledger holds, each block after the first names the
/// hash of its predecessor and sits at the index equal to its position.
pub proof fn lemma_chain_structure(l: Ledger)
    requires
        l.wf(),
    ensures
        forall|i: int|
            1 <= i < l.chain@.len() ==> blocks_view(l.chain@)[i].previous_hash == blocks_view(
                l.chain@,
            )[i - 1].hash,
        forall|i: int| 0 <= i < l.chain@.len() ==> blocks_view(l.chain@)[i].index == i,
{
}

/// Conservation on admission: the sum of all balances falls by exactly
/// the admitted transaction's fee, and is untouched by a rejection.
pub proof fn lemma_admission_conserves(
    pre: Ledger,
    post: Ledger,
    tx: TransactionV,
    pk: Seq<u8>,
    r: AdmitOutcome,
)
    requires
        admit_spec(pre, post, tx, pk, r),
    ensures
        r is Admitted ==> total(post.balances@) == total(pre.balances@) - tx.fee,
        !(r is Admitted) ==> total(post.balances@) == total(pre.balances@),
{
}

/// Conservation on mining: the sum of all balances grows by exactly the
/// block reward plus the fees of the included transactions.
pub proof fn lemma_mining_conserves(pre: Ledger, post: Ledger, sel: Seq<TransactionV>)
    requires
        mined_block_with(pre, post, sel),
    ensures
        total(post.balances@) == total(pre.balances@) + BLOCK_REWARD + sum_fees(sel),
        post.total_fees_collected == pre.total_fees_collected + sum_fees(sel),
{
}

/// Difficulty monotonicity: a window mined in under half the expected
/// time steps the difficulty up by exactly 1; one mined in over twice
/// the expected time steps it down by exactly 1, stopping at 0.
pub proof fn lemma_difficulty_monotonic(c: Seq<BlockV>, d: u32)
    requires
        c.len() >= ADJUSTMENT_BLOCK_COUNT,
    ensures
        spec_actual_time(c) < BLOCK_TARGET_TIME * ADJUSTMENT_BLOCK_COUNT / 2 && d < u32::MAX
            ==> spec_adjusted_difficulty(c, d) == d + 1,
        spec_actual_time(c) > BLOCK_TARGET_TIME * ADJUSTMENT_BLOCK_COUNT * 2 && d > 0
            ==> spec_adjusted_difficulty(c, d) == d - 1,
        spec_actual_time(c) > BLOCK_TARGET_TIME * ADJUSTMENT_BLOCK_COUNT * 2 && d == 0
            ==> spec_adjusted_difficulty(c, d) == 0,
{
}

} // verus!
