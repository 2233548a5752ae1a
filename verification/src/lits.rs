use vstd::prelude::*;

verus! {

/// The bytes of `{\"index\":`.
pub open spec fn spec_lit_block_index() -> Seq<u8> {
    seq![123u8, 34u8, 105u8, 110u8, 100u8, 101u8, 120u8, 34u8, 58u8]
}

pub fn lit_block_index() -> (r: Vec<u8>)
    ensures
        r@ == spec_lit_block_index(),
{
    let mut v: Vec<u8> = Vec::new();
    v.push(123);
    v.push(34);
    v.push(105);
    v.push(110);
    v.push(100);
    v.push(101);
    v.push(120);
    v.push(34);
    v.push(58);
    proof {
        assert(v@ =~= spec_lit_block_index());
    }
    v
}

/// The bytes of `,\"timestamp\":`.
pub open spec fn spec_lit_block_timestamp() -> Seq<u8> {
    seq![44u8, 34u8, 116u8, 105u8, 109u8, 101u8, 115u8, 116u8, 97u8, 109u8, 112u8, 34u8, 58u8]
}

pub fn lit_block_timestamp() -> (r: Vec<u8>)
    ensures
        r@ == spec_lit_block_timestamp(),
{
    let mut v: Vec<u8> = Vec::new();
    v.push(44);
    v.push(34);
    v.push(116);
    v.push(105);
    v.push(109);
    v.push(101);
    v.push(115);
    v.push(116);
    v.push(97);
    v.push(109);
    v.push(112);
    v.push(34);
    v.push(58);
    proof {
        assert(v@ =~= spec_lit_block_timestamp());
    }
    v
}

/// The bytes of `,\"previous_hash\":`.
pub open spec fn spec_lit_block_previous_hash() -> Seq<u8> {
    seq![44u8, 34u8, 112u8, 114u8, 101u8, 118u8, 105u8, 111u8, 117u8, 115u8, 95u8, 104u8, 97u8, 115u8, 104u8, 34u8, 58u8]
}

pub fn lit_block_previous_hash() -> (r: Vec<u8>)
    ensures
        r@ == spec_lit_block_previous_hash(),
{
    let mut v: Vec<u8> = Vec::new();
    v.push(44);
    v.push(34);
    v.push(112);
    v.push(114);
    v.push(101);
    v.push(118);
    v.push(105);
    v.push(111);
    v.push(117);
    v.push(115);
    v.push(95);
    v.push(104);
    v.push(97);
    v.push(115);
    v.push(104);
    v.push(34);
    v.push(58);
    proof {
        assert(v@ =~= spec_lit_block_previous_hash());
    }
    v
}

/// The bytes of `,\"hash\":`.
pub open spec fn spec_lit_block_hash() -> Seq<u8> {
    seq![44u8, 34u8, 104u8, 97u8, 115u8, 104u8, 34u8, 58u8]
}

pub fn lit_block_hash() -> (r: Vec<u8>)
    ensures
        r@ == spec_lit_block_hash(),
{
    let mut v: Vec<u8> = Vec::new();
    v.push(44);
    v.push(34);
    v.push(104);
    v.push(97);
    v.push(115);
    v.push(104);
    v.push(34);
    v.push(58);
    proof {
        assert(v@ =~= spec_lit_block_hash());
    }
    v
}

/// The bytes of `,\"data\":`.
pub open spec fn spec_lit_block_data() -> Seq<u8> {
    seq![44u8, 34u8, 100u8, 97u8, 116u8, 97u8, 34u8, 58u8]
}

pub fn lit_block_data() -> (r: Vec<u8>)
    ensures
        r@ == spec_lit_block_data(),
{
    let mut v: Vec<u8> = Vec::new();
    v.push(44);
    v.push(34);
    v.push(100);
    v.push(97);
    v.push(116);
    v.push(97);
    v.push(34);
    v.push(58);
    proof {
        assert(v@ =~= spec_lit_block_data());
    }
    v
}

/// The bytes of `,\"nonce\":`.
pub open spec fn spec_lit_block_nonce() -> Seq<u8> {
    seq![44u8, 34u8, 110u8, 111u8, 110u8, 99u8, 101u8, 34u8, 58u8]
}

pub fn lit_block_nonce() -> (r: Vec<u8>)
    ensures
        r@ == spec_lit_block_nonce(),
{
    let mut v: Vec<u8> = Vec::new();
    v.push(44);
    v.push(34);
    v.push(110);
    v.push(111);
    v.push(110);
    v.push(99);
    v.push(101);
    v.push(34);
    v.push(58);
    proof {
        assert(v@ =~= spec_lit_block_nonce());
    }
    v
}

/// The bytes of `,\"difficulty\":`.
pub open spec fn spec_lit_block_difficulty() -> Seq<u8> {
    seq![44u8, 34u8, 100u8, 105u8, 102u8, 102u8, 105u8, 99u8, 117u8, 108u8, 116u8, 121u8, 34u8, 58u8]
}

pub fn lit_block_difficulty() -> (r: Vec<u8>)
    ensures
        r@ == spec_lit_block_difficulty(),
{
    let mut v: Vec<u8> = Vec::new();
    v.push(44);
    v.push(34);
    v.push(100);
    v.push(105);
    v.push(102);
    v.push(102);
    v.push(105);
    v.push(99);
    v.push(117);
    v.push(108);
    v.push(116);
    v.push(121);
    v.push(34);
    v.push(58);
    proof {
        assert(v@ =~= spec_lit_block_difficulty());
    }
    v
}

/// The bytes of `}`.
pub open spec fn spec_lit_close_brace() -> Seq<u8> {
    seq![125u8]
}

pub fn lit_close_brace() -> (r: Vec<u8>)
    ensures
        r@ == spec_lit_close_brace(),
{
    let mut v: Vec<u8> = Vec::new();
    v.push(125);
    proof {
        assert(v@ =~= spec_lit_close_brace());
    }
    v
}

/// The bytes of `{\"sender\":`.
pub open spec fn spec_lit_tx_sender() -> Seq<u8> {
    seq![123u8, 34u8, 115u8, 101u8, 110u8, 100u8, 101u8, 114u8, 34u8, 58u8]
}

pub fn lit_tx_sender() -> (r: Vec<u8>)
    ensures
        r@ == spec_lit_tx_sender(),
{
    let mut v: Vec<u8> = Vec::new();
    v.push(123);
    v.push(34);
    v.push(115);
    v.push(101);
    v.push(110);
    v.push(100);
    v.push(101);
    v.push(114);
    v.push(34);
    v.push(58);
    proof {
        assert(v@ =~= spec_lit_tx_sender());
    }
    v
}

/// The bytes of `,\"recipient\":`.
pub open spec fn spec_lit_tx_recipient() -> Seq<u8> {
    seq![44u8, 34u8, 114u8, 101u8, 99u8, 105u8, 112u8, 105u8, 101u8, 110u8, 116u8, 34u8, 58u8]
}

pub fn lit_tx_recipient() -> (r: Vec<u8>)
    ensures
        r@ == spec_lit_tx_recipient(),
{
    let mut v: Vec<u8> = Vec::new();
    v.push(44);
    v.push(34);
    v.push(114);
    v.push(101);
    v.push(99);
    v.push(105);
    v.push(112);
    v.push(105);
    v.push(101);
    v.push(110);
    v.push(116);
    v.push(34);
    v.push(58);
    proof {
        assert(v@ =~= spec_lit_tx_recipient());
    }
    v
}

/// The bytes of `,\"amount\":`.
pub open spec fn spec_lit_tx_amount() -> Seq<u8> {
    seq![44u8, 34u8, 97u8, 109u8, 111u8, 117u8, 110u8, 116u8, 34u8, 58u8]
}

pub fn lit_tx_amount() -> (r: Vec<u8>)
    ensures
        r@ == spec_lit_tx_amount(),
{
    let mut v: Vec<u8> = Vec::new();
    v.push(44);
    v.push(34);
    v.push(97);
    v.push(109);
    v.push(111);
    v.push(117);
    v.push(110);
    v.push(116);
    v.push(34);
    v.push(58);
    proof {
        assert(v@ =~= spec_lit_tx_amount());
    }
    v
}

/// The bytes of `,\"signature\":`.
pub open spec fn spec_lit_tx_signature() -> Seq<u8> {
    seq![44u8, 34u8, 115u8, 105u8, 103u8, 110u8, 97u8, 116u8, 117u8, 114u8, 101u8, 34u8, 58u8]
}

pub fn lit_tx_signature() -> (r: Vec<u8>)
    ensures
        r@ == spec_lit_tx_signature(),
{
    let mut v: Vec<u8> = Vec::new();
    v.push(44);
    v.push(34);
    v.push(115);
    v.push(105);
    v.push(103);
    v.push(110);
    v.push(97);
    v.push(116);
    v.push(117);
    v.push(114);
    v.push(101);
    v.push(34);
    v.push(58);
    proof {
        assert(v@ =~= spec_lit_tx_signature());
    }
    v
}

/// The bytes of `,\"fee\":`.
pub open spec fn spec_lit_tx_fee() -> Seq<u8> {
    seq![44u8, 34u8, 102u8, 101u8, 101u8, 34u8, 58u8]
}

pub fn lit_tx_fee() -> (r: Vec<u8>)
    ensures
        r@ == spec_lit_tx_fee(),
{
    let mut v: Vec<u8> = Vec::new();
    v.push(44);
    v.push(34);
    v.push(102);
    v.push(101);
    v.push(101);
    v.push(34);
    v.push(58);
    proof {
        assert(v@ =~= spec_lit_tx_fee());
    }
    v
}

/// The bytes of `{\"id\":`.
pub open spec fn spec_lit_peer_id() -> Seq<u8> {
    seq![123u8, 34u8, 105u8, 100u8, 34u8, 58u8]
}

pub fn lit_peer_id() -> (r: Vec<u8>)
    ensures
        r@ == spec_lit_peer_id(),
{
    let mut v: Vec<u8> = Vec::new();
    v.push(123);
    v.push(34);
    v.push(105);
    v.push(100);
    v.push(34);
    v.push(58);
    proof {
        assert(v@ =~= spec_lit_peer_id());
    }
    v
}

/// The bytes of `,\"address\":`.
pub open spec fn spec_lit_peer_address() -> Seq<u8> {
    seq![44u8, 34u8, 97u8, 100u8, 100u8, 114u8, 101u8, 115u8, 115u8, 34u8, 58u8]
}

pub fn lit_peer_address() -> (r: Vec<u8>)
    ensures
        r@ == spec_lit_peer_address(),
{
    let mut v: Vec<u8> = Vec::new();
    v.push(44);
    v.push(34);
    v.push(97);
    v.push(100);
    v.push(100);
    v.push(114);
    v.push(101);
    v.push(115);
    v.push(115);
    v.push(34);
    v.push(58);
    proof {
        assert(v@ =~= spec_lit_peer_address());
    }
    v
}

/// The bytes of `\"RequestBlockchain\"`.
pub open spec fn spec_lit_msg_request_blockchain() -> Seq<u8> {
    seq![34u8, 82u8, 101u8, 113u8, 117u8, 101u8, 115u8, 116u8, 66u8, 108u8, 111u8, 99u8, 107u8, 99u8, 104u8, 97u8, 105u8, 110u8, 34u8]
}

pub fn lit_msg_request_blockchain() -> (r: Vec<u8>)
    ensures
        r@ == spec_lit_msg_request_blockchain(),
{
    let mut v: Vec<u8> = Vec::new();
    v.push(34);
    v.push(82);
    v.push(101);
    v.push(113);
    v.push(117);
    v.push(101);
    v.push(115);
    v.push(116);
    v.push(66);
    v.push(108);
    v.push(111);
    v.push(99);
    v.push(107);
    v.push(99);
    v.push(104);
    v.push(97);
    v.push(105);
    v.push(110);
    v.push(34);
    proof {
        assert(v@ =~= spec_lit_msg_request_blockchain());
    }
    v
}

/// The bytes of `\"RequestPeers\"`.
pub open spec fn spec_lit_msg_request_peers() -> Seq<u8> {
    seq![34u8, 82u8, 101u8, 113u8, 117u8, 101u8, 115u8, 116u8, 80u8, 101u8, 101u8, 114u8, 115u8, 34u8]
}

pub fn lit_msg_request_peers() -> (r: Vec<u8>)
    ensures
        r@ == spec_lit_msg_request_peers(),
{
    let mut v: Vec<u8> = Vec::new();
    v.push(34);
    v.push(82);
    v.push(101);
    v.push(113);
    v.push(117);
    v.push(101);
    v.push(115);
    v.push(116);
    v.push(80);
    v.push(101);
    v.push(101);
    v.push(114);
    v.push(115);
    v.push(34);
    proof {
        assert(v@ =~= spec_lit_msg_request_peers());
    }
    v
}

/// The bytes of `\"MineNewBlock\"`.
pub open spec fn spec_lit_msg_mine_new_block() -> Seq<u8> {
    seq![34u8, 77u8, 105u8, 110u8, 101u8, 78u8, 101u8, 119u8, 66u8, 108u8, 111u8, 99u8, 107u8, 34u8]
}

pub fn lit_msg_mine_new_block() -> (r: Vec<u8>)
    ensures
        r@ == spec_lit_msg_mine_new_block(),
{
    let mut v: Vec<u8> = Vec::new();
    v.push(34);
    v.push(77);
    v.push(105);
    v.push(110);
    v.push(101);
    v.push(78);
    v.push(101);
    v.push(119);
    v.push(66);
    v.push(108);
    v.push(111);
    v.push(99);
    v.push(107);
    v.push(34);
    proof {
        assert(v@ =~= spec_lit_msg_mine_new_block());
    }
    v
}

/// The bytes of `{\"SendBlockchain\":`.
pub open spec fn spec_lit_msg_send_blockchain() -> Seq<u8> {
    seq![123u8, 34u8, 83u8, 101u8, 110u8, 100u8, 66u8, 108u8, 111u8, 99u8, 107u8, 99u8, 104u8, 97u8, 105u8, 110u8, 34u8, 58u8]
}

pub fn lit_msg_send_blockchain() -> (r: Vec<u8>)
    ensures
        r@ == spec_lit_msg_send_blockchain(),
{
    let mut v: Vec<u8> = Vec::new();
    v.push(123);
    v.push(34);
    v.push(83);
    v.push(101);
    v.push(110);
    v.push(100);
    v.push(66);
    v.push(108);
    v.push(111);
    v.push(99);
    v.push(107);
    v.push(99);
    v.push(104);
    v.push(97);
    v.push(105);
    v.push(110);
    v.push(34);
    v.push(58);
    proof {
        assert(v@ =~= spec_lit_msg_send_blockchain());
    }
    v
}

/// The bytes of `{\"SendPeers\":`.
pub open spec fn spec_lit_msg_send_peers() -> Seq<u8> {
    seq![123u8, 34u8, 83u8, 101u8, 110u8, 100u8, 80u8, 101u8, 101u8, 114u8, 115u8, 34u8, 58u8]
}

pub fn lit_msg_send_peers() -> (r: Vec<u8>)
    ensures
        r@ == spec_lit_msg_send_peers(),
{
    let mut v: Vec<u8> = Vec::new();
    v.push(123);
    v.push(34);
    v.push(83);
    v.push(101);
    v.push(110);
    v.push(100);
    v.push(80);
    v.push(101);
    v.push(101);
    v.push(114);
    v.push(115);
    v.push(34);
    v.push(58);
    proof {
        assert(v@ =~= spec_lit_msg_send_peers());
    }
    v
}

/// The bytes of `{\"NewTransaction\":[`.
pub open spec fn spec_lit_msg_new_transaction() -> Seq<u8> {
    seq![123u8, 34u8, 78u8, 101u8, 119u8, 84u8, 114u8, 97u8, 110u8, 115u8, 97u8, 99u8, 116u8, 105u8, 111u8, 110u8, 34u8, 58u8, 91u8]
}

pub fn lit_msg_new_transaction() -> (r: Vec<u8>)
    ensures
        r@ == spec_lit_msg_new_transaction(),
{
    let mut v: Vec<u8> = Vec::new();
    v.push(123);
    v.push(34);
    v.push(78);
    v.push(101);
    v.push(119);
    v.push(84);
    v.push(114);
    v.push(97);
    v.push(110);
    v.push(115);
    v.push(97);
    v.push(99);
    v.push(116);
    v.push(105);
    v.push(111);
    v.push(110);
    v.push(34);
    v.push(58);
    v.push(91);
    proof {
        assert(v@ =~= spec_lit_msg_new_transaction());
    }
    v
}

/// The bytes of `]}`.
pub open spec fn spec_lit_bracket_close_brace() -> Seq<u8> {
    seq![93u8, 125u8]
}

pub fn lit_bracket_close_brace() -> (r: Vec<u8>)
    ensures
        r@ == spec_lit_bracket_close_brace(),
{
    let mut v: Vec<u8> = Vec::new();
    v.push(93);
    v.push(125);
    proof {
        assert(v@ =~= spec_lit_bracket_close_brace());
    }
    v
}

/// The bytes of `Genesis block`.
pub open spec fn spec_lit_genesis_data() -> Seq<u8> {
    seq![71u8, 101u8, 110u8, 101u8, 115u8, 105u8, 115u8, 32u8, 98u8, 108u8, 111u8, 99u8, 107u8]
}

pub fn lit_genesis_data() -> (r: Vec<u8>)
    ensures
        r@ == spec_lit_genesis_data(),
{
    let mut v: Vec<u8> = Vec::new();
    v.push(71);
    v.push(101);
    v.push(110);
    v.push(101);
    v.push(115);
    v.push(105);
    v.push(115);
    v.push(32);
    v.push(98);
    v.push(108);
    v.push(111);
    v.push(99);
    v.push(107);
    proof {
        assert(v@ =~= spec_lit_genesis_data());
    }
    v
}

} // verus!
