use vstd::prelude::*;
use crate::block::{Block, BlockV};
use crate::bytes::push_all;
use crate::message::{MsgV, NetworkMessage};
use crate::peers::{Peer, PeerV};
use crate::transaction::{Transaction, TransactionV};
use crate::lits::{
    lit_block_data, lit_block_difficulty, lit_block_hash, lit_block_index, lit_block_nonce,
    lit_block_previous_hash, lit_block_timestamp, lit_close_brace, lit_peer_address, lit_peer_id,
    lit_tx_amount, lit_tx_fee, lit_tx_recipient, lit_tx_sender, lit_tx_signature,
    spec_lit_block_data, spec_lit_block_difficulty, spec_lit_block_hash, spec_lit_block_index,
    spec_lit_block_nonce, spec_lit_block_previous_hash, spec_lit_block_timestamp,
    spec_lit_close_brace, spec_lit_peer_address, spec_lit_peer_id, spec_lit_tx_amount,
    spec_lit_tx_fee, spec_lit_tx_recipient, spec_lit_tx_sender, spec_lit_tx_signature,
    lit_bracket_close_brace, lit_msg_mine_new_block, lit_msg_new_transaction,
    lit_msg_request_blockchain, lit_msg_request_peers, lit_msg_send_blockchain,
    lit_msg_send_peers, spec_lit_bracket_close_brace, spec_lit_msg_mine_new_block,
    spec_lit_msg_new_transaction, spec_lit_msg_request_blockchain, spec_lit_msg_request_peers,
    spec_lit_msg_send_blockchain, spec_lit_msg_send_peers,
};
use crate::bytes::bytes_eq;
use crate::numfmt::{
    dec_digits, lemma_parse_u64_at, parse_u64, spec_parse_u64, u64_to_dec,
};

verus! {

// ---------------------------------------------------------------------------
// Literal matching
// ---------------------------------------------------------------------------
/// `lit` stands at `pos` in `s`.
pub open spec fn spec_match_at(s: Seq<u8>, pos: int, lit: Seq<u8>) -> bool {
    pos + lit.len() <= s.len() && s.subrange(pos, pos + lit.len() as int) == lit
}

/// The position after `lit`, when it stands at `pos`.
pub open spec fn spec_match_lit(s: Seq<u8>, pos: int, lit: Seq<u8>) -> Option<int> {
    if spec_match_at(s, pos, lit) {
        Some(pos + lit.len() as int)
    } else {
        None
    }
}

/// Consume `lit` at `pos`.
pub fn match_lit(s: &Vec<u8>, pos: usize, lit: &Vec<u8>) -> (r: Option<usize>)
    requires
        pos <= s@.len(),
    ensures
        match r {
            Some(e) => spec_match_lit(s@, pos as int, lit@) == Some(e as int) && pos <= e
                <= s@.len(),
            None => spec_match_lit(s@, pos as int, lit@) is None,
        },
{
    if lit.len() > s.len() - pos {
        return None;
    }
    let mut i: usize = 0;
    while i < lit.len()
        invariant
            pos + lit@.len() <= s@.len(),
            s@.len() <= usize::MAX,
            i <= lit@.len(),
            forall|j: int| 0 <= j < i ==> s@[pos + j] == lit@[j],
        decreases lit@.len() - i,
    {
        if s[pos + i] != lit[i] {
            proof {
                if spec_match_at(s@, pos as int, lit@) {
                    assert(s@.subrange(pos as int, pos + lit@.len() as int)[i as int] == s@[pos
                        + i]);
                }
            }
            return None;
        }
        i += 1;
    }
    proof {
        assert(s@.subrange(pos as int, pos + lit@.len() as int) =~= lit@);
    }
    Some(pos + lit.len())
}

/// Split `s` after `pos` along a known concatenation.
pub proof fn lemma_chop(s: Seq<u8>, pos: int, a: Seq<u8>, b: Seq<u8>)
    requires
        0 <= pos <= s.len(),
        s.subrange(pos, s.len() as int) == a + b,
    ensures
        pos + a.len() <= s.len(),
        s.subrange(pos, pos + a.len() as int) == a,
        s.subrange(pos + a.len() as int, s.len() as int) == b,
{
    let tail = s.subrange(pos, s.len() as int);
    assert(tail.len() == a.len() + b.len());
    assert(forall|j: int| pos <= j < s.len() ==> s[j] == tail[j - pos]);
    assert(s.subrange(pos, pos + a.len() as int) =~= a);
    assert(s.subrange(pos + a.len() as int, s.len() as int) =~= b);
}

/// A literal standing at `pos` is consumed exactly.
pub proof fn lemma_match_lit_at(s: Seq<u8>, pos: int, lit: Seq<u8>, rest: Seq<u8>)
    requires
        0 <= pos <= s.len(),
        s.subrange(pos, s.len() as int) == lit + rest,
    ensures
        spec_match_lit(s, pos, lit) == Some(pos + lit.len() as int),
        pos + lit.len() <= s.len(),
        s.subrange(pos + lit.len() as int, s.len() as int) == rest,
{
    lemma_chop(s, pos, lit, rest);
}

// ---------------------------------------------------------------------------
// Strings: quoted, with '"' and '\' escaped by a backslash
// ---------------------------------------------------------------------------
pub open spec fn spec_escape(w: Seq<u8>) -> Seq<u8>
    decreases w.len(),
{
    if w.len() == 0 {
        Seq::empty()
    } else {
        (if w[0] == 34 || w[0] == 92 {
            seq![92u8, w[0]]
        } else {
            seq![w[0]]
        }) + spec_escape(w.drop_first())
    }
}

/// The wire form of a string field: quoted and escaped.
pub open spec fn spec_encode_string(w: Seq<u8>) -> Seq<u8> {
    seq![34u8] + spec_escape(w) + seq![34u8]
}

/// Escaping distributes over concatenation.
pub proof fn lemma_escape_append(a: Seq<u8>, b: Seq<u8>)
    ensures
        spec_escape(a + b) == spec_escape(a) + spec_escape(b),
    decreases a.len(),
{
    if a.len() == 0 {
        assert(a + b =~= b);
        assert(spec_escape(a) =~= Seq::<u8>::empty());
        assert(spec_escape(a) + spec_escape(b) =~= spec_escape(b));
    } else {
        assert((a + b)[0] == a[0]);
        assert((a + b).drop_first() =~= a.drop_first() + b);
        lemma_escape_append(a.drop_first(), b);
        assert(spec_escape(a + b) =~= spec_escape(a) + spec_escape(b));
    }
}

/// The unquoted remainder of a string: bytes up to the closing quote, with
/// escapes resolved.
pub open spec fn spec_scan_string(s: Seq<u8>, pos: int) -> Option<(Seq<u8>, int)>
    decreases s.len() - pos when 0 <= pos <= s.len()
{
    if pos >= s.len() {
        None
    } else if s[pos] == 34 {
        Some((Seq::empty(), pos + 1))
    } else if s[pos] == 92 {
        if pos + 2 <= s.len() {
            match spec_scan_string(s, pos + 2) {
                None => None,
                Some((w, e)) => Some((seq![s[pos + 1]] + w, e)),
            }
        } else {
            None
        }
    } else {
        match spec_scan_string(s, pos + 1) {
            None => None,
            Some((w, e)) => Some((seq![s[pos]] + w, e)),
        }
    }
}

/// Reading a string field at `pos`: an opening quote, then the scan.
pub open spec fn spec_parse_string(s: Seq<u8>, pos: int) -> Option<(Seq<u8>, int)> {
    if pos < s.len() && s[pos] == 34 {
        spec_scan_string(s, pos + 1)
    } else {
        None
    }
}

proof fn lemma_scan_round(s: Seq<u8>, pos: int, w: Seq<u8>, rest: Seq<u8>)
    requires
        0 <= pos <= s.len(),
        s.subrange(pos, s.len() as int) == spec_escape(w) + seq![34u8] + rest,
    ensures
        spec_scan_string(s, pos) == Some::<(Seq<u8>, int)>(
            (w, pos + spec_escape(w).len() + 1),
        ),
    decreases w.len(),
{
    if w.len() == 0 {
        assert(spec_escape(w) =~= Seq::<u8>::empty());
        assert(s.subrange(pos, s.len() as int) =~= seq![34u8] + rest);
        lemma_chop(s, pos, seq![34u8], rest);
        assert(s.subrange(pos, pos + 1)[0] == s[pos]);
        assert(s[pos] == 34);
    } else {
        let w1 = w.drop_first();
        if w[0] == 34 || w[0] == 92 {
            let head = seq![92u8, w[0]];
            assert(spec_escape(w) == head + spec_escape(w1));
            assert(s.subrange(pos, s.len() as int) =~= head + (spec_escape(w1) + seq![34u8]
                + rest));
            lemma_chop(s, pos, head, spec_escape(w1) + seq![34u8] + rest);
            assert(s.subrange(pos, pos + 2)[0] == s[pos]);
            assert(s.subrange(pos, pos + 2)[1] == s[pos + 1]);
            assert(s[pos] == 92 && s[pos + 1] == w[0]);
            lemma_scan_round(s, pos + 2, w1, rest);
            assert(seq![s[pos + 1]] + w1 =~= w);
        } else {
            let head = seq![w[0]];
            assert(spec_escape(w) == head + spec_escape(w1));
            assert(s.subrange(pos, s.len() as int) =~= head + (spec_escape(w1) + seq![34u8]
                + rest));
            lemma_chop(s, pos, head, spec_escape(w1) + seq![34u8] + rest);
            assert(s.subrange(pos, pos + 1)[0] == s[pos]);
            assert(s[pos] == w[0]);
            lemma_scan_round(s, pos + 1, w1, rest);
            assert(seq![s[pos]] + w1 =~= w);
        }
    }
}

/// A string field standing at `pos` is read back exactly.
pub proof fn lemma_parse_string_at(s: Seq<u8>, pos: int, w: Seq<u8>, rest: Seq<u8>)
    requires
        0 <= pos <= s.len(),
        s.subrange(pos, s.len() as int) == spec_encode_string(w) + rest,
    ensures
        spec_parse_string(s, pos) == Some::<(Seq<u8>, int)>(
            (w, pos + spec_encode_string(w).len() as int),
        ),
        pos + spec_encode_string(w).len() <= s.len(),
        s.subrange(pos + spec_encode_string(w).len() as int, s.len() as int) == rest,
{
    assert(spec_encode_string(w) + rest =~= seq![34u8] + (spec_escape(w) + seq![34u8] + rest));
    lemma_chop(s, pos, seq![34u8], spec_escape(w) + seq![34u8] + rest);
    assert(s.subrange(pos, pos + 1)[0] == s[pos]);
    assert(s[pos] == 34);
    lemma_scan_round(s, pos + 1, w, rest);
    lemma_chop(s, pos, spec_encode_string(w), rest);
}

/// Append the wire form of a string field to `dst`.
pub fn encode_string_into(dst: &mut Vec<u8>, w: &Vec<u8>)
    ensures
        final(dst)@ == old(dst)@ + spec_encode_string(w@),
{
    dst.push(34);
    let mut i: usize = 0;
    while i < w.len()
        invariant
            i <= w@.len(),
            dst@ == old(dst)@ + seq![34u8] + spec_escape(w@.take(i as int)),
        decreases w@.len() - i,
    {
        let c = w[i];
        if c == 34 || c == 92 {
            dst.push(92);
            dst.push(c);
        } else {
            dst.push(c);
        }
        proof {
            assert(w@.take((i + 1) as int) =~= w@.take(i as int) + seq![w@[i as int]]);
            lemma_escape_append(w@.take(i as int), seq![w@[i as int]]);
            assert(spec_escape(seq![w@[i as int]]) =~= if w@[i as int] == 34 || w@[i as int]
                == 92 {
                seq![92u8, w@[i as int]]
            } else {
                seq![w@[i as int]]
            }) by {
                let single = seq![w@[i as int]];
                assert(single.len() == 1 && single[0] == w@[i as int]);
                assert(single.drop_first() =~= Seq::<u8>::empty());
                assert(spec_escape(Seq::<u8>::empty()) =~= Seq::<u8>::empty());
                if w@[i as int] == 34 || w@[i as int] == 92 {
                    assert(spec_escape(single) =~= seq![92u8, w@[i as int]] + Seq::<u8>::empty());
                } else {
                    assert(spec_escape(single) =~= seq![w@[i as int]] + Seq::<u8>::empty());
                }
            }
            assert(dst@ =~= old(dst)@ + seq![34u8] + spec_escape(w@.take((i + 1) as int)));
        }
        i += 1;
    }
    dst.push(34);
    proof {
        assert(w@.take(w@.len() as int) =~= w@);
        assert(dst@ =~= old(dst)@ + spec_encode_string(w@));
    }
}

/// Read a string field at `pos`.
pub fn parse_string(s: &Vec<u8>, pos: usize) -> (r: Option<(Vec<u8>, usize)>)
    requires
        pos <= s@.len(),
    ensures
        match r {
            Some((w, e)) => spec_parse_string(s@, pos as int) == Some::<(Seq<u8>, int)>(
                (w@, e as int),
            ) && pos < e <= s@.len(),
            None => spec_parse_string(s@, pos as int) is None,
        },
{
    if pos >= s.len() || s[pos] != 34 {
        return None;
    }
    let mut i: usize = pos + 1;
    let mut acc: Vec<u8> = Vec::new();
    loop
        invariant
            pos + 1 <= i <= s@.len(),
            pos < s@.len() && s@[pos as int] == 34,
            match spec_scan_string(s@, i as int) {
                Some((w, e)) => spec_scan_string(s@, (pos + 1) as int) == Some::<(Seq<u8>, int)>(
                    (acc@ + w, e),
                ),
                None => spec_scan_string(s@, (pos + 1) as int) is None,
            },
        decreases s@.len() - i,
    {
        if i >= s.len() {
            return None;
        }
        let c = s[i];
        if c == 34 {
            proof {
                assert(acc@ + Seq::<u8>::empty() =~= acc@);
            }
            return Some((acc, i + 1));
        } else if c == 92 {
            if s.len() - i < 2 {
                return None;
            }
            let ghost acc0 = acc@;
            acc.push(s[i + 1]);
            proof {
                if let Some((w2, e2)) = spec_scan_string(s@, i as int + 2) {
                    assert(acc@ + w2 =~= acc0 + (seq![s@[i as int + 1]] + w2));
                }
            }
            i += 2;
        } else {
            let ghost acc0 = acc@;
            acc.push(c);
            proof {
                if let Some((w2, e2)) = spec_scan_string(s@, i as int + 1) {
                    assert(acc@ + w2 =~= acc0 + (seq![s@[i as int]] + w2));
                }
            }
            i += 1;
        }
    }
}


// ---------------------------------------------------------------------------
// Blocks
// ---------------------------------------------------------------------------
/// The wire form of a block: a JSON object with every field present, in a
/// fixed order.
pub open spec fn spec_encode_block(b: BlockV) -> Seq<u8> {
    spec_lit_block_index() + dec_digits(b.index as nat) + spec_lit_block_timestamp()
        + spec_encode_string(b.timestamp) + spec_lit_block_previous_hash() + spec_encode_string(
        b.previous_hash,
    ) + spec_lit_block_hash() + spec_encode_string(b.hash) + spec_lit_block_data()
        + spec_encode_string(b.data) + spec_lit_block_nonce() + dec_digits(b.nonce as nat)
        + spec_lit_block_difficulty() + dec_digits(b.difficulty as nat) + spec_lit_close_brace()
}

/// Reading a block at `pos`.
pub open spec fn spec_parse_block(s: Seq<u8>, pos: int) -> Option<(BlockV, int)> {
    match spec_match_lit(s, pos, spec_lit_block_index()) {
        None => None,
        Some(p1) => match spec_parse_u64(s, p1) {
            None => None,
            Some((index, p2)) => match spec_match_lit(s, p2, spec_lit_block_timestamp()) {
                None => None,
                Some(p3) => match spec_parse_string(s, p3) {
                    None => None,
                    Some((timestamp, p4)) => match spec_match_lit(
                        s,
                        p4,
                        spec_lit_block_previous_hash(),
                    ) {
                        None => None,
                        Some(p5) => match spec_parse_string(s, p5) {
                            None => None,
                            Some((previous_hash, p6)) => match spec_match_lit(
                                s,
                                p6,
                                spec_lit_block_hash(),
                            ) {
                                None => None,
                                Some(p7) => match spec_parse_string(s, p7) {
                                    None => None,
                                    Some((hash, p8)) => match spec_match_lit(
                                        s,
                                        p8,
                                        spec_lit_block_data(),
                                    ) {
                                        None => None,
                                        Some(p9) => match spec_parse_string(s, p9) {
                                            None => None,
                                            Some((data, p10)) => match spec_match_lit(
                                                s,
                                                p10,
                                                spec_lit_block_nonce(),
                                            ) {
                                                None => None,
                                                Some(p11) => match spec_parse_u64(s, p11) {
                                                    None => None,
                                                    Some((nonce, p12)) => match spec_match_lit(
                                                        s,
                                                        p12,
                                                        spec_lit_block_difficulty(),
                                                    ) {
                                                        None => None,
                                                        Some(p13) => match spec_parse_u64(
                                                            s,
                                                            p13,
                                                        ) {
                                                            None => None,
                                                            Some((difficulty, p14)) => if difficulty
                                                                <= u32::MAX {
                                                                match spec_match_lit(
                                                                    s,
                                                                    p14,
                                                                    spec_lit_close_brace(),
                                                                ) {
                                                                    None => None,
                                                                    Some(p15) => Some(
                                                                        (
                                                                            BlockV {
                                                                                index,
                                                                                timestamp,
                                                                                previous_hash,
                                                                                hash,
                                                                                data,
                                                                                nonce,
                                                                                difficulty: difficulty as u32,
                                                                            },
                                                                            p15,
                                                                        ),
                                                                    ),
                                                                }
                                                            } else {
                                                                None
                                                            },
                                                        },
                                                    },
                                                },
                                            },
                                        },
                                    },
                                },
                            },
                        },
                    },
                },
            },
        },
    }
}

/// A block standing at `pos` is read back exactly, whatever follows it.
#[verifier::rlimit(100)]
pub proof fn lemma_parse_block_at(s: Seq<u8>, pos: int, b: BlockV, rest: Seq<u8>)
    requires
        0 <= pos <= s.len(),
        s.subrange(pos, s.len() as int) == spec_encode_block(b) + rest,
    ensures
        spec_parse_block(s, pos) == Some::<(BlockV, int)>(
            (b, pos + spec_encode_block(b).len() as int),
        ),
        pos < pos + spec_encode_block(b).len() <= s.len(),
        s.subrange(pos + spec_encode_block(b).len() as int, s.len() as int) == rest,
{
    let tclose = spec_lit_close_brace() + rest;
    let tdiffv = dec_digits(b.difficulty as nat) + tclose;
    let tdiff = spec_lit_block_difficulty() + tdiffv;
    let tnoncev = dec_digits(b.nonce as nat) + tdiff;
    let tnonce = spec_lit_block_nonce() + tnoncev;
    let tdatav = spec_encode_string(b.data) + tnonce;
    let tdata = spec_lit_block_data() + tdatav;
    let thashv = spec_encode_string(b.hash) + tdata;
    let thash = spec_lit_block_hash() + thashv;
    let tprevv = spec_encode_string(b.previous_hash) + thash;
    let tprev = spec_lit_block_previous_hash() + tprevv;
    let ttsv = spec_encode_string(b.timestamp) + tprev;
    let tts = spec_lit_block_timestamp() + ttsv;
    let tindexv = dec_digits(b.index as nat) + tts;
    assert(spec_encode_block(b) + rest =~= spec_lit_block_index() + tindexv);
    lemma_match_lit_at(s, pos, spec_lit_block_index(), tindexv);
    let p1 = pos + spec_lit_block_index().len() as int;
    assert(tindexv =~= dec_digits(b.index as nat) + tts);
    lemma_parse_u64_at(s, p1, b.index, tts);
    lemma_chop(s, p1, dec_digits(b.index as nat), tts);
    let p2 = p1 + dec_digits(b.index as nat).len() as int;
    lemma_match_lit_at(s, p2, spec_lit_block_timestamp(), ttsv);
    let p3 = p2 + spec_lit_block_timestamp().len() as int;
    lemma_parse_string_at(s, p3, b.timestamp, tprev);
    let p4 = p3 + spec_encode_string(b.timestamp).len() as int;
    lemma_match_lit_at(s, p4, spec_lit_block_previous_hash(), tprevv);
    let p5 = p4 + spec_lit_block_previous_hash().len() as int;
    lemma_parse_string_at(s, p5, b.previous_hash, thash);
    let p6 = p5 + spec_encode_string(b.previous_hash).len() as int;
    lemma_match_lit_at(s, p6, spec_lit_block_hash(), thashv);
    let p7 = p6 + spec_lit_block_hash().len() as int;
    lemma_parse_string_at(s, p7, b.hash, tdata);
    let p8 = p7 + spec_encode_string(b.hash).len() as int;
    lemma_match_lit_at(s, p8, spec_lit_block_data(), tdatav);
    let p9 = p8 + spec_lit_block_data().len() as int;
    lemma_parse_string_at(s, p9, b.data, tnonce);
    let p10 = p9 + spec_encode_string(b.data).len() as int;
    lemma_match_lit_at(s, p10, spec_lit_block_nonce(), tnoncev);
    let p11 = p10 + spec_lit_block_nonce().len() as int;
    lemma_parse_u64_at(s, p11, b.nonce, tdiff);
    lemma_chop(s, p11, dec_digits(b.nonce as nat), tdiff);
    let p12 = p11 + dec_digits(b.nonce as nat).len() as int;
    lemma_match_lit_at(s, p12, spec_lit_block_difficulty(), tdiffv);
    let p13 = p12 + spec_lit_block_difficulty().len() as int;
    lemma_parse_u64_at(s, p13, b.difficulty as u64, tclose);
    lemma_chop(s, p13, dec_digits(b.difficulty as nat), tclose);
    let p14 = p13 + dec_digits(b.difficulty as nat).len() as int;
    lemma_match_lit_at(s, p14, spec_lit_close_brace(), rest);
    let p15 = p14 + spec_lit_close_brace().len() as int;
    assert(p15 == pos + spec_encode_block(b).len());
    assert(BlockV {
        index: b.index,
        timestamp: b.timestamp,
        previous_hash: b.previous_hash,
        hash: b.hash,
        data: b.data,
        nonce: b.nonce,
        difficulty: b.difficulty,
    } == b);
}

/// Append the wire form of a block to `dst`.
pub fn encode_block_into(dst: &mut Vec<u8>, b: &Block)
    ensures
        final(dst)@ == old(dst)@ + spec_encode_block(b@),
{
    let l = lit_block_index();
    push_all(dst, &l);
    let d = u64_to_dec(b.index);
    push_all(dst, &d);
    let l = lit_block_timestamp();
    push_all(dst, &l);
    encode_string_into(dst, &b.timestamp);
    let l = lit_block_previous_hash();
    push_all(dst, &l);
    encode_string_into(dst, &b.previous_hash);
    let l = lit_block_hash();
    push_all(dst, &l);
    encode_string_into(dst, &b.hash);
    let l = lit_block_data();
    push_all(dst, &l);
    encode_string_into(dst, &b.data);
    let l = lit_block_nonce();
    push_all(dst, &l);
    let d = u64_to_dec(b.nonce);
    push_all(dst, &d);
    let l = lit_block_difficulty();
    push_all(dst, &l);
    let d = u64_to_dec(b.difficulty as u64);
    push_all(dst, &d);
    let l = lit_close_brace();
    push_all(dst, &l);
    proof {
        assert(dst@ =~= old(dst)@ + spec_encode_block(b@));
    }
}

/// Read a block at `pos`.
pub fn parse_block(s: &Vec<u8>, pos: usize) -> (r: Option<(Block, usize)>)
    requires
        pos <= s@.len(),
    ensures
        match r {
            Some((b, e)) => spec_parse_block(s@, pos as int) == Some::<(BlockV, int)>(
                (b@, e as int),
            ) && pos < e <= s@.len(),
            None => spec_parse_block(s@, pos as int) is None,
        },
{
    let l = lit_block_index();
    let p1 = match match_lit(s, pos, &l) {
        Some(p) => p,
        None => {
            return None;
        },
    };
    let (index, p2) = match parse_u64(s, p1) {
        Some(x) => x,
        None => {
            return None;
        },
    };
    let l = lit_block_timestamp();
    let p3 = match match_lit(s, p2, &l) {
        Some(p) => p,
        None => {
            return None;
        },
    };
    let (timestamp, p4) = match parse_string(s, p3) {
        Some(x) => x,
        None => {
            return None;
        },
    };
    let l = lit_block_previous_hash();
    let p5 = match match_lit(s, p4, &l) {
        Some(p) => p,
        None => {
            return None;
        },
    };
    let (previous_hash, p6) = match parse_string(s, p5) {
        Some(x) => x,
        None => {
            return None;
        },
    };
    let l = lit_block_hash();
    let p7 = match match_lit(s, p6, &l) {
        Some(p) => p,
        None => {
            return None;
        },
    };
    let (hash, p8) = match parse_string(s, p7) {
        Some(x) => x,
        None => {
            return None;
        },
    };
    let l = lit_block_data();
    let p9 = match match_lit(s, p8, &l) {
        Some(p) => p,
        None => {
            return None;
        },
    };
    let (data, p10) = match parse_string(s, p9) {
        Some(x) => x,
        None => {
            return None;
        },
    };
    let l = lit_block_nonce();
    let p11 = match match_lit(s, p10, &l) {
        Some(p) => p,
        None => {
            return None;
        },
    };
    let (nonce, p12) = match parse_u64(s, p11) {
        Some(x) => x,
        None => {
            return None;
        },
    };
    let l = lit_block_difficulty();
    let p13 = match match_lit(s, p12, &l) {
        Some(p) => p,
        None => {
            return None;
        },
    };
    let (difficulty, p14) = match parse_u64(s, p13) {
        Some(x) => x,
        None => {
            return None;
        },
    };
    if difficulty > u32::MAX as u64 {
        return None;
    }
    let l = lit_close_brace();
    let p15 = match match_lit(s, p14, &l) {
        Some(p) => p,
        None => {
            return None;
        },
    };
    Some((
        Block {
            index,
            timestamp,
            previous_hash,
            hash,
            data,
            nonce,
            difficulty: difficulty as u32,
        },
        p15,
    ))
}


// ---------------------------------------------------------------------------
// Transactions
// ---------------------------------------------------------------------------
/// The wire form of a transaction.
pub open spec fn spec_encode_tx(t: TransactionV) -> Seq<u8> {
    spec_lit_tx_sender() + spec_encode_string(t.sender) + spec_lit_tx_recipient()
        + spec_encode_string(t.recipient) + spec_lit_tx_amount() + dec_digits(t.amount as nat)
        + spec_lit_tx_signature() + spec_encode_string(t.signature) + spec_lit_tx_fee()
        + dec_digits(t.fee as nat) + spec_lit_close_brace()
}

/// Reading a transaction at `pos`.
pub open spec fn spec_parse_tx(s: Seq<u8>, pos: int) -> Option<(TransactionV, int)> {
    match spec_match_lit(s, pos, spec_lit_tx_sender()) {
        None => None,
        Some(p1) => match spec_parse_string(s, p1) {
            None => None,
            Some((sender, p2)) => match spec_match_lit(s, p2, spec_lit_tx_recipient()) {
                None => None,
                Some(p3) => match spec_parse_string(s, p3) {
                    None => None,
                    Some((recipient, p4)) => match spec_match_lit(s, p4, spec_lit_tx_amount()) {
                        None => None,
                        Some(p5) => match spec_parse_u64(s, p5) {
                            None => None,
                            Some((amount, p6)) => match spec_match_lit(
                                s,
                                p6,
                                spec_lit_tx_signature(),
                            ) {
                                None => None,
                                Some(p7) => match spec_parse_string(s, p7) {
                                    None => None,
                                    Some((signature, p8)) => match spec_match_lit(
                                        s,
                                        p8,
                                        spec_lit_tx_fee(),
                                    ) {
                                        None => None,
                                        Some(p9) => match spec_parse_u64(s, p9) {
                                            None => None,
                                            Some((fee, p10)) => match spec_match_lit(
                                                s,
                                                p10,
                                                spec_lit_close_brace(),
                                            ) {
                                                None => None,
                                                Some(p11) => Some(
                                                    (
                                                        TransactionV {
                                                            sender,
                                                            recipient,
                                                            amount,
                                                            signature,
                                                            fee,
                                                        },
                                                        p11,
                                                    ),
                                                ),
                                            },
                                        },
                                    },
                                },
                            },
                        },
                    },
                },
            },
        },
    }
}

/// A transaction standing at `pos` is read back exactly, whatever follows.
#[verifier::rlimit(100)]
pub proof fn lemma_parse_tx_at(s: Seq<u8>, pos: int, t: TransactionV, rest: Seq<u8>)
    requires
        0 <= pos <= s.len(),
        s.subrange(pos, s.len() as int) == spec_encode_tx(t) + rest,
    ensures
        spec_parse_tx(s, pos) == Some::<(TransactionV, int)>(
            (t, pos + spec_encode_tx(t).len() as int),
        ),
        pos < pos + spec_encode_tx(t).len() <= s.len(),
        s.subrange(pos + spec_encode_tx(t).len() as int, s.len() as int) == rest,
{
    let tclose = spec_lit_close_brace() + rest;
    let tfeev = dec_digits(t.fee as nat) + tclose;
    let tfee = spec_lit_tx_fee() + tfeev;
    let tsigv = spec_encode_string(t.signature) + tfee;
    let tsig = spec_lit_tx_signature() + tsigv;
    let tamtv = dec_digits(t.amount as nat) + tsig;
    let tamt = spec_lit_tx_amount() + tamtv;
    let trecv = spec_encode_string(t.recipient) + tamt;
    let trec = spec_lit_tx_recipient() + trecv;
    let tsendv = spec_encode_string(t.sender) + trec;
    assert(spec_encode_tx(t) + rest =~= spec_lit_tx_sender() + tsendv);
    lemma_match_lit_at(s, pos, spec_lit_tx_sender(), tsendv);
    let p1 = pos + spec_lit_tx_sender().len() as int;
    lemma_parse_string_at(s, p1, t.sender, trec);
    let p2 = p1 + spec_encode_string(t.sender).len() as int;
    lemma_match_lit_at(s, p2, spec_lit_tx_recipient(), trecv);
    let p3 = p2 + spec_lit_tx_recipient().len() as int;
    lemma_parse_string_at(s, p3, t.recipient, tamt);
    let p4 = p3 + spec_encode_string(t.recipient).len() as int;
    lemma_match_lit_at(s, p4, spec_lit_tx_amount(), tamtv);
    let p5 = p4 + spec_lit_tx_amount().len() as int;
    lemma_parse_u64_at(s, p5, t.amount, tsig);
    lemma_chop(s, p5, dec_digits(t.amount as nat), tsig);
    let p6 = p5 + dec_digits(t.amount as nat).len() as int;
    lemma_match_lit_at(s, p6, spec_lit_tx_signature(), tsigv);
    let p7 = p6 + spec_lit_tx_signature().len() as int;
    lemma_parse_string_at(s, p7, t.signature, tfee);
    let p8 = p7 + spec_encode_string(t.signature).len() as int;
    lemma_match_lit_at(s, p8, spec_lit_tx_fee(), tfeev);
    let p9 = p8 + spec_lit_tx_fee().len() as int;
    lemma_parse_u64_at(s, p9, t.fee, tclose);
    lemma_chop(s, p9, dec_digits(t.fee as nat), tclose);
    let p10 = p9 + dec_digits(t.fee as nat).len() as int;
    lemma_match_lit_at(s, p10, spec_lit_close_brace(), rest);
    assert(TransactionV {
        sender: t.sender,
        recipient: t.recipient,
        amount: t.amount,
        signature: t.signature,
        fee: t.fee,
    } == t);
}

/// Append the wire form of a transaction to `dst`.
pub fn encode_tx_into(dst: &mut Vec<u8>, t: &Transaction)
    ensures
        final(dst)@ == old(dst)@ + spec_encode_tx(t@),
{
    let l = lit_tx_sender();
    push_all(dst, &l);
    encode_string_into(dst, &t.sender);
    let l = lit_tx_recipient();
    push_all(dst, &l);
    encode_string_into(dst, &t.recipient);
    let l = lit_tx_amount();
    push_all(dst, &l);
    let d = u64_to_dec(t.amount);
    push_all(dst, &d);
    let l = lit_tx_signature();
    push_all(dst, &l);
    encode_string_into(dst, &t.signature);
    let l = lit_tx_fee();
    push_all(dst, &l);
    let d = u64_to_dec(t.fee);
    push_all(dst, &d);
    let l = lit_close_brace();
    push_all(dst, &l);
    proof {
        assert(dst@ =~= old(dst)@ + spec_encode_tx(t@));
    }
}

/// Read a transaction at `pos`.
pub fn parse_tx(s: &Vec<u8>, pos: usize) -> (r: Option<(Transaction, usize)>)
    requires
        pos <= s@.len(),
    ensures
        match r {
            Some((t, e)) => spec_parse_tx(s@, pos as int) == Some::<(TransactionV, int)>(
                (t@, e as int),
            ) && pos < e <= s@.len(),
            None => spec_parse_tx(s@, pos as int) is None,
        },
{
    let l = lit_tx_sender();
    let p1 = match match_lit(s, pos, &l) {
        Some(p) => p,
        None => {
            return None;
        },
    };
    let (sender, p2) = match parse_string(s, p1) {
        Some(x) => x,
        None => {
            return None;
        },
    };
    let l = lit_tx_recipient();
    let p3 = match match_lit(s, p2, &l) {
        Some(p) => p,
        None => {
            return None;
        },
    };
    let (recipient, p4) = match parse_string(s, p3) {
        Some(x) => x,
        None => {
            return None;
        },
    };
    let l = lit_tx_amount();
    let p5 = match match_lit(s, p4, &l) {
        Some(p) => p,
        None => {
            return None;
        },
    };
    let (amount, p6) = match parse_u64(s, p5) {
        Some(x) => x,
        None => {
            return None;
        },
    };
    let l = lit_tx_signature();
    let p7 = match match_lit(s, p6, &l) {
        Some(p) => p,
        None => {
            return None;
        },
    };
    let (signature, p8) = match parse_string(s, p7) {
        Some(x) => x,
        None => {
            return None;
        },
    };
    let l = lit_tx_fee();
    let p9 = match match_lit(s, p8, &l) {
        Some(p) => p,
        None => {
            return None;
        },
    };
    let (fee, p10) = match parse_u64(s, p9) {
        Some(x) => x,
        None => {
            return None;
        },
    };
    let l = lit_close_brace();
    let p11 = match match_lit(s, p10, &l) {
        Some(p) => p,
        None => {
            return None;
        },
    };
    Some((Transaction { sender, recipient, amount, signature, fee }, p11))
}

// ---------------------------------------------------------------------------
// Peers
// ---------------------------------------------------------------------------
/// The wire form of a peer.
pub open spec fn spec_encode_peer(p: PeerV) -> Seq<u8> {
    spec_lit_peer_id() + spec_encode_string(p.id) + spec_lit_peer_address() + spec_encode_string(
        p.address,
    ) + spec_lit_close_brace()
}

/// Reading a peer at `pos`.
pub open spec fn spec_parse_peer(s: Seq<u8>, pos: int) -> Option<(PeerV, int)> {
    match spec_match_lit(s, pos, spec_lit_peer_id()) {
        None => None,
        Some(p1) => match spec_parse_string(s, p1) {
            None => None,
            Some((id, p2)) => match spec_match_lit(s, p2, spec_lit_peer_address()) {
                None => None,
                Some(p3) => match spec_parse_string(s, p3) {
                    None => None,
                    Some((address, p4)) => match spec_match_lit(s, p4, spec_lit_close_brace()) {
                        None => None,
                        Some(p5) => Some((PeerV { id, address }, p5)),
                    },
                },
            },
        },
    }
}

/// A peer standing at `pos` is read back exactly, whatever follows.
pub proof fn lemma_parse_peer_at(s: Seq<u8>, pos: int, p: PeerV, rest: Seq<u8>)
    requires
        0 <= pos <= s.len(),
        s.subrange(pos, s.len() as int) == spec_encode_peer(p) + rest,
    ensures
        spec_parse_peer(s, pos) == Some::<(PeerV, int)>(
            (p, pos + spec_encode_peer(p).len() as int),
        ),
        pos < pos + spec_encode_peer(p).len() <= s.len(),
        s.subrange(pos + spec_encode_peer(p).len() as int, s.len() as int) == rest,
{
    let tclose = spec_lit_close_brace() + rest;
    let taddrv = spec_encode_string(p.address) + tclose;
    let taddr = spec_lit_peer_address() + taddrv;
    let tidv = spec_encode_string(p.id) + taddr;
    assert(spec_encode_peer(p) + rest =~= spec_lit_peer_id() + tidv);
    lemma_match_lit_at(s, pos, spec_lit_peer_id(), tidv);
    let p1 = pos + spec_lit_peer_id().len() as int;
    lemma_parse_string_at(s, p1, p.id, taddr);
    let p2 = p1 + spec_encode_string(p.id).len() as int;
    lemma_match_lit_at(s, p2, spec_lit_peer_address(), taddrv);
    let p3 = p2 + spec_lit_peer_address().len() as int;
    lemma_parse_string_at(s, p3, p.address, tclose);
    let p4 = p3 + spec_encode_string(p.address).len() as int;
    lemma_match_lit_at(s, p4, spec_lit_close_brace(), rest);
    assert(PeerV { id: p.id, address: p.address } == p);
}

/// Append the wire form of a peer to `dst`.
pub fn encode_peer_into(dst: &mut Vec<u8>, p: &Peer)
    ensures
        final(dst)@ == old(dst)@ + spec_encode_peer(p@),
{
    let l = lit_peer_id();
    push_all(dst, &l);
    encode_string_into(dst, &p.id);
    let l = lit_peer_address();
    push_all(dst, &l);
    encode_string_into(dst, &p.address);
    let l = lit_close_brace();
    push_all(dst, &l);
    proof {
        assert(dst@ =~= old(dst)@ + spec_encode_peer(p@));
    }
}

/// Read a peer at `pos`.
pub fn parse_peer(s: &Vec<u8>, pos: usize) -> (r: Option<(Peer, usize)>)
    requires
        pos <= s@.len(),
    ensures
        match r {
            Some((p, e)) => spec_parse_peer(s@, pos as int) == Some::<(PeerV, int)>(
                (p@, e as int),
            ) && pos < e <= s@.len(),
            None => spec_parse_peer(s@, pos as int) is None,
        },
{
    let l = lit_peer_id();
    let p1 = match match_lit(s, pos, &l) {
        Some(p) => p,
        None => {
            return None;
        },
    };
    let (id, p2) = match parse_string(s, p1) {
        Some(x) => x,
        None => {
            return None;
        },
    };
    let l = lit_peer_address();
    let p3 = match match_lit(s, p2, &l) {
        Some(p) => p,
        None => {
            return None;
        },
    };
    let (address, p4) = match parse_string(s, p3) {
        Some(x) => x,
        None => {
            return None;
        },
    };
    let l = lit_close_brace();
    let p5 = match match_lit(s, p4, &l) {
        Some(p) => p,
        None => {
            return None;
        },
    };
    Some((Peer { id, address }, p5))
}


// ---------------------------------------------------------------------------
// Block lists
// ---------------------------------------------------------------------------
pub open spec fn spec_encode_block_items(xs: Seq<BlockV>) -> Seq<u8>
    decreases xs.len(),
{
    if xs.len() == 0 {
        Seq::empty()
    } else if xs.len() == 1 {
        spec_encode_block(xs[0])
    } else {
        spec_encode_block(xs[0]) + seq![44u8] + spec_encode_block_items(xs.drop_first())
    }
}

/// The wire form of a list: square brackets around comma-joined items.
pub open spec fn spec_encode_block_list(xs: Seq<BlockV>) -> Seq<u8> {
    seq![91u8] + spec_encode_block_items(xs) + seq![93u8]
}

pub open spec fn spec_parse_block_items(s: Seq<u8>, pos: int) -> Option<(Seq<BlockV>, int)>
    decreases s.len() - pos when 0 <= pos <= s.len()
{
    match spec_parse_block(s, pos) {
        None => None,
        Some((x, e)) => if pos < e && e < s.len() && s[e] == 44 {
            match spec_parse_block_items(s, e + 1) {
                None => None,
                Some((xs, e2)) => Some((seq![x] + xs, e2)),
            }
        } else if pos < e && e <= s.len() {
            Some((seq![x], e))
        } else {
            None
        },
    }
}

pub open spec fn spec_parse_block_list(s: Seq<u8>, pos: int) -> Option<(Seq<BlockV>, int)> {
    match spec_match_lit(s, pos, seq![91u8]) {
        None => None,
        Some(p1) => if p1 < s.len() && s[p1] == 93 {
            Some((Seq::empty(), p1 + 1))
        } else {
            match spec_parse_block_items(s, p1) {
                None => None,
                Some((xs, e)) => match spec_match_lit(s, e, seq![93u8]) {
                    None => None,
                    Some(e2) => Some((xs, e2)),
                },
            }
        },
    }
}

#[verifier::rlimit(100)]
#[verifier::spinoff_prover]
proof fn lemma_parse_block_items_at(s: Seq<u8>, pos: int, xs: Seq<BlockV>, rest: Seq<u8>)
    requires
        xs.len() >= 1,
        0 <= pos <= s.len(),
        s.subrange(pos, s.len() as int) == spec_encode_block_items(xs) + rest,
        rest.len() == 0 || rest[0] != 44,
    ensures
        spec_parse_block_items(s, pos) == Some::<(Seq<BlockV>, int)>(
            (xs, pos + spec_encode_block_items(xs).len() as int),
        ),
        pos < pos + spec_encode_block_items(xs).len() <= s.len(),
        s.subrange(pos + spec_encode_block_items(xs).len() as int, s.len() as int) == rest,
    decreases xs.len(),
{
    if xs.len() == 1 {
        assert(spec_encode_block_items(xs) == spec_encode_block(xs[0]));
        lemma_parse_block_at(s, pos, xs[0], rest);
        let e = pos + spec_encode_block(xs[0]).len() as int;
        if e < s.len() {
            assert(s.subrange(e, s.len() as int)[0] == s[e]);
            assert(s[e] != 44);
        }
        assert(seq![xs[0]] =~= xs);
    } else {
        let xs1 = xs.drop_first();
        let after0 = seq![44u8] + (spec_encode_block_items(xs1) + rest);
        assert(spec_encode_block_items(xs) + rest =~= spec_encode_block(xs[0]) + after0);
        lemma_parse_block_at(s, pos, xs[0], after0);
        let e = pos + spec_encode_block(xs[0]).len() as int;
        lemma_match_lit_at(s, e, seq![44u8], spec_encode_block_items(xs1) + rest);
        assert(s.subrange(e, s.len() as int)[0] == s[e]);
        assert(s[e] == 44);
        lemma_parse_block_items_at(s, e + 1, xs1, rest);
        assert(seq![xs[0]] + xs1 =~= xs);
    }
}

/// A list standing at `pos` is read back exactly, whatever follows.
#[verifier::rlimit(100)]
#[verifier::spinoff_prover]
pub proof fn lemma_parse_block_list_at(s: Seq<u8>, pos: int, xs: Seq<BlockV>, rest: Seq<u8>)
    requires
        0 <= pos <= s.len(),
        s.subrange(pos, s.len() as int) == spec_encode_block_list(xs) + rest,
    ensures
        spec_parse_block_list(s, pos) == Some::<(Seq<BlockV>, int)>(
            (xs, pos + spec_encode_block_list(xs).len() as int),
        ),
        pos < pos + spec_encode_block_list(xs).len() <= s.len(),
        s.subrange(pos + spec_encode_block_list(xs).len() as int, s.len() as int) == rest,
{
    let items = spec_encode_block_items(xs);
    assert(spec_encode_block_list(xs) + rest =~= seq![91u8] + (items + (seq![93u8] + rest)));
    lemma_match_lit_at(s, pos, seq![91u8], items + (seq![93u8] + rest));
    let p1 = pos + 1;
    if xs.len() == 0 {
        assert(items =~= Seq::<u8>::empty());
        assert(items + (seq![93u8] + rest) =~= seq![93u8] + rest);
        lemma_match_lit_at(s, p1, seq![93u8], rest);
        assert(s.subrange(p1, s.len() as int)[0] == s[p1]);
        assert(s[p1] == 93);
        assert(Seq::<BlockV>::empty() =~= xs);
    } else {
        assert(s.subrange(p1, s.len() as int)[0] == s[p1]);
        assert(items[0] == spec_encode_block(xs[0])[0]) by {
            if xs.len() == 1 {
            } else {
                assert((spec_encode_block(xs[0]) + seq![44u8] + spec_encode_block_items(
                    xs.drop_first(),
                ))[0] == spec_encode_block(xs[0])[0]);
            }
        }
        assert(spec_encode_block(xs[0])[0] == spec_lit_block_index()[0]);
        assert(s[p1] == 123);
        lemma_parse_block_items_at(s, p1, xs, seq![93u8] + rest);
        let e = p1 + items.len() as int;
        lemma_match_lit_at(s, e, seq![93u8], rest);
    }
}

/// Append the wire form of a list to `dst`.
pub fn encode_block_list_into(dst: &mut Vec<u8>, xs: &Vec<Block>)
    ensures
        final(dst)@ == old(dst)@ + spec_encode_block_list(crate::block::blocks_view(xs@)),
{
    dst.push(91);
    let ghost vs = crate::block::blocks_view(xs@);
    let mut i: usize = 0;
    while i < xs.len()
        invariant
            i <= xs@.len(),
            vs == crate::block::blocks_view(xs@),
            dst@ == old(dst)@ + seq![91u8] + spec_encode_block_items(vs.take(i as int)) + if i > 0
                && i < xs@.len() {
                seq![44u8]
            } else {
                Seq::<u8>::empty()
            },
        decreases xs@.len() - i,
    {
        let ghost pre = dst@;
        encode_block_into(dst, &xs[i]);
        proof {
            lemma_encode_block_items_snoc(vs.take(i as int), vs[i as int]);
            assert(vs.take((i + 1) as int) =~= vs.take(i as int).push(vs[i as int]));
        }
        if i + 1 < xs.len() {
            dst.push(44);
        }
        proof {
            assert(dst@ =~= old(dst)@ + seq![91u8] + spec_encode_block_items(vs.take(
                (i + 1) as int,
            )) + if i + 1 > 0 && i + 1 < xs@.len() {
                seq![44u8]
            } else {
                Seq::<u8>::empty()
            });
        }
        i += 1;
    }
    dst.push(93);
    proof {
        assert(vs.take(vs.len() as int) =~= vs);
        assert(dst@ =~= old(dst)@ + spec_encode_block_list(vs));
    }
}

proof fn lemma_encode_block_items_snoc(xs: Seq<BlockV>, x: BlockV)
    ensures
        spec_encode_block_items(xs.push(x)) == if xs.len() == 0 {
            spec_encode_block(x)
        } else {
            spec_encode_block_items(xs) + seq![44u8] + spec_encode_block(x)
        },
    decreases xs.len(),
{
    let w = xs.push(x);
    if xs.len() == 0 {
        assert(w.len() == 1);
        assert(w[0] == x);
    } else {
        assert(w[0] == xs[0]);
        assert(w.drop_first() =~= xs.drop_first().push(x));
        lemma_encode_block_items_snoc(xs.drop_first(), x);
        if xs.len() == 1 {
            assert(xs.drop_first().len() == 0);
            assert(spec_encode_block_items(w) == spec_encode_block(w[0]) + seq![44u8]
                + spec_encode_block_items(w.drop_first()));
            assert(spec_encode_block_items(xs) == spec_encode_block(xs[0]));
            assert(spec_encode_block_items(w) =~= spec_encode_block_items(xs) + seq![44u8]
                + spec_encode_block(x));
        } else {
            assert(spec_encode_block_items(w) =~= spec_encode_block_items(xs) + seq![44u8]
                + spec_encode_block(x));
        }
    }
}

/// Read a list at `pos`.
pub fn parse_block_list(s: &Vec<u8>, pos: usize) -> (r: Option<(Vec<Block>, usize)>)
    requires
        pos <= s@.len(),
    ensures
        match r {
            Some((v, e)) => spec_parse_block_list(s@, pos as int) == Some::<(Seq<BlockV>, int)>(
                (crate::block::blocks_view(v@), e as int),
            ) && pos < e <= s@.len(),
            None => spec_parse_block_list(s@, pos as int) is None,
        },
{
    let mut lb: Vec<u8> = Vec::new();
    lb.push(91);
    proof {
        assert(lb@ =~= seq![91u8]);
    }
    let p1 = match match_lit(s, pos, &lb) {
        Some(p) => p,
        None => {
            return None;
        },
    };
    if p1 < s.len() && s[p1] == 93 {
        let out: Vec<Block> = Vec::new();
        proof {
            assert(crate::block::blocks_view(out@) =~= Seq::<BlockV>::empty());
        }
        return Some((out, p1 + 1));
    }
    let mut acc: Vec<Block> = Vec::new();
    let mut i: usize = p1;
    loop
        invariant
            p1 <= i <= s@.len(),
            pos < s@.len(),
            spec_match_lit(s@, pos as int, seq![91u8]) == Some::<int>(p1 as int),
            !(p1 < s@.len() && s@[p1 as int] == 93),
            match spec_parse_block_items(s@, i as int) {
                Some((xs, e)) => spec_parse_block_items(s@, p1 as int) == Some::<(Seq<BlockV>, int)>(
                    (crate::block::blocks_view(acc@) + xs, e),
                ),
                None => spec_parse_block_items(s@, p1 as int) is None,
            },
        decreases s@.len() - i,
    {
        let (x, e) = match parse_block(s, i) {
            Some(z) => z,
            None => {
                return None;
            },
        };
        let ghost accv0 = crate::block::blocks_view(acc@);
        acc.push(x);
        proof {
            assert(crate::block::blocks_view(acc@) =~= accv0.push(x@));
        }
        if e < s.len() && s[e] == 44 {
            proof {
                if let Some((xs2, e2)) = spec_parse_block_items(s@, e as int + 1) {
                    assert(crate::block::blocks_view(acc@) + xs2 =~= accv0 + (seq![x@] + xs2));
                }
            }
            i = e + 1;
        } else {
            proof {
                assert(spec_parse_block_items(s@, i as int) == Some::<(Seq<BlockV>, int)>(
                    (seq![x@], e as int),
                ));
                assert(crate::block::blocks_view(acc@) =~= accv0 + seq![x@]);
            }
            let mut rb: Vec<u8> = Vec::new();
            rb.push(93);
            proof {
                assert(rb@ =~= seq![93u8]);
            }
            let e2 = match match_lit(s, e, &rb) {
                Some(p) => p,
                None => {
                    return None;
                },
            };
            return Some((acc, e2));
        }
    }
}

// ---------------------------------------------------------------------------
// Transaction lists
// ---------------------------------------------------------------------------
pub open spec fn spec_encode_tx_items(xs: Seq<TransactionV>) -> Seq<u8>
    decreases xs.len(),
{
    if xs.len() == 0 {
        Seq::empty()
    } else if xs.len() == 1 {
        spec_encode_tx(xs[0])
    } else {
        spec_encode_tx(xs[0]) + seq![44u8] + spec_encode_tx_items(xs.drop_first())
    }
}

/// The wire form of a list: square brackets around comma-joined items.
pub open spec fn spec_encode_tx_list(xs: Seq<TransactionV>) -> Seq<u8> {
    seq![91u8] + spec_encode_tx_items(xs) + seq![93u8]
}

pub open spec fn spec_parse_tx_items(s: Seq<u8>, pos: int) -> Option<(Seq<TransactionV>, int)>
    decreases s.len() - pos when 0 <= pos <= s.len()
{
    match spec_parse_tx(s, pos) {
        None => None,
        Some((x, e)) => if pos < e && e < s.len() && s[e] == 44 {
            match spec_parse_tx_items(s, e + 1) {
                None => None,
                Some((xs, e2)) => Some((seq![x] + xs, e2)),
            }
        } else if pos < e && e <= s.len() {
            Some((seq![x], e))
        } else {
            None
        },
    }
}

pub open spec fn spec_parse_tx_list(s: Seq<u8>, pos: int) -> Option<(Seq<TransactionV>, int)> {
    match spec_match_lit(s, pos, seq![91u8]) {
        None => None,
        Some(p1) => if p1 < s.len() && s[p1] == 93 {
            Some((Seq::empty(), p1 + 1))
        } else {
            match spec_parse_tx_items(s, p1) {
                None => None,
                Some((xs, e)) => match spec_match_lit(s, e, seq![93u8]) {
                    None => None,
                    Some(e2) => Some((xs, e2)),
                },
            }
        },
    }
}

#[verifier::rlimit(100)]
#[verifier::spinoff_prover]
proof fn lemma_parse_tx_items_at(s: Seq<u8>, pos: int, xs: Seq<TransactionV>, rest: Seq<u8>)
    requires
        xs.len() >= 1,
        0 <= pos <= s.len(),
        s.subrange(pos, s.len() as int) == spec_encode_tx_items(xs) + rest,
        rest.len() == 0 || rest[0] != 44,
    ensures
        spec_parse_tx_items(s, pos) == Some::<(Seq<TransactionV>, int)>(
            (xs, pos + spec_encode_tx_items(xs).len() as int),
        ),
        pos < pos + spec_encode_tx_items(xs).len() <= s.len(),
        s.subrange(pos + spec_encode_tx_items(xs).len() as int, s.len() as int) == rest,
    decreases xs.len(),
{
    if xs.len() == 1 {
        assert(spec_encode_tx_items(xs) == spec_encode_tx(xs[0]));
        lemma_parse_tx_at(s, pos, xs[0], rest);
        let e = pos + spec_encode_tx(xs[0]).len() as int;
        if e < s.len() {
            assert(s.subrange(e, s.len() as int)[0] == s[e]);
            assert(s[e] != 44);
        }
        assert(seq![xs[0]] =~= xs);
    } else {
        let xs1 = xs.drop_first();
        let after0 = seq![44u8] + (spec_encode_tx_items(xs1) + rest);
        assert(spec_encode_tx_items(xs) + rest =~= spec_encode_tx(xs[0]) + after0);
        lemma_parse_tx_at(s, pos, xs[0], after0);
        let e = pos + spec_encode_tx(xs[0]).len() as int;
        lemma_match_lit_at(s, e, seq![44u8], spec_encode_tx_items(xs1) + rest);
        assert(s.subrange(e, s.len() as int)[0] == s[e]);
        assert(s[e] == 44);
        lemma_parse_tx_items_at(s, e + 1, xs1, rest);
        assert(seq![xs[0]] + xs1 =~= xs);
    }
}

/// A list standing at `pos` is read back exactly, whatever follows.
#[verifier::rlimit(100)]
#[verifier::spinoff_prover]
pub proof fn lemma_parse_tx_list_at(s: Seq<u8>, pos: int, xs: Seq<TransactionV>, rest: Seq<u8>)
    requires
        0 <= pos <= s.len(),
        s.subrange(pos, s.len() as int) == spec_encode_tx_list(xs) + rest,
    ensures
        spec_parse_tx_list(s, pos) == Some::<(Seq<TransactionV>, int)>(
            (xs, pos + spec_encode_tx_list(xs).len() as int),
        ),
        pos < pos + spec_encode_tx_list(xs).len() <= s.len(),
        s.subrange(pos + spec_encode_tx_list(xs).len() as int, s.len() as int) == rest,
{
    let items = spec_encode_tx_items(xs);
    assert(spec_encode_tx_list(xs) + rest =~= seq![91u8] + (items + (seq![93u8] + rest)));
    lemma_match_lit_at(s, pos, seq![91u8], items + (seq![93u8] + rest));
    let p1 = pos + 1;
    if xs.len() == 0 {
        assert(items =~= Seq::<u8>::empty());
        assert(items + (seq![93u8] + rest) =~= seq![93u8] + rest);
        lemma_match_lit_at(s, p1, seq![93u8], rest);
        assert(s.subrange(p1, s.len() as int)[0] == s[p1]);
        assert(s[p1] == 93);
        assert(Seq::<TransactionV>::empty() =~= xs);
    } else {
        assert(s.subrange(p1, s.len() as int)[0] == s[p1]);
        assert(items[0] == spec_encode_tx(xs[0])[0]) by {
            if xs.len() == 1 {
            } else {
                assert((spec_encode_tx(xs[0]) + seq![44u8] + spec_encode_tx_items(
                    xs.drop_first(),
                ))[0] == spec_encode_tx(xs[0])[0]);
            }
        }
        assert(spec_encode_tx(xs[0])[0] == spec_lit_tx_sender()[0]);
        assert(s[p1] == 123);
        lemma_parse_tx_items_at(s, p1, xs, seq![93u8] + rest);
        let e = p1 + items.len() as int;
        lemma_match_lit_at(s, e, seq![93u8], rest);
    }
}

/// Append the wire form of a list to `dst`.
pub fn encode_tx_list_into(dst: &mut Vec<u8>, xs: &Vec<Transaction>)
    ensures
        final(dst)@ == old(dst)@ + spec_encode_tx_list(crate::transaction::txs_view(xs@)),
{
    dst.push(91);
    let ghost vs = crate::transaction::txs_view(xs@);
    let mut i: usize = 0;
    while i < xs.len()
        invariant
            i <= xs@.len(),
            vs == crate::transaction::txs_view(xs@),
            dst@ == old(dst)@ + seq![91u8] + spec_encode_tx_items(vs.take(i as int)) + if i > 0
                && i < xs@.len() {
                seq![44u8]
            } else {
                Seq::<u8>::empty()
            },
        decreases xs@.len() - i,
    {
        let ghost pre = dst@;
        encode_tx_into(dst, &xs[i]);
        proof {
            lemma_encode_tx_items_snoc(vs.take(i as int), vs[i as int]);
            assert(vs.take((i + 1) as int) =~= vs.take(i as int).push(vs[i as int]));
        }
        if i + 1 < xs.len() {
            dst.push(44);
        }
        proof {
            assert(dst@ =~= old(dst)@ + seq![91u8] + spec_encode_tx_items(vs.take(
                (i + 1) as int,
            )) + if i + 1 > 0 && i + 1 < xs@.len() {
                seq![44u8]
            } else {
                Seq::<u8>::empty()
            });
        }
        i += 1;
    }
    dst.push(93);
    proof {
        assert(vs.take(vs.len() as int) =~= vs);
        assert(dst@ =~= old(dst)@ + spec_encode_tx_list(vs));
    }
}

proof fn lemma_encode_tx_items_snoc(xs: Seq<TransactionV>, x: TransactionV)
    ensures
        spec_encode_tx_items(xs.push(x)) == if xs.len() == 0 {
            spec_encode_tx(x)
        } else {
            spec_encode_tx_items(xs) + seq![44u8] + spec_encode_tx(x)
        },
    decreases xs.len(),
{
    let w = xs.push(x);
    if xs.len() == 0 {
        assert(w.len() == 1);
        assert(w[0] == x);
    } else {
        assert(w[0] == xs[0]);
        assert(w.drop_first() =~= xs.drop_first().push(x));
        lemma_encode_tx_items_snoc(xs.drop_first(), x);
        if xs.len() == 1 {
            assert(xs.drop_first().len() == 0);
            assert(spec_encode_tx_items(w) == spec_encode_tx(w[0]) + seq![44u8]
                + spec_encode_tx_items(w.drop_first()));
            assert(spec_encode_tx_items(xs) == spec_encode_tx(xs[0]));
            assert(spec_encode_tx_items(w) =~= spec_encode_tx_items(xs) + seq![44u8]
                + spec_encode_tx(x));
        } else {
            assert(spec_encode_tx_items(w) =~= spec_encode_tx_items(xs) + seq![44u8]
                + spec_encode_tx(x));
        }
    }
}

/// Read a list at `pos`.
pub fn parse_tx_list(s: &Vec<u8>, pos: usize) -> (r: Option<(Vec<Transaction>, usize)>)
    requires
        pos <= s@.len(),
    ensures
        match r {
            Some((v, e)) => spec_parse_tx_list(s@, pos as int) == Some::<(Seq<TransactionV>, int)>(
                (crate::transaction::txs_view(v@), e as int),
            ) && pos < e <= s@.len(),
            None => spec_parse_tx_list(s@, pos as int) is None,
        },
{
    let mut lb: Vec<u8> = Vec::new();
    lb.push(91);
    proof {
        assert(lb@ =~= seq![91u8]);
    }
    let p1 = match match_lit(s, pos, &lb) {
        Some(p) => p,
        None => {
            return None;
        },
    };
    if p1 < s.len() && s[p1] == 93 {
        let out: Vec<Transaction> = Vec::new();
        proof {
            assert(crate::transaction::txs_view(out@) =~= Seq::<TransactionV>::empty());
        }
        return Some((out, p1 + 1));
    }
    let mut acc: Vec<Transaction> = Vec::new();
    let mut i: usize = p1;
    loop
        invariant
            p1 <= i <= s@.len(),
            pos < s@.len(),
            spec_match_lit(s@, pos as int, seq![91u8]) == Some::<int>(p1 as int),
            !(p1 < s@.len() && s@[p1 as int] == 93),
            match spec_parse_tx_items(s@, i as int) {
                Some((xs, e)) => spec_parse_tx_items(s@, p1 as int) == Some::<(Seq<TransactionV>, int)>(
                    (crate::transaction::txs_view(acc@) + xs, e),
                ),
                None => spec_parse_tx_items(s@, p1 as int) is None,
            },
        decreases s@.len() - i,
    {
        let (x, e) = match parse_tx(s, i) {
            Some(z) => z,
            None => {
                return None;
            },
        };
        let ghost accv0 = crate::transaction::txs_view(acc@);
        acc.push(x);
        proof {
            assert(crate::transaction::txs_view(acc@) =~= accv0.push(x@));
        }
        if e < s.len() && s[e] == 44 {
            proof {
                if let Some((xs2, e2)) = spec_parse_tx_items(s@, e as int + 1) {
                    assert(crate::transaction::txs_view(acc@) + xs2 =~= accv0 + (seq![x@] + xs2));
                }
            }
            i = e + 1;
        } else {
            proof {
                assert(spec_parse_tx_items(s@, i as int) == Some::<(Seq<TransactionV>, int)>(
                    (seq![x@], e as int),
                ));
                assert(crate::transaction::txs_view(acc@) =~= accv0 + seq![x@]);
            }
            let mut rb: Vec<u8> = Vec::new();
            rb.push(93);
            proof {
                assert(rb@ =~= seq![93u8]);
            }
            let e2 = match match_lit(s, e, &rb) {
                Some(p) => p,
                None => {
                    return None;
                },
            };
            return Some((acc, e2));
        }
    }
}

// ---------------------------------------------------------------------------
// Peer lists
// ---------------------------------------------------------------------------
pub open spec fn spec_encode_peer_items(xs: Seq<PeerV>) -> Seq<u8>
    decreases xs.len(),
{
    if xs.len() == 0 {
        Seq::empty()
    } else if xs.len() == 1 {
        spec_encode_peer(xs[0])
    } else {
        spec_encode_peer(xs[0]) + seq![44u8] + spec_encode_peer_items(xs.drop_first())
    }
}

/// The wire form of a list: square brackets around comma-joined items.
pub open spec fn spec_encode_peer_list(xs: Seq<PeerV>) -> Seq<u8> {
    seq![91u8] + spec_encode_peer_items(xs) + seq![93u8]
}

pub open spec fn spec_parse_peer_items(s: Seq<u8>, pos: int) -> Option<(Seq<PeerV>, int)>
    decreases s.len() - pos when 0 <= pos <= s.len()
{
    match spec_parse_peer(s, pos) {
        None => None,
        Some((x, e)) => if pos < e && e < s.len() && s[e] == 44 {
            match spec_parse_peer_items(s, e + 1) {
                None => None,
                Some((xs, e2)) => Some((seq![x] + xs, e2)),
            }
        } else if pos < e && e <= s.len() {
            Some((seq![x], e))
        } else {
            None
        },
    }
}

pub open spec fn spec_parse_peer_list(s: Seq<u8>, pos: int) -> Option<(Seq<PeerV>, int)> {
    match spec_match_lit(s, pos, seq![91u8]) {
        None => None,
        Some(p1) => if p1 < s.len() && s[p1] == 93 {
            Some((Seq::empty(), p1 + 1))
        } else {
            match spec_parse_peer_items(s, p1) {
                None => None,
                Some((xs, e)) => match spec_match_lit(s, e, seq![93u8]) {
                    None => None,
                    Some(e2) => Some((xs, e2)),
                },
            }
        },
    }
}

#[verifier::rlimit(100)]
#[verifier::spinoff_prover]
proof fn lemma_parse_peer_items_at(s: Seq<u8>, pos: int, xs: Seq<PeerV>, rest: Seq<u8>)
    requires
        xs.len() >= 1,
        0 <= pos <= s.len(),
        s.subrange(pos, s.len() as int) == spec_encode_peer_items(xs) + rest,
        rest.len() == 0 || rest[0] != 44,
    ensures
        spec_parse_peer_items(s, pos) == Some::<(Seq<PeerV>, int)>(
            (xs, pos + spec_encode_peer_items(xs).len() as int),
        ),
        pos < pos + spec_encode_peer_items(xs).len() <= s.len(),
        s.subrange(pos + spec_encode_peer_items(xs).len() as int, s.len() as int) == rest,
    decreases xs.len(),
{
    if xs.len() == 1 {
        assert(spec_encode_peer_items(xs) == spec_encode_peer(xs[0]));
        lemma_parse_peer_at(s, pos, xs[0], rest);
        let e = pos + spec_encode_peer(xs[0]).len() as int;
        if e < s.len() {
            assert(s.subrange(e, s.len() as int)[0] == s[e]);
            assert(s[e] != 44);
        }
        assert(seq![xs[0]] =~= xs);
    } else {
        let xs1 = xs.drop_first();
        let after0 = seq![44u8] + (spec_encode_peer_items(xs1) + rest);
        assert(spec_encode_peer_items(xs) + rest =~= spec_encode_peer(xs[0]) + after0);
        lemma_parse_peer_at(s, pos, xs[0], after0);
        let e = pos + spec_encode_peer(xs[0]).len() as int;
        lemma_match_lit_at(s, e, seq![44u8], spec_encode_peer_items(xs1) + rest);
        assert(s.subrange(e, s.len() as int)[0] == s[e]);
        assert(s[e] == 44);
        lemma_parse_peer_items_at(s, e + 1, xs1, rest);
        assert(seq![xs[0]] + xs1 =~= xs);
    }
}

/// A list standing at `pos` is read back exactly, whatever follows.
#[verifier::rlimit(100)]
#[verifier::spinoff_prover]
pub proof fn lemma_parse_peer_list_at(s: Seq<u8>, pos: int, xs: Seq<PeerV>, rest: Seq<u8>)
    requires
        0 <= pos <= s.len(),
        s.subrange(pos, s.len() as int) == spec_encode_peer_list(xs) + rest,
    ensures
        spec_parse_peer_list(s, pos) == Some::<(Seq<PeerV>, int)>(
            (xs, pos + spec_encode_peer_list(xs).len() as int),
        ),
        pos < pos + spec_encode_peer_list(xs).len() <= s.len(),
        s.subrange(pos + spec_encode_peer_list(xs).len() as int, s.len() as int) == rest,
{
    let items = spec_encode_peer_items(xs);
    assert(spec_encode_peer_list(xs) + rest =~= seq![91u8] + (items + (seq![93u8] + rest)));
    lemma_match_lit_at(s, pos, seq![91u8], items + (seq![93u8] + rest));
    let p1 = pos + 1;
    if xs.len() == 0 {
        assert(items =~= Seq::<u8>::empty());
        assert(items + (seq![93u8] + rest) =~= seq![93u8] + rest);
        lemma_match_lit_at(s, p1, seq![93u8], rest);
        assert(s.subrange(p1, s.len() as int)[0] == s[p1]);
        assert(s[p1] == 93);
        assert(Seq::<PeerV>::empty() =~= xs);
    } else {
        assert(s.subrange(p1, s.len() as int)[0] == s[p1]);
        assert(items[0] == spec_encode_peer(xs[0])[0]) by {
            if xs.len() == 1 {
            } else {
                assert((spec_encode_peer(xs[0]) + seq![44u8] + spec_encode_peer_items(
                    xs.drop_first(),
                ))[0] == spec_encode_peer(xs[0])[0]);
            }
        }
        assert(spec_encode_peer(xs[0])[0] == spec_lit_peer_id()[0]);
        assert(s[p1] == 123);
        lemma_parse_peer_items_at(s, p1, xs, seq![93u8] + rest);
        let e = p1 + items.len() as int;
        lemma_match_lit_at(s, e, seq![93u8], rest);
    }
}

/// Append the wire form of a list to `dst`.
pub fn encode_peer_list_into(dst: &mut Vec<u8>, xs: &Vec<Peer>)
    ensures
        final(dst)@ == old(dst)@ + spec_encode_peer_list(crate::peers::peers_view(xs@)),
{
    dst.push(91);
    let ghost vs = crate::peers::peers_view(xs@);
    let mut i: usize = 0;
    while i < xs.len()
        invariant
            i <= xs@.len(),
            vs == crate::peers::peers_view(xs@),
            dst@ == old(dst)@ + seq![91u8] + spec_encode_peer_items(vs.take(i as int)) + if i > 0
                && i < xs@.len() {
                seq![44u8]
            } else {
                Seq::<u8>::empty()
            },
        decreases xs@.len() - i,
    {
        let ghost pre = dst@;
        encode_peer_into(dst, &xs[i]);
        proof {
            lemma_encode_peer_items_snoc(vs.take(i as int), vs[i as int]);
            assert(vs.take((i + 1) as int) =~= vs.take(i as int).push(vs[i as int]));
        }
        if i + 1 < xs.len() {
            dst.push(44);
        }
        proof {
            assert(dst@ =~= old(dst)@ + seq![91u8] + spec_encode_peer_items(vs.take(
                (i + 1) as int,
            )) + if i + 1 > 0 && i + 1 < xs@.len() {
                seq![44u8]
            } else {
                Seq::<u8>::empty()
            });
        }
        i += 1;
    }
    dst.push(93);
    proof {
        assert(vs.take(vs.len() as int) =~= vs);
        assert(dst@ =~= old(dst)@ + spec_encode_peer_list(vs));
    }
}

proof fn lemma_encode_peer_items_snoc(xs: Seq<PeerV>, x: PeerV)
    ensures
        spec_encode_peer_items(xs.push(x)) == if xs.len() == 0 {
            spec_encode_peer(x)
        } else {
            spec_encode_peer_items(xs) + seq![44u8] + spec_encode_peer(x)
        },
    decreases xs.len(),
{
    let w = xs.push(x);
    if xs.len() == 0 {
        assert(w.len() == 1);
        assert(w[0] == x);
    } else {
        assert(w[0] == xs[0]);
        assert(w.drop_first() =~= xs.drop_first().push(x));
        lemma_encode_peer_items_snoc(xs.drop_first(), x);
        if xs.len() == 1 {
            assert(xs.drop_first().len() == 0);
            assert(spec_encode_peer_items(w) == spec_encode_peer(w[0]) + seq![44u8]
                + spec_encode_peer_items(w.drop_first()));
            assert(spec_encode_peer_items(xs) == spec_encode_peer(xs[0]));
            assert(spec_encode_peer_items(w) =~= spec_encode_peer_items(xs) + seq![44u8]
                + spec_encode_peer(x));
        } else {
            assert(spec_encode_peer_items(w) =~= spec_encode_peer_items(xs) + seq![44u8]
                + spec_encode_peer(x));
        }
    }
}

/// Read a list at `pos`.
pub fn parse_peer_list(s: &Vec<u8>, pos: usize) -> (r: Option<(Vec<Peer>, usize)>)
    requires
        pos <= s@.len(),
    ensures
        match r {
            Some((v, e)) => spec_parse_peer_list(s@, pos as int) == Some::<(Seq<PeerV>, int)>(
                (crate::peers::peers_view(v@), e as int),
            ) && pos < e <= s@.len(),
            None => spec_parse_peer_list(s@, pos as int) is None,
        },
{
    let mut lb: Vec<u8> = Vec::new();
    lb.push(91);
    proof {
        assert(lb@ =~= seq![91u8]);
    }
    let p1 = match match_lit(s, pos, &lb) {
        Some(p) => p,
        None => {
            return None;
        },
    };
    if p1 < s.len() && s[p1] == 93 {
        let out: Vec<Peer> = Vec::new();
        proof {
            assert(crate::peers::peers_view(out@) =~= Seq::<PeerV>::empty());
        }
        return Some((out, p1 + 1));
    }
    let mut acc: Vec<Peer> = Vec::new();
    let mut i: usize = p1;
    loop
        invariant
            p1 <= i <= s@.len(),
            pos < s@.len(),
            spec_match_lit(s@, pos as int, seq![91u8]) == Some::<int>(p1 as int),
            !(p1 < s@.len() && s@[p1 as int] == 93),
            match spec_parse_peer_items(s@, i as int) {
                Some((xs, e)) => spec_parse_peer_items(s@, p1 as int) == Some::<(Seq<PeerV>, int)>(
                    (crate::peers::peers_view(acc@) + xs, e),
                ),
                None => spec_parse_peer_items(s@, p1 as int) is None,
            },
        decreases s@.len() - i,
    {
        let (x, e) = match parse_peer(s, i) {
            Some(z) => z,
            None => {
                return None;
            },
        };
        let ghost accv0 = crate::peers::peers_view(acc@);
        acc.push(x);
        proof {
            assert(crate::peers::peers_view(acc@) =~= accv0.push(x@));
        }
        if e < s.len() && s[e] == 44 {
            proof {
                if let Some((xs2, e2)) = spec_parse_peer_items(s@, e as int + 1) {
                    assert(crate::peers::peers_view(acc@) + xs2 =~= accv0 + (seq![x@] + xs2));
                }
            }
            i = e + 1;
        } else {
            proof {
                assert(spec_parse_peer_items(s@, i as int) == Some::<(Seq<PeerV>, int)>(
                    (seq![x@], e as int),
                ));
                assert(crate::peers::peers_view(acc@) =~= accv0 + seq![x@]);
            }
            let mut rb: Vec<u8> = Vec::new();
            rb.push(93);
            proof {
                assert(rb@ =~= seq![93u8]);
            }
            let e2 = match match_lit(s, e, &rb) {
                Some(p) => p,
                None => {
                    return None;
                },
            };
            return Some((acc, e2));
        }
    }
}

// ---------------------------------------------------------------------------
// Balance tables: a JSON object from address to amount
// ---------------------------------------------------------------------------
pub open spec fn spec_encode_balance_pair(p: (Seq<u8>, u64)) -> Seq<u8> {
    spec_encode_string(p.0) + seq![58u8] + dec_digits(p.1 as nat)
}

pub open spec fn spec_encode_balance_items(xs: Seq<(Seq<u8>, u64)>) -> Seq<u8>
    decreases xs.len(),
{
    if xs.len() == 0 {
        Seq::empty()
    } else if xs.len() == 1 {
        spec_encode_balance_pair(xs[0])
    } else {
        spec_encode_balance_pair(xs[0]) + seq![44u8] + spec_encode_balance_items(xs.drop_first())
    }
}

/// The wire form of the balance table.
pub open spec fn spec_encode_balances(xs: Seq<(Seq<u8>, u64)>) -> Seq<u8> {
    seq![123u8] + spec_encode_balance_items(xs) + seq![125u8]
}

pub open spec fn spec_parse_balance_pair(s: Seq<u8>, pos: int) -> Option<((Seq<u8>, u64), int)> {
    match spec_parse_string(s, pos) {
        None => None,
        Some((k, p1)) => match spec_match_lit(s, p1, seq![58u8]) {
            None => None,
            Some(p2) => match spec_parse_u64(s, p2) {
                None => None,
                Some((v, p3)) => Some(((k, v), p3)),
            },
        },
    }
}

pub open spec fn spec_parse_balance_items(s: Seq<u8>, pos: int) -> Option<(
    Seq<(Seq<u8>, u64)>,
    int,
)>
    decreases s.len() - pos when 0 <= pos <= s.len()
{
    match spec_parse_balance_pair(s, pos) {
        None => None,
        Some((x, e)) => if pos < e && e < s.len() && s[e] == 44 {
            match spec_parse_balance_items(s, e + 1) {
                None => None,
                Some((xs, e2)) => Some((seq![x] + xs, e2)),
            }
        } else if pos < e && e <= s.len() {
            Some((seq![x], e))
        } else {
            None
        },
    }
}

pub open spec fn spec_parse_balances(s: Seq<u8>, pos: int) -> Option<(Seq<(Seq<u8>, u64)>, int)> {
    match spec_match_lit(s, pos, seq![123u8]) {
        None => None,
        Some(p1) => if p1 < s.len() && s[p1] == 125 {
            Some((Seq::empty(), p1 + 1))
        } else {
            match spec_parse_balance_items(s, p1) {
                None => None,
                Some((xs, e)) => match spec_match_lit(s, e, seq![125u8]) {
                    None => None,
                    Some(e2) => Some((xs, e2)),
                },
            }
        },
    }
}

proof fn lemma_parse_balance_pair_at(s: Seq<u8>, pos: int, p: (Seq<u8>, u64), rest: Seq<u8>)
    requires
        0 <= pos <= s.len(),
        s.subrange(pos, s.len() as int) == spec_encode_balance_pair(p) + rest,
        rest.len() == 0 || !crate::numfmt::is_dec_digit(rest[0]),
    ensures
        spec_parse_balance_pair(s, pos) == Some::<((Seq<u8>, u64), int)>(
            (p, pos + spec_encode_balance_pair(p).len() as int),
        ),
        pos < pos + spec_encode_balance_pair(p).len() <= s.len(),
        s.subrange(pos + spec_encode_balance_pair(p).len() as int, s.len() as int) == rest,
{
    let tval = dec_digits(p.1 as nat) + rest;
    let tcolon = seq![58u8] + tval;
    assert(spec_encode_balance_pair(p) + rest =~= spec_encode_string(p.0) + tcolon);
    lemma_parse_string_at(s, pos, p.0, tcolon);
    let p1 = pos + spec_encode_string(p.0).len() as int;
    lemma_match_lit_at(s, p1, seq![58u8], tval);
    let p2 = p1 + 1;
    lemma_parse_u64_at(s, p2, p.1, rest);
    lemma_chop(s, p2, dec_digits(p.1 as nat), rest);
    assert((p.0, p.1) == p);
}

#[verifier::rlimit(100)]
#[verifier::spinoff_prover]
proof fn lemma_parse_balance_items_at(s: Seq<u8>, pos: int, xs: Seq<(Seq<u8>, u64)>, rest: Seq<u8>)
    requires
        xs.len() >= 1,
        0 <= pos <= s.len(),
        s.subrange(pos, s.len() as int) == spec_encode_balance_items(xs) + rest,
        rest.len() >= 1,
        rest[0] != 44 && !crate::numfmt::is_dec_digit(rest[0]),
    ensures
        spec_parse_balance_items(s, pos) == Some::<(Seq<(Seq<u8>, u64)>, int)>(
            (xs, pos + spec_encode_balance_items(xs).len() as int),
        ),
        pos < pos + spec_encode_balance_items(xs).len() <= s.len(),
        s.subrange(pos + spec_encode_balance_items(xs).len() as int, s.len() as int) == rest,
    decreases xs.len(),
{
    if xs.len() == 1 {
        assert(spec_encode_balance_items(xs) == spec_encode_balance_pair(xs[0]));
        lemma_parse_balance_pair_at(s, pos, xs[0], rest);
        let e = pos + spec_encode_balance_pair(xs[0]).len() as int;
        if e < s.len() {
            assert(s.subrange(e, s.len() as int)[0] == s[e]);
            assert(s[e] != 44);
        }
        assert(seq![xs[0]] =~= xs);
    } else {
        let xs1 = xs.drop_first();
        let after0 = seq![44u8] + (spec_encode_balance_items(xs1) + rest);
        assert(spec_encode_balance_items(xs) + rest =~= spec_encode_balance_pair(xs[0]) + after0);
        assert(after0.len() >= 1 && after0[0] == 44);
        lemma_parse_balance_pair_at(s, pos, xs[0], after0);
        let e = pos + spec_encode_balance_pair(xs[0]).len() as int;
        lemma_match_lit_at(s, e, seq![44u8], spec_encode_balance_items(xs1) + rest);
        assert(s.subrange(e, s.len() as int)[0] == s[e]);
        assert(s[e] == 44);
        lemma_parse_balance_items_at(s, e + 1, xs1, rest);
        assert(seq![xs[0]] + xs1 =~= xs);
    }
}

/// The balance table standing at `pos` is read back exactly.
#[verifier::rlimit(100)]
#[verifier::spinoff_prover]
pub proof fn lemma_parse_balances_at(s: Seq<u8>, pos: int, xs: Seq<(Seq<u8>, u64)>, rest: Seq<u8>)
    requires
        0 <= pos <= s.len(),
        s.subrange(pos, s.len() as int) == spec_encode_balances(xs) + rest,
    ensures
        spec_parse_balances(s, pos) == Some::<(Seq<(Seq<u8>, u64)>, int)>(
            (xs, pos + spec_encode_balances(xs).len() as int),
        ),
        pos < pos + spec_encode_balances(xs).len() <= s.len(),
        s.subrange(pos + spec_encode_balances(xs).len() as int, s.len() as int) == rest,
{
    let items = spec_encode_balance_items(xs);
    assert(spec_encode_balances(xs) + rest =~= seq![123u8] + (items + (seq![125u8] + rest)));
    lemma_match_lit_at(s, pos, seq![123u8], items + (seq![125u8] + rest));
    let p1 = pos + 1;
    if xs.len() == 0 {
        assert(items =~= Seq::<u8>::empty());
        assert(items + (seq![125u8] + rest) =~= seq![125u8] + rest);
        lemma_match_lit_at(s, p1, seq![125u8], rest);
        assert(s.subrange(p1, s.len() as int)[0] == s[p1]);
        assert(s[p1] == 125);
        assert(Seq::<(Seq<u8>, u64)>::empty() =~= xs);
    } else {
        assert(s.subrange(p1, s.len() as int)[0] == s[p1]);
        assert(items[0] == spec_encode_balance_pair(xs[0])[0]) by {
            if xs.len() == 1 {
            } else {
                assert((spec_encode_balance_pair(xs[0]) + seq![44u8] + spec_encode_balance_items(
                    xs.drop_first(),
                ))[0] == spec_encode_balance_pair(xs[0])[0]);
            }
        }
        assert(spec_encode_balance_pair(xs[0])[0] == 34) by {
            assert(spec_encode_balance_pair(xs[0])[0] == spec_encode_string(xs[0].0)[0]);
            assert(spec_encode_string(xs[0].0)[0] == 34);
        }
        assert(s[p1] == 34);
        lemma_parse_balance_items_at(s, p1, xs, seq![125u8] + rest);
        let e = p1 + items.len() as int;
        lemma_match_lit_at(s, e, seq![125u8], rest);
    }
}

/// Append the wire form of the balance table to `dst`.
pub fn encode_balances_into(dst: &mut Vec<u8>, entries: &Vec<(Vec<u8>, u64)>)
    ensures
        final(dst)@ == old(dst)@ + spec_encode_balances(crate::balances::entries_view(entries@)),
{
    dst.push(123);
    let ghost vs = crate::balances::entries_view(entries@);
    let mut i: usize = 0;
    while i < entries.len()
        invariant
            i <= entries@.len(),
            vs == crate::balances::entries_view(entries@),
            dst@ == old(dst)@ + seq![123u8] + spec_encode_balance_items(vs.take(i as int)) + if i
                > 0 && i < entries@.len() {
                seq![44u8]
            } else {
                Seq::<u8>::empty()
            },
        decreases entries@.len() - i,
    {
        encode_string_into(dst, &entries[i].0);
        dst.push(58);
        let d = u64_to_dec(entries[i].1);
        push_all(dst, &d);
        proof {
            lemma_encode_balance_items_snoc(vs.take(i as int), vs[i as int]);
            assert(vs.take((i + 1) as int) =~= vs.take(i as int).push(vs[i as int]));
        }
        if i + 1 < entries.len() {
            dst.push(44);
        }
        proof {
            assert(dst@ =~= old(dst)@ + seq![123u8] + spec_encode_balance_items(vs.take(
                (i + 1) as int,
            )) + if i + 1 > 0 && i + 1 < entries@.len() {
                seq![44u8]
            } else {
                Seq::<u8>::empty()
            });
        }
        i += 1;
    }
    dst.push(125);
    proof {
        assert(vs.take(vs.len() as int) =~= vs);
        assert(dst@ =~= old(dst)@ + spec_encode_balances(vs));
    }
}

proof fn lemma_encode_balance_items_snoc(xs: Seq<(Seq<u8>, u64)>, x: (Seq<u8>, u64))
    ensures
        spec_encode_balance_items(xs.push(x)) == if xs.len() == 0 {
            spec_encode_balance_pair(x)
        } else {
            spec_encode_balance_items(xs) + seq![44u8] + spec_encode_balance_pair(x)
        },
    decreases xs.len(),
{
    let w = xs.push(x);
    if xs.len() == 0 {
        assert(w.len() == 1);
        assert(w[0] == x);
    } else {
        assert(w[0] == xs[0]);
        assert(w.drop_first() =~= xs.drop_first().push(x));
        lemma_encode_balance_items_snoc(xs.drop_first(), x);
        if xs.len() == 1 {
            assert(xs.drop_first().len() == 0);
            assert(spec_encode_balance_items(w) == spec_encode_balance_pair(w[0]) + seq![44u8]
                + spec_encode_balance_items(w.drop_first()));
            assert(spec_encode_balance_items(xs) == spec_encode_balance_pair(xs[0]));
            assert(spec_encode_balance_items(w) =~= spec_encode_balance_items(xs) + seq![44u8]
                + spec_encode_balance_pair(x));
        } else {
            assert(spec_encode_balance_items(w) =~= spec_encode_balance_items(xs) + seq![44u8]
                + spec_encode_balance_pair(x));
        }
    }
}

/// Read a balance pair at `pos`.
fn parse_balance_pair(s: &Vec<u8>, pos: usize) -> (r: Option<((Vec<u8>, u64), usize)>)
    requires
        pos <= s@.len(),
    ensures
        match r {
            Some((p, e)) => spec_parse_balance_pair(s@, pos as int) == Some::<(
                (Seq<u8>, u64),
                int,
            )>(((p.0@, p.1), e as int)) && pos < e <= s@.len(),
            None => spec_parse_balance_pair(s@, pos as int) is None,
        },
{
    let (k, p1) = match parse_string(s, pos) {
        Some(x) => x,
        None => {
            return None;
        },
    };
    let mut colon: Vec<u8> = Vec::new();
    colon.push(58);
    proof {
        assert(colon@ =~= seq![58u8]);
    }
    let p2 = match match_lit(s, p1, &colon) {
        Some(p) => p,
        None => {
            return None;
        },
    };
    let (v, p3) = match parse_u64(s, p2) {
        Some(x) => x,
        None => {
            return None;
        },
    };
    Some(((k, v), p3))
}

/// Read the balance table at `pos`.
pub fn parse_balances(s: &Vec<u8>, pos: usize) -> (r: Option<(Vec<(Vec<u8>, u64)>, usize)>)
    requires
        pos <= s@.len(),
    ensures
        match r {
            Some((v, e)) => spec_parse_balances(s@, pos as int) == Some::<(
                Seq<(Seq<u8>, u64)>,
                int,
            )>((crate::balances::entries_view(v@), e as int)) && pos < e <= s@.len(),
            None => spec_parse_balances(s@, pos as int) is None,
        },
{
    let mut lb: Vec<u8> = Vec::new();
    lb.push(123);
    proof {
        assert(lb@ =~= seq![123u8]);
    }
    let p1 = match match_lit(s, pos, &lb) {
        Some(p) => p,
        None => {
            return None;
        },
    };
    if p1 < s.len() && s[p1] == 125 {
        let out: Vec<(Vec<u8>, u64)> = Vec::new();
        proof {
            assert(crate::balances::entries_view(out@) =~= Seq::<(Seq<u8>, u64)>::empty());
        }
        return Some((out, p1 + 1));
    }
    let mut acc: Vec<(Vec<u8>, u64)> = Vec::new();
    let mut i: usize = p1;
    loop
        invariant
            p1 <= i <= s@.len(),
            pos < s@.len(),
            spec_match_lit(s@, pos as int, seq![123u8]) == Some::<int>(p1 as int),
            !(p1 < s@.len() && s@[p1 as int] == 125),
            match spec_parse_balance_items(s@, i as int) {
                Some((xs, e)) => spec_parse_balance_items(s@, p1 as int) == Some::<(
                    Seq<(Seq<u8>, u64)>,
                    int,
                )>((crate::balances::entries_view(acc@) + xs, e)),
                None => spec_parse_balance_items(s@, p1 as int) is None,
            },
        decreases s@.len() - i,
    {
        let (x, e) = match parse_balance_pair(s, i) {
            Some(z) => z,
            None => {
                return None;
            },
        };
        let ghost accv0 = crate::balances::entries_view(acc@);
        let ghost xv = (x.0@, x.1);
        acc.push(x);
        proof {
            assert(crate::balances::entries_view(acc@) =~= accv0.push(xv));
        }
        if e < s.len() && s[e] == 44 {
            proof {
                if let Some((xs2, e2)) = spec_parse_balance_items(s@, e as int + 1) {
                    assert(crate::balances::entries_view(acc@) + xs2 =~= accv0 + (seq![xv] + xs2));
                }
            }
            i = e + 1;
        } else {
            proof {
                assert(spec_parse_balance_items(s@, i as int) == Some::<(Seq<(Seq<u8>, u64)>, int)>(
                    (seq![xv], e as int),
                ));
                assert(crate::balances::entries_view(acc@) =~= accv0 + seq![xv]);
            }
            let mut rb: Vec<u8> = Vec::new();
            rb.push(125);
            proof {
                assert(rb@ =~= seq![125u8]);
            }
            let e2 = match match_lit(s, e, &rb) {
                Some(p) => p,
                None => {
                    return None;
                },
            };
            return Some((acc, e2));
        }
    }
}

// ---------------------------------------------------------------------------
// Messages
// ---------------------------------------------------------------------------
/// The wire form of a message: a bare string for a request without payload,
/// a one-key object for the rest.
pub open spec fn spec_encode_message(m: MsgV) -> Seq<u8> {
    match m {
        MsgV::RequestBlockchain => spec_lit_msg_request_blockchain(),
        MsgV::SendBlockchain(bs) => spec_lit_msg_send_blockchain() + spec_encode_block_list(bs)
            + seq![125u8],
        MsgV::RequestPeers => spec_lit_msg_request_peers(),
        MsgV::SendPeers(ps) => spec_lit_msg_send_peers() + spec_encode_peer_list(ps)
            + seq![125u8],
        MsgV::NewTransaction(t, pk) => spec_lit_msg_new_transaction() + spec_encode_tx(t)
            + seq![44u8] + spec_encode_string(pk) + spec_lit_bracket_close_brace(),
        MsgV::MineNewBlock => spec_lit_msg_mine_new_block(),
    }
}

/// Reading one whole message: nothing may follow it.
pub open spec fn spec_decode_message(s: Seq<u8>) -> Option<MsgV> {
    if s == spec_lit_msg_request_blockchain() {
        Some(MsgV::RequestBlockchain)
    } else if s == spec_lit_msg_request_peers() {
        Some(MsgV::RequestPeers)
    } else if s == spec_lit_msg_mine_new_block() {
        Some(MsgV::MineNewBlock)
    } else {
        match spec_match_lit(s, 0, spec_lit_msg_send_blockchain()) {
            Some(p) => match spec_parse_block_list(s, p) {
                None => None,
                Some((bs, e)) => match spec_match_lit(s, e, seq![125u8]) {
                    None => None,
                    Some(e2) => if e2 == s.len() {
                        Some(MsgV::SendBlockchain(bs))
                    } else {
                        None
                    },
                },
            },
            None => match spec_match_lit(s, 0, spec_lit_msg_send_peers()) {
                Some(p) => match spec_parse_peer_list(s, p) {
                    None => None,
                    Some((ps, e)) => match spec_match_lit(s, e, seq![125u8]) {
                        None => None,
                        Some(e2) => if e2 == s.len() {
                            Some(MsgV::SendPeers(ps))
                        } else {
                            None
                        },
                    },
                },
                None => match spec_match_lit(s, 0, spec_lit_msg_new_transaction()) {
                    Some(p) => match spec_parse_tx(s, p) {
                        None => None,
                        Some((t, e)) => match spec_match_lit(s, e, seq![44u8]) {
                            None => None,
                            Some(e1) => match spec_parse_string(s, e1) {
                                None => None,
                                Some((pk, e2)) => match spec_match_lit(
                                    s,
                                    e2,
                                    spec_lit_bracket_close_brace(),
                                ) {
                                    None => None,
                                    Some(e3) => if e3 == s.len() {
                                        Some(MsgV::NewTransaction(t, pk))
                                    } else {
                                        None
                                    },
                                },
                            },
                        },
                    },
                    None => None,
                },
            },
        }
    }
}

/// Decoding reads back exactly the message that encoding wrote: the law
/// that makes the wire format lossless, for every variant and payload.
pub proof fn lemma_message_round_trip(m: MsgV)
    ensures
        spec_decode_message(spec_encode_message(m)) == Some(m),
{
    match m {
        MsgV::RequestBlockchain => {
        },
        MsgV::RequestPeers => {
            assert(spec_lit_msg_request_blockchain().len() == 19);
            assert(spec_encode_message(m).len() == 14);
        },
        MsgV::MineNewBlock => {
            let s = spec_encode_message(m);
            assert(spec_lit_msg_request_blockchain().len() == 19);
            assert(s.len() == 14);
            assert(s[1] == 77 && spec_lit_msg_request_peers()[1] == 82);
        },
        MsgV::SendBlockchain(bs) => {
            lemma_send_blockchain_round_trip(bs);
        },
        MsgV::SendPeers(ps) => {
            lemma_send_peers_round_trip(ps);
        },
        MsgV::NewTransaction(t, pk) => {
            lemma_new_transaction_round_trip(t, pk);
        },
    }
}

#[verifier::rlimit(100)]
#[verifier::spinoff_prover]
proof fn lemma_send_blockchain_round_trip(bs: Seq<BlockV>)
    ensures
        spec_decode_message(spec_encode_message(MsgV::SendBlockchain(bs))) == Some(
            MsgV::SendBlockchain(bs),
        ),
{
    let s = spec_encode_message(MsgV::SendBlockchain(bs));
    assert(s[0] == 123);
    assert(spec_lit_msg_request_blockchain()[0] == 34);
    assert(spec_lit_msg_request_peers()[0] == 34);
    assert(spec_lit_msg_mine_new_block()[0] == 34);
    assert(s.subrange(0, s.len() as int) =~= spec_lit_msg_send_blockchain() + (
    spec_encode_block_list(bs) + seq![125u8]));
    lemma_match_lit_at(
        s,
        0,
        spec_lit_msg_send_blockchain(),
        spec_encode_block_list(bs) + seq![125u8],
    );
    let p = spec_lit_msg_send_blockchain().len() as int;
    lemma_parse_block_list_at(s, p, bs, seq![125u8]);
    let e = p + spec_encode_block_list(bs).len() as int;
    assert(s.subrange(e, s.len() as int) =~= seq![125u8] + Seq::<u8>::empty());
    lemma_match_lit_at(s, e, seq![125u8], Seq::<u8>::empty());
}

#[verifier::rlimit(100)]
#[verifier::spinoff_prover]
proof fn lemma_send_peers_round_trip(ps: Seq<PeerV>)
    ensures
        spec_decode_message(spec_encode_message(MsgV::SendPeers(ps))) == Some(MsgV::SendPeers(ps)),
{
    let s = spec_encode_message(MsgV::SendPeers(ps));
    assert(s[0] == 123);
    assert(spec_lit_msg_request_blockchain()[0] == 34);
    assert(spec_lit_msg_request_peers()[0] == 34);
    assert(spec_lit_msg_mine_new_block()[0] == 34);
    if spec_match_at(s, 0, spec_lit_msg_send_blockchain()) {
        assert(s.subrange(0, 18)[6] == s[6]);
        assert(spec_lit_msg_send_blockchain()[6] == 66);
        assert(s[6] == spec_lit_msg_send_peers()[6]);
        assert(spec_lit_msg_send_peers()[6] == 80);
    }
    assert(s.subrange(0, s.len() as int) =~= spec_lit_msg_send_peers() + (spec_encode_peer_list(
        ps,
    ) + seq![125u8]));
    lemma_match_lit_at(s, 0, spec_lit_msg_send_peers(), spec_encode_peer_list(ps) + seq![125u8]);
    let p = spec_lit_msg_send_peers().len() as int;
    lemma_parse_peer_list_at(s, p, ps, seq![125u8]);
    let e = p + spec_encode_peer_list(ps).len() as int;
    assert(s.subrange(e, s.len() as int) =~= seq![125u8] + Seq::<u8>::empty());
    lemma_match_lit_at(s, e, seq![125u8], Seq::<u8>::empty());
}

#[verifier::rlimit(100)]
#[verifier::spinoff_prover]
proof fn lemma_new_transaction_round_trip(t: TransactionV, pk: Seq<u8>)
    ensures
        spec_decode_message(spec_encode_message(MsgV::NewTransaction(t, pk))) == Some(
            MsgV::NewTransaction(t, pk),
        ),
{
    let s = spec_encode_message(MsgV::NewTransaction(t, pk));
    assert(s[0] == 123);
    assert(spec_lit_msg_request_blockchain()[0] == 34);
    assert(spec_lit_msg_request_peers()[0] == 34);
    assert(spec_lit_msg_mine_new_block()[0] == 34);
    if spec_match_at(s, 0, spec_lit_msg_send_blockchain()) {
        assert(s.subrange(0, 18)[2] == s[2]);
        assert(spec_lit_msg_send_blockchain()[2] == 83);
        assert(s[2] == spec_lit_msg_new_transaction()[2]);
        assert(spec_lit_msg_new_transaction()[2] == 78);
    }
    if spec_match_at(s, 0, spec_lit_msg_send_peers()) {
        assert(s.subrange(0, 13)[2] == s[2]);
        assert(spec_lit_msg_send_peers()[2] == 83);
        assert(s[2] == spec_lit_msg_new_transaction()[2]);
        assert(spec_lit_msg_new_transaction()[2] == 78);
    }
    let tail1 = spec_encode_tx(t) + (seq![44u8] + (spec_encode_string(pk)
        + spec_lit_bracket_close_brace()));
    assert(s.subrange(0, s.len() as int) =~= spec_lit_msg_new_transaction() + tail1);
    lemma_match_lit_at(s, 0, spec_lit_msg_new_transaction(), tail1);
    let p = spec_lit_msg_new_transaction().len() as int;
    lemma_parse_tx_at(
        s,
        p,
        t,
        seq![44u8] + (spec_encode_string(pk) + spec_lit_bracket_close_brace()),
    );
    let e = p + spec_encode_tx(t).len() as int;
    lemma_match_lit_at(s, e, seq![44u8], spec_encode_string(pk)
        + spec_lit_bracket_close_brace());
    let e1 = e + 1;
    lemma_parse_string_at(s, e1, pk, spec_lit_bracket_close_brace());
    let e2 = e1 + spec_encode_string(pk).len() as int;
    assert(s.subrange(e2, s.len() as int) =~= spec_lit_bracket_close_brace()
        + Seq::<u8>::empty());
    lemma_match_lit_at(s, e2, spec_lit_bracket_close_brace(), Seq::<u8>::empty());
}

/// The wire bytes of a message.
pub fn encode_message(m: &NetworkMessage) -> (r: Vec<u8>)
    ensures
        r@ == spec_encode_message(m@),
{
    match m {
        NetworkMessage::RequestBlockchain => lit_msg_request_blockchain(),
        NetworkMessage::SendBlockchain(bs) => {
            let mut v = lit_msg_send_blockchain();
            encode_block_list_into(&mut v, bs);
            v.push(125);
            proof {
                assert(v@ =~= spec_encode_message(m@));
            }
            v
        },
        NetworkMessage::RequestPeers => lit_msg_request_peers(),
        NetworkMessage::SendPeers(ps) => {
            let mut v = lit_msg_send_peers();
            encode_peer_list_into(&mut v, ps);
            v.push(125);
            proof {
                assert(v@ =~= spec_encode_message(m@));
            }
            v
        },
        NetworkMessage::NewTransaction(t, pk) => {
            let mut v = lit_msg_new_transaction();
            encode_tx_into(&mut v, t);
            v.push(44);
            encode_string_into(&mut v, pk);
            let l = lit_bracket_close_brace();
            push_all(&mut v, &l);
            proof {
                assert(v@ =~= spec_encode_message(m@));
            }
            v
        },
        NetworkMessage::MineNewBlock => lit_msg_mine_new_block(),
    }
}

/// Read one whole message; anything left over, or an unknown tag, is
/// refused.
pub fn decode_message(s: &Vec<u8>) -> (r: Option<NetworkMessage>)
    ensures
        match r {
            Some(m) => spec_decode_message(s@) == Some(m@),
            None => spec_decode_message(s@) is None,
        },
{
    let l = lit_msg_request_blockchain();
    if bytes_eq(s, &l) {
        return Some(NetworkMessage::RequestBlockchain);
    }
    let l = lit_msg_request_peers();
    if bytes_eq(s, &l) {
        return Some(NetworkMessage::RequestPeers);
    }
    let l = lit_msg_mine_new_block();
    if bytes_eq(s, &l) {
        return Some(NetworkMessage::MineNewBlock);
    }
    let l = lit_msg_send_blockchain();
    if let Some(p) = match_lit(s, 0, &l) {
        let (bs, e) = match parse_block_list(s, p) {
            Some(x) => x,
            None => {
                return None;
            },
        };
        let mut rb: Vec<u8> = Vec::new();
        rb.push(125);
        proof {
            assert(rb@ =~= seq![125u8]);
        }
        let e2 = match match_lit(s, e, &rb) {
            Some(x) => x,
            None => {
                return None;
            },
        };
        if e2 == s.len() {
            return Some(NetworkMessage::SendBlockchain(bs));
        } else {
            return None;
        }
    }
    let l = lit_msg_send_peers();
    if let Some(p) = match_lit(s, 0, &l) {
        let (ps, e) = match parse_peer_list(s, p) {
            Some(x) => x,
            None => {
                return None;
            },
        };
        let mut rb: Vec<u8> = Vec::new();
        rb.push(125);
        proof {
            assert(rb@ =~= seq![125u8]);
        }
        let e2 = match match_lit(s, e, &rb) {
            Some(x) => x,
            None => {
                return None;
            },
        };
        if e2 == s.len() {
            return Some(NetworkMessage::SendPeers(ps));
        } else {
            return None;
        }
    }
    let l = lit_msg_new_transaction();
    if let Some(p) = match_lit(s, 0, &l) {
        let (t, e) = match parse_tx(s, p) {
            Some(x) => x,
            None => {
                return None;
            },
        };
        let mut comma: Vec<u8> = Vec::new();
        comma.push(44);
        proof {
            assert(comma@ =~= seq![44u8]);
        }
        let e1 = match match_lit(s, e, &comma) {
            Some(x) => x,
            None => {
                return None;
            },
        };
        let (pk, e2) = match parse_string(s, e1) {
            Some(x) => x,
            None => {
                return None;
            },
        };
        let l2 = lit_bracket_close_brace();
        let e3 = match match_lit(s, e2, &l2) {
            Some(x) => x,
            None => {
                return None;
            },
        };
        if e3 == s.len() {
            return Some(NetworkMessage::NewTransaction(t, pk));
        } else {
            return None;
        }
    }
    None
}

// ---------------------------------------------------------------------------
// Whole-value forms, as persistence stores them
// ---------------------------------------------------------------------------
/// Reading a whole stored chain: nothing may follow the list.
pub open spec fn spec_decode_blocks(s: Seq<u8>) -> Option<Seq<BlockV>> {
    match spec_parse_block_list(s, 0) {
        None => None,
        Some((bs, e)) => if e == s.len() {
            Some(bs)
        } else {
            None
        },
    }
}

/// Reading a whole stored mempool.
pub open spec fn spec_decode_txs(s: Seq<u8>) -> Option<Seq<TransactionV>> {
    match spec_parse_tx_list(s, 0) {
        None => None,
        Some((ts, e)) => if e == s.len() {
            Some(ts)
        } else {
            None
        },
    }
}

/// Reading a whole stored peer list.
pub open spec fn spec_decode_peers(s: Seq<u8>) -> Option<Seq<PeerV>> {
    match spec_parse_peer_list(s, 0) {
        None => None,
        Some((ps, e)) => if e == s.len() {
            Some(ps)
        } else {
            None
        },
    }
}

/// Reading a whole stored peer entry.
pub open spec fn spec_decode_peer(s: Seq<u8>) -> Option<PeerV> {
    match spec_parse_peer(s, 0) {
        None => None,
        Some((p, e)) => if e == s.len() {
            Some(p)
        } else {
            None
        },
    }
}

/// Reading a whole stored balance table.
pub open spec fn spec_decode_balances(s: Seq<u8>) -> Option<Seq<(Seq<u8>, u64)>> {
    match spec_parse_balances(s, 0) {
        None => None,
        Some((bs, e)) => if e == s.len() {
            Some(bs)
        } else {
            None
        },
    }
}

/// Reading a whole stored fee counter.
pub open spec fn spec_decode_total_fees(s: Seq<u8>) -> Option<u64> {
    match spec_parse_u64(s, 0) {
        None => None,
        Some((v, e)) => if e == s.len() {
            Some(v)
        } else {
            None
        },
    }
}

/// A stored chain reads back exactly: the persistence round trip.
pub proof fn lemma_blocks_round_trip(bs: Seq<BlockV>)
    ensures
        spec_decode_blocks(spec_encode_block_list(bs)) == Some(bs),
{
    let s = spec_encode_block_list(bs);
    assert(s.subrange(0, s.len() as int) =~= s + Seq::<u8>::empty());
    lemma_parse_block_list_at(s, 0, bs, Seq::<u8>::empty());
}

/// A stored mempool reads back exactly.
pub proof fn lemma_txs_round_trip(ts: Seq<TransactionV>)
    ensures
        spec_decode_txs(spec_encode_tx_list(ts)) == Some(ts),
{
    let s = spec_encode_tx_list(ts);
    assert(s.subrange(0, s.len() as int) =~= s + Seq::<u8>::empty());
    lemma_parse_tx_list_at(s, 0, ts, Seq::<u8>::empty());
}

/// A stored peer list reads back exactly.
pub proof fn lemma_peers_round_trip(ps: Seq<PeerV>)
    ensures
        spec_decode_peers(spec_encode_peer_list(ps)) == Some(ps),
{
    let s = spec_encode_peer_list(ps);
    assert(s.subrange(0, s.len() as int) =~= s + Seq::<u8>::empty());
    lemma_parse_peer_list_at(s, 0, ps, Seq::<u8>::empty());
}

/// A stored peer entry reads back exactly.
pub proof fn lemma_peer_round_trip(p: PeerV)
    ensures
        spec_decode_peer(spec_encode_peer(p)) == Some(p),
{
    let s = spec_encode_peer(p);
    assert(s.subrange(0, s.len() as int) =~= s + Seq::<u8>::empty());
    lemma_parse_peer_at(s, 0, p, Seq::<u8>::empty());
}

/// A stored balance table reads back exactly.
pub proof fn lemma_balances_round_trip(bs: Seq<(Seq<u8>, u64)>)
    ensures
        spec_decode_balances(spec_encode_balances(bs)) == Some(bs),
{
    let s = spec_encode_balances(bs);
    assert(s.subrange(0, s.len() as int) =~= s + Seq::<u8>::empty());
    lemma_parse_balances_at(s, 0, bs, Seq::<u8>::empty());
}

/// A stored fee counter reads back exactly.
pub proof fn lemma_total_fees_round_trip(n: u64)
    ensures
        spec_decode_total_fees(dec_digits(n as nat)) == Some(n),
{
    let s = dec_digits(n as nat);
    assert(s.subrange(0, s.len() as int) =~= dec_digits(n as nat) + Seq::<u8>::empty());
    lemma_parse_u64_at(s, 0, n, Seq::<u8>::empty());
}

/// The stored form of the chain.
pub fn encode_blocks(bs: &Vec<Block>) -> (r: Vec<u8>)
    ensures
        r@ == spec_encode_block_list(crate::block::blocks_view(bs@)),
{
    let mut v: Vec<u8> = Vec::new();
    encode_block_list_into(&mut v, bs);
    proof {
        assert(v@ =~= spec_encode_block_list(crate::block::blocks_view(bs@)));
    }
    v
}

/// The stored form of the mempool.
pub fn encode_txs(ts: &Vec<Transaction>) -> (r: Vec<u8>)
    ensures
        r@ == spec_encode_tx_list(crate::transaction::txs_view(ts@)),
{
    let mut v: Vec<u8> = Vec::new();
    encode_tx_list_into(&mut v, ts);
    proof {
        assert(v@ =~= spec_encode_tx_list(crate::transaction::txs_view(ts@)));
    }
    v
}

/// The stored form of a peer list.
pub fn encode_peers(ps: &Vec<Peer>) -> (r: Vec<u8>)
    ensures
        r@ == spec_encode_peer_list(crate::peers::peers_view(ps@)),
{
    let mut v: Vec<u8> = Vec::new();
    encode_peer_list_into(&mut v, ps);
    proof {
        assert(v@ =~= spec_encode_peer_list(crate::peers::peers_view(ps@)));
    }
    v
}

/// The stored form of one peer entry.
pub fn encode_peer(p: &Peer) -> (r: Vec<u8>)
    ensures
        r@ == spec_encode_peer(p@),
{
    let mut v: Vec<u8> = Vec::new();
    encode_peer_into(&mut v, p);
    proof {
        assert(v@ =~= spec_encode_peer(p@));
    }
    v
}

/// The stored form of the balance table.
pub fn encode_balances(entries: &Vec<(Vec<u8>, u64)>) -> (r: Vec<u8>)
    ensures
        r@ == spec_encode_balances(crate::balances::entries_view(entries@)),
{
    let mut v: Vec<u8> = Vec::new();
    encode_balances_into(&mut v, entries);
    proof {
        assert(v@ =~= spec_encode_balances(crate::balances::entries_view(entries@)));
    }
    v
}

/// The stored form of the fee counter.
pub fn encode_total_fees(n: u64) -> (r: Vec<u8>)
    ensures
        r@ == dec_digits(n as nat),
{
    u64_to_dec(n)
}

/// Read back a stored chain.
pub fn decode_blocks(s: &Vec<u8>) -> (r: Option<Vec<Block>>)
    ensures
        match r {
            Some(v) => spec_decode_blocks(s@) == Some(crate::block::blocks_view(v@)),
            None => spec_decode_blocks(s@) is None,
        },
{
    match parse_block_list(s, 0) {
        None => None,
        Some((v, e)) => if e == s.len() {
            Some(v)
        } else {
            None
        },
    }
}

/// Read back a stored mempool.
pub fn decode_txs(s: &Vec<u8>) -> (r: Option<Vec<Transaction>>)
    ensures
        match r {
            Some(v) => spec_decode_txs(s@) == Some(crate::transaction::txs_view(v@)),
            None => spec_decode_txs(s@) is None,
        },
{
    match parse_tx_list(s, 0) {
        None => None,
        Some((v, e)) => if e == s.len() {
            Some(v)
        } else {
            None
        },
    }
}

/// Read back a stored peer list.
pub fn decode_peers(s: &Vec<u8>) -> (r: Option<Vec<Peer>>)
    ensures
        match r {
            Some(v) => spec_decode_peers(s@) == Some(crate::peers::peers_view(v@)),
            None => spec_decode_peers(s@) is None,
        },
{
    match parse_peer_list(s, 0) {
        None => None,
        Some((v, e)) => if e == s.len() {
            Some(v)
        } else {
            None
        },
    }
}

/// Read back one stored peer entry.
pub fn decode_peer(s: &Vec<u8>) -> (r: Option<Peer>)
    ensures
        match r {
            Some(p) => spec_decode_peer(s@) == Some(p@),
            None => spec_decode_peer(s@) is None,
        },
{
    match parse_peer(s, 0) {
        None => None,
        Some((p, e)) => if e == s.len() {
            Some(p)
        } else {
            None
        },
    }
}

/// Read back a stored balance table.
pub fn decode_balances(s: &Vec<u8>) -> (r: Option<Vec<(Vec<u8>, u64)>>)
    ensures
        match r {
            Some(v) => spec_decode_balances(s@) == Some(crate::balances::entries_view(v@)),
            None => spec_decode_balances(s@) is None,
        },
{
    match parse_balances(s, 0) {
        None => None,
        Some((v, e)) => if e == s.len() {
            Some(v)
        } else {
            None
        },
    }
}

/// Read back a stored fee counter.
pub fn decode_total_fees(s: &Vec<u8>) -> (r: Option<u64>)
    ensures
        match r {
            Some(v) => spec_decode_total_fees(s@) == Some(v),
            None => spec_decode_total_fees(s@) is None,
        },
{
    match parse_u64(s, 0) {
        None => None,
        Some((v, e)) => if e == s.len() {
            Some(v)
        } else {
            None
        },
    }
}
} // verus!
