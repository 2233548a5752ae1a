use vstd::prelude::*;
use crate::bytes::{bytes_eq, copy_bytes};

verus! {

/// A known peer: identity is the id; the address is `host:port` text.
#[derive(Clone, Debug, PartialEq)]
pub struct Peer {
    pub id: Vec<u8>,
    pub address: Vec<u8>,
}

/// The mathematical image of a peer.
pub struct PeerV {
    pub id: Seq<u8>,
    pub address: Seq<u8>,
}

impl View for Peer {
    type V = PeerV;

    open spec fn view(&self) -> PeerV {
        PeerV { id: self.id@, address: self.address@ }
    }
}

impl Peer {
    /// A fresh copy of this peer.
    pub fn clone_peer(&self) -> (r: Peer)
        ensures
            r@ == self@,
    {
        Peer { id: copy_bytes(&self.id), address: copy_bytes(&self.address) }
    }
}

pub open spec fn peer_known(s: Seq<PeerV>, id: Seq<u8>) -> bool {
    exists|i: int| 0 <= i < s.len() && s[i].id == id
}

pub open spec fn peer_ids_distinct(s: Seq<PeerV>) -> bool {
    forall|i: int, j: int| 0 <= i < j < s.len() ==> s[i].id != s[j].id
}

/// What adding one peer does: a duplicate id leaves the directory unchanged.
pub open spec fn spec_add_peer(s: Seq<PeerV>, p: PeerV) -> Seq<PeerV> {
    if peer_known(s, p.id) {
        s
    } else {
        s.push(p)
    }
}

/// What adding a list does, first entry first.
pub open spec fn spec_add_peers(s: Seq<PeerV>, ps: Seq<PeerV>) -> Seq<PeerV>
    decreases ps.len(),
{
    if ps.len() == 0 {
        s
    } else {
        spec_add_peers(spec_add_peer(s, ps[0]), ps.drop_first())
    }
}

/// What removing an id does: the one entry bearing it leaves, order kept.
pub open spec fn spec_remove_peer(s: Seq<PeerV>, id: Seq<u8>) -> Seq<PeerV>
    decreases s.len(),
{
    if s.len() == 0 {
        s
    } else if s[0].id == id {
        s.drop_first()
    } else {
        seq![s[0]] + spec_remove_peer(s.drop_first(), id)
    }
}

/// Adding the same peer twice leaves the directory exactly as one add does.
pub proof fn lemma_add_peer_idempotent(s: Seq<PeerV>, p: PeerV)
    ensures
        spec_add_peer(spec_add_peer(s, p), p) == spec_add_peer(s, p),
{
    if !peer_known(s, p.id) {
        assert(s.push(p)[s.len() as int].id == p.id);
        assert(peer_known(s.push(p), p.id));
    }
}

proof fn lemma_add_peers_snoc(s: Seq<PeerV>, ps: Seq<PeerV>, p: PeerV)
    ensures
        spec_add_peers(s, ps.push(p)) == spec_add_peer(spec_add_peers(s, ps), p),
    decreases ps.len(),
{
    if ps.len() == 0 {
        assert(ps.push(p)[0] == p);
        assert(ps.push(p).drop_first() =~= Seq::<PeerV>::empty());
        assert(spec_add_peers(s, ps) == s);
        assert(spec_add_peers(spec_add_peer(s, p), Seq::<PeerV>::empty()) == spec_add_peer(s, p));
    } else {
        assert(ps.push(p)[0] == ps[0]);
        assert(ps.push(p).drop_first() =~= ps.drop_first().push(p));
        lemma_add_peers_snoc(spec_add_peer(s, ps[0]), ps.drop_first(), p);
    }
}

proof fn lemma_remove_at_first(s: Seq<PeerV>, id: Seq<u8>, i: int)
    requires
        0 <= i < s.len(),
        s[i].id == id,
        forall|j: int| 0 <= j < i ==> s[j].id != id,
    ensures
        spec_remove_peer(s, id) == s.remove(i),
    decreases i,
{
    if i == 0 {
        assert(s.drop_first() =~= s.remove(0));
    } else {
        lemma_remove_at_first(s.drop_first(), id, i - 1);
        assert(seq![s[0]] + s.drop_first().remove(i - 1) =~= s.remove(i));
    }
}

proof fn lemma_remove_absent(s: Seq<PeerV>, id: Seq<u8>)
    requires
        !peer_known(s, id),
    ensures
        spec_remove_peer(s, id) == s,
    decreases s.len(),
{
    if s.len() > 0 {
        assert(s[0].id != id);
        assert(!peer_known(s.drop_first(), id)) by {
            assert(forall|i: int| 0 <= i < s.drop_first().len() ==> s.drop_first()[i] == s[i + 1]);
        }
        lemma_remove_absent(s.drop_first(), id);
        assert(seq![s[0]] + s.drop_first() =~= s);
    }
}

/// The images of a sequence of peers.
pub open spec fn peers_view(s: Seq<Peer>) -> Seq<PeerV> {
    Seq::new(s.len(), |i: int| s[i]@)
}

/// The in-memory directory of known peers; ids are unique whenever `wf`
/// holds.
pub struct PeerManager {
    pub peers: Vec<Peer>,
}

impl View for PeerManager {
    type V = Seq<PeerV>;

    open spec fn view(&self) -> Seq<PeerV> {
        Seq::new(self.peers@.len(), |i: int| self.peers@[i]@)
    }
}

impl PeerManager {
    pub open spec fn wf(&self) -> bool {
        peer_ids_distinct(self@)
    }

    /// An empty directory.
    pub fn new() -> (r: PeerManager)
        ensures
            r.wf(),
            r@.len() == 0,
    {
        PeerManager { peers: Vec::new() }
    }

    fn index_of(&self, id: &Vec<u8>) -> (r: Option<usize>)
        ensures
            match r {
                Some(i) => i < self@.len() && self@[i as int].id == id@ && (forall|j: int|
                    0 <= j < i ==> self@[j].id != id@),
                None => !peer_known(self@, id@),
            },
    {
        let mut i: usize = 0;
        while i < self.peers.len()
            invariant
                i <= self@.len(),
                self@.len() == self.peers@.len(),
                forall|j: int| 0 <= j < i ==> self@[j].id != id@,
            decreases self@.len() - i,
        {
            if bytes_eq(&self.peers[i].id, id) {
                return Some(i);
            }
            i += 1;
        }
        None
    }

    /// Store one peer; a peer whose id is already known is skipped, which
    /// makes adding idempotent. Says whether it was stored.
    pub fn add_peer(&mut self, peer: &Peer) -> (r: bool)
        requires
            old(self).wf(),
        ensures
            final(self).wf(),
            final(self)@ == spec_add_peer(old(self)@, peer@),
            r == !peer_known(old(self)@, peer@.id),
    {
        match self.index_of(&peer.id) {
            Some(_) => false,
            None => {
                self.peers.push(peer.clone_peer());
                proof {
                    assert(self@ =~= old(self)@.push(peer@));
                }
                true
            },
        }
    }

    /// The stored peer with this id, if any.
    pub fn get_peer(&self, peer_id: &Vec<u8>) -> (r: Option<Peer>)
        ensures
            match r {
                Some(p) => p@.id == peer_id@ && exists|i: int|
                    0 <= i < self@.len() && self@[i] == p@,
                None => !peer_known(self@, peer_id@),
            },
    {
        match self.index_of(peer_id) {
            Some(i) => Some(self.peers[i].clone_peer()),
            None => None,
        }
    }

    /// A snapshot of the whole directory, in storage order.
    pub fn get_all_peers(&self) -> (r: Vec<Peer>)
        ensures
            r@.len() == self@.len(),
            forall|i: int| 0 <= i < r@.len() ==> r@[i]@ == self@[i],
    {
        let mut r: Vec<Peer> = Vec::new();
        let mut i: usize = 0;
        while i < self.peers.len()
            invariant
                i <= self@.len(),
                self@.len() == self.peers@.len(),
                r@.len() == i,
                forall|j: int| 0 <= j < i ==> r@[j]@ == self@[j],
            decreases self@.len() - i,
        {
            r.push(self.peers[i].clone_peer());
            i += 1;
        }
        r
    }

    /// Store every peer of the list, first entry first.
    pub fn store_peers(&mut self, peers: &Vec<Peer>)
        requires
            old(self).wf(),
        ensures
            final(self).wf(),
            final(self)@ == spec_add_peers(old(self)@, peers_view(peers@)),
    {
        let ghost ps = peers_view(peers@);
        let mut i: usize = 0;
        while i < peers.len()
            invariant
                i <= peers@.len(),
                ps == peers_view(peers@),
                self.wf(),
                self@ == spec_add_peers(old(self)@, ps.take(i as int)),
            decreases peers@.len() - i,
        {
            self.add_peer(&peers[i]);
            proof {
                assert(ps.take((i + 1) as int) =~= ps.take(i as int).push(ps[i as int]));
                lemma_add_peers_snoc(old(self)@, ps.take(i as int), ps[i as int]);
            }
            i += 1;
        }
        proof {
            assert(ps.take(ps.len() as int) =~= ps);
        }
    }

    /// Merge a received peer list, skipping entries that carry the excluded
    /// address (the caller's own dial target).
    pub fn merge_peers(&mut self, received: &Vec<Peer>, exclude_address: &Vec<u8>)
        requires
            old(self).wf(),
        ensures
            final(self).wf(),
            final(self)@ == spec_add_peers(
                old(self)@,
                peers_view(received@).filter(|p: PeerV| p.address != exclude_address@),
            ),
    {
        let ghost all = peers_view(received@);
        let ghost keep = |p: PeerV| p.address != exclude_address@;
        let mut i: usize = 0;
        while i < received.len()
            invariant
                i <= received@.len(),
                all == peers_view(received@),
                keep == (|p: PeerV| p.address != exclude_address@),
                self.wf(),
                self@ == spec_add_peers(old(self)@, all.take(i as int).filter(keep)),
            decreases received@.len() - i,
        {
            proof {
                reveal(Seq::filter);
                assert(all.take((i + 1) as int).drop_last() =~= all.take(i as int));
                assert(all.take((i + 1) as int).last() == all[i as int]);
            }
            if !bytes_eq(&received[i].address, exclude_address) {
                self.add_peer(&received[i]);
                proof {
                    assert(all.take((i + 1) as int).filter(keep) =~= all.take(i as int).filter(
                        keep,
                    ).push(all[i as int]));
                    lemma_add_peers_snoc(old(self)@, all.take(i as int).filter(keep), all[i as int]);
                }
            } else {
                proof {
                    assert(all.take((i + 1) as int).filter(keep) =~= all.take(i as int).filter(
                        keep,
                    ));
                }
            }
            i += 1;
        }
        proof {
            assert(all.take(all.len() as int) =~= all);
        }
    }

    /// Drop the peer with this id, if present.
    pub fn remove_peer(&mut self, peer_id: &Vec<u8>)
        requires
            old(self).wf(),
        ensures
            final(self).wf(),
            final(self)@ == spec_remove_peer(old(self)@, peer_id@),
            !peer_known(final(self)@, peer_id@),
    {
        match self.index_of(peer_id) {
            Some(i) => {
                proof {
                    lemma_remove_at_first(self@, peer_id@, i as int);
                }
                self.peers.remove(i);
                proof {
                    assert(self@ =~= old(self)@.remove(i as int));
                    assert(forall|a: int, b: int|
                        0 <= a < b < self@.len() ==> self@[a].id != self@[b].id);
                    assert(!peer_known(self@, peer_id@)) by {
                        assert(forall|j: int| 0 <= j < self@.len() ==> self@[j].id != peer_id@);
                    }
                }
            },
            None => {
                proof {
                    lemma_remove_absent(self@, peer_id@);
                }
            },
        }
    }
}

} // verus!
