//! A record of peers, broadcast messages and spent nullifiers.

use vstd::prelude::*;
use crate::text::{literal, same_text};

verus! {

/// A peer of the network, known by its id.
#[derive(Debug)]
pub struct Peer {
    pub id: String,
    pub address: String,
}

impl Peer {
    pub fn new(id: &str, address: &str) -> (p: Peer)
        ensures
            p.id@ == id@,
            p.address@ == address@,
    {
        Peer { id: literal(id), address: literal(address) }
    }
}

/// The peers (each id once), the messages broadcast in order, and the
/// nullifiers (each once).
#[derive(Debug)]
pub struct P2PNetwork {
    peers: Vec<Peer>,
    broadcasts: Vec<String>,
    nullifiers: Vec<String>,
}

/// What the network knows: the address of each peer id, the messages
/// broadcast in order, and the set of nullifiers.
pub struct NetworkModel {
    pub peers: Map<Seq<char>, Seq<char>>,
    pub broadcasts: Seq<Seq<char>>,
    pub nullifiers: Set<Seq<char>>,
}

/// The map from id to address that a list of peers with distinct ids holds.
pub open spec fn peer_map(peers: Seq<Peer>) -> Map<Seq<char>, Seq<char>>
    decreases peers.len(),
{
    if peers.len() == 0 {
        Map::empty()
    } else {
        peer_map(peers.drop_last()).insert(peers.last().id@, peers.last().address@)
    }
}

pub open spec fn text_set(items: Seq<String>) -> Set<Seq<char>> {
    Set::new(|t: Seq<char>| exists|i: int| 0 <= i < items.len() && (#[trigger] items[i])@ == t)
}

proof fn lemma_peer_map_dom(peers: Seq<Peer>)
    ensures
        forall|t: Seq<char>|
            #[trigger] peer_map(peers).dom().contains(t) <==> exists|i: int|
                0 <= i < peers.len() && (#[trigger] peers[i]).id@ == t,
        peers.len() == 0 ==> peer_map(peers).dom().len() == 0,
        peer_map(peers).dom().finite(),
    decreases peers.len(),
{
    if peers.len() > 0 {
        lemma_peer_map_dom(peers.drop_last());
        assert forall|t: Seq<char>| #[trigger] peer_map(peers).dom().contains(t) <==> exists|i: int|
            0 <= i < peers.len() && (#[trigger] peers[i]).id@ == t by {
            if peer_map(peers).dom().contains(t) && t != peers.last().id@ {
                let i = choose|i: int| 0 <= i < peers.drop_last().len() && (#[trigger] peers.drop_last()[i]).id@ == t;
                assert(peers[i] == peers.drop_last()[i]);
            }
            if exists|i: int| 0 <= i < peers.len() && (#[trigger] peers[i]).id@ == t {
                let i = choose|i: int| 0 <= i < peers.len() && (#[trigger] peers[i]).id@ == t;
                if i < peers.len() - 1 {
                    assert(peers.drop_last()[i] == peers[i]);
                }
            }
        }
    } else {
        assert(peer_map(peers).dom() =~= Set::empty());
    }
}

pub open spec fn distinct_ids(peers: Seq<Peer>) -> bool {
    forall|i: int, j: int| 0 <= i < j < peers.len() ==> (#[trigger] peers[i]).id@ != (#[trigger] peers[j]).id@
}

proof fn lemma_peer_map_len(peers: Seq<Peer>)
    requires
        distinct_ids(peers),
    ensures
        peer_map(peers).dom().len() == peers.len(),
    decreases peers.len(),
{
    lemma_peer_map_dom(peers);
    if peers.len() > 0 {
        let rest = peers.drop_last();
        assert(distinct_ids(rest)) by {
            assert forall|i: int, j: int| 0 <= i < j < rest.len() implies (#[trigger] rest[i]).id@ != (#[trigger] rest[j]).id@ by {
                assert(rest[i] == peers[i] && rest[j] == peers[j]);
            }
        }
        lemma_peer_map_len(rest);
        lemma_peer_map_dom(rest);
        assert(!peer_map(rest).dom().contains(peers.last().id@)) by {
            if peer_map(rest).dom().contains(peers.last().id@) {
                let i = choose|i: int| 0 <= i < rest.len() && (#[trigger] rest[i]).id@ == peers.last().id@;
                assert(rest[i] == peers[i]);
                assert(peers[i].id@ != peers[peers.len() - 1].id@);
            }
        }
    }
}

proof fn lemma_peer_map_update(peers: Seq<Peer>, i: int, p: Peer)
    requires
        distinct_ids(peers),
        0 <= i < peers.len(),
        peers[i].id@ == p.id@,
    ensures
        peer_map(peers.update(i, p)) == peer_map(peers).insert(p.id@, p.address@),
    decreases peers.len(),
{
    let rest = peers.drop_last();
    let up = peers.update(i, p);
    if i == peers.len() - 1 {
        assert(up.drop_last() =~= rest);
        assert(peer_map(up) =~= peer_map(peers).insert(p.id@, p.address@));
    } else {
        assert(distinct_ids(rest)) by {
            assert forall|a: int, b: int| 0 <= a < b < rest.len() implies (#[trigger] rest[a]).id@ != (#[trigger] rest[b]).id@ by {
                assert(rest[a] == peers[a] && rest[b] == peers[b]);
            }
        }
        assert(rest[i] == peers[i]);
        lemma_peer_map_update(rest, i, p);
        assert(up.drop_last() =~= rest.update(i, p));
        assert(up.last() == peers.last());
        assert(peers[i].id@ != peers[peers.len() - 1].id@);
        assert(peer_map(up) =~= peer_map(peers).insert(p.id@, p.address@));
    }
}

impl P2PNetwork {
    pub closed spec fn model(&self) -> NetworkModel {
        NetworkModel {
            peers: peer_map(self.peers@),
            broadcasts: self.broadcasts@.map_values(|s: String| s@),
            nullifiers: text_set(self.nullifiers@),
        }
    }

    /// Peer ids are distinct, and so are nullifiers.
    pub closed spec fn wf(&self) -> bool {
        &&& distinct_ids(self.peers@)
        &&& forall|i: int, j: int|
            0 <= i < j < self.nullifiers@.len() ==> (#[trigger] self.nullifiers@[i])@ != (#[trigger] self.nullifiers@[j])@
    }

    /// A network with no peers, broadcasts or nullifiers.
    pub fn new() -> (n: P2PNetwork)
        ensures
            n.wf(),
            n.model().peers == Map::<Seq<char>, Seq<char>>::empty(),
            n.model().broadcasts.len() == 0,
            n.model().nullifiers == Set::<Seq<char>>::empty(),
    {
        let n = P2PNetwork { peers: Vec::new(), broadcasts: Vec::new(), nullifiers: Vec::new() };
        assert(n.model().nullifiers =~= Set::<Seq<char>>::empty());
        n
    }

    /// Records a peer under its id, replacing any peer with the same id.
    pub fn add_peer(&mut self, peer: Peer)
        requires
            old(self).wf(),
        ensures
            final(self).wf(),
            final(self).model().peers == old(self).model().peers.insert(peer.id@, peer.address@),
            final(self).model().broadcasts == old(self).model().broadcasts,
            final(self).model().nullifiers == old(self).model().nullifiers,
    {
        let mut i: usize = 0;
        while i < self.peers.len()
            invariant
                i <= self.peers.len(),
                self.peers@ == old(self).peers@,
                self.broadcasts@ == old(self).broadcasts@,
                self.nullifiers@ == old(self).nullifiers@,
                old(self).wf(),
                forall|j: int| 0 <= j < i ==> (#[trigger] self.peers@[j]).id@ != peer.id@,
            decreases self.peers.len() - i,
        {
            if same_text(self.peers[i].id.as_str(), peer.id.as_str()) {
                proof {
                    lemma_peer_map_update(self.peers@, i as int, peer);
                }
                let ghost before = self.peers@;
                self.peers.set(i, peer);
                assert(self.peers@ == before.update(i as int, peer));
                assert forall|a: int, b: int| 0 <= a < b < self.peers@.len() implies (#[trigger] self.peers@[a]).id@ != (#[trigger] self.peers@[b]).id@ by {
                    assert(before[a].id@ != before[b].id@);
                }
                return;
            }
            i = i + 1;
        }
        let ghost before = self.peers@;
        self.peers.push(peer);
        assert(self.peers@.drop_last() =~= before);
        assert forall|a: int, b: int| 0 <= a < b < self.peers@.len() implies (#[trigger] self.peers@[a]).id@ != (#[trigger] self.peers@[b]).id@ by {
            if b < before.len() {
                assert(before[a].id@ != before[b].id@);
            } else {
                assert(self.peers@[a] == before[a]);
            }
        }
    }

    /// The number of peers, one per id.
    pub fn peer_count(&self) -> (n: usize)
        requires
            self.wf(),
        ensures
            n == self.model().peers.dom().len(),
    {
        proof {
            lemma_peer_map_len(self.peers@);
        }
        self.peers.len()
    }

    pub fn has_peer(&self, id: &str) -> (b: bool)
        ensures
            b == self.model().peers.dom().contains(id@),
    {
        let mut i: usize = 0;
        while i < self.peers.len()
            invariant
                i <= self.peers.len(),
                forall|j: int| 0 <= j < i ==> (#[trigger] self.peers@[j]).id@ != id@,
            decreases self.peers.len() - i,
        {
            if same_text(self.peers[i].id.as_str(), id) {
                proof {
                    lemma_peer_map_dom(self.peers@);
                    assert(self.peers@[i as int].id@ == id@);
                }
                return true;
            }
            i = i + 1;
        }
        proof {
            lemma_peer_map_dom(self.peers@);
        }
        false
    }

    /// Appends a message to the broadcasts.
    pub fn broadcast(&mut self, message: &str)
        requires
            old(self).wf(),
        ensures
            final(self).wf(),
            final(self).model().peers == old(self).model().peers,
            final(self).model().broadcasts == old(self).model().broadcasts.push(message@),
            final(self).model().nullifiers == old(self).model().nullifiers,
    {
        self.broadcasts.push(literal(message));
        assert(self.model().broadcasts =~= old(self).model().broadcasts.push(message@));
    }

    /// The messages broadcast so far, oldest first.
    pub fn broadcasts(&self) -> (s: &[String])
        ensures
            s@.map_values(|m: String| m@) == self.model().broadcasts,
    {
        self.broadcasts.as_slice()
    }

    /// Records a nullifier (once).
    pub fn add_nullifier(&mut self, value: &str)
        requires
            old(self).wf(),
        ensures
            final(self).wf(),
            final(self).model().peers == old(self).model().peers,
            final(self).model().broadcasts == old(self).model().broadcasts,
            final(self).model().nullifiers == old(self).model().nullifiers.insert(value@),
    {
        if self.has_nullifier(value) {
            assert(self.model().nullifiers =~= old(self).model().nullifiers.insert(value@));
            return;
        }
        let ghost before = self.nullifiers@;
        self.nullifiers.push(literal(value));
        assert forall|t: Seq<char>| #[trigger] text_set(self.nullifiers@).contains(t) == old(self).model().nullifiers.insert(value@).contains(t) by {
            if text_set(self.nullifiers@).contains(t) && t != value@ {
                let i = choose|i: int| 0 <= i < self.nullifiers@.len() && (#[trigger] self.nullifiers@[i])@ == t;
                assert(before[i] == self.nullifiers@[i]);
            }
            if old(self).model().nullifiers.contains(t) {
                let i = choose|i: int| 0 <= i < before.len() && (#[trigger] before[i])@ == t;
                assert(before[i] == self.nullifiers@[i]);
            }
            if t == value@ {
                assert(self.nullifiers@[before.len() as int]@ == t);
            }
        }
        assert(self.model().nullifiers =~= old(self).model().nullifiers.insert(value@));
        assert forall|a: int, b: int| 0 <= a < b < self.nullifiers@.len() implies (#[trigger] self.nullifiers@[a])@ != (#[trigger] self.nullifiers@[b])@ by {
            if b < before.len() {
                assert(before[a]@ != before[b]@);
            } else {
                assert(self.nullifiers@[a] == before[a]);
            }
        }
    }

    pub fn has_nullifier(&self, value: &str) -> (b: bool)
        ensures
            b == self.model().nullifiers.contains(value@),
    {
        let mut i: usize = 0;
        while i < self.nullifiers.len()
            invariant
                i <= self.nullifiers.len(),
                forall|j: int| 0 <= j < i ==> (#[trigger] self.nullifiers@[j])@ != value@,
            decreases self.nullifiers.len() - i,
        {
            if same_text(self.nullifiers[i].as_str(), value) {
                return true;
            }
            i = i + 1;
        }
        false
    }
}

/// Registering a peer makes its id known with the new address; the number of known peers
/// grows by one for a new id and stays the same for a known one.
pub proof fn lemma_peer_registration(
    peers: Map<Seq<char>, Seq<char>>,
    id: Seq<char>,
    address: Seq<char>,
)
    requires
        peers.dom().finite(),
    ensures
        peers.insert(id, address).dom().contains(id),
        peers.insert(id, address)[id] == address,
        peers.dom().contains(id) ==> peers.insert(id, address).dom().len() == peers.dom().len(),
        !peers.dom().contains(id) ==> peers.insert(id, address).dom().len() == peers.dom().len() + 1,
        forall|k: Seq<char>| k != id ==> (peers.insert(id, address).dom().contains(k) == peers.dom().contains(k)),
{
    if peers.dom().contains(id) {
        assert(peers.insert(id, address).dom() =~= peers.dom());
    } else {
        assert(peers.insert(id, address).dom() =~= peers.dom().insert(id));
    }
}

/// Recording a nullifier makes it known, and recording it again changes nothing.
pub proof fn lemma_nullifier_recording(nullifiers: Set<Seq<char>>, value: Seq<char>)
    ensures
        nullifiers.insert(value).contains(value),
        nullifiers.insert(value).insert(value) == nullifiers.insert(value),
        forall|v: Seq<char>| v != value ==> (nullifiers.insert(value).contains(v) == nullifiers.contains(v)),
{
    assert(nullifiers.insert(value).insert(value) =~= nullifiers.insert(value));
}

} // verus!
