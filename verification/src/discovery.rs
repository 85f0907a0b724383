//! Peer discovery data and capabilities: discovered-peer info, discovery
//! events, and a deterministic in-memory discovery for tests and loopback.

use vstd::prelude::*;

use crate::text::str_eq;

verus! {

/// A peer seen by discovery: its id, display name, and dialable address.
#[derive(Debug, Clone)]
pub struct PeerInfo {
    pub peer_id: String,
    pub name: String,
    pub addr: String,
}

/// Mathematical model of discovered-peer info.
pub struct PeerInfoView {
    pub peer_id: Seq<char>,
    pub name: Seq<char>,
    pub addr: Seq<char>,
}

impl View for PeerInfo {
    type V = PeerInfoView;

    open spec fn view(&self) -> PeerInfoView {
        PeerInfoView { peer_id: self.peer_id@, name: self.name@, addr: self.addr@ }
    }
}

impl PeerInfo {
    /// An owned copy of this info.
    pub fn duplicate(&self) -> (r: PeerInfo)
        ensures
            r@ == self@,
    {
        PeerInfo {
            peer_id: self.peer_id.clone(),
            name: self.name.clone(),
            addr: self.addr.clone(),
        }
    }
}

/// Discovery events emitted when peers are found or lost.
#[derive(Debug, Clone)]
pub enum DiscoveryEvent {
    PeerDiscovered(PeerInfo),
    PeerLost { peer_id: String },
}

/// A listener for discovery events. The environment implements this;
/// nothing is assumed of implementations.
pub trait DiscoveryListener {
    /// Called on every discovery event.
    fn on_event(&self, event: DiscoveryEvent);
}

/// The advertised list without any entry of the given peer-id.
pub open spec fn without_id(s: Seq<PeerInfoView>, pid: Seq<char>) -> Seq<PeerInfoView>
    decreases s.len(),
{
    if s.len() == 0 {
        Seq::empty()
    } else if s[0].peer_id == pid {
        without_id(s.drop_first(), pid)
    } else {
        seq![s[0]] + without_id(s.drop_first(), pid)
    }
}

/// A deterministic in-memory discovery backed by a shared list.
pub struct MockDiscovery {
    peers: Vec<PeerInfo>,
}

impl View for MockDiscovery {
    type V = Seq<PeerInfoView>;

    closed spec fn view(&self) -> Seq<PeerInfoView> {
        self.peers@.map_values(|p: PeerInfo| p@)
    }
}

impl MockDiscovery {
    /// An empty discovery list.
    pub fn new_shared() -> (r: MockDiscovery)
        ensures
            r@ == Seq::<PeerInfoView>::empty(),
    {
        let r = MockDiscovery { peers: Vec::new() };
        proof {
            assert(r@ =~= Seq::<PeerInfoView>::empty());
        }
        r
    }

    /// Advertise a peer, replacing any earlier entry with the same id.
    pub fn advertise(&mut self, info: PeerInfo)
        ensures
            final(self)@ == without_id(old(self)@, info@.peer_id).push(info@),
    {
        let ghost s = self@;
        let mut out: Vec<PeerInfo> = Vec::new();
        let mut i: usize = 0;
        proof {
            assert(s.take(0) =~= Seq::<PeerInfoView>::empty());
            assert(out@.map_values(|p: PeerInfo| p@) =~= without_id(s.take(0), info@.peer_id));
        }
        while i < self.peers.len()
            invariant
                i <= self.peers@.len(),
                s == self@,
                out@.map_values(|p: PeerInfo| p@) == without_id(s.take(i as int), info@.peer_id),
            decreases self.peers@.len() - i,
        {
            let ghost prev = out@;
            if !str_eq(self.peers[i].peer_id.as_str(), info.peer_id.as_str()) {
                out.push(self.peers[i].duplicate());
            }
            i = i + 1;
            proof {
                lemma_without_id_snoc(s.take(i as int), info@.peer_id);
                assert(s.take(i as int).drop_last() =~= s.take(i - 1));
                assert(s.take(i as int).last() == s[i - 1]);
                assert(out@.map_values(|p: PeerInfo| p@) =~= without_id(
                    s.take(i as int),
                    info@.peer_id,
                ));
            }
        }
        let ghost iv = info@;
        out.push(info);
        *self = MockDiscovery { peers: out };
        proof {
            assert(s.take(s.len() as int) =~= s);
            assert(self@ =~= without_id(s, iv.peer_id).push(iv));
        }
    }

    /// A snapshot of the advertised peers.
    pub fn scan(&self) -> (r: Vec<PeerInfo>)
        ensures
            r@.map_values(|p: PeerInfo| p@) == self@,
    {
        let mut out: Vec<PeerInfo> = Vec::new();
        let mut i: usize = 0;
        while i < self.peers.len()
            invariant
                i <= self.peers@.len(),
                out@.len() == i,
                forall|j: int| 0 <= j < i ==> #[trigger] out@[j]@ == self@[j],
            decreases self.peers@.len() - i,
        {
            out.push(self.peers[i].duplicate());
            i = i + 1;
        }
        proof {
            assert(out@.map_values(|p: PeerInfo| p@) =~= self@);
        }
        out
    }

    /// Stop discovery: the advertised list is cleared.
    pub fn stop_discovery(&mut self)
        ensures
            final(self)@ == Seq::<PeerInfoView>::empty(),
    {
        *self = MockDiscovery { peers: Vec::new() };
        proof {
            assert(self@ =~= Seq::<PeerInfoView>::empty());
        }
    }
}

/// `without_id` over a sequence extended at the end.
proof fn lemma_without_id_snoc(s: Seq<PeerInfoView>, pid: Seq<char>)
    requires
        s.len() > 0,
    ensures
        without_id(s, pid) == if s.last().peer_id == pid {
            without_id(s.drop_last(), pid)
        } else {
            without_id(s.drop_last(), pid).push(s.last())
        },
    decreases s.len(),
{
    if s.len() == 1 {
        assert(s.drop_first() =~= Seq::<PeerInfoView>::empty());
        assert(s.drop_last() =~= Seq::<PeerInfoView>::empty());
        assert(without_id(Seq::<PeerInfoView>::empty(), pid) =~= Seq::<PeerInfoView>::empty());
        if s[0].peer_id == pid {
        } else {
            assert(without_id(s, pid) =~= seq![s[0]]);
            assert(without_id(s.drop_last(), pid).push(s.last()) =~= seq![s[0]]);
        }
    } else {
        lemma_without_id_snoc(s.drop_first(), pid);
        assert(s.drop_first().drop_last() =~= s.drop_last().drop_first());
        assert(s.drop_first().last() == s.last());
        assert(s.drop_last()[0] == s[0]);
        if s[0].peer_id == pid {
        } else {
            if s.last().peer_id == pid {
            } else {
                assert(seq![s[0]] + without_id(s.drop_first().drop_last(), pid).push(s.last())
                    =~= (seq![s[0]] + without_id(s.drop_last().drop_first(), pid)).push(s.last()));
            }
        }
    }
}

} // verus!
