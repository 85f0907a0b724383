//! Mesh bookkeeping: the runtime peer registry with its online/offline
//! lifecycle, the clipboard watcher's decision rule, and fan-out results.

use vstd::prelude::*;

use crate::assoc::{
    alookup, distinct_keys, lemma_alookup_absent, lemma_alookup_index, lemma_alookup_push,
    lemma_alookup_update,
};
use crate::clipboard::{ClipboardContent, ClipboardContentView};
use crate::sync::EchoSuppressor;
use crate::text::str_eq;
use crate::trust::MemoryTrustStore;

verus! {

/// Online/offline status of a peer.
#[derive(Debug, Clone, Copy, PartialEq, Eq, Structural)]
pub enum PeerStatus {
    Online,
    Offline,
}

/// Runtime info for a known peer.
#[derive(Debug, Clone)]
pub struct PeerEntry {
    pub peer_id: String,
    pub display_name: String,
    pub last_addr: Option<String>,
    pub status: PeerStatus,
}

/// Mathematical model of a peer entry.
pub struct PeerEntryView {
    pub peer_id: Seq<char>,
    pub display_name: Seq<char>,
    pub last_addr: Option<Seq<char>>,
    pub status: PeerStatus,
}

impl View for PeerEntry {
    type V = PeerEntryView;

    open spec fn view(&self) -> PeerEntryView {
        PeerEntryView {
            peer_id: self.peer_id@,
            display_name: self.display_name@,
            last_addr: match self.last_addr {
                Some(ref a) => Some(a@),
                None => None,
            },
            status: self.status,
        }
    }
}

impl PeerEntry {
    /// An owned copy of this entry.
    pub fn duplicate(&self) -> (r: PeerEntry)
        ensures
            r@ == self@,
    {
        PeerEntry {
            peer_id: self.peer_id.clone(),
            display_name: self.display_name.clone(),
            last_addr: match &self.last_addr {
                Some(a) => Some(a.clone()),
                None => None,
            },
            status: self.status,
        }
    }
}

/// The outcome of one fan-out delivery attempt.
#[derive(Debug, Clone)]
pub struct FanoutResult {
    pub peer_id: String,
    pub success: bool,
    pub error: Option<String>,
}

/// Runtime registry of known peers, keyed by peer-id.
pub struct PeerRegistry {
    peers: Vec<PeerEntry>,
}

impl PeerRegistry {
    /// The view of the stored entries.
    closed spec fn entries_view(&self) -> Seq<(Seq<char>, PeerEntryView)> {
        self.peers@.map_values(|e: PeerEntry| (e.peer_id@, e@))
    }

    /// The entry registered under a peer-id, if any.
    pub closed spec fn spec_get(&self, pid: Seq<char>) -> Option<PeerEntryView> {
        alookup(self.entries_view(), pid)
    }

    /// Every entry is keyed by its own id, and ids are distinct.
    #[verifier::type_invariant]
    closed spec fn wf(self) -> bool {
        distinct_keys(self.entries_view())
    }

    /// An empty registry.
    pub fn new() -> (r: PeerRegistry)
        ensures
            forall|pid: Seq<char>| #[trigger] r.spec_get(pid) is None,
    {
        let r = PeerRegistry { peers: Vec::new() };
        proof {
            assert forall|pid: Seq<char>| #[trigger] r.spec_get(pid) is None by {
                lemma_alookup_absent(r.entries_view(), pid);
            }
        }
        r
    }

    /// The index of the entry for `peer_id`, if one exists.
    fn find_index(&self, peer_id: &str) -> (r: Option<usize>)
        ensures
            match r {
                Some(i) => i < self.peers@.len() && self.peers@[i as int].peer_id@ == peer_id@,
                None => forall|i: int|
                    0 <= i < self.peers@.len() ==> (#[trigger] self.peers@[i]).peer_id@
                        != peer_id@,
            },
    {
        let mut i: usize = 0;
        while i < self.peers.len()
            invariant
                i <= self.peers@.len(),
                forall|j: int| 0 <= j < i ==> (#[trigger] self.peers@[j]).peer_id@ != peer_id@,
            decreases self.peers@.len() - i,
        {
            if str_eq(self.peers[i].peer_id.as_str(), peer_id) {
                return Some(i);
            }
            i = i + 1;
        }
        None
    }

    /// Replace the entry at index `i` with one carrying the same peer-id.
    fn replace_at(&mut self, i: usize, e: PeerEntry)
        requires
            i < old(self).peers@.len(),
            e@.peer_id == old(self).peers@[i as int].peer_id@,
        ensures
            final(self).spec_get(e@.peer_id) == Some(e@),
            forall|p2: Seq<char>|
                p2 != e@.peer_id ==> #[trigger] final(self).spec_get(p2) == old(self).spec_get(p2),
    {
        proof {
            use_type_invariant(&*self);
        }
        let ghost s = self.entries_view();
        let ghost ev = e@;
        let mut out: Vec<PeerEntry> = Vec::new();
        let mut j: usize = 0;
        while j < self.peers.len()
            invariant
                j <= self.peers@.len(),
                i < self.peers@.len(),
                ev == e@,
                e@.peer_id == self.peers@[i as int].peer_id@,
                s == self.entries_view(),
                out@.len() == j,
                forall|k: int|
                    0 <= k < j ==> ((#[trigger] out@[k]).peer_id@, out@[k]@) == (if k == i {
                        (ev.peer_id, ev)
                    } else {
                        s[k]
                    }),
            decreases self.peers@.len() - j,
        {
            if j == i {
                out.push(e.duplicate());
            } else {
                out.push(self.peers[j].duplicate());
            }
            j = j + 1;
        }
        *self = PeerRegistry { peers: out };
        proof {
            assert(self.entries_view() =~= s.update(i as int, (s[i as int].0, ev)));
            assert forall|p2: Seq<char>| true implies alookup(self.entries_view(), p2) == (if p2
                == ev.peer_id {
                Some(ev)
            } else {
                alookup(s, p2)
            }) by {
                lemma_alookup_update(s, i as int, ev, p2);
                assert(s[i as int].0 == ev.peer_id);
            }
        }
    }

    /// Seed the registry from the trust store: every trusted peer not yet
    /// registered is added as Offline; registered peers are untouched.
    pub fn load_from_trust(&mut self, store: &MemoryTrustStore)
        ensures
            forall|pid: Seq<char>|
                #[trigger] final(self).spec_get(pid) == if old(self).spec_get(pid) is Some {
                    old(self).spec_get(pid)
                } else if store@.contains_key(pid) {
                    Some(
                        PeerEntryView {
                            peer_id: pid,
                            display_name: store@[pid].display_name,
                            last_addr: None,
                            status: PeerStatus::Offline,
                        },
                    )
                } else {
                    None
                },
    {
        proof {
            use_type_invariant(&*self);
        }
        let records = store.list();
        let ghost rv = records@.map_values(|r: crate::trust::TrustRecord| r@);
        proof {
            assert forall|pid: Seq<char>| store@.contains_key(pid) implies exists|i: int|
                0 <= i < rv.len() && (#[trigger] rv[i]).peer_id == pid by {
                let i = choose|i: int|
                    0 <= i < records@.len() && (#[trigger] records@[i]@).peer_id == pid;
                assert(rv[i].peer_id == pid);
            }
            assert forall|i: int| 0 <= i < rv.len() implies store@.contains_key(
                (#[trigger] rv[i]).peer_id,
            ) && store@[rv[i].peer_id] == rv[i] by {
                assert(rv[i] == records@[i]@);
            }
            assert forall|i: int, j: int| 0 <= i < j < rv.len() implies rv[i].peer_id
                != rv[j].peer_id by {
                assert(rv[i] == records@[i]@ && rv[j] == records@[j]@);
            }
        }
        let mut k: usize = 0;
        while k < records.len()
            invariant
                k <= records@.len(),
                rv == records@.map_values(|r: crate::trust::TrustRecord| r@),
                rv.len() == records@.len(),
                forall|i: int|
                    0 <= i < rv.len() ==> store@.contains_key((#[trigger] rv[i]).peer_id)
                        && store@[rv[i].peer_id] == rv[i],
                forall|i: int, j: int| 0 <= i < j < rv.len() ==> rv[i].peer_id != rv[j].peer_id,
                forall|pid: Seq<char>|
                    store@.contains_key(pid) ==> exists|i: int|
                        0 <= i < rv.len() && (#[trigger] rv[i]).peer_id == pid,
                forall|pid: Seq<char>|
                    #[trigger] self.spec_get(pid) == if old(self).spec_get(pid) is Some {
                        old(self).spec_get(pid)
                    } else if exists|i: int| 0 <= i < k && (#[trigger] rv[i]).peer_id == pid {
                        Some(
                            PeerEntryView {
                                peer_id: pid,
                                display_name: store@[pid].display_name,
                                last_addr: None,
                                status: PeerStatus::Offline,
                            },
                        )
                    } else {
                        None
                    },
            decreases records@.len() - k,
        {
            proof {
                use_type_invariant(&*self);
            }
            let rec = &records[k];
            let ghost pre = *self;
            let ghost s = self.entries_view();
            let ghost kpid = rv[k as int].peer_id;
            proof {
                assert(rv[k as int] == records@[k as int]@);
                assert(rec@.peer_id == kpid);
            }
            match self.find_index(rec.peer_id.as_str()) {
                Some(i) => {
                    proof {
                        assert(s[i as int].0 == kpid);
                        lemma_alookup_index(s, i as int);
                        assert(self.spec_get(kpid) is Some);
                        assert forall|pid: Seq<char>| true implies #[trigger] self.spec_get(pid)
                            == (if old(self).spec_get(pid) is Some {
                            old(self).spec_get(pid)
                        } else if exists|i2: int|
                            0 <= i2 < k + 1 && (#[trigger] rv[i2]).peer_id == pid {
                            Some(
                                PeerEntryView {
                                    peer_id: pid,
                                    display_name: store@[pid].display_name,
                                    last_addr: None,
                                    status: PeerStatus::Offline,
                                },
                            )
                        } else {
                            None
                        }) by {
                            if pid == kpid {
                                if !(old(self).spec_get(pid) is Some) {
                                    assert(exists|i2: int|
                                        0 <= i2 < k && (#[trigger] rv[i2]).peer_id == pid);
                                    assert(exists|i2: int|
                                        0 <= i2 < k + 1 && (#[trigger] rv[i2]).peer_id == pid);
                                }
                            } else {
                                if exists|i2: int|
                                    0 <= i2 < k + 1 && (#[trigger] rv[i2]).peer_id == pid {
                                    let i2 = choose|i2: int|
                                        0 <= i2 < k + 1 && (#[trigger] rv[i2]).peer_id == pid;
                                    assert(i2 != k);
                                    assert(exists|i3: int|
                                        0 <= i3 < k && (#[trigger] rv[i3]).peer_id == pid);
                                }
                            }
                        }
                    }
                },
                None => {
                    let entry = PeerEntry {
                        peer_id: rec.peer_id.clone(),
                        display_name: rec.display_name.clone(),
                        last_addr: None,
                        status: PeerStatus::Offline,
                    };
                    let ghost ev = entry@;
                    let mut out: Vec<PeerEntry> = Vec::new();
                    let mut j: usize = 0;
                    while j < self.peers.len()
                        invariant
                            j <= self.peers@.len(),
                            s == self.entries_view(),
                            out@.len() == j,
                            forall|m: int|
                                0 <= m < j ==> ((#[trigger] out@[m]).peer_id@, out@[m]@) == s[m],
                        decreases self.peers@.len() - j,
                    {
                        out.push(self.peers[j].duplicate());
                        j = j + 1;
                    }
                    out.push(entry);
                    *self = PeerRegistry { peers: out };
                    proof {
                        assert(ev.peer_id == kpid);
                        assert(self.entries_view() =~= s.push((ev.peer_id, ev)));
                        lemma_alookup_absent(s, ev.peer_id);
                        assert forall|p2: Seq<char>| true implies #[trigger] alookup(
                            self.entries_view(),
                            p2,
                        ) == (if alookup(s, p2) is Some {
                            alookup(s, p2)
                        } else if p2 == ev.peer_id {
                            Some(ev)
                        } else {
                            None
                        }) by {
                            lemma_alookup_push(s, (ev.peer_id, ev), p2);
                        }
                        assert(0 <= k < k + 1 && rv[k as int].peer_id == kpid);
                        assert(exists|i2: int|
                            0 <= i2 < k + 1 && (#[trigger] rv[i2]).peer_id == kpid);
                        assert(ev == PeerEntryView {
                            peer_id: kpid,
                            display_name: store@[kpid].display_name,
                            last_addr: None,
                            status: PeerStatus::Offline,
                        }) by {
                            assert(store@[kpid] == rv[k as int]);
                        }
                        assert forall|pid: Seq<char>| true implies #[trigger] self.spec_get(pid)
                            == (if old(self).spec_get(pid) is Some {
                            old(self).spec_get(pid)
                        } else if exists|i2: int|
                            0 <= i2 < k + 1 && (#[trigger] rv[i2]).peer_id == pid {
                            Some(
                                PeerEntryView {
                                    peer_id: pid,
                                    display_name: store@[pid].display_name,
                                    last_addr: None,
                                    status: PeerStatus::Offline,
                                },
                            )
                        } else {
                            None
                        }) by {
                            assert(pre.spec_get(pid) == alookup(s, pid));
                            if pid == kpid {
                                assert(alookup(s, pid) is None);
                                assert(self.spec_get(pid) == Some(ev));
                            } else {
                                assert(self.spec_get(pid) == alookup(s, pid));
                                if exists|i2: int|
                                    0 <= i2 < k + 1 && (#[trigger] rv[i2]).peer_id == pid {
                                    let i2 = choose|i2: int|
                                        0 <= i2 < k + 1 && (#[trigger] rv[i2]).peer_id == pid;
                                    assert(i2 != k);
                                    assert(exists|i3: int|
                                        0 <= i3 < k && (#[trigger] rv[i3]).peer_id == pid);
                                } else {
                                    if exists|i3: int|
                                        0 <= i3 < k && (#[trigger] rv[i3]).peer_id == pid {
                                        let i3 = choose|i3: int|
                                            0 <= i3 < k && (#[trigger] rv[i3]).peer_id == pid;
                                        assert(0 <= i3 < k + 1 && rv[i3].peer_id == pid);
                                    }
                                }
                            }
                        }
                    }
                },
            }
            k = k + 1;
        }
        proof {
            assert forall|pid: Seq<char>| true implies #[trigger] self.spec_get(pid) == (if old(
                self,
            ).spec_get(pid) is Some {
                old(self).spec_get(pid)
            } else if store@.contains_key(pid) {
                Some(
                    PeerEntryView {
                        peer_id: pid,
                        display_name: store@[pid].display_name,
                        last_addr: None,
                        status: PeerStatus::Offline,
                    },
                )
            } else {
                None
            }) by {
                if store@.contains_key(pid) {
                    assert(exists|i: int| 0 <= i < rv.len() && (#[trigger] rv[i]).peer_id == pid);
                } else {
                    if exists|i: int| 0 <= i < k && (#[trigger] rv[i]).peer_id == pid {
                        let i = choose|i: int| 0 <= i < k && (#[trigger] rv[i]).peer_id == pid;
                        assert(store@.contains_key(rv[i].peer_id));
                    }
                }
            }
        }
    }

    /// Mark a registered peer online, updating its address when one is
    /// given; an unknown peer-id is silently ignored.
    pub fn set_online(&mut self, peer_id: &str, addr: Option<String>)
        ensures
            match old(self).spec_get(peer_id@) {
                Some(e) => final(self).spec_get(peer_id@) == Some(
                    PeerEntryView {
                        peer_id: e.peer_id,
                        display_name: e.display_name,
                        last_addr: match addr {
                            Some(ref a) => Some(a@),
                            None => e.last_addr,
                        },
                        status: PeerStatus::Online,
                    },
                ),
                None => final(self).spec_get(peer_id@) is None,
            },
            forall|p2: Seq<char>|
                p2 != peer_id@ ==> #[trigger] final(self).spec_get(p2) == old(self).spec_get(p2),
    {
        proof {
            use_type_invariant(&*self);
        }
        let ghost s = self.entries_view();
        match self.find_index(peer_id) {
            Some(i) => {
                proof {
                    lemma_alookup_index(s, i as int);
                }
                let cur = self.peers[i].duplicate();
                let new_addr: Option<String> = match addr {
                    Some(a) => Some(a),
                    None => cur.last_addr,
                };
                let entry = PeerEntry {
                    peer_id: cur.peer_id,
                    display_name: cur.display_name,
                    last_addr: new_addr,
                    status: PeerStatus::Online,
                };
                self.replace_at(i, entry);
            },
            None => {
                proof {
                    lemma_alookup_absent(s, peer_id@);
                }
            },
        }
    }

    /// Mark a registered peer offline; an unknown peer-id is ignored.
    pub fn set_offline(&mut self, peer_id: &str)
        ensures
            match old(self).spec_get(peer_id@) {
                Some(e) => final(self).spec_get(peer_id@) == Some(
                    PeerEntryView {
                        peer_id: e.peer_id,
                        display_name: e.display_name,
                        last_addr: e.last_addr,
                        status: PeerStatus::Offline,
                    },
                ),
                None => final(self).spec_get(peer_id@) is None,
            },
            forall|p2: Seq<char>|
                p2 != peer_id@ ==> #[trigger] final(self).spec_get(p2) == old(self).spec_get(p2),
    {
        proof {
            use_type_invariant(&*self);
        }
        let ghost s = self.entries_view();
        match self.find_index(peer_id) {
            Some(i) => {
                proof {
                    lemma_alookup_index(s, i as int);
                }
                let cur = self.peers[i].duplicate();
                let entry = PeerEntry {
                    peer_id: cur.peer_id,
                    display_name: cur.display_name,
                    last_addr: cur.last_addr,
                    status: PeerStatus::Offline,
                };
                self.replace_at(i, entry);
            },
            None => {
                proof {
                    lemma_alookup_absent(s, peer_id@);
                }
            },
        }
    }

    /// Snapshot of every registered entry.
    pub fn list_all(&self) -> (r: Vec<PeerEntry>)
        ensures
            forall|i: int|
                0 <= i < r@.len() ==> #[trigger] self.spec_get(r@[i]@.peer_id) == Some(r@[i]@),
            forall|pid: Seq<char>|
                self.spec_get(pid) is Some ==> exists|i: int|
                    0 <= i < r@.len() && (#[trigger] r@[i]@).peer_id == pid,
            forall|i: int, j: int| 0 <= i < j < r@.len() ==> r@[i]@.peer_id != r@[j]@.peer_id,
    {
        proof {
            use_type_invariant(self);
        }
        let ghost s = self.entries_view();
        let mut out: Vec<PeerEntry> = Vec::new();
        let mut i: usize = 0;
        while i < self.peers.len()
            invariant
                i <= self.peers@.len(),
                s == self.entries_view(),
                out@.len() == i,
                forall|j: int| 0 <= j < i ==> #[trigger] out@[j]@ == s[j].1,
                forall|j: int| 0 <= j < i ==> (#[trigger] out@[j]@).peer_id == s[j].0,
            decreases self.peers@.len() - i,
        {
            out.push(self.peers[i].duplicate());
            i = i + 1;
        }
        proof {
            assert forall|j: int| 0 <= j < out@.len() implies #[trigger] self.spec_get(
                out@[j]@.peer_id,
            ) == Some(out@[j]@) by {
                lemma_alookup_index(s, j);
            }
            assert forall|pid: Seq<char>| self.spec_get(pid) is Some implies exists|j: int|
                0 <= j < out@.len() && (#[trigger] out@[j]@).peer_id == pid by {
                lemma_exists_of_alookup(s, pid);
                let j = choose|j: int| 0 <= j < s.len() && (#[trigger] s[j]).0 == pid;
                assert(out@[j]@.peer_id == pid);
            }
        }
        out
    }

    /// Snapshot of the online entries.
    pub fn list_online(&self) -> (r: Vec<PeerEntry>)
        ensures
            forall|i: int|
                0 <= i < r@.len() ==> #[trigger] self.spec_get(r@[i]@.peer_id) == Some(r@[i]@)
                    && r@[i]@.status == PeerStatus::Online,
            forall|pid: Seq<char>|
                (#[trigger] self.spec_get(pid)) matches Some(e) && e.status == PeerStatus::Online
                    ==> exists|i: int| 0 <= i < r@.len() && (#[trigger] r@[i]@).peer_id == pid,
    {
        let all = self.list_all();
        let mut out: Vec<PeerEntry> = Vec::new();
        let mut i: usize = 0;
        while i < all.len()
            invariant
                i <= all@.len(),
                forall|j: int|
                    0 <= j < all@.len() ==> #[trigger] self.spec_get(all@[j]@.peer_id) == Some(
                        all@[j]@,
                    ),
                forall|j: int, m: int|
                    0 <= j < m < all@.len() ==> all@[j]@.peer_id != all@[m]@.peer_id,
                forall|pid: Seq<char>|
                    self.spec_get(pid) is Some ==> exists|j: int|
                        0 <= j < all@.len() && (#[trigger] all@[j]@).peer_id == pid,
                forall|j: int|
                    0 <= j < out@.len() ==> #[trigger] self.spec_get(out@[j]@.peer_id) == Some(
                        out@[j]@,
                    ) && out@[j]@.status == PeerStatus::Online,
                forall|j: int|
                    0 <= j < i ==> (all@[j]@.status == PeerStatus::Online ==> exists|m: int|
                        0 <= m < out@.len() && (#[trigger] out@[m]@).peer_id == all@[j]@.peer_id),
            decreases all@.len() - i,
        {
            let ghost prev = out@;
            let is_online = match all[i].status {
                PeerStatus::Online => true,
                PeerStatus::Offline => false,
            };
            if is_online {
                out.push(all[i].duplicate());
                proof {
                    assert(out@[out@.len() - 1]@.peer_id == all@[i as int]@.peer_id);
                    assert(forall|m: int| 0 <= m < prev.len() ==> out@[m] == prev[m]);
                }
            }
            proof {
                assert forall|j: int|
                    0 <= j < i + 1 implies (all@[j]@.status == PeerStatus::Online ==> exists|m: int|
                    0 <= m < out@.len() && (#[trigger] out@[m]@).peer_id
                        == all@[j]@.peer_id) by {
                    if all@[j]@.status == PeerStatus::Online {
                        if j < i {
                            let m = choose|m: int|
                                0 <= m < prev.len() && (#[trigger] prev[m]@).peer_id
                                    == all@[j]@.peer_id;
                            assert(out@[m]@.peer_id == all@[j]@.peer_id);
                        } else {
                            assert(out@[out@.len() - 1]@.peer_id == all@[j]@.peer_id);
                        }
                    }
                }
            }
            i = i + 1;
        }
        proof {
            assert forall|pid: Seq<char>|
                (#[trigger] self.spec_get(pid)) matches Some(e) && e.status
                    == PeerStatus::Online implies exists|m: int|
                0 <= m < out@.len() && (#[trigger] out@[m]@).peer_id == pid by {
                let j = choose|j: int| 0 <= j < all@.len() && (#[trigger] all@[j]@).peer_id == pid;
                assert(self.spec_get(all@[j]@.peer_id) == Some(all@[j]@));
                assert(all@[j]@.status == PeerStatus::Online);
            }
        }
        out
    }

    /// The registered entry of a peer-id.
    pub fn get(&self, peer_id: &str) -> (r: Option<PeerEntry>)
        ensures
            match r {
                Some(e) => self.spec_get(peer_id@) == Some(e@),
                None => self.spec_get(peer_id@) is None,
            },
    {
        proof {
            use_type_invariant(self);
        }
        let ghost s = self.entries_view();
        match self.find_index(peer_id) {
            Some(i) => {
                proof {
                    lemma_alookup_index(s, i as int);
                }
                Some(self.peers[i].duplicate())
            },
            None => {
                proof {
                    lemma_alookup_absent(s, peer_id@);
                }
                None
            },
        }
    }
}

/// A found key is held at some index.
proof fn lemma_exists_of_alookup(s: Seq<(Seq<char>, PeerEntryView)>, pid: Seq<char>)
    requires
        alookup(s, pid) is Some,
    ensures
        exists|i: int| 0 <= i < s.len() && (#[trigger] s[i]).0 == pid,
    decreases s.len(),
{
    if s.len() > 0 {
        if s[0].0 == pid {
            assert(s[0].0 == pid);
        } else {
            lemma_exists_of_alookup(s.drop_first(), pid);
            let i = choose|i: int|
                0 <= i < s.drop_first().len() && (#[trigger] s.drop_first()[i]).0 == pid;
            assert(s[i + 1].0 == pid);
        }
    }
}

/// What one watcher poll does with the content it read.
#[derive(Debug, Clone, Copy, PartialEq, Eq, Structural)]
pub enum WatcherStep {
    /// Empty or unchanged content: do nothing.
    Ignore,
    /// A suppressed remote echo: remember it as last seen, emit nothing.
    Remember,
    /// A genuine local change: remember it and emit the change.
    Emit,
}

/// Whether content equals the last seen value.
pub open spec fn same_as_last(
    current: ClipboardContentView,
    last: Option<ClipboardContentView>,
) -> bool {
    match last {
        Some(l) => l == current,
        None => false,
    }
}

/// Whether the suppressor silences this content.
pub open spec fn suppressed(current: ClipboardContentView, window: Seq<Seq<char>>) -> bool {
    match current {
        ClipboardContentView::Text(t) => window.contains(t),
        _ => false,
    }
}

/// The watcher's decision for one polled content: skip what is empty or
/// unchanged; remember but do not emit a suppressed remote echo; emit any
/// other change. A text in the suppressor window is never emitted.
pub fn watcher_step(
    current: &ClipboardContent,
    last: &Option<ClipboardContent>,
    suppressor: &EchoSuppressor,
) -> (r: WatcherStep)
    ensures
        r == WatcherStep::Ignore <==> (current@ is Empty || same_as_last(
            current@,
            match last {
                Some(l) => Some(l@),
                None => None,
            },
        )),
        r == WatcherStep::Remember <==> (!(current@ is Empty) && !same_as_last(
            current@,
            match last {
                Some(l) => Some(l@),
                None => None,
            },
        ) && suppressed(current@, suppressor@)),
        suppressed(current@, suppressor@) ==> r != WatcherStep::Emit,
{
    match current {
        ClipboardContent::Empty => WatcherStep::Ignore,
        _ => {
            let unchanged = match last {
                Some(l) => current.same_as(l),
                None => false,
            };
            if unchanged {
                WatcherStep::Ignore
            } else {
                let is_suppressed = match current {
                    ClipboardContent::Text(t) => suppressor.should_ignore_local_change(t.as_str()),
                    _ => false,
                };
                if is_suppressed {
                    WatcherStep::Remember
                } else {
                    WatcherStep::Emit
                }
            }
        },
    }
}

/// Echo suppression law: a remote write observed by the next local poll,
/// while it stays in the suppressor window, is never emitted back.
pub proof fn lemma_echo_suppression(
    window: Seq<Seq<char>>,
    text: Seq<char>,
    current: ClipboardContentView,
)
    requires
        window.contains(text),
        current == ClipboardContentView::Text(text),
    ensures
        suppressed(current, window),
{
}

} // verus!
