//! Replay protection for authenticated handshakes: a bounded per-peer
//! FIFO of recently seen 32-byte nonces.

use vstd::prelude::*;

use crate::assoc::{
    alookup, distinct_keys, lemma_alookup_absent, lemma_alookup_index, lemma_alookup_push,
    lemma_alookup_update,
};
use crate::text::{bytes_eq, str_eq};

verus! {

/// Why a nonce was refused.
#[derive(Debug, Clone, Copy, PartialEq, Eq, Structural)]
pub enum ReplayError {
    /// The nonce is not exactly 32 bytes.
    InvalidNonce,
    /// The nonce is already in this peer's window.
    Replayed,
}

/// The window after appending a nonce: the oldest entry leaves when the
/// bound is exceeded.
pub open spec fn window_after(w: Seq<Seq<u8>>, nonce: Seq<u8>, cap: nat) -> Seq<Seq<u8>> {
    if w.len() + 1 > cap {
        w.push(nonce).drop_first()
    } else {
        w.push(nonce)
    }
}

/// An accepted nonce stands in the window that accepting it produces: while
/// it stays there, the same nonce cannot be accepted again.
pub proof fn lemma_accepted_nonce_in_window(w: Seq<Seq<u8>>, nonce: Seq<u8>, cap: nat)
    requires
        cap >= 1,
        w.len() <= cap,
    ensures
        window_after(w, nonce, cap).contains(nonce),
        window_after(w, nonce, cap).len() <= cap,
{
    let p = w.push(nonce);
    assert(p.last() == nonce);
    if w.len() + 1 > cap {
        assert(p.drop_first().last() == nonce);
        assert(p.drop_first().contains(nonce)) by {
            assert(p.drop_first()[p.drop_first().len() - 1] == nonce);
        }
    } else {
        assert(p.contains(nonce)) by {
            assert(p[p.len() - 1] == nonce);
        }
    }
}

/// In-memory replay protector with a per-peer capacity of at least one.
pub struct MemoryReplayProtector {
    per_peer_capacity: usize,
    windows: Vec<(String, Vec<Vec<u8>>)>,
}

impl MemoryReplayProtector {
    /// The per-peer bound on remembered nonces.
    pub closed spec fn spec_capacity(&self) -> nat {
        self.per_peer_capacity as nat
    }

    /// The view of the stored windows.
    closed spec fn windows_view(&self) -> Seq<(Seq<char>, Seq<Seq<u8>>)> {
        self.windows@.map_values(|p: (String, Vec<Vec<u8>>)| (p.0@, p.1.deep_view()))
    }

    /// The recently seen nonces of a peer, oldest first.
    pub closed spec fn spec_window(&self, pid: Seq<char>) -> Seq<Seq<u8>> {
        match alookup(self.windows_view(), pid) {
            Some(w) => w,
            None => Seq::empty(),
        }
    }

    /// Keys are distinct, the capacity positive, and every window bounded.
    #[verifier::type_invariant]
    closed spec fn wf(self) -> bool {
        &&& self.per_peer_capacity >= 1
        &&& distinct_keys(self.windows_view())
        &&& forall|i: int|
            0 <= i < self.windows_view().len() ==> (#[trigger] self.windows_view()[i]).1.len()
                <= self.per_peer_capacity
    }

    /// Build a protector; a capacity below one is clamped to one.
    pub fn new(per_peer_capacity: usize) -> (r: MemoryReplayProtector)
        ensures
            r.spec_capacity() == if per_peer_capacity >= 1 {
                per_peer_capacity as nat
            } else {
                1nat
            },
            forall|pid: Seq<char>| #[trigger] r.spec_window(pid) == Seq::<Seq<u8>>::empty(),
    {
        let cap: usize = if per_peer_capacity >= 1 {
            per_peer_capacity
        } else {
            1
        };
        let r = MemoryReplayProtector { per_peer_capacity: cap, windows: Vec::new() };
        proof {
            assert(r.windows_view() =~= Seq::<(Seq<char>, Seq<Seq<u8>>)>::empty());
            assert forall|pid: Seq<char>| #[trigger] r.spec_window(pid) == Seq::<
                Seq<u8>,
            >::empty() by {
                lemma_alookup_absent(r.windows_view(), pid);
            }
        }
        r
    }

    /// The index of the window for `peer_id`, if one exists.
    fn find_index(&self, peer_id: &str) -> (r: Option<usize>)
        ensures
            match r {
                Some(i) => i < self.windows@.len() && self.windows@[i as int].0@ == peer_id@,
                None => forall|i: int|
                    0 <= i < self.windows@.len() ==> (#[trigger] self.windows@[i]).0@ != peer_id@,
            },
    {
        let mut i: usize = 0;
        while i < self.windows.len()
            invariant
                i <= self.windows@.len(),
                forall|j: int| 0 <= j < i ==> (#[trigger] self.windows@[j]).0@ != peer_id@,
            decreases self.windows@.len() - i,
        {
            if str_eq(self.windows[i].0.as_str(), peer_id) {
                return Some(i);
            }
            i = i + 1;
        }
        None
    }

    /// Accept a fresh 32-byte nonce for a peer, or refuse it.
    ///
    /// Fails with `InvalidNonce` exactly when the nonce is not 32 bytes;
    /// otherwise fails with `Replayed` exactly when the nonce is already in
    /// the peer's window. On success the nonce joins the window, evicting
    /// the oldest entry past the capacity; other peers are untouched.
    pub fn check_and_store(&mut self, peer_id: &str, nonce: &[u8]) -> (r: Result<(), ReplayError>)
        ensures
            final(self).spec_capacity() == old(self).spec_capacity(),
            match r {
                Ok(()) => {
                    &&& nonce@.len() == 32
                    &&& !old(self).spec_window(peer_id@).contains(nonce@)
                    &&& final(self).spec_window(peer_id@) == window_after(
                        old(self).spec_window(peer_id@),
                        nonce@,
                        old(self).spec_capacity(),
                    )
                    &&& forall|p2: Seq<char>|
                        p2 != peer_id@ ==> #[trigger] final(self).spec_window(p2) == old(
                            self,
                        ).spec_window(p2)
                },
                Err(e) => {
                    &&& (e == ReplayError::InvalidNonce <==> nonce@.len() != 32)
                    &&& e == ReplayError::Replayed ==> old(self).spec_window(peer_id@).contains(
                        nonce@,
                    )
                    &&& forall|p2: Seq<char>|
                        #[trigger] final(self).spec_window(p2) == old(self).spec_window(p2)
                },
            },
    {
        proof {
            use_type_invariant(&*self);
        }
        if nonce.len() != 32 {
            return Err(ReplayError::InvalidNonce);
        }
        let ghost wv = self.windows_view();
        let idx = self.find_index(peer_id);
        let ghost oldw = self.spec_window(peer_id@);
        // Pull out the current window for this peer.
        let mut window: Vec<Vec<u8>> = Vec::new();
        match idx {
            Some(i) => {
                proof {
                    lemma_alookup_index(wv, i as int);
                    assert(oldw == wv[i as int].1);
                }
                let stored = &self.windows[i].1;
                let mut j: usize = 0;
                while j < stored.len()
                    invariant
                        j <= stored@.len(),
                        window@.len() == j,
                        forall|k: int|
                            0 <= k < j ==> #[trigger] window@[k]@ == stored@[k]@,
                    decreases stored@.len() - j,
                {
                    let mut one: Vec<u8> = Vec::new();
                    crate::protocol::append_slice(&mut one, stored[j].as_slice());
                    window.push(one);
                    j = j + 1;
                }
                proof {
                    assert(window.deep_view() =~~= stored.deep_view());
                    assert(window.deep_view() =~~= oldw);
                }
            },
            None => {
                proof {
                    lemma_alookup_absent(wv, peer_id@);
                    assert(window.deep_view() =~~= oldw);
                }
            },
        }
        // Reject a replayed nonce.
        let mut j: usize = 0;
        while j < window.len()
            invariant
                j <= window@.len(),
                window.deep_view() == oldw,
                nonce@.len() == 32,
                *self == *old(self),
                oldw == old(self).spec_window(peer_id@),
                forall|k: int| 0 <= k < j ==> #[trigger] window@[k]@ != nonce@,
            decreases window@.len() - j,
        {
            if bytes_eq(window[j].as_slice(), nonce) {
                proof {
                    assert(window@[j as int].deep_view() =~= nonce@);
                    assert(oldw[j as int] == nonce@);
                    assert(oldw.contains(nonce@));
                }
                return Err(ReplayError::Replayed);
            }
            j = j + 1;
        }
        proof {
            assert(!oldw.contains(nonce@)) by {
                if oldw.contains(nonce@) {
                    let k = choose|k: int| 0 <= k < oldw.len() && oldw[k] == nonce@;
                    assert(window@[k]@ == nonce@);
                }
            }
        }
        // Append, evicting the oldest entry past the bound.
        let mut fresh: Vec<u8> = Vec::new();
        crate::protocol::append_slice(&mut fresh, nonce);
        window.push(fresh);
        proof {
            assert(window.deep_view() =~~= oldw.push(nonce@));
        }
        if window.len() > self.per_peer_capacity {
            window.remove(0);
            proof {
                assert(window.deep_view() =~~= oldw.push(nonce@).drop_first());
            }
        }
        let ghost neww = window.deep_view();
        proof {
            assert(neww == window_after(oldw, nonce@, self.per_peer_capacity as nat)) by {
                if idx is Some {
                    assert(oldw.len() <= self.per_peer_capacity);
                }
            }
        }
        // Write the window back.
        let mut out: Vec<(String, Vec<Vec<u8>>)> = Vec::new();
        match idx {
            Some(i) => {
                let mut j: usize = 0;
                while j < self.windows.len()
                    invariant
                        j <= self.windows@.len(),
                        i < self.windows@.len(),
                        wv == self.windows_view(),
                        out@.len() == j,
                        neww == window.deep_view(),
                        window@.len() <= self.per_peer_capacity,
                        forall|k: int|
                            0 <= k < j ==> ((#[trigger] out@[k]).0@, out@[k].1.deep_view()) == (
                            if k == i {
                                (wv[i as int].0, neww)
                            } else {
                                wv[k]
                            }),
                    decreases self.windows@.len() - j,
                {
                    if j == i {
                        let mut dup: Vec<Vec<u8>> = Vec::new();
                        let mut m: usize = 0;
                        while m < window.len()
                            invariant
                                m <= window@.len(),
                                dup@.len() == m,
                                forall|k: int|
                                    0 <= k < m ==> #[trigger] dup@[k]@ == window@[k]@,
                            decreases window@.len() - m,
                        {
                            let mut one: Vec<u8> = Vec::new();
                            crate::protocol::append_slice(&mut one, window[m].as_slice());
                            dup.push(one);
                            m = m + 1;
                        }
                        proof {
                            assert(dup.deep_view() =~~= window.deep_view());
                        }
                        out.push((self.windows[j].0.clone(), dup));
                    } else {
                        let entry = &self.windows[j];
                        let mut dup: Vec<Vec<u8>> = Vec::new();
                        let mut m: usize = 0;
                        while m < entry.1.len()
                            invariant
                                m <= entry.1@.len(),
                                dup@.len() == m,
                                forall|k: int|
                                    0 <= k < m ==> #[trigger] dup@[k]@ == entry.1@[k]@,
                            decreases entry.1@.len() - m,
                        {
                            let mut one: Vec<u8> = Vec::new();
                            crate::protocol::append_slice(&mut one, entry.1[m].as_slice());
                            dup.push(one);
                            m = m + 1;
                        }
                        proof {
                            assert(dup.deep_view() =~~= entry.1.deep_view());
                        }
                        out.push((self.windows[j].0.clone(), dup));
                    }
                    j = j + 1;
                }
                let cap = self.per_peer_capacity;
                *self = MemoryReplayProtector { per_peer_capacity: cap, windows: out };
                proof {
                    assert(self.windows_view() =~= wv.update(i as int, (wv[i as int].0, neww)));
                    assert forall|p2: Seq<char>| true implies alookup(self.windows_view(), p2) == (
                    if p2 == peer_id@ {
                        Some(neww)
                    } else {
                        alookup(wv, p2)
                    }) by {
                        lemma_alookup_update(wv, i as int, neww, p2);
                        assert(wv[i as int].0 == peer_id@);
                    }
                }
            },
            None => {
                let mut j: usize = 0;
                while j < self.windows.len()
                    invariant
                        j <= self.windows@.len(),
                        wv == self.windows_view(),
                        out@.len() == j,
                        forall|k: int|
                            0 <= k < j ==> ((#[trigger] out@[k]).0@, out@[k].1.deep_view())
                                == wv[k],
                    decreases self.windows@.len() - j,
                {
                    let entry = &self.windows[j];
                    let mut dup: Vec<Vec<u8>> = Vec::new();
                    let mut m: usize = 0;
                    while m < entry.1.len()
                        invariant
                            m <= entry.1@.len(),
                            dup@.len() == m,
                            forall|k: int| 0 <= k < m ==> #[trigger] dup@[k]@ == entry.1@[k]@,
                        decreases entry.1@.len() - m,
                    {
                        let mut one: Vec<u8> = Vec::new();
                        crate::protocol::append_slice(&mut one, entry.1[m].as_slice());
                        dup.push(one);
                        m = m + 1;
                    }
                    proof {
                        assert(dup.deep_view() =~~= entry.1.deep_view());
                    }
                    out.push((self.windows[j].0.clone(), dup));
                    j = j + 1;
                }
                let pid_owned = <String as vstd::string::StringExecFns>::from_str(peer_id);
                out.push((pid_owned, window));
                let cap = self.per_peer_capacity;
                *self = MemoryReplayProtector { per_peer_capacity: cap, windows: out };
                proof {
                    assert(self.windows_view() =~= wv.push((peer_id@, neww)));
                    assert forall|p2: Seq<char>| true implies alookup(self.windows_view(), p2) == (
                    if p2 == peer_id@ {
                        Some(neww)
                    } else {
                        alookup(wv, p2)
                    }) by {
                        lemma_alookup_push(wv, (peer_id@, neww), p2);
                        if p2 == peer_id@ {
                            lemma_alookup_absent(wv, peer_id@);
                        }
                    }
                }
            },
        }
        Ok(())
    }
}

} // verus!
