//! Bounded clipboard history: an append-only FIFO log with a capacity of
//! at least one, newest-first reads, and a per-peer filter.

use vstd::prelude::*;

use crate::crypto::{now_ms, random_u128};
use crate::text::{str_eq, to_hex};

verus! {

/// A single clipboard history entry.
#[derive(Debug, Clone)]
pub struct ClipboardEntry {
    pub id: String,
    pub content: String,
    pub source_peer: String,
    pub timestamp: u64,
}

/// Mathematical model of a history entry.
pub struct ClipboardEntryView {
    pub id: Seq<char>,
    pub content: Seq<char>,
    pub source_peer: Seq<char>,
    pub timestamp: u64,
}

impl View for ClipboardEntry {
    type V = ClipboardEntryView;

    open spec fn view(&self) -> ClipboardEntryView {
        ClipboardEntryView {
            id: self.id@,
            content: self.content@,
            source_peer: self.source_peer@,
            timestamp: self.timestamp,
        }
    }
}

impl ClipboardEntry {
    /// An owned copy of this entry.
    pub fn duplicate(&self) -> (r: ClipboardEntry)
        ensures
            r@ == self@,
    {
        ClipboardEntry {
            id: self.id.clone(),
            content: self.content.clone(),
            source_peer: self.source_peer.clone(),
            timestamp: self.timestamp,
        }
    }
}

/// The newest entries of `s`, newest first, at most `limit` of them.
pub open spec fn recent_of(s: Seq<ClipboardEntryView>, limit: nat) -> Seq<ClipboardEntryView>
    decreases s.len(),
{
    if s.len() == 0 || limit == 0 {
        Seq::empty()
    } else {
        seq![s.last()] + recent_of(s.drop_last(), (limit - 1) as nat)
    }
}

/// The newest entries of `s` from `peer`, newest first, at most `limit`.
pub open spec fn recent_for_peer(
    s: Seq<ClipboardEntryView>,
    peer: Seq<char>,
    limit: nat,
) -> Seq<ClipboardEntryView>
    decreases s.len(),
{
    if s.len() == 0 || limit == 0 {
        Seq::empty()
    } else if s.last().source_peer == peer {
        seq![s.last()] + recent_for_peer(s.drop_last(), peer, (limit - 1) as nat)
    } else {
        recent_for_peer(s.drop_last(), peer, limit)
    }
}

/// The first entry of `s` with the given id, if any.
pub open spec fn find_by_id(s: Seq<ClipboardEntryView>, id: Seq<char>) -> Option<
    ClipboardEntryView,
>
    decreases s.len(),
{
    if s.len() == 0 {
        None
    } else if s[0].id == id {
        Some(s[0])
    } else {
        find_by_id(s.drop_first(), id)
    }
}

/// Bounded clipboard history, oldest entry first.
pub struct ClipboardHistory {
    max_entries: usize,
    entries: Vec<ClipboardEntry>,
}

impl View for ClipboardHistory {
    type V = Seq<ClipboardEntryView>;

    closed spec fn view(&self) -> Seq<ClipboardEntryView> {
        self.entries@.map_values(|e: ClipboardEntry| e@)
    }
}

impl ClipboardHistory {
    /// The capacity, at least one.
    pub closed spec fn spec_max(&self) -> nat {
        self.max_entries as nat
    }

    /// The length never exceeds the capacity.
    #[verifier::type_invariant]
    closed spec fn wf(self) -> bool {
        &&& self.max_entries >= 1
        &&& self.entries@.len() <= self.max_entries
    }

    /// Build an empty history; a capacity below one is clamped to one.
    pub fn new(max_entries: usize) -> (r: ClipboardHistory)
        ensures
            r.spec_max() == if max_entries >= 1 {
                max_entries as nat
            } else {
                1nat
            },
            r@ == Seq::<ClipboardEntryView>::empty(),
    {
        let cap: usize = if max_entries >= 1 {
            max_entries
        } else {
            1
        };
        let r = ClipboardHistory { max_entries: cap, entries: Vec::new() };
        proof {
            assert(r@ =~= Seq::<ClipboardEntryView>::empty());
        }
        r
    }

    /// Record a clipboard event under a fresh random id; the oldest entry
    /// is evicted past the capacity. Returns the generated id.
    pub fn record(&mut self, content: String, source_peer: String) -> (r: String)
        ensures
            final(self).spec_max() == old(self).spec_max(),
            final(self)@.len() <= final(self).spec_max(),
            final(self)@.len() >= 1,
            final(self)@.last().id == r@,
            final(self)@.last().content == content@,
            final(self)@.last().source_peer == source_peer@,
            final(self)@ == if old(self)@.len() < old(self).spec_max() {
                old(self)@.push(final(self)@.last())
            } else {
                old(self)@.drop_first().push(final(self)@.last())
            },
            r@.len() == 32,
            exists|b: Seq<u8>| #![trigger crate::text::hex_chars(b)]
                b.len() == 16 && r@ == crate::text::hex_chars(b),
    {
        proof {
            use_type_invariant(&*self);
        }
        let ghost s = self@;
        let rnd = random_u128();
        let mut idb: Vec<u8> = Vec::new();
        let mut k: usize = 0;
        while k < 16
            invariant
                idb@.len() == k,
                k <= 16,
            decreases 16 - k,
        {
            idb.push(((rnd >> ((15 - k) * 8)) & 0xff) as u8);
            k = k + 1;
        }
        let id = to_hex(idb.as_slice());
        proof {
            assert(idb@.len() == 16);
            assert(crate::text::hex_chars(idb@).len() == 32);
        }
        let timestamp = now_ms();
        let entry = ClipboardEntry {
            id: id.clone(),
            content,
            source_peer,
            timestamp,
        };
        let ghost ev = entry@;
        let mut out: Vec<ClipboardEntry> = Vec::new();
        let start: usize = if self.entries.len() < self.max_entries {
            0
        } else {
            1
        };
        let mut j: usize = start;
        while j < self.entries.len()
            invariant
                start <= j <= self.entries@.len(),
                s == self@,
                out@.len() == j - start,
                forall|m: int|
                    0 <= m < out@.len() ==> #[trigger] out@[m]@ == s[m + start],
            decreases self.entries@.len() - j,
        {
            out.push(self.entries[j].duplicate());
            j = j + 1;
        }
        out.push(entry);
        let cap = self.max_entries;
        *self = ClipboardHistory { max_entries: cap, entries: out };
        proof {
            if s.len() < cap {
                assert(self@ =~= s.push(ev));
            } else {
                assert(self@ =~= s.drop_first().push(ev));
            }
            assert(self@.last() == ev);
        }
        id
    }

    /// The newest entries, newest first, at most `limit` of them.
    pub fn get_recent(&self, limit: usize) -> (r: Vec<ClipboardEntry>)
        ensures
            r@.map_values(|e: ClipboardEntry| e@) == recent_of(self@, limit as nat),
    {
        let ghost s = self@;
        let mut out: Vec<ClipboardEntry> = Vec::new();
        let mut i: usize = self.entries.len();
        proof {
            assert(out@.map_values(|e: ClipboardEntry| e@) =~= Seq::<ClipboardEntryView>::empty());
            assert(s.take(s.len() as int) =~= s);
        }
        while i > 0 && out.len() < limit
            invariant
                i <= self.entries@.len(),
                s == self@,
                out@.len() <= limit,
                recent_of(s, limit as nat) =~= out@.map_values(|e: ClipboardEntry| e@)
                    + recent_of(s.take(i as int), (limit - out@.len()) as nat),
            decreases i,
        {
            i = i - 1;
            out.push(self.entries[i].duplicate());
            proof {
                let t = s.take(i + 1);
                assert(t.drop_last() =~= s.take(i as int));
                assert(t.last() == s[i as int]);
                assert(recent_of(s, limit as nat) =~= out@.map_values(|e: ClipboardEntry| e@)
                    + recent_of(s.take(i as int), (limit - out@.len()) as nat));
            }
        }
        proof {
            if out@.len() == limit {
                assert(recent_of(s.take(i as int), 0) =~= Seq::<ClipboardEntryView>::empty());
            } else {
                assert(i == 0);
                assert(s.take(0) =~= Seq::<ClipboardEntryView>::empty());
            }
            assert(recent_of(s, limit as nat) =~= out@.map_values(|e: ClipboardEntry| e@));
        }
        out
    }

    /// The newest entries from `peer_name`, newest first, at most `limit`.
    pub fn get_for_peer(&self, peer_name: &str, limit: usize) -> (r: Vec<ClipboardEntry>)
        ensures
            r@.map_values(|e: ClipboardEntry| e@) == recent_for_peer(
                self@,
                peer_name@,
                limit as nat,
            ),
    {
        let ghost s = self@;
        let mut out: Vec<ClipboardEntry> = Vec::new();
        let mut i: usize = self.entries.len();
        proof {
            assert(out@.map_values(|e: ClipboardEntry| e@) =~= Seq::<ClipboardEntryView>::empty());
            assert(s.take(s.len() as int) =~= s);
        }
        while i > 0 && out.len() < limit
            invariant
                i <= self.entries@.len(),
                s == self@,
                out@.len() <= limit,
                recent_for_peer(s, peer_name@, limit as nat) =~= out@.map_values(
                    |e: ClipboardEntry| e@,
                ) + recent_for_peer(s.take(i as int), peer_name@, (limit - out@.len()) as nat),
            decreases i,
        {
            i = i - 1;
            proof {
                let t = s.take(i + 1);
                assert(t.drop_last() =~= s.take(i as int));
                assert(t.last() == s[i as int]);
            }
            if str_eq(self.entries[i].source_peer.as_str(), peer_name) {
                out.push(self.entries[i].duplicate());
                proof {
                    assert(recent_for_peer(s, peer_name@, limit as nat) =~= out@.map_values(
                        |e: ClipboardEntry| e@,
                    ) + recent_for_peer(s.take(i as int), peer_name@, (limit - out@.len()) as nat));
                }
            } else {
                proof {
                    assert(recent_for_peer(s, peer_name@, limit as nat) =~= out@.map_values(
                        |e: ClipboardEntry| e@,
                    ) + recent_for_peer(s.take(i as int), peer_name@, (limit - out@.len()) as nat));
                }
            }
        }
        proof {
            if out@.len() == limit {
                assert(recent_for_peer(s.take(i as int), peer_name@, 0) =~= Seq::<
                    ClipboardEntryView,
                >::empty());
            } else {
                assert(i == 0);
                assert(s.take(0) =~= Seq::<ClipboardEntryView>::empty());
            }
            assert(recent_for_peer(s, peer_name@, limit as nat) =~= out@.map_values(
                |e: ClipboardEntry| e@,
            ));
        }
        out
    }

    /// Look up an entry by id: the first stored entry carrying it, or
    /// nothing after eviction.
    pub fn get_by_id(&self, id: &str) -> (r: Option<ClipboardEntry>)
        ensures
            match r {
                Some(e) => find_by_id(self@, id@) == Some(e@),
                None => find_by_id(self@, id@) is None,
            },
    {
        let ghost s = self@;
        let mut i: usize = 0;
        proof {
            assert(s.skip(0) =~= s);
        }
        while i < self.entries.len()
            invariant
                i <= self.entries@.len(),
                s == self@,
                find_by_id(s, id@) == find_by_id(s.skip(i as int), id@),
            decreases self.entries@.len() - i,
        {
            proof {
                let t = s.skip(i as int);
                assert(t[0] == s[i as int]);
                assert(t.drop_first() =~= s.skip(i + 1));
            }
            if str_eq(self.entries[i].id.as_str(), id) {
                return Some(self.entries[i].duplicate());
            }
            i = i + 1;
        }
        proof {
            assert(s.skip(s.len() as int) =~= Seq::<ClipboardEntryView>::empty());
        }
        None
    }

    /// The number of stored entries.
    pub fn len(&self) -> (r: usize)
        ensures
            r == self@.len(),
    {
        self.entries.len()
    }
}

} // verus!
