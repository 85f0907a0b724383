//! Trust store: the pinned map from peer-id to identity public key and
//! display name that pairing establishes and handshakes consult.

use vstd::prelude::*;
use vstd::map::*;

use crate::text::str_eq;

verus! {

/// A record that a remote peer's identity was confirmed out-of-band.
#[derive(Debug, Clone, PartialEq)]
pub struct TrustRecord {
    pub peer_id: String,
    pub identity_pk: Vec<u8>,
    pub display_name: String,
    /// Milliseconds since the Unix epoch.
    pub created_at: u64,
}

/// Mathematical model of a trust record.
pub struct TrustRecordView {
    pub peer_id: Seq<char>,
    pub identity_pk: Seq<u8>,
    pub display_name: Seq<char>,
    pub created_at: u64,
}

impl View for TrustRecord {
    type V = TrustRecordView;

    open spec fn view(&self) -> TrustRecordView {
        TrustRecordView {
            peer_id: self.peer_id@,
            identity_pk: self.identity_pk@,
            display_name: self.display_name@,
            created_at: self.created_at,
        }
    }
}

impl TrustRecord {
    /// Whether the record's peer-id is derived from its public key, as the
    /// pairing protocol guarantees of the records it emits.
    pub open spec fn binds(self) -> bool {
        self@.peer_id == crate::text::hex_chars(crate::crypto::hash_of(self@.identity_pk))
    }

    /// An owned copy of this record.
    pub fn duplicate(&self) -> (r: TrustRecord)
        ensures
            r@ == self@,
    {
        let mut pk: Vec<u8> = Vec::new();
        crate::protocol::append_slice(&mut pk, self.identity_pk.as_slice());
        TrustRecord {
            peer_id: self.peer_id.clone(),
            identity_pk: pk,
            display_name: self.display_name.clone(),
            created_at: self.created_at,
        }
    }
}

/// The first record with the given peer-id, if any.
pub open spec fn lookup(s: Seq<TrustRecordView>, pid: Seq<char>) -> Option<TrustRecordView>
    decreases s.len(),
{
    if s.len() == 0 {
        None
    } else if s[0].peer_id == pid {
        Some(s[0])
    } else {
        lookup(s.drop_first(), pid)
    }
}

/// Pairwise-distinct peer-ids.
pub open spec fn distinct_ids(s: Seq<TrustRecordView>) -> bool {
    forall|i: int, j: int| 0 <= i < j < s.len() ==> s[i].peer_id != s[j].peer_id
}

/// `lookup` finds exactly the stored record at each held index.
proof fn lemma_lookup_index(s: Seq<TrustRecordView>, i: int)
    requires
        distinct_ids(s),
        0 <= i < s.len(),
    ensures
        lookup(s, s[i].peer_id) == Some(s[i]),
    decreases s.len(),
{
    if i > 0 {
        assert(s[0].peer_id != s[i].peer_id);
        lemma_lookup_index(s.drop_first(), i - 1);
        assert(s.drop_first()[i - 1] == s[i]);
    }
}

/// A peer-id at no index is found by no `lookup`.
proof fn lemma_lookup_absent(s: Seq<TrustRecordView>, pid: Seq<char>)
    requires
        forall|i: int| 0 <= i < s.len() ==> s[i].peer_id != pid,
    ensures
        lookup(s, pid) is None,
    decreases s.len(),
{
    if s.len() > 0 {
        lemma_lookup_absent(s.drop_first(), pid);
    }
}

/// After updating index `i`, `lookup` sees the new record there and is
/// unchanged elsewhere.
proof fn lemma_lookup_update(s: Seq<TrustRecordView>, i: int, r: TrustRecordView, pid: Seq<char>)
    requires
        distinct_ids(s),
        0 <= i < s.len(),
        s[i].peer_id == r.peer_id,
    ensures
        lookup(s.update(i, r), pid) == if pid == r.peer_id {
            Some(r)
        } else {
            lookup(s, pid)
        },
    decreases s.len(),
{
    let t = s.update(i, r);
    if i == 0 {
        if pid != r.peer_id {
            assert(t.drop_first() =~= s.drop_first());
        }
    } else {
        assert(t[0] == s[0]);
        if s[0].peer_id == pid {
        } else {
            assert(t.drop_first() =~= s.drop_first().update(i - 1, r));
            assert(s.drop_first()[i - 1] == s[i]);
            lemma_lookup_update(s.drop_first(), i - 1, r, pid);
        }
    }
}

/// After pushing a record with a fresh peer-id, `lookup` sees it under
/// that id and is unchanged elsewhere.
proof fn lemma_lookup_push(s: Seq<TrustRecordView>, r: TrustRecordView, pid: Seq<char>)
    ensures
        lookup(s.push(r), pid) == if lookup(s, pid) is Some {
            lookup(s, pid)
        } else if pid == r.peer_id {
            Some(r)
        } else {
            None
        },
    decreases s.len(),
{
    let t = s.push(r);
    if s.len() == 0 {
        assert(t[0] == r);
        assert(t.drop_first() =~= Seq::<TrustRecordView>::empty());
    } else {
        assert(t[0] == s[0]);
        assert(t.drop_first() =~= s.drop_first().push(r));
        lemma_lookup_push(s.drop_first(), r, pid);
    }
}

/// After removing index `i`, `lookup` no longer finds its peer-id and is
/// unchanged elsewhere.
proof fn lemma_lookup_remove(s: Seq<TrustRecordView>, i: int, pid: Seq<char>)
    requires
        distinct_ids(s),
        0 <= i < s.len(),
    ensures
        lookup(s.remove(i), pid) == if pid == s[i].peer_id {
            None
        } else {
            lookup(s, pid)
        },
    decreases s.len(),
{
    let t = s.remove(i);
    if i == 0 {
        assert(t =~= s.drop_first());
        if pid == s[0].peer_id {
            assert(forall|j: int| 0 <= j < t.len() ==> #[trigger] t[j].peer_id != pid);
            lemma_lookup_absent(t, pid);
        }
    } else {
        assert(t[0] == s[0]);
        if s[0].peer_id == pid {
        } else {
            assert(t.drop_first() =~= s.drop_first().remove(i - 1));
            assert(s.drop_first()[i - 1] == s[i]);
            lemma_lookup_remove(s.drop_first(), i - 1, pid);
        }
    }
}

/// A found peer-id is held at some index.
proof fn lemma_lookup_exists(s: Seq<TrustRecordView>, pid: Seq<char>)
    requires
        lookup(s, pid) is Some,
    ensures
        exists|i: int| 0 <= i < s.len() && (#[trigger] s[i]).peer_id == pid,
    decreases s.len(),
{
    if s.len() > 0 {
        if s[0].peer_id == pid {
            assert(s[0].peer_id == pid);
        } else {
            lemma_lookup_exists(s.drop_first(), pid);
            let i = choose|i: int|
                0 <= i < s.drop_first().len() && (#[trigger] s.drop_first()[i]).peer_id == pid;
            assert(s[i + 1].peer_id == pid);
        }
    }
}

/// The model transition of a save: insert-or-replace by peer-id.
pub open spec fn saved(m: Map<Seq<char>, TrustRecordView>, r: TrustRecordView) -> Map<
    Seq<char>,
    TrustRecordView,
> {
    m.insert(r.peer_id, r)
}

/// Saving a record twice leaves the same store as saving it once.
pub proof fn lemma_save_idempotent(m: Map<Seq<char>, TrustRecordView>, r: TrustRecordView)
    ensures
        saved(saved(m, r), r) == saved(m, r),
{
    assert(saved(saved(m, r), r) =~= saved(m, r));
}

/// An in-memory trust store: a pinned record per peer-id.
pub struct MemoryTrustStore {
    records: Vec<TrustRecord>,
}

impl View for MemoryTrustStore {
    type V = Map<Seq<char>, TrustRecordView>;

    /// The stored records, as a map keyed by peer-id.
    closed spec fn view(&self) -> Map<Seq<char>, TrustRecordView> {
        Map::new(
            |pid: Seq<char>| lookup(self.records@.map_values(|r: TrustRecord| r@), pid) is Some,
            |pid: Seq<char>| lookup(self.records@.map_values(|r: TrustRecord| r@), pid).unwrap(),
        )
    }
}

impl MemoryTrustStore {
    /// The stored peer-ids are pairwise distinct.
    #[verifier::type_invariant]
    closed spec fn wf(self) -> bool {
        distinct_ids(self.records@.map_values(|r: TrustRecord| r@))
    }

    /// The number of stored records.
    pub closed spec fn spec_len(&self) -> nat {
        self.records@.len()
    }

    /// An empty store.
    pub fn new() -> (r: MemoryTrustStore)
        ensures
            r@ == Map::<Seq<char>, TrustRecordView>::empty(),
            r.spec_len() == 0,
    {
        let r = MemoryTrustStore { records: Vec::new() };
        proof {
            assert(r@ =~= Map::<Seq<char>, TrustRecordView>::empty());
        }
        r
    }

    /// Find the index holding `peer_id`, if any.
    fn find_index(&self, peer_id: &str) -> (r: Option<usize>)
        ensures
            match r {
                Some(i) => i < self.records@.len() && self.records@[i as int]@.peer_id == peer_id@,
                None => forall|i: int|
                    0 <= i < self.records@.len() ==> #[trigger] self.records@[i]@.peer_id
                        != peer_id@,
            },
    {
        let mut i: usize = 0;
        while i < self.records.len()
            invariant
                i <= self.records@.len(),
                forall|j: int|
                    0 <= j < i ==> #[trigger] self.records@[j]@.peer_id != peer_id@,
            decreases self.records@.len() - i,
        {
            if str_eq(self.records[i].peer_id.as_str(), peer_id) {
                return Some(i);
            }
            i = i + 1;
        }
        None
    }

    /// Upsert by peer-id: the record replaces any pinned record under the
    /// same id and leaves every other id unchanged.
    pub fn save(&mut self, record: TrustRecord)
        ensures
            final(self)@ == saved(old(self)@, record@),
            final(self).spec_len() == old(self).spec_len() + (if old(self)@.contains_key(
                record@.peer_id,
            ) {
                0int
            } else {
                1int
            }),
    {
        proof {
            use_type_invariant(&*self);
        }
        let ghost s = self.records@.map_values(|r: TrustRecord| r@);
        let ghost rv = record@;
        let idx = self.find_index(record.peer_id.as_str());
        let mut out: Vec<TrustRecord> = Vec::new();
        let ghost target = match idx {
            Some(i) => s.update(i as int, record@),
            None => s.push(record@),
        };
        match idx {
            Some(i) => {
                let mut j: usize = 0;
                while j < self.records.len()
                    invariant
                        j <= self.records@.len(),
                        i < self.records@.len(),
                        s == self.records@.map_values(|r: TrustRecord| r@),
                        target == s.update(i as int, record@),
                        out@.len() == j,
                        forall|k: int| 0 <= k < j ==> #[trigger] out@[k]@ == target[k],
                    decreases self.records@.len() - j,
                {
                    if j == i {
                        out.push(record.duplicate());
                    } else {
                        out.push(self.records[j].duplicate());
                    }
                    j = j + 1;
                }
                proof {
                    lemma_lookup_index(s, i as int);
                    assert forall|pid: Seq<char>| true implies lookup(target, pid) == (if pid
                        == rv.peer_id {
                        Some(rv)
                    } else {
                        lookup(s, pid)
                    }) by {
                        lemma_lookup_update(s, i as int, rv, pid);
                    }
                    assert(out@.map_values(|r: TrustRecord| r@) =~= target);
                }
            },
            None => {
                let mut j: usize = 0;
                while j < self.records.len()
                    invariant
                        j <= self.records@.len(),
                        s == self.records@.map_values(|r: TrustRecord| r@),
                        out@.len() == j,
                        forall|k: int| 0 <= k < j ==> #[trigger] out@[k]@ == s[k],
                    decreases self.records@.len() - j,
                {
                    out.push(self.records[j].duplicate());
                    j = j + 1;
                }
                out.push(record);
                proof {
                    lemma_lookup_absent(s, rv.peer_id);
                    assert forall|pid: Seq<char>| true implies lookup(target, pid) == (if pid
                        == rv.peer_id {
                        Some(rv)
                    } else {
                        lookup(s, pid)
                    }) by {
                        lemma_lookup_push(s, rv, pid);
                    }
                    assert(out@.map_values(|r: TrustRecord| r@) =~= target);
                }
            },
        }
        *self = MemoryTrustStore { records: out };
        proof {
            assert(self@ =~= saved(old(self)@, rv));
        }
    }

    /// Exact-match read.
    pub fn get(&self, peer_id: &str) -> (r: Option<TrustRecord>)
        ensures
            match r {
                Some(rec) => self@.contains_key(peer_id@) && self@[peer_id@] == rec@,
                None => !self@.contains_key(peer_id@),
            },
    {
        proof {
            use_type_invariant(self);
        }
        let ghost s = self.records@.map_values(|r: TrustRecord| r@);
        match self.find_index(peer_id) {
            Some(i) => {
                proof {
                    lemma_lookup_index(s, i as int);
                }
                Some(self.records[i].duplicate())
            },
            None => {
                proof {
                    lemma_lookup_absent(s, peer_id@);
                }
                None
            },
        }
    }

    /// Whether a record is pinned under this peer-id.
    pub fn is_trusted(&self, peer_id: &str) -> (r: bool)
        ensures
            r == self@.contains_key(peer_id@),
    {
        let got = self.get(peer_id);
        match got {
            Some(_) => true,
            None => false,
        }
    }

    /// A snapshot of every stored record.
    pub fn list(&self) -> (r: Vec<TrustRecord>)
        ensures
            r@.len() == self.spec_len(),
            forall|i: int|
                0 <= i < r@.len() ==> self@.contains_key(#[trigger] r@[i]@.peer_id)
                    && self@[r@[i]@.peer_id] == r@[i]@,
            forall|i: int, j: int| 0 <= i < j < r@.len() ==> r@[i]@.peer_id != r@[j]@.peer_id,
            forall|pid: Seq<char>|
                self@.contains_key(pid) ==> exists|i: int|
                    0 <= i < r@.len() && (#[trigger] r@[i]@).peer_id == pid,
    {
        proof {
            use_type_invariant(self);
        }
        let ghost s = self.records@.map_values(|r: TrustRecord| r@);
        let mut out: Vec<TrustRecord> = Vec::new();
        let mut i: usize = 0;
        while i < self.records.len()
            invariant
                i <= self.records@.len(),
                out@.len() == i,
                s == self.records@.map_values(|r: TrustRecord| r@),
                distinct_ids(s),
                forall|j: int| 0 <= j < i ==> #[trigger] out@[j]@ == s[j],
            decreases self.records@.len() - i,
        {
            out.push(self.records[i].duplicate());
            i = i + 1;
        }
        proof {
            assert forall|j: int| 0 <= j < out@.len() implies self@.contains_key(
                #[trigger] out@[j]@.peer_id,
            ) && self@[out@[j]@.peer_id] == out@[j]@ by {
                lemma_lookup_index(s, j);
            }
            assert forall|pid: Seq<char>| self@.contains_key(pid) implies exists|k: int|
                0 <= k < out@.len() && (#[trigger] out@[k]@).peer_id == pid by {
                lemma_lookup_exists(s, pid);
                let k = choose|k: int| 0 <= k < s.len() && s[k].peer_id == pid;
                assert(out@[k]@.peer_id == pid);
            }
        }
        out
    }

    /// Remove by peer-id; reports whether a record existed.
    pub fn remove(&mut self, peer_id: &str) -> (r: bool)
        ensures
            r == old(self)@.contains_key(peer_id@),
            final(self)@ == old(self)@.remove(peer_id@),
            final(self).spec_len() == old(self).spec_len() - (if old(self)@.contains_key(peer_id@) {
                1int
            } else {
                0int
            }),
    {
        proof {
            use_type_invariant(&*self);
        }
        let ghost s = self.records@.map_values(|r: TrustRecord| r@);
        match self.find_index(peer_id) {
            Some(i) => {
                proof {
                    lemma_lookup_index(s, i as int);
                    assert forall|pid: Seq<char>| true implies lookup(s.remove(i as int), pid) == (
                    if pid == peer_id@ {
                        None
                    } else {
                        lookup(s, pid)
                    }) by {
                        lemma_lookup_remove(s, i as int, pid);
                        assert(s[i as int].peer_id == peer_id@);
                    }
                }
                let mut kept: Vec<TrustRecord> = Vec::new();
                let mut j: usize = 0;
                while j < self.records.len()
                    invariant
                        j <= self.records@.len(),
                        i < self.records@.len(),
                        s == self.records@.map_values(|r: TrustRecord| r@),
                        kept@.len() == if j <= i {
                            j as int
                        } else {
                            j - 1
                        },
                        forall|k: int|
                            0 <= k < kept@.len() ==> #[trigger] kept@[k]@ == s.remove(i as int)[k],
                    decreases self.records@.len() - j,
                {
                    if j != i {
                        kept.push(self.records[j].duplicate());
                    }
                    j = j + 1;
                }
                proof {
                    assert(kept@.map_values(|r: TrustRecord| r@) =~= s.remove(i as int));
                }
                *self = MemoryTrustStore { records: kept };
                proof {
                    assert(self@ =~= old(self)@.remove(peer_id@));
                }
                true
            },
            None => {
                proof {
                    lemma_lookup_absent(s, peer_id@);
                    assert(self@ =~= old(self)@.remove(peer_id@));
                }
                false
            },
        }
    }
}

} // verus!
