//! Synchronization decisions of the mesh orchestrator: echo suppression of
//! recently received remote writes, exponential reconnect backoff, the
//! deterministic dial/accept tie-break, and the handler capability.

use vstd::prelude::*;
use vstd::utf8::encode_utf8;

use crate::text::str_eq;

verus! {

/// Callbacks the sync service raises toward the host application. The
/// environment implements this; nothing is assumed of implementations.
pub trait SyncHandler {
    /// A peer's clipboard text arrived.
    fn on_clipboard_text(&self, peer_id: String, text: String, ts_ms: u64);

    /// A peer completed its handshake.
    fn on_peer_connected(&self, peer_id: String);

    /// A peer's connection ended.
    fn on_peer_disconnected(&self, peer_id: String);

    /// A non-fatal error occurred; the mesh continues.
    fn on_error(&self, message: String);
}

/// The suppressor window after noting a remote write: a repeat of the most
/// recent entry changes nothing; otherwise the text joins the window and
/// the oldest entry leaves past the bound.
pub open spec fn noted(s: Seq<Seq<char>>, text: Seq<char>, cap: nat) -> Seq<Seq<char>> {
    if s.len() > 0 && s.last() == text {
        s
    } else if s.len() + 1 > cap {
        s.push(text).drop_first()
    } else {
        s.push(text)
    }
}

/// Tracks recent remote-origin clipboard texts, so a local poll that sees
/// one does not broadcast it back.
pub struct EchoSuppressor {
    cap: usize,
    recent: Vec<String>,
}

impl View for EchoSuppressor {
    type V = Seq<Seq<char>>;

    closed spec fn view(&self) -> Seq<Seq<char>> {
        self.recent@.map_values(|t: String| t@)
    }
}

impl EchoSuppressor {
    /// The window bound, at least one.
    pub closed spec fn spec_cap(&self) -> nat {
        self.cap as nat
    }

    /// The window never exceeds its bound.
    #[verifier::type_invariant]
    closed spec fn wf(self) -> bool {
        &&& self.cap >= 1
        &&& self.recent@.len() <= self.cap
    }

    /// Build a suppressor; a bound below one is clamped to one.
    pub fn new(cap: usize) -> (r: EchoSuppressor)
        ensures
            r.spec_cap() == if cap >= 1 {
                cap as nat
            } else {
                1nat
            },
            r@ == Seq::<Seq<char>>::empty(),
    {
        let c: usize = if cap >= 1 {
            cap
        } else {
            1
        };
        let r = EchoSuppressor { cap: c, recent: Vec::new() };
        proof {
            assert(r@ =~= Seq::<Seq<char>>::empty());
        }
        r
    }

    /// Note a remote write, deduplicating consecutive repeats and evicting
    /// the oldest entry past the bound.
    pub fn note_remote_write(&mut self, text: &str)
        ensures
            final(self).spec_cap() == old(self).spec_cap(),
            final(self)@ == noted(old(self)@, text@, old(self).spec_cap()),
    {
        proof {
            use_type_invariant(&*self);
        }
        let ghost s = self@;
        if self.recent.len() > 0 {
            let last_i = self.recent.len() - 1;
            if str_eq(self.recent[last_i].as_str(), text) {
                proof {
                    assert(s.last() == text@);
                }
                return ;
            }
        }
        let mut out: Vec<String> = Vec::new();
        let start: usize = if self.recent.len() < self.cap {
            0
        } else {
            1
        };
        let mut j: usize = start;
        while j < self.recent.len()
            invariant
                start <= j <= self.recent@.len(),
                s == self@,
                out@.len() == j - start,
                forall|m: int| 0 <= m < out@.len() ==> #[trigger] out@[m]@ == s[m + start],
            decreases self.recent@.len() - j,
        {
            out.push(self.recent[j].clone());
            j = j + 1;
        }
        out.push(<String as vstd::string::StringExecFns>::from_str(text));
        let c = self.cap;
        *self = EchoSuppressor { cap: c, recent: out };
        proof {
            if s.len() < c {
                assert(self@ =~= s.push(text@));
            } else {
                assert(self@ =~= s.push(text@).drop_first());
            }
        }
    }

    /// Whether a locally observed text matches any recent remote write.
    pub fn should_ignore_local_change(&self, text: &str) -> (r: bool)
        ensures
            r == self@.contains(text@),
    {
        let mut i: usize = 0;
        while i < self.recent.len()
            invariant
                i <= self.recent@.len(),
                forall|j: int| 0 <= j < i ==> #[trigger] self@[j] != text@,
            decreases self.recent@.len() - i,
        {
            if str_eq(self.recent[i].as_str(), text) {
                proof {
                    assert(self@[i as int] == text@);
                }
                return true;
            }
            i = i + 1;
        }
        proof {
            assert(!self@.contains(text@)) by {
                if self@.contains(text@) {
                    let k = choose|k: int| 0 <= k < self@.len() && self@[k] == text@;
                }
            }
        }
        false
    }
}

/// A noted text stands in the suppressor window that noting it produces.
pub proof fn lemma_noted_contains(s: Seq<Seq<char>>, text: Seq<char>, cap: nat)
    requires
        cap >= 1,
        s.len() <= cap,
    ensures
        noted(s, text, cap).contains(text),
        noted(s, text, cap).len() <= cap,
{
    let t = noted(s, text, cap);
    if s.len() > 0 && s.last() == text {
        assert(t[t.len() - 1] == text);
    } else if s.len() + 1 > cap {
        assert(t[t.len() - 1] == text);
    } else {
        assert(t[t.len() - 1] == text);
    }
}

/// Exponential reconnect backoff: starts at 200 ms, doubles per failure,
/// capped at 5 s, reset on success.
#[derive(Debug, Clone, PartialEq, Eq, Structural)]
pub struct Backoff {
    pub cur_ms: u64,
    pub max_ms: u64,
}

/// The delay after one failure: doubled, saturating, then capped.
pub open spec fn backoff_next(cur: u64, max: u64) -> u64 {
    let doubled: u64 = if cur <= u64::MAX / 2 {
        (cur * 2) as u64
    } else {
        u64::MAX
    };
    if doubled < max {
        doubled
    } else {
        max
    }
}

impl Backoff {
    /// The initial backoff: 200 ms current, 5 s cap.
    pub fn new() -> (r: Backoff)
        ensures
            r.cur_ms == 200,
            r.max_ms == 5000,
    {
        Backoff { cur_ms: 200, max_ms: 5000 }
    }

    /// Return to the initial delay after a successful connect.
    pub fn reset(&mut self)
        ensures
            final(self).cur_ms == 200,
            final(self).max_ms == old(self).max_ms,
    {
        self.cur_ms = 200;
    }

    /// The delay to sleep now, advancing the doubled-and-capped state.
    pub fn next_delay_ms(&mut self) -> (r: u64)
        ensures
            r == old(self).cur_ms,
            final(self).cur_ms == backoff_next(old(self).cur_ms, old(self).max_ms),
            final(self).max_ms == old(self).max_ms,
    {
        let d = self.cur_ms;
        let doubled: u64 = if self.cur_ms <= u64::MAX / 2 {
            self.cur_ms * 2
        } else {
            u64::MAX
        };
        self.cur_ms = if doubled < self.max_ms {
            doubled
        } else {
            self.max_ms
        };
        d
    }
}

/// Strict lexicographic order on byte strings.
pub open spec fn lex_lt(a: Seq<u8>, b: Seq<u8>) -> bool
    decreases a.len(),
{
    if b.len() == 0 {
        false
    } else if a.len() == 0 {
        true
    } else if a[0] < b[0] {
        true
    } else if a[0] > b[0] {
        false
    } else {
        lex_lt(a.drop_first(), b.drop_first())
    }
}

/// The order is irreflexive and asymmetric: of two distinct peers, exactly
/// one sorts below the other.
pub proof fn lemma_lex_lt_asymmetric(a: Seq<u8>, b: Seq<u8>)
    ensures
        lex_lt(a, b) ==> !lex_lt(b, a),
        !lex_lt(a, b) && !lex_lt(b, a) ==> a == b,
    decreases a.len(),
{
    if a.len() > 0 && b.len() > 0 && a[0] == b[0] {
        lemma_lex_lt_asymmetric(a.drop_first(), b.drop_first());
        if !lex_lt(a, b) && !lex_lt(b, a) {
            assert(a.drop_first() == b.drop_first());
            assert(a =~= b) by {
                assert(forall|i: int|
                    1 <= i < a.len() ==> a[i] == a.drop_first()[i - 1] && b[i] == b.drop_first()[i
                        - 1]);
            }
        }
    }
}

/// Whether `a` sorts strictly below `b` as UTF-8 bytes.
pub fn str_lt(a: &str, b: &str) -> (r: bool)
    ensures
        r == lex_lt(encode_utf8(a@), encode_utf8(b@)),
{
    let ab = crate::text::string_bytes(a);
    let bb = crate::text::string_bytes(b);
    let ghost av = ab@;
    let ghost bv = bb@;
    let mut i: usize = 0;
    proof {
        assert(av.skip(0) =~= av);
        assert(bv.skip(0) =~= bv);
    }
    while i < ab.len() && i < bb.len()
        invariant
            i <= av.len(),
            i <= bv.len(),
            av == ab@,
            bv == bb@,
            av == encode_utf8(a@),
            bv == encode_utf8(b@),
            forall|j: int| 0 <= j < i ==> av[j] == bv[j],
            lex_lt(av, bv) == lex_lt(av.skip(i as int), bv.skip(i as int)),
        decreases av.len() - i,
    {
        proof {
            let sa = av.skip(i as int);
            let sb = bv.skip(i as int);
            assert(sa[0] == av[i as int]);
            assert(sb[0] == bv[i as int]);
            assert(sa.drop_first() =~= av.skip(i + 1));
            assert(sb.drop_first() =~= bv.skip(i + 1));
        }
        if ab[i] < bb[i] {
            return true;
        }
        if ab[i] > bb[i] {
            return false;
        }
        i = i + 1;
    }
    proof {
        assert(av.skip(i as int).len() == av.len() - i);
        assert(bv.skip(i as int).len() == bv.len() - i);
    }
    ab.len() < bb.len()
}

/// Whether the dial task should open a connection to a discovered peer:
/// never to itself, only to trusted peers, only from the side whose id
/// sorts lower, and never when already connected.
pub fn should_dial(
    local_id: &str,
    peer_id: &str,
    trusted: bool,
    already_connected: bool,
) -> (r: bool)
    ensures
        r <==> (trusted && !already_connected && lex_lt(
            encode_utf8(local_id@),
            encode_utf8(peer_id@),
        )),
{
    if !trusted {
        return false;
    }
    if already_connected {
        return false;
    }
    str_lt(local_id, peer_id)
}

/// Whether an acceptor keeps an inbound connection after its handshake:
/// only when the remote id sorts below the local id, so that exactly one
/// connection survives between any two peers.
pub fn accept_inbound(local_id: &str, remote_id: &str) -> (r: bool)
    ensures
        r <==> !lex_lt(encode_utf8(local_id@), encode_utf8(remote_id@)),
{
    !str_lt(local_id, remote_id)
}

/// The dial tie-break is deterministic and one-sided: of two distinct
/// peers, exactly one dials and the other accepts the inbound connection.
pub proof fn lemma_tie_break(a: Seq<u8>, b: Seq<u8>)
    requires
        lex_lt(a, b),
    ensures
        !lex_lt(b, a),
{
    lemma_lex_lt_asymmetric(a, b);
}

} // verus!
