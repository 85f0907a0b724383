//! Pairing protocol: the QR payload document, its base64url encoding, the
//! 6-digit confirmation code, and the finalize step that emits the two
//! trust records.

use vstd::prelude::*;
use vstd::utf8::{encode_utf8, encode_utf8_valid_utf8};

use crate::b64::{b64url_decode, b64url_decode_spec, b64url_encode, b64url_of};
use crate::crypto::{hash32, hash_of, now_ms};
use crate::message::{lemma_chain, lemma_encode_utf8_injective, read_num_field, read_str_field};
use crate::payload::{push_record, read_record, record_at, record_bytes};
use crate::text::{
    ascii_to_string, dec_u64, fixed_dec, is_digit, lemma_dec_u64_canonical, lemma_fixed_dec,
    push_dec_u64, push_fixed_dec, string_bytes, to_hex,
};
use crate::identity::IdentityProvider;
use crate::trust::TrustRecord;
use crate::wire::le_u32_of;

verus! {

/// Payload exchanged during pairing, carried through a QR code.
#[derive(Debug, Clone)]
pub struct PairingPayload {
    pub version: u8,
    pub peer_id: String,
    pub name: String,
    pub identity_pk: Vec<u8>,
    pub lan_port: u16,
    pub nonce: Vec<u8>,
    pub lan_addrs: Vec<String>,
}

/// Mathematical model of a pairing payload.
pub struct PairingPayloadView {
    pub version: u8,
    pub peer_id: Seq<char>,
    pub name: Seq<char>,
    pub identity_pk: Seq<u8>,
    pub lan_port: u16,
    pub nonce: Seq<u8>,
    pub lan_addrs: Seq<Seq<char>>,
}

impl View for PairingPayload {
    type V = PairingPayloadView;

    open spec fn view(&self) -> PairingPayloadView {
        PairingPayloadView {
            version: self.version,
            peer_id: self.peer_id@,
            name: self.name@,
            identity_pk: self.identity_pk@,
            lan_port: self.lan_port,
            nonce: self.nonce@,
            lan_addrs: self.lan_addrs.deep_view(),
        }
    }
}

/// The serialized list of LAN addresses: one record per address.
pub open spec fn addrs_bytes(addrs: Seq<Seq<char>>) -> Seq<u8>
    decreases addrs.len(),
{
    if addrs.len() == 0 {
        Seq::empty()
    } else {
        record_bytes(encode_utf8("a"@), encode_utf8(addrs[0])) + addrs_bytes(addrs.drop_first())
    }
}

/// `addrs_bytes` over a list extended at the end.
proof fn lemma_addrs_snoc(addrs: Seq<Seq<char>>, x: Seq<char>)
    ensures
        addrs_bytes(addrs.push(x)) == addrs_bytes(addrs) + record_bytes(
            encode_utf8("a"@),
            encode_utf8(x),
        ),
    decreases addrs.len(),
{
    let t = addrs.push(x);
    let rec = record_bytes(encode_utf8("a"@), encode_utf8(x));
    if addrs.len() == 0 {
        assert(t[0] == x);
        assert(t.drop_first() =~= Seq::<Seq<char>>::empty());
        assert(addrs_bytes(addrs) =~= Seq::<u8>::empty());
        assert(addrs_bytes(t.drop_first()) =~= Seq::<u8>::empty());
        assert(addrs_bytes(t) == record_bytes(encode_utf8("a"@), encode_utf8(t[0])) + addrs_bytes(
            t.drop_first(),
        ));
        assert(addrs_bytes(t) =~= addrs_bytes(addrs) + rec);
    } else {
        assert(t[0] == addrs[0]);
        assert(t.drop_first() =~= addrs.drop_first().push(x));
        lemma_addrs_snoc(addrs.drop_first(), x);
        assert(addrs_bytes(t) == record_bytes(encode_utf8("a"@), encode_utf8(t[0])) + addrs_bytes(
            t.drop_first(),
        ));
        assert(addrs_bytes(t.drop_first()) == addrs_bytes(addrs.drop_first()) + rec);
        assert(addrs_bytes(addrs) == record_bytes(encode_utf8("a"@), encode_utf8(addrs[0]))
            + addrs_bytes(addrs.drop_first()));
        assert(addrs_bytes(t) =~= addrs_bytes(addrs) + rec);
    }
}

/// An empty serialization means an empty list.
proof fn lemma_addrs_empty(addrs: Seq<Seq<char>>)
    requires
        addrs_bytes(addrs).len() == 0,
    ensures
        addrs.len() == 0,
{
    if addrs.len() > 0 {
        lemma_dec_u64_canonical(encode_utf8(addrs[0]).len() as u64);
        assert(record_bytes(encode_utf8("a"@), encode_utf8(addrs[0])).len() >= 2);
    }
}

/// Serialize a list of addresses.
fn push_addrs(out: &mut Vec<u8>, addrs: &Vec<String>)
    ensures
        final(out)@ == old(out)@ + addrs_bytes(addrs.deep_view()),
{
    let ghost av = addrs.deep_view();
    let mut i: usize = 0;
    proof {
        assert(av.take(0) =~= Seq::<Seq<char>>::empty());
        assert(out@ + addrs_bytes(av.take(0)) =~= out@);
    }
    while i < addrs.len()
        invariant
            i <= addrs@.len(),
            av == addrs.deep_view(),
            av.len() == addrs@.len(),
            out@ == old(out)@ + addrs_bytes(av.take(i as int)),
        decreases addrs@.len() - i,
    {
        let kb = string_bytes("a");
        let vb = string_bytes(addrs[i].as_str());
        proof {
            assert(addrs@[i as int]@ == av[i as int]);
        }
        push_record(out, kb.as_slice(), vb.as_slice());
        i = i + 1;
        proof {
            assert(av.take(i as int).drop_last() =~= av.take(i - 1));
            assert(av.take(i as int).last() == av[i - 1]);
            lemma_addrs_snoc(av.take(i - 1), av[i - 1]);
            assert(av.take(i as int) =~= av.take(i - 1).push(av[i - 1]));
            assert(out@ =~= old(out)@ + addrs_bytes(av.take(i as int)));
        }
    }
    proof {
        assert(av.take(av.len() as int) =~= av);
    }
}

/// Parse a whole buffer as a list of addresses; strict and unambiguous.
fn parse_addrs(bytes: &[u8]) -> (r: Option<Vec<String>>)
    ensures
        match r {
            Some(v) => bytes@ == addrs_bytes(v.deep_view()) && (forall|v2: Seq<Seq<char>>|
                bytes@ == addrs_bytes(v2) ==> v2 == v.deep_view()),
            None => forall|v2: Seq<Seq<char>>| bytes@ != addrs_bytes(v2),
        },
{
    let blen = bytes.len();
    let ghost b = bytes@;
    let mut out: Vec<String> = Vec::new();
    let mut pos: usize = 0;
    proof {
        assert(out.deep_view() =~= Seq::<Seq<char>>::empty());
        assert(addrs_bytes(out.deep_view()) =~= Seq::<u8>::empty());
        assert(b.subrange(0, 0) =~= addrs_bytes(out.deep_view()));
        assert forall|v2: Seq<Seq<char>>| #![trigger addrs_bytes(v2)]
            b == addrs_bytes(v2) implies b.subrange(0, blen as int) == addrs_bytes(
            v2.skip(0),
        ) by {
            assert(b.subrange(0, blen as int) =~= b);
            assert(v2.skip(0) =~= v2);
        }
    }
    while pos < blen
        invariant
            pos <= blen,
            b == bytes@,
            blen == b.len(),
            b.subrange(0, pos as int) == addrs_bytes(out.deep_view()),
            forall|v2: Seq<Seq<char>>| #![trigger addrs_bytes(v2)]
                b == addrs_bytes(v2) ==> (out.deep_view().len() <= v2.len() && (forall|j: int|
                    0 <= j < out.deep_view().len() ==> out.deep_view()[j] == v2[j]) && b.subrange(
                    pos as int,
                    blen as int,
                ) == addrs_bytes(v2.skip(out.deep_view().len() as int))),
        decreases blen - pos,
    {
        let ghost k = out.deep_view().len() as int;
        proof {
            assert forall|v2: Seq<Seq<char>>| #![trigger addrs_bytes(v2)]
                b == addrs_bytes(v2) implies v2.len() > k && record_at(
                b,
                pos as int,
                encode_utf8("a"@),
                encode_utf8(v2[k]),
            ) by {
                let rest = v2.skip(k);
                if rest.len() == 0 {
                    assert(addrs_bytes(rest) =~= Seq::<u8>::empty());
                    assert(b.subrange(pos as int, blen as int).len() == blen - pos);
                } else {
                    assert(rest[0] == v2[k]);
                    assert(addrs_bytes(rest) == record_bytes(
                        encode_utf8("a"@),
                        encode_utf8(rest[0]),
                    ) + addrs_bytes(rest.drop_first()));
                    lemma_chain(
                        b,
                        pos as int,
                        encode_utf8("a"@),
                        encode_utf8(rest[0]),
                        addrs_bytes(rest.drop_first()),
                    );
                }
            }
        }
        let (addr, p2) = match read_str_field(bytes, pos, "a".as_bytes()) {
            Some(v) => v,
            None => {
                proof {
                    assert forall|v2: Seq<Seq<char>>| b != addrs_bytes(v2) by {
                        if b == addrs_bytes(v2) {
                            assert(record_at(b, pos as int, encode_utf8("a"@), encode_utf8(
                                v2[k],
                            )));
                        }
                    }
                }
                return None;
            },
        };
        let ghost prev = out.deep_view();
        out.push(addr);
        pos = p2;
        proof {
            assert(out.deep_view() =~~= prev.push(out@.last()@));
            lemma_addrs_snoc(prev, out@.last()@);
            assert(b.subrange(0, pos as int) =~= b.subrange(0, pos as int));
            assert(b.subrange(0, (pos as int) - record_bytes(
                encode_utf8("a"@),
                encode_utf8(out@.last()@),
            ).len() as int) == addrs_bytes(prev));
            assert(b.subrange(0, pos as int) =~= addrs_bytes(prev) + b.subrange(
                (pos as int) - record_bytes(
                    encode_utf8("a"@),
                    encode_utf8(out@.last()@),
                ).len() as int,
                pos as int,
            ));
            assert(b.subrange(0, pos as int) == addrs_bytes(out.deep_view()));
            assert forall|v2: Seq<Seq<char>>| #![trigger addrs_bytes(v2)]
                b == addrs_bytes(v2) implies (out.deep_view().len() <= v2.len() && (forall|j: int|
                0 <= j < out.deep_view().len() ==> out.deep_view()[j] == v2[j]) && b.subrange(
                pos as int,
                blen as int,
            ) == addrs_bytes(v2.skip(out.deep_view().len() as int))) by {
                assert(record_at(b, (pos as int) - record_bytes(
                    encode_utf8("a"@),
                    encode_utf8(out@.last()@),
                ).len() as int, encode_utf8("a"@), encode_utf8(v2[k])));
                assert(encode_utf8(v2[k]) == encode_utf8(out@.last()@));
                lemma_encode_utf8_injective(v2[k], out@.last()@);
                let rest = v2.skip(k);
                assert(rest[0] == v2[k]);
                assert(addrs_bytes(rest) == record_bytes(encode_utf8("a"@), encode_utf8(rest[0]))
                    + addrs_bytes(rest.drop_first()));
                assert(rest.drop_first() =~= v2.skip(k + 1));
                assert(b.subrange(pos as int, blen as int) =~= addrs_bytes(v2.skip(k + 1))) by {
                    let old_suffix = b.subrange((pos as int) - record_bytes(
                        encode_utf8("a"@),
                        encode_utf8(out@.last()@),
                    ).len() as int, blen as int);
                    assert(old_suffix == addrs_bytes(rest));
                    assert forall|m: int|
                        0 <= m < blen - pos implies b.subrange(pos as int, blen as int)[m]
                        == addrs_bytes(v2.skip(k + 1))[m] by {
                        assert(b.subrange(pos as int, blen as int)[m] == old_suffix[m
                            + record_bytes(
                            encode_utf8("a"@),
                            encode_utf8(out@.last()@),
                        ).len()]);
                    }
                }
            }
        }
    }
    proof {
        assert(b.subrange(0, blen as int) =~= b);
        assert forall|v2: Seq<Seq<char>>| #![trigger addrs_bytes(v2)]
            b == addrs_bytes(v2) implies v2 == out.deep_view() by {
            let k = out.deep_view().len() as int;
            assert(b.subrange(pos as int, blen as int).len() == 0);
            lemma_addrs_empty(v2.skip(k));
            assert(v2.len() == k);
            assert(v2 =~= out.deep_view());
        }
    }
    Some(out)
}

/// The serialized pairing document: one record per field, in order.
pub open spec fn payload_doc(p: PairingPayloadView) -> Seq<u8> {
    record_bytes(encode_utf8("version"@), dec_u64(p.version as u64)) + record_bytes(
        encode_utf8("peer_id"@),
        encode_utf8(p.peer_id),
    ) + record_bytes(encode_utf8("name"@), encode_utf8(p.name)) + record_bytes(
        encode_utf8("identity_pk"@),
        p.identity_pk,
    ) + record_bytes(encode_utf8("lan_port"@), dec_u64(p.lan_port as u64)) + record_bytes(
        encode_utf8("nonce"@),
        p.nonce,
    ) + record_bytes(encode_utf8("lan_addrs"@), addrs_bytes(p.lan_addrs))
}

/// Why a QR string fails to parse.
#[derive(Debug, Clone, Copy, PartialEq, Eq, Structural)]
pub enum PairingError {
    /// Not base64url, or not a well-formed payload document.
    Malformed,
    /// The two payloads carry different nonces.
    NonceMismatch,
}

impl PairingPayload {
    /// Serialize to the payload document, then base64url without padding.
    pub fn to_qr_string(&self) -> (r: String)
        ensures
            r@ == b64url_of(payload_doc(self@)),
            b64url_decode_spec(r@) == Some(payload_doc(self@)),
    {
        let mut doc: Vec<u8> = Vec::new();
        let kb = string_bytes("version");
        let mut vb: Vec<u8> = Vec::new();
        push_dec_u64(&mut vb, self.version as u64);
        push_record(&mut doc, kb.as_slice(), vb.as_slice());
        let kb = string_bytes("peer_id");
        let vb = string_bytes(self.peer_id.as_str());
        push_record(&mut doc, kb.as_slice(), vb.as_slice());
        let kb = string_bytes("name");
        let vb = string_bytes(self.name.as_str());
        push_record(&mut doc, kb.as_slice(), vb.as_slice());
        let kb = string_bytes("identity_pk");
        push_record(&mut doc, kb.as_slice(), self.identity_pk.as_slice());
        let kb = string_bytes("lan_port");
        let mut vb: Vec<u8> = Vec::new();
        push_dec_u64(&mut vb, self.lan_port as u64);
        push_record(&mut doc, kb.as_slice(), vb.as_slice());
        let kb = string_bytes("nonce");
        push_record(&mut doc, kb.as_slice(), self.nonce.as_slice());
        let kb = string_bytes("lan_addrs");
        let mut vb: Vec<u8> = Vec::new();
        push_addrs(&mut vb, &self.lan_addrs);
        push_record(&mut doc, kb.as_slice(), vb.as_slice());
        proof {
            assert(doc@ =~= payload_doc(self@));
        }
        b64url_encode(doc.as_slice())
    }
}

/// The records of a pairing document, laid out from the start of `b`.
#[verifier::rlimit(100)]
#[verifier::spinoff_prover]
proof fn chain_payload(b: Seq<u8>, v: PairingPayloadView)
    requires
        b == payload_doc(v),
    ensures
        ({
            let r0 = record_bytes(encode_utf8("version"@), dec_u64(v.version as u64));
            let r1 = record_bytes(encode_utf8("peer_id"@), encode_utf8(v.peer_id));
            let r2 = record_bytes(encode_utf8("name"@), encode_utf8(v.name));
            let r3 = record_bytes(encode_utf8("identity_pk"@), v.identity_pk);
            let r4 = record_bytes(encode_utf8("lan_port"@), dec_u64(v.lan_port as u64));
            let r5 = record_bytes(encode_utf8("nonce"@), v.nonce);
            let r6 = record_bytes(encode_utf8("lan_addrs"@), addrs_bytes(v.lan_addrs));
            &&& record_at(b, 0, encode_utf8("version"@), dec_u64(v.version as u64))
            &&& record_at(b, r0.len() as int, encode_utf8("peer_id"@), encode_utf8(v.peer_id))
            &&& record_at(b, r0.len() as int + r1.len(), encode_utf8("name"@), encode_utf8(v.name))
            &&& record_at(
                b,
                r0.len() as int + r1.len() + r2.len(),
                encode_utf8("identity_pk"@),
                v.identity_pk,
            )
            &&& record_at(
                b,
                r0.len() as int + r1.len() + r2.len() + r3.len(),
                encode_utf8("lan_port"@),
                dec_u64(v.lan_port as u64),
            )
            &&& record_at(
                b,
                r0.len() as int + r1.len() + r2.len() + r3.len() + r4.len(),
                encode_utf8("nonce"@),
                v.nonce,
            )
            &&& record_at(
                b,
                r0.len() as int + r1.len() + r2.len() + r3.len() + r4.len() + r5.len(),
                encode_utf8("lan_addrs"@),
                addrs_bytes(v.lan_addrs),
            )
            &&& r0.len() as int + r1.len() + r2.len() + r3.len() + r4.len() + r5.len()
                + r6.len() == b.len()
        }),
{
    let r0 = record_bytes(encode_utf8("version"@), dec_u64(v.version as u64));
    let r1 = record_bytes(encode_utf8("peer_id"@), encode_utf8(v.peer_id));
    let r2 = record_bytes(encode_utf8("name"@), encode_utf8(v.name));
    let r3 = record_bytes(encode_utf8("identity_pk"@), v.identity_pk);
    let r4 = record_bytes(encode_utf8("lan_port"@), dec_u64(v.lan_port as u64));
    let r5 = record_bytes(encode_utf8("nonce"@), v.nonce);
    let r6 = record_bytes(encode_utf8("lan_addrs"@), addrs_bytes(v.lan_addrs));
    assert(b.subrange(0, b.len() as int) =~= b);
    assert(b =~= r0 + (r1 + r2 + r3 + r4 + r5 + r6));
    lemma_chain(b, 0, encode_utf8("version"@), dec_u64(v.version as u64), r1 + r2 + r3 + r4 + r5
        + r6);
    assert(b.subrange(r0.len() as int, b.len() as int) =~= r1 + (r2 + r3 + r4 + r5 + r6));
    lemma_chain(
        b,
        r0.len() as int,
        encode_utf8("peer_id"@),
        encode_utf8(v.peer_id),
        r2 + r3 + r4 + r5 + r6,
    );
    assert(b.subrange(r0.len() as int + r1.len(), b.len() as int) =~= r2 + (r3 + r4 + r5 + r6));
    lemma_chain(
        b,
        r0.len() as int + r1.len(),
        encode_utf8("name"@),
        encode_utf8(v.name),
        r3 + r4 + r5 + r6,
    );
    assert(b.subrange(r0.len() as int + r1.len() + r2.len(), b.len() as int) =~= r3 + (r4 + r5 + r6));
    lemma_chain(
        b,
        r0.len() as int + r1.len() + r2.len(),
        encode_utf8("identity_pk"@),
        v.identity_pk,
        r4 + r5 + r6,
    );
    assert(b.subrange(r0.len() as int + r1.len() + r2.len() + r3.len(), b.len() as int) =~= r4 + (r5
        + r6));
    lemma_chain(
        b,
        r0.len() as int + r1.len() + r2.len() + r3.len(),
        encode_utf8("lan_port"@),
        dec_u64(v.lan_port as u64),
        r5 + r6,
    );
    assert(b.subrange(r0.len() as int + r1.len() + r2.len() + r3.len() + r4.len(), b.len() as int) =~= r5
        + r6);
    lemma_chain(
        b,
        r0.len() as int + r1.len() + r2.len() + r3.len() + r4.len(),
        encode_utf8("nonce"@),
        v.nonce,
        r6,
    );
    assert(b.subrange(
        r0.len() as int + r1.len() + r2.len() + r3.len() + r4.len() + r5.len(),
        b.len() as int,
    ) =~= r6 + Seq::<u8>::empty());
    lemma_chain(
        b,
        r0.len() as int + r1.len() + r2.len() + r3.len() + r4.len() + r5.len(),
        encode_utf8("lan_addrs"@),
        addrs_bytes(v.lan_addrs),
        Seq::<u8>::empty(),
    );
}

/// Parse a payload document; strict, so parsing inverts serialization.
#[verifier::rlimit(100)]
#[verifier::spinoff_prover]
fn parse_payload_doc(bytes: &[u8]) -> (r: Option<PairingPayload>)
    ensures
        match r {
            Some(p) => bytes@ == payload_doc(p@) && (forall|v: PairingPayloadView|
                bytes@ == payload_doc(v) ==> v == p@),
            None => forall|v: PairingPayloadView| bytes@ != payload_doc(v),
        },
{
    let blen = bytes.len();
    let ghost b = bytes@;
    proof {
        assert forall|v: PairingPayloadView| #![trigger payload_doc(v)]
            b == payload_doc(v) implies ({
            let r0 = record_bytes(encode_utf8("version"@), dec_u64(v.version as u64));
            let r1 = record_bytes(encode_utf8("peer_id"@), encode_utf8(v.peer_id));
            let r2 = record_bytes(encode_utf8("name"@), encode_utf8(v.name));
            let r3 = record_bytes(encode_utf8("identity_pk"@), v.identity_pk);
            let r4 = record_bytes(encode_utf8("lan_port"@), dec_u64(v.lan_port as u64));
            let r5 = record_bytes(encode_utf8("nonce"@), v.nonce);
            let r6 = record_bytes(encode_utf8("lan_addrs"@), addrs_bytes(v.lan_addrs));
            &&& record_at(b, 0, encode_utf8("version"@), dec_u64(v.version as u64))
            &&& record_at(b, r0.len() as int, encode_utf8("peer_id"@), encode_utf8(v.peer_id))
            &&& record_at(b, r0.len() as int + r1.len(), encode_utf8("name"@), encode_utf8(v.name))
            &&& record_at(
                b,
                r0.len() as int + r1.len() + r2.len(),
                encode_utf8("identity_pk"@),
                v.identity_pk,
            )
            &&& record_at(
                b,
                r0.len() as int + r1.len() + r2.len() + r3.len(),
                encode_utf8("lan_port"@),
                dec_u64(v.lan_port as u64),
            )
            &&& record_at(
                b,
                r0.len() as int + r1.len() + r2.len() + r3.len() + r4.len(),
                encode_utf8("nonce"@),
                v.nonce,
            )
            &&& record_at(
                b,
                r0.len() as int + r1.len() + r2.len() + r3.len() + r4.len() + r5.len(),
                encode_utf8("lan_addrs"@),
                addrs_bytes(v.lan_addrs),
            )
            &&& r0.len() as int + r1.len() + r2.len() + r3.len() + r4.len() + r5.len()
                + r6.len() == b.len()
        }) by {
            chain_payload(b, v);
        }
    }
    let (version, p1) = match read_num_field(bytes, 0, "version".as_bytes(), 255) {
        Some(x) => x,
        None => {
            proof {
                assert forall|v: PairingPayloadView| b != payload_doc(v) by {
                    if b == payload_doc(v) {
                        assert((v.version as u64) <= 255);
                    }
                }
            }
            return None;
        },
    };
    let (peer_id, p2) = match read_str_field(bytes, p1, "peer_id".as_bytes()) {
        Some(x) => x,
        None => {
            proof {
                assert forall|v: PairingPayloadView| b != payload_doc(v) by {
                    if b == payload_doc(v) {
                        assert(dec_u64(v.version as u64) == dec_u64(version));
                        crate::message::lemma_dec_injective(v.version as u64, version);
                    }
                }
            }
            return None;
        },
    };
    let (name, p3) = match read_str_field(bytes, p2, "name".as_bytes()) {
        Some(x) => x,
        None => {
            proof {
                assert forall|v: PairingPayloadView| b != payload_doc(v) by {
                    if b == payload_doc(v) {
                        crate::message::lemma_dec_injective(v.version as u64, version);
                        lemma_encode_utf8_injective(v.peer_id, peer_id@);
                    }
                }
            }
            return None;
        },
    };
    let (identity_pk, p4) = match read_record(bytes, p3, "identity_pk".as_bytes()) {
        Some(x) => x,
        None => {
            proof {
                assert forall|v: PairingPayloadView| b != payload_doc(v) by {
                    if b == payload_doc(v) {
                        crate::message::lemma_dec_injective(v.version as u64, version);
                        lemma_encode_utf8_injective(v.peer_id, peer_id@);
                        lemma_encode_utf8_injective(v.name, name@);
                    }
                }
            }
            return None;
        },
    };
    let (lan_port, p5) = match read_num_field(bytes, p4, "lan_port".as_bytes(), 65535) {
        Some(x) => x,
        None => {
            proof {
                assert forall|v: PairingPayloadView| b != payload_doc(v) by {
                    if b == payload_doc(v) {
                        crate::message::lemma_dec_injective(v.version as u64, version);
                        lemma_encode_utf8_injective(v.peer_id, peer_id@);
                        lemma_encode_utf8_injective(v.name, name@);
                        assert((v.lan_port as u64) <= 65535);
                    }
                }
            }
            return None;
        },
    };
    let (nonce, p6) = match read_record(bytes, p5, "nonce".as_bytes()) {
        Some(x) => x,
        None => {
            proof {
                assert forall|v: PairingPayloadView| b != payload_doc(v) by {
                    if b == payload_doc(v) {
                        crate::message::lemma_dec_injective(v.version as u64, version);
                        lemma_encode_utf8_injective(v.peer_id, peer_id@);
                        lemma_encode_utf8_injective(v.name, name@);
                        crate::message::lemma_dec_injective(v.lan_port as u64, lan_port);
                    }
                }
            }
            return None;
        },
    };
    let (addrs_raw, p7) = match read_record(bytes, p6, "lan_addrs".as_bytes()) {
        Some(x) => x,
        None => {
            proof {
                assert forall|v: PairingPayloadView| b != payload_doc(v) by {
                    if b == payload_doc(v) {
                        crate::message::lemma_dec_injective(v.version as u64, version);
                        lemma_encode_utf8_injective(v.peer_id, peer_id@);
                        lemma_encode_utf8_injective(v.name, name@);
                        crate::message::lemma_dec_injective(v.lan_port as u64, lan_port);
                    }
                }
            }
            return None;
        },
    };
    if p7 != blen {
        proof {
            assert forall|v: PairingPayloadView| b != payload_doc(v) by {
                if b == payload_doc(v) {
                    crate::message::lemma_dec_injective(v.version as u64, version);
                    lemma_encode_utf8_injective(v.peer_id, peer_id@);
                    lemma_encode_utf8_injective(v.name, name@);
                    crate::message::lemma_dec_injective(v.lan_port as u64, lan_port);
                    assert(p7 as int == b.len());
                }
            }
        }
        return None;
    }
    let lan_addrs = match parse_addrs(addrs_raw.as_slice()) {
        Some(x) => x,
        None => {
            proof {
                assert forall|v: PairingPayloadView| b != payload_doc(v) by {
                    if b == payload_doc(v) {
                        crate::message::lemma_dec_injective(v.version as u64, version);
                        lemma_encode_utf8_injective(v.peer_id, peer_id@);
                        lemma_encode_utf8_injective(v.name, name@);
                        crate::message::lemma_dec_injective(v.lan_port as u64, lan_port);
                        assert(addrs_raw@ == addrs_bytes(v.lan_addrs));
                    }
                }
            }
            return None;
        },
    };
    let p = PairingPayload {
        version: version as u8,
        peer_id,
        name,
        identity_pk,
        lan_port: lan_port as u16,
        nonce,
        lan_addrs,
    };
    proof {
        assert((version as u8) as u64 == version);
        assert((lan_port as u16) as u64 == lan_port);
        assert(b == payload_doc(p@)) by {
            assert(b =~= b.subrange(0, p1 as int) + b.subrange(p1 as int, p2 as int) + b.subrange(
                p2 as int,
                p3 as int,
            ) + b.subrange(p3 as int, p4 as int) + b.subrange(p4 as int, p5 as int) + b.subrange(
                p5 as int,
                p6 as int,
            ) + b.subrange(p6 as int, p7 as int));
            assert(payload_doc(p@) =~= record_bytes(encode_utf8("version"@), dec_u64(version))
                + record_bytes(encode_utf8("peer_id"@), encode_utf8(peer_id@)) + record_bytes(
                encode_utf8("name"@),
                encode_utf8(name@),
            ) + record_bytes(encode_utf8("identity_pk"@), identity_pk@) + record_bytes(
                encode_utf8("lan_port"@),
                dec_u64(lan_port),
            ) + record_bytes(encode_utf8("nonce"@), nonce@) + record_bytes(
                encode_utf8("lan_addrs"@),
                addrs_bytes(lan_addrs.deep_view()),
            ));
        }
        assert forall|v: PairingPayloadView| b == payload_doc(v) implies v == p@ by {
            crate::message::lemma_dec_injective(v.version as u64, version);
            lemma_encode_utf8_injective(v.peer_id, peer_id@);
            lemma_encode_utf8_injective(v.name, name@);
            crate::message::lemma_dec_injective(v.lan_port as u64, lan_port);
            assert(v.identity_pk == identity_pk@);
            assert(v.nonce == nonce@);
            assert(addrs_bytes(v.lan_addrs) == addrs_raw@);
            assert(v.lan_addrs == lan_addrs.deep_view());
        }
    }
    Some(p)
}

/// Parse a QR string: base64url decode, then the strict document parser.
impl PairingPayload {
    /// Parse from base64url text; the strict inverse of `to_qr_string`.
    pub fn from_qr_string(s: &str) -> (r: Result<PairingPayload, PairingError>)
        ensures
            match r {
                Ok(p) => b64url_decode_spec(s@) == Some(payload_doc(p@)) && (forall|
                    v: PairingPayloadView,
                |
                    b64url_decode_spec(s@) == Some(payload_doc(v)) ==> v == p@),
                Err(e) => e == PairingError::Malformed && match b64url_decode_spec(s@) {
                    Some(doc) => forall|v: PairingPayloadView| doc != payload_doc(v),
                    None => true,
                },
            },
    {
        let doc = match b64url_decode(s) {
            Some(d) => d,
            None => {
                return Err(PairingError::Malformed);
            },
        };
        match parse_payload_doc(doc.as_slice()) {
            Some(p) => Ok(p),
            None => Err(PairingError::Malformed),
        }
    }
}

/// The byte string hashed for the confirmation code: the nonce, then both
/// peer-ids as UTF-8.
pub open spec fn code_input(nonce: Seq<u8>, a: Seq<char>, b: Seq<char>) -> Seq<u8> {
    nonce + encode_utf8(a) + encode_utf8(b)
}

/// The numeric confirmation code: the first four digest bytes read
/// little-endian, reduced modulo one million.
pub open spec fn confirmation_code_num(nonce: Seq<u8>, a: Seq<char>, b: Seq<char>) -> u64 {
    let h = hash_of(code_input(nonce, a, b));
    (le_u32_of(h[0], h[1], h[2], h[3]) as u64) % 1000000
}

/// The six zero-padded decimal digits of the confirmation code.
pub open spec fn confirmation_code_chars(nonce: Seq<u8>, a: Seq<char>, b: Seq<char>) -> Seq<
    char,
> {
    fixed_dec(confirmation_code_num(nonce, a, b), 6).map(|_i: int, d: u8| d as char)
}

/// Derive the 6-digit confirmation code both pairing sides compare.
///
/// The code is a pure function of the nonce and the two peer-ids, is
/// exactly six characters long, and every character is a decimal digit.
pub fn derive_confirmation_code(nonce: &[u8], peer_a_id: &str, peer_b_id: &str) -> (r: String)
    ensures
        r@ == confirmation_code_chars(nonce@, peer_a_id@, peer_b_id@),
        r@.len() == 6,
        forall|i: int| 0 <= i < 6 ==> '0' <= #[trigger] r@[i] <= '9',
{
    let mut input: Vec<u8> = Vec::new();
    crate::protocol::append_slice(&mut input, nonce);
    let ab = string_bytes(peer_a_id);
    crate::protocol::append_slice(&mut input, ab.as_slice());
    let bb = string_bytes(peer_b_id);
    crate::protocol::append_slice(&mut input, bb.as_slice());
    proof {
        assert(input@ =~= code_input(nonce@, peer_a_id@, peer_b_id@));
    }
    let h = hash32(input.as_slice());
    let n32 = crate::wire::get_le_u32(h.as_slice(), 0);
    let n: u64 = (n32 as u64) % 1000000;
    let mut digits: Vec<u8> = Vec::new();
    push_fixed_dec(&mut digits, n, 6);
    proof {
        lemma_fixed_dec(n, 6);
        assert(forall|i: int| 0 <= i < digits@.len() ==> is_digit(#[trigger] digits@[i]));
        assert(forall|i: int| 0 <= i < digits@.len() ==> #[trigger] digits@[i] < 128);
    }
    let code = ascii_to_string(digits);
    proof {
        assert(code@ =~= confirmation_code_chars(nonce@, peer_a_id@, peer_b_id@));
        assert(forall|i: int|
            0 <= i < 6 ==> '0' <= #[trigger] code@[i] <= '9');
    }
    code
}

/// Finalize a pairing exchange: check that both payloads carry the same
/// nonce, and emit the confirmation code and the two trust records, each
/// pinned under the peer-id derived from its presented public key.
pub fn pairing_finalize(init_qr: &str, resp_qr: &str) -> (r: Result<
    (String, Vec<TrustRecord>),
    PairingError,
>)
    ensures
        match r {
            Ok(out) => {
                &&& exists|iv: PairingPayloadView, rv: PairingPayloadView|
                    {
                        &&& b64url_decode_spec(init_qr@) == Some(payload_doc(iv))
                        &&& b64url_decode_spec(resp_qr@) == Some(payload_doc(rv))
                        &&& iv.nonce == rv.nonce
                        &&& out.0@ == confirmation_code_chars(iv.nonce, iv.peer_id, rv.peer_id)
                        &&& out.1@.len() == 2
                        &&& out.1@[0]@.identity_pk == iv.identity_pk
                        &&& out.1@[1]@.identity_pk == rv.identity_pk
                        &&& out.1@[0]@.display_name == iv.name
                        &&& out.1@[1]@.display_name == rv.name
                    }
                &&& out.1@.len() == 2
                &&& out.1@[0].binds()
                &&& out.1@[1].binds()
            },
            Err(e) => {
                &&& (e == PairingError::NonceMismatch ==> forall|
                    iv: PairingPayloadView,
                    rv: PairingPayloadView,
                |
                    b64url_decode_spec(init_qr@) == Some(payload_doc(iv)) && b64url_decode_spec(
                        resp_qr@,
                    ) == Some(payload_doc(rv)) ==> iv.nonce != rv.nonce)
                &&& (e == PairingError::Malformed ==> !((exists|iv: PairingPayloadView|
                    b64url_decode_spec(init_qr@) == Some(payload_doc(iv))) && (exists|
                    rv: PairingPayloadView,
                |
                    b64url_decode_spec(resp_qr@) == Some(payload_doc(rv)))))
            },
        },
{
    let init = match PairingPayload::from_qr_string(init_qr) {
        Ok(p) => p,
        Err(_) => {
            return Err(PairingError::Malformed);
        },
    };
    let resp = match PairingPayload::from_qr_string(resp_qr) {
        Ok(p) => p,
        Err(_) => {
            return Err(PairingError::Malformed);
        },
    };
    if !crate::text::bytes_eq(init.nonce.as_slice(), resp.nonce.as_slice()) {
        return Err(PairingError::NonceMismatch);
    }
    let code = derive_confirmation_code(
        init.nonce.as_slice(),
        init.peer_id.as_str(),
        resp.peer_id.as_str(),
    );
    let created = now_ms();
    let a = TrustRecord {
        peer_id: crate::identity::Ed25519Identity::peer_id_from_public_key(
            init.identity_pk.as_slice(),
        ),
        identity_pk: init.identity_pk,
        display_name: init.name,
        created_at: created,
    };
    let b = TrustRecord {
        peer_id: crate::identity::Ed25519Identity::peer_id_from_public_key(
            resp.identity_pk.as_slice(),
        ),
        identity_pk: resp.identity_pk,
        display_name: resp.name,
        created_at: created,
    };
    let mut records: Vec<TrustRecord> = Vec::new();
    records.push(a);
    records.push(b);
    Ok((code, records))
}

/// Create a pairing initiator payload and return its QR string. The
/// nonce is supplied by the caller so tests can fix it.
pub fn pairing_init_qr(
    name: String,
    port: u16,
    id: &crate::identity::Ed25519Identity,
    nonce: [u8; 32],
) -> (r: String)
    ensures
        ({
            let payload = PairingPayloadView {
                version: 1,
                peer_id: id.spec_peer_id(),
                name: name@,
                identity_pk: id.spec_public_key(),
                lan_port: port,
                nonce: nonce@,
                lan_addrs: Seq::empty(),
            };
            &&& r@ == crate::b64::b64url_of(payload_doc(payload))
            &&& b64url_decode_spec(r@) == Some(payload_doc(payload))
        }),
{
    let mut nonce_v: Vec<u8> = Vec::new();
    crate::protocol::append_slice(&mut nonce_v, nonce.as_slice());
    let peer_id = <String as vstd::string::StringExecFns>::from_str(
        IdentityProvider::peer_id(id),
    );
    let payload = PairingPayload {
        version: 1,
        peer_id,
        name,
        identity_pk: IdentityProvider::public_key_bytes(id),
        lan_port: port,
        nonce: nonce_v,
        lan_addrs: Vec::new(),
    };
    proof {
        assert(payload@.lan_addrs =~= Seq::<Seq<char>>::empty());
        assert(payload@.nonce =~= nonce@);
    }
    payload.to_qr_string()
}

/// Respond to an initiator QR: echo its nonce under this identity and
/// return the responder QR together with the confirmation code.
pub fn pairing_respond_qr(
    init_qr: &str,
    name: String,
    port: u16,
    id: &crate::identity::Ed25519Identity,
) -> (r: Result<(String, String), PairingError>)
    ensures
        r is Ok <==> exists|iv: PairingPayloadView| #![trigger payload_doc(iv)]
            b64url_decode_spec(init_qr@) == Some(payload_doc(iv)),
        match r {
            Ok(out) => exists|iv: PairingPayloadView|
                {
                    &&& #[trigger] b64url_decode_spec(init_qr@) == Some(payload_doc(iv))
                    &&& ({
                        let resp = PairingPayloadView {
                            version: 1,
                            peer_id: id.spec_peer_id(),
                            name: name@,
                            identity_pk: id.spec_public_key(),
                            lan_port: port,
                            nonce: iv.nonce,
                            lan_addrs: Seq::empty(),
                        };
                        &&& out.0@ == crate::b64::b64url_of(payload_doc(resp))
                        &&& b64url_decode_spec(out.0@) == Some(payload_doc(resp))
                        &&& out.1@ == confirmation_code_chars(
                            iv.nonce,
                            iv.peer_id,
                            id.spec_peer_id(),
                        )
                    })
                },
            Err(e) => e == PairingError::Malformed,
        },
{
    let init = match PairingPayload::from_qr_string(init_qr) {
        Ok(p) => p,
        Err(e) => {
            return Err(e);
        },
    };
    let peer_id = <String as vstd::string::StringExecFns>::from_str(
        IdentityProvider::peer_id(id),
    );
    let mut nonce_v: Vec<u8> = Vec::new();
    crate::protocol::append_slice(&mut nonce_v, init.nonce.as_slice());
    let resp = PairingPayload {
        version: 1,
        peer_id,
        name,
        identity_pk: IdentityProvider::public_key_bytes(id),
        lan_port: port,
        nonce: nonce_v,
        lan_addrs: Vec::new(),
    };
    proof {
        assert(resp@.lan_addrs =~= Seq::<Seq<char>>::empty());
    }
    let resp_qr = resp.to_qr_string();
    let code = derive_confirmation_code(
        init.nonce.as_slice(),
        init.peer_id.as_str(),
        resp.peer_id.as_str(),
    );
    proof {
        assert(resp.peer_id@ == id.spec_peer_id());
    }
    Ok((resp_qr, code))
}

} // verus!
