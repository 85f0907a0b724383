//! The payload record format: a self-describing textual document made of
//! `key:length:value` records. Each parser is strict — it accepts exactly
//! the canonical rendering — which makes the codec round trip provable.

use vstd::prelude::*;

use crate::text::{
    bytes_eq, dec_u64, digits_val, is_canonical_dec, is_digit, lemma_canonical_dec_unique,
    lemma_dec_u64_canonical, lemma_digits_val_bounds, push_dec_u64, DIGIT_ZERO,
};

verus! {

/// ASCII colon, the record separator.
pub const COLON: u8 = 58;

/// The bytes of an ASCII character sequence, one byte per character.
pub open spec fn ascii_bytes_of(s: Seq<char>) -> Seq<u8> {
    s.map(|_i: int, c: char| c as u8)
}

/// One record: the key, a colon, the value length in canonical decimal,
/// a colon, then the value bytes.
pub open spec fn record_bytes(key: Seq<u8>, val: Seq<u8>) -> Seq<u8> {
    key + seq![COLON] + dec_u64(val.len() as u64) + seq![COLON] + val
}

/// Whether `b` holds `record_bytes(key, val)` starting at `pos`.
pub open spec fn record_at(b: Seq<u8>, pos: int, key: Seq<u8>, val: Seq<u8>) -> bool {
    &&& 0 <= pos
    &&& pos + record_bytes(key, val).len() <= b.len()
    &&& b.subrange(pos, pos + record_bytes(key, val).len()) == record_bytes(key, val)
}

/// Whether `b` holds the length prefix `dec_u64(n)` followed by a colon at `pos`.
pub open spec fn len_at(b: Seq<u8>, pos: int, n: u64) -> bool {
    &&& 0 <= pos
    &&& pos + dec_u64(n).len() + 1 <= b.len()
    &&& b.subrange(pos, pos + dec_u64(n).len() + 1) == dec_u64(n) + seq![COLON]
}

/// Exec test for an ASCII digit.
fn digit(b: u8) -> (r: bool)
    ensures
        r == is_digit(b),
{
    48 <= b && b <= 57
}

/// Parse the length prefix `dec_u64(n)` followed by a colon at `pos`.
///
/// Succeeds exactly when a canonical decimal that fits in u64 stands at
/// `pos`, immediately followed by a colon; the parsed value and the
/// position after the colon are returned.
pub fn read_len(bytes: &[u8], pos: usize) -> (r: Option<(u64, usize)>)
    requires
        pos <= bytes@.len(),
    ensures
        match r {
            Some(v) => {
                &&& pos < v.1 <= bytes@.len()
                &&& bytes@.subrange(pos as int, v.1 as int) == dec_u64(v.0) + seq![COLON]
                &&& forall|n2: u64| len_at(bytes@, pos as int, n2) ==> n2 == v.0
            },
            None => forall|n2: u64| !len_at(bytes@, pos as int, n2),
        },
{
    let ghost b = bytes@;
    // Scan the maximal run of digits starting at pos.
    let mut i: usize = pos;
    let mut acc: u64 = 0;
    let mut overflow: bool = false;
    while i < bytes.len() && digit(bytes[i])
        invariant
            pos <= i <= b.len(),
            b == bytes@,
            forall|j: int| pos <= j < i ==> is_digit(#[trigger] b[j]),
            !overflow ==> acc == digits_val(b.subrange(pos as int, i as int)),
            overflow ==> digits_val(b.subrange(pos as int, i as int)) > u64::MAX,
        decreases b.len() - i,
    {
        let d: u8 = bytes[i] - 48;
        proof {
            let t = b.subrange(pos as int, i + 1);
            assert(t.drop_last() =~= b.subrange(pos as int, i as int));
            assert(t.last() == b[i as int]);
            lemma_digits_val_bounds(b.subrange(pos as int, i as int));
        }
        if !overflow {
            if acc > (u64::MAX - (d as u64)) / 10 {
                proof {
                    assert(digits_val(b.subrange(pos as int, i + 1)) == acc * 10 + d);
                }
                overflow = true;
            } else {
                acc = acc * 10 + (d as u64);
            }
        } else {
            proof {
                lemma_digits_val_bounds(b.subrange(pos as int, i as int));
                assert(digits_val(b.subrange(pos as int, i + 1)) == digits_val(
                    b.subrange(pos as int, i as int),
                ) * 10 + (b[i as int] - DIGIT_ZERO));
                assert(digits_val(b.subrange(pos as int, i as int)) * 10 >= digits_val(
                    b.subrange(pos as int, i as int),
                ));
            }
        }
        i = i + 1;
    }
    // The run [pos, i) is maximal: i is the end of input or a non-digit.
    proof {
        assert(i == b.len() || !is_digit(b[i as int]));
        // For any n2 with len_at, the run is exactly dec_u64(n2).
        assert forall|n2: u64| len_at(b, pos as int, n2) implies dec_u64(n2) =~= b.subrange(
            pos as int,
            pos + dec_u64(n2).len(),
        ) && i == pos + dec_u64(n2).len() by {
            lemma_dec_u64_canonical(n2);
            let d = dec_u64(n2);
            let whole = b.subrange(pos as int, pos + d.len() + 1);
            assert(whole == d + seq![COLON]);
            assert forall|j: int| pos <= j < pos + d.len() implies is_digit(#[trigger] b[j]) by {
                assert(b[j] == whole[j - pos]);
                assert(whole[j - pos] == d[j - pos]);
            }
            assert(b[pos + d.len()] == whole[d.len() as int]);
            assert(b[pos + d.len()] == COLON);
            assert(!is_digit(COLON));
            // i cannot stop before the colon, nor pass it.
            if i < pos + d.len() {
                assert(is_digit(b[i as int]));
                assert(i < b.len());
            }
            assert(i >= pos + d.len());
            if i > pos + d.len() {
                assert(is_digit(b[pos + d.len()]));
            }
            assert(i == pos + d.len());
            assert(d =~= b.subrange(pos as int, pos + d.len()));
        }
    }
    if i == pos {
        // No digits at all: no canonical decimal can stand here.
        proof {
            assert forall|n2: u64| !len_at(b, pos as int, n2) by {
                if len_at(b, pos as int, n2) {
                    lemma_dec_u64_canonical(n2);
                    assert(dec_u64(n2).len() >= 1);
                }
            }
        }
        return None;
    }
    if overflow {
        proof {
            assert forall|n2: u64| !len_at(b, pos as int, n2) by {
                if len_at(b, pos as int, n2) {
                    lemma_dec_u64_canonical(n2);
                    assert(dec_u64(n2) =~= b.subrange(pos as int, i as int));
                    assert(digits_val(b.subrange(pos as int, i as int)) == n2);
                }
            }
        }
        return None;
    }
    if i - pos > 1 && bytes[pos] == 48 {
        // Leading zero: not canonical.
        proof {
            assert forall|n2: u64| !len_at(b, pos as int, n2) by {
                if len_at(b, pos as int, n2) {
                    lemma_dec_u64_canonical(n2);
                    assert(dec_u64(n2) =~= b.subrange(pos as int, i as int));
                    assert(dec_u64(n2)[0] == b[pos as int]);
                }
            }
        }
        return None;
    }
    if i == bytes.len() || bytes[i] != COLON {
        proof {
            assert forall|n2: u64| !len_at(b, pos as int, n2) by {
                if len_at(b, pos as int, n2) {
                    let d = dec_u64(n2);
                    assert(b[pos + d.len()] == (d + seq![COLON])[d.len() as int]);
                }
            }
        }
        return None;
    }
    // Canonical digits with a colon: the parse succeeds.
    proof {
        let digits = b.subrange(pos as int, i as int);
        assert(is_canonical_dec(digits));
        assert(digits_val(digits) == acc);
        lemma_canonical_dec_unique(digits);
        assert(dec_u64(acc) == digits);
        assert(b.subrange(pos as int, i + 1) =~= dec_u64(acc) + seq![COLON]);
        assert forall|n2: u64| len_at(b, pos as int, n2) implies n2 == acc by {
            lemma_dec_u64_canonical(n2);
            assert(dec_u64(n2) =~= digits);
            assert(digits_val(dec_u64(n2)) == n2);
        }
    }
    Some((acc, i + 1))
}

/// Whether the literal `lit` stands in `b` at `pos`.
pub open spec fn lit_at(b: Seq<u8>, pos: int, lit: Seq<u8>) -> bool {
    &&& 0 <= pos
    &&& pos + lit.len() <= b.len()
    &&& b.subrange(pos, pos + lit.len()) == lit
}

/// Match the exact bytes of `lit` at `pos`; return the position after them.
pub fn expect_bytes(bytes: &[u8], pos: usize, lit: &[u8]) -> (r: Option<usize>)
    requires
        pos <= bytes@.len(),
    ensures
        match r {
            Some(p) => p == pos + lit@.len() && lit_at(bytes@, pos as int, lit@),
            None => !lit_at(bytes@, pos as int, lit@),
        },
{
    if bytes.len() - pos < lit.len() {
        return None;
    }
    let mut j: usize = 0;
    while j < lit.len()
        invariant
            j <= lit@.len(),
            pos + lit@.len() <= bytes@.len(),
            bytes@.len() <= usize::MAX,
            forall|k: int| 0 <= k < j ==> bytes@[pos + k] == lit@[k],
        decreases lit@.len() - j,
    {
        if bytes[pos + j] != lit[j] {
            proof {
                assert(bytes@.subrange(pos as int, pos + lit@.len())[j as int] != lit@[j as int]);
            }
            return None;
        }
        j = j + 1;
    }
    proof {
        assert(bytes@.subrange(pos as int, pos + lit@.len()) =~= lit@);
    }
    Some(pos + lit.len())
}

/// Copy `n` bytes starting at `pos`.
pub fn take_bytes(bytes: &[u8], pos: usize, n: usize) -> (r: Option<(Vec<u8>, usize)>)
    requires
        pos <= bytes@.len(),
    ensures
        match r {
            Some(v) => {
                &&& pos + n <= bytes@.len()
                &&& v.1 == pos + n
                &&& v.0@ == bytes@.subrange(pos as int, pos + n)
            },
            None => pos + n > bytes@.len(),
        },
{
    if bytes.len() - pos < n {
        return None;
    }
    let mut out: Vec<u8> = Vec::new();
    let mut j: usize = 0;
    while j < n
        invariant
            j <= n,
            pos + n <= bytes@.len(),
            bytes@.len() <= usize::MAX,
            out@ == bytes@.subrange(pos as int, pos + j),
        decreases n - j,
    {
        out.push(bytes[pos + j]);
        j = j + 1;
        assert(out@ =~= bytes@.subrange(pos as int, pos + j));
    }
    Some((out, pos + n))
}

/// Append `record_bytes(key, val)` to `out`.
pub fn push_record(out: &mut Vec<u8>, key: &[u8], val: &[u8])
    ensures
        final(out)@ == old(out)@ + record_bytes(key@, val@),
{
    crate::protocol::append_slice(out, key);
    out.push(COLON);
    push_dec_u64(out, val.len() as u64);
    out.push(COLON);
    crate::protocol::append_slice(out, val);
    proof {
        assert(out@ =~= old(out)@ + record_bytes(key@, val@));
    }
}

/// Read the record with the given key at `pos`; return its value bytes and
/// the position after the record.
///
/// Succeeds exactly when `record_bytes(key, v)` stands at `pos` for some
/// (necessarily unique) `v`.
pub fn read_record(bytes: &[u8], pos: usize, key: &[u8]) -> (r: Option<(Vec<u8>, usize)>)
    requires
        pos <= bytes@.len(),
    ensures
        match r {
            Some(v) => {
                &&& pos < v.1 <= bytes@.len()
                &&& v.1 == pos + record_bytes(key@, v.0@).len()
                &&& record_at(bytes@, pos as int, key@, v.0@)
                &&& forall|v2: Seq<u8>| record_at(bytes@, pos as int, key@, v2) ==> v2 == v.0@
            },
            None => forall|v2: Seq<u8>| !record_at(bytes@, pos as int, key@, v2),
        },
{
    let blen = bytes.len();
    let ghost b = bytes@;
    proof {
        assert(b.len() <= usize::MAX);
        assert forall|v2: Seq<u8>| record_at(b, pos as int, key@, v2) implies lit_at(
            b,
            pos as int,
            key@ + seq![COLON],
        ) && len_at(b, pos + key@.len() + 1, (v2.len() as u64)) && v2.len() <= b.len() by {
            lemma_record_parts(b, pos as int, key@, v2);
        }
    }
    let mut keycolon: Vec<u8> = Vec::new();
    crate::protocol::append_slice(&mut keycolon, key);
    keycolon.push(COLON);
    proof {
        assert(keycolon@ =~= key@ + seq![COLON]);
    }
    let p1 = match expect_bytes(bytes, pos, keycolon.as_slice()) {
        Some(p) => p,
        None => {
            return None;
        },
    };
    let (n, p2) = match read_len(bytes, p1) {
        Some(v) => v,
        None => {
            return None;
        },
    };
    proof {
        // Any record at pos has value length n and its value at [p2, p2 + n).
        assert(p1 == pos + key@.len() + 1);
        assert(p2 == p1 + dec_u64(n).len() + 1) by {
            assert(b.subrange(p1 as int, p2 as int) == dec_u64(n) + seq![COLON]);
            assert(b.subrange(p1 as int, p2 as int).len() == p2 - p1);
        }
        assert forall|v2: Seq<u8>| record_at(b, pos as int, key@, v2) implies v2.len() == n && (
        pos + record_bytes(key@, v2).len() == p2 + n) && v2 == b.subrange(
            p2 as int,
            p2 + n,
        ) by {
            lemma_record_parts(b, pos as int, key@, v2);
            assert(len_at(b, p1 as int, (v2.len() as u64)));
            assert((v2.len() as u64) == n);
            assert(v2.len() <= b.len() <= usize::MAX);
            assert(v2.len() == n);
            assert(record_bytes(key@, v2).len() == key@.len() + 1 + dec_u64(n).len() + 1
                + v2.len());
            assert(v2 == b.subrange(
                pos + key@.len() + 1 + dec_u64((v2.len() as u64)).len() + 1,
                pos + record_bytes(key@, v2).len(),
            ));
        }
    }
    if n > blen as u64 {
        proof {
            assert forall|v2: Seq<u8>| !record_at(b, pos as int, key@, v2) by {
                if record_at(b, pos as int, key@, v2) {
                    assert(v2.len() == n);
                    assert(v2.len() <= b.len());
                }
            }
        }
        return None;
    }
    let (val, p3) = match take_bytes(bytes, p2, n as usize) {
        Some(v) => v,
        None => {
            proof {
                assert forall|v2: Seq<u8>| !record_at(b, pos as int, key@, v2) by {
                    if record_at(b, pos as int, key@, v2) {
                        assert(pos + record_bytes(key@, v2).len() == p2 + n);
                        assert(p2 + n <= b.len());
                    }
                }
            }
            return None;
        },
    };
    proof {
        assert(val@.len() == n);
        assert(record_at(b, pos as int, key@, val@)) by {
            let rec = record_bytes(key@, val@);
            assert(rec == key@ + seq![COLON] + dec_u64(n) + seq![COLON] + val@);
            assert(rec.len() == key@.len() + 1 + dec_u64(n).len() + 1 + n);
            assert(pos + rec.len() == p3);
            assert(b.subrange(pos as int, p3 as int) =~= b.subrange(pos as int, p1 as int)
                + b.subrange(p1 as int, p2 as int) + b.subrange(p2 as int, p3 as int));
            assert(b.subrange(pos as int, p1 as int) == key@ + seq![COLON]);
            assert(b.subrange(p1 as int, p2 as int) == dec_u64(n) + seq![COLON]);
            assert(b.subrange(p2 as int, p3 as int) == val@);
            assert(b.subrange(pos as int, p3 as int) =~= rec);
        }
        assert forall|v2: Seq<u8>| record_at(b, pos as int, key@, v2) implies v2 == val@ by {
            assert(v2 == b.subrange(p2 as int, p2 + n));
        }
    }
    Some((val, p3))
}

/// Decompose a record standing at `pos` into its parts: the key and colon,
/// the length prefix, and the value bytes at their positions.
proof fn lemma_record_parts(b: Seq<u8>, pos: int, key: Seq<u8>, val: Seq<u8>)
    requires
        record_at(b, pos, key, val),
    ensures
        lit_at(b, pos, key + seq![COLON]),
        len_at(b, pos + key.len() + 1, (val.len() as u64)),
        val.len() <= b.len(),
        val == b.subrange(
            pos + key.len() + 1 + dec_u64(val.len() as u64).len() + 1,
            pos + record_bytes(key, val).len(),
        ),
{
    let rec = record_bytes(key, val);
    let whole = b.subrange(pos, pos + rec.len());
    lemma_dec_u64_canonical(val.len() as u64);
    let d = dec_u64(val.len() as u64);
    assert(rec == key + seq![COLON] + d + seq![COLON] + val);
    assert(b.subrange(pos, pos + key.len() + 1) =~= key + seq![COLON]) by {
        assert forall|k: int| 0 <= k < key.len() + 1 implies b[pos + k] == (key
            + seq![COLON])[k] by {
            assert(b[pos + k] == whole[k]);
        }
    }
    assert(b.subrange(pos + key.len() + 1, pos + key.len() + 1 + d.len() + 1) =~= d
        + seq![COLON]) by {
        assert forall|k: int| 0 <= k < d.len() + 1 implies b[pos + key.len() + 1 + k] == (d
            + seq![COLON])[k] by {
            assert(b[pos + key.len() + 1 + k] == whole[key.len() + 1 + k]);
        }
    }
    assert(b.subrange(pos + key.len() + 1 + d.len() + 1, pos + rec.len()) =~= val) by {
        assert forall|k: int| 0 <= k < val.len() implies b[pos + key.len() + 1 + d.len() + 1 + k]
            == val[k] by {
            assert(b[pos + key.len() + 1 + d.len() + 1 + k] == whole[key.len() + 1 + d.len() + 1
                + k]);
        }
    }
}

/// Parse a whole buffer as one canonical decimal.
pub fn parse_all_dec(v: &[u8]) -> (r: Option<u64>)
    ensures
        match r {
            Some(n) => v@ == dec_u64(n),
            None => forall|n: u64| v@ != dec_u64(n),
        },
{
    let ghost b = v@;
    let r = read_len_free(v);
    r
}

/// Parse a whole buffer as one canonical decimal (helper).
fn read_len_free(v: &[u8]) -> (r: Option<u64>)
    ensures
        match r {
            Some(n) => v@ == dec_u64(n),
            None => forall|n: u64| v@ != dec_u64(n),
        },
{
    let mut with_colon: Vec<u8> = Vec::new();
    crate::protocol::append_slice(&mut with_colon, v);
    with_colon.push(COLON);
    proof {
        assert(with_colon@ =~= v@ + seq![COLON]);
    }
    match read_len(with_colon.as_slice(), 0) {
        Some((n, p)) => {
            if p == with_colon.len() {
                proof {
                    assert(with_colon@.subrange(0, p as int) =~= with_colon@);
                    assert(v@ + seq![COLON] == dec_u64(n) + seq![COLON]);
                    assert(v@ =~= (v@ + seq![COLON]).subrange(0, v@.len() as int));
                    assert(dec_u64(n) =~= (dec_u64(n) + seq![COLON]).subrange(
                        0,
                        dec_u64(n).len() as int,
                    ));
                    assert(v@.len() == dec_u64(n).len());
                }
                Some(n)
            } else {
                proof {
                    assert forall|n2: u64| v@ != dec_u64(n2) by {
                        if v@ == dec_u64(n2) {
                            assert(len_at(with_colon@, 0, n2)) by {
                                assert(with_colon@.subrange(0, dec_u64(n2).len() as int + 1) =~= dec_u64(
                                    n2,
                                ) + seq![COLON]);
                            }
                            assert(n2 == n);
                            assert(with_colon@.subrange(0, p as int) == dec_u64(n) + seq![COLON]);
                            assert(p == dec_u64(n).len() + 1);
                        }
                    }
                }
                None
            }
        },
        None => {
            proof {
                assert forall|n2: u64| v@ != dec_u64(n2) by {
                    if v@ == dec_u64(n2) {
                        assert(len_at(with_colon@, 0, n2)) by {
                            assert(with_colon@.subrange(0, dec_u64(n2).len() as int + 1) =~= dec_u64(n2)
                                + seq![COLON]);
                        }
                    }
                }
            }
            None
        },
    }
}

} // verus!
