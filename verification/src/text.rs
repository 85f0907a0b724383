//! Textual building blocks of the payload encoding: decimal number
//! rendering and parsing with canonicity proofs, and the bridges between
//! byte buffers and `String`s.

use vstd::prelude::*;
use vstd::string::StringSliceAdditionalSpecFns;
use vstd::utf8::{
    decode_utf8, encode_utf8, encode_utf8_decode_utf8, encode_utf8_valid_utf8, is_ascii_chars,
    is_ascii_chars_encode_utf8, valid_utf8,
};

verus! {

/// ASCII code of the digit `0`.
pub const DIGIT_ZERO: u8 = 48;

/// Whether `b` is an ASCII decimal digit.
pub open spec fn is_digit(b: u8) -> bool {
    48 <= b <= 57
}

/// The numeric value of the digit sequence `s`, most significant first.
///
/// Defined for arbitrary sequences; meaningful when every byte is a digit.
pub open spec fn digits_val(s: Seq<u8>) -> int
    decreases s.len(),
{
    if s.len() == 0 {
        0
    } else {
        digits_val(s.drop_last()) * 10 + (s.last() - DIGIT_ZERO)
    }
}

/// The canonical decimal rendering of `n`: no leading zeros, `"0"` for zero.
pub open spec fn dec_u64(n: u64) -> Seq<u8>
    decreases n,
{
    if n < 10 {
        seq![(DIGIT_ZERO + n) as u8]
    } else {
        dec_u64((n / 10) as u64).push((DIGIT_ZERO + n % 10) as u8)
    }
}

/// The `w` low decimal digits of `n`, zero padded, most significant first.
pub open spec fn fixed_dec(n: u64, w: nat) -> Seq<u8>
    decreases w,
{
    if w == 0 {
        Seq::empty()
    } else {
        fixed_dec((n / 10) as u64, (w - 1) as nat).push((DIGIT_ZERO + n % 10) as u8)
    }
}

/// Ten to the power `e`.
pub open spec fn pow10(e: nat) -> int
    decreases e,
{
    if e == 0 {
        1
    } else {
        10 * pow10((e - 1) as nat)
    }
}

/// A canonical decimal: non-empty, all digits, no leading zero.
pub open spec fn is_canonical_dec(s: Seq<u8>) -> bool {
    &&& s.len() > 0
    &&& forall|i: int| 0 <= i < s.len() ==> is_digit(#[trigger] s[i])
    &&& (s.len() > 1 ==> s[0] != DIGIT_ZERO)
}

/// `dec_u64` produces a canonical decimal whose value is `n`.
pub proof fn lemma_dec_u64_canonical(n: u64)
    ensures
        is_canonical_dec(dec_u64(n)),
        digits_val(dec_u64(n)) == n,
        n < 10 <==> dec_u64(n).len() == 1,
    decreases n,
{
    assert(digits_val(Seq::<u8>::empty()) == 0);
    if n < 10 {
        let s = dec_u64(n);
        assert(s =~= seq![(DIGIT_ZERO + n) as u8]);
        assert(s.drop_last() =~= Seq::<u8>::empty());
        assert(digits_val(s) == digits_val(s.drop_last()) * 10 + (s.last() - DIGIT_ZERO));
    } else {
        lemma_dec_u64_canonical((n / 10) as u64);
        let s = dec_u64(n);
        let p = dec_u64((n / 10) as u64);
        assert(s == p.push((DIGIT_ZERO + n % 10) as u8));
        assert(s.drop_last() =~= p);
        assert(s.last() == (DIGIT_ZERO + n % 10) as u8);
        assert(digits_val(s) == digits_val(p) * 10 + (n % 10));
        assert(s[0] == p[0]);
        if p.len() == 1 {
            assert(n / 10 < 10);
            assert(p =~= seq![(DIGIT_ZERO + n / 10) as u8]);
            assert(n / 10 >= 1);
            assert(p[0] != DIGIT_ZERO);
        }
    }
}

/// A canonical decimal is the rendering of its own value.
pub proof fn lemma_canonical_dec_unique(s: Seq<u8>)
    requires
        is_canonical_dec(s),
        digits_val(s) <= u64::MAX,
    ensures
        dec_u64(digits_val(s) as u64) == s,
    decreases s.len(),
{
    lemma_digits_val_bounds(s);
    let n = digits_val(s) as u64;
    if s.len() == 1 {
        assert(digits_val(s) == digits_val(s.drop_last()) * 10 + (s.last() - DIGIT_ZERO));
        assert(s.drop_last() =~= Seq::<u8>::empty());
        assert(digits_val(Seq::<u8>::empty()) == 0);
        assert(n == s.last() - DIGIT_ZERO);
        assert(n < 10);
        assert(dec_u64(n) =~= seq![(DIGIT_ZERO + n) as u8]);
        assert(dec_u64(n) =~= s);
    } else {
        let p = s.drop_last();
        assert(forall|i: int| 0 <= i < p.len() ==> is_digit(#[trigger] p[i]));
        assert(p[0] == s[0]);
        assert(is_canonical_dec(p));
        lemma_digits_val_bounds(p);
        lemma_digits_val_positive(p);
        assert(digits_val(p) >= 1);
        assert(digits_val(s) == digits_val(p) * 10 + (s.last() - DIGIT_ZERO));
        assert(digits_val(p) <= u64::MAX) by {
            assert(digits_val(s) <= u64::MAX);
            assert(digits_val(p) * 10 <= digits_val(s));
        }
        lemma_canonical_dec_unique(p);
        assert(n >= 10) by {
            assert(digits_val(p) * 10 >= 10);
        }
        assert(n / 10 == digits_val(p) && n % 10 == s.last() - DIGIT_ZERO) by {
            assert(digits_val(s) == digits_val(p) * 10 + (s.last() - DIGIT_ZERO));
            assert(0 <= s.last() - DIGIT_ZERO < 10);
        }
        assert(dec_u64(n) =~= dec_u64((n / 10) as u64).push((DIGIT_ZERO + n % 10) as u8));
        assert(dec_u64(n) =~= s);
    }
}

/// Every digit sequence denotes a non-negative value; a leading non-zero
/// digit makes it positive.
pub proof fn lemma_digits_val_bounds(s: Seq<u8>)
    requires
        forall|i: int| 0 <= i < s.len() ==> is_digit(#[trigger] s[i]),
    ensures
        0 <= digits_val(s),
    decreases s.len(),
{
    if s.len() > 0 {
        lemma_digits_val_bounds(s.drop_last());
    }
}

/// A canonical decimal of length two or more, or one whose first digit is
/// non-zero, has a positive value.
proof fn lemma_digits_val_positive(s: Seq<u8>)
    requires
        is_canonical_dec(s),
        s[0] != DIGIT_ZERO,
    ensures
        digits_val(s) >= 1,
    decreases s.len(),
{
    if s.len() == 1 {
        assert(digits_val(s) == digits_val(s.drop_last()) * 10 + (s.last() - DIGIT_ZERO));
        assert(s.drop_last() =~= Seq::<u8>::empty());
    } else {
        let p = s.drop_last();
        assert(p[0] == s[0]);
        assert(is_canonical_dec(p));
        lemma_digits_val_positive(p);
        lemma_digits_val_bounds(p);
        assert(digits_val(s) == digits_val(p) * 10 + (s.last() - DIGIT_ZERO));
        assert(digits_val(p) * 10 >= 10);
    }
}

/// `fixed_dec` renders `w` digits whose value is `n % 10^w`.
pub proof fn lemma_fixed_dec(n: u64, w: nat)
    ensures
        fixed_dec(n, w).len() == w,
        forall|i: int| 0 <= i < w ==> is_digit(#[trigger] fixed_dec(n, w)[i]),
        digits_val(fixed_dec(n, w)) == (n as int) % pow10(w),
    decreases w,
{
    if w == 0 {
        assert(pow10(0) == 1);
        assert(n as int % 1 == 0) by (nonlinear_arith);
    } else {
        lemma_fixed_dec((n / 10) as u64, (w - 1) as nat);
        let s = fixed_dec(n, w);
        let p = fixed_dec((n / 10) as u64, (w - 1) as nat);
        assert(s =~= p.push((DIGIT_ZERO + n % 10) as u8));
        assert(s.drop_last() =~= p);
        assert(digits_val(s) == digits_val(p) * 10 + n % 10);
        assert(digits_val(p) == (n / 10) as int % pow10((w - 1) as nat));
        lemma_pow10_positive((w - 1) as nat);
        vstd::arithmetic::div_mod::lemma_mod_breakdown(n as int, 10, pow10((w - 1) as nat));
        assert(n as int % (10 * pow10((w - 1) as nat)) == 10 * ((n as int / 10) % pow10(
            (w - 1) as nat,
        )) + n as int % 10);
    }
}

/// Ten to any power is positive.
pub proof fn lemma_pow10_positive(e: nat)
    ensures
        pow10(e) >= 1,
    decreases e,
{
    if e > 0 {
        lemma_pow10_positive((e - 1) as nat);
    }
}

/// Append the canonical decimal rendering of `n` to `out`.
pub fn push_dec_u64(out: &mut Vec<u8>, n: u64)
    ensures
        final(out)@ == old(out)@ + dec_u64(n),
{
    let mut rev: Vec<u8> = Vec::new();
    let mut x: u64 = n;
    while x >= 10
        invariant
            dec_u64(n) =~= dec_u64(x) + rev@.reverse(),
        decreases x,
    {
        let ghost old_rev = rev@;
        let ghost old_x = x;
        rev.push(DIGIT_ZERO + ((x % 10) as u8));
        x = x / 10;
        proof {
            assert(dec_u64(old_x) =~= dec_u64(x).push((DIGIT_ZERO + old_x % 10) as u8));
            assert(rev@.reverse() =~= seq![(DIGIT_ZERO + old_x % 10) as u8] + old_rev.reverse());
            assert(dec_u64(n) =~= dec_u64(x) + rev@.reverse());
        }
    }
    out.push(DIGIT_ZERO + (x as u8));
    proof {
        assert(dec_u64(x) =~= seq![(DIGIT_ZERO + x) as u8]);
    }
    let mut j: usize = rev.len();
    while j > 0
        invariant
            j <= rev@.len(),
            dec_u64(n) =~= dec_u64(x) + rev@.reverse(),
            x < 10,
            out@ =~= old(out)@ + dec_u64(x) + rev@.reverse().subrange(
                0,
                rev@.len() - j as int,
            ),
        decreases j,
    {
        j = j - 1;
        out.push(rev[j]);
        proof {
            assert(rev@.reverse()[rev@.len() - j - 1] == rev@[j as int]);
            assert(out@ =~= old(out)@ + dec_u64(x) + rev@.reverse().subrange(
                0,
                rev@.len() - j as int,
            ));
        }
    }
    proof {
        assert(rev@.reverse().subrange(0, rev@.len() as int) =~= rev@.reverse());
        assert(out@ =~= old(out)@ + dec_u64(n));
    }
}

/// Append exactly `w` zero-padded decimal digits of `n` to `out`.
///
/// `n` must fit in `w` digits.
pub fn push_fixed_dec(out: &mut Vec<u8>, n: u64, w: usize)
    requires
        w <= 20,
    ensures
        final(out)@ == old(out)@ + fixed_dec(n, w as nat),
{
    let mut rev: Vec<u8> = Vec::new();
    let mut x: u64 = n;
    let mut k: usize = 0;
    while k < w
        invariant
            k <= w,
            fixed_dec(n, w as nat) =~= fixed_dec(x, (w - k) as nat) + rev@.reverse(),
            rev@.len() == k,
        decreases w - k,
    {
        let ghost old_rev = rev@;
        let ghost old_x = x;
        rev.push(DIGIT_ZERO + ((x % 10) as u8));
        x = x / 10;
        k = k + 1;
        proof {
            assert(fixed_dec(old_x, (w - k + 1) as nat) =~= fixed_dec(x, (w - k) as nat).push((
            DIGIT_ZERO + old_x % 10) as u8));
            assert(rev@.reverse() =~= seq![(DIGIT_ZERO + old_x % 10) as u8] + old_rev.reverse());
            assert(fixed_dec(n, w as nat) =~= fixed_dec(x, (w - k) as nat) + rev@.reverse());
        }
    }
    proof {
        assert(fixed_dec(x, 0) =~= Seq::<u8>::empty());
        assert(fixed_dec(n, w as nat) =~= rev@.reverse());
    }
    let mut j: usize = rev.len();
    while j > 0
        invariant
            j <= rev@.len(),
            fixed_dec(n, w as nat) =~= rev@.reverse(),
            out@ =~= old(out)@ + rev@.reverse().subrange(0, rev@.len() - j as int),
        decreases j,
    {
        j = j - 1;
        out.push(rev[j]);
        proof {
            assert(rev@.reverse()[rev@.len() - j - 1] == rev@[j as int]);
            assert(out@ =~= old(out)@ + rev@.reverse().subrange(0, rev@.len() - j as int));
        }
    }
    proof {
        assert(rev@.reverse().subrange(0, rev@.len() as int) =~= rev@.reverse());
    }
}

/// Relies on `String::from_utf8`: it succeeds exactly on valid UTF-8 and
/// returns the string those bytes encode.
#[verifier::external_body]
pub fn string_from_utf8(v: Vec<u8>) -> (r: Option<String>)
    ensures
        match r {
            Some(s) => valid_utf8(v@) && s@ == decode_utf8(v@),
            None => !valid_utf8(v@),
        },
{
    match String::from_utf8(v) {
        Ok(s) => Some(s),
        Err(_) => None,
    }
}

/// Turn a buffer of ASCII bytes into the string of the same characters.
pub fn ascii_to_string(v: Vec<u8>) -> (r: String)
    requires
        forall|i: int| 0 <= i < v@.len() ==> #[trigger] v@[i] < 128,
    ensures
        r@ == v@.map(|_i: int, b: u8| b as char),
        is_ascii_chars(r@),
{
    let ghost chars = v@.map(|_i: int, b: u8| b as char);
    proof {
        assert(is_ascii_chars(chars)) by {
            assert(forall|i: int| 0 <= i < chars.len() ==> '\0' <= #[trigger] chars[i]
                <= '\u{7f}') by {
                assert(forall|i: int| 0 <= i < chars.len() ==> chars[i] == (v@[i] as char)
                    && #[trigger] v@[i] < 128);
            }
        }
        is_ascii_chars_encode_utf8(chars);
        assert(encode_utf8(chars) =~= v@) by {
            assert(forall|i: int| 0 <= i < chars.len() ==> #[trigger] encode_utf8(chars)[i]
                == chars[i] as u8);
            assert(forall|i: int| 0 <= i < chars.len() ==> (#[trigger] chars[i]) as u8 == v@[i]);
        }
        encode_utf8_valid_utf8(chars);
        encode_utf8_decode_utf8(chars);
    }
    match string_from_utf8(v) {
        Some(s) => s,
        None => {
            proof {
                assert(false);
            }
            vstd::pervasive::unreached()
        },
    }
}

/// The ASCII code of the lowercase hex digit for `n < 16`.
pub open spec fn hex_digit(n: u8) -> u8 {
    if n < 10 {
        (DIGIT_ZERO + n) as u8
    } else {
        (87 + n) as u8
    }
}

/// Lowercase hex rendering of a byte string, two digits per byte.
pub open spec fn hex_bytes(b: Seq<u8>) -> Seq<u8> {
    Seq::new(
        2 * b.len(),
        |i: int|
            if i % 2 == 0 {
                hex_digit(b[i / 2] / 16)
            } else {
                hex_digit(b[i / 2] % 16)
            },
    )
}

/// Lowercase hex rendering of a byte string, as characters.
pub open spec fn hex_chars(b: Seq<u8>) -> Seq<char> {
    hex_bytes(b).map(|_i: int, x: u8| x as char)
}

/// Render bytes as lowercase hex.
pub fn to_hex(bytes: &[u8]) -> (r: String)
    ensures
        r@ == hex_chars(bytes@),
{
    let mut v: Vec<u8> = Vec::new();
    let mut i: usize = 0;
    while i < bytes.len()
        invariant
            i <= bytes@.len(),
            v@.len() == 2 * i,
            forall|j: int| 0 <= j < v@.len() ==> #[trigger] v@[j] == hex_bytes(bytes@)[j],
        decreases bytes@.len() - i,
    {
        let x = bytes[i];
        let hi = x / 16;
        let lo = x % 16;
        if hi < 10 {
            v.push(DIGIT_ZERO + hi);
        } else {
            v.push(87 + hi);
        }
        if lo < 10 {
            v.push(DIGIT_ZERO + lo);
        } else {
            v.push(87 + lo);
        }
        i = i + 1;
    }
    let ghost vs = v@;
    proof {
        assert(vs =~= hex_bytes(bytes@));
        assert(forall|j: int| 0 <= j < vs.len() ==> #[trigger] vs[j] < 128) by {
            assert(forall|j: int| 0 <= j < vs.len() ==> vs[j] == #[trigger] hex_bytes(bytes@)[j]);
        }
    }
    let s = ascii_to_string(v);
    proof {
        assert(s@ =~= hex_chars(bytes@));
    }
    s
}

/// Exec byte-sequence equality.
pub fn bytes_eq(a: &[u8], c: &[u8]) -> (r: bool)
    ensures
        r <==> a@ == c@,
{
    if a.len() != c.len() {
        proof {
            assert(a@.len() != c@.len());
        }
        return false;
    }
    let mut j: usize = 0;
    while j < a.len()
        invariant
            j <= a@.len(),
            a@.len() == c@.len(),
            forall|k: int| 0 <= k < j ==> a@[k] == c@[k],
        decreases a@.len() - j,
    {
        if a[j] != c[j] {
            return false;
        }
        j = j + 1;
    }
    proof {
        assert(a@ =~= c@);
    }
    true
}

/// Exec string equality.
pub fn str_eq(a: &str, b: &str) -> (r: bool)
    ensures
        r <==> a@ == b@,
{
    let ab = string_bytes(a);
    let bb = string_bytes(b);
    let r = bytes_eq(ab.as_slice(), bb.as_slice());
    proof {
        if encode_utf8(a@) == encode_utf8(b@) {
            encode_utf8_decode_utf8(a@);
            encode_utf8_decode_utf8(b@);
        }
    }
    r
}

/// The UTF-8 bytes of a string, as an owned buffer.
pub fn string_bytes(s: &str) -> (r: Vec<u8>)
    ensures
        r@ == encode_utf8(s@),
        valid_utf8(r@),
{
    proof {
        encode_utf8_valid_utf8(s@);
    }
    vstd::string::StrSliceExecFns::as_bytes_vec(s)
}

} // verus!
