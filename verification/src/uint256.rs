//! The canonical numeric representation: every 256-bit unsigned integer
//! that crosses the system boundary is a 32-byte big-endian buffer.
//!
//! This module gives that buffer its mathematical value and the verified
//! constructors that build it from a 64-bit integer, from a shorter
//! big-endian buffer, and from decimal or hexadecimal text.

use vstd::prelude::*;

use crate::digits::dec_digit;
use crate::digits::dec_val;
use crate::digits::hex_digit;
use crate::digits::hex_val;
use crate::digits::is_dec_digit;
use crate::digits::is_hex_digit;
use crate::digits::lemma_dec_prefix_le;
use crate::digits::lemma_dec_val_step;
use crate::digits::lemma_hex_prefix_le;
use crate::digits::lemma_hex_val_step;
use crate::digits::valid_dec;
use crate::digits::valid_hex;
use crate::error::EthError;

verus! {

/// The width, in bytes, of the canonical unsigned-integer buffer.
pub const UINT_BYTES: usize = 32;

/// The value of a big-endian byte string: the last byte is the least
/// significant.
pub open spec fn be_val(s: Seq<u8>) -> nat
    decreases s.len(),
{
    if s.len() == 0 {
        0
    } else {
        be_val(s.drop_last()) * 256 + s.last() as nat
    }
}

/// 256 raised to `n`: the weight of a byte `n` places from the right.
pub open spec fn pow256(n: nat) -> nat
    decreases n,
{
    if n == 0 {
        1
    } else {
        256 * pow256((n - 1) as nat)
    }
}

/// A byte string's value is bounded by the weight of its length.
pub proof fn lemma_be_val_bound(s: Seq<u8>)
    ensures
        be_val(s) < pow256(s.len()),
    decreases s.len(),
{
    if s.len() > 0 {
        lemma_be_val_bound(s.drop_last());
        assert(be_val(s.drop_last()) * 256 + s.last() < pow256((s.len() - 1) as nat) * 256) by (
        nonlinear_arith)
            requires
                be_val(s.drop_last()) < pow256((s.len() - 1) as nat),
                s.last() < 256,
        ;
    }
}

/// Splitting off the first (most significant) byte.
pub proof fn lemma_be_val_first(s: Seq<u8>)
    requires
        s.len() > 0,
    ensures
        be_val(s) == s[0] * pow256((s.len() - 1) as nat) + be_val(s.subrange(1, s.len() as int)),
    decreases s.len(),
{
    if s.len() == 1 {
        assert(s.drop_last() =~= Seq::<u8>::empty());
        assert(s.subrange(1, 1) =~= Seq::<u8>::empty());
        assert(s[0] * pow256(0) == s[0]) by (nonlinear_arith)
            requires
                pow256(0) == 1,
        ;
    } else {
        let d = s.drop_last();
        lemma_be_val_first(d);
        let t = s.subrange(1, s.len() as int);
        assert(t.drop_last() =~= d.subrange(1, d.len() as int));
        assert(t.last() == s.last());
        let p = pow256((d.len() - 1) as nat);
        let bd = be_val(d.subrange(1, d.len() as int));
        assert(d[0] == s[0]);
        assert(be_val(d) == s[0] * p + bd);
        assert(be_val(s) == be_val(d) * 256 + s.last() as nat);
        assert(be_val(t) == bd * 256 + s.last() as nat);
        assert((s[0] * p + bd) * 256 == s[0] * (p * 256) + bd * 256) by (nonlinear_arith);
        assert(pow256((s.len() - 1) as nat) == 256 * p);
        assert(s[0] * (256 * p) == s[0] * (p * 256)) by (nonlinear_arith);
    }
}

/// A prefix of zero bytes does not change the value.
pub proof fn lemma_be_val_zero_prefix(s: Seq<u8>, n: int)
    requires
        0 <= n <= s.len(),
        forall|i: int| 0 <= i < n ==> s[i] == 0,
    ensures
        be_val(s) == be_val(s.subrange(n, s.len() as int)),
    decreases n,
{
    if n == 0 {
        assert(s.subrange(0, s.len() as int) =~= s);
    } else {
        lemma_be_val_first(s);
        let t = s.subrange(1, s.len() as int);
        assert forall|i: int| 0 <= i < n - 1 implies t[i] == 0 by {
            assert(t[i] == s[i + 1]);
        }
        lemma_be_val_zero_prefix(t, n - 1);
        assert(t.subrange(n - 1, t.len() as int) =~= s.subrange(n, s.len() as int));
        assert(s[0] == 0);
        assert(s[0] * pow256((s.len() - 1) as nat) == 0) by (nonlinear_arith)
            requires
                s[0] == 0,
        ;
        assert(be_val(s) == be_val(t));
    }
}

/// Two byte strings of one length and one value are the same string.
pub proof fn lemma_be_val_injective(a: Seq<u8>, b: Seq<u8>)
    requires
        a.len() == b.len(),
        be_val(a) == be_val(b),
    ensures
        a =~= b,
    decreases a.len(),
{
    if a.len() > 0 {
        let va = be_val(a.drop_last());
        let vb = be_val(b.drop_last());
        assert(va * 256 + a.last() == vb * 256 + b.last());
        assert(va == vb && a.last() == b.last()) by (nonlinear_arith)
            requires
                va * 256 + a.last() == vb * 256 + b.last(),
                a.last() < 256,
                b.last() < 256,
        ;
        lemma_be_val_injective(a.drop_last(), b.drop_last());
        assert(a =~= a.drop_last().push(a.last()));
        assert(b =~= b.drop_last().push(b.last()));
    }
}

/// The canonical buffer of a 64-bit integer: 32 bytes, big-endian.
pub fn uint_from_u64(v: u64) -> (r: Vec<u8>)
    ensures
        r@.len() == 32,
        be_val(r@) == v,
{
    let mut r: Vec<u8> = Vec::new();
    let mut x: u64 = v;
    let mut k: usize = 0;
    proof {
        assert(r@.reverse() =~= Seq::<u8>::empty());
        assert(pow256(0) == 1);
        assert(be_val(r@.reverse()) == 0);
        assert(v == x * pow256(0) + be_val(r@.reverse())) by (nonlinear_arith)
            requires
                x == v,
                pow256(0) == 1,
                be_val(r@.reverse()) == 0,
        ;
    }
    // Little-endian accumulation first, reversed at the end.
    while k < 32
        invariant
            0 <= k <= 32,
            r@.len() == k,
            v == x * pow256(k as nat) + be_val(r@.reverse()),
            be_val(r@.reverse()) < pow256(k as nat),
            k == 32 ==> x == 0,
        decreases 32 - k,
    {
        let b: u8 = (x % 256) as u8;
        let ghost old_r = r@;
        let ghost old_x = x;
        r.push(b);
        x = x / 256;
        proof {
            assert(r@.reverse() =~= seq![b].add(old_r.reverse()));
            lemma_be_val_first(r@.reverse());
            assert(r@.reverse().subrange(1, r@.reverse().len() as int) =~= old_r.reverse());
            assert(be_val(r@.reverse()) == b * pow256(k as nat) + be_val(old_r.reverse()));
            assert(old_x == 256 * (old_x / 256) + old_x % 256);
            assert(v == (256 * x + b) * pow256(k as nat) + be_val(old_r.reverse()));
            assert((256 * x + b) * pow256(k as nat) == x * (256 * pow256(k as nat)) + b * pow256(
                k as nat,
            )) by (nonlinear_arith);
            assert(be_val(r@.reverse()) < pow256((k + 1) as nat)) by {
                assert(b * pow256(k as nat) + be_val(old_r.reverse()) < (b + 1) * pow256(k as nat))
                    by (nonlinear_arith)
                    requires
                        be_val(old_r.reverse()) < pow256(k as nat),
                ;
                assert((b + 1) * pow256(k as nat) <= 256 * pow256(k as nat)) by (nonlinear_arith)
                    requires
                        b < 256,
                        pow256(k as nat) > 0,
                ;
                lemma_pow256_pos(k as nat);
            }
            if k + 1 == 32 {
                assert(pow256(32) > u64::MAX) by {
                    lemma_pow256_grows();
                }
                assert(x * pow256(32) <= v) by (nonlinear_arith)
                    requires
                        v == x * pow256(32) + be_val(r@.reverse()),
                        be_val(r@.reverse()) >= 0,
                ;
                if x > 0 {
                    assert(x * pow256(32) >= pow256(32)) by (nonlinear_arith)
                        requires
                            x >= 1,
                            pow256(32) > 0,
                    ;
                }
            }
        }
        k = k + 1;
    }
    let mut out: Vec<u8> = Vec::new();
    let mut j: usize = 32;
    while j > 0
        invariant
            0 <= j <= 32,
            r@.len() == 32,
            out@.len() == 32 - j,
            out@ =~= r@.subrange(j as int, 32).reverse(),
        decreases j,
    {
        j = j - 1;
        out.push(r[j]);
        proof {
            assert(out@ =~= r@.subrange(j as int, 32).reverse());
        }
    }
    proof {
        assert(r@.subrange(0, 32) =~= r@);
        assert(out@ =~= r@.reverse());
    }
    out
}

/// Multiply the 32-byte buffer by a small factor and add a small term,
/// in place. Returns false exactly when the result no longer fits in 32
/// bytes; the buffer's contents are unspecified then.
pub fn mul_small_add(b: &mut Vec<u8>, m: u8, a: u8) -> (ok: bool)
    requires
        old(b)@.len() == 32,
        1 <= m,
    ensures
        final(b)@.len() == 32,
        ok <==> m * be_val(old(b)@) + a < pow256(32),
        ok ==> be_val(final(b)@) == m * be_val(old(b)@) + a,
{
    let ghost o = old(b)@;
    let mut carry: u32 = a as u32;
    let mut i: usize = 32;
    proof {
        assert(o.subrange(32, 32) =~= Seq::<u8>::empty());
        assert(b@.subrange(32, 32) =~= Seq::<u8>::empty());
        assert(m * be_val(o.subrange(32, 32)) + a == carry * pow256(0) + be_val(
            b@.subrange(32, 32),
        )) by (nonlinear_arith)
            requires
                carry == a,
                pow256(0) == 1,
                be_val(o.subrange(32, 32)) == 0,
                be_val(b@.subrange(32, 32)) == 0,
        ;
    }
    while i > 0
        invariant
            0 <= i <= 32,
            b@.len() == 32,
            o.len() == 32,
            1 <= m,
            carry < 256,
            b@.subrange(0, i as int) =~= o.subrange(0, i as int),
            m * be_val(o.subrange(i as int, 32)) + a == carry * pow256((32 - i) as nat) + be_val(
                b@.subrange(i as int, 32),
            ),
        decreases i,
    {
        let ghost prev = b@;
        let ghost carry0 = carry;
        let j = i - 1;
        let bj: u8 = b[j];
        proof {
            assert((bj as u32) * (m as u32) + carry < 0x10000) by (nonlinear_arith)
                requires
                    bj < 256,
                    m < 256,
                    carry < 256,
            ;
        }
        let cur: u32 = (bj as u32) * (m as u32) + carry;
        b.set(j, (cur % 256) as u8);
        carry = cur / 256;
        proof {
            let ji = j as int;
            let p = pow256((32 - i) as nat);
            let so = be_val(o.subrange(i as int, 32));
            let sn = be_val(prev.subrange(i as int, 32));
            assert(b@.subrange(i as int, 32) =~= prev.subrange(i as int, 32));
            assert(b@.subrange(0, ji) =~= o.subrange(0, ji));
            assert(o.subrange(ji, 32)[0] == o[ji]);
            assert(prev.subrange(0, i as int)[ji] == prev[ji]);
            assert(o.subrange(0, i as int)[ji] == o[ji]);
            assert(prev[ji] == o[ji]);
            lemma_be_val_first(o.subrange(ji, 32));
            assert(o.subrange(ji, 32).subrange(1, 32 - ji) =~= o.subrange(i as int, 32));
            lemma_be_val_first(b@.subrange(ji, 32));
            assert(b@.subrange(ji, 32).subrange(1, 32 - ji) =~= b@.subrange(i as int, 32));
            assert(b@.subrange(ji, 32)[0] == b@[ji]);
            assert(cur == o[ji] * m + carry0);
            assert(cur == 256 * carry + b@[ji]);
            assert(be_val(o.subrange(ji, 32)) == o[ji] * p + so);
            assert(be_val(b@.subrange(ji, 32)) == b@[ji] * p + sn);
            assert(pow256((32 - ji) as nat) == 256 * p);
            assert(m * (o[ji] * p + so) + a == carry * (256 * p) + (b@[ji] * p + sn)) by (
            nonlinear_arith)
                requires
                    m * so + a == carry0 * p + sn,
                    cur == o[ji] * m + carry0,
                    cur == 256 * carry + b@[ji],
            ;
        }
        i = j;
    }
    proof {
        assert(o.subrange(0, 32) =~= o);
        assert(b@.subrange(0, 32) =~= b@);
        lemma_be_val_bound(b@);
        if carry == 0 {
            assert(carry * pow256(32) == 0) by (nonlinear_arith)
                requires
                    carry == 0,
            ;
        } else {
            assert(carry * pow256(32) >= pow256(32)) by (nonlinear_arith)
                requires
                    carry >= 1,
                    pow256(32) > 0,
            ;
            lemma_pow256_pos(32);
        }
    }
    carry == 0
}

/// `pow256` is positive.
pub proof fn lemma_pow256_pos(n: nat)
    ensures
        pow256(n) > 0,
    decreases n,
{
    if n > 0 {
        lemma_pow256_pos((n - 1) as nat);
    }
}

/// Weights multiply when lengths add.
pub proof fn lemma_pow256_adds(a: nat, b: nat)
    ensures
        pow256(a + b) == pow256(a) * pow256(b),
    decreases a,
{
    if a == 0 {
        assert(pow256(0 + b) == 1 * pow256(b));
    } else {
        lemma_pow256_adds((a - 1) as nat, b);
        assert((a - 1) as nat + b == (a + b - 1) as nat);
        assert(pow256(a + b) == 256 * pow256((a + b - 1) as nat));
        assert(256 * (pow256((a - 1) as nat) * pow256(b)) == (256 * pow256((a - 1) as nat))
            * pow256(b)) by (nonlinear_arith);
        assert(pow256(a) == 256 * pow256((a - 1) as nat));
    }
}

/// The canonical buffer outweighs every 64-bit integer.
pub proof fn lemma_pow256_grows()
    ensures
        pow256(32) > u64::MAX,
{
    assert(pow256(8) == 0x10000000000000000) by {
        reveal_with_fuel(pow256, 9);
    }
    lemma_pow256_adds(8, 24);
    lemma_pow256_pos(24);
    assert(pow256(8) * pow256(24) >= pow256(8) * 1) by (nonlinear_arith)
        requires
            pow256(24) >= 1,
            pow256(8) > 0,
    ;
}

/// A 32-byte buffer of zeros: the canonical form of zero.
pub fn uint_zero() -> (r: Vec<u8>)
    ensures
        r@.len() == 32,
        be_val(r@) == 0,
        forall|i: int| 0 <= i < 32 ==> r@[i] == 0,
{
    let mut r: Vec<u8> = Vec::new();
    let mut k: usize = 0;
    while k < 32
        invariant
            0 <= k <= 32,
            r@.len() == k,
            forall|i: int| 0 <= i < k ==> r@[i] == 0,
        decreases 32 - k,
    {
        r.push(0);
        k = k + 1;
    }
    proof {
        lemma_be_val_zero_prefix(r@, 32);
        assert(r@.subrange(32, 32) =~= Seq::<u8>::empty());
    }
    r
}

/// Left-pad a big-endian buffer of at most 32 bytes to the canonical
/// 32-byte form; a longer buffer does not fit and is rejected.
pub fn uint_from_be_bytes(src: &Vec<u8>) -> (r: Result<Vec<u8>, EthError>)
    ensures
        r is Ok <==> src@.len() <= 32,
        r matches Ok(b) ==> b@.len() == 32 && b@ =~= Seq::new((32 - src@.len()) as nat, |i: int| 0u8)
            + src@ && be_val(b@) == be_val(src@),
        r is Err ==> r == Err::<Vec<u8>, EthError>(EthError::TypeMismatch),
{
    if src.len() > 32 {
        return Err(EthError::TypeMismatch);
    }
    let pad: usize = 32 - src.len();
    let mut b: Vec<u8> = Vec::new();
    let mut k: usize = 0;
    while k < pad
        invariant
            0 <= k <= pad,
            b@.len() == k,
            forall|i: int| 0 <= i < k ==> b@[i] == 0,
        decreases pad - k,
    {
        b.push(0);
        k = k + 1;
    }
    let mut j: usize = 0;
    while j < src.len()
        invariant
            0 <= j <= src@.len(),
            src@.len() + pad == 32,
            b@.len() == pad + j,
            forall|i: int| 0 <= i < pad ==> b@[i] == 0,
            b@.subrange(pad as int, b@.len() as int) =~= src@.subrange(0, j as int),
        decreases src@.len() - j,
    {
        b.push(src[j]);
        j = j + 1;
        proof {
            assert(b@.subrange(pad as int, b@.len() as int) =~= src@.subrange(0, j as int));
        }
    }
    proof {
        assert(src@.subrange(0, src@.len() as int) =~= src@);
        lemma_be_val_zero_prefix(b@, pad as int);
        assert(b@ =~= Seq::new((32 - src@.len()) as nat, |i: int| 0u8) + src@);
    }
    Ok(b)
}

/// Parse a decimal numeral into the canonical 32-byte buffer. Fails
/// exactly when the text is not a non-empty digit string or its value
/// needs more than 32 bytes.
pub fn uint_from_dec(s: &str) -> (r: Result<Vec<u8>, EthError>)
    ensures
        r is Ok <==> valid_dec(s@) && dec_val(s@) < pow256(32),
        r matches Ok(b) ==> b@.len() == 32 && be_val(b@) == dec_val(s@),
        r is Err ==> r == Err::<Vec<u8>, EthError>(EthError::TypeMismatch),
{
    let n = s.unicode_len();
    if n == 0 {
        return Err(EthError::TypeMismatch);
    }
    let mut b = uint_zero();
    let mut i: usize = 0;
    proof {
        assert(s@.subrange(0, 0) =~= Seq::<char>::empty());
    }
    while i < n
        invariant
            0 <= i <= n,
            n == s@.len(),
            b@.len() == 32,
            forall|k: int| 0 <= k < i ==> is_dec_digit(#[trigger] s@[k]),
            be_val(b@) == dec_val(s@.subrange(0, i as int)),
        decreases n - i,
    {
        let c = s.get_char(i);
        let d = match dec_digit(c) {
            Some(d) => d,
            None => {
                proof {
                    assert(!is_dec_digit(s@[i as int]));
                }
                return Err(EthError::TypeMismatch);
            },
        };
        let ok = mul_small_add(&mut b, 10, d);
        proof {
            lemma_dec_val_step(s@, i as int);
        }
        if !ok {
            proof {
                if valid_dec(s@) {
                    lemma_dec_prefix_le(s@, i + 1);
                }
            }
            return Err(EthError::TypeMismatch);
        }
        i = i + 1;
    }
    proof {
        assert(s@.subrange(0, n as int) =~= s@);
        lemma_be_val_bound(b@);
    }
    Ok(b)
}

/// Parse a hexadecimal numeral into the canonical 32-byte buffer. Fails
/// exactly when the text is not a non-empty hexadecimal digit string or
/// its value needs more than 32 bytes.
pub fn uint_from_hex(s: &str) -> (r: Result<Vec<u8>, EthError>)
    ensures
        r is Ok <==> valid_hex(s@) && hex_val(s@) < pow256(32),
        r matches Ok(b) ==> b@.len() == 32 && be_val(b@) == hex_val(s@),
        r is Err ==> r == Err::<Vec<u8>, EthError>(EthError::TypeMismatch),
{
    let n = s.unicode_len();
    if n == 0 {
        return Err(EthError::TypeMismatch);
    }
    let mut b = uint_zero();
    let mut i: usize = 0;
    proof {
        assert(s@.subrange(0, 0) =~= Seq::<char>::empty());
    }
    while i < n
        invariant
            0 <= i <= n,
            n == s@.len(),
            b@.len() == 32,
            forall|k: int| 0 <= k < i ==> is_hex_digit(#[trigger] s@[k]),
            be_val(b@) == hex_val(s@.subrange(0, i as int)),
        decreases n - i,
    {
        let c = s.get_char(i);
        let d = match hex_digit(c) {
            Some(d) => d,
            None => {
                proof {
                    assert(!is_hex_digit(s@[i as int]));
                }
                return Err(EthError::TypeMismatch);
            },
        };
        let ok = mul_small_add(&mut b, 16, d);
        proof {
            lemma_hex_val_step(s@, i as int);
        }
        if !ok {
            proof {
                if valid_hex(s@) {
                    lemma_hex_prefix_le(s@, i + 1);
                }
            }
            return Err(EthError::TypeMismatch);
        }
        i = i + 1;
    }
    proof {
        assert(s@.subrange(0, n as int) =~= s@);
        lemma_be_val_bound(b@);
    }
    Ok(b)
}

/// Parse a decimal numeral as a 64-bit integer. Fails exactly when the
/// text is not a non-empty digit string or the value does not fit.
pub fn u64_from_dec(s: &str) -> (r: Option<u64>)
    ensures
        r is Some <==> valid_dec(s@) && dec_val(s@) <= u64::MAX,
        r matches Some(v) ==> v == dec_val(s@),
{
    let n = s.unicode_len();
    if n == 0 {
        return None;
    }
    let mut x: u64 = 0;
    let mut i: usize = 0;
    proof {
        assert(s@.subrange(0, 0) =~= Seq::<char>::empty());
    }
    while i < n
        invariant
            0 <= i <= n,
            n == s@.len(),
            forall|k: int| 0 <= k < i ==> is_dec_digit(#[trigger] s@[k]),
            x == dec_val(s@.subrange(0, i as int)),
        decreases n - i,
    {
        let c = s.get_char(i);
        let d = match dec_digit(c) {
            Some(d) => d,
            None => {
                proof {
                    assert(!is_dec_digit(s@[i as int]));
                }
                return None;
            },
        };
        proof {
            lemma_dec_val_step(s@, i as int);
        }
        if x > (u64::MAX - d as u64) / 10 {
            proof {
                let m = u64::MAX as int;
                assert(x * 10 + d > m) by (nonlinear_arith)
                    requires
                        x > (m - d) / 10,
                        0 <= d < 10,
                        m == 0xffffffffffffffff,
                        x >= 0,
                ;
                if valid_dec(s@) {
                    lemma_dec_prefix_le(s@, i + 1);
                }
            }
            return None;
        }
        proof {
            let m = u64::MAX as int;
            assert(x * 10 + d <= m) by (nonlinear_arith)
                requires
                    x <= (m - d) / 10,
                    0 <= d < 10,
                    m == 0xffffffffffffffff,
                    x >= 0,
            ;
        }
        x = x * 10 + d as u64;
        i = i + 1;
    }
    proof {
        assert(s@.subrange(0, n as int) =~= s@);
    }
    Some(x)
}

/// The canonical `len`-byte big-endian spelling of `v`.
pub open spec fn be_bytes(v: nat, len: nat) -> Seq<u8>
    decreases len,
{
    if len == 0 {
        Seq::empty()
    } else {
        be_bytes(v / 256, (len - 1) as nat).push((v % 256) as u8)
    }
}

/// `be_bytes` spells a value that fits: right length, right value.
pub proof fn lemma_be_bytes_val(v: nat, len: nat)
    requires
        v < pow256(len),
    ensures
        be_bytes(v, len).len() == len,
        be_val(be_bytes(v, len)) == v,
    decreases len,
{
    if len == 0 {
    } else {
        assert(v / 256 < pow256((len - 1) as nat)) by (nonlinear_arith)
            requires
                v < 256 * pow256((len - 1) as nat),
                v >= 0,
        ;
        lemma_be_bytes_val(v / 256, (len - 1) as nat);
        let b = be_bytes(v, len);
        assert(b.drop_last() =~= be_bytes(v / 256, (len - 1) as nat));
        assert(b.last() == (v % 256) as u8);
        assert(be_val(b) == (v / 256) * 256 + v % 256);
        assert((v / 256) * 256 + v % 256 == v) by (nonlinear_arith)
            requires
                v >= 0,
        ;
    }
}

/// A 32-byte buffer is the canonical spelling of its own value.
pub proof fn lemma_canonical_32(s: Seq<u8>)
    requires
        s.len() == 32,
    ensures
        s =~= be_bytes(be_val(s), 32),
{
    lemma_be_val_bound(s);
    lemma_be_bytes_val(be_val(s), 32);
    lemma_be_val_injective(s, be_bytes(be_val(s), 32));
}

} // verus!
