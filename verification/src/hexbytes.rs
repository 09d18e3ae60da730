//! Hexadecimal text to raw bytes: two digits per byte, most significant
//! first, with an optional `0x` prefix stripped by the callers.

use vstd::prelude::*;

use crate::digits::hex_digit;
use crate::digits::hex_digit_val;
use crate::digits::is_hex_digit;

verus! {

/// Whether `s` is a (possibly empty) string of hexadecimal digit pairs.
pub open spec fn valid_hex_pairs(s: Seq<char>) -> bool {
    s.len() % 2 == 0 && forall|i: int| 0 <= i < s.len() ==> is_hex_digit(#[trigger] s[i])
}

/// The bytes spelt by a string of hexadecimal digit pairs.
pub open spec fn hex_pair_bytes(s: Seq<char>) -> Seq<u8> {
    Seq::new((s.len() / 2) as nat, |i: int| (hex_digit_val(s[2 * i]) * 16 + hex_digit_val(
        s[2 * i + 1],
    )) as u8)
}

/// Whether `s` starts with the literal prefix `0x`.
pub open spec fn has_hex_prefix(s: Seq<char>) -> bool {
    s.len() >= 2 && s[0] == '0' && s[1] == 'x'
}

/// Strip one leading `0x`, if present.
pub fn strip_hex_prefix(s: &str) -> (r: &str)
    ensures
        has_hex_prefix(s@) ==> r@ == s@.subrange(2, s@.len() as int),
        !has_hex_prefix(s@) ==> r@ == s@,
{
    let n = s.unicode_len();
    if n >= 2 {
        let c0 = s.get_char(0);
        let c1 = s.get_char(1);
        if c0 == '0' && c1 == 'x' {
            return s.substring_char(2, n);
        }
    }
    s
}

/// Decode a string of hexadecimal digit pairs into bytes. `None` exactly
/// when the length is odd or some character is not a hexadecimal digit.
pub fn bytes_from_hex(s: &str) -> (r: Option<Vec<u8>>)
    ensures
        r is Some <==> valid_hex_pairs(s@),
        r matches Some(b) ==> b@ == hex_pair_bytes(s@),
{
    let n = s.unicode_len();
    if n % 2 != 0 {
        return None;
    }
    let mut b: Vec<u8> = Vec::new();
    let mut i: usize = 0;
    while i < n
        invariant
            0 <= i <= n,
            i % 2 == 0,
            n % 2 == 0,
            n == s@.len(),
            b@.len() == i / 2,
            forall|k: int| 0 <= k < i ==> is_hex_digit(#[trigger] s@[k]),
            forall|k: int| 0 <= k < i / 2 ==> b@[k] == (hex_digit_val(s@[2 * k]) * 16
                + hex_digit_val(s@[2 * k + 1])) as u8,
        decreases n - i,
    {
        let hi = match hex_digit(s.get_char(i)) {
            Some(d) => d,
            None => {
                proof {
                    assert(!is_hex_digit(s@[i as int]));
                }
                return None;
            },
        };
        let lo = match hex_digit(s.get_char(i + 1)) {
            Some(d) => d,
            None => {
                proof {
                    assert(!is_hex_digit(s@[i as int + 1]));
                }
                return None;
            },
        };
        b.push(hi * 16 + lo);
        i = i + 2;
    }
    proof {
        assert(b@ =~= hex_pair_bytes(s@));
    }
    Some(b)
}

} // verus!
