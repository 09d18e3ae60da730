//! Account and contract addresses: 20-byte buffers, written in text as
//! 40 hexadecimal digits with an optional `0x` prefix.

use vstd::prelude::*;

use crate::error::EthError;
use crate::hexbytes::bytes_from_hex;
use crate::hexbytes::has_hex_prefix;
use crate::hexbytes::hex_pair_bytes;
use crate::hexbytes::strip_hex_prefix;
use crate::hexbytes::valid_hex_pairs;
use crate::value::Value;

verus! {

/// The width, in bytes, of an address.
pub const ADDRESS_BYTES: usize = 20;

/// The digits of an address in text, after any `0x` prefix is gone.
pub open spec fn address_digits(s: Seq<char>) -> Seq<char> {
    if has_hex_prefix(s) {
        s.subrange(2, s.len() as int)
    } else {
        s
    }
}

/// Whether a piece of text spells an address: exactly 40 hexadecimal
/// digits after an optional `0x` prefix.
pub open spec fn valid_address_text(s: Seq<char>) -> bool {
    address_digits(s).len() == 40 && valid_hex_pairs(address_digits(s))
}

/// The 20 bytes spelt by a valid piece of address text.
pub open spec fn address_of_text(s: Seq<char>) -> Seq<u8> {
    hex_pair_bytes(address_digits(s))
}

/// Parse an address from text. Fails exactly when the text, less an
/// optional `0x` prefix, is not 40 hexadecimal digits.
pub fn parse_address(s: &str) -> (r: Result<Vec<u8>, EthError>)
    ensures
        r is Ok <==> valid_address_text(s@),
        r matches Ok(b) ==> b@.len() == 20 && b@ == address_of_text(s@),
        r is Err ==> r == Err::<Vec<u8>, EthError>(EthError::InvalidAddress),
{
    let t = strip_hex_prefix(s);
    if t.unicode_len() != 40 {
        return Err(EthError::InvalidAddress);
    }
    match bytes_from_hex(t) {
        Some(b) => Ok(b),
        None => Err(EthError::InvalidAddress),
    }
}

/// The address a dynamic value stands for: the parsed text of a string
/// value, the bytes of a 20-byte buffer value, and nothing otherwise.
pub open spec fn spec_address_of(v: crate::value::ValueV) -> Option<Seq<u8>> {
    match v {
        crate::value::ValueV::Str(s) => if valid_address_text(s) {
            Option::Some(address_of_text(s))
        } else {
            Option::None
        },
        crate::value::ValueV::Bytes(b) => if b.len() == 20 {
            Option::Some(b)
        } else {
            Option::None
        },
        _ => Option::None,
    }
}

/// Read an address from a dynamic value: either address text or a raw
/// 20-byte buffer. Everything else is rejected.
pub fn get_address(v: &Value) -> (r: Result<Vec<u8>, EthError>)
    ensures
        r is Ok <==> spec_address_of(crate::value::value_view(*v)) is Some,
        r matches Ok(b) ==> b@.len() == 20 && Option::Some(b@) == spec_address_of(
            crate::value::value_view(*v),
        ),
        r is Err ==> r == Err::<Vec<u8>, EthError>(EthError::InvalidAddress),
{
    match v {
        Value::Str(s) => parse_address(s.as_str()),
        Value::Bytes(b) => {
            if b.len() == 20 {
                let mut out: Vec<u8> = Vec::new();
                let mut i: usize = 0;
                while i < b.len()
                    invariant
                        0 <= i <= b@.len(),
                        out@ =~= b@.subrange(0, i as int),
                    decreases b@.len() - i,
                {
                    out.push(b[i]);
                    i = i + 1;
                    proof {
                        assert(out@ =~= b@.subrange(0, i as int));
                    }
                }
                proof {
                    assert(b@.subrange(0, b@.len() as int) =~= b@);
                }
                Ok(out)
            } else {
                Err(EthError::InvalidAddress)
            }
        },
        _ => Err(EthError::InvalidAddress),
    }
}

} // verus!
