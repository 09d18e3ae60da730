//! The event-signature digest: Keccak-256 over the UTF-8 bytes of the
//! canonical signature string.

use vstd::prelude::*;

use crate::catalog::event_signature;
use crate::catalog::spec_event_signature;
use crate::error::EthError;
use crate::value::value_view;
use crate::value::Value;

verus! {

/// The Keccak-256 digest of a byte string. The digest itself is left
/// unspecified: the trusted wrapper below relates it to the outside
/// implementation, and nothing else is assumed of it.
pub uninterp spec fn keccak256_of(data: Seq<u8>) -> Seq<u8>;

/// Relies on web3::signing::keccak256: the Keccak-256 digest of the
/// input bytes, 32 bytes long, a function of the input alone.
#[verifier::external_body]
fn keccak256(data: &[u8]) -> (r: Vec<u8>)
    ensures
        r@ == keccak256_of(data@),
        r@.len() == 32,
{
    web3::signing::keccak256(data).to_vec()
}

/// The 32-byte topic filter digest of event `event` in the interface
/// document: Keccak-256 over the UTF-8 bytes of the canonical signature
/// string.
pub fn hash_event(event: &str, json_abi: &Value) -> (r: Result<Vec<u8>, EthError>)
    ensures
        match r {
            Ok(h) => spec_event_signature(value_view(*json_abi), event@) is Ok && h@
                == keccak256_of(
                vstd::utf8::encode_utf8(
                    spec_event_signature(value_view(*json_abi), event@)->Ok_0,
                ),
            ) && h@.len() == 32,
            Err(e) => spec_event_signature(value_view(*json_abi), event@) == Err::<
                Seq<char>,
                EthError,
            >(e),
        },
{
    let sig = match event_signature(event, json_abi) {
        Ok(s) => s,
        Err(e) => {
            return Err(e);
        },
    };
    let h = keccak256(sig.as_str().as_bytes());
    Ok(h)
}

} // verus!
