//! The type-directed codec between dynamic values and canonical
//! contract-call tokens.
//!
//! Encoding is driven by a type string from the interface document. A
//! type with array suffixes expects a sequence and encodes its elements
//! against the type with the outermost (last) suffix stripped — except
//! for the packed-bytes convention: against `bytes[...]`, a sequence of
//! byte buffers is packed into one `Bytes` token of 32-byte big-endian
//! chunks. Scalars dispatch on the value's runtime shape. A textual
//! 256-bit integer is hexadecimal when it carries a `0x` prefix and
//! decimal otherwise.
//!
//! Decoding maps every token to its canonical byte representation:
//! 32-byte buffers for integers, 20-byte buffers for addresses, raw
//! buffers for byte strings, sequences for both array kinds. Token kinds
//! outside that set are not decoded.

use vstd::prelude::*;

use crate::abi::parse_abi_type;
use crate::abi::spec_parse_abi_type;
use crate::abi::Base;
use crate::abi::Dim;
use crate::address::address_of_text;
use crate::address::parse_address;
use crate::address::valid_address_text;
use crate::digits::dec_val;
use crate::digits::hex_val;
use crate::digits::valid_dec;
use crate::digits::valid_hex;
use crate::error::EthError;
use crate::hexbytes::has_hex_prefix;
use crate::token::token_view;
use crate::token::tokens_view;
use crate::token::lemma_tokens_view;
use crate::token::Token;
use crate::token::TokenV;
use crate::uint256::be_bytes;
use crate::uint256::be_val;
use crate::uint256::lemma_be_bytes_val;
use crate::uint256::lemma_be_val_zero_prefix;
use crate::uint256::lemma_canonical_32;
use crate::uint256::pow256;
use crate::uint256::uint_from_be_bytes;
use crate::uint256::uint_from_dec;
use crate::uint256::uint_from_hex;
use crate::uint256::uint_from_u64;
use crate::value::copy_bytes;
use crate::value::lemma_values_view;
use crate::value::value_view;
use crate::value::values_view;
use crate::value::Value;
use crate::value::ValueV;

verus! {

/// The shape of an encoding result.
pub open spec fn token_res(r: Result<Token, EthError>) -> Result<TokenV, EthError> {
    match r {
        Ok(t) => Ok(token_view(t)),
        Err(e) => Err(e),
    }
}

/// The shape of a sequence-encoding result.
pub open spec fn tokens_res(r: Result<Vec<Token>, EthError>) -> Result<Seq<TokenV>, EthError> {
    match r {
        Ok(ts) => Ok(tokens_view(ts@)),
        Err(e) => Err(e),
    }
}

/// One 32-byte chunk of the packed-bytes convention: a byte buffer of at
/// most 32 bytes, left-padded with zeros.
pub open spec fn spec_chunk(v: ValueV) -> Result<Seq<u8>, EthError> {
    match v {
        ValueV::Bytes(b) => if b.len() <= 32 {
            Ok(Seq::new((32 - b.len()) as nat, |i: int| 0u8) + b)
        } else {
            Err(EthError::TypeMismatch)
        },
        _ => Err(EthError::TypeMismatch),
    }
}

/// The packed-bytes convention: each element becomes a 32-byte chunk and
/// the chunks are concatenated in order. The first failing element's
/// error wins.
pub open spec fn spec_pack(vs: Seq<ValueV>) -> Result<Seq<u8>, EthError>
    decreases vs.len(),
{
    if vs.len() == 0 {
        Ok(Seq::empty())
    } else {
        match spec_pack(vs.drop_last()) {
            Err(e) => Err(e),
            Ok(rest) => match spec_chunk(vs.last()) {
                Err(e) => Err(e),
                Ok(c) => Ok(rest + c),
            },
        }
    }
}

/// Encoding a scalar: dispatch on the value's runtime shape.
pub open spec fn spec_encode_scalar(v: ValueV, base: Base) -> Result<TokenV, EthError> {
    match v {
        ValueV::Str(s) => match base {
            Base::Address => if valid_address_text(s) {
                Ok(TokenV::Address(address_of_text(s)))
            } else {
                Err(EthError::InvalidAddress)
            },
            Base::Uint256 => if has_hex_prefix(s) {
                if valid_hex(s.subrange(2, s.len() as int)) && hex_val(
                    s.subrange(2, s.len() as int),
                ) < pow256(32) {
                    Ok(TokenV::Uint(be_bytes(hex_val(s.subrange(2, s.len() as int)), 32)))
                } else {
                    Err(EthError::TypeMismatch)
                }
            } else {
                if valid_dec(s) && dec_val(s) < pow256(32) {
                    Ok(TokenV::Uint(be_bytes(dec_val(s), 32)))
                } else {
                    Err(EthError::TypeMismatch)
                }
            },
            _ => Err(EthError::UnsupportedConversion),
        },
        ValueV::Bool(b) => if base is Bool {
            Ok(TokenV::Bool(b))
        } else {
            Err(EthError::TypeMismatch)
        },
        ValueV::Int(i) => if base is Uint256 {
            if i >= 0 {
                Ok(TokenV::Uint(be_bytes(i as nat, 32)))
            } else {
                Err(EthError::UnsupportedConversion)
            }
        } else {
            Err(EthError::TypeMismatch)
        },
        ValueV::Bytes(b) => match base {
            Base::Uint256 => if b.len() <= 32 {
                Ok(TokenV::Uint(Seq::new((32 - b.len()) as nat, |i: int| 0u8) + b))
            } else {
                Err(EthError::TypeMismatch)
            },
            Base::Bytes => Ok(TokenV::Bytes(b)),
            _ => Err(EthError::TypeMismatch),
        },
        ValueV::List(_) => Err(EthError::TypeMismatch),
        _ => Err(EthError::UnsupportedConversion),
    }
}

/// Encoding a value against a base type and its remaining suffixes.
pub open spec fn spec_encode(v: ValueV, base: Base, dims: Seq<Dim>) -> Result<TokenV, EthError>
    decreases v,
        via spec_encode_decreases
{
    if dims.len() > 0 {
        if base is Bytes {
            match v {
                ValueV::List(vs) => match spec_pack(vs) {
                    Ok(bs) => Ok(TokenV::Bytes(bs)),
                    Err(e) => Err(e),
                },
                _ => Err(EthError::TypeMismatch),
            }
        } else {
            match v {
                ValueV::List(vs) => match spec_encode_elems(vs, base, dims.drop_last()) {
                    Err(e) => Err(e),
                    Ok(toks) => if dims.last() is Unbounded {
                        Ok(TokenV::Array(toks))
                    } else {
                        Ok(TokenV::FixedArray(toks))
                    },
                },
                _ => Err(EthError::TypeMismatch),
            }
        }
    } else {
        spec_encode_scalar(v, base)
    }
}

/// Encoding a sequence of values element by element against one type.
/// The first failing element's error wins.
pub open spec fn spec_encode_elems(vs: Seq<ValueV>, base: Base, dims: Seq<Dim>) -> Result<
    Seq<TokenV>,
    EthError,
>
    decreases vs,
        via spec_encode_elems_decreases
{
    if vs.len() == 0 {
        Ok(Seq::empty())
    } else {
        match spec_encode_elems(vs.drop_last(), base, dims) {
            Err(e) => Err(e),
            Ok(toks) => match spec_encode(vs.last(), base, dims) {
                Err(e) => Err(e),
                Ok(t) => Ok(toks.push(t)),
            },
        }
    }
}

#[via_fn]
proof fn spec_encode_decreases(v: ValueV, base: Base, dims: Seq<Dim>) {
}

#[via_fn]
proof fn spec_encode_elems_decreases(vs: Seq<ValueV>, base: Base, dims: Seq<Dim>) {
    if vs.len() > 0 {
        vstd::seq::axiom_seq_index_decreases(vs, vs.len() - 1);
        vstd::seq::axiom_seq_subrange_decreases(vs, 0, vs.len() - 1);
    }
}

/// Encoding one value against a type string: the string must spell a
/// recognized type, and the value must fit it.
pub open spec fn spec_var_to_token(v: ValueV, s: Seq<char>) -> Result<TokenV, EthError> {
    match spec_parse_abi_type(s) {
        Option::None => Err(EthError::UnsupportedConversion),
        Option::Some(t) => spec_encode(v, t.base, t.dims),
    }
}

/// The argument list a dynamic value stands for: its elements when it is
/// a sequence, and nothing otherwise.
pub open spec fn spec_args(v: ValueV) -> Seq<ValueV> {
    match v {
        ValueV::List(vs) => vs,
        _ => Seq::empty(),
    }
}

/// Positional encoding of equally long argument and type lists.
pub open spec fn spec_encode_all(args: Seq<ValueV>, types: Seq<Seq<char>>) -> Result<
    Seq<TokenV>,
    EthError,
>
    decreases args.len(),
{
    if args.len() == 0 || args.len() != types.len() {
        Ok(Seq::empty())
    } else {
        match spec_encode_all(args.drop_last(), types.drop_last()) {
            Err(e) => Err(e),
            Ok(toks) => match spec_var_to_token(args.last(), types.last()) {
                Err(e) => Err(e),
                Ok(t) => Ok(toks.push(t)),
            },
        }
    }
}

/// Encoding an argument sequence against the expected types: an arity
/// error when the lengths differ, positional encoding otherwise.
pub open spec fn spec_var_to_tokens(v: ValueV, types: Seq<Seq<char>>) -> Result<
    Seq<TokenV>,
    EthError,
> {
    if spec_args(v).len() != types.len() {
        Err(EthError::ArityMismatch)
    } else {
        spec_encode_all(spec_args(v), types)
    }
}

/// Decoding one token into its canonical byte representation.
pub open spec fn spec_decode_one(t: TokenV) -> Result<ValueV, EthError>
    decreases t,
        via spec_decode_one_decreases
{
    match t {
        TokenV::Uint(b) => Ok(ValueV::Bytes(b)),
        TokenV::Address(b) => Ok(ValueV::Bytes(b)),
        TokenV::Bytes(b) => Ok(ValueV::Bytes(b)),
        TokenV::FixedBytes(b) => Ok(ValueV::Bytes(b)),
        TokenV::Array(ts) => match spec_decode_list(ts) {
            Ok(vs) => Ok(ValueV::List(vs)),
            Err(e) => Err(e),
        },
        TokenV::FixedArray(ts) => match spec_decode_list(ts) {
            Ok(vs) => Ok(ValueV::List(vs)),
            Err(e) => Err(e),
        },
        TokenV::Bool(_) => Err(EthError::UnsupportedToken),
    }
}

/// Decoding a sequence of tokens in order; the first failing token's
/// error wins.
pub open spec fn spec_decode_list(ts: Seq<TokenV>) -> Result<Seq<ValueV>, EthError>
    decreases ts,
        via spec_decode_list_decreases
{
    if ts.len() == 0 {
        Ok(Seq::empty())
    } else {
        match spec_decode_list(ts.drop_last()) {
            Err(e) => Err(e),
            Ok(vs) => match spec_decode_one(ts.last()) {
                Err(e) => Err(e),
                Ok(v) => Ok(vs.push(v)),
            },
        }
    }
}

#[via_fn]
proof fn spec_decode_one_decreases(t: TokenV) {
}

#[via_fn]
proof fn spec_decode_list_decreases(ts: Seq<TokenV>) {
    if ts.len() > 0 {
        vstd::seq::axiom_seq_index_decreases(ts, ts.len() - 1);
        vstd::seq::axiom_seq_subrange_decreases(ts, 0, ts.len() - 1);
    }
}

/// An error in a prefix of the elements decides the whole sequence.
proof fn lemma_elems_err_extends(vs: Seq<ValueV>, base: Base, dims: Seq<Dim>, i: int)
    requires
        0 <= i <= vs.len(),
        spec_encode_elems(vs.subrange(0, i), base, dims) is Err,
    ensures
        spec_encode_elems(vs, base, dims) == spec_encode_elems(vs.subrange(0, i), base, dims),
    decreases vs.len() - i,
{
    if i == vs.len() {
        assert(vs.subrange(0, i) =~= vs);
    } else {
        assert(vs.subrange(0, i + 1).drop_last() =~= vs.subrange(0, i));
        lemma_elems_err_extends(vs, base, dims, i + 1);
    }
}

/// An error in a prefix of the chunks decides the whole packing.
proof fn lemma_pack_err_extends(vs: Seq<ValueV>, i: int)
    requires
        0 <= i <= vs.len(),
        spec_pack(vs.subrange(0, i)) is Err,
    ensures
        spec_pack(vs) == spec_pack(vs.subrange(0, i)),
    decreases vs.len() - i,
{
    if i == vs.len() {
        assert(vs.subrange(0, i) =~= vs);
    } else {
        assert(vs.subrange(0, i + 1).drop_last() =~= vs.subrange(0, i));
        lemma_pack_err_extends(vs, i + 1);
    }
}

/// An error in a prefix of the tokens decides the whole decoding.
proof fn lemma_decode_err_extends(ts: Seq<TokenV>, i: int)
    requires
        0 <= i <= ts.len(),
        spec_decode_list(ts.subrange(0, i)) is Err,
    ensures
        spec_decode_list(ts) == spec_decode_list(ts.subrange(0, i)),
    decreases ts.len() - i,
{
    if i == ts.len() {
        assert(ts.subrange(0, i) =~= ts);
    } else {
        assert(ts.subrange(0, i + 1).drop_last() =~= ts.subrange(0, i));
        lemma_decode_err_extends(ts, i + 1);
    }
}

/// An error in a prefix of the arguments decides the whole encoding.
proof fn lemma_encode_all_err_extends(args: Seq<ValueV>, types: Seq<Seq<char>>, i: int)
    requires
        0 <= i <= args.len(),
        args.len() == types.len(),
        spec_encode_all(args.subrange(0, i), types.subrange(0, i)) is Err,
    ensures
        spec_encode_all(args, types) == spec_encode_all(args.subrange(0, i), types.subrange(0, i)),
    decreases args.len() - i,
{
    if i == args.len() {
        assert(args.subrange(0, i) =~= args);
        assert(types.subrange(0, i) =~= types);
    } else {
        assert(args.subrange(0, i + 1).drop_last() =~= args.subrange(0, i));
        assert(types.subrange(0, i + 1).drop_last() =~= types.subrange(0, i));
        lemma_encode_all_err_extends(args, types, i + 1);
    }
}

/// Encode a scalar value against a base type.
fn encode_scalar(v: &Value, base: Base) -> (r: Result<Token, EthError>)
    ensures
        token_res(r) == spec_encode_scalar(value_view(*v), base),
{
    match v {
        Value::Str(s) => match base {
            Base::Address => match parse_address(s.as_str()) {
                Ok(b) => Ok(Token::Address(b)),
                Err(e) => Err(e),
            },
            Base::Uint256 => {
                let n = s.as_str().unicode_len();
                let has_prefix = n >= 2 && s.as_str().get_char(0) == '0' && s.as_str().get_char(1)
                    == 'x';
                if has_prefix {
                    let t = s.as_str().substring_char(2, n);
                    match uint_from_hex(t) {
                        Ok(b) => {
                            proof {
                                lemma_canonical_32(b@);
                            }
                            Ok(Token::Uint(b))
                        },
                        Err(e) => Err(e),
                    }
                } else {
                    match uint_from_dec(s.as_str()) {
                        Ok(b) => {
                            proof {
                                lemma_canonical_32(b@);
                            }
                            Ok(Token::Uint(b))
                        },
                        Err(e) => Err(e),
                    }
                }
            },
            _ => Err(EthError::UnsupportedConversion),
        },
        Value::Bool(b) => {
            if matches!(base, Base::Bool) {
                Ok(Token::Bool(*b))
            } else {
                Err(EthError::TypeMismatch)
            }
        },
        Value::Int(i) => {
            if matches!(base, Base::Uint256) {
                if *i >= 0 {
                    let b = uint_from_u64(*i as u64);
                    proof {
                        lemma_canonical_32(b@);
                    }
                    Ok(Token::Uint(b))
                } else {
                    Err(EthError::UnsupportedConversion)
                }
            } else {
                Err(EthError::TypeMismatch)
            }
        },
        Value::Bytes(b) => match base {
            Base::Uint256 => match uint_from_be_bytes(b) {
                Ok(p) => Ok(Token::Uint(p)),
                Err(e) => Err(e),
            },
            Base::Bytes => Ok(Token::Bytes(copy_bytes(b))),
            _ => Err(EthError::TypeMismatch),
        },
        Value::List(_) => Err(EthError::TypeMismatch),
        _ => Err(EthError::UnsupportedConversion),
    }
}

/// Pack a sequence of byte buffers into one buffer of 32-byte chunks.
fn pack_chunks(vs: &Vec<Value>) -> (r: Result<Vec<u8>, EthError>)
    ensures
        match r {
            Ok(b) => spec_pack(values_view(vs@)) == Ok::<Seq<u8>, EthError>(b@),
            Err(e) => spec_pack(values_view(vs@)) == Err::<Seq<u8>, EthError>(e),
        },
{
    let ghost vv = values_view(vs@);
    let mut out: Vec<u8> = Vec::new();
    let mut i: usize = 0;
    proof {
        lemma_values_view(vs@);
        assert(vv.subrange(0, 0) =~= Seq::<ValueV>::empty());
    }
    while i < vs.len()
        invariant
            0 <= i <= vs@.len(),
            vv == values_view(vs@),
            vv.len() == vs@.len(),
            forall|k: int| 0 <= k < vs@.len() ==> vv[k] == value_view(#[trigger] vs@[k]),
            spec_pack(vv.subrange(0, i as int)) == Ok::<Seq<u8>, EthError>(out@),
        decreases vs@.len() - i,
    {
        let ghost pre = out@;
        proof {
            assert(vv.subrange(0, i as int + 1).drop_last() =~= vv.subrange(0, i as int));
            assert(vv.subrange(0, i as int + 1).last() == vv[i as int]);
        }
        let chunk = match v_chunk(&vs[i]) {
            Ok(c) => c,
            Err(e) => {
                proof {
                    lemma_pack_err_extends(vv, i + 1);
                }
                return Err(e);
            },
        };
        let mut k: usize = 0;
        while k < chunk.len()
            invariant
                0 <= k <= chunk@.len(),
                out@ =~= pre + chunk@.subrange(0, k as int),
            decreases chunk@.len() - k,
        {
            out.push(chunk[k]);
            k = k + 1;
            proof {
                assert(out@ =~= pre + chunk@.subrange(0, k as int));
            }
        }
        proof {
            assert(chunk@.subrange(0, chunk@.len() as int) =~= chunk@);
            assert(out@ =~= pre + chunk@);
        }
        i = i + 1;
    }
    proof {
        assert(vv.subrange(0, vs@.len() as int) =~= vv);
    }
    Ok(out)
}

/// One element's 32-byte chunk under the packed-bytes convention.
fn v_chunk(v: &Value) -> (r: Result<Vec<u8>, EthError>)
    ensures
        match r {
            Ok(b) => spec_chunk(value_view(*v)) == Ok::<Seq<u8>, EthError>(b@),
            Err(e) => spec_chunk(value_view(*v)) == Err::<Seq<u8>, EthError>(e),
        },
{
    match v {
        Value::Bytes(b) => uint_from_be_bytes(b),
        _ => Err(EthError::TypeMismatch),
    }
}

/// Encode a value against a base type and the first `nd` suffixes.
fn encode_with(v: &Value, base: Base, dims: &Vec<Dim>, nd: usize) -> (r: Result<Token, EthError>)
    requires
        nd <= dims@.len(),
    ensures
        token_res(r) == spec_encode(value_view(*v), base, dims@.subrange(0, nd as int)),
    decreases *v,
{
    let ghost ds = dims@.subrange(0, nd as int);
    if nd == 0 {
        proof {
            assert(ds =~= Seq::<Dim>::empty());
        }
        return encode_scalar(v, base);
    }
    if matches!(base, Base::Bytes) {
        match v {
            Value::List(vs) => match pack_chunks(vs) {
                Ok(b) => Ok(Token::Bytes(b)),
                Err(e) => Err(e),
            },
            _ => Err(EthError::TypeMismatch),
        }
    } else {
        match v {
            Value::List(vs) => {
                proof {
                    vstd::std_specs::vec::axiom_vec_decreases_to_view(*vs);
                }
                let toks = match encode_elems(vs, base, dims, nd - 1) {
                    Ok(ts) => ts,
                    Err(e) => {
                        proof {
                            assert(ds.drop_last() =~= dims@.subrange(0, nd as int - 1));
                        }
                        return Err(e);
                    },
                };
                proof {
                    assert(ds.drop_last() =~= dims@.subrange(0, nd as int - 1));
                    assert(ds.last() == dims@[nd as int - 1]);
                }
                let last = dims[nd - 1];
                match last {
                    Dim::Unbounded => Ok(Token::Array(toks)),
                    Dim::Sized(_) => Ok(Token::FixedArray(toks)),
                }
            },
            _ => Err(EthError::TypeMismatch),
        }
    }
}

/// Encode the elements of a sequence value against the type with the
/// first `nd` suffixes.
fn encode_elems(vs: &Vec<Value>, base: Base, dims: &Vec<Dim>, nd: usize) -> (r: Result<
    Vec<Token>,
    EthError,
>)
    requires
        nd <= dims@.len(),
    ensures
        tokens_res(r) == spec_encode_elems(values_view(vs@), base, dims@.subrange(0, nd as int)),
    decreases vs@,
{
    let ghost inner = dims@.subrange(0, nd as int);
    let ghost vv = values_view(vs@);
    proof {
        lemma_values_view(vs@);
        assert(vv.subrange(0, 0) =~= Seq::<ValueV>::empty());
    }
    let mut toks: Vec<Token> = Vec::new();
    let mut i: usize = 0;
    while i < vs.len()
        invariant
            0 <= i <= vs@.len(),
            nd <= dims@.len(),
            vv == values_view(vs@),
            inner == dims@.subrange(0, nd as int),
            vv.len() == vs@.len(),
            forall|k: int| 0 <= k < vs@.len() ==> vv[k] == value_view(#[trigger] vs@[k]),
            spec_encode_elems(vv.subrange(0, i as int), base, inner) == Ok::<Seq<TokenV>, EthError>(
                tokens_view(toks@),
            ),
            toks@.len() == i,
        decreases vs@.len() - i,
    {
        proof {
            assert(vv.subrange(0, i as int + 1).drop_last() =~= vv.subrange(0, i as int));
            assert(vv.subrange(0, i as int + 1).last() == vv[i as int]);
            vstd::seq::axiom_seq_index_decreases(vs@, i as int);
        }
        let t = match encode_with(&vs[i], base, dims, nd) {
            Ok(t) => t,
            Err(e) => {
                proof {
                    lemma_elems_err_extends(vv, base, inner, i + 1);
                }
                return Err(e);
            },
        };
        let ghost toks0 = toks@;
        toks.push(t);
        proof {
            lemma_tokens_view(toks@);
            lemma_tokens_view(toks0);
            assert(toks@.drop_last() =~= toks0);
            assert(tokens_view(toks@) =~= tokens_view(toks0).push(token_view(t)));
        }
        i = i + 1;
    }
    proof {
        assert(vv.subrange(0, vs@.len() as int) =~= vv);
    }
    Ok(toks)
}

/// Encode one dynamic value against a type string from the interface
/// document.
pub fn var_to_token(input: &Value, input_type: &str) -> (r: Result<Token, EthError>)
    ensures
        token_res(r) == spec_var_to_token(value_view(*input), input_type@),
{
    let t = match parse_abi_type(input_type) {
        Ok(t) => t,
        Err(e) => {
            return Err(e);
        },
    };
    let nd = t.dims.len();
    let r = encode_with(input, t.base, &t.dims, nd);
    proof {
        assert(t.dims@.subrange(0, t.dims@.len() as int) =~= t.dims@);
    }
    r
}

/// Encode an argument sequence positionally against the expected type
/// strings; the lengths must agree exactly.
pub fn var_to_tokens(input: &Value, input_types: &Vec<String>) -> (r: Result<Vec<Token>, EthError>)
    ensures
        tokens_res(r) == spec_var_to_tokens(value_view(*input), input_types.deep_view()),
{
    let ghost tys = input_types.deep_view();
    let empty_args: Vec<Value> = Vec::new();
    let args: &Vec<Value> = match input {
        Value::List(vs) => vs,
        _ => &empty_args,
    };
    proof {
        lemma_values_view(args@);
        assert(values_view(args@) == spec_args(value_view(*input)));
    }
    if args.len() != input_types.len() {
        return Err(EthError::ArityMismatch);
    }
    let ghost av = values_view(args@);
    let mut toks: Vec<Token> = Vec::new();
    let mut i: usize = 0;
    proof {
        assert(av.subrange(0, 0) =~= Seq::<ValueV>::empty());
        assert(tys.subrange(0, 0) =~= Seq::<Seq<char>>::empty());
    }
    while i < args.len()
        invariant
            0 <= i <= args@.len(),
            av == values_view(args@),
            av == spec_args(value_view(*input)),
            tys == input_types.deep_view(),
            av.len() == args@.len(),
            tys.len() == args@.len(),
            input_types@.len() == args@.len(),
            forall|k: int| 0 <= k < args@.len() ==> av[k] == value_view(#[trigger] args@[k]),
            forall|k: int| 0 <= k < args@.len() ==> tys[k] == #[trigger] input_types@[k]@,
            spec_encode_all(av.subrange(0, i as int), tys.subrange(0, i as int)) == Ok::<
                Seq<TokenV>,
                EthError,
            >(tokens_view(toks@)),
            toks@.len() == i,
        decreases args@.len() - i,
    {
        proof {
            assert(av.subrange(0, i as int + 1).drop_last() =~= av.subrange(0, i as int));
            assert(tys.subrange(0, i as int + 1).drop_last() =~= tys.subrange(0, i as int));
            assert(av.subrange(0, i as int + 1).last() == av[i as int]);
            assert(tys.subrange(0, i as int + 1).last() == tys[i as int]);
        }
        let t = match var_to_token(&args[i], input_types[i].as_str()) {
            Ok(t) => t,
            Err(e) => {
                proof {
                    lemma_encode_all_err_extends(av, tys, i + 1);
                }
                return Err(e);
            },
        };
        let ghost toks0 = toks@;
        toks.push(t);
        proof {
            lemma_tokens_view(toks@);
            assert(toks@.drop_last() =~= toks0);
            assert(tokens_view(toks@) =~= tokens_view(toks0).push(token_view(t)));
        }
        i = i + 1;
    }
    proof {
        assert(av.subrange(0, args@.len() as int) =~= av);
        assert(tys.subrange(0, args@.len() as int) =~= tys);
    }
    Ok(toks)
}

/// Decode one token into its canonical dynamic value.
fn decode_token(t: &Token) -> (r: Result<Value, EthError>)
    ensures
        match r {
            Ok(v) => spec_decode_one(token_view(*t)) == Ok::<ValueV, EthError>(value_view(v)),
            Err(e) => spec_decode_one(token_view(*t)) == Err::<ValueV, EthError>(e),
        },
    decreases *t,
{
    match t {
        Token::Uint(b) => Ok(Value::Bytes(copy_bytes(b))),
        Token::Address(b) => Ok(Value::Bytes(copy_bytes(b))),
        Token::Bytes(b) => Ok(Value::Bytes(copy_bytes(b))),
        Token::FixedBytes(b) => Ok(Value::Bytes(copy_bytes(b))),
        Token::Array(ts) => {
            proof {
                vstd::std_specs::vec::axiom_vec_decreases_to_view(*ts);
            }
            match decode_children(ts) {
                Ok(vs) => Ok(Value::List(vs)),
                Err(e) => Err(e),
            }
        },
        Token::FixedArray(ts) => {
            proof {
                vstd::std_specs::vec::axiom_vec_decreases_to_view(*ts);
            }
            match decode_children(ts) {
                Ok(vs) => Ok(Value::List(vs)),
                Err(e) => Err(e),
            }
        },
        Token::Bool(_) => Err(EthError::UnsupportedToken),
    }
}

/// Decode the children of an array token, in order.
fn decode_children(ts: &Vec<Token>) -> (r: Result<Vec<Value>, EthError>)
    ensures
        match r {
            Ok(vs) => spec_decode_list(tokens_view(ts@)) == Ok::<Seq<ValueV>, EthError>(
                values_view(vs@),
            ),
            Err(e) => spec_decode_list(tokens_view(ts@)) == Err::<Seq<ValueV>, EthError>(e),
        },
    decreases ts@,
{
    let ghost tv = tokens_view(ts@);
    let mut out: Vec<Value> = Vec::new();
    let mut i: usize = 0;
    proof {
        lemma_tokens_view(ts@);
        assert(tv.subrange(0, 0) =~= Seq::<TokenV>::empty());
        lemma_values_view(out@);
        assert(values_view(out@) =~= Seq::<ValueV>::empty());
    }
    while i < ts.len()
        invariant
            0 <= i <= ts@.len(),
            tv == tokens_view(ts@),
            tv.len() == ts@.len(),
            forall|k: int| 0 <= k < ts@.len() ==> tv[k] == token_view(#[trigger] ts@[k]),
            spec_decode_list(tv.subrange(0, i as int)) == Ok::<Seq<ValueV>, EthError>(
                values_view(out@),
            ),
            out@.len() == i,
        decreases ts@.len() - i,
    {
        proof {
            assert(tv.subrange(0, i as int + 1).drop_last() =~= tv.subrange(0, i as int));
            assert(tv.subrange(0, i as int + 1).last() == tv[i as int]);
            vstd::seq::axiom_seq_index_decreases(ts@, i as int);
        }
        let v = match decode_token(&ts[i]) {
            Ok(v) => v,
            Err(e) => {
                proof {
                    lemma_decode_err_extends(tv, i + 1);
                }
                return Err(e);
            },
        };
        let ghost out0 = out@;
        out.push(v);
        proof {
            lemma_values_view(out@);
            lemma_values_view(out0);
            assert(out@.drop_last() =~= out0);
            assert(values_view(out@) =~= values_view(out0).push(value_view(v)));
        }
        i = i + 1;
    }
    proof {
        assert(tv.subrange(0, ts@.len() as int) =~= tv);
    }
    Ok(out)
}

/// Decode a sequence of returned tokens into a sequence of canonical
/// dynamic values, written into `output` on success; on failure the
/// error is returned and `output` is left as it was.
pub fn tokens_to_var(tokens: &Vec<Token>, output: &mut Value) -> (r: Result<(), EthError>)
    ensures
        r is Ok <==> spec_decode_list(tokens_view(tokens@)) is Ok,
        r is Ok ==> value_view(*final(output)) == ValueV::List(
            spec_decode_list(tokens_view(tokens@))->Ok_0,
        ),
        r matches Err(e) ==> spec_decode_list(tokens_view(tokens@)) == Err::<Seq<ValueV>, EthError>(
            e,
        ) && *final(output) == *old(output),
{
    match decode_children(tokens) {
        Ok(vs) => {
            *output = Value::List(vs);
            Ok(())
        },
        Err(e) => Err(e),
    }
}

/// The round-trip law for scalars: a scalar value that encodes against
/// a decodable base type decodes back to its canonical byte
/// representation — the address bytes of address text, the 32-byte
/// big-endian buffer of a numeric value, a byte buffer unchanged. The
/// boolean base type is left out: its token kind is not decoded. The
/// packed-bytes convention is deliberately one-directional and makes no
/// such claim.
pub proof fn lemma_scalar_round_trip(v: ValueV, base: Base)
    requires
        spec_encode_scalar(v, base) is Ok,
        !(base is Bool),
    ensures
        spec_decode_one(spec_encode_scalar(v, base)->Ok_0) matches Ok(d) && d matches
            ValueV::Bytes(bs) && {
            &&& v matches ValueV::Int(i) ==> bs.len() == 32 && be_val(bs) == i
            &&& v matches ValueV::Bytes(b) ==> (if base is Bytes {
                bs == b
            } else {
                bs.len() == 32 && be_val(bs) == be_val(b)
            })
            &&& v matches ValueV::Str(s) ==> (if base is Address {
                bs == address_of_text(s)
            } else if has_hex_prefix(s) {
                bs.len() == 32 && be_val(bs) == hex_val(s.subrange(2, s.len() as int))
            } else {
                bs.len() == 32 && be_val(bs) == dec_val(s)
            })
        },
{
    match v {
        ValueV::Int(i) => {
            crate::uint256::lemma_pow256_grows();
            lemma_be_bytes_val(i as nat, 32);
        },
        ValueV::Str(s) => {
            if base is Uint256 {
                if has_hex_prefix(s) {
                    lemma_be_bytes_val(hex_val(s.subrange(2, s.len() as int)), 32);
                } else {
                    lemma_be_bytes_val(dec_val(s), 32);
                }
            }
        },
        ValueV::Bytes(b) => {
            if base is Uint256 {
                let padded = Seq::new((32 - b.len()) as nat, |i: int| 0u8) + b;
                assert(padded.subrange(32 - b.len(), 32) =~= b);
                lemma_be_val_zero_prefix(padded, 32 - b.len());
            }
        },
        _ => {},
    }
}

/// No part of the encoder reports an arity error: arity is judged once,
/// against the whole argument sequence.
proof fn lemma_encode_no_arity(v: ValueV, base: Base, dims: Seq<Dim>)
    ensures
        spec_encode(v, base, dims) != Err::<TokenV, EthError>(EthError::ArityMismatch),
    decreases v,
{
    if dims.len() > 0 {
        if base is Bytes {
            match v {
                ValueV::List(vs) => {
                    lemma_pack_no_arity(vs);
                },
                _ => {},
            }
        } else {
            match v {
                ValueV::List(vs) => {
                    lemma_encode_elems_no_arity(vs, base, dims.drop_last());
                },
                _ => {},
            }
        }
    }
}

/// The packed-bytes convention reports no arity error either.
proof fn lemma_pack_no_arity(vs: Seq<ValueV>)
    ensures
        spec_pack(vs) != Err::<Seq<u8>, EthError>(EthError::ArityMismatch),
    decreases vs.len(),
{
    if vs.len() > 0 {
        lemma_pack_no_arity(vs.drop_last());
    }
}

/// Nor does elementwise encoding.
proof fn lemma_encode_elems_no_arity(vs: Seq<ValueV>, base: Base, dims: Seq<Dim>)
    ensures
        spec_encode_elems(vs, base, dims) != Err::<Seq<TokenV>, EthError>(EthError::ArityMismatch),
    decreases vs,
{
    if vs.len() > 0 {
        vstd::seq::axiom_seq_index_decreases(vs, vs.len() - 1);
        vstd::seq::axiom_seq_subrange_decreases(vs, 0, vs.len() - 1);
        lemma_encode_elems_no_arity(vs.drop_last(), base, dims);
        lemma_encode_no_arity(vs.last(), base, dims);
    }
}

/// Positional encoding reports no arity error.
proof fn lemma_encode_all_no_arity(args: Seq<ValueV>, types: Seq<Seq<char>>)
    ensures
        spec_encode_all(args, types) != Err::<Seq<TokenV>, EthError>(EthError::ArityMismatch),
    decreases args.len(),
{
    if args.len() != 0 && args.len() == types.len() {
        lemma_encode_all_no_arity(args.drop_last(), types.drop_last());
        lemma_encode_no_arity_typed(args.last(), types.last());
    }
}

/// Encoding one value against one type string reports no arity error.
proof fn lemma_encode_no_arity_typed(v: ValueV, s: Seq<char>)
    ensures
        spec_var_to_token(v, s) != Err::<TokenV, EthError>(EthError::ArityMismatch),
{
    match spec_parse_abi_type(s) {
        Option::None => {},
        Option::Some(t) => {
            lemma_encode_no_arity(v, t.base, t.dims);
        },
    }
}

/// The arity law: encoding an argument sequence fails with an arity
/// error exactly when its length differs from the expected-types
/// length, and an arity error arises nowhere else.
pub proof fn lemma_arity(v: ValueV, types: Seq<Seq<char>>)
    ensures
        spec_var_to_tokens(v, types) == Err::<Seq<TokenV>, EthError>(EthError::ArityMismatch)
            <==> spec_args(v).len() != types.len(),
{
    if spec_args(v).len() == types.len() {
        lemma_encode_all_no_arity(spec_args(v), types);
    }
}

} // verus!
