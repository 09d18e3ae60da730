use ethcall::codec::{tokens_to_var, var_to_token, var_to_tokens};
use ethcall::error::EthError;
use ethcall::token::Token;
use ethcall::value::Value;

fn uint_bytes(tail: &[u8]) -> Vec<u8> {
    let mut b = vec![0u8; 32 - tail.len()];
    b.extend_from_slice(tail);
    b
}

#[test]
fn encode_int_to_uint256() {
    let t = var_to_token(&Value::Int(1000), "uint256").unwrap();
    match t {
        Token::Uint(b) => assert_eq!(b, uint_bytes(&[0x03, 0xe8])),
        _ => panic!("expected a Uint token"),
    }
}

#[test]
fn encode_decimal_string_to_uint256() {
    let t = var_to_token(
        &Value::Str(String::from("1000000000000000000")),
        "uint256",
    )
    .unwrap();
    match t {
        Token::Uint(b) => assert_eq!(b, uint_bytes(&[0x0d, 0xe0, 0xb6, 0xb3, 0xa7, 0x64, 0x00, 0x00])),
        _ => panic!("expected a Uint token"),
    }
}

#[test]
fn encode_hex_string_to_uint256() {
    let t = var_to_token(&Value::Str(String::from("0xff")), "uint256").unwrap();
    match t {
        Token::Uint(b) => assert_eq!(b, uint_bytes(&[0xff])),
        _ => panic!("expected a Uint token"),
    }
}

#[test]
fn encode_address_string() {
    let t = var_to_token(
        &Value::Str(String::from("0x6b175474e89094c44da98b954eedeac495271d0f")),
        "address",
    )
    .unwrap();
    match t {
        Token::Address(b) => {
            assert_eq!(b.len(), 20);
            assert_eq!(b[0], 0x6b);
            assert_eq!(b[19], 0x0f);
        }
        _ => panic!("expected an Address token"),
    }
}

#[test]
fn encode_address_without_prefix() {
    let t = var_to_token(
        &Value::Str(String::from("EB29D5C25AF0A35D2d0b85D3798788f81A0BF7Ae")),
        "address",
    )
    .unwrap();
    match t {
        Token::Address(b) => {
            assert_eq!(b[0], 0xeb);
            assert_eq!(b[19], 0xae);
        }
        _ => panic!("expected an Address token"),
    }
}

#[test]
fn encode_bad_address_fails() {
    let r = var_to_token(&Value::Str(String::from("0x1234")), "address");
    assert_eq!(r.unwrap_err(), EthError::InvalidAddress);
}

#[test]
fn encode_bool() {
    let t = var_to_token(&Value::Bool(true), "bool").unwrap();
    assert!(matches!(t, Token::Bool(true)));
}

#[test]
fn encode_bool_against_uint_fails() {
    let r = var_to_token(&Value::Bool(true), "uint256");
    assert_eq!(r.unwrap_err(), EthError::TypeMismatch);
}

#[test]
fn encode_negative_int_fails() {
    let r = var_to_token(&Value::Int(-1), "uint256");
    assert_eq!(r.unwrap_err(), EthError::UnsupportedConversion);
}

#[test]
fn encode_bytes_verbatim() {
    let t = var_to_token(&Value::Bytes(vec![1, 2, 3]), "bytes").unwrap();
    match t {
        Token::Bytes(b) => assert_eq!(b, vec![1, 2, 3]),
        _ => panic!("expected a Bytes token"),
    }
}

#[test]
fn encode_bytes_as_uint_pads() {
    let t = var_to_token(&Value::Bytes(vec![0xab, 0xcd]), "uint256").unwrap();
    match t {
        Token::Uint(b) => assert_eq!(b, uint_bytes(&[0xab, 0xcd])),
        _ => panic!("expected a Uint token"),
    }
}

#[test]
fn encode_long_bytes_as_uint_fails() {
    let r = var_to_token(&Value::Bytes(vec![1u8; 33]), "uint256");
    assert_eq!(r.unwrap_err(), EthError::TypeMismatch);
}

#[test]
fn encode_unknown_type_fails() {
    let r = var_to_token(&Value::Int(1), "uint257");
    assert_eq!(r.unwrap_err(), EthError::UnsupportedConversion);
}

#[test]
fn encode_uint_array() {
    let v = Value::List(vec![Value::Int(1), Value::Int(2)]);
    let t = var_to_token(&v, "uint256[]").unwrap();
    match t {
        Token::Array(ts) => {
            assert_eq!(ts.len(), 2);
            assert!(matches!(&ts[0], Token::Uint(b) if *b == uint_bytes(&[1])));
            assert!(matches!(&ts[1], Token::Uint(b) if *b == uint_bytes(&[2])));
        }
        _ => panic!("expected an Array token"),
    }
}

#[test]
fn encode_sized_uint_array() {
    let v = Value::List(vec![Value::Int(7)]);
    let t = var_to_token(&v, "uint256[1]").unwrap();
    assert!(matches!(t, Token::FixedArray(_)));
}

#[test]
fn encode_scalar_against_array_type_fails() {
    let r = var_to_token(&Value::Int(1), "uint256[]");
    assert_eq!(r.unwrap_err(), EthError::TypeMismatch);
}

#[test]
fn packed_bytes_convention() {
    // Against bytes[...] a sequence of byte buffers packs into one
    // Bytes token of 32-byte big-endian chunks.
    let v = Value::List(vec![Value::Bytes(vec![0x01]), Value::Bytes(vec![0x02, 0x03])]);
    let t = var_to_token(&v, "bytes[]").unwrap();
    match t {
        Token::Bytes(b) => {
            let mut expected = uint_bytes(&[0x01]);
            expected.extend_from_slice(&uint_bytes(&[0x02, 0x03]));
            assert_eq!(b, expected);
        }
        _ => panic!("expected a packed Bytes token"),
    }
}

#[test]
fn decode_scalars_round_trip() {
    // The canonical byte representation comes back out: the round-trip
    // law on concrete values.
    let tokens = vec![
        var_to_token(&Value::Int(1000), "uint256").unwrap(),
        var_to_token(
            &Value::Str(String::from("0x6b175474e89094c44da98b954eedeac495271d0f")),
            "address",
        )
        .unwrap(),
        var_to_token(&Value::Bytes(vec![9, 9]), "bytes").unwrap(),
    ];
    let mut out = Value::Empty;
    tokens_to_var(&tokens, &mut out).unwrap();
    match out {
        Value::List(vs) => {
            assert_eq!(vs.len(), 3);
            assert!(matches!(&vs[0], Value::Bytes(b) if *b == uint_bytes(&[0x03, 0xe8])));
            assert!(matches!(&vs[1], Value::Bytes(b) if b.len() == 20 && b[0] == 0x6b));
            assert!(matches!(&vs[2], Value::Bytes(b) if *b == vec![9u8, 9u8]));
        }
        _ => panic!("expected a sequence"),
    }
}

#[test]
fn decode_bool_token_fails() {
    let mut out = Value::Empty;
    let r = tokens_to_var(&vec![Token::Bool(true)], &mut out);
    assert_eq!(r.unwrap_err(), EthError::UnsupportedToken);
    assert!(matches!(out, Value::Empty));
}

#[test]
fn decode_nested_array() {
    let tokens = vec![Token::Array(vec![
        Token::Uint(uint_bytes(&[1])),
        Token::Uint(uint_bytes(&[2])),
    ])];
    let mut out = Value::Empty;
    tokens_to_var(&tokens, &mut out).unwrap();
    match out {
        Value::List(vs) => match &vs[0] {
            Value::List(inner) => {
                assert_eq!(inner.len(), 2);
                assert!(matches!(&inner[0], Value::Bytes(b) if *b == uint_bytes(&[1])));
            }
            _ => panic!("expected a nested sequence"),
        },
        _ => panic!("expected a sequence"),
    }
}

#[test]
fn arity_mismatch_fails() {
    let types = vec![String::from("uint256"), String::from("uint256"), String::from("address")];
    let v = Value::List(vec![Value::Int(1), Value::Int(2)]);
    let r = var_to_tokens(&v, &types);
    assert_eq!(r.unwrap_err(), EthError::ArityMismatch);
}

#[test]
fn arity_match_succeeds() {
    let types = vec![String::from("uint256"), String::from("bool")];
    let v = Value::List(vec![Value::Int(5), Value::Bool(false)]);
    let ts = var_to_tokens(&v, &types).unwrap();
    assert_eq!(ts.len(), 2);
}

#[test]
fn non_sequence_counts_as_empty_arguments() {
    let types: Vec<String> = Vec::new();
    let ts = var_to_tokens(&Value::Int(3), &types).unwrap();
    assert!(ts.is_empty());
    let one = vec![String::from("uint256")];
    let r = var_to_tokens(&Value::Int(3), &one);
    assert_eq!(r.unwrap_err(), EthError::ArityMismatch);
}

#[test]
fn end_to_end_swap_call_shapes() {
    // Encoding (addressX, addressY, 1000, 100, 0) against
    // (address, address, uint256, uint256, uint256) yields two Address
    // and three Uint tokens; decoding a returned (Uint, Array[Uint])
    // pair yields a 32-byte buffer and a sequence of 32-byte buffers.
    let types = vec![
        String::from("address"),
        String::from("address"),
        String::from("uint256"),
        String::from("uint256"),
        String::from("uint256"),
    ];
    let args = Value::List(vec![
        Value::Str(String::from("6b175474e89094c44da98b954eedeac495271d0f")),
        Value::Str(String::from("EeeeeEeeeEeEeeEeEeEeeEEEeeeeEeeeeeeeEEeE")),
        Value::Int(1000),
        Value::Int(100),
        Value::Int(0),
    ]);
    let tokens = var_to_tokens(&args, &types).unwrap();
    assert_eq!(tokens.len(), 5);
    assert!(matches!(tokens[0], Token::Address(_)));
    assert!(matches!(tokens[1], Token::Address(_)));
    assert!(matches!(tokens[2], Token::Uint(_)));
    assert!(matches!(tokens[3], Token::Uint(_)));
    assert!(matches!(tokens[4], Token::Uint(_)));

    let returned = vec![
        Token::Uint(uint_bytes(&[0x42])),
        Token::Array(vec![Token::Uint(uint_bytes(&[1])), Token::Uint(uint_bytes(&[2]))]),
    ];
    let mut out = Value::Empty;
    tokens_to_var(&returned, &mut out).unwrap();
    match out {
        Value::List(vs) => {
            assert_eq!(vs.len(), 2);
            assert!(matches!(&vs[0], Value::Bytes(b) if b.len() == 32));
            match &vs[1] {
                Value::List(inner) => {
                    assert_eq!(inner.len(), 2);
                    for v in inner {
                        assert!(matches!(v, Value::Bytes(b) if b.len() == 32));
                    }
                }
                _ => panic!("expected a sequence of buffers"),
            }
        }
        _ => panic!("expected a sequence"),
    }
}

#[test]
fn uint_overflow_fails() {
    // 2^256 in decimal does not fit in 32 bytes.
    let big = "115792089237316195423570985008687907853269984665640564039457584007913129639936";
    let r = var_to_token(&Value::Str(String::from(big)), "uint256");
    assert_eq!(r.unwrap_err(), EthError::TypeMismatch);
    // 2^256 - 1 does.
    let max = "115792089237316195423570985008687907853269984665640564039457584007913129639935";
    let t = var_to_token(&Value::Str(String::from(max)), "uint256").unwrap();
    match t {
        Token::Uint(b) => assert_eq!(b, vec![0xffu8; 32]),
        _ => panic!("expected a Uint token"),
    }
}

#[test]
fn nested_array_types() {
    // The outermost (last) suffix is stripped first: against
    // uint256[1][], the value is a sequence of one-element sequences.
    let v = Value::List(vec![
        Value::List(vec![Value::Int(1)]),
        Value::List(vec![Value::Int(2)]),
    ]);
    let t = var_to_token(&v, "uint256[1][]").unwrap();
    match t {
        Token::Array(outer) => {
            assert_eq!(outer.len(), 2);
            assert!(matches!(outer[0], Token::FixedArray(_)));
        }
        _ => panic!("expected an Array token"),
    }
}

#[test]
fn fixed_width_bytes_type_recognized_but_not_encodable() {
    // bytes32 parses as a base type of its own; no scalar value shape
    // encodes into it.
    let r = var_to_token(&Value::Bytes(vec![1u8; 32]), "bytes32");
    assert_eq!(r.unwrap_err(), EthError::TypeMismatch);
}
