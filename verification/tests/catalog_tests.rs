use ethcall::catalog::{event_signature, gather_inputs};
use ethcall::error::EthError;
use ethcall::hasher::hash_event;
use ethcall::value::Value;

fn input(ty: &str) -> Value {
    Value::Table(vec![(String::from("type"), Value::Str(String::from(ty)))])
}

fn entry(name: &str, types: &[&str]) -> Value {
    let inputs: Vec<Value> = types.iter().map(|t| input(t)).collect();
    Value::Table(vec![
        (String::from("name"), Value::Str(String::from(name))),
        (String::from("inputs"), Value::List(inputs)),
    ])
}

fn sample_doc() -> Value {
    Value::List(vec![
        entry("transfer", &["address", "uint256"]),
        entry("getExpectedReturn", &["address", "address", "uint256", "uint256", "uint256"]),
        entry("Transfer", &["address", "uint256"]),
    ])
}

#[test]
fn parameter_types_in_declaration_order() {
    let doc = sample_doc();
    let ts = gather_inputs("getExpectedReturn", &doc).unwrap();
    assert_eq!(
        ts,
        vec![
            String::from("address"),
            String::from("address"),
            String::from("uint256"),
            String::from("uint256"),
            String::from("uint256"),
        ]
    );
}

#[test]
fn parameter_types_first_entry_wins() {
    let doc = Value::List(vec![entry("f", &["bool"]), entry("f", &["uint256"])]);
    let ts = gather_inputs("f", &doc).unwrap();
    assert_eq!(ts, vec![String::from("bool")]);
}

#[test]
fn method_not_found() {
    let doc = sample_doc();
    let r = gather_inputs("missing", &doc);
    assert_eq!(r.unwrap_err(), EthError::MethodNotFound);
}

#[test]
fn malformed_document_rejected() {
    let r = gather_inputs("transfer", &Value::Str(String::from("not an array")));
    assert_eq!(r.unwrap_err(), EthError::MalformedAbi);
}

#[test]
fn entry_without_inputs_has_no_parameters() {
    let doc = Value::List(vec![Value::Table(vec![(
        String::from("name"),
        Value::Str(String::from("bare")),
    )])]);
    let ts = gather_inputs("bare", &doc).unwrap();
    assert!(ts.is_empty());
}

#[test]
fn event_signature_canonical() {
    let doc = sample_doc();
    let s = event_signature("Transfer", &doc).unwrap();
    assert_eq!(s, String::from("Transfer(address,uint256)"));
}

#[test]
fn event_signature_no_inputs() {
    let doc = Value::List(vec![entry("Ping", &[])]);
    let s = event_signature("Ping", &doc).unwrap();
    assert_eq!(s, String::from("Ping()"));
}

#[test]
fn event_not_found() {
    let doc = sample_doc();
    let r = event_signature("Missing", &doc);
    assert_eq!(r.unwrap_err(), EthError::EventNotFound);
}

#[test]
fn event_with_untyped_input_rejected() {
    let doc = Value::List(vec![Value::Table(vec![
        (String::from("name"), Value::Str(String::from("Odd"))),
        (
            String::from("inputs"),
            Value::List(vec![Value::Table(vec![(
                String::from("kind"),
                Value::Str(String::from("address")),
            )])]),
        ),
    ])]);
    let r = event_signature("Odd", &doc);
    assert_eq!(r.unwrap_err(), EthError::MalformedAbi);
}

#[test]
fn transfer_event_hash_golden() {
    // Keccak-256 of the literal bytes `Transfer(address,uint256)`.
    let doc = sample_doc();
    let h = hash_event("Transfer", &doc).unwrap();
    let expected: Vec<u8> = vec![
        0x69, 0xca, 0x02, 0xdd, 0x4e, 0xdd, 0x7b, 0xf0, 0xa4, 0xab, 0xb9, 0xed, 0x3b, 0x7a, 0xf3,
        0xf1, 0x47, 0x78, 0xdb, 0x5d, 0x61, 0x92, 0x1c, 0x7d, 0xc7, 0xcd, 0x54, 0x52, 0x66, 0x32,
        0x6d, 0xe2,
    ];
    assert_eq!(h, expected);
}

#[test]
fn hash_event_propagates_lookup_failure() {
    let doc = sample_doc();
    let r = hash_event("Missing", &doc);
    assert_eq!(r.unwrap_err(), EthError::EventNotFound);
}
