use ethcall::address::get_address;
use ethcall::deploy::Deploy;
use ethcall::error::EthError;
use ethcall::handle::{ConnState, Connection, ContractBinder, Rebind, TransportKind};
use ethcall::orchestrate::{
    finish_batch, finish_bytes_call, finish_read, finish_u64_call, finish_unlock, finish_write,
    get_timeout, parse_call_options, poll_step, prepare_estimate, prepare_read, resolve_caller,
    scrub_caller, subscription_filter, BatchSubmission, BytesOutcome, CallOutcome, Caller,
    PollDecision, PollEvent, U64Outcome, UnlockOutcome, WriteOutcome,
};
use ethcall::records::{LogRecord, Receipt};
use ethcall::token::Token;
use ethcall::value::Value;

fn sample_entry() -> Value {
    Value::Table(vec![(String::from("name"), Value::Str(String::from("f")))])
}

fn address_a() -> Value {
    Value::Str(String::from("0x6b175474e89094c44da98b954eedeac495271d0f"))
}

fn address_b() -> Value {
    Value::Str(String::from("0xC586BeF4a0992C495Cf22e1aeEE4E446CECDee0E"))
}

fn ready_connection() -> Connection {
    let mut conn = Connection::new();
    conn.begin_connect();
    conn.complete_connect(false, true);
    conn
}

#[test]
fn connection_prefers_streaming() {
    let mut conn = Connection::new();
    assert_eq!(conn.state, ConnState::Uninitialized);
    conn.begin_connect();
    conn.complete_connect(true, true);
    assert_eq!(conn.state, ConnState::Ready(TransportKind::Streaming));
}

#[test]
fn connection_falls_back_to_request() {
    let mut conn = Connection::new();
    conn.begin_connect();
    conn.complete_connect(false, true);
    assert_eq!(conn.state, ConnState::Ready(TransportKind::Request));
}

#[test]
fn connection_fails_without_transport() {
    let mut conn = Connection::new();
    conn.begin_connect();
    conn.complete_connect(false, false);
    assert_eq!(conn.state, ConnState::Failed);
}

#[test]
fn rebind_keeps_same_address_and_rebuilds_on_change() {
    let conn = ready_connection();
    let abi = Value::List(vec![sample_entry()]);
    let mut binder = ContractBinder::new();

    let first = binder.rebind(&address_a(), &abi, &conn).unwrap();
    assert_eq!(first, Rebind::Rebuilt);
    let gen_a = binder.bound.as_ref().unwrap().generation;

    let again = binder.rebind(&address_a(), &abi, &conn).unwrap();
    assert_eq!(again, Rebind::Kept);
    assert_eq!(binder.bound.as_ref().unwrap().generation, gen_a);

    let moved = binder.rebind(&address_b(), &abi, &conn).unwrap();
    assert_eq!(moved, Rebind::Rebuilt);
    let bound = binder.bound.as_ref().unwrap();
    assert_eq!(bound.generation, gen_a + 1);
    assert_eq!(bound.address[0], 0xc5);
}

#[test]
fn rebind_bad_address_unbinds() {
    let conn = ready_connection();
    let abi = Value::List(vec![sample_entry()]);
    let mut binder = ContractBinder::new();
    binder.rebind(&address_a(), &abi, &conn).unwrap();
    let r = binder.rebind(&Value::Str(String::from("nonsense")), &abi, &conn);
    assert_eq!(r.unwrap_err(), EthError::InvalidAddress);
    assert!(binder.bound.is_none());
}

#[test]
fn rebind_empty_abi_rejected() {
    let conn = ready_connection();
    let mut binder = ContractBinder::new();
    let r = binder.rebind(&address_a(), &Value::List(vec![]), &conn);
    assert_eq!(r.unwrap_err(), EthError::InvalidAbi);
}

#[test]
fn rebind_needs_ready_connection() {
    let conn = Connection::new();
    let abi = Value::List(vec![sample_entry()]);
    let mut binder = ContractBinder::new();
    let r = binder.rebind(&address_a(), &abi, &conn);
    assert_eq!(r.unwrap_err(), EthError::RpcFailure);
}

#[test]
fn get_address_from_bytes() {
    let b = vec![7u8; 20];
    let a = get_address(&Value::Bytes(b.clone())).unwrap();
    assert_eq!(a, b);
    let r = get_address(&Value::Bytes(vec![7u8; 19]));
    assert_eq!(r.unwrap_err(), EthError::InvalidAddress);
}

#[test]
fn read_outcomes_classified() {
    let mut out = Value::Empty;
    assert_eq!(
        finish_read(&CallOutcome::TimedOut, &mut out).unwrap_err(),
        EthError::TimedOut
    );
    assert_eq!(
        finish_read(&CallOutcome::Failed, &mut out).unwrap_err(),
        EthError::RpcFailure
    );
    let mut b32 = vec![0u8; 31];
    b32.push(5);
    finish_read(&CallOutcome::Returned(vec![Token::Uint(b32.clone())]), &mut out).unwrap();
    match out {
        Value::List(vs) => assert!(matches!(&vs[0], Value::Bytes(b) if *b == b32)),
        _ => panic!("expected a sequence"),
    }
}

#[test]
fn batch_second_element_failure_preserves_semantics() {
    // Three argument sets; the second response is an error: the batch
    // surfaces RpcFailure at the failing element.
    let ok = |v: u8| {
        let mut b = vec![0u8; 31];
        b.push(v);
        CallOutcome::Returned(vec![Token::Uint(b)])
    };
    let items = vec![ok(1), CallOutcome::Failed, ok(3)];
    let r = finish_batch(BatchSubmission::Accepted, &items);
    assert_eq!(r.unwrap_err(), EthError::RpcFailure);
}

#[test]
fn batch_order_preserved() {
    let ok = |v: u8| {
        let mut b = vec![0u8; 31];
        b.push(v);
        CallOutcome::Returned(vec![Token::Uint(b)])
    };
    let items = vec![ok(1), ok(2), ok(3)];
    let vs = finish_batch(BatchSubmission::Accepted, &items).unwrap();
    assert_eq!(vs.len(), 3);
    for (i, v) in vs.iter().enumerate() {
        match v {
            Value::List(inner) => match &inner[0] {
                Value::Bytes(b) => assert_eq!(b[31], (i + 1) as u8),
                _ => panic!("expected a buffer"),
            },
            _ => panic!("expected a sequence"),
        }
    }
}

#[test]
fn batch_submission_failure_is_atomic() {
    let items = vec![CallOutcome::Returned(vec![])];
    let r = finish_batch(BatchSubmission::Rejected, &items);
    assert_eq!(r.unwrap_err(), EthError::BatchSubmissionFailed);
    let r = finish_batch(BatchSubmission::TimedOut, &items);
    assert_eq!(r.unwrap_err(), EthError::TimedOut);
}

#[test]
fn call_options_parsed() {
    let opts = Value::Table(vec![
        (String::from("gas"), Value::Bytes(vec![0x01, 0x00])),
        (String::from("ignored"), Value::Str(String::from("whatever"))),
        (String::from("nonce"), Value::Bytes(vec![0x07])),
    ]);
    let o = parse_call_options(&opts).unwrap();
    let gas = o.gas.unwrap();
    assert_eq!(gas.len(), 32);
    assert_eq!(&gas[30..], &[0x01, 0x00]);
    assert_eq!(o.nonce.unwrap()[31], 0x07);
    assert!(o.gas_price.is_none());
    assert!(o.value.is_none());
}

#[test]
fn call_options_bad_value_rejected() {
    let opts = Value::Table(vec![(String::from("gas"), Value::Int(5))]);
    assert_eq!(parse_call_options(&opts).unwrap_err(), EthError::TypeMismatch);
}

#[test]
fn prepare_read_assembles() {
    let types = vec![String::from("uint256")];
    let args = Value::List(vec![Value::Int(5)]);
    let call = prepare_read(&args, &types, &Value::Empty, &Value::Empty).unwrap();
    assert_eq!(call.tokens.len(), 1);
    assert!(call.from.is_none());
    let with_from = prepare_read(&args, &types, &address_a(), &Value::Empty).unwrap();
    assert_eq!(with_from.from.unwrap().len(), 20);
}

#[test]
fn prepare_estimate_demands_from() {
    let types = vec![String::from("uint256")];
    let args = Value::List(vec![Value::Int(5)]);
    let r = prepare_estimate(&args, &types, &Value::Str(String::new()));
    assert_eq!(r.unwrap_err(), EthError::InvalidAddress);
    let c = prepare_estimate(&args, &types, &address_a()).unwrap();
    assert_eq!(c.from.len(), 20);
}

#[test]
fn resolve_caller_external_account() {
    let c = resolve_caller(String::from("0x6b175474e89094c44da98b954eedeac495271d0f")).unwrap();
    match c {
        Caller::ExternalAccount(a) => assert_eq!(a.len(), 20),
        _ => panic!("expected an external account"),
    }
}

#[test]
fn resolve_caller_signing_key() {
    let key = "0x0000000000000000000000000000000000000000000000000000000000000001";
    let mut c = resolve_caller(String::from(key)).unwrap();
    match &c {
        Caller::SigningKey(b) => {
            assert_eq!(b.len(), 32);
            assert_eq!(b[31], 1);
        }
        _ => panic!("expected a signing key"),
    }
    scrub_caller(&mut c);
    match &c {
        Caller::SigningKey(b) => assert!(b.is_empty()),
        _ => panic!("expected a signing key"),
    }
}

#[test]
fn resolve_caller_zero_key_rejected() {
    let key = "0x0000000000000000000000000000000000000000000000000000000000000000";
    let r = resolve_caller(String::from(key));
    assert_eq!(r.unwrap_err(), EthError::InvalidAddress);
}

#[test]
fn write_outcomes_classified() {
    assert_eq!(
        finish_write(&WriteOutcome::Failed).unwrap_err(),
        EthError::RpcFailure
    );
    let receipt = Receipt {
        transaction_hash: vec![0xaa; 32],
        transaction_index: 3,
        block_hash: None,
        block_number: Some(17),
        gas_used: None,
        status: Some(1),
    };
    let v = finish_write(&WriteOutcome::Confirmed(receipt)).unwrap();
    match v {
        Value::Table(es) => {
            assert_eq!(es[0].0, "transaction_hash");
            assert!(matches!(&es[0].1, Value::Bytes(b) if *b == vec![0xaa; 32]));
            assert_eq!(es[1].0, "transaction_index");
            assert!(matches!(es[1].1, Value::Int(3)));
            assert_eq!(es[2].0, "block_number");
            assert!(matches!(es[2].1, Value::Int(17)));
            assert_eq!(es[3].0, "status");
            assert!(matches!(es[3].1, Value::Int(1)));
            assert_eq!(es.len(), 4);
        }
        _ => panic!("expected a table"),
    }
}

#[test]
fn subscription_needs_streaming_transport() {
    let plain = ready_connection();
    let addr = vec![1u8; 20];
    let topic = vec![2u8; 32];
    let r = subscription_filter(&plain, &addr, &topic);
    assert_eq!(r.unwrap_err(), EthError::UnsupportedTransport);

    let mut ws = Connection::new();
    ws.begin_connect();
    ws.complete_connect(true, false);
    let f = subscription_filter(&ws, &addr, &topic).unwrap();
    assert_eq!(f.address, addr);
    assert_eq!(f.topic0, topic);
}

#[test]
fn poll_loop_decisions() {
    assert!(matches!(poll_step(true, &PollEvent::NoEventYet), PollDecision::Stop));
    assert!(matches!(
        poll_step(false, &PollEvent::NoEventYet),
        PollDecision::KeepWaiting
    ));
    match poll_step(false, &PollEvent::ItemFailed) {
        PollDecision::Abort(e) => assert_eq!(e, EthError::RpcFailure),
        _ => panic!("expected an abort"),
    }
    let log = LogRecord {
        data: vec![1, 2],
        topics: vec![vec![3u8; 32]],
        block_hash: None,
        block_number: None,
        transaction_hash: None,
        transaction_index: Some(4),
        removed: Some(false),
    };
    match poll_step(false, &PollEvent::Item(log)) {
        PollDecision::Deliver(Value::Table(es)) => {
            assert_eq!(es[0].0, "data");
            assert_eq!(es[1].0, "topics");
            assert_eq!(es[2].0, "transaction_index");
            assert_eq!(es[3].0, "removed");
        }
        _ => panic!("expected a delivery"),
    }
}

#[test]
fn simple_outcome_classifiers() {
    assert_eq!(
        finish_bytes_call(BytesOutcome::TimedOut).unwrap_err(),
        EthError::TimedOut
    );
    match finish_bytes_call(BytesOutcome::Value(vec![9u8; 32])).unwrap() {
        Value::Bytes(b) => assert_eq!(b.len(), 32),
        _ => panic!("expected a buffer"),
    }
    assert!(matches!(
        finish_u64_call(U64Outcome::Value(12)).unwrap(),
        Value::Int(12)
    ));
    assert_eq!(
        finish_u64_call(U64Outcome::Value(u64::MAX)).unwrap_err(),
        EthError::TypeMismatch
    );
    assert!(finish_unlock(UnlockOutcome::Done(true)).is_ok());
    assert_eq!(
        finish_unlock(UnlockOutcome::Done(false)).unwrap_err(),
        EthError::RpcFailure
    );
}

#[test]
fn timeout_setting_parsed_with_default() {
    assert_eq!(get_timeout(Some("45")), 45);
    assert_eq!(get_timeout(Some("not a number")), 30);
    assert_eq!(get_timeout(None), 30);
}

#[test]
fn deployment_unavailable() {
    let d = Deploy::default();
    assert!(!d.available());
}
