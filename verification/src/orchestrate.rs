//! The decision logic around network calls: assembling a call from
//! dynamic values, classifying what a round-trip reported, the ordered
//! all-or-nothing batch semantics, the two write-authentication modes,
//! and the event-poll loop's per-iteration decision.
//!
//! Every read-style round-trip is governed by a timeout and its expiry
//! is an ordinary reportable failure. The confirmation-gated write path
//! deliberately has no timeout: a write may wait arbitrarily long for
//! its confirmations.

use vstd::prelude::*;

use zeroize::Zeroize;

use crate::address::address_of_text;
use crate::address::valid_address_text;
use crate::address::parse_address;
use crate::codec::spec_decode_list;
use crate::codec::spec_var_to_tokens;
use crate::codec::tokens_to_var;
use crate::codec::var_to_tokens;
use crate::error::EthError;
use crate::handle::Connection;
use crate::hexbytes::bytes_from_hex;
use crate::hexbytes::hex_pair_bytes;
use crate::hexbytes::strip_hex_prefix;
use crate::hexbytes::valid_hex_pairs;
use crate::records::LogRecord;
use crate::records::Receipt;
use crate::token::tokens_view;
use crate::token::Token;
use crate::token::TokenV;
use crate::uint256::uint_from_be_bytes;
use crate::value::entries_view;
use crate::value::lemma_entries_view;
use crate::value::value_view;
use crate::value::Value;
use crate::value::ValueV;

verus! {

/// The default per-call timeout, in seconds.
pub const DEFAULT_TIMEOUT_SECS: u64 = 30;

/// The default number of confirmations a write waits for.
pub const DEFAULT_CONFIRMATIONS: u64 = 12;

/// The per-call timeout taken from an externally configured setting:
/// the setting's value when it is a decimal number of seconds, and the
/// default otherwise or when no setting is present.
pub fn get_timeout(setting: Option<&str>) -> (r: u64)
    ensures
        match setting {
            Option::Some(s) => if crate::digits::valid_dec(s@) && crate::digits::dec_val(s@)
                <= u64::MAX {
                r == crate::digits::dec_val(s@)
            } else {
                r == DEFAULT_TIMEOUT_SECS
            },
            Option::None => r == DEFAULT_TIMEOUT_SECS,
        },
{
    match setting {
        Some(s) => match crate::uint256::u64_from_dec(s) {
            Some(v) => v,
            None => DEFAULT_TIMEOUT_SECS,
        },
        None => DEFAULT_TIMEOUT_SECS,
    }
}

/// Optional per-call overrides, each a 32-byte big-endian integer;
/// an unset field leaves the node's default in force.
#[derive(Debug)]
pub struct CallOptions {
    /// Gas limit.
    pub gas: Option<Vec<u8>>,
    /// Gas price.
    pub gas_price: Option<Vec<u8>>,
    /// Value transferred.
    pub value: Option<Vec<u8>>,
    /// Sender nonce.
    pub nonce: Option<Vec<u8>>,
}

/// The mathematical shape of [`CallOptions`].
pub struct CallOptionsV {
    pub gas: Option<Seq<u8>>,
    pub gas_price: Option<Seq<u8>>,
    pub value: Option<Seq<u8>>,
    pub nonce: Option<Seq<u8>>,
}

/// The shape of an optional byte buffer.
pub open spec fn opt_bytes_view(o: Option<Vec<u8>>) -> Option<Seq<u8>> {
    match o {
        Option::Some(b) => Option::Some(b@),
        Option::None => Option::None,
    }
}

impl View for CallOptions {
    type V = CallOptionsV;

    open spec fn view(&self) -> CallOptionsV {
        CallOptionsV {
            gas: opt_bytes_view(self.gas),
            gas_price: opt_bytes_view(self.gas_price),
            value: opt_bytes_view(self.value),
            nonce: opt_bytes_view(self.nonce),
        }
    }
}

/// No overrides.
pub open spec fn spec_options_default() -> CallOptionsV {
    CallOptionsV {
        gas: Option::None,
        gas_price: Option::None,
        value: Option::None,
        nonce: Option::None,
    }
}

/// A 32-byte left-zero-padded copy of a buffer of at most 32 bytes.
pub open spec fn spec_pad32(b: Seq<u8>) -> Seq<u8> {
    Seq::new((32 - b.len()) as nat, |i: int| 0u8) + b
}

/// Fold one table entry into the options gathered so far: a recognized
/// label takes a byte-buffer integer of at most 32 bytes, any other
/// label is ignored.
pub open spec fn spec_option_step(o: CallOptionsV, key: Seq<char>, v: ValueV) -> Result<
    CallOptionsV,
    EthError,
> {
    if key == "gas"@ || key == "gas-price"@ || key == "value"@ || key == "nonce"@ {
        match v {
            ValueV::Bytes(b) => if b.len() <= 32 {
                if key == "gas"@ {
                    Ok(CallOptionsV { gas: Option::Some(spec_pad32(b)), ..o })
                } else if key == "gas-price"@ {
                    Ok(CallOptionsV { gas_price: Option::Some(spec_pad32(b)), ..o })
                } else if key == "value"@ {
                    Ok(CallOptionsV { value: Option::Some(spec_pad32(b)), ..o })
                } else {
                    Ok(CallOptionsV { nonce: Option::Some(spec_pad32(b)), ..o })
                }
            } else {
                Err(EthError::TypeMismatch)
            },
            _ => Err(EthError::TypeMismatch),
        }
    } else {
        Ok(o)
    }
}

/// Fold a whole options table, in entry order; a later entry under the
/// same label wins.
pub open spec fn spec_options_fold(es: Seq<(Seq<char>, ValueV)>) -> Result<CallOptionsV, EthError>
    decreases es.len(),
{
    if es.len() == 0 {
        Ok(spec_options_default())
    } else {
        match spec_options_fold(es.drop_last()) {
            Err(e) => Err(e),
            Ok(o) => spec_option_step(o, es.last().0, es.last().1),
        }
    }
}

/// The options a dynamic value stands for: nothing, or a table of
/// labelled byte-buffer integers.
pub open spec fn spec_call_options(v: ValueV) -> Result<CallOptionsV, EthError> {
    match v {
        ValueV::Empty => Ok(spec_options_default()),
        ValueV::Table(es) => spec_options_fold(es),
        _ => Err(EthError::TypeMismatch),
    }
}

/// An error while folding a prefix of the entries decides the whole.
proof fn lemma_options_err_extends(es: Seq<(Seq<char>, ValueV)>, i: int)
    requires
        0 <= i <= es.len(),
        spec_options_fold(es.subrange(0, i)) is Err,
    ensures
        spec_options_fold(es) == spec_options_fold(es.subrange(0, i)),
    decreases es.len() - i,
{
    if i == es.len() {
        assert(es.subrange(0, i) =~= es);
    } else {
        assert(es.subrange(0, i + 1).drop_last() =~= es.subrange(0, i));
        lemma_options_err_extends(es, i + 1);
    }
}

/// Read the per-call options from a dynamic value.
pub fn parse_call_options(v: &Value) -> (r: Result<CallOptions, EthError>)
    ensures
        match r {
            Ok(o) => spec_call_options(value_view(*v)) == Ok::<CallOptionsV, EthError>(o@),
            Err(e) => spec_call_options(value_view(*v)) == Err::<CallOptionsV, EthError>(e),
        },
{
    let es = match v {
        Value::Empty => {
            return Ok(CallOptions { gas: None, gas_price: None, value: None, nonce: None });
        },
        Value::Table(es) => es,
        _ => {
            return Err(EthError::TypeMismatch);
        },
    };
    let ghost ev = entries_view(es@);
    proof {
        lemma_entries_view(es@);
        assert(ev.subrange(0, 0) =~= Seq::<(Seq<char>, ValueV)>::empty());
    }
    let mut opts = CallOptions { gas: None, gas_price: None, value: None, nonce: None };
    let mut i: usize = 0;
    while i < es.len()
        invariant
            0 <= i <= es@.len(),
            ev == entries_view(es@),
            value_view(*v) == ValueV::Table(ev),
            ev.len() == es@.len(),
            forall|k: int| 0 <= k < es@.len() ==> ev[k] == ((#[trigger] es@[k]).0@, value_view(
                es@[k].1,
            )),
            spec_options_fold(ev.subrange(0, i as int)) == Ok::<CallOptionsV, EthError>(opts@),
        decreases es@.len() - i,
    {
        proof {
            assert(ev.subrange(0, i as int + 1).drop_last() =~= ev.subrange(0, i as int));
            assert(ev.subrange(0, i as int + 1).last() == ev[i as int]);
            reveal_strlit("gas");
            reveal_strlit("gas-price");
            reveal_strlit("value");
            reveal_strlit("nonce");
        }
        let key = es[i].0.as_str();
        let is_gas = crate::catalog::str_eq(key, "gas");
        let is_gas_price = crate::catalog::str_eq(key, "gas-price");
        let is_value = crate::catalog::str_eq(key, "value");
        let is_nonce = crate::catalog::str_eq(key, "nonce");
        if is_gas || is_gas_price || is_value || is_nonce {
            let b = match &es[i].1 {
                Value::Bytes(b) => b,
                _ => {
                    proof {
                        lemma_options_err_extends(ev, i + 1);
                    }
                    return Err(EthError::TypeMismatch);
                },
            };
            let padded = match uint_from_be_bytes(b) {
                Ok(p) => p,
                Err(e) => {
                    proof {
                        lemma_options_err_extends(ev, i + 1);
                    }
                    return Err(e);
                },
            };
            if is_gas {
                opts.gas = Some(padded);
            } else if is_gas_price {
                opts.gas_price = Some(padded);
            } else if is_value {
                opts.value = Some(padded);
            } else {
                opts.nonce = Some(padded);
            }
        }
        i = i + 1;
    }
    proof {
        assert(ev.subrange(0, es@.len() as int) =~= ev);
    }
    Ok(opts)
}

/// The optional caller address of a read: absent, empty text, or
/// address text.
pub open spec fn spec_opt_from(v: ValueV) -> Result<Option<Seq<u8>>, EthError> {
    match v {
        ValueV::Empty => Ok(Option::None),
        ValueV::Str(s) => if s.len() == 0 {
            Ok(Option::None)
        } else if valid_address_text(s) {
            Ok(Option::Some(address_of_text(s)))
        } else {
            Err(EthError::InvalidAddress)
        },
        _ => Err(EthError::InvalidAddress),
    }
}

/// Read the optional caller address of a read call.
pub fn parse_opt_from(v: &Value) -> (r: Result<Option<Vec<u8>>, EthError>)
    ensures
        match r {
            Ok(o) => spec_opt_from(value_view(*v)) == Ok::<Option<Seq<u8>>, EthError>(
                opt_bytes_view(o),
            ),
            Err(e) => spec_opt_from(value_view(*v)) == Err::<Option<Seq<u8>>, EthError>(e),
        },
{
    match v {
        Value::Empty => Ok(None),
        Value::Str(s) => {
            if s.as_str().unicode_len() == 0 {
                Ok(None)
            } else {
                match parse_address(s.as_str()) {
                    Ok(a) => Ok(Some(a)),
                    Err(e) => Err(e),
                }
            }
        },
        _ => Err(EthError::InvalidAddress),
    }
}

/// One read-style call, assembled and ready for its round-trip.
#[derive(Debug)]
pub struct ReadCall {
    /// The encoded arguments.
    pub tokens: Vec<Token>,
    /// The optional caller address, 20 bytes.
    pub from: Option<Vec<u8>>,
    /// The per-call overrides.
    pub options: CallOptions,
}

/// The shape of an assembled read call.
pub struct ReadCallV {
    pub tokens: Seq<TokenV>,
    pub from: Option<Seq<u8>>,
    pub options: CallOptionsV,
}

impl View for ReadCall {
    type V = ReadCallV;

    open spec fn view(&self) -> ReadCallV {
        ReadCallV {
            tokens: tokens_view(self.tokens@),
            from: opt_bytes_view(self.from),
            options: self.options@,
        }
    }
}

/// Assembling a read call: arguments first, then the caller address,
/// then the options; the first failure decides.
pub open spec fn spec_prepare_read(
    args: ValueV,
    types: Seq<Seq<char>>,
    from: ValueV,
    options: ValueV,
) -> Result<ReadCallV, EthError> {
    match spec_var_to_tokens(args, types) {
        Err(e) => Err(e),
        Ok(toks) => match spec_opt_from(from) {
            Err(e) => Err(e),
            Ok(f) => match spec_call_options(options) {
                Err(e) => Err(e),
                Ok(o) => Ok(ReadCallV { tokens: toks, from: f, options: o }),
            },
        },
    }
}

/// Assemble a read call from the host's dynamic values.
pub fn prepare_read(args: &Value, input_types: &Vec<String>, from: &Value, options: &Value) -> (r:
    Result<ReadCall, EthError>)
    ensures
        match r {
            Ok(c) => spec_prepare_read(
                value_view(*args),
                input_types.deep_view(),
                value_view(*from),
                value_view(*options),
            ) == Ok::<ReadCallV, EthError>(c@),
            Err(e) => spec_prepare_read(
                value_view(*args),
                input_types.deep_view(),
                value_view(*from),
                value_view(*options),
            ) == Err::<ReadCallV, EthError>(e),
        },
{
    let tokens = match var_to_tokens(args, input_types) {
        Ok(t) => t,
        Err(e) => {
            return Err(e);
        },
    };
    let f = match parse_opt_from(from) {
        Ok(f) => f,
        Err(e) => {
            return Err(e);
        },
    };
    let o = match parse_call_options(options) {
        Ok(o) => o,
        Err(e) => {
            return Err(e);
        },
    };
    Ok(ReadCall { tokens, from: f, options: o })
}

/// What one read-style round-trip reported.
#[derive(Debug)]
pub enum CallOutcome {
    /// The timeout expired before the call resolved.
    TimedOut,
    /// The transport or the node reported a failure.
    Failed,
    /// The call resolved into returned tokens.
    Returned(Vec<Token>),
}

/// The shape of a round-trip report.
pub enum CallOutcomeV {
    TimedOut,
    Failed,
    Returned(Seq<TokenV>),
}

impl View for CallOutcome {
    type V = CallOutcomeV;

    open spec fn view(&self) -> CallOutcomeV {
        match self {
            CallOutcome::TimedOut => CallOutcomeV::TimedOut,
            CallOutcome::Failed => CallOutcomeV::Failed,
            CallOutcome::Returned(ts) => CallOutcomeV::Returned(tokens_view(ts@)),
        }
    }
}

/// What a finished read hands back: a timeout and a transport failure
/// are reported as such, and returned tokens are decoded into their
/// canonical dynamic values.
pub open spec fn spec_finish_read(o: CallOutcomeV) -> Result<ValueV, EthError> {
    match o {
        CallOutcomeV::TimedOut => Err(EthError::TimedOut),
        CallOutcomeV::Failed => Err(EthError::RpcFailure),
        CallOutcomeV::Returned(ts) => match spec_decode_list(ts) {
            Ok(vs) => Ok(ValueV::List(vs)),
            Err(e) => Err(e),
        },
    }
}

/// Classify a read's round-trip report and decode its result into
/// `output`; on failure `output` is left as it was.
pub fn finish_read(outcome: &CallOutcome, output: &mut Value) -> (r: Result<(), EthError>)
    ensures
        r is Ok <==> spec_finish_read(outcome@) is Ok,
        r is Ok ==> value_view(*final(output)) == spec_finish_read(outcome@)->Ok_0,
        r matches Err(e) ==> spec_finish_read(outcome@) == Err::<ValueV, EthError>(e)
            && *final(output) == *old(output),
{
    match outcome {
        CallOutcome::TimedOut => Err(EthError::TimedOut),
        CallOutcome::Failed => Err(EthError::RpcFailure),
        CallOutcome::Returned(ts) => tokens_to_var(ts, output),
    }
}

/// How the submission of a whole batch round-trip ended.
#[derive(Clone, Copy, Debug, PartialEq, Eq, Structural)]
pub enum BatchSubmission {
    /// The single batch timeout expired.
    TimedOut,
    /// The connection rejected the batch as a whole.
    Rejected,
    /// The batch was submitted; each element has its own report.
    Accepted,
}

/// The elementwise reports of an accepted batch, in request order:
/// every element left of the first failure decodes in order, the first
/// failing element surfaces `RpcFailure`, and nothing after it is
/// looked at.
pub open spec fn spec_batch_items(items: Seq<CallOutcomeV>) -> Result<Seq<ValueV>, EthError>
    decreases items.len(),
{
    if items.len() == 0 {
        Ok(Seq::empty())
    } else {
        match spec_batch_items(items.drop_last()) {
            Err(e) => Err(e),
            Ok(vs) => match spec_finish_read(items.last()) {
                Err(e) => Err(e),
                Ok(v) => Ok(vs.push(v)),
            },
        }
    }
}

/// What a whole batch call hands back: a submission failure is atomic
/// and yields no individual result; an accepted batch resolves its
/// elements in request order.
pub open spec fn spec_finish_batch(sub: BatchSubmission, items: Seq<CallOutcomeV>) -> Result<
    Seq<ValueV>,
    EthError,
> {
    match sub {
        BatchSubmission::TimedOut => Err(EthError::TimedOut),
        BatchSubmission::Rejected => Err(EthError::BatchSubmissionFailed),
        BatchSubmission::Accepted => spec_batch_items(items),
    }
}

/// An error among a prefix of the elements decides the whole batch.
proof fn lemma_batch_err_extends(items: Seq<CallOutcomeV>, i: int)
    requires
        0 <= i <= items.len(),
        spec_batch_items(items.subrange(0, i)) is Err,
    ensures
        spec_batch_items(items) == spec_batch_items(items.subrange(0, i)),
    decreases items.len() - i,
{
    if i == items.len() {
        assert(items.subrange(0, i) =~= items);
    } else {
        assert(items.subrange(0, i + 1).drop_last() =~= items.subrange(0, i));
        lemma_batch_err_extends(items, i + 1);
    }
}

/// Resolve a batch: the submission report first, then each element's
/// report in request order, stopping at the first failing element.
pub fn finish_batch(sub: BatchSubmission, items: &Vec<CallOutcome>) -> (r: Result<
    Vec<Value>,
    EthError,
>)
    ensures
        match r {
            Ok(vs) => spec_finish_batch(sub, outcomes_view(items@)) == Ok::<Seq<ValueV>, EthError>(
                crate::value::values_view(vs@),
            ),
            Err(e) => spec_finish_batch(sub, outcomes_view(items@)) == Err::<Seq<ValueV>, EthError>(
                e,
            ),
        },
{
    match sub {
        BatchSubmission::TimedOut => {
            return Err(EthError::TimedOut);
        },
        BatchSubmission::Rejected => {
            return Err(EthError::BatchSubmissionFailed);
        },
        BatchSubmission::Accepted => {},
    }
    let ghost ov = outcomes_view(items@);
    proof {
        lemma_outcomes_view(items@);
        assert(ov.subrange(0, 0) =~= Seq::<CallOutcomeV>::empty());
        crate::value::lemma_values_view(Seq::<Value>::empty());
    }
    let mut out: Vec<Value> = Vec::new();
    let mut i: usize = 0;
    proof {
        crate::value::lemma_values_view(out@);
        assert(crate::value::values_view(out@) =~= Seq::<ValueV>::empty());
    }
    while i < items.len()
        invariant
            0 <= i <= items@.len(),
            sub == BatchSubmission::Accepted,
            ov == outcomes_view(items@),
            ov.len() == items@.len(),
            forall|k: int| 0 <= k < items@.len() ==> ov[k] == (#[trigger] items@[k])@,
            spec_batch_items(ov.subrange(0, i as int)) == Ok::<Seq<ValueV>, EthError>(
                crate::value::values_view(out@),
            ),
            out@.len() == i,
        decreases items@.len() - i,
    {
        proof {
            assert(ov.subrange(0, i as int + 1).drop_last() =~= ov.subrange(0, i as int));
            assert(ov.subrange(0, i as int + 1).last() == ov[i as int]);
        }
        let mut slot = Value::Empty;
        match finish_read(&items[i], &mut slot) {
            Ok(()) => {},
            Err(e) => {
                proof {
                    lemma_batch_err_extends(ov, i + 1);
                }
                return Err(e);
            },
        }
        let ghost out0 = out@;
        out.push(slot);
        i = i + 1;
        proof {
            crate::value::lemma_values_view(out@);
            crate::value::lemma_values_view(out0);
            assert(out@.drop_last() =~= out0);
            assert(crate::value::values_view(out@) =~= crate::value::values_view(out0).push(
                value_view(out@.last()),
            ));
        }
    }
    proof {
        assert(ov.subrange(0, items@.len() as int) =~= ov);
    }
    Ok(out)
}

/// The shapes of a sequence of round-trip reports, in order.
pub open spec fn outcomes_view(os: Seq<CallOutcome>) -> Seq<CallOutcomeV>
    decreases os,
        via outcomes_view_decreases
{
    if os.len() == 0 {
        Seq::empty()
    } else {
        outcomes_view(os.drop_last()).push(os.last()@)
    }
}

#[via_fn]
proof fn outcomes_view_decreases(os: Seq<CallOutcome>) {
    if os.len() > 0 {
        vstd::seq::axiom_seq_index_decreases(os, os.len() - 1);
        vstd::seq::axiom_seq_subrange_decreases(os, 0, os.len() - 1);
    }
}

/// `outcomes_view` maps the sequence element by element.
pub proof fn lemma_outcomes_view(os: Seq<CallOutcome>)
    ensures
        outcomes_view(os).len() == os.len(),
        forall|i: int| 0 <= i < os.len() ==> outcomes_view(os)[i] == (#[trigger] os[i])@,
    decreases os.len(),
{
    if os.len() > 0 {
        lemma_outcomes_view(os.drop_last());
        assert forall|i: int| 0 <= i < os.len() implies outcomes_view(os)[i] == (
        #[trigger] os[i])@ by {
            if i < os.len() - 1 {
                assert(os.drop_last()[i] == os[i]);
                assert(outcomes_view(os)[i] == outcomes_view(os.drop_last())[i]);
            }
        }
    }
}

/// One of the two write-authentication modes: a private signing key
/// held only until the signature is made, or the 20-byte address of an
/// account the node itself has unlocked.
#[derive(Debug)]
pub enum Caller {
    /// A 32-byte private key; scrub it once the signature is made.
    SigningKey(Vec<u8>),
    /// The 20-byte address of an unlocked account on the node.
    ExternalAccount(Vec<u8>),
}

/// The shape of a write-authentication mode.
pub enum CallerV {
    SigningKey(Seq<u8>),
    ExternalAccount(Seq<u8>),
}

impl View for Caller {
    type V = CallerV;

    open spec fn view(&self) -> CallerV {
        match self {
            Caller::SigningKey(b) => CallerV::SigningKey(b@),
            Caller::ExternalAccount(b) => CallerV::ExternalAccount(b@),
        }
    }
}

/// Whether 32 bytes are a usable private key for the signing curve.
/// What the curve accepts is left unspecified; the trusted wrapper
/// below relates it to the outside implementation.
pub uninterp spec fn valid_secret_key(b: Seq<u8>) -> bool;

/// Relies on secp256k1::SecretKey::from_secret_bytes: accepts a 32-byte
/// key exactly when it is neither zero nor at or above the curve order;
/// deterministic in its bytes.
#[verifier::external_body]
fn check_secret_key(b: &Vec<u8>) -> (r: bool)
    requires
        b@.len() == 32,
    ensures
        r == valid_secret_key(b@),
{
    let data: [u8; 32] = b.as_slice().try_into().unwrap();
    secp256k1::SecretKey::from_secret_bytes(data).is_ok()
}

/// Relies on zeroize::Zeroize for Vec<u8>: zeroes the buffer, its spare
/// capacity included, and clears it.
#[verifier::external_body]
fn wipe_bytes(b: &mut Vec<u8>)
    ensures
        final(b)@.len() == 0,
{
    b.zeroize();
}

/// Relies on zeroize::Zeroize for String: zeroes the text's buffer and
/// clears it.
#[verifier::external_body]
fn wipe_string(s: &mut String)
    ensures
        final(s)@.len() == 0,
{
    s.zeroize();
}

/// The authentication mode a `From` text stands for: address text names
/// an unlocked external account; anything else must spell a 32-byte
/// private key in hexadecimal, with an optional `0x` prefix, that the
/// signing curve accepts.
pub open spec fn spec_resolve_caller(s: Seq<char>) -> Result<CallerV, EthError> {
    if valid_address_text(s) {
        Ok(CallerV::ExternalAccount(address_of_text(s)))
    } else {
        let d = crate::address::address_digits(s);
        if valid_hex_pairs(d) && d.len() == 64 && valid_secret_key(hex_pair_bytes(d)) {
            Ok(CallerV::SigningKey(hex_pair_bytes(d)))
        } else {
            Err(EthError::InvalidAddress)
        }
    }
}

/// Resolve the `From` text of a write into its authentication mode.
/// The text is consumed and scrubbed before the call returns; a key
/// that the curve rejects is scrubbed too.
pub fn resolve_caller(from: String) -> (r: Result<Caller, EthError>)
    ensures
        match r {
            Ok(c) => spec_resolve_caller(from@) == Ok::<CallerV, EthError>(c@),
            Err(e) => spec_resolve_caller(from@) == Err::<CallerV, EthError>(e),
        },
{
    let mut text = from;
    let r = match parse_address(text.as_str()) {
        Ok(a) => Ok(Caller::ExternalAccount(a)),
        Err(_) => {
            let stripped = strip_hex_prefix(text.as_str());
            match bytes_from_hex(stripped) {
                Some(k) => {
                    let mut key = k;
                    if key.len() != 32 {
                        wipe_bytes(&mut key);
                        Err(EthError::InvalidAddress)
                    } else if check_secret_key(&key) {
                        Ok(Caller::SigningKey(key))
                    } else {
                        wipe_bytes(&mut key);
                        Err(EthError::InvalidAddress)
                    }
                },
                None => Err(EthError::InvalidAddress),
            }
        },
    };
    wipe_string(&mut text);
    r
}

/// Scrub a signing key's bytes; an external account is left alone.
pub fn scrub_caller(c: &mut Caller)
    ensures
        old(c) matches Caller::SigningKey(_) ==> (*final(c) matches Caller::SigningKey(b)
            && b@.len() == 0),
        old(c) matches Caller::ExternalAccount(_) ==> *final(c) == *old(c),
{
    match c {
        Caller::SigningKey(b) => wipe_bytes(b),
        Caller::ExternalAccount(_) => {},
    }
}

/// A confirmation-gated write, assembled and ready to be issued.
#[derive(Debug)]
pub struct WriteCall {
    /// The encoded arguments.
    pub tokens: Vec<Token>,
    /// The per-call overrides.
    pub options: CallOptions,
}

/// The shape of an assembled write.
pub struct WriteCallV {
    pub tokens: Seq<TokenV>,
    pub options: CallOptionsV,
}

impl View for WriteCall {
    type V = WriteCallV;

    open spec fn view(&self) -> WriteCallV {
        WriteCallV { tokens: tokens_view(self.tokens@), options: self.options@ }
    }
}

/// Assembling a write: arguments first, then the options.
pub open spec fn spec_prepare_write(args: ValueV, types: Seq<Seq<char>>, options: ValueV) -> Result<
    WriteCallV,
    EthError,
> {
    match spec_var_to_tokens(args, types) {
        Err(e) => Err(e),
        Ok(toks) => match spec_call_options(options) {
            Err(e) => Err(e),
            Ok(o) => Ok(WriteCallV { tokens: toks, options: o }),
        },
    }
}

/// Assemble a confirmation-gated write from the host's dynamic values.
pub fn prepare_write(args: &Value, input_types: &Vec<String>, options: &Value) -> (r: Result<
    WriteCall,
    EthError,
>)
    ensures
        match r {
            Ok(c) => spec_prepare_write(
                value_view(*args),
                input_types.deep_view(),
                value_view(*options),
            ) == Ok::<WriteCallV, EthError>(c@),
            Err(e) => spec_prepare_write(
                value_view(*args),
                input_types.deep_view(),
                value_view(*options),
            ) == Err::<WriteCallV, EthError>(e),
        },
{
    let tokens = match var_to_tokens(args, input_types) {
        Ok(t) => t,
        Err(e) => {
            return Err(e);
        },
    };
    let o = match parse_call_options(options) {
        Ok(o) => o,
        Err(e) => {
            return Err(e);
        },
    };
    Ok(WriteCall { tokens, options: o })
}

/// What the confirmation wait of a write reported. There is no timeout
/// variant: a write may legitimately wait arbitrarily long.
pub enum WriteOutcome {
    /// The transport or the node reported a failure.
    Failed,
    /// The transaction accumulated its confirmations.
    Confirmed(Receipt),
}

/// Classify a write's report: a failure is surfaced, a confirmed
/// transaction becomes its receipt table.
pub fn finish_write(outcome: &WriteOutcome) -> (r: Result<Value, EthError>)
    requires
        outcome matches WriteOutcome::Confirmed(rc) ==> rc.wf(),
    ensures
        outcome matches WriteOutcome::Failed ==> r == Err::<Value, EthError>(EthError::RpcFailure),
        outcome matches WriteOutcome::Confirmed(rc) ==> r matches Ok(v) && value_view(v)
            == ValueV::Table(rc.entries()),
{
    match outcome {
        WriteOutcome::Failed => Err(EthError::RpcFailure),
        WriteOutcome::Confirmed(rc) => Ok(rc.to_var()),
    }
}

/// A gas estimation, assembled and ready for its round-trip. Unlike a
/// read, an estimation demands a caller address.
#[derive(Debug)]
pub struct EstimateCall {
    /// The encoded arguments.
    pub tokens: Vec<Token>,
    /// The mandatory 20-byte caller address.
    pub from: Vec<u8>,
}

/// The shape of an assembled estimation.
pub struct EstimateCallV {
    pub tokens: Seq<TokenV>,
    pub from: Seq<u8>,
}

impl View for EstimateCall {
    type V = EstimateCallV;

    open spec fn view(&self) -> EstimateCallV {
        EstimateCallV { tokens: tokens_view(self.tokens@), from: self.from@ }
    }
}

/// The mandatory caller address of an estimation: non-empty address
/// text, and nothing else.
pub open spec fn spec_mandatory_from(v: ValueV) -> Result<Seq<u8>, EthError> {
    match v {
        ValueV::Str(s) => if s.len() > 0 && valid_address_text(s) {
            Ok(address_of_text(s))
        } else {
            Err(EthError::InvalidAddress)
        },
        _ => Err(EthError::InvalidAddress),
    }
}

/// Assembling an estimation: arguments first, then the mandatory
/// caller address.
pub open spec fn spec_prepare_estimate(args: ValueV, types: Seq<Seq<char>>, from: ValueV) -> Result<
    EstimateCallV,
    EthError,
> {
    match spec_var_to_tokens(args, types) {
        Err(e) => Err(e),
        Ok(toks) => match spec_mandatory_from(from) {
            Err(e) => Err(e),
            Ok(f) => Ok(EstimateCallV { tokens: toks, from: f }),
        },
    }
}

/// Assemble a gas estimation from the host's dynamic values.
pub fn prepare_estimate(args: &Value, input_types: &Vec<String>, from: &Value) -> (r: Result<
    EstimateCall,
    EthError,
>)
    ensures
        match r {
            Ok(c) => spec_prepare_estimate(
                value_view(*args),
                input_types.deep_view(),
                value_view(*from),
            ) == Ok::<EstimateCallV, EthError>(c@),
            Err(e) => spec_prepare_estimate(
                value_view(*args),
                input_types.deep_view(),
                value_view(*from),
            ) == Err::<EstimateCallV, EthError>(e),
        },
{
    let tokens = match var_to_tokens(args, input_types) {
        Ok(t) => t,
        Err(e) => {
            return Err(e);
        },
    };
    let f = match from {
        Value::Str(s) => {
            if s.as_str().unicode_len() == 0 {
                return Err(EthError::InvalidAddress);
            }
            match parse_address(s.as_str()) {
                Ok(a) => a,
                Err(e) => {
                    return Err(e);
                },
            }
        },
        _ => {
            return Err(EthError::InvalidAddress);
        },
    };
    Ok(EstimateCall { tokens, from: f })
}

/// What a round-trip returning one byte buffer reported.
pub enum BytesOutcome {
    /// The timeout expired before the call resolved.
    TimedOut,
    /// The transport or the node reported a failure.
    Failed,
    /// The buffer the call resolved into.
    Value(Vec<u8>),
}

/// Classify a round-trip whose result is one byte buffer — a gas
/// estimate, a gas price, a storage word, a submitted transaction's
/// hash — into the buffer value handed to the host.
pub fn finish_bytes_call(outcome: BytesOutcome) -> (r: Result<Value, EthError>)
    ensures
        outcome matches BytesOutcome::TimedOut ==> r == Err::<Value, EthError>(EthError::TimedOut),
        outcome matches BytesOutcome::Failed ==> r == Err::<Value, EthError>(EthError::RpcFailure),
        outcome matches BytesOutcome::Value(b) ==> r matches Ok(v) && value_view(v)
            == ValueV::Bytes(b@),
{
    match outcome {
        BytesOutcome::TimedOut => Err(EthError::TimedOut),
        BytesOutcome::Failed => Err(EthError::RpcFailure),
        BytesOutcome::Value(b) => Ok(Value::Bytes(b)),
    }
}

/// What a round-trip returning one unsigned integer reported.
pub enum U64Outcome {
    /// The timeout expired before the call resolved.
    TimedOut,
    /// The transport or the node reported a failure.
    Failed,
    /// The integer the call resolved into.
    Value(u64),
}

/// Classify a round-trip whose result is one unsigned integer — the
/// current block number — into the host's signed integer scalar; a
/// value beyond that scalar's range is a conversion failure.
pub fn finish_u64_call(outcome: U64Outcome) -> (r: Result<Value, EthError>)
    ensures
        outcome matches U64Outcome::TimedOut ==> r == Err::<Value, EthError>(EthError::TimedOut),
        outcome matches U64Outcome::Failed ==> r == Err::<Value, EthError>(EthError::RpcFailure),
        outcome matches U64Outcome::Value(n) ==> if n <= i64::MAX {
            r matches Ok(v) && value_view(v) == ValueV::Int(n as i64)
        } else {
            r == Err::<Value, EthError>(EthError::TypeMismatch)
        },
{
    match outcome {
        U64Outcome::TimedOut => Err(EthError::TimedOut),
        U64Outcome::Failed => Err(EthError::RpcFailure),
        U64Outcome::Value(n) => {
            if n <= i64::MAX as u64 {
                Ok(Value::Int(n as i64))
            } else {
                Err(EthError::TypeMismatch)
            }
        },
    }
}

/// What an account-unlock round-trip reported.
pub enum UnlockOutcome {
    /// The timeout expired before the call resolved.
    TimedOut,
    /// The transport or the node reported a failure.
    Failed,
    /// The node answered whether the account is now unlocked.
    Done(bool),
}

/// Classify an unlock report: only an affirmative node answer counts.
pub fn finish_unlock(outcome: UnlockOutcome) -> (r: Result<(), EthError>)
    ensures
        outcome matches UnlockOutcome::TimedOut ==> r == Err::<(), EthError>(EthError::TimedOut),
        outcome matches UnlockOutcome::Failed ==> r == Err::<(), EthError>(EthError::RpcFailure),
        outcome matches UnlockOutcome::Done(okay) ==> if okay {
            r is Ok
        } else {
            r == Err::<(), EthError>(EthError::RpcFailure)
        },
{
    match outcome {
        UnlockOutcome::TimedOut => Err(EthError::TimedOut),
        UnlockOutcome::Failed => Err(EthError::RpcFailure),
        UnlockOutcome::Done(okay) => if okay {
            Ok(())
        } else {
            Err(EthError::RpcFailure)
        },
    }
}

/// A log subscription's filter: one contract address and the event's
/// first topic.
#[derive(Debug)]
pub struct LogFilter {
    /// The 20-byte contract address.
    pub address: Vec<u8>,
    /// The 32-byte event-signature digest, topic zero.
    pub topic0: Vec<u8>,
}

/// Gate a log subscription on the connection's transport: only a
/// streaming connection can carry one.
pub fn subscription_filter(conn: &Connection, contract_address: &Vec<u8>, event_hash: &Vec<u8>) -> (
    r: Result<LogFilter, EthError>)
    ensures
        conn.state == crate::handle::ConnState::Ready(crate::handle::TransportKind::Streaming)
            ==> (r matches Ok(f) && f.address@ == contract_address@ && f.topic0@ == event_hash@),
        conn.state != crate::handle::ConnState::Ready(crate::handle::TransportKind::Streaming)
            ==> r == Err::<LogFilter, EthError>(EthError::UnsupportedTransport),
{
    if conn.is_streaming() {
        Ok(
            LogFilter {
                address: crate::value::copy_bytes(contract_address),
                topic0: crate::value::copy_bytes(event_hash),
            },
        )
    } else {
        Err(EthError::UnsupportedTransport)
    }
}

/// What one iteration of the event-poll loop observed.
pub enum PollEvent {
    /// The short per-iteration timeout expired: no event yet.
    NoEventYet,
    /// A log arrived.
    Item(LogRecord),
    /// The subscription reported a failed item.
    ItemFailed,
    /// The subscription stream ended.
    StreamEnded,
}

/// What the poll loop does next.
pub enum PollDecision {
    /// Cancellation was observed: stop quietly, with no event and no
    /// error.
    Stop,
    /// Hand this log's table to the host.
    Deliver(Value),
    /// No event yet: poll again.
    KeepWaiting,
    /// Surface a subscription failure.
    Abort(EthError),
}

/// Decide one iteration of the event-poll loop. Cancellation is checked
/// first and wins over everything, even an arrived event; a
/// per-iteration timeout means only that no event arrived yet.
pub fn poll_step(cancelled: bool, event: &PollEvent) -> (r: PollDecision)
    requires
        event matches PollEvent::Item(log) ==> log.wf(),
    ensures
        cancelled ==> r matches PollDecision::Stop,
        !cancelled ==> match event {
            PollEvent::NoEventYet => r matches PollDecision::KeepWaiting,
            PollEvent::Item(log) => r matches PollDecision::Deliver(v) && value_view(v)
                == ValueV::Table(log.entries()),
            PollEvent::ItemFailed => r matches PollDecision::Abort(e) && e
                == EthError::RpcFailure,
            PollEvent::StreamEnded => r matches PollDecision::Abort(e) && e
                == EthError::RpcFailure,
        },
{
    if cancelled {
        return PollDecision::Stop;
    }
    match event {
        PollEvent::NoEventYet => PollDecision::KeepWaiting,
        PollEvent::Item(log) => PollDecision::Deliver(log.to_var()),
        PollEvent::ItemFailed => PollDecision::Abort(EthError::RpcFailure),
        PollEvent::StreamEnded => PollDecision::Abort(EthError::RpcFailure),
    }
}

/// A batch whose elements all resolve and decode: the results come
/// back in request order, one per element.
pub proof fn lemma_batch_order(items: Seq<CallOutcomeV>)
    requires
        forall|i: int| 0 <= i < items.len() ==> spec_finish_read(#[trigger] items[i]) is Ok,
    ensures
        spec_finish_batch(BatchSubmission::Accepted, items) matches Ok(vs) && vs.len()
            == items.len() && forall|i: int|
            0 <= i < items.len() ==> vs[i] == spec_finish_read(#[trigger] items[i])->Ok_0,
    decreases items.len(),
{
    if items.len() > 0 {
        assert forall|i: int| 0 <= i < items.drop_last().len() implies spec_finish_read(
            #[trigger] items.drop_last()[i],
        ) is Ok by {
            assert(items.drop_last()[i] == items[i]);
        }
        lemma_batch_order(items.drop_last());
        assert forall|i: int|
            0 <= i < items.len() implies spec_batch_items(items)->Ok_0[i] == spec_finish_read(
            #[trigger] items[i],
        )->Ok_0 by {
            if i < items.len() - 1 {
                assert(items.drop_last()[i] == items[i]);
                assert(spec_batch_items(items)->Ok_0[i] == spec_batch_items(items.drop_last())
                    ->Ok_0[i]);
            }
        }
    }
}

/// The batch failure law, element half: with every element before
/// position `k` resolving and decoding, and the element at `k`
/// reporting a failure, the whole batch surfaces that element's error
/// and nothing after `k` contributes.
pub proof fn lemma_batch_first_failure(items: Seq<CallOutcomeV>, k: int)
    requires
        0 <= k < items.len(),
        forall|i: int| 0 <= i < k ==> spec_finish_read(#[trigger] items[i]) is Ok,
        spec_finish_read(items[k]) is Err,
    ensures
        spec_finish_batch(BatchSubmission::Accepted, items) == Err::<Seq<ValueV>, EthError>(
            spec_finish_read(items[k])->Err_0,
        ),
{
    assert forall|i: int| 0 <= i < items.subrange(0, k).len() implies spec_finish_read(
        #[trigger] items.subrange(0, k)[i],
    ) is Ok by {
        assert(items.subrange(0, k)[i] == items[i]);
    }
    lemma_batch_order_sub(items, k);
    assert(items.subrange(0, k + 1).drop_last() =~= items.subrange(0, k));
    assert(items.subrange(0, k + 1).last() == items[k]);
    lemma_batch_err_extends(items, k + 1);
}

/// A resolving, decoding prefix of the elements yields results so far.
proof fn lemma_batch_order_sub(items: Seq<CallOutcomeV>, k: int)
    requires
        0 <= k <= items.len(),
        forall|i: int| 0 <= i < k ==> spec_finish_read(#[trigger] items[i]) is Ok,
    ensures
        spec_batch_items(items.subrange(0, k)) is Ok,
{
    assert forall|i: int| 0 <= i < items.subrange(0, k).len() implies spec_finish_read(
        #[trigger] items.subrange(0, k)[i],
    ) is Ok by {
        assert(items.subrange(0, k)[i] == items[i]);
    }
    lemma_batch_order(items.subrange(0, k));
}

/// The batch failure law, submission half: a rejected or timed-out
/// submission fails the batch atomically, before any element resolves.
pub proof fn lemma_batch_submission_failure(items: Seq<CallOutcomeV>)
    ensures
        spec_finish_batch(BatchSubmission::Rejected, items) == Err::<Seq<ValueV>, EthError>(
            EthError::BatchSubmissionFailed,
        ),
        spec_finish_batch(BatchSubmission::TimedOut, items) == Err::<Seq<ValueV>, EthError>(
            EthError::TimedOut,
        ),
{
}

} // verus!
