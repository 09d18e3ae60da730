//! The shared connection and bound-contract lifecycle.
//!
//! A connection goes `Uninitialized -> Connecting -> Ready` once, trying
//! a streaming transport first and falling back to plain
//! request/response; both attempts failing is terminal, and a retry
//! needs a new handle. A contract binding is keyed by the configured
//! address: a call site that finds the configured address unchanged
//! keeps the bound snapshot, and anything else rebuilds it from scratch.
//! A failed rebuild leaves no binding behind.

use vstd::prelude::*;

use crate::address::get_address;
use crate::address::spec_address_of;
use crate::error::EthError;
use crate::value::value_view;
use crate::value::Value;
use crate::value::ValueV;

verus! {

/// The transports a connection can end up on.
#[derive(Clone, Copy, Debug, PartialEq, Eq, Structural)]
pub enum TransportKind {
    /// A streaming, subscribable transport.
    Streaming,
    /// A plain request/response transport.
    Request,
}

/// The lifecycle states of a connection handle.
#[derive(Clone, Copy, Debug, PartialEq, Eq, Structural)]
pub enum ConnState {
    /// Created, not yet connecting.
    Uninitialized,
    /// Connection attempts in flight.
    Connecting,
    /// Connected, on the given transport; terminal for this handle.
    Ready(TransportKind),
    /// Both attempts failed; terminal, a retry needs a new handle.
    Failed,
}

/// One connection to a node: the state machine the call sites share.
/// The transports themselves live outside; the handle records which
/// attempt outcome they reported.
pub struct Connection {
    /// Where the handle stands in its lifecycle.
    pub state: ConnState,
}

/// The state a finished connection attempt ends in: the streaming
/// transport is preferred, the request transport is the fallback, and
/// with neither the handle fails.
pub open spec fn spec_connect_outcome(streaming_ok: bool, request_ok: bool) -> ConnState {
    if streaming_ok {
        ConnState::Ready(TransportKind::Streaming)
    } else if request_ok {
        ConnState::Ready(TransportKind::Request)
    } else {
        ConnState::Failed
    }
}

impl Connection {
    /// A fresh handle, not yet connecting.
    pub fn new() -> (r: Connection)
        ensures
            r.state == ConnState::Uninitialized,
    {
        Connection { state: ConnState::Uninitialized }
    }

    /// Start connecting. Only a fresh handle can.
    pub fn begin_connect(&mut self)
        requires
            old(self).state == ConnState::Uninitialized,
        ensures
            final(self).state == ConnState::Connecting,
    {
        self.state = ConnState::Connecting;
    }

    /// Record the outcome of the two transport attempts, streaming
    /// first. The state this ends in is terminal either way.
    pub fn complete_connect(&mut self, streaming_ok: bool, request_ok: bool)
        requires
            old(self).state == ConnState::Connecting,
        ensures
            final(self).state == spec_connect_outcome(streaming_ok, request_ok),
    {
        if streaming_ok {
            self.state = ConnState::Ready(TransportKind::Streaming);
        } else if request_ok {
            self.state = ConnState::Ready(TransportKind::Request);
        } else {
            self.state = ConnState::Failed;
        }
    }

    /// Whether the handle is ready to carry calls.
    pub fn is_ready(&self) -> (r: bool)
        ensures
            r <==> self.state matches ConnState::Ready(_),
    {
        matches!(self.state, ConnState::Ready(_))
    }

    /// Whether the handle is ready on a streaming transport, as the
    /// event-subscription path needs.
    pub fn is_streaming(&self) -> (r: bool)
        ensures
            r <==> self.state == ConnState::Ready(TransportKind::Streaming),
    {
        matches!(self.state, ConnState::Ready(TransportKind::Streaming))
    }
}

/// One contract bound to one address: the snapshot every call site
/// shares until the configured address changes.
pub struct BoundContract {
    /// The 20-byte address the contract was bound at.
    pub address: Vec<u8>,
    /// The parsed interface document the binding was built from.
    pub abi: Value,
    /// Which rebuild produced this snapshot; a fresh build bumps it.
    pub generation: u64,
}

/// What a rebinding call did.
#[derive(Clone, Copy, Debug, PartialEq, Eq, Structural)]
pub enum Rebind {
    /// The configured address matched the bound one: same snapshot.
    Kept,
    /// A new snapshot was built at the configured address.
    Rebuilt,
}

/// The one mutable holder of a contract binding. Every call site
/// compares the currently configured address against the bound one and
/// rebuilds on any mismatch, including first use.
pub struct ContractBinder {
    /// The current snapshot, if one is bound.
    pub bound: Option<BoundContract>,
    /// How many rebuilds have happened.
    pub generation: u64,
}

/// Whether a parsed interface document can back a binding: a non-empty
/// array of entries.
pub open spec fn spec_abi_usable(doc: ValueV) -> bool {
    doc matches ValueV::List(es) && es.len() > 0
}

/// Whether the binder currently holds a snapshot at the address the
/// configured value stands for.
pub open spec fn spec_bound_at(b: ContractBinder, configured: ValueV) -> bool {
    b.bound matches Some(c) && spec_address_of(configured) == Option::Some(c.address@)
}

/// What one rebinding call does: `pre` and `post` are the binder before
/// and after, and `r` is what the call reported.
pub open spec fn spec_rebind(
    pre: ContractBinder,
    post: ContractBinder,
    configured: ValueV,
    abi: ValueV,
    conn_ready: bool,
    r: Result<Rebind, EthError>,
) -> bool {
    if spec_bound_at(pre, configured) {
        r == Ok::<Rebind, EthError>(Rebind::Kept) && post == pre
    } else if spec_address_of(configured) is None {
        r == Err::<Rebind, EthError>(EthError::InvalidAddress) && post.bound is None
    } else if !spec_abi_usable(abi) {
        r == Err::<Rebind, EthError>(EthError::InvalidAbi) && post.bound is None
    } else if !conn_ready {
        r == Err::<Rebind, EthError>(EthError::RpcFailure) && post.bound is None
    } else {
        &&& r == Ok::<Rebind, EthError>(Rebind::Rebuilt)
        &&& post.bound matches Some(c) && Option::Some(c.address@) == spec_address_of(configured)
            && value_view(c.abi) == abi && c.generation == pre.generation + 1
        &&& post.generation == pre.generation + 1
    }
}

impl ContractBinder {
    /// A binder with nothing bound.
    pub fn new() -> (r: ContractBinder)
        ensures
            r.bound is None,
            r.generation == 0,
    {
        ContractBinder { bound: None, generation: 0 }
    }

    /// Bind, or rebind, against the currently configured address.
    ///
    /// A binder already bound at the configured address keeps its
    /// snapshot untouched. Otherwise a new snapshot is built, which
    /// needs a valid address (`InvalidAddress`), a usable non-empty
    /// interface document (`InvalidAbi`), and a ready connection
    /// (`RpcFailure`); any failure leaves the binder unbound.
    pub fn rebind(&mut self, configured: &Value, abi: &Value, conn: &Connection) -> (r: Result<
        Rebind,
        EthError,
    >)
        requires
            old(self).generation < u64::MAX,
        ensures
            spec_rebind(
                *old(self),
                *final(self),
                value_view(*configured),
                value_view(*abi),
                conn.state matches ConnState::Ready(_),
                r,
            ),
    {
        let same = match &self.bound {
            Some(c) => match get_address(configured) {
                Ok(a) => bytes_eq(&a, &c.address),
                Err(_) => false,
            },
            None => false,
        };
        if same {
            return Ok(Rebind::Kept);
        }
        self.bound = None;
        let address = match get_address(configured) {
            Ok(a) => a,
            Err(e) => {
                return Err(e);
            },
        };
        let usable = match abi {
            Value::List(es) => es.len() > 0,
            _ => false,
        };
        if !usable {
            return Err(EthError::InvalidAbi);
        }
        if !conn.is_ready() {
            return Err(EthError::RpcFailure);
        }
        self.generation = self.generation + 1;
        self.bound = Some(
            BoundContract { address, abi: clone_value(abi), generation: self.generation },
        );
        Ok(Rebind::Rebuilt)
    }
}

/// Byte-buffer equality.
pub fn bytes_eq(a: &Vec<u8>, b: &Vec<u8>) -> (r: bool)
    ensures
        r <==> a@ == b@,
{
    if a.len() != b.len() {
        proof {
            assert(a@.len() != b@.len());
        }
        return false;
    }
    let mut i: usize = 0;
    while i < a.len()
        invariant
            0 <= i <= a@.len(),
            a@.len() == b@.len(),
            forall|k: int| 0 <= k < i ==> a@[k] == b@[k],
        decreases a@.len() - i,
    {
        if a[i] != b[i] {
            return false;
        }
        i = i + 1;
    }
    proof {
        assert(a@ =~= b@);
    }
    true
}

/// A structural copy of a dynamic value.
pub fn clone_value(v: &Value) -> (r: Value)
    ensures
        value_view(r) == value_view(*v),
    decreases *v,
{
    match v {
        Value::Empty => Value::Empty,
        Value::Str(s) => Value::Str(s.clone()),
        Value::Bool(b) => Value::Bool(*b),
        Value::Int(i) => Value::Int(*i),
        Value::Bytes(b) => Value::Bytes(crate::value::copy_bytes(b)),
        Value::List(vs) => {
            proof {
                vstd::std_specs::vec::axiom_vec_decreases_to_view(*vs);
            }
            Value::List(clone_values(vs))
        },
        Value::Table(es) => {
            proof {
                vstd::std_specs::vec::axiom_vec_decreases_to_view(*es);
            }
            Value::Table(clone_entries(es))
        },
    }
}

/// A structural copy of a sequence of dynamic values.
fn clone_values(vs: &Vec<Value>) -> (r: Vec<Value>)
    ensures
        crate::value::values_view(r@) == crate::value::values_view(vs@),
    decreases vs@,
{
    let ghost vv = crate::value::values_view(vs@);
    proof {
        crate::value::lemma_values_view(vs@);
        assert(vv.subrange(0, 0) =~= Seq::<ValueV>::empty());
    }
    let mut out: Vec<Value> = Vec::new();
    let mut i: usize = 0;
    while i < vs.len()
        invariant
            0 <= i <= vs@.len(),
            vv == crate::value::values_view(vs@),
            vv.len() == vs@.len(),
            forall|k: int| 0 <= k < vs@.len() ==> vv[k] == value_view(#[trigger] vs@[k]),
            crate::value::values_view(out@) == vv.subrange(0, i as int),
            out@.len() == i,
        decreases vs@.len() - i,
    {
        proof {
            vstd::seq::axiom_seq_index_decreases(vs@, i as int);
            assert(vv.subrange(0, i as int + 1).drop_last() =~= vv.subrange(0, i as int));
        }
        let c = clone_value(&vs[i]);
        let ghost out0 = out@;
        out.push(c);
        i = i + 1;
        proof {
            crate::value::lemma_values_view(out@);
            crate::value::lemma_values_view(out0);
            assert(out@.drop_last() =~= out0);
            assert(crate::value::values_view(out@) =~= vv.subrange(0, i as int));
        }
    }
    proof {
        assert(vv.subrange(0, vs@.len() as int) =~= vv);
    }
    out
}

/// A structural copy of a table's entries.
fn clone_entries(es: &Vec<(String, Value)>) -> (r: Vec<(String, Value)>)
    ensures
        crate::value::entries_view(r@) == crate::value::entries_view(es@),
    decreases es@,
{
    let ghost ev = crate::value::entries_view(es@);
    proof {
        crate::value::lemma_entries_view(es@);
        assert(ev.subrange(0, 0) =~= Seq::<(Seq<char>, ValueV)>::empty());
    }
    let mut out: Vec<(String, Value)> = Vec::new();
    let mut i: usize = 0;
    while i < es.len()
        invariant
            0 <= i <= es@.len(),
            ev == crate::value::entries_view(es@),
            ev.len() == es@.len(),
            forall|k: int| 0 <= k < es@.len() ==> ev[k] == ((#[trigger] es@[k]).0@, value_view(
                es@[k].1,
            )),
            crate::value::entries_view(out@) == ev.subrange(0, i as int),
            out@.len() == i,
        decreases es@.len() - i,
    {
        proof {
            vstd::seq::axiom_seq_index_decreases(es@, i as int);
            assert(ev.subrange(0, i as int + 1).drop_last() =~= ev.subrange(0, i as int));
        }
        let k = es[i].0.clone();
        let c = clone_value(&es[i].1);
        let ghost out0 = out@;
        out.push((k, c));
        i = i + 1;
        proof {
            crate::value::lemma_entries_view(out@);
            crate::value::lemma_entries_view(out0);
            assert(out@.drop_last() =~= out0);
            assert(crate::value::entries_view(out@) =~= ev.subrange(0, i as int));
        }
    }
    proof {
        assert(ev.subrange(0, es@.len() as int) =~= ev);
    }
    out
}

/// The rebinding law, identity half: a binder bound at address A that
/// is queried with A again keeps the very same snapshot — same
/// generation, nothing rebuilt.
pub proof fn lemma_rebind_same_address(
    pre: ContractBinder,
    post: ContractBinder,
    configured: ValueV,
    abi: ValueV,
    conn_ready: bool,
    r: Result<Rebind, EthError>,
)
    requires
        spec_rebind(pre, post, configured, abi, conn_ready, r),
        spec_bound_at(pre, configured),
    ensures
        r == Ok::<Rebind, EthError>(Rebind::Kept),
        post == pre,
{
}

/// The rebinding law, rebuild half: a binder queried with an address it
/// is not bound at — a different address, or nothing bound yet — hands
/// back a newly built snapshot at that address, with a fresh
/// generation, provided the address is valid, the document usable and
/// the connection ready.
pub proof fn lemma_rebind_new_address(
    pre: ContractBinder,
    post: ContractBinder,
    configured: ValueV,
    abi: ValueV,
    r: Result<Rebind, EthError>,
)
    requires
        spec_rebind(pre, post, configured, abi, true, r),
        !spec_bound_at(pre, configured),
        spec_address_of(configured) is Some,
        spec_abi_usable(abi),
    ensures
        r == Ok::<Rebind, EthError>(Rebind::Rebuilt),
        post.bound matches Some(c) && Option::Some(c.address@) == spec_address_of(configured)
            && c.generation == pre.generation + 1,
{
}

} // verus!
