//! The records a node reports back — receipts, logs, transactions,
//! blocks — and their canonical dynamic-value form: a table holding the
//! mandatory fields first and each optional field exactly when the node
//! reported it, every hash and integer in its fixed-width byte form.

use vstd::prelude::*;

use crate::value::entries_view;
use crate::value::lemma_values_view;
use crate::value::value_view;
use crate::value::values_view;
use crate::value::Value;
use crate::value::ValueV;

verus! {

/// Append one keyed value to a table under construction.
fn push_entry(es: &mut Vec<(String, Value)>, key: &str, v: Value)
    ensures
        entries_view(final(es)@) == entries_view(old(es)@).push((key@, value_view(v))),
{
    let ghost pre = es@;
    let ghost vv = value_view(v);
    es.push((String::from_str(key), v));
    proof {
        assert(es@.drop_last() =~= pre);
        assert(entries_view(es@) =~= entries_view(pre).push((key@, vv)));
    }
}

/// A sequence value holding one byte buffer per element.
pub open spec fn bytes_list_view(bs: Seq<Seq<u8>>) -> Seq<ValueV> {
    Seq::new(bs.len(), |i: int| ValueV::Bytes(bs[i]))
}

/// Turn a list of byte buffers into a sequence value of buffers.
pub fn bytes_list_to_var(bs: &Vec<Vec<u8>>) -> (r: Value)
    ensures
        value_view(r) == ValueV::List(bytes_list_view(bs.deep_view())),
{
    let mut out: Vec<Value> = Vec::new();
    let mut i: usize = 0;
    proof {
        lemma_values_view(out@);
    }
    while i < bs.len()
        invariant
            0 <= i <= bs@.len(),
            out@.len() == i,
            values_view(out@) =~= bytes_list_view(bs.deep_view().subrange(0, i as int)),
        decreases bs@.len() - i,
    {
        let ghost out0 = out@;
        out.push(Value::Bytes(crate::value::copy_bytes(&bs[i])));
        i = i + 1;
        proof {
            lemma_values_view(out@);
            lemma_values_view(out0);
            assert(out@.drop_last() =~= out0);
            assert(bs.deep_view()[i as int - 1] =~= bs@[i as int - 1]@);
            assert(values_view(out@) =~= bytes_list_view(bs.deep_view().subrange(0, i as int)));
        }
    }
    proof {
        assert(bs.deep_view().subrange(0, bs@.len() as int) =~= bs.deep_view());
    }
    Value::List(out)
}

/// A transaction receipt, as the write path reports it after the asked
/// confirmations have accumulated.
pub struct Receipt {
    /// The 32-byte transaction hash.
    pub transaction_hash: Vec<u8>,
    /// The transaction's index inside its block.
    pub transaction_index: u64,
    /// The 32-byte hash of the containing block, once mined.
    pub block_hash: Option<Vec<u8>>,
    /// The containing block's number, once mined.
    pub block_number: Option<u64>,
    /// Gas used, as a 32-byte big-endian integer.
    pub gas_used: Option<Vec<u8>>,
    /// The status code the node reported.
    pub status: Option<u64>,
}

impl Receipt {
    /// Fixed widths, and integers small enough for the host's signed
    /// 64-bit scalars.
    pub open spec fn wf(self) -> bool {
        &&& self.transaction_hash@.len() == 32
        &&& self.transaction_index <= i64::MAX
        &&& self.block_hash matches Some(b) ==> b@.len() == 32
        &&& self.block_number matches Some(n) ==> n <= i64::MAX
        &&& self.gas_used matches Some(b) ==> b@.len() == 32
        &&& self.status matches Some(n) ==> n <= i64::MAX
    }

    /// The receipt's canonical table entries, in reporting order.
    pub open spec fn entries(self) -> Seq<(Seq<char>, ValueV)> {
        let base = seq![
            ("transaction_hash"@, ValueV::Bytes(self.transaction_hash@)),
            ("transaction_index"@, ValueV::Int(self.transaction_index as i64)),
        ];
        let e1 = match self.block_hash {
            Option::Some(b) => base.push(("block_hash"@, ValueV::Bytes(b@))),
            Option::None => base,
        };
        let e2 = match self.block_number {
            Option::Some(n) => e1.push(("block_number"@, ValueV::Int(n as i64))),
            Option::None => e1,
        };
        let e3 = match self.gas_used {
            Option::Some(b) => e2.push(("gas_used"@, ValueV::Bytes(b@))),
            Option::None => e2,
        };
        match self.status {
            Option::Some(n) => e3.push(("status"@, ValueV::Int(n as i64))),
            Option::None => e3,
        }
    }

    /// The receipt as the table value handed back to the host.
    pub fn to_var(&self) -> (r: Value)
        requires
            self.wf(),
        ensures
            value_view(r) == ValueV::Table(self.entries()),
    {
        let mut es: Vec<(String, Value)> = Vec::new();
        proof {
            assert(entries_view(es@) =~= Seq::<(Seq<char>, ValueV)>::empty());
        }
        push_entry(&mut es, "transaction_hash", Value::Bytes(crate::value::copy_bytes(
            &self.transaction_hash,
        )));
        push_entry(&mut es, "transaction_index", Value::Int(self.transaction_index as i64));
        match &self.block_hash {
            Some(b) => push_entry(&mut es, "block_hash", Value::Bytes(crate::value::copy_bytes(b))),
            None => {},
        }
        match self.block_number {
            Some(n) => push_entry(&mut es, "block_number", Value::Int(n as i64)),
            None => {},
        }
        match &self.gas_used {
            Some(b) => push_entry(&mut es, "gas_used", Value::Bytes(crate::value::copy_bytes(b))),
            None => {},
        }
        match self.status {
            Some(n) => push_entry(&mut es, "status", Value::Int(n as i64)),
            None => {},
        }
        proof {
            assert(entries_view(es@) =~= self.entries());
        }
        Value::Table(es)
    }
}

/// One event log, as the wait-for-event path hands it back.
pub struct LogRecord {
    /// The log's data buffer.
    pub data: Vec<u8>,
    /// The ordered 32-byte topic buffers.
    pub topics: Vec<Vec<u8>>,
    /// The 32-byte hash of the containing block, if reported.
    pub block_hash: Option<Vec<u8>>,
    /// The containing block's number, if reported.
    pub block_number: Option<u64>,
    /// The 32-byte hash of the transaction, if reported.
    pub transaction_hash: Option<Vec<u8>>,
    /// The transaction's index, if reported.
    pub transaction_index: Option<u64>,
    /// Whether the log was removed by a reorganisation, if reported.
    pub removed: Option<bool>,
}

impl LogRecord {
    /// Fixed widths, and integers small enough for the host's signed
    /// 64-bit scalars.
    pub open spec fn wf(self) -> bool {
        &&& self.block_hash matches Some(b) ==> b@.len() == 32
        &&& self.block_number matches Some(n) ==> n <= i64::MAX
        &&& self.transaction_hash matches Some(b) ==> b@.len() == 32
        &&& self.transaction_index matches Some(n) ==> n <= i64::MAX
    }

    /// The log's canonical table entries, in reporting order.
    pub open spec fn entries(self) -> Seq<(Seq<char>, ValueV)> {
        let base = seq![
            ("data"@, ValueV::Bytes(self.data@)),
            ("topics"@, ValueV::List(bytes_list_view(self.topics.deep_view()))),
        ];
        let e1 = match self.block_hash {
            Option::Some(b) => base.push(("block_hash"@, ValueV::Bytes(b@))),
            Option::None => base,
        };
        let e2 = match self.block_number {
            Option::Some(n) => e1.push(("block_number"@, ValueV::Int(n as i64))),
            Option::None => e1,
        };
        let e3 = match self.transaction_hash {
            Option::Some(b) => e2.push(("transaction_hash"@, ValueV::Bytes(b@))),
            Option::None => e2,
        };
        let e4 = match self.transaction_index {
            Option::Some(n) => e3.push(("transaction_index"@, ValueV::Int(n as i64))),
            Option::None => e3,
        };
        match self.removed {
            Option::Some(f) => e4.push(("removed"@, ValueV::Bool(f))),
            Option::None => e4,
        }
    }

    /// The log as the table value handed back to the host.
    pub fn to_var(&self) -> (r: Value)
        requires
            self.wf(),
        ensures
            value_view(r) == ValueV::Table(self.entries()),
    {
        let mut es: Vec<(String, Value)> = Vec::new();
        proof {
            assert(entries_view(es@) =~= Seq::<(Seq<char>, ValueV)>::empty());
        }
        push_entry(&mut es, "data", Value::Bytes(crate::value::copy_bytes(&self.data)));
        push_entry(&mut es, "topics", bytes_list_to_var(&self.topics));
        match &self.block_hash {
            Some(b) => push_entry(&mut es, "block_hash", Value::Bytes(crate::value::copy_bytes(b))),
            None => {},
        }
        match self.block_number {
            Some(n) => push_entry(&mut es, "block_number", Value::Int(n as i64)),
            None => {},
        }
        match &self.transaction_hash {
            Some(b) => push_entry(&mut es, "transaction_hash", Value::Bytes(
                crate::value::copy_bytes(b),
            )),
            None => {},
        }
        match self.transaction_index {
            Some(n) => push_entry(&mut es, "transaction_index", Value::Int(n as i64)),
            None => {},
        }
        match self.removed {
            Some(f) => push_entry(&mut es, "removed", Value::Bool(f)),
            None => {},
        }
        proof {
            assert(entries_view(es@) =~= self.entries());
        }
        Value::Table(es)
    }
}

/// One transaction, as the transaction-lookup path hands it back.
pub struct TxRecord {
    /// The transaction's input data.
    pub input: Vec<u8>,
    /// Gas limit, as a 32-byte big-endian integer.
    pub gas: Vec<u8>,
    /// Gas price, as a 32-byte big-endian integer.
    pub gas_price: Vec<u8>,
    /// Value transferred, as a 32-byte big-endian integer.
    pub value: Vec<u8>,
    /// Sender nonce, as a 32-byte big-endian integer.
    pub nonce: Vec<u8>,
    /// The 20-byte sender address, if reported.
    pub from: Option<Vec<u8>>,
    /// The 20-byte recipient address, if reported.
    pub to: Option<Vec<u8>>,
    /// The signature's v component, as an 8-byte buffer, if reported.
    pub v: Option<Vec<u8>>,
    /// The signature's r component, as a 32-byte buffer, if reported.
    pub r: Option<Vec<u8>>,
    /// The signature's s component, as a 32-byte buffer, if reported.
    pub s: Option<Vec<u8>>,
    /// The 32-byte hash of the containing block, if reported.
    pub block_hash: Option<Vec<u8>>,
    /// The containing block's number, if reported.
    pub block_number: Option<u64>,
}

impl TxRecord {
    /// Fixed widths, and integers small enough for the host's signed
    /// 64-bit scalars.
    pub open spec fn wf(self) -> bool {
        &&& self.gas@.len() == 32
        &&& self.gas_price@.len() == 32
        &&& self.value@.len() == 32
        &&& self.nonce@.len() == 32
        &&& self.from matches Some(b) ==> b@.len() == 20
        &&& self.to matches Some(b) ==> b@.len() == 20
        &&& self.v matches Some(b) ==> b@.len() == 8
        &&& self.r matches Some(b) ==> b@.len() == 32
        &&& self.s matches Some(b) ==> b@.len() == 32
        &&& self.block_hash matches Some(b) ==> b@.len() == 32
        &&& self.block_number matches Some(n) ==> n <= i64::MAX
    }

    /// The transaction's canonical table entries, in reporting order.
    pub open spec fn entries(self) -> Seq<(Seq<char>, ValueV)> {
        let base = seq![
            ("input"@, ValueV::Bytes(self.input@)),
            ("gas"@, ValueV::Bytes(self.gas@)),
            ("gas_price"@, ValueV::Bytes(self.gas_price@)),
            ("value"@, ValueV::Bytes(self.value@)),
            ("nonce"@, ValueV::Bytes(self.nonce@)),
        ];
        let e1 = match self.from {
            Option::Some(b) => base.push(("from"@, ValueV::Bytes(b@))),
            Option::None => base,
        };
        let e2 = match self.to {
            Option::Some(b) => e1.push(("to"@, ValueV::Bytes(b@))),
            Option::None => e1,
        };
        let e3 = match self.v {
            Option::Some(b) => e2.push(("v"@, ValueV::Bytes(b@))),
            Option::None => e2,
        };
        let e4 = match self.r {
            Option::Some(b) => e3.push(("r"@, ValueV::Bytes(b@))),
            Option::None => e3,
        };
        let e5 = match self.s {
            Option::Some(b) => e4.push(("s"@, ValueV::Bytes(b@))),
            Option::None => e4,
        };
        let e6 = match self.block_hash {
            Option::Some(b) => e5.push(("block_hash"@, ValueV::Bytes(b@))),
            Option::None => e5,
        };
        match self.block_number {
            Option::Some(n) => e6.push(("block_number"@, ValueV::Int(n as i64))),
            Option::None => e6,
        }
    }

    /// The transaction as the table value handed back to the host.
    pub fn to_var(&self) -> (r: Value)
        requires
            self.wf(),
        ensures
            value_view(r) == ValueV::Table(self.entries()),
    {
        let mut es: Vec<(String, Value)> = Vec::new();
        proof {
            assert(entries_view(es@) =~= Seq::<(Seq<char>, ValueV)>::empty());
        }
        push_entry(&mut es, "input", Value::Bytes(crate::value::copy_bytes(&self.input)));
        push_entry(&mut es, "gas", Value::Bytes(crate::value::copy_bytes(&self.gas)));
        push_entry(&mut es, "gas_price", Value::Bytes(crate::value::copy_bytes(&self.gas_price)));
        push_entry(&mut es, "value", Value::Bytes(crate::value::copy_bytes(&self.value)));
        push_entry(&mut es, "nonce", Value::Bytes(crate::value::copy_bytes(&self.nonce)));
        match &self.from {
            Some(b) => push_entry(&mut es, "from", Value::Bytes(crate::value::copy_bytes(b))),
            None => {},
        }
        match &self.to {
            Some(b) => push_entry(&mut es, "to", Value::Bytes(crate::value::copy_bytes(b))),
            None => {},
        }
        match &self.v {
            Some(b) => push_entry(&mut es, "v", Value::Bytes(crate::value::copy_bytes(b))),
            None => {},
        }
        match &self.r {
            Some(b) => push_entry(&mut es, "r", Value::Bytes(crate::value::copy_bytes(b))),
            None => {},
        }
        match &self.s {
            Some(b) => push_entry(&mut es, "s", Value::Bytes(crate::value::copy_bytes(b))),
            None => {},
        }
        match &self.block_hash {
            Some(b) => push_entry(&mut es, "block_hash", Value::Bytes(crate::value::copy_bytes(b))),
            None => {},
        }
        match self.block_number {
            Some(n) => push_entry(&mut es, "block_number", Value::Int(n as i64)),
            None => {},
        }
        proof {
            assert(entries_view(es@) =~= self.entries());
        }
        Value::Table(es)
    }
}

/// The transactions of a block: their hashes, or the full records.
pub enum BlockTxs {
    /// One 32-byte hash per transaction.
    Hashes(Vec<Vec<u8>>),
    /// One full record per transaction.
    Full(Vec<TxRecord>),
}

/// One block header, as the block-lookup path hands it back.
pub struct BlockRecord {
    /// The 32-byte hash of the parent block.
    pub parent_hash: Vec<u8>,
    /// The 32-byte hash of the uncle list.
    pub uncles_hash: Vec<u8>,
    /// The 20-byte address of the block's author.
    pub author: Vec<u8>,
    /// The 32-byte state root.
    pub state_root: Vec<u8>,
    /// The 32-byte transactions root.
    pub transactions_root: Vec<u8>,
    /// The 32-byte receipts root.
    pub receipts_root: Vec<u8>,
    /// Gas used, as a 32-byte big-endian integer.
    pub gas_used: Vec<u8>,
    /// Gas limit, as a 32-byte big-endian integer.
    pub gas_limit: Vec<u8>,
    /// Timestamp, as a 32-byte big-endian integer.
    pub timestamp: Vec<u8>,
    /// Difficulty, as a 32-byte big-endian integer.
    pub difficulty: Vec<u8>,
    /// The block's transactions, as hashes or full records.
    pub transactions: BlockTxs,
}

impl BlockRecord {
    /// Fixed widths throughout, and well-formed transaction records.
    pub open spec fn wf(self) -> bool {
        &&& self.parent_hash@.len() == 32
        &&& self.uncles_hash@.len() == 32
        &&& self.author@.len() == 20
        &&& self.state_root@.len() == 32
        &&& self.transactions_root@.len() == 32
        &&& self.receipts_root@.len() == 32
        &&& self.gas_used@.len() == 32
        &&& self.gas_limit@.len() == 32
        &&& self.timestamp@.len() == 32
        &&& self.difficulty@.len() == 32
        &&& self.transactions matches BlockTxs::Full(ts) ==> forall|i: int|
            0 <= i < ts@.len() ==> (#[trigger] ts@[i]).wf()
    }

    /// The value standing under the `transactions` key.
    pub open spec fn txs_value(self) -> ValueV {
        match self.transactions {
            BlockTxs::Hashes(hs) => ValueV::List(bytes_list_view(hs.deep_view())),
            BlockTxs::Full(ts) => ValueV::List(
                Seq::new(ts@.len(), |i: int| ValueV::Table(ts@[i].entries())),
            ),
        }
    }

    /// The block's canonical table entries, in reporting order.
    pub open spec fn entries(self) -> Seq<(Seq<char>, ValueV)> {
        seq![
            ("parent_hash"@, ValueV::Bytes(self.parent_hash@)),
            ("uncles_hash"@, ValueV::Bytes(self.uncles_hash@)),
            ("author"@, ValueV::Bytes(self.author@)),
            ("state_root"@, ValueV::Bytes(self.state_root@)),
            ("transactions_root"@, ValueV::Bytes(self.transactions_root@)),
            ("receipts_root"@, ValueV::Bytes(self.receipts_root@)),
            ("gas_used"@, ValueV::Bytes(self.gas_used@)),
            ("gas_limit"@, ValueV::Bytes(self.gas_limit@)),
            ("timestamp"@, ValueV::Bytes(self.timestamp@)),
            ("difficulty"@, ValueV::Bytes(self.difficulty@)),
            ("transactions"@, self.txs_value()),
        ]
    }

    /// The block as the table value handed back to the host.
    pub fn to_var(&self) -> (r: Value)
        requires
            self.wf(),
        ensures
            value_view(r) == ValueV::Table(self.entries()),
    {
        let mut es: Vec<(String, Value)> = Vec::new();
        proof {
            assert(entries_view(es@) =~= Seq::<(Seq<char>, ValueV)>::empty());
        }
        push_entry(&mut es, "parent_hash", Value::Bytes(crate::value::copy_bytes(
            &self.parent_hash,
        )));
        push_entry(&mut es, "uncles_hash", Value::Bytes(crate::value::copy_bytes(
            &self.uncles_hash,
        )));
        push_entry(&mut es, "author", Value::Bytes(crate::value::copy_bytes(&self.author)));
        push_entry(&mut es, "state_root", Value::Bytes(crate::value::copy_bytes(&self.state_root)));
        push_entry(&mut es, "transactions_root", Value::Bytes(crate::value::copy_bytes(
            &self.transactions_root,
        )));
        push_entry(&mut es, "receipts_root", Value::Bytes(crate::value::copy_bytes(
            &self.receipts_root,
        )));
        push_entry(&mut es, "gas_used", Value::Bytes(crate::value::copy_bytes(&self.gas_used)));
        push_entry(&mut es, "gas_limit", Value::Bytes(crate::value::copy_bytes(&self.gas_limit)));
        push_entry(&mut es, "timestamp", Value::Bytes(crate::value::copy_bytes(&self.timestamp)));
        push_entry(&mut es, "difficulty", Value::Bytes(crate::value::copy_bytes(&self.difficulty)));
        let txs = match &self.transactions {
            BlockTxs::Hashes(hs) => bytes_list_to_var(hs),
            BlockTxs::Full(ts) => {
                let mut out: Vec<Value> = Vec::new();
                let mut i: usize = 0;
                proof {
                    lemma_values_view(out@);
                }
                while i < ts.len()
                    invariant
                        0 <= i <= ts@.len(),
                        out@.len() == i,
                        forall|k: int| 0 <= k < ts@.len() ==> (#[trigger] ts@[k]).wf(),
                        values_view(out@) =~= Seq::new(i as nat, |k: int| ValueV::Table(
                            ts@[k].entries(),
                        )),
                    decreases ts@.len() - i,
                {
                    let ghost out0 = out@;
                    let t = ts[i].to_var();
                    out.push(t);
                    i = i + 1;
                    proof {
                        lemma_values_view(out@);
                        lemma_values_view(out0);
                        assert(out@.drop_last() =~= out0);
                        assert(values_view(out@) =~= Seq::new(i as nat, |k: int| ValueV::Table(
                            ts@[k].entries(),
                        )));
                    }
                }
                Value::List(out)
            },
        };
        proof {
            assert(value_view(txs) == self.txs_value());
        }
        push_entry(&mut es, "transactions", txs);
        proof {
            assert(entries_view(es@) =~= self.entries());
        }
        Value::Table(es)
    }
}

} // verus!
