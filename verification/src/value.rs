//! The generic dynamic value that crosses the boundary with the host.
//!
//! The host's own container type stays outside the crate; what the codec
//! and the catalog need of it is exactly this shape: textual, boolean and
//! 64-bit integer scalars, raw byte buffers, ordered sequences, and
//! key/value tables with string keys.

use vstd::prelude::*;

verus! {

/// A dynamic value as the host hands it over or takes it back.
#[derive(Debug)]
pub enum Value {
    /// The absent value.
    Empty,
    /// A textual scalar.
    Str(String),
    /// A boolean scalar.
    Bool(bool),
    /// A 64-bit signed integer scalar.
    Int(i64),
    /// A raw byte buffer.
    Bytes(Vec<u8>),
    /// An ordered sequence of values.
    List(Vec<Value>),
    /// A key/value table with string keys, in insertion order.
    Table(Vec<(String, Value)>),
}

/// The mathematical shape of a [`Value`].
pub enum ValueV {
    Empty,
    Str(Seq<char>),
    Bool(bool),
    Int(i64),
    Bytes(Seq<u8>),
    List(Seq<ValueV>),
    Table(Seq<(Seq<char>, ValueV)>),
}

/// The shape of one dynamic value.
pub open spec fn value_view(v: Value) -> ValueV
    decreases v,
        via value_view_decreases
{
    match v {
        Value::Empty => ValueV::Empty,
        Value::Str(s) => ValueV::Str(s@),
        Value::Bool(b) => ValueV::Bool(b),
        Value::Int(i) => ValueV::Int(i),
        Value::Bytes(b) => ValueV::Bytes(b@),
        Value::List(vs) => ValueV::List(values_view(vs@)),
        Value::Table(es) => ValueV::Table(entries_view(es@)),
    }
}

/// The shapes of a sequence of dynamic values, in order.
pub open spec fn values_view(vs: Seq<Value>) -> Seq<ValueV>
    decreases vs,
        via values_view_decreases
{
    if vs.len() == 0 {
        Seq::empty()
    } else {
        values_view(vs.drop_last()).push(value_view(vs.last()))
    }
}

/// The shapes of a table's entries, in order.
pub open spec fn entries_view(es: Seq<(String, Value)>) -> Seq<(Seq<char>, ValueV)>
    decreases es,
        via entries_view_decreases
{
    if es.len() == 0 {
        Seq::empty()
    } else {
        entries_view(es.drop_last()).push((es.last().0@, value_view(es.last().1)))
    }
}

#[via_fn]
proof fn value_view_decreases(v: Value) {
    match v {
        Value::List(vs) => {
            vstd::std_specs::vec::axiom_vec_decreases_to_view(vs);
        },
        Value::Table(es) => {
            vstd::std_specs::vec::axiom_vec_decreases_to_view(es);
        },
        _ => {},
    }
}

#[via_fn]
proof fn values_view_decreases(vs: Seq<Value>) {
    if vs.len() > 0 {
        vstd::seq::axiom_seq_index_decreases(vs, vs.len() - 1);
        vstd::seq::axiom_seq_subrange_decreases(vs, 0, vs.len() - 1);
    }
}

#[via_fn]
proof fn entries_view_decreases(es: Seq<(String, Value)>) {
    if es.len() > 0 {
        vstd::seq::axiom_seq_index_decreases(es, es.len() - 1);
        vstd::seq::axiom_seq_subrange_decreases(es, 0, es.len() - 1);
    }
}

impl View for Value {
    type V = ValueV;

    open spec fn view(&self) -> ValueV {
        value_view(*self)
    }
}

/// `values_view` maps the sequence element by element.
pub proof fn lemma_values_view(vs: Seq<Value>)
    ensures
        values_view(vs).len() == vs.len(),
        forall|i: int| 0 <= i < vs.len() ==> values_view(vs)[i] == value_view(#[trigger] vs[i]),
    decreases vs.len(),
{
    if vs.len() > 0 {
        lemma_values_view(vs.drop_last());
        assert forall|i: int| 0 <= i < vs.len() implies values_view(vs)[i] == value_view(
            #[trigger] vs[i],
        ) by {
            if i < vs.len() - 1 {
                assert(vs.drop_last()[i] == vs[i]);
                assert(values_view(vs)[i] == values_view(vs.drop_last())[i]);
            }
        }
    }
}

/// `entries_view` maps the entries element by element.
pub proof fn lemma_entries_view(es: Seq<(String, Value)>)
    ensures
        entries_view(es).len() == es.len(),
        forall|i: int| 0 <= i < es.len() ==> entries_view(es)[i] == ((#[trigger] es[i]).0@,
            value_view(es[i].1)),
    decreases es.len(),
{
    if es.len() > 0 {
        lemma_entries_view(es.drop_last());
        assert forall|i: int| 0 <= i < es.len() implies entries_view(es)[i] == ((
        #[trigger] es[i]).0@, value_view(es[i].1)) by {
            if i < es.len() - 1 {
                assert(es.drop_last()[i] == es[i]);
                assert(entries_view(es)[i] == entries_view(es.drop_last())[i]);
            }
        }
    }
}

/// Copy a byte buffer.
pub fn copy_bytes(src: &Vec<u8>) -> (r: Vec<u8>)
    ensures
        r@ == src@,
{
    let mut out: Vec<u8> = Vec::new();
    let mut i: usize = 0;
    while i < src.len()
        invariant
            0 <= i <= src@.len(),
            out@ =~= src@.subrange(0, i as int),
        decreases src@.len() - i,
    {
        out.push(src[i]);
        i = i + 1;
        proof {
            assert(out@ =~= src@.subrange(0, i as int));
        }
    }
    proof {
        assert(src@.subrange(0, src@.len() as int) =~= src@);
    }
    out
}

} // verus!
