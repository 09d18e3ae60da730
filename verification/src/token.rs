//! The canonical intermediate token that one encoded argument or one
//! returned value takes on its way to or from a contract call.

use vstd::prelude::*;

verus! {

/// One canonical contract-call token. Array variants own their children
/// by value; the structure is always a finite tree.
#[derive(Debug)]
pub enum Token {
    /// A 256-bit unsigned integer, as its 32-byte big-endian buffer.
    Uint(Vec<u8>),
    /// A 20-byte account or contract address.
    Address(Vec<u8>),
    /// A variable-length byte buffer.
    Bytes(Vec<u8>),
    /// A fixed-size byte buffer.
    FixedBytes(Vec<u8>),
    /// An unbounded array of tokens.
    Array(Vec<Token>),
    /// A fixed-size array of tokens.
    FixedArray(Vec<Token>),
    /// A boolean.
    Bool(bool),
}

/// The mathematical shape of a [`Token`].
pub enum TokenV {
    Uint(Seq<u8>),
    Address(Seq<u8>),
    Bytes(Seq<u8>),
    FixedBytes(Seq<u8>),
    Array(Seq<TokenV>),
    FixedArray(Seq<TokenV>),
    Bool(bool),
}

/// The shape of one token.
pub open spec fn token_view(t: Token) -> TokenV
    decreases t,
        via token_view_decreases
{
    match t {
        Token::Uint(b) => TokenV::Uint(b@),
        Token::Address(b) => TokenV::Address(b@),
        Token::Bytes(b) => TokenV::Bytes(b@),
        Token::FixedBytes(b) => TokenV::FixedBytes(b@),
        Token::Array(ts) => TokenV::Array(tokens_view(ts@)),
        Token::FixedArray(ts) => TokenV::FixedArray(tokens_view(ts@)),
        Token::Bool(b) => TokenV::Bool(b),
    }
}

/// The shapes of a sequence of tokens, in order.
pub open spec fn tokens_view(ts: Seq<Token>) -> Seq<TokenV>
    decreases ts,
        via tokens_view_decreases
{
    if ts.len() == 0 {
        Seq::empty()
    } else {
        tokens_view(ts.drop_last()).push(token_view(ts.last()))
    }
}

#[via_fn]
proof fn token_view_decreases(t: Token) {
    match t {
        Token::Array(ts) => {
            vstd::std_specs::vec::axiom_vec_decreases_to_view(ts);
        },
        Token::FixedArray(ts) => {
            vstd::std_specs::vec::axiom_vec_decreases_to_view(ts);
        },
        _ => {},
    }
}

#[via_fn]
proof fn tokens_view_decreases(ts: Seq<Token>) {
    if ts.len() > 0 {
        vstd::seq::axiom_seq_index_decreases(ts, ts.len() - 1);
        vstd::seq::axiom_seq_subrange_decreases(ts, 0, ts.len() - 1);
    }
}

impl View for Token {
    type V = TokenV;

    open spec fn view(&self) -> TokenV {
        token_view(*self)
    }
}

/// A basic fact kept close to the definition: `tokens_view` maps the
/// sequence element by element.
pub proof fn lemma_tokens_view(ts: Seq<Token>)
    ensures
        tokens_view(ts).len() == ts.len(),
        forall|i: int| 0 <= i < ts.len() ==> tokens_view(ts)[i] == token_view(#[trigger] ts[i]),
    decreases ts.len(),
{
    if ts.len() > 0 {
        lemma_tokens_view(ts.drop_last());
        assert forall|i: int| 0 <= i < ts.len() implies tokens_view(ts)[i] == token_view(
            #[trigger] ts[i],
        ) by {
            if i < ts.len() - 1 {
                assert(ts.drop_last()[i] == ts[i]);
                assert(tokens_view(ts)[i] == tokens_view(ts.drop_last())[i]);
            }
        }
    }
}

impl TokenV {
    /// Well-formedness: every fixed-width buffer has its canonical width.
    pub open spec fn wf(self) -> bool
        decreases self,
    {
        match self {
            TokenV::Uint(b) => b.len() == 32,
            TokenV::Address(b) => b.len() == 20,
            TokenV::Bytes(_) => true,
            TokenV::FixedBytes(_) => true,
            TokenV::Array(ts) => forall|i: int| 0 <= i < ts.len() ==> #[trigger] ts[i].wf(),
            TokenV::FixedArray(ts) => forall|i: int| 0 <= i < ts.len() ==> #[trigger] ts[i].wf(),
            TokenV::Bool(_) => true,
        }
    }
}

} // verus!
