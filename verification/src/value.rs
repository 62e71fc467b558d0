//! Self-contained typed literal values.
//!
//! The value grammar itself (numbers, booleans, addresses, byte vectors)
//! is owned by the external parser of `move_core_types`; this module holds
//! the crate's own plain-data form of its values and the one trusted call
//! into that parser.
use vstd::prelude::*;

use move_core_types::transaction_argument::TransactionArgument as MoveArg;

verus! {

/// An account address, held as its bytes.
#[derive(Debug)]
pub struct AccountAddress {
    pub bytes: Vec<u8>,
}

impl View for AccountAddress {
    type V = Seq<u8>;

    open spec fn view(&self) -> Seq<u8> {
        self.bytes@
    }
}

/// A fully self-describing typed literal, in the crate's own plain form:
/// one variant for each value the external grammar can produce.
#[derive(Debug)]
pub enum TransactionArgument {
    U8(u8),
    U64(u64),
    U128(u128),
    Address(AccountAddress),
    U8Vector(Vec<u8>),
    Bool(bool),
}

/// The mathematical value of a typed literal.
pub enum ArgValue {
    U8(u8),
    U64(u64),
    U128(u128),
    Address(Seq<u8>),
    U8Vector(Seq<u8>),
    Bool(bool),
}

impl View for TransactionArgument {
    type V = ArgValue;

    open spec fn view(&self) -> ArgValue {
        match self {
            TransactionArgument::U8(x) => ArgValue::U8(*x),
            TransactionArgument::U64(x) => ArgValue::U64(*x),
            TransactionArgument::U128(x) => ArgValue::U128(*x),
            TransactionArgument::Address(a) => ArgValue::Address(a@),
            TransactionArgument::U8Vector(v) => ArgValue::U8Vector(v@),
            TransactionArgument::Bool(b) => ArgValue::Bool(*b),
        }
    }
}

/// Copies a byte vector.
pub(crate) fn clone_bytes(v: &Vec<u8>) -> (r: Vec<u8>)
    ensures
        r@ == v@,
{
    let mut r: Vec<u8> = Vec::new();
    let mut i: usize = 0;
    while i < v.len()
        invariant
            0 <= i <= v.len(),
            r@ == v@.subrange(0, i as int),
        decreases v.len() - i,
    {
        r.push(v[i]);
        proof {
            assert(v@.subrange(0, i + 1 as int) =~= v@.subrange(0, i as int).push(v@[i as int]));
        }
        i = i + 1;
    }
    proof {
        assert(v@.subrange(0, v@.len() as int) =~= v@);
    }
    r
}

impl Clone for AccountAddress {
    fn clone(&self) -> (r: Self)
        ensures
            r@ == self@,
    {
        AccountAddress { bytes: clone_bytes(&self.bytes) }
    }
}

impl Clone for TransactionArgument {
    fn clone(&self) -> (r: Self)
        ensures
            r@ == self@,
    {
        match self {
            TransactionArgument::U8(x) => TransactionArgument::U8(*x),
            TransactionArgument::U64(x) => TransactionArgument::U64(*x),
            TransactionArgument::U128(x) => TransactionArgument::U128(*x),
            TransactionArgument::Address(a) => TransactionArgument::Address(a.clone()),
            TransactionArgument::U8Vector(v) => TransactionArgument::U8Vector(clone_bytes(v)),
            TransactionArgument::Bool(b) => TransactionArgument::Bool(*b),
        }
    }
}

pub uninterp spec fn literal_grammar(s: Seq<char>) -> Option<ArgValue>;

/// What the external typed-literal parser returns for the token `s`, or
/// `None` where it rejects the token. The grammar is opaque here, with one
/// exception its source states plainly: no token opening with `{` belongs
/// to it, so a symbolic `{{name}}` reference can never be read as a
/// literal.
pub open spec fn literal_of(s: Seq<char>) -> Option<ArgValue> {
    if s.len() > 0 && s[0] == '{' {
        None
    } else {
        literal_grammar(s)
    }
}

/// Relies on `move_core_types::parser::parse_transaction_argument`: the
/// typed-literal grammar of the external collaborator. Its result depends
/// on the characters of the token alone, and it rejects every token whose
/// first character is `{`.
#[verifier::external_body]
pub(crate) fn parse_literal(s: &str) -> (r: Option<TransactionArgument>)
    ensures
        r is Some <==> literal_of(s@) is Some,
        r matches Some(v) ==> literal_grammar(s@) == Some(v@) && literal_of(s@) == Some(v@),
{
    match move_core_types::parser::parse_transaction_argument(s) {
        Ok(MoveArg::U8(x)) => Some(TransactionArgument::U8(x)),
        Ok(MoveArg::U64(x)) => Some(TransactionArgument::U64(x)),
        Ok(MoveArg::U128(x)) => Some(TransactionArgument::U128(x)),
        Ok(MoveArg::Address(a)) => Some(TransactionArgument::Address(AccountAddress {
            bytes: a.to_vec(),
        })),
        Ok(MoveArg::U8Vector(v)) => Some(TransactionArgument::U8Vector(v)),
        Ok(MoveArg::Bool(b)) => Some(TransactionArgument::Bool(b)),
        Err(_) => None,
    }
}

} // verus!
