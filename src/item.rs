use vstd::prelude::*;

use crate::scale::{
    lemma_from_le_bytes, option_u64_bytes, option_u64_parse, scale_decode_option_u64,
    scale_encode_option_u64,
};

verus! {

/// A node of a list: the addresses of its two neighbours.
///
/// `None` stands for the sentinel, which closes the list into a ring.
#[derive(Clone, Copy, Debug, PartialEq, Eq)]
pub struct LinkedItem<Value> {
    pub prev: Option<Value>,
    pub next: Option<Value>,
}

impl<Value> LinkedItem<Value> {
    /// The node of a slot that holds nothing.
    pub open spec fn empty() -> LinkedItem<Value> {
        LinkedItem { prev: None, next: None }
    }

    /// Builds the node of a slot that holds nothing.
    pub fn new_empty() -> (r: LinkedItem<Value>)
        ensures
            r == LinkedItem::<Value>::empty(),
    {
        LinkedItem { prev: None, next: None }
    }
}

/// Bytes that do not hold a node.
#[derive(Clone, Copy, Debug, PartialEq, Eq)]
pub enum CodecError {
    Malformed,
}

fn from_scale_error(e: parity_scale_codec::Error) -> (r: CodecError)
    ensures
        r == CodecError::Malformed,
{
    CodecError::Malformed
}

/// A value type whose optional values have a byte form that reads back.
pub trait ValueCodec: Sized + Copy {
    /// The bytes of an optional value.
    spec fn option_bytes(v: Option<Self>) -> Seq<u8>;

    /// What reading an optional value from the start of `b` gives, with the
    /// number of bytes read; `None` where `b` does not start with one.
    spec fn option_parse(b: Seq<u8>) -> Option<(Option<Self>, nat)>;

    /// Reading the bytes of a value, whatever follows them, gives the value
    /// back and reads exactly those bytes.
    proof fn lemma_option_round_trip(v: Option<Self>, rest: Seq<u8>)
        ensures
            Self::option_parse(Self::option_bytes(v) + rest) == Some(
                (v, Self::option_bytes(v).len()),
            ),
    ;

    /// The bytes of an optional value.
    fn encode_option(v: &Option<Self>) -> (r: Vec<u8>)
        ensures
            r@ == Self::option_bytes(*v),
    ;

    /// Reads an optional value from the start of `input`; gives it with the
    /// number of bytes read.
    fn decode_option(input: &[u8]) -> (r: Result<(Option<Self>, usize), CodecError>)
        ensures
            match r {
                Ok((v, n)) => n <= input@.len() && Self::option_parse(input@) == Some((v, n as nat)),
                Err(_) => Self::option_parse(input@) is None,
            },
    ;
}

impl ValueCodec for u64 {
    open spec fn option_bytes(v: Option<u64>) -> Seq<u8> {
        option_u64_bytes(v)
    }

    open spec fn option_parse(b: Seq<u8>) -> Option<(Option<u64>, nat)> {
        option_u64_parse(b)
    }

    proof fn lemma_option_round_trip(v: Option<u64>, rest: Seq<u8>) {
        let b = option_u64_bytes(v) + rest;
        match v {
            None => {},
            Some(x) => {
                assert(b.subrange(1, 9) =~= crate::scale::le_bytes(x));
                lemma_from_le_bytes(x);
            },
        }
    }

    fn encode_option(v: &Option<u64>) -> (r: Vec<u8>) {
        scale_encode_option_u64(v)
    }

    fn decode_option(input: &[u8]) -> (r: Result<(Option<u64>, usize), CodecError>) {
        match scale_decode_option_u64(input) {
            Ok((v, left)) => Ok((v, input.len() - left)),
            Err(e) => Err(from_scale_error(e)),
        }
    }
}

impl<Value: ValueCodec> LinkedItem<Value> {
    /// The bytes of a node: those of `prev`, then those of `next`.
    pub open spec fn bytes(self) -> Seq<u8> {
        Value::option_bytes(self.prev) + Value::option_bytes(self.next)
    }

    /// What reading a node from the start of `b` gives, with the number of
    /// bytes read: `prev` first, then `next` from the bytes that follow.
    pub open spec fn parse(b: Seq<u8>) -> Option<(LinkedItem<Value>, nat)> {
        match Value::option_parse(b) {
            None => None,
            Some((prev, n1)) => match Value::option_parse(b.subrange(n1 as int, b.len() as int)) {
                None => None,
                Some((next, n2)) => Some((LinkedItem { prev, next }, n1 + n2)),
            },
        }
    }

    /// The bytes of this node.
    pub fn encode(&self) -> (r: Vec<u8>)
        ensures
            r@ == self.bytes(),
    {
        let mut out = Value::encode_option(&self.prev);
        let mut tail = Value::encode_option(&self.next);
        out.append(&mut tail);
        out
    }

    /// Appends the bytes of this node to `dest`.
    pub fn encode_to(&self, dest: &mut Vec<u8>)
        ensures
            final(dest)@ == old(dest)@ + self.bytes(),
    {
        let mut bytes = self.encode();
        dest.append(&mut bytes);
    }

    /// Reads a node from the start of `input`: `prev`, then `next`. Gives the
    /// node with the number of bytes read; bytes after them are left alone.
    pub fn decode(input: &[u8]) -> (r: Result<(LinkedItem<Value>, usize), CodecError>)
        ensures
            match r {
                Ok((item, n)) => n <= input@.len() && Self::parse(input@) == Some((item, n as nat)),
                Err(_) => Self::parse(input@) is None,
            },
    {
        let (prev, n1) = match Value::decode_option(input) {
            Ok(x) => x,
            Err(e) => return Err(e),
        };
        let rest = vstd::slice::slice_subrange(input, n1, input.len());
        let (next, n2) = match Value::decode_option(rest) {
            Ok(x) => x,
            Err(e) => return Err(e),
        };
        Ok((LinkedItem { prev, next }, n1 + n2))
    }
}

/// Reading the bytes of a node, whatever follows them, gives the node back and
/// reads exactly those bytes.
pub proof fn lemma_round_trip<Value: ValueCodec>(item: LinkedItem<Value>, rest: Seq<u8>)
    ensures
        LinkedItem::<Value>::parse(item.bytes() + rest) == Some((item, item.bytes().len())),
{
    let p = Value::option_bytes(item.prev);
    let q = Value::option_bytes(item.next);
    let b = item.bytes() + rest;
    assert(b =~= p + (q + rest));
    Value::lemma_option_round_trip(item.prev, q + rest);
    assert(b.subrange(p.len() as int, b.len() as int) =~= q + rest);
    Value::lemma_option_round_trip(item.next, rest);
}

} // verus!
