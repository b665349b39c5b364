//! What the messages of this crate have in common: each is a run of fields, and
//! is decoded by merging those fields one by one into a value.

use crate::error::UspError;
use crate::wire::{
    key, lemma_parse_key_bounds, lemma_parse_key_of_key, lemma_varint_len, parse_key, take_key,
    MAX_TAG,
};
use vstd::prelude::*;

verus! {

/// A message of the wire format. Its view is the message as a mathematical
/// value, over which the layout is stated.
pub trait Message: View + Sized {
    /// The message with every field unset.
    spec fn unset() -> Self::V;

    /// The bytes of the message: its fields in the order of their numbers, a
    /// field left out where it holds its default.
    spec fn wire_bytes(v: Self::V) -> Seq<u8>;

    /// What the field with number `tag` and wire type `wire` makes of the
    /// message `v`, the field's value standing at the head of `s`: the message
    /// with that field merged in, and the number of bytes that the value takes.
    /// There is none where the value is malformed.
    spec fn field_merged(v: Self::V, tag: u32, wire: u8, s: Seq<u8>) -> Option<(Self::V, nat)>;

    /// A field's value lies within the input it was read from.
    proof fn lemma_field_fits(v: Self::V, tag: u32, wire: u8, s: Seq<u8>)
        ensures
            Self::field_merged(v, tag, wire, s) matches Some((_, n)) ==> n <= s.len(),
    ;

    /// The message with every field unset.
    fn new_unset() -> (r: Self)
        ensures
            r@ == Self::unset(),
    ;

    /// Appends the bytes of the message to `buf`.
    fn encode_raw(&self, buf: &mut Vec<u8>)
        ensures
            final(buf)@ == old(buf)@ + Self::wire_bytes(self@),
    ;

    /// Merges into the message the field with number `tag` and wire type `wire`
    /// whose value stands at the head of `data`. Gives the message and the
    /// input behind the field.
    fn merge_field<'a>(self, tag: u32, wire: u8, data: &'a [u8]) -> (r: Result<
        (Self, &'a [u8]),
        UspError,
    >)
        ensures
            match Self::field_merged(self@, tag, wire, data@) {
                Some((v, n)) => r matches Ok(k) && k.0@ == v && k.1@ == data@.skip(n as int),
                None => r matches Err(UspError::DecodeError(_)),
            },
    ;
}

/// The message that results when the fields in `s` are merged into `v` one
/// after the other. There is none where a key or a field's value is malformed.
pub open spec fn merged<M: Message>(v: M::V, s: Seq<u8>) -> Option<M::V>
    decreases s.len(),
{
    if s.len() == 0 {
        Some(v)
    } else {
        match parse_key(s) {
            Some((tag, wire, n)) => match M::field_merged(v, tag, wire, s.skip(n as int)) {
                Some((next, m)) => {
                    proof {
                        lemma_parse_key_bounds(s);
                        M::lemma_field_fits(v, tag, wire, s.skip(n as int));
                    }
                    merged::<M>(next, s.skip((n + m) as int))
                },
                None => None,
            },
            None => None,
        }
    }
}

/// The message that `s` is the wire form of.
pub open spec fn decoded<M: Message>(s: Seq<u8>) -> Option<M::V> {
    merged::<M>(M::unset(), s)
}

/// Merging a run of fields that starts with a well-formed field is merging
/// that field and then the rest: `value` is the field's value as it was
/// written, `next` the message with the field merged in.
pub proof fn lemma_merged_field<M: Message>(
    v: M::V,
    tag: u32,
    wire: u8,
    value: Seq<u8>,
    rest: Seq<u8>,
    next: M::V,
)
    requires
        1 <= tag <= MAX_TAG,
        wire <= 5,
        M::field_merged(v, tag, wire, value + rest) == Some((next, value.len())),
    ensures
        merged::<M>(v, key(tag, wire) + value + rest) == merged::<M>(next, rest),
{
    let s = key(tag, wire) + value + rest;
    let n = key(tag, wire).len();
    assert(s =~= key(tag, wire) + (value + rest));
    lemma_parse_key_of_key(tag, wire, value + rest);
    lemma_varint_len((tag * 8 + wire) as nat);
    assert(s.skip(n as int) =~= value + rest);
    assert(s.skip((n + value.len()) as int) =~= rest);
}

/// Merges the fields in `data` into `msg`.
pub fn merge<M: Message>(msg: M, data: &[u8]) -> (r: Result<M, UspError>)
    ensures
        match merged::<M>(msg@, data@) {
            Some(v) => r matches Ok(m) && m@ == v,
            None => r matches Err(UspError::DecodeError(_)),
        },
{
    let mut acc = msg;
    let mut rest = data;
    while rest.len() > 0
        invariant
            merged::<M>(acc@, rest@) == merged::<M>(msg@, data@),
        decreases rest@.len(),
    {
        proof {
            lemma_parse_key_bounds(rest@);
        }
        let (tag, wire, value) = match take_key(rest) {
            Ok(k) => k,
            Err(e) => {
                return Err(UspError::DecodeError(e));
            },
        };
        proof {
            M::lemma_field_fits(acc@, tag, wire, value@);
        }
        let ghost before = rest@;
        let ghost held = acc@;
        match acc.merge_field(tag, wire, value) {
            Ok((next, behind)) => {
                proof {
                    let n = parse_key(before).unwrap().2;
                    let m = M::field_merged(held, tag, wire, value@).unwrap().1;
                    assert(before.skip(n as int).skip(m as int) =~= before.skip((n + m) as int));
                }
                acc = next;
                rest = behind;
            },
            Err(e) => {
                return Err(e);
            },
        }
    }
    Ok(acc)
}

/// Decodes the message that `data` is the wire form of.
pub fn decode<M: Message>(data: &[u8]) -> (r: Result<M, UspError>)
    ensures
        match decoded::<M>(data@) {
            Some(v) => r matches Ok(m) && m@ == v,
            None => r matches Err(UspError::DecodeError(_)),
        },
{
    merge(M::new_unset(), data)
}

/// The bytes of `msg` in a buffer of their own.
pub fn encode_to_vec<M: Message>(msg: &M) -> (r: Vec<u8>)
    ensures
        r@ == M::wire_bytes(msg@),
{
    let mut buf: Vec<u8> = Vec::new();
    msg.encode_raw(&mut buf);
    buf
}

} // verus!
