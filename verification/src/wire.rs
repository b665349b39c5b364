//! The Protocol Buffers wire format, as far as USP uses it: base-128 varints,
//! field keys, length-delimited fields and `int32` fields.
//!
//! The spec functions of this module say what the bytes of a field are and what
//! a reader makes of them. The executable functions hand the work to `prost`.

use prost::encoding::{DecodeContext, WireType};
use prost::DecodeError;
use vstd::prelude::*;
use vstd::utf8::{decode_utf8, encode_utf8, valid_utf8};

verus! {

/// The largest field number that a key can carry.
pub const MAX_TAG: u32 = 0x1FFF_FFFF;

/// Wire type of a field whose value is one varint.
pub const WIRE_VARINT: u8 = 0;

/// Wire type of a field whose value is eight bytes.
pub const WIRE_FIXED64: u8 = 1;

/// Wire type of a field whose value is a length followed by that many bytes.
pub const WIRE_DELIMITED: u8 = 2;

/// Wire type of the key that opens a group.
pub const WIRE_START_GROUP: u8 = 3;

/// Wire type of the key that closes a group.
pub const WIRE_END_GROUP: u8 = 4;

/// Wire type of a field whose value is four bytes.
pub const WIRE_FIXED32: u8 = 5;

/// The varint that stands for `v`: groups of seven bits, the lowest group first,
/// each byte but the last with its top bit set.
pub open spec fn varint(v: nat) -> Seq<u8>
    decreases v,
{
    if v < 128 {
        seq![v as u8]
    } else {
        seq![(v % 128 + 128) as u8] + varint(v / 128)
    }
}

/// One more than the largest value that a varint may still contribute when
/// `depth` of its bytes have been read: the tenth byte holds a single bit.
pub open spec fn varint_limit(depth: nat) -> nat
    decreases 9 - depth,
{
    if depth >= 9 {
        2
    } else {
        128 * varint_limit(depth + 1)
    }
}

/// Reads the rest of a varint from the head of `s`, `depth` bytes of it having
/// been read before. Gives the value of what is read here, its lowest group
/// counted as the lowest bits, and the number of bytes read. There is no value
/// where `s` ends before the varint does, where the varint runs past ten bytes,
/// or where its tenth byte holds more than one bit.
pub open spec fn parse_varint_groups(s: Seq<u8>, depth: nat) -> Option<(nat, nat)>
    decreases s.len(),
{
    if s.len() == 0 || depth >= 10 {
        None
    } else if s[0] < 128 {
        if depth == 9 && s[0] >= 2 {
            None
        } else {
            Some((s[0] as nat, 1nat))
        }
    } else {
        match parse_varint_groups(s.skip(1), depth + 1) {
            Some((v, n)) => Some(((s[0] - 128 + 128 * v) as nat, n + 1)),
            None => None,
        }
    }
}

/// Reads one varint from the head of `s`: its value and its length in bytes.
pub open spec fn parse_varint(s: Seq<u8>) -> Option<(nat, nat)> {
    parse_varint_groups(s, 0)
}

/// A varint is at least one byte and at most ten bytes long.
pub proof fn lemma_varint_len(v: nat)
    requires
        v < 0x1_0000_0000_0000_0000,
    ensures
        1 <= varint(v).len() <= 10,
{
    lemma_varint_limit_values();
    lemma_varint_len_below(v, 0);
}

proof fn lemma_varint_limit_values()
    ensures
        varint_limit(0) == 0x1_0000_0000_0000_0000,
        varint_limit(9) == 2,
{
    reveal_with_fuel(varint_limit, 11);
}

proof fn lemma_varint_limit_floor(depth: nat)
    ensures
        varint_limit(depth) >= 2,
        depth < 9 ==> varint_limit(depth) >= 256,
    decreases 9 - depth,
{
    if depth < 9 {
        lemma_varint_limit_floor(depth + 1);
    }
}

proof fn lemma_varint_len_below(v: nat, depth: nat)
    requires
        depth <= 9,
        v < varint_limit(depth),
    ensures
        1 <= varint(v).len() <= 10 - depth,
    decreases v,
{
    if v >= 128 {
        lemma_varint_len_below(v / 128, depth + 1);
    }
}

/// What a successful read of a varint has consumed lies within its input, and
/// its value is below the limit of the depth it was read at.
pub proof fn lemma_parse_varint_groups_bounds(s: Seq<u8>, depth: nat)
    ensures
        parse_varint_groups(s, depth) matches Some((v, n)) ==> 1 <= n <= s.len() && n + depth <= 10
            && v < varint_limit(depth),
    decreases s.len(),
{
    if s.len() == 0 || depth >= 10 {
    } else if s[0] < 128 {
        lemma_varint_limit_floor(depth);
    } else {
        lemma_parse_varint_groups_bounds(s.skip(1), depth + 1);
    }
}

/// A varint that is read takes between one and ten bytes of its input, and its
/// value fits in 64 bits.
pub proof fn lemma_parse_varint_bounds(s: Seq<u8>)
    ensures
        parse_varint(s) matches Some((v, n)) ==> 1 <= n <= s.len() && n <= 10 && v <= u64::MAX,
{
    lemma_parse_varint_groups_bounds(s, 0);
    lemma_varint_limit_values();
}

proof fn lemma_parse_varint_groups_of_varint(v: nat, rest: Seq<u8>, depth: nat)
    requires
        depth <= 9,
        v < varint_limit(depth),
    ensures
        parse_varint_groups(varint(v) + rest, depth) == Some((v, varint(v).len())),
    decreases v,
{
    let s = varint(v) + rest;
    if v < 128 {
        assert(s[0] == v as u8);
    } else {
        assert(s[0] == (v % 128 + 128) as u8);
        assert(s.skip(1) =~= varint(v / 128) + rest);
        lemma_parse_varint_groups_of_varint(v / 128, rest, depth + 1);
    }
}

/// Reading a varint gives back the value that was written, whatever follows it.
pub proof fn lemma_parse_varint_of_varint(v: nat, rest: Seq<u8>)
    requires
        v <= u64::MAX,
    ensures
        parse_varint(varint(v) + rest) == Some((v, varint(v).len())),
{
    lemma_varint_limit_values();
    lemma_parse_varint_groups_of_varint(v, rest, 0);
}

/// The key that opens a field: its number and its wire type in one varint.
pub open spec fn key(tag: u32, wire: u8) -> Seq<u8> {
    varint((tag * 8 + wire) as nat)
}

/// Reads a key from the head of `s`: the field number, the wire type and the
/// key's length in bytes. There is none where the varint is malformed or wider
/// than 32 bits, where the wire type is not one of the six, or where the field
/// number is zero.
pub open spec fn parse_key(s: Seq<u8>) -> Option<(u32, u8, nat)> {
    match parse_varint(s) {
        Some((k, n)) => if k > u32::MAX || k % 8 > 5 || k / 8 == 0 {
            None
        } else {
            Some(((k / 8) as u32, (k % 8) as u8, n))
        },
        None => None,
    }
}

/// A key that is read takes at least one byte of its input, and names a field
/// number and a wire type that a key can carry.
pub proof fn lemma_parse_key_bounds(s: Seq<u8>)
    ensures
        parse_key(s) matches Some((tag, wire, n)) ==> 1 <= n <= s.len() && 1 <= tag <= MAX_TAG
            && wire <= 5,
{
    lemma_parse_varint_bounds(s);
}

/// The value of a length-delimited field: the length of the content as a
/// varint, then the content.
pub open spec fn delimited(content: Seq<u8>) -> Seq<u8> {
    varint(content.len()) + content
}

/// A field of wire type [`WIRE_DELIMITED`]: its key, then its value.
pub open spec fn delimited_field(tag: u32, content: Seq<u8>) -> Seq<u8> {
    key(tag, WIRE_DELIMITED) + delimited(content)
}

/// A length-delimited field of a message that leaves it out when the content
/// is empty.
pub open spec fn delimited_field_or_none(tag: u32, content: Seq<u8>) -> Seq<u8> {
    if content.len() == 0 {
        Seq::empty()
    } else {
        delimited_field(tag, content)
    }
}

/// Reads the value of a length-delimited field from the head of `s`, which
/// starts behind the key: the content and the number of bytes read. There is
/// none where the key announced another wire type, or where the length is
/// malformed or exceeds what is left of `s`.
pub open spec fn parse_delimited(wire: u8, s: Seq<u8>) -> Option<(Seq<u8>, nat)> {
    if wire != WIRE_DELIMITED {
        None
    } else {
        match parse_varint(s) {
            Some((len, n)) => if len > s.len() - n {
                None
            } else {
                Some((s.subrange(n as int, (n + len) as int), n + len))
            },
            None => None,
        }
    }
}

/// A string field: a length-delimited field that holds the string in UTF-8.
pub open spec fn string_field(tag: u32, value: Seq<char>) -> Seq<u8> {
    delimited_field(tag, encode_utf8(value))
}

/// A string field of a message that leaves it out when the string is empty.
pub open spec fn string_field_or_none(tag: u32, value: Seq<char>) -> Seq<u8> {
    if value.len() == 0 {
        Seq::empty()
    } else {
        string_field(tag, value)
    }
}

/// A repeated string field: one string field for each of `values`, in their
/// order, the empty strings among them too.
pub open spec fn repeated_string_field(tag: u32, values: Seq<Seq<char>>) -> Seq<u8>
    decreases values.len(),
{
    if values.len() == 0 {
        Seq::empty()
    } else {
        string_field(tag, values[0]) + repeated_string_field(tag, values.skip(1))
    }
}

/// Reads the value of a string field from the head of `s`. Content that is not
/// UTF-8 gives none.
pub open spec fn parse_string(wire: u8, s: Seq<u8>) -> Option<(Seq<char>, nat)> {
    match parse_delimited(wire, s) {
        Some((content, n)) => if valid_utf8(content) {
            Some((decode_utf8(content), n))
        } else {
            None
        },
        None => None,
    }
}

/// The 64-bit pattern that an `int32` is written as: its value in two's
/// complement, the sign carried into the upper half.
pub open spec fn int32_pattern(value: i32) -> nat {
    if value >= 0 {
        value as nat
    } else {
        (value + 0x1_0000_0000_0000_0000) as nat
    }
}

/// The `int32` that a reader takes from a 64-bit pattern: its lower half, in
/// two's complement.
pub open spec fn int32_of_pattern(pattern: nat) -> i32 {
    let low = pattern % 0x1_0000_0000;
    if low < 0x8000_0000 {
        low as i32
    } else {
        (low - 0x1_0000_0000) as i32
    }
}

/// An `int32` field: its key, then the value's pattern as one varint.
pub open spec fn int32_field(tag: u32, value: i32) -> Seq<u8> {
    key(tag, WIRE_VARINT) + varint(int32_pattern(value))
}

/// An `int32` field of a message that leaves it out when the value is zero.
pub open spec fn int32_field_or_none(tag: u32, value: i32) -> Seq<u8> {
    if value == 0 {
        Seq::empty()
    } else {
        int32_field(tag, value)
    }
}

/// Reads the value of an `int32` field from the head of `s`, which starts
/// behind the key.
pub open spec fn parse_int32(wire: u8, s: Seq<u8>) -> Option<(i32, nat)> {
    if wire != WIRE_VARINT {
        None
    } else {
        match parse_varint(s) {
            Some((pattern, n)) => Some((int32_of_pattern(pattern), n)),
            None => None,
        }
    }
}

/// The number of bytes that `prost::encoding::skip_field` passes over for a
/// group with field number `tag` whose content starts at the head of `s`, up to
/// and with the key that closes the group; none where it reports an error.
pub uninterp spec fn group_len(tag: u32, s: Seq<u8>) -> Option<nat>;

/// The length of the value of a field that a reader passes over unread, `s`
/// starting behind the key, where `group` is the length that a group would
/// have. There is none where the value is malformed or runs past the end of
/// `s`, or where the key closes a group that was never opened.
pub open spec fn unknown_len(wire: u8, s: Seq<u8>, group: Option<nat>) -> Option<nat> {
    if wire == WIRE_VARINT {
        match parse_varint(s) {
            Some((_, n)) => Some(n),
            None => None,
        }
    } else if wire == WIRE_FIXED64 {
        if s.len() >= 8 {
            Some(8nat)
        } else {
            None
        }
    } else if wire == WIRE_DELIMITED {
        match parse_delimited(wire, s) {
            Some((_, n)) => Some(n),
            None => None,
        }
    } else if wire == WIRE_START_GROUP {
        match group {
            Some(n) => if n <= s.len() {
                Some(n)
            } else {
                None
            },
            None => None,
        }
    } else if wire == WIRE_FIXED32 {
        if s.len() >= 4 {
            Some(4nat)
        } else {
            None
        }
    } else {
        None
    }
}

/// The length of the value of a field with number `tag` that a reader passes
/// over unread, `s` starting behind the key.
pub open spec fn parse_unknown(wire: u8, tag: u32, s: Seq<u8>) -> Option<nat> {
    unknown_len(wire, s, group_len(tag, s))
}

/// Appending `b` and then `c` is appending `b + c`.
pub proof fn lemma_concat_assoc(a: Seq<u8>, b: Seq<u8>, c: Seq<u8>)
    ensures
        a + b + c == a + (b + c),
{
    assert(a + b + c =~= a + (b + c));
}

/// Seven runs of bytes appended one after the other are the first, followed by
/// the second, followed by the third, and so on.
pub proof fn lemma_concat_nested(
    a: Seq<u8>,
    b: Seq<u8>,
    c: Seq<u8>,
    d: Seq<u8>,
    e: Seq<u8>,
    f: Seq<u8>,
    g: Seq<u8>,
)
    ensures
        a + b + c + d + e + f + g == a + (b + (c + (d + (e + (f + g))))),
{
    assert(a + b + c + d + e + f + g =~= a + (b + (c + (d + (e + (f + g))))));
}

/// The length of a length-delimited field: key, length and content.
pub proof fn lemma_delimited_field_len(tag: u32, content: Seq<u8>)
    ensures
        delimited_field(tag, content).len() == key(tag, WIRE_DELIMITED).len() + varint(
            content.len(),
        ).len() + content.len(),
        delimited_field_or_none(tag, content).len() >= content.len(),
{
}

/// A string field is at least as long as the string's bytes.
pub proof fn lemma_string_field_len(tag: u32, value: Seq<char>)
    ensures
        string_field_or_none(tag, value).len() >= encode_utf8(value).len(),
{
    lemma_delimited_field_len(tag, encode_utf8(value));
    if value.len() == 0 {
        assert(encode_utf8(value).len() == 0);
    }
}

/// Reading a key gives back the field number and the wire type that were
/// written, whatever follows the key.
pub proof fn lemma_parse_key_of_key(tag: u32, wire: u8, rest: Seq<u8>)
    requires
        1 <= tag <= MAX_TAG,
        wire <= 5,
    ensures
        parse_key(key(tag, wire) + rest) == Some((tag, wire, key(tag, wire).len())),
{
    lemma_parse_varint_of_varint((tag * 8 + wire) as nat, rest);
}

/// Reading the value of a length-delimited field gives back the content that
/// was written, whatever follows the field.
pub proof fn lemma_parse_delimited_of_delimited(content: Seq<u8>, rest: Seq<u8>)
    requires
        content.len() <= u64::MAX,
    ensures
        parse_delimited(WIRE_DELIMITED, delimited(content) + rest) == Some(
            (content, delimited(content).len()),
        ),
{
    let s = delimited(content) + rest;
    let n = varint(content.len()).len();
    assert(s =~= varint(content.len()) + (content + rest));
    lemma_parse_varint_of_varint(content.len(), content + rest);
    assert(s.subrange(n as int, (n + content.len()) as int) =~= content);
}

/// Reading the value of a string field gives back the string that was written,
/// whatever follows the field.
pub proof fn lemma_parse_string_of_string(value: Seq<char>, rest: Seq<u8>)
    requires
        encode_utf8(value).len() <= u64::MAX,
    ensures
        parse_string(WIRE_DELIMITED, delimited(encode_utf8(value)) + rest) == Some(
            (value, delimited(encode_utf8(value)).len()),
        ),
{
    lemma_parse_delimited_of_delimited(encode_utf8(value), rest);
    vstd::utf8::encode_utf8_valid_utf8(value);
    vstd::utf8::encode_utf8_decode_utf8(value);
}

/// The pattern of an `int32` fits in 64 bits, and a reader takes the same
/// `int32` from it.
pub proof fn lemma_int32_of_pattern(value: i32)
    ensures
        int32_pattern(value) <= u64::MAX,
        int32_of_pattern(int32_pattern(value)) == value,
{
}

/// Reading the value of an `int32` field gives back the number that was
/// written, whatever follows the field.
pub proof fn lemma_parse_int32_of_int32(value: i32, rest: Seq<u8>)
    ensures
        parse_int32(WIRE_VARINT, varint(int32_pattern(value)) + rest) == Some(
            (value, varint(int32_pattern(value)).len()),
        ),
{
    lemma_int32_of_pattern(value);
    lemma_parse_varint_of_varint(int32_pattern(value), rest);
}

/// The value of a length-delimited field lies within the input it is read from.
pub proof fn lemma_parse_delimited_fits(wire: u8, s: Seq<u8>)
    ensures
        parse_delimited(wire, s) matches Some((content, n)) ==> n <= s.len() && content.len()
            <= n,
{
    lemma_parse_varint_bounds(s);
}

/// The value of a field that is passed over lies within the input.
pub proof fn lemma_parse_unknown_fits(wire: u8, tag: u32, s: Seq<u8>)
    ensures
        parse_unknown(wire, tag, s) matches Some(n) ==> n <= s.len(),
{
    lemma_parse_varint_bounds(s);
}

/// Calls `prost::encoding::string::encode`, which appends to `buf` the key of a
/// length-delimited field, the string's length in bytes as a varint, and the
/// string's bytes. prost asserts that the field number is one a key can carry.
#[verifier::external_body]
pub(crate) fn put_string(tag: u32, value: &String, buf: &mut Vec<u8>)
    requires
        1 <= tag <= MAX_TAG,
    ensures
        final(buf)@ == old(buf)@ + string_field(tag, value@),
{
    prost::encoding::string::encode(tag, value, buf)
}

/// Calls `prost::encoding::bytes::encode`, which appends to `buf` the key of a
/// length-delimited field, the length of `value` as a varint, and `value`.
/// prost asserts that the field number is one a key can carry.
#[verifier::external_body]
pub(crate) fn put_bytes(tag: u32, value: &Vec<u8>, buf: &mut Vec<u8>)
    requires
        1 <= tag <= MAX_TAG,
    ensures
        final(buf)@ == old(buf)@ + delimited_field(tag, value@),
{
    prost::encoding::bytes::encode(tag, value, buf)
}

/// Calls `prost::encoding::int32::encode`, which appends to `buf` the key of a
/// varint field and `value`, widened to 64 bits with its sign, as a varint.
/// prost asserts that the field number is one a key can carry.
#[verifier::external_body]
pub(crate) fn put_int32(tag: u32, value: i32, buf: &mut Vec<u8>)
    requires
        1 <= tag <= MAX_TAG,
    ensures
        final(buf)@ == old(buf)@ + int32_field(tag, value),
{
    prost::encoding::int32::encode(tag, &value, buf)
}

/// Appends a string field to `buf` unless the string is empty.
pub fn put_string_or_none(tag: u32, value: &String, buf: &mut Vec<u8>)
    requires
        1 <= tag <= MAX_TAG,
    ensures
        final(buf)@ == old(buf)@ + string_field_or_none(tag, value@),
{
    if !value.as_str().is_empty() {
        put_string(tag, value, buf);
    } else {
        assert(buf@ =~= buf@ + Seq::<u8>::empty());
    }
}

/// Appends a length-delimited field to `buf` unless the content is empty.
pub fn put_bytes_or_none(tag: u32, value: &Vec<u8>, buf: &mut Vec<u8>)
    requires
        1 <= tag <= MAX_TAG,
    ensures
        final(buf)@ == old(buf)@ + delimited_field_or_none(tag, value@),
{
    if value.len() != 0 {
        put_bytes(tag, value, buf);
    } else {
        assert(buf@ =~= buf@ + Seq::<u8>::empty());
    }
}

/// Appends an `int32` field to `buf` unless the value is zero.
pub fn put_int32_or_none(tag: u32, value: i32, buf: &mut Vec<u8>)
    requires
        1 <= tag <= MAX_TAG,
    ensures
        final(buf)@ == old(buf)@ + int32_field_or_none(tag, value),
{
    if value != 0 {
        put_int32(tag, value, buf);
    } else {
        assert(buf@ =~= buf@ + Seq::<u8>::empty());
    }
}

/// The strings that `values` hold, in their order.
pub open spec fn strings_view(values: Seq<String>) -> Seq<Seq<char>> {
    Seq::new(values.len(), |i: int| values[i]@)
}

/// Appends to `buf` one string field for each of `values`.
pub fn put_strings(tag: u32, values: &Vec<String>, buf: &mut Vec<u8>)
    requires
        1 <= tag <= MAX_TAG,
    ensures
        final(buf)@ == old(buf)@ + repeated_string_field(tag, strings_view(values@)),
{
    let ghost start = buf@;
    let ghost all = strings_view(values@);
    let mut i: usize = 0;
    assert(all.skip(0) =~= all);
    while i < values.len()
        invariant
            1 <= tag <= MAX_TAG,
            i <= values.len(),
            all == strings_view(values@),
            buf@ + repeated_string_field(tag, all.skip(i as int)) == start
                + repeated_string_field(tag, all),
        decreases values.len() - i,
    {
        let ghost before = buf@;
        put_string(tag, &values[i], buf);
        proof {
            let tail = all.skip(i as int);
            assert(tail.skip(1) =~= all.skip(i + 1));
            assert(tail[0] == values@[i as int]@);
            lemma_concat_assoc(
                before,
                string_field(tag, tail[0]),
                repeated_string_field(tag, tail.skip(1)),
            );
        }
        i = i + 1;
    }
    assert(buf@ + Seq::<u8>::empty() =~= buf@);
}

/// Calls `prost::encoding::decode_key` on the head of `data`. It reads one
/// varint and fails where that is malformed, exceeds 32 bits, names a wire type
/// above five or the field number zero. Gives the field number, the wire type as
/// its number, and the input behind the key.
#[verifier::external_body]
pub(crate) fn take_key<'a>(data: &'a [u8]) -> (r: Result<(u32, u8, &'a [u8]), DecodeError>)
    ensures
        match parse_key(data@) {
            Some((tag, wire, n)) => r matches Ok(k) && k.0 == tag && k.1 == wire && k.2@
                == data@.skip(n as int),
            None => r is Err,
        },
{
    let mut buf = data;
    let (tag, wire_type) = prost::encoding::decode_key(&mut buf)?;
    Ok((tag, wire_type as u8, buf))
}

/// Calls `prost::encoding::string::merge` on the head of `data`, which starts
/// behind a key of wire type `wire`. It fails on another wire type than
/// length-delimited, on a malformed length, on a length beyond the end of the
/// input and on content that is not UTF-8. Gives the string and the input
/// behind the field. The number `wire` becomes prost's wire type through
/// `WireType::try_from`, which fails above five.
#[verifier::external_body]
pub(crate) fn take_string<'a>(wire: u8, data: &'a [u8]) -> (r: Result<
    (String, &'a [u8]),
    DecodeError,
>)
    ensures
        match parse_string(wire, data@) {
            Some((value, n)) => r matches Ok(k) && k.0@ == value && k.1@ == data@.skip(n as int),
            None => r is Err,
        },
{
    let mut buf = data;
    let mut value = String::new();
    let wire_type = WireType::try_from(u64::from(wire))?;
    prost::encoding::string::merge(wire_type, &mut value, &mut buf, DecodeContext::default())?;
    Ok((value, buf))
}

/// Calls `prost::encoding::bytes::merge` on the head of `data`, which starts
/// behind a key of wire type `wire`. It fails on another wire type than
/// length-delimited, on a malformed length and on a length beyond the end of
/// the input. Gives the content and the input behind the field. The number
/// `wire` becomes prost's wire type through `WireType::try_from`, which fails
/// above five.
#[verifier::external_body]
pub(crate) fn take_bytes<'a>(wire: u8, data: &'a [u8]) -> (r: Result<
    (Vec<u8>, &'a [u8]),
    DecodeError,
>)
    ensures
        match parse_delimited(wire, data@) {
            Some((value, n)) => r matches Ok(k) && k.0@ == value && k.1@ == data@.skip(n as int),
            None => r is Err,
        },
{
    let mut buf = data;
    let mut value: Vec<u8> = Vec::new();
    let wire_type = WireType::try_from(u64::from(wire))?;
    prost::encoding::bytes::merge(wire_type, &mut value, &mut buf, DecodeContext::default())?;
    Ok((value, buf))
}

/// Calls `prost::encoding::int32::merge` on the head of `data`, which starts
/// behind a key of wire type `wire`. It fails on another wire type than varint
/// and on a malformed varint, and keeps the lower 32 bits of what it read. Gives
/// the value and the input behind the field. The number `wire` becomes prost's
/// wire type through `WireType::try_from`, which fails above five.
#[verifier::external_body]
pub(crate) fn take_int32<'a>(wire: u8, data: &'a [u8]) -> (r: Result<(i32, &'a [u8]), DecodeError>)
    ensures
        match parse_int32(wire, data@) {
            Some((value, n)) => r matches Ok(k) && k.0 == value && k.1@ == data@.skip(n as int),
            None => r is Err,
        },
{
    let mut buf = data;
    let mut value: i32 = 0;
    let wire_type = WireType::try_from(u64::from(wire))?;
    prost::encoding::int32::merge(wire_type, &mut value, &mut buf, DecodeContext::default())?;
    Ok((value, buf))
}

/// Calls `prost::encoding::skip_field` on the head of `data`, which starts
/// behind a key with field number `tag` and wire type `wire`. It passes over one
/// varint, four or eight bytes, a length and that many bytes, or a group up to
/// its closing key, and fails where the input ends before that or a closing key
/// comes unopened. Gives the input behind the field. What it does with a group
/// is not spelled out here: [`group_len`] names it. The number `wire` becomes
/// prost's wire type through `WireType::try_from`, which fails above five.
#[verifier::external_body]
pub(crate) fn skip_unknown<'a>(wire: u8, tag: u32, data: &'a [u8]) -> (r: Result<
    &'a [u8],
    DecodeError,
>)
    ensures
        match unknown_len(wire, data@, group_len(tag, data@)) {
            Some(n) => r matches Ok(rest) && rest@ == data@.skip(n as int),
            None => r is Err,
        },
{
    let mut buf = data;
    let wire_type = WireType::try_from(u64::from(wire))?;
    prost::encoding::skip_field(wire_type, tag, &mut buf, DecodeContext::default())?;
    Ok(buf)
}

} // verus!
