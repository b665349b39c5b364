//! The record: the envelope that carries a payload from one endpoint to
//! another, with what the receiver needs to route and to check it.

use crate::error::UspError;
use crate::message::{decoded, encode_to_vec, lemma_merged_field, merge, merged, Message};
use crate::wire::{
    WIRE_DELIMITED, WIRE_VARINT, delimited, delimited_field, delimited_field_or_none,
    int32_field_or_none, int32_pattern, key, lemma_concat_assoc, lemma_concat_nested,
    lemma_delimited_field_len, lemma_parse_delimited_fits, lemma_parse_delimited_of_delimited,
    lemma_parse_int32_of_int32, lemma_parse_string_of_string, lemma_parse_unknown_fits,
    lemma_parse_varint_bounds, lemma_string_field_len, parse_delimited, parse_int32, parse_string,
    parse_unknown, put_bytes, put_bytes_or_none, put_int32_or_none, put_string_or_none,
    skip_unknown, string_field_or_none, take_bytes, take_int32, take_string, varint,
};
use vstd::prelude::*;
use vstd::utf8::encode_utf8;

verus! {

/// How the payload of a record is protected.
#[derive(Debug, Clone, Copy, PartialEq, Eq)]
pub enum PayloadSecurity {
    /// The payload travels as it is.
    Plaintext,
    /// The payload is the stream of a TLS 1.2 session.
    Tls12,
}

impl PayloadSecurity {
    /// The number that stands for the mode on the wire.
    pub open spec fn spec_number(self) -> i32 {
        match self {
            PayloadSecurity::Plaintext => 0,
            PayloadSecurity::Tls12 => 1,
        }
    }

    /// The number that stands for the mode on the wire.
    pub fn number(self) -> (r: i32)
        ensures
            r == self.spec_number(),
    {
        match self {
            PayloadSecurity::Plaintext => 0,
            PayloadSecurity::Tls12 => 1,
        }
    }

    /// The mode that `number` stands for, if it stands for one.
    pub fn from_number(number: i32) -> (r: Option<PayloadSecurity>)
        ensures
            match r {
                Some(mode) => mode.spec_number() == number,
                None => number != 0 && number != 1,
            },
    {
        if number == 0 {
            Some(PayloadSecurity::Plaintext)
        } else if number == 1 {
            Some(PayloadSecurity::Tls12)
        } else {
            None
        }
    }
}

/// A record outside any session: its payload is one whole message.
#[derive(Debug, PartialEq, Eq)]
pub struct NoSessionContextRecord {
    /// The message, encoded.
    pub payload: Vec<u8>,
}

/// A [`NoSessionContextRecord`] as a mathematical value.
pub ghost struct NoSessionContextRecordView {
    pub payload: Seq<u8>,
}

impl View for NoSessionContextRecord {
    type V = NoSessionContextRecordView;

    open spec fn view(&self) -> NoSessionContextRecordView {
        NoSessionContextRecordView { payload: self.payload@ }
    }
}

impl Clone for NoSessionContextRecord {
    fn clone(&self) -> (r: Self)
        ensures
            r@ == self@,
    {
        NoSessionContextRecord { payload: self.payload.clone() }
    }
}

impl Message for NoSessionContextRecord {
    open spec fn unset() -> NoSessionContextRecordView {
        NoSessionContextRecordView { payload: Seq::empty() }
    }

    open spec fn wire_bytes(v: NoSessionContextRecordView) -> Seq<u8> {
        delimited_field_or_none(2, v.payload)
    }

    open spec fn field_merged(
        v: NoSessionContextRecordView,
        tag: u32,
        wire: u8,
        s: Seq<u8>,
    ) -> Option<(NoSessionContextRecordView, nat)> {
        if tag == 2 {
            match parse_delimited(wire, s) {
                Some((payload, n)) => Some((NoSessionContextRecordView { payload }, n)),
                None => None,
            }
        } else {
            match parse_unknown(wire, tag, s) {
                Some(n) => Some((v, n)),
                None => None,
            }
        }
    }

    proof fn lemma_field_fits(v: NoSessionContextRecordView, tag: u32, wire: u8, s: Seq<u8>) {
        lemma_parse_delimited_fits(wire, s);
        lemma_parse_unknown_fits(wire, tag, s);
    }

    fn new_unset() -> (r: Self) {
        NoSessionContextRecord { payload: Vec::new() }
    }

    fn encode_raw(&self, buf: &mut Vec<u8>) {
        if self.payload.len() != 0 {
            put_bytes(2, &self.payload, buf);
        }
    }

    fn merge_field<'a>(self, tag: u32, wire: u8, data: &'a [u8]) -> (r: Result<
        (Self, &'a [u8]),
        UspError,
    >) {
        if tag == 2 {
            match take_bytes(wire, data) {
                Ok((payload, rest)) => Ok((NoSessionContextRecord { payload }, rest)),
                Err(e) => Err(UspError::DecodeError(e)),
            }
        } else {
            match skip_unknown(wire, tag, data) {
                Ok(rest) => Ok((self, rest)),
                Err(e) => Err(UspError::DecodeError(e)),
            }
        }
    }
}

/// A record without session context comes back from its bytes as it was.
pub proof fn lemma_no_session_context_round_trip(v: NoSessionContextRecordView)
    requires
        NoSessionContextRecord::wire_bytes(v).len() <= u64::MAX,
    ensures
        merged::<NoSessionContextRecord>(
            NoSessionContextRecord::unset(),
            NoSessionContextRecord::wire_bytes(v),
        ) == Some(v),
{
    let unset = NoSessionContextRecord::unset();
    let none = Seq::<u8>::empty();
    if v.payload.len() == 0 {
        assert(v.payload =~= unset.payload);
    } else {
        lemma_parse_delimited_of_delimited(v.payload, none);
        lemma_merged_field::<NoSessionContextRecord>(
            unset,
            2,
            WIRE_DELIMITED,
            delimited(v.payload),
            none,
            v,
        );
        assert(NoSessionContextRecord::wire_bytes(v) =~= key(2, WIRE_DELIMITED)
            + delimited(v.payload) + none);
    }
}

/// What a record carries, by the kind of session it belongs to.
#[derive(Debug, PartialEq, Eq)]
pub enum RecordType {
    /// The record stands alone.
    NoSessionContext(NoSessionContextRecord),
}

/// A [`RecordType`] as a mathematical value.
pub ghost enum RecordTypeView {
    NoSessionContext(NoSessionContextRecordView),
}

impl View for RecordType {
    type V = RecordTypeView;

    open spec fn view(&self) -> RecordTypeView {
        match self {
            RecordType::NoSessionContext(inner) => RecordTypeView::NoSessionContext(inner@),
        }
    }
}

impl Clone for RecordType {
    fn clone(&self) -> (r: Self)
        ensures
            r@ == self@,
    {
        match self {
            RecordType::NoSessionContext(inner) => RecordType::NoSessionContext(inner.clone()),
        }
    }
}

impl RecordType {
    /// The payload that the record carries.
    pub open spec fn spec_payload(self) -> Seq<u8> {
        match self {
            RecordType::NoSessionContext(inner) => inner.payload@,
        }
    }

    /// The payload that the record carries.
    pub fn payload(&self) -> (r: &Vec<u8>)
        ensures
            r@ == self.spec_payload(),
    {
        match self {
            RecordType::NoSessionContext(inner) => &inner.payload,
        }
    }
}

/// The view of a record type that may be absent.
pub open spec fn record_type_view(record_type: Option<RecordType>) -> Option<RecordTypeView> {
    match record_type {
        Some(t) => Some(t@),
        None => None,
    }
}

/// The envelope: who sends the payload to whom, how it is protected, and the
/// payload itself.
#[derive(Debug, PartialEq, Eq)]
pub struct Record {
    /// The version of the protocol.
    pub version: String,
    /// The endpoint that the record is for.
    pub to_id: String,
    /// The endpoint that the record is from.
    pub from_id: String,
    /// How the payload is protected, as the number of a [`PayloadSecurity`].
    pub payload_security: i32,
    /// The message authentication code or signature over the record.
    pub mac_signature: Vec<u8>,
    /// The certificate of the sender.
    pub sender_cert: Vec<u8>,
    /// The payload, if the record has one.
    pub record_type: Option<RecordType>,
}

/// A [`Record`] as a mathematical value.
pub ghost struct RecordView {
    pub version: Seq<char>,
    pub to_id: Seq<char>,
    pub from_id: Seq<char>,
    pub payload_security: i32,
    pub mac_signature: Seq<u8>,
    pub sender_cert: Seq<u8>,
    pub record_type: Option<RecordTypeView>,
}

impl View for Record {
    type V = RecordView;

    open spec fn view(&self) -> RecordView {
        RecordView {
            version: self.version@,
            to_id: self.to_id@,
            from_id: self.from_id@,
            payload_security: self.payload_security,
            mac_signature: self.mac_signature@,
            sender_cert: self.sender_cert@,
            record_type: record_type_view(self.record_type),
        }
    }
}

impl Clone for Record {
    fn clone(&self) -> (r: Self)
        ensures
            r@ == self@,
    {
        Record {
            version: self.version.clone(),
            to_id: self.to_id.clone(),
            from_id: self.from_id.clone(),
            payload_security: self.payload_security,
            mac_signature: self.mac_signature.clone(),
            sender_cert: self.sender_cert.clone(),
            record_type: match &self.record_type {
                Some(t) => Some(t.clone()),
                None => None,
            },
        }
    }
}

/// The bytes of the payload field of a record.
pub open spec fn record_type_bytes(record_type: Option<RecordTypeView>) -> Seq<u8> {
    match record_type {
        Some(RecordTypeView::NoSessionContext(inner)) => delimited_field(
            7,
            NoSessionContextRecord::wire_bytes(inner),
        ),
        None => Seq::empty(),
    }
}

/// The record without session context that a payload field is merged into: the
/// one that the record holds, or an unset one.
pub open spec fn no_session_context_or_unset(
    record_type: Option<RecordTypeView>,
) -> NoSessionContextRecordView {
    match record_type {
        Some(RecordTypeView::NoSessionContext(inner)) => inner,
        None => NoSessionContextRecord::unset(),
    }
}

impl Message for Record {
    open spec fn unset() -> RecordView {
        RecordView {
            version: Seq::empty(),
            to_id: Seq::empty(),
            from_id: Seq::empty(),
            payload_security: 0,
            mac_signature: Seq::empty(),
            sender_cert: Seq::empty(),
            record_type: None,
        }
    }

    open spec fn wire_bytes(v: RecordView) -> Seq<u8> {
        string_field_or_none(1, v.version) + string_field_or_none(2, v.to_id)
            + string_field_or_none(3, v.from_id) + int32_field_or_none(4, v.payload_security)
            + delimited_field_or_none(5, v.mac_signature) + delimited_field_or_none(
            6,
            v.sender_cert,
        ) + record_type_bytes(v.record_type)
    }

    open spec fn field_merged(v: RecordView, tag: u32, wire: u8, s: Seq<u8>) -> Option<
        (RecordView, nat),
    > {
        if tag == 1 {
            match parse_string(wire, s) {
                Some((version, n)) => Some((RecordView { version, ..v }, n)),
                None => None,
            }
        } else if tag == 2 {
            match parse_string(wire, s) {
                Some((to_id, n)) => Some((RecordView { to_id, ..v }, n)),
                None => None,
            }
        } else if tag == 3 {
            match parse_string(wire, s) {
                Some((from_id, n)) => Some((RecordView { from_id, ..v }, n)),
                None => None,
            }
        } else if tag == 4 {
            match parse_int32(wire, s) {
                Some((payload_security, n)) => Some((RecordView { payload_security, ..v }, n)),
                None => None,
            }
        } else if tag == 5 {
            match parse_delimited(wire, s) {
                Some((mac_signature, n)) => Some((RecordView { mac_signature, ..v }, n)),
                None => None,
            }
        } else if tag == 6 {
            match parse_delimited(wire, s) {
                Some((sender_cert, n)) => Some((RecordView { sender_cert, ..v }, n)),
                None => None,
            }
        } else if tag == 7 {
            match parse_delimited(wire, s) {
                Some((content, n)) => match merged::<NoSessionContextRecord>(
                    no_session_context_or_unset(v.record_type),
                    content,
                ) {
                    Some(inner) => Some(
                        (
                            RecordView {
                                record_type: Some(RecordTypeView::NoSessionContext(inner)),
                                ..v
                            },
                            n,
                        ),
                    ),
                    None => None,
                },
                None => None,
            }
        } else {
            match parse_unknown(wire, tag, s) {
                Some(n) => Some((v, n)),
                None => None,
            }
        }
    }

    proof fn lemma_field_fits(v: RecordView, tag: u32, wire: u8, s: Seq<u8>) {
        lemma_parse_delimited_fits(wire, s);
        lemma_parse_unknown_fits(wire, tag, s);
        lemma_parse_varint_bounds(s);
    }

    fn new_unset() -> (r: Self) {
        Record {
            version: String::new(),
            to_id: String::new(),
            from_id: String::new(),
            payload_security: 0,
            mac_signature: Vec::new(),
            sender_cert: Vec::new(),
            record_type: None,
        }
    }

    fn encode_raw(&self, buf: &mut Vec<u8>) {
        let ghost start = buf@;
        let ghost version = string_field_or_none(1, self@.version);
        let ghost to_id = string_field_or_none(2, self@.to_id);
        let ghost from_id = string_field_or_none(3, self@.from_id);
        let ghost payload_security = int32_field_or_none(4, self@.payload_security);
        let ghost mac_signature = delimited_field_or_none(5, self@.mac_signature);
        let ghost sender_cert = delimited_field_or_none(6, self@.sender_cert);
        let ghost record_type = record_type_bytes(self@.record_type);
        put_string_or_none(1, &self.version, buf);
        put_string_or_none(2, &self.to_id, buf);
        assert(buf@ == start + (version + to_id)) by {
            lemma_concat_assoc(start, version, to_id);
        }
        put_string_or_none(3, &self.from_id, buf);
        assert(buf@ == start + (version + to_id + from_id)) by {
            lemma_concat_assoc(start, version + to_id, from_id);
        }
        put_int32_or_none(4, self.payload_security, buf);
        assert(buf@ == start + (version + to_id + from_id + payload_security)) by {
            lemma_concat_assoc(start, version + to_id + from_id, payload_security);
        }
        put_bytes_or_none(5, &self.mac_signature, buf);
        assert(buf@ == start + (version + to_id + from_id + payload_security + mac_signature))
            by {
            lemma_concat_assoc(
                start,
                version + to_id + from_id + payload_security,
                mac_signature,
            );
        }
        put_bytes_or_none(6, &self.sender_cert, buf);
        assert(buf@ == start + (version + to_id + from_id + payload_security + mac_signature
            + sender_cert)) by {
            lemma_concat_assoc(
                start,
                version + to_id + from_id + payload_security + mac_signature,
                sender_cert,
            );
        }
        let ghost fields = buf@;
        match &self.record_type {
            Some(RecordType::NoSessionContext(inner)) => {
                let content = encode_to_vec(inner);
                put_bytes(7, &content, buf);
            },
            None => {
                assert(buf@ =~= fields + Seq::<u8>::empty());
            },
        }
        assert(buf@ == fields + record_type);
        assert(buf@ == start + Record::wire_bytes(self@)) by {
            lemma_concat_assoc(
                start,
                version + to_id + from_id + payload_security + mac_signature + sender_cert,
                record_type,
            );
        }
    }

    fn merge_field<'a>(self, tag: u32, wire: u8, data: &'a [u8]) -> (r: Result<
        (Self, &'a [u8]),
        UspError,
    >) {
        let mut record = self;
        if tag == 1 {
            match take_string(wire, data) {
                Ok((version, rest)) => {
                    record.version = version;
                    Ok((record, rest))
                },
                Err(e) => Err(UspError::DecodeError(e)),
            }
        } else if tag == 2 {
            match take_string(wire, data) {
                Ok((to_id, rest)) => {
                    record.to_id = to_id;
                    Ok((record, rest))
                },
                Err(e) => Err(UspError::DecodeError(e)),
            }
        } else if tag == 3 {
            match take_string(wire, data) {
                Ok((from_id, rest)) => {
                    record.from_id = from_id;
                    Ok((record, rest))
                },
                Err(e) => Err(UspError::DecodeError(e)),
            }
        } else if tag == 4 {
            match take_int32(wire, data) {
                Ok((payload_security, rest)) => {
                    record.payload_security = payload_security;
                    Ok((record, rest))
                },
                Err(e) => Err(UspError::DecodeError(e)),
            }
        } else if tag == 5 {
            match take_bytes(wire, data) {
                Ok((mac_signature, rest)) => {
                    record.mac_signature = mac_signature;
                    Ok((record, rest))
                },
                Err(e) => Err(UspError::DecodeError(e)),
            }
        } else if tag == 6 {
            match take_bytes(wire, data) {
                Ok((sender_cert, rest)) => {
                    record.sender_cert = sender_cert;
                    Ok((record, rest))
                },
                Err(e) => Err(UspError::DecodeError(e)),
            }
        } else if tag == 7 {
            match take_bytes(wire, data) {
                Ok((content, rest)) => {
                    let held = match record.record_type {
                        Some(RecordType::NoSessionContext(inner)) => inner,
                        None => NoSessionContextRecord::new_unset(),
                    };
                    match merge(held, content.as_slice()) {
                        Ok(inner) => {
                            record.record_type = Some(RecordType::NoSessionContext(inner));
                            Ok((record, rest))
                        },
                        Err(e) => Err(e),
                    }
                },
                Err(e) => Err(UspError::DecodeError(e)),
            }
        } else {
            match skip_unknown(wire, tag, data) {
                Ok(rest) => Ok((record, rest)),
                Err(e) => Err(UspError::DecodeError(e)),
            }
        }
    }
}

/// A record comes back from its bytes as it was.
pub proof fn lemma_record_round_trip(v: RecordView)
    requires
        Record::wire_bytes(v).len() <= u64::MAX,
    ensures
        decoded::<Record>(Record::wire_bytes(v)) == Some(v),
{
    let f1 = string_field_or_none(1, v.version);
    let f2 = string_field_or_none(2, v.to_id);
    let f3 = string_field_or_none(3, v.from_id);
    let f4 = int32_field_or_none(4, v.payload_security);
    let f5 = delimited_field_or_none(5, v.mac_signature);
    let f6 = delimited_field_or_none(6, v.sender_cert);
    let f7 = record_type_bytes(v.record_type);
    let t6 = f7;
    let t5 = f6 + t6;
    let t4 = f5 + t5;
    let t3 = f4 + t4;
    let t2 = f3 + t3;
    let t1 = f2 + t2;
    let u0 = Record::unset();
    let u1 = RecordView { version: v.version, ..u0 };
    let u2 = RecordView { to_id: v.to_id, ..u1 };
    let u3 = RecordView { from_id: v.from_id, ..u2 };
    let u4 = RecordView { payload_security: v.payload_security, ..u3 };
    let u5 = RecordView { mac_signature: v.mac_signature, ..u4 };
    let u6 = RecordView { sender_cert: v.sender_cert, ..u5 };
    lemma_record_parts_fit(v);
    lemma_concat_nested(f1, f2, f3, f4, f5, f6, f7);
    assert(v.version.len() == 0 ==> v.version =~= u0.version);
    assert(v.to_id.len() == 0 ==> v.to_id =~= u1.to_id);
    assert(v.from_id.len() == 0 ==> v.from_id =~= u2.from_id);
    assert(v.mac_signature.len() == 0 ==> v.mac_signature =~= u4.mac_signature);
    assert(v.sender_cert.len() == 0 ==> v.sender_cert =~= u5.sender_cert);
    lemma_record_string_step(u0, u1, 1, v.version, t1);
    lemma_record_string_step(u1, u2, 2, v.to_id, t2);
    lemma_record_string_step(u2, u3, 3, v.from_id, t3);
    lemma_record_int32_step(u3, u4, v.payload_security, t4);
    lemma_record_bytes_step(u4, u5, 5, v.mac_signature, t5);
    lemma_record_bytes_step(u5, u6, 6, v.sender_cert, t6);
    lemma_record_type_step(u6, v);
}

/// No part of a record is longer than the record's bytes.
proof fn lemma_record_parts_fit(v: RecordView)
    requires
        Record::wire_bytes(v).len() <= u64::MAX,
    ensures
        encode_utf8(v.version).len() <= u64::MAX,
        encode_utf8(v.to_id).len() <= u64::MAX,
        encode_utf8(v.from_id).len() <= u64::MAX,
        v.mac_signature.len() <= u64::MAX,
        v.sender_cert.len() <= u64::MAX,
        record_type_bytes(v.record_type).len() <= u64::MAX,
{
    lemma_string_field_len(1, v.version);
    lemma_string_field_len(2, v.to_id);
    lemma_string_field_len(3, v.from_id);
    lemma_delimited_field_len(5, v.mac_signature);
    lemma_delimited_field_len(6, v.sender_cert);
}

/// Merging the payload security of a record as it was written sets it.
proof fn lemma_record_int32_step(u: RecordView, next: RecordView, value: i32, rest: Seq<u8>)
    requires
        next == (RecordView { payload_security: value, ..u }),
        value == 0 ==> next == u,
    ensures
        merged::<Record>(u, int32_field_or_none(4, value) + rest) == merged::<Record>(next, rest),
{
    if value == 0 {
        assert(int32_field_or_none(4, value) + rest =~= rest);
    } else {
        lemma_parse_int32_of_int32(value, rest);
        lemma_merged_field::<Record>(
            u,
            4,
            WIRE_VARINT,
            varint(int32_pattern(value)),
            rest,
            next,
        );
    }
}

/// Merging the payload field of a record as it was written, into a record
/// that has none yet, sets it.
proof fn lemma_record_type_step(u: RecordView, v: RecordView)
    requires
        u.record_type is None,
        v == (RecordView { record_type: v.record_type, ..u }),
        record_type_bytes(v.record_type).len() <= u64::MAX,
    ensures
        merged::<Record>(u, record_type_bytes(v.record_type)) == Some(v),
{
    let none = Seq::<u8>::empty();
    match v.record_type {
        Some(RecordTypeView::NoSessionContext(inner)) => {
            let content = NoSessionContextRecord::wire_bytes(inner);
            lemma_delimited_field_len(7, content);
            lemma_no_session_context_round_trip(inner);
            lemma_parse_delimited_of_delimited(content, none);
            lemma_merged_field::<Record>(u, 7, WIRE_DELIMITED, delimited(content), none, v);
            assert(record_type_bytes(v.record_type) =~= key(7, WIRE_DELIMITED)
                + delimited(content) + none);
        },
        None => {
            assert(u == v);
        },
    }
}

/// Merging a string field of a record as it was written sets that string.
proof fn lemma_record_string_step(
    u: RecordView,
    next: RecordView,
    tag: u32,
    value: Seq<char>,
    rest: Seq<u8>,
)
    requires
        1 <= tag <= 3,
        encode_utf8(value).len() <= u64::MAX,
        value.len() == 0 ==> next == u,
        tag == 1 ==> next == (RecordView { version: value, ..u }),
        tag == 2 ==> next == (RecordView { to_id: value, ..u }),
        tag == 3 ==> next == (RecordView { from_id: value, ..u }),
    ensures
        merged::<Record>(u, string_field_or_none(tag, value) + rest) == merged::<Record>(
            next,
            rest,
        ),
{
    if value.len() == 0 {
        assert(string_field_or_none(tag, value) + rest =~= rest);
    } else {
        lemma_parse_string_of_string(value, rest);
        lemma_merged_field::<Record>(
            u,
            tag,
            WIRE_DELIMITED,
            delimited(encode_utf8(value)),
            rest,
            next,
        );
    }
}

/// Merging a bytes field of a record as it was written sets those bytes.
proof fn lemma_record_bytes_step(
    u: RecordView,
    next: RecordView,
    tag: u32,
    value: Seq<u8>,
    rest: Seq<u8>,
)
    requires
        5 <= tag <= 6,
        value.len() <= u64::MAX,
        value.len() == 0 ==> next == u,
        tag == 5 ==> next == (RecordView { mac_signature: value, ..u }),
        tag == 6 ==> next == (RecordView { sender_cert: value, ..u }),
    ensures
        merged::<Record>(u, delimited_field_or_none(tag, value) + rest) == merged::<Record>(
            next,
            rest,
        ),
{
    if value.len() == 0 {
        assert(delimited_field_or_none(tag, value) + rest =~= rest);
    } else {
        lemma_parse_delimited_of_delimited(value, rest);
        lemma_merged_field::<Record>(u, tag, WIRE_DELIMITED, delimited(value), rest, next);
    }
}

} // verus!
