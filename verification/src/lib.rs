//! Construction, encoding and decoding of USP records and messages.
//!
//! A [`usp_record::Record`] is the outer envelope that routes an opaque payload;
//! a [`usp::Msg`] is the typed message that usually travels as that payload.
//! Both are laid out on the wire as Protocol Buffers messages. [`UspRecord`]
//! builds records that share a sender, and the messages to put in them.

pub mod error;
pub mod message;
pub mod usp;
pub mod usp_record;
pub mod wire;

use crate::error::UspError;
use crate::message::{decode, decoded, encode_to_vec, Message};
use crate::usp::{
    lemma_msg_round_trip, Body, BodyView, Get, GetView, Header, HeaderView, Msg, MsgBody,
    MsgBodyView, MsgType, MsgView, ReqType, ReqTypeView, Request, RequestView,
};
use crate::usp_record::{
    lemma_record_round_trip, NoSessionContextRecord, NoSessionContextRecordView, Record,
    RecordType, RecordTypeView, RecordView,
};
use crate::wire::{lemma_delimited_field_len, strings_view};
use vstd::prelude::*;

verus! {

/// The strings that `values` hold, in their order.
pub open spec fn strs_view(values: Seq<&str>) -> Seq<Seq<char>> {
    Seq::new(values.len(), |i: int| values[i]@)
}

/// The message that asks to read `param_paths`, named `msg_id` and of the kind
/// with number `msg_type`.
pub open spec fn get_msg(msg_id: Seq<char>, msg_type: i32, param_paths: Seq<Seq<char>>) -> MsgView {
    MsgView {
        header: Some(HeaderView { msg_id, msg_type }),
        body: Some(
            BodyView {
                msg_body: Some(
                    MsgBodyView::Request(
                        RequestView { req_type: Some(ReqTypeView::Get(GetView { param_paths })) },
                    ),
                ),
            },
        ),
    }
}

/// The record type of a record that stands alone and carries `payload`.
pub open spec fn no_session_context(payload: Seq<u8>) -> RecordTypeView {
    RecordTypeView::NoSessionContext(NoSessionContextRecordView { payload })
}

/// Copies the strings of `values` into a vector of their own.
fn owned_strings(values: &[&str]) -> (r: Vec<String>)
    ensures
        strings_view(r@) == strs_view(values@),
{
    let mut owned: Vec<String> = Vec::new();
    let mut i: usize = 0;
    while i < values.len()
        invariant
            i <= values.len(),
            owned@.len() == i,
            forall|j: int| 0 <= j < i ==> owned@[j]@ == values@[j]@,
        decreases values.len() - i,
    {
        owned.push(values[i].to_string());
        i = i + 1;
    }
    assert(strings_view(owned@) =~= strs_view(values@));
    owned
}

/// Builds the message that asks to read `param_paths`, which may be none, and
/// gives its bytes. The identifier may be empty.
pub fn build_get(msg_id: &str, msg_type: MsgType, param_paths: &[&str]) -> (r: Vec<u8>)
    ensures
        r@ == Msg::wire_bytes(get_msg(msg_id@, msg_type.spec_number(), strs_view(param_paths@))),
        decoded::<Msg>(r@) == Some(
            get_msg(msg_id@, msg_type.spec_number(), strs_view(param_paths@)),
        ),
{
    let get = Get { param_paths: owned_strings(param_paths) };
    let msg = Msg {
        header: Some(Header { msg_id: msg_id.to_string(), msg_type: msg_type.number() }),
        body: Some(
            Body { msg_body: Some(MsgBody::Request(Request { req_type: Some(ReqType::Get(get)) })) },
        ),
    };
    let bytes = encode_to_vec(&msg);
    proof {
        assert(bytes@.len() == bytes.len());
        lemma_msg_round_trip(msg@);
    }
    bytes
}

/// Decodes the record that `data` is the wire form of. What the builder asks
/// of a record is not asked here: a record without recipient decodes.
pub fn decode_record(data: &[u8]) -> (r: Result<Record, UspError>)
    ensures
        match decoded::<Record>(data@) {
            Some(v) => r matches Ok(record) && record@ == v,
            None => r matches Err(UspError::DecodeError(_)),
        },
{
    decode(data)
}

/// Decodes the message that `data` is the wire form of.
pub fn decode_message(data: &[u8]) -> (r: Result<Msg, UspError>)
    ensures
        match decoded::<Msg>(data@) {
            Some(v) => r matches Ok(msg) && msg@ == v,
            None => r matches Err(UspError::DecodeError(_)),
        },
{
    decode(data)
}

/// A builder of records that share version, sender and protection. The
/// recipient and the record type are set anew for each record.
pub struct UspRecord {
    version: String,
    to_id: Option<String>,
    from_id: String,
    payload_security: i32,
    mac_signature: Vec<u8>,
    sender_cert: Vec<u8>,
    record_type: Option<RecordType>,
}

/// A [`UspRecord`] as a mathematical value.
pub ghost struct UspRecordView {
    pub version: Seq<char>,
    pub to_id: Option<Seq<char>>,
    pub from_id: Seq<char>,
    pub payload_security: i32,
    pub mac_signature: Seq<u8>,
    pub sender_cert: Seq<u8>,
    pub record_type: Option<RecordTypeView>,
}

impl UspRecordView {
    /// The builder once the recipient is set.
    pub open spec fn with_to_id(self, to_id: Seq<char>) -> UspRecordView {
        UspRecordView { to_id: Some(to_id), ..self }
    }

    /// The builder once the record type is set.
    pub open spec fn with_record_type(self, record_type: RecordTypeView) -> UspRecordView {
        UspRecordView { record_type: Some(record_type), ..self }
    }

    /// Whether a record may be made: the recipient first, then the record type.
    pub open spec fn validated(self) -> Result<(), UspError> {
        if self.to_id is None {
            Err(UspError::ToIdNotSet)
        } else if self.record_type is None {
            Err(UspError::RecordTypeNotSet)
        } else {
            Ok(())
        }
    }

    /// The record that the builder makes for `to_id` and `record_type`: what the
    /// builder holds for all its records, and these two.
    pub open spec fn record(self, to_id: Seq<char>, record_type: RecordTypeView) -> RecordView {
        RecordView {
            version: self.version,
            to_id,
            from_id: self.from_id,
            payload_security: self.payload_security,
            mac_signature: self.mac_signature,
            sender_cert: self.sender_cert,
            record_type: Some(record_type),
        }
    }

    /// The record that the builder makes to ask `to_id` for `param_paths`: its
    /// payload is the message [`get_msg`], named after the recipient.
    pub open spec fn get_record(self, to_id: Seq<char>, param_paths: Seq<Seq<char>>) -> RecordView {
        self.record(
            to_id,
            no_session_context(
                Msg::wire_bytes(get_msg(to_id, MsgType::Get.spec_number(), param_paths)),
            ),
        )
    }
}

impl View for UspRecord {
    type V = UspRecordView;

    closed spec fn view(&self) -> UspRecordView {
        UspRecordView {
            version: self.version@,
            to_id: match self.to_id {
                Some(to_id) => Some(to_id@),
                None => None,
            },
            from_id: self.from_id@,
            payload_security: self.payload_security,
            mac_signature: self.mac_signature@,
            sender_cert: self.sender_cert@,
            record_type: crate::usp_record::record_type_view(self.record_type),
        }
    }
}

impl UspRecord {
    /// A builder for records of protocol version `version` from the endpoint
    /// `from_id`, protected as `payload_security` says and signed with
    /// `mac_signature` and `sender_cert`. Nothing is checked, and neither
    /// recipient nor record type is set.
    pub fn new(
        version: String,
        from_id: String,
        payload_security: i32,
        mac_signature: Vec<u8>,
        sender_cert: Vec<u8>,
    ) -> (r: Self)
        ensures
            r@ == (UspRecordView {
                version: version@,
                to_id: None,
                from_id: from_id@,
                payload_security,
                mac_signature: mac_signature@,
                sender_cert: sender_cert@,
                record_type: None,
            }),
    {
        UspRecord {
            version,
            to_id: None,
            from_id,
            payload_security,
            mac_signature,
            sender_cert,
            record_type: None,
        }
    }

    /// Sets the recipient of the next record, in place of any set before.
    pub fn set_to_id(&mut self, to_id: &str)
        ensures
            final(self)@ == old(self)@.with_to_id(to_id@),
    {
        self.to_id = Some(to_id.to_string());
    }

    /// Sets the record type of the next record, in place of any set before.
    pub fn set_record_type(&mut self, record_type: &RecordType)
        ensures
            final(self)@ == old(self)@.with_record_type(record_type@),
    {
        self.record_type = Some(record_type.clone());
    }

    /// Checks that a record may be made: fails with [`UspError::ToIdNotSet`]
    /// where no recipient is set, else with [`UspError::RecordTypeNotSet`] where
    /// no record type is set. The builder stays as it is.
    pub fn validate(&self) -> (r: Result<(), UspError>)
        ensures
            r == self@.validated(),
    {
        if self.to_id.is_none() {
            return Err(UspError::ToIdNotSet);
        }
        if self.record_type.is_none() {
            return Err(UspError::RecordTypeNotSet);
        }
        Ok(())
    }

    /// Makes the record for `to_id` that carries `record_type` and gives its
    /// bytes. Recipient and record type of the builder are set to these two,
    /// whatever they were, so the check cannot fail and the bytes hold nothing
    /// of an earlier record.
    pub fn encode_record(&mut self, to_id: &str, record_type: &RecordType) -> (r: Result<
        Vec<u8>,
        UspError,
    >)
        ensures
            final(self)@ == old(self)@.with_to_id(to_id@).with_record_type(record_type@),
            r matches Ok(bytes) && bytes@ == Record::wire_bytes(
                old(self)@.record(to_id@, record_type@),
            ) && decoded::<Record>(bytes@) == Some(old(self)@.record(to_id@, record_type@)),
    {
        self.set_to_id(to_id);
        self.set_record_type(record_type);
        self.validate()?;
        let record = Record {
            version: self.version.clone(),
            to_id: to_id.to_string(),
            from_id: self.from_id.clone(),
            payload_security: self.payload_security,
            mac_signature: self.mac_signature.clone(),
            sender_cert: self.sender_cert.clone(),
            record_type: Some(record_type.clone()),
        };
        let bytes = encode_to_vec(&record);
        proof {
            assert(bytes@.len() == bytes.len());
            lemma_record_round_trip(record@);
        }
        Ok(bytes)
    }

    /// Makes the record that asks `to_id` to read the parameters at `path`,
    /// which may be none, and gives its bytes. The message is named after the
    /// recipient and travels as the payload of a record that stands alone.
    pub fn get(&mut self, to_id: &str, path: &[&str]) -> (r: Result<Vec<u8>, UspError>)
        ensures
            final(self)@ == old(self)@.with_to_id(to_id@).with_record_type(
                no_session_context(
                    Msg::wire_bytes(
                        get_msg(to_id@, MsgType::Get.spec_number(), strs_view(path@)),
                    ),
                ),
            ),
            r matches Ok(bytes) && bytes@ == Record::wire_bytes(
                old(self)@.get_record(to_id@, strs_view(path@)),
            ) && decoded::<Record>(bytes@) == Some(
                old(self)@.get_record(to_id@, strs_view(path@)),
            ),
            decoded::<Msg>(
                Msg::wire_bytes(get_msg(to_id@, MsgType::Get.spec_number(), strs_view(path@))),
            ) == Some(get_msg(to_id@, MsgType::Get.spec_number(), strs_view(path@))),
    {
        let payload = build_get(to_id, MsgType::Get, path);
        let record_type = RecordType::NoSessionContext(NoSessionContextRecord { payload });
        self.encode_record(to_id, &record_type)
    }
}

/// A record that the builder made decodes to what went into it: the fields
/// that the builder holds for all its records, the recipient and the record
/// type.
pub proof fn lemma_built_record_round_trip(
    builder: UspRecordView,
    to_id: Seq<char>,
    record_type: RecordTypeView,
)
    requires
        Record::wire_bytes(builder.record(to_id, record_type)).len() <= u64::MAX,
    ensures
        decoded::<Record>(Record::wire_bytes(builder.record(to_id, record_type))) == Some(
            builder.record(to_id, record_type),
        ),
{
    lemma_record_round_trip(builder.record(to_id, record_type));
}

/// A record that the builder made to ask for parameters decodes to a record
/// that stands alone, and its payload decodes to the message that asks for
/// those parameters.
pub proof fn lemma_get_record_round_trip(
    builder: UspRecordView,
    to_id: Seq<char>,
    param_paths: Seq<Seq<char>>,
)
    requires
        Record::wire_bytes(builder.get_record(to_id, param_paths)).len() <= u64::MAX,
    ensures
        decoded::<Record>(Record::wire_bytes(builder.get_record(to_id, param_paths))) == Some(
            builder.get_record(to_id, param_paths),
        ),
        builder.get_record(to_id, param_paths).record_type matches Some(
            RecordTypeView::NoSessionContext(inner),
        ) && decoded::<Msg>(inner.payload) == Some(
            get_msg(to_id, MsgType::Get.spec_number(), param_paths),
        ),
{
    let msg = get_msg(to_id, MsgType::Get.spec_number(), param_paths);
    let payload = Msg::wire_bytes(msg);
    let inner = NoSessionContextRecordView { payload };
    lemma_record_round_trip(builder.get_record(to_id, param_paths));
    lemma_delimited_field_len(2, payload);
    lemma_delimited_field_len(7, NoSessionContextRecord::wire_bytes(inner));
    lemma_msg_round_trip(msg);
}

/// A builder can be used again. The record that it makes after another one is
/// the record that it would have made at first: recipient and record type of
/// the earlier record are gone. And two records that differ in recipient or
/// record type differ in their bytes.
pub proof fn lemma_reuse_independent(
    builder: UspRecordView,
    first_to_id: Seq<char>,
    first_record_type: RecordTypeView,
    second_to_id: Seq<char>,
    second_record_type: RecordTypeView,
)
    requires
        Record::wire_bytes(builder.record(first_to_id, first_record_type)).len() <= u64::MAX,
        Record::wire_bytes(builder.record(second_to_id, second_record_type)).len() <= u64::MAX,
    ensures
        builder.with_to_id(first_to_id).with_record_type(first_record_type).record(
            second_to_id,
            second_record_type,
        ) == builder.record(second_to_id, second_record_type),
        first_to_id != second_to_id || first_record_type != second_record_type
            ==> Record::wire_bytes(builder.record(first_to_id, first_record_type))
            != Record::wire_bytes(builder.record(second_to_id, second_record_type)),
{
    lemma_record_round_trip(builder.record(first_to_id, first_record_type));
    lemma_record_round_trip(builder.record(second_to_id, second_record_type));
}

/// Validation names the missing recipient first: a builder without recipient
/// fails with [`UspError::ToIdNotSet`], whether it has a record type or not.
pub proof fn lemma_validate_order(builder: UspRecordView)
    ensures
        builder.to_id is None ==> builder.validated() == Err::<(), UspError>(
            UspError::ToIdNotSet,
        ),
        builder.to_id is Some && builder.record_type is None ==> builder.validated() == Err::<
            (),
            UspError,
        >(UspError::RecordTypeNotSet),
        builder.to_id is Some && builder.record_type is Some ==> builder.validated() == Ok::<
            (),
            UspError,
        >(()),
{
}

} // verus!
