use usp_builder::error::UspError;
use usp_builder::message::encode_to_vec;
use usp_builder::usp::{Body, Get, Header, Msg, MsgBody, MsgType, ReqType, Request};
use usp_builder::usp_record::{NoSessionContextRecord, PayloadSecurity, Record, RecordType};
use usp_builder::{build_get, decode_message, decode_record, UspRecord};

fn decode_and_assert(
    encoded: &[u8],
    expected_to_id: &str,
    expected_from_id: &str,
    expected_msg_type: MsgType,
    expected_msg_id: &str,
) -> Body {
    let decoded_record = decode_record(encoded).expect("Decoding failed");
    assert_eq!(decoded_record.version, "1.0");
    assert_eq!(decoded_record.to_id, expected_to_id);
    assert_eq!(decoded_record.from_id, expected_from_id);
    assert_eq!(
        decoded_record.payload_security,
        PayloadSecurity::Plaintext as i32
    );
    assert_eq!(decoded_record.mac_signature, vec![0x01, 0x02, 0x03]);
    assert_eq!(decoded_record.sender_cert, vec![0x04, 0x05, 0x06]);
    if let Some(RecordType::NoSessionContext(ns_record)) = decoded_record.record_type {
        match decode_message(&ns_record.payload[..]) {
            Ok(usp_msg) => {
                let header = usp_msg.header.expect("Header should be present");
                let body = usp_msg.body.expect("Body should be present");
                assert_eq!(header.msg_type, expected_msg_type as i32);
                assert_eq!(header.msg_id, expected_msg_id);
                return body;
            }
            Err(e) => panic!("Failed to decode USP Msg: {:?}", e),
        }
    } else {
        panic!("Expected NoSessionContextRecord");
    }
}

fn get_msg(msg_id: &str, paths: &[&str]) -> Msg {
    Msg {
        header: Some(Header {
            msg_id: msg_id.to_string(),
            msg_type: MsgType::Get as i32,
        }),
        body: Some(Body {
            msg_body: Some(MsgBody::Request(Request {
                req_type: Some(ReqType::Get(Get {
                    param_paths: paths.iter().map(|p| p.to_string()).collect(),
                })),
            })),
        }),
    }
}

fn builder() -> UspRecord {
    UspRecord::new(
        "1.0".to_string(),
        "controller456".to_string(),
        PayloadSecurity::Plaintext as i32,
        vec![0x01, 0x02, 0x03],
        vec![0x04, 0x05, 0x06],
    )
}

fn no_session(payload: &[u8]) -> RecordType {
    RecordType::NoSessionContext(NoSessionContextRecord {
        payload: payload.to_vec(),
    })
}

#[test]
fn test_protobuf_inclusion() {
    let get = Get {
        param_paths: vec!["example.path".to_string()],
    };
    let get_msg = Msg {
        header: Some(Header {
            msg_id: "12345".to_string(),
            msg_type: MsgType::Get as i32,
        }),
        body: Some(Body {
            msg_body: Some(MsgBody::Request(Request {
                req_type: Some(ReqType::Get(get)),
            })),
        }),
    };
    let get_msg_vec = encode_to_vec(&get_msg);

    let record = Record {
        version: "1.0".to_string(),
        to_id: String::from("device123"),
        from_id: String::from("controller456"),
        payload_security: PayloadSecurity::Plaintext as i32,
        mac_signature: vec![0x01, 0x02, 0x03],
        sender_cert: vec![0x04, 0x05, 0x06],
        record_type: Some(RecordType::NoSessionContext(NoSessionContextRecord {
            payload: get_msg_vec.clone(),
        })),
    };

    let encoded_record = encode_to_vec(&record);

    let body = decode_and_assert(
        &encoded_record,
        "device123",
        "controller456",
        MsgType::Get,
        "12345",
    );
    assert!(body.msg_body.is_some());
    if let Some(MsgBody::Request(req)) = body.msg_body {
        if let Some(ReqType::Get(get)) = req.req_type {
            assert_eq!(get.param_paths, vec!["example.path".to_string()]);
        } else {
            panic!("Expected Get request type");
        }
    } else {
        panic!("Expected Request MsgBody");
    }
}

#[test]
fn test_record_creation_and_encoding() {
    let version = "1.0".to_string();
    let from_id = "controller456".to_string();
    let payload_security = PayloadSecurity::Plaintext as i32;
    let mac_signature = vec![0x01, 0x02, 0x03];
    let sender_cert = vec![0x04, 0x05, 0x06];
    let mut usp_record = UspRecord::new(
        version,
        from_id,
        payload_security,
        mac_signature,
        sender_cert,
    );

    let encoded_get = usp_record
        .get("device123", &["example.path"])
        .expect("Failed to encode Get request");

    let body = decode_and_assert(
        &encoded_get,
        "device123",
        "controller456",
        MsgType::Get,
        "device123",
    );
    assert!(body.msg_body.is_some());
    if let Some(MsgBody::Request(req)) = body.msg_body {
        if let Some(ReqType::Get(get)) = req.req_type {
            assert_eq!(get.param_paths, vec!["example.path".to_string()]);
        } else {
            panic!("Expected Get request type");
        }
    } else {
        panic!("Expected Request MsgBody");
    }
}

#[test]
fn validate_names_missing_recipient_first() {
    let usp_record = builder();
    assert_eq!(usp_record.validate(), Err(UspError::ToIdNotSet));
}

#[test]
fn validate_names_missing_recipient_even_with_record_type() {
    let mut usp_record = builder();
    usp_record.set_record_type(&no_session(&[1]));
    assert_eq!(usp_record.validate(), Err(UspError::ToIdNotSet));
}

#[test]
fn validate_names_missing_record_type() {
    let mut usp_record = builder();
    usp_record.set_to_id("device123");
    assert_eq!(usp_record.validate(), Err(UspError::RecordTypeNotSet));
}

#[test]
fn validate_passes_with_both_set() {
    let mut usp_record = builder();
    usp_record.set_to_id("device123");
    usp_record.set_record_type(&no_session(&[1]));
    assert_eq!(usp_record.validate(), Ok(()));
}

#[test]
fn failed_validate_keeps_what_was_set() {
    let mut usp_record = builder();
    usp_record.set_to_id("device123");
    assert_eq!(usp_record.validate(), Err(UspError::RecordTypeNotSet));
    usp_record.set_record_type(&no_session(&[9]));
    assert_eq!(usp_record.validate(), Ok(()));
}

#[test]
fn setters_overwrite() {
    let mut usp_record = builder();
    usp_record.set_to_id("first");
    usp_record.set_to_id("second");
    usp_record.set_record_type(&no_session(&[1]));
    usp_record.set_record_type(&no_session(&[2]));
    assert_eq!(usp_record.validate(), Ok(()));
    let bytes = usp_record
        .encode_record("third", &no_session(&[3]))
        .unwrap();
    let record = decode_record(&bytes).unwrap();
    assert_eq!(record.to_id, "third");
    assert_eq!(record.record_type, Some(no_session(&[3])));
}

#[test]
fn encode_record_holds_all_fields() {
    let mut usp_record = builder();
    let bytes = usp_record
        .encode_record("device123", &no_session(&[0xde, 0xad]))
        .unwrap();
    let expected = Record {
        version: "1.0".to_string(),
        to_id: "device123".to_string(),
        from_id: "controller456".to_string(),
        payload_security: 0,
        mac_signature: vec![1, 2, 3],
        sender_cert: vec![4, 5, 6],
        record_type: Some(no_session(&[0xde, 0xad])),
    };
    assert_eq!(decode_record(&bytes), Ok(expected));
}

#[test]
fn encode_record_exact_bytes() {
    let mut usp_record = UspRecord::new(
        "1.0".to_string(),
        "c".to_string(),
        PayloadSecurity::Tls12 as i32,
        vec![0xaa],
        vec![0xbb, 0xcc],
    );
    let bytes = usp_record.encode_record("d", &no_session(&[7, 8, 9])).unwrap();
    let expected: Vec<u8> = vec![
        0x0a, 0x03, b'1', b'.', b'0', // version
        0x12, 0x01, b'd', // to_id
        0x1a, 0x01, b'c', // from_id
        0x20, 0x01, // payload_security
        0x2a, 0x01, 0xaa, // mac_signature
        0x32, 0x02, 0xbb, 0xcc, // sender_cert
        0x3a, 0x05, 0x12, 0x03, 7, 8, 9, // no_session_context
    ];
    assert_eq!(bytes, expected);
}

#[test]
fn reuse_gives_independent_records() {
    let mut usp_record = builder();
    let first = usp_record
        .encode_record("device-one", &no_session(&[1, 1]))
        .unwrap();
    let second = usp_record
        .encode_record("device-two", &no_session(&[2, 2, 2]))
        .unwrap();
    assert_ne!(first, second);

    let mut fresh = builder();
    let alone = fresh
        .encode_record("device-two", &no_session(&[2, 2, 2]))
        .unwrap();
    assert_eq!(second, alone);

    let first = decode_record(&first).unwrap();
    let second = decode_record(&second).unwrap();
    assert_eq!(first.to_id, "device-one");
    assert_eq!(first.record_type, Some(no_session(&[1, 1])));
    assert_eq!(second.to_id, "device-two");
    assert_eq!(second.record_type, Some(no_session(&[2, 2, 2])));
    assert_eq!(first.from_id, second.from_id);
}

#[test]
fn reuse_with_same_recipient_differs_by_payload() {
    let mut usp_record = builder();
    let first = usp_record.encode_record("device", &no_session(&[1])).unwrap();
    let second = usp_record.encode_record("device", &no_session(&[2])).unwrap();
    assert_ne!(first, second);
    let again = usp_record.encode_record("device", &no_session(&[1])).unwrap();
    assert_eq!(first, again);
}

#[test]
fn get_with_no_paths() {
    let mut usp_record = builder();
    let bytes = usp_record.get("device123", &[]).unwrap();
    let body = decode_and_assert(
        &bytes,
        "device123",
        "controller456",
        MsgType::Get,
        "device123",
    );
    match body.msg_body {
        Some(MsgBody::Request(Request {
            req_type: Some(ReqType::Get(get)),
        })) => assert_eq!(get.param_paths, Vec::<String>::new()),
        other => panic!("Expected Get request, found {:?}", other),
    }
}

#[test]
fn get_with_several_paths_keeps_their_order() {
    let mut usp_record = builder();
    let bytes = usp_record
        .get("device123", &["Device.B.", "Device.A.", "", "Device.B."])
        .unwrap();
    let record = decode_record(&bytes).unwrap();
    let payload = record.record_type.as_ref().unwrap().payload();
    let msg = decode_message(payload).unwrap();
    assert_eq!(
        msg,
        get_msg("device123", &["Device.B.", "Device.A.", "", "Device.B."])
    );
}

#[test]
fn get_payload_is_the_built_message() {
    let mut usp_record = builder();
    let bytes = usp_record.get("device123", &["example.path"]).unwrap();
    let record = decode_record(&bytes).unwrap();
    let payload = record.record_type.unwrap().payload().clone();
    assert_eq!(
        payload,
        build_get("device123", MsgType::Get, &["example.path"])
    );
}

#[test]
fn get_with_empty_recipient() {
    let mut usp_record = builder();
    let bytes = usp_record.get("", &["x"]).unwrap();
    let record = decode_record(&bytes).unwrap();
    assert_eq!(record.to_id, "");
    let msg = decode_message(record.record_type.unwrap().payload()).unwrap();
    assert_eq!(msg, get_msg("", &["x"]));
}

#[test]
fn build_get_exact_bytes() {
    let bytes = build_get("id", MsgType::Get, &["a.b", "c"]);
    let expected: Vec<u8> = vec![
        0x0a, 0x06, // header
        0x0a, 0x02, b'i', b'd', // msg_id
        0x10, 0x01, // msg_type
        0x12, 0x0c, // body
        0x0a, 0x0a, // request
        0x0a, 0x08, // get
        0x0a, 0x03, b'a', b'.', b'b', // param_paths
        0x0a, 0x01, b'c',
    ];
    assert_eq!(bytes, expected);
    assert_eq!(decode_message(&bytes), Ok(get_msg("id", &["a.b", "c"])));
}

#[test]
fn build_get_with_other_kind_and_no_paths() {
    let bytes = build_get("", MsgType::GetResp, &[]);
    let expected: Vec<u8> = vec![0x0a, 0x02, 0x10, 0x02, 0x12, 0x04, 0x0a, 0x02, 0x0a, 0x00];
    assert_eq!(bytes, expected);
    let msg = decode_message(&bytes).unwrap();
    assert_eq!(msg.header.unwrap().msg_type, 2);
}

#[test]
fn direct_record_round_trips_byte_for_byte() {
    let payload: Vec<u8> = (0..=255u8).chain(0..=99u8).collect();
    let record = Record {
        version: "1.1".to_string(),
        to_id: "os::012345-device".to_string(),
        from_id: "proto::controller".to_string(),
        payload_security: PayloadSecurity::Tls12 as i32,
        mac_signature: vec![0xff; 40],
        sender_cert: vec![0x30, 0x82, 0x00],
        record_type: Some(RecordType::NoSessionContext(NoSessionContextRecord {
            payload: payload.clone(),
        })),
    };
    let bytes = encode_to_vec(&record);
    let decoded = decode_record(&bytes).unwrap();
    assert_eq!(decoded, record);
    assert_eq!(decoded.record_type.as_ref().unwrap().payload(), &payload);
    assert_eq!(encode_to_vec(&decoded), bytes);
}

#[test]
fn error_texts() {
    assert_eq!(
        UspError::ToIdNotSet.message(),
        "to_id must be set before building the record"
    );
    assert_eq!(
        UspError::RecordTypeNotSet.message(),
        "Record type must be set before building the record"
    );
    let failure = decode_record(&[0x0a]).unwrap_err();
    assert!(matches!(failure, UspError::DecodeError(_)));
    assert!(failure
        .message()
        .starts_with("failed to decode Protobuf message"));
}

#[test]
fn decode_error_converts() {
    let failure = decode_record(&[0xff]).unwrap_err();
    match failure {
        UspError::DecodeError(e) => {
            let again: UspError = UspError::from(e.clone());
            assert_eq!(again, UspError::DecodeError(e));
        }
        other => panic!("Expected a decode error, found {:?}", other),
    }
}
