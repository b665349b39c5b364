use usp_builder::error::UspError;
use usp_builder::message::{decode, encode_to_vec, merge, Message};
use usp_builder::usp::{Body, Get, Header, Msg, MsgBody, MsgType, ReqType, Request};
use usp_builder::usp_record::{NoSessionContextRecord, PayloadSecurity, Record, RecordType};
use usp_builder::{decode_message, decode_record};

fn empty_record() -> Record {
    Record {
        version: String::new(),
        to_id: String::new(),
        from_id: String::new(),
        payload_security: 0,
        mac_signature: Vec::new(),
        sender_cert: Vec::new(),
        record_type: None,
    }
}

fn is_decode_error<T: std::fmt::Debug>(r: Result<T, UspError>) -> bool {
    matches!(r, Err(UspError::DecodeError(_)))
}

#[test]
fn unset_record_is_no_bytes() {
    assert_eq!(encode_to_vec(&empty_record()), Vec::<u8>::new());
    assert_eq!(decode_record(&[]), Ok(empty_record()));
    assert_eq!(Record::new_unset(), empty_record());
}

#[test]
fn unset_message_is_no_bytes() {
    let msg = Msg {
        header: None,
        body: None,
    };
    assert_eq!(encode_to_vec(&msg), Vec::<u8>::new());
    assert_eq!(decode_message(&[]), Ok(msg));
}

#[test]
fn present_but_empty_parts_are_written() {
    let msg = Msg {
        header: Some(Header {
            msg_id: String::new(),
            msg_type: 0,
        }),
        body: Some(Body { msg_body: None }),
    };
    let bytes = encode_to_vec(&msg);
    assert_eq!(bytes, vec![0x0a, 0x00, 0x12, 0x00]);
    assert_eq!(decode_message(&bytes), Ok(msg));

    let record = Record {
        record_type: Some(RecordType::NoSessionContext(NoSessionContextRecord {
            payload: Vec::new(),
        })),
        ..empty_record()
    };
    let bytes = encode_to_vec(&record);
    assert_eq!(bytes, vec![0x3a, 0x00]);
    assert_eq!(decode_record(&bytes), Ok(record));
}

#[test]
fn length_of_two_bytes() {
    let record = Record {
        mac_signature: vec![0x5a; 300],
        ..empty_record()
    };
    let bytes = encode_to_vec(&record);
    assert_eq!(bytes.len(), 303);
    assert_eq!(&bytes[..3], &[0x2a, 0xac, 0x02]);
    assert_eq!(decode_record(&bytes), Ok(record));
}

#[test]
fn negative_number_takes_ten_bytes() {
    let record = Record {
        payload_security: -1,
        ..empty_record()
    };
    let bytes = encode_to_vec(&record);
    assert_eq!(
        bytes,
        vec![0x20, 0xff, 0xff, 0xff, 0xff, 0xff, 0xff, 0xff, 0xff, 0xff, 0x01]
    );
    assert_eq!(decode_record(&bytes), Ok(record));
}

#[test]
fn extreme_numbers_round_trip() {
    for value in [i32::MIN, -2, 1, 127, 128, 16384, i32::MAX] {
        let header = Header {
            msg_id: "m".to_string(),
            msg_type: value,
        };
        let bytes = encode_to_vec(&header);
        assert_eq!(decode::<Header>(&bytes), Ok(header));
    }
}

#[test]
fn number_keeps_its_lower_half() {
    // 2^32 + 5 as a varint
    let bytes = [0x20, 0x85, 0x80, 0x80, 0x80, 0x10];
    assert_eq!(decode_record(&bytes).unwrap().payload_security, 5);
}

#[test]
fn text_beyond_ascii_round_trips() {
    let record = Record {
        to_id: "ger\u{e4}t-\u{4e2d}-\u{1f600}".to_string(),
        ..empty_record()
    };
    let bytes = encode_to_vec(&record);
    assert_eq!(bytes[0], 0x12);
    assert_eq!(bytes[1] as usize, "ger\u{e4}t-\u{4e2d}-\u{1f600}".len());
    assert_eq!(decode_record(&bytes), Ok(record));
}

#[test]
fn text_that_is_not_utf8_fails() {
    assert!(is_decode_error(decode_record(&[0x0a, 0x02, 0xc3, 0x28])));
}

#[test]
fn input_that_ends_early_fails() {
    assert!(is_decode_error(decode_record(&[0x0a])));
    assert!(is_decode_error(decode_record(&[0x0a, 0x05, b'a'])));
    assert!(is_decode_error(decode_record(&[0x20])));
    assert!(is_decode_error(decode_record(&[0x20, 0x80])));
    assert!(is_decode_error(decode_record(&[0x3a, 0x03, 0x12, 0x05, 1])));
}

#[test]
fn wrong_wire_type_fails() {
    // field 1 of a record as a varint
    assert!(is_decode_error(decode_record(&[0x08, 0x01])));
    // field 4 of a record as length-delimited
    assert!(is_decode_error(decode_record(&[0x22, 0x01, 0x00])));
    // field 7 of a record as a varint
    assert!(is_decode_error(decode_record(&[0x38, 0x01])));
}

#[test]
fn malformed_key_fails() {
    // field number zero
    assert!(is_decode_error(decode_record(&[0x02, 0x00])));
    // wire types six and seven
    assert!(is_decode_error(decode_record(&[0x0e])));
    assert!(is_decode_error(decode_record(&[0x0f])));
    // a key wider than 32 bits
    assert!(is_decode_error(decode_record(&[
        0x80, 0x80, 0x80, 0x80, 0x10
    ])));
}

#[test]
fn varint_past_ten_bytes_fails() {
    let eleven = [
        0x20, 0x80, 0x80, 0x80, 0x80, 0x80, 0x80, 0x80, 0x80, 0x80, 0x80, 0x01,
    ];
    assert!(is_decode_error(decode_record(&eleven)));
    let overflow = [
        0x20, 0xff, 0xff, 0xff, 0xff, 0xff, 0xff, 0xff, 0xff, 0xff, 0x02,
    ];
    assert!(is_decode_error(decode_record(&overflow)));
}

#[test]
fn padded_varint_is_read() {
    let bytes = [0x20, 0x81, 0x80, 0x00];
    assert_eq!(decode_record(&bytes).unwrap().payload_security, 1);
}

#[test]
fn unknown_fields_are_passed_over() {
    let mut bytes = vec![0x12, 0x01, b'd'];
    bytes.extend_from_slice(&[0x78, 0x96, 0x01]); // field 15, varint
    bytes.extend_from_slice(&[0x42, 0x02, 0xaa, 0xbb]); // field 8, length-delimited
    bytes.extend_from_slice(&[0x7d, 1, 2, 3, 4]); // field 15, four bytes
    bytes.extend_from_slice(&[0x79, 1, 2, 3, 4, 5, 6, 7, 8]); // field 15, eight bytes
    bytes.extend_from_slice(&[0x7b, 0x08, 0x01, 0x7c]); // field 15, a group
    bytes.extend_from_slice(&[0x1a, 0x01, b'c']);
    let record = decode_record(&bytes).unwrap();
    assert_eq!(
        record,
        Record {
            to_id: "d".to_string(),
            from_id: "c".to_string(),
            ..empty_record()
        }
    );
}

#[test]
fn unknown_field_that_ends_early_fails() {
    assert!(is_decode_error(decode_record(&[0x7d, 1, 2, 3])));
    assert!(is_decode_error(decode_record(&[0x79, 1, 2, 3, 4, 5, 6, 7])));
    assert!(is_decode_error(decode_record(&[0x42, 0x03, 0xaa])));
    assert!(is_decode_error(decode_record(&[0x78])));
    assert!(is_decode_error(decode_record(&[0x7b, 0x08, 0x01])));
    // a group closed that was never opened
    assert!(is_decode_error(decode_record(&[0x7c])));
}

#[test]
fn unknown_field_inside_nested_message() {
    // a Get with an unknown four-byte field 2 behind its path
    let get = [0x0a, 0x01, b'p', 0x15, 0, 0, 0, 1];
    let mut request = vec![0x0a, get.len() as u8];
    request.extend_from_slice(&get);
    let mut body = vec![0x0a, request.len() as u8];
    body.extend_from_slice(&request);
    let mut msg = vec![0x12, body.len() as u8];
    msg.extend_from_slice(&body);
    let decoded = decode_message(&msg).unwrap();
    assert_eq!(
        decoded,
        Msg {
            header: None,
            body: Some(Body {
                msg_body: Some(MsgBody::Request(Request {
                    req_type: Some(ReqType::Get(Get {
                        param_paths: vec!["p".to_string()]
                    }))
                }))
            })
        }
    );
}

#[test]
fn later_value_replaces_earlier() {
    let bytes = [0x12, 0x01, b'a', 0x12, 0x02, b'b', b'c', 0x20, 0x01, 0x20, 0x00];
    let record = decode_record(&bytes).unwrap();
    assert_eq!(record.to_id, "bc");
    assert_eq!(record.payload_security, 0);
}

#[test]
fn repeated_nested_message_is_merged() {
    // two header fields: the first names the message, the second gives its kind
    let bytes = [0x0a, 0x03, 0x0a, 0x01, b'x', 0x0a, 0x02, 0x10, 0x03];
    let msg = decode_message(&bytes).unwrap();
    assert_eq!(
        msg.header,
        Some(Header {
            msg_id: "x".to_string(),
            msg_type: MsgType::Notify as i32
        })
    );
    // two requests to read: their paths are joined
    let bytes = [
        0x0a, 0x05, 0x0a, 0x03, 0x0a, 0x01, b'a', 0x0a, 0x05, 0x0a, 0x03, 0x0a, 0x01, b'b',
    ];
    let body = decode::<Body>(&bytes).unwrap();
    assert_eq!(
        body,
        Body {
            msg_body: Some(MsgBody::Request(Request {
                req_type: Some(ReqType::Get(Get {
                    param_paths: vec!["a".to_string(), "b".to_string()]
                }))
            }))
        }
    );
}

#[test]
fn nested_message_must_fill_its_length() {
    // the payload field of the nested record claims more than the nested record has
    assert!(is_decode_error(decode_record(&[
        0x3a, 0x03, 0x12, 0x02, 1, 9, 9
    ])));
    // the nested record ends in the middle of a key
    assert!(is_decode_error(decode_record(&[0x3a, 0x01, 0x80, 0x01])));
}

#[test]
fn merge_starts_from_what_is_held() {
    let held = Record {
        version: "1.0".to_string(),
        to_id: "old".to_string(),
        ..empty_record()
    };
    let merged = merge(held, &[0x12, 0x03, b'n', b'e', b'w']).unwrap();
    assert_eq!(merged.version, "1.0");
    assert_eq!(merged.to_id, "new");
}

#[test]
fn encode_raw_appends() {
    let record = NoSessionContextRecord {
        payload: vec![1, 2],
    };
    let mut buf = vec![0xee];
    record.encode_raw(&mut buf);
    assert_eq!(buf, vec![0xee, 0x12, 0x02, 1, 2]);
}

#[test]
fn merge_field_reads_one_field() {
    let header = Header::new_unset();
    let (header, rest) = header.merge_field(1, 2, &[0x02, b'i', b'd', 0x10, 0x01]).unwrap();
    assert_eq!(header.msg_id, "id");
    assert_eq!(rest, &[0x10, 0x01]);
    let (header, rest) = header.merge_field(2, 0, &[0x07, 0xaa]).unwrap();
    assert_eq!(header.msg_type, 7);
    assert_eq!(rest, &[0xaa]);
    let (header, rest) = header.merge_field(9, 5, &[1, 2, 3, 4, 5]).unwrap();
    assert_eq!(rest, &[5]);
    assert_eq!(
        header,
        Header {
            msg_id: "id".to_string(),
            msg_type: 7
        }
    );
}

#[test]
fn message_kinds_and_their_numbers() {
    assert_eq!(MsgType::Error.number(), 0);
    assert_eq!(MsgType::Get.number(), 1);
    assert_eq!(MsgType::SetReq.number(), 4);
    assert_eq!(MsgType::GetSupportedProtoResp.number(), 18);
    for number in 0..=18 {
        let kind = MsgType::from_number(number).unwrap();
        assert_eq!(kind.number(), number);
        assert_eq!(kind as i32, number);
    }
    assert_eq!(MsgType::from_number(19), None);
    assert_eq!(MsgType::from_number(-1), None);
}

#[test]
fn security_modes_and_their_numbers() {
    assert_eq!(PayloadSecurity::Plaintext.number(), 0);
    assert_eq!(PayloadSecurity::Tls12.number(), 1);
    assert_eq!(PayloadSecurity::from_number(0), Some(PayloadSecurity::Plaintext));
    assert_eq!(PayloadSecurity::from_number(1), Some(PayloadSecurity::Tls12));
    assert_eq!(PayloadSecurity::from_number(2), None);
    assert_eq!(PayloadSecurity::Tls12 as i32, 1);
}

#[test]
fn clones_are_equal() {
    let msg = Msg {
        header: Some(Header {
            msg_id: "id".to_string(),
            msg_type: 1,
        }),
        body: Some(Body {
            msg_body: Some(MsgBody::Request(Request {
                req_type: Some(ReqType::Get(Get {
                    param_paths: vec!["a".to_string(), "b".to_string()],
                })),
            })),
        }),
    };
    assert_eq!(msg.clone(), msg);
    let record = Record {
        version: "1.0".to_string(),
        record_type: Some(RecordType::NoSessionContext(NoSessionContextRecord {
            payload: vec![1],
        })),
        ..empty_record()
    };
    assert_eq!(record.clone(), record);
}
