use turret::framing::{read_frame, write_frame, FrameError};
use turret::protocol::{Envelope, ErrorBody, ErrorCode, InvokeBody, MessageType, ProtocolError, RegisterBody, ResultBody};
use turret::MAX_FRAME_SIZE;

#[test]
fn framing_roundtrip() {
    let payload = b"hello".to_vec();
    let buf = write_frame(&payload).unwrap();

    let got = read_frame(&buf).unwrap();
    assert_eq!(got, payload);
}

#[test]
fn framing_rejects_large_frame() {
    let payload = vec![0u8; MAX_FRAME_SIZE + 1];
    let err = write_frame(&payload).unwrap_err();
    match err {
        FrameError::FrameTooLarge { len, max } => {
            assert_eq!(len, MAX_FRAME_SIZE + 1);
            assert_eq!(max, MAX_FRAME_SIZE);
        }
        other => panic!("unexpected error: {other:?}"),
    }
}

#[test]
fn framing_rejects_large_header_on_read() {
    let len = (MAX_FRAME_SIZE as u32) + 1;
    let buf = len.to_be_bytes().to_vec();
    let err = read_frame(&buf).unwrap_err();
    assert!(matches!(err, FrameError::FrameTooLarge { .. }));
}

#[test]
fn framing_rejects_truncated_body() {
    let mut buf = 10u32.to_be_bytes().to_vec();
    buf.extend_from_slice(b"abc");
    let err = read_frame(&buf).unwrap_err();
    assert!(matches!(err, FrameError::Truncated));
}

#[test]
fn framing_header_is_big_endian() {
    let buf = write_frame(&b"abcd".to_vec()).unwrap();
    assert_eq!(&buf[..4], &[0, 0, 0, 4]);
    assert_eq!(&buf[4..], b"abcd");
}

#[test]
fn envelope_roundtrip() {
    let env = Envelope {
        msg_type: MessageType::Invoke,
        principal: b"agent-1".to_vec(),
        ts_ms: 123,
        nonce: b"nonce".to_vec(),
        body: b"body".to_vec(),
        sig: [7u8; 64],
    };

    let enc = env.encode().unwrap();
    let dec = Envelope::decode(&enc).unwrap();
    assert_eq!(dec, env);
}

#[test]
fn envelope_rejects_bad_magic() {
    let env = Envelope {
        msg_type: MessageType::Register,
        principal: b"p".to_vec(),
        ts_ms: 1,
        nonce: b"n".to_vec(),
        body: Vec::new(),
        sig: [0u8; 64],
    };
    let mut enc = env.encode().unwrap();
    enc[0] = b'X';
    let err = Envelope::decode(&enc).unwrap_err();
    assert!(matches!(err, ProtocolError::BadRequest(_)));
}

#[test]
fn envelope_rejects_bad_version() {
    let env = Envelope {
        msg_type: MessageType::Register,
        principal: b"p".to_vec(),
        ts_ms: 1,
        nonce: b"n".to_vec(),
        body: Vec::new(),
        sig: [0u8; 64],
    };
    let mut enc = env.encode().unwrap();
    enc[4] = 9;
    assert!(Envelope::decode(&enc).is_err());
}

#[test]
fn envelope_rejects_unknown_type() {
    let env = Envelope {
        msg_type: MessageType::Register,
        principal: b"p".to_vec(),
        ts_ms: 1,
        nonce: b"n".to_vec(),
        body: Vec::new(),
        sig: [0u8; 64],
    };
    let mut enc = env.encode().unwrap();
    enc[6] = 9;
    assert!(Envelope::decode(&enc).is_err());
}

#[test]
fn envelope_rejects_truncation() {
    let env = Envelope {
        msg_type: MessageType::Result,
        principal: b"p".to_vec(),
        ts_ms: 1,
        nonce: b"n".to_vec(),
        body: b"bb".to_vec(),
        sig: [1u8; 64],
    };
    let enc = env.encode().unwrap();
    for cut in [3, 7, 11, enc.len() - 1] {
        assert!(Envelope::decode(&enc[..cut]).is_err(), "cut {cut}");
    }
}

#[test]
fn body_roundtrip_register() {
    let b = RegisterBody {
        repeater_id: b"r".to_vec(),
        actions: vec![b"a".to_vec(), b"b".to_vec()],
    };
    assert_eq!(RegisterBody::decode(&b.encode().unwrap()).unwrap(), b);
}

#[test]
fn body_roundtrip_invoke() {
    let b = InvokeBody {
        request_id: b"req".to_vec(),
        action: b"act".to_vec(),
        params: b"p".to_vec(),
    };
    assert_eq!(InvokeBody::decode(&b.encode().unwrap()).unwrap(), b);
}

#[test]
fn body_roundtrip_result() {
    let b = ResultBody {
        request_id: b"req".to_vec(),
        result: b"out".to_vec(),
    };
    assert_eq!(ResultBody::decode(&b.encode().unwrap()).unwrap(), b);
}

#[test]
fn body_roundtrip_error() {
    let b = ErrorBody {
        request_id: b"req".to_vec(),
        code: ErrorCode::Denied,
        message: b"denied".to_vec(),
    };
    assert_eq!(ErrorBody::decode(&b.encode().unwrap()).unwrap(), b);
}

#[test]
fn error_body_rejects_unknown_code() {
    let b = ErrorBody {
        request_id: b"r".to_vec(),
        code: ErrorCode::Internal,
        message: Vec::new(),
    };
    let mut enc = b.encode().unwrap();
    // The code sits right after the request id's length prefix and byte.
    enc[5] = 200;
    assert!(ErrorBody::decode(&enc).is_err());
}

#[test]
fn register_body_empty_actions() {
    let b = RegisterBody {
        repeater_id: b"rep".to_vec(),
        actions: Vec::new(),
    };
    let dec = RegisterBody::decode(&b.encode().unwrap()).unwrap();
    assert_eq!(dec.actions.len(), 0);
    assert_eq!(dec.repeater_id, b"rep".to_vec());
}

#[test]
fn envelope_exact_wire_layout() {
    let env = Envelope {
        msg_type: MessageType::Invoke,
        principal: b"ab".to_vec(),
        ts_ms: 0x0102030405060708,
        nonce: b"n".to_vec(),
        body: b"xy".to_vec(),
        sig: [9u8; 64],
    };
    let enc = env.encode().unwrap();
    let mut expected: Vec<u8> = Vec::new();
    expected.extend_from_slice(b"TRT1");
    expected.extend_from_slice(&[1, 0]); // version, little-endian
    expected.extend_from_slice(&[2, 0]); // Invoke, little-endian
    expected.extend_from_slice(&[0, 0, 0, 2]); // principal length, big-endian
    expected.extend_from_slice(b"ab");
    expected.extend_from_slice(&[8, 7, 6, 5, 4, 3, 2, 1]); // ts_ms, little-endian
    expected.extend_from_slice(&[0, 0, 0, 1]);
    expected.extend_from_slice(b"n");
    expected.extend_from_slice(&[0, 0, 0, 2]);
    expected.extend_from_slice(b"xy");
    expected.extend_from_slice(&[0, 0, 0, 64]);
    expected.extend_from_slice(&[9u8; 64]);
    assert_eq!(enc, expected);
}
