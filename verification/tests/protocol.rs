use cogposix::codec::{put32, put64, Decoder};
use cogposix::frame::{Frame, FrameError, HEADER_SIZE, MAX_PAYLOAD};
use cogposix::request::Request;
use cogposix::{Error, TensorDesc};

#[test]
fn rejects_bad_frames_before_payload_allocation() {
    let frame = Frame {
        id: 1,
        opcode: 1,
        flags: 0,
        status: 0,
        body: vec![],
    };
    let mut bytes = vec![];
    frame.write(&mut bytes).unwrap();
    for (offset, replacement) in [(0, 0), (4, 2), (6, 1), (18, 2)] {
        let mut bad = bytes.clone();
        bad[offset] = replacement;
        assert!(Frame::read(&mut bad.as_slice()).is_err());
    }
    bytes[20..24].copy_from_slice(&u32::MAX.to_le_bytes());
    assert!(Frame::read(&mut bytes.as_slice()).is_err());
}

#[test]
fn rejects_truncation_and_trailing_fields() {
    assert!(Request::decode(1, &[0]).is_err());
    assert!(Request::decode(40, &[0; 12]).is_err());
    assert!(Frame::read(&mut &[0; 27][..]).is_err());
    assert!(matches!(Request::decode(999, &[]), Err(Error::Unsupported)));
}

#[test]
fn frame_header_layout_is_exact() {
    let frame = Frame {
        id: 0x0102030405060708,
        opcode: 40,
        flags: 1,
        status: -2,
        body: vec![9, 8, 7],
    };
    let mut bytes = vec![];
    frame.write(&mut bytes).unwrap();
    assert_eq!(bytes.len(), HEADER_SIZE + 3);
    assert_eq!(&bytes[0..4], b"COGP");
    assert_eq!(&bytes[4..6], &1u16.to_le_bytes());
    assert_eq!(&bytes[6..8], &0u16.to_le_bytes());
    assert_eq!(&bytes[8..16], &0x0102030405060708u64.to_le_bytes());
    assert_eq!(&bytes[16..18], &40u16.to_le_bytes());
    assert_eq!(&bytes[18..20], &1u16.to_le_bytes());
    assert_eq!(&bytes[20..24], &3u32.to_le_bytes());
    assert_eq!(&bytes[24..28], &(-2i32).to_le_bytes());
    assert_eq!(&bytes[28..], &[9, 8, 7]);
}

#[test]
fn frames_read_back_and_leave_the_rest() {
    let first = Frame {
        id: 7,
        opcode: 22,
        flags: 0,
        status: 0,
        body: vec![1, 2, 3, 4],
    };
    let mut bytes = vec![];
    first.write(&mut bytes).unwrap();
    bytes.extend_from_slice(&[0xaa, 0xbb]);
    let mut reader = bytes.as_slice();
    let back = Frame::read(&mut reader).unwrap();
    assert_eq!(back.id, 7);
    assert_eq!(back.opcode, 22);
    assert_eq!(back.flags, 0);
    assert_eq!(back.status, 0);
    assert_eq!(back.body, vec![1, 2, 3, 4]);
    assert_eq!(reader, &[0xaa, 0xbb]);
}

#[test]
fn truncated_payload_consumes_the_input() {
    let frame = Frame {
        id: 1,
        opcode: 21,
        flags: 0,
        status: 0,
        body: vec![5; 10],
    };
    let mut bytes = vec![];
    frame.write(&mut bytes).unwrap();
    bytes.truncate(HEADER_SIZE + 4);
    let mut reader = bytes.as_slice();
    assert_eq!(Frame::read(&mut reader).err(), Some(FrameError::Truncated));
    assert_eq!(reader.len(), 0);
}

#[test]
fn bad_headers_consume_only_the_header() {
    let frame = Frame {
        id: 3,
        opcode: 2,
        flags: 0,
        status: 0,
        body: vec![],
    };
    let mut good = vec![];
    frame.write(&mut good).unwrap();
    good.extend_from_slice(&[9, 9, 9]);
    let mut major = good.clone();
    major[4] = 2;
    let mut long = good.clone();
    long[20..24].copy_from_slice(&2_000_000u32.to_le_bytes());
    let mut flags = good.clone();
    flags[18] = 2;
    for bad in [major, long, flags] {
        let mut reader = bad.as_slice();
        assert_eq!(Frame::read(&mut reader).err(), Some(FrameError::Invalid));
        assert_eq!(reader, &[9, 9, 9]);
    }
    let short = [0u8; 27];
    let mut reader = &short[..];
    assert_eq!(Frame::read(&mut reader).err(), Some(FrameError::Truncated));
    assert!(reader.is_empty());
}

#[test]
fn oversized_payloads_are_not_written() {
    let frame = Frame {
        id: 1,
        opcode: 21,
        flags: 0,
        status: 0,
        body: vec![0; MAX_PAYLOAD + 1],
    };
    let mut out = vec![];
    assert_eq!(frame.write(&mut out), Err(FrameError::Invalid));
    assert!(out.is_empty());
}

#[test]
fn requests_encode_field_by_field() {
    let (op, body) = Request::Submit {
        model: 1,
        input: 2,
        output: 3,
        delay_ms: 20,
    }
    .encode();
    let mut expected = vec![];
    put64(&mut expected, 1);
    put64(&mut expected, 2);
    put64(&mut expected, 3);
    put32(&mut expected, 20);
    assert_eq!(op, 40);
    assert_eq!(body, expected);

    let (op, body) = Request::ModelOpen("mock.increment.v1".to_string()).encode();
    assert_eq!(op, 10);
    assert_eq!(&body[0..4], &17u32.to_le_bytes());
    assert_eq!(&body[4..], b"mock.increment.v1");

    let (op, body) = Request::TensorCreate {
        buffer: 5,
        desc: TensorDesc {
            offset: 6,
            shape: vec![2, 3],
        },
    }
    .encode();
    assert_eq!(op, 30);
    assert_eq!(body.len(), 8 + 8 + 4 + 16);
}

#[test]
fn every_request_decodes_to_itself() {
    let requests = vec![
        Request::Hello,
        Request::Stats,
        Request::ModelOpen("vision.mnist.v1".to_string()),
        Request::ModelClose(3),
        Request::BufferAlloc(4),
        Request::BufferWrite {
            buffer: 4,
            data: vec![0, 1, 254, 255],
        },
        Request::BufferRead(4),
        Request::BufferFree(4),
        Request::TensorCreate {
            buffer: 4,
            desc: TensorDesc {
                offset: 0,
                shape: vec![2, 2],
            },
        },
        Request::TensorRelease(5),
        Request::Submit {
            model: 3,
            input: 5,
            output: 6,
            delay_ms: 0,
        },
        Request::JobStatus(7),
        Request::JobCancel(7),
        Request::JobRelease(7),
    ];
    for request in requests {
        let (op, body) = request.encode();
        let back = Request::decode(op, &body).unwrap();
        assert_eq!(back.encode(), (op, body));
    }
}

#[test]
fn malformed_fields_are_invalid() {
    let mut long_name = vec![];
    put32(&mut long_name, 129);
    long_name.extend_from_slice(&[b'a'; 129]);
    assert_eq!(Request::decode(10, &long_name).err(), Some(Error::Invalid));
    let mut bad_utf8 = vec![];
    put32(&mut bad_utf8, 2);
    bad_utf8.extend_from_slice(&[0xff, 0xfe]);
    assert_eq!(Request::decode(10, &bad_utf8).err(), Some(Error::Invalid));
    let mut rank_zero = vec![];
    put64(&mut rank_zero, 1);
    put64(&mut rank_zero, 0);
    put32(&mut rank_zero, 0);
    assert_eq!(Request::decode(30, &rank_zero).err(), Some(Error::Invalid));
    let mut trailing = vec![];
    put64(&mut trailing, 1);
    trailing.push(0);
    assert_eq!(Request::decode(22, &trailing).err(), Some(Error::Invalid));
    assert_eq!(Request::decode(2, &[1]).err(), Some(Error::Invalid));
}

#[test]
fn decoder_consumes_fields_in_order() {
    let mut bytes = vec![];
    put32(&mut bytes, 0xdeadbeef);
    put64(&mut bytes, 42);
    let mut d = Decoder::new(&bytes);
    assert_eq!(d.u32(), Ok(0xdeadbeef));
    assert_eq!(d.u64(), Ok(42));
    assert_eq!(d.u32(), Err(Error::Invalid));
    assert_eq!(d.finish(), Ok(()));
    let mut d = Decoder::new(&bytes);
    assert_eq!(d.take(3), Ok(&bytes[0..3]));
    assert_eq!(d.finish(), Err(Error::Invalid));
}
