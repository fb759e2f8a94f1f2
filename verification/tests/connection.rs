use cogposix::backend::MockBackend;
use cogposix::client::{check_reply, parse_stats};
use cogposix::connection::Connection;
use cogposix::frame::{Frame, RESPONSE};
use cogposix::runtime::Runtime;
use cogposix::Error;

fn frame(id: u64, opcode: u16, body: Vec<u8>) -> Frame {
    Frame {
        id,
        opcode,
        flags: 0,
        status: 0,
        body,
    }
}

/// Serves one frame and records a successful send, as the daemon loop does.
fn serve(conn: &mut Connection, rt: &mut Runtime, owner: u64, f: &Frame, file: bool) -> Option<Frame> {
    let reply = conn.serve(rt, owner, f, file, &MockBackend);
    if reply.is_some() {
        conn.sent();
    }
    reply
}

#[test]
fn malformed_and_ungreeted_connections_are_reclaimed() {
    let mut rt = Runtime::new();
    for (op, body) in [(20, 4u32.to_le_bytes().to_vec()), (1, vec![0])] {
        let owner = rt.connect().unwrap();
        let mut conn = Connection::new();
        assert!(serve(&mut conn, &mut rt, owner, &frame(1, op, body), false).is_none());
        rt.disconnect(owner);
    }
    let m = rt.metrics();
    assert_eq!((m.sessions, m.objects, m.live_bytes), (0, 0, 0));
    let owner = rt.connect().unwrap();
    let mut conn = Connection::new();
    assert!(serve(&mut conn, &mut rt, owner, &frame(1, 1, vec![]), false).is_some());
    let stats = serve(&mut conn, &mut rt, owner, &frame(2, 2, vec![]), false).unwrap();
    assert_eq!(parse_stats(&stats.body).unwrap().objects, 0);
}

#[test]
fn protocol_errors_are_explicit_without_corrupting_session() {
    let mut rt = Runtime::new();
    let owner = rt.connect().unwrap();
    let mut conn = Connection::new();
    let hello = frame(1, 1, vec![]);
    let reply = serve(&mut conn, &mut rt, owner, &hello, false).unwrap();
    assert_eq!(reply.flags, RESPONSE);
    let alloc = frame(2, 20, 0u32.to_le_bytes().to_vec());
    let reply = serve(&mut conn, &mut rt, owner, &alloc, false).unwrap();
    assert_eq!(check_reply(&alloc, &reply), Err(Error::Invalid));
    let stats = serve(&mut conn, &mut rt, owner, &frame(3, 2, vec![]), false).unwrap();
    assert_eq!(parse_stats(&stats.body).unwrap().objects, 0);
    let raw = rt.connect().unwrap();
    let mut conn = Connection::new();
    assert!(serve(&mut conn, &mut rt, raw, &frame(1, 1, vec![]), false).is_some());
    let unknown = frame(2, 999, vec![]);
    let reply = serve(&mut conn, &mut rt, raw, &unknown, false).unwrap();
    assert_eq!(reply.status, Error::Unsupported.code());
    assert!(reply.body.is_empty());
    assert_eq!(reply.id, 2);
    assert_eq!(reply.opcode, 999);
    assert!(serve(&mut conn, &mut rt, raw, &frame(2, 1, vec![]), false).is_none());
}

#[test]
fn descriptors_on_wrong_requests_close_the_session() {
    let mut rt = Runtime::new();
    let owner = rt.connect().unwrap();
    let mut conn = Connection::new();
    assert!(serve(&mut conn, &mut rt, owner, &frame(1, 1, vec![]), true).is_none());
    rt.disconnect(owner);
    assert_eq!(rt.metrics().sessions, 0);
}

#[test]
fn second_hello_flags_status_and_ids_close() {
    let mut rt = Runtime::new();
    let owner = rt.connect().unwrap();
    let mut conn = Connection::new();
    assert!(serve(&mut conn, &mut rt, owner, &frame(3, 1, vec![]), false).is_some());
    assert!(serve(&mut conn, &mut rt, owner, &frame(4, 1, vec![]), false).is_none());
    let mut conn = Connection::new();
    let mut flagged = frame(1, 1, vec![]);
    flagged.flags = RESPONSE;
    assert!(serve(&mut conn, &mut rt, owner, &flagged, false).is_none());
    let mut with_status = frame(1, 1, vec![]);
    with_status.status = 1;
    assert!(serve(&mut conn, &mut rt, owner, &with_status, false).is_none());
    assert!(serve(&mut conn, &mut rt, owner, &frame(0, 1, vec![]), false).is_none());
}

#[test]
fn responses_echo_id_and_opcode() {
    let request = frame(9, 22, vec![]);
    let ok = Connection::respond(&request, Ok(vec![1, 2]));
    assert_eq!((ok.id, ok.opcode, ok.flags, ok.status), (9, 22, RESPONSE, 0));
    assert_eq!(ok.body, vec![1, 2]);
    let err = Connection::respond(&request, Err(Error::Busy));
    assert_eq!((err.id, err.opcode, err.flags, err.status), (9, 22, RESPONSE, 4));
    assert!(err.body.is_empty());
    assert_eq!(check_reply(&request, &err), Err(Error::Busy));
    assert_eq!(check_reply(&request, &ok), Ok(vec![1, 2]));
}

#[test]
fn connection_step_disconnects_on_bad_frames_and_closed_streams() {
    let mut rt = Runtime::new();
    let owner = rt.connect().unwrap();
    let mut conn = Connection::new();
    assert!(conn
        .step(&mut rt, owner, Some(frame(1, 1, vec![])), false, &MockBackend)
        .is_some());
    conn.sent();
    let mut bad = frame(2, 1, vec![]);
    bad.flags = 1;
    assert!(conn.step(&mut rt, owner, Some(bad), false, &MockBackend).is_none());
    assert_eq!(rt.metrics().sessions, 0);
    let other = rt.connect().unwrap();
    let mut conn = Connection::new();
    assert!(conn.step(&mut rt, other, None, false, &MockBackend).is_none());
    assert_eq!(rt.metrics().sessions, 0);
}
