use cogposix::client::{
    buffer_alloc_request, buffer_write_request, check_hello, check_reply, keep_connection,
    model_open_request, parse_empty, parse_handle, parse_job_status, parse_stats, send_gate,
    tensor_create_request, wait_step, Calls,
};
use cogposix::codec::{put32, put64};
use cogposix::frame::{Frame, RESPONSE};
use cogposix::request::Request;
use cogposix::{Error, JobStatus, Stats, TensorDesc, MAX_BUFFER};

fn reply(id: u64, opcode: u16, flags: u16, status: i32, body: Vec<u8>) -> Frame {
    Frame {
        id,
        opcode,
        flags,
        status,
        body,
    }
}

#[test]
fn hello_must_match_exactly() {
    let mut good = vec![];
    put64(&mut good, 1);
    put32(&mut good, MAX_BUFFER as u32);
    put32(&mut good, 8);
    assert_eq!(check_hello(&good), Ok(()));
    let mut other_features = good.clone();
    other_features[0] = 3;
    assert_eq!(check_hello(&other_features), Err(Error::Unsupported));
    let mut other_rank = good.clone();
    other_rank[12] = 4;
    assert_eq!(check_hello(&other_rank), Err(Error::Unsupported));
    assert_eq!(check_hello(&good[..10]), Err(Error::Invalid));
    let mut trailing = good.clone();
    trailing.push(0);
    assert_eq!(check_hello(&trailing), Err(Error::Invalid));
}

#[test]
fn replies_must_answer_the_request() {
    let sent = reply(5, 22, 0, 0, vec![]);
    assert_eq!(check_reply(&sent, &reply(5, 22, RESPONSE, 0, vec![1, 2])), Ok(vec![1, 2]));
    assert_eq!(check_reply(&sent, &reply(6, 22, RESPONSE, 0, vec![])), Err(Error::Disconnected));
    assert_eq!(check_reply(&sent, &reply(5, 23, RESPONSE, 0, vec![])), Err(Error::Disconnected));
    assert_eq!(check_reply(&sent, &reply(5, 22, 0, 0, vec![])), Err(Error::Disconnected));
    assert_eq!(check_reply(&sent, &reply(5, 22, RESPONSE, 4, vec![])), Err(Error::Busy));
    assert_eq!(check_reply(&sent, &reply(5, 22, RESPONSE, 4, vec![0])), Err(Error::Disconnected));
    assert_eq!(check_reply(&sent, &reply(5, 22, RESPONSE, 99, vec![])), Err(Error::Disconnected));
}

#[test]
fn payload_parsers_are_exact() {
    assert_eq!(parse_handle(&7u64.to_le_bytes()), Ok(7));
    assert_eq!(parse_handle(&0u64.to_le_bytes()), Err(Error::Invalid));
    assert_eq!(parse_handle(&[7, 0, 0]), Err(Error::Invalid));
    assert_eq!(parse_empty(&[]), Ok(()));
    assert_eq!(parse_empty(&[0]), Err(Error::Invalid));
    let mut status = vec![];
    put32(&mut status, 5);
    put32(&mut status, 6);
    assert_eq!(parse_job_status(&status), Ok((JobStatus::Cancelled, Some(Error::Cancelled))));
    let mut done = vec![];
    put32(&mut done, 3);
    put32(&mut done, 0);
    assert_eq!(parse_job_status(&done), Ok((JobStatus::Completed, None)));
    let mut bad = vec![];
    put32(&mut bad, 9);
    put32(&mut bad, 0);
    assert_eq!(parse_job_status(&bad), Err(Error::Invalid));
    let mut bad_error = vec![];
    put32(&mut bad_error, 4);
    put32(&mut bad_error, 77);
    assert_eq!(parse_job_status(&bad_error), Err(Error::Invalid));
    let mut stats = vec![];
    put32(&mut stats, 6);
    put64(&mut stats, 8);
    put32(&mut stats, 1);
    assert_eq!(
        parse_stats(&stats),
        Ok(Stats {
            objects: 6,
            live_bytes: 8,
            jobs: 1
        })
    );
    assert_eq!(parse_stats(&stats[..15]), Err(Error::Invalid));
}

#[test]
fn waits_end_on_terminal_status_only() {
    assert_eq!(wait_step(JobStatus::Queued, None, false), None);
    assert_eq!(wait_step(JobStatus::Running, None, false), None);
    assert_eq!(wait_step(JobStatus::Completed, None, false), Some(Ok(JobStatus::Completed)));
    assert_eq!(wait_step(JobStatus::Failed, Some(Error::Backend), false), Some(Err(Error::Backend)));
    assert_eq!(
        wait_step(JobStatus::Cancelled, Some(Error::Cancelled), false),
        Some(Err(Error::Cancelled))
    );
    assert_eq!(wait_step(JobStatus::Running, None, true), Some(Err(Error::Timeout)));
    assert_eq!(wait_step(JobStatus::Queued, None, true), Some(Err(Error::Timeout)));
    assert_eq!(wait_step(JobStatus::Completed, None, true), Some(Ok(JobStatus::Completed)));
}

#[test]
fn arguments_are_checked_before_sending() {
    assert_eq!(model_open_request(&"x".repeat(129)).err(), Some(Error::Invalid));
    assert!(model_open_request(&"x".repeat(128)).is_ok());
    assert_eq!(buffer_alloc_request(0).err(), Some(Error::Invalid));
    assert_eq!(buffer_alloc_request(MAX_BUFFER + 1).err(), Some(Error::Invalid));
    assert!(matches!(buffer_alloc_request(MAX_BUFFER), Ok(Request::BufferAlloc(n)) if n as usize == MAX_BUFFER));
    assert_eq!(buffer_write_request(1, &vec![0; MAX_BUFFER + 1]).err(), Some(Error::Invalid));
    assert!(buffer_write_request(1, &[1, 2]).is_ok());
    let rank9 = TensorDesc {
        offset: 0,
        shape: vec![1; 9],
    };
    assert_eq!(tensor_create_request(1, rank9).err(), Some(Error::Invalid));
    let rank0 = TensorDesc {
        offset: 0,
        shape: vec![],
    };
    assert_eq!(tensor_create_request(1, rank0).err(), Some(Error::Invalid));
}

#[test]
fn request_ids_start_at_one_and_increase() {
    let mut calls = Calls::new();
    let first = calls.frame(&Request::Hello).unwrap();
    let second = calls.frame(&Request::BufferRead(4)).unwrap();
    assert_eq!(first.id, 1);
    assert_eq!(first.opcode, 1);
    assert_eq!(first.flags, 0);
    assert_eq!(first.status, 0);
    assert!(first.body.is_empty());
    assert_eq!(second.id, 2);
    assert_eq!(second.opcode, 22);
    assert_eq!(second.body, 4u64.to_le_bytes().to_vec());
}

#[test]
fn forked_clients_and_lost_connections_fail_disconnected() {
    assert_eq!(send_gate(true, true), Ok(()));
    assert_eq!(send_gate(false, true), Err(Error::Disconnected));
    assert_eq!(send_gate(true, false), Err(Error::Disconnected));
    assert!(!keep_connection(true, &Err(Error::Disconnected)));
    assert!(keep_connection(true, &Err(Error::Busy)));
    assert!(keep_connection(true, &Ok(vec![1])));
    assert!(!keep_connection(false, &Ok(vec![1])));
}
