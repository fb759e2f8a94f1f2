use cogposix::process::{
    check_input, keep_worker, mnist_supports, mnist_validate, parse_digit, read_gate,
    read_progress, ready_ok, ReadEvent, WorkerLink,
};
use cogposix::{Error, TensorDesc};

#[test]
fn capability_has_explicit_shapes_and_no_mock_delay() {
    let input = TensorDesc {
        offset: 0,
        shape: vec![28, 28],
    };
    let output = TensorDesc {
        offset: 0,
        shape: vec![1],
    };
    assert!(mnist_supports("vision.mnist.v1"));
    assert!(!mnist_supports("/tmp/arbitrary.onnx"));
    assert_eq!(mnist_validate(&input, &output, 0), Ok(()));
    assert_eq!(mnist_validate(&input, &output, 1), Err(Error::Unsupported));
    assert_eq!(mnist_validate(&input, &input, 0), Err(Error::Invalid));
}

#[test]
fn inputs_are_checked_before_the_worker_is_contacted() {
    assert_eq!(check_input(&[0; 784], 0, false), Ok(()));
    assert_eq!(check_input(&[0; 783], 0, false), Err(Error::Invalid));
    assert_eq!(check_input(&[0; 784], 1, false), Err(Error::Invalid));
    assert_eq!(check_input(&[0; 784], 0, true), Err(Error::Cancelled));
}

#[test]
fn worker_requests_carry_increasing_ids() {
    let mut link = WorkerLink::new();
    let (id, bytes) = link.request(&[5; 784]).unwrap();
    assert_eq!(id, 1);
    assert_eq!(bytes.len(), 792);
    assert_eq!(&bytes[..8], &1u64.to_le_bytes());
    assert!(bytes[8..].iter().all(|&b| b == 5));
    let (id, _) = link.request(&[5; 784]).unwrap();
    assert_eq!(id, 2);
}

#[test]
fn malformed_worker_output_is_a_backend_failure() {
    assert!(ready_ok(b"COGW1"));
    assert!(!ready_ok(b"BAD!!"));
    let good = *b"DIG1\x01\x00\x00\x00\x00\x00\x00\x00\x03";
    assert_eq!(parse_digit(&good, 1), Ok(vec![3]));
    let too_big = *b"DIG1\x01\x00\x00\x00\x00\x00\x00\x00\xff";
    assert_eq!(parse_digit(&too_big, 1), Err(Error::Backend));
    let wrong_id = *b"DIG1\x02\x00\x00\x00\x00\x00\x00\x00\x03";
    assert_eq!(parse_digit(&wrong_id, 1), Err(Error::Backend));
    let wrong_tag = *b"DIG2\x01\x00\x00\x00\x00\x00\x00\x00\x03";
    assert_eq!(parse_digit(&wrong_tag, 1), Err(Error::Backend));
}

#[test]
fn reads_stop_on_cancellation_deadline_and_failures() {
    assert_eq!(read_gate(true, true), Err(Error::Cancelled));
    assert_eq!(read_gate(false, true), Err(Error::Timeout));
    assert_eq!(read_gate(false, false), Ok(()));
    assert_eq!(read_progress(3, ReadEvent::Data(2)), Ok(5));
    assert_eq!(read_progress(3, ReadEvent::Data(0)), Err(Error::Backend));
    assert_eq!(read_progress(3, ReadEvent::Pending { exited: false }), Ok(3));
    assert_eq!(read_progress(3, ReadEvent::Pending { exited: true }), Err(Error::Backend));
    assert_eq!(read_progress(3, ReadEvent::Interrupted), Ok(3));
    assert_eq!(read_progress(3, ReadEvent::Failed), Err(Error::Backend));
}

#[test]
fn failed_exchanges_discard_the_worker() {
    assert!(keep_worker(true, &Ok(vec![7])));
    assert!(!keep_worker(true, &Err(Error::Timeout)));
    assert!(!keep_worker(true, &Err(Error::Backend)));
    assert!(!keep_worker(false, &Ok(vec![7])));
}
