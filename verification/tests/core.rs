use cogposix::{Error, JobStatus, TensorDesc};

#[test]
fn tensor_extents_are_checked() {
    assert_eq!(
        TensorDesc {
            offset: 2,
            shape: vec![2, 3]
        }
        .extent(8),
        Ok(2..8)
    );
    for desc in [
        TensorDesc {
            offset: u64::MAX,
            shape: vec![1],
        },
        TensorDesc {
            offset: 0,
            shape: vec![u64::MAX, 2],
        },
        TensorDesc {
            offset: 0,
            shape: vec![],
        },
        TensorDesc {
            offset: 0,
            shape: vec![0],
        },
        TensorDesc {
            offset: 0,
            shape: vec![9],
        },
    ] {
        assert_eq!(desc.extent(8), Err(Error::Invalid));
    }
}

#[test]
fn extent_covers_exactly_the_product_after_the_offset() {
    let desc = TensorDesc {
        offset: 3,
        shape: vec![2, 2, 2],
    };
    assert_eq!(desc.extent(11), Ok(3..11));
    assert_eq!(desc.extent(10), Err(Error::Invalid));
    let too_deep = TensorDesc {
        offset: 0,
        shape: vec![1; 9],
    };
    assert_eq!(too_deep.extent(8), Err(Error::Invalid));
}

#[test]
fn error_numbers_round_trip() {
    let all = [
        Error::Invalid,
        Error::NoMemory,
        Error::NoModel,
        Error::Busy,
        Error::Timeout,
        Error::Cancelled,
        Error::Permission,
        Error::Backend,
        Error::Io,
        Error::Unsupported,
        Error::Disconnected,
    ];
    for (i, e) in all.iter().enumerate() {
        assert_eq!(e.code(), i as i32 + 1);
        assert_eq!(Error::from_code(e.code()), Some(*e));
    }
    assert_eq!(Error::from_code(0), None);
    assert_eq!(Error::from_code(12), None);
    assert_eq!(Error::from_code(-1), None);
}

#[test]
fn status_numbers_round_trip_and_terminality() {
    let all = [
        JobStatus::Queued,
        JobStatus::Running,
        JobStatus::Completed,
        JobStatus::Failed,
        JobStatus::Cancelled,
    ];
    for (i, s) in all.iter().enumerate() {
        assert_eq!(s.code(), i as u32 + 1);
        assert_eq!(JobStatus::from_code(s.code()), Ok(*s));
    }
    assert_eq!(JobStatus::from_code(0), Err(Error::Invalid));
    assert_eq!(JobStatus::from_code(6), Err(Error::Invalid));
    assert!(!JobStatus::Queued.terminal());
    assert!(!JobStatus::Running.terminal());
    assert!(JobStatus::Completed.terminal());
    assert!(JobStatus::Failed.terminal());
    assert!(JobStatus::Cancelled.terminal());
}
