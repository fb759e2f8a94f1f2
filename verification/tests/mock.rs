use cogposix::backend::{same_shape, Backend, MockBackend};
use cogposix::{Error, TensorDesc};

#[test]
fn reproducible_wrapping_and_cancellation() {
    assert_eq!(
        MockBackend.execute(&[0, 254, 255], 0, false),
        Ok(vec![1, 255, 0])
    );
    assert_eq!(MockBackend.execute(&[0], 0, true), Err(Error::Cancelled));
}

#[test]
fn mock_refuses_long_delays_and_other_models() {
    assert_eq!(MockBackend.execute(&[1], 5001, false), Err(Error::Invalid));
    assert_eq!(MockBackend.execute(&[1], 5000, false), Ok(vec![2]));
    assert!(MockBackend.supports("mock.increment.v1"));
    assert!(!MockBackend.supports("mock.increment.v2"));
    assert!(!MockBackend.supports(""));
}

#[test]
fn mock_admits_equal_shapes_only() {
    let a = TensorDesc {
        offset: 0,
        shape: vec![2, 2],
    };
    let b = TensorDesc {
        offset: 4,
        shape: vec![2, 2],
    };
    let c = TensorDesc {
        offset: 0,
        shape: vec![4],
    };
    assert_eq!(MockBackend.validate(&a, &b, 0), Ok(()));
    assert_eq!(MockBackend.validate(&a, &c, 0), Err(Error::Invalid));
    assert_eq!(same_shape(&a, &c), Err(Error::Invalid));
}
