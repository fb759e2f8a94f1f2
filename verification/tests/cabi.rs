use cogposix::cabi::{CTensorDesc, C_TENSOR_DESC_SIZE};
use cogposix::shm::shared_file_check;
use cogposix::{Error, TensorDesc};

fn desc(rank: u32, shape: [u64; 8]) -> CTensorDesc {
    CTensorDesc {
        struct_size: C_TENSOR_DESC_SIZE,
        dtype: 1,
        rank,
        flags: 0,
        offset: 4,
        shape,
    }
}

#[test]
fn c_descriptors_convert_to_their_leading_dimensions() {
    assert_eq!(
        desc(2, [2, 3, 0, 0, 0, 0, 0, 0]).to_desc(),
        Ok(TensorDesc {
            offset: 4,
            shape: vec![2, 3]
        })
    );
    assert_eq!(desc(8, [1; 8]).to_desc().unwrap().shape, vec![1; 8]);
}

#[test]
fn c_descriptor_errors() {
    let mut wrong_size = desc(1, [1, 0, 0, 0, 0, 0, 0, 0]);
    wrong_size.struct_size = 80;
    assert_eq!(wrong_size.to_desc(), Err(Error::Invalid));
    assert_eq!(desc(0, [0; 8]).to_desc(), Err(Error::Invalid));
    assert_eq!(desc(9, [1; 8]).to_desc(), Err(Error::Invalid));
    let mut float = desc(1, [1, 0, 0, 0, 0, 0, 0, 0]);
    float.dtype = 2;
    assert_eq!(float.to_desc(), Err(Error::Unsupported));
    let mut flagged = desc(1, [1, 0, 0, 0, 0, 0, 0, 0]);
    flagged.flags = 1;
    assert_eq!(flagged.to_desc(), Err(Error::Unsupported));
    assert_eq!(desc(1, [1, 0, 0, 7, 0, 0, 0, 0]).to_desc(), Err(Error::Invalid));
}

#[test]
fn copy_out_reports_short_or_missing_destinations() {
    assert_eq!(cogposix::cabi::copy_out_check(4, 3, true), Err(Error::NoMemory));
    assert_eq!(cogposix::cabi::copy_out_check(4, 3, false), Err(Error::NoMemory));
    assert_eq!(cogposix::cabi::copy_out_check(4, 4, false), Err(Error::Invalid));
    assert_eq!(cogposix::cabi::copy_out_check(4, 8, true), Ok(()));
    assert_eq!(cogposix::cabi::copy_out_check(0, 0, true), Ok(()));
}

#[test]
fn shared_files_are_checked_length_then_seals_then_size() {
    assert_eq!(shared_file_check(0, false, None), Err(Error::Invalid));
    assert_eq!(shared_file_check(cogposix::MAX_BUFFER + 1, false, None), Err(Error::Invalid));
    assert_eq!(shared_file_check(16, false, Some((true, 8))), Err(Error::Permission));
    assert_eq!(shared_file_check(16, true, None), Err(Error::Invalid));
    assert_eq!(shared_file_check(16, true, Some((false, 16))), Err(Error::Invalid));
    assert_eq!(shared_file_check(16, true, Some((true, 8))), Err(Error::Invalid));
    assert_eq!(shared_file_check(16, true, Some((true, 16))), Ok(()));
}
