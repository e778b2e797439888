use azure_blob_uploader::block_id::block_id_for_offset;
use azure_blob_uploader::chunking::{chunk_size_in_bytes, MIB};
use azure_blob_uploader::error::UploadError;

#[test]
fn block_id_of_zero_offset() {
    assert_eq!(block_id_for_offset(0), "0000000000000000");
}

#[test]
fn block_id_of_ten_mib() {
    assert_eq!(block_id_for_offset(10 * 1048576), "0000000000a00000");
}

#[test]
fn block_id_of_twenty_mib() {
    assert_eq!(block_id_for_offset(20 * 1048576), "0000000001400000");
}

#[test]
fn block_id_of_largest_offset() {
    assert_eq!(block_id_for_offset(u64::MAX), "ffffffffffffffff");
}

#[test]
fn block_id_uses_every_digit() {
    assert_eq!(block_id_for_offset(0x0123_4567_89ab_cdef), "0123456789abcdef");
}

#[test]
fn block_ids_sort_as_offsets() {
    let offsets: [u64; 6] = [0, 1, 15, 16, 0xa00000, u64::MAX];
    let ids: Vec<String> = offsets.iter().map(|o| block_id_for_offset(*o)).collect();
    for i in 0..ids.len() {
        assert_eq!(ids[i].len(), 16);
        for j in (i + 1)..ids.len() {
            assert!(ids[i] < ids[j]);
        }
    }
}

#[test]
fn chunk_size_of_ten_mib() {
    assert_eq!(chunk_size_in_bytes(10), Ok(10 * 1048576));
    assert_eq!(chunk_size_in_bytes(1), Ok(MIB));
}

#[test]
fn chunk_size_zero_is_configuration_error() {
    assert_eq!(chunk_size_in_bytes(0), Err(UploadError::ConfigurationError));
}

#[test]
fn chunk_size_too_large_is_configuration_error() {
    assert_eq!(chunk_size_in_bytes(usize::MAX), Err(UploadError::ConfigurationError));
    assert_eq!(chunk_size_in_bytes(usize::MAX / MIB + 1), Err(UploadError::ConfigurationError));
    assert_eq!(chunk_size_in_bytes(usize::MAX / MIB), Ok((usize::MAX / MIB) * MIB));
}
