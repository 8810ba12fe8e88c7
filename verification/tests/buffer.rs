use evm_loader::buffer::{Buffer, BufferSource};

#[test]
fn test_deref_owned_empty() {
    let data: Vec<u8> = Vec::default();
    let expected = (data.as_ptr(), data.len());
    let buffer = Buffer::default();
    let actual: &[u8] = buffer.as_slice();
    assert_eq!(actual.as_ptr(), expected.0);
    assert_eq!(actual.len(), expected.1);
}

#[test]
fn test_deref_owned_non_empty() {
    let data = vec![1];
    let expected = (data.as_ptr(), data.len());
    let buffer = Buffer::from_vec(data);
    let actual: &[u8] = buffer.as_slice();
    assert_eq!(actual.as_ptr(), expected.0);
    assert_eq!(actual.len(), expected.1);
}

#[test]
fn buffer_reads_past_the_end_as_zero() {
    let buffer = Buffer::from_slice(&[0x12, 0x34, 0x56]);
    assert_eq!(buffer.len(), 3);
    assert_eq!(buffer.get_or_default(1), 0x34);
    assert_eq!(buffer.get_or_default(3), 0);
    assert_eq!(buffer.get_u16_or_default(0), 0x1234);
    assert_eq!(buffer.get_u16_or_default(2), 0x5600);
    assert_eq!(buffer.get_u16_or_default(usize::MAX), 0);
    assert_eq!(buffer.to_vec(), vec![0x12, 0x34, 0x56]);
}

#[test]
fn account_buffers() {
    let key = [0xaa; 32];
    let buffer = Buffer::from_account(key, 6..8, &[0xcc, 0xcc]);
    assert!(buffer.is_initialized());
    assert_eq!(buffer.as_slice(), &[0xcc, 0xcc]);
    assert_eq!(buffer.uninit_data(), None);

    let uninit = Buffer::account_uninit(key, 6..8);
    assert!(!uninit.is_initialized());
    assert_eq!(uninit.uninit_data(), Some((key, 6..8)));
    assert_ne!(uninit, buffer);
    assert_eq!(
        Buffer::from_vec(vec![1, 2]),
        Buffer::from_slice(&[1, 2])
    );
    let _ = BufferSource::Owned(vec![]);
}
