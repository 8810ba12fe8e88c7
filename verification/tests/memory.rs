use evm_loader::error::Error;
use evm_loader::memory::{Memory, MAX_MEMORY_SIZE};

#[test]
fn memory_grows_in_words() {
    let mut memory = Memory::new();
    assert_eq!(memory.size(), 0);
    memory.write_byte(0, 7).unwrap();
    assert_eq!(memory.size(), 32);
    memory.write_byte(32, 8).unwrap();
    assert_eq!(memory.size(), 64);
    let data = memory.to_vec();
    assert_eq!(data.len(), 64);
    assert_eq!(data[0], 7);
    assert_eq!(data[32], 8);
}

#[test]
fn read_after_write() {
    let mut memory = Memory::new();
    let mut value = [0u8; 32];
    value[0] = 0xaa;
    value[31] = 0xbb;
    memory.write_32(5, &value).unwrap();
    assert_eq!(memory.read_32(5).unwrap(), value);
    assert_eq!(memory.read(5, 2).unwrap(), &[0xaa, 0]);
    assert_eq!(memory.size(), 64);
    assert_eq!(memory.read(1000, 0).unwrap(), &[] as &[u8]);
    assert_eq!(memory.size(), 64);
}

#[test]
fn memory_grows_past_its_first_capacity() {
    let mut memory = Memory::new();
    memory.write_byte(5000, 1).unwrap();
    assert_eq!(memory.size(), 5024);
    assert_eq!(memory.read_32(4990).unwrap()[10], 1);
}

#[test]
fn memory_access_out_of_limits() {
    let mut memory = Memory::new();
    assert_eq!(
        memory.write_byte(MAX_MEMORY_SIZE, 1),
        Err(Error::MemoryAccessOutOfLimits(MAX_MEMORY_SIZE, 1))
    );
    assert_eq!(
        memory.read(usize::MAX, 2),
        Err(Error::MemoryAccessOutOfLimits(usize::MAX, 2))
    );
}

#[test]
fn write_buffer_pads_with_zero() {
    let mut memory = Memory::new();
    memory.write_32(0, &[0xff; 32]).unwrap();
    memory.write_buffer(0, 4, &[1, 2, 3], 1).unwrap();
    assert_eq!(memory.read(0, 5).unwrap(), &[2, 3, 0, 0, 0xff]);
    memory.write_buffer(0, 2, &[1, 2, 3], 7).unwrap();
    assert_eq!(memory.read(0, 3).unwrap(), &[0, 0, 0]);
    memory.write_range(&(10..12), &[9, 8, 7]).unwrap();
    assert_eq!(memory.read(10, 2).unwrap(), &[9, 8]);
    let buffer = memory.read_buffer(10, 3).unwrap();
    assert_eq!(buffer.to_vec(), vec![9, 8, 0xff]);
}

#[test]
fn memory_from_buffer() {
    let memory = Memory::from_buffer(&[1, 2, 3]);
    assert_eq!(memory.size(), 3);
    assert_eq!(memory.to_vec(), vec![1, 2, 3]);
}
