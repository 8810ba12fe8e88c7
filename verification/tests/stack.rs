use ethnum::{I256, U256};
use evm_loader::error::Error;
use evm_loader::stack::{Stack, STACK_DEPTH};
use evm_loader::types::Address;

fn word(last: u8) -> [u8; 32] {
    let mut w = [0u8; 32];
    w[31] = last;
    w
}

#[test]
fn stack_is_last_in_first_out() {
    let mut stack = Stack::new();
    stack.push_byte(1).unwrap();
    stack.push_byte(2).unwrap();
    assert_eq!(stack.len(), 2);
    assert_eq!(stack.pop_array().unwrap(), word(2));
    assert_eq!(stack.pop_array().unwrap(), word(1));
    assert_eq!(stack.pop_array(), Err(Error::StackUnderflow));
    assert_eq!(stack.discard(), Err(Error::StackUnderflow));
}

#[test]
fn stack_holds_at_most_its_depth() {
    let mut stack = Stack::new();
    for _ in 0..STACK_DEPTH {
        stack.push_zero().unwrap();
    }
    assert_eq!(STACK_DEPTH, 127);
    assert_eq!(stack.push_zero(), Err(Error::StackOverflow));
    assert_eq!(stack.push_byte(5), Err(Error::StackOverflow));
    assert_eq!(stack.len(), STACK_DEPTH);
    stack.discard().unwrap();
    assert_eq!(stack.len(), STACK_DEPTH - 1);
}

#[test]
fn push_usize_then_pop_usize() {
    let mut stack = Stack::new();
    stack.push_usize(0x1234_5678).unwrap();
    let mut expected = [0u8; 32];
    expected[28..].copy_from_slice(&[0x12, 0x34, 0x56, 0x78]);
    assert_eq!(stack.to_vec(), vec![expected]);
    assert_eq!(stack.pop_usize(), Ok(0x1234_5678));
    stack.push_usize(usize::MAX).unwrap();
    assert_eq!(stack.pop_usize(), Ok(usize::MAX));
}

#[test]
fn pop_usize_of_a_large_value_fails_and_pops() {
    let mut stack = Stack::new();
    let mut big = [0u8; 32];
    big[0] = 1;
    stack.push_array(&big).unwrap();
    assert_eq!(stack.pop_usize(), Err(Error::TryFromIntError));
    assert_eq!(stack.len(), 0);
    assert_eq!(stack.pop_usize(), Err(Error::StackUnderflow));
}

#[test]
fn u256_and_i256_round_trip() {
    let mut stack = Stack::new();
    let v = U256::from_words(7, 0xdead_beef);
    stack.push_u256(v).unwrap();
    let mut expected = [0u8; 32];
    expected[15] = 7;
    expected[28..].copy_from_slice(&[0xde, 0xad, 0xbe, 0xef]);
    assert_eq!(stack.to_vec(), vec![expected]);
    assert_eq!(stack.pop_u256().unwrap(), v);

    let n = I256::new(-2);
    stack.push_i256(n).unwrap();
    let mut minus_two = [0xffu8; 32];
    minus_two[31] = 0xfe;
    assert_eq!(stack.to_vec(), vec![minus_two]);
    assert_eq!(stack.pop_i256().unwrap(), n);
    assert_eq!(stack.pop_u256(), Err(Error::StackUnderflow));
}

#[test]
fn bool_and_address_words() {
    let mut stack = Stack::new();
    stack.push_bool(true).unwrap();
    stack.push_bool(false).unwrap();
    let address = Address([0x11; 20]);
    stack.push_address(&address).unwrap();
    let words = stack.to_vec();
    assert_eq!(words[0], word(1));
    assert_eq!(words[1], [0u8; 32]);
    let mut padded = [0x11u8; 32];
    padded[..12].copy_from_slice(&[0u8; 12]);
    assert_eq!(words[2], padded);
    assert_eq!(stack.pop_address().unwrap(), address);
}

#[test]
fn push_array_2_31_pads_on_the_left() {
    let mut stack = Stack::new();
    stack.push_array_2_31::<2>(&[0xab, 0xcd]).unwrap();
    let mut expected = [0u8; 32];
    expected[30] = 0xab;
    expected[31] = 0xcd;
    assert_eq!(stack.pop_array().unwrap(), expected);
}

#[test]
fn dup_and_swap() {
    let mut stack = Stack::new();
    stack.push_byte(1).unwrap();
    stack.push_byte(2).unwrap();
    stack.push_byte(3).unwrap();
    stack.dup_1_16::<3>().unwrap();
    assert_eq!(stack.to_vec(), vec![word(1), word(2), word(3), word(1)]);
    stack.swap_1_16::<2>().unwrap();
    assert_eq!(stack.to_vec(), vec![word(1), word(1), word(3), word(2)]);
    stack.swap_1_16::<2>().unwrap();
    assert_eq!(stack.to_vec(), vec![word(1), word(2), word(3), word(1)]);
    assert_eq!(stack.dup_1_16::<5>(), Err(Error::StackUnderflow));
    assert_eq!(stack.swap_1_16::<4>(), Err(Error::StackUnderflow));
    assert_eq!(stack.len(), 4);
}

#[test]
fn stack_bytes_round_trip() {
    let mut stack = Stack::new();
    stack.push_byte(9).unwrap();
    stack.push_usize(300).unwrap();
    let bytes = stack.to_bytes();
    assert_eq!(bytes.len(), 64);
    assert_eq!(bytes[31], 9);
    assert_eq!(&bytes[62..], &[1, 44]);
    let back = Stack::from_bytes(&bytes).unwrap();
    assert_eq!(back.to_vec(), stack.to_vec());
    assert!(Stack::from_bytes(&bytes[..40]).is_none());
    assert_eq!(Stack::from_bytes(&[]).unwrap().len(), 0);
}
