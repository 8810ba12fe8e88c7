use evm_loader::analysis::Bitvec;
use evm_loader::buffer::Buffer;
use evm_loader::opcode_table::{PUSH1, PUSH32, RJUMP, RJUMPI, RJUMPV, STOP};

#[test]
fn eof_code_bitmap_test1() {
    let code = Buffer::from_slice(&[RJUMP, 0x01, 0x01, 0x01]);
    let bitvec = Bitvec::eof_code_bitmap(&code);
    assert_eq!(bitvec.to_vec()[0], 0b0000_0110);
}

#[test]
fn eof_code_bitmap_test2() {
    let code = Buffer::from_slice(&[RJUMPI, RJUMP, RJUMP, RJUMPI]);
    let bitvec = Bitvec::eof_code_bitmap(&code);
    assert_eq!(bitvec.to_vec()[0], 0b0011_0110);
}

#[test]
fn eof_code_bitmap_test3() {
    let code = Buffer::from_slice(&[RJUMPV, 0x02, RJUMP, 0x00, RJUMPI, 0x00]);
    let bitvec = Bitvec::eof_code_bitmap(&code);
    assert_eq!(bitvec.to_vec()[0], 0b0011_1110);
}

#[test]
fn eof_code_bitmap_push_operands_are_data() {
    let code = Buffer::from_slice(&[PUSH1, 0xaa, STOP, PUSH1, 0xbb]);
    let bitvec = Bitvec::eof_code_bitmap(&code);
    assert_eq!(bitvec.to_vec().len(), 5 / 8 + 5);
    assert_eq!(bitvec.to_vec()[0], 0b0001_0010);
    assert!(bitvec.is_code_segment(0));
    assert!(!bitvec.is_code_segment(1));
    assert!(bitvec.is_code_segment(2));
    assert!(!bitvec.is_code_segment(4));
}

#[test]
fn eof_code_bitmap_push32_at_the_end_spills_into_spare_bytes() {
    let code = Buffer::from_slice(&[PUSH32]);
    let bitvec = Bitvec::eof_code_bitmap(&code);
    assert_eq!(bitvec.to_vec(), &vec![0xfe, 0xff, 0xff, 0xff, 0x01]);
}

#[test]
fn bitvec_setters() {
    let mut b = Bitvec::new(4);
    b._set1(3);
    assert_eq!(b.to_vec(), &vec![0b0000_1000, 0, 0, 0]);
    b.set_n(0b11, 7);
    assert_eq!(b.to_vec(), &vec![0b1000_1000, 0b0000_0001, 0, 0]);
    let mut c = Bitvec::new(3);
    c.set8(4);
    assert_eq!(c.to_vec(), &vec![0xf0, 0x0f, 0]);
    let mut d = Bitvec::new(3);
    d.set16(0);
    assert_eq!(d.to_vec(), &vec![0xff, 0xff, 0x00]);
}
