use ethnum::{I256, U256};
use evm_loader::buffer::Buffer;
use evm_loader::error::Error;
use evm_loader::machine::{Context, ExitStatus, Machine, Reason};
use evm_loader::memory::Memory;
use evm_loader::opcode::Action;
use evm_loader::opcode_table::{JUMPDEST, PUSH1, PUSH32, STOP};
use evm_loader::stack::Stack;
use evm_loader::types::Address;

fn machine(code: &[u8], data: &[u8]) -> Machine {
    Machine {
        origin: Address([1; 20]),
        chain_id: 245022926,
        context: Context {
            caller: Address([2; 20]),
            contract: Address([3; 20]),
            contract_chain_id: 245022926,
            value: U256::new(7),
            code_address: None,
        },
        gas_price: U256::new(5),
        gas_limit: U256::new(1000),
        execution_code: Buffer::from_slice(code),
        call_data: Buffer::from_slice(data),
        return_data: Buffer::from_slice(&[9, 8, 7]),
        return_range: 0..0,
        stack: Stack::new(),
        memory: Memory::new(),
        pc: 0,
        is_static: false,
        reason: Reason::Call,
        parent: None,
    }
}

fn with_stack(values: &[U256]) -> Machine {
    let mut m = machine(&[], &[]);
    for v in values {
        m.stack.push_u256(*v).unwrap();
    }
    m
}

fn top_u256(m: &mut Machine) -> U256 {
    m.stack.pop_u256().unwrap()
}

#[test]
fn arithmetic_wraps_at_2_256() {
    let mut m = with_stack(&[U256::new(4), U256::new(3)]);
    assert_eq!(m.opcode_add(), Ok(Action::Continue));
    assert_eq!(top_u256(&mut m), U256::new(7));

    let mut m = with_stack(&[U256::ONE, U256::MAX]);
    m.opcode_add().unwrap();
    assert_eq!(top_u256(&mut m), U256::ZERO);

    let mut m = with_stack(&[U256::new(3), U256::new(10)]);
    m.opcode_sub().unwrap();
    assert_eq!(top_u256(&mut m), U256::new(7));

    let mut m = with_stack(&[U256::new(10), U256::new(3)]);
    m.opcode_sub().unwrap();
    assert_eq!(top_u256(&mut m), U256::MAX - U256::new(6));

    let mut m = with_stack(&[U256::new(6), U256::new(7)]);
    m.opcode_mul().unwrap();
    assert_eq!(top_u256(&mut m), U256::new(42));
}

#[test]
fn division_by_zero_gives_zero() {
    let mut m = with_stack(&[U256::ZERO, U256::new(10)]);
    m.opcode_div().unwrap();
    assert_eq!(top_u256(&mut m), U256::ZERO);

    let mut m = with_stack(&[U256::new(3), U256::new(10)]);
    m.opcode_div().unwrap();
    assert_eq!(top_u256(&mut m), U256::new(3));

    let mut m = with_stack(&[U256::new(3), U256::new(10)]);
    m.opcode_mod().unwrap();
    assert_eq!(top_u256(&mut m), U256::ONE);

    let mut m = with_stack(&[U256::ZERO, U256::new(10)]);
    m.opcode_mod().unwrap();
    assert_eq!(top_u256(&mut m), U256::ZERO);
}

#[test]
fn signed_division_rounds_toward_zero() {
    let mut m = machine(&[], &[]);
    m.stack.push_i256(I256::new(2)).unwrap();
    m.stack.push_i256(I256::new(-7)).unwrap();
    m.opcode_sdiv().unwrap();
    assert_eq!(m.stack.pop_i256().unwrap(), I256::new(-3));

    m.stack.push_i256(I256::new(2)).unwrap();
    m.stack.push_i256(I256::new(-7)).unwrap();
    m.opcode_smod().unwrap();
    assert_eq!(m.stack.pop_i256().unwrap(), I256::new(-1));

    m.stack.push_i256(I256::MINUS_ONE).unwrap();
    m.stack.push_i256(I256::MIN).unwrap();
    m.opcode_sdiv().unwrap();
    assert_eq!(m.stack.pop_i256().unwrap(), I256::MIN);

    m.stack.push_i256(I256::ZERO).unwrap();
    m.stack.push_i256(I256::new(-7)).unwrap();
    m.opcode_sdiv().unwrap();
    assert_eq!(m.stack.pop_i256().unwrap(), I256::ZERO);
}

#[test]
fn exponentiation() {
    let mut m = with_stack(&[U256::new(5), U256::new(3)]);
    m.opcode_exp().unwrap();
    assert_eq!(top_u256(&mut m), U256::new(243));

    let mut m = with_stack(&[U256::new(256), U256::new(2)]);
    m.opcode_exp().unwrap();
    assert_eq!(top_u256(&mut m), U256::ZERO);

    let mut m = with_stack(&[U256::new(255), U256::new(2)]);
    m.opcode_exp().unwrap();
    assert_eq!(top_u256(&mut m), U256::ONE << 255u32);

    let mut m = with_stack(&[U256::ZERO, U256::ZERO]);
    m.opcode_exp().unwrap();
    assert_eq!(top_u256(&mut m), U256::ONE);
}

#[test]
fn modular_addition_and_multiplication() {
    // (2^256 - 1 + 2) % 3 == (2^256 + 1) % 3 == 2
    let mut m = with_stack(&[U256::new(3), U256::new(2), U256::MAX]);
    m.opcode_addmod().unwrap();
    assert_eq!(top_u256(&mut m), U256::new(2));

    let mut m = with_stack(&[U256::new(10), U256::new(7), U256::new(8)]);
    m.opcode_addmod().unwrap();
    assert_eq!(top_u256(&mut m), U256::new(5));

    let mut m = with_stack(&[U256::ZERO, U256::new(7), U256::new(8)]);
    m.opcode_addmod().unwrap();
    assert_eq!(top_u256(&mut m), U256::ZERO);

    // 2^256 - 1 is 1 modulo 7, so is its square
    let mut m = with_stack(&[U256::new(7), U256::MAX, U256::MAX]);
    m.opcode_mulmod().unwrap();
    assert_eq!(top_u256(&mut m), U256::ONE);

    let mut m = with_stack(&[U256::new(10), U256::new(7), U256::new(8)]);
    m.opcode_mulmod().unwrap();
    assert_eq!(top_u256(&mut m), U256::new(6));

    let mut m = with_stack(&[U256::ZERO, U256::new(7), U256::new(8)]);
    m.opcode_mulmod().unwrap();
    assert_eq!(top_u256(&mut m), U256::ZERO);
}

#[test]
fn comparisons_and_bits() {
    let mut m = with_stack(&[U256::new(2), U256::new(1)]);
    m.opcode_lt().unwrap();
    assert_eq!(top_u256(&mut m), U256::ONE);

    let mut m = with_stack(&[U256::new(2), U256::new(1)]);
    m.opcode_gt().unwrap();
    assert_eq!(top_u256(&mut m), U256::ZERO);

    let mut m = with_stack(&[U256::new(2), U256::new(2)]);
    m.opcode_eq().unwrap();
    assert_eq!(top_u256(&mut m), U256::ONE);

    let mut m = machine(&[], &[]);
    m.stack.push_i256(I256::new(1)).unwrap();
    m.stack.push_i256(I256::new(-1)).unwrap();
    m.opcode_slt().unwrap();
    assert_eq!(top_u256(&mut m), U256::ONE);
    m.stack.push_i256(I256::new(1)).unwrap();
    m.stack.push_i256(I256::new(-1)).unwrap();
    m.opcode_sgt().unwrap();
    assert_eq!(top_u256(&mut m), U256::ZERO);

    let mut m = with_stack(&[U256::ZERO]);
    m.opcode_iszero().unwrap();
    assert_eq!(top_u256(&mut m), U256::ONE);

    let mut m = with_stack(&[U256::new(0b1100), U256::new(0b1010)]);
    m.opcode_and().unwrap();
    assert_eq!(top_u256(&mut m), U256::new(0b1000));
    let mut m = with_stack(&[U256::new(0b1100), U256::new(0b1010)]);
    m.opcode_or().unwrap();
    assert_eq!(top_u256(&mut m), U256::new(0b1110));
    let mut m = with_stack(&[U256::new(0b1100), U256::new(0b1010)]);
    m.opcode_xor().unwrap();
    assert_eq!(top_u256(&mut m), U256::new(0b0110));
    let mut m = with_stack(&[U256::ZERO]);
    m.opcode_not().unwrap();
    assert_eq!(top_u256(&mut m), U256::MAX);

    let mut m = with_stack(&[U256::new(0xabcd), U256::new(30)]);
    m.opcode_byte().unwrap();
    assert_eq!(top_u256(&mut m), U256::new(0xab));
    let mut m = with_stack(&[U256::new(0xabcd), U256::new(32)]);
    m.opcode_byte().unwrap();
    assert_eq!(top_u256(&mut m), U256::ZERO);
}

#[test]
fn shifts() {
    let mut m = with_stack(&[U256::ONE, U256::new(4)]);
    m.opcode_shl().unwrap();
    assert_eq!(top_u256(&mut m), U256::new(16));
    let mut m = with_stack(&[U256::ONE, U256::new(256)]);
    m.opcode_shl().unwrap();
    assert_eq!(top_u256(&mut m), U256::ZERO);
    let mut m = with_stack(&[U256::new(16), U256::new(4)]);
    m.opcode_shr().unwrap();
    assert_eq!(top_u256(&mut m), U256::ONE);

    let mut m = machine(&[], &[]);
    m.stack.push_i256(I256::new(-16)).unwrap();
    m.stack.push_u256(U256::new(2)).unwrap();
    m.opcode_sar().unwrap();
    assert_eq!(m.stack.pop_i256().unwrap(), I256::new(-4));
    m.stack.push_i256(I256::new(-1)).unwrap();
    m.stack.push_u256(U256::new(300)).unwrap();
    m.opcode_sar().unwrap();
    assert_eq!(m.stack.pop_array().unwrap(), [0xff; 32]);
    m.stack.push_i256(I256::new(-5)).unwrap();
    m.stack.push_u256(U256::new(256)).unwrap();
    m.opcode_sar().unwrap();
    assert_eq!(m.stack.pop_i256().unwrap(), I256::new(-1));
    m.stack.push_i256(I256::new(5)).unwrap();
    m.stack.push_u256(U256::new(256)).unwrap();
    m.opcode_sar().unwrap();
    assert_eq!(m.stack.pop_i256().unwrap(), I256::ZERO);
}

#[test]
fn environment_words() {
    let mut m = machine(&[1, 2, 3], &[4, 5]);
    m.opcode_address().unwrap();
    assert_eq!(m.stack.pop_address().unwrap(), Address([3; 20]));
    m.opcode_origin().unwrap();
    assert_eq!(m.stack.pop_address().unwrap(), Address([1; 20]));
    m.opcode_caller().unwrap();
    assert_eq!(m.stack.pop_address().unwrap(), Address([2; 20]));
    m.opcode_callvalue().unwrap();
    assert_eq!(top_u256(&mut m), U256::new(7));
    m.opcode_gasprice().unwrap();
    assert_eq!(top_u256(&mut m), U256::new(5));
    m.opcode_gas().unwrap();
    assert_eq!(top_u256(&mut m), U256::new(1000));
    m.opcode_gaslimit().unwrap();
    assert_eq!(top_u256(&mut m), U256::MAX);
    m.opcode_chainid().unwrap();
    assert_eq!(top_u256(&mut m), U256::new(245022926));
    m.opcode_coinbase().unwrap();
    m.opcode_difficulty().unwrap();
    m.opcode_basefee().unwrap();
    m.opcode_push_0().unwrap();
    for _ in 0..4 {
        assert_eq!(top_u256(&mut m), U256::ZERO);
    }
    m.opcode_codesize().unwrap();
    assert_eq!(m.stack.pop_usize(), Ok(3));
    m.opcode_calldatasize().unwrap();
    assert_eq!(m.stack.pop_usize(), Ok(2));
    m.opcode_returndatasize().unwrap();
    assert_eq!(m.stack.pop_usize(), Ok(3));
    m.pc = 2;
    m.opcode_pc().unwrap();
    assert_eq!(m.stack.pop_usize(), Ok(2));
    m.opcode_msize().unwrap();
    assert_eq!(m.stack.pop_usize(), Ok(0));
}

#[test]
fn stack_underflow_takes_what_there_is() {
    let mut m = with_stack(&[U256::ONE]);
    assert_eq!(m.opcode_add(), Err(Error::StackUnderflow));
    assert_eq!(m.stack.len(), 0);
    assert_eq!(m.opcode_pop(), Err(Error::StackUnderflow));
    assert_eq!(m.opcode_swap_1_16::<1>(), Err(Error::StackUnderflow));
    assert_eq!(m.opcode_dup_1_16::<1>(), Err(Error::StackUnderflow));
}

#[test]
fn stack_overflow_on_push() {
    let mut m = machine(&[], &[]);
    for _ in 0..127 {
        m.opcode_push_0().unwrap();
    }
    assert_eq!(m.opcode_push_0(), Err(Error::StackOverflow));
    assert_eq!(m.opcode_dup_1_16::<1>(), Err(Error::StackOverflow));
    assert_eq!(m.stack.len(), 127);
    assert_eq!(m.opcode_add(), Ok(Action::Continue));
    assert_eq!(m.stack.len(), 126);
}

#[test]
fn dup_swap_pop() {
    let mut m = with_stack(&[U256::new(1), U256::new(2)]);
    m.opcode_dup_1_16::<2>().unwrap();
    m.opcode_swap_1_16::<1>().unwrap();
    assert_eq!(top_u256(&mut m), U256::new(2));
    assert_eq!(m.opcode_pop(), Ok(Action::Continue));
    assert_eq!(top_u256(&mut m), U256::new(1));
}

#[test]
fn memory_instructions() {
    let mut m = with_stack(&[U256::new(0x1234), U256::new(3)]);
    assert_eq!(m.opcode_mstore(), Ok(Action::Continue));
    assert_eq!(m.memory.size(), 64);
    m.stack.push_usize(3).unwrap();
    m.opcode_mload().unwrap();
    assert_eq!(top_u256(&mut m), U256::new(0x1234));
    m.stack.push_u256(U256::new(0xff77)).unwrap();
    m.stack.push_usize(0).unwrap();
    m.opcode_mstore8().unwrap();
    assert_eq!(m.memory.read(0, 1).unwrap(), &[0x77]);

    let mut big = [0u8; 32];
    big[0] = 1;
    m.stack.push_array(&big).unwrap();
    assert_eq!(m.opcode_mload(), Err(Error::TryFromIntError));
    m.stack.push_usize(70000).unwrap();
    assert_eq!(
        m.opcode_mload(),
        Err(Error::MemoryAccessOutOfLimits(70000, 32))
    );
}

#[test]
fn jumps_land_on_jumpdest_only() {
    let code = [PUSH1, 3, STOP, JUMPDEST];
    let mut m = machine(&code, &[]);
    m.stack.push_usize(3).unwrap();
    assert_eq!(m.opcode_jump(), Ok(Action::Jump(3)));
    m.stack.push_usize(2).unwrap();
    assert_eq!(m.opcode_jump(), Err(Error::InvalidJump(Address([3; 20]), 2)));
    m.stack.push_usize(9).unwrap();
    assert_eq!(m.opcode_jump(), Err(Error::InvalidJump(Address([3; 20]), 9)));

    m.stack.push_zero().unwrap();
    m.stack.push_usize(2).unwrap();
    assert_eq!(m.opcode_jumpi(), Ok(Action::Continue));
    m.stack.push_byte(1).unwrap();
    m.stack.push_usize(3).unwrap();
    assert_eq!(m.opcode_jumpi(), Ok(Action::Jump(3)));
    assert_eq!(m.stack.len(), 0);
    assert_eq!(m.opcode_jumpdest(), Ok(Action::Continue));
}

#[test]
fn pushes_read_the_code() {
    let mut code = vec![PUSH1, 0xaa, 0x61, 0xbb, 0xcc, PUSH32];
    code.extend_from_slice(&[0x11; 32]);
    code.push(STOP);
    let mut m = machine(&code, &[]);
    assert_eq!(m.opcode_push_1(), Ok(Action::Jump(2)));
    assert_eq!(top_u256(&mut m), U256::new(0xaa));
    m.pc = 2;
    assert_eq!(m.opcode_push_2_31::<2>(), Ok(Action::Jump(5)));
    assert_eq!(top_u256(&mut m), U256::new(0xbbcc));
    m.pc = 5;
    assert_eq!(m.opcode_push_32(), Ok(Action::Jump(38)));
    assert_eq!(m.stack.pop_array().unwrap(), [0x11; 32]);

    let mut short = machine(&[PUSH1], &[]);
    assert_eq!(short.opcode_push_1(), Err(Error::PushOutOfBounds(Address([3; 20]))));
    let mut exact = vec![PUSH32];
    exact.extend_from_slice(&[0x22; 32]);
    let mut m = machine(&exact, &[]);
    assert_eq!(m.opcode_push_32(), Ok(Action::Jump(33)));
    assert_eq!(m.stack.pop_array().unwrap(), [0x22; 32]);
    let mut cut = vec![PUSH32];
    cut.extend_from_slice(&[0x22; 31]);
    let mut m = machine(&cut, &[]);
    assert_eq!(m.opcode_push_32(), Err(Error::PushOutOfBounds(Address([3; 20]))));

    let mut m = machine(&[0x61, 0x12, 0x34], &[]);
    assert_eq!(m.opcode_push_2_31::<2>(), Ok(Action::Jump(3)));
    assert_eq!(top_u256(&mut m), U256::new(0x1234));
    let mut m = machine(&[0x61, 0x12], &[]);
    assert_eq!(m.opcode_push_2_31::<2>(), Err(Error::PushOutOfBounds(Address([3; 20]))));
}

#[test]
fn call_data_and_copies() {
    let mut m = machine(&[0xc0, 0xc1, 0xc2], &[1, 2, 3, 4]);
    m.stack.push_usize(2).unwrap();
    m.opcode_calldataload().unwrap();
    let word = m.stack.pop_array().unwrap();
    assert_eq!(&word[..3], &[3, 4, 0]);
    assert_eq!(word[31], 0);

    // calldatacopy: memory offset 0, data offset 1, length 5
    m.stack.push_usize(5).unwrap();
    m.stack.push_usize(1).unwrap();
    m.stack.push_usize(0).unwrap();
    assert_eq!(m.opcode_calldatacopy(), Ok(Action::Continue));
    assert_eq!(m.memory.read(0, 6).unwrap(), &[2, 3, 4, 0, 0, 0]);

    m.stack.push_usize(2).unwrap();
    m.stack.push_usize(1).unwrap();
    m.stack.push_usize(10).unwrap();
    m.opcode_codecopy().unwrap();
    assert_eq!(m.memory.read(10, 2).unwrap(), &[0xc1, 0xc2]);

    m.stack.push_usize(2).unwrap();
    m.stack.push_usize(1).unwrap();
    m.stack.push_usize(20).unwrap();
    m.opcode_returndatacopy().unwrap();
    assert_eq!(m.memory.read(20, 2).unwrap(), &[8, 7]);

    m.stack.push_usize(3).unwrap();
    m.stack.push_usize(1).unwrap();
    m.stack.push_usize(20).unwrap();
    assert_eq!(m.opcode_returndatacopy(), Err(Error::ReturnDataCopyOverflow(1, 3)));
}

#[test]
fn advance_moves_the_program_counter() {
    let mut m = machine(&[STOP], &[]);
    assert_eq!(m.advance(Action::Continue), None);
    assert_eq!(m.pc, 1);
    assert_eq!(m.advance(Action::Jump(7)), None);
    assert_eq!(m.pc, 7);
    assert_eq!(m.advance(Action::Noop), None);
    assert_eq!(m.pc, 7);
    assert_eq!(m.advance(Action::Return(vec![1])), Some(ExitStatus::Return(vec![1])));
    assert_eq!(m.advance(Action::Stop), Some(ExitStatus::Stop));
    assert_eq!(m.advance(Action::Suicide), Some(ExitStatus::Suicide));
    assert_eq!(m.advance(Action::Revert(vec![])), Some(ExitStatus::Revert(vec![])));
}

#[test]
fn invalid_and_unknown_instructions() {
    let mut m = machine(&[0xfe, 0x0c], &[]);
    assert_eq!(m.opcode_invalid(), Err(Error::InvalidOpcode(Address([3; 20]), 0xfe)));
    m.pc = 1;
    assert_eq!(m.opcode_unknown(), Err(Error::UnknownOpcode(Address([3; 20]), 0x0c)));
}

#[test]
fn sign_extension() {
    let mut m = with_stack(&[U256::new(0xff), U256::ZERO]);
    m.opcode_signextend().unwrap();
    assert_eq!(top_u256(&mut m), U256::MAX);

    let mut m = with_stack(&[U256::new(0x7f), U256::ZERO]);
    m.opcode_signextend().unwrap();
    assert_eq!(top_u256(&mut m), U256::new(0x7f));

    let mut m = with_stack(&[U256::new(0x1234_8000), U256::ONE]);
    m.opcode_signextend().unwrap();
    assert_eq!(top_u256(&mut m), U256::MAX - U256::new(0x7fff));

    let mut m = with_stack(&[U256::new(0x1234_8000), U256::new(32)]);
    m.opcode_signextend().unwrap();
    assert_eq!(top_u256(&mut m), U256::new(0x1234_8000));
}

#[test]
fn sha3_hashes_memory() {
    let mut m = with_stack(&[U256::ZERO, U256::ZERO]);
    assert_eq!(m.opcode_sha3(), Ok(Action::Continue));
    assert_eq!(
        m.stack.pop_array().unwrap(),
        [
            197, 210, 70, 1, 134, 247, 35, 60, 146, 126, 125, 178, 220, 199, 3, 192, 229, 0,
            182, 83, 202, 130, 39, 59, 123, 250, 216, 4, 93, 133, 164, 112,
        ]
    );
    assert_eq!(m.memory.size(), 0);

    let mut m = with_stack(&[U256::new(10), U256::ZERO]);
    assert_eq!(m.opcode_sha3(), Ok(Action::Continue));
    assert_eq!(
        m.stack.pop_array().unwrap(),
        [
            107, 210, 221, 107, 212, 8, 203, 238, 51, 66, 147, 88, 191, 36, 253, 198, 70, 18,
            251, 248, 177, 180, 219, 96, 69, 24, 244, 15, 253, 52, 182, 7
        ]
    );
    assert_eq!(m.memory.size(), 32);

    let mut m = with_stack(&[U256::ZERO]);
    assert_eq!(m.opcode_sha3(), Err(Error::StackUnderflow));
}
