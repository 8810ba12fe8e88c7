use evm_loader::buffer::Buffer;
use evm_loader::eof::{Container, FunctionMetadata};
use evm_loader::error::Error;
use evm_loader::validate::{opcode_info, OpcodeInfo};

const STOP: u8 = 0x00;
const ADD: u8 = 0x01;
const ADDRESS: u8 = 0x30;
const ORIGIN: u8 = 0x32;
const CALLER: u8 = 0x33;
const CODECOPY: u8 = 0x39;
const POP: u8 = 0x50;
const JUMPDEST: u8 = 0x5B;
const RJUMP: u8 = 0x5C;
const RJUMPI: u8 = 0x5D;
const RJUMPV: u8 = 0x5E;
const PUSH0: u8 = 0x5F;
const PUSH1: u8 = 0x60;
const CALLF: u8 = 0xB0;
const RETF: u8 = 0xB1;
const RETURN: u8 = 0xF3;
const INVALID: u8 = 0xFE;

fn meta(input: u8, output: u8, max_stack_height: u16) -> FunctionMetadata {
    FunctionMetadata { input, output, max_stack_height }
}

#[test]
fn hello_world_validation() {
    let bytecode = r#"
    ef0001 010004 020001 0097 030263 00 00000008
    608080604052345d00896000600581556001908154908282811c921680155d006a60208310145d004f601f82115d0022505060186b48656c6c6f20576f726c642160a01b01905561026390816100aa8239f382815282601f60208320930160051c8301928381105d000550505cffc18281550183905cffec602490634e487b7160e01b81526022600452fd91607f16915cff8e600080fd

    ef0001 01000c 020003 009a 00fc 0041 03006d 00 00000005 0001000c 0201000a

    608060405260043610155d0004600080fd6000803560e01c80631f1bd692145d005680634e70b1dc145d002e63fc6492bc145d0004505cffd4345d001b806003193601125d000fb00001604051809181b000020390f380fd80fd50345d0017806003193601125d000b60209054604051908152f380fd80fd50345d001b806003193601125d000fb00001604051809181b000020390f380fd80fd
    6040516000600180549081811c908083169283155d00dd60209384841081145d00bf83875290816000145d0098506001145d0039505050601f82811992030116810181811067ffffffffffffffff8211175d0004604052b1634e487b7160e01b600052604160045260246000fd809293506000527fb10e2d527612073b26eecdfd717e6a320cf44b4afac2b0732d9fcbe2b7fa0cf691836000938385105d000d505050508201013880805cff879182819495935483858a01015201910192919084905cffd592939450505060ff191682840152151560051b8201013880805cff53602486634e487b7160e01b81526022600452fd91607f16915cff1b
    602091828252805190818484015260008281105d00185050604092506000838284010152601f80199101160101b1808580928401015160408287010152015cffcf

    a364697066735822122096760ffdb7239f731b9acc9ffa81afe01fa6d1b6d1e80121c1aaeabae13cb3cd6c6578706572696d656e74616cf564736f6c63782c302e382e31382d646576656c6f702e323032332e382e31352b636f6d6d69742e34363964366434642e6d6f64006b
    "#
    .replace(' ', "")
    .replace('\n', "");

    let bytecode = (0..bytecode.len())
        .step_by(2)
        .map(|i| u8::from_str_radix(&bytecode[i..i + 2], 16).unwrap())
        .collect::<Vec<_>>();

    let buffer_bytecode = Buffer::from_slice(bytecode.as_slice());
    let container = Container::unmarshal_binary(&buffer_bytecode).unwrap();

    container.validate_container().unwrap();
}

#[test]
fn validation_test() {
    let codes = vec![
        (Buffer::from_slice(&[CALLER, POP, STOP]), vec![meta(0, 0, 1)]),
        (Buffer::from_slice(&[CALLF, 0x00, 0x00, STOP]), vec![meta(0, 0, 0)]),
        (Buffer::from_slice(&[ADDRESS, CALLF, 0x00, 0x00, STOP]), vec![meta(0, 0, 1)]),
        (
            Buffer::from_slice(&[
                RJUMP, 0x00, 0x03, JUMPDEST, JUMPDEST, RETURN, PUSH1, 20, PUSH1, 39, PUSH1, 0x00,
                CODECOPY, PUSH1, 20, PUSH1, 0x00, RJUMP, 0xff, 0xef,
            ]),
            vec![meta(0, 0, 3)],
        ),
        (
            Buffer::from_slice(&[
                PUSH1, 1, RJUMPI, 0x00, 0x03, JUMPDEST, JUMPDEST, STOP, PUSH1, 20, PUSH1, 39,
                PUSH1, 0x00, CODECOPY, PUSH1, 20, PUSH1, 0x00, RETURN,
            ]),
            vec![meta(0, 0, 3)],
        ),
        (
            Buffer::from_slice(&[
                PUSH1, 1, RJUMPV, 0x02, 0x00, 0x03, 0xff, 0xf8, JUMPDEST, JUMPDEST, STOP, PUSH1, 20,
                PUSH1, 39, PUSH1, 0x00, CODECOPY, PUSH1, 20, PUSH1, 0x00, RETURN,
            ]),
            vec![meta(0, 0, 3)],
        ),
        (Buffer::from_slice(&[RETF]), vec![meta(3, 3, 3)]),
        (Buffer::from_slice(&[CALLF, 0x00, 0x01, POP, STOP]), vec![meta(0, 0, 1), meta(0, 1, 0)]),
        (
            Buffer::from_slice(&[ORIGIN, ORIGIN, CALLF, 0x00, 0x01, POP, RETF]),
            vec![meta(0, 0, 2), meta(2, 1, 2)],
        ),
    ];

    for (code, meta) in codes {
        assert!(Container::validate_code(&code, 0, &meta).is_ok());
    }
}

#[test]
#[should_panic(expected = "FunctionMetadataNotFound(0)")]
fn validation_test_with_function_metadata_not_found() {
    let code = Buffer::from_slice(&[RETF]);
    let metas = vec![];

    Container::validate_code(&code, 0, &metas).unwrap();
}

#[test]
#[should_panic(expected = "ValidationInvalidCodeTermination(80, 2)")]
fn validation_test_with_invalid_code_termination() {
    let code = Buffer::from_slice(&[CALLER, POP]);
    Container::validate_code(&code, 0, &vec![meta(0, 0, 1)]).unwrap();
}

#[test]
#[should_panic(expected = "ValidationUnreachableCode")]
fn validation_test_with_unreachable_code_1() {
    let code = Buffer::from_slice(&[RJUMP, 0x00, 0x01, CALLER, STOP]);
    Container::validate_code(&code, 0, &vec![meta(0, 0, 0)]).unwrap();
}

#[test]
#[should_panic(expected = "ValidationUnreachableCode")]
fn validation_test_with_unreachable_code_2() {
    let code = Buffer::from_slice(&[STOP, STOP, INVALID]);
    Container::validate_code(&code, 0, &vec![meta(0, 0, 0)]).unwrap();
}

#[test]
#[should_panic(expected = "StackUnderflow")]
fn validation_test_stack_underflow() {
    let code = Buffer::from_slice(&[PUSH1, 0x42, ADD, STOP]);
    Container::validate_code(&code, 0, &vec![meta(0, 0, 1)]).unwrap();
}

#[test]
#[should_panic(expected = "ValidationInvalidMaxStackHeight(0, 1, 2)")]
fn validation_test_with_invalid_max_stack_height() {
    let code = Buffer::from_slice(&[PUSH1, 0x42, POP, STOP]);
    Container::validate_code(&code, 0, &vec![meta(0, 0, 2)]).unwrap();
}

#[test]
#[should_panic(expected = "ValidationInvalidJumpDest(1, 5, 2)")]
fn validation_test_with_invalid_jump_dest_1() {
    let code = Buffer::from_slice(&[PUSH0, RJUMPI, 0x00, 0x01, PUSH1, 0x42, POP, STOP]);
    Container::validate_code(&code, 0, &vec![meta(0, 0, 1)]).unwrap();
}

#[test]
#[should_panic(expected = "ValidationInvalidJumpDest(1, 8, 3)")]
fn validation_test_with_invalid_jump_dest_2() {
    let code = Buffer::from_slice(&[
        PUSH0, RJUMPV, 0x02, 0x00, 0x01, 0x00, 0x02, PUSH1, 0x42, POP, STOP,
    ]);
    Container::validate_code(&code, 0, &vec![meta(0, 0, 1)]).unwrap();
}

#[test]
#[should_panic(expected = "ValidationInvalidBranchCount(1)")]
fn validation_test_with_invalid_branch_count() {
    let code = Buffer::from_slice(&[PUSH0, RJUMPV, 0x00, STOP]);
    Container::validate_code(&code, 0, &vec![meta(0, 0, 1)]).unwrap();
}

#[test]
#[should_panic(expected = "ValidationInvalidOutputs(1, 0, 0)")]
fn validation_test_with_invalid_outputs() {
    let code = Buffer::from_slice(&[RETF]);
    Container::validate_code(&code, 0, &vec![meta(0, 1, 0)]).unwrap();
}

#[test]
fn deprecated_instructions_are_refused() {
    let code = Buffer::from_slice(&[PUSH0, 0x56, STOP]);
    assert_eq!(
        Container::validate_code(&code, 0, &vec![meta(0, 0, 1)]),
        Err(Error::ValidationUndefinedInstruction(0x56, 1))
    );
}

#[test]
fn a_truncated_push_is_refused() {
    let code = Buffer::from_slice(&[0x61, 0x01]);
    assert_eq!(
        Container::validate_code(&code, 0, &vec![meta(0, 0, 1)]),
        Err(Error::ValidationTruncatedImmediate(0x61, 0))
    );
}

#[test]
fn a_call_of_a_missing_section_is_refused() {
    let code = Buffer::from_slice(&[CALLF, 0x00, 0x02, STOP]);
    assert_eq!(
        Container::validate_code(&code, 0, &vec![meta(0, 0, 0)]),
        Err(Error::ValidationInvalidSectionArgument(2, 1, 0))
    );
}

#[test]
fn paths_that_meet_at_different_heights_are_refused() {
    // PUSH0; RJUMPI +1; PUSH0; STOP: the jump reaches STOP at height 0, the fall-through at 1.
    let code = Buffer::from_slice(&[PUSH0, RJUMPI, 0x00, 0x01, PUSH0, STOP]);
    assert_eq!(
        Container::validate_code(&code, 0, &vec![meta(0, 0, 1)]),
        Err(Error::ValidationConflictingStack(0, 1))
    );
}

#[test]
fn opcode_info_gives_the_stack_bounds() {
    assert_eq!(
        opcode_info(ADD),
        Some(OpcodeInfo { min_stack: 2, max_stack: 1025, terminal: false })
    );
    assert_eq!(
        opcode_info(0x8f),
        Some(OpcodeInfo { min_stack: 16, max_stack: 1023, terminal: false })
    );
    assert_eq!(
        opcode_info(RETURN),
        Some(OpcodeInfo { min_stack: 2, max_stack: 1026, terminal: true })
    );
    assert_eq!(opcode_info(0x56), None);
    assert_eq!(opcode_info(0x0c), None);
}
