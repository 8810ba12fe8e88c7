use ethnum::U256;
use evm_loader::machine::{Context, ExitStatus};
use evm_loader::struct_logger::{opcode_name_of, Event, StructLogger, TraceConfig};
use evm_loader::types::Address;

fn config(enable_memory: bool, disable_storage: bool, disable_stack: bool, enable_return_data: bool) -> TraceConfig {
    TraceConfig { enable_memory, disable_storage, disable_stack, enable_return_data }
}

fn context() -> Context {
    Context {
        caller: Address([1; 20]),
        contract: Address([2; 20]),
        contract_chain_id: 1,
        value: U256::ZERO,
        code_address: None,
    }
}

#[test]
fn a_step_is_recorded_with_its_stack_memory_and_depth() {
    let mut logger = StructLogger::new(&config(true, false, false, true));
    logger.event(Event::BeginVM { context: context(), code: vec![0x01] });
    let mut memory = vec![0u8; 40];
    memory[39] = 7;
    logger.event(Event::BeginStep { opcode: 0x01, pc: 5, stack: vec![[1; 32], [2; 32]], memory });
    logger.event(Event::EndStep { gas_used: 3, return_data: Some(vec![9]) });
    assert_eq!(logger.logs.len(), 1);
    let log = &logger.logs[0];
    assert_eq!(log.pc, 5);
    assert_eq!(log.op, "ADD");
    assert_eq!(log.depth, 1);
    assert_eq!(log.gas, Some(3));
    assert_eq!(log.stack, Some(vec![[1; 32], [2; 32]]));
    let words = log.memory.as_ref().unwrap();
    assert_eq!(words.len(), 2);
    assert_eq!(words[0], vec![0; 32]);
    assert_eq!(words[1], vec![0, 0, 0, 0, 0, 0, 0, 7]);
    assert_eq!(log.return_data, Some(vec![9]));
    logger.event(Event::EndVM { status: ExitStatus::Stop });
    assert_eq!(logger.depth, 0);
}

#[test]
fn storage_reads_carry_over_to_the_next_steps() {
    let mut logger = StructLogger::new(&config(false, false, true, false));
    logger.event(Event::BeginStep { opcode: 0x54, pc: 0, stack: vec![], memory: vec![] });
    logger.event(Event::StorageAccess { index: U256::new(3), value: [4; 32] });
    logger.event(Event::EndStep { gas_used: 1, return_data: Some(vec![1]) });
    logger.event(Event::BeginStep { opcode: 0x54, pc: 1, stack: vec![], memory: vec![] });
    logger.event(Event::StorageAccess { index: U256::new(3), value: [5; 32] });
    logger.event(Event::EndStep { gas_used: 2, return_data: None });
    let mut key = [0u8; 32];
    key[31] = 3;
    assert_eq!(logger.logs[0].storage, Some(vec![(key, [4; 32])]));
    assert_eq!(logger.logs[1].storage, Some(vec![(key, [5; 32])]));
    assert_eq!(logger.logs[0].stack, None);
    assert_eq!(logger.logs[0].memory, None);
    assert_eq!(logger.logs[0].return_data, None);
}

#[test]
fn storage_is_left_out_when_disabled() {
    let mut logger = StructLogger::new(&config(false, true, false, false));
    logger.event(Event::BeginStep { opcode: 0x54, pc: 0, stack: vec![], memory: vec![] });
    logger.event(Event::StorageAccess { index: U256::new(3), value: [4; 32] });
    logger.event(Event::EndStep { gas_used: 1, return_data: None });
    assert_eq!(logger.logs[0].storage, None);
    assert!(logger.storage_access.is_none());
}

#[test]
fn unknown_instructions_are_named_invalid() {
    assert_eq!(opcode_name_of(0x0c), "<invalid>");
    assert_eq!(opcode_name_of(0xff), "SELFDESTRUCT");
}
