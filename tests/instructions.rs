use asm_frontend::instruction::{Instruction, InstructionError, Load};
use asm_frontend::registers::RegisterTable;

fn general(name: &str) -> Instruction {
    Instruction::new(
        "arith".to_string(),
        name.to_string(),
        3,
        RegisterTable::General,
        RegisterTable::General,
    )
}

#[test]
fn invalid_source_does_not_poison_instruction() {
    let mut i = general("ADD");
    assert_eq!(
        i.set_source_register("A9".to_string()),
        Err(InstructionError::InvalidRegister { mnemonic: "ADD".to_string(), name: "A9".to_string() })
    );
    assert_eq!(i.source_register(), None);
    assert_eq!(i.set_target_register("B1".to_string()), Ok(()));
    assert_eq!(i.target_register(), Some(11));
}

#[test]
fn source_register_is_checked_against_its_table() {
    let mut i = general("MOV");
    assert!(i.set_source_register("PC".to_string()).is_err());
    assert_eq!(i.set_source_register("DSP".to_string()), Ok(()));
    assert_eq!(i.source_register(), Some(39));
}

#[test]
fn new_instruction_is_empty() {
    let i = general("SUB");
    assert_eq!(i.mnemonic(), "SUB");
    assert_eq!(i.class(), "arith");
    assert_eq!(i.op_code(), 3);
    assert_eq!(i.op_code_width(), 10);
    assert_eq!(i.source_register(), None);
    assert_eq!(i.target_register(), None);
    assert_eq!(i.immediate(), None);
}

#[test]
fn immediates_use_the_literal_grammar() {
    let mut i = general("ADDI");
    assert_eq!(i.set_immediate("1FH".to_string()), Ok(()));
    assert_eq!(i.immediate(), Some(31));
    assert_eq!(i.set_immediate("12".to_string()), Ok(()));
    assert_eq!(i.immediate(), Some(12));
    assert_eq!(i.set_immediate("1G".to_string()), Err(InstructionError::MalformedNumber));
    assert_eq!(i.set_immediate("100000000H".to_string()), Err(InstructionError::ImmediateOutOfRange));
    assert_eq!(i.immediate(), Some(12));
}

#[test]
fn load_accepts_every_register() {
    let mut l = Load::new("LD".to_string(), 7);
    assert_eq!(l.instruction.class(), "memory");
    assert_eq!(l.instruction.op_code(), 7);
    assert_eq!(l.instruction.set_source_register("PC".to_string()), Ok(()));
    assert_eq!(l.instruction.set_target_register("ZERO".to_string()), Ok(()));
    assert_eq!(l.instruction.source_register(), Some(41));
    assert_eq!(l.instruction.target_register(), Some(0));
    assert!(l.first_source.is_none() && l.second_source.is_none());
}
