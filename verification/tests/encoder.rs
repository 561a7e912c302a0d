//! The instruction encoder: one zero-padded 4-byte slot per
//! instruction, big-endian integer immediates.

use regvm::assembler::assembler_instruction::AssemblerInstruction;
use regvm::assembler::{AsmError, Token};
use regvm::instruction::Opcode;

#[test]
fn test_assemblerinstruction_tobytes() {
    let ai = AssemblerInstruction {
        opcode: Some(Token::Op { code: Opcode::LOAD }),
        operand_one: Some(Token::Register { register: 10 }),
        operand_two: Some(Token::IntOperand { operand: 500 }),
        operand_three: None,
        directive: None,
        label: None,
    };

    assert_eq!(ai.to_bytes().unwrap(), [0, 10, 1, 244])
}

#[test]
fn test_assemblerinstruction_add_tobytes() {
    let ai = AssemblerInstruction {
        opcode: Some(Token::Op { code: Opcode::ADD }),
        operand_one: Some(Token::Register { register: 0 }),
        operand_two: Some(Token::Register { register: 10 }),
        operand_three: Some(Token::Register { register: 5 }),
        directive: None,
        label: None,
    };

    assert_eq!(ai.to_bytes().unwrap(), [1, 0, 10, 5])
}

#[test]
fn test_tobytes_bare_opcode_pads_to_slot() {
    let ai = AssemblerInstruction {
        opcode: Some(Token::Op { code: Opcode::HLT }),
        directive: None,
        label: None,
        operand_one: None,
        operand_two: None,
        operand_three: None,
    };

    assert_eq!(ai.to_bytes().unwrap(), [5, 0, 0, 0])
}

#[test]
fn test_tobytes_directive_contributes_no_code() {
    let ai = AssemblerInstruction {
        opcode: None,
        directive: Some(Token::Directive { value: String::from("asciiz") }),
        label: None,
        operand_one: Some(Token::StringOperand { operand: String::from("hi") }),
        operand_two: None,
        operand_three: None,
    };

    assert_eq!(ai.to_bytes().unwrap(), [0, 0, 0, 0])
}

#[test]
fn test_tobytes_rejects_bad_operand() {
    let ai = AssemblerInstruction {
        opcode: Some(Token::Op { code: Opcode::LOAD }),
        directive: None,
        label: None,
        operand_one: Some(Token::StringOperand { operand: String::from("oops") }),
        operand_two: None,
        operand_three: None,
    };

    assert_eq!(ai.to_bytes(), Err(AsmError::BadOperand))
}

#[test]
fn test_tobytes_rejects_missing_opcode() {
    let ai = AssemblerInstruction {
        opcode: None,
        directive: None,
        label: None,
        operand_one: Some(Token::Register { register: 1 }),
        operand_two: None,
        operand_three: None,
    };

    assert_eq!(ai.to_bytes(), Err(AsmError::ExpectedOpcode))
}

#[test]
fn test_tobytes_big_endian_immediate() {
    let ai = AssemblerInstruction {
        opcode: Some(Token::Op { code: Opcode::LOAD }),
        directive: None,
        label: None,
        operand_one: Some(Token::Register { register: 0 }),
        operand_two: Some(Token::IntOperand { operand: 0x1234 }),
        operand_three: None,
    };

    assert_eq!(ai.to_bytes().unwrap(), [0, 0, 0x12, 0x34])
}
