//! The opcode catalog: construction and the wire-level byte mapping.

use regvm::instruction::{Instruction, Opcode};

#[test]
fn test_create_hlt() {
    let opcode = Opcode::HLT;
    assert_eq!(opcode, Opcode::HLT);
}

#[test]
fn test_create_instruction() {
    let instruction = Instruction::new(Opcode::HLT);
    assert_eq!(instruction.opcode, Opcode::HLT);
}

#[test]
fn test_opcode_byte_round_trip() {
    let opcodes = [
        Opcode::LOAD,
        Opcode::ADD,
        Opcode::DIV,
        Opcode::MUL,
        Opcode::SUB,
        Opcode::HLT,
        Opcode::JMP,
        Opcode::JMPB,
        Opcode::JMPF,
        Opcode::EQ,
        Opcode::NEQ,
        Opcode::GT,
        Opcode::LT,
        Opcode::GTQ,
        Opcode::LTQ,
        Opcode::JEQ,
        Opcode::JNEQ,
        Opcode::ALOC,
    ];
    for op in opcodes {
        assert_eq!(Opcode::from_byte(op.to_byte()), op);
    }
}

#[test]
fn test_opcode_byte_values() {
    assert_eq!(Opcode::LOAD.to_byte(), 0);
    assert_eq!(Opcode::ADD.to_byte(), 1);
    assert_eq!(Opcode::DIV.to_byte(), 2);
    assert_eq!(Opcode::MUL.to_byte(), 3);
    assert_eq!(Opcode::SUB.to_byte(), 4);
    assert_eq!(Opcode::HLT.to_byte(), 5);
    assert_eq!(Opcode::JMP.to_byte(), 6);
    assert_eq!(Opcode::JMPB.to_byte(), 7);
    assert_eq!(Opcode::JMPF.to_byte(), 8);
    assert_eq!(Opcode::EQ.to_byte(), 9);
    assert_eq!(Opcode::NEQ.to_byte(), 10);
    assert_eq!(Opcode::GT.to_byte(), 11);
    assert_eq!(Opcode::LT.to_byte(), 12);
    assert_eq!(Opcode::GTQ.to_byte(), 13);
    assert_eq!(Opcode::LTQ.to_byte(), 14);
    assert_eq!(Opcode::JEQ.to_byte(), 15);
    assert_eq!(Opcode::JNEQ.to_byte(), 16);
    assert_eq!(Opcode::ALOC.to_byte(), 17);
    assert_eq!(Opcode::IGL.to_byte(), 100);
}

#[test]
fn test_unassigned_bytes_decode_to_igl() {
    assert_eq!(Opcode::from_byte(18), Opcode::IGL);
    assert_eq!(Opcode::from_byte(100), Opcode::IGL);
    assert_eq!(Opcode::from_byte(254), Opcode::IGL);
    assert_eq!(Opcode::from_byte(255), Opcode::IGL);
}

#[test]
fn test_from_mnemonic_case_insensitive() {
    assert_eq!(Opcode::from_mnemonic("load"), Some(Opcode::LOAD));
    assert_eq!(Opcode::from_mnemonic("LOAD"), Some(Opcode::LOAD));
    assert_eq!(Opcode::from_mnemonic("Aloc"), Some(Opcode::ALOC));
    assert_eq!(Opcode::from_mnemonic("jmpb"), Some(Opcode::JMPB));
    assert_eq!(Opcode::from_mnemonic("nop"), None);
    assert_eq!(Opcode::from_mnemonic(""), None);
}

#[test]
fn test_mnemonic_matches_catalog() {
    assert_eq!(Opcode::ADD.mnemonic(), "add");
    assert_eq!(Opcode::IGL.mnemonic(), "igl");
    assert_eq!(Opcode::from_mnemonic(Opcode::GTQ.mnemonic()), Some(Opcode::GTQ));
}
