//! The parser: statements from source text, with their heads, label
//! references and operands.

use regvm::assembler::assembler_instruction::{AssemblerInstruction, AssemblerToken};
use regvm::assembler::parser::Parser;
use regvm::assembler::{AsmError, Token};
use regvm::instruction::Opcode;

#[test]
fn test_parse_label() {
    let mut p = Parser::new("JMP @test");
    p.parse().unwrap();

    assert_eq!(p.program.len(), 1);

    assert_eq!(
        p.program[0],
        AssemblerToken::Instruction {
            assembler_instruction: AssemblerInstruction {
                opcode: Some(Token::Op { code: Opcode::JMP }),
                directive: None,
                label: Some(Token::Label { name: String::from("test") }),
                operand_one: None,
                operand_two: None,
                operand_three: None
            }
        }
    );
}

#[test]
fn test_parse_label_declaration() {
    let mut p = Parser::new("my_instruction: load $10 #10");
    p.parse().unwrap();

    assert_eq!(p.program.len(), 1);

    assert_eq!(
        p.program[0],
        AssemblerToken::LabelDeclaration {
            label_name: String::from("my_instruction"),
            assembler_instruction: AssemblerInstruction {
                opcode: Some(Token::Op { code: Opcode::LOAD }),
                directive: None,
                label: None,
                operand_one: Some(Token::Register { register: 10 }),
                operand_two: Some(Token::IntOperand { operand: 10 }),
                operand_three: None
            }
        }
    );
}

#[test]
fn test_parse_instruction() {
    let mut p = Parser::new("my_string: .asciiz \"Hello world\"\nload $10 #10\nHLT\nADD $0 $10 $5");
    p.parse().unwrap();

    assert_eq!(p.program.len(), 4);

    assert_eq!(
        p.program[0],
        AssemblerToken::LabelDeclaration {
            label_name: String::from("my_string"),
            assembler_instruction: AssemblerInstruction {
                opcode: None,
                directive: Some(Token::Directive { value: String::from("asciiz") }),
                label: None,
                operand_one: Some(Token::StringOperand { operand: String::from("Hello world") }),
                operand_two: None,
                operand_three: None
            }
        }
    );

    assert_eq!(
        p.program[1],
        AssemblerToken::Instruction {
            assembler_instruction: AssemblerInstruction {
                opcode: Some(Token::Op { code: Opcode::LOAD }),
                directive: None,
                label: None,
                operand_one: Some(Token::Register { register: 10 }),
                operand_two: Some(Token::IntOperand { operand: 10 }),
                operand_three: None
            }
        }
    );

    assert_eq!(
        p.program[2],
        AssemblerToken::Instruction {
            assembler_instruction: AssemblerInstruction {
                opcode: Some(Token::Op { code: Opcode::HLT }),
                directive: None,
                label: None,
                operand_one: None,
                operand_two: None,
                operand_three: None
            }
        }
    );

    assert_eq!(
        p.program[3],
        AssemblerToken::Instruction {
            assembler_instruction: AssemblerInstruction {
                opcode: Some(Token::Op { code: Opcode::ADD }),
                directive: None,
                label: None,
                operand_one: Some(Token::Register { register: 0 }),
                operand_two: Some(Token::Register { register: 10 }),
                operand_three: Some(Token::Register { register: 5 }),
            }
        }
    )
}

#[test]
fn test_parse_bad_statement_start() {
    let mut p = Parser::new("$5 load $1 #2");
    assert_eq!(p.parse(), Err(AsmError::BadStatementStart));
}

#[test]
fn test_parse_dangling_label_declaration() {
    let mut p = Parser::new("orphan:");
    assert_eq!(p.parse(), Err(AsmError::LabelNeedsInstruction));
}

#[test]
fn test_parse_propagates_lexical_error() {
    let mut p = Parser::new("load $1 #oops");
    assert_eq!(p.parse(), Err(AsmError::BadNumber));
}

#[test]
fn test_parse_empty_source() {
    let mut p = Parser::new("");
    p.parse().unwrap();
    assert_eq!(p.program.len(), 0);
}
