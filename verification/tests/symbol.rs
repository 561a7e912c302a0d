//! The symbol table: first-writer-wins insertion and pure lookup.

use regvm::assembler::assembler_instruction::AssemblerInstruction;
use regvm::assembler::symbol::{Symbol, SymbolTable, SymbolType};
use regvm::assembler::Token;
use regvm::instruction::Opcode;

#[test]
fn test_symbol_table() {
    let mut symbol_tabel = SymbolTable::new();
    let instruction = AssemblerInstruction {
        opcode: Some(Token::Op { code: Opcode::JMP }),
        directive: None,
        label: Some(Token::Label { name: String::from("test_label") }),
        operand_one: None,
        operand_two: None,
        operand_three: None,
    };

    let symbol = Symbol::new(
        String::from("test_label"),
        instruction.to_bytes().unwrap(),
        SymbolType::Label,
    );
    symbol_tabel.add_symbol(symbol.clone());

    let instruction: Vec<u8> = vec![06, 00, 00, 00];

    assert_eq!(symbol_tabel.symbols.len(), 1);
    assert_eq!(symbol_tabel.get_symbol(String::from("test_label")), Some(&instruction));
}

#[test]
fn test_symbol_table_first_writer_wins() {
    let mut table = SymbolTable::new();
    table.add_symbol(Symbol::new(String::from("here"), vec![1, 2, 3, 4], SymbolType::Label));
    table.add_symbol(Symbol::new(String::from("here"), vec![9, 9, 9, 9], SymbolType::Label));

    let first: Vec<u8> = vec![1, 2, 3, 4];
    assert_eq!(table.symbols.len(), 1);
    assert_eq!(table.get_symbol(String::from("here")), Some(&first));
}

#[test]
fn test_symbol_table_missing_name() {
    let table = SymbolTable::new();
    assert_eq!(table.get_symbol(String::from("nowhere")), None);
}
