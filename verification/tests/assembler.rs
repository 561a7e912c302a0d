//! The assembler driver: symbol capture, section records, read-only
//! data, and the emitted code stream.

use regvm::assembler::assembler::Assembler;
use regvm::assembler::program::Program;

#[test]
fn test_symbol_assembler() {
    let mut assembler = Assembler::new();

    assembler.assemble("LOAD $0 #10\nLOAD $1 #10\nmy_label: ADD $2 $0 $1");

    let instruction: Vec<u8> = vec![01, 02, 00, 01];

    assert_eq!(assembler.symbols.get_symbol(String::from("my_label")), Some(&instruction));
}

#[test]
fn test_sections() {
    let mut assembler = Assembler::new();

    assembler.assemble(".data\n.code\nLOAD $1 #10");

    assert_eq!(assembler.sections, vec![String::from(".data"), String::from(".code")]);
}

#[test]
fn test_read_only_data() {
    let mut assembler = Assembler::new();

    assembler.assemble(".data\nmy_string: .asciiz \"Hello world\"");

    assert_eq!(assembler.read_only_data.len(), "Hello world".len() + 1);
}

#[test]
fn test_read_only_data_is_nul_terminated() {
    let mut assembler = Assembler::new();

    assembler.assemble(".data\nmy_string: .asciiz \"Hello world\"").unwrap();

    assert_eq!(assembler.read_only_data.len(), 12);
    assert_eq!(*assembler.read_only_data.last().unwrap(), 0);
    assert_eq!(&assembler.read_only_data[0..11], "Hello world".as_bytes());
    assert_eq!(assembler.sections, vec![String::from(".data")]);
    assert_eq!(assembler.const_offset, 12);
}

#[test]
fn test_assemble_emits_code() {
    let mut assembler = Assembler::new();

    let code = assembler.assemble("LOAD $0 #500\nHLT").unwrap();

    assert_eq!(code, vec![0, 0, 1, 244, 5, 0, 0, 0]);
}

#[test]
fn test_assemble_emits_labelled_instructions() {
    let mut assembler = Assembler::new();

    let code = assembler.assemble("start: LOAD $1 #1\nJMP $1").unwrap();

    assert_eq!(code, vec![0, 1, 0, 1, 6, 1, 0, 0]);
}

#[test]
fn test_assemble_unknown_directive_fails() {
    let mut assembler = Assembler::new();

    assert_eq!(assembler.assemble("lbl: .word #1"), None);
}

#[test]
fn test_assemble_asciiz_without_string_fails() {
    let mut assembler = Assembler::new();

    assert_eq!(assembler.assemble("lbl: .asciiz #5"), None);
    // Transactional: the failed run left nothing behind.
    assert_eq!(assembler.read_only_data.len(), 0);
    assert_eq!(assembler.symbols.symbols.len(), 0);
}

#[test]
fn test_assemble_string_operand_on_opcode_fails() {
    let mut assembler = Assembler::new();

    assert_eq!(assembler.assemble("load \"oops\""), None);
}

#[test]
fn test_parse_program_returns_code() {
    let code = Program::parse_program("load $0 #10\nadd $1 #20").unwrap();

    assert_eq!(code, vec![0, 0, 0, 10, 1, 1, 0, 20]);
}

#[test]
fn test_parse_program_rejects_bad_source() {
    assert_eq!(Program::parse_program("???"), None);
}
