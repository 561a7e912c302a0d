//! The lexer: one token per call, `EOF` at exhaustion, fatal lexical
//! errors.

use regvm::assembler::lexer::Lexer;
use regvm::assembler::{AsmError, Token};
use regvm::instruction::Opcode;

fn collect_tokens(input: &str) -> Vec<Token> {
    let mut lexer = Lexer::new(input);
    let mut tokens = vec![];
    loop {
        let token = lexer.lex().unwrap();
        if token == Token::EOF {
            break;
        }
        tokens.push(token);
    }
    tokens
}

fn run_test(test_cases: &[(&str, Token)]) {
    for (input, expected) in test_cases {
        for token in collect_tokens(input) {
            assert_eq!(token, *expected)
        }
    }
}

#[test]
fn test_lex_opcode() {
    let test_cases = [
        ("LOAD", Token::Op { code: Opcode::LOAD }),
        ("\nADD", Token::Op { code: Opcode::ADD }),
        ("\n\nSUB", Token::Op { code: Opcode::SUB }),
    ];

    run_test(&test_cases)
}

#[test]
fn test_lex_register() {
    let test_cases = [
        ("$10", Token::Register { register: 10 }),
        ("$100", Token::Register { register: 100 }),
        ("$5", Token::Register { register: 5 }),
    ];

    run_test(&test_cases)
}

#[test]
fn test_lex_operand() {
    let test_cases = [
        ("#10", Token::IntOperand { operand: 10 }),
        ("#20", Token::IntOperand { operand: 20 }),
        ("#30", Token::IntOperand { operand: 30 }),
    ];

    run_test(&test_cases)
}

#[test]
fn test_lex_label_declaration() {
    let test_cases = [
        ("my_str:", Token::LabelDeclaration { value: String::from("my_str") }),
        ("str:", Token::LabelDeclaration { value: String::from("str") }),
        ("word:", Token::LabelDeclaration { value: String::from("word") }),
    ];

    run_test(&test_cases)
}

#[test]
fn test_lex_label() {
    let test_cases = [
        ("@my_str", Token::Label { name: String::from("my_str") }),
        ("@str", Token::Label { name: String::from("str") }),
        ("@word", Token::Label { name: String::from("word") }),
    ];

    run_test(&test_cases)
}

#[test]
fn test_lex_directives() {
    let test_cases = [
        (".asciiz", Token::Directive { value: String::from("asciiz") }),
        (".data", Token::Directive { value: String::from("data") }),
        (".word", Token::Directive { value: String::from("word") }),
    ];

    run_test(&test_cases)
}

#[test]
fn test_lex_instruction() {
    let test_cases = [
        (
            "sub $0 #1 #2\n add $2 #30 #20",
            vec![
                Token::Op { code: Opcode::SUB },
                Token::Register { register: 0 },
                Token::IntOperand { operand: 1 },
                Token::IntOperand { operand: 2 },
                Token::Op { code: Opcode::ADD },
                Token::Register { register: 2 },
                Token::IntOperand { operand: 30 },
                Token::IntOperand { operand: 20 },
            ],
        ),
        (
            "load $0 #10",
            vec![
                Token::Op { code: Opcode::LOAD },
                Token::Register { register: 0 },
                Token::IntOperand { operand: 10 },
            ],
        ),
        (
            "add $1 #20",
            vec![
                Token::Op { code: Opcode::ADD },
                Token::Register { register: 1 },
                Token::IntOperand { operand: 20 },
            ],
        ),
        (
            "load $10 #20",
            vec![
                Token::Op { code: Opcode::LOAD },
                Token::Register { register: 10 },
                Token::IntOperand { operand: 20 },
            ],
        ),
    ];

    for (input, expected) in test_cases {
        let tokens = collect_tokens(input);

        for (i, token) in tokens.iter().enumerate() {
            assert_eq!(token, &expected[i])
        }
    }
}

#[test]
fn test_lex_ends_with_eof() {
    let mut lexer = Lexer::new("sub $0 #1 #2\n add $2 #30 #20");
    let mut sequence = vec![];
    for _ in 0..9 {
        sequence.push(lexer.lex().unwrap());
    }
    assert_eq!(
        sequence,
        vec![
            Token::Op { code: Opcode::SUB },
            Token::Register { register: 0 },
            Token::IntOperand { operand: 1 },
            Token::IntOperand { operand: 2 },
            Token::Op { code: Opcode::ADD },
            Token::Register { register: 2 },
            Token::IntOperand { operand: 30 },
            Token::IntOperand { operand: 20 },
            Token::EOF,
        ]
    );
    // Exhausted: the lexer keeps yielding EOF.
    assert_eq!(lexer.lex().unwrap(), Token::EOF);
}

#[test]
fn test_lex_string_operand() {
    let tokens = collect_tokens("\"Hello world\"");
    assert_eq!(tokens, vec![Token::StringOperand { operand: String::from("Hello world") }]);
}

#[test]
fn test_lex_unknown_opcode() {
    let mut lexer = Lexer::new("frobnicate $1");
    assert_eq!(lexer.lex(), Err(AsmError::UnknownOpcode));
}

#[test]
fn test_lex_bad_number() {
    let mut lexer = Lexer::new("#");
    assert_eq!(lexer.lex(), Err(AsmError::BadNumber));

    let mut lexer = Lexer::new("#99999999999");
    assert_eq!(lexer.lex(), Err(AsmError::BadNumber));

    let mut lexer = Lexer::new("$x");
    assert_eq!(lexer.lex(), Err(AsmError::BadNumber));
}

#[test]
fn test_lex_number_at_limit() {
    let tokens = collect_tokens("#2147483647");
    assert_eq!(tokens, vec![Token::IntOperand { operand: 2147483647 }]);

    let mut lexer = Lexer::new("#2147483648");
    assert_eq!(lexer.lex(), Err(AsmError::BadNumber));
}

#[test]
fn test_lex_unterminated_string() {
    let mut lexer = Lexer::new("\"no closing quote");
    assert_eq!(lexer.lex(), Err(AsmError::UnterminatedString));
}

#[test]
fn test_lex_unexpected_character() {
    let mut lexer = Lexer::new("%");
    assert_eq!(lexer.lex(), Err(AsmError::UnexpectedCharacter));
}

#[test]
fn test_lex_empty_source() {
    let mut lexer = Lexer::new("");
    assert_eq!(lexer.lex().unwrap(), Token::EOF);
}
