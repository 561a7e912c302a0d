//! The assembler pipeline: lexer, two-phase parser, symbol table, and
//! instruction encoder.

use vstd::prelude::*;

use crate::instruction::Opcode;

pub mod assembler;
pub mod assembler_instruction;
pub mod lexer;
pub mod parser;
pub mod program;
pub mod symbol;

verus! {

/// The mathematical value of a token: text fields as character
/// sequences, numbers as integers.
pub ghost enum TokenV {
    Op { code: Opcode },
    Register { register: int },
    IntOperand { operand: int },
    StringOperand { operand: Seq<char> },
    LabelDeclaration { value: Seq<char> },
    Label { name: Seq<char> },
    Directive { value: Seq<char> },
    EOF,
}

/// One lexical token of assembly source.
#[derive(Debug)]
pub enum Token {
    /// A mnemonic, resolved to its opcode.
    Op { code: Opcode },
    /// `$n`: a register operand.
    Register { register: i32 },
    /// `#n`: an integer operand.
    IntOperand { operand: i32 },
    /// `"text"`: a string operand, quotes not stored.
    StringOperand { operand: String },
    /// `name:`: a label declaration, colon not stored.
    LabelDeclaration { value: String },
    /// `@name`: a label reference.
    Label { name: String },
    /// `.name`: a directive, dot not stored.
    Directive { value: String },
    /// End of the token stream.
    EOF,
}

impl View for Token {
    type V = TokenV;

    open spec fn view(&self) -> TokenV {
        match self {
            Token::Op { code } => TokenV::Op { code: *code },
            Token::Register { register } => TokenV::Register { register: *register as int },
            Token::IntOperand { operand } => TokenV::IntOperand { operand: *operand as int },
            Token::StringOperand { operand } => TokenV::StringOperand { operand: operand@ },
            Token::LabelDeclaration { value } => TokenV::LabelDeclaration { value: value@ },
            Token::Label { name } => TokenV::Label { name: name@ },
            Token::Directive { value } => TokenV::Directive { value: value@ },
            Token::EOF => TokenV::EOF,
        }
    }
}

impl Clone for Token {
    fn clone(&self) -> (r: Token)
        ensures
            r == self,
    {
        match self {
            Token::Op { code } => Token::Op { code: *code },
            Token::Register { register } => Token::Register { register: *register },
            Token::IntOperand { operand } => Token::IntOperand { operand: *operand },
            Token::StringOperand { operand } => Token::StringOperand { operand: operand.clone() },
            Token::LabelDeclaration { value } => Token::LabelDeclaration { value: value.clone() },
            Token::Label { name } => Token::Label { name: name.clone() },
            Token::Directive { value } => Token::Directive { value: value.clone() },
            Token::EOF => Token::EOF,
        }
    }
}

impl PartialEq for Token {
    /// Tokens compare by their mathematical values; `EOF` compares equal
    /// to itself.
    fn eq(&self, other: &Token) -> (r: bool) {
        match (self, other) {
            (Token::Op { code: a }, Token::Op { code: b }) => a == b,
            (Token::Register { register: a }, Token::Register { register: b }) => a == b,
            (Token::IntOperand { operand: a }, Token::IntOperand { operand: b }) => a == b,
            (Token::StringOperand { operand: a }, Token::StringOperand { operand: b }) => str_equal(
                a.as_str(),
                b.as_str(),
            ),
            (Token::LabelDeclaration { value: a }, Token::LabelDeclaration { value: b }) => {
                str_equal(a.as_str(), b.as_str())
            },
            (Token::Label { name: a }, Token::Label { name: b }) => str_equal(
                a.as_str(),
                b.as_str(),
            ),
            (Token::Directive { value: a }, Token::Directive { value: b }) => str_equal(
                a.as_str(),
                b.as_str(),
            ),
            (Token::EOF, Token::EOF) => true,
            _ => false,
        }
    }
}

impl vstd::std_specs::cmp::PartialEqSpecImpl for Token {
    open spec fn obeys_eq_spec() -> bool {
        true
    }

    open spec fn eq_spec(&self, other: &Token) -> bool {
        self@ == other@
    }
}

/// Compares two pieces of text character by character.
pub fn str_equal(a: &str, b: &str) -> (r: bool)
    ensures
        r == (a@ == b@),
{
    let alen = a.unicode_len();
    let blen = b.unicode_len();
    if alen != blen {
        return false;
    }
    let mut i: usize = 0;
    while i < alen
        invariant
            alen == a@.len(),
            blen == b@.len(),
            alen == blen,
            i <= alen,
            forall|j: int| 0 <= j < i ==> a@[j] == b@[j],
        decreases alen - i,
    {
        if a.get_char(i) != b.get_char(i) {
            return false;
        }
        i = i + 1;
    }
    proof {
        assert(a@ =~= b@);
    }
    true
}

/// What can go wrong while assembling: lexical errors, syntactic errors,
/// encoding errors, and directive errors. All are fatal to the unit of
/// source being assembled.
#[derive(Clone, Copy, PartialEq, Eq, Structural, Debug)]
pub enum AsmError {
    /// A mnemonic that names no opcode.
    UnknownOpcode,
    /// `#` or `$` followed by no digits, or by a number too large for a
    /// 32-bit register value.
    BadNumber,
    /// A string operand whose closing quote is missing.
    UnterminatedString,
    /// A character no token can start with.
    UnexpectedCharacter,
    /// A statement that starts with neither an opcode, a directive, nor
    /// a label declaration.
    BadStatementStart,
    /// A label declaration followed by neither an opcode nor a directive.
    LabelNeedsInstruction,
    /// An instruction whose head is no opcode where one was required.
    ExpectedOpcode,
    /// An operand that is neither a register nor an integer where the
    /// encoder needed one.
    BadOperand,
    /// A directive the assembler does not know.
    UnknownDirective,
    /// `.asciiz` without a string operand.
    DirectiveNeedsString,
    /// The read-only data section outgrew its 32-bit offset space.
    DataSectionFull,
}

} // verus!
