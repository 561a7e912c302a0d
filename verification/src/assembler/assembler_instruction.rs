//! Assembler statements and the instruction encoder: each instruction
//! encodes to one 4-byte slot, zero-padded on the right.

use vstd::prelude::*;

use super::{AsmError, Token, TokenV};
use crate::instruction::byte_of;
use crate::vm::zero_bytes;

verus! {

/// The mathematical value of an assembler instruction: its token slots.
pub ghost struct AiV {
    pub opcode: Option<TokenV>,
    pub directive: Option<TokenV>,
    pub label: Option<TokenV>,
    pub operand_one: Option<TokenV>,
    pub operand_two: Option<TokenV>,
    pub operand_three: Option<TokenV>,
}

/// The mathematical value of one parsed statement.
pub ghost enum StmtV {
    LabelDeclaration { label_name: Seq<char>, instruction: AiV },
    Instruction { instruction: AiV },
}

/// The value of an optional token.
pub open spec fn opt_token_view(o: Option<Token>) -> Option<TokenV> {
    match o {
        Some(t) => Some(t@),
        None => None,
    }
}

/// One parsed instruction: either an opcode or a directive at its head,
/// an optional label reference, and up to three operands.
#[derive(Debug)]
pub struct AssemblerInstruction {
    pub opcode: Option<Token>,
    pub directive: Option<Token>,
    pub label: Option<Token>,
    pub operand_one: Option<Token>,
    pub operand_two: Option<Token>,
    pub operand_three: Option<Token>,
}

impl View for AssemblerInstruction {
    type V = AiV;

    open spec fn view(&self) -> AiV {
        AiV {
            opcode: opt_token_view(self.opcode),
            directive: opt_token_view(self.directive),
            label: opt_token_view(self.label),
            operand_one: opt_token_view(self.operand_one),
            operand_two: opt_token_view(self.operand_two),
            operand_three: opt_token_view(self.operand_three),
        }
    }
}

/// One statement of a parsed program: an instruction, possibly under a
/// label declaration.
#[derive(Debug)]
pub enum AssemblerToken {
    LabelDeclaration { label_name: String, assembler_instruction: AssemblerInstruction },
    Instruction { assembler_instruction: AssemblerInstruction },
}

impl View for AssemblerToken {
    type V = StmtV;

    open spec fn view(&self) -> StmtV {
        match self {
            AssemblerToken::LabelDeclaration { label_name, assembler_instruction } => {
                StmtV::LabelDeclaration {
                    label_name: label_name@,
                    instruction: assembler_instruction@,
                }
            },
            AssemblerToken::Instruction { assembler_instruction } => StmtV::Instruction {
                instruction: assembler_instruction@,
            },
        }
    }
}

/// Compares two optional tokens by value.
fn opt_token_eq(a: &Option<Token>, b: &Option<Token>) -> (r: bool)
    ensures
        r == (opt_token_view(*a) == opt_token_view(*b)),
{
    match (a, b) {
        (Some(x), Some(y)) => x == y,
        (None, None) => true,
        _ => false,
    }
}

impl PartialEq for AssemblerInstruction {
    /// Instructions compare by the values of their six token slots.
    fn eq(&self, other: &AssemblerInstruction) -> (r: bool) {
        opt_token_eq(&self.opcode, &other.opcode) && opt_token_eq(&self.directive, &other.directive)
            && opt_token_eq(&self.label, &other.label) && opt_token_eq(
            &self.operand_one,
            &other.operand_one,
        ) && opt_token_eq(&self.operand_two, &other.operand_two) && opt_token_eq(
            &self.operand_three,
            &other.operand_three,
        )
    }
}

impl vstd::std_specs::cmp::PartialEqSpecImpl for AssemblerInstruction {
    open spec fn obeys_eq_spec() -> bool {
        true
    }

    open spec fn eq_spec(&self, other: &AssemblerInstruction) -> bool {
        self@ == other@
    }
}

impl PartialEq for AssemblerToken {
    /// Statements compare by value.
    fn eq(&self, other: &AssemblerToken) -> (r: bool) {
        match (self, other) {
            (
                AssemblerToken::LabelDeclaration { label_name: n1, assembler_instruction: i1 },
                AssemblerToken::LabelDeclaration { label_name: n2, assembler_instruction: i2 },
            ) => super::str_equal(n1.as_str(), n2.as_str()) && i1 == i2,
            (
                AssemblerToken::Instruction { assembler_instruction: i1 },
                AssemblerToken::Instruction { assembler_instruction: i2 },
            ) => i1 == i2,
            _ => false,
        }
    }
}

impl vstd::std_specs::cmp::PartialEqSpecImpl for AssemblerToken {
    open spec fn obeys_eq_spec() -> bool {
        true
    }

    open spec fn eq_spec(&self, other: &AssemblerToken) -> bool {
        self@ == other@
    }
}

/// Whether a token may stand in an operand slot of the encoder.
pub open spec fn operand_encodable(o: Option<TokenV>) -> bool {
    match o {
        None => true,
        Some(TokenV::Register { register }) => true,
        Some(TokenV::IntOperand { operand }) => true,
        Some(_) => false,
    }
}

/// The bytes one operand slot contributes: a register's low 8 bits, or
/// an integer's low 16 bits in big-endian order.
pub open spec fn operand_bytes(o: Option<TokenV>) -> Seq<u8> {
    match o {
        Some(TokenV::Register { register: r }) => seq![(r % 256) as u8],
        Some(TokenV::IntOperand { operand: v }) => seq![
            ((v % 65536) / 256) as u8,
            (v % 256) as u8,
        ],
        _ => Seq::empty(),
    }
}

/// How many bytes one operand slot contributes.
pub open spec fn operand_width(o: Option<TokenV>) -> int {
    operand_bytes(o).len() as int
}

/// Whether an instruction can be encoded: a directive instruction always
/// (it owns no code bytes), an opcode instruction when each operand is a
/// register or an integer.
pub open spec fn encodable(ai: AiV) -> bool {
    if ai.directive is Some {
        true
    } else {
        ai.opcode matches Some(TokenV::Op { code }) && operand_encodable(ai.operand_one)
            && operand_encodable(ai.operand_two) && operand_encodable(ai.operand_three)
    }
}

/// The error an unencodable instruction earns.
pub open spec fn encode_error(ai: AiV) -> AsmError {
    if !(ai.opcode matches Some(TokenV::Op { code })) {
        AsmError::ExpectedOpcode
    } else {
        AsmError::BadOperand
    }
}

/// The encoding of an instruction: the opcode byte, the operand bytes in
/// declared order, zero-padded on the right to at least 4 bytes. A
/// directive instruction contributes no opcode and no operand bytes; its
/// encoding is the empty, fully padded slot.
pub open spec fn encode_bytes(ai: AiV) -> Seq<u8> {
    if ai.directive is Some {
        zero_bytes(4)
    } else {
        let body = seq![byte_of(ai.opcode->Some_0->Op_code)] + operand_bytes(ai.operand_one)
            + operand_bytes(ai.operand_two) + operand_bytes(ai.operand_three);
        if body.len() >= 4 {
            body
        } else {
            body + zero_bytes((4 - body.len()) as nat)
        }
    }
}

/// An instruction with register and integer operands that together take
/// at most the three bytes a slot leaves after its opcode encodes to
/// exactly 4 bytes.
pub proof fn lemma_encoding_is_one_slot(ai: AiV)
    requires
        encodable(ai),
        ai.directive is None ==> operand_width(ai.operand_one) + operand_width(ai.operand_two)
            + operand_width(ai.operand_three) <= 3,
    ensures
        encode_bytes(ai).len() == 4,
{
}

/// The low 8 bits of a register index.
fn low_byte(x: i32) -> (b: u8)
    ensures
        b as int == (x as int) % 256,
{
    let shifted: u64 = (x as i64 + 0x1_0000_0000i64) as u64;
    proof {
        vstd::arithmetic::div_mod::lemma_mod_multiples_vanish(16777216, x as int, 256);
    }
    (shifted % 256) as u8
}

/// The low 16 bits of an integer operand.
fn low_word(x: i32) -> (w: u16)
    ensures
        w as int == (x as int) % 65536,
{
    let shifted: u64 = (x as i64 + 0x1_0000_0000i64) as u64;
    proof {
        vstd::arithmetic::div_mod::lemma_mod_multiples_vanish(65536, x as int, 65536);
    }
    (shifted % 65536) as u16
}

/// Appends the encoding of one operand token; reports `false` for a
/// token no operand slot accepts, leaving the output unchanged.
fn push_operand_bytes(out: &mut Vec<u8>, t: &Token) -> (r: bool)
    ensures
        r == operand_encodable(Some(t@)),
        r ==> final(out)@ == old(out)@ + operand_bytes(Some(t@)),
        !r ==> final(out)@ == old(out)@,
{
    match t {
        Token::Register { register } => {
            out.push(low_byte(*register));
            proof {
                assert(out@ =~= old(out)@ + operand_bytes(Some(t@)));
            }
            true
        },
        Token::IntOperand { operand } => {
            let w = low_word(*operand);
            out.push((w / 256) as u8);
            out.push((w % 256) as u8);
            proof {
                assert(out@ =~= old(out)@ + operand_bytes(Some(t@)));
            }
            true
        },
        _ => false,
    }
}

impl AssemblerInstruction {
    /// Encodes this instruction to its 4-byte slot (longer where the
    /// operands overflow one slot; see [`lemma_encoding_is_one_slot`]).
    pub fn to_bytes(&self) -> (r: Result<Vec<u8>, AsmError>)
        ensures
            match r {
                Ok(v) => encodable(self@) && v@ == encode_bytes(self@),
                Err(e) => !encodable(self@) && e == encode_error(self@),
            },
    {
        let mut out: Vec<u8> = Vec::new();
        if self.directive.is_some() {
            out.push(0);
            out.push(0);
            out.push(0);
            out.push(0);
            proof {
                assert(out@ =~= zero_bytes(4));
            }
            return Ok(out);
        }
        match &self.opcode {
            Some(Token::Op { code }) => out.push(code.to_byte()),
            _ => {
                return Err(AsmError::ExpectedOpcode);
            },
        }
        if let Some(t) = &self.operand_one {
            if !push_operand_bytes(&mut out, t) {
                return Err(AsmError::BadOperand);
            }
        }
        if let Some(t) = &self.operand_two {
            if !push_operand_bytes(&mut out, t) {
                return Err(AsmError::BadOperand);
            }
        }
        if let Some(t) = &self.operand_three {
            if !push_operand_bytes(&mut out, t) {
                return Err(AsmError::BadOperand);
            }
        }
        proof {
            assert(out@ =~= seq![byte_of(self@.opcode->Some_0->Op_code)] + operand_bytes(
                self@.operand_one,
            ) + operand_bytes(self@.operand_two) + operand_bytes(self@.operand_three));
        }
        let ghost body = out@;
        proof {
            assert(out@ =~= body + zero_bytes(0));
        }
        while out.len() < 4
            invariant
                body.len() <= out@.len(),
                out@ == body + zero_bytes((out@.len() - body.len()) as nat),
                body.len() >= 4 ==> out@.len() == body.len(),
                body.len() < 4 ==> out@.len() <= 4,
            decreases 4 - out@.len(),
        {
            out.push(0);
            proof {
                assert(out@ =~= body + zero_bytes((out@.len() - body.len()) as nat));
            }
        }
        proof {
            if body.len() >= 4 {
                assert(out@ =~= body);
            } else {
                assert(out@.len() == 4);
            }
            assert(out@ =~= encode_bytes(self@));
        }
        Ok(out)
    }

    /// Whether this instruction's head is a directive.
    pub fn is_directive(&self) -> (r: bool)
        ensures
            r == (self@.directive is Some),
    {
        self.directive.is_some()
    }

    /// Whether any operand slot is filled.
    pub fn has_operands(&self) -> (r: bool)
        ensures
            r == (self@.operand_one is Some || self@.operand_two is Some
                || self@.operand_three is Some),
    {
        self.operand_one.is_some() || self.operand_two.is_some() || self.operand_three.is_some()
    }

    /// The directive's name, without its leading dot, where the head is a
    /// directive token.
    pub fn get_directive_name(&self) -> (r: Option<&str>)
        ensures
            match self@.directive {
                Some(TokenV::Directive { value }) => r is Some && r->Some_0@ == value,
                _ => r is None,
            },
    {
        match &self.directive {
            Some(Token::Directive { value }) => Some(value.as_str()),
            _ => None,
        }
    }

    /// The text of the first operand, where it is a string operand.
    pub fn get_string_content(&self) -> (r: Option<&str>)
        ensures
            match self@.operand_one {
                Some(TokenV::StringOperand { operand }) => r is Some && r->Some_0@ == operand,
                _ => r is None,
            },
    {
        match &self.operand_one {
            Some(Token::StringOperand { operand }) => Some(operand.as_str()),
            _ => None,
        }
    }
}

} // verus!
