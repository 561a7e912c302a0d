//! The opcode catalog: a bidirectional mapping between abstract opcode
//! tags, their wire-level byte values, and their assembly mnemonics.

use vstd::prelude::*;

verus! {

/// The closed repertoire of machine opcodes. Every byte decodes to one of
/// these; bytes with no assigned opcode decode to `IGL` (illegal).
#[derive(Clone, Copy, PartialEq, Eq, Structural, Debug)]
pub enum Opcode {
    LOAD,
    ADD,
    DIV,
    MUL,
    SUB,
    HLT,
    JMP,
    JMPB,
    JMPF,
    EQ,
    NEQ,
    GT,
    LT,
    GTQ,
    LTQ,
    JEQ,
    JNEQ,
    ALOC,
    IGL,
}

/// An instruction tag carrying just its opcode.
#[derive(Clone, Copy, PartialEq, Eq, Structural, Debug)]
pub struct Instruction {
    pub opcode: Opcode,
}

impl Instruction {
    pub fn new(opcode: Opcode) -> (r: Instruction)
        ensures
            r.opcode == opcode,
    {
        Instruction { opcode }
    }
}

/// True of the bytes that carry an assigned opcode on the wire.
pub open spec fn opcode_assigned(b: u8) -> bool {
    b <= 17
}

/// The opcode a program byte decodes to; total, with unassigned bytes
/// mapping to `IGL`.
pub open spec fn opcode_of(b: u8) -> Opcode {
    if b == 0 {
        Opcode::LOAD
    } else if b == 1 {
        Opcode::ADD
    } else if b == 2 {
        Opcode::DIV
    } else if b == 3 {
        Opcode::MUL
    } else if b == 4 {
        Opcode::SUB
    } else if b == 5 {
        Opcode::HLT
    } else if b == 6 {
        Opcode::JMP
    } else if b == 7 {
        Opcode::JMPB
    } else if b == 8 {
        Opcode::JMPF
    } else if b == 9 {
        Opcode::EQ
    } else if b == 10 {
        Opcode::NEQ
    } else if b == 11 {
        Opcode::GT
    } else if b == 12 {
        Opcode::LT
    } else if b == 13 {
        Opcode::GTQ
    } else if b == 14 {
        Opcode::LTQ
    } else if b == 15 {
        Opcode::JEQ
    } else if b == 16 {
        Opcode::JNEQ
    } else if b == 17 {
        Opcode::ALOC
    } else {
        Opcode::IGL
    }
}

/// The wire byte of an opcode.
pub open spec fn byte_of(op: Opcode) -> u8 {
    match op {
        Opcode::LOAD => 0,
        Opcode::ADD => 1,
        Opcode::DIV => 2,
        Opcode::MUL => 3,
        Opcode::SUB => 4,
        Opcode::HLT => 5,
        Opcode::JMP => 6,
        Opcode::JMPB => 7,
        Opcode::JMPF => 8,
        Opcode::EQ => 9,
        Opcode::NEQ => 10,
        Opcode::GT => 11,
        Opcode::LT => 12,
        Opcode::GTQ => 13,
        Opcode::LTQ => 14,
        Opcode::JEQ => 15,
        Opcode::JNEQ => 16,
        Opcode::ALOC => 17,
        Opcode::IGL => 100,
    }
}

/// The assembly mnemonic of an opcode, in lower case.
pub open spec fn mnemonic_of(op: Opcode) -> Seq<char> {
    match op {
        Opcode::LOAD => "load"@,
        Opcode::ADD => "add"@,
        Opcode::DIV => "div"@,
        Opcode::MUL => "mul"@,
        Opcode::SUB => "sub"@,
        Opcode::HLT => "hlt"@,
        Opcode::JMP => "jmp"@,
        Opcode::JMPB => "jmpb"@,
        Opcode::JMPF => "jmpf"@,
        Opcode::EQ => "eq"@,
        Opcode::NEQ => "neq"@,
        Opcode::GT => "gt"@,
        Opcode::LT => "lt"@,
        Opcode::GTQ => "gtq"@,
        Opcode::LTQ => "ltq"@,
        Opcode::JEQ => "jeq"@,
        Opcode::JNEQ => "jneq"@,
        Opcode::ALOC => "aloc"@,
        Opcode::IGL => "igl"@,
    }
}

/// The scalar value of a character with ASCII upper-case letters folded
/// to lower case.
pub open spec fn lower_scalar(c: char) -> u32 {
    if 65 <= c as u32 && c as u32 <= 90 {
        (c as u32 + 32) as u32
    } else {
        c as u32
    }
}

/// Character equality up to ASCII case.
pub open spec fn char_eq_ci(a: char, b: char) -> bool {
    lower_scalar(a) == lower_scalar(b)
}

/// String equality up to ASCII case.
pub open spec fn seq_eq_ci(a: Seq<char>, b: Seq<char>) -> bool {
    a.len() == b.len() && forall|i: int| 0 <= i < a.len() ==> char_eq_ci(a[i], b[i])
}

/// The opcode whose mnemonic a piece of text matches, case-insensitively;
/// `None` where it matches no mnemonic.
pub open spec fn mnemonic_lookup(s: Seq<char>) -> Option<Opcode> {
    if seq_eq_ci(s, mnemonic_of(Opcode::LOAD)) {
        Some(Opcode::LOAD)
    } else if seq_eq_ci(s, mnemonic_of(Opcode::ADD)) {
        Some(Opcode::ADD)
    } else if seq_eq_ci(s, mnemonic_of(Opcode::DIV)) {
        Some(Opcode::DIV)
    } else if seq_eq_ci(s, mnemonic_of(Opcode::MUL)) {
        Some(Opcode::MUL)
    } else if seq_eq_ci(s, mnemonic_of(Opcode::SUB)) {
        Some(Opcode::SUB)
    } else if seq_eq_ci(s, mnemonic_of(Opcode::HLT)) {
        Some(Opcode::HLT)
    } else if seq_eq_ci(s, mnemonic_of(Opcode::JMP)) {
        Some(Opcode::JMP)
    } else if seq_eq_ci(s, mnemonic_of(Opcode::JMPB)) {
        Some(Opcode::JMPB)
    } else if seq_eq_ci(s, mnemonic_of(Opcode::JMPF)) {
        Some(Opcode::JMPF)
    } else if seq_eq_ci(s, mnemonic_of(Opcode::EQ)) {
        Some(Opcode::EQ)
    } else if seq_eq_ci(s, mnemonic_of(Opcode::NEQ)) {
        Some(Opcode::NEQ)
    } else if seq_eq_ci(s, mnemonic_of(Opcode::GT)) {
        Some(Opcode::GT)
    } else if seq_eq_ci(s, mnemonic_of(Opcode::LT)) {
        Some(Opcode::LT)
    } else if seq_eq_ci(s, mnemonic_of(Opcode::GTQ)) {
        Some(Opcode::GTQ)
    } else if seq_eq_ci(s, mnemonic_of(Opcode::LTQ)) {
        Some(Opcode::LTQ)
    } else if seq_eq_ci(s, mnemonic_of(Opcode::JEQ)) {
        Some(Opcode::JEQ)
    } else if seq_eq_ci(s, mnemonic_of(Opcode::JNEQ)) {
        Some(Opcode::JNEQ)
    } else if seq_eq_ci(s, mnemonic_of(Opcode::ALOC)) {
        Some(Opcode::ALOC)
    } else if seq_eq_ci(s, mnemonic_of(Opcode::IGL)) {
        Some(Opcode::IGL)
    } else {
        None
    }
}

impl Opcode {
    /// Decodes a program byte; unassigned bytes yield `IGL`.
    pub fn from_byte(b: u8) -> (r: Opcode)
        ensures
            r == opcode_of(b),
    {
        match b {
            0 => Opcode::LOAD,
            1 => Opcode::ADD,
            2 => Opcode::DIV,
            3 => Opcode::MUL,
            4 => Opcode::SUB,
            5 => Opcode::HLT,
            6 => Opcode::JMP,
            7 => Opcode::JMPB,
            8 => Opcode::JMPF,
            9 => Opcode::EQ,
            10 => Opcode::NEQ,
            11 => Opcode::GT,
            12 => Opcode::LT,
            13 => Opcode::GTQ,
            14 => Opcode::LTQ,
            15 => Opcode::JEQ,
            16 => Opcode::JNEQ,
            17 => Opcode::ALOC,
            _ => Opcode::IGL,
        }
    }

    /// The byte this opcode encodes to on the wire.
    pub fn to_byte(self) -> (r: u8)
        ensures
            r == byte_of(self),
    {
        match self {
            Opcode::LOAD => 0,
            Opcode::ADD => 1,
            Opcode::DIV => 2,
            Opcode::MUL => 3,
            Opcode::SUB => 4,
            Opcode::HLT => 5,
            Opcode::JMP => 6,
            Opcode::JMPB => 7,
            Opcode::JMPF => 8,
            Opcode::EQ => 9,
            Opcode::NEQ => 10,
            Opcode::GT => 11,
            Opcode::LT => 12,
            Opcode::GTQ => 13,
            Opcode::LTQ => 14,
            Opcode::JEQ => 15,
            Opcode::JNEQ => 16,
            Opcode::ALOC => 17,
            Opcode::IGL => 100,
        }
    }

    /// The display mnemonic, in lower case.
    pub fn mnemonic(self) -> (r: &'static str)
        ensures
            r@ == mnemonic_of(self),
    {
        match self {
            Opcode::LOAD => "load",
            Opcode::ADD => "add",
            Opcode::DIV => "div",
            Opcode::MUL => "mul",
            Opcode::SUB => "sub",
            Opcode::HLT => "hlt",
            Opcode::JMP => "jmp",
            Opcode::JMPB => "jmpb",
            Opcode::JMPF => "jmpf",
            Opcode::EQ => "eq",
            Opcode::NEQ => "neq",
            Opcode::GT => "gt",
            Opcode::LT => "lt",
            Opcode::GTQ => "gtq",
            Opcode::LTQ => "ltq",
            Opcode::JEQ => "jeq",
            Opcode::JNEQ => "jneq",
            Opcode::ALOC => "aloc",
            Opcode::IGL => "igl",
        }
    }

    /// Resolves a mnemonic, matching case-insensitively; `None` for text
    /// that names no opcode.
    pub fn from_mnemonic(s: &str) -> (r: Option<Opcode>)
        ensures
            r == mnemonic_lookup(s@),
    {
        if str_eq_ci(s, "load") {
            Some(Opcode::LOAD)
        } else if str_eq_ci(s, "add") {
            Some(Opcode::ADD)
        } else if str_eq_ci(s, "div") {
            Some(Opcode::DIV)
        } else if str_eq_ci(s, "mul") {
            Some(Opcode::MUL)
        } else if str_eq_ci(s, "sub") {
            Some(Opcode::SUB)
        } else if str_eq_ci(s, "hlt") {
            Some(Opcode::HLT)
        } else if str_eq_ci(s, "jmp") {
            Some(Opcode::JMP)
        } else if str_eq_ci(s, "jmpb") {
            Some(Opcode::JMPB)
        } else if str_eq_ci(s, "jmpf") {
            Some(Opcode::JMPF)
        } else if str_eq_ci(s, "eq") {
            Some(Opcode::EQ)
        } else if str_eq_ci(s, "neq") {
            Some(Opcode::NEQ)
        } else if str_eq_ci(s, "gt") {
            Some(Opcode::GT)
        } else if str_eq_ci(s, "lt") {
            Some(Opcode::LT)
        } else if str_eq_ci(s, "gtq") {
            Some(Opcode::GTQ)
        } else if str_eq_ci(s, "ltq") {
            Some(Opcode::LTQ)
        } else if str_eq_ci(s, "jeq") {
            Some(Opcode::JEQ)
        } else if str_eq_ci(s, "jneq") {
            Some(Opcode::JNEQ)
        } else if str_eq_ci(s, "aloc") {
            Some(Opcode::ALOC)
        } else if str_eq_ci(s, "igl") {
            Some(Opcode::IGL)
        } else {
            None
        }
    }
}

/// Compares two pieces of text up to ASCII case.
pub fn str_eq_ci(a: &str, b: &str) -> (r: bool)
    ensures
        r == seq_eq_ci(a@, b@),
{
    let alen = a.unicode_len();
    let blen = b.unicode_len();
    if alen != blen {
        return false;
    }
    let mut i: usize = 0;
    while i < alen
        invariant
            alen == a@.len(),
            blen == b@.len(),
            alen == blen,
            i <= alen,
            forall|j: int| 0 <= j < i ==> char_eq_ci(a@[j], b@[j]),
        decreases alen - i,
    {
        let ca = a.get_char(i);
        let cb = b.get_char(i);
        let la: u32 = lower_scalar_exec(ca);
        let lb: u32 = lower_scalar_exec(cb);
        if la != lb {
            return false;
        }
        i = i + 1;
    }
    true
}

/// The scalar value of a character with ASCII upper-case letters folded
/// to lower case.
pub fn lower_scalar_exec(c: char) -> (r: u32)
    ensures
        r == lower_scalar(c),
{
    let u = c as u32;
    if 65 <= u && u <= 90 {
        u + 32
    } else {
        u
    }
}

/// Round trip: every opcode other than `IGL` decodes from its own wire
/// byte back to itself.
pub proof fn lemma_opcode_byte_round_trip(op: Opcode)
    requires
        op != Opcode::IGL,
    ensures
        opcode_of(byte_of(op)) == op,
{
}

/// Every byte with no assigned opcode decodes to `IGL`.
pub proof fn lemma_unassigned_byte_is_igl(b: u8)
    requires
        !opcode_assigned(b),
    ensures
        opcode_of(b) == Opcode::IGL,
{
}

} // verus!
