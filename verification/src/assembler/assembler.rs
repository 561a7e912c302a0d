//! The assembler driver: two passes over the parsed statements. Phase
//! one collects symbols, section names and read-only string data; phase
//! two emits the code bytes, one 4-byte slot per opcode instruction.
//!
//! Assembling is transactional: on any error the assembler's state is
//! left exactly as it was.

use vstd::prelude::*;
use vstd::utf8::encode_utf8;

use super::assembler_instruction::{
    encodable, encode_bytes, encode_error, AiV, AssemblerInstruction, AssemblerToken, StmtV,
};
use super::lexer::token_stream;
use super::parser::{parse_spec, stmts_view, Parser};
use super::symbol::{Symbol, SymbolTable, SymbolType};
use super::{AsmError, Token, TokenV};
use vstd::string::StrSliceExecFns;
use vstd::string::StringExecFns;

verus! {

/// Which pass the assembler is in.
#[derive(Clone, Copy, PartialEq, Eq, Structural, Debug)]
pub enum AssemblerPhase {
    PhaseOne,
    PhaseTwo,
}

/// The mathematical value of the assembler's collected state.
#[verifier::ext_equal]
pub ghost struct AsmState {
    /// Names to encoded instruction bytes.
    pub symbols: Map<Seq<char>, Seq<u8>>,
    /// The section directives seen, in source order, with their dots.
    pub sections: Seq<Seq<char>>,
    /// The read-only data: NUL-terminated string constants.
    pub read_only_data: Seq<u8>,
    /// The next free byte index in the read-only data.
    pub const_offset: int,
}

/// A section entry: the directive's name with its leading dot restored.
pub open spec fn section_name(value: Seq<char>) -> Seq<char> {
    seq!['.'] + value
}

/// The instruction a statement carries.
pub open spec fn stmt_instruction(stmt: StmtV) -> AiV {
    match stmt {
        StmtV::Instruction { instruction } => instruction,
        StmtV::LabelDeclaration { label_name, instruction } => instruction,
    }
}

/// What the directive handler does: `.asciiz` appends its string
/// operand's bytes and one NUL to the read-only data; any other
/// directive name is unknown, and `.asciiz` without a string operand is
/// an error. A head that is no directive token does nothing.
pub open spec fn phase1_directive(st: AsmState, instruction: AiV) -> Result<AsmState, AsmError> {
    match instruction.directive {
        Some(TokenV::Directive { value }) => {
            if value == "asciiz"@ {
                match instruction.operand_one {
                    Some(TokenV::StringOperand { operand }) => {
                        let bytes = encode_utf8(operand);
                        if st.read_only_data.len() + bytes.len() + 1 <= u32::MAX {
                            Ok(
                                AsmState {
                                    read_only_data: st.read_only_data + bytes + seq![0u8],
                                    const_offset: st.const_offset + bytes.len() + 1,
                                    ..st
                                },
                            )
                        } else {
                            Err(AsmError::DataSectionFull)
                        }
                    },
                    _ => Err(AsmError::DirectiveNeedsString),
                }
            } else {
                Err(AsmError::UnknownDirective)
            }
        },
        _ => Ok(st),
    }
}

/// What phase one does with one statement. A label declaration encodes
/// its body, records the symbol (first writer wins) and runs the
/// directive handler on directive bodies; a bare directive with no
/// operands records a section.
pub open spec fn phase1_stmt(st: AsmState, stmt: StmtV) -> Result<AsmState, AsmError> {
    match stmt {
        StmtV::LabelDeclaration { label_name, instruction } => {
            if !encodable(instruction) {
                Err(encode_error(instruction))
            } else {
                let st1 = AsmState {
                    symbols: if st.symbols.dom().contains(label_name) {
                        st.symbols
                    } else {
                        st.symbols.insert(label_name, encode_bytes(instruction))
                    },
                    ..st
                };
                if instruction.directive is Some {
                    phase1_directive(st1, instruction)
                } else {
                    Ok(st1)
                }
            }
        },
        StmtV::Instruction { instruction } => {
            if instruction.directive is Some && instruction.operand_one is None
                && instruction.operand_two is None && instruction.operand_three is None {
                match instruction.directive->Some_0 {
                    TokenV::Directive { value } => Ok(
                        AsmState { sections: st.sections.push(section_name(value)), ..st },
                    ),
                    _ => Ok(st),
                }
            } else {
                Ok(st)
            }
        },
    }
}

/// Phase one over the statements from index `i` on.
pub open spec fn phase1_run(st: AsmState, stmts: Seq<StmtV>, i: int) -> Result<AsmState, AsmError>
    decreases stmts.len() - i,
{
    if i >= stmts.len() {
        Ok(st)
    } else {
        match phase1_stmt(st, stmts[i]) {
            Err(e) => Err(e),
            Ok(st2) => phase1_run(st2, stmts, i + 1),
        }
    }
}

/// Phase two over the statements from index `i` on: every opcode
/// instruction, labelled or not, contributes its 4-byte slot in source
/// order; directive bodies contribute nothing.
pub open spec fn phase2_run(stmts: Seq<StmtV>, i: int) -> Result<Seq<u8>, AsmError>
    decreases stmts.len() - i,
{
    if i >= stmts.len() {
        Ok(Seq::empty())
    } else {
        let ai = stmt_instruction(stmts[i]);
        if ai.directive is Some {
            phase2_run(stmts, i + 1)
        } else if !encodable(ai) {
            Err(encode_error(ai))
        } else {
            match phase2_run(stmts, i + 1) {
                Ok(rest) => Ok(encode_bytes(ai) + rest),
                Err(e) => Err(e),
            }
        }
    }
}

/// The one-shot assembler: symbol table, section list and read-only
/// data collected in phase one, code bytes emitted in phase two.
#[derive(Debug)]
pub struct Assembler {
    pub phase: AssemblerPhase,
    pub symbols: SymbolTable,
    pub sections: Vec<String>,
    pub read_only_data: Vec<u8>,
    pub const_offset: u32,
}

/// The values of a sequence of section names.
pub open spec fn strings_view(v: Seq<String>) -> Seq<Seq<char>> {
    v.map_values(|s: String| s@)
}

impl View for Assembler {
    type V = AsmState;

    open spec fn view(&self) -> AsmState {
        AsmState {
            symbols: self.symbols@,
            sections: strings_view(self.sections@),
            read_only_data: self.read_only_data@,
            const_offset: self.const_offset as int,
        }
    }
}

impl Assembler {
    /// The state of a fresh assembler: nothing collected yet.
    pub open spec fn new_state() -> AsmState {
        AsmState {
            symbols: Map::empty(),
            sections: Seq::empty(),
            read_only_data: Seq::empty(),
            const_offset: 0,
        }
    }

    /// The assembler's invariant: the symbol table is well-formed and
    /// the next free read-only data index is its length.
    pub open spec fn wf(self) -> bool {
        &&& self.symbols.wf()
        &&& self.const_offset as int == self.read_only_data@.len()
    }

    /// A fresh assembler in phase one with nothing collected.
    pub fn new() -> (r: Assembler)
        ensures
            r.wf(),
            r.phase == AssemblerPhase::PhaseOne,
            r@.symbols == Map::<Seq<char>, Seq<u8>>::empty(),
            r@.sections == Seq::<Seq<char>>::empty(),
            r@.read_only_data == Seq::<u8>::empty(),
            r@.const_offset == 0,
            r@ == Assembler::new_state(),
    {
        let r = Assembler {
            phase: AssemblerPhase::PhaseOne,
            symbols: SymbolTable::new(),
            sections: Vec::new(),
            read_only_data: Vec::new(),
            const_offset: 0,
        };
        proof {
            assert(strings_view(r.sections@) =~= Seq::<Seq<char>>::empty());
            assert(r.read_only_data@ =~= Seq::<u8>::empty());
            assert(r@ =~= Assembler::new_state());
        }
        r
    }

    /// Assembles one source text: parse, then both phases. Succeeds
    /// exactly where the source lexes, parses, and both phases go
    /// through; the returned bytes are phase two's code stream, and the
    /// collected state is phase one's. On any error the assembler is
    /// unchanged.
    pub fn assemble(&mut self, raw: &str) -> (r: Option<Vec<u8>>)
        requires
            old(self).wf(),
        ensures
            final(self).wf(),
            match token_stream(raw@, 0) {
                Some(toks) => match parse_spec(toks, 0) {
                    Ok(stmts) => match phase1_run(old(self)@, stmts, 0) {
                        Ok(st) => match phase2_run(stmts, 0) {
                            Ok(code) => r matches Some(v) && v@ == code && final(self)@ == st
                                && final(self).phase == AssemblerPhase::PhaseTwo,
                            Err(e2) => r is None && final(self)@ == old(self)@ && final(self).phase
                                == old(self).phase,
                        },
                        Err(e1) => r is None && final(self)@ == old(self)@ && final(self).phase
                            == old(self).phase,
                    },
                    Err(ep) => r is None && final(self)@ == old(self)@ && final(self).phase
                        == old(self).phase,
                },
                None => r is None && final(self)@ == old(self)@ && final(self).phase == old(
                    self,
                ).phase,
            },
    {
        let mut p = Parser::new(raw);
        if let Err(e) = p.parse() {
            return None;
        }
        let mut work = self.duplicate();
        if let Err(e) = work.first_phase(&p.program) {
            return None;
        }
        let code = match work.second_phase(&p.program) {
            Ok(code) => code,
            Err(e) => {
                return None;
            },
        };
        *self = work;
        Some(code)
    }

    /// A working copy with the same collected state.
    fn duplicate(&self) -> (r: Assembler)
        requires
            self.wf(),
        ensures
            r.wf(),
            r@ == self@,
            r.phase == self.phase,
    {
        let r = Assembler {
            phase: self.phase,
            symbols: self.symbols.duplicate(),
            sections: clone_strings(&self.sections),
            read_only_data: copy_byte_vec(&self.read_only_data),
            const_offset: self.const_offset,
        };
        proof {
            assert(r@ =~= self@);
        }
        r
    }

    /// Phase one, then the transition to phase two.
    fn first_phase(&mut self, program: &Vec<AssemblerToken>) -> (r: Result<(), AsmError>)
        requires
            old(self).wf(),
        ensures
            match r {
                Ok(u) => final(self).wf() && phase1_run(old(self)@, stmts_view(program@), 0)
                    == Ok::<AsmState, AsmError>(final(self)@) && final(self).phase
                    == AssemblerPhase::PhaseTwo,
                Err(e) => phase1_run(old(self)@, stmts_view(program@), 0) == Err::<
                    AsmState,
                    AsmError,
                >(e),
            },
    {
        if let Err(e) = self.create_symbol_table(program) {
            return Err(e);
        }
        self.phase = AssemblerPhase::PhaseTwo;
        Ok(())
    }

    /// Phase one proper: walk the statements, collecting symbols,
    /// sections and read-only data.
    fn create_symbol_table(&mut self, program: &Vec<AssemblerToken>) -> (r: Result<(), AsmError>)
        requires
            old(self).wf(),
        ensures
            match r {
                Ok(u) => final(self).wf() && phase1_run(old(self)@, stmts_view(program@), 0)
                    == Ok::<AsmState, AsmError>(final(self)@) && final(self).phase == old(
                    self,
                ).phase,
                Err(e) => phase1_run(old(self)@, stmts_view(program@), 0) == Err::<
                    AsmState,
                    AsmError,
                >(e),
            },
    {
        let ghost stmts = stmts_view(program@);
        let mut i: usize = 0;
        while i < program.len()
            invariant
                self.wf(),
                i <= program@.len(),
                stmts == stmts_view(program@),
                stmts.len() == program@.len(),
                self.phase == old(self).phase,
                phase1_run(old(self)@, stmts, 0) == phase1_run(self@, stmts, i as int),
            decreases program@.len() - i,
        {
            let ghost st_before = self@;
            proof {
                assert(stmts[i as int] == program@[i as int]@);
            }
            match &program[i] {
                AssemblerToken::LabelDeclaration { label_name, assembler_instruction } => {
                    let bytes = match assembler_instruction.to_bytes() {
                        Ok(b) => b,
                        Err(e) => {
                            return Err(e);
                        },
                    };
                    let symbol = Symbol::new(label_name.clone(), bytes, SymbolType::Label);
                    self.symbols.add_symbol(symbol);
                    if assembler_instruction.is_directive() {
                        if let Err(e) = self.process_directive(assembler_instruction) {
                            proof {
                                assert(phase1_stmt(st_before, stmts[i as int]) == Err::<
                                    AsmState,
                                    AsmError,
                                >(e));
                            }
                            return Err(e);
                        }
                    }
                    proof {
                        assert(phase1_stmt(st_before, stmts[i as int]) == Ok::<AsmState, AsmError>(
                            self@,
                        ));
                    }
                },
                AssemblerToken::Instruction { assembler_instruction } => {
                    if assembler_instruction.is_directive() && !assembler_instruction.has_operands()
                         {
                        match &assembler_instruction.directive {
                            Some(Token::Directive { value }) => {
                                let name = dotted(value.as_str());
                                self.sections.push(name);
                                proof {
                                    assert(strings_view(self.sections@) =~= st_before.sections.push(
                                        section_name(value@),
                                    ));
                                    assert(self@ =~= (AsmState {
                                        sections: st_before.sections.push(section_name(value@)),
                                        ..st_before
                                    }));
                                }
                            },
                            _ => {},
                        }
                    }
                    proof {
                        assert(phase1_stmt(st_before, stmts[i as int]) == Ok::<AsmState, AsmError>(
                            self@,
                        ));
                    }
                },
            }
            i = i + 1;
        }
        Ok(())
    }

    /// The directive handler: dispatches on the directive's name.
    fn process_directive(&mut self, instruction: &AssemblerInstruction) -> (r: Result<
        (),
        AsmError,
    >)
        requires
            old(self).wf(),
        ensures
            final(self).phase == old(self).phase,
            match r {
                Ok(u) => final(self).wf() && phase1_directive(old(self)@, instruction@) == Ok::<
                    AsmState,
                    AsmError,
                >(final(self)@),
                Err(e) => final(self)@ == old(self)@ && final(self).wf() && phase1_directive(
                    old(self)@,
                    instruction@,
                ) == Err::<AsmState, AsmError>(e),
            },
    {
        match instruction.get_directive_name() {
            Some(name) => {
                if super::str_equal(name, "asciiz") {
                    self.handle_ascii(instruction)
                } else {
                    Err(AsmError::UnknownDirective)
                }
            },
            None => Ok(()),
        }
    }

    /// `.asciiz`: appends the string operand's bytes and one NUL to the
    /// read-only data, advancing the constant offset past them.
    fn handle_ascii(&mut self, instruction: &AssemblerInstruction) -> (r: Result<(), AsmError>)
        requires
            old(self).wf(),
        ensures
            final(self).phase == old(self).phase,
            match instruction@.operand_one {
                Some(TokenV::StringOperand { operand }) => {
                    if old(self)@.read_only_data.len() + encode_utf8(operand).len() + 1
                        <= u32::MAX {
                        r == Ok::<(), AsmError>(()) && final(self).wf() && final(self)@
                            == (AsmState {
                            read_only_data: old(self)@.read_only_data + encode_utf8(operand)
                                + seq![0u8],
                            const_offset: old(self)@.const_offset + encode_utf8(operand).len() + 1,
                            ..old(self)@
                        })
                    } else {
                        r == Err::<(), AsmError>(AsmError::DataSectionFull) && final(self)@ == old(
                            self,
                        )@ && final(self).wf()
                    }
                },
                _ => r == Err::<(), AsmError>(AsmError::DirectiveNeedsString) && final(self)@
                    == old(self)@ && final(self).wf(),
            },
    {
        match instruction.get_string_content() {
            Some(s) => {
                let bytes = s.as_bytes_vec();
                let cap: u64 = u32::MAX as u64 - self.const_offset as u64;
                if bytes.len() as u64 >= cap {
                    return Err(AsmError::DataSectionFull);
                }
                let ghost rod0 = self.read_only_data@;
                let mut k: usize = 0;
                while k < bytes.len()
                    invariant
                        k <= bytes@.len(),
                        self.read_only_data@ == rod0 + bytes@.subrange(0, k as int),
                        self.const_offset as int == self.read_only_data@.len(),
                        rod0.len() + bytes@.len() + 1 <= u32::MAX,
                        self.phase == old(self).phase,
                        self.symbols == old(self).symbols,
                        self.sections == old(self).sections,
                    decreases bytes@.len() - k,
                {
                    self.read_only_data.push(bytes[k]);
                    self.const_offset = self.const_offset + 1;
                    k = k + 1;
                    proof {
                        assert(self.read_only_data@ =~= rod0 + bytes@.subrange(0, k as int));
                    }
                }
                self.read_only_data.push(0);
                self.const_offset = self.const_offset + 1;
                proof {
                    assert(bytes@.subrange(0, bytes@.len() as int) =~= bytes@);
                    assert(self.read_only_data@ =~= rod0 + bytes@ + seq![0u8]);
                    assert(self@ =~= (AsmState {
                        read_only_data: old(self)@.read_only_data + encode_utf8(s@) + seq![0u8],
                        const_offset: old(self)@.const_offset + encode_utf8(s@).len() + 1,
                        ..old(self)@
                    }));
                }
                Ok(())
            },
            None => Err(AsmError::DirectiveNeedsString),
        }
    }

    /// Phase two: emit the code byte stream, one slot per opcode
    /// instruction, in source order.
    fn second_phase(&self, program: &Vec<AssemblerToken>) -> (r: Result<Vec<u8>, AsmError>)
        ensures
            match r {
                Ok(v) => phase2_run(stmts_view(program@), 0) == Ok::<Seq<u8>, AsmError>(v@),
                Err(e) => phase2_run(stmts_view(program@), 0) == Err::<Seq<u8>, AsmError>(e),
            },
    {
        let ghost stmts = stmts_view(program@);
        let mut out: Vec<u8> = Vec::new();
        proof {
            if phase2_run(stmts, 0) is Ok {
                assert(out@ + phase2_run(stmts, 0)->Ok_0 =~= phase2_run(stmts, 0)->Ok_0);
            }
        }
        let mut i: usize = 0;
        while i < program.len()
            invariant
                i <= program@.len(),
                stmts == stmts_view(program@),
                stmts.len() == program@.len(),
                match phase2_run(stmts, i as int) {
                    Ok(rest) => phase2_run(stmts, 0) == Ok::<Seq<u8>, AsmError>(out@ + rest),
                    Err(e) => phase2_run(stmts, 0) == Err::<Seq<u8>, AsmError>(e),
                },
            decreases program@.len() - i,
        {
            proof {
                assert(stmts[i as int] == program@[i as int]@);
            }
            let instruction = match &program[i] {
                AssemblerToken::Instruction { assembler_instruction } => assembler_instruction,
                AssemblerToken::LabelDeclaration { label_name, assembler_instruction } => {
                    assembler_instruction
                },
            };
            if !instruction.is_directive() {
                match instruction.to_bytes() {
                    Ok(mut b) => {
                        let ghost bview = b@;
                        let ghost out0 = out@;
                        out.append(&mut b);
                        proof {
                            assert(out@ == out0 + bview);
                            assert(phase2_run(stmts, i as int) == (match phase2_run(
                                stmts,
                                i + 1 as int,
                            ) {
                                Ok(rest) => Ok::<Seq<u8>, AsmError>(bview + rest),
                                Err(e) => Err::<Seq<u8>, AsmError>(e),
                            }));
                            if phase2_run(stmts, i + 1 as int) is Ok {
                                let rest2 = phase2_run(stmts, i + 1 as int)->Ok_0;
                                assert(out0 + (bview + rest2) =~= (out0 + bview) + rest2);
                            }
                        }
                    },
                    Err(e) => {
                        return Err(e);
                    },
                }
            }
            i = i + 1;
        }
        proof {
            assert(out@ + Seq::<u8>::empty() =~= out@);
        }
        Ok(out)
    }
}

/// Prefixes a directive's name with its dot.
fn dotted(value: &str) -> (r: String)
    ensures
        r@ == section_name(value@),
{
    let mut s = String::from_str(".");
    s.append(value);
    proof {
        reveal_strlit(".");
        assert(s@ =~= section_name(value@));
    }
    s
}

/// Copies a byte vector.
fn copy_byte_vec(v: &Vec<u8>) -> (r: Vec<u8>)
    ensures
        r@ == v@,
{
    let mut r: Vec<u8> = Vec::new();
    let mut i: usize = 0;
    while i < v.len()
        invariant
            i <= v@.len(),
            r@ == v@.subrange(0, i as int),
        decreases v@.len() - i,
    {
        r.push(v[i]);
        i = i + 1;
        proof {
            assert(r@ =~= v@.subrange(0, i as int));
        }
    }
    proof {
        assert(r@ =~= v@);
    }
    r
}

/// Copies a vector of names, value for value.
fn clone_strings(v: &Vec<String>) -> (r: Vec<String>)
    ensures
        strings_view(r@) == strings_view(v@),
{
    let mut r: Vec<String> = Vec::new();
    let mut i: usize = 0;
    while i < v.len()
        invariant
            i <= v@.len(),
            r@.len() == i,
            forall|j: int| 0 <= j < i ==> (#[trigger] r@[j])@ == v@[j]@,
        decreases v@.len() - i,
    {
        r.push(v[i].clone());
        i = i + 1;
    }
    proof {
        assert(strings_view(r@) =~= strings_view(v@));
    }
    r
}

} // verus!
