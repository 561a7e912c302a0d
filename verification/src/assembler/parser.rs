//! The parser: a two-token-lookahead reader that turns the lexer's token
//! stream into a sequence of assembler statements.
//!
//! What parsing a token sequence yields is pinned down by [`parse_spec`]:
//! a statement starts with an opcode, a directive, or a label declaration
//! followed by one of the two; after the head an optional label reference
//! and up to three operands (registers, integers, strings) are collected
//! lexically, and any other token stops the operand collection.

use vstd::prelude::*;

use super::assembler_instruction::{opt_token_view, AiV, AssemblerInstruction, AssemblerToken, StmtV};
use super::lexer::{
    lemma_lex_progress, lemma_lexer_bounds, lemma_token_stream_head, lemma_token_stream_no_eof,
    lex_spec, token_stream, Lexer, LexStep,
};
use super::{AsmError, Token, TokenV};

verus! {

/// The token a stream holds at an index; `EOF` past either end.
pub open spec fn stream_slot(toks: Seq<TokenV>, k: int) -> TokenV {
    if 0 <= k < toks.len() {
        toks[k]
    } else {
        TokenV::EOF
    }
}

/// The tokens an operand slot accepts.
pub open spec fn is_operand_tok(t: TokenV) -> bool {
    t is Register || t is IntOperand || t is StringOperand
}

/// The operand consumed at a stream index, where one stands there.
pub open spec fn operand_at(toks: Seq<TokenV>, j: int) -> Option<TokenV> {
    if 0 <= j < toks.len() && is_operand_tok(toks[j]) {
        Some(toks[j])
    } else {
        None
    }
}

/// The body of one instruction whose head (an opcode or, with
/// `directive` set, a directive) stands at index `j`: an optional label
/// reference right after the head, then up to three operands. Yields the
/// instruction's value and the index just past it.
pub open spec fn body_spec(toks: Seq<TokenV>, j: int, directive: bool) -> (AiV, int) {
    let (label, j1) = if j + 1 < toks.len() && toks[j + 1] is Label {
        (Some(toks[j + 1]), j + 2)
    } else {
        (None, j + 1)
    };
    let o1 = operand_at(toks, j1);
    let j2 = if o1 is Some {
        j1 + 1
    } else {
        j1
    };
    let o2 = operand_at(toks, j2);
    let j3 = if o2 is Some {
        j2 + 1
    } else {
        j2
    };
    let o3 = operand_at(toks, j3);
    let j4 = if o3 is Some {
        j3 + 1
    } else {
        j3
    };
    (
        AiV {
            opcode: if directive {
                None
            } else {
                Some(toks[j])
            },
            directive: if directive {
                Some(toks[j])
            } else {
                None
            },
            label,
            operand_one: o1,
            operand_two: o2,
            operand_three: o3,
        },
        j4,
    )
}

/// One statement parsed at index `j` of the stream: the statement's value
/// and the index just past it, or the syntactic error that stops the
/// parse.
pub open spec fn stmt_spec(toks: Seq<TokenV>, j: int) -> Result<(StmtV, int), AsmError> {
    match toks[j] {
        TokenV::Op { code } => {
            let (ai, j2) = body_spec(toks, j, false);
            Ok((StmtV::Instruction { instruction: ai }, j2))
        },
        TokenV::Directive { value } => {
            let (ai, j2) = body_spec(toks, j, true);
            Ok((StmtV::Instruction { instruction: ai }, j2))
        },
        TokenV::LabelDeclaration { value } => {
            if j + 1 < toks.len() && toks[j + 1] is Op {
                let (ai, j2) = body_spec(toks, j + 1, false);
                Ok((StmtV::LabelDeclaration { label_name: value, instruction: ai }, j2))
            } else if j + 1 < toks.len() && toks[j + 1] is Directive {
                let (ai, j2) = body_spec(toks, j + 1, true);
                Ok((StmtV::LabelDeclaration { label_name: value, instruction: ai }, j2))
            } else {
                Err(AsmError::LabelNeedsInstruction)
            }
        },
        _ => Err(AsmError::BadStatementStart),
    }
}

/// The statements parsed from index `j` to the stream's end.
pub open spec fn parse_spec(toks: Seq<TokenV>, j: int) -> Result<Seq<StmtV>, AsmError>
    decreases toks.len() - j,
{
    if j >= toks.len() {
        Ok(Seq::empty())
    } else {
        match stmt_spec(toks, j) {
            Err(e) => Err(e),
            Ok((stmt, j2)) => {
                if j < j2 <= toks.len() {
                    match parse_spec(toks, j2) {
                        Ok(rest) => Ok(seq![stmt] + rest),
                        Err(e) => Err(e),
                    }
                } else {
                    Err(AsmError::BadStatementStart)
                }
            },
        }
    }
}

/// Every parsed statement consumes at least its head token and stays
/// within the stream.
pub proof fn lemma_stmt_spec_progress(toks: Seq<TokenV>, j: int)
    requires
        0 <= j < toks.len(),
    ensures
        match stmt_spec(toks, j) {
            Ok((stmt, j2)) => j < j2 <= toks.len(),
            Err(e) => true,
        },
{
}

/// The values of a sequence of parsed statements.
pub open spec fn stmts_view(v: Seq<AssemblerToken>) -> Seq<StmtV> {
    v.map_values(|a: AssemblerToken| a@)
}

/// How many live (non-`EOF`) tokens a lookahead slot holds.
spec fn live(t: TokenV) -> int {
    if t is EOF {
        0
    } else {
        1
    }
}

/// The two-token-lookahead parser over one source text.
pub struct Parser {
    pub lexer: Lexer,
    pub current: Token,
    pub peek: Token,
    /// The parsed statements, filled by [`Parser::parse`].
    pub program: Vec<AssemblerToken>,
    pub nread: Ghost<int>,
}

impl Parser {
    /// The source under the parser.
    pub closed spec fn src(self) -> Seq<char> {
        self.lexer.src()
    }

    /// How many tokens have been read from the lexer.
    pub closed spec fn consumed(self) -> int {
        self.nread@
    }

    /// The value of the token under the parser.
    pub closed spec fn cur(self) -> TokenV {
        self.current@
    }

    /// The value of the lookahead token.
    pub closed spec fn peeked(self) -> TokenV {
        self.peek@
    }

    /// How much of the source is left to read; reading strictly shrinks
    /// it while the token under the parser is live.
    pub closed spec fn measure(self) -> int {
        2 * (self.lexer.src().len() + 1 - self.lexer.pos()) + live(self.current@) + live(
            self.peek@,
        )
    }

    /// The parser's invariant. Where the whole source lexes, the two
    /// lookahead slots mirror the token stream at the read position and
    /// the lexer stands just past the lookahead.
    pub closed spec fn wf(self) -> bool {
        &&& self.lexer.wf()
        &&& self.nread@ >= 0
        &&& match token_stream(self.lexer.src(), 0) {
            Some(toks) => {
                &&& token_stream(self.lexer.src(), self.lexer.pos()) == Some(
                    toks.skip(
                        if self.nread@ <= toks.len() {
                            self.nread@
                        } else {
                            toks.len() as int
                        },
                    ),
                )
                &&& self.current@ == stream_slot(toks, self.nread@ - 2)
                &&& self.peek@ == stream_slot(toks, self.nread@ - 1)
            },
            None => {
                &&& token_stream(self.lexer.src(), self.lexer.pos()) is None
                &&& self.nread@ >= 1 ==> !(self.peek@ is EOF)
                &&& self.nread@ >= 2 ==> !(self.current@ is EOF)
            },
        }
    }

    /// A parser over the given source, its lookahead not yet primed.
    pub fn new(source_code: &str) -> (r: Parser)
        ensures
            r.wf(),
            r.src() == source_code@,
            r.consumed() == 0,
            r.program@ == Seq::<AssemblerToken>::empty(),
    {
        let lexer = Lexer::new(source_code);
        let r = Parser {
            lexer,
            current: Token::EOF,
            peek: Token::EOF,
            program: Vec::new(),
            nread: Ghost(0),
        };
        proof {
            if token_stream(r.lexer.src(), 0) is Some {
                let toks = token_stream(r.lexer.src(), 0)->Some_0;
                assert(toks.skip(0) =~= toks);
            }
            assert(r.program@ =~= Seq::<AssemblerToken>::empty());
        }
        r
    }

    /// Reads and eats the next token: the lookahead moves under the
    /// parser and the lexer fills the lookahead, with `EOF` once the
    /// stream is exhausted. Fails only on a lexical error.
    pub fn read(&mut self) -> (r: Result<(), AsmError>)
        requires
            old(self).wf(),
        ensures
            final(self).src() == old(self).src(),
            final(self).program@ == old(self).program@,
            final(self).consumed() >= old(self).consumed(),
            match r {
                Ok(u) => {
                    &&& final(self).wf()
                    &&& final(self).consumed() == old(self).consumed() + 1
                    &&& final(self).cur() == old(self).peeked()
                    &&& final(self).measure() <= old(self).measure() - (
                    if old(self).cur() is EOF {
                        0int
                    } else {
                        1int
                    })
                },
                Err(e) => token_stream(old(self).src(), 0) is None,
            },
    {
        let ghost src = self.lexer.src();
        let ghost p = self.lexer.pos();
        let ghost n0 = self.nread@;
        proof {
            lemma_lexer_bounds(self.lexer);
        }
        let res = self.lexer.lex();
        match res {
            Ok(tok) => {
                core::mem::swap(&mut self.current, &mut self.peek);
                self.peek = tok;
                self.nread = Ghost(n0 + 1);
                proof {
                    lemma_lexer_bounds(self.lexer);
                    lemma_lex_progress(src, p);
                    if token_stream(src, 0) is Some {
                        let toks = token_stream(src, 0)->Some_0;
                        let m: int = if n0 <= toks.len() {
                            n0
                        } else {
                            toks.len() as int
                        };
                        let rest = toks.skip(m);
                        lemma_token_stream_head(src, p);
                        if rest.len() == 0 {
                            assert(toks.skip(
                                if n0 + 1 <= toks.len() {
                                    n0 + 1
                                } else {
                                    toks.len() as int
                                },
                            ) =~= rest);
                        } else {
                            assert(m == n0);
                            assert(rest[0] == toks[n0]);
                            assert(toks.skip(n0 + 1) =~= rest.skip(1));
                        }
                    } else {
                        match lex_spec(src, p) {
                            LexStep::Tok { t, end } => {
                                assert(!(t is EOF));
                                assert(token_stream(src, end) is None);
                            },
                            LexStep::Error { e } => {
                                assert(false);
                            },
                        }
                    }
                }
                Ok(())
            },
            Err(e) => {
                proof {
                    if token_stream(src, 0) is Some {
                        lemma_token_stream_head(src, p);
                    }
                }
                Err(e)
            },
        }
    }

    /// Whether the token under the parser is `EOF`.
    fn current_is_eof(&self) -> (b: bool)
        ensures
            b == (self.cur() is EOF),
    {
        matches!(self.current, Token::EOF)
    }

    /// Consumes the next operand where one stands under the parser:
    /// a register, an integer, or a string.
    fn next_operand(&mut self) -> (r: Result<Option<Token>, AsmError>)
        requires
            old(self).wf(),
        ensures
            final(self).src() == old(self).src(),
            final(self).program@ == old(self).program@,
            final(self).consumed() >= old(self).consumed(),
            r is Ok ==> final(self).wf(),
            r is Ok ==> final(self).measure() <= old(self).measure(),
            match token_stream(old(self).src(), 0) {
                Some(toks) => r matches Ok(o) && ({
                    let j = old(self).consumed() - 2;
                    &&& opt_token_view(o) == operand_at(toks, j)
                    &&& final(self).consumed() - 2 == (if operand_at(toks, j) is Some {
                        j + 1
                    } else {
                        j
                    })
                }),
                None => true,
            },
    {
        let is_operand = match &self.current {
            Token::Register { .. } => true,
            Token::IntOperand { .. } => true,
            Token::StringOperand { .. } => true,
            _ => false,
        };
        if is_operand {
            let t = self.current.clone();
            match self.read() {
                Ok(u) => Ok(Some(t)),
                Err(e) => Err(e),
            }
        } else {
            Ok(None)
        }
    }

    /// Parses the body of an instruction whose opcode stands under the
    /// parser: the opcode, an optional label reference, up to three
    /// operands.
    #[verifier::rlimit(100)]
    fn parse_opcode_instruction(&mut self) -> (r: Result<AssemblerInstruction, AsmError>)
        requires
            old(self).wf(),
            old(self).cur() is Op,
        ensures
            final(self).src() == old(self).src(),
            final(self).program@ == old(self).program@,
            final(self).consumed() >= old(self).consumed(),
            r is Ok ==> final(self).wf(),
            r is Ok ==> final(self).measure() < old(self).measure(),
            match token_stream(old(self).src(), 0) {
                Some(toks) => r matches Ok(ai) && ({
                    let (aiv, j2) = body_spec(toks, old(self).consumed() - 2, false);
                    ai@ == aiv && final(self).consumed() - 2 == j2
                }),
                None => true,
            },
    {
        let op = self.current.clone();
        if let Err(e) = self.read() {
            return Err(e);
        }
        let is_label = matches!(self.current, Token::Label { .. });
        let label = if is_label {
            let l = self.current.clone();
            if let Err(e) = self.read() {
                return Err(e);
            }
            Some(l)
        } else {
            None
        };
        let operand_one = match self.next_operand() {
            Ok(o) => o,
            Err(e) => {
                return Err(e);
            },
        };
        let operand_two = match self.next_operand() {
            Ok(o) => o,
            Err(e) => {
                return Err(e);
            },
        };
        let operand_three = match self.next_operand() {
            Ok(o) => o,
            Err(e) => {
                return Err(e);
            },
        };
        Ok(
            AssemblerInstruction {
                opcode: Some(op),
                directive: None,
                label,
                operand_one,
                operand_two,
                operand_three,
            },
        )
    }

    /// Parses the body of an instruction whose directive stands under
    /// the parser; string literals are valid operands here.
    #[verifier::rlimit(100)]
    fn parse_directive_instruction(&mut self) -> (r: Result<AssemblerInstruction, AsmError>)
        requires
            old(self).wf(),
            old(self).cur() is Directive,
        ensures
            final(self).src() == old(self).src(),
            final(self).program@ == old(self).program@,
            final(self).consumed() >= old(self).consumed(),
            r is Ok ==> final(self).wf(),
            r is Ok ==> final(self).measure() < old(self).measure(),
            match token_stream(old(self).src(), 0) {
                Some(toks) => r matches Ok(ai) && ({
                    let (aiv, j2) = body_spec(toks, old(self).consumed() - 2, true);
                    ai@ == aiv && final(self).consumed() - 2 == j2
                }),
                None => true,
            },
    {
        let dir = self.current.clone();
        if let Err(e) = self.read() {
            return Err(e);
        }
        let is_label = matches!(self.current, Token::Label { .. });
        let label = if is_label {
            let l = self.current.clone();
            if let Err(e) = self.read() {
                return Err(e);
            }
            Some(l)
        } else {
            None
        };
        let operand_one = match self.next_operand() {
            Ok(o) => o,
            Err(e) => {
                return Err(e);
            },
        };
        let operand_two = match self.next_operand() {
            Ok(o) => o,
            Err(e) => {
                return Err(e);
            },
        };
        let operand_three = match self.next_operand() {
            Ok(o) => o,
            Err(e) => {
                return Err(e);
            },
        };
        Ok(
            AssemblerInstruction {
                opcode: None,
                directive: Some(dir),
                label,
                operand_one,
                operand_two,
                operand_three,
            },
        )
    }

    /// Parses one statement: an instruction, a directive, or a label
    /// declaration followed by either.
    #[verifier::rlimit(100)]
    fn parse_instruction(&mut self) -> (r: Result<AssemblerToken, AsmError>)
        requires
            old(self).wf(),
            !(old(self).cur() is EOF),
        ensures
            final(self).src() == old(self).src(),
            final(self).program@ == old(self).program@,
            final(self).consumed() >= old(self).consumed(),
            r is Ok ==> final(self).wf(),
            r is Ok ==> final(self).measure() < old(self).measure(),
            match token_stream(old(self).src(), 0) {
                Some(toks) => ({
                    let j = old(self).consumed() - 2;
                    match r {
                        Ok(stmt) => stmt_spec(toks, j) matches Ok((sv, j2)) && stmt@ == sv
                            && final(self).consumed() - 2 == j2,
                        Err(e) => stmt_spec(toks, j) == Err::<(StmtV, int), AsmError>(e),
                    }
                }),
                None => true,
            },
    {
        match &self.current {
            Token::Op { .. } => {
                let ai = match self.parse_opcode_instruction() {
                    Ok(ai) => ai,
                    Err(e) => {
                        return Err(e);
                    },
                };
                Ok(AssemblerToken::Instruction { assembler_instruction: ai })
            },
            Token::Directive { .. } => {
                let ai = match self.parse_directive_instruction() {
                    Ok(ai) => ai,
                    Err(e) => {
                        return Err(e);
                    },
                };
                Ok(AssemblerToken::Instruction { assembler_instruction: ai })
            },
            Token::LabelDeclaration { value } => {
                let name = value.clone();
                if let Err(e) = self.read() {
                    return Err(e);
                }
                if matches!(self.current, Token::Op { .. }) {
                    let ai = match self.parse_opcode_instruction() {
                        Ok(ai) => ai,
                        Err(e) => {
                            return Err(e);
                        },
                    };
                    Ok(
                        AssemblerToken::LabelDeclaration {
                            label_name: name,
                            assembler_instruction: ai,
                        },
                    )
                } else if matches!(self.current, Token::Directive { .. }) {
                    let ai = match self.parse_directive_instruction() {
                        Ok(ai) => ai,
                        Err(e) => {
                            return Err(e);
                        },
                    };
                    Ok(
                        AssemblerToken::LabelDeclaration {
                            label_name: name,
                            assembler_instruction: ai,
                        },
                    )
                } else {
                    Err(AsmError::LabelNeedsInstruction)
                }
            },
            _ => Err(AsmError::BadStatementStart),
        }
    }

    /// Parses the whole source into `program`. Succeeds exactly where the
    /// source lexes without error and every statement is well-formed; the
    /// statements are then the ones [`parse_spec`] gives for the source's
    /// token stream.
    #[verifier::rlimit(100)]
    pub fn parse(&mut self) -> (r: Result<(), AsmError>)
        requires
            old(self).wf(),
            old(self).consumed() == 0,
            old(self).program@ == Seq::<AssemblerToken>::empty(),
        ensures
            final(self).src() == old(self).src(),
            match token_stream(old(self).src(), 0) {
                Some(toks) => match parse_spec(toks, 0) {
                    Ok(stmts) => r == Ok::<(), AsmError>(()) && stmts_view(final(self).program@)
                        == stmts,
                    Err(e) => r == Err::<(), AsmError>(e),
                },
                None => r is Err,
            },
    {
        let ghost src = self.src();
        if let Err(e) = self.read() {
            return Err(e);
        }
        if let Err(e) = self.read() {
            return Err(e);
        }
        proof {
            lemma_lexer_bounds_of_parser(*self);
        }
        while !self.current_is_eof()
            invariant
                self.wf(),
                src == old(self).src(),
                self.src() == src,
                self.consumed() >= 2,
                self.measure() >= 0,
                match token_stream(src, 0) {
                    Some(toks) => ({
                        let j = self.consumed() - 2;
                        match parse_spec(toks, j) {
                            Ok(rest) => parse_spec(toks, 0) == Ok::<Seq<StmtV>, AsmError>(
                                stmts_view(self.program@) + rest,
                            ),
                            Err(e) => parse_spec(toks, 0) == Err::<Seq<StmtV>, AsmError>(e),
                        }
                    }),
                    None => true,
                },
            decreases self.measure(),
        {
            let ghost j = self.consumed() - 2;
            proof {
                if token_stream(src, 0) is Some {
                    let toks = token_stream(src, 0)->Some_0;
                    lemma_token_stream_no_eof(src, 0);
                    assert(0 <= j < toks.len());
                    lemma_stmt_spec_progress(toks, j);
                }
            }
            match self.parse_instruction() {
                Ok(stmt) => {
                    let ghost prog0 = self.program@;
                    self.program.push(stmt);
                    proof {
                        assert(self.program@ == prog0.push(stmt));
                        assert(stmts_view(self.program@) =~= stmts_view(prog0).push(stmt@));
                        if token_stream(src, 0) is Some {
                            let toks = token_stream(src, 0)->Some_0;
                            let (sv, j2) = stmt_spec(toks, j)->Ok_0;
                            let old_view = stmts_view(prog0);
                            if parse_spec(toks, j2) is Ok {
                                let rest2 = parse_spec(toks, j2)->Ok_0;
                                assert(parse_spec(toks, j) == Ok::<Seq<StmtV>, AsmError>(
                                    seq![sv] + rest2,
                                ));
                                assert(old_view + (seq![sv] + rest2) =~= (old_view.push(sv))
                                    + rest2);
                            } else {
                                let e2 = parse_spec(toks, j2)->Err_0;
                                assert(parse_spec(toks, j) == Err::<Seq<StmtV>, AsmError>(e2));
                            }
                        }
                    }
                },
                Err(e) => {
                    return Err(e);
                },
            }
            proof {
                lemma_lexer_bounds_of_parser(*self);
            }
        }
        proof {
            if token_stream(src, 0) is None {
                assert(self.consumed() >= 2);
                assert(!(self.cur() is EOF));
                assert(false);
            }
            let toks = token_stream(src, 0)->Some_0;
            lemma_token_stream_no_eof(src, 0);
            let j = self.consumed() - 2;
            assert(j >= toks.len());
            assert(stmts_view(self.program@) + Seq::<StmtV>::empty() =~= stmts_view(
                self.program@,
            ));
        }
        Ok(())
    }
}

/// A well-formed parser's remaining-input measure is never negative.
proof fn lemma_lexer_bounds_of_parser(p: Parser)
    requires
        p.wf(),
    ensures
        p.measure() >= 0,
{
    lemma_lexer_bounds(p.lexer);
}

} // verus!
