//! The program facade: a convenience that owns a fresh assembler, feeds
//! it one source text, and hands back the finished code bytes alone.

use vstd::prelude::*;

use super::assembler::{phase1_run, phase2_run, Assembler};
use super::lexer::token_stream;
use super::parser::parse_spec;

verus! {

/// The convenience entry point around the assembler.
pub struct Program;

impl Program {
    pub fn new() -> Program {
        Program
    }

    /// Assembles one source text with a fresh assembler and returns the
    /// code byte stream, discarding the symbol table, sections and
    /// read-only data; `None` exactly where assembling fails.
    pub fn parse_program(source: &str) -> (r: Option<Vec<u8>>)
        ensures
            match token_stream(source@, 0) {
                Some(toks) => match parse_spec(toks, 0) {
                    Ok(stmts) => ({
                        let fresh = Assembler::new_state();
                        if phase1_run(fresh, stmts, 0) is Ok && phase2_run(stmts, 0) is Ok {
                            r matches Some(v) && v@ == phase2_run(stmts, 0)->Ok_0
                        } else {
                            r is None
                        }
                    }),
                    Err(e) => r is None,
                },
                None => r is None,
            },
    {
        let mut assembler = Assembler::new();
        assembler.assemble(source)
    }
}

} // verus!
