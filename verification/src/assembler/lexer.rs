//! The lexer: a whitespace-delimited scanner over a character vector
//! with a one-character look-at. Each call of [`Lexer::lex`] emits
//! exactly one token; once the source is exhausted it emits `EOF`.
//!
//! What one call emits is pinned down by the spec function [`lex_spec`]
//! over the character sequence and the scanner's position.

use vstd::prelude::*;

use super::{AsmError, Token, TokenV};
use crate::instruction::{mnemonic_lookup, Opcode};

verus! {

/// The whitespace characters the scanner skips between tokens.
pub open spec fn is_ws(c: char) -> bool {
    c == ' ' || c == '\t' || c == '\n' || c == '\r'
}

/// A decimal digit.
pub open spec fn is_digit(c: char) -> bool {
    48 <= c as u32 <= 57
}

/// An ASCII letter.
pub open spec fn is_alpha(c: char) -> bool {
    (65 <= c as u32 <= 90) || (97 <= c as u32 <= 122)
}

/// A character an identifier may contain: letters, `_` and `-`.
pub open spec fn is_ident_char(c: char) -> bool {
    is_alpha(c) || c == '_' || c == '-'
}

/// The first position at or after `i` that holds no whitespace.
pub open spec fn skip_ws(src: Seq<char>, i: int) -> int
    decreases src.len() - i,
{
    if i < 0 || i >= src.len() {
        i
    } else if is_ws(src[i]) {
        skip_ws(src, i + 1)
    } else {
        i
    }
}

/// The end of the run of digits starting at `i`.
pub open spec fn scan_digits(src: Seq<char>, i: int) -> int
    decreases src.len() - i,
{
    if i < 0 || i >= src.len() {
        i
    } else if is_digit(src[i]) {
        scan_digits(src, i + 1)
    } else {
        i
    }
}

/// The end of the run of identifier characters starting at `i`.
pub open spec fn scan_ident(src: Seq<char>, i: int) -> int
    decreases src.len() - i,
{
    if i < 0 || i >= src.len() {
        i
    } else if is_ident_char(src[i]) {
        scan_ident(src, i + 1)
    } else {
        i
    }
}

/// The end of the run of letters starting at `i`.
pub open spec fn scan_alpha(src: Seq<char>, i: int) -> int
    decreases src.len() - i,
{
    if i < 0 || i >= src.len() {
        i
    } else if is_alpha(src[i]) {
        scan_alpha(src, i + 1)
    } else {
        i
    }
}

/// The position of the next `"` at or after `i`, or the source's length
/// where none follows.
pub open spec fn scan_string(src: Seq<char>, i: int) -> int
    decreases src.len() - i,
{
    if i < 0 || i >= src.len() {
        i
    } else if src[i] == '"' {
        i
    } else {
        scan_string(src, i + 1)
    }
}

/// The value of the decimal digits in `src[i..j)`.
pub open spec fn digits_value(src: Seq<char>, i: int, j: int) -> int
    decreases j - i,
{
    if j <= i {
        0
    } else {
        digits_value(src, i, j - 1) * 10 + (src[j - 1] as u32 - 48)
    }
}

/// What one call of the lexer does: a token and the position after it,
/// or a fatal lexical error.
pub ghost enum LexStep {
    Tok { t: TokenV, end: int },
    Error { e: AsmError },
}

/// A run of digits read as a register index (`register` true) or an
/// integer operand; no digit at all, or a value beyond the 32-bit
/// range, is a malformed number.
pub open spec fn lex_number(src: Seq<char>, j: int, register: bool) -> LexStep {
    let e = scan_digits(src, j);
    if e == j {
        LexStep::Error { e: AsmError::BadNumber }
    } else if digits_value(src, j, e) > i32::MAX {
        LexStep::Error { e: AsmError::BadNumber }
    } else if register {
        LexStep::Tok { t: TokenV::Register { register: digits_value(src, j, e) }, end: e }
    } else {
        LexStep::Tok { t: TokenV::IntOperand { operand: digits_value(src, j, e) }, end: e }
    }
}

/// One token scanned from position `i`: skip whitespace, then dispatch
/// on the leading character.
pub open spec fn lex_spec(src: Seq<char>, i: int) -> LexStep {
    let s = skip_ws(src, i);
    if s >= src.len() {
        LexStep::Tok { t: TokenV::EOF, end: s }
    } else {
        let c = src[s];
        if c == '#' {
            lex_number(src, s + 1, false)
        } else if c == '$' {
            lex_number(src, s + 1, true)
        } else if c == '@' {
            LexStep::Tok {
                t: TokenV::Label { name: src.subrange(s + 1, scan_ident(src, s + 1)) },
                end: scan_ident(src, s + 1),
            }
        } else if c == '.' {
            LexStep::Tok {
                t: TokenV::Directive { value: src.subrange(s + 1, scan_alpha(src, s + 1)) },
                end: scan_alpha(src, s + 1),
            }
        } else if c == '"' {
            let q = scan_string(src, s + 1);
            if q >= src.len() {
                LexStep::Error { e: AsmError::UnterminatedString }
            } else {
                LexStep::Tok {
                    t: TokenV::StringOperand { operand: src.subrange(s + 1, q) },
                    end: q + 1,
                }
            }
        } else if is_alpha(c) {
            let e = scan_ident(src, s);
            if e < src.len() && src[e] == ':' {
                LexStep::Tok { t: TokenV::LabelDeclaration { value: src.subrange(s, e) }, end: e + 1 }
            } else {
                match mnemonic_lookup(src.subrange(s, e)) {
                    Some(op) => LexStep::Tok { t: TokenV::Op { code: op }, end: e },
                    None => LexStep::Error { e: AsmError::UnknownOpcode },
                }
            }
        } else if c == '\0' {
            LexStep::Tok { t: TokenV::EOF, end: s }
        } else {
            LexStep::Error { e: AsmError::UnexpectedCharacter }
        }
    }
}

/// The tokens of the whole source from position `i` on, ending where the
/// scan yields `EOF`; `None` where a lexical error stops it. The `EOF`
/// token itself is not part of the stream.
pub open spec fn token_stream(src: Seq<char>, i: int) -> Option<Seq<TokenV>>
    decreases src.len() - i + 1,
{
    if !(0 <= i <= src.len()) {
        None
    } else {
        match lex_spec(src, i) {
            LexStep::Error { e } => None,
            LexStep::Tok { t, end } => {
                if t is EOF {
                    Some(Seq::empty())
                } else if i < end <= src.len() {
                    match token_stream(src, end) {
                        None => None,
                        Some(rest) => Some(seq![t] + rest),
                    }
                } else {
                    None
                }
            },
        }
    }
}

/// A well-formed scanner stands within its source.
pub proof fn lemma_lexer_bounds(l: Lexer)
    requires
        l.wf(),
    ensures
        0 <= l.pos() <= l.src().len(),
{
}

/// Whitespace skipping stays within the source and is idempotent.
pub proof fn lemma_skip_ws_bounds(src: Seq<char>, i: int)
    requires
        0 <= i <= src.len(),
    ensures
        i <= skip_ws(src, i) <= src.len(),
        skip_ws(src, skip_ws(src, i)) == skip_ws(src, i),
    decreases src.len() - i,
{
    if i < src.len() && is_ws(src[i]) {
        lemma_skip_ws_bounds(src, i + 1);
    }
}

/// The identifier scan stays within the source.
proof fn lemma_scan_ident_bounds(src: Seq<char>, i: int)
    requires
        0 <= i <= src.len(),
    ensures
        i <= scan_ident(src, i) <= src.len(),
    decreases src.len() - i,
{
    if i < src.len() && is_ident_char(src[i]) {
        lemma_scan_ident_bounds(src, i + 1);
    }
}

/// The letter scan stays within the source.
proof fn lemma_scan_alpha_bounds(src: Seq<char>, i: int)
    requires
        0 <= i <= src.len(),
    ensures
        i <= scan_alpha(src, i) <= src.len(),
    decreases src.len() - i,
{
    if i < src.len() && is_alpha(src[i]) {
        lemma_scan_alpha_bounds(src, i + 1);
    }
}

/// The string scan stays within the source.
proof fn lemma_scan_string_bounds(src: Seq<char>, i: int)
    requires
        0 <= i <= src.len(),
    ensures
        i <= scan_string(src, i) <= src.len(),
    decreases src.len() - i,
{
    if i < src.len() && src[i] != '"' {
        lemma_scan_string_bounds(src, i + 1);
    }
}

/// One scanned token makes progress: every token but `EOF` ends strictly
/// past where the scan began, within the source; `EOF` ends at the end
/// of the skipped whitespace.
pub proof fn lemma_lex_progress(src: Seq<char>, i: int)
    requires
        0 <= i <= src.len(),
    ensures
        match lex_spec(src, i) {
            LexStep::Tok { t, end } => {
                &&& (t is EOF ==> end == skip_ws(src, i) && i <= end <= src.len())
                &&& (!(t is EOF) ==> i < end <= src.len())
            },
            LexStep::Error { e } => true,
        },
{
    lemma_skip_ws_bounds(src, i);
    let s = skip_ws(src, i);
    if s < src.len() {
        let c = src[s];
        if c == '#' || c == '$' {
            lemma_scan_digits_chars(src, s + 1);
        } else if c == '@' {
            lemma_scan_ident_bounds(src, s + 1);
        } else if c == '.' {
            lemma_scan_alpha_bounds(src, s + 1);
        } else if c == '"' {
            lemma_scan_string_bounds(src, s + 1);
        } else if is_alpha(c) {
            lemma_scan_ident_bounds(src, s);
            assert(scan_ident(src, s) == scan_ident(src, s + 1));
            lemma_scan_ident_bounds(src, s + 1);
        }
    }
}

/// The head of a non-failed token stream: how one scanned token relates
/// the stream at a position to the stream just past that token.
pub proof fn lemma_token_stream_head(src: Seq<char>, i: int)
    requires
        0 <= i <= src.len(),
        token_stream(src, i) is Some,
    ensures
        ({
            let toks = token_stream(src, i)->Some_0;
            if toks.len() == 0 {
                lex_spec(src, i) matches LexStep::Tok { t, end } && t is EOF && 0 <= end
                    <= src.len() && token_stream(src, end) == Some(Seq::<TokenV>::empty())
            } else {
                lex_spec(src, i) matches LexStep::Tok { t, end } && t == toks[0] && !(t is EOF)
                    && i < end <= src.len() && token_stream(src, end) == Some(toks.skip(1))
            }
        }),
{
    lemma_lex_progress(src, i);
    let toks = token_stream(src, i)->Some_0;
    match lex_spec(src, i) {
        LexStep::Tok { t, end } => {
            if t is EOF {
                lemma_skip_ws_bounds(src, i);
                assert(skip_ws(src, end) == end);
                assert(lex_spec(src, end) matches LexStep::Tok { t: t2, end: e2 } && t2 is EOF);
                assert(token_stream(src, end) == Some(Seq::<TokenV>::empty()));
            } else {
                let rest = token_stream(src, end)->Some_0;
                assert(toks == seq![t] + rest);
                assert(toks[0] == t);
                assert(toks.skip(1) =~= rest);
            }
        },
        LexStep::Error { e } => {},
    }
}

/// No token of a stream is `EOF`: the stream ends where `EOF` appears.
pub proof fn lemma_token_stream_no_eof(src: Seq<char>, i: int)
    requires
        0 <= i <= src.len(),
        token_stream(src, i) is Some,
    ensures
        forall|k: int|
            0 <= k < token_stream(src, i)->Some_0.len() ==> !((#[trigger] token_stream(
                src,
                i,
            )->Some_0[k]) is EOF),
    decreases src.len() - i + 1,
{
    let toks = token_stream(src, i)->Some_0;
    if toks.len() > 0 {
        lemma_token_stream_head(src, i);
        match lex_spec(src, i) {
            LexStep::Tok { t, end } => {
                lemma_token_stream_no_eof(src, end);
                let rest = token_stream(src, end)->Some_0;
                assert forall|k: int| 0 <= k < toks.len() implies !((#[trigger] toks[k]) is EOF) by {
                    if k > 0 {
                        assert(toks[k] == rest[k - 1]);
                        assert(rest[k - 1] == toks.skip(1)[k - 1]);
                    }
                }
            },
            LexStep::Error { e } => {},
        }
    }
}

/// Every position the digit scan passes over holds a digit.
proof fn lemma_scan_digits_chars(src: Seq<char>, i: int)
    requires
        0 <= i <= src.len(),
    ensures
        i <= scan_digits(src, i) <= src.len(),
        forall|m: int| i <= m < scan_digits(src, i) ==> is_digit(src[m]),
    decreases src.len() - i,
{
    if i < src.len() && is_digit(src[i]) {
        lemma_scan_digits_chars(src, i + 1);
    }
}

/// The value of a digit run never goes down as the run extends.
proof fn lemma_digits_value_mono(src: Seq<char>, i: int, k: int, e: int)
    requires
        i <= k <= e,
        forall|m: int| i <= m < e ==> is_digit(#[trigger] src[m]),
    ensures
        digits_value(src, i, e) >= digits_value(src, i, k),
    decreases e - k,
{
    if e > k {
        lemma_digits_value_mono(src, i, k, e - 1);
        lemma_digits_value_nonneg(src, i, e - 1);
    }
}

/// The value of a digit run is never negative.
proof fn lemma_digits_value_nonneg(src: Seq<char>, i: int, j: int)
    requires
        forall|m: int| i <= m < j ==> is_digit(#[trigger] src[m]),
    ensures
        digits_value(src, i, j) >= 0,
    decreases j - i,
{
    if j > i {
        lemma_digits_value_nonneg(src, i, j - 1);
    }
}

/// The whitespace-delimited scanner: a character vector, the position of
/// the character under the look-at, and that character itself (`'\0'`
/// once the source is exhausted).
#[derive(Debug)]
pub struct Lexer {
    source: Vec<char>,
    current: usize,
    next: usize,
    current_char: char,
}

impl Lexer {
    /// The source under the scanner.
    pub closed spec fn src(self) -> Seq<char> {
        self.source@
    }

    /// The scanner's position: the index of the next character it reads.
    pub closed spec fn pos(self) -> int {
        self.current as int
    }

    /// The scanner's invariant: the look-ahead index trails the position
    /// by one while there is anything left to read, and the look-at
    /// character mirrors the source.
    pub closed spec fn wf(self) -> bool {
        &&& self.current < self.source@.len() ==> self.next == self.current + 1
        &&& self.current >= self.source@.len() ==> self.next >= self.source@.len()
        &&& self.current <= self.source@.len()
        &&& self.current_char == if self.current < self.source@.len() {
            self.source@[self.current as int]
        } else {
            '\0'
        }
    }

    /// A scanner over the given source, positioned at its start.
    pub fn new(source: &str) -> (r: Lexer)
        ensures
            r.wf(),
            r.src() == source@,
            r.pos() == 0,
    {
        let chars = str_chars(source);
        let current_char = if chars.len() > 0 {
            chars[0]
        } else {
            '\0'
        };
        Lexer { source: chars, current: 0, next: 1, current_char }
    }

    /// Advances the look-at by one character.
    fn read(&mut self)
        requires
            old(self).wf(),
            old(self).pos() < old(self).src().len(),
        ensures
            final(self).wf(),
            final(self).src() == old(self).src(),
            final(self).pos() == old(self).pos() + 1,
    {
        if self.next >= self.source.len() {
            self.current_char = '\0';
        } else {
            self.current_char = self.source[self.next];
        }
        self.current = self.next;
        if self.next < self.source.len() {
            self.next = self.next + 1;
        }
    }

    /// Emits exactly one token, or the lexical error that stops the
    /// scan; see [`lex_spec`].
    pub fn lex(&mut self) -> (r: Result<Token, AsmError>)
        requires
            old(self).wf(),
        ensures
            final(self).wf(),
            final(self).src() == old(self).src(),
            match lex_spec(old(self).src(), old(self).pos()) {
                LexStep::Tok { t, end } => r matches Ok(tok) && tok@ == t && final(self).pos()
                    == end,
                LexStep::Error { e } => r == Err::<Token, AsmError>(e),
            },
    {
        let ghost src = self.src();
        let ghost p0 = self.pos();
        while ws_char(self.current_char)
            invariant
                self.wf(),
                self.src() == src,
                p0 <= self.pos() <= src.len(),
                skip_ws(src, p0) == skip_ws(src, self.pos()),
            decreases src.len() - self.pos(),
        {
            self.read();
        }
        proof {
            assert(skip_ws(src, self.pos()) == self.pos());
            assert(self.pos() == skip_ws(src, p0));
        }
        let c = self.current_char;
        if c == '#' {
            self.read();
            self.lex_digits(false)
        } else if c == '$' {
            self.read();
            self.lex_digits(true)
        } else if c == '@' {
            self.read();
            let name = self.take_ident();
            Ok(Token::Label { name })
        } else if c == '.' {
            self.read();
            let value = self.take_alpha();
            Ok(Token::Directive { value })
        } else if c == '"' {
            self.lex_string()
        } else if alpha_char(c) {
            self.parse_opcode()
        } else if c == '\0' {
            Ok(Token::EOF)
        } else {
            Err(AsmError::UnexpectedCharacter)
        }
    }

    /// Reads the run of digits under the scanner as a register index or
    /// an integer operand.
    fn lex_digits(&mut self, register: bool) -> (r: Result<Token, AsmError>)
        requires
            old(self).wf(),
        ensures
            final(self).wf(),
            final(self).src() == old(self).src(),
            match lex_number(old(self).src(), old(self).pos(), register) {
                LexStep::Tok { t, end } => r matches Ok(tok) && tok@ == t && final(self).pos()
                    == end,
                LexStep::Error { e } => r == Err::<Token, AsmError>(e),
            },
    {
        let ghost src = self.src();
        let ghost j = self.pos();
        proof {
            lemma_scan_digits_chars(src, j);
        }
        let mut val: i64 = 0;
        let mut any = false;
        while digit_char(self.current_char)
            invariant
                self.wf(),
                src == old(self).src(),
                j == old(self).pos(),
                self.src() == src,
                0 <= j <= self.pos() <= src.len(),
                scan_digits(src, j) == scan_digits(src, self.pos()),
                val == digits_value(src, j, self.pos()),
                0 <= val <= i32::MAX,
                any == (self.pos() > j),
            decreases src.len() - self.pos(),
        {
            let d = self.current_char as u32 - 48;
            let candidate: i64 = val * 10 + d as i64;
            proof {
                lemma_scan_digits_chars(src, j);
                assert(is_digit(src[self.pos()]));
                assert(scan_digits(src, self.pos()) == scan_digits(src, self.pos() + 1));
            }
            if candidate > i32::MAX as i64 {
                proof {
                    let e = scan_digits(src, j);
                    lemma_scan_digits_chars(src, self.pos() + 1);
                    assert(e == scan_digits(src, self.pos() + 1));
                    assert(self.pos() + 1 <= e);
                    assert(digits_value(src, j, self.pos() + 1) == candidate);
                    lemma_digits_value_mono(src, j, self.pos() + 1, e);
                }
                return Err(AsmError::BadNumber);
            }
            val = candidate;
            any = true;
            self.read();
        }
        proof {
            assert(scan_digits(src, self.pos()) == self.pos());
        }
        if !any {
            return Err(AsmError::BadNumber);
        }
        if register {
            Ok(Token::Register { register: val as i32 })
        } else {
            Ok(Token::IntOperand { operand: val as i32 })
        }
    }

    /// Collects the run of identifier characters under the scanner.
    fn take_ident(&mut self) -> (r: String)
        requires
            old(self).wf(),
        ensures
            final(self).wf(),
            final(self).src() == old(self).src(),
            final(self).pos() == scan_ident(old(self).src(), old(self).pos()),
            r@ == old(self).src().subrange(old(self).pos(), final(self).pos()),
    {
        let ghost src = self.src();
        let ghost j = self.pos();
        let mut s = String::new();
        while ident_char(self.current_char)
            invariant
                self.wf(),
                self.src() == src,
                0 <= j <= self.pos() <= src.len(),
                scan_ident(src, j) == scan_ident(src, self.pos()),
                s@ == src.subrange(j, self.pos()),
            decreases src.len() - self.pos(),
        {
            push_char(&mut s, self.current_char);
            self.read();
            proof {
                assert(s@ =~= src.subrange(j, self.pos()));
            }
        }
        proof {
            assert(scan_ident(src, self.pos()) == self.pos());
        }
        s
    }

    /// Collects the run of letters under the scanner.
    fn take_alpha(&mut self) -> (r: String)
        requires
            old(self).wf(),
        ensures
            final(self).wf(),
            final(self).src() == old(self).src(),
            final(self).pos() == scan_alpha(old(self).src(), old(self).pos()),
            r@ == old(self).src().subrange(old(self).pos(), final(self).pos()),
    {
        let ghost src = self.src();
        let ghost j = self.pos();
        let mut s = String::new();
        while alpha_char(self.current_char)
            invariant
                self.wf(),
                self.src() == src,
                0 <= j <= self.pos() <= src.len(),
                scan_alpha(src, j) == scan_alpha(src, self.pos()),
                s@ == src.subrange(j, self.pos()),
            decreases src.len() - self.pos(),
        {
            push_char(&mut s, self.current_char);
            self.read();
            proof {
                assert(s@ =~= src.subrange(j, self.pos()));
            }
        }
        proof {
            assert(scan_alpha(src, self.pos()) == self.pos());
        }
        s
    }

    /// Reads a string operand: everything up to the next `"`. The quotes
    /// are consumed but not stored.
    fn lex_string(&mut self) -> (r: Result<Token, AsmError>)
        requires
            old(self).wf(),
            old(self).pos() < old(self).src().len(),
            old(self).src()[old(self).pos()] == '"',
        ensures
            final(self).wf(),
            final(self).src() == old(self).src(),
            ({
                let src = old(self).src();
                let q = scan_string(src, old(self).pos() + 1);
                if q >= src.len() {
                    r == Err::<Token, AsmError>(AsmError::UnterminatedString)
                } else {
                    r matches Ok(tok) && tok@ == (TokenV::StringOperand {
                        operand: src.subrange(old(self).pos() + 1, q),
                    }) && final(self).pos() == q + 1
                }
            }),
    {
        let ghost src = self.src();
        self.read();
        let ghost j = self.pos();
        let mut s = String::new();
        while self.current < self.source.len() && self.current_char != '"'
            invariant
                self.wf(),
                self.src() == src,
                0 <= j <= self.pos() <= src.len(),
                scan_string(src, j) == scan_string(src, self.pos()),
                s@ == src.subrange(j, self.pos()),
            decreases src.len() - self.pos(),
        {
            push_char(&mut s, self.current_char);
            self.read();
            proof {
                assert(s@ =~= src.subrange(j, self.pos()));
            }
        }
        proof {
            assert(scan_string(src, self.pos()) == self.pos());
        }
        if self.current == self.source.len() {
            return Err(AsmError::UnterminatedString);
        }
        self.read();
        Ok(Token::StringOperand { operand: s })
    }

    /// Reads an identifier: a trailing `:` makes it a label declaration,
    /// otherwise it must be a known mnemonic, matched case-insensitively.
    fn parse_opcode(&mut self) -> (r: Result<Token, AsmError>)
        requires
            old(self).wf(),
            old(self).pos() < old(self).src().len(),
            is_alpha(old(self).src()[old(self).pos()]),
        ensures
            final(self).wf(),
            final(self).src() == old(self).src(),
            ({
                let src = old(self).src();
                let s0 = old(self).pos();
                let e = scan_ident(src, s0);
                if e < src.len() && src[e] == ':' {
                    r matches Ok(tok) && tok@ == (TokenV::LabelDeclaration {
                        value: src.subrange(s0, e),
                    }) && final(self).pos() == e + 1
                } else {
                    match mnemonic_lookup(src.subrange(s0, e)) {
                        Some(op) => r matches Ok(tok) && tok@ == (TokenV::Op { code: op })
                            && final(self).pos() == e,
                        None => r == Err::<Token, AsmError>(AsmError::UnknownOpcode),
                    }
                }
            }),
    {
        let s = self.take_ident();
        if self.current_char == ':' {
            self.read();
            Ok(Token::LabelDeclaration { value: s })
        } else {
            match Opcode::from_mnemonic(s.as_str()) {
                Some(code) => Ok(Token::Op { code }),
                None => Err(AsmError::UnknownOpcode),
            }
        }
    }
}

/// Whitespace, as the scanner skips it.
fn ws_char(c: char) -> (r: bool)
    ensures
        r == is_ws(c),
{
    c == ' ' || c == '\t' || c == '\n' || c == '\r'
}

/// A decimal digit.
fn digit_char(c: char) -> (r: bool)
    ensures
        r == is_digit(c),
{
    let u = c as u32;
    48 <= u && u <= 57
}

/// An ASCII letter.
fn alpha_char(c: char) -> (r: bool)
    ensures
        r == is_alpha(c),
{
    let u = c as u32;
    (65 <= u && u <= 90) || (97 <= u && u <= 122)
}

/// A character an identifier may contain.
fn ident_char(c: char) -> (r: bool)
    ensures
        r == is_ident_char(c),
{
    alpha_char(c) || c == '_' || c == '-'
}

/// Relies on `String::push`: appends exactly one character.
#[verifier::external_body]
fn push_char(s: &mut String, c: char)
    ensures
        final(s)@ == old(s)@.push(c),
{
    s.push(c);
}

/// The characters of a piece of text, as a vector.
fn str_chars(s: &str) -> (r: Vec<char>)
    ensures
        r@ == s@,
{
    let n = s.unicode_len();
    let mut v: Vec<char> = Vec::new();
    let mut i: usize = 0;
    while i < n
        invariant
            n == s@.len(),
            i <= n,
            v@ == s@.subrange(0, i as int),
        decreases n - i,
    {
        v.push(s.get_char(i));
        i = i + 1;
        proof {
            assert(v@ =~= s@.subrange(0, i as int));
        }
    }
    proof {
        assert(v@ =~= s@);
    }
    v
}

} // verus!
