//! The tokenizer: one pass over a character buffer, one dispatch per
//! lexeme, stopping at the first error.

use crate::chars::{
    binary_digit, decimal_digit, hex_digit, value_of_digit, whitespace, word_char,
};
use crate::grammar::{
    at, binary, default_numeric, directive, excess_is_found, hex, identifier, in_text, lex,
    lex_all, lex_keeps_emitted, number, number_extends, number_grows, origin, register, run_end,
    run_end_is_maximal, signed, step, step_advances, stretch, unsigned, zero_led, CharClass,
    Outcome, Source, Step,
};
use crate::mnemonics::{resolve, Mnemonic};
use crate::register::Register;
use crate::text_mapping::{share, FileInfo, Position, TextRange};
use crate::token::{Token, TokenType};
use std::rc::Rc;
use vstd::pervasive::unreached;
use vstd::prelude::*;

verus! {

/// The lexical errors. Each carries the place or the range a diagnostic
/// needs to point at.
#[derive(Clone, Debug, PartialEq)]
pub enum LexerError {
    UnexpectedCharacter(char, Position),
    EmptyIdentifier(Position),
    InvalidHexLiteral(TextRange),
    InvalidBinaryLiteral(TextRange),
    UnexpectedSecondDecimalPoint(Position),
    InvalidFloatLiteral(TextRange),
    InvalidUnsignedIntegerLiteral(TextRange),
    InvalidSignedIntegerLiteral(TextRange),
    InvalidRegister(TextRange),
    ExpectedRegisterFoundEOF(Position),
    UnknownDirective(TextRange),
}

/// How a number without a base prefix is read.
#[derive(Clone, Copy, Debug, PartialEq, Eq, Structural)]
pub enum NumericType {
    Signed,
    Unsigned,
    Float,
}

/// Why a pass ended early: a lexical error, or a floating-point literal,
/// which this tokenizer does not read.
#[derive(Clone, Debug, PartialEq)]
pub enum Stop {
    Error(LexerError),
    Float,
}

/// A tokenizer over one source unit.
#[derive(Clone, Debug, PartialEq)]
pub struct Lexer {
    chars: Vec<char>,
    file: Rc<FileInfo>,
    tokens: Vec<Token>,
    index: usize,
    row: usize,
    col: usize,
    default_numeric: NumericType,
    mnemonics: Vec<Mnemonic>,
}

/// A tokenizer as the grammar sees it: the unchanging source, the cursor,
/// and the tokens emitted so far.
pub struct LexerView {
    pub source: Source,
    pub cursor: Position,
    pub tokens: Seq<Token>,
}

impl View for Lexer {
    type V = LexerView;

    closed spec fn view(&self) -> LexerView {
        LexerView {
            source: Source {
                chars: self.chars@,
                file: self.file,
                mode: self.default_numeric,
                mnemonics: self.mnemonics@,
            },
            cursor: Position { index: self.index, row: self.row, col: self.col },
            tokens: self.tokens@,
        }
    }
}

/// What one lexeme does to a tokenizer: the source stays, the cursor and
/// the token list change as the step says, and the result reports how it
/// ended.
pub open spec fn follows(before: LexerView, after: LexerView, r: Result<(), Stop>, s: Step) -> bool {
    &&& after.source == before.source
    &&& in_text(after.source, after.cursor)
    &&& match s {
        Step::Skip(q) => r is Ok && after.cursor == q && after.tokens == before.tokens,
        Step::Emit(t, q) => r is Ok && after.cursor == q && after.tokens == before.tokens.push(t),
        Step::Fail(e, q) => r == Err::<(), Stop>(Stop::Error(e)) && after.cursor == q
            && after.tokens == before.tokens,
        Step::Float => r == Err::<(), Stop>(Stop::Float) && after.cursor == before.cursor
            && after.tokens == before.tokens,
    }
}

/// A stretch of text one character longer holds a given character exactly
/// if the shorter stretch does or the added character is it.
pub proof fn contains_extends(chars: Seq<char>, from: int, to: int, c: char)
    requires
        0 <= from <= to < chars.len(),
    ensures
        chars.subrange(from, to + 1).contains(c) <==> chars.subrange(from, to).contains(c)
            || chars[to] == c,
{
    let shorter = chars.subrange(from, to);
    let longer = chars.subrange(from, to + 1);
    if shorter.contains(c) {
        let i = choose|i: int| 0 <= i < shorter.len() && shorter[i] == c;
        assert(longer[i] == c);
    }
    if chars[to] == c {
        assert(longer[to - from] == c);
    }
    if longer.contains(c) {
        let i = choose|i: int| 0 <= i < longer.len() && longer[i] == c;
        if i < to - from {
            assert(shorter[i] == c);
        }
    }
}

/// How a pass that ended relates to what lexing comes to: the tokens and
/// the cursor are those of the outcome, and the result names its kind.
pub open spec fn ends_as(after: LexerView, r: Result<(), Stop>, o: Outcome) -> bool {
    &&& after.tokens == o.tokens()
    &&& after.cursor == o.cursor()
    &&& match o {
        Outcome::Done { .. } => r is Ok,
        Outcome::Failed { error, .. } => r == Err::<(), Stop>(Stop::Error(error)),
        Outcome::Float { .. } => r == Err::<(), Stop>(Stop::Float),
    }
}

/// The source of a tokenizer that reads unprefixed numbers as unsigned.
pub open spec fn unsigned_source(
    chars: Seq<char>,
    file: Rc<FileInfo>,
    mnemonics: Seq<Mnemonic>,
) -> Source {
    Source { chars, file, mode: NumericType::Unsigned, mnemonics }
}

/// The character at an offset, if the text reaches that far.
pub open spec fn char_at(chars: Seq<char>, i: int) -> Option<char> {
    if 0 <= i < chars.len() {
        Some(chars[i])
    } else {
        None
    }
}

impl Lexer {
    /// The cursor stands in the text.
    pub open spec fn wf(self) -> bool {
        in_text(self@.source, self@.cursor)
    }

    /// A tokenizer at the start of `chars`, with nothing emitted.
    pub fn new(
        chars: Vec<char>,
        file: Rc<FileInfo>,
        default_numeric: NumericType,
        mnemonics: Vec<Mnemonic>,
    ) -> (lexer: Lexer)
        ensures
            lexer.wf(),
            lexer@.source == (Source {
                chars: chars@,
                file,
                mode: default_numeric,
                mnemonics: mnemonics@,
            }),
            lexer@.cursor == origin(),
            lexer@.tokens == Seq::<Token>::empty(),
    {
        let _ = chars.len();
        Lexer { chars, file, tokens: Vec::new(), index: 0, row: 0, col: 0, default_numeric, mnemonics }
    }

    /// The tokens emitted so far, in source order.
    pub fn into_tokens(self) -> (tokens: Vec<Token>)
        ensures
            tokens@ == self@.tokens,
    {
        self.tokens
    }

    fn current(&self) -> (c: Option<char>)
        requires
            self.wf(),
        ensures
            c == char_at(self@.source.chars, self@.cursor.index as int),
    {
        if self.index < self.chars.len() {
            Some(self.chars[self.index])
        } else {
            None
        }
    }

    fn peek(&self) -> (c: Option<char>)
        requires
            self.wf(),
        ensures
            c == char_at(self@.source.chars, self@.cursor.index + 1),
    {
        if self.index < self.chars.len() && self.index + 1 < self.chars.len() {
            Some(self.chars[self.index + 1])
        } else {
            None
        }
    }

    fn increment(&mut self)
        requires
            old(self).wf(),
            old(self)@.cursor.index < old(self)@.source.chars.len(),
        ensures
            final(self).wf(),
            final(self)@.source == old(self)@.source,
            final(self)@.tokens == old(self)@.tokens,
            final(self)@.cursor == old(self)@.cursor.ahead(1),
    {
        self.index += 1;
        self.col += 1;
    }

    fn increment_row(&mut self)
        requires
            old(self).wf(),
            old(self)@.cursor.index < old(self)@.source.chars.len(),
        ensures
            final(self).wf(),
            final(self)@.source == old(self)@.source,
            final(self)@.tokens == old(self)@.tokens,
            final(self)@.cursor == old(self)@.cursor.next_line(),
    {
        self.index += 1;
        self.col = 0;
        self.row += 1;
    }

    fn current_position(&self) -> (p: Position)
        ensures
            p == self@.cursor,
    {
        Position::new(self.index, self.row, self.col)
    }

    fn remaining_length(&self) -> (n: usize)
        requires
            self.wf(),
        ensures
            n == self@.source.chars.len() - self@.cursor.index,
    {
        self.chars.len() - self.index
    }

    /// The range of the last `lexeme_len` characters consumed, which must
    /// all lie on the current line.
    fn current_range(&self, lexeme_len: usize) -> (r: TextRange)
        requires
            lexeme_len <= self@.cursor.col,
            self@.cursor.col <= self@.cursor.index,
        ensures
            r == stretch(
                self@.source,
                self@.cursor,
                self@.cursor.index - lexeme_len,
                self@.cursor.index as int,
            ),
    {
        TextRange::new(
            Position::new(self.index - lexeme_len, self.row, self.col - lexeme_len),
            Position::new(self.index, self.row, self.col),
            share(&self.file),
        )
    }

    fn new_token(&self, tp: TokenType, lexeme_len: usize) -> (t: Token)
        requires
            lexeme_len <= self@.cursor.col,
            self@.cursor.col <= self@.cursor.index,
        ensures
            t == (Token {
                token_type: tp,
                range: stretch(
                    self@.source,
                    self@.cursor,
                    self@.cursor.index - lexeme_len,
                    self@.cursor.index as int,
                ),
            }),
    {
        Token::new(tp, self.current_range(lexeme_len))
    }

    /// Moves the cursor over the maximal run of `class` characters in front
    /// of it and returns the length of the run.
    fn consume_run(&mut self, class: CharClass) -> (n: usize)
        requires
            old(self).wf(),
        ensures
            final(self).wf(),
            final(self)@.source == old(self)@.source,
            final(self)@.tokens == old(self)@.tokens,
            old(self)@.cursor.index + n == run_end(
                old(self)@.source.chars,
                old(self)@.cursor.index as int,
                class,
            ),
            final(self)@.cursor == old(self)@.cursor.ahead(n as int),
            final(self)@.cursor.index == old(self)@.cursor.index + n,
            final(self)@.cursor.col == old(self)@.cursor.col + n,
    {
        let mut n: usize = 0;
        while self.index < self.chars.len() && class.contains(self.chars[self.index])
            invariant
                old(self).wf(),
                self.wf(),
                self@.source == old(self)@.source,
                self@.tokens == old(self)@.tokens,
                self@.cursor == old(self)@.cursor.ahead(n as int),
                self.index == old(self).index + n,
                run_end(self.chars@, old(self).index as int, class) == run_end(
                    self.chars@,
                    self.index as int,
                    class,
                ),
            decreases self.chars.len() - self.index,
        {
            self.index += 1;
            self.col += 1;
            n += 1;
        }
        n
    }

    /// Consumes the letters and digits in front of the cursor and reports
    /// everything from `start` to there as a malformed register.
    fn invalid_register(&mut self, start: Position) -> (r: Result<(), Stop>)
        requires
            old(self).wf(),
            start.row == old(self)@.cursor.row,
            start.index <= old(self)@.cursor.index,
            start.col <= start.index,
            old(self)@.cursor == at(start, old(self)@.cursor.index as int),
        ensures
            follows(
                old(self)@,
                final(self)@,
                r,
                Step::Fail(
                    LexerError::InvalidRegister(
                        stretch(
                            old(self)@.source,
                            start,
                            start.index as int,
                            run_end(
                                old(self)@.source.chars,
                                old(self)@.cursor.index as int,
                                CharClass::Alphanumeric,
                            ),
                        ),
                    ),
                    at(
                        start,
                        run_end(
                            old(self)@.source.chars,
                            old(self)@.cursor.index as int,
                            CharClass::Alphanumeric,
                        ),
                    ),
                ),
            ),
    {
        let _ = self.consume_run(CharClass::Alphanumeric);
        Err(
            Stop::Error(
                LexerError::InvalidRegister(
                    TextRange::new(start, self.current_position(), share(&self.file)),
                ),
            ),
        )
    }

    /// Reads a register name; the cursor stands just after the `$`.
    fn process_register(&mut self) -> (r: Result<(), Stop>)
        requires
            old(self).wf(),
        ensures
            follows(old(self)@, final(self)@, r, register(old(self)@.source, old(self)@.cursor)),
    {
        let starting_position = self.current_position();
        if self.remaining_length() == 0 {
            return Err(Stop::Error(LexerError::ExpectedRegisterFoundEOF(starting_position)));
        }
        if self.chars[self.index] != 'r' {
            return self.invalid_register(starting_position);
        }
        self.increment();
        let first = match self.current() {
            None => {
                return Err(Stop::Error(LexerError::ExpectedRegisterFoundEOF(starting_position)));
            },
            Some(c) => c,
        };
        if Register::opens_name(first) {
            self.increment();
            let second = match self.current() {
                None => {
                    return Err(
                        Stop::Error(LexerError::ExpectedRegisterFoundEOF(starting_position)),
                    );
                },
                Some(c) => c,
            };
            match Register::named(first, second) {
                Some(reg) => {
                    self.increment();
                    let t = self.new_token(TokenType::Register(reg), 3);
                    self.tokens.push(t);
                    Ok(())
                },
                None => self.invalid_register(starting_position),
            }
        } else if decimal_digit(first) {
            self.increment();
            let extra = self.consume_run(CharClass::Alphanumeric);
            if extra != 0 {
                return Err(
                    Stop::Error(
                        LexerError::InvalidRegister(
                            TextRange::new(
                                starting_position,
                                self.current_position(),
                                share(&self.file),
                            ),
                        ),
                    ),
                );
            }
            let reg = Register::positional(value_of_digit(first));
            let t = self.new_token(TokenType::Register(reg), 2);
            self.tokens.push(t);
            Ok(())
        } else {
            self.invalid_register(starting_position)
        }
    }

    /// Reads a directive name; the cursor stands just after the `%`.
    fn process_directive(&mut self) -> (r: Result<(), Stop>)
        requires
            old(self).wf(),
        ensures
            follows(old(self)@, final(self)@, r, directive(old(self)@.source, old(self)@.cursor)),
    {
        let len = self.consume_run(CharClass::Word);
        if len == 0 {
            return Err(Stop::Error(LexerError::EmptyIdentifier(self.current_position())));
        }
        let range = self.current_range(len);
        match TokenType::match_identifier(&self.chars, self.index - len, self.index) {
            Some(kind) => {
                self.tokens.push(Token::new(kind, range));
                Ok(())
            },
            None => Err(Stop::Error(LexerError::UnknownDirective(range))),
        }
    }

    /// Reads hexadecimal digits; the cursor stands just after `0x`.
    fn process_hex(&mut self) -> (r: Result<(), Stop>)
        requires
            old(self).wf(),
        ensures
            follows(old(self)@, final(self)@, r, hex(old(self)@.source, old(self)@.cursor)),
    {
        let ghost start = self.index as int;
        let mut len: usize = 0;
        let mut n: u64 = 0;
        let mut fits = true;
        while self.index < self.chars.len() && hex_digit(self.chars[self.index])
            invariant
                old(self).wf(),
                self.wf(),
                self@.source == old(self)@.source,
                self@.tokens == old(self)@.tokens,
                self@.cursor == old(self)@.cursor.ahead(len as int),
                start == old(self).index,
                self.index == start + len,
                run_end(self.chars@, start, CharClass::Hex) == run_end(
                    self.chars@,
                    self.index as int,
                    CharClass::Hex,
                ),
                fits ==> n == number(self.chars@.subrange(start, self.index as int), 16),
                !fits ==> number(self.chars@.subrange(start, self.index as int), 16) > u64::MAX,
            decreases self.chars.len() - self.index,
        {
            let d = value_of_digit(self.chars[self.index]) as u64;
            proof {
                number_extends(self.chars@, start, self.index as int, 16);
                number_grows(self.chars@, start, self.index as int, self.index + 1, 16);
            }
            if fits {
                match n.checked_mul(16) {
                    Some(m) => match m.checked_add(d) {
                        Some(v) => {
                            n = v;
                        },
                        None => {
                            fits = false;
                        },
                    },
                    None => {
                        fits = false;
                    },
                }
            }
            self.index += 1;
            self.col += 1;
            len += 1;
        }
        let range = self.current_range(len);
        if len != 0 && fits {
            self.tokens.push(Token::new(TokenType::UnsignedIntegerLiteral(n), range));
            Ok(())
        } else {
            Err(Stop::Error(LexerError::InvalidHexLiteral(range)))
        }
    }

    /// Reads binary digits; the cursor stands just after `0b`. Each digit is
    /// shifted into the value; a sixty-fifth digit ends the pass.
    fn process_binary(&mut self) -> (r: Result<(), Stop>)
        requires
            old(self).wf(),
        ensures
            follows(old(self)@, final(self)@, r, binary(old(self)@.source, old(self)@.cursor)),
    {
        let ghost start = self.index as int;
        let mut n: u64 = 0;
        let mut len: u64 = 0;
        assert(0u64 >> 0u64 == 0u64) by (bit_vector);
        while self.index < self.chars.len() && binary_digit(self.chars[self.index])
            invariant
                old(self).wf(),
                self.wf(),
                self@.source == old(self)@.source,
                self@.tokens == old(self)@.tokens,
                self@.cursor == old(self)@.cursor.ahead(len as int),
                start == old(self).index,
                self.index == start + len,
                len <= 64,
                run_end(self.chars@, start, CharClass::Binary) == run_end(
                    self.chars@,
                    self.index as int,
                    CharClass::Binary,
                ),
                n == number(self.chars@.subrange(start, self.index as int), 2),
                len < 64 ==> n >> len == 0,
            decreases self.chars.len() - self.index,
        {
            let d = value_of_digit(self.chars[self.index]) as u64;
            proof {
                number_extends(self.chars@, start, self.index as int, 2);
                run_end_is_maximal(self.chars@, self.index + 1, CharClass::Binary);
            }
            self.index += 1;
            self.col += 1;
            if len == 64 {
                return Err(Stop::Error(LexerError::InvalidBinaryLiteral(self.current_range(65))));
            }
            assert(n <= 0x7fff_ffff_ffff_ffff && ((n << 1) | d) == 2 * n + d && (len + 1 < 64
                ==> ((n << 1) | d) >> ((len + 1) as u64) == 0)) by (bit_vector)
                requires
                    len < 64,
                    n >> len == 0,
                    d < 2,
            ;
            n = (n << 1) | d;
            len += 1;
        }
        let t = self.new_token(TokenType::UnsignedIntegerLiteral(n), len as usize);
        self.tokens.push(t);
        Ok(())
    }

    /// Reads a signed decimal literal from its sign or first digit.
    fn process_signed(&mut self) -> (r: Result<(), Stop>)
        requires
            old(self).wf(),
        ensures
            follows(old(self)@, final(self)@, r, signed(old(self)@.source, old(self)@.cursor)),
    {
        let ghost start = self.index as int;
        let negative = match self.current() {
            Some(c) => c == '-',
            None => false,
        };
        let mut len: usize = 0;
        if negative {
            self.increment();
            len = 1;
        }
        let ghost first = self.index as int;
        let mut n: i64 = 0;
        let mut digits: usize = 0;
        while self.index < self.chars.len() && decimal_digit(self.chars[self.index])
            invariant
                old(self).wf(),
                self.wf(),
                self@.source == old(self)@.source,
                self@.tokens == old(self)@.tokens,
                self@.cursor == old(self)@.cursor.ahead(len as int),
                start == old(self).index,
                self.index == start + len,
                first + digits == self.index,
                negative == (char_at(self.chars@, start) == Some('-')),
                first == if negative {
                    start + 1
                } else {
                    start
                },
                run_end(self.chars@, first, CharClass::Decimal) == run_end(
                    self.chars@,
                    self.index as int,
                    CharClass::Decimal,
                ),
                0 <= n,
                n == number(self.chars@.subrange(first, self.index as int), 10),
            decreases self.chars.len() - self.index,
        {
            let d = value_of_digit(self.chars[self.index]) as i64;
            proof {
                number_extends(self.chars@, first, self.index as int, 10);
                run_end_is_maximal(self.chars@, self.index + 1, CharClass::Decimal);
            }
            self.index += 1;
            self.col += 1;
            len += 1;
            digits += 1;
            let widened = match n.checked_mul(10) {
                Some(m) => m.checked_add(d),
                None => None,
            };
            match widened {
                Some(v) => {
                    n = v;
                },
                None => {
                    proof {
                        excess_is_found(
                            self.chars@,
                            first,
                            self.index as int,
                            run_end(self.chars@, first, CharClass::Decimal),
                            i64::MAX as nat,
                        );
                    }
                    return Err(
                        Stop::Error(
                            LexerError::InvalidSignedIntegerLiteral(self.current_range(len)),
                        ),
                    );
                },
            }
        }
        if digits == 0 {
            return Err(
                Stop::Error(
                    LexerError::InvalidSignedIntegerLiteral(
                        TextRange::new(
                            self.current_position(),
                            self.current_position(),
                            share(&self.file),
                        ),
                    ),
                ),
            );
        }
        if negative {
            n = -n;
        }
        let t = self.new_token(TokenType::SignedIntegerLiteral(n), len);
        self.tokens.push(t);
        Ok(())
    }

    /// Reads an unsigned decimal literal from its first digit.
    fn process_unsigned(&mut self) -> (r: Result<(), Stop>)
        requires
            old(self).wf(),
        ensures
            follows(old(self)@, final(self)@, r, unsigned(old(self)@.source, old(self)@.cursor)),
    {
        let ghost start = self.index as int;
        let mut len: usize = 0;
        let mut n: u64 = 0;
        while self.index < self.chars.len() && decimal_digit(self.chars[self.index])
            invariant
                old(self).wf(),
                self.wf(),
                self@.source == old(self)@.source,
                self@.tokens == old(self)@.tokens,
                self@.cursor == old(self)@.cursor.ahead(len as int),
                start == old(self).index,
                self.index == start + len,
                run_end(self.chars@, start, CharClass::Decimal) == run_end(
                    self.chars@,
                    self.index as int,
                    CharClass::Decimal,
                ),
                n == number(self.chars@.subrange(start, self.index as int), 10),
            decreases self.chars.len() - self.index,
        {
            let d = value_of_digit(self.chars[self.index]) as u64;
            proof {
                number_extends(self.chars@, start, self.index as int, 10);
                run_end_is_maximal(self.chars@, self.index + 1, CharClass::Decimal);
            }
            self.index += 1;
            self.col += 1;
            len += 1;
            let widened = match n.checked_mul(10) {
                Some(m) => m.checked_add(d),
                None => None,
            };
            match widened {
                Some(v) => {
                    n = v;
                },
                None => {
                    proof {
                        excess_is_found(
                            self.chars@,
                            start,
                            self.index as int,
                            run_end(self.chars@, start, CharClass::Decimal),
                            u64::MAX as nat,
                        );
                    }
                    return Err(
                        Stop::Error(
                            LexerError::InvalidUnsignedIntegerLiteral(self.current_range(len)),
                        ),
                    );
                },
            }
        }
        if len == 0 {
            return Err(
                Stop::Error(
                    LexerError::InvalidSignedIntegerLiteral(
                        TextRange::new(
                            self.current_position(),
                            self.current_position(),
                            share(&self.file),
                        ),
                    ),
                ),
            );
        }
        let t = self.new_token(TokenType::UnsignedIntegerLiteral(n), len);
        self.tokens.push(t);
        Ok(())
    }

    /// Reads an identifier from its first character, and looks it up among
    /// the mnemonics unless an underscore rules that out.
    fn process_identifier(&mut self) -> (r: Result<(), Stop>)
        requires
            old(self).wf(),
        ensures
            follows(old(self)@, final(self)@, r, identifier(old(self)@.source, old(self)@.cursor)),
    {
        let ghost start = self.index as int;
        let mut len: usize = 0;
        let mut possible_opcode = true;
        while self.index < self.chars.len() && word_char(self.chars[self.index])
            invariant
                old(self).wf(),
                self.wf(),
                self@.source == old(self)@.source,
                self@.tokens == old(self)@.tokens,
                self@.cursor == old(self)@.cursor.ahead(len as int),
                start == old(self).index,
                self.index == start + len,
                run_end(self.chars@, start, CharClass::Word) == run_end(
                    self.chars@,
                    self.index as int,
                    CharClass::Word,
                ),
                possible_opcode == !self.chars@.subrange(start, self.index as int).contains('_'),
            decreases self.chars.len() - self.index,
        {
            proof {
                contains_extends(self.chars@, start, self.index as int, '_');
            }
            if self.chars[self.index] == '_' {
                possible_opcode = false;
            }
            self.index += 1;
            self.col += 1;
            len += 1;
        }
        if len == 0 {
            return Err(Stop::Error(LexerError::EmptyIdentifier(self.current_position())));
        }
        if possible_opcode {
            match resolve(&self.mnemonics, &self.chars, self.index - len, self.index) {
                Some(code) => {
                    let t = self.new_token(TokenType::Opcode(code), len);
                    self.tokens.push(t);
                    return Ok(());
                },
                None => {},
            }
        }
        let t = self.new_token(TokenType::Identifier, len);
        self.tokens.push(t);
        Ok(())
    }

    /// A floating-point literal: not read. The pass stops where it begins.
    fn process_float(&mut self) -> (r: Result<(), Stop>)
        requires
            old(self).wf(),
        ensures
            follows(old(self)@, final(self)@, r, Step::Float),
    {
        Err(Stop::Float)
    }

    /// Reads a number that has no base prefix, as the configured mode says.
    fn process_default_numeric(&mut self) -> (r: Result<(), Stop>)
        requires
            old(self).wf(),
        ensures
            follows(
                old(self)@,
                final(self)@,
                r,
                default_numeric(old(self)@.source, old(self)@.cursor),
            ),
    {
        match self.default_numeric {
            NumericType::Signed => self.process_signed(),
            NumericType::Unsigned => {
                let minus = match self.current() {
                    Some(c) => c == '-',
                    None => false,
                };
                if minus {
                    return Err(
                        Stop::Error(LexerError::UnexpectedCharacter('-', self.current_position())),
                    );
                }
                self.process_unsigned()
            },
            NumericType::Float => self.process_float(),
        }
    }

    /// Reads a literal that begins with `0`, which the next character may
    /// give a base.
    fn process_zero_led(&mut self) -> (r: Result<(), Stop>)
        requires
            old(self).wf(),
            old(self)@.cursor.index < old(self)@.source.chars.len(),
        ensures
            follows(old(self)@, final(self)@, r, zero_led(old(self)@.source, old(self)@.cursor)),
    {
        match self.peek() {
            Some('x') => {
                self.increment();
                self.increment();
                self.process_hex()
            },
            Some('b') => {
                self.increment();
                self.increment();
                self.process_binary()
            },
            Some('i') => {
                self.increment();
                self.increment();
                self.process_signed()
            },
            Some('u') => {
                self.increment();
                self.increment();
                self.process_unsigned()
            },
            Some('f') => self.process_float(),
            _ => self.process_default_numeric(),
        }
    }

    /// Reads the lexeme that begins with `c`, the character under the cursor.
    fn process_lexeme(&mut self, c: char) -> (r: Result<(), Stop>)
        requires
            old(self).wf(),
            char_at(old(self)@.source.chars, old(self)@.cursor.index as int) == Some(c),
        ensures
            follows(old(self)@, final(self)@, r, step(old(self)@.source, old(self)@.cursor)),
    {
        match c {
            '\n' => {
                self.increment_row();
                Ok(())
            },
            '%' => {
                self.increment();
                self.process_directive()
            },
            '#' => {
                self.increment();
                let _ = self.consume_run(CharClass::Comment);
                Ok(())
            },
            ',' => {
                self.increment();
                let t = self.new_token(TokenType::Comma, 1);
                self.tokens.push(t);
                Ok(())
            },
            ':' => {
                self.increment();
                let t = self.new_token(TokenType::Colon, 1);
                self.tokens.push(t);
                Ok(())
            },
            '$' => {
                self.increment();
                self.process_register()
            },
            '0' => self.process_zero_led(),
            _ => {
                if whitespace(c) {
                    self.increment();
                    Ok(())
                } else if word_char(c) {
                    self.process_identifier()
                } else if decimal_digit(c) || c == '-' {
                    self.process_default_numeric()
                } else {
                    Err(Stop::Error(LexerError::UnexpectedCharacter(c, self.current_position())))
                }
            },
        }
    }

    /// What lexing from the current state comes to.
    pub open spec fn outcome(self) -> Outcome {
        lex(self@.source, self@.cursor, self@.tokens)
    }

    /// Drives the tokenizer to the end of the text, to the first error, or
    /// to the first floating-point literal.
    fn scan(&mut self) -> (r: Result<(), Stop>)
        requires
            old(self).wf(),
        ensures
            final(self).wf(),
            final(self)@.source == old(self)@.source,
            ends_as(final(self)@, r, old(self).outcome()),
    {
        while self.index < self.chars.len()
            invariant
                self.wf(),
                self@.source == old(self)@.source,
                self.outcome() == old(self).outcome(),
            decreases self.chars.len() - self.index,
        {
            let c = self.chars[self.index];
            proof {
                step_advances(self@.source, self@.cursor);
            }
            match self.process_lexeme(c) {
                Ok(()) => {},
                Err(stop) => {
                    return Err(stop);
                },
            }
        }
        Ok(())
    }

    /// Tokenizes the rest of the text. On success the cursor stands at the
    /// end and every token has been appended; on an error the tokens read
    /// before it stay and the cursor stands where the step left it.
    ///
    /// Floating-point literals are not read: a text in which the pass would
    /// meet one is outside what this function accepts.
    pub fn process(&mut self) -> (r: Result<(), LexerError>)
        requires
            old(self).wf(),
            !(old(self).outcome() is Float),
        ensures
            final(self).wf(),
            final(self)@.source == old(self)@.source,
            final(self)@.tokens == old(self).outcome().tokens(),
            final(self)@.cursor == old(self).outcome().cursor(),
            match old(self).outcome() {
                Outcome::Done { .. } => r is Ok,
                Outcome::Failed { error, .. } => r is Err && r.unwrap_err() == error,
                Outcome::Float { .. } => false,
            },
    {
        match self.scan() {
            Ok(()) => Ok(()),
            Err(Stop::Error(error)) => Err(error),
            Err(Stop::Float) => unreached(),
        }
    }

    /// Tokenizes the rest of the text if no floating-point literal stands
    /// in the way; otherwise changes nothing and returns `None`.
    pub fn try_process(&mut self) -> (r: Option<Result<(), LexerError>>)
        requires
            old(self).wf(),
        ensures
            final(self).wf(),
            final(self)@.source == old(self)@.source,
            match old(self).outcome() {
                Outcome::Done { tokens, cursor } => r is Some && r.unwrap() is Ok
                    && final(self)@.tokens == tokens && final(self)@.cursor == cursor,
                Outcome::Failed { tokens, error, cursor } => r is Some && r.unwrap() is Err
                    && r.unwrap().unwrap_err() == error && final(self)@.tokens == tokens
                    && final(self)@.cursor == cursor,
                Outcome::Float { .. } => r is None && final(self)@ == old(self)@,
            },
    {
        let index = self.index;
        let row = self.row;
        let col = self.col;
        let mark = self.tokens.len();
        proof {
            lex_keeps_emitted(self@.source, self@.cursor, self@.tokens);
        }
        let probe = self.scan();
        self.index = index;
        self.row = row;
        self.col = col;
        self.tokens.truncate(mark);
        assert(self@.tokens =~= old(self)@.tokens);
        match probe {
            Err(Stop::Float) => {
                return None;
            },
            _ => {},
        }
        Some(self.process())
    }

    /// Tokenizes a whole text, reading unprefixed numbers as unsigned.
    ///
    /// Returns the tokens in source order, or the first lexical error.
    /// Floating-point literals are not read: a text in which the pass would
    /// meet one is outside what this function accepts.
    pub fn tokenize(chars: Vec<char>, file: Rc<FileInfo>, mnemonics: Vec<Mnemonic>) -> (r: Result<
        Vec<Token>,
        LexerError,
    >)
        requires
            !(lex_all(unsigned_source(chars@, file, mnemonics@)) is Float),
        ensures
            match lex_all(unsigned_source(chars@, file, mnemonics@)) {
                Outcome::Done { tokens, .. } => r is Ok && r.unwrap()@ == tokens,
                Outcome::Failed { error, .. } => r is Err && r.unwrap_err() == error,
                Outcome::Float { .. } => false,
            },
    {
        let mut lexer = Lexer::new(chars, file, NumericType::Unsigned, mnemonics);
        match lexer.process() {
            Ok(()) => Ok(lexer.into_tokens()),
            Err(error) => Err(error),
        }
    }

    /// Tokenizes a whole text as [`Lexer::tokenize`] does, unless the pass
    /// would meet a floating-point literal: then the answer is `None`.
    pub fn try_tokenize(chars: Vec<char>, file: Rc<FileInfo>, mnemonics: Vec<Mnemonic>) -> (r:
        Option<Result<Vec<Token>, LexerError>>)
        ensures
            match lex_all(unsigned_source(chars@, file, mnemonics@)) {
                Outcome::Done { tokens, .. } => r is Some && r.unwrap() is Ok
                    && r.unwrap().unwrap()@ == tokens,
                Outcome::Failed { error, .. } => r is Some && r.unwrap() is Err
                    && r.unwrap().unwrap_err() == error,
                Outcome::Float { .. } => r is None,
            },
    {
        let mut lexer = Lexer::new(chars, file, NumericType::Unsigned, mnemonics);
        let probe = lexer.scan();
        match probe {
            Err(Stop::Float) => None,
            _ => {
                let Lexer { chars, file, mnemonics, .. } = lexer;
                Some(Lexer::tokenize(chars, file, mnemonics))
            },
        }
    }
}

} // verus!
