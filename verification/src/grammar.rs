//! The lexical grammar, as mathematics: what one lexeme is, read at a given
//! place of a given text, and what a whole text lexes to.
//!
//! A step starts at a cursor and either moves it on, with or without a token,
//! or stops with an error. Nothing here runs; the tokenizer is proved to do
//! what these functions say.

use crate::chars::{
    alphanumeric, binary_digit, decimal_digit, digit_value, hex_digit, is_alphanumeric,
    is_binary_digit, is_decimal_digit, is_hex_digit, is_whitespace, is_word_char, word_char,
};
use crate::lexer::{LexerError, NumericType};
use crate::mnemonics::{opcode_of, Mnemonic};
use crate::register::Register;
use crate::text_mapping::{FileInfo, Position, TextRange};
use crate::token::{directive_of, Token, TokenType};
use std::rc::Rc;
use vstd::prelude::*;

verus! {

/// What a tokenizer is given and never changes: the text, the handle of the
/// file it came from, how unprefixed numbers are read, and the mnemonic table.
pub struct Source {
    pub chars: Seq<char>,
    pub file: Rc<FileInfo>,
    pub mode: NumericType,
    pub mnemonics: Seq<Mnemonic>,
}

/// The sets of characters that lexemes are maximal runs of.
#[derive(Clone, Copy, Debug, PartialEq, Eq, Structural)]
pub enum CharClass {
    /// Letters and the underscore.
    Word,
    /// Letters and digits of any script.
    Alphanumeric,
    Decimal,
    Hex,
    Binary,
    /// Everything but the line feed: the body of a comment.
    Comment,
}

impl CharClass {
    pub open spec fn holds(self, c: char) -> bool {
        match self {
            CharClass::Word => is_word_char(c),
            CharClass::Alphanumeric => is_alphanumeric(c),
            CharClass::Decimal => is_decimal_digit(c),
            CharClass::Hex => is_hex_digit(c),
            CharClass::Binary => is_binary_digit(c),
            CharClass::Comment => c != '\n',
        }
    }

    pub fn contains(self, c: char) -> (b: bool)
        ensures
            b == self.holds(c),
    {
        match self {
            CharClass::Word => word_char(c),
            CharClass::Alphanumeric => alphanumeric(c),
            CharClass::Decimal => decimal_digit(c),
            CharClass::Hex => hex_digit(c),
            CharClass::Binary => binary_digit(c),
            CharClass::Comment => c != '\n',
        }
    }
}

/// Where the maximal run of `class` characters that starts at `from` ends.
pub open spec fn run_end(chars: Seq<char>, from: int, class: CharClass) -> int
    decreases chars.len() - from,
{
    if 0 <= from < chars.len() && class.holds(chars[from]) {
        run_end(chars, from + 1, class)
    } else {
        from
    }
}

/// A maximal run lies within the text, holds only characters of its class,
/// and stops at the end of the text or at a character outside the class.
pub proof fn run_end_is_maximal(chars: Seq<char>, from: int, class: CharClass)
    requires
        0 <= from <= chars.len(),
    ensures
        from <= run_end(chars, from, class) <= chars.len(),
        forall|j: int| from <= j < run_end(chars, from, class) ==> class.holds(#[trigger] chars[j]),
        run_end(chars, from, class) < chars.len() ==> !class.holds(
            chars[run_end(chars, from, class)],
        ),
    decreases chars.len() - from,
{
    if from < chars.len() && class.holds(chars[from]) {
        run_end_is_maximal(chars, from + 1, class);
    }
}

/// The number that a string of digits writes in a base, most significant
/// digit first.
pub open spec fn number(digits: Seq<char>, base: nat) -> nat
    decreases digits.len(),
{
    if digits.len() == 0 {
        0
    } else {
        number(digits.drop_last(), base) * base + digit_value(digits.last())
    }
}

/// Reading one more digit multiplies by the base and adds the digit.
pub proof fn number_extends(chars: Seq<char>, from: int, to: int, base: nat)
    requires
        0 <= from <= to < chars.len(),
    ensures
        number(chars.subrange(from, to + 1), base) == number(chars.subrange(from, to), base)
            * base + digit_value(chars[to]),
{
    assert(chars.subrange(from, to + 1).drop_last() =~= chars.subrange(from, to));
}

/// A longer string of digits writes no smaller a number than its prefix.
pub proof fn number_grows(chars: Seq<char>, from: int, mid: int, to: int, base: nat)
    requires
        0 <= from <= mid <= to <= chars.len(),
        base >= 1,
    ensures
        number(chars.subrange(from, mid), base) <= number(chars.subrange(from, to), base),
    decreases to - mid,
{
    if mid < to {
        number_grows(chars, from, mid, to - 1, base);
        number_extends(chars, from, to - 1, base);
        let shorter = number(chars.subrange(from, to - 1), base);
        assert(shorter * base >= shorter) by (nonlinear_arith)
            requires
                base >= 1,
        ;
    }
}

/// Once a prefix exceeds the limit while the prefix one digit shorter does
/// not, every longer string exceeds it, and that prefix is the shortest.
pub proof fn excess_is_found(chars: Seq<char>, from: int, stop: int, to: int, limit: nat)
    requires
        0 <= from < stop <= to <= chars.len(),
        number(chars.subrange(from, stop - 1), 10) <= limit,
        number(chars.subrange(from, stop), 10) > limit,
    ensures
        number(chars.subrange(from, to), 10) > limit,
        from + excess_len(chars.subrange(from, to), limit) == stop,
    decreases to - stop,
{
    assert(chars.subrange(from, to).drop_last() =~= chars.subrange(from, to - 1));
    if stop < to {
        excess_is_found(chars, from, stop, to - 1, limit);
        number_grows(chars, from, to - 1, to, 10);
    }
}

/// For digits whose number exceeds `limit`: the length of the shortest
/// prefix whose number already does.
pub open spec fn excess_len(digits: Seq<char>, limit: nat) -> int
    decreases digits.len(),
{
    if digits.len() == 0 {
        0
    } else if number(digits.drop_last(), 10) > limit {
        excess_len(digits.drop_last(), limit)
    } else {
        digits.len() as int
    }
}

/// The result of reading one lexeme.
pub enum Step {
    /// Nothing to emit; the cursor moves to the given place.
    Skip(Position),
    /// A token, and the place just after it.
    Emit(Token, Position),
    /// A lexical error, and where the cursor was left.
    Fail(LexerError, Position),
    /// A floating-point literal begins under the cursor; reading those is
    /// not supported.
    Float,
}

/// The place at offset `to` on the line of `p`.
pub open spec fn at(p: Position, to: int) -> Position {
    p.ahead(to - p.index)
}

/// The range from offset `from` up to offset `to` on the line of `p`.
pub open spec fn stretch(src: Source, p: Position, from: int, to: int) -> TextRange {
    TextRange { start: at(p, from), end: at(p, to), file: src.file }
}

pub open spec fn token(src: Source, p: Position, kind: TokenType, from: int, to: int) -> Token {
    Token { token_type: kind, range: stretch(src, p, from, to) }
}

/// A directive name, read just after its `%`.
pub open spec fn directive(src: Source, p: Position) -> Step {
    let start = p.index as int;
    let end = run_end(src.chars, start, CharClass::Word);
    if end == start {
        Step::Fail(LexerError::EmptyIdentifier(p), p)
    } else {
        match directive_of(src.chars.subrange(start, end)) {
            Some(kind) => Step::Emit(token(src, p, kind, start, end), at(p, end)),
            None => Step::Fail(
                LexerError::UnknownDirective(stretch(src, p, start, end)),
                at(p, end),
            ),
        }
    }
}

/// The body of a comment, read just after its `#`: everything up to the
/// line feed, which stays.
pub open spec fn comment(src: Source, p: Position) -> Step {
    Step::Skip(at(p, run_end(src.chars, p.index as int, CharClass::Comment)))
}

/// The error for a malformed register: its range runs from just after the
/// `$` to the end of the letters and digits found from `from` on.
pub open spec fn bad_register(src: Source, p: Position, from: int) -> Step {
    let end = run_end(src.chars, from, CharClass::Alphanumeric);
    Step::Fail(LexerError::InvalidRegister(stretch(src, p, p.index as int, end)), at(p, end))
}

/// A register name, read just after its `$`: `r` and one digit, which must
/// not run on into more letters or digits, or `r` and a two-letter name.
pub open spec fn register(src: Source, p: Position) -> Step {
    let start = p.index as int;
    let chars = src.chars;
    if start >= chars.len() {
        Step::Fail(LexerError::ExpectedRegisterFoundEOF(p), p)
    } else if chars[start] != 'r' {
        bad_register(src, p, start)
    } else if start + 1 >= chars.len() {
        Step::Fail(LexerError::ExpectedRegisterFoundEOF(p), at(p, start + 1))
    } else if Register::spec_opens_name(chars[start + 1]) {
        if start + 2 >= chars.len() {
            Step::Fail(LexerError::ExpectedRegisterFoundEOF(p), at(p, start + 2))
        } else {
            match Register::spec_named(chars[start + 1], chars[start + 2]) {
                Some(r) => Step::Emit(
                    token(src, p, TokenType::Register(r), start, start + 3),
                    at(p, start + 3),
                ),
                None => bad_register(src, p, start + 2),
            }
        }
    } else if is_decimal_digit(chars[start + 1]) {
        if run_end(chars, start + 2, CharClass::Alphanumeric) != start + 2 {
            bad_register(src, p, start + 2)
        } else {
            Step::Emit(
                token(
                    src,
                    p,
                    TokenType::Register(Register::spec_positional(digit_value(chars[start + 1]))),
                    start,
                    start + 2,
                ),
                at(p, start + 2),
            )
        }
    } else {
        bad_register(src, p, start + 1)
    }
}

/// Hexadecimal digits, read just after `0x`: at least one, and their number
/// must fit in 64 bits.
pub open spec fn hex(src: Source, p: Position) -> Step {
    let start = p.index as int;
    let end = run_end(src.chars, start, CharClass::Hex);
    let value = number(src.chars.subrange(start, end), 16);
    if end == start || value > u64::MAX {
        Step::Fail(LexerError::InvalidHexLiteral(stretch(src, p, start, end)), at(p, end))
    } else {
        Step::Emit(
            token(src, p, TokenType::UnsignedIntegerLiteral(value as u64), start, end),
            at(p, end),
        )
    }
}

/// Binary digits, read just after `0b`: at most sixty-four. A sixty-fifth
/// digit is an error over the digits up to and including it.
pub open spec fn binary(src: Source, p: Position) -> Step {
    let start = p.index as int;
    let end = run_end(src.chars, start, CharClass::Binary);
    if end - start > 64 {
        Step::Fail(
            LexerError::InvalidBinaryLiteral(stretch(src, p, start, start + 65)),
            at(p, start + 65),
        )
    } else {
        Step::Emit(
            token(
                src,
                p,
                TokenType::UnsignedIntegerLiteral(
                    number(src.chars.subrange(start, end), 2) as u64,
                ),
                start,
                end,
            ),
            at(p, end),
        )
    }
}

/// A signed decimal literal: an optional `-`, then at least one digit. The
/// digits must write a number that fits a signed 64-bit integer; the sign is
/// applied afterwards. On overflow the error covers the literal up to and
/// including the first digit that was too much.
pub open spec fn signed(src: Source, p: Position) -> Step {
    let start = p.index as int;
    let negative = start < src.chars.len() && src.chars[start] == '-';
    let first = if negative {
        start + 1
    } else {
        start
    };
    let end = run_end(src.chars, first, CharClass::Decimal);
    let digits = src.chars.subrange(first, end);
    if end == first {
        Step::Fail(
            LexerError::InvalidSignedIntegerLiteral(stretch(src, p, first, first)),
            at(p, first),
        )
    } else if number(digits, 10) > i64::MAX {
        let stop = first + excess_len(digits, i64::MAX as nat);
        Step::Fail(
            LexerError::InvalidSignedIntegerLiteral(stretch(src, p, start, stop)),
            at(p, stop),
        )
    } else {
        let value = if negative {
            -(number(digits, 10) as int)
        } else {
            number(digits, 10) as int
        };
        Step::Emit(
            token(src, p, TokenType::SignedIntegerLiteral(value as i64), start, end),
            at(p, end),
        )
    }
}

/// An unsigned decimal literal: at least one digit, writing a number that
/// fits in 64 bits. Where no digit stands, the error is the one that a
/// signed literal without digits gets.
pub open spec fn unsigned(src: Source, p: Position) -> Step {
    let start = p.index as int;
    let end = run_end(src.chars, start, CharClass::Decimal);
    let digits = src.chars.subrange(start, end);
    if end == start {
        Step::Fail(
            LexerError::InvalidSignedIntegerLiteral(stretch(src, p, start, start)),
            p,
        )
    } else if number(digits, 10) > u64::MAX {
        let stop = start + excess_len(digits, u64::MAX as nat);
        Step::Fail(
            LexerError::InvalidUnsignedIntegerLiteral(stretch(src, p, start, stop)),
            at(p, stop),
        )
    } else {
        Step::Emit(
            token(
                src,
                p,
                TokenType::UnsignedIntegerLiteral(number(digits, 10) as u64),
                start,
                end,
            ),
            at(p, end),
        )
    }
}

/// A number without a base prefix, read as the configured mode says. An
/// unsigned tokenizer does not fall back to signed reading on a `-`.
pub open spec fn default_numeric(src: Source, p: Position) -> Step {
    match src.mode {
        NumericType::Signed => signed(src, p),
        NumericType::Unsigned => {
            if p.index < src.chars.len() && src.chars[p.index as int] == '-' {
                Step::Fail(LexerError::UnexpectedCharacter('-', p), p)
            } else {
                unsigned(src, p)
            }
        },
        NumericType::Float => Step::Float,
    }
}

/// An identifier: a maximal run of letters and underscores. A run without
/// an underscore that the mnemonic table lists is an opcode.
pub open spec fn identifier(src: Source, p: Position) -> Step {
    let start = p.index as int;
    let end = run_end(src.chars, start, CharClass::Word);
    let name = src.chars.subrange(start, end);
    if end == start {
        Step::Fail(LexerError::EmptyIdentifier(p), p)
    } else {
        let kind = if name.contains('_') {
            TokenType::Identifier
        } else {
            match opcode_of(src.mnemonics, name) {
                Some(code) => TokenType::Opcode(code),
                None => TokenType::Identifier,
            }
        };
        Step::Emit(token(src, p, kind, start, end), at(p, end))
    }
}

/// A literal that begins with `0`: the next character may select a base.
pub open spec fn zero_led(src: Source, p: Position) -> Step {
    let next = p.index + 1;
    if next >= src.chars.len() {
        default_numeric(src, p)
    } else if src.chars[next] == 'x' {
        hex(src, p.ahead(2))
    } else if src.chars[next] == 'b' {
        binary(src, p.ahead(2))
    } else if src.chars[next] == 'i' {
        signed(src, p.ahead(2))
    } else if src.chars[next] == 'u' {
        unsigned(src, p.ahead(2))
    } else if src.chars[next] == 'f' {
        Step::Float
    } else {
        default_numeric(src, p)
    }
}

/// One lexeme, chosen by the character under the cursor.
pub open spec fn step(src: Source, p: Position) -> Step
    recommends
        p.index < src.chars.len(),
{
    let c = src.chars[p.index as int];
    if c == '\n' {
        Step::Skip(p.next_line())
    } else if c == '%' {
        directive(src, p.ahead(1))
    } else if c == '#' {
        comment(src, p.ahead(1))
    } else if c == ',' {
        Step::Emit(token(src, p, TokenType::Comma, p.index as int, p.index + 1), p.ahead(1))
    } else if c == ':' {
        Step::Emit(token(src, p, TokenType::Colon, p.index as int, p.index + 1), p.ahead(1))
    } else if c == '$' {
        register(src, p.ahead(1))
    } else if c == '0' {
        zero_led(src, p)
    } else if is_whitespace(c) {
        Step::Skip(p.ahead(1))
    } else if is_word_char(c) {
        identifier(src, p)
    } else if is_decimal_digit(c) || c == '-' {
        default_numeric(src, p)
    } else {
        Step::Fail(LexerError::UnexpectedCharacter(c, p), p)
    }
}

/// How lexing a text ends.
pub enum Outcome {
    /// The end of the text was reached.
    Done { tokens: Seq<Token>, cursor: Position },
    /// A lexeme was in error; the tokens before it stand.
    Failed { tokens: Seq<Token>, error: LexerError, cursor: Position },
    /// A floating-point literal was met; the cursor stands at its start.
    Float { tokens: Seq<Token>, cursor: Position },
}

impl Outcome {
    /// The tokens emitted by the time lexing ended.
    pub open spec fn tokens(self) -> Seq<Token> {
        match self {
            Outcome::Done { tokens, .. } => tokens,
            Outcome::Failed { tokens, .. } => tokens,
            Outcome::Float { tokens, .. } => tokens,
        }
    }

    /// Where the cursor stood when lexing ended.
    pub open spec fn cursor(self) -> Position {
        match self {
            Outcome::Done { cursor, .. } => cursor,
            Outcome::Failed { cursor, .. } => cursor,
            Outcome::Float { cursor, .. } => cursor,
        }
    }
}

/// Lexing from a cursor to the end of the text or to the first error, with
/// the tokens emitted so far in hand.
pub open spec fn lex(src: Source, p: Position, emitted: Seq<Token>) -> Outcome
    decreases src.chars.len() - p.index,
{
    if p.index >= src.chars.len() {
        Outcome::Done { tokens: emitted, cursor: p }
    } else {
        match step(src, p) {
            Step::Skip(q) => if p.index < q.index <= src.chars.len() {
                lex(src, q, emitted)
            } else {
                Outcome::Done { tokens: emitted, cursor: q }
            },
            Step::Emit(t, q) => if p.index < q.index <= src.chars.len() {
                lex(src, q, emitted.push(t))
            } else {
                Outcome::Done { tokens: emitted.push(t), cursor: q }
            },
            Step::Fail(error, q) => Outcome::Failed { tokens: emitted, error, cursor: q },
            Step::Float => Outcome::Float { tokens: emitted, cursor: p },
        }
    }
}

/// A step leaves the cursor in the text, at or after a given offset. A
/// token it emits lies on one line, starts at or after that offset, and
/// ends where the cursor is left.
pub open spec fn lands(src: Source, least: int, s: Step) -> bool {
    match s {
        Step::Skip(q) => least <= q.index && in_text(src, q),
        Step::Emit(t, q) => {
            &&& least <= t.range.start.index
            &&& t.range.single_line()
            &&& t.range.end == q
            &&& t.range.file == src.file
            &&& in_text(src, q)
        },
        Step::Fail(_, q) => least <= q.index && in_text(src, q),
        Step::Float => true,
    }
}

/// A step that emits a token moves the cursor.
pub open spec fn emits_forward(p: Position, s: Step) -> bool {
    match s {
        Step::Emit(_, q) => p.index < q.index,
        _ => true,
    }
}

pub proof fn directive_lands(src: Source, p: Position)
    requires
        in_text(src, p),
    ensures
        lands(src, p.index as int, directive(src, p)),
{
    run_end_is_maximal(src.chars, p.index as int, CharClass::Word);
}

pub proof fn comment_lands(src: Source, p: Position)
    requires
        in_text(src, p),
    ensures
        lands(src, p.index as int, comment(src, p)),
{
    run_end_is_maximal(src.chars, p.index as int, CharClass::Comment);
}

pub proof fn register_lands(src: Source, p: Position)
    requires
        in_text(src, p),
    ensures
        lands(src, p.index as int, register(src, p)),
{
    let i = p.index as int;
    run_end_is_maximal(src.chars, i, CharClass::Alphanumeric);
    if i + 1 <= src.chars.len() {
        run_end_is_maximal(src.chars, i + 1, CharClass::Alphanumeric);
    }
    if i + 2 <= src.chars.len() {
        run_end_is_maximal(src.chars, i + 2, CharClass::Alphanumeric);
    }
}

pub proof fn hex_lands(src: Source, p: Position)
    requires
        in_text(src, p),
    ensures
        lands(src, p.index as int, hex(src, p)),
{
    run_end_is_maximal(src.chars, p.index as int, CharClass::Hex);
}

pub proof fn binary_lands(src: Source, p: Position)
    requires
        in_text(src, p),
    ensures
        lands(src, p.index as int, binary(src, p)),
{
    run_end_is_maximal(src.chars, p.index as int, CharClass::Binary);
}

pub proof fn signed_lands(src: Source, p: Position)
    requires
        in_text(src, p),
    ensures
        lands(src, p.index as int, signed(src, p)),
        emits_forward(p, signed(src, p)),
{
    let start = p.index as int;
    let first = if start < src.chars.len() && src.chars[start] == '-' {
        start + 1
    } else {
        start
    };
    run_end_is_maximal(src.chars, first, CharClass::Decimal);
    excess_is_within(
        src.chars.subrange(first, run_end(src.chars, first, CharClass::Decimal)),
        i64::MAX as nat,
    );
}

pub proof fn unsigned_lands(src: Source, p: Position)
    requires
        in_text(src, p),
    ensures
        lands(src, p.index as int, unsigned(src, p)),
        emits_forward(p, unsigned(src, p)),
{
    let start = p.index as int;
    run_end_is_maximal(src.chars, start, CharClass::Decimal);
    excess_is_within(
        src.chars.subrange(start, run_end(src.chars, start, CharClass::Decimal)),
        u64::MAX as nat,
    );
}

pub proof fn default_numeric_lands(src: Source, p: Position)
    requires
        in_text(src, p),
    ensures
        lands(src, p.index as int, default_numeric(src, p)),
        emits_forward(p, default_numeric(src, p)),
{
    signed_lands(src, p);
    unsigned_lands(src, p);
}

pub proof fn identifier_lands(src: Source, p: Position)
    requires
        in_text(src, p),
    ensures
        lands(src, p.index as int, identifier(src, p)),
        emits_forward(p, identifier(src, p)),
{
    run_end_is_maximal(src.chars, p.index as int, CharClass::Word);
}

pub proof fn zero_led_lands(src: Source, p: Position)
    requires
        in_text(src, p),
        p.index < src.chars.len(),
    ensures
        lands(src, p.index as int, zero_led(src, p)),
        emits_forward(p, zero_led(src, p)),
{
    default_numeric_lands(src, p);
    if p.index + 1 < src.chars.len() {
        hex_lands(src, p.ahead(2));
        binary_lands(src, p.ahead(2));
        signed_lands(src, p.ahead(2));
        unsigned_lands(src, p.ahead(2));
    }
}

/// Every lexeme that does not end the pass moves the cursor forward, and
/// every lexeme leaves it in the text.
pub proof fn step_advances(src: Source, p: Position)
    requires
        in_text(src, p),
        p.index < src.chars.len(),
    ensures
        lands(src, p.index as int, step(src, p)),
        match step(src, p) {
            Step::Skip(q) => p.index < q.index,
            Step::Emit(_, q) => p.index < q.index,
            _ => true,
        },
{
    let c = src.chars[p.index as int];
    if c == '%' {
        directive_lands(src, p.ahead(1));
    } else if c == '#' {
        comment_lands(src, p.ahead(1));
    } else if c == '$' {
        register_lands(src, p.ahead(1));
    } else if c == '0' {
        zero_led_lands(src, p);
    } else if c == '\n' || c == ',' || c == ':' || is_whitespace(c) {
    } else if is_word_char(c) {
        identifier_lands(src, p);
    } else {
        default_numeric_lands(src, p);
    }
}

/// The shortest exceeding prefix is a prefix: no longer than the digits.
pub proof fn excess_is_within(digits: Seq<char>, limit: nat)
    ensures
        0 <= excess_len(digits, limit) <= digits.len(),
        number(digits, 10) > limit ==> excess_len(digits, limit) >= 1,
    decreases digits.len(),
{
    if digits.len() > 0 {
        excess_is_within(digits.drop_last(), limit);
    }
}

/// Lexing never takes back a token: what was emitted before stays, in
/// order, at the front of what is emitted in the end.
pub proof fn lex_keeps_emitted(src: Source, p: Position, emitted: Seq<Token>)
    ensures
        emitted.len() <= lex(src, p, emitted).tokens().len(),
        lex(src, p, emitted).tokens().subrange(0, emitted.len() as int) == emitted,
    decreases src.chars.len() - p.index,
{
    assert(emitted.subrange(0, emitted.len() as int) =~= emitted);
    assert(emitted.push(arbitrary()).subrange(0, emitted.len() as int) =~= emitted);
    if p.index < src.chars.len() {
        match step(src, p) {
            Step::Skip(q) => {
                if p.index < q.index <= src.chars.len() {
                    lex_keeps_emitted(src, q, emitted);
                }
            },
            Step::Emit(t, q) => {
                assert(emitted.push(t).subrange(0, emitted.len() as int) =~= emitted);
                if p.index < q.index <= src.chars.len() {
                    lex_keeps_emitted(src, q, emitted.push(t));
                    let all = lex(src, q, emitted.push(t)).tokens();
                    assert(all.subrange(0, emitted.len() as int) =~= all.subrange(
                        0,
                        emitted.len() as int + 1,
                    ).subrange(0, emitted.len() as int));
                }
            },
            _ => {},
        }
    }
}

/// The start of any text.
pub open spec fn origin() -> Position {
    Position { index: 0, row: 0, col: 0 }
}

/// What a whole text lexes to.
pub open spec fn lex_all(src: Source) -> Outcome {
    lex(src, origin(), Seq::empty())
}

/// A cursor that can stand in a text: not beyond its end, with a line and
/// a column that the offset leaves room for.
pub open spec fn in_text(src: Source, p: Position) -> bool {
    &&& p.index <= src.chars.len() <= usize::MAX
    &&& p.col <= p.index
    &&& p.row <= p.index
}

} // verus!
