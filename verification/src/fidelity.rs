//! Range fidelity: what the text under a token's range lexes to when it is
//! read again on its own.
//!
//! A token's range leaves out the `%`, the `$` or the base prefix that
//! introduced it. So a directive or a register is never found again under
//! its own range, and a number is found again only where the bare digits
//! read the same way: as decimal digits under the unsigned mode, or as a
//! signed literal under the signed mode.

use crate::chars::{is_decimal_digit, is_whitespace, is_word_char};
use crate::grammar::{
    at, identifier, in_text, lex, lex_all, lex_keeps_emitted, number, origin, run_end,
    run_end_is_maximal, signed, step, step_advances, token, CharClass, Outcome, Source, Step,
};
use crate::laws::{
    decimal_text_is_one_literal, kind_of_name, punctuation_text_is_one_token, signed_text_is_one_literal,
    signed_value, word_text_is_one_token,
};
use crate::lexer::NumericType;
use crate::text_mapping::Position;
use crate::token::{Token, TokenType};
use vstd::prelude::*;

verus! {

/// The text under a token's range.
pub open spec fn lexeme(src: Source, t: Token) -> Seq<char> {
    src.chars.subrange(t.range.start.index as int, t.range.end.index as int)
}

/// The same tokenizer over another text.
pub open spec fn with_text(src: Source, text: Seq<char>) -> Source {
    Source { chars: text, file: src.file, mode: src.mode, mnemonics: src.mnemonics }
}

/// Whether a token of this kind, with this text under its range, is found
/// again when the text is lexed on its own under the same mode.
pub open spec fn relexes(mode: NumericType, kind: TokenType, text: Seq<char>) -> bool {
    match kind {
        TokenType::Comma => true,
        TokenType::Colon => true,
        TokenType::Identifier => true,
        TokenType::Opcode(_) => true,
        TokenType::UnsignedIntegerLiteral(_) => {
            &&& mode == NumericType::Unsigned
            &&& text.len() >= 1
            &&& forall|j: int| 0 <= j < text.len() ==> is_decimal_digit(#[trigger] text[j])
            &&& number(text, 10) <= u64::MAX
        },
        TokenType::SignedIntegerLiteral(_) => mode == NumericType::Signed,
        _ => false,
    }
}

/// The kind found again: the token's own, except that the digits of a
/// based literal are read as decimal.
pub open spec fn relexed_kind(kind: TokenType, text: Seq<char>) -> TokenType {
    match kind {
        TokenType::UnsignedIntegerLiteral(_) => TokenType::UnsignedIntegerLiteral(
            number(text, 10) as u64,
        ),
        _ => kind,
    }
}

/// Every token that lexing appends was emitted by the step at some cursor
/// in the text.
pub proof fn tokens_come_from_steps(src: Source, p: Position, emitted: Seq<Token>, i: int)
    requires
        in_text(src, p),
        emitted.len() <= i < lex(src, p, emitted).tokens().len(),
    ensures
        exists|q: Position|
            in_text(src, q) && q.index < src.chars.len() && emits(
                #[trigger] step(src, q),
                lex(src, p, emitted).tokens()[i],
            ),
    decreases src.chars.len() - p.index,
{
    if p.index < src.chars.len() {
        step_advances(src, p);
        match step(src, p) {
            Step::Skip(q) => {
                tokens_come_from_steps(src, q, emitted, i);
            },
            Step::Emit(t, q) => {
                if i == emitted.len() {
                    lex_keeps_emitted(src, q, emitted.push(t));
                    let all = lex(src, q, emitted.push(t)).tokens();
                    assert(all.subrange(0, emitted.len() as int + 1)[i] == emitted.push(t)[i]);
                    assert(emits(step(src, p), all[i]));
                } else {
                    tokens_come_from_steps(src, q, emitted.push(t), i);
                }
            },
            _ => {},
        }
    }
}

/// Whether a step emits a given token.
pub open spec fn emits(s: Step, t: Token) -> bool {
    match s {
        Step::Emit(emitted, _) => emitted == t,
        _ => false,
    }
}

proof fn identifier_shape(src: Source, p: Position, t: Token)
    requires
        in_text(src, p),
        emits(identifier(src, p), t),
    ensures
        lexeme(src, t).len() >= 1,
        forall|j: int| 0 <= j < lexeme(src, t).len() ==> is_word_char(#[trigger] lexeme(src, t)[j]),
        lexeme(src, t)[0] == src.chars[p.index as int],
        t.token_type == kind_of_name(src, lexeme(src, t)),
{
    run_end_is_maximal(src.chars, p.index as int, CharClass::Word);
}

proof fn signed_shape(src: Source, p: Position, t: Token)
    requires
        in_text(src, p),
        emits(signed(src, p), t),
    ensures
        ({
            let text = lexeme(src, t);
            let first: int = if text.len() > 0 && text[0] == '-' {
                1
            } else {
                0
            };
            &&& first < text.len() <= usize::MAX
            &&& forall|j: int| first <= j < text.len() ==> is_decimal_digit(#[trigger] text[j])
            &&& number(text.subrange(first, text.len() as int), 10) <= i64::MAX
            &&& t.token_type == TokenType::SignedIntegerLiteral(signed_value(text) as i64)
        }),
{
    let start = p.index as int;
    let negative = start < src.chars.len() && src.chars[start] == '-';
    let first = if negative {
        start + 1
    } else {
        start
    };
    let end = run_end(src.chars, first, CharClass::Decimal);
    run_end_is_maximal(src.chars, first, CharClass::Decimal);
    let text = lexeme(src, t);
    assert(text =~= src.chars.subrange(start, end));
    assert(text.subrange(first - start, text.len() as int) =~= src.chars.subrange(first, end));
    if !negative {
        assert(text[0] == src.chars[first]);
        assert(text.subrange(0, text.len() as int) =~= text);
    }
}

proof fn word_token_shape(src: Source, p: Position, t: Token)
    requires
        in_text(src, p),
        p.index < src.chars.len(),
        emits(step(src, p), t),
        t.token_type is Identifier || t.token_type is Opcode,
    ensures
        lexeme(src, t).len() >= 1,
        forall|j: int| 0 <= j < lexeme(src, t).len() ==> is_word_char(#[trigger] lexeme(src, t)[j]),
        !is_whitespace(lexeme(src, t)[0]),
        t.token_type == kind_of_name(src, lexeme(src, t)),
{
    assert(step(src, p) == identifier(src, p));
    identifier_shape(src, p, t);
}

proof fn signed_token_shape(src: Source, p: Position, t: Token)
    requires
        in_text(src, p),
        p.index < src.chars.len(),
        emits(step(src, p), t),
        t.token_type is SignedIntegerLiteral,
    ensures
        ({
            let text = lexeme(src, t);
            let first: int = if text.len() > 0 && text[0] == '-' {
                1
            } else {
                0
            };
            &&& first < text.len() <= usize::MAX
            &&& forall|j: int| first <= j < text.len() ==> is_decimal_digit(#[trigger] text[j])
            &&& number(text.subrange(first, text.len() as int), 10) <= i64::MAX
            &&& t.token_type == TokenType::SignedIntegerLiteral(signed_value(text) as i64)
        }),
{
    let c = src.chars[p.index as int];
    if step(src, p) == signed(src, p) {
        signed_shape(src, p, t);
    } else {
        assert(c == '0');
        assert(step(src, p) == signed(src, p.ahead(2)));
        signed_shape(src, p.ahead(2), t);
    }
}

proof fn punctuation_shape(src: Source, p: Position, t: Token)
    requires
        in_text(src, p),
        p.index < src.chars.len(),
        emits(step(src, p), t),
        t.token_type is Comma || t.token_type is Colon,
    ensures
        t.token_type is Comma ==> lexeme(src, t) == seq![','],
        t.token_type is Colon ==> lexeme(src, t) == seq![':'],
{
    let c = src.chars[p.index as int];
    assert(c == ',' || c == ':');
    assert(lexeme(src, t) =~= seq![c]);
}

/// Lexing the text under a token's range on its own gives one token, of
/// the kind found again, spanning that text.
pub open spec fn found_again(src: Source, t: Token) -> bool {
    let text = lexeme(src, t);
    let again = with_text(src, text);
    lex_all(again) == (Outcome::Done {
        tokens: seq![
            token(again, origin(), relexed_kind(t.token_type, text), 0, text.len() as int),
        ],
        cursor: at(origin(), text.len() as int),
    })
}

proof fn punctuation_is_found_again(src: Source, p: Position, t: Token)
    requires
        in_text(src, p),
        p.index < src.chars.len(),
        emits(step(src, p), t),
        t.token_type is Comma || t.token_type is Colon,
    ensures
        found_again(src, t),
{
    punctuation_shape(src, p, t);
    punctuation_text_is_one_token(with_text(src, lexeme(src, t)));
}

proof fn word_is_found_again(src: Source, p: Position, t: Token)
    requires
        in_text(src, p),
        p.index < src.chars.len(),
        emits(step(src, p), t),
        t.token_type is Identifier || t.token_type is Opcode,
    ensures
        found_again(src, t),
{
    word_token_shape(src, p, t);
    step_advances(src, p);
    word_text_is_one_token(with_text(src, lexeme(src, t)));
}

proof fn signed_is_found_again(src: Source, p: Position, t: Token)
    requires
        in_text(src, p),
        p.index < src.chars.len(),
        emits(step(src, p), t),
        t.token_type is SignedIntegerLiteral,
        src.mode == NumericType::Signed,
    ensures
        found_again(src, t),
{
    signed_token_shape(src, p, t);
    signed_text_is_one_literal(with_text(src, lexeme(src, t)));
}

proof fn unsigned_is_found_again(src: Source, t: Token)
    requires
        t.range.start.index <= t.range.end.index <= src.chars.len() <= usize::MAX,
        t.token_type is UnsignedIntegerLiteral,
        relexes(src.mode, t.token_type, lexeme(src, t)),
    ensures
        found_again(src, t),
{
    decimal_text_is_one_literal(with_text(src, lexeme(src, t)));
}

/// Range fidelity. Take any token that lexing a text emits, on the way to
/// the end or to an error, and lex the text under its range on its own,
/// under the same mode and table. Where the token is punctuation, an
/// identifier or an opcode, a signed literal under the signed mode, or an
/// unsigned literal under the unsigned mode whose range holds decimal
/// digits that fit in 64 bits, the result is one token spanning that text:
/// of the same kind and operand, except that the digits of a based
/// literal are read as decimal.
pub proof fn emitted_token_relexes(src: Source, i: int)
    requires
        src.chars.len() <= usize::MAX,
        0 <= i < lex_all(src).tokens().len(),
        relexes(
            src.mode,
            lex_all(src).tokens()[i].token_type,
            lexeme(src, lex_all(src).tokens()[i]),
        ),
    ensures
        found_again(src, lex_all(src).tokens()[i]),
{
    let t = lex_all(src).tokens()[i];
    tokens_come_from_steps(src, origin(), Seq::empty(), i);
    let p = choose|q: Position|
        in_text(src, q) && q.index < src.chars.len() && emits(#[trigger] step(src, q), t);
    step_token_is_found_again(src, p, t);
}

proof fn step_token_is_found_again(src: Source, p: Position, t: Token)
    requires
        in_text(src, p),
        p.index < src.chars.len(),
        emits(step(src, p), t),
        relexes(src.mode, t.token_type, lexeme(src, t)),
    ensures
        found_again(src, t),
{
    match t.token_type {
        TokenType::Comma => {
            punctuation_is_found_again(src, p, t);
        },
        TokenType::Colon => {
            punctuation_is_found_again(src, p, t);
        },
        TokenType::Identifier => {
            word_is_found_again(src, p, t);
        },
        TokenType::Opcode(_) => {
            word_is_found_again(src, p, t);
        },
        TokenType::UnsignedIntegerLiteral(_) => {
            step_advances(src, p);
            unsigned_is_found_again(src, t);
        },
        TokenType::SignedIntegerLiteral(_) => {
            signed_is_found_again(src, p, t);
        },
        _ => {},
    }
}

} // verus!
