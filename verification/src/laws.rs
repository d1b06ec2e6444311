//! What holds of the grammar for whole families of texts.

use crate::chars::{
    digit_value, is_binary_digit, is_decimal_digit, is_hex_digit, is_whitespace, is_word_char,
};
use crate::grammar::{
    at, excess_is_within, excess_len, in_text, lex, lex_all, number, origin, run_end, step,
    step_advances, stretch, token, CharClass, Outcome, Source, Step,
};
use crate::lexer::{LexerError, NumericType};
use crate::mnemonics::opcode_of;
use crate::register::Register;
use crate::token::{Token, TokenType};
use crate::text_mapping::Position;
use vstd::arithmetic::power2::{
    lemma2_to64, lemma2_to64_rest, lemma_pow2_adds, lemma_pow2_strictly_increases, pow2,
};
use vstd::prelude::*;

verus! {

/// A run ends exactly where its class first fails: if every character from
/// `from` up to `to` is in the class and the one at `to`, if any, is not,
/// the run from `from` ends at `to`.
pub proof fn run_ends_where_class_fails(chars: Seq<char>, from: int, to: int, class: CharClass)
    requires
        0 <= from <= to <= chars.len(),
        forall|j: int| from <= j < to ==> class.holds(#[trigger] chars[j]),
        to < chars.len() ==> !class.holds(chars[to]),
    ensures
        run_end(chars, from, class) == to,
    decreases to - from,
{
    if from < to {
        run_ends_where_class_fails(chars, from + 1, to, class);
    }
}

/// A text that is one lexeme lexes to that lexeme's token alone.
pub proof fn one_lexeme_is_one_token(src: Source, t: Token, q: Position)
    requires
        0 < src.chars.len(),
        step(src, origin()) == Step::Emit(t, q),
        q.index == src.chars.len(),
    ensures
        lex_all(src) == (Outcome::Done { tokens: seq![t], cursor: q }),
{
    assert(Seq::<Token>::empty().push(t) =~= seq![t]);
    assert(lex(src, q, seq![t]) == (Outcome::Done { tokens: seq![t], cursor: q }));
}

proof fn blank_rest_emits_nothing(src: Source, p: Position, emitted: Seq<Token>)
    requires
        in_text(src, p),
        forall|j: int| p.index <= j < src.chars.len() ==> is_whitespace(#[trigger] src.chars[j]),
    ensures
        lex(src, p, emitted) is Done,
        lex(src, p, emitted).tokens() == emitted,
        lex(src, p, emitted).cursor().index == src.chars.len(),
    decreases src.chars.len() - p.index,
{
    if p.index < src.chars.len() {
        let c = src.chars[p.index as int];
        assert(is_whitespace(c));
        let q = if c == '\n' {
            p.next_line()
        } else {
            p.ahead(1)
        };
        assert(step(src, p) == Step::Skip(q));
        blank_rest_emits_nothing(src, q, emitted);
    }
}

/// A text of white space alone, line feeds included, lexes to no token.
pub proof fn whitespace_lexes_to_nothing(src: Source)
    requires
        src.chars.len() <= usize::MAX,
        forall|j: int| 0 <= j < src.chars.len() ==> is_whitespace(#[trigger] src.chars[j]),
    ensures
        lex_all(src) is Done,
        lex_all(src).tokens() == Seq::<Token>::empty(),
{
    blank_rest_emits_nothing(src, origin(), Seq::empty());
}

/// Under the unsigned mode, a text of decimal digits whose number fits in
/// 64 bits is one unsigned literal of that number, spanning the text.
pub proof fn decimal_text_is_one_literal(src: Source)
    requires
        src.mode == NumericType::Unsigned,
        1 <= src.chars.len() <= usize::MAX,
        forall|j: int| 0 <= j < src.chars.len() ==> is_decimal_digit(#[trigger] src.chars[j]),
        number(src.chars, 10) <= u64::MAX,
    ensures
        lex_all(src) == (Outcome::Done {
            tokens: seq![
                token(
                    src,
                    origin(),
                    TokenType::UnsignedIntegerLiteral(number(src.chars, 10) as u64),
                    0,
                    src.chars.len() as int,
                ),
            ],
            cursor: at(origin(), src.chars.len() as int),
        }),
{
    let len = src.chars.len() as int;
    run_ends_where_class_fails(src.chars, 0, len, CharClass::Decimal);
    assert(src.chars.subrange(0, len) =~= src.chars);
    assert(is_decimal_digit(src.chars[0]));
    if len > 1 {
        assert(is_decimal_digit(src.chars[1]));
    }
    let t = token(
        src,
        origin(),
        TokenType::UnsignedIntegerLiteral(number(src.chars, 10) as u64),
        0,
        len,
    );
    assert(step(src, origin()) == Step::Emit(t, at(origin(), len)));
    one_lexeme_is_one_token(src, t, at(origin(), len));
}

/// Hexadecimal digits write a number below sixteen to the power of their count.
pub proof fn hex_number_is_bounded(digits: Seq<char>)
    requires
        forall|j: int| 0 <= j < digits.len() ==> is_hex_digit(#[trigger] digits[j]),
    ensures
        number(digits, 16) < pow2(4 * digits.len()),
    decreases digits.len(),
{
    lemma2_to64();
    if digits.len() > 0 {
        let shorter = digits.drop_last();
        assert forall|j: int| 0 <= j < shorter.len() implies is_hex_digit(
            #[trigger] shorter[j],
        ) by {
            assert(shorter[j] == digits[j]);
        }
        hex_number_is_bounded(shorter);
        lemma_pow2_adds(4 * shorter.len(), 4);
        assert(is_hex_digit(digits[digits.len() - 1]));
        assert(digit_value(digits.last()) < 16);
        assert(number(digits, 16) < pow2(4 * shorter.len()) * 16) by (nonlinear_arith)
            requires
                number(digits, 16) == number(shorter, 16) * 16 + digit_value(digits.last()),
                number(shorter, 16) < pow2(4 * shorter.len()),
                digit_value(digits.last()) < 16,
        ;
        assert(4 * shorter.len() + 4 == 4 * digits.len());
    }
}

/// Binary digits write a number below two to the power of their count.
pub proof fn binary_number_is_bounded(digits: Seq<char>)
    requires
        forall|j: int| 0 <= j < digits.len() ==> is_binary_digit(#[trigger] digits[j]),
    ensures
        number(digits, 2) < pow2(digits.len()),
    decreases digits.len(),
{
    lemma2_to64();
    if digits.len() > 0 {
        let shorter = digits.drop_last();
        assert forall|j: int| 0 <= j < shorter.len() implies is_binary_digit(
            #[trigger] shorter[j],
        ) by {
            assert(shorter[j] == digits[j]);
        }
        binary_number_is_bounded(shorter);
        lemma_pow2_adds(shorter.len(), 1);
        assert(is_binary_digit(digits[digits.len() - 1]));
        assert(digit_value(digits.last()) < 2);
        assert(number(digits, 2) < pow2(shorter.len()) * 2) by (nonlinear_arith)
            requires
                number(digits, 2) == number(shorter, 2) * 2 + digit_value(digits.last()),
                number(shorter, 2) < pow2(shorter.len()),
                digit_value(digits.last()) < 2,
        ;
        assert(shorter.len() + 1 == digits.len());
    }
}

/// `0x` followed by one to sixteen hexadecimal digits, and nothing else, is
/// one unsigned literal: the number the digits write, which fits in 64
/// bits, over the digits.
pub proof fn hex_text_is_one_literal(src: Source, digits: Seq<char>)
    requires
        src.chars == seq!['0', 'x'] + digits,
        1 <= digits.len() <= 16,
        forall|j: int| 0 <= j < digits.len() ==> is_hex_digit(#[trigger] digits[j]),
    ensures
        number(digits, 16) <= u64::MAX,
        lex_all(src) == (Outcome::Done {
            tokens: seq![
                token(
                    src,
                    origin(),
                    TokenType::UnsignedIntegerLiteral(number(digits, 16) as u64),
                    2,
                    src.chars.len() as int,
                ),
            ],
            cursor: at(origin(), src.chars.len() as int),
        }),
{
    let len = src.chars.len() as int;
    hex_number_is_bounded(digits);
    lemma2_to64();
    lemma2_to64_rest();
    if digits.len() < 16 {
        lemma_pow2_strictly_increases(4 * digits.len(), 64);
    }
    assert forall|j: int| 2 <= j < len implies CharClass::Hex.holds(#[trigger] src.chars[j]) by {
        assert(src.chars[j] == digits[j - 2]);
    }
    run_ends_where_class_fails(src.chars, 2, len, CharClass::Hex);
    assert(src.chars.subrange(2, len) =~= digits);
    assert(src.chars[0] == '0' && src.chars[1] == 'x');
    let t = token(
        src,
        origin(),
        TokenType::UnsignedIntegerLiteral(number(digits, 16) as u64),
        2,
        len,
    );
    assert(step(src, origin()) == Step::Emit(t, at(origin(), len)));
    one_lexeme_is_one_token(src, t, at(origin(), len));
}

/// `0x` with no digit after it is an invalid hexadecimal literal, not zero.
pub proof fn hex_prefix_alone_is_invalid(src: Source)
    requires
        src.chars == seq!['0', 'x'],
    ensures
        lex_all(src) == (Outcome::Failed {
            tokens: Seq::<Token>::empty(),
            error: LexerError::InvalidHexLiteral(stretch(src, origin(), 2, 2)),
            cursor: at(origin(), 2),
        }),
{
    assert(src.chars[0] == '0' && src.chars[1] == 'x');
    assert(stretch(src, origin().ahead(2), 2, 2) == stretch(src, origin(), 2, 2));
}

/// `0b` followed by up to sixty-four binary digits, and nothing else, is
/// one unsigned literal: the number the digits write, over the digits.
pub proof fn binary_text_is_one_literal(src: Source, digits: Seq<char>)
    requires
        src.chars == seq!['0', 'b'] + digits,
        digits.len() <= 64,
        forall|j: int| 0 <= j < digits.len() ==> is_binary_digit(#[trigger] digits[j]),
    ensures
        number(digits, 2) <= u64::MAX,
        lex_all(src) == (Outcome::Done {
            tokens: seq![
                token(
                    src,
                    origin(),
                    TokenType::UnsignedIntegerLiteral(number(digits, 2) as u64),
                    2,
                    src.chars.len() as int,
                ),
            ],
            cursor: at(origin(), src.chars.len() as int),
        }),
{
    let len = src.chars.len() as int;
    binary_number_is_bounded(digits);
    lemma2_to64();
    lemma2_to64_rest();
    if digits.len() < 64 {
        lemma_pow2_strictly_increases(digits.len(), 64);
    }
    assert forall|j: int| 2 <= j < len implies CharClass::Binary.holds(#[trigger] src.chars[j]) by {
        assert(src.chars[j] == digits[j - 2]);
    }
    run_ends_where_class_fails(src.chars, 2, len, CharClass::Binary);
    assert(src.chars.subrange(2, len) =~= digits);
    assert(src.chars[0] == '0' && src.chars[1] == 'b');
    let t = token(
        src,
        origin(),
        TokenType::UnsignedIntegerLiteral(number(digits, 2) as u64),
        2,
        len,
    );
    assert(step(src, origin()) == Step::Emit(t, at(origin(), len)));
    one_lexeme_is_one_token(src, t, at(origin(), len));
}

/// `0b` followed by sixty-five binary digits or more is an invalid binary
/// literal, whatever comes after: the error covers the first sixty-five
/// digits.
pub proof fn binary_text_of_65_digits_is_invalid(src: Source)
    requires
        67 <= src.chars.len() <= usize::MAX,
        src.chars[0] == '0',
        src.chars[1] == 'b',
        forall|j: int| 2 <= j < 67 ==> is_binary_digit(#[trigger] src.chars[j]),
    ensures
        lex_all(src) == (Outcome::Failed {
            tokens: Seq::<Token>::empty(),
            error: LexerError::InvalidBinaryLiteral(stretch(src, origin(), 2, 67)),
            cursor: at(origin(), 67),
        }),
{
    let end = run_end(src.chars, 2, CharClass::Binary);
    crate::grammar::run_end_is_maximal(src.chars, 2, CharClass::Binary);
    if end < 67 {
        assert(is_binary_digit(src.chars[end]));
    }
    assert(stretch(src, origin().ahead(2), 2, 67) == stretch(src, origin(), 2, 67));
}

/// `$r` followed by a spelling of a register, and nothing else, is one
/// register token: the register spelled, over everything after the `$`.
pub proof fn register_text_is_one_register(src: Source, suffix: Seq<char>, r: Register)
    requires
        src.chars == seq!['$', 'r'] + suffix,
        Register::spec_spelled(suffix) == Some(r),
    ensures
        lex_all(src) == (Outcome::Done {
            tokens: seq![
                token(src, origin(), TokenType::Register(r), 1, src.chars.len() as int),
            ],
            cursor: at(origin(), src.chars.len() as int),
        }),
{
    let len = src.chars.len() as int;
    assert(src.chars[0] == '$' && src.chars[1] == 'r');
    assert(src.chars[2] == suffix[0]);
    if suffix.len() == 2 {
        assert(src.chars[3] == suffix[1]);
    }
    let p = origin().ahead(1);
    let t = token(src, origin(), TokenType::Register(r), 1, len);
    assert(token(src, p, TokenType::Register(r), 1, len) == t);
    assert(step(src, origin()) == Step::Emit(t, at(origin(), len)));
    one_lexeme_is_one_token(src, t, at(origin(), len));
}

/// A text that is one comma or one colon is that punctuation token.
pub proof fn punctuation_text_is_one_token(src: Source)
    requires
        src.chars == seq![','] || src.chars == seq![':'],
    ensures
        lex_all(src) == (Outcome::Done {
            tokens: seq![
                token(
                    src,
                    origin(),
                    if src.chars[0] == ',' {
                        TokenType::Comma
                    } else {
                        TokenType::Colon
                    },
                    0,
                    1,
                ),
            ],
            cursor: at(origin(), 1),
        }),
{
    let kind = if src.chars[0] == ',' {
        TokenType::Comma
    } else {
        TokenType::Colon
    };
    let t = token(src, origin(), kind, 0, 1);
    assert(step(src, origin()) == Step::Emit(t, at(origin(), 1)));
    one_lexeme_is_one_token(src, t, at(origin(), 1));
}

/// What a name is: an opcode if it has no underscore and the table lists
/// it, an identifier otherwise.
pub open spec fn kind_of_name(src: Source, name: Seq<char>) -> TokenType {
    if name.contains('_') {
        TokenType::Identifier
    } else {
        match opcode_of(src.mnemonics, name) {
            Some(code) => TokenType::Opcode(code),
            None => TokenType::Identifier,
        }
    }
}

/// A text of letters and underscores that does not begin with white space
/// is one token, an opcode or an identifier, spanning the text.
pub proof fn word_text_is_one_token(src: Source)
    requires
        1 <= src.chars.len() <= usize::MAX,
        forall|j: int| 0 <= j < src.chars.len() ==> is_word_char(#[trigger] src.chars[j]),
        !is_whitespace(src.chars[0]),
    ensures
        lex_all(src) == (Outcome::Done {
            tokens: seq![
                token(src, origin(), kind_of_name(src, src.chars), 0, src.chars.len() as int),
            ],
            cursor: at(origin(), src.chars.len() as int),
        }),
{
    let len = src.chars.len() as int;
    run_ends_where_class_fails(src.chars, 0, len, CharClass::Word);
    assert(src.chars.subrange(0, len) =~= src.chars);
    assert(is_word_char(src.chars[0]));
    let t = token(src, origin(), kind_of_name(src, src.chars), 0, len);
    assert(step(src, origin()) == Step::Emit(t, at(origin(), len)));
    one_lexeme_is_one_token(src, t, at(origin(), len));
}

/// The value a signed literal writes: its digits' number, negated after a `-`.
pub open spec fn signed_value(text: Seq<char>) -> int {
    if text.len() > 0 && text[0] == '-' {
        -(number(text.subrange(1, text.len() as int), 10) as int)
    } else {
        number(text, 10) as int
    }
}

/// Under the signed mode, a text of an optional `-` and decimal digits
/// whose number fits a signed 64-bit integer is one signed literal,
/// spanning the text.
pub proof fn signed_text_is_one_literal(src: Source)
    requires
        src.mode == NumericType::Signed,
        src.chars.len() <= usize::MAX,
        ({
            let first: int = if src.chars.len() > 0 && src.chars[0] == '-' {
                1
            } else {
                0
            };
            &&& first < src.chars.len()
            &&& forall|j: int|
                first <= j < src.chars.len() ==> is_decimal_digit(#[trigger] src.chars[j])
            &&& number(src.chars.subrange(first, src.chars.len() as int), 10) <= i64::MAX
        }),
    ensures
        lex_all(src) == (Outcome::Done {
            tokens: seq![
                token(
                    src,
                    origin(),
                    TokenType::SignedIntegerLiteral(signed_value(src.chars) as i64),
                    0,
                    src.chars.len() as int,
                ),
            ],
            cursor: at(origin(), src.chars.len() as int),
        }),
{
    let len = src.chars.len() as int;
    let first: int = if src.chars[0] == '-' {
        1
    } else {
        0
    };
    run_ends_where_class_fails(src.chars, first, len, CharClass::Decimal);
    assert(src.chars.subrange(0, len) =~= src.chars);
    assert(is_decimal_digit(src.chars[first]));
    if len > 1 {
        assert(is_decimal_digit(src.chars[1]));
    }
    let t = token(
        src,
        origin(),
        TokenType::SignedIntegerLiteral(signed_value(src.chars) as i64),
        0,
        len,
    );
    assert(step(src, origin()) == Step::Emit(t, at(origin(), len)));
    one_lexeme_is_one_token(src, t, at(origin(), len));
}

/// Tokens in the order of the text: each one lies on a single line of the
/// tokenizer's file, and ends before the next one starts.
pub open spec fn in_source_order(src: Source, tokens: Seq<Token>) -> bool {
    &&& forall|i: int|
        0 <= i < tokens.len() ==> (#[trigger] tokens[i]).range.single_line() && tokens[i].range.file
            == src.file
    &&& forall|i: int, j: int|
        0 <= i < j < tokens.len() ==> (#[trigger] tokens[i]).range.end.index <= (
        #[trigger] tokens[j]).range.start.index
}

proof fn lex_keeps_source_order(src: Source, p: Position, emitted: Seq<Token>)
    requires
        in_text(src, p),
        in_source_order(src, emitted),
        forall|i: int| 0 <= i < emitted.len() ==> (#[trigger] emitted[i]).range.end.index <= p.index,
    ensures
        in_source_order(src, lex(src, p, emitted).tokens()),
        forall|i: int|
            0 <= i < lex(src, p, emitted).tokens().len() ==> (#[trigger] lex(
                src,
                p,
                emitted,
            ).tokens()[i]).range.end.index <= lex(src, p, emitted).cursor().index,
        p.index <= lex(src, p, emitted).cursor().index <= src.chars.len(),
    decreases src.chars.len() - p.index,
{
    if p.index < src.chars.len() {
        step_advances(src, p);
        match step(src, p) {
            Step::Skip(q) => {
                lex_keeps_source_order(src, q, emitted);
            },
            Step::Emit(t, q) => {
                let more = emitted.push(t);
                assert forall|i: int| 0 <= i < more.len() implies (#[trigger] more[i]).range.end.index
                    <= q.index && more[i].range.single_line() && more[i].range.file == src.file by {
                    if i < emitted.len() {
                        assert(more[i] == emitted[i]);
                    }
                }
                assert forall|i: int, j: int| 0 <= i < j < more.len() implies (
                #[trigger] more[i]).range.end.index <= (#[trigger] more[j]).range.start.index by {
                    assert(more[i] == emitted[i]);
                    if j < emitted.len() {
                        assert(more[j] == emitted[j]);
                    }
                }
                lex_keeps_source_order(src, q, more);
            },
            _ => {},
        }
    }
}

/// The tokens of any text, lexed to its end or to an error, stand in
/// source order: one after the other without overlap, each on one line,
/// each stamped with the file, and none beyond where the cursor stopped.
/// The cursor never moves back.
pub proof fn tokens_are_in_source_order(src: Source)
    requires
        src.chars.len() <= usize::MAX,
    ensures
        in_source_order(src, lex_all(src).tokens()),
        forall|i: int|
            0 <= i < lex_all(src).tokens().len() ==> (#[trigger] lex_all(
                src,
            ).tokens()[i]).range.end.index <= lex_all(src).cursor().index,
        lex_all(src).cursor().index <= src.chars.len(),
{
    lex_keeps_source_order(src, origin(), Seq::empty());
}

/// Under the unsigned mode, a text of decimal digits whose number does not
/// fit in 64 bits is an invalid unsigned literal, over the digits up to and
/// including the first that was too much.
pub proof fn decimal_text_beyond_64_bits_is_invalid(src: Source)
    requires
        src.mode == NumericType::Unsigned,
        1 <= src.chars.len() <= usize::MAX,
        forall|j: int| 0 <= j < src.chars.len() ==> is_decimal_digit(#[trigger] src.chars[j]),
        number(src.chars, 10) > u64::MAX,
    ensures
        1 <= excess_len(src.chars, u64::MAX as nat) <= src.chars.len(),
        lex_all(src) == (Outcome::Failed {
            tokens: Seq::<Token>::empty(),
            error: LexerError::InvalidUnsignedIntegerLiteral(
                stretch(src, origin(), 0, excess_len(src.chars, u64::MAX as nat)),
            ),
            cursor: at(origin(), excess_len(src.chars, u64::MAX as nat)),
        }),
{
    let len = src.chars.len() as int;
    run_ends_where_class_fails(src.chars, 0, len, CharClass::Decimal);
    assert(src.chars.subrange(0, len) =~= src.chars);
    excess_is_within(src.chars, u64::MAX as nat);
    assert(is_decimal_digit(src.chars[0]));
    if len > 1 {
        assert(is_decimal_digit(src.chars[1]));
    }
}

/// A comment is suppressed whatever it holds: from a `#`, the step emits
/// nothing and leaves the cursor at the next line feed, or at the end of
/// the text where no line feed follows.
pub proof fn comment_is_skipped(src: Source, p: Position, end: int)
    requires
        in_text(src, p),
        p.index < end <= src.chars.len(),
        src.chars[p.index as int] == '#',
        forall|j: int| p.index < j < end ==> #[trigger] src.chars[j] != '\n',
        end < src.chars.len() ==> src.chars[end] == '\n',
    ensures
        step(src, p) == Step::Skip(at(p, end)),
{
    run_ends_where_class_fails(src.chars, p.index + 1, end, CharClass::Comment);
}

} // verus!
