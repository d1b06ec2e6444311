//! Positions are true coordinates: every place and range that lexing
//! reports is where counting lines and columns through the text puts it.

use crate::grammar::{
    at, binary, comment, default_numeric, directive, excess_is_within, hex, identifier, in_text,
    lex, lex_all, origin, register, run_end, run_end_is_maximal, signed, step, step_advances,
    unsigned, zero_led, CharClass, Outcome, Source, Step,
};
use crate::lexer::LexerError;
use crate::text_mapping::{Position, TextRange};
use crate::token::Token;
use vstd::prelude::*;

verus! {

/// The coordinate of an offset: its line is the number of line feeds
/// before it, its column the distance from the last of them.
pub open spec fn locate(chars: Seq<char>, offset: int) -> Position
    decreases offset,
{
    if offset <= 0 {
        origin()
    } else if chars[offset - 1] == '\n' {
        locate(chars, offset - 1).next_line()
    } else {
        locate(chars, offset - 1).ahead(1)
    }
}

/// A place is the coordinate of its own offset.
pub open spec fn placed(chars: Seq<char>, p: Position) -> bool {
    p == locate(chars, p.index as int)
}

/// Both ends of a range are coordinates.
pub open spec fn ranged(chars: Seq<char>, r: TextRange) -> bool {
    placed(chars, r.start) && placed(chars, r.end)
}

/// The place or range an error carries is made of coordinates.
pub open spec fn error_placed(chars: Seq<char>, e: LexerError) -> bool {
    match e {
        LexerError::UnexpectedCharacter(_, p) => placed(chars, p),
        LexerError::EmptyIdentifier(p) => placed(chars, p),
        LexerError::InvalidHexLiteral(r) => ranged(chars, r),
        LexerError::InvalidBinaryLiteral(r) => ranged(chars, r),
        LexerError::UnexpectedSecondDecimalPoint(p) => placed(chars, p),
        LexerError::InvalidFloatLiteral(r) => ranged(chars, r),
        LexerError::InvalidUnsignedIntegerLiteral(r) => ranged(chars, r),
        LexerError::InvalidSignedIntegerLiteral(r) => ranged(chars, r),
        LexerError::InvalidRegister(r) => ranged(chars, r),
        LexerError::ExpectedRegisterFoundEOF(p) => placed(chars, p),
        LexerError::UnknownDirective(r) => ranged(chars, r),
    }
}

/// Everything a step reports is made of coordinates.
pub open spec fn step_placed(chars: Seq<char>, s: Step) -> bool {
    match s {
        Step::Skip(q) => placed(chars, q),
        Step::Emit(t, q) => ranged(chars, t.range) && placed(chars, q),
        Step::Fail(e, q) => error_placed(chars, e) && placed(chars, q),
        Step::Float => true,
    }
}

/// The coordinate of an offset in the text has that offset, and a line and
/// a column no greater.
pub proof fn locate_is_in_text(chars: Seq<char>, offset: int)
    requires
        0 <= offset <= chars.len() <= usize::MAX,
    ensures
        locate(chars, offset).index == offset,
        locate(chars, offset).col <= offset,
        locate(chars, offset).row <= offset,
    decreases offset,
{
    if offset > 0 {
        locate_is_in_text(chars, offset - 1);
    }
}

/// Along a stretch without a line feed the line stays and the column
/// grows with the offset.
pub proof fn locate_along_line(chars: Seq<char>, from: int, to: int)
    requires
        0 <= from <= to <= chars.len() <= usize::MAX,
        forall|k: int| from <= k < to ==> #[trigger] chars[k] != '\n',
    ensures
        locate(chars, to) == at(locate(chars, from), to),
    decreases to - from,
{
    locate_is_in_text(chars, from);
    if from < to {
        locate_along_line(chars, from, to - 1);
        locate_is_in_text(chars, to - 1);
    }
}

/// No run holds a line feed, so the coordinates of every offset in it and
/// of its end lie along the line of its start.
pub proof fn run_stays_on_line(chars: Seq<char>, p: Position, from: int, class: CharClass)
    requires
        p.index <= from <= chars.len() <= usize::MAX,
        p.col <= p.index,
        at(p, from) == locate(chars, from),
    ensures
        forall|k: int|
            from <= k <= run_end(chars, from, class) ==> #[trigger] at(p, k) == locate(chars, k),
{
    run_end_is_maximal(chars, from, class);
    let end = run_end(chars, from, class);
    assert forall|k: int| from <= k <= end implies #[trigger] at(p, k) == locate(chars, k) by {
        assert forall|j: int| from <= j < k implies #[trigger] chars[j] != '\n' by {
            assert(class.holds(chars[j]));
        }
        locate_along_line(chars, from, k);
        locate_is_in_text(chars, from);
    }
}

/// One character further along a line, where that character is no line feed.
pub proof fn next_on_line(chars: Seq<char>, p: Position, to: int)
    requires
        p.index <= to < chars.len() <= usize::MAX,
        p.col <= p.index,
        at(p, to) == locate(chars, to),
        chars[to] != '\n',
    ensures
        at(p, to + 1) == locate(chars, to + 1),
{
    locate_is_in_text(chars, to);
}

pub proof fn directive_is_placed(src: Source, p: Position)
    requires
        in_text(src, p),
        placed(src.chars, p),
    ensures
        step_placed(src.chars, directive(src, p)),
{
    run_stays_on_line(src.chars, p, p.index as int, CharClass::Word);
    run_end_is_maximal(src.chars, p.index as int, CharClass::Word);
}

pub proof fn comment_is_placed(src: Source, p: Position)
    requires
        in_text(src, p),
        placed(src.chars, p),
    ensures
        step_placed(src.chars, comment(src, p)),
{
    run_stays_on_line(src.chars, p, p.index as int, CharClass::Comment);
    run_end_is_maximal(src.chars, p.index as int, CharClass::Comment);
}

pub proof fn register_is_placed(src: Source, p: Position)
    requires
        in_text(src, p),
        placed(src.chars, p),
    ensures
        step_placed(src.chars, register(src, p)),
{
    let i = p.index as int;
    let chars = src.chars;
    run_stays_on_line(chars, p, i, CharClass::Alphanumeric);
    run_end_is_maximal(chars, i, CharClass::Alphanumeric);
    if i < chars.len() && chars[i] == 'r' {
        next_on_line(chars, p, i);
        run_stays_on_line(chars, p, i + 1, CharClass::Alphanumeric);
        run_end_is_maximal(chars, i + 1, CharClass::Alphanumeric);
        if i + 1 < chars.len() && chars[i + 1] != '\n' {
            next_on_line(chars, p, i + 1);
            run_stays_on_line(chars, p, i + 2, CharClass::Alphanumeric);
            run_end_is_maximal(chars, i + 2, CharClass::Alphanumeric);
            if i + 2 < chars.len() && chars[i + 2] != '\n' {
                next_on_line(chars, p, i + 2);
            }
        }
    }
}

pub proof fn hex_is_placed(src: Source, p: Position)
    requires
        in_text(src, p),
        placed(src.chars, p),
    ensures
        step_placed(src.chars, hex(src, p)),
{
    run_stays_on_line(src.chars, p, p.index as int, CharClass::Hex);
    run_end_is_maximal(src.chars, p.index as int, CharClass::Hex);
}

pub proof fn binary_is_placed(src: Source, p: Position)
    requires
        in_text(src, p),
        placed(src.chars, p),
    ensures
        step_placed(src.chars, binary(src, p)),
{
    run_stays_on_line(src.chars, p, p.index as int, CharClass::Binary);
    run_end_is_maximal(src.chars, p.index as int, CharClass::Binary);
}

pub proof fn signed_is_placed(src: Source, p: Position)
    requires
        in_text(src, p),
        placed(src.chars, p),
    ensures
        step_placed(src.chars, signed(src, p)),
{
    let start = p.index as int;
    let chars = src.chars;
    let first = if start < chars.len() && chars[start] == '-' {
        start + 1
    } else {
        start
    };
    if first > start {
        next_on_line(chars, p, start);
    }
    run_stays_on_line(chars, p, first, CharClass::Decimal);
    run_end_is_maximal(chars, first, CharClass::Decimal);
    excess_is_within(
        chars.subrange(first, run_end(chars, first, CharClass::Decimal)),
        i64::MAX as nat,
    );
}

pub proof fn unsigned_is_placed(src: Source, p: Position)
    requires
        in_text(src, p),
        placed(src.chars, p),
    ensures
        step_placed(src.chars, unsigned(src, p)),
{
    let start = p.index as int;
    run_stays_on_line(src.chars, p, start, CharClass::Decimal);
    run_end_is_maximal(src.chars, start, CharClass::Decimal);
    excess_is_within(
        src.chars.subrange(start, run_end(src.chars, start, CharClass::Decimal)),
        u64::MAX as nat,
    );
}

pub proof fn identifier_is_placed(src: Source, p: Position)
    requires
        in_text(src, p),
        placed(src.chars, p),
    ensures
        step_placed(src.chars, identifier(src, p)),
{
    run_stays_on_line(src.chars, p, p.index as int, CharClass::Word);
    run_end_is_maximal(src.chars, p.index as int, CharClass::Word);
}

pub proof fn default_numeric_is_placed(src: Source, p: Position)
    requires
        in_text(src, p),
        placed(src.chars, p),
    ensures
        step_placed(src.chars, default_numeric(src, p)),
{
    signed_is_placed(src, p);
    unsigned_is_placed(src, p);
}

/// The place `n` characters on from a coordinate is a coordinate, where
/// none of those characters is a line feed.
pub proof fn ahead_is_placed(src: Source, p: Position, n: int)
    requires
        in_text(src, p),
        placed(src.chars, p),
        0 <= n,
        p.index + n <= src.chars.len(),
        forall|k: int| p.index <= k < p.index + n ==> #[trigger] src.chars[k] != '\n',
    ensures
        in_text(src, p.ahead(n)),
        placed(src.chars, p.ahead(n)),
{
    locate_along_line(src.chars, p.index as int, p.index + n);
}

pub proof fn zero_led_is_placed(src: Source, p: Position)
    requires
        in_text(src, p),
        p.index < src.chars.len(),
        src.chars[p.index as int] == '0',
        placed(src.chars, p),
    ensures
        step_placed(src.chars, zero_led(src, p)),
{
    default_numeric_is_placed(src, p);
    let next = p.index + 1;
    if next < src.chars.len() && src.chars[next] != '\n' {
        ahead_is_placed(src, p, 2);
        hex_is_placed(src, p.ahead(2));
        binary_is_placed(src, p.ahead(2));
        signed_is_placed(src, p.ahead(2));
        unsigned_is_placed(src, p.ahead(2));
    }
}

/// A step that starts at a coordinate reports only coordinates.
pub proof fn step_is_placed(src: Source, p: Position)
    requires
        in_text(src, p),
        p.index < src.chars.len(),
        placed(src.chars, p),
    ensures
        step_placed(src.chars, step(src, p)),
{
    let c = src.chars[p.index as int];
    locate_is_in_text(src.chars, p.index as int);
    locate_is_in_text(src.chars, p.index + 1);
    if c == '\n' {
    } else {
        ahead_is_placed(src, p, 1);
        if c == '%' {
            directive_is_placed(src, p.ahead(1));
        } else if c == '#' {
            comment_is_placed(src, p.ahead(1));
        } else if c == '$' {
            register_is_placed(src, p.ahead(1));
        } else if c == '0' {
            zero_led_is_placed(src, p);
        } else if c == ',' || c == ':' {
        } else {
            identifier_is_placed(src, p);
            default_numeric_is_placed(src, p);
        }
    }
}

/// Whether every token of a list has coordinates for both ends of its range.
pub open spec fn all_ranged(chars: Seq<char>, tokens: Seq<Token>) -> bool {
    forall|i: int| 0 <= i < tokens.len() ==> ranged(chars, #[trigger] tokens[i].range)
}

/// Everything an outcome holds is made of coordinates.
pub open spec fn outcome_placed(chars: Seq<char>, o: Outcome) -> bool {
    &&& all_ranged(chars, o.tokens())
    &&& placed(chars, o.cursor())
    &&& match o {
        Outcome::Failed { error, .. } => error_placed(chars, error),
        _ => true,
    }
}

/// Lexing on from a coordinate, with tokens whose ranges are coordinates,
/// ends with nothing but coordinates.
pub proof fn lex_is_placed(src: Source, p: Position, emitted: Seq<Token>)
    requires
        in_text(src, p),
        placed(src.chars, p),
        all_ranged(src.chars, emitted),
    ensures
        outcome_placed(src.chars, lex(src, p, emitted)),
    decreases src.chars.len() - p.index,
{
    if p.index < src.chars.len() {
        step_advances(src, p);
        step_is_placed(src, p);
        match step(src, p) {
            Step::Skip(q) => {
                lex_is_placed(src, q, emitted);
            },
            Step::Emit(t, q) => {
                assert forall|i: int| 0 <= i < emitted.push(t).len() implies ranged(
                    src.chars,
                    #[trigger] emitted.push(t)[i].range,
                ) by {
                    if i < emitted.len() {
                        assert(emitted.push(t)[i] == emitted[i]);
                    }
                }
                lex_is_placed(src, q, emitted.push(t));
            },
            _ => {},
        }
    }
}

/// Source positions are exact. In what a whole text lexes to, both ends of
/// every token's range, the place or range of the error, and the final
/// cursor are each the coordinate of their offset: the line is the number
/// of line feeds before it, the column the distance from the last one.
pub proof fn positions_are_coordinates(src: Source)
    requires
        src.chars.len() <= usize::MAX,
    ensures
        outcome_placed(src.chars, lex_all(src)),
{
    lex_is_placed(src, origin(), Seq::empty());
}

} // verus!
