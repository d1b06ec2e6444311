use std::rc::Rc;

use voxl_lexer::lexer::{Lexer, LexerError, NumericType};
use voxl_lexer::mnemonics::Mnemonic;
use voxl_lexer::register::Register;
use voxl_lexer::text_mapping::{FileInfo, FileInfoManager, Position, TextRange};
use voxl_lexer::token::{Token, TokenType};

fn file_of(input: &str) -> Rc<FileInfo> {
    let mut manager = FileInfoManager::new();
    manager.new_file(String::from("unit.asm"), input.to_string())
}

fn table() -> Vec<Mnemonic> {
    vec![
        Mnemonic::new("ldi".chars().collect(), 3),
        Mnemonic::new("call".chars().collect(), 0x43),
    ]
}

fn lex(input: &str) -> Result<Vec<Token>, LexerError> {
    Lexer::tokenize(input.chars().collect(), file_of(input), table())
}

fn lex_as(input: &str, mode: NumericType) -> Result<Vec<Token>, LexerError> {
    let mut lexer = Lexer::new(input.chars().collect(), file_of(input), mode, table());
    match lexer.try_process() {
        Some(Ok(())) => Ok(lexer.into_tokens()),
        Some(Err(e)) => Err(e),
        None => panic!("floating-point literal"),
    }
}

fn on_line(tp: TokenType, row: usize, index: usize, col: usize, len: usize, input: &str) -> Token {
    Token::new(
        tp,
        TextRange::new(
            Position::new(index, row, col),
            Position::new(index + len, row, col + len),
            file_of(input),
        ),
    )
}

fn text_under(input: &str, t: &Token) -> String {
    input
        .chars()
        .skip(t.range.start.index)
        .take(t.range.end.index - t.range.start.index)
        .collect()
}

#[test]
fn whitespace_only_gives_no_tokens() {
    assert_eq!(lex(""), Ok(vec![]));
    assert_eq!(lex(" "), Ok(vec![]));
    assert_eq!(lex(" \t\r\n\n  \u{b}\u{c} \n"), Ok(vec![]));
}

#[test]
fn unicode_whitespace_is_skipped() {
    let input = "\u{a0}\u{2003},\u{3000}";
    assert_eq!(lex(input), Ok(vec![on_line(TokenType::Comma, 0, 2, 2, 1, input)]));
}

#[test]
fn decimal_strings_are_single_unsigned_literals() {
    for (input, value) in [
        ("0", 0u64),
        ("7", 7),
        ("52", 52),
        ("007", 7),
        ("1234567890", 1234567890),
        ("18446744073709551615", u64::MAX),
        ("00000000000000000000000042", 42),
    ] {
        assert_eq!(
            lex(input),
            Ok(vec![on_line(
                TokenType::UnsignedIntegerLiteral(value),
                0,
                0,
                0,
                input.len(),
                input
            )])
        );
    }
}

#[test]
fn twenty_nines_overflow_unsigned() {
    let input = "99999999999999999999";
    assert_eq!(
        lex(input),
        Err(LexerError::InvalidUnsignedIntegerLiteral(TextRange::new(
            Position::new(0, 0, 0),
            Position::new(20, 0, 20),
            file_of(input)
        )))
    );
}

#[test]
fn unsigned_overflow_stops_at_the_offending_digit() {
    let input = "ldi 184467440737095516160000";
    assert_eq!(
        lex(input),
        Err(LexerError::InvalidUnsignedIntegerLiteral(TextRange::new(
            Position::new(4, 0, 4),
            Position::new(24, 0, 24),
            file_of(input)
        )))
    );
}

#[test]
fn hex_literals_of_up_to_sixteen_digits() {
    for (input, value) in [
        ("0x0", 0u64),
        ("0xF", 15),
        ("0xff", 255),
        ("0xDeadBeef", 0xdead_beef),
        ("0xffffffffffffffff", u64::MAX),
        ("0x0123456789abcdef", 0x0123_4567_89ab_cdef),
        ("0x00000000000000000001", 1),
    ] {
        assert_eq!(
            lex(input),
            Ok(vec![on_line(
                TokenType::UnsignedIntegerLiteral(value),
                0,
                2,
                2,
                input.len() - 2,
                input
            )])
        );
    }
}

#[test]
fn hex_without_digits_is_invalid() {
    let input = "0x";
    assert_eq!(
        lex(input),
        Err(LexerError::InvalidHexLiteral(TextRange::new(
            Position::new(2, 0, 2),
            Position::new(2, 0, 2),
            file_of(input)
        )))
    );
    let input = "0x, 1";
    assert_eq!(
        lex(input),
        Err(LexerError::InvalidHexLiteral(TextRange::new(
            Position::new(2, 0, 2),
            Position::new(2, 0, 2),
            file_of(input)
        )))
    );
}

#[test]
fn hex_beyond_64_bits_is_invalid() {
    let input = "0x10000000000000000";
    assert_eq!(
        lex(input),
        Err(LexerError::InvalidHexLiteral(TextRange::new(
            Position::new(2, 0, 2),
            Position::new(19, 0, 19),
            file_of(input)
        )))
    );
}

#[test]
fn binary_of_64_digits_succeeds() {
    let ones = format!("0b{}", "1".repeat(64));
    assert_eq!(
        lex(&ones),
        Ok(vec![on_line(TokenType::UnsignedIntegerLiteral(u64::MAX), 0, 2, 2, 64, &ones)])
    );
    let zeros = format!("0b{}", "0".repeat(64));
    assert_eq!(
        lex(&zeros),
        Ok(vec![on_line(TokenType::UnsignedIntegerLiteral(0), 0, 2, 2, 64, &zeros)])
    );
    let high = format!("0b1{}", "0".repeat(63));
    assert_eq!(
        lex(&high),
        Ok(vec![on_line(TokenType::UnsignedIntegerLiteral(1 << 63), 0, 2, 2, 64, &high)])
    );
}

#[test]
fn binary_of_65_digits_fails_over_the_first_65() {
    let input = format!("0b{}", "0".repeat(70));
    assert_eq!(
        lex(&input),
        Err(LexerError::InvalidBinaryLiteral(TextRange::new(
            Position::new(2, 0, 2),
            Position::new(67, 0, 67),
            file_of(&input)
        )))
    );
}

#[test]
fn binary_without_digits_is_zero() {
    let input = "0b";
    assert_eq!(
        lex(input),
        Ok(vec![on_line(TokenType::UnsignedIntegerLiteral(0), 0, 2, 2, 0, input)])
    );
}

#[test]
fn binary_value_is_read_most_significant_first() {
    let input = "0b1011";
    assert_eq!(
        lex(input),
        Ok(vec![on_line(TokenType::UnsignedIntegerLiteral(11), 0, 2, 2, 4, input)])
    );
}

#[test]
fn relexing_a_token_range_gives_the_same_kind() {
    let input = "call MAIN, loop_a: 52 , ldi 007";
    let tokens = lex(input).unwrap();
    assert_eq!(tokens.len(), 9);
    for t in tokens.iter() {
        let text = text_under(input, t);
        let again = lex(&text).unwrap();
        assert_eq!(again.len(), 1);
        assert_eq!(again[0].token_type, t.token_type);
        assert_eq!(again[0].range.start, Position::new(0, 0, 0));
        assert_eq!(again[0].range.end.index, text.chars().count());
    }
}

#[test]
fn relexing_signed_literals_under_the_signed_mode() {
    let input = "-12 0i-7 33";
    let tokens = lex_as(input, NumericType::Signed).unwrap();
    assert_eq!(tokens.len(), 3);
    for t in tokens.iter() {
        let text = text_under(input, t);
        let again = lex_as(&text, NumericType::Signed).unwrap();
        assert_eq!(again.len(), 1);
        assert_eq!(again[0].token_type, t.token_type);
    }
}

#[test]
fn a_directive_range_relexes_as_a_name() {
    let input = "%repeat";
    let tokens = lex(input).unwrap();
    let text = text_under(input, &tokens[0]);
    assert_eq!(text, "repeat");
    assert_eq!(lex(&text).unwrap()[0].token_type, TokenType::Identifier);
}

#[test]
fn register_spellings_are_distinct() {
    let spellings = [
        "$rsp", "$rfp", "$rou", "$rfl", "$rra", "$rrb", "$r0", "$r1", "$r2", "$r3", "$r4", "$r5",
        "$r6", "$r7", "$r8", "$r9",
    ];
    let mut seen: Vec<Register> = Vec::new();
    for (i, input) in spellings.iter().enumerate() {
        let tokens = lex(input).unwrap();
        assert_eq!(tokens.len(), 1);
        assert_eq!(tokens[0].range.start, Position::new(1, 0, 1));
        assert_eq!(tokens[0].range.end, Position::new(input.len(), 0, input.len()));
        match tokens[0].token_type {
            TokenType::Register(r) => {
                assert!(!seen.contains(&r));
                assert_eq!(r.ordinal() as usize, i);
                seen.push(r);
            }
            _ => panic!("not a register"),
        }
    }
    assert_eq!(seen.len(), 16);
}

#[test]
fn register_numbers_round_trip() {
    for n in 0u8..16 {
        assert_eq!(Register::from_ordinal(n).unwrap().ordinal(), n);
    }
    assert_eq!(Register::from_ordinal(16), None);
    assert_eq!(Register::from_ordinal(255), None);
    assert_eq!(Register::from_ordinal(0), Some(Register::RSP));
    assert_eq!(Register::from_ordinal(6), Some(Register::R0));
    assert_eq!(Register::positional(9), Register::R9);
    assert_eq!(Register::named('f', 'l'), Some(Register::RFL));
    assert_eq!(Register::named('f', 'x'), None);
}

#[test]
fn unknown_directive_carries_its_range() {
    let input = "%bogus";
    assert_eq!(
        lex(input),
        Err(LexerError::UnknownDirective(TextRange::new(
            Position::new(1, 0, 1),
            Position::new(6, 0, 6),
            file_of(input)
        )))
    );
}

#[test]
fn repeat_directive_spans_its_name() {
    let input = "%repeat";
    assert_eq!(lex(input), Ok(vec![on_line(TokenType::Repeat, 0, 1, 1, 6, input)]));
}

#[test]
fn comment_body_is_suppressed() {
    let file = file_of("shared");
    let with = Lexer::tokenize("ldi 52 #trailing $$$\n".chars().collect(), file.clone(), table());
    let without = Lexer::tokenize("ldi 52\n".chars().collect(), file.clone(), table());
    assert_eq!(with, without);
    assert_eq!(with.unwrap().len(), 2);
}

#[test]
fn comment_ends_at_the_line_feed() {
    let input = "# %bogus $ @\n:# 0x\n\n,";
    assert_eq!(
        lex(input),
        Ok(vec![
            on_line(TokenType::Colon, 1, 13, 0, 1, input),
            on_line(TokenType::Comma, 3, 20, 0, 1, input),
        ])
    );
    assert_eq!(lex("#"), Ok(vec![]));
    assert_eq!(lex("# no line feed"), Ok(vec![]));
}

#[test]
fn positions_follow_lines() {
    let input = "ldi 1\n  call MAIN\n\n$r3";
    assert_eq!(
        lex(input),
        Ok(vec![
            on_line(TokenType::Opcode(3), 0, 0, 0, 3, input),
            on_line(TokenType::UnsignedIntegerLiteral(1), 0, 4, 4, 1, input),
            on_line(TokenType::Opcode(0x43), 1, 8, 2, 4, input),
            on_line(TokenType::Identifier, 1, 13, 7, 4, input),
            on_line(TokenType::Register(Register::R3), 3, 20, 1, 2, input),
        ])
    );
}

#[test]
fn underscore_rules_out_an_opcode() {
    let names = vec![
        Mnemonic::new("a_b".chars().collect(), 9),
        Mnemonic::new("ab".chars().collect(), 1),
        Mnemonic::new("ab".chars().collect(), 2),
    ];
    let input = "a_b ab _ abc";
    let tokens = Lexer::tokenize(input.chars().collect(), file_of(input), names).unwrap();
    assert_eq!(
        tokens,
        vec![
            on_line(TokenType::Identifier, 0, 0, 0, 3, input),
            on_line(TokenType::Opcode(1), 0, 4, 4, 2, input),
            on_line(TokenType::Identifier, 0, 7, 7, 1, input),
            on_line(TokenType::Identifier, 0, 9, 9, 3, input),
        ]
    );
}

#[test]
fn letters_of_any_script_make_identifiers() {
    let input = "\u{e9}t\u{e9} \u{3b1}_\u{3b2}";
    assert_eq!(
        lex(input),
        Ok(vec![
            on_line(TokenType::Identifier, 0, 0, 0, 3, input),
            on_line(TokenType::Identifier, 0, 4, 4, 3, input),
        ])
    );
}

#[test]
fn signed_mode_reads_bare_numbers_as_signed() {
    let input = "-5 7 0 -0 9223372036854775807 -9223372036854775807";
    assert_eq!(
        lex_as(input, NumericType::Signed),
        Ok(vec![
            on_line(TokenType::SignedIntegerLiteral(-5), 0, 0, 0, 2, input),
            on_line(TokenType::SignedIntegerLiteral(7), 0, 3, 3, 1, input),
            on_line(TokenType::SignedIntegerLiteral(0), 0, 5, 5, 1, input),
            on_line(TokenType::SignedIntegerLiteral(0), 0, 7, 7, 2, input),
            on_line(TokenType::SignedIntegerLiteral(i64::MAX), 0, 10, 10, 19, input),
            on_line(TokenType::SignedIntegerLiteral(-i64::MAX), 0, 30, 30, 20, input),
        ])
    );
}

#[test]
fn prefixes_override_the_mode() {
    let input = "0u52 0i52 0x52 0b1";
    assert_eq!(
        lex_as(input, NumericType::Signed),
        Ok(vec![
            on_line(TokenType::UnsignedIntegerLiteral(52), 0, 2, 2, 2, input),
            on_line(TokenType::SignedIntegerLiteral(52), 0, 7, 7, 2, input),
            on_line(TokenType::UnsignedIntegerLiteral(0x52), 0, 12, 12, 2, input),
            on_line(TokenType::UnsignedIntegerLiteral(1), 0, 17, 17, 1, input),
        ])
    );
    assert_eq!(lex_as(input, NumericType::Float), lex_as(input, NumericType::Signed));
    assert_eq!(lex(input), lex_as(input, NumericType::Signed));
}

#[test]
fn named_register_is_not_checked_for_a_boundary() {
    let input = "$rspx";
    assert_eq!(
        lex(input),
        Ok(vec![
            on_line(TokenType::Register(Register::RSP), 0, 1, 1, 3, input),
            on_line(TokenType::Identifier, 0, 4, 4, 1, input),
        ])
    );
}

#[test]
fn file_registry_hands_out_the_record() {
    let mut manager = FileInfoManager::new();
    let a = manager.new_file(String::from("a.asm"), String::from("ldi"));
    let b = manager.new_file(String::from("b.asm"), String::from("call"));
    assert_eq!(a.name, "a.asm");
    assert_eq!(a.contents, "ldi");
    assert_eq!(b.name, "b.asm");
    assert_ne!(a, b);
    let tokens = Lexer::tokenize("ldi".chars().collect(), a.clone(), table()).unwrap();
    assert!(Rc::ptr_eq(&tokens[0].range.file, &a));
}

#[test]
fn range_length_is_the_lexeme_length() {
    let input = "call MAIN, 0x1f";
    for t in lex(input).unwrap().iter() {
        assert_eq!(t.range.len(), t.range.end.col - t.range.start.col);
        assert_eq!(t.range.start.row, t.range.end.row);
    }
}
