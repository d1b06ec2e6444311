use std::rc::Rc;

use voxl_lexer::lexer::{Lexer, LexerError, NumericType};
use voxl_lexer::mnemonics::Mnemonic;
use voxl_lexer::text_mapping::{FileInfo, FileInfoManager, Position, TextRange};
use voxl_lexer::token::TokenType;

fn handle(input: &str) -> Rc<FileInfo> {
    let mut manager = FileInfoManager::new();
    manager.new_file(String::from("unit.asm"), input.to_string())
}

fn failure(input: &str) -> LexerError {
    Lexer::tokenize(input.chars().collect(), handle(input), Vec::<Mnemonic>::new()).unwrap_err()
}

fn failure_as(input: &str, mode: NumericType) -> LexerError {
    let mut lexer = Lexer::new(input.chars().collect(), handle(input), mode, Vec::new());
    lexer.try_process().unwrap().unwrap_err()
}

fn span(from: usize, to: usize, input: &str) -> TextRange {
    TextRange::new(Position::new(from, 0, from), Position::new(to, 0, to), handle(input))
}

fn place(index: usize) -> Position {
    Position::new(index, 0, index)
}

#[test]
fn unexpected_character_is_reported_where_it_stands() {
    assert_eq!(failure("@"), LexerError::UnexpectedCharacter('@', place(0)));
    assert_eq!(failure(", ;"), LexerError::UnexpectedCharacter(';', place(2)));
    assert_eq!(
        failure("a\n b \u{20ac}"),
        LexerError::UnexpectedCharacter('\u{20ac}', Position::new(5, 1, 3))
    );
}

#[test]
fn minus_is_refused_under_the_unsigned_mode() {
    assert_eq!(failure("-1"), LexerError::UnexpectedCharacter('-', place(0)));
    assert_eq!(failure("1 -1"), LexerError::UnexpectedCharacter('-', place(2)));
}

#[test]
fn directive_without_a_name_is_empty() {
    assert_eq!(failure("%"), LexerError::EmptyIdentifier(place(1)));
    assert_eq!(failure("% repeat"), LexerError::EmptyIdentifier(place(1)));
    assert_eq!(failure("%1"), LexerError::EmptyIdentifier(place(1)));
}

#[test]
fn directive_names_are_matched_whole() {
    assert_eq!(failure("%repeats"), LexerError::UnknownDirective(span(1, 8, "%repeats")));
    assert_eq!(failure("%Repeat"), LexerError::UnknownDirective(span(1, 7, "%Repeat")));
    assert_eq!(failure("%end"), LexerError::UnknownDirective(span(1, 4, "%end")));
}

#[test]
fn register_at_end_of_input() {
    assert_eq!(failure("$"), LexerError::ExpectedRegisterFoundEOF(place(1)));
    assert_eq!(failure("$r"), LexerError::ExpectedRegisterFoundEOF(place(1)));
    assert_eq!(failure("$rs"), LexerError::ExpectedRegisterFoundEOF(place(1)));
    assert_eq!(failure(", $rf"), LexerError::ExpectedRegisterFoundEOF(place(3)));
}

#[test]
fn malformed_registers_cover_the_whole_name() {
    assert_eq!(failure("$x"), LexerError::InvalidRegister(span(1, 2, "$x")));
    assert_eq!(failure("$abc9 ,"), LexerError::InvalidRegister(span(1, 5, "$abc9 ,")));
    assert_eq!(failure("$ r0"), LexerError::InvalidRegister(span(1, 1, "$ r0")));
    assert_eq!(failure("$rq1"), LexerError::InvalidRegister(span(1, 4, "$rq1")));
    assert_eq!(failure("$r,"), LexerError::InvalidRegister(span(1, 2, "$r,")));
    assert_eq!(failure("$rsx2 "), LexerError::InvalidRegister(span(1, 5, "$rsx2 ")));
    assert_eq!(failure("$rf,"), LexerError::InvalidRegister(span(1, 3, "$rf,")));
    assert_eq!(failure("$r10"), LexerError::InvalidRegister(span(1, 4, "$r10")));
    assert_eq!(failure("$r0a"), LexerError::InvalidRegister(span(1, 4, "$r0a")));
    assert_eq!(failure("$r0\u{e9}\u{663} "), LexerError::InvalidRegister(span(1, 5, "$r0\u{e9}\u{663} ")));
}

#[test]
fn signed_literal_needs_a_digit() {
    assert_eq!(failure("0i"), LexerError::InvalidSignedIntegerLiteral(span(2, 2, "0i")));
    assert_eq!(failure("0i-"), LexerError::InvalidSignedIntegerLiteral(span(3, 3, "0i-")));
    assert_eq!(failure("0i-x"), LexerError::InvalidSignedIntegerLiteral(span(3, 3, "0i-x")));
    assert_eq!(
        failure_as("- 1", NumericType::Signed),
        LexerError::InvalidSignedIntegerLiteral(span(1, 1, "- 1"))
    );
}

#[test]
fn signed_overflow_covers_the_literal_up_to_the_digit() {
    let input = "0i9223372036854775808";
    assert_eq!(failure(input), LexerError::InvalidSignedIntegerLiteral(span(2, 21, input)));
    let input = "0i-9223372036854775808";
    assert_eq!(failure(input), LexerError::InvalidSignedIntegerLiteral(span(2, 22, input)));
    let input = "92233720368547758070";
    assert_eq!(
        failure_as(input, NumericType::Signed),
        LexerError::InvalidSignedIntegerLiteral(span(0, 20, input))
    );
    let input = "-100000000000000000000000";
    assert_eq!(
        failure_as(input, NumericType::Signed),
        LexerError::InvalidSignedIntegerLiteral(span(0, 21, input))
    );
}

#[test]
fn unsigned_prefix_without_digits_reports_the_signed_kind() {
    assert_eq!(failure("0u"), LexerError::InvalidSignedIntegerLiteral(span(2, 2, "0u")));
    assert_eq!(failure("0u-1"), LexerError::InvalidSignedIntegerLiteral(span(2, 2, "0u-1")));
}

#[test]
fn unsigned_prefix_overflow() {
    let input = "0u18446744073709551616";
    assert_eq!(failure(input), LexerError::InvalidUnsignedIntegerLiteral(span(2, 22, input)));
}

#[test]
fn hex_stops_at_the_first_other_character() {
    let input = "0x1g";
    let tokens =
        Lexer::tokenize(input.chars().collect(), handle(input), Vec::<Mnemonic>::new()).unwrap();
    assert_eq!(tokens.len(), 2);
    assert_eq!(tokens[0].token_type, TokenType::UnsignedIntegerLiteral(1));
    assert_eq!(tokens[1].token_type, TokenType::Identifier);
    assert_eq!(failure("0xg"), LexerError::InvalidHexLiteral(span(2, 2, "0xg")));
}

#[test]
fn first_error_wins() {
    assert_eq!(failure("%bogus @ $"), LexerError::UnknownDirective(span(1, 6, "%bogus @ $")));
    assert_eq!(
        failure(",,\n@ %bogus"),
        LexerError::UnexpectedCharacter('@', Position::new(3, 1, 0))
    );
}

#[test]
fn tokens_before_an_error_stay() {
    let input = ", : @ ,";
    let mut lexer =
        Lexer::new(input.chars().collect(), handle(input), NumericType::Unsigned, Vec::new());
    assert_eq!(
        lexer.try_process(),
        Some(Err(LexerError::UnexpectedCharacter('@', place(4))))
    );
    let tokens = lexer.into_tokens();
    assert_eq!(tokens.len(), 2);
    assert_eq!(tokens[0].token_type, TokenType::Comma);
    assert_eq!(tokens[1].token_type, TokenType::Colon);
}

#[test]
fn float_literals_are_not_read() {
    let none = |input: &str| {
        Lexer::try_tokenize(input.chars().collect(), handle(input), Vec::<Mnemonic>::new())
    };
    assert_eq!(none("0f1.5"), None);
    assert_eq!(none(", 0f"), None);
    assert!(matches!(none(", 0 f"), Some(Ok(_))));
    assert!(matches!(none("@ 0f"), Some(Err(LexerError::UnexpectedCharacter('@', _)))));
}

#[test]
fn float_mode_leaves_the_tokenizer_as_it_was() {
    let input = ", 12";
    let mut lexer =
        Lexer::new(input.chars().collect(), handle(input), NumericType::Float, Vec::new());
    let before = lexer.clone();
    assert_eq!(lexer.try_process(), None);
    assert_eq!(lexer, before);
    assert_eq!(lexer.into_tokens(), vec![]);
}

#[test]
fn float_mode_still_reads_what_has_no_bare_number() {
    let input = ", 0x10 name";
    let mut lexer =
        Lexer::new(input.chars().collect(), handle(input), NumericType::Float, Vec::new());
    assert_eq!(lexer.try_process(), Some(Ok(())));
    assert_eq!(lexer.into_tokens().len(), 3);
}
