use std::rc::Rc;

use voxl_lexer::lexer::{Lexer, LexerError};
use voxl_lexer::mnemonics::Mnemonic;
use voxl_lexer::register::Register;
use voxl_lexer::text_mapping::{FileInfo, FileInfoManager, Position, TextRange};
use voxl_lexer::token::{Token, TokenType};

fn new_token(tp: TokenType, col: usize, len: usize, file: Rc<FileInfo>) -> Token {
    return Token::new(
        tp,
        TextRange::new(
            Position::new(col, 0, col),
            Position::new(col + len, 0, col + len),
            file,
        ),
    );
}

fn mnemonics() -> Vec<Mnemonic> {
    vec![
        Mnemonic::new("ldi".chars().collect(), 3),
        Mnemonic::new("call".chars().collect(), 0x43),
    ]
}

fn directive_case(input: &str, tp: TokenType) {
    let mut f_man = FileInfoManager::new();

    let f = f_man.new_file(String::new(), input.to_string());

    let output = Lexer::tokenize(input.chars().collect(), f.clone(), mnemonics()).unwrap();

    assert_eq!(output, vec![new_token(tp, 1, input.len() - 1, f.clone())]);
}

#[test]
fn test_registers() {
    let input = "$rsp $rfp $rou $rfl $rra $rrb $r0 $r1 $r2 $r3 $r4 $r5 $r6 $r7 $r8 $r9";

    let mut f_man = FileInfoManager::new();

    let f = f_man.new_file(String::new(), input.to_string());

    let output = Lexer::tokenize(input.chars().collect(), f.clone(), mnemonics()).unwrap();

    for i in 0..16 {
        assert_eq!(
            output[i],
            new_token(
                TokenType::Register(Register::from_ordinal(i as u8).unwrap()),
                1 + if i >= 6 { 5 * 6 + 4 * (i - 6) } else { 5 * i },
                if i >= 6 { 2 } else { 3 },
                f.clone()
            )
        );
    }
}

#[test]
fn test_repeat() {
    directive_case("%repeat", TokenType::Repeat);
}

#[test]
fn test_end_repeat() {
    directive_case("%end_repeat", TokenType::EndRepeat);
}

#[test]
fn test_if() {
    directive_case("%if", TokenType::If);
}

#[test]
fn test_else() {
    directive_case("%else", TokenType::Else);
}

#[test]
fn test_endif() {
    directive_case("%endif", TokenType::Endif);
}

#[test]
fn test_import() {
    directive_case("%import", TokenType::Import);
}

#[test]
fn test_const() {
    directive_case("%const", TokenType::Constant);
}

#[test]
fn test_identifier() {
    let input: &str = "MAIN";

    let mut f_man = FileInfoManager::new();

    let f = f_man.new_file(String::new(), input.to_string());

    let output = Lexer::tokenize(input.chars().collect(), f.clone(), mnemonics()).unwrap();

    assert_eq!(
        output,
        vec![new_token(TokenType::Identifier, 0, input.len(), f.clone())]
    );
}

#[test]
fn test_opcode_and_identifier() {
    let input: &str = "call MAIN";
    let mut f_man = FileInfoManager::new();
    let f = f_man.new_file(String::new(), input.to_string());
    let output = Lexer::tokenize(input.chars().collect(), f.clone(), mnemonics()).unwrap();

    assert_eq!(
        output,
        vec![
            new_token(TokenType::Opcode(0x43), 0, 4, f.clone()),
            new_token(TokenType::Identifier, 5, 4, f.clone())
        ]
    );
}

#[test]
fn test_single_instruction_example_ldi() {
    let input = "ldi 52, $r0";
    let mut f_man = FileInfoManager::new();
    let f = f_man.new_file(String::new(), input.to_string());
    let output = Lexer::tokenize(input.chars().collect(), f.clone(), mnemonics()).unwrap();

    assert_eq!(
        output,
        vec![
            new_token(TokenType::Opcode(3), 0, 3, f.clone()),
            new_token(TokenType::UnsignedIntegerLiteral(52), 4, 2, f.clone()),
            new_token(TokenType::Comma, 6, 1, f.clone()),
            new_token(TokenType::Register(Register::R0), 9, 2, f.clone()),
        ]
    );
}

#[test]
fn test_hex() {
    let input = "0x2abcdef";
    let mut f_man = FileInfoManager::new();
    let f = f_man.new_file(String::new(), input.to_string());
    let output = Lexer::tokenize(input.chars().collect(), f.clone(), mnemonics()).unwrap();

    assert_eq!(
        output,
        vec![new_token(
            TokenType::UnsignedIntegerLiteral(0x2abcdef),
            2,
            input.len() - 2,
            f.clone()
        )]
    )
}

#[test]
fn test_bin() {
    let input = "0b01100110";
    let mut f_man = FileInfoManager::new();
    let f = f_man.new_file(String::new(), input.to_string());
    let output = Lexer::tokenize(input.chars().collect(), f.clone(), mnemonics()).unwrap();

    assert_eq!(
        output,
        vec![new_token(
            TokenType::UnsignedIntegerLiteral(0b01100110),
            2,
            input.len() - 2,
            f.clone()
        )]
    )
}

#[test]
fn test_bin_64bits() {
    let input = "0b1110011001100110011001100110011001100110011001100110011001100110";
    let mut f_man = FileInfoManager::new();
    let f = f_man.new_file(String::new(), input.to_string());
    let output = Lexer::tokenize(input.chars().collect(), f.clone(), mnemonics()).unwrap();

    assert_eq!(
        output,
        vec![new_token(
            TokenType::UnsignedIntegerLiteral(
                0b1110011001100110011001100110011001100110011001100110011001100110
            ),
            2,
            input.len() - 2,
            f.clone()
        )]
    )
}

#[test]
fn test_bin_65bits() {
    let input = "0b11100110011001100110011001100110011001100110011001100110011001101";
    let mut f_man = FileInfoManager::new();
    let f = f_man.new_file(String::new(), input.to_string());
    let output = Lexer::tokenize(input.chars().collect(), f.clone(), mnemonics()).unwrap_err();

    assert_eq!(
        output,
        LexerError::InvalidBinaryLiteral(TextRange::new(
            Position::new(2, 0, 2),
            Position::new(input.len(), 0, input.len()),
            f.clone()
        ))
    )
}

#[test]
fn test_signed_int() {
    let input = "0i-123";
    let mut f_man = FileInfoManager::new();
    let f = f_man.new_file(String::new(), input.to_string());
    let output = Lexer::tokenize(input.chars().collect(), f.clone(), mnemonics()).unwrap();

    assert_eq!(
        output,
        vec![new_token(
            TokenType::SignedIntegerLiteral(-123),
            2,
            4,
            f.clone()
        )]
    );
}
