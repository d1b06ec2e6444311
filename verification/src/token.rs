//! Tokens: a classified lexeme and the stretch of source it was read from.

use crate::register::Register;
use crate::text_mapping::TextRange;
use vstd::prelude::*;

verus! {

/// What a token is. Literals carry their value, registers and opcodes their
/// decoded operand; each directive keyword has a kind of its own.
#[derive(Clone, Copy, Debug, PartialEq, Eq, Structural)]
pub enum TokenType {
    Comma,
    Colon,
    Register(Register),
    Opcode(u8),
    Identifier,
    UnsignedIntegerLiteral(u64),
    SignedIntegerLiteral(i64),
    Repeat,
    EndRepeat,
    If,
    Else,
    Endif,
    Import,
    Constant,
}

/// A classified lexeme.
#[derive(Clone, Debug, PartialEq)]
pub struct Token {
    pub token_type: TokenType,
    pub range: TextRange,
}

impl Token {
    pub fn new(token_type: TokenType, range: TextRange) -> (t: Token)
        ensures
            t == (Token { token_type, range }),
    {
        Token { token_type, range }
    }
}

/// The directive that a name spells, if it is one of the seven keywords.
pub open spec fn directive_of(name: Seq<char>) -> Option<TokenType> {
    if name == seq!['r', 'e', 'p', 'e', 'a', 't'] {
        Some(TokenType::Repeat)
    } else if name == seq!['e', 'n', 'd', '_', 'r', 'e', 'p', 'e', 'a', 't'] {
        Some(TokenType::EndRepeat)
    } else if name == seq!['i', 'f'] {
        Some(TokenType::If)
    } else if name == seq!['e', 'l', 's', 'e'] {
        Some(TokenType::Else)
    } else if name == seq!['e', 'n', 'd', 'i', 'f'] {
        Some(TokenType::Endif)
    } else if name == seq!['i', 'm', 'p', 'o', 'r', 't'] {
        Some(TokenType::Import)
    } else if name == seq!['c', 'o', 'n', 's', 't'] {
        Some(TokenType::Constant)
    } else {
        None
    }
}

/// Whether the characters from `start` up to `end` are exactly `word`.
pub fn spells(chars: &Vec<char>, start: usize, end: usize, word: &[char]) -> (b: bool)
    requires
        start <= end <= chars.len(),
    ensures
        b == (chars@.subrange(start as int, end as int) == word@),
{
    let n = end - start;
    if word.len() != n {
        return false;
    }
    let mut i: usize = 0;
    while i < n
        invariant
            start + n == end,
            end <= chars.len(),
            word@.len() == n,
            i <= n,
            forall|j: int| 0 <= j < i ==> chars@[start + j] == word@[j],
        decreases n - i,
    {
        if chars[start + i] != word[i] {
            assert(chars@.subrange(start as int, end as int)[i as int] != word@[i as int]);
            return false;
        }
        i += 1;
    }
    assert(chars@.subrange(start as int, end as int) =~= word@);
    true
}

impl TokenType {
    /// Reads a directive name out of a buffer.
    pub fn match_identifier(chars: &Vec<char>, start: usize, end: usize) -> (kind: Option<
        TokenType,
    >)
        requires
            start <= end <= chars.len(),
        ensures
            kind == directive_of(chars@.subrange(start as int, end as int)),
    {
        let repeat = ['r', 'e', 'p', 'e', 'a', 't'];
        let end_repeat = ['e', 'n', 'd', '_', 'r', 'e', 'p', 'e', 'a', 't'];
        let if_word = ['i', 'f'];
        let else_word = ['e', 'l', 's', 'e'];
        let endif = ['e', 'n', 'd', 'i', 'f'];
        let import = ['i', 'm', 'p', 'o', 'r', 't'];
        let constant = ['c', 'o', 'n', 's', 't'];
        proof {
            assert(repeat@ =~= seq!['r', 'e', 'p', 'e', 'a', 't']);
            assert(end_repeat@ =~= seq!['e', 'n', 'd', '_', 'r', 'e', 'p', 'e', 'a', 't']);
            assert(if_word@ =~= seq!['i', 'f']);
            assert(else_word@ =~= seq!['e', 'l', 's', 'e']);
            assert(endif@ =~= seq!['e', 'n', 'd', 'i', 'f']);
            assert(import@ =~= seq!['i', 'm', 'p', 'o', 'r', 't']);
            assert(constant@ =~= seq!['c', 'o', 'n', 's', 't']);
        }
        if spells(chars, start, end, repeat.as_slice()) {
            Some(TokenType::Repeat)
        } else if spells(chars, start, end, end_repeat.as_slice()) {
            Some(TokenType::EndRepeat)
        } else if spells(chars, start, end, if_word.as_slice()) {
            Some(TokenType::If)
        } else if spells(chars, start, end, else_word.as_slice()) {
            Some(TokenType::Else)
        } else if spells(chars, start, end, endif.as_slice()) {
            Some(TokenType::Endif)
        } else if spells(chars, start, end, import.as_slice()) {
            Some(TokenType::Import)
        } else if spells(chars, start, end, constant.as_slice()) {
            Some(TokenType::Constant)
        } else {
            None
        }
    }
}

} // verus!
