//! The mnemonic table: which names are instructions, and their opcodes.

use crate::token::spells;
use vstd::prelude::*;

verus! {

/// One instruction of the target machine: its name and its opcode.
#[derive(Clone, Debug, PartialEq, Eq)]
pub struct Mnemonic {
    pub name: Vec<char>,
    pub code: u8,
}

impl Mnemonic {
    pub fn new(name: Vec<char>, code: u8) -> (m: Mnemonic)
        ensures
            m.name == name,
            m.code == code,
    {
        Mnemonic { name, code }
    }
}

/// The opcode of the first entry at or after `from` whose name is `name`.
pub open spec fn opcode_from(table: Seq<Mnemonic>, name: Seq<char>, from: int) -> Option<u8>
    decreases table.len() - from,
{
    if from < 0 || from >= table.len() {
        None
    } else if table[from].name@ == name {
        Some(table[from].code)
    } else {
        opcode_from(table, name, from + 1)
    }
}

/// The opcode that a name resolves to: that of the first entry so named.
pub open spec fn opcode_of(table: Seq<Mnemonic>, name: Seq<char>) -> Option<u8> {
    opcode_from(table, name, 0)
}

/// Looks up the characters from `start` up to `end` in the table.
pub fn resolve(table: &Vec<Mnemonic>, chars: &Vec<char>, start: usize, end: usize) -> (code:
    Option<u8>)
    requires
        start <= end <= chars.len(),
    ensures
        code == opcode_of(table@, chars@.subrange(start as int, end as int)),
{
    let ghost name = chars@.subrange(start as int, end as int);
    let mut i: usize = 0;
    while i < table.len()
        invariant
            start <= end <= chars.len(),
            name == chars@.subrange(start as int, end as int),
            i <= table.len(),
            opcode_of(table@, name) == opcode_from(table@, name, i as int),
        decreases table.len() - i,
    {
        if spells(chars, start, end, table[i].name.as_slice()) {
            return Some(table[i].code);
        }
        i += 1;
    }
    None
}

/// A name resolves exactly when some entry carries it, and then to the
/// opcode of an entry that does.
pub proof fn resolves_iff_listed(table: Seq<Mnemonic>, name: Seq<char>, from: int)
    requires
        0 <= from,
    ensures
        opcode_from(table, name, from) is Some <==> exists|i: int|
            from <= i < table.len() && #[trigger] table[i].name@ == name,
        opcode_from(table, name, from) is Some ==> exists|i: int|
            from <= i < table.len() && #[trigger] table[i].name@ == name && table[i].code
                == opcode_from(table, name, from).unwrap(),
    decreases table.len() - from,
{
    if from < table.len() {
        if table[from].name@ == name {
        } else {
            resolves_iff_listed(table, name, from + 1);
        }
    }
}

} // verus!
