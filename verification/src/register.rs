//! Machine registers and the spellings that name them.

use crate::chars::{digit_value, is_decimal_digit};
use vstd::prelude::*;

verus! {

/// A machine register. The six named registers come first, then the ten
/// positional ones.
#[derive(Clone, Copy, Debug, PartialEq, Eq, Structural)]
pub enum Register {
    RSP,
    RFP,
    ROU,
    RFL,
    RRA,
    RRB,
    R0,
    R1,
    R2,
    R3,
    R4,
    R5,
    R6,
    R7,
    R8,
    R9,
}

impl Register {
    /// The register's number: named registers take 0 to 5, positional ones 6 to 15.
    pub open spec fn spec_ordinal(self) -> nat {
        match self {
            Register::RSP => 0,
            Register::RFP => 1,
            Register::ROU => 2,
            Register::RFL => 3,
            Register::RRA => 4,
            Register::RRB => 5,
            Register::R0 => 6,
            Register::R1 => 7,
            Register::R2 => 8,
            Register::R3 => 9,
            Register::R4 => 10,
            Register::R5 => 11,
            Register::R6 => 12,
            Register::R7 => 13,
            Register::R8 => 14,
            Register::R9 => 15,
        }
    }

    /// The register with a given number, if there is one.
    pub open spec fn spec_from_ordinal(n: nat) -> Option<Register> {
        if n == 0 {
            Some(Register::RSP)
        } else if n == 1 {
            Some(Register::RFP)
        } else if n == 2 {
            Some(Register::ROU)
        } else if n == 3 {
            Some(Register::RFL)
        } else if n == 4 {
            Some(Register::RRA)
        } else if n == 5 {
            Some(Register::RRB)
        } else if n == 6 {
            Some(Register::R0)
        } else if n == 7 {
            Some(Register::R1)
        } else if n == 8 {
            Some(Register::R2)
        } else if n == 9 {
            Some(Register::R3)
        } else if n == 10 {
            Some(Register::R4)
        } else if n == 11 {
            Some(Register::R5)
        } else if n == 12 {
            Some(Register::R6)
        } else if n == 13 {
            Some(Register::R7)
        } else if n == 14 {
            Some(Register::R8)
        } else if n == 15 {
            Some(Register::R9)
        } else {
            None
        }
    }

    /// The positional register `R0 + d`.
    pub open spec fn spec_positional(d: nat) -> Register
        recommends
            d < 10,
    {
        Self::spec_from_ordinal(6 + d).unwrap()
    }

    /// The register named by a two-letter suffix, if the pair names one.
    pub open spec fn spec_named(first: char, second: char) -> Option<Register> {
        if first == 'f' && second == 'p' {
            Some(Register::RFP)
        } else if first == 'f' && second == 'l' {
            Some(Register::RFL)
        } else if first == 's' && second == 'p' {
            Some(Register::RSP)
        } else if first == 'o' && second == 'u' {
            Some(Register::ROU)
        } else if first == 'r' && second == 'a' {
            Some(Register::RRA)
        } else if first == 'r' && second == 'b' {
            Some(Register::RRB)
        } else {
            None
        }
    }

    /// Whether a character can begin a two-letter register suffix.
    pub open spec fn spec_opens_name(c: char) -> bool {
        c == 'f' || c == 's' || c == 'o' || c == 'r'
    }

    /// The register spelled by what follows `$r`: one decimal digit, or a
    /// two-letter name.
    pub open spec fn spec_spelled(suffix: Seq<char>) -> Option<Register> {
        if suffix.len() == 1 && is_decimal_digit(suffix[0]) {
            Some(Self::spec_positional(digit_value(suffix[0])))
        } else if suffix.len() == 2 {
            Self::spec_named(suffix[0], suffix[1])
        } else {
            None
        }
    }

    pub fn ordinal(self) -> (n: u8)
        ensures
            n == self.spec_ordinal(),
            n < 16,
    {
        match self {
            Register::RSP => 0,
            Register::RFP => 1,
            Register::ROU => 2,
            Register::RFL => 3,
            Register::RRA => 4,
            Register::RRB => 5,
            Register::R0 => 6,
            Register::R1 => 7,
            Register::R2 => 8,
            Register::R3 => 9,
            Register::R4 => 10,
            Register::R5 => 11,
            Register::R6 => 12,
            Register::R7 => 13,
            Register::R8 => 14,
            Register::R9 => 15,
        }
    }

    pub fn from_ordinal(n: u8) -> (r: Option<Register>)
        ensures
            r == Self::spec_from_ordinal(n as nat),
            r is Some <==> n < 16,
            r is Some ==> r.unwrap().spec_ordinal() == n,
    {
        match n {
            0 => Some(Register::RSP),
            1 => Some(Register::RFP),
            2 => Some(Register::ROU),
            3 => Some(Register::RFL),
            4 => Some(Register::RRA),
            5 => Some(Register::RRB),
            6 => Some(Register::R0),
            7 => Some(Register::R1),
            8 => Some(Register::R2),
            9 => Some(Register::R3),
            10 => Some(Register::R4),
            11 => Some(Register::R5),
            12 => Some(Register::R6),
            13 => Some(Register::R7),
            14 => Some(Register::R8),
            15 => Some(Register::R9),
            _ => None,
        }
    }

    pub fn positional(d: u8) -> (r: Register)
        requires
            d < 10,
        ensures
            r == Self::spec_positional(d as nat),
            r.spec_ordinal() == 6 + d,
    {
        match Self::from_ordinal(6 + d) {
            Some(r) => r,
            None => Register::R0,
        }
    }

    pub fn opens_name(c: char) -> (b: bool)
        ensures
            b == Self::spec_opens_name(c),
    {
        c == 'f' || c == 's' || c == 'o' || c == 'r'
    }

    pub fn named(first: char, second: char) -> (r: Option<Register>)
        ensures
            r == Self::spec_named(first, second),
    {
        if first == 'f' && second == 'p' {
            Some(Register::RFP)
        } else if first == 'f' && second == 'l' {
            Some(Register::RFL)
        } else if first == 's' && second == 'p' {
            Some(Register::RSP)
        } else if first == 'o' && second == 'u' {
            Some(Register::ROU)
        } else if first == 'r' && second == 'a' {
            Some(Register::RRA)
        } else if first == 'r' && second == 'b' {
            Some(Register::RRB)
        } else {
            None
        }
    }
}

/// Numbering and lookup by number are inverse to each other.
pub proof fn ordinal_round_trip(r: Register, n: nat)
    ensures
        Register::spec_from_ordinal(r.spec_ordinal()) == Some(r),
        Register::spec_from_ordinal(n) is Some ==> Register::spec_from_ordinal(
            n,
        ).unwrap().spec_ordinal() == n,
{
}

/// No two spellings name the same register: the sixteen suffixes that spell a
/// register spell sixteen different ones.
pub proof fn spellings_are_distinct(a: Seq<char>, b: Seq<char>)
    requires
        Register::spec_spelled(a) is Some,
        Register::spec_spelled(a) == Register::spec_spelled(b),
    ensures
        a == b,
{
    assert(a.len() == b.len());
    assert(a[0] == b[0]);
    if a.len() == 2 {
        assert(a[1] == b[1]);
    }
    assert(a =~= b);
}

/// Every digit and every listed pair of letters spells a register, so the
/// mapping is total on the spellings the grammar admits.
pub proof fn spellings_are_total(d: char)
    requires
        is_decimal_digit(d),
    ensures
        Register::spec_spelled(seq![d]) == Some(Register::spec_positional(digit_value(d))),
        Register::spec_spelled(seq!['s', 'p']) == Some(Register::RSP),
        Register::spec_spelled(seq!['f', 'p']) == Some(Register::RFP),
        Register::spec_spelled(seq!['o', 'u']) == Some(Register::ROU),
        Register::spec_spelled(seq!['f', 'l']) == Some(Register::RFL),
        Register::spec_spelled(seq!['r', 'a']) == Some(Register::RRA),
        Register::spec_spelled(seq!['r', 'b']) == Some(Register::RRB),
{
}

} // verus!
