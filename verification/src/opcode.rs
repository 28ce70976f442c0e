//! The operation codes of the machine.
//!
//! Each of the eight executable opcodes is bound to a fixed 3-bit code.
//! `NUM` is a loader-only marker ("store the operand verbatim as a raw
//! word"); it has no 3-bit code and never comes out of `decode`.

use crate::text::{chars_eq_str, str_chars};
use vstd::prelude::*;
use vstd::string::StringExecFns;

verus! {

/// An operation code for the machine.
#[allow(non_camel_case_types)]
#[derive(Debug, Copy, Clone, PartialEq, Eq, Structural)]
pub enum Opcode {
    /// Indirect jump
    JMP,
    /// Relative jump
    JRP,
    /// Load negative of value from given address to accumulator
    LDN,
    /// Store accumulator in given address
    STO,
    /// Subtract value in given address from accumulator
    SUB,
    /// Duplicate encoding of SUB with identical execution semantics
    SUB2,
    /// Skip next instruction if accumulator is negative
    CMP,
    /// Halt the program
    STP,
    /// Not an instruction: loader-only marker for a raw number
    NUM,
}

/// The 3-bit code bound to an opcode; `NUM` has none and is mapped to 8,
/// one past the largest code.
pub open spec fn opcode_code(op: Opcode) -> u8 {
    match op {
        Opcode::JMP => 0,
        Opcode::JRP => 1,
        Opcode::LDN => 2,
        Opcode::STO => 3,
        Opcode::SUB => 4,
        Opcode::SUB2 => 5,
        Opcode::CMP => 6,
        Opcode::STP => 7,
        Opcode::NUM => 8,
    }
}

/// The opcode bound to a 3-bit code. Codes 8 and above, which no word's
/// opcode field can hold, map to the loader-only marker `NUM`.
pub open spec fn opcode_of_code(c: u32) -> Opcode {
    if c == 0 {
        Opcode::JMP
    } else if c == 1 {
        Opcode::JRP
    } else if c == 2 {
        Opcode::LDN
    } else if c == 3 {
        Opcode::STO
    } else if c == 4 {
        Opcode::SUB
    } else if c == 5 {
        Opcode::SUB2
    } else if c == 6 {
        Opcode::CMP
    } else if c == 7 {
        Opcode::STP
    } else {
        Opcode::NUM
    }
}

/// What a mnemonic token denotes: a case-sensitive exact match against
/// the nine mnemonics; anything else is a recoverable parse error.
pub open spec fn parse_opcode_spec(s: Seq<char>) -> Result<Opcode, ()> {
    if s == "JMP"@ {
        Ok(Opcode::JMP)
    } else if s == "JRP"@ {
        Ok(Opcode::JRP)
    } else if s == "LDN"@ {
        Ok(Opcode::LDN)
    } else if s == "STO"@ {
        Ok(Opcode::STO)
    } else if s == "SUB"@ {
        Ok(Opcode::SUB)
    } else if s == "SUB2"@ {
        Ok(Opcode::SUB2)
    } else if s == "CMP"@ {
        Ok(Opcode::CMP)
    } else if s == "STP"@ {
        Ok(Opcode::STP)
    } else if s == "NUM"@ {
        Ok(Opcode::NUM)
    } else {
        Err(())
    }
}

/// The exact mnemonic of an opcode; `SUB2` renders distinctly from `SUB`
/// even though the two execute identically.
pub open spec fn mnemonic_spec(op: Opcode) -> Seq<char> {
    match op {
        Opcode::JMP => "JMP"@,
        Opcode::JRP => "JRP"@,
        Opcode::LDN => "LDN"@,
        Opcode::STO => "STO"@,
        Opcode::SUB => "SUB"@,
        Opcode::SUB2 => "SUB2"@,
        Opcode::CMP => "CMP"@,
        Opcode::STP => "STP"@,
        Opcode::NUM => "NUM"@,
    }
}

impl Opcode {
    /// The numeric code of this opcode: its 3-bit pattern, or 8 for `NUM`,
    /// which has no 3-bit pattern.
    pub fn code(&self) -> (c: u8)
        ensures
            c == opcode_code(*self),
            !(*self is NUM) ==> c < 8,
    {
        match self {
            Opcode::JMP => 0,
            Opcode::JRP => 1,
            Opcode::LDN => 2,
            Opcode::STO => 3,
            Opcode::SUB => 4,
            Opcode::SUB2 => 5,
            Opcode::CMP => 6,
            Opcode::STP => 7,
            Opcode::NUM => 8,
        }
    }

    /// The opcode bound to a 3-bit pattern. Callers mask the pattern to
    /// 3 bits first; any other input is an internal invariant violation,
    /// so it is excluded outright.
    pub fn decode(bits: u8) -> (op: Opcode)
        requires
            bits < 8,
        ensures
            op == opcode_of_code(bits as u32),
            opcode_code(op) == bits,
            !(op is NUM),
    {
        if bits == 0 {
            Opcode::JMP
        } else if bits == 1 {
            Opcode::JRP
        } else if bits == 2 {
            Opcode::LDN
        } else if bits == 3 {
            Opcode::STO
        } else if bits == 4 {
            Opcode::SUB
        } else if bits == 5 {
            Opcode::SUB2
        } else if bits == 6 {
            Opcode::CMP
        } else {
            Opcode::STP
        }
    }

    /// Parse a mnemonic token: a case-sensitive exact match against the
    /// nine mnemonics.
    pub fn parse_token(token: &Vec<char>) -> (r: Result<Opcode, ()>)
        ensures
            r == parse_opcode_spec(token@),
    {
        if chars_eq_str(token, "JMP") {
            Ok(Opcode::JMP)
        } else if chars_eq_str(token, "JRP") {
            Ok(Opcode::JRP)
        } else if chars_eq_str(token, "LDN") {
            Ok(Opcode::LDN)
        } else if chars_eq_str(token, "STO") {
            Ok(Opcode::STO)
        } else if chars_eq_str(token, "SUB") {
            Ok(Opcode::SUB)
        } else if chars_eq_str(token, "SUB2") {
            Ok(Opcode::SUB2)
        } else if chars_eq_str(token, "CMP") {
            Ok(Opcode::CMP)
        } else if chars_eq_str(token, "STP") {
            Ok(Opcode::STP)
        } else if chars_eq_str(token, "NUM") {
            Ok(Opcode::NUM)
        } else {
            Err(())
        }
    }

    /// Parse a mnemonic given as a string slice.
    pub fn parse(mnemonic: &str) -> (r: Result<Opcode, ()>)
        ensures
            r == parse_opcode_spec(mnemonic@),
    {
        let token = str_chars(mnemonic);
        Opcode::parse_token(&token)
    }

    /// The exact mnemonic of this opcode, for display.
    pub fn mnemonic(&self) -> (s: String)
        ensures
            s@ == mnemonic_spec(*self),
    {
        match self {
            Opcode::JMP => String::from_str("JMP"),
            Opcode::JRP => String::from_str("JRP"),
            Opcode::LDN => String::from_str("LDN"),
            Opcode::STO => String::from_str("STO"),
            Opcode::SUB => String::from_str("SUB"),
            Opcode::SUB2 => String::from_str("SUB2"),
            Opcode::CMP => String::from_str("CMP"),
            Opcode::STP => String::from_str("STP"),
            Opcode::NUM => String::from_str("NUM"),
        }
    }
}

} // verus!
