//! The virtual machine's opcode set, with its numeric encoding and the
//! textual mnemonics that the assembly language uses.
use vstd::prelude::*;

verus! {

/// One operation of the virtual machine. `HLT` and `IGL` are the two
/// non-executable codes: `HLT` marks an explicit halt request and `IGL`
/// stands for any byte that decodes to no real operation.
#[derive(Debug, PartialEq, Eq, Structural, Clone, Copy)]
pub enum Opcode {
    HLT,
    IGL,
    LOAD,
    ADD,
    SUB,
    MUL,
    DIV,
    JMP,
    JMPB,
    JMPF,
    EQ,
    NEQ,
    GT,
    LT,
    GTQ,
    LTQ,
    JEQ,
    JNEQ,
    NOP,
    AlOC,
    INC,
    DEC,
    PTRS,
}

/// The numeric encoding of each opcode: the byte that stands first in the
/// 4-byte instruction word.
pub open spec fn spec_opcode_to_u8(code: Opcode) -> u8 {
    match code {
        Opcode::LOAD => 0,
        Opcode::ADD => 1,
        Opcode::SUB => 2,
        Opcode::MUL => 3,
        Opcode::DIV => 4,
        Opcode::JMP => 5,
        Opcode::JMPF => 6,
        Opcode::JMPB => 7,
        Opcode::EQ => 8,
        Opcode::NEQ => 9,
        Opcode::GT => 10,
        Opcode::LT => 11,
        Opcode::GTQ => 12,
        Opcode::LTQ => 13,
        Opcode::JEQ => 14,
        Opcode::JNEQ => 15,
        Opcode::NOP => 16,
        Opcode::AlOC => 17,
        Opcode::INC => 18,
        Opcode::DEC => 19,
        Opcode::PTRS => 20,
        Opcode::HLT => 254,
        Opcode::IGL => 255,
    }
}

/// Decoding a byte: every byte outside the encoded range is `IGL`, the two
/// sentinel values 254 and 255 included.
pub open spec fn spec_opcode_from_u8(v: u8) -> Opcode {
    match v {
        0 => Opcode::LOAD,
        1 => Opcode::ADD,
        2 => Opcode::SUB,
        3 => Opcode::MUL,
        4 => Opcode::DIV,
        5 => Opcode::JMP,
        6 => Opcode::JMPF,
        7 => Opcode::JMPB,
        8 => Opcode::EQ,
        9 => Opcode::NEQ,
        10 => Opcode::GT,
        11 => Opcode::LT,
        12 => Opcode::GTQ,
        13 => Opcode::LTQ,
        14 => Opcode::JEQ,
        15 => Opcode::JNEQ,
        16 => Opcode::NOP,
        17 => Opcode::AlOC,
        18 => Opcode::INC,
        19 => Opcode::DEC,
        20 => Opcode::PTRS,
        _ => Opcode::IGL,
    }
}

/// The mnemonic table of the assembly language. A word outside the table is
/// `IGL`; the heap, increment, decrement and print operations have no
/// mnemonic and can only be reached through their numeric encoding.
pub open spec fn spec_opcode_from_mnemonic(s: Seq<char>) -> Opcode {
    if s == "load"@ {
        Opcode::LOAD
    } else if s == "add"@ {
        Opcode::ADD
    } else if s == "sub"@ {
        Opcode::SUB
    } else if s == "mul"@ {
        Opcode::MUL
    } else if s == "div"@ {
        Opcode::DIV
    } else if s == "hlt"@ {
        Opcode::HLT
    } else if s == "jmp"@ {
        Opcode::JMP
    } else if s == "jmpf"@ {
        Opcode::JMPF
    } else if s == "jmpb"@ {
        Opcode::JMPB
    } else if s == "eq"@ {
        Opcode::EQ
    } else if s == "neq"@ {
        Opcode::NEQ
    } else if s == "gtq"@ {
        Opcode::GTQ
    } else if s == "gt"@ {
        Opcode::GT
    } else if s == "ltq"@ {
        Opcode::LTQ
    } else if s == "lt"@ {
        Opcode::LT
    } else if s == "jeq"@ {
        Opcode::JEQ
    } else if s == "jneq"@ {
        Opcode::JNEQ
    } else if s == "nop"@ {
        Opcode::NOP
    } else {
        Opcode::IGL
    }
}

impl Opcode {
    /// Encode this opcode as the leading byte of an instruction word.
    pub fn to_u8(self) -> (r: u8)
        ensures
            r == spec_opcode_to_u8(self),
    {
        match self {
            Opcode::LOAD => 0,
            Opcode::ADD => 1,
            Opcode::SUB => 2,
            Opcode::MUL => 3,
            Opcode::DIV => 4,
            Opcode::JMP => 5,
            Opcode::JMPF => 6,
            Opcode::JMPB => 7,
            Opcode::EQ => 8,
            Opcode::NEQ => 9,
            Opcode::GT => 10,
            Opcode::LT => 11,
            Opcode::GTQ => 12,
            Opcode::LTQ => 13,
            Opcode::JEQ => 14,
            Opcode::JNEQ => 15,
            Opcode::NOP => 16,
            Opcode::AlOC => 17,
            Opcode::INC => 18,
            Opcode::DEC => 19,
            Opcode::PTRS => 20,
            Opcode::HLT => 254,
            Opcode::IGL => 255,
        }
    }

    /// Decode one byte fetched from a program.
    pub fn from_u8(v: u8) -> (r: Opcode)
        ensures
            r == spec_opcode_from_u8(v),
    {
        match v {
            0 => Opcode::LOAD,
            1 => Opcode::ADD,
            2 => Opcode::SUB,
            3 => Opcode::MUL,
            4 => Opcode::DIV,
            5 => Opcode::JMP,
            6 => Opcode::JMPF,
            7 => Opcode::JMPB,
            8 => Opcode::EQ,
            9 => Opcode::NEQ,
            10 => Opcode::GT,
            11 => Opcode::LT,
            12 => Opcode::GTQ,
            13 => Opcode::LTQ,
            14 => Opcode::JEQ,
            15 => Opcode::JNEQ,
            16 => Opcode::NOP,
            17 => Opcode::AlOC,
            18 => Opcode::INC,
            19 => Opcode::DEC,
            20 => Opcode::PTRS,
            _ => Opcode::IGL,
        }
    }

    /// Look a mnemonic up in the table.
    pub fn from_mnemonic(s: &str) -> (r: Opcode)
        ensures
            r == spec_opcode_from_mnemonic(s@),
    {
        let w = s.to_owned();
        if w == "load".to_owned() {
            Opcode::LOAD
        } else if w == "add".to_owned() {
            Opcode::ADD
        } else if w == "sub".to_owned() {
            Opcode::SUB
        } else if w == "mul".to_owned() {
            Opcode::MUL
        } else if w == "div".to_owned() {
            Opcode::DIV
        } else if w == "hlt".to_owned() {
            Opcode::HLT
        } else if w == "jmp".to_owned() {
            Opcode::JMP
        } else if w == "jmpf".to_owned() {
            Opcode::JMPF
        } else if w == "jmpb".to_owned() {
            Opcode::JMPB
        } else if w == "eq".to_owned() {
            Opcode::EQ
        } else if w == "neq".to_owned() {
            Opcode::NEQ
        } else if w == "gtq".to_owned() {
            Opcode::GTQ
        } else if w == "gt".to_owned() {
            Opcode::GT
        } else if w == "ltq".to_owned() {
            Opcode::LTQ
        } else if w == "lt".to_owned() {
            Opcode::LT
        } else if w == "jeq".to_owned() {
            Opcode::JEQ
        } else if w == "jneq".to_owned() {
            Opcode::JNEQ
        } else if w == "nop".to_owned() {
            Opcode::NOP
        } else {
            Opcode::IGL
        }
    }
}

/// A decoded instruction, reduced to its operation.
#[derive(Debug, PartialEq, Eq, Structural, Clone, Copy)]
pub struct Instruction {
    pub opcode: Opcode,
}

impl Instruction {
    pub fn new(opcode: Opcode) -> (r: Instruction)
        ensures
            r.opcode == opcode,
    {
        Instruction { opcode }
    }
}

} // verus!
