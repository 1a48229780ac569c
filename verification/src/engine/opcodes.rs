//! The instruction set: one byte per opcode.

use vstd::prelude::*;

verus! {

/// Byte that introduces a directive in an image. It is no instruction.
pub const DIRECTIVE_OPCODE: u8 = 254;

/// Every opcode the machine knows, in byte order from 0, followed by the
/// directive marker and the stand-in for all unassigned bytes.
#[derive(Clone, Copy, Debug, PartialEq, Eq, Structural)]
pub enum Opcode {
    /// `nop`: does nothing.
    Nop,
    /// `i.const.0`: pushes the integer 0.
    IConst0,
    /// `i.const.1`: pushes the integer 1.
    IConst1,
    /// `i.const.2`: pushes the integer 2.
    IConst2,
    /// `i.const.3`: pushes the integer 3.
    IConst3,
    /// `f4.const.0`: pushes the bits of single-precision 0.0.
    F4Const0,
    /// `f4.const.1`: pushes the bits of single-precision 1.0.
    F4Const1,
    /// `f8.const.0`: pushes the bits of double-precision 0.0.
    F8Const0,
    /// `f8.const.1`: pushes the bits of double-precision 1.0.
    F8Const1,
    /// `i.const`: pushes its one operand byte, zero-extended.
    IConst,
    /// `i.const.w`: pushes its two operand bytes, little-endian, zero-extended.
    IConstW,
    /// `const`: pushes the constant-pool entry at its four-byte little-endian index.
    Const,
    /// `ld.arg.0`: pushes local 0.
    LdArg0,
    /// `ld.arg.1`: pushes local 1.
    LdArg1,
    /// `ld.arg.2`: pushes local 2.
    LdArg2,
    /// `ld.arg.3`: pushes local 3.
    LdArg3,
    /// `ld.arg`: pushes the local at its one-byte index.
    LdArg,
    /// `st.arg.0`: pops into local 0.
    StArg0,
    /// `st.arg.1`: pops into local 1.
    StArg1,
    /// `st.arg.2`: pops into local 2.
    StArg2,
    /// `st.arg.3`: pops into local 3.
    StArg3,
    /// `st.arg`: pops into the local at its one-byte index.
    StArg,
    /// `pop`: discards the top operand.
    Pop,
    /// `dup`: pushes a copy of the top operand.
    Dup,
    /// `swap`: exchanges the top two operands.
    Swap,
    /// `ret`: returns without a value.
    Ret,
    /// `ret.val`: returns with the top operand as value.
    RetVal,
    /// `i.add`: integer sum.
    IAdd,
    /// `f4.add`: single-precision sum.
    F4Add,
    /// `f8.add`: double-precision sum.
    F8Add,
    /// `i.sub`: integer difference.
    ISub,
    /// `f4.sub`: single-precision difference.
    F4Sub,
    /// `f8.sub`: double-precision difference.
    F8Sub,
    /// `i.mul`: integer product.
    IMul,
    /// `f4.mul`: single-precision product.
    F4Mul,
    /// `f8.mul`: double-precision product.
    F8Mul,
    /// `i.div`: integer quotient.
    IDiv,
    /// `f4.div`: single-precision quotient.
    F4Div,
    /// `f8.div`: double-precision quotient.
    F8Div,
    /// `i.rem`: integer remainder.
    IRem,
    /// `f4.rem`: single-precision remainder.
    F4Rem,
    /// `f8.rem`: double-precision remainder.
    F8Rem,
    /// `i.neg`: integer negation.
    INeg,
    /// `f4.neg`: single-precision negation.
    F4Neg,
    /// `f8.neg`: double-precision negation.
    F8Neg,
    /// `shl`: shift left.
    Shl,
    /// `shr`: logical shift right.
    Shr,
    /// `ashr`: arithmetic shift right.
    AShr,
    /// `and`: bitwise and.
    And,
    /// `or`: bitwise or.
    Or,
    /// `xor`: bitwise exclusive or.
    Xor,
    /// `not`: bitwise complement.
    Not,
    /// Byte 254: introduces a directive; illegal inside code.
    Directive,
    /// Any byte that no instruction is assigned to.
    Unimplemented,
}

impl Opcode {
    /// The opcode that `byte` encodes. Bytes without an instruction decode to
    /// `Unimplemented`.
    pub open spec fn spec_from_byte(byte: u8) -> Opcode {
        if byte == 0 {
            Opcode::Nop
        } else if byte == 1 {
            Opcode::IConst0
        } else if byte == 2 {
            Opcode::IConst1
        } else if byte == 3 {
            Opcode::IConst2
        } else if byte == 4 {
            Opcode::IConst3
        } else if byte == 5 {
            Opcode::F4Const0
        } else if byte == 6 {
            Opcode::F4Const1
        } else if byte == 7 {
            Opcode::F8Const0
        } else if byte == 8 {
            Opcode::F8Const1
        } else if byte == 9 {
            Opcode::IConst
        } else if byte == 10 {
            Opcode::IConstW
        } else if byte == 11 {
            Opcode::Const
        } else if byte == 12 {
            Opcode::LdArg0
        } else if byte == 13 {
            Opcode::LdArg1
        } else if byte == 14 {
            Opcode::LdArg2
        } else if byte == 15 {
            Opcode::LdArg3
        } else if byte == 16 {
            Opcode::LdArg
        } else if byte == 17 {
            Opcode::StArg0
        } else if byte == 18 {
            Opcode::StArg1
        } else if byte == 19 {
            Opcode::StArg2
        } else if byte == 20 {
            Opcode::StArg3
        } else if byte == 21 {
            Opcode::StArg
        } else if byte == 22 {
            Opcode::Pop
        } else if byte == 23 {
            Opcode::Dup
        } else if byte == 24 {
            Opcode::Swap
        } else if byte == 25 {
            Opcode::Ret
        } else if byte == 26 {
            Opcode::RetVal
        } else if byte == 27 {
            Opcode::IAdd
        } else if byte == 28 {
            Opcode::F4Add
        } else if byte == 29 {
            Opcode::F8Add
        } else if byte == 30 {
            Opcode::ISub
        } else if byte == 31 {
            Opcode::F4Sub
        } else if byte == 32 {
            Opcode::F8Sub
        } else if byte == 33 {
            Opcode::IMul
        } else if byte == 34 {
            Opcode::F4Mul
        } else if byte == 35 {
            Opcode::F8Mul
        } else if byte == 36 {
            Opcode::IDiv
        } else if byte == 37 {
            Opcode::F4Div
        } else if byte == 38 {
            Opcode::F8Div
        } else if byte == 39 {
            Opcode::IRem
        } else if byte == 40 {
            Opcode::F4Rem
        } else if byte == 41 {
            Opcode::F8Rem
        } else if byte == 42 {
            Opcode::INeg
        } else if byte == 43 {
            Opcode::F4Neg
        } else if byte == 44 {
            Opcode::F8Neg
        } else if byte == 45 {
            Opcode::Shl
        } else if byte == 46 {
            Opcode::Shr
        } else if byte == 47 {
            Opcode::AShr
        } else if byte == 48 {
            Opcode::And
        } else if byte == 49 {
            Opcode::Or
        } else if byte == 50 {
            Opcode::Xor
        } else if byte == 51 {
            Opcode::Not
        } else if byte == 254 {
            Opcode::Directive
        } else {
            Opcode::Unimplemented
        }
    }

    /// The byte that encodes this opcode; 255 for `Unimplemented`.
    pub open spec fn spec_to_byte(self) -> u8 {
        match self {
            Opcode::Nop => 0,
            Opcode::IConst0 => 1,
            Opcode::IConst1 => 2,
            Opcode::IConst2 => 3,
            Opcode::IConst3 => 4,
            Opcode::F4Const0 => 5,
            Opcode::F4Const1 => 6,
            Opcode::F8Const0 => 7,
            Opcode::F8Const1 => 8,
            Opcode::IConst => 9,
            Opcode::IConstW => 10,
            Opcode::Const => 11,
            Opcode::LdArg0 => 12,
            Opcode::LdArg1 => 13,
            Opcode::LdArg2 => 14,
            Opcode::LdArg3 => 15,
            Opcode::LdArg => 16,
            Opcode::StArg0 => 17,
            Opcode::StArg1 => 18,
            Opcode::StArg2 => 19,
            Opcode::StArg3 => 20,
            Opcode::StArg => 21,
            Opcode::Pop => 22,
            Opcode::Dup => 23,
            Opcode::Swap => 24,
            Opcode::Ret => 25,
            Opcode::RetVal => 26,
            Opcode::IAdd => 27,
            Opcode::F4Add => 28,
            Opcode::F8Add => 29,
            Opcode::ISub => 30,
            Opcode::F4Sub => 31,
            Opcode::F8Sub => 32,
            Opcode::IMul => 33,
            Opcode::F4Mul => 34,
            Opcode::F8Mul => 35,
            Opcode::IDiv => 36,
            Opcode::F4Div => 37,
            Opcode::F8Div => 38,
            Opcode::IRem => 39,
            Opcode::F4Rem => 40,
            Opcode::F8Rem => 41,
            Opcode::INeg => 42,
            Opcode::F4Neg => 43,
            Opcode::F8Neg => 44,
            Opcode::Shl => 45,
            Opcode::Shr => 46,
            Opcode::AShr => 47,
            Opcode::And => 48,
            Opcode::Or => 49,
            Opcode::Xor => 50,
            Opcode::Not => 51,
            Opcode::Directive => 254,
            Opcode::Unimplemented => 255,
        }
    }

    /// Number of operand bytes that follow the opcode byte.
    pub open spec fn spec_operand_count(self) -> u8 {
        match self {
            Opcode::IConst | Opcode::LdArg | Opcode::StArg => 1,
            Opcode::IConstW => 2,
            Opcode::Const => 4,
            _ => 0,
        }
    }

    /// The opcode that `byte` encodes.
    #[verifier::when_used_as_spec(spec_from_byte)]
    pub fn from_byte(byte: u8) -> (opcode: Opcode)
        ensures
            opcode == Opcode::spec_from_byte(byte),
    {
        match byte {
            0 => Opcode::Nop,
            1 => Opcode::IConst0,
            2 => Opcode::IConst1,
            3 => Opcode::IConst2,
            4 => Opcode::IConst3,
            5 => Opcode::F4Const0,
            6 => Opcode::F4Const1,
            7 => Opcode::F8Const0,
            8 => Opcode::F8Const1,
            9 => Opcode::IConst,
            10 => Opcode::IConstW,
            11 => Opcode::Const,
            12 => Opcode::LdArg0,
            13 => Opcode::LdArg1,
            14 => Opcode::LdArg2,
            15 => Opcode::LdArg3,
            16 => Opcode::LdArg,
            17 => Opcode::StArg0,
            18 => Opcode::StArg1,
            19 => Opcode::StArg2,
            20 => Opcode::StArg3,
            21 => Opcode::StArg,
            22 => Opcode::Pop,
            23 => Opcode::Dup,
            24 => Opcode::Swap,
            25 => Opcode::Ret,
            26 => Opcode::RetVal,
            27 => Opcode::IAdd,
            28 => Opcode::F4Add,
            29 => Opcode::F8Add,
            30 => Opcode::ISub,
            31 => Opcode::F4Sub,
            32 => Opcode::F8Sub,
            33 => Opcode::IMul,
            34 => Opcode::F4Mul,
            35 => Opcode::F8Mul,
            36 => Opcode::IDiv,
            37 => Opcode::F4Div,
            38 => Opcode::F8Div,
            39 => Opcode::IRem,
            40 => Opcode::F4Rem,
            41 => Opcode::F8Rem,
            42 => Opcode::INeg,
            43 => Opcode::F4Neg,
            44 => Opcode::F8Neg,
            45 => Opcode::Shl,
            46 => Opcode::Shr,
            47 => Opcode::AShr,
            48 => Opcode::And,
            49 => Opcode::Or,
            50 => Opcode::Xor,
            51 => Opcode::Not,
            254 => Opcode::Directive,
            _ => Opcode::Unimplemented,
        }
    }

    /// The byte that encodes this opcode.
    #[verifier::when_used_as_spec(spec_to_byte)]
    pub fn to_byte(self) -> (byte: u8)
        ensures
            byte == self.spec_to_byte(),
    {
        match self {
            Opcode::Nop => 0,
            Opcode::IConst0 => 1,
            Opcode::IConst1 => 2,
            Opcode::IConst2 => 3,
            Opcode::IConst3 => 4,
            Opcode::F4Const0 => 5,
            Opcode::F4Const1 => 6,
            Opcode::F8Const0 => 7,
            Opcode::F8Const1 => 8,
            Opcode::IConst => 9,
            Opcode::IConstW => 10,
            Opcode::Const => 11,
            Opcode::LdArg0 => 12,
            Opcode::LdArg1 => 13,
            Opcode::LdArg2 => 14,
            Opcode::LdArg3 => 15,
            Opcode::LdArg => 16,
            Opcode::StArg0 => 17,
            Opcode::StArg1 => 18,
            Opcode::StArg2 => 19,
            Opcode::StArg3 => 20,
            Opcode::StArg => 21,
            Opcode::Pop => 22,
            Opcode::Dup => 23,
            Opcode::Swap => 24,
            Opcode::Ret => 25,
            Opcode::RetVal => 26,
            Opcode::IAdd => 27,
            Opcode::F4Add => 28,
            Opcode::F8Add => 29,
            Opcode::ISub => 30,
            Opcode::F4Sub => 31,
            Opcode::F8Sub => 32,
            Opcode::IMul => 33,
            Opcode::F4Mul => 34,
            Opcode::F8Mul => 35,
            Opcode::IDiv => 36,
            Opcode::F4Div => 37,
            Opcode::F8Div => 38,
            Opcode::IRem => 39,
            Opcode::F4Rem => 40,
            Opcode::F8Rem => 41,
            Opcode::INeg => 42,
            Opcode::F4Neg => 43,
            Opcode::F8Neg => 44,
            Opcode::Shl => 45,
            Opcode::Shr => 46,
            Opcode::AShr => 47,
            Opcode::And => 48,
            Opcode::Or => 49,
            Opcode::Xor => 50,
            Opcode::Not => 51,
            Opcode::Directive => 254,
            Opcode::Unimplemented => 255,
        }
    }

    /// Number of operand bytes that follow the opcode byte.
    #[verifier::when_used_as_spec(spec_operand_count)]
    pub fn operand_count(self) -> (count: u8)
        ensures
            count == self.spec_operand_count(),
    {
        match self {
            Opcode::IConst | Opcode::LdArg | Opcode::StArg => 1,
            Opcode::IConstW => 2,
            Opcode::Const => 4,
            _ => 0,
        }
    }
}

} // verus!
