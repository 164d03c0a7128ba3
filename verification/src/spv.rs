//! The decoded form of the binary container: immediates, operands and
//! instructions, and the opcodes that lowering tells apart.

use vstd::prelude::*;

verus! {

/// One immediate operand word, with the operand kind it was decoded as.
///
/// A literal that fits one word is `Short`. A longer one is a `LongStart`
/// followed by one `LongCont` for each further word.
#[derive(Clone, Copy, Debug, PartialEq, Eq, Structural)]
pub enum Imm {
    Short(u32, u32),
    LongStart(u32, u32),
    LongCont(u32, u32),
}

impl Imm {
    /// The word that the immediate carries.
    pub open spec fn spec_word(self) -> u32 {
        match self {
            Imm::Short(_, w) => w,
            Imm::LongStart(_, w) => w,
            Imm::LongCont(_, w) => w,
        }
    }

    /// The word that the immediate carries.
    pub fn word(self) -> (w: u32)
        ensures
            w == self.spec_word(),
    {
        match self {
            Imm::Short(_, w) => w,
            Imm::LongStart(_, w) => w,
            Imm::LongCont(_, w) => w,
        }
    }
}

/// One operand of an instruction: an immediate, or a reference to an ID that
/// is defined earlier (`Id`) or possibly later (`ForwardIdRef`) in the stream.
#[derive(Clone, Copy, Debug, PartialEq, Eq, Structural)]
pub enum Operand {
    Imm(Imm),
    Id(u32),
    ForwardIdRef(u32),
}

impl Operand {
    /// The ID that the operand refers to, if it is a reference.
    pub open spec fn spec_id(self) -> Option<u32> {
        match self {
            Operand::Imm(_) => None,
            Operand::Id(id) => Some(id),
            Operand::ForwardIdRef(id) => Some(id),
        }
    }

    /// The ID that the operand refers to, if it is a reference.
    pub fn id(self) -> (r: Option<u32>)
        ensures
            r == self.spec_id(),
    {
        match self {
            Operand::Imm(_) => None,
            Operand::Id(id) => Some(id),
            Operand::ForwardIdRef(id) => Some(id),
        }
    }
}

/// One decoded instruction.
#[derive(Clone, Debug)]
pub struct Inst {
    pub opcode: u16,
    pub result_type_id: Option<u32>,
    pub result_id: Option<u32>,
    pub operands: Vec<Operand>,
}

/// The mathematical value of an [`Inst`].
pub struct InstView {
    pub opcode: u16,
    pub result_type_id: Option<u32>,
    pub result_id: Option<u32>,
    pub operands: Seq<Operand>,
}

impl View for Inst {
    type V = InstView;

    open spec fn view(&self) -> InstView {
        InstView {
            opcode: self.opcode,
            result_type_id: self.result_type_id,
            result_id: self.result_id,
            operands: self.operands@,
        }
    }
}

pub const OP_NAME: u16 = 5;
pub const OP_MEMBER_NAME: u16 = 6;
pub const OP_STRING: u16 = 7;
pub const OP_EXTENSION: u16 = 10;
pub const OP_EXT_INST_IMPORT: u16 = 11;
pub const OP_MEMORY_MODEL: u16 = 14;
pub const OP_ENTRY_POINT: u16 = 15;
pub const OP_EXECUTION_MODE: u16 = 16;
pub const OP_CAPABILITY: u16 = 17;
pub const OP_DECORATE: u16 = 71;
pub const OP_MEMBER_DECORATE: u16 = 72;
pub const OP_EXECUTION_MODE_ID: u16 = 331;
pub const OP_DECORATE_ID: u16 = 332;
pub const OP_DECORATE_STRING: u16 = 5632;
pub const OP_MEMBER_DECORATE_STRING: u16 = 5633;

} // verus!
