//! The source instruction set.

use vstd::prelude::*;
use crate::ir::Reg;

verus! {

/// One instruction of the source program.
#[derive(Debug, PartialEq, Eq)]
pub enum AArch64Instruction {
    /// `ADD Xd, Xn, #imm`
    Add { dst: Reg, src: Reg, imm: i64 },
    /// `SUB Xd, Xn, #imm`
    Sub { dst: Reg, src: Reg, imm: i64 },
    /// `MOV Xd, #imm`
    Mov { dst: Reg, imm: i64 },
    /// `B label`
    B { label: String },
    /// `CBZ Xn, label`
    Cbz { src: Reg, label: String },
    /// `label:`
    Label { name: String },
}

impl Clone for AArch64Instruction {
    fn clone(&self) -> (copy: Self)
        ensures
            copy == *self,
    {
        match self {
            AArch64Instruction::Add { dst, src, imm } => AArch64Instruction::Add {
                dst: *dst,
                src: *src,
                imm: *imm,
            },
            AArch64Instruction::Sub { dst, src, imm } => AArch64Instruction::Sub {
                dst: *dst,
                src: *src,
                imm: *imm,
            },
            AArch64Instruction::Mov { dst, imm } => AArch64Instruction::Mov { dst: *dst, imm: *imm },
            AArch64Instruction::B { label } => AArch64Instruction::B { label: label.clone() },
            AArch64Instruction::Cbz { src, label } => AArch64Instruction::Cbz {
                src: *src,
                label: label.clone(),
            },
            AArch64Instruction::Label { name } => AArch64Instruction::Label { name: name.clone() },
        }
    }
}

} // verus!
