//! The vocabulary of the SSA builder: handles, operations and recorded calls.

use vstd::prelude::*;

verus! {

/// An architectural register, by its position in the declared bank.
#[derive(Clone, Copy, Debug, PartialEq, Eq, Structural)]
pub struct Reg(pub usize);

/// A basic block handle. Block 0 is the entry block; the block of the
/// `i`-th label, in order of first mention, is `i + 1`.
#[derive(Clone, Copy, Debug, PartialEq, Eq, Structural)]
pub struct BasicBlock(pub usize);

/// An SSA value, named by the position of the recorded call that yields it.
#[derive(Clone, Copy, Debug, PartialEq, Eq, Structural)]
pub struct Value(pub usize);

/// One operation appended to a block. All values are 64 bits wide.
#[derive(Clone, Copy, Debug, PartialEq, Eq, Structural)]
pub enum IrOp {
    /// Materialise a signed constant.
    Iconst { imm: i64 },
    /// Read the value currently bound to a register.
    ReadReg { reg: Reg },
    /// Bind a register to a value.
    WriteReg { value: Value, reg: Reg },
    /// Add two values.
    Add { lhs: Value, rhs: Value },
    /// Compare two values for equality.
    Equals { lhs: Value, rhs: Value },
    /// Jump to `target`, passing no block arguments.
    Jump { target: BasicBlock },
    /// Jump to `taken` if `cond` holds and to `fallthrough` otherwise,
    /// passing no block arguments either way.
    JumpIf { cond: Value, taken: BasicBlock, fallthrough: BasicBlock },
}

/// One call on the SSA builder, as the engine records it.
#[derive(Clone, Copy, Debug, PartialEq, Eq, Structural)]
pub enum BuilderCall {
    /// Create the block `block`, named after its label.
    CreateBlock { block: BasicBlock },
    /// Append `op` to `block`.
    Insert { block: BasicBlock, op: IrOp },
}

impl IrOp {
    /// An unconditional jump: the operation that ends a block.
    pub open spec fn is_jump(self) -> bool {
        self is Jump
    }

    /// The operation yields an SSA value.
    pub open spec fn yields_value(self) -> bool {
        self is Iconst || self is ReadReg || self is Add || self is Equals
    }

    /// A jump of either kind.
    pub open spec fn is_terminator(self) -> bool {
        self is Jump || self is JumpIf
    }
}

} // verus!
