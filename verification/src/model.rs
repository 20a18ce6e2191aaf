//! The mathematical model of a translation run: what the state is, and what
//! each instruction does to it.

use vstd::prelude::*;
use crate::error::TranslateError;
use crate::instruction::AArch64Instruction;
use crate::ir::{BasicBlock, BuilderCall, IrOp, Reg, Value};

verus! {

/// One row of the label table.
pub struct LabelView {
    /// The label's name.
    pub name: Seq<char>,
    /// Whether the stream has defined the label yet.
    pub defined: bool,
}

/// The state of a run. The block of `labels[i]` is `BasicBlock(i + 1)`.
pub struct StateView {
    /// The size of the register bank.
    pub reg_count: nat,
    /// The label table, in order of first mention.
    pub labels: Seq<LabelView>,
    /// The block that receives new operations.
    pub current: BasicBlock,
    /// Whether the current block already ends in an unconditional jump.
    pub closed: bool,
    /// Every call recorded for the builder so far, oldest first.
    pub calls: Seq<BuilderCall>,
}

/// The operations appended to block `b` by `calls`, in order.
pub open spec fn block_ops(calls: Seq<BuilderCall>, b: BasicBlock) -> Seq<IrOp>
    decreases calls.len(),
{
    if calls.len() == 0 {
        Seq::empty()
    } else {
        let earlier = block_ops(calls.drop_last(), b);
        match calls.last() {
            BuilderCall::Insert { block, op } => if block == b {
                earlier.push(op)
            } else {
                earlier
            },
            BuilderCall::CreateBlock { .. } => earlier,
        }
    }
}

/// `call` appends an operation to block `b`.
pub open spec fn inserts_into(call: BuilderCall, b: BasicBlock) -> bool {
    call matches BuilderCall::Insert { block, .. } && block == b
}

/// `v` names a value that an operation appended to block `b` yields, by a
/// call earlier than the `k`-th.
pub open spec fn yielded_before(calls: Seq<BuilderCall>, k: int, b: BasicBlock, v: Value) -> bool {
    &&& v.0 < k
    &&& calls[v.0 as int] matches BuilderCall::Insert { block, op }
    &&& block == b
    &&& op.yields_value()
}

/// Every value that the `k`-th call uses was yielded before it, in the
/// block that the call appends to.
pub open spec fn operands_defined(calls: Seq<BuilderCall>, k: int) -> bool {
    match calls[k] {
        BuilderCall::Insert { block, op } => match op {
            IrOp::WriteReg { value, .. } => yielded_before(calls, k, block, value),
            IrOp::Add { lhs, rhs } => yielded_before(calls, k, block, lhs) && yielded_before(
                calls,
                k,
                block,
                rhs,
            ),
            IrOp::Equals { lhs, rhs } => yielded_before(calls, k, block, lhs) && yielded_before(
                calls,
                k,
                block,
                rhs,
            ),
            IrOp::JumpIf { cond, .. } => yielded_before(calls, k, block, cond),
            _ => true,
        },
        BuilderCall::CreateBlock { .. } => true,
    }
}

/// No call of `calls` appends a conditional jump.
pub open spec fn cond_free(calls: Seq<BuilderCall>) -> bool {
    forall|k: int|
        0 <= k < calls.len() ==> !((#[trigger] calls[k]) matches BuilderCall::Insert { op, .. }
            && op is JumpIf)
}

/// A conditional branch, if the program has one, is its last instruction,
/// and the last instruction is a branch of either kind. These are the
/// programs in which no block goes on behind a conditional jump and the last
/// block is ended.
pub open spec fn ends_each_block_once(insts: Seq<AArch64Instruction>) -> bool {
    &&& insts.len() > 0
    &&& insts.last() is B || insts.last() is Cbz
    &&& forall|i: int| 0 <= i < insts.len() - 1 ==> !((#[trigger] insts[i]) is Cbz)
}

/// No operation of `ops` is an unconditional jump.
pub open spec fn jump_free(ops: Seq<IrOp>) -> bool {
    forall|i: int| 0 <= i < ops.len() ==> !(#[trigger] ops[i]).is_jump()
}

/// `ops` ends in an unconditional jump and holds no other.
pub open spec fn sealed(ops: Seq<IrOp>) -> bool {
    &&& ops.len() > 0
    &&& ops.last().is_jump()
    &&& jump_free(ops.drop_last())
}

/// `ops` holds exactly one jump, conditional or not, and that jump is its
/// last operation.
pub open spec fn single_terminator(ops: Seq<IrOp>) -> bool {
    &&& ops.len() > 0
    &&& ops.last().is_terminator()
    &&& forall|i: int| 0 <= i < ops.len() - 1 ==> !(#[trigger] ops[i]).is_terminator()
}

impl StateView {
    /// The state before the first instruction: an empty table, the entry
    /// block current and open, nothing emitted.
    pub open spec fn initial(reg_count: nat) -> StateView {
        StateView {
            reg_count,
            labels: Seq::empty(),
            current: BasicBlock(0),
            closed: false,
            calls: Seq::empty(),
        }
    }

    /// `r` lies in the register bank.
    pub open spec fn declares(self, r: Reg) -> bool {
        r.0 < self.reg_count
    }

    /// The table has a row for `name`.
    pub open spec fn has_label(self, name: Seq<char>) -> bool {
        exists|i: int| 0 <= i < self.labels.len() && (#[trigger] self.labels[i]).name == name
    }

    /// The row of `name`, where the table has one.
    pub open spec fn label_index(self, name: Seq<char>) -> int {
        choose|i: int| 0 <= i < self.labels.len() && (#[trigger] self.labels[i]).name == name
    }

    /// The block of `name`, where the table has a row for it.
    pub open spec fn block_of(self, name: Seq<char>) -> BasicBlock {
        BasicBlock((self.label_index(name) + 1) as usize)
    }

    /// `name` has a row and the stream has defined it.
    pub open spec fn is_defined(self, name: Seq<char>) -> bool {
        self.has_label(name) && self.labels[self.label_index(name)].defined
    }

    /// Some label was mentioned by a branch and never defined.
    pub open spec fn has_unresolved(self) -> bool {
        exists|i: int| 0 <= i < self.labels.len() && !(#[trigger] self.labels[i]).defined
    }

    /// The state after looking `name` up, creating its row and its block if
    /// the table has none. A known name changes nothing.
    pub open spec fn with_label(self, name: Seq<char>) -> StateView {
        if self.has_label(name) {
            self
        } else {
            StateView {
                labels: self.labels.push(LabelView { name, defined: false }),
                calls: self.calls.push(
                    BuilderCall::CreateBlock {
                        block: BasicBlock((self.labels.len() + 1) as usize),
                    },
                ),
                ..self
            }
        }
    }

    /// The state after appending `op` to the current block.
    pub open spec fn emit(self, op: IrOp) -> StateView {
        StateView {
            calls: self.calls.push(BuilderCall::Insert { block: self.current, op }),
            ..self
        }
    }

    /// The value that the latest call yields.
    pub open spec fn last_value(self) -> Value {
        Value((self.calls.len() - 1) as usize)
    }

    /// `dst <- src + imm`: a constant, a read of `src`, their sum, and a
    /// write of the sum to `dst`.
    pub open spec fn add_immediate(self, dst: Reg, src: Reg, imm: i64) -> StateView {
        let s1 = self.emit(IrOp::Iconst { imm });
        let s2 = s1.emit(IrOp::ReadReg { reg: src });
        let s3 = s2.emit(IrOp::Add { lhs: s2.last_value(), rhs: s1.last_value() });
        s3.emit(IrOp::WriteReg { value: s3.last_value(), reg: dst })
    }

    /// `dst <- imm`: a constant and a write of it to `dst`.
    pub open spec fn move_immediate(self, dst: Reg, imm: i64) -> StateView {
        let s1 = self.emit(IrOp::Iconst { imm });
        s1.emit(IrOp::WriteReg { value: s1.last_value(), reg: dst })
    }

    /// An unconditional jump to the block of `label`, which ends the current
    /// block.
    pub open spec fn branch(self, label: Seq<char>) -> StateView {
        let s1 = self.with_label(label);
        let s2 = s1.emit(IrOp::Jump { target: s1.block_of(label) });
        StateView { closed: true, ..s2 }
    }

    /// A read of `src`, a zero, their comparison, and a two-way jump: to the
    /// block of `label` if they are equal, back to the current block if not.
    /// The current block stays open.
    pub open spec fn branch_if_zero(self, src: Reg, label: Seq<char>) -> StateView {
        let s1 = self.with_label(label);
        let s2 = s1.emit(IrOp::ReadReg { reg: src });
        let s3 = s2.emit(IrOp::Iconst { imm: 0 });
        let s4 = s3.emit(IrOp::Equals { lhs: s2.last_value(), rhs: s3.last_value() });
        s4.emit(
            IrOp::JumpIf {
                cond: s4.last_value(),
                taken: s1.block_of(label),
                fallthrough: s1.current,
            },
        )
    }

    /// The block of `name` becomes the current one. An open block falls
    /// through into it by an explicit jump; a closed one is left as it is.
    pub open spec fn define_label(self, name: Seq<char>) -> StateView {
        let s1 = self.with_label(name);
        let target = s1.block_of(name);
        let s2 = if self.closed {
            s1
        } else {
            s1.emit(IrOp::Jump { target })
        };
        StateView {
            labels: s2.labels.update(
                s1.label_index(name),
                LabelView { name, defined: true },
            ),
            current: target,
            closed: false,
            ..s2
        }
    }

    /// The error that `inst` meets in this state, if any. Operands are
    /// checked before the state of the current block.
    pub open spec fn rejects(self, inst: AArch64Instruction) -> Option<TranslateError> {
        match inst {
            AArch64Instruction::Add { dst, src, imm } => {
                if !self.declares(dst) || !self.declares(src) {
                    Some(TranslateError::UndeclaredRegister)
                } else if self.closed {
                    Some(TranslateError::DoubleTerminationOfBlock)
                } else {
                    None
                }
            },
            AArch64Instruction::Sub { dst, src, imm } => {
                if !self.declares(dst) || !self.declares(src) {
                    Some(TranslateError::UndeclaredRegister)
                } else if imm == i64::MIN {
                    Some(TranslateError::SignedOverflowOnSubtractNegation)
                } else if self.closed {
                    Some(TranslateError::DoubleTerminationOfBlock)
                } else {
                    None
                }
            },
            AArch64Instruction::Mov { dst, imm } => {
                if !self.declares(dst) {
                    Some(TranslateError::UndeclaredRegister)
                } else if self.closed {
                    Some(TranslateError::DoubleTerminationOfBlock)
                } else {
                    None
                }
            },
            AArch64Instruction::B { label } => {
                if self.closed {
                    Some(TranslateError::DoubleTerminationOfBlock)
                } else {
                    None
                }
            },
            AArch64Instruction::Cbz { src, label } => {
                if !self.declares(src) {
                    Some(TranslateError::UndeclaredRegister)
                } else if self.closed {
                    Some(TranslateError::DoubleTerminationOfBlock)
                } else {
                    None
                }
            },
            AArch64Instruction::Label { name } => {
                if self.is_defined(name@) {
                    Some(TranslateError::DuplicateLabelDefinition)
                } else {
                    None
                }
            },
        }
    }

    /// The state after an instruction that is not rejected.
    pub open spec fn accept(self, inst: AArch64Instruction) -> StateView {
        match inst {
            AArch64Instruction::Add { dst, src, imm } => self.add_immediate(dst, src, imm),
            AArch64Instruction::Sub { dst, src, imm } => self.add_immediate(
                dst,
                src,
                (-imm) as i64,
            ),
            AArch64Instruction::Mov { dst, imm } => self.move_immediate(dst, imm),
            AArch64Instruction::B { label } => self.branch(label@),
            AArch64Instruction::Cbz { src, label } => self.branch_if_zero(src, label@),
            AArch64Instruction::Label { name } => self.define_label(name@),
        }
    }

    /// The outcome of translating one instruction.
    pub open spec fn step(self, inst: AArch64Instruction) -> Result<StateView, TranslateError> {
        match self.rejects(inst) {
            Some(e) => Err(e),
            None => Ok(self.accept(inst)),
        }
    }

    /// The outcome of translating `insts` in order, stopping at the first
    /// error.
    pub open spec fn run(self, insts: Seq<AArch64Instruction>) -> Result<
        StateView,
        TranslateError,
    >
        decreases insts.len(),
    {
        if insts.len() == 0 {
            Ok(self)
        } else {
            match self.run(insts.drop_last()) {
                Ok(s) => s.step(insts.last()),
                Err(e) => Err(e),
            }
        }
    }

    /// The outcome of a whole program: `run`, then the check that no label
    /// is left without a definition.
    pub open spec fn run_to_end(self, insts: Seq<AArch64Instruction>) -> Result<
        StateView,
        TranslateError,
    > {
        match self.run(insts) {
            Ok(s) => if s.has_unresolved() {
                Err(TranslateError::UnresolvedLabelAtEnd)
            } else {
                Ok(s)
            },
            Err(e) => Err(e),
        }
    }

    /// `later` keeps every row's name and every call of this state, in
    /// place: a run only ever adds rows and calls behind them.
    pub open spec fn grows_to(self, later: StateView) -> bool {
        &&& self.reg_count == later.reg_count
        &&& self.labels.len() <= later.labels.len()
        &&& self.calls.len() <= later.calls.len()
        &&& forall|i: int|
            0 <= i < self.labels.len() ==> (#[trigger] later.labels[i]).name
                == self.labels[i].name
        &&& forall|i: int|
            0 <= i < self.labels.len() && self.labels[i].defined ==> (
            #[trigger] later.labels[i]).defined
        &&& forall|k: int| 0 <= k < self.calls.len() ==> #[trigger] later.calls[k] == self.calls[k]
    }

    /// The table and the record of calls can be held in memory.
    pub open spec fn fits(self) -> bool {
        &&& self.labels.len() <= usize::MAX
        &&& self.calls.len() <= usize::MAX
    }

    /// No two rows of the table share a name.
    pub open spec fn names_distinct(self) -> bool {
        forall|i: int, j: int|
            0 <= i < j < self.labels.len() ==> (#[trigger] self.labels[i]).name != (
            #[trigger] self.labels[j]).name
    }

    /// `b` is the entry block or the block of a row of the table.
    pub open spec fn has_block(self, b: BasicBlock) -> bool {
        b.0 <= self.labels.len()
    }

    /// `b` is the entry block or the block of a defined label.
    pub open spec fn block_started(self, b: BasicBlock) -> bool {
        b.0 == 0 || (b.0 <= self.labels.len() && self.labels[b.0 - 1].defined)
    }

    /// Every block that `call` names exists.
    pub open spec fn call_in_range(self, call: BuilderCall) -> bool {
        match call {
            BuilderCall::CreateBlock { block } => 1 <= block.0 <= self.labels.len(),
            BuilderCall::Insert { block, op } => {
                &&& self.has_block(block)
                &&& match op {
                    IrOp::Jump { target } => self.has_block(target),
                    IrOp::JumpIf { cond, taken, fallthrough } => self.has_block(taken)
                        && self.has_block(fallthrough),
                    _ => true,
                }
            },
        }
    }

    /// The shape of block `b`: nothing follows an unconditional jump. A block
    /// that the cursor has left ends in one; a block that was only mentioned
    /// is still empty.
    pub open spec fn block_inv(self, b: BasicBlock) -> bool {
        let ops = block_ops(self.calls, b);
        if b == self.current {
            if self.closed {
                sealed(ops)
            } else {
                jump_free(ops)
            }
        } else if self.block_started(b) {
            sealed(ops)
        } else {
            ops.len() == 0
        }
    }

    /// The invariant of a run.
    pub open spec fn wf(self) -> bool {
        &&& self.fits()
        &&& self.names_distinct()
        &&& self.block_started(self.current)
        &&& forall|k: int|
            0 <= k < self.calls.len() ==> self.call_in_range(#[trigger] self.calls[k])
        &&& forall|k: int|
            0 <= k < self.calls.len() ==> #[trigger] operands_defined(self.calls, k)
        &&& forall|b: BasicBlock| self.has_block(b) ==> #[trigger] self.block_inv(b)
    }
}

} // verus!
