//! Why every step of a run keeps the invariant.

use vstd::prelude::*;
use crate::instruction::AArch64Instruction;
use crate::ir::{BasicBlock, BuilderCall, IrOp, Reg};
use crate::model::{
    block_ops, inserts_into, jump_free, operands_defined, sealed, LabelView, StateView,
};

verus! {

/// A row that carries `name` is the row that `label_index` picks.
pub proof fn lemma_label_index(s: StateView, name: Seq<char>, i: int)
    requires
        s.names_distinct(),
        0 <= i < s.labels.len(),
        s.labels[i].name == name,
    ensures
        s.has_label(name),
        s.label_index(name) == i,
{
    let j = s.label_index(name);
    assert(0 <= j < s.labels.len() && s.labels[j].name == name);
    if j < i {
        assert(s.labels[j].name != s.labels[i].name);
    } else if i < j {
        assert(s.labels[i].name != s.labels[j].name);
    }
}

/// The initial state satisfies the invariant.
pub proof fn lemma_initial_wf(reg_count: nat)
    ensures
        StateView::initial(reg_count).wf(),
{
    let s = StateView::initial(reg_count);
    assert forall|b: BasicBlock| s.has_block(b) implies #[trigger] s.block_inv(b) by {
        assert(b == s.current);
        assert(block_ops(s.calls, b).len() == 0);
    }
}

/// What one more call adds to the operations of block `b`.
pub proof fn lemma_block_ops_push(calls: Seq<BuilderCall>, call: BuilderCall, b: BasicBlock)
    ensures
        block_ops(calls.push(call), b) == match call {
            BuilderCall::Insert { block, op } => if block == b {
                block_ops(calls, b).push(op)
            } else {
                block_ops(calls, b)
            },
            BuilderCall::CreateBlock { .. } => block_ops(calls, b),
        },
{
    assert(calls.push(call).drop_last() =~= calls);
}

/// A block that no call appends to holds no operation.
pub proof fn lemma_block_ops_absent(calls: Seq<BuilderCall>, b: BasicBlock)
    requires
        forall|k: int| 0 <= k < calls.len() ==> !inserts_into(#[trigger] calls[k], b),
    ensures
        block_ops(calls, b).len() == 0,
    decreases calls.len(),
{
    if calls.len() > 0 {
        lemma_block_ops_absent(calls.drop_last(), b);
        assert(!inserts_into(calls[calls.len() - 1], b));
    }
}

/// After a label is looked up the table has exactly one row for it: the
/// old one, or a new last row that is not yet defined.
pub proof fn lemma_with_label_row(s: StateView, name: Seq<char>)
    requires
        s.names_distinct(),
    ensures
        ({
            let t = s.with_label(name);
            let i = t.label_index(name);
            &&& t.names_distinct()
            &&& t.has_label(name)
            &&& 0 <= i < t.labels.len()
            &&& t.labels[i].name == name
            &&& t.labels[i].defined == s.is_defined(name)
            &&& s.has_label(name) ==> i == s.label_index(name)
            &&& !s.has_label(name) ==> i == s.labels.len()
        }),
{
    let t = s.with_label(name);
    if s.has_label(name) {
        let i = s.label_index(name);
        assert(0 <= i < s.labels.len() && s.labels[i].name == name);
    } else {
        let n = s.labels.len() as int;
        assert(t.labels[n].name == name);
        assert forall|i: int, j: int| 0 <= i < j < t.labels.len() implies (
        #[trigger] t.labels[i]).name != (#[trigger] t.labels[j]).name by {
            if j == n {
                assert(s.labels[i].name != name);
            } else {
                assert(s.labels[i].name != s.labels[j].name);
            }
        }
        lemma_label_index(t, name, n);
    }
}

/// Looking a label up keeps the invariant, and the label's block exists
/// afterwards.
pub proof fn lemma_with_label(s: StateView, name: Seq<char>)
    requires
        s.wf(),
        s.with_label(name).fits(),
    ensures
        s.with_label(name).wf(),
        s.with_label(name).block_of(name).0 == s.with_label(name).label_index(name) + 1,
{
    lemma_with_label_row(s, name);
    let t = s.with_label(name);
    if !s.has_label(name) {
        let n = s.labels.len() as int;
        let created = BuilderCall::CreateBlock { block: BasicBlock((n + 1) as usize) };
        assert forall|k: int| 0 <= k < t.calls.len() implies t.call_in_range(
            #[trigger] t.calls[k],
        ) by {
            if k < s.calls.len() {
                assert(s.call_in_range(s.calls[k]));
            }
        }
        assert forall|k: int| 0 <= k < t.calls.len() implies #[trigger] operands_defined(
            t.calls,
            k,
        ) by {
            if k < s.calls.len() {
                assert(operands_defined(s.calls, k));
            }
        }
        assert forall|b: BasicBlock| t.has_block(b) implies #[trigger] t.block_inv(b) by {
            lemma_block_ops_push(s.calls, created, b);
            if b.0 == n + 1 {
                assert forall|k: int| 0 <= k < s.calls.len() implies !inserts_into(
                    #[trigger] s.calls[k],
                    b,
                ) by {
                    assert(s.call_in_range(s.calls[k]));
                }
                lemma_block_ops_absent(s.calls, b);
            } else {
                assert(s.block_inv(b));
            }
        }
    }
}

/// Appending anything but an unconditional jump to an open block keeps the
/// invariant.
pub proof fn lemma_emit(s: StateView, op: IrOp)
    requires
        s.wf(),
        !s.closed,
        !op.is_jump(),
        s.call_in_range(BuilderCall::Insert { block: s.current, op }),
        operands_defined(s.emit(op).calls, s.calls.len() as int),
        s.emit(op).fits(),
    ensures
        s.emit(op).wf(),
{
    let t = s.emit(op);
    assert forall|k: int| 0 <= k < t.calls.len() implies #[trigger] operands_defined(t.calls, k) by {
        if k < s.calls.len() {
            assert(operands_defined(s.calls, k));
        }
    }
    assert forall|k: int| 0 <= k < t.calls.len() implies t.call_in_range(#[trigger] t.calls[k]) by {
        if k < s.calls.len() {
            assert(s.call_in_range(s.calls[k]));
        }
    }
    assert forall|b: BasicBlock| t.has_block(b) implies #[trigger] t.block_inv(b) by {
        lemma_block_ops_push(s.calls, BuilderCall::Insert { block: s.current, op }, b);
        assert(s.block_inv(b));
    }
}

/// Ending an open block with an unconditional jump keeps the invariant.
pub proof fn lemma_branch(s: StateView, name: Seq<char>)
    requires
        s.wf(),
        !s.closed,
        s.branch(name).fits(),
    ensures
        s.branch(name).wf(),
{
    lemma_with_label_row(s, name);
    lemma_with_label(s, name);
    let s1 = s.with_label(name);
    let jump = BuilderCall::Insert { block: s1.current, op: IrOp::Jump { target: s1.block_of(name) } };
    let t = s.branch(name);
    assert forall|k: int| 0 <= k < t.calls.len() implies #[trigger] operands_defined(t.calls, k) by {
        if k < s1.calls.len() {
            assert(operands_defined(s1.calls, k));
        }
    }
    assert forall|k: int| 0 <= k < t.calls.len() implies t.call_in_range(#[trigger] t.calls[k]) by {
        if k < s1.calls.len() {
            assert(s1.call_in_range(s1.calls[k]));
        }
    }
    assert forall|b: BasicBlock| t.has_block(b) implies #[trigger] t.block_inv(b) by {
        lemma_block_ops_push(s1.calls, jump, b);
        assert(s1.block_inv(b));
        if b == s1.current {
            let ops = block_ops(s1.calls, b);
            assert(ops.push(IrOp::Jump { target: s1.block_of(name) }).drop_last() =~= ops);
        }
    }
}

/// Defining a label that has no definition yet keeps the invariant.
pub proof fn lemma_define_label(s: StateView, name: Seq<char>)
    requires
        s.wf(),
        !s.is_defined(name),
        s.define_label(name).fits(),
    ensures
        s.define_label(name).wf(),
{
    let s1 = s.with_label(name);
    lemma_with_label_row(s, name);
    assert(s.define_label(name).labels.len() == s1.labels.len());
    assert(s.define_label(name).calls.len() >= s1.calls.len());
    lemma_with_label(s, name);
    let i = s1.label_index(name);
    let target = s1.block_of(name);
    let jump = BuilderCall::Insert { block: s1.current, op: IrOp::Jump { target } };
    let t = s.define_label(name);
    assert(target != s1.current);
    assert forall|k: int| 0 <= k < t.calls.len() implies #[trigger] operands_defined(t.calls, k) by {
        if k < s1.calls.len() {
            assert(operands_defined(s1.calls, k));
        }
    }
    assert forall|a: int, b: int| 0 <= a < b < t.labels.len() implies (#[trigger] t.labels[a]).name
        != (#[trigger] t.labels[b]).name by {
        assert(s1.labels[a].name != s1.labels[b].name);
    }
    assert forall|k: int| 0 <= k < t.calls.len() implies t.call_in_range(#[trigger] t.calls[k]) by {
        if k < s1.calls.len() {
            assert(s1.call_in_range(s1.calls[k]));
        }
    }
    assert forall|b: BasicBlock| t.has_block(b) implies #[trigger] t.block_inv(b) by {
        assert(s1.block_inv(b));
        if !s.closed {
            lemma_block_ops_push(s1.calls, jump, b);
            if b == s1.current {
                let ops = block_ops(s1.calls, b);
                assert(ops.push(IrOp::Jump { target }).drop_last() =~= ops);
            }
        }
        if b != target && b != s1.current {
            assert(t.block_started(b) == s1.block_started(b));
        }
    }
}

/// Once a prefix of a program has failed, the whole program fails with the
/// same error.
pub proof fn lemma_run_prefix_error(s: StateView, insts: Seq<AArch64Instruction>, k: int)
    requires
        0 <= k <= insts.len(),
        s.run(insts.take(k)) is Err,
    ensures
        s.run(insts) == s.run(insts.take(k)),
    decreases insts.len(),
{
    if k == insts.len() {
        assert(insts.take(k) =~= insts);
    } else {
        assert(insts.drop_last().take(k) =~= insts.take(k));
        lemma_run_prefix_error(s, insts.drop_last(), k);
    }
}

/// An accepted instruction keeps the names of the table distinct, and only
/// adds to the table and to the record of calls.
pub proof fn lemma_step_grows(s: StateView, inst: AArch64Instruction)
    requires
        s.names_distinct(),
    ensures
        s.accept(inst).names_distinct(),
        s.grows_to(s.accept(inst)),
{
    match inst {
        AArch64Instruction::B { label } => {
            lemma_with_label_row(s, label@);
        },
        AArch64Instruction::Cbz { src, label } => {
            lemma_with_label_row(s, label@);
        },
        AArch64Instruction::Label { name } => {
            lemma_with_label_row(s, name@);
            let s1 = s.with_label(name@);
            let t = s.define_label(name@);
            assert forall|a: int, b: int| 0 <= a < b < t.labels.len() implies (
            #[trigger] t.labels[a]).name != (#[trigger] t.labels[b]).name by {
                assert(s1.labels[a].name != s1.labels[b].name);
            }
        },
        _ => {},
    }
}

/// A run keeps the names of the table distinct, and only adds to the table
/// and to the record of calls.
pub proof fn lemma_run_grows(s: StateView, insts: Seq<AArch64Instruction>)
    requires
        s.names_distinct(),
        s.run(insts) is Ok,
    ensures
        s.run(insts)->Ok_0.names_distinct(),
        s.grows_to(s.run(insts)->Ok_0),
    decreases insts.len(),
{
    if insts.len() > 0 {
        lemma_run_grows(s, insts.drop_last());
        let u = s.run(insts.drop_last())->Ok_0;
        lemma_step_grows(u, insts.last());
    }
}

/// A run keeps the invariant, as long as its result can be held in memory.
pub proof fn lemma_run_preserves_wf(s: StateView, insts: Seq<AArch64Instruction>)
    requires
        s.wf(),
        s.run(insts) is Ok,
        s.run(insts)->Ok_0.fits(),
    ensures
        s.run(insts)->Ok_0.wf(),
    decreases insts.len(),
{
    if insts.len() > 0 {
        let u = s.run(insts.drop_last())->Ok_0;
        lemma_run_grows(s, insts.drop_last());
        lemma_step_grows(u, insts.last());
        lemma_run_preserves_wf(s, insts.drop_last());
        lemma_step_preserves_wf(u, insts.last());
    }
}

/// Every accepted instruction keeps the invariant.
pub proof fn lemma_step_preserves_wf(s: StateView, inst: AArch64Instruction)
    requires
        s.wf(),
        s.rejects(inst) is None,
        s.accept(inst).fits(),
    ensures
        s.accept(inst).wf(),
{
    match inst {
        AArch64Instruction::Add { dst, src, imm } => {
            lemma_add_immediate(s, dst, src, imm);
        },
        AArch64Instruction::Sub { dst, src, imm } => {
            lemma_add_immediate(s, dst, src, (-imm) as i64);
        },
        AArch64Instruction::Mov { dst, imm } => {
            let s1 = s.emit(IrOp::Iconst { imm });
            lemma_emit(s, IrOp::Iconst { imm });
            lemma_emit(s1, IrOp::WriteReg { value: s1.last_value(), reg: dst });
        },
        AArch64Instruction::B { label } => {
            lemma_branch(s, label@);
        },
        AArch64Instruction::Cbz { src, label } => {
            lemma_with_label_row(s, label@);
            lemma_with_label(s, label@);
            let s1 = s.with_label(label@);
            let s2 = s1.emit(IrOp::ReadReg { reg: src });
            let s3 = s2.emit(IrOp::Iconst { imm: 0 });
            let s4 = s3.emit(IrOp::Equals { lhs: s2.last_value(), rhs: s3.last_value() });
            lemma_emit(s1, IrOp::ReadReg { reg: src });
            lemma_emit(s2, IrOp::Iconst { imm: 0 });
            lemma_emit(s3, IrOp::Equals { lhs: s2.last_value(), rhs: s3.last_value() });
            lemma_emit(
                s4,
                IrOp::JumpIf {
                    cond: s4.last_value(),
                    taken: s1.block_of(label@),
                    fallthrough: s1.current,
                },
            );
        },
        AArch64Instruction::Label { name } => {
            lemma_define_label(s, name@);
        },
    }
}

/// The four operations of an addition keep the invariant.
proof fn lemma_add_immediate(s: StateView, dst: Reg, src: Reg, imm: i64)
    requires
        s.wf(),
        !s.closed,
        s.add_immediate(dst, src, imm).fits(),
    ensures
        s.add_immediate(dst, src, imm).wf(),
{
    let s1 = s.emit(IrOp::Iconst { imm });
    let s2 = s1.emit(IrOp::ReadReg { reg: src });
    let s3 = s2.emit(IrOp::Add { lhs: s2.last_value(), rhs: s1.last_value() });
    lemma_emit(s, IrOp::Iconst { imm });
    lemma_emit(s1, IrOp::ReadReg { reg: src });
    lemma_emit(s2, IrOp::Add { lhs: s2.last_value(), rhs: s1.last_value() });
    lemma_emit(s3, IrOp::WriteReg { value: s3.last_value(), reg: dst });
}

} // verus!
