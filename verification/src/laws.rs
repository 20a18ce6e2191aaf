//! What holds of every translation run.

use vstd::prelude::*;
use crate::error::TranslateError;
use crate::instruction::AArch64Instruction;
use crate::ir::{BasicBlock, BuilderCall, IrOp, Reg};
use crate::lemmas::{
    lemma_block_ops_push, lemma_initial_wf, lemma_label_index, lemma_run_grows,
    lemma_run_preserves_wf, lemma_step_grows, lemma_step_preserves_wf, lemma_with_label_row,
};
use crate::model::{
    block_ops, cond_free, ends_each_block_once, sealed, single_terminator, StateView,
};

verus! {

/// Block identity is stable: once a label has been looked up, looking it up
/// again after any run of instructions, whether or not they define the
/// label, changes nothing and gives the same block.
pub proof fn lemma_block_identity_stable(
    s: StateView,
    name: Seq<char>,
    insts: Seq<AArch64Instruction>,
)
    requires
        s.names_distinct(),
        s.with_label(name).run(insts) is Ok,
    ensures
        ({
            let first = s.with_label(name);
            let later = first.run(insts)->Ok_0;
            &&& later.has_label(name)
            &&& later.with_label(name) == later
            &&& later.block_of(name) == first.block_of(name)
        }),
{
    let first = s.with_label(name);
    let later = first.run(insts)->Ok_0;
    lemma_with_label_row(s, name);
    lemma_run_grows(first, insts);
    let i = first.label_index(name);
    assert(later.labels[i].name == name);
    lemma_label_index(later, name, i);
}

/// Looking a label up twice in a row is the same as looking it up once.
pub proof fn lemma_lookup_idempotent(s: StateView, name: Seq<char>)
    requires
        s.names_distinct(),
    ensures
        s.with_label(name).with_label(name) == s.with_label(name),
{
    lemma_with_label_row(s, name);
}

/// A subtraction is the addition of the negated immediate: unless the
/// immediate is the least `i64`, both instructions have the same outcome in
/// every state, be it an error or the calls recorded.
pub proof fn lemma_sub_is_negated_add(s: StateView, dst: Reg, src: Reg, imm: i64)
    requires
        imm != i64::MIN,
    ensures
        s.step(AArch64Instruction::Sub { dst, src, imm }) == s.step(
            AArch64Instruction::Add { dst, src, imm: (-imm) as i64 },
        ),
{
}

/// The least `i64` cannot be subtracted: where the registers are declared,
/// the instruction is rejected for the overflow of its negation.
pub proof fn lemma_sub_of_minimum_rejected(s: StateView, dst: Reg, src: Reg)
    requires
        s.declares(dst),
        s.declares(src),
    ensures
        s.step(AArch64Instruction::Sub { dst, src, imm: i64::MIN }) == Err::<
            StateView,
            TranslateError,
        >(TranslateError::SignedOverflowOnSubtractNegation),
{
}

/// Nothing follows an unconditional jump. In every state that a run from the
/// initial state reaches, a block holds at most one unconditional jump, and
/// only as its last operation; every block that the cursor has left holds
/// one; the current block holds one exactly if the state says that it is
/// terminated; and a block that was only mentioned by a branch is empty.
pub proof fn lemma_jump_ends_block(reg_count: nat, insts: Seq<AArch64Instruction>, b: BasicBlock)
    requires
        StateView::initial(reg_count).run(insts) is Ok,
        StateView::initial(reg_count).run(insts)->Ok_0.fits(),
        StateView::initial(reg_count).run(insts)->Ok_0.has_block(b),
    ensures
        ({
            let t = StateView::initial(reg_count).run(insts)->Ok_0;
            let ops = block_ops(t.calls, b);
            &&& forall|i: int| 0 <= i < ops.len() - 1 ==> !(#[trigger] ops[i]).is_jump()
            &&& b != t.current && t.block_started(b) ==> sealed(ops)
            &&& b == t.current ==> (t.closed <==> ops.len() > 0 && ops.last().is_jump())
            &&& !t.block_started(b) ==> ops.len() == 0
        }),
{
    let t = StateView::initial(reg_count).run(insts)->Ok_0;
    let ops = block_ops(t.calls, b);
    lemma_initial_wf(reg_count);
    lemma_run_preserves_wf(StateView::initial(reg_count), insts);
    assert(t.block_inv(b));
    assert forall|i: int| 0 <= i < ops.len() - 1 implies !(#[trigger] ops[i]).is_jump() by {
        if sealed(ops) {
            assert(ops.drop_last()[i] == ops[i]);
        }
    }
}

/// A record without conditional jumps gives blocks without conditional jumps.
proof fn lemma_cond_free_ops(calls: Seq<BuilderCall>, b: BasicBlock)
    requires
        cond_free(calls),
    ensures
        forall|i: int|
            0 <= i < block_ops(calls, b).len() ==> !((#[trigger] block_ops(calls, b)[i]) is JumpIf),
    decreases calls.len(),
{
    if calls.len() > 0 {
        let earlier = calls.drop_last();
        assert forall|k: int| 0 <= k < earlier.len() implies !((#[trigger] earlier[k]) matches BuilderCall::Insert {
            op,
            ..
        } && op is JumpIf) by {
            assert(earlier[k] == calls[k]);
        }
        lemma_cond_free_ops(earlier, b);
        assert(calls.last() == calls[calls.len() - 1]);
    }
}

/// Only a conditional branch records a conditional jump.
proof fn lemma_step_cond_free(s: StateView, inst: AArch64Instruction)
    requires
        cond_free(s.calls),
        !(inst is Cbz),
    ensures
        cond_free(s.accept(inst).calls),
{
    let t = s.accept(inst);
    assert forall|k: int| 0 <= k < t.calls.len() implies !((#[trigger] t.calls[k]) matches BuilderCall::Insert {
        op,
        ..
    } && op is JumpIf) by {
        if k < s.calls.len() {
            assert(t.calls[k] == s.calls[k]);
        }
    }
}

/// A run without conditional branches records no conditional jump.
proof fn lemma_run_cond_free(s: StateView, insts: Seq<AArch64Instruction>)
    requires
        cond_free(s.calls),
        forall|i: int| 0 <= i < insts.len() ==> !((#[trigger] insts[i]) is Cbz),
        s.run(insts) is Ok,
    ensures
        cond_free(s.run(insts)->Ok_0.calls),
    decreases insts.len(),
{
    if insts.len() > 0 {
        let earlier = insts.drop_last();
        assert forall|i: int| 0 <= i < earlier.len() implies !((#[trigger] earlier[i]) is Cbz) by {
            assert(earlier[i] == insts[i]);
        }
        lemma_run_cond_free(s, earlier);
        assert(insts.last() == insts[insts.len() - 1]);
        lemma_step_cond_free(s.run(earlier)->Ok_0, insts.last());
    }
}

/// Where a sealed block holds no conditional jump, its one jump is its one
/// terminator.
proof fn lemma_sealed_single(ops: Seq<IrOp>)
    requires
        sealed(ops),
        forall|i: int| 0 <= i < ops.len() ==> !((#[trigger] ops[i]) is JumpIf),
    ensures
        single_terminator(ops),
{
    assert forall|i: int| 0 <= i < ops.len() - 1 implies !(#[trigger] ops[i]).is_terminator() by {
        assert(ops.drop_last()[i] == ops[i]);
    }
}

/// Terminators are well formed: after a whole program has been translated
/// with success, every block holds exactly one jump, conditional or not, as
/// its last operation. This is stated of the programs in which a block never
/// goes on behind a conditional jump and the last block is ended; of the
/// others it does not hold.
pub proof fn lemma_single_terminator(
    reg_count: nat,
    insts: Seq<AArch64Instruction>,
    b: BasicBlock,
)
    requires
        ends_each_block_once(insts),
        StateView::initial(reg_count).run_to_end(insts) is Ok,
        StateView::initial(reg_count).run_to_end(insts)->Ok_0.fits(),
        StateView::initial(reg_count).run_to_end(insts)->Ok_0.has_block(b),
    ensures
        single_terminator(
            block_ops(StateView::initial(reg_count).run_to_end(insts)->Ok_0.calls, b),
        ),
{
    let start = StateView::initial(reg_count);
    let earlier = insts.drop_last();
    let last = insts.last();
    let u = start.run(earlier)->Ok_0;
    let t = u.accept(last);
    assert(start.run_to_end(insts)->Ok_0 == t);
    assert(!t.has_unresolved());
    lemma_initial_wf(reg_count);
    lemma_run_grows(start, earlier);
    lemma_step_grows(u, last);
    lemma_run_preserves_wf(start, earlier);
    lemma_step_preserves_wf(u, last);
    assert forall|i: int| 0 <= i < earlier.len() implies !((#[trigger] earlier[i]) is Cbz) by {
        assert(earlier[i] == insts[i]);
    }
    lemma_run_cond_free(start, earlier);
    assert(t.block_inv(b));
    if b.0 > 0 {
        assert(t.labels[b.0 - 1].defined);
    }
    assert(t.block_started(b));
    let ops = block_ops(t.calls, b);
    match last {
        AArch64Instruction::B { label } => {
            lemma_step_cond_free(u, last);
            lemma_cond_free_ops(t.calls, b);
            lemma_sealed_single(ops);
        },
        AArch64Instruction::Cbz { src, label } => {
            let s1 = u.with_label(label@);
            let s2 = s1.emit(IrOp::ReadReg { reg: src });
            let s3 = s2.emit(IrOp::Iconst { imm: 0 });
            let s4 = s3.emit(IrOp::Equals { lhs: s2.last_value(), rhs: s3.last_value() });
            let jump = IrOp::JumpIf {
                cond: s4.last_value(),
                taken: s1.block_of(label@),
                fallthrough: s1.current,
            };
            assert forall|k: int| 0 <= k < s4.calls.len() implies !((#[trigger] s4.calls[k]) matches BuilderCall::Insert {
                op,
                ..
            } && op is JumpIf) by {
                if k < u.calls.len() {
                    assert(s4.calls[k] == u.calls[k]);
                }
            }
            lemma_cond_free_ops(s4.calls, b);
            lemma_block_ops_push(s4.calls, BuilderCall::Insert { block: s4.current, op: jump }, b);
            if b == t.current {
                let before = block_ops(s4.calls, b);
                assert(ops == before.push(jump));
                assert forall|i: int| 0 <= i < ops.len() - 1 implies !(#[trigger] ops[i]).is_terminator() by {
                    assert(ops[i] == before[i]);
                }
            } else {
                lemma_sealed_single(ops);
            }
        },
        _ => {},
    }
}

} // verus!
