//! The translation engine: the label table, the cursor, and one rule per
//! instruction.

use vstd::prelude::*;
use crate::error::TranslateError;
use crate::instruction::AArch64Instruction;
use crate::lemmas::{
    lemma_initial_wf, lemma_label_index, lemma_run_prefix_error, lemma_step_preserves_wf,
    lemma_with_label, lemma_with_label_row,
};
use crate::ir::{BasicBlock, BuilderCall, IrOp, Reg, Value};
use crate::model::{block_ops, LabelView, StateView};

verus! {

/// One row of the label table.
#[derive(Debug)]
struct LabelEntry {
    name: String,
    defined: bool,
}

/// The state of one translation run: the register bank's size, the label
/// table, the cursor, and the record of the calls that the builder is to
/// receive.
#[derive(Debug)]
pub struct State {
    reg_count: usize,
    labels: Vec<LabelEntry>,
    current: BasicBlock,
    closed: bool,
    calls: Vec<BuilderCall>,
}

impl View for State {
    type V = StateView;

    closed spec fn view(&self) -> StateView {
        StateView {
            reg_count: self.reg_count as nat,
            labels: Seq::new(
                self.labels@.len(),
                |i: int| LabelView { name: self.labels@[i].name@, defined: self.labels@[i].defined },
            ),
            current: self.current,
            closed: self.closed,
            calls: self.calls@,
        }
    }
}

impl State {
    /// The invariant of a run holds of this state.
    pub open spec fn wf(&self) -> bool {
        self@.wf()
    }

    /// A table and a record that are held in memory fit in it.
    proof fn lemma_fits(&self)
        ensures
            self@.fits(),
    {
        assert(self.labels@.len() == self.labels.len());
        assert(self.calls@.len() == self.calls.len());
    }

    /// A fresh state for a bank of `reg_count` registers.
    pub fn new(reg_count: usize) -> (s: State)
        ensures
            s@ == StateView::initial(reg_count as nat),
            s.wf(),
    {
        let s = State {
            reg_count,
            labels: Vec::new(),
            current: BasicBlock(0),
            closed: false,
            calls: Vec::new(),
        };
        proof {
            assert(s@.labels =~= Seq::empty());
            assert(s@.calls =~= Seq::empty());
            lemma_initial_wf(reg_count as nat);
        }
        s
    }

    /// The block that receives new operations.
    pub fn current_block(&self) -> (b: BasicBlock)
        ensures
            b == self@.current,
    {
        self.current
    }

    /// Whether the current block already ends in an unconditional jump.
    pub fn is_terminated(&self) -> (t: bool)
        ensures
            t == self@.closed,
    {
        self.closed
    }

    /// The size of the register bank.
    pub fn register_count(&self) -> (n: usize)
        ensures
            n == self@.reg_count,
    {
        self.reg_count
    }

    /// The number of labels mentioned so far.
    pub fn label_count(&self) -> (n: usize)
        ensures
            n == self@.labels.len(),
    {
        self.labels.len()
    }

    /// Every call recorded so far, oldest first.
    pub fn calls(&self) -> (calls: &Vec<BuilderCall>)
        ensures
            calls@ == self@.calls,
    {
        &self.calls
    }

    /// The operations appended to block `b` so far, in order.
    pub fn block_operations(&self, b: BasicBlock) -> (ops: Vec<IrOp>)
        ensures
            ops@ == block_ops(self@.calls, b),
    {
        let mut ops: Vec<IrOp> = Vec::new();
        let n = self.calls.len();
        let mut i: usize = 0;
        while i < n
            invariant
                n == self.calls@.len(),
                i <= n,
                ops@ == block_ops(self.calls@.take(i as int), b),
            decreases n - i,
        {
            proof {
                assert(self.calls@.take(i + 1).drop_last() =~= self.calls@.take(i as int));
            }
            match self.calls[i] {
                BuilderCall::Insert { block, op } => {
                    if block == b {
                        ops.push(op);
                    }
                },
                BuilderCall::CreateBlock { .. } => {},
            }
            i += 1;
        }
        proof {
            assert(self.calls@.take(n as int) =~= self.calls@);
        }
        ops
    }

    /// The name of the `i`-th label, in order of first mention.
    pub fn label_name(&self, i: usize) -> (name: &String)
        requires
            i < self@.labels.len(),
        ensures
            name@ == self@.labels[i as int].name,
    {
        &self.labels[i].name
    }

    /// Whether the `i`-th label has been defined.
    pub fn label_defined(&self, i: usize) -> (defined: bool)
        requires
            i < self@.labels.len(),
        ensures
            defined == self@.labels[i as int].defined,
    {
        self.labels[i].defined
    }

    /// The row of `label`, if the table has one.
    fn find_label(&self, label: &String) -> (r: Option<usize>)
        requires
            self.wf(),
        ensures
            r is Some <==> self@.has_label(label@),
            r matches Some(i) ==> i == self@.label_index(label@) && i < self@.labels.len(),
    {
        let n = self.labels.len();
        let mut i: usize = 0;
        while i < n
            invariant
                self.wf(),
                n == self.labels@.len(),
                i <= n,
                forall|j: int| 0 <= j < i ==> (#[trigger] self@.labels[j]).name != label@,
            decreases n - i,
        {
            if self.labels[i].name == *label {
                proof {
                    assert(self@.labels[i as int].name == label@);
                    lemma_label_index(self@, label@, i as int);
                }
                return Some(i);
            }
            i += 1;
        }
        None
    }

    /// The block of `label`, if the label was mentioned before.
    pub fn lookup(&self, label: &String) -> (r: Option<BasicBlock>)
        requires
            self.wf(),
        ensures
            r == if self@.has_label(label@) {
                Some(self@.block_of(label@))
            } else {
                None
            },
    {
        match self.find_label(label) {
            Some(i) => Some(BasicBlock(i + 1)),
            None => None,
        }
    }

    /// Whether `r` lies in the register bank.
    pub fn declares(&self, r: Reg) -> (d: bool)
        ensures
            d == self@.declares(r),
    {
        r.0 < self.reg_count
    }

    /// The first row of the table whose label has no definition yet.
    pub fn first_unresolved(&self) -> (r: Option<usize>)
        ensures
            r is Some <==> self@.has_unresolved(),
            r matches Some(i) ==> {
                &&& i < self@.labels.len()
                &&& !self@.labels[i as int].defined
                &&& forall|j: int| 0 <= j < i ==> (#[trigger] self@.labels[j]).defined
            },
    {
        let n = self.labels.len();
        let mut i: usize = 0;
        while i < n
            invariant
                n == self.labels@.len(),
                i <= n,
                forall|j: int| 0 <= j < i ==> (#[trigger] self@.labels[j]).defined,
            decreases n - i,
        {
            if !self.labels[i].defined {
                assert(!self@.labels[i as int].defined);
                return Some(i);
            }
            i += 1;
        }
        None
    }

    /// Whether a branch mentioned a label that was never defined.
    pub fn has_unresolved(&self) -> (u: bool)
        ensures
            u == self@.has_unresolved(),
    {
        self.first_unresolved().is_some()
    }

    /// Ends the run: every label that a branch mentioned must have been
    /// defined.
    pub fn finish(&self) -> (r: Result<(), TranslateError>)
        ensures
            r == if self@.has_unresolved() {
                Err::<(), TranslateError>(TranslateError::UnresolvedLabelAtEnd)
            } else {
                Ok(())
            },
    {
        if self.has_unresolved() {
            Err(TranslateError::UnresolvedLabelAtEnd)
        } else {
            Ok(())
        }
    }

    /// Appends `op` to the current block and names the value it yields.
    fn emit(&mut self, op: IrOp) -> (v: Value)
        ensures
            final(self)@ == old(self)@.emit(op),
            v == final(self)@.last_value(),
    {
        let v = Value(self.calls.len());
        self.calls.push(BuilderCall::Insert { block: self.current, op });
        proof {
            assert(self@.labels =~= old(self)@.labels);
        }
        v
    }
    /// Emits `dst <- src + imm` into the current block.
    fn add_immediate(&mut self, dst: Reg, src: Reg, imm: i64)
        ensures
            final(self)@ == old(self)@.add_immediate(dst, src, imm),
    {
        let constant = self.emit(IrOp::Iconst { imm });
        let read = self.emit(IrOp::ReadReg { reg: src });
        let sum = self.emit(IrOp::Add { lhs: read, rhs: constant });
        self.emit(IrOp::WriteReg { value: sum, reg: dst });
    }

    /// Looks `label` up, creating its row and its block if the table has
    /// none, and returns the label's row.
    fn resolve(&mut self, label: &String) -> (i: usize)
        requires
            old(self).wf(),
        ensures
            final(self)@ == old(self)@.with_label(label@),
            i == final(self)@.label_index(label@),
            i < final(self)@.labels.len(),
            final(self)@.labels[i as int].name == label@,
            final(self)@.labels[i as int].defined == old(self)@.is_defined(label@),
            final(self).wf(),
    {
        proof {
            lemma_with_label_row(self@, label@);
        }
        match self.find_label(label) {
            Some(i) => i,
            None => {
                let i = self.labels.len();
                self.labels.push(LabelEntry { name: label.clone(), defined: false });
                self.calls.push(BuilderCall::CreateBlock { block: BasicBlock(self.labels.len()) });
                proof {
                    assert(self@.labels =~= old(self)@.with_label(label@).labels);
                    self.lemma_fits();
                    lemma_with_label(old(self)@, label@);
                }
                i
            },
        }
    }

    /// Translates one instruction: checks it, then records the calls that
    /// implement it and moves the cursor. A rejected instruction changes
    /// nothing.
    pub fn translate(&mut self, inst: &AArch64Instruction) -> (r: Result<(), TranslateError>)
        requires
            old(self).wf(),
        ensures
            old(self)@.step(*inst) == match r {
                Ok(()) => Ok::<StateView, TranslateError>(final(self)@),
                Err(e) => Err(e),
            },
            r is Err ==> final(self)@ == old(self)@,
            final(self).wf(),
    {
        match inst {
            AArch64Instruction::Add { dst, src, imm } => {
                if !self.declares(*dst) || !self.declares(*src) {
                    return Err(TranslateError::UndeclaredRegister);
                }
                if self.closed {
                    return Err(TranslateError::DoubleTerminationOfBlock);
                }
                self.add_immediate(*dst, *src, *imm);
            },
            AArch64Instruction::Sub { dst, src, imm } => {
                if !self.declares(*dst) || !self.declares(*src) {
                    return Err(TranslateError::UndeclaredRegister);
                }
                if *imm == i64::MIN {
                    return Err(TranslateError::SignedOverflowOnSubtractNegation);
                }
                if self.closed {
                    return Err(TranslateError::DoubleTerminationOfBlock);
                }
                self.add_immediate(*dst, *src, -*imm);
            },
            AArch64Instruction::Mov { dst, imm } => {
                if !self.declares(*dst) {
                    return Err(TranslateError::UndeclaredRegister);
                }
                if self.closed {
                    return Err(TranslateError::DoubleTerminationOfBlock);
                }
                let constant = self.emit(IrOp::Iconst { imm: *imm });
                self.emit(IrOp::WriteReg { value: constant, reg: *dst });
            },
            AArch64Instruction::B { label } => {
                if self.closed {
                    return Err(TranslateError::DoubleTerminationOfBlock);
                }
                let i = self.resolve(label);
                self.emit(IrOp::Jump { target: BasicBlock(i + 1) });
                self.closed = true;
            },
            AArch64Instruction::Cbz { src, label } => {
                if !self.declares(*src) {
                    return Err(TranslateError::UndeclaredRegister);
                }
                if self.closed {
                    return Err(TranslateError::DoubleTerminationOfBlock);
                }
                let i = self.resolve(label);
                let fallthrough = self.current;
                let read = self.emit(IrOp::ReadReg { reg: *src });
                let zero = self.emit(IrOp::Iconst { imm: 0 });
                let cond = self.emit(IrOp::Equals { lhs: read, rhs: zero });
                self.emit(IrOp::JumpIf { cond, taken: BasicBlock(i + 1), fallthrough });
            },
            AArch64Instruction::Label { name } => {
                match self.find_label(name) {
                    Some(i) => {
                        if self.labels[i].defined {
                            return Err(TranslateError::DuplicateLabelDefinition);
                        }
                    },
                    None => {},
                }
                let i = self.resolve(name);
                let target = BasicBlock(i + 1);
                if !self.closed {
                    self.emit(IrOp::Jump { target });
                }
                self.labels.set(i, LabelEntry { name: name.clone(), defined: true });
                self.current = target;
                self.closed = false;
                proof {
                    assert(self@.labels =~= old(self)@.define_label(name@).labels);
                }
            },
        }
        proof {
            self.lemma_fits();
            lemma_step_preserves_wf(old(self)@, *inst);
        }
        Ok(())
    }
}

/// Gets the block of `label` from the table, creating the block if the
/// label was never mentioned before. Asking again for the same label gives
/// the same block and changes nothing.
pub fn get_and_add_block(state: &mut State, label: &String) -> (b: BasicBlock)
    requires
        old(state).wf(),
    ensures
        final(state)@ == old(state)@.with_label(label@),
        final(state)@.has_label(label@),
        b == final(state)@.block_of(label@),
        1 <= b.0 <= final(state)@.labels.len(),
        final(state)@.labels[b.0 - 1].name == label@,
        final(state).wf(),
{
    proof {
        lemma_with_label_row(state@, label@);
    }
    let i = state.resolve(label);
    BasicBlock(i + 1)
}

/// Translates one instruction. See [`State::translate`].
pub fn translate_aarch64_to_ir(state: &mut State, inst: AArch64Instruction) -> (r: Result<
    (),
    TranslateError,
>)
    requires
        old(state).wf(),
    ensures
        old(state)@.step(inst) == match r {
            Ok(()) => Ok::<StateView, TranslateError>(final(state)@),
            Err(e) => Err(e),
        },
        r is Err ==> final(state)@ == old(state)@,
        final(state).wf(),
{
    state.translate(&inst)
}

/// Translates a whole program for a bank of `reg_count` registers: every
/// instruction in order, then the check that each label mentioned by a
/// branch was defined. The first error ends the run.
pub fn translate_program(reg_count: usize, insts: &Vec<AArch64Instruction>) -> (r: Result<
    State,
    TranslateError,
>)
    ensures
        StateView::initial(reg_count as nat).run_to_end(insts@) == match r {
            Ok(s) => Ok::<StateView, TranslateError>(s@),
            Err(e) => Err(e),
        },
        r matches Ok(s) ==> s.wf(),
{
    let ghost start = StateView::initial(reg_count as nat);
    let mut state = State::new(reg_count);
    let n = insts.len();
    let mut i: usize = 0;
    while i < n
        invariant
            n == insts@.len(),
            i <= n,
            state.wf(),
            start == StateView::initial(reg_count as nat),
            start.run(insts@.take(i as int)) == Ok::<StateView, TranslateError>(state@),
        decreases n - i,
    {
        proof {
            assert(insts@.take(i + 1).drop_last() =~= insts@.take(i as int));
        }
        match state.translate(&insts[i]) {
            Ok(()) => {},
            Err(e) => {
                proof {
                    lemma_run_prefix_error(start, insts@, i + 1);
                }
                return Err(e);
            },
        }
        i += 1;
    }
    proof {
        assert(insts@.take(n as int) =~= insts@);
    }
    match state.finish() {
        Ok(()) => Ok(state),
        Err(e) => Err(e),
    }
}

} // verus!
