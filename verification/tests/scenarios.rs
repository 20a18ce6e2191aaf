use aarch64_lift::engine::{translate_aarch64_to_ir, translate_program, State};
use aarch64_lift::instruction::AArch64Instruction;
use aarch64_lift::ir::{BasicBlock, BuilderCall, IrOp, Reg, Value};

fn insert(block: usize, op: IrOp) -> BuilderCall {
    BuilderCall::Insert { block: BasicBlock(block), op }
}

fn jumps_into(calls: &[BuilderCall], target: BasicBlock) -> usize {
    let mut n = 0;
    for call in calls {
        if let BuilderCall::Insert { op, .. } = call {
            match op {
                IrOp::Jump { target: t } if *t == target => n += 1,
                IrOp::JumpIf { taken, fallthrough, .. } => {
                    if *taken == target {
                        n += 1;
                    }
                    if *fallthrough == target {
                        n += 1;
                    }
                }
                _ => {}
            }
        }
    }
    n
}

fn counting_loop() -> Vec<AArch64Instruction> {
    let x0 = Reg(0);
    let x1 = Reg(1);
    let x2 = Reg(2);
    let x3 = Reg(3);
    vec![
        AArch64Instruction::Mov { dst: x0, imm: 10 },
        AArch64Instruction::Mov { dst: x1, imm: 1 },
        AArch64Instruction::Mov { dst: x2, imm: 0 },
        AArch64Instruction::Label { name: "start".to_string() },
        AArch64Instruction::Add { dst: x3, src: x2, imm: 1 },
        AArch64Instruction::Sub { dst: x0, src: x0, imm: 1 },
        AArch64Instruction::Cbz { src: x0, label: "end".to_string() },
        AArch64Instruction::B { label: "start".to_string() },
        AArch64Instruction::Label { name: "end".to_string() },
    ]
}

#[test]
fn counting_loop_records_the_expected_calls() {
    let state = translate_program(4, &counting_loop()).unwrap();
    let expected = vec![
        insert(0, IrOp::Iconst { imm: 10 }),
        insert(0, IrOp::WriteReg { value: Value(0), reg: Reg(0) }),
        insert(0, IrOp::Iconst { imm: 1 }),
        insert(0, IrOp::WriteReg { value: Value(2), reg: Reg(1) }),
        insert(0, IrOp::Iconst { imm: 0 }),
        insert(0, IrOp::WriteReg { value: Value(4), reg: Reg(2) }),
        BuilderCall::CreateBlock { block: BasicBlock(1) },
        insert(0, IrOp::Jump { target: BasicBlock(1) }),
        insert(1, IrOp::Iconst { imm: 1 }),
        insert(1, IrOp::ReadReg { reg: Reg(2) }),
        insert(1, IrOp::Add { lhs: Value(9), rhs: Value(8) }),
        insert(1, IrOp::WriteReg { value: Value(10), reg: Reg(3) }),
        insert(1, IrOp::Iconst { imm: -1 }),
        insert(1, IrOp::ReadReg { reg: Reg(0) }),
        insert(1, IrOp::Add { lhs: Value(13), rhs: Value(12) }),
        insert(1, IrOp::WriteReg { value: Value(14), reg: Reg(0) }),
        BuilderCall::CreateBlock { block: BasicBlock(2) },
        insert(1, IrOp::ReadReg { reg: Reg(0) }),
        insert(1, IrOp::Iconst { imm: 0 }),
        insert(1, IrOp::Equals { lhs: Value(17), rhs: Value(18) }),
        insert(
            1,
            IrOp::JumpIf { cond: Value(19), taken: BasicBlock(2), fallthrough: BasicBlock(1) },
        ),
        insert(1, IrOp::Jump { target: BasicBlock(1) }),
    ];
    assert_eq!(state.calls(), &expected);
}

#[test]
fn counting_loop_has_the_expected_blocks() {
    let state = translate_program(4, &counting_loop()).unwrap();
    assert_eq!(state.label_count(), 2);
    assert_eq!(state.label_name(0), "start");
    assert_eq!(state.label_name(1), "end");
    assert!(state.label_defined(0));
    assert!(state.label_defined(1));

    let entry = state.block_operations(BasicBlock(0));
    assert_eq!(entry.len(), 7);
    assert_eq!(entry[6], IrOp::Jump { target: BasicBlock(1) });
    let writes = entry.iter().filter(|op| matches!(op, IrOp::WriteReg { .. })).count();
    assert_eq!(writes, 3);

    let start = state.block_operations(BasicBlock(1));
    assert_eq!(start.len(), 13);
    let adds = start.iter().filter(|op| matches!(op, IrOp::Add { .. })).count();
    assert_eq!(adds, 2);
    assert!(matches!(start[10], IrOp::Equals { .. }));
    assert!(matches!(
        start[11],
        IrOp::JumpIf { taken: BasicBlock(2), fallthrough: BasicBlock(1), .. }
    ));
    assert_eq!(start[12], IrOp::Jump { target: BasicBlock(1) });

    let end = state.block_operations(BasicBlock(2));
    assert!(end.is_empty());
    assert_eq!(state.current_block(), BasicBlock(2));
    assert!(!state.is_terminated());
}

#[test]
fn counting_loop_has_the_expected_edges() {
    let state = translate_program(4, &counting_loop()).unwrap();
    assert_eq!(jumps_into(state.calls(), BasicBlock(2)), 1);
    // From the entry block, from the conditional's not-taken edge, and from
    // the branch that closes the loop.
    assert_eq!(jumps_into(state.calls(), BasicBlock(1)), 3);
    assert_eq!(jumps_into(state.calls(), BasicBlock(0)), 0);
}

#[test]
fn forward_reference_makes_one_block_and_one_edge() {
    let program = vec![
        AArch64Instruction::B { label: "L".to_string() },
        AArch64Instruction::Label { name: "L".to_string() },
    ];
    let state = translate_program(0, &program).unwrap();
    assert_eq!(state.label_count(), 1);
    assert_eq!(
        state.calls(),
        &vec![
            BuilderCall::CreateBlock { block: BasicBlock(1) },
            insert(0, IrOp::Jump { target: BasicBlock(1) }),
        ]
    );
    let created = state
        .calls()
        .iter()
        .filter(|call| matches!(call, BuilderCall::CreateBlock { .. }))
        .count();
    assert_eq!(created, 1);
    assert_eq!(jumps_into(state.calls(), BasicBlock(1)), 1);
    assert_eq!(state.current_block(), BasicBlock(1));
    assert_eq!(state.lookup(&"L".to_string()), Some(BasicBlock(1)));
}

#[test]
fn backward_reference_reuses_the_block() {
    let program = vec![
        AArch64Instruction::Label { name: "L".to_string() },
        AArch64Instruction::B { label: "L".to_string() },
    ];
    let state = translate_program(0, &program).unwrap();
    assert_eq!(state.label_count(), 1);
    assert_eq!(
        state.calls(),
        &vec![
            BuilderCall::CreateBlock { block: BasicBlock(1) },
            insert(0, IrOp::Jump { target: BasicBlock(1) }),
            insert(1, IrOp::Jump { target: BasicBlock(1) }),
        ]
    );
}

#[test]
fn a_written_register_is_read_back_across_a_branch() {
    let program = vec![
        AArch64Instruction::Mov { dst: Reg(0), imm: 10 },
        AArch64Instruction::B { label: "next".to_string() },
        AArch64Instruction::Label { name: "next".to_string() },
        AArch64Instruction::Add { dst: Reg(1), src: Reg(0), imm: 5 },
    ];
    let state = translate_program(2, &program).unwrap();
    let calls = state.calls();
    assert_eq!(calls[0], insert(0, IrOp::Iconst { imm: 10 }));
    assert_eq!(calls[1], insert(0, IrOp::WriteReg { value: Value(0), reg: Reg(0) }));
    let read = calls
        .iter()
        .position(|call| *call == insert(1, IrOp::ReadReg { reg: Reg(0) }))
        .unwrap();
    assert_eq!(read, 5);
    let overwritten = calls[2..read].iter().any(|call| {
        matches!(call, BuilderCall::Insert { op: IrOp::WriteReg { reg: Reg(0), .. }, .. })
    });
    assert!(!overwritten);
    assert_eq!(calls[6], insert(1, IrOp::Add { lhs: Value(5), rhs: Value(4) }));
    assert_eq!(calls[7], insert(1, IrOp::WriteReg { value: Value(6), reg: Reg(1) }));
}

#[test]
fn two_paths_write_the_same_register_before_joining() {
    let program = vec![
        AArch64Instruction::Cbz { src: Reg(1), label: "other".to_string() },
        AArch64Instruction::Mov { dst: Reg(0), imm: 1 },
        AArch64Instruction::B { label: "join".to_string() },
        AArch64Instruction::Label { name: "other".to_string() },
        AArch64Instruction::Mov { dst: Reg(0), imm: 2 },
        AArch64Instruction::Label { name: "join".to_string() },
        AArch64Instruction::Add { dst: Reg(0), src: Reg(0), imm: 0 },
    ];
    let state = translate_program(2, &program).unwrap();
    let other = state.lookup(&"other".to_string()).unwrap();
    let join = state.lookup(&"join".to_string()).unwrap();
    assert_eq!(other, BasicBlock(1));
    assert_eq!(join, BasicBlock(2));
    assert_eq!(jumps_into(state.calls(), join), 2);
    let entry = state.block_operations(BasicBlock(0));
    assert!(entry.contains(&IrOp::Iconst { imm: 1 }));
    assert_eq!(entry.last(), Some(&IrOp::Jump { target: join }));
    let second = state.block_operations(other);
    assert!(second.contains(&IrOp::Iconst { imm: 2 }));
    assert_eq!(second.last(), Some(&IrOp::Jump { target: join }));
    let joined = state.block_operations(join);
    assert_eq!(joined[1], IrOp::ReadReg { reg: Reg(0) });
}

#[test]
fn subtract_records_what_add_of_the_negation_records() {
    for imm in [1i64, -1, 0, 42, i64::MAX, i64::MIN + 1] {
        let mut by_sub = State::new(2);
        let mut by_add = State::new(2);
        let sub = AArch64Instruction::Sub { dst: Reg(0), src: Reg(1), imm };
        let add = AArch64Instruction::Add { dst: Reg(0), src: Reg(1), imm: -imm };
        assert_eq!(translate_aarch64_to_ir(&mut by_sub, sub), Ok(()));
        assert_eq!(translate_aarch64_to_ir(&mut by_add, add), Ok(()));
        assert_eq!(by_sub.calls(), by_add.calls());
        assert_eq!(by_sub.calls()[0], insert(0, IrOp::Iconst { imm: -imm }));
    }
}

#[test]
fn add_records_constant_read_sum_and_write() {
    let mut state = State::new(4);
    let add = AArch64Instruction::Add { dst: Reg(3), src: Reg(2), imm: 7 };
    assert_eq!(state.translate(&add), Ok(()));
    assert_eq!(
        state.calls(),
        &vec![
            insert(0, IrOp::Iconst { imm: 7 }),
            insert(0, IrOp::ReadReg { reg: Reg(2) }),
            insert(0, IrOp::Add { lhs: Value(1), rhs: Value(0) }),
            insert(0, IrOp::WriteReg { value: Value(2), reg: Reg(3) }),
        ]
    );
}

#[test]
fn move_records_no_arithmetic() {
    let mut state = State::new(1);
    let mov = AArch64Instruction::Mov { dst: Reg(0), imm: -3 };
    assert_eq!(state.translate(&mov), Ok(()));
    assert_eq!(
        state.calls(),
        &vec![
            insert(0, IrOp::Iconst { imm: -3 }),
            insert(0, IrOp::WriteReg { value: Value(0), reg: Reg(0) }),
        ]
    );
}

#[test]
fn conditional_branch_falls_through_to_its_own_block() {
    let mut state = State::new(1);
    let cbz = AArch64Instruction::Cbz { src: Reg(0), label: "out".to_string() };
    assert_eq!(state.translate(&cbz), Ok(()));
    assert_eq!(
        state.calls(),
        &vec![
            BuilderCall::CreateBlock { block: BasicBlock(1) },
            insert(0, IrOp::ReadReg { reg: Reg(0) }),
            insert(0, IrOp::Iconst { imm: 0 }),
            insert(0, IrOp::Equals { lhs: Value(1), rhs: Value(2) }),
            insert(
                0,
                IrOp::JumpIf { cond: Value(3), taken: BasicBlock(1), fallthrough: BasicBlock(0) },
            ),
        ]
    );
    assert_eq!(state.current_block(), BasicBlock(0));
    assert!(!state.is_terminated());
}

#[test]
fn arithmetic_after_a_conditional_branch_stays_in_the_block() {
    let mut state = State::new(1);
    let cbz = AArch64Instruction::Cbz { src: Reg(0), label: "out".to_string() };
    let mov = AArch64Instruction::Mov { dst: Reg(0), imm: 5 };
    assert_eq!(state.translate(&cbz), Ok(()));
    assert_eq!(state.translate(&mov), Ok(()));
    let entry = state.block_operations(BasicBlock(0));
    assert_eq!(entry.len(), 6);
    assert_eq!(entry[4], IrOp::Iconst { imm: 5 });
    assert_eq!(entry[5], IrOp::WriteReg { value: Value(5), reg: Reg(0) });
}

#[test]
fn label_after_open_block_falls_through_by_a_jump() {
    let mut state = State::new(1);
    let label = AArch64Instruction::Label { name: "a".to_string() };
    assert_eq!(state.translate(&label), Ok(()));
    assert_eq!(
        state.calls(),
        &vec![
            BuilderCall::CreateBlock { block: BasicBlock(1) },
            insert(0, IrOp::Jump { target: BasicBlock(1) }),
        ]
    );
    assert_eq!(state.current_block(), BasicBlock(1));
    assert!(!state.is_terminated());
}

#[test]
fn label_after_closed_block_adds_no_jump() {
    let mut state = State::new(1);
    let b = AArch64Instruction::B { label: "a".to_string() };
    let label = AArch64Instruction::Label { name: "b".to_string() };
    assert_eq!(state.translate(&b), Ok(()));
    assert!(state.is_terminated());
    assert_eq!(state.translate(&label), Ok(()));
    assert_eq!(
        state.calls(),
        &vec![
            BuilderCall::CreateBlock { block: BasicBlock(1) },
            insert(0, IrOp::Jump { target: BasicBlock(1) }),
            BuilderCall::CreateBlock { block: BasicBlock(2) },
        ]
    );
    assert_eq!(state.current_block(), BasicBlock(2));
    assert!(!state.is_terminated());
    assert_eq!(jumps_into(state.calls(), BasicBlock(2)), 0);
}

#[test]
fn every_block_has_one_terminator_at_its_end() {
    let program = vec![
        AArch64Instruction::Mov { dst: Reg(0), imm: 3 },
        AArch64Instruction::Label { name: "a".to_string() },
        AArch64Instruction::Sub { dst: Reg(0), src: Reg(0), imm: 1 },
        AArch64Instruction::B { label: "b".to_string() },
        AArch64Instruction::Label { name: "b".to_string() },
        AArch64Instruction::Cbz { src: Reg(0), label: "a".to_string() },
    ];
    let state = translate_program(1, &program).unwrap();
    for b in 0..=state.label_count() {
        let ops = state.block_operations(BasicBlock(b));
        let terminators = ops
            .iter()
            .filter(|op| matches!(op, IrOp::Jump { .. } | IrOp::JumpIf { .. }))
            .count();
        assert_eq!(terminators, 1);
        assert!(matches!(ops.last(), Some(IrOp::Jump { .. }) | Some(IrOp::JumpIf { .. })));
    }
}

#[test]
fn empty_program_records_nothing() {
    let state = translate_program(3, &Vec::new()).unwrap();
    assert!(state.calls().is_empty());
    assert_eq!(state.label_count(), 0);
    assert_eq!(state.register_count(), 3);
    assert_eq!(state.current_block(), BasicBlock(0));
    assert!(!state.is_terminated());
    assert!(state.block_operations(BasicBlock(0)).is_empty());
}

#[test]
fn cloned_instruction_equals_its_source() {
    for inst in counting_loop() {
        assert_eq!(inst.clone(), inst);
    }
}
