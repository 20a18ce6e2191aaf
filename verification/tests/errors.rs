use aarch64_lift::engine::{translate_aarch64_to_ir, translate_program, State};
use aarch64_lift::error::TranslateError;
use aarch64_lift::instruction::AArch64Instruction;
use aarch64_lift::ir::{BasicBlock, Reg};

fn closed_state() -> State {
    let mut state = State::new(2);
    let b = AArch64Instruction::B { label: "away".to_string() };
    assert_eq!(state.translate(&b), Ok(()));
    assert!(state.is_terminated());
    state
}

#[test]
fn undeclared_register_is_rejected_in_every_position() {
    let rejected = vec![
        AArch64Instruction::Add { dst: Reg(2), src: Reg(0), imm: 1 },
        AArch64Instruction::Add { dst: Reg(0), src: Reg(2), imm: 1 },
        AArch64Instruction::Sub { dst: Reg(7), src: Reg(0), imm: 1 },
        AArch64Instruction::Sub { dst: Reg(0), src: Reg(usize::MAX), imm: 1 },
        AArch64Instruction::Mov { dst: Reg(2), imm: 1 },
        AArch64Instruction::Cbz { src: Reg(2), label: "L".to_string() },
    ];
    for inst in rejected {
        let mut state = State::new(2);
        assert_eq!(
            translate_aarch64_to_ir(&mut state, inst),
            Err(TranslateError::UndeclaredRegister)
        );
        assert!(state.calls().is_empty());
        assert_eq!(state.label_count(), 0);
    }
}

#[test]
fn declared_registers_are_those_below_the_bank_size() {
    let state = State::new(2);
    assert!(state.declares(Reg(0)));
    assert!(state.declares(Reg(1)));
    assert!(!state.declares(Reg(2)));
    assert!(!State::new(0).declares(Reg(0)));
}

#[test]
fn second_definition_of_a_label_is_rejected() {
    let mut state = State::new(0);
    let label = AArch64Instruction::Label { name: "L".to_string() };
    assert_eq!(state.translate(&label), Ok(()));
    let calls = state.calls().clone();
    assert_eq!(state.translate(&label), Err(TranslateError::DuplicateLabelDefinition));
    assert_eq!(state.calls(), &calls);
    assert_eq!(state.current_block(), BasicBlock(1));
    assert_eq!(state.label_count(), 1);
}

#[test]
fn duplicate_definition_stops_the_program() {
    let program = vec![
        AArch64Instruction::Label { name: "L".to_string() },
        AArch64Instruction::B { label: "L".to_string() },
        AArch64Instruction::Label { name: "L".to_string() },
    ];
    assert_eq!(
        translate_program(0, &program).err(),
        Some(TranslateError::DuplicateLabelDefinition)
    );
}

#[test]
fn label_that_is_never_defined_is_reported_at_the_end() {
    let program = vec![AArch64Instruction::B { label: "nowhere".to_string() }];
    assert_eq!(translate_program(0, &program).err(), Some(TranslateError::UnresolvedLabelAtEnd));

    let mut state = State::new(1);
    let cbz = AArch64Instruction::Cbz { src: Reg(0), label: "nowhere".to_string() };
    assert_eq!(state.translate(&cbz), Ok(()));
    assert!(state.has_unresolved());
    assert_eq!(state.first_unresolved(), Some(0));
    assert_eq!(state.label_name(0), "nowhere");
    assert_eq!(state.finish(), Err(TranslateError::UnresolvedLabelAtEnd));
}

#[test]
fn first_unresolved_skips_defined_labels() {
    let program = vec![
        AArch64Instruction::Label { name: "a".to_string() },
        AArch64Instruction::Cbz { src: Reg(0), label: "b".to_string() },
        AArch64Instruction::Cbz { src: Reg(0), label: "c".to_string() },
    ];
    let mut state = State::new(1);
    assert_eq!(state.first_unresolved(), None);
    for inst in &program {
        assert_eq!(state.translate(inst), Ok(()));
    }
    assert_eq!(state.first_unresolved(), Some(1));
    let label = AArch64Instruction::Label { name: "b".to_string() };
    assert_eq!(state.translate(&label), Ok(()));
    assert_eq!(state.first_unresolved(), Some(2));
    let label = AArch64Instruction::Label { name: "c".to_string() };
    assert_eq!(state.translate(&label), Ok(()));
    assert_eq!(state.first_unresolved(), None);
    assert_eq!(state.finish(), Ok(()));
}

#[test]
fn finish_accepts_a_run_with_every_label_defined() {
    assert_eq!(State::new(0).finish(), Ok(()));
    let mut state = State::new(0);
    let label = AArch64Instruction::Label { name: "L".to_string() };
    assert_eq!(state.translate(&label), Ok(()));
    assert_eq!(state.finish(), Ok(()));
}

#[test]
fn subtracting_the_least_immediate_is_rejected() {
    let mut state = State::new(2);
    let sub = AArch64Instruction::Sub { dst: Reg(0), src: Reg(1), imm: i64::MIN };
    assert_eq!(state.translate(&sub), Err(TranslateError::SignedOverflowOnSubtractNegation));
    assert!(state.calls().is_empty());
    let add = AArch64Instruction::Add { dst: Reg(0), src: Reg(1), imm: i64::MIN };
    assert_eq!(state.translate(&add), Ok(()));
}

#[test]
fn nothing_is_appended_behind_an_unconditional_jump() {
    let rejected = vec![
        AArch64Instruction::Add { dst: Reg(0), src: Reg(1), imm: 1 },
        AArch64Instruction::Sub { dst: Reg(0), src: Reg(1), imm: 1 },
        AArch64Instruction::Mov { dst: Reg(0), imm: 1 },
        AArch64Instruction::B { label: "away".to_string() },
        AArch64Instruction::B { label: "elsewhere".to_string() },
        AArch64Instruction::Cbz { src: Reg(0), label: "away".to_string() },
    ];
    for inst in rejected {
        let mut state = closed_state();
        let calls = state.calls().clone();
        assert_eq!(state.translate(&inst), Err(TranslateError::DoubleTerminationOfBlock));
        assert_eq!(state.calls(), &calls);
        assert_eq!(state.label_count(), 1);
        assert!(state.is_terminated());
        assert_eq!(state.current_block(), BasicBlock(0));
    }
}

#[test]
fn operands_are_checked_before_the_block() {
    let mut state = closed_state();
    let mov = AArch64Instruction::Mov { dst: Reg(9), imm: 1 };
    assert_eq!(state.translate(&mov), Err(TranslateError::UndeclaredRegister));
    let sub = AArch64Instruction::Sub { dst: Reg(0), src: Reg(1), imm: i64::MIN };
    assert_eq!(state.translate(&sub), Err(TranslateError::SignedOverflowOnSubtractNegation));
    let sub = AArch64Instruction::Sub { dst: Reg(9), src: Reg(1), imm: i64::MIN };
    assert_eq!(state.translate(&sub), Err(TranslateError::UndeclaredRegister));
}

#[test]
fn first_error_ends_the_program() {
    let program = vec![
        AArch64Instruction::Mov { dst: Reg(0), imm: 1 },
        AArch64Instruction::B { label: "L".to_string() },
        AArch64Instruction::Mov { dst: Reg(5), imm: 1 },
        AArch64Instruction::Label { name: "L".to_string() },
    ];
    assert_eq!(translate_program(1, &program).err(), Some(TranslateError::UndeclaredRegister));
    assert_eq!(
        translate_program(6, &program).err(),
        Some(TranslateError::DoubleTerminationOfBlock)
    );
}
