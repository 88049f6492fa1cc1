use brainbug::inst::Instruction;
use brainbug::interp::{Cell, State};
use brainbug::lexer::lex;

const FUEL: u64 = 1_000_000;

fn eval(src: &str) -> (State, Vec<Instruction>) {
    let program = lex(src);
    let mut state = State::new(program);
    let insts = state.partial_eval(FUEL);
    (state, insts)
}

#[test]
fn test_partial_eval_simple() {
    let (_, insts) = eval("+.");

    assert_eq!(insts, [Instruction::Output(1)]);
}

#[test]
fn test_partial_eval_read_becomes_unknown() {
    let (state, insts) = eval(",");

    assert_eq!(insts, [Instruction::Read]);
    assert_eq!(state.tape[0], Cell::Unknown);
}

#[test]
fn test_partial_eval_known_and_unknown_cells() {
    let (state, insts) = eval(",>+++.<.");

    assert_eq!(insts, [Instruction::Read, Instruction::Output(3), Instruction::Write]);
    assert_eq!(state.tape, [Cell::Unknown, Cell::Val(3)]);
}

#[test]
fn test_partial_eval_read_inc_write() {
    let (state, insts) = eval(",+++.");

    assert_eq!(
        insts,
        [
            Instruction::Read,
            Instruction::Increment,
            Instruction::Increment,
            Instruction::Increment,
            Instruction::Write,
        ]
    );
    assert_eq!(state.tape, [Cell::Unknown]);
}

#[test]
fn test_partial_eval_negative_head_pos() {
    let (state, insts) = eval(">>,<<<,.>>>.");

    assert_eq!(
        insts,
        [
            Instruction::SetHeadPos(2),
            Instruction::Read,
            Instruction::SetHeadPos(-1),
            Instruction::Read,
            Instruction::Write,
            Instruction::SetHeadPos(2),
            Instruction::Write,
        ]
    );
    assert_eq!(state.tape, [Cell::Unknown, Cell::Val(0), Cell::Val(0), Cell::Unknown]);
}

#[test]
fn test_partial_eval_loop() {
    let (state, insts) = eval("+++[->++<]>.");

    assert_eq!(insts, [Instruction::Output(6)]);
    assert_eq!(state.tape, [Cell::Val(0), Cell::Val(6)]);
}

#[test]
fn test_partial_eval_read_in_loop() {
    let (state, insts) = eval("+++[->++>,.<<]>.");

    assert_eq!(
        insts,
        [
            Instruction::SetHeadPos(2),
            Instruction::Read,
            Instruction::Write,
            Instruction::Read,
            Instruction::Write,
            Instruction::Read,
            Instruction::Write,
            Instruction::Output(6),
        ]
    );
    assert_eq!(state.tape, [Cell::Val(0), Cell::Val(6), Cell::Unknown]);
}

#[test]
fn test_partial_eval_unknown_pc_loop_enter() {
    let (state, insts) = eval(",[->+<]>.");

    assert_eq!(
        insts,
        [
            Instruction::Read,
            Instruction::JumpIfZero,
            Instruction::Decrement,
            Instruction::MoveRight,
            Instruction::Increment,
            Instruction::MoveLeft,
            Instruction::JumpUnlessZero,
            Instruction::MoveRight,
            Instruction::Write,
        ]
    );
    assert_eq!(state.tape, [Cell::Unknown]);
}

#[test]
fn test_partial_eval_unknown_pc_loop_enter_nested() {
    let (state, insts) = eval(">+++[->,[->+<]]>.");

    assert_eq!(
        insts,
        [
            Instruction::SetHeadPos(1),
            Instruction::SetCell(0, 0),
            Instruction::SetCell(1, 3),
            Instruction::JumpIfZero,
            Instruction::Decrement,
            Instruction::MoveRight,
            Instruction::Read,
            Instruction::JumpIfZero,
            Instruction::Decrement,
            Instruction::MoveRight,
            Instruction::Increment,
            Instruction::MoveLeft,
            Instruction::JumpUnlessZero,
            Instruction::JumpUnlessZero,
            Instruction::MoveRight,
            Instruction::Write
        ]
    );
    assert_eq!(state.tape, [Cell::Val(0), Cell::Val(3)]);
}

#[test]
fn test_partial_eval_unknown_pc_loop_exit() {
    let (state, insts) = eval("+>+++[,]<.");

    assert_eq!(
        insts,
        [
            Instruction::SetHeadPos(1),
            Instruction::SetCell(0, 1),
            Instruction::SetCell(1, 3),
            Instruction::JumpIfZero,
            Instruction::Read,
            Instruction::JumpUnlessZero,
            Instruction::MoveLeft,
            Instruction::Write,
        ]
    );
    assert_eq!(state.tape, [Cell::Val(1), Cell::Val(3)]);
}

#[test]
fn test_partial_eval_unknown_pc_head_and_tape_state_written() {
    let (state, insts) = eval("+>++<<+++>>>,[->+<]>.");

    assert_eq!(
        insts,
        [
            Instruction::SetHeadPos(2),
            Instruction::Read,
            Instruction::SetCell(-1, 3),
            Instruction::SetCell(0, 1),
            Instruction::SetCell(1, 2),
            Instruction::JumpIfZero,
            Instruction::Decrement,
            Instruction::MoveRight,
            Instruction::Increment,
            Instruction::MoveLeft,
            Instruction::JumpUnlessZero,
            Instruction::MoveRight,
            Instruction::Write,
        ]
    );
    assert_eq!(state.tape, [Cell::Val(3), Cell::Val(1), Cell::Val(2), Cell::Unknown]);
}

#[test]
fn test_partial_eval_read_dec_write() {
    let (state, insts) = eval(",---.");

    assert_eq!(
        insts,
        [
            Instruction::Read,
            Instruction::Decrement,
            Instruction::Decrement,
            Instruction::Decrement,
            Instruction::Write,
        ]
    );
    assert_eq!(state.tape, [Cell::Unknown]);
}

#[test]
fn partial_eval_folds_constant_outputs() {
    // "+.>++.>+++." is fully constant: the residual is its outputs.
    let (_, insts) = eval("+.>++.>+++.");

    assert_eq!(
        insts,
        [Instruction::Output(1), Instruction::Output(2), Instruction::Output(3)]
    );
}

#[test]
fn partial_eval_aborts_and_restores_at_an_unknown_loop_head() {
    // "+[,],.": the read inside the loop makes the loop-index cell
    // unknown, so the evaluator restores the state from before the loop
    // and emits a tape-restore preamble plus the runtime loop.
    let (_, insts) = eval("+[,],.");

    assert_eq!(
        insts,
        [
            Instruction::SetCell(0, 1),
            Instruction::JumpIfZero,
            Instruction::Read,
            Instruction::JumpUnlessZero,
            Instruction::Read,
            Instruction::Write,
        ]
    );
}
