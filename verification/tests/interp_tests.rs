use brainbug::interp::{Cell, State};
use brainbug::lexer::lex;

const FUEL: u64 = 1_000_000;

fn run(src: &str, input: &[u8]) -> (State, Vec<u8>) {
    let program = lex(src);
    let mut state = State::new(program);
    let out = state.interp(&input.to_vec(), FUEL);
    (state, out)
}

#[test]
fn test_move_right() {
    let (state, _) = run(">", &[]);

    assert_eq!(state.head_pos, 1);
    assert_eq!(state.tape.len(), 2);
}

#[test]
fn test_move_right_resize() {
    let move_amt = 16;
    let src: String = (0..move_amt).map(|_| ">").collect();
    let (state, _) = run(&src, &[]);

    assert_eq!(state.head_pos, move_amt);
    assert_eq!(state.tape.len(), move_amt + 1);
}

#[test]
fn test_move_left() {
    let (state, _) = run("><", &[]);

    assert_eq!(state.head_pos, 0);
}

#[test]
fn test_move_left_negative() {
    let (state, _) = run("<+", &[]);

    assert_eq!(state.head_pos, 0);
    assert_eq!(state.tape.len(), 2);
    assert_eq!(state.tape[0], Cell::Val(1));
    assert_eq!(state.tape[1], Cell::Val(0));
}

#[test]
fn test_increment() {
    let (state, _) = run("+", &[]);

    assert_eq!(state.tape[0], Cell::Val(1));
}

#[test]
fn test_decrement() {
    let (state, _) = run("-", &[]);

    assert_eq!(state.tape[0], Cell::Val(u8::MAX));
}

#[test]
fn test_jump_if_zero1() {
    // Skip increment
    let (state, _) = run("[+]", &[]);

    assert_eq!(state.tape[0], Cell::Val(0));
}

#[test]
fn test_jump_if_zero2() {
    // Don't skip outer brace, but skip the inner one.
    let (state, _) = run("+[>[>+]>>>]", &[]);

    assert_eq!(state.tape[0], Cell::Val(1));
    assert_eq!(state.tape[1], Cell::Val(0));
}

#[test]
fn test_jump_if_zero3() {
    let (state, _) = run("+[>++>]", &[]);

    assert_eq!(state.tape[0], Cell::Val(1));
    assert_eq!(state.tape[1], Cell::Val(2));
}

#[test]
fn test_jump_unless_zero1() {
    // Set loop idx to 5, then increment cell 1 5 times
    let (state, _) = run("+++++[>+<-]", &[]);

    assert_eq!(state.tape[0], Cell::Val(0));
    assert_eq!(state.tape[1], Cell::Val(5));
}

#[test]
fn test_ctrl_flow1() {
    let (state, _) = run("+++++[>++++++++++[>+<-]<-]", &[]);

    assert_eq!(state.tape[2], Cell::Val(50));
}

#[test]
fn test_execution_counter() {
    let (state, _) = run("+++++[>+<-]", &[]);

    assert_eq!(state.execution_counter[0], 1);
    assert_eq!(state.execution_counter[1], 1);
    assert_eq!(state.execution_counter[2], 1);
    assert_eq!(state.execution_counter[3], 1);
    assert_eq!(state.execution_counter[4], 1);

    assert_eq!(state.execution_counter[5], 5);
    assert_eq!(state.execution_counter[6], 5);
    assert_eq!(state.execution_counter[7], 5);
    assert_eq!(state.execution_counter[8], 5);
    assert_eq!(state.execution_counter[9], 5);
}

#[test]
fn test_get_loop_profile_no_loops() {
    let (state, _) = run("+++++", &[]);

    let (simple_loops, complex_loops) = state.get_loop_executions();
    assert_eq!(simple_loops.len(), 0);
    assert_eq!(complex_loops.len(), 0);
}

#[test]
fn test_get_loop_profile_one_simple() {
    let (state, _) = run(">+++[>+++<-]", &[]);

    let (simple_loops, complex_loops) = state.get_loop_executions();
    assert_eq!(simple_loops.len(), 1);
    assert_eq!(simple_loops[0].pc, 4);
    assert_eq!(simple_loops[0].num_times_executed, 3);

    assert_eq!(complex_loops.len(), 0);
}

#[test]
fn test_get_loop_profile_one_simple_no_exe() {
    let (state, _) = run("+++>[>+++<-]", &[]);

    let (simple_loops, complex_loops) = state.get_loop_executions();
    assert_eq!(simple_loops.len(), 1);
    assert_eq!(simple_loops[0].pc, 4);
    assert_eq!(simple_loops[0].num_times_executed, 0);

    assert_eq!(complex_loops.len(), 0);
}

#[test]
fn test_get_loop_profile_one_complex_io() {
    let (state, _) = run(">+++[>.+++<-]", &[]);

    let (simple_loops, complex_loops) = state.get_loop_executions();
    assert_eq!(simple_loops.len(), 0);

    assert_eq!(complex_loops.len(), 1);
    assert_eq!(complex_loops[0].pc, 4);
    assert_eq!(complex_loops[0].num_times_executed, 3);
}

#[test]
fn test_get_loop_profile_one_complex_pointer_offset_change() {
    let (state, _) = run(">+++[>]", &[]);

    let (simple_loops, complex_loops) = state.get_loop_executions();
    assert_eq!(simple_loops.len(), 0);

    assert_eq!(complex_loops.len(), 1);
    assert_eq!(complex_loops[0].pc, 4);
    assert_eq!(complex_loops[0].num_times_executed, 1);
}

#[test]
fn test_get_loop_profile_one_complex_index() {
    let (state, _) = run(">++++[>+<--]", &[]);

    let (simple_loops, complex_loops) = state.get_loop_executions();
    assert_eq!(simple_loops.len(), 0);

    assert_eq!(complex_loops.len(), 1);
    assert_eq!(complex_loops[0].pc, 5);
    assert_eq!(complex_loops[0].num_times_executed, 2);
}

#[test]
fn test_get_loop_profile_simple_nested() {
    let (state, _) = run(">+++[>+++++[>++<-]<-]", &[]);

    let (simple_loops, complex_loops) = state.get_loop_executions();
    assert_eq!(simple_loops.len(), 1);
    assert_eq!(simple_loops[0].pc, 11);
    assert_eq!(simple_loops[0].num_times_executed, 15);

    assert_eq!(complex_loops.len(), 0);
}

#[test]
fn test_get_loop_profile_complex_nested() {
    let (state, _) = run(">+++[>++++++[>++<--]<-]", &[]);

    let (simple_loops, complex_loops) = state.get_loop_executions();
    assert_eq!(simple_loops.len(), 0);

    assert_eq!(complex_loops.len(), 1);
    assert_eq!(complex_loops[0].pc, 12);
    assert_eq!(complex_loops[0].num_times_executed, 9);
}

#[test]
fn test_get_loop_profile_simple_sorted() {
    let (state, _) = run("+++[>--<-]++[>--<-]++++[>--<-]", &[]);

    let (simple_loops, complex_loops) = state.get_loop_executions();
    assert_eq!(simple_loops.len(), 3);
    assert_eq!(simple_loops[0].pc, 23);
    assert_eq!(simple_loops[0].num_times_executed, 4);
    assert_eq!(simple_loops[1].pc, 3);
    assert_eq!(simple_loops[1].num_times_executed, 3);
    assert_eq!(simple_loops[2].pc, 12);
    assert_eq!(simple_loops[2].num_times_executed, 2);

    assert_eq!(complex_loops.len(), 0);
}

#[test]
fn test_get_loop_profile_complex_sorted() {
    let (state, _) = run("++++[>--<--]++[>--<--]++++++[>--<--]", &[]);

    let (simple_loops, complex_loops) = state.get_loop_executions();
    assert_eq!(simple_loops.len(), 0);

    assert_eq!(complex_loops.len(), 3);
    assert_eq!(complex_loops[0].pc, 28);
    assert_eq!(complex_loops[0].num_times_executed, 3);
    assert_eq!(complex_loops[1].pc, 4);
    assert_eq!(complex_loops[1].num_times_executed, 2);
    assert_eq!(complex_loops[2].pc, 14);
    assert_eq!(complex_loops[2].num_times_executed, 1);
}

#[test]
fn interp_reads_and_writes_memory_buffers() {
    // Program ",+." on input "0" prints the next character, "1".
    let (_, out) = run(",+.", b"0");
    assert_eq!(out, b"1");
}

#[test]
fn interp_counted_loop_adds_into_neighbour() {
    // ",>+++++[<+>-]<." adds 5 to the byte read: '0' becomes '5'.
    let (_, out) = run(",>+++++[<+>-]<.", b"0");
    assert_eq!(out, b"5");
}

#[test]
fn interp_wraps_below_zero() {
    // "++++++[->-<]>." leaves 0 - 6 = 250 modulo 256 in cell 1.
    let (_, out) = run("++++++[->-<]>.", &[]);
    assert_eq!(out, vec![250u8]);
}

#[test]
fn interp_scans_to_first_zero_cell() {
    let (_, out) = run("+>++>+++>++++>+++++>>++++++<<<<<<[>]>.", &[]);
    assert_eq!(out, vec![6u8]);
}

#[test]
fn interp_read_at_end_of_input_yields_255() {
    let (_, out) = run(",.", &[]);
    assert_eq!(out, vec![255u8]);
}

#[test]
fn interp_runs_the_loop_the_partial_evaluator_gives_up_on() {
    // "+[,],." keeps reading while the byte read is nonzero, then reads
    // once more and prints it.
    let (_, out) = run("+[,],.", &[1, 2, 0, 3]);
    assert_eq!(out, vec![3u8]);
}

#[test]
fn interp_nested_loops_multiply() {
    // ",>+++[>++[<<+>>-]<-]<." adds 3 * 2 to the byte read.
    let (_, out) = run(",>+++[>++[<<+>>-]<-]<.", b"0");
    assert_eq!(out, b"6");
}

#[test]
fn interp_consecutive_loops_accumulate() {
    let (_, out) = run(",>+++[<+>-]++[<+>-]<.", b"0");
    assert_eq!(out, b"5");
}

#[test]
fn interp_scans_leftward() {
    let (_, out) = run("+<++<+++<++++<+++++<<++++++>>>>>>[<]<.", &[]);
    assert_eq!(out, vec![6u8]);
}

#[test]
fn interp_scans_by_two() {
    let (_, out) = run(">+>>++>>+++>>>++++>+++++<<<<<<<<[>>]>.", &[]);
    assert_eq!(out, vec![4u8]);
}

#[test]
fn interp_nested_counted_loop_result() {
    let (_, out) = run("++[->+++[->+<]<]>>.", &[]);
    assert_eq!(out, vec![6u8]);
}
