use brainbug::inst::Instruction;
use brainbug::lexer::lex;
use brainbug::rewrite::{simplify_loops, vectorize_scans};

#[test]
fn test_decrement_loop_to_zero() {
    let mut prog = lex("[-]");
    simplify_loops(&mut prog);

    assert_eq!(prog, [Instruction::Zero, Instruction::Nop, Instruction::Nop]);
}

#[test]
fn test_increment_loop_to_zero() {
    let mut prog = lex("[+]");
    simplify_loops(&mut prog);

    assert_eq!(prog, [Instruction::Zero, Instruction::Nop, Instruction::Nop]);
}

#[test]
fn test_decrement_loop_add_1() {
    let mut prog = lex("[->+<]");
    simplify_loops(&mut prog);

    assert_eq!(
        prog,
        [
            Instruction::Add(1),
            Instruction::Zero,
            Instruction::Nop,
            Instruction::Nop,
            Instruction::Nop,
            Instruction::Nop,
        ]
    );
}

#[test]
fn test_decrement_loop_sub_1() {
    let mut prog = lex("[->-<]");
    simplify_loops(&mut prog);

    assert_eq!(
        prog,
        [
            Instruction::Sub(1),
            Instruction::Zero,
            Instruction::Nop,
            Instruction::Nop,
            Instruction::Nop,
            Instruction::Nop,
        ]
    );
}

#[test]
fn test_increment_loop_add_1() {
    let mut prog = lex("[+>+<]");
    simplify_loops(&mut prog);

    assert_eq!(
        prog,
        [
            Instruction::Sub(1),
            Instruction::Zero,
            Instruction::Nop,
            Instruction::Nop,
            Instruction::Nop,
            Instruction::Nop,
        ]
    );
}

#[test]
fn test_increment_loop_add_1_write() {
    let mut prog = lex("[+>+>.<<]");
    let prog_orig = prog.clone();
    simplify_loops(&mut prog);

    assert_eq!(prog, prog_orig);
}

#[test]
fn test_increment_loop_add_1_read() {
    let mut prog = lex("[+>+>,<<]");
    let prog_orig = prog.clone();
    simplify_loops(&mut prog);

    assert_eq!(prog, prog_orig);
}

#[test]
fn test_increment_loop_sub_1() {
    let mut prog = lex("[+>-<]");
    simplify_loops(&mut prog);

    assert_eq!(
        prog,
        [
            Instruction::Add(1),
            Instruction::Zero,
            Instruction::Nop,
            Instruction::Nop,
            Instruction::Nop,
            Instruction::Nop,
        ]
    );
}

#[test]
fn test_decrement_loop_add_sub() {
    let mut prog = lex("[->>+++>>>>>-+---<++<<<<<<]");
    simplify_loops(&mut prog);

    assert_eq!(
        prog,
        [
            Instruction::Add(2),
            Instruction::Add(2),
            Instruction::Add(2),
            Instruction::Add(6),
            Instruction::Add(6),
            Instruction::Sub(7),
            Instruction::Sub(7),
            Instruction::Sub(7),
            Instruction::Zero,
            Instruction::Nop,
            Instruction::Nop,
            Instruction::Nop,
            Instruction::Nop,
            Instruction::Nop,
            Instruction::Nop,
            Instruction::Nop,
            Instruction::Nop,
            Instruction::Nop,
            Instruction::Nop,
            Instruction::Nop,
            Instruction::Nop,
            Instruction::Nop,
            Instruction::Nop,
            Instruction::Nop,
            Instruction::Nop,
            Instruction::Nop,
            Instruction::Nop,
        ]
    );
}

#[test]
fn test_increment_loop_add_sub() {
    let mut prog = lex("[+>>+++>>>>>-+---<++<<<<<<]");
    simplify_loops(&mut prog);

    assert_eq!(
        prog,
        [
            Instruction::Sub(2),
            Instruction::Sub(2),
            Instruction::Sub(2),
            Instruction::Sub(6),
            Instruction::Sub(6),
            Instruction::Add(7),
            Instruction::Add(7),
            Instruction::Add(7),
            Instruction::Zero,
            Instruction::Nop,
            Instruction::Nop,
            Instruction::Nop,
            Instruction::Nop,
            Instruction::Nop,
            Instruction::Nop,
            Instruction::Nop,
            Instruction::Nop,
            Instruction::Nop,
            Instruction::Nop,
            Instruction::Nop,
            Instruction::Nop,
            Instruction::Nop,
            Instruction::Nop,
            Instruction::Nop,
            Instruction::Nop,
            Instruction::Nop,
            Instruction::Nop,
        ]
    );
}

#[test]
fn test_decrement_loop_nested_add_1() {
    let mut prog = lex("++[->+++[->+<]<]");
    simplify_loops(&mut prog);

    assert_eq!(
        prog,
        [
            Instruction::Increment,
            Instruction::Increment,
            Instruction::JumpIfZero,
            Instruction::Decrement,
            Instruction::MoveRight,
            Instruction::Increment,
            Instruction::Increment,
            Instruction::Increment,
            Instruction::Add(1),
            Instruction::Zero,
            Instruction::Nop,
            Instruction::Nop,
            Instruction::Nop,
            Instruction::Nop,
            Instruction::MoveLeft,
            Instruction::JumpUnlessZero
        ]
    );
}

#[test]
fn test_scan_loop() {
    let mut prog = lex("[>]");
    vectorize_scans(&mut prog);

    assert_eq!(prog, [Instruction::Scan(1), Instruction::Nop, Instruction::Nop]);
}

#[test]
fn test_scan_loop_left() {
    let mut prog = lex("[<]");
    vectorize_scans(&mut prog);

    assert_eq!(prog, [Instruction::Scan(-1), Instruction::Nop, Instruction::Nop]);
}

#[test]
fn test_scan_loop_2() {
    let mut prog = lex("[>>]");
    vectorize_scans(&mut prog);

    assert_eq!(
        prog,
        [Instruction::Scan(2), Instruction::Nop, Instruction::Nop, Instruction::Nop]
    );
}

#[test]
fn test_scan_loop_non_power_2() {
    let mut prog = lex("[>>>]");
    vectorize_scans(&mut prog);

    assert_eq!(
        prog,
        [
            Instruction::Scan(3),
            Instruction::Nop,
            Instruction::Nop,
            Instruction::Nop,
            Instruction::Nop,
        ]
    );
}

#[test]
fn rewrites_preserve_program_length() {
    let srcs = ["", "[-]", "[->+<]", "++[->+++[->+<]<]", "[>]", "+[>>]<[<]."];
    for src in srcs {
        let mut prog = lex(src);
        let before = prog.len();
        simplify_loops(&mut prog);
        assert_eq!(prog.len(), before);
        vectorize_scans(&mut prog);
        assert_eq!(prog.len(), before);
    }
}

#[test]
fn scan_pass_skips_loops_with_arithmetic() {
    let mut prog = lex("[>+]");
    let orig = prog.clone();
    vectorize_scans(&mut prog);

    assert_eq!(prog, orig);
}
