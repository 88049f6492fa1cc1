use brainbug::emit::compile_to_asm;
use brainbug::inst::Instruction;
use brainbug::ir::{compile_to_llvm, IrOp, IrTerm};
use brainbug::jumps::compute_jump_dests;
use brainbug::lexer::lex;

const FUEL: u64 = 1_000_000;

#[test]
fn lex_keeps_opcodes_and_drops_comments() {
    assert_eq!(
        lex("a+ b- [comment] > < , ."),
        lex("+-[]><,."),
    );
    assert_eq!(
        lex("+-"),
        [Instruction::Increment, Instruction::Decrement]
    );
    assert_eq!(lex("no opcodes at all"), []);
}

#[test]
fn jump_table_is_symmetric() {
    let prog = lex("+[>[>+]>>>]");
    let table = compute_jump_dests(&prog).unwrap();

    for (&k, &v) in table.iter() {
        assert_eq!(table[&v], k);
    }
    assert_eq!(table[&1], 10);
    assert_eq!(table[&10], 1);
    assert_eq!(table[&3], 6);
    assert_eq!(table[&6], 3);
}

#[test]
fn jump_table_rejects_unbalanced_brackets() {
    assert!(compute_jump_dests(&lex("[")).is_none());
    assert!(compute_jump_dests(&lex("]")).is_none());
    assert!(compute_jump_dests(&lex("+[>][")).is_none());
    assert!(compute_jump_dests(&lex("")).is_some());
    assert!(compute_jump_dests(&lex("[[]][]")).is_some());
}

#[test]
fn asm_for_empty_program_has_prologue_and_epilogue() {
    let mut prog = lex("");
    let text = compile_to_asm(&mut prog, true, true, false, FUEL);

    assert!(text.find("bf_main:").is_some());
    assert!(text.find(".addrsig").is_some());
}

#[test]
fn asm_lowers_folded_outputs_to_putchar_calls() {
    let mut prog = lex("+.>++.>+++.");
    let text = compile_to_asm(&mut prog, false, false, true, FUEL);

    assert_eq!(
        prog,
        [Instruction::Output(1), Instruction::Output(2), Instruction::Output(3)]
    );
    assert!(text.find("    movl $1, %ecx").is_some());
    assert!(text.find("    movl $2, %ecx").is_some());
    assert!(text.find("    movl $3, %ecx").is_some());
    assert!(text.find("callq putchar").is_some());
    assert!(text.find("callq getchar").is_none());
}

#[test]
fn asm_lowers_counted_loop_to_add_and_zero() {
    let mut prog = lex("[->+<]");
    let text = compile_to_asm(&mut prog, true, true, false, FUEL);

    assert_eq!(
        prog,
        [
            Instruction::Add(1),
            Instruction::Zero,
            Instruction::Nop,
            Instruction::Nop,
            Instruction::Nop,
            Instruction::Nop,
        ]
    );
    assert!(text.find("\taddb %al, 1(%r12)\n").is_some());
    assert!(text.find("    movb $0, (%r12)").is_some());
}

#[test]
fn asm_emits_one_gather_table_per_scan_step() {
    let mut prog = lex("[>][>][<<]");
    let text = compile_to_asm(&mut prog, false, true, false, FUEL);

    assert_eq!(text.matches("_ymm@indices1:").count(), 1);
    assert_eq!(text.matches("_ymm@indicesneg2:").count(), 1);
    assert!(text.find("vpgatherdd").is_some());
    assert!(text.find(".SCAN0").is_some());
    assert!(text.find(".SCAN1").is_some());
    assert!(text.find(".SCAN2").is_some());
}

#[test]
fn asm_pairs_jump_labels() {
    let mut prog = lex(",[-.]");
    let text = compile_to_asm(&mut prog, false, false, false, FUEL);

    assert!(text.find("\tje .UZ0\n").is_some());
    assert!(text.find(".IZ0:\n").is_some());
    assert!(text.find("\tjne .IZ0\n").is_some());
    assert!(text.find(".UZ0:\n").is_some());
}

#[test]
fn asm_restores_head_and_cells_after_partial_eval() {
    let mut prog = lex("+>+++[,]<.");
    let text = compile_to_asm(&mut prog, false, false, true, FUEL);

    assert_eq!(prog[0], Instruction::SetHeadPos(1));
    assert_eq!(prog[1], Instruction::SetCell(0, 1));
    assert_eq!(prog[2], Instruction::SetCell(1, 3));
    assert!(text.find("   movq %r13, %r12\n   addq $1, %r12\n").is_some());
    assert!(text.find("   movb $1, 0(%r13)\n").is_some());
    assert!(text.find("   movb $3, 1(%r13)\n").is_some());
}

#[test]
fn ir_module_for_straight_line_code() {
    let mut prog = lex(",+.");
    let module = compile_to_llvm(&mut prog, true).unwrap();

    assert_eq!(module.blocks.len(), 1);
    assert_eq!(
        module.blocks[0].ops,
        [IrOp::ReadChar, IrOp::Inc, IrOp::WriteChar]
    );
    assert_eq!(module.blocks[0].term, IrTerm::Return);
}

#[test]
fn ir_module_pairs_loop_blocks() {
    let mut prog = lex("+[-]");
    let module = compile_to_llvm(&mut prog, false).unwrap();

    // Entry block, loop body block, and exit block.
    assert_eq!(module.blocks.len(), 3);
    assert_eq!(module.blocks[0].ops, [IrOp::Inc]);
    assert_eq!(
        module.blocks[0].term,
        IrTerm::Branch { on_zero: 2, on_nonzero: 1 }
    );
    assert_eq!(module.blocks[1].ops, [IrOp::Dec]);
    assert_eq!(
        module.blocks[1].term,
        IrTerm::Branch { on_zero: 2, on_nonzero: 1 }
    );
    assert_eq!(module.blocks[2].ops, []);
    assert_eq!(module.blocks[2].term, IrTerm::Return);
}

#[test]
fn ir_module_lowers_counted_loops_when_asked() {
    let mut prog = lex("[->+<]");
    let module = compile_to_llvm(&mut prog, true).unwrap();

    assert_eq!(module.blocks.len(), 1);
    assert_eq!(module.blocks[0].ops, [IrOp::AddOffset(1), IrOp::SetZero]);
}

#[test]
fn ir_module_refuses_scans() {
    let mut prog = vec![Instruction::Scan(1)];
    assert!(compile_to_llvm(&mut prog, false).is_none());
}
