//! The instruction set: eight primitive tokens produced by the lexer, plus
//! the lowered tokens introduced by the partial evaluator and the loop
//! rewriter.

use vstd::prelude::*;

verus! {

/// One instruction of the tape machine.
///
/// The eight primitive tokens come straight from the source text.  The
/// remaining tokens are introduced by later pipeline stages: `Zero` sets the
/// current cell to 0; `Add(d)` and `Sub(d)` add or subtract the current
/// cell's value into the cell at head offset `d`; `Scan(s)` advances the
/// head by `s` cells until the cell under the head is 0; `SetHeadPos(p)`
/// sets the head to tape-origin + `p`; `SetCell(p, v)` writes byte `v` to
/// the cell at tape-origin + `p`; `Output(v)` writes the literal byte `v`;
/// `Nop` does nothing.
#[derive(PartialEq, Eq, Structural, Clone, Copy, Debug)]
pub enum Instruction {
    MoveRight,
    MoveLeft,
    Increment,
    Decrement,
    Write,
    Read,
    JumpIfZero,
    JumpUnlessZero,
    Zero,
    Add(i32),
    Sub(i32),
    Scan(i32),
    SetHeadPos(i32),
    SetCell(i32, u8),
    Output(u8),
    Nop,
}

/// Whether an instruction is one of the eight primitive tokens the lexer
/// can produce.
pub open spec fn is_primitive(i: Instruction) -> bool {
    match i {
        Instruction::MoveRight
        | Instruction::MoveLeft
        | Instruction::Increment
        | Instruction::Decrement
        | Instruction::Write
        | Instruction::Read
        | Instruction::JumpIfZero
        | Instruction::JumpUnlessZero => true,
        _ => false,
    }
}

/// Whether a program consists of primitive tokens only, as every program
/// does when it leaves the lexer.
pub open spec fn primitives_only(p: Seq<Instruction>) -> bool {
    forall|i: int| 0 <= i < p.len() ==> is_primitive(#[trigger] p[i])
}

} // verus!
