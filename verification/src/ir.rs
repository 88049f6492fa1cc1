//! The SSA-IR backend: lowers an instruction list to an abstract module
//! of basic blocks with the same semantics as the assembly backend.
//!
//! One basic block is pre-allocated for every conditional jump, plus an
//! entry block.  Opening and closing jumps are paired with a two-stack
//! discipline: each opening jump takes the two most recently allocated
//! blocks as its loop body and its exit, branches on the cell under the
//! head, and pushes them for its closing partner; the closing jump
//! branches back to the body or on to the exit.  The scan instruction is
//! specific to the assembly backend and is not lowered here.

use vstd::prelude::*;

use crate::inst::Instruction;
use crate::rewrite::{simplify_loops, simplify_loops_spec};

verus! {

/// One abstract operation of the module: reads and writes go through
/// the cell under the head, arithmetic wraps modulo 256, and the head
/// itself is a pointer held in a stack slot.
#[derive(PartialEq, Eq, Structural, Clone, Copy, Debug)]
pub enum IrOp {
    /// Read one input byte into the cell under the head.
    ReadChar,
    /// Write the cell under the head to the output.
    WriteChar,
    /// Increment the cell under the head.
    Inc,
    /// Decrement the cell under the head.
    Dec,
    /// Add the cell under the head into the cell at the given offset.
    AddOffset(i32),
    /// Subtract the cell under the head from the cell at the offset.
    SubOffset(i32),
    /// Set the cell under the head to zero.
    SetZero,
    /// Move the head one cell right.
    MoveRight,
    /// Move the head one cell left.
    MoveLeft,
    /// Set the head to tape-origin plus the given offset.
    SetHead(i32),
    /// Write a constant byte to the cell at tape-origin plus the offset.
    SetCellAt(i32, u8),
    /// Write a literal byte to the output.
    OutputByte(u8),
}

/// How a basic block ends: fall out of the program, or branch on
/// whether the cell under the head is zero.
#[derive(PartialEq, Eq, Structural, Clone, Copy, Debug)]
pub enum IrTerm {
    Return,
    Branch { on_zero: usize, on_nonzero: usize },
}

/// One basic block: its operations in order, then its terminator.
pub struct IrBlock {
    pub ops: Vec<IrOp>,
    pub term: IrTerm,
}

/// An abstract module: basic blocks indexed from 0, block 0 being the
/// entry.
pub struct IrModule {
    pub blocks: Vec<IrBlock>,
}

/// The abstract contents of a module's blocks.
pub open spec fn ir_blocks_view(m: IrModule) -> Seq<(Seq<IrOp>, IrTerm)> {
    m.blocks@.map_values(|b: IrBlock| (b.ops@, b.term))
}

/// How many conditional jumps the positions from `i` on hold.
pub open spec fn count_jumps(p: Seq<Instruction>, i: int) -> int
    decreases p.len() - i,
{
    if i < 0 || i >= p.len() {
        0
    } else {
        (if p[i] == Instruction::JumpIfZero || p[i] == Instruction::JumpUnlessZero {
            1int
        } else {
            0int
        }) + count_jumps(p, i + 1)
    }
}

/// The builder's state: the finished blocks' operations and
/// terminators, the block being filled, the pool of not-yet-used
/// pre-allocated blocks, the two pairing stacks, and whether every
/// instruction so far could be lowered.
#[verifier::ext_equal]
pub struct IrBuild {
    pub stored: Seq<Seq<IrOp>>,
    pub terms: Seq<IrTerm>,
    pub curr: int,
    pub curr_ops: Seq<IrOp>,
    pub avail: int,
    pub back_stack: Seq<int>,
    pub next_stack: Seq<int>,
    pub ok: bool,
}

/// The builder's state before any instruction, for a program with `nj`
/// conditional jumps.
pub open spec fn ir_init(nj: int) -> IrBuild {
    IrBuild {
        stored: Seq::new((nj + 1) as nat, |i: int| Seq::empty()),
        terms: Seq::new((nj + 1) as nat, |i: int| IrTerm::Return),
        curr: 0,
        curr_ops: Seq::empty(),
        avail: nj,
        back_stack: Seq::empty(),
        next_stack: Seq::empty(),
        ok: true,
    }
}

/// The builder's state after one instruction.  A jump with no blocks
/// left in the pool, or with no open partner, pairs with block 0;
/// callers reject unbalanced programs when the jump table is built.
pub open spec fn ir_step(st: IrBuild, inst: Instruction) -> IrBuild {
    if !st.ok {
        st
    } else {
        match inst {
            Instruction::Read => IrBuild { curr_ops: st.curr_ops.push(IrOp::ReadChar), ..st },
            Instruction::Write => IrBuild { curr_ops: st.curr_ops.push(IrOp::WriteChar), ..st },
            Instruction::Increment => IrBuild { curr_ops: st.curr_ops.push(IrOp::Inc), ..st },
            Instruction::Decrement => IrBuild { curr_ops: st.curr_ops.push(IrOp::Dec), ..st },
            Instruction::Add(x) => IrBuild {
                curr_ops: st.curr_ops.push(IrOp::AddOffset(x)),
                ..st
            },
            Instruction::Sub(x) => IrBuild {
                curr_ops: st.curr_ops.push(IrOp::SubOffset(x)),
                ..st
            },
            Instruction::Zero => IrBuild { curr_ops: st.curr_ops.push(IrOp::SetZero), ..st },
            Instruction::MoveRight => IrBuild {
                curr_ops: st.curr_ops.push(IrOp::MoveRight),
                ..st
            },
            Instruction::MoveLeft => IrBuild { curr_ops: st.curr_ops.push(IrOp::MoveLeft), ..st },
            Instruction::SetHeadPos(x) => IrBuild {
                curr_ops: st.curr_ops.push(IrOp::SetHead(x)),
                ..st
            },
            Instruction::SetCell(x, v) => IrBuild {
                curr_ops: st.curr_ops.push(IrOp::SetCellAt(x, v)),
                ..st
            },
            Instruction::Output(v) => IrBuild {
                curr_ops: st.curr_ops.push(IrOp::OutputByte(v)),
                ..st
            },
            Instruction::Nop => st,
            Instruction::JumpIfZero => {
                let (if_zero, not_zero, avail2) = if st.avail >= 2 {
                    (st.avail, st.avail - 1, st.avail - 2)
                } else {
                    (0int, 0int, 0int)
                };
                IrBuild {
                    stored: st.stored.update(st.curr, st.curr_ops),
                    terms: st.terms.update(
                        st.curr,
                        IrTerm::Branch {
                            on_zero: if_zero as usize,
                            on_nonzero: not_zero as usize,
                        },
                    ),
                    curr: not_zero,
                    curr_ops: Seq::empty(),
                    avail: avail2,
                    back_stack: st.back_stack.push(not_zero),
                    next_stack: st.next_stack.push(if_zero),
                    ..st
                }
            },
            Instruction::JumpUnlessZero => {
                let (back, back_stack2) = if st.back_stack.len() > 0 {
                    (st.back_stack.last(), st.back_stack.drop_last())
                } else {
                    (0int, st.back_stack)
                };
                let (next, next_stack2) = if st.next_stack.len() > 0 {
                    (st.next_stack.last(), st.next_stack.drop_last())
                } else {
                    (0int, st.next_stack)
                };
                IrBuild {
                    stored: st.stored.update(st.curr, st.curr_ops),
                    terms: st.terms.update(
                        st.curr,
                        IrTerm::Branch { on_zero: next as usize, on_nonzero: back as usize },
                    ),
                    curr: next,
                    curr_ops: Seq::empty(),
                    back_stack: back_stack2,
                    next_stack: next_stack2,
                    ..st
                }
            },
            Instruction::Scan(_) => IrBuild { ok: false, ..st },
        }
    }
}

/// The builder's state after the instructions from position `i` on.
pub open spec fn ir_process(p: Seq<Instruction>, i: int, st: IrBuild) -> IrBuild
    decreases p.len() - i,
{
    if i < 0 || i >= p.len() {
        st
    } else {
        ir_process(p, i + 1, ir_step(st, p[i]))
    }
}

/// The module a program builds: run the builder over the program, store
/// the block being filled, and collect every block.
pub open spec fn ir_module_spec(p: Seq<Instruction>) -> Seq<(Seq<IrOp>, IrTerm)> {
    let nj = count_jumps(p, 0);
    let st = ir_process(p, 0, ir_init(nj));
    let stored = st.stored.update(st.curr, st.curr_ops);
    Seq::new(stored.len(), |i: int| (stored[i], st.terms[i]))
}

/// Whether a program builds at all: it does unless it holds a `Scan`.
pub open spec fn ir_builds(p: Seq<Instruction>) -> bool {
    ir_process(p, 0, ir_init(count_jumps(p, 0))).ok
}

/// A failed builder state stays failed.
proof fn lemma_ir_process_not_ok(p: Seq<Instruction>, i: int, st: IrBuild)
    requires
        !st.ok,
    ensures
        ir_process(p, i, st) == st,
    decreases p.len() - i,
{
    if 0 <= i < p.len() {
        lemma_ir_process_not_ok(p, i + 1, st);
    }
}

/// Lowers a program to an abstract SSA-style module, first running the
/// counted-loop pass when asked.  Yields nothing if the (rewritten)
/// program holds an instruction this backend does not lower (`Scan`).
pub fn compile_to_llvm(input: &mut Vec<Instruction>, do_simplify_loops: bool) -> (r: Option<
    IrModule,
>)
    requires
        old(input)@.len() <= 0x7fff_ffff,
    ensures
        final(input)@ == (if do_simplify_loops {
            simplify_loops_spec(old(input)@)
        } else {
            old(input)@
        }),
        match r {
            Some(m) => ir_builds(final(input)@) && ir_blocks_view(m) == ir_module_spec(
                final(input)@,
            ),
            None => !ir_builds(final(input)@),
        },
{
    if do_simplify_loops {
        simplify_loops(input);
    }

    let ghost p = input@;
    let n = input.len();
    assert(n <= 0x7fff_ffff);

    // One basic block for every possible branch instruction, plus the
    // entry block.
    let mut njumps: usize = 0;
    let mut i: usize = 0;
    while i < n
        invariant
            i <= n,
            n == p.len(),
            p == input@,
            njumps <= i,
            n <= 0x7fff_ffff,
            njumps as int + count_jumps(p, i as int) == count_jumps(p, 0),
        decreases n - i,
    {
        match input[i] {
            Instruction::JumpIfZero | Instruction::JumpUnlessZero => {
                njumps = njumps + 1;
            },
            _ => (),
        }
        i = i + 1;
    }

    let mut stored_ops: Vec<Vec<IrOp>> = Vec::new();
    let mut terms: Vec<IrTerm> = Vec::new();
    let mut b: usize = 0;
    while b < njumps + 1
        invariant
            b <= njumps + 1,
            njumps <= 0x7fff_ffff,
            stored_ops@.len() == b,
            terms@.len() == b,
            forall|k: int| 0 <= k < b ==> (#[trigger] stored_ops@[k])@ =~= Seq::<IrOp>::empty(),
            forall|k: int| 0 <= k < b ==> #[trigger] terms@[k] == IrTerm::Return,
        decreases njumps + 1 - b,
    {
        stored_ops.push(Vec::new());
        terms.push(IrTerm::Return);
        b = b + 1;
    }

    let mut curr: usize = 0;
    let mut curr_ops: Vec<IrOp> = Vec::new();
    let mut avail: usize = njumps;
    let mut back_stack: Vec<usize> = Vec::new();
    let mut next_stack: Vec<usize> = Vec::new();

    let ghost nj = njumps as int;
    proof {
        assert(stored_ops@.map_values(|v: Vec<IrOp>| v@) =~= ir_init(nj).stored);
        assert(terms@ =~= ir_init(nj).terms);
        assert(back_stack@.map_values(|x: usize| x as int) =~= Seq::<int>::empty());
        assert(next_stack@.map_values(|x: usize| x as int) =~= Seq::<int>::empty());
    }

    let mut i: usize = 0;
    while i < n
        invariant
            i <= n,
            n == p.len(),
            p == input@,
            p == (if do_simplify_loops {
                simplify_loops_spec(old(input)@)
            } else {
                old(input)@
            }),
            nj == count_jumps(p, 0),
            curr < stored_ops@.len(),
            forall|m: int|
                0 <= m < back_stack@.len() ==> (#[trigger] back_stack@[m]) < stored_ops@.len(),
            forall|m: int|
                0 <= m < next_stack@.len() ==> (#[trigger] next_stack@[m]) < stored_ops@.len(),
            stored_ops@.len() == nj + 1,
            terms@.len() == nj + 1,
            avail <= nj,
            ir_process(p, 0, ir_init(nj)) == ir_process(
                p,
                i as int,
                IrBuild {
                    stored: stored_ops@.map_values(|v: Vec<IrOp>| v@),
                    terms: terms@,
                    curr: curr as int,
                    curr_ops: curr_ops@,
                    avail: avail as int,
                    back_stack: back_stack@.map_values(|x: usize| x as int),
                    next_stack: next_stack@.map_values(|x: usize| x as int),
                    ok: true,
                },
            ),
        decreases n - i,
    {
        let ghost st = IrBuild {
            stored: stored_ops@.map_values(|v: Vec<IrOp>| v@),
            terms: terms@,
            curr: curr as int,
            curr_ops: curr_ops@,
            avail: avail as int,
            back_stack: back_stack@.map_values(|x: usize| x as int),
            next_stack: next_stack@.map_values(|x: usize| x as int),
            ok: true,
        };

        match input[i] {
            Instruction::Read => curr_ops.push(IrOp::ReadChar),
            Instruction::Write => curr_ops.push(IrOp::WriteChar),
            Instruction::Increment => curr_ops.push(IrOp::Inc),
            Instruction::Decrement => curr_ops.push(IrOp::Dec),
            Instruction::Add(x) => curr_ops.push(IrOp::AddOffset(x)),
            Instruction::Sub(x) => curr_ops.push(IrOp::SubOffset(x)),
            Instruction::Zero => curr_ops.push(IrOp::SetZero),
            Instruction::MoveRight => curr_ops.push(IrOp::MoveRight),
            Instruction::MoveLeft => curr_ops.push(IrOp::MoveLeft),
            Instruction::SetHeadPos(x) => curr_ops.push(IrOp::SetHead(x)),
            Instruction::SetCell(x, v) => curr_ops.push(IrOp::SetCellAt(x, v)),
            Instruction::Output(v) => curr_ops.push(IrOp::OutputByte(v)),
            Instruction::Nop => (),
            Instruction::JumpIfZero => {
                let (if_zero, not_zero) = if avail >= 2 {
                    let pair = (avail, avail - 1);
                    avail = avail - 2;
                    pair
                } else {
                    avail = 0;
                    (0, 0)
                };
                stored_ops[curr] = curr_ops;
                curr_ops = Vec::new();
                terms[curr] = IrTerm::Branch { on_zero: if_zero, on_nonzero: not_zero };
                back_stack.push(not_zero);
                next_stack.push(if_zero);
                curr = not_zero;
                proof {
                    assert(stored_ops@.map_values(|v: Vec<IrOp>| v@) =~= st.stored.update(
                        st.curr,
                        st.curr_ops,
                    ));
                    assert(back_stack@.map_values(|x: usize| x as int) =~= st.back_stack.push(
                        not_zero as int,
                    ));
                    assert(next_stack@.map_values(|x: usize| x as int) =~= st.next_stack.push(
                        if_zero as int,
                    ));
                }
            },
            Instruction::JumpUnlessZero => {
                let back: usize = match back_stack.pop() {
                    Some(x) => x,
                    None => 0,
                };
                let next: usize = match next_stack.pop() {
                    Some(x) => x,
                    None => 0,
                };
                stored_ops[curr] = curr_ops;
                curr_ops = Vec::new();
                terms[curr] = IrTerm::Branch { on_zero: next, on_nonzero: back };
                curr = next;
                proof {
                    assert(stored_ops@.map_values(|v: Vec<IrOp>| v@) =~= st.stored.update(
                        st.curr,
                        st.curr_ops,
                    ));
                    if st.back_stack.len() > 0 {
                        assert(back_stack@.map_values(|x: usize| x as int)
                            =~= st.back_stack.drop_last());
                    } else {
                        assert(back_stack@.map_values(|x: usize| x as int) =~= st.back_stack);
                    }
                    if st.next_stack.len() > 0 {
                        assert(next_stack@.map_values(|x: usize| x as int)
                            =~= st.next_stack.drop_last());
                    } else {
                        assert(next_stack@.map_values(|x: usize| x as int) =~= st.next_stack);
                    }
                }
            },
            Instruction::Scan(_) => {
                proof {
                    assert(ir_step(st, p[i as int]).ok == false);
                    lemma_ir_process_not_ok(p, i + 1, ir_step(st, p[i as int]));
                }
                return None;
            },
        }

        proof {
            let st2 = IrBuild {
                stored: stored_ops@.map_values(|v: Vec<IrOp>| v@),
                terms: terms@,
                curr: curr as int,
                curr_ops: curr_ops@,
                avail: avail as int,
                back_stack: back_stack@.map_values(|x: usize| x as int),
                next_stack: next_stack@.map_values(|x: usize| x as int),
                ok: true,
            };
            assert(st2 =~= ir_step(st, p[i as int]));
        }
        i = i + 1;
    }

    stored_ops[curr] = curr_ops;

    let ghost stfin = ir_process(p, 0, ir_init(nj));
    proof {
        assert(stored_ops@.map_values(|v: Vec<IrOp>| v@) =~= stfin.stored.update(
            stfin.curr,
            stfin.curr_ops,
        ));
    }

    // Collect the finished blocks into the module.
    let ghost want = ir_module_spec(p);
    let mut blocks: Vec<IrBlock> = Vec::new();
    let total = stored_ops.len();
    let mut k: usize = 0;
    while k < total
        invariant
            k <= total,
            total == nj + 1,
            stored_ops@.len() == total - k,
            terms@.len() == total,
            want.len() == total,
            blocks@.len() == k,
            forall|m: int|
                0 <= m < stored_ops@.len() ==> (#[trigger] stored_ops@[m])@ == want[m + k].0,
            forall|m: int| 0 <= m < total ==> #[trigger] terms@[m] == want[m].1,
            ir_blocks_view(IrModule { blocks: blocks }) =~= want.take(k as int),
        decreases total - k,
    {
        proof {
            assert((stored_ops@[0])@ == want[k as int].0);
        }
        let ghost prev = stored_ops@;
        let ghost prev_blocks = blocks@;
        let ops = stored_ops.remove(0);
        let t = terms[k];
        blocks.push(IrBlock { ops: ops, term: t });
        proof {
            assert(blocks@.last().ops@ == want[k as int].0);
            assert(blocks@.last().term == want[k as int].1);
            assert forall|m: int| 0 <= m < blocks@.len() implies (#[trigger] ir_blocks_view(
                IrModule { blocks: blocks },
            )[m]) == want.take(k + 1)[m] by {
                if m < k {
                    assert(blocks@[m] == prev_blocks[m]);
                    assert(ir_blocks_view(IrModule { blocks: blocks })[m] == (
                        prev_blocks[m].ops@,
                        prev_blocks[m].term,
                    ));
                    assert(want.take(k as int)[m] == want[m]);
                } else {
                    assert(blocks@[m] == blocks@.last());
                }
            }
            assert(ir_blocks_view(IrModule { blocks: blocks }) =~= want.take(k + 1));
            assert forall|m: int| 0 <= m < stored_ops@.len() implies (#[trigger] stored_ops@[m])@
                == want[m + k + 1].0 by {
                assert(stored_ops@[m] == prev[m + 1]);
                assert((prev[m + 1])@ == want[(m + 1) + k].0);
            }
        }
        k = k + 1;
    }
    proof {
        assert(want.take(total as int) =~= want);
    }

    Some(IrModule { blocks })
}

} // verus!
