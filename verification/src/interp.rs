//! The profiling interpreter and the partial evaluator.
//!
//! An interpreter state owns the program, its jump table, a growable tape
//! of cells, the head position, and a per-position execution counter.
//! Cells are either a known byte or `Unknown`; the concrete interpreter
//! only ever sees known bytes, while the partial evaluator marks cells
//! `Unknown` when their value comes to depend on input.
//!
//! The tape grows to the right when the head moves past its end, and to
//! the left by prepending a cell, in which case `tape_offset` records how
//! far the tape origin has shifted so that emitted instructions can refer
//! to logical (origin-relative) positions.

use vstd::prelude::*;

use crate::inst::{is_primitive, primitives_only, Instruction};
use crate::jumps::{balanced, compute_jump_dests, is_match_pair, jump_table_for};
use crate::machine::{
    lemma_msteps_snoc, mstep, msteps,
    bump, mach_init, read_advance, read_byte, wrap_dec, wrap_inc, Mach,
};
use std::collections::HashMap;

verus! {

broadcast use vstd::std_specs::hash::group_hash_axioms;

/// One tape cell: a known byte, or a value that depends on input.
#[derive(PartialEq, Eq, Structural, Clone, Copy, Debug)]
pub enum Cell {
    Unknown,
    Val(u8),
}

/// The byte a known cell holds; unknown cells are read as 0 only by spec
/// functions that are never applied to them.
pub open spec fn cell_val(c: Cell) -> u8 {
    match c {
        Cell::Val(b) => b,
        Cell::Unknown => 0,
    }
}

/// Every cell of the tape holds a known byte.
pub open spec fn all_concrete(t: Seq<Cell>) -> bool {
    forall|i: int| 0 <= i < t.len() ==> (#[trigger] t[i]) is Val
}

/// The execution state the partial evaluator snapshots when it enters an
/// outermost loop, so that it can restore it if the loop must be aborted.
pub struct LoopEnterState {
    pub tape: Vec<Cell>,
    pub head_pos: usize,
    pub outputted_head_pos: usize,
    pub tape_offset: usize,
    pub program_counter: usize,
    pub emitted_insts: Vec<Instruction>,
}

/// An interpreter state: one input program, one run.
pub struct State {
    /// The tape; it always has at least one cell and contains the head.
    pub tape: Vec<Cell>,
    /// The head position, as an index into `tape`.
    pub head_pos: usize,
    /// The head position last materialized into the emitted instruction
    /// buffer by the partial evaluator.
    pub outputted_head_pos: usize,
    /// How many cells have been prepended to the tape; index
    /// `tape_offset` is the logical origin.
    pub tape_offset: usize,
    /// The program counter.
    pub program_counter: usize,
    /// The program being run.
    pub program: Vec<Instruction>,
    /// How many times each program position has been dispatched,
    /// saturating at `usize::MAX`.
    pub execution_counter: Vec<usize>,
    /// The live snapshot of the outermost loop entry, if any.
    pub loop_enter_state: Option<LoopEnterState>,
    /// The current loop nesting level of the partial evaluator.
    pub loop_level: i32,
    /// The jump table of `program`.
    pub jump_dests: HashMap<usize, usize>,
}

impl State {
    /// Basic well-formedness: the counter matches the program, the head
    /// and the origin lie on the tape, and the jump table is the bracket
    /// matching of the program.
    pub open spec fn wf(self) -> bool {
        &&& self.execution_counter@.len() == self.program@.len()
        &&& 1 <= self.tape@.len()
        &&& self.head_pos < self.tape@.len()
        &&& self.tape_offset < self.tape@.len()
        &&& jump_table_for(self.program@, self.jump_dests@)
    }

    /// The logical (origin-relative) head position.
    pub open spec fn logical_head(self) -> int {
        self.head_pos - self.tape_offset
    }

    /// The cell at a logical position; positions outside the allocated
    /// tape hold 0.
    pub open spec fn cell_at(self, i: int) -> Cell {
        if 0 <= i + self.tape_offset < self.tape@.len() {
            self.tape@[i + self.tape_offset]
        } else {
            Cell::Val(0)
        }
    }

    /// The idealized machine state this interpreter state denotes, given
    /// how much input has been consumed and what has been written.
    pub open spec fn abs_mach(self, in_pos: int, out: Seq<u8>) -> Mach {
        Mach {
            tape: Map::total(|i: int| cell_val(self.cell_at(i))),
            head: self.logical_head(),
            pc: self.program_counter as int,
            in_pos: in_pos,
            out: out,
            counts: self.execution_counter@,
        }
    }

    /// The fields no tape or jump operation touches.
    pub open spec fn frame(self, other: State) -> bool {
        &&& other.program == self.program
        &&& other.execution_counter == self.execution_counter
        &&& other.jump_dests == self.jump_dests
        &&& other.loop_enter_state == self.loop_enter_state
        &&& other.loop_level == self.loop_level
    }

    /// Builds a fresh state for a program: a one-cell zeroed tape, the
    /// head at the origin, and the program's jump table.
    pub fn new(program: Vec<Instruction>) -> (s: State)
        requires
            balanced(program@),
        ensures
            s.wf(),
            s.program == program,
            s.tape@ =~= seq![Cell::Val(0)],
            s.head_pos == 0,
            s.outputted_head_pos == 0,
            s.tape_offset == 0,
            s.program_counter == 0,
            s.execution_counter@ =~= Seq::new(program@.len(), |i: int| 0usize),
            s.loop_enter_state is None,
            s.loop_level == 0,
            s.abs_mach(0, Seq::empty()) == mach_init(program@.len()),
    {
        let mut t: Vec<Cell> = Vec::new();
        t.push(Cell::Val(0));

        let mut execution_counter: Vec<usize> = Vec::new();
        let n = program.len();
        let mut i: usize = 0;
        while i < n
            invariant
                i <= n,
                execution_counter@ =~= Seq::new(i as nat, |k: int| 0usize),
            decreases n - i,
        {
            execution_counter.push(0);
            i = i + 1;
        }

        let jump_dests = match compute_jump_dests(&program) {
            Some(t) => t,
            None => vstd::pervasive::unreached(),
        };

        let s = State {
            tape: t,
            head_pos: 0,
            outputted_head_pos: 0,
            tape_offset: 0,
            program_counter: 0,
            program,
            execution_counter,
            loop_enter_state: None,
            loop_level: 0,
            jump_dests,
        };
        proof {
            assert(s.abs_mach(0, Seq::empty()).tape =~= mach_init(s.program@.len()).tape);
            assert(s.abs_mach(0, Seq::empty()).counts =~= mach_init(s.program@.len()).counts);
            assert(s.abs_mach(0, Seq::empty()).out =~= mach_init(s.program@.len()).out);
        }
        s
    }

    /// Moves the head one cell right, growing the tape if it runs off
    /// the end, and advances past the instruction.
    pub fn move_right(&mut self)
        requires
            old(self).head_pos < old(self).tape@.len(),
            old(self).program_counter < old(self).program@.len(),
        ensures
            old(self).frame(*final(self)),
            final(self).head_pos == old(self).head_pos + 1,
            final(self).head_pos < final(self).tape@.len(),
            final(self).tape@ == (if old(self).head_pos + 1 < old(self).tape@.len() {
                old(self).tape@
            } else {
                old(self).tape@.push(Cell::Val(0))
            }),
            final(self).tape_offset == old(self).tape_offset,
            final(self).outputted_head_pos == old(self).outputted_head_pos,
            final(self).program_counter == old(self).program_counter + 1,
    {
        let len = self.tape.len();
        self.head_pos = self.head_pos + 1;

        if self.head_pos >= len {
            self.tape.push(Cell::Val(0));
        }

        let plen = self.program.len();
        assert(self.program_counter < plen);
        self.program_counter = self.program_counter + 1;
    }

    /// Moves the head one cell left; at the left edge the tape grows by a
    /// prepended cell and the origin shift is recorded instead.
    pub fn move_left(&mut self)
        requires
            old(self).head_pos < old(self).tape@.len(),
            old(self).tape_offset < old(self).tape@.len(),
            old(self).program_counter < old(self).program@.len(),
        ensures
            old(self).frame(*final(self)),
            final(self).outputted_head_pos == old(self).outputted_head_pos,
            final(self).program_counter == old(self).program_counter + 1,
            ({
                if old(self).head_pos == 0 {
                    &&& final(self).tape@ == seq![Cell::Val(0)] + old(self).tape@
                    &&& final(self).head_pos == 0
                    &&& final(self).tape_offset == old(self).tape_offset + 1
                } else {
                    &&& final(self).tape@ == old(self).tape@
                    &&& final(self).head_pos == old(self).head_pos - 1
                    &&& final(self).tape_offset == old(self).tape_offset
                }
            }),
            final(self).head_pos < final(self).tape@.len(),
            final(self).tape_offset < final(self).tape@.len(),
    {
        if self.head_pos == 0 {
            let tlen = self.tape.len();
            assert(self.tape_offset < tlen);
            self.tape.insert(0, Cell::Val(0));
            self.tape_offset = self.tape_offset + 1;
            proof {
                assert(self.tape@ =~= seq![Cell::Val(0)] + old(self).tape@);
            }
        } else {
            self.head_pos = self.head_pos - 1;
        }

        let plen = self.program.len();
        assert(self.program_counter < plen);
        self.program_counter = self.program_counter + 1;
    }

    /// Increments the cell under the head modulo 256 and advances.
    pub fn increment(&mut self)
        requires
            old(self).head_pos < old(self).tape@.len(),
            old(self).tape@[old(self).head_pos as int] is Val,
            old(self).program_counter < old(self).program@.len(),
        ensures
            old(self).frame(*final(self)),
            final(self).tape@ == old(self).tape@.update(
                old(self).head_pos as int,
                Cell::Val(wrap_inc(cell_val(old(self).tape@[old(self).head_pos as int]))),
            ),
            final(self).head_pos == old(self).head_pos,
            final(self).tape_offset == old(self).tape_offset,
            final(self).outputted_head_pos == old(self).outputted_head_pos,
            final(self).program_counter == old(self).program_counter + 1,
    {
        match self.tape[self.head_pos] {
            Cell::Unknown => vstd::pervasive::unreached(),
            Cell::Val(x) => {
                let v = if x == 255 {
                    0
                } else {
                    x + 1
                };
                self.tape[self.head_pos] = Cell::Val(v);
            },
        }

        let plen = self.program.len();
        assert(self.program_counter < plen);
        self.program_counter = self.program_counter + 1;
    }

    /// Decrements the cell under the head modulo 256 and advances.
    pub fn decrement(&mut self)
        requires
            old(self).head_pos < old(self).tape@.len(),
            old(self).tape@[old(self).head_pos as int] is Val,
            old(self).program_counter < old(self).program@.len(),
        ensures
            old(self).frame(*final(self)),
            final(self).tape@ == old(self).tape@.update(
                old(self).head_pos as int,
                Cell::Val(wrap_dec(cell_val(old(self).tape@[old(self).head_pos as int]))),
            ),
            final(self).head_pos == old(self).head_pos,
            final(self).tape_offset == old(self).tape_offset,
            final(self).outputted_head_pos == old(self).outputted_head_pos,
            final(self).program_counter == old(self).program_counter + 1,
    {
        match self.tape[self.head_pos] {
            Cell::Unknown => vstd::pervasive::unreached(),
            Cell::Val(x) => {
                let v = if x == 0 {
                    255
                } else {
                    x - 1
                };
                self.tape[self.head_pos] = Cell::Val(v);
            },
        }

        let plen = self.program.len();
        assert(self.program_counter < plen);
        self.program_counter = self.program_counter + 1;
    }

    /// Writes the byte under the head to the output buffer and advances.
    pub fn write(&mut self, output: &mut Vec<u8>)
        requires
            old(self).head_pos < old(self).tape@.len(),
            old(self).tape@[old(self).head_pos as int] is Val,
            old(self).program_counter < old(self).program@.len(),
        ensures
            old(self).frame(*final(self)),
            final(self).tape@ == old(self).tape@,
            final(self).head_pos == old(self).head_pos,
            final(self).tape_offset == old(self).tape_offset,
            final(self).outputted_head_pos == old(self).outputted_head_pos,
            final(self).program_counter == old(self).program_counter + 1,
            final(output)@ == old(output)@.push(
                cell_val(old(self).tape@[old(self).head_pos as int]),
            ),
    {
        match self.tape[self.head_pos] {
            Cell::Unknown => vstd::pervasive::unreached(),
            Cell::Val(x) => {
                output.push(x);
            },
        }

        let plen = self.program.len();
        assert(self.program_counter < plen);
        self.program_counter = self.program_counter + 1;
    }

    /// Reads one byte from the input buffer into the cell under the head
    /// and advances.  Once the input is exhausted every read yields byte
    /// 255.
    pub fn read(&mut self, input: &Vec<u8>, input_pos: &mut usize)
        requires
            old(self).head_pos < old(self).tape@.len(),
            old(self).program_counter < old(self).program@.len(),
            *old(input_pos) <= input@.len(),
        ensures
            old(self).frame(*final(self)),
            final(self).tape@ == old(self).tape@.update(
                old(self).head_pos as int,
                Cell::Val(read_byte(input@, *old(input_pos) as int)),
            ),
            final(self).head_pos == old(self).head_pos,
            final(self).tape_offset == old(self).tape_offset,
            final(self).outputted_head_pos == old(self).outputted_head_pos,
            final(self).program_counter == old(self).program_counter + 1,
            *final(input_pos) == read_advance(input@, *old(input_pos) as int),
            *final(input_pos) <= input@.len(),
    {
        let b: u8;
        if *input_pos < input.len() {
            b = input[*input_pos];
            *input_pos = *input_pos + 1;
        } else {
            b = 255;
        }

        self.tape[self.head_pos] = Cell::Val(b);

        let plen = self.program.len();
        assert(self.program_counter < plen);
        self.program_counter = self.program_counter + 1;
    }

    /// Dispatches an opening jump: if the cell under the head is zero the
    /// program counter moves to the matching closing jump, otherwise it
    /// advances into the loop body.
    pub fn jump_if_zero(&mut self)
        requires
            old(self).wf(),
            old(self).program_counter < old(self).program@.len(),
            old(self).program@[old(self).program_counter as int] == Instruction::JumpIfZero,
            old(self).tape@[old(self).head_pos as int] is Val,
            old(self).head_pos < old(self).tape@.len(),
        ensures
            old(self).frame(*final(self)),
            final(self).tape@ == old(self).tape@,
            final(self).head_pos == old(self).head_pos,
            final(self).tape_offset == old(self).tape_offset,
            final(self).outputted_head_pos == old(self).outputted_head_pos,
            ({
                if cell_val(old(self).tape@[old(self).head_pos as int]) == 0 {
                    is_match_pair(
                        old(self).program@,
                        old(self).program_counter as int,
                        final(self).program_counter as int,
                    )
                } else {
                    final(self).program_counter == old(self).program_counter + 1
                }
            }),
    {
        let curr_value = match self.tape[self.head_pos] {
            Cell::Unknown => vstd::pervasive::unreached(),
            Cell::Val(x) => x,
        };

        if curr_value == 0 {
            let dest = match self.jump_dests.get(&self.program_counter) {
                Some(d) => *d,
                None => vstd::pervasive::unreached(),
            };
            self.program_counter = dest;
        } else {
            let plen = self.program.len();
            assert(self.program_counter < plen);
            self.program_counter = self.program_counter + 1;
        }
    }

    /// Dispatches a closing jump: if the cell under the head is nonzero
    /// the program counter moves back to the matching opening jump,
    /// otherwise it advances out of the loop.
    pub fn jump_unless_zero(&mut self)
        requires
            old(self).wf(),
            old(self).program_counter < old(self).program@.len(),
            old(self).program@[old(self).program_counter as int] == Instruction::JumpUnlessZero,
            old(self).tape@[old(self).head_pos as int] is Val,
            old(self).head_pos < old(self).tape@.len(),
        ensures
            old(self).frame(*final(self)),
            final(self).tape@ == old(self).tape@,
            final(self).head_pos == old(self).head_pos,
            final(self).tape_offset == old(self).tape_offset,
            final(self).outputted_head_pos == old(self).outputted_head_pos,
            ({
                if cell_val(old(self).tape@[old(self).head_pos as int]) != 0 {
                    is_match_pair(
                        old(self).program@,
                        final(self).program_counter as int,
                        old(self).program_counter as int,
                    )
                } else {
                    final(self).program_counter == old(self).program_counter + 1
                }
            }),
    {
        let curr_value = match self.tape[self.head_pos] {
            Cell::Unknown => vstd::pervasive::unreached(),
            Cell::Val(x) => x,
        };

        if curr_value != 0 {
            let dest = match self.jump_dests.get(&self.program_counter) {
                Some(d) => *d,
                None => vstd::pervasive::unreached(),
            };
            self.program_counter = dest;
        } else {
            let plen = self.program.len();
            assert(self.program_counter < plen);
            self.program_counter = self.program_counter + 1;
        }
    }

    /// Runs the program against an input buffer for at most `fuel`
    /// dispatch steps, collecting everything it writes.
    ///
    /// The resulting state and output are exactly those of the reference
    /// machine run from the starting state for some number of steps `n`
    /// within the budget; whenever `n < fuel`, the program ran to
    /// completion (the program counter left the program).  Reading past
    /// the end of the input yields byte 255; cell arithmetic wraps
    /// modulo 256.
    pub fn interp(&mut self, input: &Vec<u8>, fuel: u64) -> (out: Vec<u8>)
        requires
            old(self).wf(),
            all_concrete(old(self).tape@),
            primitives_only(old(self).program@),
        ensures
            final(self).wf(),
            all_concrete(final(self).tape@),
            final(self).program == old(self).program,
            final(self).jump_dests == old(self).jump_dests,
            final(self).loop_enter_state == old(self).loop_enter_state,
            final(self).loop_level == old(self).loop_level,
            exists|n: nat|
                {
                    let m = #[trigger] msteps(
                        old(self).program@,
                        input@,
                        old(self).abs_mach(0, Seq::empty()),
                        n,
                    );
                    &&& n <= fuel
                    &&& (n < fuel ==> m.pc >= old(self).program@.len())
                    &&& m == final(self).abs_mach(m.in_pos, out@)
                },
    {
        let mut out: Vec<u8> = Vec::new();
        let mut input_pos: usize = 0;
        let mut used: u64 = 0;
        let ghost p0 = self.program@;
        let ghost init = old(self).abs_mach(0, Seq::empty());
        let ghost mut steps: nat = 0;

        loop
            invariant
                self.wf(),
                all_concrete(self.tape@),
                primitives_only(p0),
                self.program == old(self).program,
                self.jump_dests == old(self).jump_dests,
                self.loop_enter_state == old(self).loop_enter_state,
                self.loop_level == old(self).loop_level,
                p0 == self.program@,
                init == old(self).abs_mach(0, Seq::empty()),
                input_pos <= input@.len(),
                steps == used as nat,
                used <= fuel,
                msteps(p0, input@, init, steps) == self.abs_mach(input_pos as int, out@),
            ensures
                self.program_counter >= p0.len() || steps == fuel as nat,
            decreases fuel - used,
        {
            if self.program_counter >= self.program.len() {
                break;
            }
            if used == fuel {
                break;
            }

            let ghost m_before = self.abs_mach(input_pos as int, out@);
            let ghost m_next = mstep(p0, input@, m_before);
            proof {
                lemma_msteps_snoc(p0, input@, init, steps);
            }

            let pc = self.program_counter;
            let c = self.execution_counter[pc];
            if c < usize::MAX {
                self.execution_counter[pc] = c + 1;
            }
            proof {
                assert(self.execution_counter@ =~= bump(m_before.counts, m_before.pc));
            }
            let ghost pre = *self;

            match self.program[pc] {
                Instruction::MoveRight => {
                    self.move_right();
                    proof {
                        assert forall|i: int| cell_val(self.cell_at(i)) == m_next.tape[i] by {
                            assert(m_next.tape[i] == cell_val(pre.cell_at(i)));
                            assert(self.cell_at(i) == pre.cell_at(i));
                        }
                        assert(self.abs_mach(input_pos as int, out@).tape =~= m_next.tape);
                    }
                },
                Instruction::MoveLeft => {
                    self.move_left();
                    proof {
                        assert forall|i: int| cell_val(self.cell_at(i)) == m_next.tape[i] by {
                            assert(m_next.tape[i] == cell_val(pre.cell_at(i)));
                            if pre.head_pos == 0 {
                                assert(self.tape@ == seq![Cell::Val(0)] + pre.tape@);
                                if 0 <= i + pre.tape_offset + 1 < self.tape@.len() {
                                    if i + pre.tape_offset + 1 == 0 {
                                        assert(self.cell_at(i) == Cell::Val(0));
                                    } else {
                                        assert(self.cell_at(i) == pre.tape@[i + pre.tape_offset]);
                                    }
                                }
                            }
                            assert(cell_val(self.cell_at(i)) == cell_val(pre.cell_at(i)));
                        }
                        assert(self.abs_mach(input_pos as int, out@).tape =~= m_next.tape);
                        assert(self.logical_head() == pre.logical_head() - 1);
                    }
                },
                Instruction::Increment => {
                    proof {
                        assert(self.tape@[self.head_pos as int] is Val);
                    }
                    self.increment();
                    proof {
                        let h = pre.logical_head();
                        assert(pre.cell_at(h) == pre.tape@[pre.head_pos as int]);
                        assert forall|i: int| cell_val(self.cell_at(i)) == m_next.tape[i] by {
                            if i == h {
                                assert(self.cell_at(i) == Cell::Val(
                                    wrap_inc(cell_val(pre.cell_at(h))),
                                ));
                                assert(m_next.tape[i] == wrap_inc(m_before.tape[h]));
                            } else {
                                assert(self.cell_at(i) == pre.cell_at(i));
                                assert(m_next.tape[i] == cell_val(pre.cell_at(i)));
                            }
                        }
                        assert(self.abs_mach(input_pos as int, out@).tape =~= m_next.tape);
                    }
                },
                Instruction::Decrement => {
                    proof {
                        assert(self.tape@[self.head_pos as int] is Val);
                    }
                    self.decrement();
                    proof {
                        let h = pre.logical_head();
                        assert(pre.cell_at(h) == pre.tape@[pre.head_pos as int]);
                        assert forall|i: int| cell_val(self.cell_at(i)) == m_next.tape[i] by {
                            if i == h {
                                assert(self.cell_at(i) == Cell::Val(
                                    wrap_dec(cell_val(pre.cell_at(h))),
                                ));
                                assert(m_next.tape[i] == wrap_dec(m_before.tape[h]));
                            } else {
                                assert(self.cell_at(i) == pre.cell_at(i));
                                assert(m_next.tape[i] == cell_val(pre.cell_at(i)));
                            }
                        }
                        assert(self.abs_mach(input_pos as int, out@).tape =~= m_next.tape);
                    }
                },
                Instruction::Write => {
                    proof {
                        assert(self.tape@[self.head_pos as int] is Val);
                    }
                    self.write(&mut out);
                    proof {
                        assert(pre.cell_at(pre.logical_head()) == pre.tape@[pre.head_pos as int]);
                        assert(m_before.tape[m_before.head] == cell_val(
                            pre.tape@[pre.head_pos as int],
                        ));
                        assert(self.abs_mach(input_pos as int, out@).tape =~= m_next.tape);
                        assert(out@ == m_next.out);
                    }
                },
                Instruction::Read => {
                    self.read(input, &mut input_pos);
                    proof {
                        let h = pre.logical_head();
                        assert forall|i: int| cell_val(self.cell_at(i)) == m_next.tape[i] by {
                            if i == h {
                                assert(self.cell_at(i) == self.tape@[self.head_pos as int]);
                            } else {
                                assert(self.cell_at(i) == pre.cell_at(i));
                                assert(m_next.tape[i] == cell_val(pre.cell_at(i)));
                            }
                        }
                        assert(self.abs_mach(input_pos as int, out@).tape =~= m_next.tape);
                    }
                },
                Instruction::JumpIfZero => {
                    proof {
                        assert(self.tape@[self.head_pos as int] is Val);
                    }
                    self.jump_if_zero();
                    proof {
                        assert(pre.cell_at(pre.logical_head()) == pre.tape@[pre.head_pos as int]);
                        assert(m_before.tape[m_before.head] == cell_val(
                            pre.tape@[pre.head_pos as int],
                        ));
                        if cell_val(pre.tape@[pre.head_pos as int]) == 0 {
                            crate::machine::lemma_fwd_match(
                                p0,
                                pre.program_counter as int,
                                self.program_counter as int,
                            );
                        }
                        assert(self.abs_mach(input_pos as int, out@).tape =~= m_next.tape);
                    }
                },
                Instruction::JumpUnlessZero => {
                    proof {
                        assert(self.tape@[self.head_pos as int] is Val);
                    }
                    self.jump_unless_zero();
                    proof {
                        assert(pre.cell_at(pre.logical_head()) == pre.tape@[pre.head_pos as int]);
                        assert(m_before.tape[m_before.head] == cell_val(
                            pre.tape@[pre.head_pos as int],
                        ));
                        if cell_val(pre.tape@[pre.head_pos as int]) != 0 {
                            crate::machine::lemma_bwd_match(
                                p0,
                                self.program_counter as int,
                                pre.program_counter as int,
                            );
                        }
                        assert(self.abs_mach(input_pos as int, out@).tape =~= m_next.tape);
                    }
                },
                _ => {
                    proof {
                        assert(is_primitive(p0[pc as int]));
                        assert(false);
                    }
                },
            }

            proof {
                assert(self.abs_mach(input_pos as int, out@) == m_next);
                steps = steps + 1;
            }
            used = used + 1;
        }

        proof {
            let m = msteps(p0, input@, init, steps);
            assert(m == self.abs_mach(input_pos as int, out@));
            assert(m.in_pos == input_pos as int);
        }
        out
    }
}

} // verus!
