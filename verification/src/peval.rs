//! The partial evaluator: a second interpreter whose tape holds known or
//! unknown cells.
//!
//! It executes every instruction not tainted by input, and emits residual
//! instructions for the rest.  On entering an outermost loop it snapshots
//! the whole execution state; if the loop-index cell becomes unknown at a
//! conditional jump, evaluation stops and the snapshot is restored, as if
//! the loop had never been entered.  Finalization materializes the head
//! position and every known cell into the residual program, then appends
//! the unexecuted tail verbatim.

use vstd::prelude::*;

use crate::inst::{is_primitive, primitives_only, Instruction};
use crate::interp::{all_concrete, cell_val, Cell, LoopEnterState, State};
use crate::jumps::is_match_pair;
use crate::machine::{bwd_match, fwd_match, mach_init, mstep, msteps, wrap_dec, wrap_inc, Mach};

verus! {

/// The execution state the partial evaluator snapshots at an outermost
/// loop entry.
#[verifier::ext_equal]
pub struct PeSnap {
    pub tape: Seq<Cell>,
    pub head: int,
    pub outhead: int,
    pub offset: int,
    pub pc: int,
    pub emitted: Seq<Instruction>,
}

/// The abstract state of the partial evaluator: the symbolic tape, the
/// raw head index, the head position last materialized into the residual
/// program, the origin shift, the program counter, the residual program
/// emitted so far, the live snapshot, and the loop nesting level.
#[verifier::ext_equal]
pub struct PeState {
    pub tape: Seq<Cell>,
    pub head: int,
    pub outhead: int,
    pub offset: int,
    pub pc: int,
    pub emitted: Seq<Instruction>,
    pub snap: Option<PeSnap>,
    pub level: int,
}

/// The abstract snapshot a stored snapshot denotes.
pub open spec fn snap_view(l: LoopEnterState) -> PeSnap {
    PeSnap {
        tape: l.tape@,
        head: l.head_pos as int,
        outhead: l.outputted_head_pos as int,
        offset: l.tape_offset as int,
        pc: l.program_counter as int,
        emitted: l.emitted_insts@,
    }
}

/// The abstract partial-evaluator state an interpreter state denotes,
/// together with the residual buffer emitted so far.
pub open spec fn pe_view(s: State, emitted: Seq<Instruction>) -> PeState {
    PeState {
        tape: s.tape@,
        head: s.head_pos as int,
        outhead: s.outputted_head_pos as int,
        offset: s.tape_offset as int,
        pc: s.program_counter as int,
        emitted: emitted,
        snap: match s.loop_enter_state {
            Some(l) => Some(snap_view(l)),
            None => None,
        },
        level: s.loop_level as int,
    }
}

/// A stored snapshot is well-formed: its head and origin lie on its tape.
pub open spec fn snap_wf(s: Option<LoopEnterState>) -> bool {
    match s {
        Some(l) => {
            &&& 1 <= l.tape@.len()
            &&& l.head_pos < l.tape@.len()
            &&& l.tape_offset < l.tape@.len()
        },
        None => true,
    }
}

/// The instructions a head sync emits: a `SetHeadPos` when the head has
/// moved since it was last materialized, nothing otherwise.
pub open spec fn sync_insts(s: PeState) -> Seq<Instruction> {
    if s.head != s.outhead {
        seq![Instruction::SetHeadPos((s.head - s.offset) as i32)]
    } else {
        Seq::empty()
    }
}

/// The state after materializing the head position.
pub open spec fn synced(s: PeState) -> PeState {
    PeState { outhead: s.head, emitted: s.emitted + sync_insts(s), ..s }
}

/// Evaluation is blocked: the next instruction is a conditional jump and
/// the cell under the head is unknown, so the program counter itself
/// would become unknown.
pub open spec fn pe_blocked(p: Seq<Instruction>, s: PeState) -> bool {
    &&& 0 <= s.pc < p.len()
    &&& (p[s.pc] == Instruction::JumpIfZero || p[s.pc] == Instruction::JumpUnlessZero)
    &&& 0 <= s.head < s.tape.len()
    &&& s.tape[s.head] is Unknown
}

/// Evaluation can go no further: the program is exhausted or blocked.
pub open spec fn pe_terminal(p: Seq<Instruction>, s: PeState) -> bool {
    !(0 <= s.pc < p.len()) || pe_blocked(p, s)
}

/// One step of the partial evaluator.  A terminal state no longer
/// changes; dispatch is meaningful only for primitive instructions.
pub open spec fn pe_step(p: Seq<Instruction>, s: PeState) -> PeState {
    if pe_terminal(p, s) {
        s
    } else {
        match p[s.pc] {
            Instruction::MoveRight => {
                let h = s.head + 1;
                let t = if h >= s.tape.len() {
                    s.tape.push(Cell::Val(0))
                } else {
                    s.tape
                };
                PeState { head: h, tape: t, pc: s.pc + 1, ..s }
            },
            Instruction::MoveLeft => {
                if s.head == 0 {
                    PeState {
                        tape: seq![Cell::Val(0)] + s.tape,
                        offset: s.offset + 1,
                        pc: s.pc + 1,
                        ..s
                    }
                } else {
                    PeState { head: s.head - 1, pc: s.pc + 1, ..s }
                }
            },
            Instruction::Increment => {
                match s.tape[s.head] {
                    Cell::Unknown => {
                        let s1 = synced(s);
                        PeState {
                            emitted: s1.emitted.push(Instruction::Increment),
                            pc: s.pc + 1,
                            ..s1
                        }
                    },
                    Cell::Val(x) => PeState {
                        tape: s.tape.update(s.head, Cell::Val(wrap_inc(x))),
                        pc: s.pc + 1,
                        ..s
                    },
                }
            },
            Instruction::Decrement => {
                match s.tape[s.head] {
                    Cell::Unknown => {
                        let s1 = synced(s);
                        PeState {
                            emitted: s1.emitted.push(Instruction::Decrement),
                            pc: s.pc + 1,
                            ..s1
                        }
                    },
                    Cell::Val(x) => PeState {
                        tape: s.tape.update(s.head, Cell::Val(wrap_dec(x))),
                        pc: s.pc + 1,
                        ..s
                    },
                }
            },
            Instruction::Write => {
                match s.tape[s.head] {
                    Cell::Unknown => {
                        let s1 = synced(s);
                        PeState { emitted: s1.emitted.push(Instruction::Write), pc: s.pc + 1, ..s1 }
                    },
                    Cell::Val(x) => PeState {
                        emitted: s.emitted.push(Instruction::Output(x)),
                        pc: s.pc + 1,
                        ..s
                    },
                }
            },
            Instruction::Read => {
                let s1 = synced(s);
                PeState {
                    tape: s1.tape.update(s1.head, Cell::Unknown),
                    emitted: s1.emitted.push(Instruction::Read),
                    pc: s.pc + 1,
                    ..s1
                }
            },
            Instruction::JumpIfZero => {
                let x = cell_val(s.tape[s.head]);
                let snap = if s.snap is None {
                    Some(
                        PeSnap {
                            tape: s.tape,
                            head: s.head,
                            outhead: s.outhead,
                            offset: s.offset,
                            pc: s.pc,
                            emitted: s.emitted,
                        },
                    )
                } else {
                    s.snap
                };
                let pc2 = if x == 0 {
                    fwd_match(p, s.pc)
                } else {
                    s.pc + 1
                };
                PeState { snap: snap, level: s.level + 1, pc: pc2, ..s }
            },
            Instruction::JumpUnlessZero => {
                let x = cell_val(s.tape[s.head]);
                let pc2 = if x != 0 {
                    bwd_match(p, s.pc)
                } else {
                    s.pc + 1
                };
                let lvl = s.level - 1;
                PeState {
                    pc: pc2,
                    level: lvl,
                    snap: if lvl == 0 {
                        None
                    } else {
                        s.snap
                    },
                    ..s
                }
            },
            _ => s,
        }
    }
}

/// The partial evaluator's state after `n` steps.
pub open spec fn pe_steps(p: Seq<Instruction>, s: PeState, n: nat) -> PeState
    decreases n,
{
    if n == 0 {
        s
    } else {
        pe_steps(p, pe_step(p, s), (n - 1) as nat)
    }
}

/// Stepping `n + 1` times is stepping `n` times and once more.
pub proof fn lemma_pe_steps_snoc(p: Seq<Instruction>, s: PeState, n: nat)
    ensures
        pe_steps(p, s, n + 1) == pe_step(p, pe_steps(p, s, n)),
    decreases n,
{
    assert(pe_steps(p, s, n + 1) == pe_steps(p, pe_step(p, s), n));
    if n == 0 {
        assert(pe_steps(p, pe_step(p, s), 0) == pe_step(p, s));
        assert(pe_steps(p, s, 0) == s);
    } else {
        lemma_pe_steps_snoc(p, pe_step(p, s), (n - 1) as nat);
        assert(pe_steps(p, s, n) == pe_steps(p, pe_step(p, s), (n - 1) as nat));
    }
}

/// The state evaluation resumes from: the snapshot of the outermost loop
/// entry if one is live, the state itself otherwise.
pub open spec fn pe_restore(s: PeState) -> PeState {
    match s.snap {
        None => s,
        Some(sn) => PeState {
            tape: sn.tape,
            head: sn.head,
            outhead: sn.outhead,
            offset: sn.offset,
            pc: sn.pc,
            emitted: sn.emitted,
            ..s
        },
    }
}

/// The `SetCell` instructions that materialize every known cell from
/// index `i` on, skipping unknown ones.
pub open spec fn setcell_insts(tape: Seq<Cell>, offset: int, i: int) -> Seq<Instruction>
    decreases tape.len() - i,
{
    if i < 0 || i >= tape.len() {
        Seq::empty()
    } else {
        (match tape[i] {
            Cell::Unknown => Seq::<Instruction>::empty(),
            Cell::Val(x) => seq![Instruction::SetCell((i - offset) as i32, x)],
        }) + setcell_insts(tape, offset, i + 1)
    }
}

/// The residual program produced from a final evaluation state: restore
/// the outermost snapshot if one is live; if any of the program remains,
/// materialize the head and the known cells and append the unexecuted
/// tail verbatim.
pub open spec fn pe_finalize(p: Seq<Instruction>, s: PeState) -> Seq<Instruction> {
    let r = pe_restore(s);
    if r.pc < p.len() {
        synced(r).emitted + setcell_insts(r.tape, r.offset, 0) + p.subrange(r.pc, p.len() as int)
    } else {
        r.emitted
    }
}

/// The machine-word bounds under which the evaluator can materialize
/// every position it tracks: the tape (and any snapshotted tape) is
/// addressable with a 32-bit signed offset and the nesting level stays
/// within a 32-bit counter.
pub open spec fn pe_bounded(s: PeState) -> bool {
    &&& s.tape.len() <= 0x7fff_ffff
    &&& (match s.snap {
        Some(sn) => sn.tape.len() <= 0x7fff_ffff,
        None => true,
    })
    &&& -0x8000_0000 < s.level < 0x7fff_ffff
}

/// The evaluation state a fresh run starts from: a one-cell zeroed
/// tape, the head at the origin, nothing emitted.
pub open spec fn pe_fresh() -> PeState {
    PeState {
        tape: seq![Cell::Val(0)],
        head: 0,
        outhead: 0,
        offset: 0,
        pc: 0,
        emitted: Seq::empty(),
        snap: None,
        level: 0,
    }
}

/// Copies a vector of plain values element by element.
pub(crate) fn copy_vec<T: Copy>(v: &Vec<T>) -> (r: Vec<T>)
    ensures
        r@ == v@,
{
    let mut r: Vec<T> = Vec::new();
    let n = v.len();
    let mut i: usize = 0;
    while i < n
        invariant
            i <= n,
            n == v@.len(),
            r@ =~= v@.take(i as int),
        decreases n - i,
    {
        r.push(v[i]);
        i = i + 1;
    }
    proof {
        assert(v@.take(n as int) =~= v@);
    }
    r
}

impl State {
    /// Emits a `SetHeadPos` for the current logical head position if the
    /// head has moved since it was last materialized into the residual
    /// program, and records that the two now agree.
    pub fn sync_compiled_head_pos(&mut self, insts: &mut Vec<Instruction>)
        requires
            old(self).tape@.len() <= 0x7fff_ffff,
            old(self).head_pos < old(self).tape@.len(),
            old(self).tape_offset < old(self).tape@.len(),
        ensures
            final(self).tape == old(self).tape,
            final(self).head_pos == old(self).head_pos,
            final(self).tape_offset == old(self).tape_offset,
            final(self).program_counter == old(self).program_counter,
            final(self).program == old(self).program,
            final(self).execution_counter == old(self).execution_counter,
            final(self).loop_enter_state == old(self).loop_enter_state,
            final(self).loop_level == old(self).loop_level,
            final(self).jump_dests == old(self).jump_dests,
            final(self).outputted_head_pos == old(self).head_pos || (old(self).head_pos == old(
                self,
            ).outputted_head_pos && final(self).outputted_head_pos == old(self).outputted_head_pos),
            pe_view(*final(self), final(insts)@) == synced(pe_view(*old(self), old(insts)@)),
    {
        let ghost s0 = pe_view(*old(self), old(insts)@);
        if self.head_pos != self.outputted_head_pos {
            let d: i32 = if self.head_pos >= self.tape_offset {
                (self.head_pos - self.tape_offset) as i32
            } else {
                -((self.tape_offset - self.head_pos) as i32)
            };
            proof {
                assert(d as int == self.head_pos - self.tape_offset);
                assert(d == (s0.head - s0.offset) as i32);
            }
            insts.push(Instruction::SetHeadPos(d));
            self.outputted_head_pos = self.head_pos;
            proof {
                assert(insts@ =~= s0.emitted + sync_insts(s0));
                assert(pe_view(*self, insts@) =~= synced(s0));
            }
        } else {
            proof {
                assert(insts@ =~= s0.emitted + sync_insts(s0));
                assert(pe_view(*self, insts@) =~= synced(s0));
            }
        }
    }

    /// Evaluates every instruction not tainted by input, for at most
    /// `fuel` steps, and returns the residual program: the instructions
    /// emitted along the way, the restored head and tape state where
    /// evaluation gave up, and the unexecuted tail of the program.
    ///
    /// The result and the final state are exactly those of the reference
    /// partial-evaluation machine, run from the current state until it
    /// is exhausted or blocked (or the budget runs out), then finalized —
    /// provided the run stays within the 32-bit offsets the residual
    /// instructions can express.
    pub fn partial_eval(&mut self, fuel: u64) -> (insts: Vec<Instruction>)
        requires
            old(self).wf(),
            primitives_only(old(self).program@),
            snap_wf(old(self).loop_enter_state),
        ensures
            final(self).program == old(self).program,
            final(self).jump_dests == old(self).jump_dests,
            final(self).execution_counter == old(self).execution_counter,
            final(self).wf(),
            snap_wf(final(self).loop_enter_state),
            (forall|n: nat|
                n <= fuel ==> pe_bounded(
                    #[trigger] pe_steps(old(self).program@, pe_view(*old(self), Seq::empty()), n),
                )) ==> exists|n: nat|
                {
                    let t = #[trigger] pe_steps(
                        old(self).program@,
                        pe_view(*old(self), Seq::empty()),
                        n,
                    );
                    let r = pe_restore(t);
                    &&& n <= fuel
                    &&& (n < fuel ==> pe_terminal(old(self).program@, t))
                    &&& insts@ == pe_finalize(old(self).program@, t)
                    &&& final(self).tape@ == r.tape
                    &&& final(self).head_pos as int == r.head
                    &&& final(self).tape_offset as int == r.offset
                    &&& final(self).program_counter as int == r.pc
                    &&& final(self).outputted_head_pos as int == (if r.pc < old(
                        self,
                    ).program@.len() {
                        r.head
                    } else {
                        r.outhead
                    })
                    &&& (match final(self).loop_enter_state {
                        Some(l) => t.snap == Some(snap_view(l)),
                        None => t.snap is None,
                    })
                    &&& final(self).loop_level as int == t.level
                },
    {
        let mut insts: Vec<Instruction> = Vec::new();
        let mut used: u64 = 0;
        let ghost p0 = self.program@;
        let ghost init = pe_view(*old(self), Seq::empty());
        let ghost mut steps: nat = 0;

        loop
            invariant
                self.wf(),
                snap_wf(self.loop_enter_state),
                primitives_only(p0),
                self.program == old(self).program,
                self.jump_dests == old(self).jump_dests,
                self.execution_counter == old(self).execution_counter,
                p0 == self.program@,
                init == pe_view(*old(self), Seq::empty()),
                steps == used as nat,
                used <= fuel,
                pe_view(*self, insts@) == pe_steps(p0, init, steps),
            ensures
                pe_terminal(p0, pe_view(*self, insts@)) || steps == fuel as nat,
            decreases fuel - used,
        {
            if self.program_counter >= self.program.len() {
                break;
            }
            if used == fuel {
                break;
            }

            let ghost sk = pe_view(*self, insts@);

            if self.tape.len() > 0x7fff_ffff {
                proof {
                    assert(!pe_bounded(sk));
                }
                return insts;
            }

            proof {
                lemma_pe_steps_snoc(p0, init, steps);
            }
            let ghost pre = *self;
            let ghost insts0 = insts@;

            let pc = self.program_counter;
            match self.program[pc] {
                Instruction::MoveRight => {
                    self.move_right();
                    proof {
                        assert(!pe_terminal(p0, sk));
                        assert(pe_view(*self, insts@) =~= pe_step(p0, sk));
                        steps = steps + 1;
                    }
                },
                Instruction::MoveLeft => {
                    self.move_left();
                    proof {
                        assert(!pe_terminal(p0, sk));
                        assert(pe_view(*self, insts@) =~= pe_step(p0, sk));
                        steps = steps + 1;
                    }
                },
                Instruction::Increment => {
                    match self.tape[self.head_pos] {
                        Cell::Unknown => {
                            self.sync_compiled_head_pos(&mut insts);
                            insts.push(Instruction::Increment);
                            let plen = self.program.len();
                            assert(self.program_counter < plen);
                            self.program_counter = self.program_counter + 1;
                        },
                        Cell::Val(_) => {
                            self.increment();
                        },
                    }
                    proof {
                        assert(!pe_terminal(p0, sk));
                        assert(pe_view(*self, insts@) =~= pe_step(p0, sk));
                        steps = steps + 1;
                    }
                },
                Instruction::Decrement => {
                    match self.tape[self.head_pos] {
                        Cell::Unknown => {
                            self.sync_compiled_head_pos(&mut insts);
                            insts.push(Instruction::Decrement);
                            let plen = self.program.len();
                            assert(self.program_counter < plen);
                            self.program_counter = self.program_counter + 1;
                        },
                        Cell::Val(_) => {
                            self.decrement();
                        },
                    }
                    proof {
                        assert(!pe_terminal(p0, sk));
                        assert(pe_view(*self, insts@) =~= pe_step(p0, sk));
                        steps = steps + 1;
                    }
                },
                Instruction::Write => {
                    match self.tape[self.head_pos] {
                        Cell::Unknown => {
                            self.sync_compiled_head_pos(&mut insts);
                            insts.push(Instruction::Write);
                        },
                        Cell::Val(x) => {
                            insts.push(Instruction::Output(x));
                        },
                    }
                    let plen = self.program.len();
                    assert(self.program_counter < plen);
                    self.program_counter = self.program_counter + 1;
                    proof {
                        assert(!pe_terminal(p0, sk));
                        assert(pe_view(*self, insts@) =~= pe_step(p0, sk));
                        steps = steps + 1;
                    }
                },
                Instruction::Read => {
                    self.sync_compiled_head_pos(&mut insts);
                    self.tape[self.head_pos] = Cell::Unknown;
                    insts.push(Instruction::Read);
                    let plen = self.program.len();
                    assert(self.program_counter < plen);
                    self.program_counter = self.program_counter + 1;
                    proof {
                        assert(!pe_terminal(p0, sk));
                        assert(pe_view(*self, insts@) =~= pe_step(p0, sk));
                        steps = steps + 1;
                    }
                },
                Instruction::JumpIfZero => {
                    match self.tape[self.head_pos] {
                        Cell::Unknown => {
                            proof {
                                assert(pe_blocked(p0, sk));
                            }
                            break;
                        },
                        Cell::Val(_) => {
                            if self.loop_level == 0x7fff_ffff {
                                proof {
                                    assert(!pe_bounded(sk));
                                }
                                return insts;
                            }
                            if self.loop_enter_state.is_none() {
                                self.loop_enter_state = Some(
                                    LoopEnterState {
                                        tape: copy_vec(&self.tape),
                                        head_pos: self.head_pos,
                                        outputted_head_pos: self.outputted_head_pos,
                                        tape_offset: self.tape_offset,
                                        program_counter: self.program_counter,
                                        emitted_insts: copy_vec(&insts),
                                    },
                                );
                            }
                            self.loop_level = self.loop_level + 1;
                            self.jump_if_zero();
                            proof {
                                assert(!pe_terminal(p0, sk));
                                if cell_val(sk.tape[sk.head]) == 0 {
                                    crate::machine::lemma_fwd_match(
                                        p0,
                                        pre.program_counter as int,
                                        self.program_counter as int,
                                    );
                                }
                                assert(pe_view(*self, insts@) =~= pe_step(p0, sk));
                                steps = steps + 1;
                            }
                        },
                    }
                },
                Instruction::JumpUnlessZero => {
                    match self.tape[self.head_pos] {
                        Cell::Unknown => {
                            proof {
                                assert(pe_blocked(p0, sk));
                            }
                            break;
                        },
                        Cell::Val(_) => {
                            if self.loop_level == -0x8000_0000 {
                                proof {
                                    assert(!pe_bounded(sk));
                                }
                                return insts;
                            }
                            self.jump_unless_zero();
                            self.loop_level = self.loop_level - 1;
                            if self.loop_level == 0 {
                                self.loop_enter_state = None;
                            }
                            proof {
                                assert(!pe_terminal(p0, sk));
                                if cell_val(sk.tape[sk.head]) != 0 {
                                    crate::machine::lemma_bwd_match(
                                        p0,
                                        self.program_counter as int,
                                        pre.program_counter as int,
                                    );
                                }
                                assert(pe_view(*self, insts@) =~= pe_step(p0, sk));
                                steps = steps + 1;
                            }
                        },
                    }
                },
                _ => {
                    proof {
                        assert(is_primitive(p0[pc as int]));
                        assert(false);
                    }
                },
            }
            used = used + 1;
        }

        let ghost t = pe_steps(p0, init, steps);
        proof {
            assert(pe_view(*self, insts@) == t);
        }

        // If evaluation gave up inside a loop nest, restore the execution
        // state from the snapshot of the outermost loop entry.
        if self.loop_enter_state.is_some() {
            let (t2, hp, ohp, off, pcv, em) = match &self.loop_enter_state {
                Some(l) => (
                    copy_vec(&l.tape),
                    l.head_pos,
                    l.outputted_head_pos,
                    l.tape_offset,
                    l.program_counter,
                    copy_vec(&l.emitted_insts),
                ),
                None => vstd::pervasive::unreached(),
            };
            self.tape = t2;
            self.head_pos = hp;
            self.outputted_head_pos = ohp;
            self.tape_offset = off;
            self.program_counter = pcv;
            insts = em;
        }
        let ghost r = pe_restore(t);
        proof {
            assert(pe_view(*self, insts@) =~= r);
        }

        // From here on runtime instructions follow: materialize the head
        // and the known cells of the tape.
        if self.program_counter < self.program.len() {
            if self.tape.len() > 0x7fff_ffff {
                proof {
                    assert(!pe_bounded(t));
                }
                return insts;
            }
            self.sync_compiled_head_pos(&mut insts);
            proof {
                assert(insts@ =~= synced(r).emitted);
            }

            let ghost base = insts@;
            let n = self.tape.len();
            let mut idx: usize = 0;
            while idx < n
                invariant
                    idx <= n,
                    n == self.tape@.len(),
                    n <= 0x7fff_ffff,
                    self.tape_offset < n,
                    base + setcell_insts(self.tape@, self.tape_offset as int, 0) =~= insts@
                        + setcell_insts(self.tape@, self.tape_offset as int, idx as int),
                decreases n - idx,
            {
                match self.tape[idx] {
                    Cell::Unknown => (),
                    Cell::Val(x) => {
                        let d: i32 = if idx >= self.tape_offset {
                            (idx - self.tape_offset) as i32
                        } else {
                            -((self.tape_offset - idx) as i32)
                        };
                        proof {
                            assert(d == (idx - self.tape_offset as int) as i32);
                        }
                        insts.push(Instruction::SetCell(d, x));
                    },
                }
                proof {
                    assert(setcell_insts(self.tape@, self.tape_offset as int, idx as int)
                        =~= (match self.tape@[idx as int] {
                        Cell::Unknown => Seq::<Instruction>::empty(),
                        Cell::Val(x) => seq![
                            Instruction::SetCell((idx - self.tape_offset as int) as i32, x),
                        ],
                    }) + setcell_insts(self.tape@, self.tape_offset as int, idx + 1));
                    assert(base + setcell_insts(self.tape@, self.tape_offset as int, 0) =~= insts@
                        + setcell_insts(self.tape@, self.tape_offset as int, idx + 1));
                }
                idx = idx + 1;
            }
            proof {
                assert(setcell_insts(self.tape@, self.tape_offset as int, n as int)
                    =~= Seq::<Instruction>::empty());
                assert(insts@ =~= synced(r).emitted + setcell_insts(r.tape, r.offset, 0));
            }

            // The unexecuted tail of the program follows verbatim, for
            // the downstream consumer to handle.
            let ghost tail_base = insts@;
            let plen = self.program.len();
            let ghost pc1 = self.program_counter as int;
            let mut pcv: usize = self.program_counter;
            while pcv < plen
                invariant
                    pc1 <= pcv as int <= plen as int,
                    plen == self.program@.len(),
                    0 <= pc1,
                    insts@ =~= tail_base + self.program@.subrange(pc1, pcv as int),
                decreases plen - pcv,
            {
                insts.push(self.program[pcv]);
                proof {
                    assert(insts@ =~= tail_base + self.program@.subrange(pc1, pcv + 1));
                }
                pcv = pcv + 1;
            }
        }

        proof {
            if r.pc < p0.len() {
                assert(insts@ =~= synced(r).emitted + setcell_insts(r.tape, r.offset, 0)
                    + p0.subrange(r.pc, p0.len() as int));
                assert(insts@ == pe_finalize(p0, t));
            } else {
                assert(insts@ =~= r.emitted);
                assert(insts@ == pe_finalize(p0, t));
            }
        }

        insts
    }
}

/// An instruction of the straight-line fragment: no input and no
/// control flow.
pub open spec fn is_straight_inst(i: Instruction) -> bool {
    match i {
        Instruction::MoveRight
        | Instruction::MoveLeft
        | Instruction::Increment
        | Instruction::Decrement
        | Instruction::Write => true,
        _ => false,
    }
}

/// A straight-line program: every instruction moves the head, changes a
/// cell, or writes; none reads or branches.
pub open spec fn straight_line(p: Seq<Instruction>) -> bool {
    forall|i: int| 0 <= i < p.len() ==> is_straight_inst(#[trigger] p[i])
}

/// The bytes a residual program's literal outputs write, in order.
pub open spec fn output_bytes(s: Seq<Instruction>) -> Seq<u8>
    decreases s.len(),
{
    if s.len() == 0 {
        Seq::empty()
    } else {
        output_bytes(s.drop_last()) + (match s.last() {
            Instruction::Output(b) => seq![b],
            _ => Seq::<u8>::empty(),
        })
    }
}

/// The partial evaluator's state runs in lockstep with a reference
/// machine state: same program position, a fully known tape holding the
/// machine's cells (shifted by the origin), and literal outputs spelling
/// exactly the machine's output so far.
pub open spec fn pe_corresponds(s: PeState, m: Mach) -> bool {
    &&& s.pc == m.pc
    &&& 0 <= s.pc
    &&& 0 <= s.offset < s.tape.len()
    &&& 0 <= s.head < s.tape.len()
    &&& s.head - s.offset == m.head
    &&& (forall|i: int| 0 <= i < s.tape.len() ==> (#[trigger] s.tape[i]) is Val)
    &&& (forall|i: int|
        0 <= i < s.tape.len() ==> cell_val(#[trigger] s.tape[i]) == m.tape[i - s.offset])
    &&& (forall|j: int| !(-s.offset <= j < s.tape.len() - s.offset) ==> #[trigger] m.tape[j] == 0)
    &&& output_bytes(s.emitted) == m.out
    &&& (forall|i: int| 0 <= i < s.emitted.len() ==> (#[trigger] s.emitted[i]) is Output)
    &&& s.snap is None
    &&& s.level == 0
}

/// One step preserves the lockstep on straight-line programs.
proof fn lemma_pe_step_straight(p: Seq<Instruction>, input: Seq<u8>, s: PeState, m: Mach)
    requires
        straight_line(p),
        pe_corresponds(s, m),
    ensures
        pe_corresponds(pe_step(p, s), mstep(p, input, m)),
{
    if !(0 <= s.pc < p.len()) {
        assert(pe_terminal(p, s));
    } else {
        assert(is_straight_inst(p[s.pc]));
        assert(!pe_blocked(p, s));
        let s2 = pe_step(p, s);
        let m2 = mstep(p, input, m);
        assert(s.tape[s.head] is Val);
        assert(cell_val(s.tape[s.head]) == m.tape[m.head]);
        match p[s.pc] {
            Instruction::MoveRight => {
                assert forall|i: int| 0 <= i < s2.tape.len() implies cell_val(
                    #[trigger] s2.tape[i],
                ) == m2.tape[i - s2.offset] && s2.tape[i] is Val by {
                    if i < s.tape.len() {
                        assert(s2.tape[i] == s.tape[i]);
                    } else {
                        assert(s2.tape[i] == Cell::Val(0));
                        assert(m.tape[i - s.offset] == 0);
                    }
                }
            },
            Instruction::MoveLeft => {
                if s.head == 0 {
                    assert forall|i: int| 0 <= i < s2.tape.len() implies cell_val(
                        #[trigger] s2.tape[i],
                    ) == m2.tape[i - s2.offset] && s2.tape[i] is Val by {
                        if i == 0 {
                            assert(s2.tape[0] == Cell::Val(0));
                            assert(m.tape[-s.offset - 1] == 0);
                        } else {
                            assert(s2.tape[i] == s.tape[i - 1]);
                        }
                    }
                    assert forall|j: int|
                        !(-s2.offset <= j < s2.tape.len() - s2.offset) implies #[trigger] m2.tape[j]
                        == 0 by {
                        assert(m.tape[j] == 0);
                    }
                }
            },
            Instruction::Increment => {
                assert(s2.tape == s.tape.update(s.head, Cell::Val(wrap_inc(cell_val(s.tape[s.head])))));
                assert forall|i: int| 0 <= i < s2.tape.len() implies cell_val(
                    #[trigger] s2.tape[i],
                ) == m2.tape[i - s2.offset] && s2.tape[i] is Val by {
                    if i != s.head {
                        assert(s2.tape[i] == s.tape[i]);
                        assert(m2.tape[i - s.offset] == m.tape[i - s.offset]);
                    }
                }
            },
            Instruction::Decrement => {
                assert(s2.tape == s.tape.update(s.head, Cell::Val(wrap_dec(cell_val(s.tape[s.head])))));
                assert forall|i: int| 0 <= i < s2.tape.len() implies cell_val(
                    #[trigger] s2.tape[i],
                ) == m2.tape[i - s2.offset] && s2.tape[i] is Val by {
                    if i != s.head {
                        assert(s2.tape[i] == s.tape[i]);
                        assert(m2.tape[i - s.offset] == m.tape[i - s.offset]);
                    }
                }
            },
            Instruction::Write => {
                let b = cell_val(s.tape[s.head]);
                assert(s2.emitted == s.emitted.push(Instruction::Output(b)));
                assert(s2.emitted.drop_last() =~= s.emitted);
                assert(s2.emitted.last() == Instruction::Output(b));
                assert(output_bytes(s2.emitted) =~= m.out.push(m.tape[m.head]));
            },
            _ => {
                assert(false);
            },
        }
    }
}

/// The whole run stays in lockstep on straight-line programs.
proof fn lemma_pe_chain_straight(p: Seq<Instruction>, input: Seq<u8>, n: nat)
    requires
        straight_line(p),
    ensures
        pe_corresponds(
            pe_steps(p, pe_fresh(), n),
            msteps(p, input, mach_init(p.len()), n),
        ),
    decreases n,
{
    if n == 0 {
        assert(output_bytes(pe_fresh().emitted) =~= Seq::<u8>::empty());
        assert(pe_corresponds(pe_fresh(), mach_init(p.len())));
    } else {
        lemma_pe_chain_straight(p, input, (n - 1) as nat);
        lemma_pe_steps_snoc(p, pe_fresh(), (n - 1) as nat);
        crate::machine::lemma_msteps_snoc(
            p,
            input,
            mach_init(p.len()),
            (n - 1) as nat,
        );
        lemma_pe_step_straight(
            p,
            input,
            pe_steps(p, pe_fresh(), (n - 1) as nat),
            msteps(p, input, mach_init(p.len()), (n - 1) as nat),
        );
    }
}


/// A straight-line program is fully evaluated after one step per
/// instruction: the position advances by one each step until the
/// program is exhausted.
pub proof fn lemma_pe_straight_line_terminates(p: Seq<Instruction>, n: nat)
    requires
        straight_line(p),
    ensures
        pe_steps(p, pe_fresh(), n).pc == (if n <= p.len() {
            n as int
        } else {
            p.len() as int
        }),
        n >= p.len() ==> pe_terminal(p, pe_steps(p, pe_fresh(), n)),
    decreases n,
{
    if n == 0 {
    } else {
        lemma_pe_straight_line_terminates(p, (n - 1) as nat);
        lemma_pe_steps_snoc(p, pe_fresh(), (n - 1) as nat);
        let s = pe_steps(p, pe_fresh(), (n - 1) as nat);
        if 0 <= s.pc < p.len() {
            assert(is_straight_inst(p[s.pc]));
            assert(!pe_blocked(p, s));
            assert(pe_step(p, s).pc == s.pc + 1);
        }
    }
}

/// Partial evaluation preserves observable behavior on the straight-line
/// fragment: once evaluation of a program with no reads and no loops
/// has run to completion, the residual consists solely of literal
/// outputs, and their bytes are exactly what the reference interpreter
/// writes on any input.
pub proof fn lemma_partial_eval_folds_straight_line(
    p: Seq<Instruction>,
    input: Seq<u8>,
    n: nat,
)
    requires
        straight_line(p),
        pe_terminal(p, pe_steps(p, pe_fresh(), n)),
    ensures
        ({
            let res = pe_finalize(p, pe_steps(p, pe_fresh(), n));
            let m = msteps(p, input, mach_init(p.len()), n);
            &&& (forall|i: int| 0 <= i < res.len() ==> (#[trigger] res[i]) is Output)
            &&& output_bytes(res) == m.out
        }),
{
    lemma_pe_chain_straight(p, input, n);
    let s = pe_steps(p, pe_fresh(), n);
    assert(!pe_blocked(p, s)) by {
        if 0 <= s.pc < p.len() {
            assert(is_straight_inst(p[s.pc]));
        }
    }
    assert(s.pc >= p.len());
    assert(pe_restore(s) == s);
    assert(pe_finalize(p, s) == s.emitted);
}

} // verus!
