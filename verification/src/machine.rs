//! The reference semantics of the tape machine: a small-step interpreter
//! over an idealized state with an unbounded tape.
//!
//! The tape is a total map from logical cell position to byte, zero
//! everywhere initially; the head is a logical (possibly negative)
//! position.  Reading past the end of the input yields byte 255.  Each
//! step first bumps the per-position execution counter of the current
//! program counter, saturating at the machine word, then dispatches on the
//! instruction there.

use vstd::prelude::*;

use crate::inst::Instruction;
use crate::jumps::is_match_pair;

verus! {

/// An idealized machine state.
pub struct Mach {
    /// The byte at every logical tape position.
    pub tape: Map<int, u8>,
    /// The logical head position; zero is where the head started.
    pub head: int,
    /// The program counter.
    pub pc: int,
    /// How many input bytes have been consumed.
    pub in_pos: int,
    /// The bytes written so far.
    pub out: Seq<u8>,
    /// Execution counts per program position, saturating at `usize::MAX`.
    pub counts: Seq<usize>,
}

/// The machine state a fresh run starts in.
pub open spec fn mach_init(prog_len: nat) -> Mach {
    Mach {
        tape: Map::total(|i: int| 0u8),
        head: 0,
        pc: 0,
        in_pos: 0,
        out: Seq::empty(),
        counts: Seq::new(prog_len, |i: int| 0usize),
    }
}

/// A byte incremented modulo 256.
pub open spec fn wrap_inc(b: u8) -> u8 {
    if b == 255 {
        0
    } else {
        (b + 1) as u8
    }
}

/// A byte decremented modulo 256.
pub open spec fn wrap_dec(b: u8) -> u8 {
    if b == 0 {
        255
    } else {
        (b - 1) as u8
    }
}

/// The byte a `Read` yields at a given input position: the input byte, or
/// 255 once the input is exhausted.
pub open spec fn read_byte(input: Seq<u8>, pos: int) -> u8 {
    if 0 <= pos < input.len() {
        input[pos]
    } else {
        255
    }
}

/// The input position after a `Read`: advanced while input remains.
pub open spec fn read_advance(input: Seq<u8>, pos: int) -> int {
    if 0 <= pos < input.len() {
        pos + 1
    } else {
        pos
    }
}

/// The closing jump matching the opening jump at `i`.
pub open spec fn fwd_match(p: Seq<Instruction>, i: int) -> int {
    choose|j: int| is_match_pair(p, i, j)
}

/// The opening jump matching the closing jump at `j`.
pub open spec fn bwd_match(p: Seq<Instruction>, j: int) -> int {
    choose|i: int| is_match_pair(p, i, j)
}

/// `fwd_match` yields the (unique) matching partner.
pub proof fn lemma_fwd_match(p: Seq<Instruction>, i: int, j: int)
    requires
        is_match_pair(p, i, j),
    ensures
        fwd_match(p, i) == j,
{
    let j2 = fwd_match(p, i);
    assert(is_match_pair(p, i, j2));
    crate::jumps::lemma_match_forward_unique(p, i, j, j2);
}

/// `bwd_match` yields the (unique) matching partner.
pub proof fn lemma_bwd_match(p: Seq<Instruction>, i: int, j: int)
    requires
        is_match_pair(p, i, j),
    ensures
        bwd_match(p, j) == i,
{
    let i2 = bwd_match(p, j);
    assert(is_match_pair(p, i2, j));
    crate::jumps::lemma_match_backward_unique(p, i, i2, j);
}

/// The execution counters after one dispatch at `pc`.
pub open spec fn bump(counts: Seq<usize>, pc: int) -> Seq<usize> {
    counts.update(
        pc,
        if counts[pc] < usize::MAX {
            (counts[pc] + 1) as usize
        } else {
            counts[pc]
        },
    )
}

/// One step of the machine: bump the counter at the current position,
/// then dispatch.  A state whose program counter has left the program is
/// final and no longer changes.  Dispatch is meaningful only for the
/// eight primitive instructions.
pub open spec fn mstep(p: Seq<Instruction>, input: Seq<u8>, s: Mach) -> Mach {
    if !(0 <= s.pc < p.len()) {
        s
    } else {
        mstep_go(p, input, s)
    }
}

/// The dispatch of a single in-bounds step.
pub open spec fn mstep_go(p: Seq<Instruction>, input: Seq<u8>, s: Mach) -> Mach {
    let s1 = Mach { counts: bump(s.counts, s.pc), ..s };
    match p[s.pc] {
        Instruction::MoveRight => Mach { head: s1.head + 1, pc: s1.pc + 1, ..s1 },
        Instruction::MoveLeft => Mach { head: s1.head - 1, pc: s1.pc + 1, ..s1 },
        Instruction::Increment => Mach {
            tape: s1.tape.insert(s1.head, wrap_inc(s1.tape[s1.head])),
            pc: s1.pc + 1,
            ..s1
        },
        Instruction::Decrement => Mach {
            tape: s1.tape.insert(s1.head, wrap_dec(s1.tape[s1.head])),
            pc: s1.pc + 1,
            ..s1
        },
        Instruction::Write => Mach { out: s1.out.push(s1.tape[s1.head]), pc: s1.pc + 1, ..s1 },
        Instruction::Read => Mach {
            tape: s1.tape.insert(s1.head, read_byte(input, s1.in_pos)),
            in_pos: read_advance(input, s1.in_pos),
            pc: s1.pc + 1,
            ..s1
        },
        Instruction::JumpIfZero => Mach {
            pc: if s1.tape[s1.head] == 0 {
                fwd_match(p, s1.pc)
            } else {
                s1.pc + 1
            },
            ..s1
        },
        Instruction::JumpUnlessZero => Mach {
            pc: if s1.tape[s1.head] != 0 {
                bwd_match(p, s1.pc)
            } else {
                s1.pc + 1
            },
            ..s1
        },
        _ => s1,
    }
}

/// The machine state after `n` steps.
pub open spec fn msteps(p: Seq<Instruction>, input: Seq<u8>, s: Mach, n: nat) -> Mach
    decreases n,
{
    if n == 0 {
        s
    } else {
        msteps(p, input, mstep(p, input, s), (n - 1) as nat)
    }
}

/// Stepping `n + 1` times is stepping `n` times and once more.
pub proof fn lemma_msteps_snoc(p: Seq<Instruction>, input: Seq<u8>, s: Mach, n: nat)
    ensures
        msteps(p, input, s, n + 1) == mstep(p, input, msteps(p, input, s, n)),
    decreases n,
{
    assert(msteps(p, input, s, n + 1) == msteps(p, input, mstep(p, input, s), n));
    if n == 0 {
        assert(msteps(p, input, mstep(p, input, s), 0) == mstep(p, input, s));
        assert(msteps(p, input, s, 0) == s);
    } else {
        lemma_msteps_snoc(p, input, mstep(p, input, s), (n - 1) as nat);
        assert(msteps(p, input, s, n) == msteps(p, input, mstep(p, input, s), (n - 1) as nat));
    }
}

/// Stepping `a + b` times is stepping `a` times, then `b` more.
pub proof fn lemma_msteps_add(p: Seq<Instruction>, input: Seq<u8>, s: Mach, a: nat, b: nat)
    ensures
        msteps(p, input, s, a + b) == msteps(p, input, msteps(p, input, s, a), b),
    decreases a,
{
    if a == 0 {
        assert(msteps(p, input, s, 0) == s);
    } else {
        assert(msteps(p, input, s, a + b) == msteps(p, input, mstep(p, input, s), (a + b - 1) as nat));
        assert(msteps(p, input, s, a) == msteps(p, input, mstep(p, input, s), (a - 1) as nat));
        lemma_msteps_add(p, input, mstep(p, input, s), (a - 1) as nat, b);
    }
}

/// A decrementing clear loop (`[-]`) runs the machine to exactly the
/// state the `Zero` instruction denotes: the cell under the head becomes
/// 0 and control falls past the loop, with the head, the rest of the
/// tape, the input position and the output untouched.
pub proof fn lemma_clear_loop_decrement(p: Seq<Instruction>, input: Seq<u8>, s: Mach)
    requires
        0 <= s.pc,
        s.pc + 2 < p.len(),
        s.tape.dom().contains(s.head),
        p[s.pc] == Instruction::JumpIfZero,
        p[s.pc + 1] == Instruction::Decrement,
        p[s.pc + 2] == Instruction::JumpUnlessZero,
        is_match_pair(p, s.pc, s.pc + 2),
    ensures
        exists|n: nat|
            {
                let m = #[trigger] msteps(p, input, s, n);
                &&& m.pc == s.pc + 3
                &&& m.tape == s.tape.insert(s.head, 0u8)
                &&& m.head == s.head
                &&& m.in_pos == s.in_pos
                &&& m.out == s.out
            },
    decreases s.tape[s.head],
{
    let v = s.tape[s.head];
    lemma_fwd_match(p, s.pc, s.pc + 2);
    lemma_bwd_match(p, s.pc, s.pc + 2);
    let s1 = mstep(p, input, s);
    if v == 0 {
        // The loop is skipped, and its closing jump falls through.
        let s2 = mstep(p, input, s1);
        assert(s1.pc == s.pc + 2);
        assert(s2.pc == s.pc + 3);
        assert(msteps(p, input, s, 2) == s2) by {
            lemma_msteps_snoc(p, input, s, 1);
            lemma_msteps_snoc(p, input, s, 0);
        }
        assert(s2.tape =~= s.tape.insert(s.head, 0u8));
        assert({
            let m = msteps(p, input, s, 2);
            &&& m.pc == s.pc + 3
            &&& m.tape == s.tape.insert(s.head, 0u8)
            &&& m.head == s.head
            &&& m.in_pos == s.in_pos
            &&& m.out == s.out
        });
    } else {
        // One iteration: enter, decrement, and test again.
        let s2 = mstep(p, input, s1);
        let s3 = mstep(p, input, s2);
        assert(s1.pc == s.pc + 1);
        assert(s2.tape == s1.tape.insert(s1.head, wrap_dec(v)));
        assert(s2.pc == s.pc + 2);
        assert(s2.tape[s.head] == wrap_dec(v));
        assert(msteps(p, input, s, 3) == s3) by {
            lemma_msteps_snoc(p, input, s, 2);
            lemma_msteps_snoc(p, input, s, 1);
            lemma_msteps_snoc(p, input, s, 0);
        }
        if v == 1 {
            assert(s3.pc == s.pc + 3);
            assert(s3.tape =~= s.tape.insert(s.head, 0u8));
            assert({
                let m = msteps(p, input, s, 3);
                &&& m.pc == s.pc + 3
                &&& m.tape == s.tape.insert(s.head, 0u8)
                &&& m.head == s.head
                &&& m.in_pos == s.in_pos
                &&& m.out == s.out
            });
        } else {
            assert(s3.pc == s.pc);
            assert(s3.head == s.head);
            assert(s3.tape[s3.head] == wrap_dec(v));
            assert(s3.tape[s3.head] < v);
            lemma_clear_loop_decrement(p, input, s3);
            let n2 = choose|n2: nat|
                {
                    let m = #[trigger] msteps(p, input, s3, n2);
                    &&& m.pc == s3.pc + 3
                    &&& m.tape == s3.tape.insert(s3.head, 0u8)
                    &&& m.head == s3.head
                    &&& m.in_pos == s3.in_pos
                    &&& m.out == s3.out
                };
            lemma_msteps_add(p, input, s, 3, n2);
            assert(msteps(p, input, s, 3 + n2) == msteps(p, input, s3, n2));
            assert(s3.tape.insert(s3.head, 0u8) =~= s.tape.insert(s.head, 0u8));
            assert({
                let m = msteps(p, input, s, 3 + n2);
                &&& m.pc == s.pc + 3
                &&& m.tape == s.tape.insert(s.head, 0u8)
                &&& m.head == s.head
                &&& m.in_pos == s.in_pos
                &&& m.out == s.out
            });
        }
    }
}

/// An incrementing clear loop (`[+]`) also runs the machine to exactly
/// the state `Zero` denotes: the cell wraps upward modulo 256 until it
/// reaches 0.
pub proof fn lemma_clear_loop_increment(p: Seq<Instruction>, input: Seq<u8>, s: Mach)
    requires
        0 <= s.pc,
        s.pc + 2 < p.len(),
        s.tape.dom().contains(s.head),
        p[s.pc] == Instruction::JumpIfZero,
        p[s.pc + 1] == Instruction::Increment,
        p[s.pc + 2] == Instruction::JumpUnlessZero,
        is_match_pair(p, s.pc, s.pc + 2),
    ensures
        exists|n: nat|
            {
                let m = #[trigger] msteps(p, input, s, n);
                &&& m.pc == s.pc + 3
                &&& m.tape == s.tape.insert(s.head, 0u8)
                &&& m.head == s.head
                &&& m.in_pos == s.in_pos
                &&& m.out == s.out
            },
    decreases (if s.tape[s.head] == 0 {
        0int
    } else {
        256 - s.tape[s.head]
    }),
{
    let v = s.tape[s.head];
    lemma_fwd_match(p, s.pc, s.pc + 2);
    lemma_bwd_match(p, s.pc, s.pc + 2);
    let s1 = mstep(p, input, s);
    if v == 0 {
        let s2 = mstep(p, input, s1);
        assert(s1.pc == s.pc + 2);
        assert(s2.pc == s.pc + 3);
        assert(msteps(p, input, s, 2) == s2) by {
            lemma_msteps_snoc(p, input, s, 1);
            lemma_msteps_snoc(p, input, s, 0);
        }
        assert(s2.tape =~= s.tape.insert(s.head, 0u8));
        assert({
            let m = msteps(p, input, s, 2);
            &&& m.pc == s.pc + 3
            &&& m.tape == s.tape.insert(s.head, 0u8)
            &&& m.head == s.head
            &&& m.in_pos == s.in_pos
            &&& m.out == s.out
        });
    } else {
        let s2 = mstep(p, input, s1);
        let s3 = mstep(p, input, s2);
        assert(s1.pc == s.pc + 1);
        assert(s2.tape == s1.tape.insert(s1.head, wrap_inc(v)));
        assert(s2.pc == s.pc + 2);
        assert(s2.tape[s.head] == wrap_inc(v));
        assert(msteps(p, input, s, 3) == s3) by {
            lemma_msteps_snoc(p, input, s, 2);
            lemma_msteps_snoc(p, input, s, 1);
            lemma_msteps_snoc(p, input, s, 0);
        }
        if v == 255 {
            assert(s3.pc == s.pc + 3);
            assert(s3.tape =~= s.tape.insert(s.head, 0u8));
            assert({
                let m = msteps(p, input, s, 3);
                &&& m.pc == s.pc + 3
                &&& m.tape == s.tape.insert(s.head, 0u8)
                &&& m.head == s.head
                &&& m.in_pos == s.in_pos
                &&& m.out == s.out
            });
        } else {
            assert(s3.pc == s.pc);
            assert(s3.head == s.head);
            assert(s3.tape[s3.head] == wrap_inc(v));
            lemma_clear_loop_increment(p, input, s3);
            let n2 = choose|n2: nat|
                {
                    let m = #[trigger] msteps(p, input, s3, n2);
                    &&& m.pc == s3.pc + 3
                    &&& m.tape == s3.tape.insert(s3.head, 0u8)
                    &&& m.head == s3.head
                    &&& m.in_pos == s3.in_pos
                    &&& m.out == s3.out
                };
            lemma_msteps_add(p, input, s, 3, n2);
            assert(msteps(p, input, s, 3 + n2) == msteps(p, input, s3, n2));
            assert(s3.tape.insert(s3.head, 0u8) =~= s.tape.insert(s.head, 0u8));
            assert({
                let m = msteps(p, input, s, 3 + n2);
                &&& m.pc == s.pc + 3
                &&& m.tape == s.tape.insert(s.head, 0u8)
                &&& m.head == s.head
                &&& m.in_pos == s.in_pos
                &&& m.out == s.out
            });
        }
    }
}

/// A run of `MoveRight` instructions advances the head one cell per
/// step and nothing else.
proof fn lemma_move_right_run(p: Seq<Instruction>, input: Seq<u8>, s: Mach, k: nat)
    requires
        0 <= s.pc,
        s.pc + k <= p.len(),
        forall|m: int| s.pc <= m < s.pc + k ==> p[m] == Instruction::MoveRight,
    ensures
        ({
            let m = msteps(p, input, s, k);
            &&& m.head == s.head + k
            &&& m.pc == s.pc + k
            &&& m.tape == s.tape
            &&& m.in_pos == s.in_pos
            &&& m.out == s.out
        }),
    decreases k,
{
    if k > 0 {
        assert(p[s.pc] == Instruction::MoveRight);
        let s1 = mstep(p, input, s);
        assert(msteps(p, input, s, k) == msteps(p, input, s1, (k - 1) as nat));
        lemma_move_right_run(p, input, s1, (k - 1) as nat);
    }
}

/// A rightward scan loop (`[` followed by `k` copies of `>` and `]`)
/// runs the machine to exactly the state a `Scan(k)` denotes: the head
/// lands on the first cell at stride `k` that holds zero, and control
/// falls past the loop, with the tape, the input position and the
/// output untouched.  `t0` counts the strides to that cell.
pub proof fn lemma_scan_loop_right(p: Seq<Instruction>, input: Seq<u8>, s: Mach, k: nat, t0: nat)
    requires
        0 <= s.pc,
        1 <= k,
        s.pc + k + 1 < p.len(),
        p[s.pc] == Instruction::JumpIfZero,
        forall|m: int| s.pc < m < s.pc + k + 1 ==> p[m] == Instruction::MoveRight,
        p[s.pc + k + 1] == Instruction::JumpUnlessZero,
        is_match_pair(p, s.pc, s.pc + k + 1),
        s.tape[s.head + k * t0] == 0,
        forall|u: int| 0 <= u < t0 ==> s.tape[s.head + #[trigger] (k * u)] != 0,
    ensures
        exists|n: nat|
            {
                let m = #[trigger] msteps(p, input, s, n);
                &&& m.pc == s.pc + k + 2
                &&& m.head == s.head + k * t0
                &&& m.tape == s.tape
                &&& m.in_pos == s.in_pos
                &&& m.out == s.out
            },
    decreases t0,
{
    let j = s.pc + k + 1;
    lemma_fwd_match(p, s.pc, j);
    lemma_bwd_match(p, s.pc, j);
    if t0 == 0 {
        // The cell under the head is already zero: the loop is skipped
        // and its closing jump falls through.
        assert(s.tape[s.head] == 0) by {
            assert(k * 0 == 0) by (nonlinear_arith);
        }
        let s1 = mstep(p, input, s);
        assert(s1.pc == j);
        let s2 = mstep(p, input, s1);
        assert(s2.pc == j + 1);
        assert(msteps(p, input, s, 2) == s2) by {
            lemma_msteps_snoc(p, input, s, 1);
            lemma_msteps_snoc(p, input, s, 0);
        }
        assert({
            let m = msteps(p, input, s, 2);
            &&& m.pc == s.pc + k + 2
            &&& m.head == s.head + k * t0
            &&& m.tape == s.tape
            &&& m.in_pos == s.in_pos
            &&& m.out == s.out
        });
    } else {
        // One iteration: enter the loop, take the k moves, and test the
        // new cell.
        assert(s.tape[s.head] != 0) by {
            assert(k * 0 == 0) by (nonlinear_arith);
        }
        let s1 = mstep(p, input, s);
        assert(s1.pc == s.pc + 1 && s1.head == s.head && s1.tape == s.tape && s1.in_pos == s.in_pos
            && s1.out == s.out);
        lemma_move_right_run(p, input, s1, k);
        let s2 = msteps(p, input, s1, k);
        assert(s2.pc == j && s2.head == s.head + k);
        let s3 = mstep(p, input, s2);
        lemma_msteps_add(p, input, s, 1, k);
        lemma_msteps_snoc(p, input, s, 0);
        assert(msteps(p, input, s, 1) == s1);
        assert(msteps(p, input, s, 1 + k) == s2);
        lemma_msteps_snoc(p, input, s, 1 + k);
        assert(msteps(p, input, s, k + 2) == s3);

        if t0 == 1 {
            assert(s2.tape[s2.head] == 0) by {
                assert(k * 1 == k) by (nonlinear_arith);
            }
            assert(s3.pc == j + 1);
            assert({
                let m = msteps(p, input, s, k + 2);
                &&& m.pc == s.pc + k + 2
                &&& m.head == s.head + k * t0
                &&& m.tape == s.tape
                &&& m.in_pos == s.in_pos
                &&& m.out == s.out
            }) by {
                assert(k * 1 == k) by (nonlinear_arith);
            }
        } else {
            assert(s2.tape[s2.head] != 0) by {
                assert(k * 1 == k) by (nonlinear_arith);
            }
            assert(s3.pc == s.pc && s3.head == s.head + k && s3.tape == s.tape && s3.in_pos
                == s.in_pos && s3.out == s.out);
            assert(s3.tape[s3.head + k * ((t0 - 1) as nat)] == 0) by {
                assert(k + k * (t0 - 1) == k * t0) by (nonlinear_arith);
            }
            assert forall|u: int| 0 <= u < t0 - 1 implies s3.tape[s3.head + #[trigger] (k * u)]
                != 0 by {
                assert(k + k * u == k * (u + 1)) by (nonlinear_arith);
                assert(s.tape[s.head + k * (u + 1)] != 0);
            }
            lemma_scan_loop_right(p, input, s3, k, (t0 - 1) as nat);
            let n2 = choose|n2: nat|
                {
                    let m = #[trigger] msteps(p, input, s3, n2);
                    &&& m.pc == s3.pc + k + 2
                    &&& m.head == s3.head + k * ((t0 - 1) as nat)
                    &&& m.tape == s3.tape
                    &&& m.in_pos == s3.in_pos
                    &&& m.out == s3.out
                };
            lemma_msteps_add(p, input, s, k + 2, n2);
            assert(msteps(p, input, s, (k + 2 + n2) as nat) == msteps(p, input, s3, n2));
            assert({
                let m = msteps(p, input, s, (k + 2 + n2) as nat);
                &&& m.pc == s.pc + k + 2
                &&& m.head == s.head + k * t0
                &&& m.tape == s.tape
                &&& m.in_pos == s.in_pos
                &&& m.out == s.out
            }) by {
                assert(k + k * (t0 - 1) == k * t0) by (nonlinear_arith);
            }
        }
    }
}

/// A run of `MoveLeft` instructions retreats the head one cell per step
/// and nothing else.
proof fn lemma_move_left_run(p: Seq<Instruction>, input: Seq<u8>, s: Mach, k: nat)
    requires
        0 <= s.pc,
        s.pc + k <= p.len(),
        forall|m: int| s.pc <= m < s.pc + k ==> p[m] == Instruction::MoveLeft,
    ensures
        ({
            let m = msteps(p, input, s, k);
            &&& m.head == s.head - k
            &&& m.pc == s.pc + k
            &&& m.tape == s.tape
            &&& m.in_pos == s.in_pos
            &&& m.out == s.out
        }),
    decreases k,
{
    if k > 0 {
        assert(p[s.pc] == Instruction::MoveLeft);
        let s1 = mstep(p, input, s);
        assert(msteps(p, input, s, k) == msteps(p, input, s1, (k - 1) as nat));
        lemma_move_left_run(p, input, s1, (k - 1) as nat);
    }
}

/// A leftward scan loop (`[` followed by `k` copies of `<` and `]`)
/// runs the machine to exactly the state a `Scan(-k)` denotes: the head
/// lands on the first cell at stride `k` to the left that holds zero,
/// and control falls past the loop, with everything else untouched.
pub proof fn lemma_scan_loop_left(p: Seq<Instruction>, input: Seq<u8>, s: Mach, k: nat, t0: nat)
    requires
        0 <= s.pc,
        1 <= k,
        s.pc + k + 1 < p.len(),
        p[s.pc] == Instruction::JumpIfZero,
        forall|m: int| s.pc < m < s.pc + k + 1 ==> p[m] == Instruction::MoveLeft,
        p[s.pc + k + 1] == Instruction::JumpUnlessZero,
        is_match_pair(p, s.pc, s.pc + k + 1),
        s.tape[s.head - k * t0] == 0,
        forall|u: int| 0 <= u < t0 ==> s.tape[s.head - #[trigger] (k * u)] != 0,
    ensures
        exists|n: nat|
            {
                let m = #[trigger] msteps(p, input, s, n);
                &&& m.pc == s.pc + k + 2
                &&& m.head == s.head - k * t0
                &&& m.tape == s.tape
                &&& m.in_pos == s.in_pos
                &&& m.out == s.out
            },
    decreases t0,
{
    let j = s.pc + k + 1;
    lemma_fwd_match(p, s.pc, j);
    lemma_bwd_match(p, s.pc, j);
    if t0 == 0 {
        assert(s.tape[s.head] == 0) by {
            assert(k * 0 == 0) by (nonlinear_arith);
        }
        let s1 = mstep(p, input, s);
        assert(s1.pc == j);
        let s2 = mstep(p, input, s1);
        assert(s2.pc == j + 1);
        assert(msteps(p, input, s, 2) == s2) by {
            lemma_msteps_snoc(p, input, s, 1);
            lemma_msteps_snoc(p, input, s, 0);
        }
        assert({
            let m = msteps(p, input, s, 2);
            &&& m.pc == s.pc + k + 2
            &&& m.head == s.head - k * t0
            &&& m.tape == s.tape
            &&& m.in_pos == s.in_pos
            &&& m.out == s.out
        });
    } else {
        assert(s.tape[s.head] != 0) by {
            assert(k * 0 == 0) by (nonlinear_arith);
        }
        let s1 = mstep(p, input, s);
        assert(s1.pc == s.pc + 1 && s1.head == s.head && s1.tape == s.tape && s1.in_pos == s.in_pos
            && s1.out == s.out);
        lemma_move_left_run(p, input, s1, k);
        let s2 = msteps(p, input, s1, k);
        assert(s2.pc == j && s2.head == s.head - k);
        let s3 = mstep(p, input, s2);
        lemma_msteps_add(p, input, s, 1, k);
        lemma_msteps_snoc(p, input, s, 0);
        assert(msteps(p, input, s, 1) == s1);
        assert(msteps(p, input, s, 1 + k) == s2);
        lemma_msteps_snoc(p, input, s, 1 + k);
        assert(msteps(p, input, s, k + 2) == s3);

        if t0 == 1 {
            assert(s2.tape[s2.head] == 0) by {
                assert(k * 1 == k) by (nonlinear_arith);
            }
            assert(s3.pc == j + 1);
            assert({
                let m = msteps(p, input, s, k + 2);
                &&& m.pc == s.pc + k + 2
                &&& m.head == s.head - k * t0
                &&& m.tape == s.tape
                &&& m.in_pos == s.in_pos
                &&& m.out == s.out
            }) by {
                assert(k * 1 == k) by (nonlinear_arith);
            }
        } else {
            assert(s2.tape[s2.head] != 0) by {
                assert(k * 1 == k) by (nonlinear_arith);
            }
            assert(s3.pc == s.pc && s3.head == s.head - k && s3.tape == s.tape && s3.in_pos
                == s.in_pos && s3.out == s.out);
            assert(s3.tape[s3.head - k * ((t0 - 1) as nat)] == 0) by {
                assert(k + k * (t0 - 1) == k * t0) by (nonlinear_arith);
            }
            assert forall|u: int| 0 <= u < t0 - 1 implies s3.tape[s3.head - #[trigger] (k * u)]
                != 0 by {
                assert(k + k * u == k * (u + 1)) by (nonlinear_arith);
                assert(s.tape[s.head - k * (u + 1)] != 0);
            }
            lemma_scan_loop_left(p, input, s3, k, (t0 - 1) as nat);
            let n2 = choose|n2: nat|
                {
                    let m = #[trigger] msteps(p, input, s3, n2);
                    &&& m.pc == s3.pc + k + 2
                    &&& m.head == s3.head - k * ((t0 - 1) as nat)
                    &&& m.tape == s3.tape
                    &&& m.in_pos == s3.in_pos
                    &&& m.out == s3.out
                };
            lemma_msteps_add(p, input, s, k + 2, n2);
            assert(msteps(p, input, s, (k + 2 + n2) as nat) == msteps(p, input, s3, n2));
            assert({
                let m = msteps(p, input, s, (k + 2 + n2) as nat);
                &&& m.pc == s.pc + k + 2
                &&& m.head == s.head - k * t0
                &&& m.tape == s.tape
                &&& m.in_pos == s.in_pos
                &&& m.out == s.out
            }) by {
                assert(k + k * (t0 - 1) == k * t0) by (nonlinear_arith);
            }
        }
    }
}

} // verus!
