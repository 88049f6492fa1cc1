//! The loop profiler: pairs the recorded execution counters with the
//! program's loops and classifies each loop.
//!
//! A loop is *simple* when its body does no I/O, the net head
//! displacement across the body is zero, and the loop-index cell changes
//! by exactly one unit per iteration; otherwise it is *complex*.  Simple
//! loops are the candidates for the counted-loop rewrite.  Each family
//! is reported most-executed first.

use vstd::prelude::*;

use crate::inst::Instruction;
use crate::interp::State;
use vstd::math::abs;

verus! {

/// One profiled loop: where it starts, how often it ran, and its
/// instructions (from its opening jump through its closing one).
pub struct LoopExecution {
    pub pc: usize,
    pub num_times_executed: usize,
    pub insts: Vec<Instruction>,
}

/// The abstract record a profiled loop denotes.
#[verifier::ext_equal]
pub struct ProfRec {
    pub pc: int,
    pub count: int,
    pub insts: Seq<Instruction>,
}

/// The abstract record of a concrete one.
pub open spec fn le_view(l: LoopExecution) -> ProfRec {
    ProfRec { pc: l.pc as int, count: l.num_times_executed as int, insts: l.insts@ }
}

/// The abstract records of a vector of concrete ones.
pub open spec fn les_view(v: Seq<LoopExecution>) -> Seq<ProfRec> {
    v.map_values(|l: LoopExecution| le_view(l))
}

/// The profiler's scanning state.
#[verifier::ext_equal]
pub struct ProfState {
    pub curr: Option<ProfRec>,
    pub has_io: bool,
    pub pointer_offset: int,
    pub pointer_value: int,
    pub simple: Seq<ProfRec>,
    pub complex: Seq<ProfRec>,
}

/// The scanning state on entry to the profiler.
pub open spec fn prof_init() -> ProfState {
    ProfState {
        curr: None,
        has_io: false,
        pointer_offset: 0,
        pointer_value: 0,
        simple: Seq::empty(),
        complex: Seq::empty(),
    }
}

/// One position of the profiler: record the instruction into the open
/// loop, accumulate head and index deltas, and on a closing jump
/// classify the loop.  A loop's execution count is the counter of the
/// first of its body positions whose counter is nonzero.
pub open spec fn prof_step(
    p: Seq<Instruction>,
    counts: Seq<usize>,
    pc: int,
    st: ProfState,
) -> ProfState {
    let st0 = match st.curr {
        Some(l) => ProfState { curr: Some(ProfRec { insts: l.insts.push(p[pc]), ..l }), ..st },
        None => st,
    };
    let st1 = match p[pc] {
        Instruction::MoveRight => ProfState { pointer_offset: st0.pointer_offset + 1, ..st0 },
        Instruction::MoveLeft => ProfState { pointer_offset: st0.pointer_offset - 1, ..st0 },
        Instruction::Write | Instruction::Read => ProfState { has_io: true, ..st0 },
        Instruction::Increment => {
            if st0.pointer_offset == 0 {
                ProfState { pointer_value: st0.pointer_value + 1, ..st0 }
            } else {
                st0
            }
        },
        Instruction::Decrement => {
            if st0.pointer_offset == 0 {
                ProfState { pointer_value: st0.pointer_value - 1, ..st0 }
            } else {
                st0
            }
        },
        _ => st0,
    };
    match p[pc] {
        Instruction::JumpIfZero => ProfState {
            curr: Some(ProfRec { pc: pc, count: 0, insts: seq![Instruction::JumpIfZero] }),
            has_io: false,
            pointer_offset: 0,
            pointer_value: 0,
            ..st1
        },
        Instruction::JumpUnlessZero => {
            match st1.curr {
                None => ProfState { curr: None, ..st1 },
                Some(l) => {
                    if !st1.has_io && st1.pointer_offset == 0 && abs(st1.pointer_value) == 1 {
                        ProfState { curr: None, simple: st1.simple.push(l), ..st1 }
                    } else {
                        ProfState { curr: None, complex: st1.complex.push(l), ..st1 }
                    }
                },
            }
        },
        _ => {
            match st1.curr {
                Some(l) => {
                    if l.count == 0 {
                        ProfState {
                            curr: Some(ProfRec { count: counts[pc] as int, ..l }),
                            ..st1
                        }
                    } else {
                        st1
                    }
                },
                None => st1,
            }
        },
    }
}

/// The profiler's state after the positions from `pc` on.
pub open spec fn prof_process(
    p: Seq<Instruction>,
    counts: Seq<usize>,
    pc: int,
    st: ProfState,
) -> ProfState
    decreases p.len() - pc,
{
    if pc < 0 || pc >= p.len() {
        st
    } else {
        prof_process(p, counts, pc + 1, prof_step(p, counts, pc, st))
    }
}

/// Inserts a record into a most-executed-first list, after every record
/// that ran at least as often, so that records with equal counts keep
/// their discovery order.
pub open spec fn insert_desc(s: Seq<ProfRec>, x: ProfRec) -> Seq<ProfRec>
    decreases s.len(),
{
    if s.len() == 0 {
        seq![x]
    } else if s.last().count >= x.count {
        s.push(x)
    } else {
        insert_desc(s.drop_last(), x).push(s.last())
    }
}

/// Orders records most-executed first, keeping the discovery order of
/// records with equal counts.
pub open spec fn sort_desc(s: Seq<ProfRec>) -> Seq<ProfRec>
    decreases s.len(),
{
    if s.len() == 0 {
        Seq::empty()
    } else {
        insert_desc(sort_desc(s.drop_last()), s.last())
    }
}

/// Counts never increase along a sorted record list.
pub open spec fn sorted_desc(s: Seq<ProfRec>) -> bool {
    forall|i: int, j: int| 0 <= i <= j < s.len() ==> s[i].count >= s[j].count
}

/// Insertion keeps a sorted list sorted.
proof fn lemma_insert_desc_sorted(s: Seq<ProfRec>, x: ProfRec)
    requires
        sorted_desc(s),
    ensures
        sorted_desc(insert_desc(s, x)),
        insert_desc(s, x).len() == s.len() + 1,
    decreases s.len(),
{
    if s.len() == 0 {
    } else if s.last().count >= x.count {
        let u = s.push(x);
        assert forall|i: int, j: int| 0 <= i <= j < u.len() implies u[i].count >= u[j].count by {
            if j < u.len() - 1 {
                assert(u[i] == s[i] && u[j] == s[j]);
            } else if i < u.len() - 1 {
                assert(u[i] == s[i]);
                assert(s[i].count >= s.last().count);
            }
        }
    } else {
        assert(sorted_desc(s.drop_last())) by {
            assert(forall|i: int, j: int|
                0 <= i <= j < s.drop_last().len() ==> s.drop_last()[i] == s[i]
                    && s.drop_last()[j] == s[j]);
        }
        lemma_insert_desc_sorted(s.drop_last(), x);
        let w = insert_desc(s.drop_last(), x);
        let u = w.push(s.last());
        assert forall|i: int, j: int| 0 <= i <= j < u.len() implies u[i].count >= u[j].count by {
            if j < u.len() - 1 {
                assert(u[i] == w[i] && u[j] == w[j]);
            } else if i < u.len() - 1 {
                assert(u[i] == w[i]);
                lemma_insert_desc_entries(s.drop_last(), x, i);
            }
        }
    }
}

/// Every entry of an inserted list is the inserted record or one of the
/// original entries.
proof fn lemma_insert_desc_entries(s: Seq<ProfRec>, x: ProfRec, i: int)
    requires
        0 <= i < insert_desc(s, x).len(),
    ensures
        insert_desc(s, x)[i] == x || exists|m: int|
            0 <= m < s.len() && s[m] == #[trigger] insert_desc(s, x)[i],
    decreases s.len(),
{
    if s.len() == 0 {
    } else if s.last().count >= x.count {
        if i < s.len() {
            assert(insert_desc(s, x)[i] == s[i]);
        }
    } else {
        let w = insert_desc(s.drop_last(), x);
        if i < w.len() {
            assert(insert_desc(s, x)[i] == w[i]);
            lemma_insert_desc_entries(s.drop_last(), x, i);
            if w[i] != x {
                let m = choose|m: int| 0 <= m < s.drop_last().len() && s.drop_last()[m] == w[i];
                assert(s[m] == w[i]);
            }
        } else {
            assert(insert_desc(s, x)[i] == s.last());
            assert(s[s.len() - 1] == s.last());
        }
    }
}

/// Inserting past an untouched prefix of at-least-as-large counts
/// leaves the prefix in place.
proof fn lemma_insert_desc_at(s: Seq<ProfRec>, x: ProfRec, k: int)
    requires
        0 <= k <= s.len(),
        forall|m: int| 0 <= m < k ==> (#[trigger] s[m]).count >= x.count,
        forall|m: int| k <= m < s.len() ==> (#[trigger] s[m]).count < x.count,
    ensures
        insert_desc(s, x) == s.take(k) + seq![x] + s.skip(k),
    decreases s.len(),
{
    if s.len() == 0 {
        assert(insert_desc(s, x) =~= s.take(k) + seq![x] + s.skip(k));
    } else if k == s.len() {
        assert(s.last().count >= x.count);
        assert(insert_desc(s, x) =~= s.take(k) + seq![x] + s.skip(k));
    } else {
        assert(s[s.len() - 1].count < x.count);
        lemma_insert_desc_at(s.drop_last(), x, k);
        assert(s.drop_last().take(k) =~= s.take(k));
        assert(s.drop_last().skip(k) =~= s.skip(k).drop_last());
        assert(insert_desc(s, x) =~= s.take(k) + seq![x] + s.skip(k));
    }
}

/// Inserts a record into a most-executed-first vector, after every
/// record that ran at least as often.
fn insert_sorted(out: &mut Vec<LoopExecution>, x: LoopExecution)
    requires
        sorted_desc(les_view(old(out)@)),
    ensures
        les_view(final(out)@) == insert_desc(les_view(old(out)@), le_view(x)),
        sorted_desc(les_view(final(out)@)),
{
    let ghost s = les_view(out@);
    let n = out.len();
    let mut k: usize = 0;
    while k < n && out[k].num_times_executed >= x.num_times_executed
        invariant
            k <= n,
            n == out@.len(),
            out@ == old(out)@,
            s == les_view(out@),
            forall|m: int| 0 <= m < k ==> (#[trigger] s[m]).count >= le_view(x).count,
        decreases n - k,
    {
        proof {
            assert(s[k as int] == le_view(out@[k as int]));
        }
        k = k + 1;
    }
    proof {
        assert forall|m: int| k <= m < s.len() implies (#[trigger] s[m]).count < le_view(
            x,
        ).count by {
            assert(sorted_desc(s));
            assert(s[k as int].count < le_view(x).count);
            assert(s[k as int].count >= s[m].count);
        }
        lemma_insert_desc_at(s, le_view(x), k as int);
        lemma_insert_desc_sorted(s, le_view(x));
    }
    out.insert(k, x);
    proof {
        assert(les_view(out@) =~= s.take(k as int) + seq![le_view(x)] + s.skip(k as int));
    }
}

/// Orders profiled loops most-executed first; loops with equal counts
/// keep their discovery order.
fn sort_loop_executions(v: Vec<LoopExecution>) -> (r: Vec<LoopExecution>)
    ensures
        les_view(r@) == sort_desc(les_view(v@)),
        sorted_desc(les_view(r@)),
{
    let ghost s = les_view(v@);
    let mut out: Vec<LoopExecution> = Vec::new();
    let n = v.len();
    let mut i: usize = 0;
    proof {
        assert(les_view(out@) =~= sort_desc(s.take(0)));
    }
    let mut v = v;
    while i < n
        invariant
            i <= n,
            n == v@.len(),
            s == les_view(v@),
            les_view(out@) == sort_desc(s.take(i as int)),
            sorted_desc(les_view(out@)),
        decreases n - i,
    {
        let x = copy_loop_execution(&v, i);
        insert_sorted(&mut out, x);
        proof {
            assert(s.take(i + 1).drop_last() =~= s.take(i as int));
            assert(s.take(i + 1).last() == s[i as int]);
        }
        i = i + 1;
    }
    proof {
        assert(s.take(n as int) =~= s);
    }
    out
}

/// Copies one profiled loop out of a vector.
fn copy_loop_execution(v: &Vec<LoopExecution>, i: usize) -> (r: LoopExecution)
    requires
        i < v@.len(),
    ensures
        le_view(r) == le_view(v@[i as int]),
{
    let l = &v[i];
    LoopExecution {
        pc: l.pc,
        num_times_executed: l.num_times_executed,
        insts: crate::peval::copy_vec(&l.insts),
    }
}

impl State {
    /// Pairs the recorded execution counters with the program's loops:
    /// returns the simple loops and the complex loops, each family
    /// ordered most-executed first.
    pub fn get_loop_executions(&self) -> (r: (Vec<LoopExecution>, Vec<LoopExecution>))
        requires
            self.program@.len() <= 0x7fff_ffff,
            self.execution_counter@.len() == self.program@.len(),
        ensures
            ({
                let st = prof_process(self.program@, self.execution_counter@, 0, prof_init());
                &&& les_view(r.0@) == sort_desc(st.simple)
                &&& les_view(r.1@) == sort_desc(st.complex)
            }),
    {
        let ghost p = self.program@;
        let ghost counts = self.execution_counter@;

        let mut simple_loops: Vec<LoopExecution> = Vec::new();
        let mut complex_loops: Vec<LoopExecution> = Vec::new();

        let mut curr_active = false;
        let mut curr_pc: usize = 0;
        let mut curr_count: usize = 0;
        let mut curr_insts: Vec<Instruction> = Vec::new();

        let mut has_io = false;
        let mut pointer_offset: i64 = 0;
        let mut pointer_value: i64 = 0;

        let n = self.program.len();
        let mut pc: usize = 0;

        proof {
            assert(les_view(simple_loops@) =~= Seq::<ProfRec>::empty());
            assert(les_view(complex_loops@) =~= Seq::<ProfRec>::empty());
        }

        while pc < n
            invariant
                n == p.len(),
                p == self.program@,
                counts == self.execution_counter@,
                counts.len() == n,
                n <= 0x7fff_ffff,
                pc <= n,
                abs(pointer_offset as int) <= pc,
                abs(pointer_value as int) <= pc,
                prof_process(p, counts, 0, prof_init()) == prof_process(
                    p,
                    counts,
                    pc as int,
                    ProfState {
                        curr: if curr_active {
                            Some(
                                ProfRec {
                                    pc: curr_pc as int,
                                    count: curr_count as int,
                                    insts: curr_insts@,
                                },
                            )
                        } else {
                            None
                        },
                        has_io: has_io,
                        pointer_offset: pointer_offset as int,
                        pointer_value: pointer_value as int,
                        simple: les_view(simple_loops@),
                        complex: les_view(complex_loops@),
                    },
                ),
            decreases n - pc,
        {
            let ghost st = ProfState {
                curr: if curr_active {
                    Some(
                        ProfRec {
                            pc: curr_pc as int,
                            count: curr_count as int,
                            insts: curr_insts@,
                        },
                    )
                } else {
                    None
                },
                has_io: has_io,
                pointer_offset: pointer_offset as int,
                pointer_value: pointer_value as int,
                simple: les_view(simple_loops@),
                complex: les_view(complex_loops@),
            };

            let inst = self.program[pc];

            if curr_active {
                curr_insts.push(inst);
            }

            match inst {
                Instruction::MoveRight => pointer_offset = pointer_offset + 1,
                Instruction::MoveLeft => pointer_offset = pointer_offset - 1,
                Instruction::Write | Instruction::Read => has_io = true,
                Instruction::Increment => {
                    if pointer_offset == 0 {
                        pointer_value = pointer_value + 1;
                    }
                },
                Instruction::Decrement => {
                    if pointer_offset == 0 {
                        pointer_value = pointer_value - 1;
                    }
                },
                _ => (),
            }

            match inst {
                Instruction::JumpIfZero => {
                    curr_active = true;
                    curr_pc = pc;
                    curr_count = 0;
                    let mut one: Vec<Instruction> = Vec::new();
                    one.push(Instruction::JumpIfZero);
                    curr_insts = one;
                    has_io = false;
                    pointer_offset = 0;
                    pointer_value = 0;
                    proof {
                        assert(curr_insts@ =~= seq![Instruction::JumpIfZero]);
                    }
                },
                Instruction::JumpUnlessZero => {
                    if curr_active {
                        curr_active = false;
                        let index_changed_by_1 = pointer_value == 1 || pointer_value == -1;
                        let rec = LoopExecution {
                            pc: curr_pc,
                            num_times_executed: curr_count,
                            insts: curr_insts,
                        };
                        curr_insts = Vec::new();
                        if !has_io && pointer_offset == 0 && index_changed_by_1 {
                            simple_loops.push(rec);
                            proof {
                                assert(les_view(simple_loops@) =~= st.simple.push(
                                    prof_step(p, counts, pc as int, st).simple.last(),
                                ));
                            }
                        } else {
                            complex_loops.push(rec);
                            proof {
                                assert(les_view(complex_loops@) =~= st.complex.push(
                                    prof_step(p, counts, pc as int, st).complex.last(),
                                ));
                            }
                        }
                    }
                },
                _ => {
                    if curr_active {
                        if curr_count == 0 {
                            curr_count = self.execution_counter[pc];
                        }
                    }
                },
            }

            proof {
                let st2 = ProfState {
                    curr: if curr_active {
                        Some(
                            ProfRec {
                                pc: curr_pc as int,
                                count: curr_count as int,
                                insts: curr_insts@,
                            },
                        )
                    } else {
                        None
                    },
                    has_io: has_io,
                    pointer_offset: pointer_offset as int,
                    pointer_value: pointer_value as int,
                    simple: les_view(simple_loops@),
                    complex: les_view(complex_loops@),
                };
                assert(st2 =~= prof_step(p, counts, pc as int, st));
            }
            pc = pc + 1;
        }

        let simple_sorted = sort_loop_executions(simple_loops);
        let complex_sorted = sort_loop_executions(complex_loops);

        (simple_sorted, complex_sorted)
    }
}

} // verus!
