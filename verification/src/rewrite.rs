//! The loop rewriter: two passes over a program, each preserving its
//! length.
//!
//! The counted-loop pass recognizes flat loops that do no I/O, return the
//! head to its starting offset, and change the loop-index cell by exactly
//! one unit per iteration; it replaces such a loop with per-offset
//! `Add`/`Sub` instructions, a final `Zero`, and `Nop` padding.
//!
//! The scan pass recognizes loops whose body is pure head motion and
//! replaces each with a single `Scan` of the loop's net head delta.

use vstd::prelude::*;

use crate::inst::Instruction;
use vstd::math::abs;

verus! {

/// An association list from head offset to accumulated cell delta, in
/// ascending offset order.
pub type Changes = Seq<(int, int)>;

/// Adds `dv` to the entry for `key`, inserting a fresh entry at its
/// ordered position if none exists.
pub open spec fn upsert(s: Changes, key: int, dv: int) -> Changes
    decreases s.len(),
{
    if s.len() == 0 {
        seq![(key, dv)]
    } else if s[0].0 == key {
        seq![(s[0].0, s[0].1 + dv)] + s.drop_first()
    } else if key < s[0].0 {
        seq![(key, dv)] + s
    } else {
        seq![s[0]] + upsert(s.drop_first(), key, dv)
    }
}

/// The value recorded for `key`, if any.
pub open spec fn lookup(s: Changes, key: int) -> Option<int>
    decreases s.len(),
{
    if s.len() == 0 {
        None
    } else if s.last().0 == key {
        Some(s.last().1)
    } else {
        lookup(s.drop_last(), key)
    }
}

/// The total number of cell-delta units recorded.
pub open spec fn weight(s: Changes) -> int
    decreases s.len(),
{
    if s.len() == 0 {
        0
    } else {
        weight(s.drop_last()) + abs(s.last().1)
    }
}

/// The instruction a per-offset delta lowers to.  In a loop whose index
/// cell decrements each iteration, a positive body delta becomes `Add`;
/// in an incrementing loop the signs invert.
pub open spec fn op_for(d: int, v: int, dec_loop: bool) -> Instruction {
    if dec_loop == (v > 0) {
        Instruction::Add(d as i32)
    } else {
        Instruction::Sub(d as i32)
    }
}

/// The same instruction repeated.
pub open spec fn repeat_inst(i: Instruction, n: nat) -> Seq<Instruction> {
    Seq::new(n, |k: int| i)
}

/// The instructions one change entry contributes: the loop-index entry
/// (offset 0) contributes nothing, any other entry contributes one
/// `Add`/`Sub` per delta unit.
pub open spec fn entry_ops(e: (int, int), dec_loop: bool) -> Seq<Instruction> {
    if e.0 == 0 {
        Seq::empty()
    } else {
        repeat_inst(op_for(e.0, e.1, dec_loop), abs(e.1) as nat)
    }
}

/// The `Add`/`Sub` instructions a committed loop lowers to, in entry
/// order.
pub open spec fn commit_ops(s: Changes, dec_loop: bool) -> Seq<Instruction>
    decreases s.len(),
{
    if s.len() == 0 {
        Seq::empty()
    } else {
        commit_ops(s.drop_last(), dec_loop) + entry_ops(s.last(), dec_loop)
    }
}

/// Lowering a committed loop emits at most one instruction per recorded
/// delta unit, not counting the loop-index entry itself.
pub proof fn lemma_commit_ops_len(s: Changes, dec_loop: bool)
    ensures
        commit_ops(s, dec_loop).len() <= weight(s),
        (match lookup(s, 0) {
            Some(v) => commit_ops(s, dec_loop).len() + abs(v) <= weight(s),
            None => true,
        }),
    decreases s.len(),
{
    if s.len() > 0 {
        lemma_commit_ops_len(s.drop_last(), dec_loop);
    }
}

/// Replaces the loop occupying `[start, end]` with its lowering: the
/// per-offset instructions, one `Zero`, and `Nop` padding to the end of
/// the range.  Everything outside the range is unchanged.
pub open spec fn commit_counted(
    p: Seq<Instruction>,
    start: int,
    end: int,
    s: Changes,
    dec_loop: bool,
) -> Seq<Instruction> {
    let ops = commit_ops(s, dec_loop).push(Instruction::Zero);
    Seq::new(
        p.len(),
        |i: int|
            if i < start || i > end {
                p[i]
            } else if i - start < ops.len() {
                ops[i - start]
            } else {
                Instruction::Nop
            },
    )
}

/// The counted-loop pass's scanning state.
pub struct CountedScan {
    pub in_loop: bool,
    pub start_pc: int,
    pub head_delta: int,
    pub changes: Changes,
}

/// The scanning state on entry to the pass.
pub open spec fn counted_scan_init() -> CountedScan {
    CountedScan { in_loop: false, start_pc: 0, head_delta: 0, changes: Seq::empty() }
}

/// Whether a scanned loop qualifies for the counted-loop rewrite: the
/// head returns to its starting offset and the loop-index cell changes
/// by exactly one unit per iteration.  (No I/O and no inner jump can
/// have occurred, or the scanning state would have been abandoned.)
pub open spec fn counted_commits(st: CountedScan) -> bool {
    &&& st.head_delta == 0
    &&& (lookup(st.changes, 0) == Some(1int) || lookup(st.changes, 0) == Some(-1int))
}

/// One position of the counted-loop pass: the possibly rewritten program
/// and the next scanning state.
pub open spec fn counted_step(p: Seq<Instruction>, pc: int, st: CountedScan) -> (
    Seq<Instruction>,
    CountedScan,
) {
    match p[pc] {
        Instruction::JumpIfZero => (
            p,
            CountedScan { in_loop: true, start_pc: pc, head_delta: 0, changes: Seq::empty() },
        ),
        Instruction::JumpUnlessZero => {
            if st.in_loop {
                let st2 = CountedScan { in_loop: false, ..st };
                if counted_commits(st) {
                    (
                        commit_counted(
                            p,
                            st.start_pc,
                            pc,
                            st.changes,
                            lookup(st.changes, 0) == Some(-1int),
                        ),
                        st2,
                    )
                } else {
                    (p, st2)
                }
            } else {
                (p, st)
            }
        },
        Instruction::Read | Instruction::Write => (p, CountedScan { in_loop: false, ..st }),
        Instruction::MoveLeft => {
            if st.in_loop {
                (p, CountedScan { head_delta: st.head_delta - 1, ..st })
            } else {
                (p, st)
            }
        },
        Instruction::MoveRight => {
            if st.in_loop {
                (p, CountedScan { head_delta: st.head_delta + 1, ..st })
            } else {
                (p, st)
            }
        },
        Instruction::Increment => {
            if st.in_loop {
                (p, CountedScan { changes: upsert(st.changes, st.head_delta, 1), ..st })
            } else {
                (p, st)
            }
        },
        Instruction::Decrement => {
            if st.in_loop {
                (p, CountedScan { changes: upsert(st.changes, st.head_delta, -1), ..st })
            } else {
                (p, st)
            }
        },
        _ => (p, CountedScan { in_loop: false, ..st }),
    }
}

/// The rest of the counted-loop pass, from position `pc` on.
pub open spec fn counted_process(p: Seq<Instruction>, pc: int, st: CountedScan) -> Seq<Instruction>
    decreases p.len() - pc,
{
    if pc < 0 || pc >= p.len() {
        p
    } else {
        let (p2, st2) = counted_step(p, pc, st);
        counted_process(p2, pc + 1, st2)
    }
}

/// The whole counted-loop pass.
pub open spec fn simplify_loops_spec(p: Seq<Instruction>) -> Seq<Instruction> {
    counted_process(p, 0, counted_scan_init())
}

/// Each position of the pass preserves the program's length.
pub proof fn lemma_counted_process_len(p: Seq<Instruction>, pc: int, st: CountedScan)
    ensures
        counted_process(p, pc, st).len() == p.len(),
    decreases p.len() - pc,
{
    if 0 <= pc < p.len() {
        let (p2, st2) = counted_step(p, pc, st);
        assert(p2.len() == p.len());
        lemma_counted_process_len(p2, pc + 1, st2);
    }
}

/// The counted-loop pass preserves the program's length.
pub proof fn lemma_simplify_loops_preserves_len(p: Seq<Instruction>)
    ensures
        simplify_loops_spec(p).len() == p.len(),
{
    lemma_counted_process_len(p, 0, counted_scan_init());
}

/// Updating a key past an untouched prefix of smaller keys leaves the
/// prefix in place.
proof fn lemma_upsert_skip(s: Changes, i: int, key: int, dv: int)
    requires
        0 <= i <= s.len(),
        forall|m: int| 0 <= m < i ==> s[m].0 < key,
    ensures
        upsert(s, key, dv) == s.take(i) + upsert(s.skip(i), key, dv),
    decreases i,
{
    if i == 0 {
        assert(s.skip(0) =~= s);
        assert(s.take(0) + upsert(s, key, dv) =~= upsert(s, key, dv));
    } else {
        assert(s.len() > 0);
        assert(s[0].0 < key);
        assert(upsert(s, key, dv) == seq![s[0]] + upsert(s.drop_first(), key, dv));
        lemma_upsert_skip(s.drop_first(), i - 1, key, dv);
        assert(s.drop_first().take(i - 1) =~= s.take(i).drop_first());
        assert(s.drop_first().skip(i - 1) =~= s.skip(i));
        assert(seq![s[0]] + (s.drop_first().take(i - 1) + upsert(s.skip(i), key, dv)) =~= s.take(i)
            + upsert(s.skip(i), key, dv));
    }
}

/// An update adds at most its own delta to the total weight.
proof fn lemma_upsert_weight(s: Changes, key: int, dv: int)
    ensures
        weight(upsert(s, key, dv)) <= weight(s) + abs(dv),
    decreases s.len(),
{
    lemma_weight_first(s);
    if s.len() == 0 {
        assert(weight(upsert(s, key, dv)) == abs(dv)) by {
            lemma_weight_first(upsert(s, key, dv));
            assert(upsert(s, key, dv).drop_first() =~= Seq::<(int, int)>::empty());
        }
    } else if s[0].0 == key {
        let u = seq![(s[0].0, s[0].1 + dv)] + s.drop_first();
        lemma_weight_first(u);
        assert(u.drop_first() =~= s.drop_first());
        assert(u[0] == (s[0].0, s[0].1 + dv));
    } else if key < s[0].0 {
        let u = seq![(key, dv)] + s;
        lemma_weight_first(u);
        assert(u.drop_first() =~= s);
        assert(u[0] == (key, dv));
    } else {
        lemma_upsert_weight(s.drop_first(), key, dv);
        let u = seq![s[0]] + upsert(s.drop_first(), key, dv);
        lemma_weight_first(u);
        assert(u.drop_first() =~= upsert(s.drop_first(), key, dv));
        assert(u[0] == s[0]);
    }
}

/// The abstract association list an accumulator vector denotes.
pub open spec fn changes_view(v: Seq<(i64, i64)>) -> Changes {
    v.map_values(|e: (i64, i64)| (e.0 as int, e.1 as int))
}

/// Lowering grows entry by entry.
proof fn lemma_commit_ops_step(s: Changes, dec_loop: bool, e: int)
    requires
        0 <= e < s.len(),
    ensures
        commit_ops(s.take(e + 1), dec_loop) == commit_ops(s.take(e), dec_loop) + entry_ops(
            s[e],
            dec_loop,
        ),
{
    assert(s.take(e + 1).drop_last() =~= s.take(e));
    assert(s.take(e + 1).last() == s[e]);
}

/// Lowering a prefix emits no more than lowering the whole list.
proof fn lemma_commit_ops_take(s: Changes, dec_loop: bool, e: int)
    requires
        0 <= e <= s.len(),
    ensures
        commit_ops(s.take(e), dec_loop).len() <= commit_ops(s, dec_loop).len(),
    decreases s.len() - e,
{
    if e == s.len() {
        assert(s.take(e) =~= s);
    } else {
        lemma_commit_ops_step(s, dec_loop, e);
        lemma_commit_ops_take(s, dec_loop, e + 1);
    }
}

/// Adds `dv` (one delta unit) to the accumulator entry for `key`,
/// keeping the entries in ascending key order.
fn upsert_exec(changes: &mut Vec<(i64, i64)>, key: i64, dv: i64)
    requires
        dv == 1 || dv == -1,
        forall|j: int|
            0 <= j < old(changes)@.len() ==> -0x7fff_ffff <= (#[trigger] old(changes)@[j]).1
                <= 0x7fff_ffff,
    ensures
        changes_view(final(changes)@) == upsert(changes_view(old(changes)@), key as int, dv as int),
{
    let ghost cv = changes_view(changes@);
    let n = changes.len();
    let mut i: usize = 0;
    while i < n && changes[i].0 < key
        invariant
            i <= n,
            n == changes@.len(),
            changes@ == old(changes)@,
            forall|m: int| 0 <= m < i ==> (#[trigger] changes@[m]).0 < key,
        decreases n - i,
    {
        i = i + 1;
    }
    proof {
        assert(forall|m: int| 0 <= m < i ==> (#[trigger] cv[m]).0 < key as int);
        lemma_upsert_skip(cv, i as int, key as int, dv as int);
    }
    if i < n && changes[i].0 == key {
        let cur = changes[i];
        changes[i] = (cur.0, cur.1 + dv);
        proof {
            assert(cv.skip(i as int)[0].0 == key as int);
            assert(upsert(cv.skip(i as int), key as int, dv as int) == seq![
                (key as int, cv[i as int].1 + dv as int),
            ] + cv.skip(i as int).drop_first());
            assert(cv.skip(i as int).drop_first() =~= cv.skip(i + 1));
            assert(changes_view(changes@) =~= cv.take(i as int) + (seq![
                (key as int, cv[i as int].1 + dv as int),
            ] + cv.skip(i + 1)));
        }
    } else {
        changes.insert(i, (key, dv));
        proof {
            if i < n {
                assert(cv.skip(i as int)[0].0 > key as int);
                assert(upsert(cv.skip(i as int), key as int, dv as int) == seq![
                    (key as int, dv as int),
                ] + cv.skip(i as int));
            } else {
                assert(cv.skip(i as int) =~= Seq::<(int, int)>::empty());
            }
            assert(changes_view(changes@) =~= cv.take(i as int) + (seq![(key as int, dv as int)]
                + cv.skip(i as int)));
        }
    }
}

/// The value the accumulator records for offset 0, if any.
fn lookup_key0(changes: &Vec<(i64, i64)>) -> (r: Option<i64>)
    ensures
        (match r {
            Some(v) => lookup(changes_view(changes@), 0) == Some(v as int),
            None => lookup(changes_view(changes@), 0) is None,
        }),
{
    let ghost cv = changes_view(changes@);
    let mut i: usize = changes.len();
    proof {
        assert(cv.take(i as int) =~= cv);
    }
    while i > 0
        invariant
            i <= changes@.len(),
            cv == changes_view(changes@),
            lookup(cv, 0) == lookup(cv.take(i as int), 0),
        decreases i,
    {
        i = i - 1;
        let e = changes[i];
        proof {
            assert(cv.take(i + 1).drop_last() =~= cv.take(i as int));
            assert(cv.take(i + 1).last() == cv[i as int]);
        }
        if e.0 == 0 {
            return Some(e.1);
        }
    }
    proof {
        assert(cv.take(0) =~= Seq::<(int, int)>::empty());
    }
    None
}

/// Replaces the committed loop in `[start, end]` with its lowering:
/// per-offset `Add`/`Sub` instructions in ascending offset order, one
/// `Zero`, and `Nop` padding.
fn commit_counted_exec(
    program: &mut Vec<Instruction>,
    start: usize,
    end: usize,
    changes: &Vec<(i64, i64)>,
    dec_loop: bool,
)
    requires
        start < end < old(program)@.len(),
        old(program)@.len() <= 0x7fff_ffff,
        weight(changes_view(changes@)) <= end - start - 1,
        lookup(changes_view(changes@), 0) == Some(1int) || lookup(changes_view(changes@), 0)
            == Some(-1int),
        dec_loop == (lookup(changes_view(changes@), 0) == Some(-1int)),
        forall|j: int|
            0 <= j < changes@.len() ==> -0x7fff_ffff <= (#[trigger] changes@[j]).0 <= 0x7fff_ffff
                && -0x7fff_ffff <= changes@[j].1 <= 0x7fff_ffff,
    ensures
        final(program)@ == commit_counted(
            old(program)@,
            start as int,
            end as int,
            changes_view(changes@),
            dec_loop,
        ),
        final(program)@.len() == old(program)@.len(),
{
    let ghost orig = program@;
    let ghost cv = changes_view(changes@);
    let ghost ops = commit_ops(cv, dec_loop).push(Instruction::Zero);
    proof {
        lemma_commit_ops_len(cv, dec_loop);
    }

    let n = program.len();

    // Blank the whole loop range first.
    let mut i: usize = start;
    while i <= end
        invariant
            start <= i <= end + 1,
            end < n,
            n == program@.len(),
            orig.len() == n,
            forall|m: int| 0 <= m < n && !(start <= m < i) ==> program@[m] == orig[m],
            forall|m: int| start <= m < i ==> program@[m] == Instruction::Nop,
        decreases end + 1 - i,
    {
        program[i] = Instruction::Nop;
        i = i + 1;
    }

    // Write the per-offset instructions in entry order.
    let mut write_pc: usize = start;
    let ne = changes.len();
    let mut e: usize = 0;
    while e < ne
        invariant
            e <= ne,
            ne == changes@.len(),
            cv == changes_view(changes@),
            cv.len() == ne,
            start < end < n,
            n == program@.len(),
            orig.len() == n,
            n <= 0x7fff_ffff,
            weight(cv) <= end - start - 1,
            forall|j: int|
                0 <= j < changes@.len() ==> -0x7fff_ffff <= (#[trigger] changes@[j]).0
                    <= 0x7fff_ffff && -0x7fff_ffff <= changes@[j].1 <= 0x7fff_ffff,
            write_pc - start == commit_ops(cv.take(e as int), dec_loop).len(),
            commit_ops(cv.take(e as int), dec_loop).len() <= commit_ops(cv, dec_loop).len(),
            commit_ops(cv, dec_loop).len() + 1 <= end - start,
            forall|m: int| 0 <= m < n && !(start <= m <= end) ==> program@[m] == orig[m],
            forall|m: int| write_pc <= m <= end ==> program@[m] == Instruction::Nop,
            forall|m: int|
                start <= m < write_pc ==> program@[m] == commit_ops(cv.take(e as int), dec_loop)[m
                    - start],
        decreases ne - e,
    {
        let (d, v) = changes[e];
        proof {
            lemma_commit_ops_step(cv, dec_loop, e as int);
            lemma_commit_ops_take(cv, dec_loop, e + 1);
        }
        if d != 0 {
            let absv: usize = if v >= 0 {
                v as usize
            } else {
                (-v) as usize
            };
            let op: Instruction = if dec_loop == (v > 0) {
                Instruction::Add(d as i32)
            } else {
                Instruction::Sub(d as i32)
            };
            proof {
                assert(op == op_for(d as int, v as int, dec_loop));
                assert(absv == abs(v as int));
                assert(entry_ops(cv[e as int], dec_loop) =~= repeat_inst(op, absv as nat));
            }
            let ghost base = commit_ops(cv.take(e as int), dec_loop);
            let mut c: usize = 0;
            while c < absv
                invariant
                    c <= absv,
                    start < end < n,
                    n == program@.len(),
                    orig.len() == n,
                    write_pc - start == base.len() + c,
                    base.len() + absv + 1 <= end - start,
                    forall|m: int| 0 <= m < n && !(start <= m <= end) ==> program@[m] == orig[m],
                    forall|m: int| write_pc <= m <= end ==> program@[m] == Instruction::Nop,
                    forall|m: int|
                        start <= m < write_pc ==> program@[m] == (base + repeat_inst(
                            op,
                            c as nat,
                        ))[m - start],
                decreases absv - c,
            {
                program[write_pc] = op;
                write_pc = write_pc + 1;
                c = c + 1;
                proof {
                    assert forall|m: int|
                        start <= m < write_pc implies program@[m] == (base + repeat_inst(
                        op,
                        c as nat,
                    ))[m - start] by {}
                }
            }
            proof {
                assert(base + repeat_inst(op, absv as nat) =~= commit_ops(
                    cv.take(e + 1),
                    dec_loop,
                ));
            }
        } else {
            proof {
                assert(entry_ops(cv[e as int], dec_loop) =~= Seq::<Instruction>::empty());
                assert(commit_ops(cv.take(e + 1), dec_loop) =~= commit_ops(
                    cv.take(e as int),
                    dec_loop,
                ));
            }
        }
        e = e + 1;
    }

    proof {
        assert(cv.take(ne as int) =~= cv);
    }
    program[write_pc] = Instruction::Zero;

    proof {
        assert forall|m: int| 0 <= m < n implies program@[m] == commit_counted(
            orig,
            start as int,
            end as int,
            cv,
            dec_loop,
        )[m] by {
            if start <= m <= end {
                if m - start < ops.len() {
                    if m - start < ops.len() - 1 {
                        assert(program@[m] == commit_ops(cv, dec_loop)[m - start]);
                    } else {
                        assert(m == write_pc);
                    }
                } else {
                    assert(program@[m] == Instruction::Nop);
                }
            }
        }
        assert(program@ =~= commit_counted(orig, start as int, end as int, cv, dec_loop));
    }
}

/// Weight decomposes at the first entry as well as at the last.
proof fn lemma_weight_first(s: Changes)
    ensures
        s.len() > 0 ==> weight(s) == abs(s[0].1) + weight(s.drop_first()),
    decreases s.len(),
{
    if s.len() == 1 {
        assert(s.drop_last() =~= Seq::<(int, int)>::empty());
        assert(s.drop_first() =~= Seq::<(int, int)>::empty());
    } else if s.len() > 1 {
        lemma_weight_first(s.drop_last());
        assert(s.drop_last().drop_first() =~= s.drop_first().drop_last());
        assert(s.drop_last()[0] == s[0]);
        assert(s.drop_first().last() == s.last());
        lemma_weight_first(s.drop_first());
    }
}

/// Every key and value in an updated list stays within the enlarged
/// bounds.
proof fn lemma_upsert_bounds(s: Changes, key: int, dv: int, kb: int, vb: int)
    requires
        0 <= kb,
        0 <= vb,
        forall|j: int| 0 <= j < s.len() ==> abs((#[trigger] s[j]).0) <= kb && abs(s[j].1) <= vb,
        abs(key) <= kb,
    ensures
        forall|j: int|
            0 <= j < upsert(s, key, dv).len() ==> abs((#[trigger] upsert(s, key, dv)[j]).0) <= kb
                && abs(upsert(s, key, dv)[j].1) <= vb + abs(dv),
    decreases s.len(),
{
    let u = upsert(s, key, dv);
    if s.len() == 0 {
        assert(u == seq![(key, dv)]);
        assert(abs(u[0].0) <= kb && abs(u[0].1) <= vb + abs(dv));
    } else if s[0].0 == key {
        assert forall|j: int| 0 <= j < u.len() implies abs((#[trigger] u[j]).0) <= kb && abs(
            u[j].1,
        ) <= vb + abs(dv) by {
            if j == 0 {
                assert(u[j] == (s[0].0, s[0].1 + dv));
                assert(abs(s[0].0) <= kb && abs(s[0].1) <= vb);
            } else {
                assert(u[j] == s[j]);
                assert(abs(s[j].0) <= kb && abs(s[j].1) <= vb);
            }
        }
    } else if key < s[0].0 {
        assert forall|j: int| 0 <= j < u.len() implies abs((#[trigger] u[j]).0) <= kb && abs(
            u[j].1,
        ) <= vb + abs(dv) by {
            if j == 0 {
                assert(u[j] == (key, dv));
            } else {
                assert(u[j] == s[j - 1]);
                assert(abs(s[j - 1].0) <= kb && abs(s[j - 1].1) <= vb);
            }
        }
    } else {
        assert(forall|j: int|
            0 <= j < s.drop_first().len() ==> abs((#[trigger] s.drop_first()[j]).0) <= kb && abs(
                s.drop_first()[j].1,
            ) <= vb);
        lemma_upsert_bounds(s.drop_first(), key, dv, kb, vb);
        let w = upsert(s.drop_first(), key, dv);
        assert forall|j: int| 0 <= j < u.len() implies abs((#[trigger] u[j]).0) <= kb && abs(
            u[j].1,
        ) <= vb + abs(dv) by {
            if j == 0 {
                assert(u[j] == s[0]);
                assert(abs(s[0].0) <= kb && abs(s[0].1) <= vb);
            } else {
                assert(u[j] == w[j - 1]);
                assert(abs(w[j - 1].0) <= kb && abs(w[j - 1].1) <= vb + abs(dv));
            }
        }
    }
}

/// The counted-loop pass: recognizes flat loops with no I/O whose head
/// returns to its starting offset and whose index cell changes by one
/// unit per iteration, and lowers each to per-offset `Add`/`Sub`
/// instructions, a `Zero`, and `Nop` padding.  The program's length is
/// unchanged.
pub fn simplify_loops(program: &mut Vec<Instruction>)
    requires
        old(program)@.len() <= 0x7fff_ffff,
    ensures
        final(program)@ == simplify_loops_spec(old(program)@),
        final(program)@.len() == old(program)@.len(),
{
    let ghost orig = program@;
    let n = program.len();

    let mut in_loop = false;
    let mut start_pc: usize = 0;
    let mut head_delta: i64 = 0;
    let mut changes: Vec<(i64, i64)> = Vec::new();

    proof {
        assert(changes_view(changes@) =~= Seq::<(int, int)>::empty());
    }

    let mut pc: usize = 0;
    while pc < n
        invariant
            n == program@.len(),
            orig.len() == n,
            n <= 0x7fff_ffff,
            pc <= n,
            counted_process(orig, 0, counted_scan_init()) == counted_process(
                program@,
                pc as int,
                CountedScan {
                    in_loop: in_loop,
                    start_pc: start_pc as int,
                    head_delta: head_delta as int,
                    changes: changes_view(changes@),
                },
            ),
            in_loop ==> start_pc < pc,
            in_loop ==> abs(head_delta as int) <= pc - start_pc - 1,
            in_loop ==> weight(changes_view(changes@)) <= pc - start_pc - 1,
            in_loop ==> forall|j: int|
                0 <= j < changes@.len() ==> abs((#[trigger] changes_view(changes@)[j]).0) <= pc
                    - start_pc - 1 && abs(changes_view(changes@)[j].1) <= pc - start_pc - 1,
        decreases n - pc,
    {
        let ghost st = CountedScan {
            in_loop: in_loop,
            start_pc: start_pc as int,
            head_delta: head_delta as int,
            changes: changes_view(changes@),
        };
        let ghost p_before = program@;

        match program[pc] {
            Instruction::JumpIfZero => {
                in_loop = true;
                start_pc = pc;
                head_delta = 0;
                changes = Vec::new();
                proof {
                    assert(changes_view(changes@) =~= Seq::<(int, int)>::empty());
                }
            },
            Instruction::JumpUnlessZero => {
                if in_loop {
                    in_loop = false;

                    proof {
                        assert forall|j: int| 0 <= j < changes@.len() implies -0x7fff_ffff <= (
                        #[trigger] changes@[j]).0 <= 0x7fff_ffff && -0x7fff_ffff <= changes@[j].1
                            <= 0x7fff_ffff by {
                            assert(changes_view(changes@)[j] == (
                                changes@[j].0 as int,
                                changes@[j].1 as int,
                            ));
                        }
                    }
                    if head_delta == 0 {
                        match lookup_key0(&changes) {
                            Some(v) => {
                                if v == 1 || v == -1 {
                                    proof {
                                        assert(counted_commits(st));
                                    }
                                    commit_counted_exec(program, start_pc, pc, &changes, v == -1);
                                }
                            },
                            None => (),
                        }
                    }
                }
            },
            Instruction::Read | Instruction::Write => in_loop = false,
            Instruction::MoveLeft => {
                if in_loop {
                    head_delta = head_delta - 1;
                }
            },
            Instruction::MoveRight => {
                if in_loop {
                    head_delta = head_delta + 1;
                }
            },
            Instruction::Increment => {
                if in_loop {
                    proof {
                        assert forall|j: int| 0 <= j < changes@.len() implies -0x7fff_ffff <= (
                        #[trigger] changes@[j]).1 <= 0x7fff_ffff by {
                            assert(changes_view(changes@)[j] == (
                                changes@[j].0 as int,
                                changes@[j].1 as int,
                            ));
                        }
                        lemma_upsert_weight(changes_view(changes@), head_delta as int, 1);
                        lemma_upsert_bounds(
                            changes_view(changes@),
                            head_delta as int,
                            1,
                            pc - start_pc - 1,
                            pc - start_pc - 1,
                        );
                    }
                    upsert_exec(&mut changes, head_delta, 1);
                }
            },
            Instruction::Decrement => {
                if in_loop {
                    proof {
                        assert forall|j: int| 0 <= j < changes@.len() implies -0x7fff_ffff <= (
                        #[trigger] changes@[j]).1 <= 0x7fff_ffff by {
                            assert(changes_view(changes@)[j] == (
                                changes@[j].0 as int,
                                changes@[j].1 as int,
                            ));
                        }
                        lemma_upsert_weight(changes_view(changes@), head_delta as int, -1);
                        lemma_upsert_bounds(
                            changes_view(changes@),
                            head_delta as int,
                            -1,
                            pc - start_pc - 1,
                            pc - start_pc - 1,
                        );
                    }
                    upsert_exec(&mut changes, head_delta, -1);
                }
            },
            _ => in_loop = false,
        }

        proof {
            let st2 = CountedScan {
                in_loop: in_loop,
                start_pc: start_pc as int,
                head_delta: head_delta as int,
                changes: changes_view(changes@),
            };
            assert(counted_step(p_before, pc as int, st) == (program@, st2));
            assert(counted_process(p_before, pc as int, st) == counted_process(
                program@,
                pc + 1,
                st2,
            ));
        }
        pc = pc + 1;
    }
}

/// The scan pass's scanning state.
pub struct MotionScan {
    pub in_loop: bool,
    pub start_pc: int,
    pub head_delta: int,
}

/// The scanning state on entry to the pass.
pub open spec fn motion_scan_init() -> MotionScan {
    MotionScan { in_loop: false, start_pc: 0, head_delta: 0 }
}

/// Replaces the loop occupying `[start, end]` with a single `Scan` of
/// its net head delta, padded with `Nop`.
pub open spec fn commit_scan(p: Seq<Instruction>, start: int, end: int, hd: int) -> Seq<
    Instruction,
> {
    Seq::new(
        p.len(),
        |i: int|
            if i < start || i > end {
                p[i]
            } else if i == start {
                Instruction::Scan(hd as i32)
            } else {
                Instruction::Nop
            },
    )
}

/// One position of the scan pass: the possibly rewritten program and the
/// next scanning state.
pub open spec fn motion_step(p: Seq<Instruction>, pc: int, st: MotionScan) -> (
    Seq<Instruction>,
    MotionScan,
) {
    match p[pc] {
        Instruction::JumpIfZero => (
            p,
            MotionScan { in_loop: true, start_pc: pc, head_delta: 0 },
        ),
        Instruction::JumpUnlessZero => {
            if st.in_loop {
                let st2 = MotionScan { in_loop: false, ..st };
                if st.head_delta != 0 {
                    (commit_scan(p, st.start_pc, pc, st.head_delta), st2)
                } else {
                    (p, st2)
                }
            } else {
                (p, st)
            }
        },
        Instruction::MoveLeft => {
            if st.in_loop {
                (p, MotionScan { head_delta: st.head_delta - 1, ..st })
            } else {
                (p, st)
            }
        },
        Instruction::MoveRight => {
            if st.in_loop {
                (p, MotionScan { head_delta: st.head_delta + 1, ..st })
            } else {
                (p, st)
            }
        },
        _ => (p, MotionScan { in_loop: false, ..st }),
    }
}

/// The rest of the scan pass, from position `pc` on.
pub open spec fn motion_process(p: Seq<Instruction>, pc: int, st: MotionScan) -> Seq<Instruction>
    decreases p.len() - pc,
{
    if pc < 0 || pc >= p.len() {
        p
    } else {
        let (p2, st2) = motion_step(p, pc, st);
        motion_process(p2, pc + 1, st2)
    }
}

/// The whole scan pass.
pub open spec fn vectorize_scans_spec(p: Seq<Instruction>) -> Seq<Instruction> {
    motion_process(p, 0, motion_scan_init())
}

/// Each position of the scan pass preserves the program's length.
pub proof fn lemma_motion_process_len(p: Seq<Instruction>, pc: int, st: MotionScan)
    ensures
        motion_process(p, pc, st).len() == p.len(),
    decreases p.len() - pc,
{
    if 0 <= pc < p.len() {
        let (p2, st2) = motion_step(p, pc, st);
        assert(p2.len() == p.len());
        lemma_motion_process_len(p2, pc + 1, st2);
    }
}

/// The scan pass preserves the program's length.
pub proof fn lemma_vectorize_scans_preserves_len(p: Seq<Instruction>)
    ensures
        vectorize_scans_spec(p).len() == p.len(),
{
    lemma_motion_process_len(p, 0, motion_scan_init());
}

/// The scan pass: recognizes loops whose body is nothing but head
/// motion with a nonzero net delta, and lowers each to a single `Scan`
/// plus `Nop` padding.  The program's length is unchanged.
pub fn vectorize_scans(program: &mut Vec<Instruction>)
    requires
        old(program)@.len() <= 0x7fff_ffff,
    ensures
        final(program)@ == vectorize_scans_spec(old(program)@),
        final(program)@.len() == old(program)@.len(),
{
    let ghost orig = program@;
    let n = program.len();

    let mut in_loop = false;
    let mut start_pc: usize = 0;
    let mut head_delta: i64 = 0;

    let mut pc: usize = 0;
    while pc < n
        invariant
            n == program@.len(),
            orig.len() == n,
            n <= 0x7fff_ffff,
            pc <= n,
            motion_process(orig, 0, motion_scan_init()) == motion_process(
                program@,
                pc as int,
                MotionScan {
                    in_loop: in_loop,
                    start_pc: start_pc as int,
                    head_delta: head_delta as int,
                },
            ),
            in_loop ==> start_pc < pc,
            in_loop ==> abs(head_delta as int) <= pc - start_pc - 1,
        decreases n - pc,
    {
        let ghost st = MotionScan {
            in_loop: in_loop,
            start_pc: start_pc as int,
            head_delta: head_delta as int,
        };
        let ghost p_before = program@;

        match program[pc] {
            Instruction::JumpIfZero => {
                in_loop = true;
                start_pc = pc;
                head_delta = 0;
            },
            Instruction::JumpUnlessZero => {
                if in_loop {
                    in_loop = false;

                    if head_delta != 0 {
                        // Blank the range, then put the scan at its head.
                        let mut i: usize = start_pc;
                        while i <= pc
                            invariant
                                start_pc <= i <= pc + 1,
                                pc < n,
                                n == program@.len(),
                                forall|m: int|
                                    0 <= m < n && !(start_pc <= m < i) ==> program@[m]
                                        == p_before[m],
                                forall|m: int|
                                    start_pc <= m < i ==> program@[m] == Instruction::Nop,
                            decreases pc + 1 - i,
                        {
                            program[i] = Instruction::Nop;
                            i = i + 1;
                        }
                        program[start_pc] = Instruction::Scan(head_delta as i32);
                        proof {
                            assert(program@ =~= commit_scan(
                                p_before,
                                start_pc as int,
                                pc as int,
                                st.head_delta,
                            ));
                        }
                    }
                }
            },
            Instruction::MoveLeft => {
                if in_loop {
                    head_delta = head_delta - 1;
                }
            },
            Instruction::MoveRight => {
                if in_loop {
                    head_delta = head_delta + 1;
                }
            },
            _ => in_loop = false,
        }

        proof {
            let st2 = MotionScan {
                in_loop: in_loop,
                start_pc: start_pc as int,
                head_delta: head_delta as int,
            };
            assert(motion_step(p_before, pc as int, st) == (program@, st2));
            assert(motion_process(p_before, pc as int, st) == motion_process(program@, pc + 1, st2));
        }
        pc = pc + 1;
    }
}

} // verus!
