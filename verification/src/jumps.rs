//! Bracket matching: pairing every conditional jump with its partner.
//!
//! A jump table maps the index of each conditional-jump opcode to the index
//! of its matching partner.  It is symmetric: if `T[i] == j` then
//! `T[j] == i`.  A program whose brackets cannot all be paired is rejected.

use vstd::prelude::*;

use crate::inst::Instruction;
use std::collections::HashMap;

verus! {

broadcast use vstd::std_specs::hash::group_hash_axioms;

/// The bracket-depth contribution of a single instruction.
pub open spec fn jump_delta(i: Instruction) -> int {
    match i {
        Instruction::JumpIfZero => 1,
        Instruction::JumpUnlessZero => -1,
        _ => 0,
    }
}

/// Net bracket depth over the index range `[from, to)`.
pub open spec fn depth_in(p: Seq<Instruction>, from: int, to: int) -> int
    decreases to - from,
{
    if to <= from {
        0
    } else {
        depth_in(p, from, to - 1) + jump_delta(p[to - 1])
    }
}

/// Depth over a range splits at any midpoint.
pub proof fn lemma_depth_additive(p: Seq<Instruction>, from: int, mid: int, to: int)
    requires
        from <= mid <= to,
    ensures
        depth_in(p, from, to) == depth_in(p, from, mid) + depth_in(p, mid, to),
    decreases to - mid,
{
    if to > mid {
        lemma_depth_additive(p, from, mid, to - 1);
    }
}

/// Positions `i` and `j` hold an opening and a closing jump that match:
/// the interior never closes the bracket opened at `i`, and `j` is the
/// first position that does.
pub open spec fn is_match_pair(p: Seq<Instruction>, i: int, j: int) -> bool {
    &&& 0 <= i < j < p.len()
    &&& p[i] == Instruction::JumpIfZero
    &&& p[j] == Instruction::JumpUnlessZero
    &&& depth_in(p, i, j) == 1
    &&& forall|k: int| i < k <= j ==> depth_in(p, i, k) >= 1
}

/// An opening jump has at most one matching partner.
pub proof fn lemma_match_forward_unique(p: Seq<Instruction>, i: int, j1: int, j2: int)
    requires
        is_match_pair(p, i, j1),
        is_match_pair(p, i, j2),
    ensures
        j1 == j2,
{
    if j1 < j2 {
        assert(depth_in(p, i, j1 + 1) == depth_in(p, i, j1) + jump_delta(p[j1]));
        assert(depth_in(p, i, j1 + 1) >= 1);
    }
    if j2 < j1 {
        assert(depth_in(p, i, j2 + 1) == depth_in(p, i, j2) + jump_delta(p[j2]));
        assert(depth_in(p, i, j2 + 1) >= 1);
    }
}

/// A closing jump has at most one matching partner.
pub proof fn lemma_match_backward_unique(p: Seq<Instruction>, i1: int, i2: int, j: int)
    requires
        is_match_pair(p, i1, j),
        is_match_pair(p, i2, j),
    ensures
        i1 == i2,
{
    if i1 < i2 {
        lemma_depth_additive(p, i1, i2, j);
        assert(depth_in(p, i1, i2) >= 1);
    }
    if i2 < i1 {
        lemma_depth_additive(p, i2, i1, j);
        assert(depth_in(p, i2, i1) >= 1);
    }
}

/// Every conditional jump in the program has a matching partner.
pub open spec fn balanced(p: Seq<Instruction>) -> bool {
    &&& forall|i: int|
        0 <= i < p.len() && p[i] == Instruction::JumpIfZero ==> exists|j: int|
            is_match_pair(p, i, j)
    &&& forall|j: int|
        0 <= j < p.len() && p[j] == Instruction::JumpUnlessZero ==> exists|i: int|
            is_match_pair(p, i, j)
}

/// Scans forward from an opening jump for the closing jump that matches it.
pub fn find_matching_jump_if_zero(insts: &Vec<Instruction>, start_pc: usize) -> (r: Option<usize>)
    requires
        start_pc < insts@.len(),
        insts@[start_pc as int] == Instruction::JumpIfZero,
    ensures
        match r {
            Some(j) => is_match_pair(insts@, start_pc as int, j as int),
            None => forall|j: int| !is_match_pair(insts@, start_pc as int, j),
        },
{
    let ghost p = insts@;
    let ghost start = start_pc as int;
    let n = insts.len();
    let mut pc: usize = start_pc + 1;
    let mut brace_count: usize = 1;

    proof {
        assert(depth_in(p, start, start) == 0);
        assert(depth_in(p, start, start + 1) == depth_in(p, start, start) + jump_delta(p[start]));
    }

    while pc < n
        invariant
            p == insts@,
            start == start_pc as int,
            n == insts@.len(),
            p[start] == Instruction::JumpIfZero,
            start_pc < pc <= n,
            1 <= brace_count <= pc - start_pc,
            brace_count == depth_in(p, start, pc as int),
            forall|k: int| start < k <= pc as int ==> depth_in(p, start, k) >= 1,
        decreases n - pc,
    {
        proof {
            assert(depth_in(p, start, pc + 1) == depth_in(p, start, pc as int) + jump_delta(
                p[pc as int],
            ));
        }
        match insts[pc] {
            Instruction::JumpIfZero => brace_count = brace_count + 1,
            Instruction::JumpUnlessZero => brace_count = brace_count - 1,
            _ => (),
        }

        if brace_count == 0 {
            proof {
                assert(p[pc as int] == Instruction::JumpUnlessZero);
                assert(depth_in(p, start, pc as int) == 1);
            }
            return Some(pc);
        }

        pc = pc + 1;
    }

    proof {
        assert forall|j: int| !is_match_pair(p, start, j) by {
            if is_match_pair(p, start, j) {
                assert(depth_in(p, start, j + 1) == depth_in(p, start, j) + jump_delta(p[j]));
                assert(depth_in(p, start, j + 1) >= 1);
            }
        }
    }
    None
}

/// Scans backward from a closing jump for the opening jump that matches it.
pub fn find_matching_jump_unless_zero(insts: &Vec<Instruction>, start_pc: usize) -> (r: Option<
    usize,
>)
    requires
        start_pc < insts@.len(),
        insts@[start_pc as int] == Instruction::JumpUnlessZero,
    ensures
        match r {
            Some(i) => is_match_pair(insts@, i as int, start_pc as int),
            None => forall|i: int| !is_match_pair(insts@, i, start_pc as int),
        },
{
    let ghost p = insts@;
    let ghost start = start_pc as int;
    let n = insts.len();
    let mut pc: usize = start_pc;
    let mut brace_count: usize = 1;

    while pc > 0
        invariant
            p == insts@,
            start == start_pc as int,
            n == insts@.len(),
            p[start] == Instruction::JumpUnlessZero,
            start_pc < n,
            pc <= start_pc,
            1 <= brace_count <= start_pc - pc + 1,
            brace_count == 1 - depth_in(p, pc as int, start),
            forall|k: int| (pc as int) < k <= start ==> depth_in(p, k, start) <= 0,
        decreases pc,
    {
        let ghost prev_count = brace_count;
        pc = pc - 1;
        proof {
            lemma_depth_additive(p, pc as int, pc + 1, start);
            assert(depth_in(p, pc as int, pc as int) == 0);
            assert(depth_in(p, pc as int, pc + 1) == jump_delta(p[pc as int]));
        }
        match insts[pc] {
            Instruction::JumpUnlessZero => brace_count = brace_count + 1,
            Instruction::JumpIfZero => brace_count = brace_count - 1,
            _ => (),
        }

        if brace_count == 0 {
            proof {
                assert(p[pc as int] == Instruction::JumpIfZero);
                assert(depth_in(p, pc as int, start) == 1);
                assert forall|k: int| (pc as int) < k <= start implies depth_in(
                    p,
                    pc as int,
                    k,
                ) >= 1 by {
                    lemma_depth_additive(p, pc as int, k, start);
                }
            }
            return Some(pc);
        }
    }

    proof {
        assert forall|i: int| !is_match_pair(p, i, start) by {
            if is_match_pair(p, i, start) {
                assert(depth_in(p, i, start) == 1);
                if i > 0 {
                    assert(depth_in(p, i, start) <= 0);
                }
            }
        }
    }
    None
}

/// The map a well-formed jump table realizes: every conditional jump maps
/// to its matching partner, and nothing else is in the table.
pub open spec fn jump_table_for(p: Seq<Instruction>, t: Map<usize, usize>) -> bool {
    &&& forall|i: usize|
        i < p.len() && p[i as int] == Instruction::JumpIfZero ==> #[trigger] t.contains_key(i)
            && is_match_pair(p, i as int, t[i] as int)
    &&& forall|j: usize|
        j < p.len() && p[j as int] == Instruction::JumpUnlessZero ==> #[trigger] t.contains_key(j)
            && is_match_pair(p, t[j] as int, j as int)
    &&& forall|k: usize| #[trigger]
        t.contains_key(k) ==> k < p.len() && (p[k as int] == Instruction::JumpIfZero || p[k as int]
            == Instruction::JumpUnlessZero)
}

/// Builds the jump table for a program, or reports that its brackets
/// cannot all be paired.
///
/// The returned table is symmetric: `T[T[k]] == k` for every key `k`.
pub fn compute_jump_dests(insts: &Vec<Instruction>) -> (r: Option<HashMap<usize, usize>>)
    ensures
        match r {
            Some(t) => {
                &&& balanced(insts@)
                &&& jump_table_for(insts@, t@)
                &&& forall|k: usize| #[trigger]
                    t@.contains_key(k) ==> t@.contains_key(t@[k]) && t@[t@[k]] == k
            },
            None => !balanced(insts@),
        },
{
    let ghost p = insts@;
    let mut jump_dests: HashMap<usize, usize> = HashMap::new();
    let n = insts.len();

    let mut pc: usize = 0;
    while pc < n
        invariant
            p == insts@,
            n == insts@.len(),
            pc <= n,
            forall|i: usize|
                i < pc && p[i as int] == Instruction::JumpIfZero ==> #[trigger] jump_dests@
                    .contains_key(i) && is_match_pair(p, i as int, jump_dests@[i] as int),
            forall|j: usize|
                j < pc && p[j as int] == Instruction::JumpUnlessZero ==> #[trigger] jump_dests@
                    .contains_key(j) && is_match_pair(p, jump_dests@[j] as int, j as int),
            forall|k: usize| #[trigger]
                jump_dests@.contains_key(k) ==> k < pc && (p[k as int] == Instruction::JumpIfZero
                    || p[k as int] == Instruction::JumpUnlessZero),
        decreases n - pc,
    {
        let ghost m0 = jump_dests@;
        match insts[pc] {
            Instruction::JumpIfZero => {
                match find_matching_jump_if_zero(insts, pc) {
                    Some(dest) => {
                        jump_dests.insert(pc, dest);
                    },
                    None => {
                        return None;
                    },
                }
            },
            Instruction::JumpUnlessZero => {
                match find_matching_jump_unless_zero(insts, pc) {
                    Some(dest) => {
                        jump_dests.insert(pc, dest);
                    },
                    None => {
                        return None;
                    },
                }
            },
            _ => (),
        }
        proof {
            assert forall|i: usize|
                i < pc + 1 && p[i as int] == Instruction::JumpIfZero implies #[trigger] jump_dests@
                .contains_key(i) && is_match_pair(p, i as int, jump_dests@[i] as int) by {
                if i < pc {
                    assert(m0.contains_key(i));
                }
            }
            assert forall|j: usize|
                j < pc + 1 && p[j as int] == Instruction::JumpUnlessZero
                implies #[trigger] jump_dests@.contains_key(j) && is_match_pair(
                p,
                jump_dests@[j] as int,
                j as int,
            ) by {
                if j < pc {
                    assert(m0.contains_key(j));
                }
            }
            assert forall|k: usize| #[trigger] jump_dests@.contains_key(k) implies k < pc + 1 && (
            p[k as int] == Instruction::JumpIfZero || p[k as int]
                == Instruction::JumpUnlessZero) by {
                if k != pc {
                    assert(m0.contains_key(k));
                }
            }
        }
        pc = pc + 1;
    }

    proof {
        assert forall|i: int| 0 <= i < p.len() && p[i] == Instruction::JumpIfZero implies exists|
            j: int,
        | is_match_pair(p, i, j) by {
            assert(jump_dests@.contains_key(i as usize));
            assert(is_match_pair(p, i, jump_dests@[i as usize] as int));
        }
        assert forall|j: int|
            0 <= j < p.len() && p[j] == Instruction::JumpUnlessZero implies exists|i: int|
            is_match_pair(p, i, j) by {
            assert(jump_dests@.contains_key(j as usize));
            assert(is_match_pair(p, jump_dests@[j as usize] as int, j));
        }
        assert forall|k: usize| #[trigger] jump_dests@.contains_key(k) implies jump_dests@
            .contains_key(jump_dests@[k]) && jump_dests@[jump_dests@[k]] == k by {
            let d = jump_dests@[k];
            if p[k as int] == Instruction::JumpIfZero {
                assert(is_match_pair(p, k as int, d as int));
                assert(jump_dests@.contains_key(d));
                assert(is_match_pair(p, jump_dests@[d] as int, d as int));
                lemma_match_backward_unique(p, k as int, jump_dests@[d] as int, d as int);
            } else {
                assert(is_match_pair(p, d as int, k as int));
                assert(jump_dests@.contains_key(d));
                assert(is_match_pair(p, d as int, jump_dests@[d] as int));
                lemma_match_forward_unique(p, d as int, k as int, jump_dests@[d] as int);
            }
        }
    }

    Some(jump_dests)
}

} // verus!
