//! The lexer: maps each source character to one of the eight primitive
//! tokens, silently discarding every other character (comments are
//! implicit).

use vstd::prelude::*;

use crate::inst::{is_primitive, primitives_only, Instruction};

verus! {

/// The token a source character lexes to, if any.
pub open spec fn char_to_inst(c: char) -> Option<Instruction> {
    if c == '>' {
        Some(Instruction::MoveRight)
    } else if c == '<' {
        Some(Instruction::MoveLeft)
    } else if c == '+' {
        Some(Instruction::Increment)
    } else if c == '-' {
        Some(Instruction::Decrement)
    } else if c == '.' {
        Some(Instruction::Write)
    } else if c == ',' {
        Some(Instruction::Read)
    } else if c == '[' {
        Some(Instruction::JumpIfZero)
    } else if c == ']' {
        Some(Instruction::JumpUnlessZero)
    } else {
        None
    }
}

/// Whether a source character denotes an opcode at all.
pub open spec fn is_opcode_char(c: char) -> bool {
    char_to_inst(c) is Some
}

/// The token sequence a source text lexes to: each opcode character in
/// order, every other character dropped.
pub open spec fn spec_lex(s: Seq<char>) -> Seq<Instruction>
    decreases s.len(),
{
    if s.len() == 0 {
        Seq::empty()
    } else {
        spec_lex(s.drop_last()) + (match char_to_inst(s.last()) {
            Some(i) => seq![i],
            None => Seq::empty(),
        })
    }
}

/// The lexer only ever produces the eight primitive tokens.
pub proof fn lemma_lex_produces_primitives(s: Seq<char>)
    ensures
        primitives_only(spec_lex(s)),
    decreases s.len(),
{
    if s.len() > 0 {
        lemma_lex_produces_primitives(s.drop_last());
        let tail = spec_lex(s.drop_last());
        assert forall|i: int| 0 <= i < spec_lex(s).len() implies is_primitive(
            #[trigger] spec_lex(s)[i],
        ) by {
            if i < tail.len() {
                assert(spec_lex(s)[i] == tail[i]);
            }
        }
    }
}

/// Lexes a source text into its token sequence.
pub fn lex(program: &str) -> (insts: Vec<Instruction>)
    ensures
        insts@ == spec_lex(program@),
        primitives_only(insts@),
{
    let mut insts: Vec<Instruction> = Vec::new();

    for c in it: program.chars()
        invariant
            it.seq() == program@,
            insts@ == spec_lex(it.seq().take(it.index() as int)),
    {
        match c {
            '>' => insts.push(Instruction::MoveRight),
            '<' => insts.push(Instruction::MoveLeft),
            '+' => insts.push(Instruction::Increment),
            '-' => insts.push(Instruction::Decrement),
            '.' => insts.push(Instruction::Write),
            ',' => insts.push(Instruction::Read),
            '[' => insts.push(Instruction::JumpIfZero),
            ']' => insts.push(Instruction::JumpUnlessZero),
            _ => (),
        }
        proof {
            let s = program@;
            let k = it.index() as int;
            assert(s.take(k + 1).drop_last() =~= s.take(k));
            assert(s.take(k + 1).last() == s[k]);
        }
    }
    proof {
        assert(program@.take(program@.len() as int) =~= program@);
        lemma_lex_produces_primitives(program@);
    }
    insts
}

/// The lexer is information-preserving on opcodes: removing all non-opcode
/// characters from the source before lexing yields exactly the same token
/// sequence as lexing the source directly.
pub proof fn lemma_lex_drops_only_comments(s: Seq<char>)
    ensures
        spec_lex(s.filter(|c: char| is_opcode_char(c))) == spec_lex(s),
    decreases s.len(),
{
    reveal(Seq::filter);
    let pred = |c: char| is_opcode_char(c);
    if s.len() == 0 {
        assert(s.filter(pred) =~= s);
    } else {
        let t = s.drop_last();
        let c = s.last();
        lemma_lex_drops_only_comments(t);
        if pred(c) {
            assert(s.filter(pred) == t.filter(pred).push(c));
            assert(t.filter(pred).push(c).drop_last() =~= t.filter(pred));
            assert(spec_lex(s.filter(pred)) == spec_lex(t.filter(pred)) + seq![
                char_to_inst(c)->Some_0,
            ]);
        } else {
            assert(s.filter(pred) == t.filter(pred));
            assert(spec_lex(s) =~= spec_lex(t));
        }
    }
}

} // verus!
