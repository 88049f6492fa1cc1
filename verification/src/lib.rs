//! An optimizing ahead-of-time compiler and profiling interpreter for the
//! eight-symbol tape-machine language: a byte tape, a movable head, and
//! matched conditional jumps forming `while (cell != 0)` loops.
//!
//! The pipeline: source text is lexed to a token list, a jump table pairs
//! every conditional jump with its partner, and the program is then either
//! interpreted (with per-position execution counters and loop profiling) or
//! compiled.  Compilation may first run a partial evaluator over a tape of
//! known-or-unknown cells, then two rewrite passes (counted-loop lowering
//! and scan vectorization), and finally emits x86-64 assembly text or an
//! abstract SSA-style module.

pub mod inst;

pub mod lexer;

pub mod jumps;

pub mod machine;

pub mod interp;

pub mod peval;

pub mod rewrite;

pub mod emit;

pub mod profile;

pub mod ir;

