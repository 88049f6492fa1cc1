//! The code emitter: lowers an instruction list to x86-64 assembly text
//! in AT&T syntax.
//!
//! The head pointer lives in `%r12` and the tape origin in `%r13`, so
//! `SetHeadPos`/`SetCell` can address cells relative to the origin.
//! Conditional jumps compare the byte under the head with zero and
//! branch to paired labels drawn from a monotonic counter and a stack.
//! Each distinct scan step emits, once, a 32-byte-aligned block of eight
//! gather offsets plus a shared byte mask; the scan body gathers eight
//! candidate bytes per iteration and tests them against zero at once.

use vstd::prelude::*;

use crate::inst::{primitives_only, Instruction};
use crate::interp::State;
use crate::jumps::balanced;
use crate::peval::{copy_vec, pe_bounded, pe_finalize, pe_fresh, pe_steps, pe_terminal, pe_view};
use crate::rewrite::{simplify_loops, simplify_loops_spec, vectorize_scans, vectorize_scans_spec};
use std::collections::HashSet;
use vstd::math::abs;
use vstd::string::StringExecFns;

verus! {

broadcast use vstd::std_specs::hash::group_hash_axioms;

pub const FUNC_BEGIN: &'static str = "
	.text
	.def	@feat.00;
	.scl	3;
	.type	0;
	.endef
	.globl	@feat.00
.set @feat.00, 0
	.def	bf_main;
	.scl	2;
	.type	32;
	.endef

	.globl	__ymm@ffffff00ffffff00ffffff00ffffff00ffffff00ffffff00ffffff00ffffff00
	.section	.rdata,\"dr\",discard,__ymm@ffffff00ffffff00ffffff00ffffff00ffffff00ffffff00ffffff00ffffff00
	.p2align	5, 0x0
__ymm@ffffff00ffffff00ffffff00ffffff00ffffff00ffffff00ffffff00ffffff00:
	.byte	0                               # 0x0
	.byte	255                             # 0xff
	.byte	255                             # 0xff
	.byte	255                             # 0xff
	.byte	0                               # 0x0
	.byte	255                             # 0xff
	.byte	255                             # 0xff
	.byte	255                             # 0xff
	.byte	0                               # 0x0
	.byte	255                             # 0xff
	.byte	255                             # 0xff
	.byte	255                             # 0xff
	.byte	0                               # 0x0
	.byte	255                             # 0xff
	.byte	255                             # 0xff
	.byte	255                             # 0xff
	.byte	0                               # 0x0
	.byte	255                             # 0xff
	.byte	255                             # 0xff
	.byte	255                             # 0xff
	.byte	0                               # 0x0
	.byte	255                             # 0xff
	.byte	255                             # 0xff
	.byte	255                             # 0xff
	.byte	0                               # 0x0
	.byte	255                             # 0xff
	.byte	255                             # 0xff
	.byte	255                             # 0xff
	.byte	0                               # 0x0
	.byte	255                             # 0xff
	.byte	255                             # 0xff
	.byte	255                             # 0xff

	.globl	__real@ffffff00
	.section	.rdata,\"dr\",discard,__real@ffffff00
	.p2align	2, 0x0
__real@ffffff00:
	.byte	0                               # 0x0
	.byte	255                             # 0xff
	.byte	255                             # 0xff
	.byte	255                             # 0xff
";

pub const FUNC_PROLOGUE: &'static str = "
	.text
	.globl	bf_main
	.p2align	4, 0x90
bf_main:
.seh_proc bf_main
	pushq	%r12
	.seh_pushreg %r12
	subq	$32, %rsp
	.seh_stackalloc 32
	.seh_endprologue

	movq %rcx, %r12
	movq %rcx, %r13

";

pub const FUNC_END: &'static str = "
	addq	$32, %rsp
	popq	%r12
	retq
	.seh_endproc

	.addrsig
";

pub const READ_CHAR: &'static str = "
	callq getchar
    movb %al, (%r12)
";

pub const WRITE_CHAR: &'static str = "
    movzbl (%r12), %ecx
	callq putchar
";

pub const INCREMENT: &'static str = "
    incb (%r12)
";

pub const DECREMENT: &'static str = "
    decb (%r12)
";

pub const MOVE_RIGHT: &'static str = "
    incq %r12
";

pub const MOVE_LEFT: &'static str = "
    decq %r12
";

pub const ZERO: &'static str = "
    movb $0, (%r12)
";

// The per-instruction fragments below are split around the numbers the
// emitter renders into them (labels, offsets, literal bytes).
pub const CMP_JE_UZ: &'static str = "
	cmpb $0, (%r12)
	je .UZ";

pub const IZ_LABEL: &'static str = "
.IZ";

pub const CMP_JNE_IZ: &'static str = "
	cmpb $0, (%r12)
	jne .IZ";

pub const UZ_LABEL: &'static str = "
.UZ";

pub const LABEL_COLON: &'static str = ":\n";

pub const ADD_LOAD: &'static str = "	movzbl (%r12), %eax\n	addb %al, ";

pub const SUB_LOAD: &'static str = "	movzbl (%r12), %eax\n	subb %al, ";

pub const OFFSET_R12: &'static str = "(%r12)\n";

pub const OUTPUT_MOVL: &'static str = "    movl $";

pub const OUTPUT_PUTCHAR: &'static str = ", %ecx\n	callq putchar\n";

pub const SETHEAD_PRE: &'static str = "   movq %r13, %r12\n   addq $";

pub const SETHEAD_POST: &'static str = ", %r12\n";

pub const SETCELL_PRE: &'static str = "   movb $";

pub const SETCELL_MID: &'static str = ", ";

pub const SETCELL_POST: &'static str = "(%r13)\n";

pub const INDICES_NAME: &'static str = "_ymm@indices";

pub const INDICES_NEG: &'static str = "neg";

pub const GLOBL_PRE: &'static str = "	.globl	";

pub const GLOBL_SECTION: &'static str = "\n	.section	.rdata,\"dr\",discard,";

pub const GLOBL_ALIGN: &'static str = "\n	.p2align	5, 0x0\n";

pub const LONG_PRE: &'static str = "	.long	";

pub const NEWLINE: &'static str = "\n";

pub const SCAN_LABEL_PRE: &'static str = ".SCAN";

pub const SCAN_HDR: &'static str = ":                                # =>This Inner Loop Header: Depth=1\n";

pub const SCAN_POS_PRE: &'static str = "	movq	%r12, %rax\n	vmovdqa	";

pub const SCAN_RIP_YMM0: &'static str = "(%rip), %ymm0\n";

pub const SCAN_VEC_SETUP: &'static str = "	vpxor	%xmm1, %xmm1, %xmm1\n	vpbroadcastd	__real@ffffff00(%rip), %ymm2\n";

pub const SCAN_MOVL_PRE: &'static str = "	movl	$";

pub const SCAN_MOVL_POST: &'static str = ", %edx\n";

pub const SCAN_ALIGN: &'static str = "	.p2align	4, 0x90\n";

pub const SCAN_GATHER: &'static str = "	vpcmpeqd	%ymm3, %ymm3, %ymm3\n	vpxor	%xmm4, %xmm4, %xmm4\n	vpgatherdd	%ymm3, (%rax,%ymm0), %ymm4\n	vpor	%ymm2, %ymm4, %ymm3\n	vpcmpeqb	%ymm1, %ymm3, %ymm3\n";

pub const SCAN_POS_MASK: &'static str = "	vpmovmskb	%ymm3, %r8d\n	tzcntl	%r8d, %r9d\n	shrl	$2, %r9d\n	imull	$";

pub const SCAN_POS_STEP: &'static str = ", %r9d, %r9d\n	addq	%rax, %r9\n	addq	$";

pub const SCAN_POS_LOOP: &'static str = ", %rax\n	movq	%r9, %r12\n	testl	%r8d, %r8d\n	je	";

pub const SCAN_EPILOGUE: &'static str = "\n# %bb.2:\n	vzeroupper\n";

pub const SCAN_NEG_PRE: &'static str = "	movq	%r12, %rax\n	addq	$-";

pub const SCAN_NEG_BIAS: &'static str = ", %rax\n	movq	%rax, %r12\n	vmovdqa	";

pub const SCAN_NEG_MASK: &'static str = "	vpmovmskb	%ymm3, %edx\n	tzcntl	%edx, %r8d\n	shrl	$2, %r8d\n	imull	$";

pub const SCAN_NEG_STEP: &'static str = ", %r8d, %r8d\n	movq	%rax, %r9\n	subq	%r8, %r9\n	addq	$";

pub const SCAN_NEG_LOOP: &'static str = ", %r9\n	addq	$-";

pub const SCAN_NEG_TEST: &'static str = ", %rax\n	testl	%edx, %edx\n	cmovneq	%r9, %rax\n	movq	%rax, %r12\n	je	";

/// The digits of a decimal numeral, one character each.
pub open spec fn dec_digit(d: int) -> Seq<char> {
    if d == 0 {
        "0"@
    } else if d == 1 {
        "1"@
    } else if d == 2 {
        "2"@
    } else if d == 3 {
        "3"@
    } else if d == 4 {
        "4"@
    } else if d == 5 {
        "5"@
    } else if d == 6 {
        "6"@
    } else if d == 7 {
        "7"@
    } else if d == 8 {
        "8"@
    } else {
        "9"@
    }
}

/// The decimal numeral of a nonnegative number.
pub open spec fn dec_nat(n: int) -> Seq<char>
    decreases n,
{
    if n < 10 {
        dec_digit(n)
    } else {
        dec_nat(n / 10) + dec_digit(n % 10)
    }
}

/// The decimal numeral of a number, with a sign when negative.
pub open spec fn dec_int(x: int) -> Seq<char> {
    if x < 0 {
        "-"@ + dec_nat(-x)
    } else {
        dec_nat(x)
    }
}

/// The text of one decimal digit.
fn digit_str(d: u64) -> (r: &'static str)
    requires
        d < 10,
    ensures
        r@ == dec_digit(d as int),
{
    match d {
        0 => "0",
        1 => "1",
        2 => "2",
        3 => "3",
        4 => "4",
        5 => "5",
        6 => "6",
        7 => "7",
        8 => "8",
        _ => "9",
    }
}

/// Appends the decimal numeral of a nonnegative number.
fn push_dec_u64(s: &mut String, x: u64)
    ensures
        final(s)@ == old(s)@ + dec_nat(x as int),
    decreases x,
{
    if x >= 10 {
        push_dec_u64(s, x / 10);
    }
    s.append(digit_str(x % 10));
}

/// Appends the decimal numeral of a number, with a sign when negative.
fn push_dec_i64(s: &mut String, x: i64)
    requires
        x > -0x7fff_ffff_ffff_ffff,
    ensures
        final(s)@ == old(s)@ + dec_int(x as int),
{
    if x < 0 {
        s.append("-");
        push_dec_u64(s, (-x) as u64);
    } else {
        push_dec_u64(s, x as u64);
    }
}

/// The label a jump pair or a scan loop is numbered with.
pub open spec fn label_text(pre: Seq<char>, n: int) -> Seq<char> {
    pre + dec_nat(n)
}

/// The text an opening jump emits, branching forward to `.UZn` and
/// placing `.IZn` for its partner to branch back to.
pub open spec fn asm_jump_if_zero(n: int) -> Seq<char> {
    CMP_JE_UZ@ + dec_nat(n) + IZ_LABEL@ + dec_nat(n) + LABEL_COLON@
}

/// The text a closing jump emits, branching back to `.IZn` and placing
/// `.UZn`.
pub open spec fn asm_jump_unless_zero(n: int) -> Seq<char> {
    CMP_JNE_IZ@ + dec_nat(n) + UZ_LABEL@ + dec_nat(n) + LABEL_COLON@
}

/// The text an `Add(d)` emits: add the byte under the head into the byte
/// at offset `d`.
pub open spec fn asm_add(d: int) -> Seq<char> {
    ADD_LOAD@ + dec_int(d) + OFFSET_R12@
}

/// The text a `Sub(d)` emits.
pub open spec fn asm_sub(d: int) -> Seq<char> {
    SUB_LOAD@ + dec_int(d) + OFFSET_R12@
}

/// The text an `Output(v)` emits: the literal byte to `putchar`.
pub open spec fn asm_output(v: int) -> Seq<char> {
    OUTPUT_MOVL@ + dec_nat(v) + OUTPUT_PUTCHAR@
}

/// The text a `SetHeadPos(p)` emits: head := origin + p.
pub open spec fn asm_sethead(p: int) -> Seq<char> {
    SETHEAD_PRE@ + dec_int(p) + SETHEAD_POST@
}

/// The text a `SetCell(p, v)` emits: byte v to cell origin + p.
pub open spec fn asm_setcell(p: int, v: int) -> Seq<char> {
    SETCELL_PRE@ + dec_nat(v) + SETCELL_MID@ + dec_int(p) + SETCELL_POST@
}

/// The name of the constant block holding the gather offsets for scan
/// step `x`.
pub open spec fn scan_name(x: int) -> Seq<char> {
    INDICES_NAME@ + (if x < 0 {
        INDICES_NEG@ + dec_nat(abs(x) as int)
    } else {
        dec_nat(x)
    })
}

/// The eight gather offsets `0·a … 7·a`, from index `i` up.
pub open spec fn scan_longs(a: int, i: int) -> Seq<char>
    decreases 8 - i,
{
    if i >= 8 {
        Seq::empty()
    } else {
        LONG_PRE@ + dec_nat(i * a) + NEWLINE@ + scan_longs(a, i + 1)
    }
}

/// The eight gather offsets reversed, from index `i` down, for negative
/// steps.
pub open spec fn scan_longs_rev(a: int, i: int) -> Seq<char>
    decreases i + 1,
{
    if i < 0 {
        Seq::empty()
    } else {
        LONG_PRE@ + dec_nat(i * a) + NEWLINE@ + scan_longs_rev(a, i - 1)
    }
}

/// The constant block a scan step emits once: its gather offsets,
/// 32-byte aligned, reversed for negative steps.
pub open spec fn scan_globals(x: int) -> Seq<char> {
    GLOBL_PRE@ + scan_name(x) + GLOBL_SECTION@ + scan_name(x) + GLOBL_ALIGN@ + scan_name(x)
        + LABEL_COLON@ + (if x < 0 {
        scan_longs_rev(abs(x) as int, 7)
    } else {
        scan_longs(abs(x) as int, 0)
    })
}

/// The head of the scan kernel, up to the loop label: bias the window
/// for negative steps, load the gather offsets and the byte mask.
pub open spec fn asm_scan_head(x: int) -> Seq<char> {
    let a = abs(x) as int;
    if x < 0 {
        SCAN_NEG_PRE@ + dec_nat(7 * a) + SCAN_NEG_BIAS@ + scan_name(x) + SCAN_RIP_YMM0@
            + SCAN_VEC_SETUP@ + SCAN_ALIGN@
    } else {
        SCAN_POS_PRE@ + scan_name(x) + SCAN_RIP_YMM0@ + SCAN_VEC_SETUP@ + SCAN_MOVL_PRE@ + dec_nat(
            8 * a,
        ) + SCAN_MOVL_POST@ + SCAN_ALIGN@
    }
}

/// The middle of the scan kernel: the loop label, the eight-byte gather
/// and the lanewise compare against zero.
pub open spec fn asm_scan_mid(x: int, n: int) -> Seq<char> {
    let a = abs(x) as int;
    SCAN_LABEL_PRE@ + dec_nat(n) + SCAN_HDR@ + SCAN_GATHER@ + (if x < 0 {
        SCAN_NEG_MASK@
    } else {
        SCAN_POS_MASK@
    }) + dec_nat(a)
}

/// The tail of the scan kernel: locate the matched lane or advance the
/// window by eight steps and loop.
pub open spec fn asm_scan_tail(x: int, n: int) -> Seq<char> {
    let a = abs(x) as int;
    if x < 0 {
        SCAN_NEG_STEP@ + dec_nat(7 * a) + SCAN_NEG_LOOP@ + dec_nat(8 * a) + SCAN_NEG_TEST@
            + SCAN_LABEL_PRE@ + dec_nat(n) + SCAN_EPILOGUE@
    } else {
        SCAN_POS_STEP@ + dec_nat(8 * a) + SCAN_POS_LOOP@ + SCAN_LABEL_PRE@ + dec_nat(n)
            + SCAN_EPILOGUE@
    }
}

/// The scan kernel for step `x` under label `n`: per iteration, gather
/// eight candidate bytes, mask them, compare against zero lanewise, and
/// either locate the matched lane or advance by eight steps.  Negative
/// steps pre-bias the window so lower addresses are scanned first.
pub open spec fn asm_scan(x: int, n: int) -> Seq<char> {
    asm_scan_head(x) + asm_scan_mid(x, n) + asm_scan_tail(x, n)
}

/// The emitter's running state: the constant blocks emitted so far, the
/// instruction text, the label counter, the stack pairing each opening
/// jump with its closing partner, and the scan steps whose constant
/// blocks already exist.
#[verifier::ext_equal]
pub struct EmitSt {
    pub globals: Seq<char>,
    pub text: Seq<char>,
    pub label_num: int,
    pub stack: Seq<int>,
    pub indices: Set<i32>,
}

/// The emitter's state before any instruction.
pub open spec fn emit_init() -> EmitSt {
    EmitSt {
        globals: Seq::empty(),
        text: Seq::empty(),
        label_num: 0,
        stack: Seq::empty(),
        indices: Set::empty(),
    }
}

/// The emitter's state after one instruction.  A closing jump with no
/// open partner pairs with label 0; callers reject unbalanced programs
/// when the jump table is built.
pub open spec fn emit_step(st: EmitSt, inst: Instruction) -> EmitSt {
    match inst {
        Instruction::MoveRight => EmitSt { text: st.text + MOVE_RIGHT@, ..st },
        Instruction::MoveLeft => EmitSt { text: st.text + MOVE_LEFT@, ..st },
        Instruction::Increment => EmitSt { text: st.text + INCREMENT@, ..st },
        Instruction::Decrement => EmitSt { text: st.text + DECREMENT@, ..st },
        Instruction::Read => EmitSt { text: st.text + READ_CHAR@, ..st },
        Instruction::Write => EmitSt { text: st.text + WRITE_CHAR@, ..st },
        Instruction::JumpIfZero => EmitSt {
            text: st.text + asm_jump_if_zero(st.label_num),
            label_num: st.label_num + 1,
            stack: st.stack.push(st.label_num),
            ..st
        },
        Instruction::JumpUnlessZero => {
            let (l, stk) = if st.stack.len() == 0 {
                (0int, st.stack)
            } else {
                (st.stack.last(), st.stack.drop_last())
            };
            EmitSt { text: st.text + asm_jump_unless_zero(l), stack: stk, ..st }
        },
        Instruction::Zero => EmitSt { text: st.text + ZERO@, ..st },
        Instruction::Add(d) => EmitSt { text: st.text + asm_add(d as int), ..st },
        Instruction::Sub(d) => EmitSt { text: st.text + asm_sub(d as int), ..st },
        Instruction::Scan(x) => EmitSt {
            globals: if st.indices.contains(x) {
                st.globals
            } else {
                st.globals + scan_globals(x as int)
            },
            indices: st.indices.insert(x),
            text: st.text + asm_scan(x as int, st.label_num),
            label_num: st.label_num + 1,
            ..st
        },
        Instruction::Output(v) => EmitSt { text: st.text + asm_output(v as int), ..st },
        Instruction::SetHeadPos(p) => EmitSt { text: st.text + asm_sethead(p as int), ..st },
        Instruction::SetCell(p, v) => EmitSt {
            text: st.text + asm_setcell(p as int, v as int),
            ..st
        },
        Instruction::Nop => st,
    }
}

/// The emitter's state after the instructions from position `i` on.
pub open spec fn emit_from(st: EmitSt, p: Seq<Instruction>, i: int) -> EmitSt
    decreases p.len() - i,
{
    if i < 0 || i >= p.len() {
        st
    } else {
        emit_from(emit_step(st, p[i]), p, i + 1)
    }
}

/// The complete assembly text a program emits: the fixed mask constants,
/// the scan constant blocks, the procedure prologue, the per-instruction
/// text, and the epilogue.
pub open spec fn asm_text_spec(p: Seq<Instruction>) -> Seq<char> {
    let st = emit_from(emit_init(), p, 0);
    FUNC_BEGIN@ + st.globals + FUNC_PROLOGUE@ + st.text + FUNC_END@
}

/// Appends the name of the gather-offset block for scan step `x`.
fn push_scan_name(s: &mut String, x: i32)
    ensures
        final(s)@ == old(s)@ + scan_name(x as int),
{
    s.append(INDICES_NAME);
    if x < 0 {
        s.append(INDICES_NEG);
        let a = -(x as i64);
        push_dec_u64(s, a as u64);
    } else {
        push_dec_u64(s, x as u64);
    }
}

/// Emits the constant block of gather offsets for scan step `x`.
#[verifier::rlimit(100)]
#[verifier::spinoff_prover]
fn emit_scan_consts(globals: &mut String, x: i32, a: i64)
    requires
        a as int == abs(x as int),
    ensures
        final(globals)@ == old(globals)@ + scan_globals(x as int),
{
    let ghost g0 = globals@;
    globals.append(GLOBL_PRE);
    push_scan_name(globals, x);
    globals.append(GLOBL_SECTION);
    push_scan_name(globals, x);
    globals.append(GLOBL_ALIGN);
    push_scan_name(globals, x);
    globals.append(LABEL_COLON);
    proof {
        assert(globals@ =~= g0 + (GLOBL_PRE@ + scan_name(x as int) + GLOBL_SECTION@ + scan_name(
            x as int,
        ) + GLOBL_ALIGN@ + scan_name(x as int) + LABEL_COLON@));
    }
    let ghost mid = globals@;

    if x < 0 {
        let ghost base = globals@;
        let mut j: i64 = 7;
        let mut val: i64 = 7 * a;
        while j >= 0
            invariant
                -1 <= j <= 7,
                0 <= a <= 0x8000_0000,
                val == j * a,
                base + scan_longs_rev(a as int, 7) =~= globals@ + scan_longs_rev(
                    a as int,
                    j as int,
                ),
            decreases j + 1,
        {
            proof {
                assert(0 <= j * a <= 7 * a) by (nonlinear_arith)
                    requires
                        0 <= j <= 7,
                        0 <= a,
                ;
            }
            globals.append(LONG_PRE);
            push_dec_u64(globals, val as u64);
            globals.append(NEWLINE);
            proof {
                assert((j - 1) * a == j * a - a) by (nonlinear_arith);
            }
            j = j - 1;
            val = val - a;
        }
        proof {
            assert(scan_longs_rev(a as int, -1) =~= Seq::<char>::empty());
            assert(globals@ =~= base + scan_longs_rev(a as int, 7));
            assert(globals@ =~= g0 + scan_globals(x as int));
        }
    } else {
        let ghost base = globals@;
        let mut j: i64 = 0;
        let mut val: i64 = 0;
        while j < 8
            invariant
                0 <= j <= 8,
                0 <= a <= 0x8000_0000,
                val == j * a,
                base + scan_longs(a as int, 0) =~= globals@ + scan_longs(a as int, j as int),
            decreases 8 - j,
        {
            proof {
                assert(0 <= j * a <= 7 * a) by (nonlinear_arith)
                    requires
                        0 <= j <= 7,
                        0 <= a,
                ;
            }
            globals.append(LONG_PRE);
            push_dec_u64(globals, val as u64);
            globals.append(NEWLINE);
            proof {
                assert((j + 1) * a == j * a + a) by (nonlinear_arith);
            }
            j = j + 1;
            val = val + a;
        }
        proof {
            assert(scan_longs(a as int, 8) =~= Seq::<char>::empty());
            assert(globals@ =~= base + scan_longs(a as int, 0));
            assert(globals@ =~= g0 + scan_globals(x as int));
        }
    }
}

/// Emits the scan kernel itself for step `x` under label `n`.
#[verifier::rlimit(100)]
#[verifier::spinoff_prover]
fn emit_scan_kernel(text: &mut String, x: i32, a: i64, new_label: u64)
    requires
        a as int == abs(x as int),
    ensures
        final(text)@ == old(text)@ + asm_scan(x as int, new_label as int),
{
    let ghost t0 = text@;
    let bytes_per_iter: i64 = 8 * a;
    let start_offset: i64 = 7 * a;

    if x >= 0 {
        text.append(SCAN_POS_PRE);
        push_scan_name(text, x);
        text.append(SCAN_RIP_YMM0);
        text.append(SCAN_VEC_SETUP);
        text.append(SCAN_MOVL_PRE);
        push_dec_u64(text, bytes_per_iter as u64);
        text.append(SCAN_MOVL_POST);
        text.append(SCAN_ALIGN);
    } else {
        text.append(SCAN_NEG_PRE);
        push_dec_u64(text, start_offset as u64);
        text.append(SCAN_NEG_BIAS);
        push_scan_name(text, x);
        text.append(SCAN_RIP_YMM0);
        text.append(SCAN_VEC_SETUP);
        text.append(SCAN_ALIGN);
    }
    proof {
        assert(text@ =~= t0 + asm_scan_head(x as int));
    }
    let ghost mid = text@;

    text.append(SCAN_LABEL_PRE);
    push_dec_u64(text, new_label);
    text.append(SCAN_HDR);
    text.append(SCAN_GATHER);
    if x >= 0 {
        text.append(SCAN_POS_MASK);
    } else {
        text.append(SCAN_NEG_MASK);
    }
    push_dec_u64(text, a as u64);
    proof {
        assert(text@ =~= mid + asm_scan_mid(x as int, new_label as int));
    }
    let ghost mid2 = text@;

    if x >= 0 {
        text.append(SCAN_POS_STEP);
        push_dec_u64(text, bytes_per_iter as u64);
        text.append(SCAN_POS_LOOP);
        text.append(SCAN_LABEL_PRE);
        push_dec_u64(text, new_label);
        text.append(SCAN_EPILOGUE);
    } else {
        text.append(SCAN_NEG_STEP);
        push_dec_u64(text, start_offset as u64);
        text.append(SCAN_NEG_LOOP);
        push_dec_u64(text, bytes_per_iter as u64);
        text.append(SCAN_NEG_TEST);
        text.append(SCAN_LABEL_PRE);
        push_dec_u64(text, new_label);
        text.append(SCAN_EPILOGUE);
    }
    proof {
        assert(text@ =~= mid2 + asm_scan_tail(x as int, new_label as int));
        assert(text@ =~= t0 + asm_scan(x as int, new_label as int));
    }
}

/// Emits one `Scan(x)` under label `n`: its constant block the first
/// time this step is seen, then the kernel itself.
fn emit_scan(
    globals: &mut String,
    text: &mut String,
    generated_indices: &mut HashSet<i32>,
    x: i32,
    new_label: u64,
)
    ensures
        final(text)@ == old(text)@ + asm_scan(x as int, new_label as int),
        final(globals)@ == (if old(generated_indices)@.contains(x) {
            old(globals)@
        } else {
            old(globals)@ + scan_globals(x as int)
        }),
        final(generated_indices)@ == old(generated_indices)@.insert(x),
{
    let ghost idx0 = generated_indices@;
    let a: i64 = if x < 0 {
        -(x as i64)
    } else {
        x as i64
    };
    proof {
        assert(a as int == abs(x as int));
    }

    if !generated_indices.contains(&x) {
        emit_scan_consts(globals, x, a);
        generated_indices.insert(x);
    }
    proof {
        assert(generated_indices@ =~= idx0.insert(x));
    }

    emit_scan_kernel(text, x, a, new_label);
}

/// Renders the per-instruction assembly text of a whole program.
#[verifier::rlimit(100)]
#[verifier::spinoff_prover]
fn render_asm(input: &Vec<Instruction>) -> (r: String)
    ensures
        r@ == asm_text_spec(input@),
{
    let ghost p = input@;
    let mut globals = String::new();
    let mut text = String::new();
    let mut label_num: u64 = 0;
    let mut label_stack: Vec<u64> = Vec::new();
    let mut generated_indices: HashSet<i32> = HashSet::new();

    let n = input.len();
    let mut i: usize = 0;

    proof {
        assert(label_stack@.map_values(|l: u64| l as int) =~= Seq::<int>::empty());
    }

    while i < n
        invariant
            n == input@.len(),
            p == input@,
            i <= n,
            label_num as int <= i as int,
            emit_from(emit_init(), p, 0) == emit_from(
                EmitSt {
                    globals: globals@,
                    text: text@,
                    label_num: label_num as int,
                    stack: label_stack@.map_values(|l: u64| l as int),
                    indices: generated_indices@,
                },
                p,
                i as int,
            ),
        decreases n - i,
    {
        let ghost st = EmitSt {
            globals: globals@,
            text: text@,
            label_num: label_num as int,
            stack: label_stack@.map_values(|l: u64| l as int),
            indices: generated_indices@,
        };

        match input[i] {
            Instruction::MoveRight => text.append(MOVE_RIGHT),
            Instruction::MoveLeft => text.append(MOVE_LEFT),
            Instruction::Increment => text.append(INCREMENT),
            Instruction::Decrement => text.append(DECREMENT),
            Instruction::Read => text.append(READ_CHAR),
            Instruction::Write => text.append(WRITE_CHAR),
            Instruction::JumpIfZero => {
                let new_label = label_num;
                label_num = label_num + 1;
                label_stack.push(new_label);

                text.append(CMP_JE_UZ);
                push_dec_u64(&mut text, new_label);
                text.append(IZ_LABEL);
                push_dec_u64(&mut text, new_label);
                text.append(LABEL_COLON);
                proof {
                    assert(label_stack@.map_values(|l: u64| l as int) =~= st.stack.push(
                        new_label as int,
                    ));
                }
            },
            Instruction::JumpUnlessZero => {
                let l: u64 = match label_stack.pop() {
                    Some(l) => l,
                    None => 0,
                };

                text.append(CMP_JNE_IZ);
                push_dec_u64(&mut text, l);
                text.append(UZ_LABEL);
                push_dec_u64(&mut text, l);
                text.append(LABEL_COLON);
                proof {
                    if st.stack.len() == 0 {
                        assert(label_stack@.map_values(|q: u64| q as int) =~= st.stack);
                    } else {
                        assert(label_stack@.map_values(|q: u64| q as int) =~= st.stack.drop_last());
                        assert(l as int == st.stack.last());
                    }
                }
            },
            Instruction::Zero => text.append(ZERO),
            Instruction::Add(offset) => {
                text.append(ADD_LOAD);
                push_dec_i64(&mut text, offset as i64);
                text.append(OFFSET_R12);
            },
            Instruction::Sub(offset) => {
                text.append(SUB_LOAD);
                push_dec_i64(&mut text, offset as i64);
                text.append(OFFSET_R12);
            },
            Instruction::Scan(x) => {
                let new_label = label_num;
                label_num = label_num + 1;
                emit_scan(&mut globals, &mut text, &mut generated_indices, x, new_label);
            },
            Instruction::Output(v) => {
                text.append(OUTPUT_MOVL);
                push_dec_u64(&mut text, v as u64);
                text.append(OUTPUT_PUTCHAR);
            },
            Instruction::SetHeadPos(pos) => {
                text.append(SETHEAD_PRE);
                push_dec_i64(&mut text, pos as i64);
                text.append(SETHEAD_POST);
            },
            Instruction::SetCell(pos, v) => {
                text.append(SETCELL_PRE);
                push_dec_u64(&mut text, v as u64);
                text.append(SETCELL_MID);
                push_dec_i64(&mut text, pos as i64);
                text.append(SETCELL_POST);
            },
            Instruction::Nop => (),
        }

        proof {
            let st2 = EmitSt {
                globals: globals@,
                text: text@,
                label_num: label_num as int,
                stack: label_stack@.map_values(|l: u64| l as int),
                indices: generated_indices@,
            };
            assert(st2 =~= emit_step(st, p[i as int]));
        }
        i = i + 1;
    }

    let mut out = String::new();
    out.append(FUNC_BEGIN);
    out.append(globals.as_str());
    out.append(FUNC_PROLOGUE);
    out.append(text.as_str());
    out.append(FUNC_END);
    out
}

/// The enabled rewrite passes, applied in order: counted-loop lowering,
/// then scan vectorization.
pub open spec fn rewrite_pipeline(p: Seq<Instruction>, do_loops: bool, do_scans: bool) -> Seq<
    Instruction,
> {
    let p1 = if do_loops {
        simplify_loops_spec(p)
    } else {
        p
    };
    if do_scans {
        vectorize_scans_spec(p1)
    } else {
        p1
    }
}

/// Runs the partial evaluator over a program as a standalone pass: a
/// fresh one-run state evaluates the program for at most `fuel` steps
/// and the program is replaced by the residual.
pub fn partial_eval(program: &mut Vec<Instruction>, fuel: u64)
    requires
        balanced(old(program)@),
        primitives_only(old(program)@),
    ensures
        (forall|n: nat|
            n <= fuel ==> pe_bounded(#[trigger] pe_steps(old(program)@, pe_fresh(), n)))
            ==> exists|n: nat|
            {
                let t = #[trigger] pe_steps(old(program)@, pe_fresh(), n);
                &&& n <= fuel
                &&& (n < fuel ==> pe_terminal(old(program)@, t))
                &&& final(program)@ == pe_finalize(old(program)@, t)
            },
{
    let prog_copy = copy_vec(program);
    let mut state = State::new(prog_copy);
    proof {
        assert(pe_view(state, Seq::empty()) =~= pe_fresh());
    }
    let insts = state.partial_eval(fuel);
    *program = insts;
}

/// Compiles a program to assembly text: optionally partial-evaluate,
/// optionally run the two rewrite passes, then emit.
///
/// The returned text is exactly the emission of the transformed program
/// left in `input`.  Without partial evaluation the transformed program
/// is the rewrite pipeline applied to the input; with it, the rewrites
/// run over the residual program (provided the evaluation stayed within
/// 32-bit offsets and the residual is addressable with them).
pub fn compile_to_asm(
    input: &mut Vec<Instruction>,
    do_simplify_loops: bool,
    do_simplify_scans: bool,
    do_partial_eval: bool,
    fuel: u64,
) -> (r: String)
    requires
        old(input)@.len() <= 0x7fff_ffff,
        do_partial_eval ==> balanced(old(input)@) && primitives_only(old(input)@),
    ensures
        r@ == asm_text_spec(final(input)@),
        !do_partial_eval ==> final(input)@ == rewrite_pipeline(
            old(input)@,
            do_simplify_loops,
            do_simplify_scans,
        ),
        do_partial_eval ==> ((forall|n: nat|
            n <= fuel ==> pe_bounded(#[trigger] pe_steps(old(input)@, pe_fresh(), n))) ==> exists|
            n: nat,
        |
            {
                let t = #[trigger] pe_steps(old(input)@, pe_fresh(), n);
                &&& n <= fuel
                &&& (n < fuel ==> pe_terminal(old(input)@, t))
                &&& (pe_finalize(old(input)@, t).len() <= 0x7fff_ffff ==> final(input)@
                    == rewrite_pipeline(
                    pe_finalize(old(input)@, t),
                    do_simplify_loops,
                    do_simplify_scans,
                ))
            }),
{
    if do_partial_eval {
        partial_eval(input, fuel);
    }

    if input.len() <= 0x7fff_ffff {
        if do_simplify_loops {
            simplify_loops(input);
        }

        if do_simplify_scans {
            vectorize_scans(input);
        }
    }

    render_asm(input)
}

} // verus!
