use vstd::prelude::*;
use vstd::std_specs::iter::IteratorSpec;
use vstd::string::StrSliceExecFns;
use vstd::string::StringExecFns;
use crate::ir::{Command, Direction, Node, OutputType, nodes_of};
use crate::text::{
    decimal, last_index_of, pad_right, push_decimal, push_pad_right, push_signed, signed_decimal,
};

verus! {

broadcast use vstd::string::group_string_axioms;

/// The number of bytes of the tape that a compiled program allocates.
pub const INIT_TAPE_SIZE: usize = 0x200000;

/// How far from the start of its tape a compiled program's pointer begins.
pub const INIT_POINTER_LOC: usize = 0x4000;

/// The text of an offset before a parenthesised register: nothing for 0.
pub open spec fn offset_text(offset: isize) -> Seq<char> {
    if offset == 0 {
        Seq::empty()
    } else {
        signed_decimal(offset as int)
    }
}

/// Appends the text of an offset before a parenthesised register.
fn push_offset(out: &mut String, offset: isize)
    ensures
        final(out)@ == old(out)@ + offset_text(offset),
{
    if offset != 0 {
        push_signed(out, offset);
    } else {
        assert(out@ =~= old(out)@ + offset_text(offset));
    }
}

/// The assembly text before the program's code: the scan masks, and the
/// prologue that allocates the tape and sets the pointer.
#[verifier::opaque]
pub open spec fn header_text(
    acc: Seq<char>,
    ptr_reg: Seq<char>,
    full_byte_reg: Seq<char>,
) -> Seq<char> {
    acc
        + "\n"@
        + ".section .data\n\n"@
        + ".align 32\n"@
        + "mask_skip2:\n"@
        + "  .byte 0x00, 0xFF, 0x00, 0xFF, 0x00, 0xFF, 0x00, 0xFF, 0x00, 0xFF, 0x00, 0xFF, 0x00, 0xFF, 0x00, 0xFF, 0x00, 0xFF, 0x00, 0xFF, 0x00, 0xFF, 0x00, 0xFF, 0x00, 0xFF, 0x00, 0xFF, 0x00, 0xFF, 0x00, 0xFF\n"@
        + "mask_skip2_reverse:\n"@
        + "  .byte 0xFF, 0x00, 0xFF, 0x00, 0xFF, 0x00, 0xFF, 0x00, 0xFF, 0x00, 0xFF, 0x00, 0xFF, 0x00, 0xFF, 0x00, 0xFF, 0x00, 0xFF, 0x00, 0xFF, 0x00, 0xFF, 0x00, 0xFF, 0x00, 0xFF, 0x00, 0xFF, 0x00, 0xFF, 0x00\n"@
        + "mask_skip4:\n"@
        + "  .byte 0x00, 0xFF, 0xFF, 0xFF, 0x00, 0xFF, 0xFF, 0xFF, 0x00, 0xFF, 0xFF, 0xFF, 0x00, 0xFF, 0xFF, 0xFF, 0x00, 0xFF, 0xFF, 0xFF, 0x00, 0xFF, 0xFF, 0xFF, 0x00, 0xFF, 0xFF, 0xFF, 0x00, 0xFF, 0xFF, 0xFF\n"@
        + "mask_skip4_reverse:\n"@
        + "  .byte 0xFF, 0xFF, 0xFF, 0x00, 0xFF, 0xFF, 0xFF, 0x00, 0xFF, 0xFF, 0xFF, 0x00, 0xFF, 0xFF, 0xFF, 0x00, 0xFF, 0xFF, 0xFF, 0x00, 0xFF, 0xFF, 0xFF, 0x00, 0xFF, 0xFF, 0xFF, 0x00, 0xFF, 0xFF, 0xFF, 0x00\n\n"@
        + ".section .text\n\n"@
        + ".globl main\n\n"@
        + "main:\n"@
        + "    pushq %rbp\n"@
        + "    movq  %rsp, %rbp\n"@
        + "    pushq "@
        + ptr_reg
        + "\n"@
        + "    pushq "@
        + full_byte_reg
        + "\n\n"@
        + "    movq  $"@
        + decimal(INIT_TAPE_SIZE as nat)
        + ", %rdi\n"@
        + "    call malloc\n\n"@
        + "    pushq %rax            # Save tape address to the stack\n"@
        + "    movq  %rax,      "@
        + ptr_reg
        + " # Move tape address into callee saved register\n"@
        + "    addq  $"@
        + decimal(INIT_POINTER_LOC as nat)
        + ", "@
        + ptr_reg
        + " # Move the pointer to the middle of the tape\n\n"@
        + "    # Begin program code\n"@
}

/// The assembly text after the program's code: the epilogue.
#[verifier::opaque]
pub open spec fn footer_text(
    acc: Seq<char>,
    ptr_reg: Seq<char>,
    full_byte_reg: Seq<char>,
) -> Seq<char> {
    acc
        + "    # At bottom of main\n"@
        + "    \n"@
        + "    popq %rax\n"@
        + "    popq "@
        + full_byte_reg
        + "\n"@
        + "    popq "@
        + ptr_reg
        + "\n"@
        + "    popq %rbp\n\n"@
        + "    # Return to _start\n"@
        + "    ret\n"@
}

/// Appends the scan masks and the prologue.
pub fn append_assembly_header(out_string: &mut String, ptr_reg: &str, full_byte_reg: &str)
    ensures
        final(out_string)@ == header_text(old(out_string)@, ptr_reg@, full_byte_reg@),
{
    proof {
        reveal(header_text);
    }
    out_string.append("\n");
    out_string.append(".section .data\n\n");
    out_string.append(".align 32\n");
    out_string.append("mask_skip2:\n");
    out_string.append("  .byte 0x00, 0xFF, 0x00, 0xFF, 0x00, 0xFF, 0x00, 0xFF, 0x00, 0xFF, 0x00, 0xFF, 0x00, 0xFF, 0x00, 0xFF, 0x00, 0xFF, 0x00, 0xFF, 0x00, 0xFF, 0x00, 0xFF, 0x00, 0xFF, 0x00, 0xFF, 0x00, 0xFF, 0x00, 0xFF\n");
    out_string.append("mask_skip2_reverse:\n");
    out_string.append("  .byte 0xFF, 0x00, 0xFF, 0x00, 0xFF, 0x00, 0xFF, 0x00, 0xFF, 0x00, 0xFF, 0x00, 0xFF, 0x00, 0xFF, 0x00, 0xFF, 0x00, 0xFF, 0x00, 0xFF, 0x00, 0xFF, 0x00, 0xFF, 0x00, 0xFF, 0x00, 0xFF, 0x00, 0xFF, 0x00\n");
    out_string.append("mask_skip4:\n");
    out_string.append("  .byte 0x00, 0xFF, 0xFF, 0xFF, 0x00, 0xFF, 0xFF, 0xFF, 0x00, 0xFF, 0xFF, 0xFF, 0x00, 0xFF, 0xFF, 0xFF, 0x00, 0xFF, 0xFF, 0xFF, 0x00, 0xFF, 0xFF, 0xFF, 0x00, 0xFF, 0xFF, 0xFF, 0x00, 0xFF, 0xFF, 0xFF\n");
    out_string.append("mask_skip4_reverse:\n");
    out_string.append("  .byte 0xFF, 0xFF, 0xFF, 0x00, 0xFF, 0xFF, 0xFF, 0x00, 0xFF, 0xFF, 0xFF, 0x00, 0xFF, 0xFF, 0xFF, 0x00, 0xFF, 0xFF, 0xFF, 0x00, 0xFF, 0xFF, 0xFF, 0x00, 0xFF, 0xFF, 0xFF, 0x00, 0xFF, 0xFF, 0xFF, 0x00\n\n");
    out_string.append(".section .text\n\n");
    out_string.append(".globl main\n\n");
    out_string.append("main:\n");
    out_string.append("    pushq %rbp\n");
    out_string.append("    movq  %rsp, %rbp\n");
    out_string.append("    pushq ");
    out_string.append(ptr_reg);
    out_string.append("\n");
    out_string.append("    pushq ");
    out_string.append(full_byte_reg);
    out_string.append("\n\n");
    out_string.append("    movq  $");
    push_decimal(out_string, INIT_TAPE_SIZE as u128);
    out_string.append(", %rdi\n");
    out_string.append("    call malloc\n\n");
    out_string.append("    pushq %rax            # Save tape address to the stack\n");
    out_string.append("    movq  %rax,      ");
    out_string.append(ptr_reg);
    out_string.append(" # Move tape address into callee saved register\n");
    out_string.append("    addq  $");
    push_decimal(out_string, INIT_POINTER_LOC as u128);
    out_string.append(", ");
    out_string.append(ptr_reg);
    out_string.append(" # Move the pointer to the middle of the tape\n\n");
    out_string.append("    # Begin program code\n");
}

/// Appends the epilogue.
pub fn append_assembly_footer(out_string: &mut String, ptr_reg: &str, full_byte_reg: &str)
    ensures
        final(out_string)@ == footer_text(old(out_string)@, ptr_reg@, full_byte_reg@),
{
    proof {
        reveal(footer_text);
    }
    out_string.append("    # At bottom of main\n");
    out_string.append("    \n");
    out_string.append("    popq %rax\n");
    out_string.append("    popq ");
    out_string.append(full_byte_reg);
    out_string.append("\n");
    out_string.append("    popq ");
    out_string.append(ptr_reg);
    out_string.append("\n");
    out_string.append("    popq %rbp\n\n");
    out_string.append("    # Return to _start\n");
    out_string.append("    ret\n");
}

/// The text of a pointer move: a comment, the instruction for a move by one
/// or the instruction with the amount, and an empty line.
#[verifier::opaque]
pub open spec fn pointer_op_text(
    acc: Seq<char>,
    amount: usize,
    single_op: Seq<char>,
    multi_op: Seq<char>,
    comment: Seq<char>,
) -> Seq<char> {
    let start = acc + "    # "@ + comment + "\n"@;
    let moved = if amount == 1 {
        start + "    "@ + single_op + " %r12\n"@
    } else {
        start + "    "@ + multi_op + " $"@ + decimal(amount as nat) + ", %r12\n"@
    };
    moved + "\n"@
}

/// Appends the text of a pointer move.
fn append_pointer_op(
    out: &mut String,
    amount: usize,
    single_op: &str,
    multi_op: &str,
    comment: &str,
)
    ensures
        final(out)@ == pointer_op_text(old(out)@, amount, single_op@, multi_op@, comment@),
{
    proof {
        reveal(pointer_op_text);
    }
    out.append("    # ");
    out.append(comment);
    out.append("\n");
    if amount == 1 {
        out.append("    ");
        out.append(single_op);
        out.append(" %r12\n");
    } else {
        out.append("    ");
        out.append(multi_op);
        out.append(" $");
        push_decimal(out, amount as u128);
        out.append(", %r12\n");
    }
    out.append("\n");
}

/// The text of an addition to a cell: a comment, the load of the cell, the
/// instruction for an amount of one or the instruction with the amount, the
/// store, and an empty line.
#[verifier::opaque]
pub open spec fn data_op_text(
    acc: Seq<char>,
    offset: isize,
    amount: u8,
    single_op: Seq<char>,
    multi_op: Seq<char>,
    comment: Seq<char>,
) -> Seq<char> {
    let start = acc
        + "    # "@
        + comment
        + "\n"@
        + "    movb "@
        + offset_text(offset)
        + "(%r12), %r13b\n"@;
    let changed = if amount == 1 {
        start + "    "@ + single_op + " %r13b\n"@
    } else {
        start + "    "@ + multi_op + " $"@ + decimal(amount as nat) + ", %r13b\n"@
    };
    changed + "    movb %r13b, "@ + offset_text(offset) + "(%r12)\n\n"@
}

/// Appends the text of an addition to a cell.
fn append_data_op(
    out: &mut String,
    offset: isize,
    amount: u8,
    single_op: &str,
    multi_op: &str,
    comment: &str,
)
    ensures
        final(out)@ == data_op_text(old(out)@, offset, amount, single_op@, multi_op@, comment@),
{
    proof {
        reveal(data_op_text);
    }
    out.append("    # ");
    out.append(comment);
    out.append("\n");
    out.append("    movb ");
    push_offset(out, offset);
    out.append("(%r12), %r13b\n");
    if amount == 1 {
        out.append("    ");
        out.append(single_op);
        out.append(" %r13b\n");
    } else {
        out.append("    ");
        out.append(multi_op);
        out.append(" $");
        push_decimal(out, amount as u128);
        out.append(", %r13b\n");
    }
    out.append("    movb %r13b, ");
    push_offset(out, offset);
    out.append("(%r12)\n\n");
}

/// The store instruction of a set node, before its comment.
pub open spec fn set_instruction(offset: isize, value: u8) -> Seq<char> {
    Seq::<char>::empty()
        + "    movb $"@
        + decimal(value as nat)
        + ", "@
        + offset_text(offset)
        + "(%r12)"@
}

/// The text of a store: the instruction, padded to 24 characters, and a
/// comment that names the value.
#[verifier::opaque]
pub open spec fn set_text(acc: Seq<char>, offset: isize, value: u8) -> Seq<char> {
    acc + pad_right(set_instruction(offset, value), 24) + " # ="@ + decimal(value as nat) + "\n"@
}

/// Appends the text of a store.
fn append_set(out: &mut String, offset: isize, value: u8)
    ensures
        final(out)@ == set_text(old(out)@, offset, value),
{
    proof {
        reveal(set_text);
    }
    let mut line = String::new();
    line.append("    movb $");
    push_decimal(&mut line, value as u128);
    line.append(", ");
    push_offset(&mut line, offset);
    line.append("(%r12)");
    assert(line@ =~= set_instruction(offset, value));
    push_pad_right(out, line.as_str(), 24);
    out.append(" # =");
    push_decimal(out, value as u128);
    out.append("\n");
}

/// The text of a vectorised scan to the right with a stride of 1, 2 or 4: 32
/// bytes are loaded at a time, the lanes off the stride are masked out, and the
/// lowest lane that holds 0 gives the new pointer.
#[verifier::opaque]
pub open spec fn scan_right_text(acc: Seq<char>, id: usize, skip_amount: usize) -> Seq<char> {
    if skip_amount == 1 {
        acc
            + "    # [>]\n"@
            + "    xorq %rsi, %rsi\n"@
            + "    vpxor %ymm1, %ymm1, %ymm1\n"@
            + "vector"@
            + decimal(id as nat)
            + "_loop_start:\n"@
            + "    vmovdqu (%r12, %rsi), %ymm0\n"@
            + "    vpcmpeqb %ymm1, %ymm0, %ymm2\n"@
            + "    vpmovmskb %ymm2, %eax\n"@
            + "    testl %eax, %eax\n"@
            + "    jnz vector"@
            + decimal(id as nat)
            + "_found_zero\n"@
            + "    addq $32, %rsi\n"@
            + "    jmp vector"@
            + decimal(id as nat)
            + "_loop_start\n"@
            + "vector"@
            + decimal(id as nat)
            + "_found_zero:\n"@
            + "    bsfl %eax, %eax\n"@
            + "    addq %rax, %rsi\n"@
            + "    addq %rsi, %r12\n\n"@
    } else if skip_amount == 2 {
        acc
            + "    # [>>]\n"@
            + "    vmovdqa mask_skip2(%rip), %ymm3\n"@
            + "    xorq %rsi, %rsi\n"@
            + "    vpxor %ymm1, %ymm1, %ymm1\n"@
            + "vector"@
            + decimal(id as nat)
            + "_loop_start:\n"@
            + "    vmovdqu (%r12, %rsi), %ymm0\n"@
            + "    vpor %ymm3, %ymm0, %ymm0\n"@
            + "    vpcmpeqb %ymm1, %ymm0, %ymm2\n"@
            + "    vpmovmskb %ymm2, %eax\n"@
            + "    testl %eax, %eax\n"@
            + "    jnz vector"@
            + decimal(id as nat)
            + "_found_zero\n"@
            + "    addq $32, %rsi\n"@
            + "    jmp vector"@
            + decimal(id as nat)
            + "_loop_start\n"@
            + "vector"@
            + decimal(id as nat)
            + "_found_zero:\n"@
            + "    bsfl %eax, %eax\n"@
            + "    addq %rax, %rsi\n"@
            + "    addq %rsi, %r12\n\n"@
    } else {
        acc
            + "    # [>>>>]\n"@
            + "    vmovdqa mask_skip4(%rip), %ymm3\n"@
            + "    xorq %rsi, %rsi\n"@
            + "    vpxor %ymm1, %ymm1, %ymm1\n"@
            + "vector"@
            + decimal(id as nat)
            + "_loop_start:\n"@
            + "    vmovdqu (%r12, %rsi), %ymm0\n"@
            + "    vpor %ymm3, %ymm0, %ymm0\n"@
            + "    vpcmpeqb %ymm1, %ymm0, %ymm2\n"@
            + "    vpmovmskb %ymm2, %eax\n"@
            + "    testl %eax, %eax\n"@
            + "    jnz vector"@
            + decimal(id as nat)
            + "_found_zero\n"@
            + "    addq $32, %rsi\n"@
            + "    jmp vector"@
            + decimal(id as nat)
            + "_loop_start\n"@
            + "vector"@
            + decimal(id as nat)
            + "_found_zero:\n"@
            + "    bsfl %eax, %eax\n"@
            + "    addq %rax, %rsi\n"@
            + "    addq %rsi, %r12\n\n"@
    }
}

/// Appends the text of a vectorised scan to the right.
fn append_scan_right(out: &mut String, id: usize, skip_amount: usize)
    ensures
        final(out)@ == scan_right_text(old(out)@, id, skip_amount),
{
    proof {
        reveal(scan_right_text);
    }
    if skip_amount == 1 {
        out.append("    # [>]\n");
        out.append("    xorq %rsi, %rsi\n");
        out.append("    vpxor %ymm1, %ymm1, %ymm1\n");
        out.append("vector");
        push_decimal(out, id as u128);
        out.append("_loop_start:\n");
        out.append("    vmovdqu (%r12, %rsi), %ymm0\n");
        out.append("    vpcmpeqb %ymm1, %ymm0, %ymm2\n");
        out.append("    vpmovmskb %ymm2, %eax\n");
        out.append("    testl %eax, %eax\n");
        out.append("    jnz vector");
        push_decimal(out, id as u128);
        out.append("_found_zero\n");
        out.append("    addq $32, %rsi\n");
        out.append("    jmp vector");
        push_decimal(out, id as u128);
        out.append("_loop_start\n");
        out.append("vector");
        push_decimal(out, id as u128);
        out.append("_found_zero:\n");
        out.append("    bsfl %eax, %eax\n");
        out.append("    addq %rax, %rsi\n");
        out.append("    addq %rsi, %r12\n\n");
    } else if skip_amount == 2 {
        out.append("    # [>>]\n");
        out.append("    vmovdqa mask_skip2(%rip), %ymm3\n");
        out.append("    xorq %rsi, %rsi\n");
        out.append("    vpxor %ymm1, %ymm1, %ymm1\n");
        out.append("vector");
        push_decimal(out, id as u128);
        out.append("_loop_start:\n");
        out.append("    vmovdqu (%r12, %rsi), %ymm0\n");
        out.append("    vpor %ymm3, %ymm0, %ymm0\n");
        out.append("    vpcmpeqb %ymm1, %ymm0, %ymm2\n");
        out.append("    vpmovmskb %ymm2, %eax\n");
        out.append("    testl %eax, %eax\n");
        out.append("    jnz vector");
        push_decimal(out, id as u128);
        out.append("_found_zero\n");
        out.append("    addq $32, %rsi\n");
        out.append("    jmp vector");
        push_decimal(out, id as u128);
        out.append("_loop_start\n");
        out.append("vector");
        push_decimal(out, id as u128);
        out.append("_found_zero:\n");
        out.append("    bsfl %eax, %eax\n");
        out.append("    addq %rax, %rsi\n");
        out.append("    addq %rsi, %r12\n\n");
    } else {
        out.append("    # [>>>>]\n");
        out.append("    vmovdqa mask_skip4(%rip), %ymm3\n");
        out.append("    xorq %rsi, %rsi\n");
        out.append("    vpxor %ymm1, %ymm1, %ymm1\n");
        out.append("vector");
        push_decimal(out, id as u128);
        out.append("_loop_start:\n");
        out.append("    vmovdqu (%r12, %rsi), %ymm0\n");
        out.append("    vpor %ymm3, %ymm0, %ymm0\n");
        out.append("    vpcmpeqb %ymm1, %ymm0, %ymm2\n");
        out.append("    vpmovmskb %ymm2, %eax\n");
        out.append("    testl %eax, %eax\n");
        out.append("    jnz vector");
        push_decimal(out, id as u128);
        out.append("_found_zero\n");
        out.append("    addq $32, %rsi\n");
        out.append("    jmp vector");
        push_decimal(out, id as u128);
        out.append("_loop_start\n");
        out.append("vector");
        push_decimal(out, id as u128);
        out.append("_found_zero:\n");
        out.append("    bsfl %eax, %eax\n");
        out.append("    addq %rax, %rsi\n");
        out.append("    addq %rsi, %r12\n\n");
    }
}

/// The text of a vectorised scan to the left with a stride of 1, 2 or 4: 32
/// bytes are loaded at a time, the lanes off the stride are masked out, and the
/// highest lane that holds 0 gives the new pointer.
#[verifier::opaque]
pub open spec fn scan_left_text(acc: Seq<char>, id: usize, skip_amount: usize) -> Seq<char> {
    if skip_amount == 1 {
        acc
            + "    # [<]\n"@
            + "    movq $-31, %rsi\n"@
            + "    vpxor %ymm1, %ymm1, %ymm1\n"@
            + "vector"@
            + decimal(id as nat)
            + "_loop_start:\n"@
            + "    vmovdqu (%r12, %rsi), %ymm0\n"@
            + "    vpcmpeqb %ymm1, %ymm0, %ymm2\n"@
            + "    vpmovmskb %ymm2, %eax\n"@
            + "    testl %eax, %eax\n"@
            + "    jnz vector"@
            + decimal(id as nat)
            + "_found_zero\n"@
            + "    subq $32, %rsi\n"@
            + "    jmp vector"@
            + decimal(id as nat)
            + "_loop_start\n"@
            + "vector"@
            + decimal(id as nat)
            + "_found_zero:\n"@
            + "    bsrl %eax, %eax\n"@
            + "    addq %rax, %rsi\n"@
            + "    addq %rsi, %r12\n\n"@
    } else if skip_amount == 2 {
        acc
            + "    # [<<]\n"@
            + "    vmovdqa mask_skip2_reverse(%rip), %ymm3\n"@
            + "    movq $-31, %rsi\n"@
            + "    vpxor %ymm1, %ymm1, %ymm1\n"@
            + "vector"@
            + decimal(id as nat)
            + "_loop_start:\n"@
            + "    vmovdqu (%r12, %rsi), %ymm0\n"@
            + "    vpor %ymm3, %ymm0, %ymm0\n"@
            + "    vpcmpeqb %ymm1, %ymm0, %ymm2\n"@
            + "    vpmovmskb %ymm2, %eax\n"@
            + "    testl %eax, %eax\n"@
            + "    jnz vector"@
            + decimal(id as nat)
            + "_found_zero\n"@
            + "    subq $32, %rsi\n"@
            + "    jmp vector"@
            + decimal(id as nat)
            + "_loop_start\n"@
            + "vector"@
            + decimal(id as nat)
            + "_found_zero:\n"@
            + "    bsrl %eax, %eax\n"@
            + "    addq %rax, %rsi\n"@
            + "    addq %rsi, %r12\n\n"@
    } else {
        acc
            + "    # [<<<<]\n"@
            + "    vmovdqa mask_skip4_reverse(%rip), %ymm3\n"@
            + "    movq $-31, %rsi\n"@
            + "    vpxor %ymm1, %ymm1, %ymm1\n"@
            + "vector"@
            + decimal(id as nat)
            + "_loop_start:\n"@
            + "    vmovdqu (%r12, %rsi), %ymm0\n"@
            + "    vpor %ymm3, %ymm0, %ymm0\n"@
            + "    vpcmpeqb %ymm1, %ymm0, %ymm2\n"@
            + "    vpmovmskb %ymm2, %eax\n"@
            + "    testl %eax, %eax\n"@
            + "    jnz vector"@
            + decimal(id as nat)
            + "_found_zero\n"@
            + "    subq $32, %rsi\n"@
            + "    jmp vector"@
            + decimal(id as nat)
            + "_loop_start\n"@
            + "vector"@
            + decimal(id as nat)
            + "_found_zero:\n"@
            + "    bsrl %eax, %eax\n"@
            + "    addq %rax, %rsi\n"@
            + "    addq %rsi, %r12\n\n"@
    }
}

/// Appends the text of a vectorised scan to the left.
fn append_scan_left(out: &mut String, id: usize, skip_amount: usize)
    ensures
        final(out)@ == scan_left_text(old(out)@, id, skip_amount),
{
    proof {
        reveal(scan_left_text);
    }
    if skip_amount == 1 {
        out.append("    # [<]\n");
        out.append("    movq $-31, %rsi\n");
        out.append("    vpxor %ymm1, %ymm1, %ymm1\n");
        out.append("vector");
        push_decimal(out, id as u128);
        out.append("_loop_start:\n");
        out.append("    vmovdqu (%r12, %rsi), %ymm0\n");
        out.append("    vpcmpeqb %ymm1, %ymm0, %ymm2\n");
        out.append("    vpmovmskb %ymm2, %eax\n");
        out.append("    testl %eax, %eax\n");
        out.append("    jnz vector");
        push_decimal(out, id as u128);
        out.append("_found_zero\n");
        out.append("    subq $32, %rsi\n");
        out.append("    jmp vector");
        push_decimal(out, id as u128);
        out.append("_loop_start\n");
        out.append("vector");
        push_decimal(out, id as u128);
        out.append("_found_zero:\n");
        out.append("    bsrl %eax, %eax\n");
        out.append("    addq %rax, %rsi\n");
        out.append("    addq %rsi, %r12\n\n");
    } else if skip_amount == 2 {
        out.append("    # [<<]\n");
        out.append("    vmovdqa mask_skip2_reverse(%rip), %ymm3\n");
        out.append("    movq $-31, %rsi\n");
        out.append("    vpxor %ymm1, %ymm1, %ymm1\n");
        out.append("vector");
        push_decimal(out, id as u128);
        out.append("_loop_start:\n");
        out.append("    vmovdqu (%r12, %rsi), %ymm0\n");
        out.append("    vpor %ymm3, %ymm0, %ymm0\n");
        out.append("    vpcmpeqb %ymm1, %ymm0, %ymm2\n");
        out.append("    vpmovmskb %ymm2, %eax\n");
        out.append("    testl %eax, %eax\n");
        out.append("    jnz vector");
        push_decimal(out, id as u128);
        out.append("_found_zero\n");
        out.append("    subq $32, %rsi\n");
        out.append("    jmp vector");
        push_decimal(out, id as u128);
        out.append("_loop_start\n");
        out.append("vector");
        push_decimal(out, id as u128);
        out.append("_found_zero:\n");
        out.append("    bsrl %eax, %eax\n");
        out.append("    addq %rax, %rsi\n");
        out.append("    addq %rsi, %r12\n\n");
    } else {
        out.append("    # [<<<<]\n");
        out.append("    vmovdqa mask_skip4_reverse(%rip), %ymm3\n");
        out.append("    movq $-31, %rsi\n");
        out.append("    vpxor %ymm1, %ymm1, %ymm1\n");
        out.append("vector");
        push_decimal(out, id as u128);
        out.append("_loop_start:\n");
        out.append("    vmovdqu (%r12, %rsi), %ymm0\n");
        out.append("    vpor %ymm3, %ymm0, %ymm0\n");
        out.append("    vpcmpeqb %ymm1, %ymm0, %ymm2\n");
        out.append("    vpmovmskb %ymm2, %eax\n");
        out.append("    testl %eax, %eax\n");
        out.append("    jnz vector");
        push_decimal(out, id as u128);
        out.append("_found_zero\n");
        out.append("    subq $32, %rsi\n");
        out.append("    jmp vector");
        push_decimal(out, id as u128);
        out.append("_loop_start\n");
        out.append("vector");
        push_decimal(out, id as u128);
        out.append("_found_zero:\n");
        out.append("    bsrl %eax, %eax\n");
        out.append("    addq %rax, %rsi\n");
        out.append("    addq %rsi, %r12\n\n");
    }
}

/// The text of an offset addition or subtraction: the source is loaded,
/// negated where `inverted`, multiplied, and added to or taken from the
/// destination with the instruction `op`.
#[verifier::opaque]
pub open spec fn offset_op_text(
    acc: Seq<char>,
    dest_offset: isize,
    src_offset: isize,
    multiplier: usize,
    inverted: bool,
    op: Seq<char>,
) -> Seq<char> {
    let loaded = acc + "    movb "@ + signed_decimal(src_offset as int) + "(%r12), %r13b\n"@;
    let signed = if inverted {
        loaded + "    notb %r13b\n"@ + "    incb %r13b\n"@
    } else {
        loaded
    };
    signed
        + "    movb $"@
        + decimal(multiplier as nat)
        + ", %al\n"@
        + "    mulb %r13b\n"@
        + "    movb "@
        + signed_decimal(dest_offset as int)
        + "(%r12), %r13b\n"@
        + "    "@
        + op
        + " %al, %r13b\n"@
        + "    movb %r13b, "@
        + signed_decimal(dest_offset as int)
        + "(%r12)\n"@
}

/// Appends the text of an offset addition or subtraction.
fn append_offset_op(
    out: &mut String,
    dest_offset: isize,
    src_offset: isize,
    multiplier: usize,
    inverted: bool,
    op: &str,
)
    ensures
        final(out)@ == offset_op_text(old(out)@, dest_offset, src_offset, multiplier, inverted, op@),
{
    proof {
        reveal(offset_op_text);
    }
    out.append("    movb ");
    push_signed(out, src_offset);
    out.append("(%r12), %r13b\n");
    if inverted {
        out.append("    notb %r13b\n");
        out.append("    incb %r13b\n");
    }
    out.append("    movb $");
    push_decimal(out, multiplier as u128);
    out.append(", %al\n");
    out.append("    mulb %r13b\n");
    out.append("    movb ");
    push_signed(out, dest_offset);
    out.append("(%r12), %r13b\n");
    out.append("    ");
    out.append(op);
    out.append(" %al, %r13b\n");
    out.append("    movb %r13b, ");
    push_signed(out, dest_offset);
    out.append("(%r12)\n");
}

/// The text of an output: the byte or the cell is moved to the argument
/// register and `putchar` is called.
#[verifier::opaque]
pub open spec fn output_text(acc: Seq<char>, out_type: OutputType) -> Seq<char> {
    match out_type {
        OutputType::Const(value) => acc
            + "    # .\n"@
            + "    movl $"@
            + decimal(value as nat)
            + ", %edi\n"@
            + "    call putchar\n\n"@,
        OutputType::Cell { offset } => acc
            + "    # .\n"@
            + "    movzbl "@
            + signed_decimal(offset as int)
            + "(%r12), %edi\n"@
            + "    call putchar\n\n"@,
    }
}

/// Appends the text of an output.
fn append_output(out: &mut String, out_type: &OutputType)
    ensures
        final(out)@ == output_text(old(out)@, *out_type),
{
    proof {
        reveal(output_text);
    }
    match out_type {
        OutputType::Const(value) => {
            out.append("    # .\n");
            out.append("    movl $");
            push_decimal(out, *value as u128);
            out.append(", %edi\n");
            out.append("    call putchar\n\n");
        },
        OutputType::Cell { offset } => {
            out.append("    # .\n");
            out.append("    movzbl ");
            push_signed(out, *offset);
            out.append("(%r12), %edi\n");
            out.append("    call putchar\n\n");
        },
    }
}

/// The text of an input: `getchar` is called and its low byte stored.
#[verifier::opaque]
pub open spec fn input_text(acc: Seq<char>, offset: isize) -> Seq<char> {
    acc
        + "    # ,\n"@
        + "    call getchar\n"@
        + "    movb %al, "@
        + signed_decimal(offset as int)
        + "(%r12)\n\n"@
}

/// Appends the text of an input.
fn append_input(out: &mut String, offset: isize)
    ensures
        final(out)@ == input_text(old(out)@, offset),
{
    proof {
        reveal(input_text);
    }
    out.append("    # ,\n");
    out.append("    call getchar\n");
    out.append("    movb %al, ");
    push_signed(out, offset);
    out.append("(%r12)\n\n");
}

/// The text that opens a loop: its label, and the jump past its end where
/// the current cell holds 0.
#[verifier::opaque]
pub open spec fn loop_open_text(acc: Seq<char>, id: usize) -> Seq<char> {
    acc
        + "    # [\n"@
        + "loop"@
        + decimal(id as nat)
        + ":\n"@
        + "    movb (%r12), %r13b\n"@
        + "    cmpb $0,     %r13b\n"@
        + "    je   loop"@
        + decimal(id as nat)
        + "_end\n\n"@
}

/// Appends the text that opens a loop.
fn append_loop_open(out: &mut String, id: usize)
    ensures
        final(out)@ == loop_open_text(old(out)@, id),
{
    proof {
        reveal(loop_open_text);
    }
    out.append("    # [\n");
    out.append("loop");
    push_decimal(out, id as u128);
    out.append(":\n");
    out.append("    movb (%r12), %r13b\n");
    out.append("    cmpb $0,     %r13b\n");
    out.append("    je   loop");
    push_decimal(out, id as u128);
    out.append("_end\n\n");
}

/// The text that closes a loop: the jump back to its label, and its end label.
#[verifier::opaque]
pub open spec fn loop_close_text(acc: Seq<char>, id: usize) -> Seq<char> {
    acc
        + "     # ]\n"@
        + "    jmp  loop"@
        + decimal(id as nat)
        + "\n\n"@
        + "loop"@
        + decimal(id as nat)
        + "_end:\n"@
}

/// Appends the text that closes a loop.
fn append_loop_close(out: &mut String, id: usize)
    ensures
        final(out)@ == loop_close_text(old(out)@, id),
{
    proof {
        reveal(loop_close_text);
    }
    out.append("     # ]\n");
    out.append("    jmp  loop");
    push_decimal(out, id as u128);
    out.append("\n\n");
    out.append("loop");
    push_decimal(out, id as u128);
    out.append("_end:\n");
}
/// The text of a scan whose stride has no vectorised form: that of the loop
/// around one pointer move by the stride.
pub open spec fn scan_loop_text(
    acc: Seq<char>,
    id: usize,
    direction: Direction,
    skip_amount: usize,
) -> Seq<char> {
    let opened = loop_open_text(acc, id);
    let moved = match direction {
        Direction::Right => pointer_op_text(opened, skip_amount, "incq"@, "addq"@, ">"@),
        Direction::Left => pointer_op_text(opened, skip_amount, "decq"@, "subq"@, "<"@),
    };
    loop_close_text(moved, id)
}

/// The text so far, with the assembly of one node appended.
pub open spec fn asm_node(acc: Seq<char>, n: Node) -> Seq<char>
    decreases n, 0nat,
{
    match n {
        Node::IncPointer { amount, .. } => pointer_op_text(acc, amount, "incq"@, "addq"@, ">"@),
        Node::DecPointer { amount, .. } => pointer_op_text(acc, amount, "decq"@, "subq"@, "<"@),
        Node::IncData { offset, amount, .. } => data_op_text(
            acc,
            offset,
            amount,
            "incb"@,
            "addb"@,
            "+"@,
        ),
        Node::DecData { offset, amount, .. } => data_op_text(
            acc,
            offset,
            amount,
            "decb"@,
            "subb"@,
            "-"@,
        ),
        Node::SetData { offset, value, .. } => set_text(acc, offset, value),
        Node::Scan { id, direction, skip_amount, .. } => if skip_amount == 1 || skip_amount == 2
            || skip_amount == 4 {
            match direction {
                Direction::Right => scan_right_text(acc, id, skip_amount),
                Direction::Left => scan_left_text(acc, id, skip_amount),
            }
        } else {
            scan_loop_text(acc, id, direction, skip_amount)
        },
        Node::AddOffsetData { dest_offset, src_offset, multiplier, inverted, .. } => offset_op_text(
            acc,
            dest_offset,
            src_offset,
            multiplier,
            inverted,
            "addb"@,
        ),
        Node::SubOffsetData { dest_offset, src_offset, multiplier, inverted, .. } => offset_op_text(
            acc,
            dest_offset,
            src_offset,
            multiplier,
            inverted,
            "subb"@,
        ),
        Node::Output { out_type, .. } => output_text(acc, out_type),
        Node::Input { offset, .. } => input_text(acc, offset),
        Node::Loop { id, body, .. } => loop_close_text(
            asm_from(loop_open_text(acc, id), body, 0),
            id,
        ),
    }
}

/// The text so far, with the assembly of the nodes `s[i..]` appended.
pub open spec fn asm_from(acc: Seq<char>, s: Seq<Node>, i: int) -> Seq<char>
    decreases s, s.len() - i,
{
    if i < 0 || i >= s.len() {
        acc
    } else {
        asm_from(asm_node(acc, s[i]), s, i + 1)
    }
}

/// The assembly of a whole program: the header, the code of each node, and
/// the footer, with `%r12` for the pointer and `%r13` for the scratch byte.
pub open spec fn asm_text(s: Seq<Node>) -> Seq<char> {
    footer_text(
        asm_from(header_text(Seq::empty(), "%r12"@, "%r13"@), s, 0),
        "%r12"@,
        "%r13"@,
    )
}

/// A scan whose stride is not 1, 2 or 4 is compiled as the loop around one
/// pointer move by its stride.
pub proof fn lemma_unvectorised_scan_is_loop(
    acc: Seq<char>,
    id: usize,
    direction: Direction,
    skip_amount: usize,
    count: usize,
)
    requires
        skip_amount != 1 && skip_amount != 2 && skip_amount != 4,
    ensures
        asm_node(acc, Node::Scan { id, direction, skip_amount, count }) == asm_node(
            acc,
            crate::equivalence::scan_loop(id, direction, skip_amount),
        ),
{
    let looped = crate::equivalence::scan_loop(id, direction, skip_amount);
    let body = looped->body;
    let opened = loop_open_text(acc, id);
    assert(asm_from(asm_node(opened, body[0]), body, 1) == asm_node(opened, body[0]));
    assert(asm_from(opened, body, 0) == asm_node(opened, body[0]));
}

/// Appends the assembly of one command.
fn compile_command(out: &mut String, command: &Command)
    ensures
        final(out)@ == asm_node(old(out)@, command@),
    decreases command, 0nat,
{
    match command {
        Command::IncPointer { amount, .. } => append_pointer_op(out, *amount, "incq", "addq", ">"),
        Command::DecPointer { amount, .. } => append_pointer_op(out, *amount, "decq", "subq", "<"),
        Command::IncData { offset, amount, .. } => append_data_op(
            out,
            *offset,
            *amount,
            "incb",
            "addb",
            "+",
        ),
        Command::DecData { offset, amount, .. } => append_data_op(
            out,
            *offset,
            *amount,
            "decb",
            "subb",
            "-",
        ),
        Command::SetData { offset, value, .. } => append_set(out, *offset, *value),
        Command::Scan { id, direction, skip_amount, .. } => {
            if *skip_amount == 1 || *skip_amount == 2 || *skip_amount == 4 {
                match direction {
                    Direction::Right => append_scan_right(out, *id, *skip_amount),
                    Direction::Left => append_scan_left(out, *id, *skip_amount),
                }
            } else {
                append_loop_open(out, *id);
                match direction {
                    Direction::Right => append_pointer_op(out, *skip_amount, "incq", "addq", ">"),
                    Direction::Left => append_pointer_op(out, *skip_amount, "decq", "subq", "<"),
                }
                append_loop_close(out, *id);
            }
        },
        Command::AddOffsetData { dest_offset, src_offset, multiplier, inverted, .. } => {
            append_offset_op(out, *dest_offset, *src_offset, *multiplier, *inverted, "addb")
        },
        Command::SubOffsetData { dest_offset, src_offset, multiplier, inverted, .. } => {
            append_offset_op(out, *dest_offset, *src_offset, *multiplier, *inverted, "subb")
        },
        Command::Output { out_type, .. } => append_output(out, out_type),
        Command::Input { offset, .. } => append_input(out, *offset),
        Command::Loop { id, body, .. } => {
            append_loop_open(out, *id);
            compile_rec(out, body);
            append_loop_close(out, *id);
        },
    }
}

/// Appends the assembly of a sequence of commands.
fn compile_rec(out: &mut String, commands: &Vec<Command>)
    ensures
        final(out)@ == asm_from(old(out)@, nodes_of(commands@), 0),
    decreases commands, 1nat,
{
    let ghost s = nodes_of(commands@);
    let ghost first = out@;
    let mut i: usize = 0;
    while i < commands.len()
        invariant
            i <= commands.len(),
            s == nodes_of(commands@),
            asm_from(out@, s, i as int) == asm_from(first, s, 0),
        decreases commands.len() - i,
    {
        assert(s[i as int] == commands@[i as int]@);
        compile_command(out, &commands[i]);
        i += 1;
    }
}

/// The assembly text of a program for x86-64 in AT&T syntax.
pub fn compile(commands: &Vec<Command>) -> (assembly: String)
    ensures
        assembly@ == asm_text(nodes_of(commands@)),
{
    let mut assembly = String::new();
    append_assembly_header(&mut assembly, "%r12", "%r13");
    compile_rec(&mut assembly, commands);
    append_assembly_footer(&mut assembly, "%r12", "%r13");
    assembly
}

/// The index of the last `c` in `text`, counted in characters.
fn find_last(text: &str, c: char) -> (r: Option<usize>)
    ensures
        match last_index_of(text@, c) {
            Some(i) => r matches Some(at) && at == i && 0 <= i < text@.len(),
            None => r is None,
        },
{
    let total = text.unicode_len();
    let mut it = text.chars();
    let ghost all = text@;
    let ghost mut seen: Seq<char> = Seq::empty();
    let mut found: Option<usize> = None;
    let mut i: usize = 0;
    assert(seen + it.remaining() =~= all);
    loop
        invariant
            it.obeys_prophetic_iter_laws(),
            it.decrease() is Some,
            seen + it.remaining() == all,
            all == text@,
            all.len() == total,
            i == seen.len(),
            match last_index_of(seen, c) {
                Some(at) => found matches Some(f) && f == at && 0 <= at < seen.len(),
                None => found is None,
            },
        ensures
            seen == all,
            match last_index_of(seen, c) {
                Some(at) => found matches Some(f) && f == at && 0 <= at < seen.len(),
                None => found is None,
            },
        decreases it.decrease()->0,
    {
        match it.next() {
            None => {
                assert(seen =~= all);
                break ;
            },
            Some(next) => {
                let ghost grown = seen.push(next);
                proof {
                    assert(grown.drop_last() =~= seen);
                    assert(grown + it.remaining() =~= all);
                }
                if next == c {
                    found = Some(i);
                }
                i += 1;
                proof {
                    seen = grown;
                }
            },
        }
    }
    found
}

/// The path with everything from its last `.` on replaced by `ext`, or with
/// `ext` appended where it holds no `.`.
pub open spec fn replaced_extension(filepath: Seq<char>, ext: Seq<char>) -> Seq<char> {
    match last_index_of(filepath, '.') {
        Some(i) => filepath.subrange(0, i) + ext,
        None => filepath + ext,
    }
}

/// The path without everything up to its last `/`.
pub open spec fn stripped_directories(filepath: Seq<char>) -> Seq<char> {
    match last_index_of(filepath, '/') {
        Some(i) => filepath.subrange(i + 1, filepath.len() as int),
        None => filepath,
    }
}

/// Replaces the extension of a path.
pub fn replace_extension_filepath(filepath: &str, ext: &str) -> (r: String)
    ensures
        r@ == replaced_extension(filepath@, ext@),
{
    let mut r = String::new();
    match find_last(filepath, '.') {
        Some(pos) => {
            r.append(filepath.substring_char(0, pos));
        },
        None => {
            r.append(filepath);
        },
    }
    r.append(ext);
    assert(r@ =~= replaced_extension(filepath@, ext@));
    r
}

/// Strips the directories from a path.
pub fn strip_directories_filepath(filepath: &str) -> (r: String)
    ensures
        r@ == stripped_directories(filepath@),
{
    let mut r = String::new();
    match find_last(filepath, '/') {
        Some(pos) => {
            let total = filepath.unicode_len();
            r.append(filepath.substring_char(pos + 1, total));
        },
        None => {
            r.append(filepath);
        },
    }
    assert(r@ =~= stripped_directories(filepath@));
    r
}

} // verus!
