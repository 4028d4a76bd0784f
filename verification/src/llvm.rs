use vstd::prelude::*;
use vstd::string::StringExecFns;
use crate::ir::{Command, Direction, Node, OutputType, nodes_of};
use crate::text::{decimal, push_decimal, push_signed, signed_decimal};

verus! {

/// The number of bytes of the tape that a compiled program allocates.
pub const INIT_TAPE_SIZE: usize = 0x200000;

/// How far from the start of its tape a compiled program's pointer begins.
pub const INIT_POINTER_LOC: usize = 0x4000;

/// The name of the value that points to the cell at an offset from the
/// pointer, among the values of the node called `name`.
pub open spec fn cell_ref(name: Seq<char>, offset: isize) -> Seq<char> {
    if offset == 0 {
        "%"@ + name + ".ptr"@
    } else {
        "%"@ + name + ".cell"@
    }
}

/// Appends the name of the value that points to a cell.
fn push_cell_ref(out: &mut String, name: &str, offset: isize)
    ensures
        final(out)@ == old(out)@ + cell_ref(name@, offset),
{
    let ghost before = out@;
    out.append("%");
    out.append(name);
    if offset == 0 {
        out.append(".ptr");
    } else {
        out.append(".cell");
    }
    assert(out@ =~= before + cell_ref(name@, offset));
}

/// The instructions that give the pointer to the cell at an offset: the load
/// of the tape pointer, and an address computation where the offset is not 0.
#[verifier::opaque]
pub open spec fn cell_text(acc: Seq<char>, name: Seq<char>, offset: isize) -> Seq<char> {
    let loaded = acc + "  %"@ + name + ".ptr = load ptr, ptr %tape_ptr_alloca\n"@;
    if offset == 0 {
        loaded
    } else {
        loaded
            + "  %"@
            + name
            + ".cell = getelementptr i8, ptr %"@
            + name
            + ".ptr, i64 "@
            + signed_decimal(offset as int)
            + "\n"@
    }
}

/// Appends the instructions that give the pointer to a cell.
fn push_cell(out: &mut String, name: &str, offset: isize)
    ensures
        final(out)@ == cell_text(old(out)@, name@, offset),
{
    proof {
        reveal(cell_text);
    }
    out.append("  %");
    out.append(name);
    out.append(".ptr = load ptr, ptr %tape_ptr_alloca\n");
    if offset != 0 {
        out.append("  %");
        out.append(name);
        out.append(".cell = getelementptr i8, ptr %");
        out.append(name);
        out.append(".ptr, i64 ");
        push_signed(out, offset);
        out.append("\n");
    }
}

/// The instructions of a pointer move: the tape pointer is loaded, moved by
/// the amount, to the left where `back`, and stored.
#[verifier::opaque]
pub open spec fn move_text(
    acc: Seq<char>,
    name: Seq<char>,
    amount: usize,
    back: bool,
) -> Seq<char> {
    if back {
        acc
            + "  %"@
            + name
            + ".ptr = load ptr, ptr %tape_ptr_alloca\n"@
            + "  %"@
            + name
            + ".moved = getelementptr i8, ptr %"@
            + name
            + ".ptr, i64 -"@
            + decimal(amount as nat)
            + "\n"@
            + "  store ptr %"@
            + name
            + ".moved, ptr %tape_ptr_alloca\n"@
    } else {
        acc
            + "  %"@
            + name
            + ".ptr = load ptr, ptr %tape_ptr_alloca\n"@
            + "  %"@
            + name
            + ".moved = getelementptr i8, ptr %"@
            + name
            + ".ptr, i64 "@
            + decimal(amount as nat)
            + "\n"@
            + "  store ptr %"@
            + name
            + ".moved, ptr %tape_ptr_alloca\n"@
    }
}

/// Appends the instructions of a pointer move.
fn push_move(out: &mut String, name: &str, amount: usize, back: bool)
    ensures
        final(out)@ == move_text(old(out)@, name@, amount, back),
{
    proof {
        reveal(move_text);
    }
    if back {
        out.append("  %");
        out.append(name);
        out.append(".ptr = load ptr, ptr %tape_ptr_alloca\n");
        out.append("  %");
        out.append(name);
        out.append(".moved = getelementptr i8, ptr %");
        out.append(name);
        out.append(".ptr, i64 -");
        push_decimal(out, amount as u128);
        out.append("\n");
        out.append("  store ptr %");
        out.append(name);
        out.append(".moved, ptr %tape_ptr_alloca\n");
    } else {
        out.append("  %");
        out.append(name);
        out.append(".ptr = load ptr, ptr %tape_ptr_alloca\n");
        out.append("  %");
        out.append(name);
        out.append(".moved = getelementptr i8, ptr %");
        out.append(name);
        out.append(".ptr, i64 ");
        push_decimal(out, amount as u128);
        out.append("\n");
        out.append("  store ptr %");
        out.append(name);
        out.append(".moved, ptr %tape_ptr_alloca\n");
    }
}

/// The instructions of an addition to a cell, or of a subtraction where `op`
/// is `sub`: the cell is loaded, changed by the amount, and stored.
#[verifier::opaque]
pub open spec fn change_text(
    acc: Seq<char>,
    name: Seq<char>,
    offset: isize,
    amount: u8,
    op: Seq<char>,
) -> Seq<char> {
    cell_text(acc, name, offset)
        + "  %"@
        + name
        + ".val = load i8, ptr "@
        + cell_ref(name, offset)
        + "\n"@
        + "  %"@
        + name
        + ".new = "@
        + op
        + " i8 %"@
        + name
        + ".val, "@
        + decimal(amount as nat)
        + "\n"@
        + "  store i8 %"@
        + name
        + ".new, ptr "@
        + cell_ref(name, offset)
        + "\n"@
}

/// Appends the instructions of an addition to a cell or a subtraction from it.
fn push_change(out: &mut String, name: &str, offset: isize, amount: u8, op: &str)
    ensures
        final(out)@ == change_text(old(out)@, name@, offset, amount, op@),
{
    proof {
        reveal(change_text);
    }
    push_cell(out, name, offset);
    out.append("  %");
    out.append(name);
    out.append(".val = load i8, ptr ");
    push_cell_ref(out, name, offset);
    out.append("\n");
    out.append("  %");
    out.append(name);
    out.append(".new = ");
    out.append(op);
    out.append(" i8 %");
    out.append(name);
    out.append(".val, ");
    push_decimal(out, amount as u128);
    out.append("\n");
    out.append("  store i8 %");
    out.append(name);
    out.append(".new, ptr ");
    push_cell_ref(out, name, offset);
    out.append("\n");
}

/// The instructions of a store to a cell.
#[verifier::opaque]
pub open spec fn store_text(
    acc: Seq<char>,
    name: Seq<char>,
    offset: isize,
    value: u8,
) -> Seq<char> {
    cell_text(acc, name, offset)
        + "  store i8 "@
        + decimal(value as nat)
        + ", ptr "@
        + cell_ref(name, offset)
        + "\n"@
}

/// Appends the instructions of a store to a cell.
fn push_store(out: &mut String, name: &str, offset: isize, value: u8)
    ensures
        final(out)@ == store_text(old(out)@, name@, offset, value),
{
    proof {
        reveal(store_text);
    }
    push_cell(out, name, offset);
    out.append("  store i8 ");
    push_decimal(out, value as u128);
    out.append(", ptr ");
    push_cell_ref(out, name, offset);
    out.append("\n");
}

/// The name of a part of a node.
pub open spec fn part(name: Seq<char>, suffix: Seq<char>) -> Seq<char> {
    name + suffix
}

/// The name of a part of a node, as a string.
fn part_name(name: &str, suffix: &str) -> (r: String)
    ensures
        r@ == part(name@, suffix@),
{
    let mut r = String::new();
    r.append(name);
    r.append(suffix);
    assert(r@ =~= part(name@, suffix@));
    r
}

/// The instructions of an offset addition, or of an offset subtraction where
/// `op` is `sub`: the source byte is loaded, taken from 0 where `inverted`,
/// widened to 32 bits, multiplied, narrowed to a byte, and added to or taken
/// from the destination.
#[verifier::opaque]
pub open spec fn offset_op_text(
    acc: Seq<char>,
    name: Seq<char>,
    dest_offset: isize,
    src_offset: isize,
    multiplier: usize,
    inverted: bool,
    op: Seq<char>,
) -> Seq<char> {
    let cells = cell_text(
        cell_text(acc, part(name, ".src"@), src_offset),
        part(name, ".dst"@),
        dest_offset,
    );
    let loaded = cells
        + "  %"@
        + name
        + ".src_val = load i8, ptr "@
        + cell_ref(part(name, ".src"@), src_offset)
        + "\n"@;
    let signed = if inverted {
        loaded + "  %"@ + name + ".factor = sub i8 0, %"@ + name + ".src_val\n"@
    } else {
        loaded + "  %"@ + name + ".factor = add i8 0, %"@ + name + ".src_val\n"@
    };
    signed
        + "  %"@
        + name
        + ".wide = zext i8 %"@
        + name
        + ".factor to i32\n"@
        + "  %"@
        + name
        + ".product = mul i32 %"@
        + name
        + ".wide, "@
        + decimal(((multiplier as int) % 0x1_0000_0000int) as nat)
        + "\n"@
        + "  %"@
        + name
        + ".scaled = trunc i32 %"@
        + name
        + ".product to i8\n"@
        + "  %"@
        + name
        + ".dst_val = load i8, ptr "@
        + cell_ref(part(name, ".dst"@), dest_offset)
        + "\n"@
        + "  %"@
        + name
        + ".new = "@
        + op
        + " i8 %"@
        + name
        + ".dst_val, %"@
        + name
        + ".scaled\n"@
        + "  store i8 %"@
        + name
        + ".new, ptr "@
        + cell_ref(part(name, ".dst"@), dest_offset)
        + "\n"@
}

/// Appends the instructions of an offset addition or subtraction.
fn push_offset_op(
    out: &mut String,
    name: &str,
    dest_offset: isize,
    src_offset: isize,
    multiplier: usize,
    inverted: bool,
    op: &str,
)
    ensures
        final(out)@ == offset_op_text(
            old(out)@,
            name@,
            dest_offset,
            src_offset,
            multiplier,
            inverted,
            op@,
        ),
{
    proof {
        reveal(offset_op_text);
    }
    let src = part_name(name, ".src");
    let dst = part_name(name, ".dst");
    push_cell(out, src.as_str(), src_offset);
    push_cell(out, dst.as_str(), dest_offset);
    out.append("  %");
    out.append(name);
    out.append(".src_val = load i8, ptr ");
    push_cell_ref(out, src.as_str(), src_offset);
    out.append("\n");
    if inverted {
        out.append("  %");
        out.append(name);
        out.append(".factor = sub i8 0, %");
        out.append(name);
        out.append(".src_val\n");
    } else {
        out.append("  %");
        out.append(name);
        out.append(".factor = add i8 0, %");
        out.append(name);
        out.append(".src_val\n");
    }
    out.append("  %");
    out.append(name);
    out.append(".wide = zext i8 %");
    out.append(name);
    out.append(".factor to i32\n");
    out.append("  %");
    out.append(name);
    out.append(".product = mul i32 %");
    out.append(name);
    out.append(".wide, ");
    push_decimal(out, (multiplier as u64 % 0x1_0000_0000) as u128);
    out.append("\n");
    out.append("  %");
    out.append(name);
    out.append(".scaled = trunc i32 %");
    out.append(name);
    out.append(".product to i8\n");
    out.append("  %");
    out.append(name);
    out.append(".dst_val = load i8, ptr ");
    push_cell_ref(out, dst.as_str(), dest_offset);
    out.append("\n");
    out.append("  %");
    out.append(name);
    out.append(".new = ");
    out.append(op);
    out.append(" i8 %");
    out.append(name);
    out.append(".dst_val, %");
    out.append(name);
    out.append(".scaled\n");
    out.append("  store i8 %");
    out.append(name);
    out.append(".new, ptr ");
    push_cell_ref(out, dst.as_str(), dest_offset);
    out.append("\n");
}

/// The instructions of an output: `putchar` is called with the byte, or with
/// the cell widened to 32 bits.
#[verifier::opaque]
pub open spec fn output_text(acc: Seq<char>, name: Seq<char>, out_type: OutputType) -> Seq<char> {
    match out_type {
        OutputType::Const(value) => acc
            + "  %"@
            + name
            + ".put = call i32 @putchar(i32 "@
            + decimal(value as nat)
            + ")\n"@,
        OutputType::Cell { offset } => cell_text(acc, name, offset)
            + "  %"@
            + name
            + ".val = load i8, ptr "@
            + cell_ref(name, offset)
            + "\n"@
            + "  %"@
            + name
            + ".wide = zext i8 %"@
            + name
            + ".val to i32\n"@
            + "  %"@
            + name
            + ".put = call i32 @putchar(i32 %"@
            + name
            + ".wide)\n"@,
    }
}

/// Appends the instructions of an output.
fn push_output(out: &mut String, name: &str, out_type: &OutputType)
    ensures
        final(out)@ == output_text(old(out)@, name@, *out_type),
{
    proof {
        reveal(output_text);
    }
    match out_type {
        OutputType::Const(value) => {
            out.append("  %");
            out.append(name);
            out.append(".put = call i32 @putchar(i32 ");
            push_decimal(out, *value as u128);
            out.append(")\n");
        },
        OutputType::Cell { offset } => {
            push_cell(out, name, *offset);
            out.append("  %");
            out.append(name);
            out.append(".val = load i8, ptr ");
            push_cell_ref(out, name, *offset);
            out.append("\n");
            out.append("  %");
            out.append(name);
            out.append(".wide = zext i8 %");
            out.append(name);
            out.append(".val to i32\n");
            out.append("  %");
            out.append(name);
            out.append(".put = call i32 @putchar(i32 %");
            out.append(name);
            out.append(".wide)\n");
        },
    }
}

/// The instructions of an input: `getchar` is called, and its result,
/// narrowed to a byte, is stored in the cell.
#[verifier::opaque]
pub open spec fn input_text(acc: Seq<char>, name: Seq<char>, offset: isize) -> Seq<char> {
    cell_text(acc
        + "  %"@
        + name
        + ".got = call i32 @getchar()\n"@
        + "  %"@
        + name
        + ".byte = trunc i32 %"@
        + name
        + ".got to i8\n"@, name, offset)
        + "  store i8 %"@
        + name
        + ".byte, ptr "@
        + cell_ref(name, offset)
        + "\n"@
}

/// Appends the instructions of an input.
fn push_input(out: &mut String, name: &str, offset: isize)
    ensures
        final(out)@ == input_text(old(out)@, name@, offset),
{
    proof {
        reveal(input_text);
    }
    out.append("  %");
    out.append(name);
    out.append(".got = call i32 @getchar()\n");
    out.append("  %");
    out.append(name);
    out.append(".byte = trunc i32 %");
    out.append(name);
    out.append(".got to i8\n");
    push_cell(out, name, offset);
    out.append("  store i8 %");
    out.append(name);
    out.append(".byte, ptr ");
    push_cell_ref(out, name, offset);
    out.append("\n");
}

/// The instructions that open a loop: the block that tests the current cell
/// and branches to the body or past the end, and the label of the body.
#[verifier::opaque]
pub open spec fn loop_open_text(acc: Seq<char>, name: Seq<char>, id: usize) -> Seq<char> {
    acc
        + "  br label %loop"@
        + decimal(id as nat)
        + "_cond\n"@
        + "loop"@
        + decimal(id as nat)
        + "_cond:\n"@
        + "  %"@
        + name
        + ".ptr = load ptr, ptr %tape_ptr_alloca\n"@
        + "  %"@
        + name
        + ".val = load i8, ptr %"@
        + name
        + ".ptr\n"@
        + "  %"@
        + name
        + ".cmp = icmp ne i8 %"@
        + name
        + ".val, 0\n"@
        + "  br i1 %"@
        + name
        + ".cmp, label %loop"@
        + decimal(id as nat)
        + "_body, label %loop"@
        + decimal(id as nat)
        + "_end\n"@
        + "loop"@
        + decimal(id as nat)
        + "_body:\n"@
}

/// Appends the instructions that open a loop.
fn push_loop_open(out: &mut String, name: &str, id: usize)
    ensures
        final(out)@ == loop_open_text(old(out)@, name@, id),
{
    proof {
        reveal(loop_open_text);
    }
    out.append("  br label %loop");
    push_decimal(out, id as u128);
    out.append("_cond\n");
    out.append("loop");
    push_decimal(out, id as u128);
    out.append("_cond:\n");
    out.append("  %");
    out.append(name);
    out.append(".ptr = load ptr, ptr %tape_ptr_alloca\n");
    out.append("  %");
    out.append(name);
    out.append(".val = load i8, ptr %");
    out.append(name);
    out.append(".ptr\n");
    out.append("  %");
    out.append(name);
    out.append(".cmp = icmp ne i8 %");
    out.append(name);
    out.append(".val, 0\n");
    out.append("  br i1 %");
    out.append(name);
    out.append(".cmp, label %loop");
    push_decimal(out, id as u128);
    out.append("_body, label %loop");
    push_decimal(out, id as u128);
    out.append("_end\n");
    out.append("loop");
    push_decimal(out, id as u128);
    out.append("_body:\n");
}

/// The instructions that close a loop: the branch back to the test, and the
/// label of the end.
#[verifier::opaque]
pub open spec fn loop_close_text(acc: Seq<char>, id: usize) -> Seq<char> {
    acc
        + "  br label %loop"@
        + decimal(id as nat)
        + "_cond\n"@
        + "loop"@
        + decimal(id as nat)
        + "_end:\n"@
}

/// Appends the instructions that close a loop.
fn push_loop_close(out: &mut String, id: usize)
    ensures
        final(out)@ == loop_close_text(old(out)@, id),
{
    proof {
        reveal(loop_close_text);
    }
    out.append("  br label %loop");
    push_decimal(out, id as u128);
    out.append("_cond\n");
    out.append("loop");
    push_decimal(out, id as u128);
    out.append("_end:\n");
}

/// The text before the program's code: the declarations of the library
/// functions, and the entry of `main`, which allocates the zeroed tape and
/// sets the pointer.
#[verifier::opaque]
pub open spec fn module_open_text(acc: Seq<char>) -> Seq<char> {
    acc
        + "; ModuleID = 'bf'\n"@
        + "source_filename = \"bf\"\n\n"@
        + "declare ptr @calloc(i64, i64)\n\n"@
        + "declare i32 @getchar()\n\n"@
        + "declare i32 @putchar(i32)\n\n"@
        + "define i32 @main() {\n"@
        + "entry:\n"@
        + "  %tape = call ptr @calloc(i64 1, i64 "@
        + decimal(INIT_TAPE_SIZE as nat)
        + ")\n"@
        + "  %tape_ptr = getelementptr i8, ptr %tape, i64 "@
        + decimal(INIT_POINTER_LOC as nat)
        + "\n"@
        + "  %tape_ptr_alloca = alloca ptr\n"@
        + "  store ptr %tape_ptr, ptr %tape_ptr_alloca\n"@
}

/// Appends the text before the program's code.
fn push_module_open(out: &mut String)
    ensures
        final(out)@ == module_open_text(old(out)@),
{
    proof {
        reveal(module_open_text);
    }
    out.append("; ModuleID = 'bf'\n");
    out.append("source_filename = \"bf\"\n\n");
    out.append("declare ptr @calloc(i64, i64)\n\n");
    out.append("declare i32 @getchar()\n\n");
    out.append("declare i32 @putchar(i32)\n\n");
    out.append("define i32 @main() {\n");
    out.append("entry:\n");
    out.append("  %tape = call ptr @calloc(i64 1, i64 ");
    push_decimal(out, INIT_TAPE_SIZE as u128);
    out.append(")\n");
    out.append("  %tape_ptr = getelementptr i8, ptr %tape, i64 ");
    push_decimal(out, INIT_POINTER_LOC as u128);
    out.append("\n");
    out.append("  %tape_ptr_alloca = alloca ptr\n");
    out.append("  store ptr %tape_ptr, ptr %tape_ptr_alloca\n");
}

/// The text after the program's code: the return of 0 from `main`.
#[verifier::opaque]
pub open spec fn module_close_text(acc: Seq<char>) -> Seq<char> {
    acc + "  ret i32 0\n"@ + "}\n"@
}

/// Appends the text after the program's code.
fn push_module_close(out: &mut String)
    ensures
        final(out)@ == module_close_text(old(out)@),
{
    proof {
        reveal(module_close_text);
    }
    out.append("  ret i32 0\n");
    out.append("}\n");
}

/// The name of node `i` of a sequence whose nodes have names that begin with `prefix`.
pub open spec fn node_name(prefix: Seq<char>, i: int) -> Seq<char> {
    prefix + "_"@ + decimal(i as nat)
}

/// The text so far, with the instructions of one node appended; the node's
/// values have names that begin with `name`.
///
/// A scan is lowered as the loop around one pointer move by its stride.
pub open spec fn llvm_node(acc: Seq<char>, n: Node, name: Seq<char>) -> Seq<char>
    decreases n, 0nat,
{
    match n {
        Node::IncPointer { amount, .. } => move_text(acc, name, amount, false),
        Node::DecPointer { amount, .. } => move_text(acc, name, amount, true),
        Node::IncData { offset, amount, .. } => change_text(acc, name, offset, amount, "add"@),
        Node::DecData { offset, amount, .. } => change_text(acc, name, offset, amount, "sub"@),
        Node::SetData { offset, value, .. } => store_text(acc, name, offset, value),
        Node::Scan { id, direction, skip_amount, .. } => loop_close_text(
            move_text(
                loop_open_text(acc, name, id),
                node_name(name, 0),
                skip_amount,
                direction == Direction::Left,
            ),
            id,
        ),
        Node::AddOffsetData { dest_offset, src_offset, multiplier, inverted, .. } => offset_op_text(
            acc,
            name,
            dest_offset,
            src_offset,
            multiplier,
            inverted,
            "add"@,
        ),
        Node::SubOffsetData { dest_offset, src_offset, multiplier, inverted, .. } => offset_op_text(
            acc,
            name,
            dest_offset,
            src_offset,
            multiplier,
            inverted,
            "sub"@,
        ),
        Node::Output { out_type, .. } => output_text(acc, name, out_type),
        Node::Input { offset, .. } => input_text(acc, name, offset),
        Node::Loop { id, body, .. } => loop_close_text(
            llvm_from(loop_open_text(acc, name, id), body, 0, name),
            id,
        ),
    }
}

/// The text so far, with the instructions of the nodes `s[i..]` appended.
pub open spec fn llvm_from(acc: Seq<char>, s: Seq<Node>, i: int, prefix: Seq<char>) -> Seq<char>
    decreases s, s.len() - i,
{
    if i < 0 || i >= s.len() {
        acc
    } else {
        llvm_from(llvm_node(acc, s[i], node_name(prefix, i)), s, i + 1, prefix)
    }
}

/// The module of a whole program, as text.
pub open spec fn llvm_text(s: Seq<Node>) -> Seq<char> {
    module_close_text(llvm_from(module_open_text(Seq::empty()), s, 0, "n"@))
}

/// A scan is lowered as the loop around one pointer move by its stride.
pub proof fn lemma_scan_lowered_as_loop(
    acc: Seq<char>,
    id: usize,
    direction: Direction,
    skip_amount: usize,
    count: usize,
    name: Seq<char>,
)
    ensures
        llvm_node(acc, Node::Scan { id, direction, skip_amount, count }, name) == llvm_node(
            acc,
            crate::equivalence::scan_loop(id, direction, skip_amount),
            name,
        ),
{
    let looped = crate::equivalence::scan_loop(id, direction, skip_amount);
    let body = looped->body;
    let opened = loop_open_text(acc, name, id);
    let inner = llvm_node(opened, body[0], node_name(name, 0));
    assert(llvm_from(inner, body, 1, name) == inner);
    assert(llvm_from(opened, body, 0, name) == inner);
}

/// The name of node `i` of a sequence, as a string.
fn name_of(prefix: &str, i: usize) -> (r: String)
    ensures
        r@ == node_name(prefix@, i as int),
{
    let mut r = String::new();
    r.append(prefix);
    r.append("_");
    push_decimal(&mut r, i as u128);
    assert(r@ =~= node_name(prefix@, i as int));
    r
}

/// Appends the instructions of one command.
fn compile_command(out: &mut String, command: &Command, name: &str)
    ensures
        final(out)@ == llvm_node(old(out)@, command@, name@),
    decreases command, 0nat,
{
    match command {
        Command::IncPointer { amount, .. } => push_move(out, name, *amount, false),
        Command::DecPointer { amount, .. } => push_move(out, name, *amount, true),
        Command::IncData { offset, amount, .. } => push_change(out, name, *offset, *amount, "add"),
        Command::DecData { offset, amount, .. } => push_change(out, name, *offset, *amount, "sub"),
        Command::SetData { offset, value, .. } => push_store(out, name, *offset, *value),
        Command::Scan { id, direction, skip_amount, .. } => {
            push_loop_open(out, name, *id);
            let inner = name_of(name, 0);
            let back = match direction {
                Direction::Left => true,
                Direction::Right => false,
            };
            push_move(out, inner.as_str(), *skip_amount, back);
            push_loop_close(out, *id);
        },
        Command::AddOffsetData { dest_offset, src_offset, multiplier, inverted, .. } => {
            push_offset_op(out, name, *dest_offset, *src_offset, *multiplier, *inverted, "add")
        },
        Command::SubOffsetData { dest_offset, src_offset, multiplier, inverted, .. } => {
            push_offset_op(out, name, *dest_offset, *src_offset, *multiplier, *inverted, "sub")
        },
        Command::Output { out_type, .. } => push_output(out, name, out_type),
        Command::Input { offset, .. } => push_input(out, name, *offset),
        Command::Loop { id, body, .. } => {
            push_loop_open(out, name, *id);
            compile_rec(out, body, name);
            push_loop_close(out, *id);
        },
    }
}

/// Appends the instructions of a sequence of commands.
fn compile_rec(out: &mut String, commands: &Vec<Command>, prefix: &str)
    ensures
        final(out)@ == llvm_from(old(out)@, nodes_of(commands@), 0, prefix@),
    decreases commands, 1nat,
{
    let ghost s = nodes_of(commands@);
    let ghost first = out@;
    let mut i: usize = 0;
    while i < commands.len()
        invariant
            i <= commands.len(),
            s == nodes_of(commands@),
            llvm_from(out@, s, i as int, prefix@) == llvm_from(first, s, 0, prefix@),
        decreases commands.len() - i,
    {
        assert(s[i as int] == commands@[i as int]@);
        let name = name_of(prefix, i);
        compile_command(out, &commands[i], name.as_str());
        i += 1;
    }
}

/// The module of a program in the textual form of the intermediate
/// representation: `main` allocates the tape, runs the program with
/// `getchar` and `putchar`, and returns 0.
pub fn compile(commands: &Vec<Command>) -> (module: String)
    ensures
        module@ == llvm_text(nodes_of(commands@)),
{
    let mut module = String::new();
    push_module_open(&mut module);
    compile_rec(&mut module, commands, "n");
    push_module_close(&mut module);
    module
}

} // verus!
