use vstd::prelude::*;
use vstd::string::StringExecFns;
use crate::ir::{Command, Direction, Node, OutputType, nodes_of};
use crate::text::{decimal, push_decimal, push_signed, signed_decimal};

verus! {

/// The text of an offset before a sign: nothing for 0, else the offset in parentheses.
pub open spec fn offset_mark(offset: isize) -> Seq<char> {
    if offset == 0 {
        Seq::empty()
    } else {
        "("@ + signed_decimal(offset as int) + ")"@
    }
}

/// Appends the text of an offset before a sign.
pub(crate) fn push_offset_mark(out: &mut String, offset: isize)
    ensures
        final(out)@ == old(out)@ + offset_mark(offset),
{
    if offset != 0 {
        let ghost before = out@;
        out.append("(");
        push_signed(out, offset);
        out.append(")");
        assert(out@ =~= before + offset_mark(offset));
    } else {
        assert(out@ =~= old(out)@ + offset_mark(offset));
    }
}

/// The text so far, with the mnemonic of a node other than a loop appended.
pub open spec fn mnemonic(acc: Seq<char>, n: Node) -> Seq<char> {
    match n {
        Node::IncPointer { amount, .. } => if amount == 1 {
            acc + ">"@
        } else {
            acc + "(>"@ + decimal(amount as nat) + ")"@
        },
        Node::DecPointer { amount, .. } => if amount == 1 {
            acc + "<"@
        } else {
            acc + "(<"@ + decimal(amount as nat) + ")"@
        },
        Node::IncData { offset, amount, .. } => if amount == 1 {
            acc + offset_mark(offset) + "+"@
        } else {
            acc + "("@ + offset_mark(offset) + "+"@ + decimal(amount as nat) + ")"@
        },
        Node::DecData { offset, amount, .. } => if amount == 1 {
            acc + offset_mark(offset) + "-"@
        } else {
            acc + "("@ + offset_mark(offset) + "-"@ + decimal(amount as nat) + ")"@
        },
        Node::SetData { offset, value, .. } => acc
            + "("@
            + offset_mark(offset)
            + "="@
            + decimal(value as nat)
            + ")"@,
        Node::Scan { direction, skip_amount, .. } => match direction {
            Direction::Left => acc + "[(<"@ + decimal(skip_amount as nat) + ")]"@,
            Direction::Right => acc + "[(>"@ + decimal(skip_amount as nat) + ")]"@,
        },
        Node::AddOffsetData { dest_offset, src_offset, multiplier, inverted, .. } => if inverted {
            acc
                + "("@
                + signed_decimal(dest_offset as int)
                + "+=-("@
                + signed_decimal(src_offset as int)
                + "*"@
                + decimal(multiplier as nat)
                + "))"@
        } else {
            acc
                + "("@
                + signed_decimal(dest_offset as int)
                + "+=("@
                + signed_decimal(src_offset as int)
                + "*"@
                + decimal(multiplier as nat)
                + "))"@
        },
        Node::SubOffsetData { dest_offset, src_offset, multiplier, inverted, .. } => if inverted {
            acc
                + "("@
                + signed_decimal(dest_offset as int)
                + "-=-("@
                + signed_decimal(src_offset as int)
                + "*"@
                + decimal(multiplier as nat)
                + "))"@
        } else {
            acc
                + "("@
                + signed_decimal(dest_offset as int)
                + "-=("@
                + signed_decimal(src_offset as int)
                + "*"@
                + decimal(multiplier as nat)
                + "))"@
        },
        Node::Output { out_type, .. } => match out_type {
            OutputType::Const(value) => acc + "(."@ + decimal(value as nat) + ")"@,
            OutputType::Cell { .. } => acc + "."@,
        },
        Node::Input { .. } => acc + ","@,
        Node::Loop { .. } => acc,
    }
}

/// Appends the mnemonic of a command other than a loop.
fn push_mnemonic(out: &mut String, command: &Command)
    ensures
        final(out)@ == mnemonic(old(out)@, command@),
{
    match command {
        Command::IncPointer { amount, .. } => if *amount == 1 {
            out.append(">");
        } else {
            out.append("(>");
            push_decimal(out, *amount as u128);
            out.append(")");
        },
        Command::DecPointer { amount, .. } => if *amount == 1 {
            out.append("<");
        } else {
            out.append("(<");
            push_decimal(out, *amount as u128);
            out.append(")");
        },
        Command::IncData { offset, amount, .. } => if *amount == 1 {
            push_offset_mark(out, *offset);
            out.append("+");
        } else {
            out.append("(");
            push_offset_mark(out, *offset);
            out.append("+");
            push_decimal(out, *amount as u128);
            out.append(")");
        },
        Command::DecData { offset, amount, .. } => if *amount == 1 {
            push_offset_mark(out, *offset);
            out.append("-");
        } else {
            out.append("(");
            push_offset_mark(out, *offset);
            out.append("-");
            push_decimal(out, *amount as u128);
            out.append(")");
        },
        Command::SetData { offset, value, .. } => {
            out.append("(");
            push_offset_mark(out, *offset);
            out.append("=");
            push_decimal(out, *value as u128);
            out.append(")");
        },
        Command::Scan { direction, skip_amount, .. } => match direction {
            Direction::Left => {
                out.append("[(<");
                push_decimal(out, *skip_amount as u128);
                out.append(")]");
            },
            Direction::Right => {
                out.append("[(>");
                push_decimal(out, *skip_amount as u128);
                out.append(")]");
            },
        },
        Command::AddOffsetData { dest_offset, src_offset, multiplier, inverted, .. } => if *inverted {
            out.append("(");
            push_signed(out, *dest_offset);
            out.append("+=-(");
            push_signed(out, *src_offset);
            out.append("*");
            push_decimal(out, *multiplier as u128);
            out.append("))");
        } else {
            out.append("(");
            push_signed(out, *dest_offset);
            out.append("+=(");
            push_signed(out, *src_offset);
            out.append("*");
            push_decimal(out, *multiplier as u128);
            out.append("))");
        },
        Command::SubOffsetData { dest_offset, src_offset, multiplier, inverted, .. } => if *inverted {
            out.append("(");
            push_signed(out, *dest_offset);
            out.append("-=-(");
            push_signed(out, *src_offset);
            out.append("*");
            push_decimal(out, *multiplier as u128);
            out.append("))");
        } else {
            out.append("(");
            push_signed(out, *dest_offset);
            out.append("-=(");
            push_signed(out, *src_offset);
            out.append("*");
            push_decimal(out, *multiplier as u128);
            out.append("))");
        },
        Command::Output { out_type, .. } => match out_type {
            OutputType::Const(value) => {
                out.append("(.");
                push_decimal(out, *value as u128);
                out.append(")");
            },
            OutputType::Cell { .. } => {
                out.append(".");
            },
        },
        Command::Input { .. } => {
            out.append(",");
        },
        Command::Loop { .. } => {},
    }
}

/// A text in the making, and whether it stands at the start of a line.
pub struct Printed {
    pub text: Seq<char>,
    pub fresh: bool,
}

/// The printed text with one node appended, at the given indentation.
///
/// A node other than a loop goes on the current line, after the indentation
/// where the line is fresh. A loop stands on lines of its own: `[`, its
/// body indented by two more spaces, and `]`.
pub open spec fn pretty_node(p: Printed, n: Node, indent: Seq<char>) -> Printed
    decreases n, 0nat,
{
    let begun = if p.fresh {
        p.text + indent
    } else {
        p.text
    };
    match n {
        Node::Loop { body, .. } => {
            let broken = if p.fresh {
                begun
            } else {
                begun + "\n"@ + indent
            };
            let inner = pretty_from(
                Printed { text: broken + "[\n"@, fresh: true },
                body,
                0,
                indent + "  "@,
            );
            Printed { text: inner.text + indent + "]\n"@, fresh: true }
        },
        _ => Printed { text: mnemonic(begun, n), fresh: false },
    }
}

/// The printed text with the nodes `s[i..]` appended, and the line ended.
pub open spec fn pretty_from(p: Printed, s: Seq<Node>, i: int, indent: Seq<char>) -> Printed
    decreases s, s.len() - i,
{
    if i < 0 || i >= s.len() {
        if p.fresh {
            p
        } else {
            Printed { text: p.text + "\n"@, fresh: true }
        }
    } else {
        pretty_from(pretty_node(p, s[i], indent), s, i + 1, indent)
    }
}

/// The printed form of a whole program.
pub open spec fn pretty_text(s: Seq<Node>) -> Seq<char> {
    pretty_from(Printed { text: Seq::empty(), fresh: true }, s, 0, Seq::empty()).text
}

/// Every printed sequence ends at the start of a line.
proof fn lemma_pretty_from_fresh(p: Printed, s: Seq<Node>, i: int, indent: Seq<char>)
    ensures
        pretty_from(p, s, i, indent).fresh,
    decreases s.len() - i,
{
    if 0 <= i < s.len() {
        lemma_pretty_from_fresh(pretty_node(p, s[i], indent), s, i + 1, indent);
    }
}

/// Appends the printed form of a sequence of commands.
#[verifier::loop_isolation(false)]
fn pretty_print_rec(
    out: &mut String,
    commands: &Vec<Command>,
    indent: &String,
    newline_end: &mut bool,
)
    ensures
        (Printed { text: final(out)@, fresh: *final(newline_end) }) == pretty_from(
            Printed { text: old(out)@, fresh: *old(newline_end) },
            nodes_of(commands@),
            0,
            indent@,
        ),
    decreases commands,
{
    let ghost s = nodes_of(commands@);
    let ghost want = pretty_from(Printed { text: out@, fresh: *newline_end }, s, 0, indent@);
    let mut i: usize = 0;
    while i < commands.len()
        invariant
            i <= commands.len(),
            pretty_from(Printed { text: out@, fresh: *newline_end }, s, i as int, indent@) == want,
        decreases commands.len() - i,
    {
        assert(s[i as int] == commands@[i as int]@);
        let ghost before = Printed { text: out@, fresh: *newline_end };
        if *newline_end {
            out.append(indent.as_str());
        }
        match &commands[i] {
            Command::Loop { body, .. } => {
                if !*newline_end {
                    out.append("\n");
                    out.append(indent.as_str());
                }
                out.append("[\n");
                *newline_end = true;
                let mut deeper = indent.clone();
                deeper.append("  ");
                let ghost opened = Printed { text: out@, fresh: true };
                pretty_print_rec(out, body, &deeper, newline_end);
                proof {
                    lemma_pretty_from_fresh(opened, nodes_of(body@), 0, deeper@);
                }
                out.append(indent.as_str());
                out.append("]\n");
                assert(*newline_end);
                assert((Printed { text: out@, fresh: *newline_end }) == pretty_node(
                    before,
                    s[i as int],
                    indent@,
                ));
            },
            other => {
                push_mnemonic(out, other);
                *newline_end = false;
                assert((Printed { text: out@, fresh: *newline_end }) == pretty_node(
                    before,
                    s[i as int],
                    indent@,
                ));
            },
        }
        i += 1;
    }
    if !*newline_end {
        out.append("\n");
        *newline_end = true;
    }
}

/// The printed form of a program: one mnemonic for each node, loops on
/// lines of their own with their bodies indented by two spaces for each level.
pub fn pretty_print(commands: &Vec<Command>) -> (r: String)
    ensures
        r@ == pretty_text(nodes_of(commands@)),
{
    let mut out = String::new();
    let mut newline_end = true;
    let indent = String::new();
    pretty_print_rec(&mut out, commands, &indent, &mut newline_end);
    out
}

} // verus!
