use vstd::prelude::*;
use vstd::string::StringExecFns;
use crate::interp::bump;
use crate::ir::{Command, Direction, Node, nodes_of};
use crate::optimizer::{is_simple_loop, simple_loop_delta};
use crate::printer::{offset_mark, push_offset_mark};
use crate::text::{
    centered, decimal, pad_left, pad_right, push_centered, push_decimal, push_pad_left,
    push_pad_right, push_signed, signed_decimal,
};

verus! {

/// A loop in the profile: the index of its opening line, and how often its
/// body ran to its end.
#[derive(Debug, Clone, Copy, PartialEq, Eq, Structural)]
pub struct LoopData {
    pub idx: usize,
    pub num_executions: usize,
}

/// The mnemonic under which the profile lists a node other than a loop.
pub open spec fn repr(n: Node) -> Seq<char> {
    match n {
        Node::IncPointer { amount, .. } => if amount == 1 {
            ">"@
        } else {
            ">"@ + decimal(amount as nat)
        },
        Node::DecPointer { amount, .. } => if amount == 1 {
            "<"@
        } else {
            "<"@ + decimal(amount as nat)
        },
        Node::IncData { offset, amount, .. } => if amount == 1 {
            offset_mark(offset) + "+"@
        } else {
            offset_mark(offset) + "+"@ + decimal(amount as nat)
        },
        Node::DecData { offset, amount, .. } => if amount == 1 {
            offset_mark(offset) + "-"@
        } else {
            offset_mark(offset) + "-"@ + decimal(amount as nat)
        },
        Node::SetData { offset, value, .. } => offset_mark(offset) + "="@ + decimal(value as nat),
        Node::Scan { direction, skip_amount, .. } => match direction {
            Direction::Left => "[(<"@ + decimal(skip_amount as nat) + ")]"@,
            Direction::Right => "[(>"@ + decimal(skip_amount as nat) + ")]"@,
        },
        Node::AddOffsetData { dest_offset, src_offset, multiplier, inverted, .. } => "("@
            + signed_decimal(dest_offset as int) + "+="@ + (if inverted {
            "-"@
        } else {
            Seq::empty()
        }) + "("@ + signed_decimal(src_offset as int) + "*"@ + decimal(multiplier as nat) + "))"@,
        Node::SubOffsetData { dest_offset, src_offset, multiplier, inverted, .. } => "("@
            + signed_decimal(dest_offset as int) + "-="@ + (if inverted {
            "-"@
        } else {
            Seq::empty()
        }) + "("@ + signed_decimal(src_offset as int) + "*"@ + decimal(multiplier as nat) + "))"@,
        Node::Output { .. } => "."@,
        Node::Input { .. } => ","@,
        Node::Loop { .. } => "["@,
    }
}

/// The count of a node other than a loop.
pub open spec fn count_of(n: Node) -> usize {
    match n {
        Node::IncPointer { count, .. } => count,
        Node::DecPointer { count, .. } => count,
        Node::IncData { count, .. } => count,
        Node::DecData { count, .. } => count,
        Node::SetData { count, .. } => count,
        Node::Scan { count, .. } => count,
        Node::AddOffsetData { count, .. } => count,
        Node::SubOffsetData { count, .. } => count,
        Node::Output { count, .. } => count,
        Node::Input { count, .. } => count,
        Node::Loop { start_count, .. } => start_count,
    }
}

/// The text so far, with one line of the profile appended: the index right
/// in 6 characters, the mnemonic centered in 6, and the count.
pub open spec fn profile_line(acc: Seq<char>, idx: usize, mnemonic: Seq<char>, count: usize) -> Seq<
    char,
> {
    acc + pad_left(decimal(idx as nat), 6) + " : "@ + centered(mnemonic, 6) + " : "@ + decimal(
        count as nat,
    ) + "\n"@
}

/// A profile in the making: its lines, the index of the next line, and the
/// loops met so far, the simple ones apart from the others.
pub struct Profile {
    pub text: Seq<char>,
    pub idx: usize,
    pub simple: Seq<LoopData>,
    pub other: Seq<LoopData>,
}

/// The profile with one node listed. A loop has a line for `[` with the
/// count of its guard evaluations, the lines of its body, and a line for `]`
/// with the count of its turns; it is noted under the index of its `[`.
pub open spec fn profile_node(p: Profile, n: Node) -> Profile
    decreases n, 0nat,
{
    match n {
        Node::Loop { body, start_count, end_count, .. } => {
            let met = LoopData { idx: p.idx, num_executions: end_count };
            let opened = Profile {
                text: profile_line(p.text, p.idx, "["@, start_count),
                idx: bump(p.idx),
                simple: if simple_loop_delta(n) is Some {
                    p.simple.push(met)
                } else {
                    p.simple
                },
                other: if simple_loop_delta(n) is Some {
                    p.other
                } else {
                    p.other.push(met)
                },
            };
            let inner = profile_from(opened, body, 0);
            Profile {
                text: profile_line(inner.text, inner.idx, "]"@, end_count),
                idx: bump(inner.idx),
                ..inner
            }
        },
        _ => Profile { text: profile_line(p.text, p.idx, repr(n), count_of(n)), idx: bump(p.idx), ..p },
    }
}

/// The profile with the nodes `s[i..]` listed.
pub open spec fn profile_from(p: Profile, s: Seq<Node>, i: int) -> Profile
    decreases s, s.len() - i,
{
    if i < 0 || i >= s.len() {
        p
    } else {
        profile_from(profile_node(p, s[i]), s, i + 1)
    }
}

/// The loops with one more put in its place: behind every loop that ran at
/// least as often.
pub open spec fn insert_loop(sorted: Seq<LoopData>, x: LoopData) -> Seq<LoopData>
    decreases sorted.len(),
{
    if sorted.len() == 0 {
        seq![x]
    } else if sorted.last().num_executions >= x.num_executions {
        sorted.push(x)
    } else {
        insert_loop(sorted.drop_last(), x).push(sorted.last())
    }
}

/// The loops ordered by how often they ran, most often first; loops that ran
/// equally often keep their order.
pub open spec fn by_executions(loops: Seq<LoopData>) -> Seq<LoopData>
    decreases loops.len(),
{
    if loops.len() == 0 {
        Seq::empty()
    } else {
        insert_loop(by_executions(loops.drop_last()), loops.last())
    }
}

/// The text so far, with a line for each of the loops from `i` on.
pub open spec fn loops_text(acc: Seq<char>, label: Seq<char>, loops: Seq<LoopData>, i: int) -> Seq<
    char,
>
    decreases loops.len() - i,
{
    if i < 0 || i >= loops.len() {
        acc
    } else {
        loops_text(
            acc + label + pad_right(decimal(loops[i].idx as nat), 6) + " : executions "@ + decimal(
                loops[i].num_executions as nat,
            ) + "\n"@,
            label,
            loops,
            i + 1,
        )
    }
}

/// The profile of a program: a line for each node in the order of the
/// program, then the simple loops and the other loops, each list ordered by
/// how often the loops ran.
pub open spec fn profile_text(s: Seq<Node>) -> Seq<char> {
    let p = profile_from(
        Profile { text: Seq::empty(), idx: 0, simple: Seq::empty(), other: Seq::empty() },
        s,
        0,
    );
    loops_text(
        loops_text(p.text, "[Simple Loop]     : index "@, by_executions(p.simple), 0),
        "[Non-simple Loop] : index "@,
        by_executions(p.other),
        0,
    )
}

/// The result of `by_executions` is ordered: no loop stands before one that
/// ran more often.
pub proof fn lemma_by_executions_ordered(loops: Seq<LoopData>)
    ensures
        by_executions(loops).len() == loops.len(),
        forall|i: int, j: int|
            0 <= i < j < loops.len() ==> by_executions(loops)[i].num_executions >= by_executions(
                loops,
            )[j].num_executions,
    decreases loops.len(),
{
    if loops.len() > 0 {
        lemma_by_executions_ordered(loops.drop_last());
        lemma_insert_keeps_order(by_executions(loops.drop_last()), loops.last());
    }
}

/// Putting a loop in its place keeps the order, and adds this loop only.
proof fn lemma_insert_keeps_order(sorted: Seq<LoopData>, x: LoopData)
    requires
        forall|i: int, j: int|
            0 <= i < j < sorted.len() ==> sorted[i].num_executions >= sorted[j].num_executions,
    ensures
        insert_loop(sorted, x).len() == sorted.len() + 1,
        forall|i: int, j: int|
            0 <= i < j < sorted.len() + 1 ==> insert_loop(sorted, x)[i].num_executions
                >= insert_loop(sorted, x)[j].num_executions,
        forall|i: int|
            0 <= i < sorted.len() + 1 ==> insert_loop(sorted, x)[i] == x || exists|k: int|
                0 <= k < sorted.len() && insert_loop(sorted, x)[i] == sorted[k],
    decreases sorted.len(),
{
    if sorted.len() > 0 && sorted.last().num_executions < x.num_executions {
        let front = sorted.drop_last();
        lemma_insert_keeps_order(front, x);
        let made = insert_loop(sorted, x);
        assert forall|i: int, j: int| 0 <= i < j < sorted.len() + 1 implies made[i].num_executions
            >= made[j].num_executions by {
            if j == sorted.len() {
                let before = insert_loop(front, x)[i];
                if before != x {
                    let k = choose|k: int| 0 <= k < front.len() && before == front[k];
                    assert(sorted[k].num_executions >= sorted[sorted.len() - 1].num_executions);
                }
            }
        }
        assert forall|i: int| 0 <= i < sorted.len() + 1 implies made[i] == x || exists|k: int|
            0 <= k < sorted.len() && made[i] == sorted[k] by {
            if i == sorted.len() {
                assert(made[i] == sorted[sorted.len() - 1]);
            } else {
                let before = insert_loop(front, x)[i];
                if before != x {
                    let k = choose|k: int| 0 <= k < front.len() && before == front[k];
                    assert(made[i] == sorted[k]);
                }
            }
        }
    } else if sorted.len() > 0 {
        let made = insert_loop(sorted, x);
        assert forall|i: int| 0 <= i < sorted.len() + 1 implies made[i] == x || exists|k: int|
            0 <= k < sorted.len() && made[i] == sorted[k] by {
            if i < sorted.len() {
                assert(made[i] == sorted[i]);
            }
        }
    }
}

/// Putting a loop in its place is inserting it before the first loop that
/// ran less often.
proof fn lemma_insert_at(sorted: Seq<LoopData>, x: LoopData, at: int)
    requires
        0 <= at <= sorted.len(),
        forall|k: int| at <= k < sorted.len() ==> sorted[k].num_executions < x.num_executions,
        at == 0 || sorted[at - 1].num_executions >= x.num_executions,
    ensures
        insert_loop(sorted, x) == sorted.insert(at, x),
    decreases sorted.len() - at,
{
    if at < sorted.len() {
        let front = sorted.drop_last();
        lemma_insert_at(front, x, at);
        assert(front.insert(at, x).push(sorted.last()) =~= sorted.insert(at, x));
    } else {
        assert(sorted.push(x) =~= sorted.insert(at, x));
    }
}

/// Orders loops by how often they ran, most often first.
fn sort_loops(loops: &Vec<LoopData>) -> (r: Vec<LoopData>)
    ensures
        r@ == by_executions(loops@),
{
    let mut sorted: Vec<LoopData> = Vec::new();
    let mut i: usize = 0;
    assert(loops@.subrange(0, 0) =~= Seq::<LoopData>::empty());
    while i < loops.len()
        invariant
            i <= loops.len(),
            sorted@ == by_executions(loops@.subrange(0, i as int)),
            sorted.len() == i,
        decreases loops.len() - i,
    {
        let x = loops[i];
        let mut at: usize = sorted.len();
        while at > 0 && sorted[at - 1].num_executions < x.num_executions
            invariant
                at <= sorted.len(),
                forall|k: int| at <= k < sorted.len() ==> sorted@[k].num_executions
                    < x.num_executions,
            decreases at,
        {
            at -= 1;
        }
        proof {
            lemma_insert_at(sorted@, x, at as int);
            assert(loops@.subrange(0, i + 1).drop_last() =~= loops@.subrange(0, i as int));
        }
        sorted.insert(at, x);
        i += 1;
    }
    assert(loops@.subrange(0, i as int) =~= loops@);
    sorted
}

/// Appends one line of the profile.
fn push_profile_line(out: &mut String, idx: usize, mnemonic: &str, count: usize)
    ensures
        final(out)@ == profile_line(old(out)@, idx, mnemonic@, count),
{
    let mut number = String::new();
    push_decimal(&mut number, idx as u128);
    assert(number@ =~= decimal(idx as nat));
    push_pad_left(out, number.as_str(), 6);
    out.append(" : ");
    push_centered(out, mnemonic, 6);
    out.append(" : ");
    push_decimal(out, count as u128);
    out.append("\n");
}

/// The mnemonic and the count of a command other than a loop.
fn describe(command: &Command) -> (r: (String, usize))
    ensures
        r.0@ == repr(command@),
        r.1 == count_of(command@),
{
    let mut text = String::new();
    let count = match command {
        Command::IncPointer { amount, count } => {
            text.append(">");
            if *amount != 1 {
                push_decimal(&mut text, *amount as u128);
            }
            *count
        },
        Command::DecPointer { amount, count } => {
            text.append("<");
            if *amount != 1 {
                push_decimal(&mut text, *amount as u128);
            }
            *count
        },
        Command::IncData { offset, amount, count } => {
            push_offset_mark(&mut text, *offset);
            text.append("+");
            if *amount != 1 {
                push_decimal(&mut text, *amount as u128);
            }
            *count
        },
        Command::DecData { offset, amount, count } => {
            push_offset_mark(&mut text, *offset);
            text.append("-");
            if *amount != 1 {
                push_decimal(&mut text, *amount as u128);
            }
            *count
        },
        Command::SetData { offset, value, count } => {
            push_offset_mark(&mut text, *offset);
            text.append("=");
            push_decimal(&mut text, *value as u128);
            *count
        },
        Command::Scan { direction, skip_amount, count, .. } => {
            match direction {
                Direction::Left => text.append("[(<"),
                Direction::Right => text.append("[(>"),
            }
            push_decimal(&mut text, *skip_amount as u128);
            text.append(")]");
            *count
        },
        Command::AddOffsetData { dest_offset, src_offset, multiplier, inverted, count } => {
            text.append("(");
            push_signed(&mut text, *dest_offset);
            text.append("+=");
            push_scaled(&mut text, *src_offset, *multiplier, *inverted);
            *count
        },
        Command::SubOffsetData { dest_offset, src_offset, multiplier, inverted, count } => {
            text.append("(");
            push_signed(&mut text, *dest_offset);
            text.append("-=");
            push_scaled(&mut text, *src_offset, *multiplier, *inverted);
            *count
        },
        Command::Output { count, .. } => {
            text.append(".");
            *count
        },
        Command::Input { count, .. } => {
            text.append(",");
            *count
        },
        Command::Loop { start_count, .. } => {
            text.append("[");
            *start_count
        },
    };
    assert(text@ =~= repr(command@));
    (text, count)
}

/// Appends the source and the multiplier of an offset addition or subtraction.
fn push_scaled(out: &mut String, src_offset: isize, multiplier: usize, inverted: bool)
    ensures
        final(out)@ == old(out)@ + (if inverted {
            "-"@
        } else {
            Seq::<char>::empty()
        }) + "("@ + signed_decimal(src_offset as int) + "*"@ + decimal(multiplier as nat) + "))"@,
{
    if inverted {
        out.append("-");
    } else {
        assert(out@ =~= old(out)@ + Seq::<char>::empty());
    }
    out.append("(");
    push_signed(out, src_offset);
    out.append("*");
    push_decimal(out, multiplier as u128);
    out.append("))");
}

/// The executable state of a profile in the making.
struct Listing {
    text: String,
    idx: usize,
    simple: Vec<LoopData>,
    other: Vec<LoopData>,
}

impl Listing {
    /// The profile that this stands for.
    spec fn model(&self) -> Profile {
        Profile { text: self.text@, idx: self.idx, simple: self.simple@, other: self.other@ }
    }
}

/// The index after `idx`; it stays at the largest value once there.
fn next_index(idx: usize) -> (r: usize)
    ensures
        r == bump(idx),
{
    if idx < usize::MAX {
        idx + 1
    } else {
        idx
    }
}

/// Lists a sequence of commands.
#[verifier::loop_isolation(false)]
fn print_profile_rec(commands: &Vec<Command>, listing: &mut Listing)
    ensures
        final(listing).model() == profile_from(old(listing).model(), nodes_of(commands@), 0),
    decreases commands,
{
    let ghost s = nodes_of(commands@);
    let ghost want = profile_from(listing.model(), s, 0);
    let mut i: usize = 0;
    while i < commands.len()
        invariant
            i <= commands.len(),
            profile_from(listing.model(), s, i as int) == want,
        decreases commands.len() - i,
    {
        assert(s[i as int] == commands@[i as int]@);
        let ghost before = listing.model();
        match &commands[i] {
            Command::Loop { body, start_count, end_count, .. } => {
                let (is_simple, _) = is_simple_loop(&commands[i]);
                let met = LoopData { idx: listing.idx, num_executions: *end_count };
                if is_simple {
                    listing.simple.push(met);
                } else {
                    listing.other.push(met);
                }
                push_profile_line(&mut listing.text, listing.idx, "[", *start_count);
                listing.idx = next_index(listing.idx);
                print_profile_rec(body, listing);
                push_profile_line(&mut listing.text, listing.idx, "]", *end_count);
                listing.idx = next_index(listing.idx);
                assert(listing.model() == profile_node(before, s[i as int]));
            },
            other => {
                let (mnemonic, count) = describe(other);
                push_profile_line(&mut listing.text, listing.idx, mnemonic.as_str(), count);
                listing.idx = next_index(listing.idx);
                assert(listing.model() == profile_node(before, s[i as int]));
            },
        }
        i += 1;
    }
}

/// Appends a line for each of the loops.
fn push_loops(out: &mut String, label: &str, loops: &Vec<LoopData>)
    ensures
        final(out)@ == loops_text(old(out)@, label@, loops@, 0),
{
    let ghost first = out@;
    let mut i: usize = 0;
    while i < loops.len()
        invariant
            i <= loops.len(),
            loops_text(out@, label@, loops@, i as int) == loops_text(first, label@, loops@, 0),
        decreases loops.len() - i,
    {
        let mut number = String::new();
        push_decimal(&mut number, loops[i].idx as u128);
        assert(number@ =~= decimal(loops[i as int].idx as nat));
        out.append(label);
        push_pad_right(out, number.as_str(), 6);
        out.append(" : executions ");
        push_decimal(out, loops[i].num_executions as u128);
        out.append("\n");
        i += 1;
    }
}

/// The profile of a program that the interpreter has run: for each node its
/// index, its mnemonic and how often it ran, and the loops ordered by how
/// often they ran, the simple ones apart from the others.
pub fn print_profile(commands: &Vec<Command>) -> (r: String)
    ensures
        r@ == profile_text(nodes_of(commands@)),
{
    let mut listing = Listing { text: String::new(), idx: 0, simple: Vec::new(), other: Vec::new() };
    print_profile_rec(commands, &mut listing);
    let simple_loops = sort_loops(&listing.simple);
    let non_simple_loops = sort_loops(&listing.other);
    let mut text = listing.text;
    push_loops(&mut text, "[Simple Loop]     : index ", &simple_loops);
    push_loops(&mut text, "[Non-simple Loop] : index ", &non_simple_loops);
    text
}

} // verus!
