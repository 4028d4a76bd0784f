use vstd::prelude::*;

verus! {

/// Direction in which a scan walks the tape.
#[derive(Debug, Clone, Copy, PartialEq, Eq, Structural)]
pub enum Direction {
    Left,
    Right,
}

/// Where an output takes its byte from.
#[derive(Debug, Clone, Copy, PartialEq, Eq, Structural)]
pub enum OutputType {
    /// A byte that is known when the program is compiled.
    Const(u8),
    /// The cell at an offset from the pointer.
    Cell { offset: isize },
}

/// One node of a program. Each node counts how often the interpreter ran it.
#[allow(inconsistent_fields)]
#[derive(Debug)]
pub enum Command {
    /// Moves the pointer to the right.
    IncPointer { amount: usize, count: usize },
    /// Moves the pointer to the left.
    DecPointer { amount: usize, count: usize },
    /// Adds to the cell at an offset from the pointer, modulo 256.
    IncData { offset: isize, amount: u8, count: usize },
    /// Takes from the cell at an offset from the pointer, modulo 256.
    DecData { offset: isize, amount: u8, count: usize },
    /// Stores a byte in the cell at an offset from the pointer.
    SetData { offset: isize, value: u8, count: usize },
    /// Moves the pointer by `skip_amount` while the current cell is not 0.
    Scan { id: usize, direction: Direction, skip_amount: usize, count: usize },
    /// Adds the source cell, negated where `inverted`, times the multiplier
    /// to the destination cell.
    AddOffsetData {
        dest_offset: isize,
        src_offset: isize,
        multiplier: usize,
        inverted: bool,
        count: usize,
    },
    /// Takes the source cell, negated where `inverted`, times the multiplier
    /// from the destination cell.
    SubOffsetData {
        dest_offset: isize,
        src_offset: isize,
        multiplier: usize,
        inverted: bool,
        count: usize,
    },
    /// Writes one byte.
    Output { out_type: OutputType, count: usize },
    /// Reads one byte into the cell at an offset from the pointer; 255 at
    /// the end of the input.
    Input { offset: isize, count: usize },
    /// Runs its body while the current cell is not 0. `start_count` counts
    /// every evaluation of the guard, the one that ends the loop too;
    /// `end_count` counts the turns of the body.
    Loop { id: usize, body: Vec<Command>, start_count: usize, end_count: usize },
}

/// The mathematical model of a [`Command`]: the same tree, with a sequence
/// for the body of a loop.
#[allow(inconsistent_fields)]
pub enum Node {
    IncPointer { amount: usize, count: usize },
    DecPointer { amount: usize, count: usize },
    IncData { offset: isize, amount: u8, count: usize },
    DecData { offset: isize, amount: u8, count: usize },
    SetData { offset: isize, value: u8, count: usize },
    Scan { id: usize, direction: Direction, skip_amount: usize, count: usize },
    AddOffsetData {
        dest_offset: isize,
        src_offset: isize,
        multiplier: usize,
        inverted: bool,
        count: usize,
    },
    SubOffsetData {
        dest_offset: isize,
        src_offset: isize,
        multiplier: usize,
        inverted: bool,
        count: usize,
    },
    Output { out_type: OutputType, count: usize },
    Input { offset: isize, count: usize },
    Loop { id: usize, body: Seq<Node>, start_count: usize, end_count: usize },
}

/// The model of one command.
pub open spec fn node_of(c: Command) -> Node
    decreases c, 0nat,
{
    match c {
        Command::IncPointer { amount, count } => Node::IncPointer { amount, count },
        Command::DecPointer { amount, count } => Node::DecPointer { amount, count },
        Command::IncData { offset, amount, count } => Node::IncData { offset, amount, count },
        Command::DecData { offset, amount, count } => Node::DecData { offset, amount, count },
        Command::SetData { offset, value, count } => Node::SetData { offset, value, count },
        Command::Scan { id, direction, skip_amount, count } => Node::Scan {
            id,
            direction,
            skip_amount,
            count,
        },
        Command::AddOffsetData { dest_offset, src_offset, multiplier, inverted, count } => {
            Node::AddOffsetData { dest_offset, src_offset, multiplier, inverted, count }
        },
        Command::SubOffsetData { dest_offset, src_offset, multiplier, inverted, count } => {
            Node::SubOffsetData { dest_offset, src_offset, multiplier, inverted, count }
        },
        Command::Output { out_type, count } => Node::Output { out_type, count },
        Command::Input { offset, count } => Node::Input { offset, count },
        Command::Loop { id, body, start_count, end_count } => Node::Loop {
            id,
            body: nodes_of(body@),
            start_count,
            end_count,
        },
    }
}

/// The model of a sequence of commands: the model of each, in order.
pub open spec fn nodes_of(s: Seq<Command>) -> Seq<Node>
    decreases s, 1nat,
{
    Seq::new(s.len(), |i: int| if 0 <= i < s.len() { node_of(s[i]) } else { arbitrary() })
}

impl View for Command {
    type V = Node;

    open spec fn view(&self) -> Node {
        node_of(*self)
    }
}

/// Pushing a command onto a sequence pushes its model onto the model.
pub proof fn lemma_nodes_push(s: Seq<Command>, c: Command)
    ensures
        nodes_of(s.push(c)) == nodes_of(s).push(c@),
{
    assert(nodes_of(s.push(c)) =~= nodes_of(s).push(c@));
}

/// Replacing a command replaces its model.
pub proof fn lemma_nodes_update(s: Seq<Command>, i: int, c: Command)
    requires
        0 <= i < s.len(),
    ensures
        nodes_of(s.update(i, c)) == nodes_of(s).update(i, c@),
{
    assert(nodes_of(s.update(i, c)) =~= nodes_of(s).update(i, c@));
}

impl Clone for Command {
    /// A copy with the same model: the same nodes with the same counts.
    fn clone(&self) -> (r: Self)
        ensures
            r@ == self@,
        decreases self,
    {
        match self {
            Command::IncPointer { amount, count } => Command::IncPointer {
                amount: *amount,
                count: *count,
            },
            Command::DecPointer { amount, count } => Command::DecPointer {
                amount: *amount,
                count: *count,
            },
            Command::IncData { offset, amount, count } => Command::IncData {
                offset: *offset,
                amount: *amount,
                count: *count,
            },
            Command::DecData { offset, amount, count } => Command::DecData {
                offset: *offset,
                amount: *amount,
                count: *count,
            },
            Command::SetData { offset, value, count } => Command::SetData {
                offset: *offset,
                value: *value,
                count: *count,
            },
            Command::Scan { id, direction, skip_amount, count } => Command::Scan {
                id: *id,
                direction: *direction,
                skip_amount: *skip_amount,
                count: *count,
            },
            Command::AddOffsetData { dest_offset, src_offset, multiplier, inverted, count } => {
                Command::AddOffsetData {
                    dest_offset: *dest_offset,
                    src_offset: *src_offset,
                    multiplier: *multiplier,
                    inverted: *inverted,
                    count: *count,
                }
            },
            Command::SubOffsetData { dest_offset, src_offset, multiplier, inverted, count } => {
                Command::SubOffsetData {
                    dest_offset: *dest_offset,
                    src_offset: *src_offset,
                    multiplier: *multiplier,
                    inverted: *inverted,
                    count: *count,
                }
            },
            Command::Output { out_type, count } => Command::Output {
                out_type: *out_type,
                count: *count,
            },
            Command::Input { offset, count } => Command::Input { offset: *offset, count: *count },
            Command::Loop { id, body, start_count, end_count } => {
                let mut copy: Vec<Command> = Vec::new();
                let mut i: usize = 0;
                while i < body.len()
                    invariant
                        i <= body.len(),
                        copy.len() == i,
                        nodes_of(copy@) == nodes_of(body@).subrange(0, i as int),
                        self matches Command::Loop { body: b, .. } && b == body,
                    decreases body.len() - i,
                {
                    let item = body[i].clone();
                    proof {
                        lemma_nodes_push(copy@, item);
                        assert(nodes_of(body@).subrange(0, i as int).push(body@[i as int]@)
                            =~= nodes_of(body@).subrange(0, i + 1));
                    }
                    copy.push(item);
                    i += 1;
                }
                assert(nodes_of(copy@) =~= nodes_of(body@));
                Command::Loop {
                    id: *id,
                    body: copy,
                    start_count: *start_count,
                    end_count: *end_count,
                }
            },
        }
    }
}

} // verus!
