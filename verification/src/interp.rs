use vstd::prelude::*;
use crate::ir::{Command, Direction, Node, OutputType, nodes_of, lemma_nodes_update};
use crate::refinement::{lemma_interp_refines, same_code};
use crate::semantics::{apply, halts_with, scaled, stride, Machine};

verus! {

/// The number of cells of the interpreter's tape.
pub const TAPE_SIZE: usize = 0x100000;

/// The cell at which the interpreter's pointer starts: the middle of the tape.
pub const START: usize = 0x80000;

/// Why the interpreter stopped.
#[derive(Debug, Clone, Copy, PartialEq, Eq, Structural)]
pub enum Stop {
    /// The program came to its end.
    Done,
    /// A loop or scan had no fuel left for another turn.
    OutOfFuel,
    /// A node reached for a cell beyond either end of the tape, or the
    /// pointer left the range of machine integers.
    OffTape,
}

/// A count after one more execution; it stays at the largest value once there.
pub open spec fn bump(c: usize) -> usize {
    if c < usize::MAX {
        (c + 1) as usize
    } else {
        c
    }
}

/// The node with its count raised by one execution. Of a loop, the count of
/// guard evaluations is raised: for the evaluation at the loop's entry.
pub open spec fn counted(n: Node) -> Node {
    match n {
        Node::IncPointer { amount, count } => Node::IncPointer { amount, count: bump(count) },
        Node::DecPointer { amount, count } => Node::DecPointer { amount, count: bump(count) },
        Node::IncData { offset, amount, count } => Node::IncData {
            offset,
            amount,
            count: bump(count),
        },
        Node::DecData { offset, amount, count } => Node::DecData {
            offset,
            amount,
            count: bump(count),
        },
        Node::SetData { offset, value, count } => Node::SetData { offset, value, count: bump(count) },
        Node::Scan { id, direction, skip_amount, count } => Node::Scan {
            id,
            direction,
            skip_amount,
            count: bump(count),
        },
        Node::AddOffsetData { dest_offset, src_offset, multiplier, inverted, count } => {
            Node::AddOffsetData { dest_offset, src_offset, multiplier, inverted, count: bump(count) }
        },
        Node::SubOffsetData { dest_offset, src_offset, multiplier, inverted, count } => {
            Node::SubOffsetData { dest_offset, src_offset, multiplier, inverted, count: bump(count) }
        },
        Node::Output { out_type, count } => Node::Output { out_type, count: bump(count) },
        Node::Input { offset, count } => Node::Input { offset, count: bump(count) },
        Node::Loop { id, body, start_count, end_count } => Node::Loop {
            id,
            body,
            start_count: bump(start_count),
            end_count,
        },
    }
}

/// The cell at an offset from the pointer lies on a tape of `size` cells.
pub open spec fn on_tape(m: Machine, offset: int, size: nat) -> bool {
    0 <= m.ptr + offset < size
}

/// A node other than a loop or a scan can be done on a tape of `size` cells:
/// each cell that it reads or writes lies on the tape, and a pointer move
/// stays in the range of machine integers.
pub open spec fn in_reach(n: Node, m: Machine, size: nat) -> bool {
    match n {
        Node::IncPointer { amount, .. } => m.ptr + amount <= usize::MAX,
        Node::DecPointer { amount, .. } => m.ptr - amount >= 0,
        Node::IncData { offset, .. } => on_tape(m, offset as int, size),
        Node::DecData { offset, .. } => on_tape(m, offset as int, size),
        Node::SetData { offset, .. } => on_tape(m, offset as int, size),
        Node::AddOffsetData { dest_offset, src_offset, .. } => on_tape(m, dest_offset as int, size)
            && on_tape(m, src_offset as int, size),
        Node::SubOffsetData { dest_offset, src_offset, .. } => on_tape(m, dest_offset as int, size)
            && on_tape(m, src_offset as int, size),
        Node::Output { out_type, .. } => match out_type {
            OutputType::Const(_) => true,
            OutputType::Cell { offset } => on_tape(m, offset as int, size),
        },
        Node::Input { offset, .. } => on_tape(m, offset as int, size),
        Node::Scan { .. } => true,
        Node::Loop { .. } => true,
    }
}

/// What executing one node leaves: the node with its counts, the machine, and
/// why execution stopped there (`Done` where it went through).
pub struct NodeTrace {
    pub node: Node,
    pub m: Machine,
    pub stop: Stop,
}

/// What executing a sequence of nodes leaves.
pub struct Trace {
    pub nodes: Seq<Node>,
    pub m: Machine,
    pub stop: Stop,
}

/// The moves of a scan, from the test of the current cell on.
pub open spec fn exec_scan(n: Node, m: Machine, fuel: nat, size: nat) -> NodeTrace
    decreases fuel,
{
    if !on_tape(m, 0, size) {
        NodeTrace { node: n, m, stop: Stop::OffTape }
    } else if m.at(0) == 0 {
        NodeTrace { node: n, m, stop: Stop::Done }
    } else if fuel == 0 {
        NodeTrace { node: n, m, stop: Stop::OutOfFuel }
    } else {
        match n {
            Node::Scan { direction, skip_amount, .. } => {
                let to = m.ptr + stride(direction, skip_amount);
                if 0 <= to <= usize::MAX {
                    exec_scan(n, m.shift(stride(direction, skip_amount)), (fuel - 1) as nat, size)
                } else {
                    NodeTrace { node: n, m, stop: Stop::OffTape }
                }
            },
            _ => NodeTrace { node: n, m, stop: Stop::Done },
        }
    }
}

/// The turns of a loop whose guard has just been found to hold. After each
/// turn the guard is evaluated again, and counted, whatever it gives.
pub open spec fn exec_turns(
    id: usize,
    body: Seq<Node>,
    start_count: usize,
    end_count: usize,
    m: Machine,
    fuel: nat,
    size: nat,
) -> NodeTrace
    decreases fuel, 0nat,
{
    if fuel == 0 {
        NodeTrace { node: Node::Loop { id, body, start_count, end_count }, m, stop: Stop::OutOfFuel }
    } else {
        let t = exec_from(body, 0, m, (fuel - 1) as nat, size);
        let tested = Node::Loop {
            id,
            body: t.nodes,
            start_count: bump(start_count),
            end_count: bump(end_count),
        };
        if t.stop != Stop::Done {
            NodeTrace {
                node: Node::Loop { id, body: t.nodes, start_count, end_count },
                m: t.m,
                stop: t.stop,
            }
        } else if !on_tape(t.m, 0, size) {
            NodeTrace { node: tested, m: t.m, stop: Stop::OffTape }
        } else if t.m.at(0) == 0 {
            NodeTrace { node: tested, m: t.m, stop: Stop::Done }
        } else {
            exec_turns(
                id,
                t.nodes,
                bump(start_count),
                bump(end_count),
                t.m,
                (fuel - 1) as nat,
                size,
            )
        }
    }
}

/// The execution of one node on a tape of `size` cells.
///
/// The node's count is raised first, whatever comes of it. A node that cannot
/// be done on the tape leaves the machine as it was.
pub open spec fn exec_node(n: Node, m: Machine, fuel: nat, size: nat) -> NodeTrace
    decreases fuel, 1nat,
{
    match n {
        Node::Loop { id, body, start_count, end_count } => {
            if !on_tape(m, 0, size) {
                NodeTrace { node: counted(n), m, stop: Stop::OffTape }
            } else if m.at(0) == 0 {
                NodeTrace { node: counted(n), m, stop: Stop::Done }
            } else {
                exec_turns(id, body, bump(start_count), end_count, m, fuel, size)
            }
        },
        Node::Scan { .. } => exec_scan(counted(n), m, fuel, size),
        _ => if in_reach(n, m, size) {
            NodeTrace { node: counted(n), m: apply(n, m), stop: Stop::Done }
        } else {
            NodeTrace { node: counted(n), m, stop: Stop::OffTape }
        },
    }
}

/// The execution of the nodes `s[i..]` on a tape of `size` cells.
pub open spec fn exec_from(s: Seq<Node>, i: int, m: Machine, fuel: nat, size: nat) -> Trace
    decreases fuel, 2 + s.len() - i,
{
    if i < 0 || i >= s.len() {
        Trace { nodes: s, m, stop: Stop::Done }
    } else {
        let t = exec_node(s[i], m, fuel, size);
        if t.stop != Stop::Done {
            Trace { nodes: s.update(i, t.node), m: t.m, stop: t.stop }
        } else {
            exec_from(s.update(i, t.node), i + 1, t.m, fuel, size)
        }
    }
}

/// The execution of a whole program from the interpreter's start.
pub open spec fn interp_trace(s: Seq<Node>, input: Seq<u8>, fuel: nat) -> Trace {
    exec_from(s, 0, Machine::start(START as int, input), fuel, TAPE_SIZE as nat)
}

/// The interpreter's machine: a tape with two ends, the pointer, how much of
/// the input is read and what is written.
pub struct State {
    pub tape: Vec<u8>,
    pub pointer: usize,
    pub consumed: usize,
    pub output: Vec<u8>,
}

impl State {
    /// The abstract machine that this state stands for, given the whole
    /// input: the cells beyond the ends of the tape hold 0.
    pub open spec fn machine(&self, input: Seq<u8>) -> Machine {
        Machine {
            tape: Map::new(
                |a: int| true,
                |a: int| if 0 <= a < self.tape@.len() { self.tape@[a] } else { 0u8 },
            ),
            ptr: self.pointer as int,
            input: input.subrange(self.consumed as int, input.len() as int),
            output: self.output@,
        }
    }

    /// No more is read than the input holds.
    pub open spec fn wf(&self, input: Seq<u8>) -> bool {
        self.consumed <= input.len()
    }
}

/// What the interpreter hands back.
pub struct Outcome {
    pub stop: Stop,
    pub state: State,
}

/// The index of the cell at an offset from the pointer, where it lies on the tape.
fn cell_index(st: &State, offset: isize, Ghost(input): Ghost<Seq<u8>>) -> (r: Option<usize>)
    ensures
        r is Some <==> on_tape(st.machine(input), offset as int, st.tape@.len()),
        r matches Some(a) ==> a == st.pointer + offset && st.tape@[a as int] == st.machine(input).at(
            offset as int,
        ),
{
    let at: i128 = st.pointer as i128 + offset as i128;
    if at >= 0 && at < st.tape.len() as i128 {
        Some(at as usize)
    } else {
        None
    }
}

/// Stores a byte in the cell with the given index.
fn put(st: &mut State, index: usize, offset: isize, value: u8, Ghost(input): Ghost<Seq<u8>>)
    requires
        index < old(st).tape@.len(),
        index == old(st).pointer + offset,
    ensures
        final(st).machine(input) == old(st).machine(input).store(offset as int, value),
        final(st).tape@.len() == old(st).tape@.len(),
        final(st).consumed == old(st).consumed,
        final(st).pointer == old(st).pointer,
{
    st.tape[index] = value;
    assert(st.machine(input).tape =~= old(st).machine(input).store(offset as int, value).tape);
}

/// Raises a count by one execution.
fn raise(count: &mut usize)
    ensures
        *final(count) == bump(*old(count)),
{
    if *count < usize::MAX {
        *count = *count + 1;
    }
}

/// The byte that an offset addition adds or an offset subtraction takes away.
pub(crate) fn scaled_byte(source: u8, multiplier: usize, inverted: bool) -> (r: u8)
    ensures
        r == scaled(source, multiplier, inverted),
{
    let factor: u8 = if inverted { 0u8.wrapping_sub(source) } else { source };
    let low: u8 = (multiplier % 256) as u8;
    assert(factor * low <= 255 * 255) by (nonlinear_arith)
        requires
            0 <= factor <= 255,
            0 <= low <= 255,
    ;
    let product: u16 = factor as u16 * low as u16;
    proof {
        vstd::arithmetic::div_mod::lemma_mul_mod_noop_right(
            factor as int,
            multiplier as int,
            256,
        );
    }
    (product % 256) as u8
}

/// Executes a node other than a loop or a scan.
fn exec_plain(c: &mut Command, st: &mut State, input: &Vec<u8>) -> (stop: Stop)
    requires
        old(st).wf(input@),
        !(old(c)@ is Loop),
        !(old(c)@ is Scan),
    ensures
        final(st).wf(input@),
        final(st).tape@.len() == old(st).tape@.len(),
        final(c)@ == counted(old(c)@),
        in_reach(old(c)@, old(st).machine(input@), old(st).tape@.len()) ==> stop == Stop::Done
            && final(st).machine(input@) == apply(old(c)@, old(st).machine(input@)),
        !in_reach(old(c)@, old(st).machine(input@), old(st).tape@.len()) ==> stop == Stop::OffTape
            && final(st).machine(input@) == old(st).machine(input@),
{
    let ghost m = st.machine(input@);
    let ghost all = input@;
    match c {
        Command::IncPointer { amount, count } => {
            raise(count);
            match st.pointer.checked_add(*amount) {
                Some(to) => {
                    st.pointer = to;
                    assert(st.machine(all).tape =~= m.tape);
                    Stop::Done
                },
                None => Stop::OffTape,
            }
        },
        Command::DecPointer { amount, count } => {
            raise(count);
            match st.pointer.checked_sub(*amount) {
                Some(to) => {
                    st.pointer = to;
                    assert(st.machine(all).tape =~= m.tape);
                    Stop::Done
                },
                None => Stop::OffTape,
            }
        },
        Command::IncData { offset, amount, count } => {
            raise(count);
            match cell_index(st, *offset, Ghost(all)) {
                Some(at) => {
                    let value = st.tape[at].wrapping_add(*amount);
                    put(st, at, *offset, value, Ghost(all));
                    Stop::Done
                },
                None => Stop::OffTape,
            }
        },
        Command::DecData { offset, amount, count } => {
            raise(count);
            match cell_index(st, *offset, Ghost(all)) {
                Some(at) => {
                    let value = st.tape[at].wrapping_sub(*amount);
                    put(st, at, *offset, value, Ghost(all));
                    Stop::Done
                },
                None => Stop::OffTape,
            }
        },
        Command::SetData { offset, value, count } => {
            raise(count);
            match cell_index(st, *offset, Ghost(all)) {
                Some(at) => {
                    put(st, at, *offset, *value, Ghost(all));
                    Stop::Done
                },
                None => Stop::OffTape,
            }
        },
        Command::AddOffsetData { dest_offset, src_offset, multiplier, inverted, count } => {
            raise(count);
            match (cell_index(st, *dest_offset, Ghost(all)), cell_index(st, *src_offset, Ghost(all))) {
                (Some(dest), Some(src)) => {
                    let by = scaled_byte(st.tape[src], *multiplier, *inverted);
                    let value = st.tape[dest].wrapping_add(by);
                    put(st, dest, *dest_offset, value, Ghost(all));
                    Stop::Done
                },
                _ => Stop::OffTape,
            }
        },
        Command::SubOffsetData { dest_offset, src_offset, multiplier, inverted, count } => {
            raise(count);
            match (cell_index(st, *dest_offset, Ghost(all)), cell_index(st, *src_offset, Ghost(all))) {
                (Some(dest), Some(src)) => {
                    let by = scaled_byte(st.tape[src], *multiplier, *inverted);
                    let value = st.tape[dest].wrapping_sub(by);
                    put(st, dest, *dest_offset, value, Ghost(all));
                    Stop::Done
                },
                _ => Stop::OffTape,
            }
        },
        Command::Output { out_type, count } => {
            raise(count);
            match out_type {
                OutputType::Const(value) => {
                    st.output.push(*value);
                    assert(st.machine(all).tape =~= m.tape);
                    Stop::Done
                },
                OutputType::Cell { offset } => match cell_index(st, *offset, Ghost(all)) {
                    Some(at) => {
                        let value = st.tape[at];
                        st.output.push(value);
                        assert(st.machine(all).tape =~= m.tape);
                        Stop::Done
                    },
                    None => Stop::OffTape,
                },
            }
        },
        Command::Input { offset, count } => {
            raise(count);
            match cell_index(st, *offset, Ghost(all)) {
                Some(at) => {
                    if st.consumed < input.len() {
                        let value = input[st.consumed];
                        put(st, at, *offset, value, Ghost(all));
                        let ghost mid = st.machine(all);
                        st.consumed = st.consumed + 1;
                        assert(st.machine(all).tape =~= mid.tape);
                        assert(st.machine(all).input =~= m.input.drop_first());
                    } else {
                        put(st, at, *offset, 255, Ghost(all));
                    }
                    Stop::Done
                },
                None => Stop::OffTape,
            }
        },
        _ => Stop::Done,
    }
}

/// Makes the moves of a scan.
#[verifier::loop_isolation(false)]
fn exec_scan_moves(
    direction: Direction,
    skip_amount: usize,
    st: &mut State,
    input: &Vec<u8>,
    fuel: usize,
    Ghost(n): Ghost<Node>,
) -> (stop: Stop)
    requires
        old(st).wf(input@),
        n matches Node::Scan { direction: d, skip_amount: k, .. } && d == direction && k
            == skip_amount,
    ensures
        final(st).wf(input@),
        final(st).tape@.len() == old(st).tape@.len(),
        exec_scan(n, old(st).machine(input@), fuel as nat, old(st).tape@.len()) == (NodeTrace {
            node: n,
            m: final(st).machine(input@),
            stop,
        }),
{
    let ghost all = input@;
    let ghost size = st.tape@.len();
    let ghost first = st.machine(all);
    let mut left = fuel;
    loop
        invariant
            st.wf(all),
            st.tape@.len() == size,
            n matches Node::Scan { direction: d, skip_amount: k, .. } && d == direction && k
                == skip_amount,
            exec_scan(n, st.machine(all), left as nat, size) == exec_scan(
                n,
                first,
                fuel as nat,
                size,
            ),
        decreases left,
    {
        let ghost m = st.machine(all);
        if st.pointer >= st.tape.len() {
            return Stop::OffTape;
        }
        if st.tape[st.pointer] == 0 {
            return Stop::Done;
        }
        if left == 0 {
            return Stop::OutOfFuel;
        }
        let to = match direction {
            Direction::Right => st.pointer.checked_add(skip_amount),
            Direction::Left => st.pointer.checked_sub(skip_amount),
        };
        match to {
            Some(to) => {
                st.pointer = to;
                assert(st.machine(all).tape =~= m.tape);
                assert(st.machine(all) == m.shift(stride(direction, skip_amount)));
            },
            None => {
                return Stop::OffTape;
            },
        }
        left = left - 1;
    }
}

/// Executes one node.
#[verifier::loop_isolation(false)]
fn exec_command(c: &mut Command, st: &mut State, input: &Vec<u8>, fuel: usize) -> (stop: Stop)
    requires
        old(st).wf(input@),
    ensures
        final(st).wf(input@),
        final(st).tape@.len() == old(st).tape@.len(),
        exec_node(old(c)@, old(st).machine(input@), fuel as nat, old(st).tape@.len()) == (NodeTrace {
            node: final(c)@,
            m: final(st).machine(input@),
            stop,
        }),
    decreases fuel, 1nat,
{
    let ghost all = input@;
    let ghost size = st.tape@.len();
    let ghost first = st.machine(all);
    let ghost before = c@;
    match c {
        Command::Loop { id, body, start_count, end_count } => {
            raise(start_count);
            if st.pointer >= st.tape.len() {
                return Stop::OffTape;
            }
            if st.tape[st.pointer] == 0 {
                return Stop::Done;
            }
            let ghost want = exec_node(before, first, fuel as nat, size);
            let mut left = fuel;
            loop
                invariant
                    st.wf(all),
                    st.tape@.len() == size,
                    left <= fuel,
                    exec_turns(
                        *id,
                        nodes_of(body@),
                        *start_count,
                        *end_count,
                        st.machine(all),
                        left as nat,
                        size,
                    ) == want,
                decreases left,
            {
                if left == 0 {
                    return Stop::OutOfFuel;
                }
                let stop = exec_commands(body, st, input, left - 1);
                if stop != Stop::Done {
                    return stop;
                }
                raise(end_count);
                raise(start_count);
                if st.pointer >= st.tape.len() {
                    return Stop::OffTape;
                }
                if st.tape[st.pointer] == 0 {
                    return Stop::Done;
                }
                left = left - 1;
            }
        },
        Command::Scan { direction, skip_amount, count, .. } => {
            raise(count);
            exec_scan_moves(*direction, *skip_amount, st, input, fuel, Ghost(counted(before)))
        },
        _ => exec_plain(c, st, input),
    }
}

/// Executes a sequence of nodes.
#[verifier::loop_isolation(false)]
fn exec_commands(
    commands: &mut Vec<Command>,
    st: &mut State,
    input: &Vec<u8>,
    fuel: usize,
) -> (stop:
    Stop)
    requires
        old(st).wf(input@),
    ensures
        final(st).wf(input@),
        final(st).tape@.len() == old(st).tape@.len(),
        exec_from(nodes_of(old(commands)@), 0, old(st).machine(input@), fuel as nat, old(st).tape@.len())
            == (Trace { nodes: nodes_of(final(commands)@), m: final(st).machine(input@), stop }),
    decreases fuel, 2nat,
{
    let ghost all = input@;
    let ghost size = st.tape@.len();
    let ghost want = exec_from(nodes_of(commands@), 0, st.machine(all), fuel as nat, size);
    let mut pc: usize = 0;
    while pc < commands.len()
        invariant
            st.wf(all),
            st.tape@.len() == size,
            pc <= commands.len(),
            exec_from(nodes_of(commands@), pc as int, st.machine(all), fuel as nat, size) == want,
        decreases commands.len() - pc,
    {
        let ghost before = commands@;
        let ghost m = st.machine(all);
        assert(nodes_of(before)[pc as int] == before[pc as int]@);
        let stop = exec_command(&mut commands[pc], st, input, fuel);
        proof {
            lemma_nodes_update(before, pc as int, commands@[pc as int]);
            assert(commands@ =~= before.update(pc as int, commands@[pc as int]));
        }
        if stop != Stop::Done {
            return stop;
        }
        pc += 1;
    }
    Stop::Done
}

/// Runs a program on a fresh tape of `TAPE_SIZE` zeros with the pointer at
/// `START`, reading from `input`, and counts in each node how often it ran.
///
/// `fuel` bounds how often loops repeat: each turn of a loop or scan leaves
/// one unit less for the body of that turn and for the turns after it.
///
/// Nothing of the program changes but counts. Where the interpreter comes to
/// the program's end, it leaves what the program leaves on a tape without ends.
pub fn interp(commands: &mut Vec<Command>, input: &Vec<u8>, fuel: usize) -> (r: Outcome)
    ensures
        interp_trace(nodes_of(old(commands)@), input@, fuel as nat) == (Trace {
            nodes: nodes_of(final(commands)@),
            m: r.state.machine(input@),
            stop: r.stop,
        }),
        r.state.tape@.len() == TAPE_SIZE,
        same_code(nodes_of(final(commands)@), nodes_of(old(commands)@)),
        r.stop == Stop::Done ==> halts_with(
            nodes_of(old(commands)@),
            Machine::start(START as int, input@),
            r.state.machine(input@),
        ),
{
    proof {
        lemma_interp_refines(nodes_of(commands@), input@, fuel as nat);
    }
    let tape: Vec<u8> = vec![0u8; TAPE_SIZE];
    let mut st = State { tape, pointer: START, consumed: 0, output: Vec::new() };
    assert(st.machine(input@).tape =~= Machine::start(START as int, input@).tape);
    assert(st.machine(input@).input =~= input@);
    let stop = exec_commands(commands, &mut st, input, fuel);
    Outcome { stop, state: st }
}

} // verus!
