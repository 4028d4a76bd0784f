use std::collections::HashMap;
use vstd::prelude::*;
use crate::interp::scaled_byte;
use crate::ir::{Command, Direction, Node, OutputType, nodes_of, lemma_nodes_push};
use crate::residual::lemma_partial_eval_sound;
use crate::semantics::{halts_with, scaled, wrap, Machine};

verus! {

broadcast use vstd::std_specs::hash::group_hash_axioms;

/// The cell at which the evaluated program's pointer starts.
pub const INIT_POINTER_LOC: usize = 0x4000;

/// How often the evaluator lets loops repeat before it gives up: each turn of
/// a loop or scan leaves one unit less for that turn's body and for the
/// turns after it.
pub const EVAL_FUEL: usize = 1000000;

/// What the evaluator knows of a cell: its byte, or nothing.
#[derive(Debug, Clone, Copy, PartialEq, Eq, Structural)]
pub enum AbstractCell {
    Value(u8),
    Top,
}

/// Why the evaluator stops evaluating.
#[derive(Debug, Clone, Copy, PartialEq, Eq, Structural)]
pub enum GiveUp {
    /// A scan stands on a cell of which nothing is known.
    TopScan,
    /// A loop tests a cell of which nothing is known, and its body does not
    /// bring the pointer back to where it began.
    Unbalanced,
    /// The pointer or the index of a cell leaves the range of machine integers.
    OutOfRange,
    /// A loop or scan repeats more often than the evaluator follows.
    OutOfFuel,
}

/// An input or output that the evaluated program makes, with the pointer at
/// which it makes it.
pub struct Event {
    pub node: Node,
    pub pointer: usize,
}

/// The evaluator's state while it evaluates one command of the program.
pub struct Abs {
    /// What is known of the cells; a cell without an entry holds 0.
    pub tape: Map<usize, AbstractCell>,
    /// Where the program's pointer stands.
    pub pointer: usize,
    /// Whether everything that the command did so far is known: it is not
    /// once the command has computed with a cell of which nothing is known.
    pub certain: bool,
    /// The cells that the command has written, in the order of their first writing.
    pub touched: Seq<usize>,
    /// For each cell in `touched`, what the residual program's tape holds
    /// there: the byte from before the command, or nothing known once the
    /// command has read input into it.
    pub held: Map<usize, AbstractCell>,
    /// The inputs and outputs that the command has made.
    pub events: Seq<Event>,
}

/// What is known of the cell with index `a`.
pub open spec fn cell(tape: Map<usize, AbstractCell>, a: usize) -> AbstractCell {
    if tape.dom().contains(a) {
        tape[a]
    } else {
        AbstractCell::Value(0)
    }
}

/// The index of the cell at an offset from the pointer, where it is a machine integer.
pub open spec fn address(pointer: usize, offset: isize) -> Option<usize> {
    if 0 <= pointer + offset <= usize::MAX {
        Some((pointer + offset) as usize)
    } else {
        None
    }
}

/// The state for a new command.
pub open spec fn fresh(tape: Map<usize, AbstractCell>, pointer: usize) -> Abs {
    Abs {
        tape,
        pointer,
        certain: true,
        touched: Seq::empty(),
        held: Map::empty(),
        events: Seq::empty(),
    }
}

/// The state after a write to a cell.
pub open spec fn set_cell(st: Abs, a: usize, c: AbstractCell) -> Abs {
    if st.held.dom().contains(a) {
        Abs { tape: st.tape.insert(a, c), ..st }
    } else {
        Abs {
            tape: st.tape.insert(a, c),
            touched: st.touched.push(a),
            held: st.held.insert(a, cell(st.tape, a)),
            ..st
        }
    }
}

/// The state after the program has read input into a cell.
pub open spec fn read_into(st: Abs, a: usize) -> Abs {
    let w = set_cell(st, a, AbstractCell::Top);
    Abs { held: w.held.insert(a, AbstractCell::Top), ..w }
}

/// The state with an input or output noted at the current pointer.
pub open spec fn record(st: Abs, n: Node) -> Abs {
    Abs { events: st.events.push(Event { node: n, pointer: st.pointer }), ..st }
}

/// The state once the command has computed with something unknown.
pub open spec fn lose(st: Abs) -> Abs {
    Abs { certain: false, ..st }
}

/// The state with the pointer moved.
pub open spec fn move_to(st: Abs, pointer: usize) -> Abs {
    Abs { pointer, ..st }
}

/// The evaluation of a node other than a loop or a scan.
pub open spec fn eval_plain(n: Node, st: Abs) -> Result<Abs, GiveUp> {
    match n {
        Node::IncPointer { amount, .. } => if st.pointer + amount <= usize::MAX {
            Ok(move_to(st, (st.pointer + amount) as usize))
        } else {
            Err(GiveUp::OutOfRange)
        },
        Node::DecPointer { amount, .. } => if st.pointer - amount >= 0 {
            Ok(move_to(st, (st.pointer - amount) as usize))
        } else {
            Err(GiveUp::OutOfRange)
        },
        Node::IncData { offset, amount, .. } => match address(st.pointer, offset) {
            Some(a) => match cell(st.tape, a) {
                AbstractCell::Value(v) => Ok(set_cell(st, a, AbstractCell::Value(wrap(v + amount)))),
                AbstractCell::Top => Ok(lose(st)),
            },
            None => Err(GiveUp::OutOfRange),
        },
        Node::DecData { offset, amount, .. } => match address(st.pointer, offset) {
            Some(a) => match cell(st.tape, a) {
                AbstractCell::Value(v) => Ok(set_cell(st, a, AbstractCell::Value(wrap(v - amount)))),
                AbstractCell::Top => Ok(lose(st)),
            },
            None => Err(GiveUp::OutOfRange),
        },
        Node::SetData { offset, value, .. } => match address(st.pointer, offset) {
            Some(a) => Ok(set_cell(st, a, AbstractCell::Value(value))),
            None => Err(GiveUp::OutOfRange),
        },
        Node::AddOffsetData { dest_offset, src_offset, multiplier, inverted, .. } => match (
            address(st.pointer, dest_offset),
            address(st.pointer, src_offset),
        ) {
            (Some(dest), Some(src)) => match (cell(st.tape, dest), cell(st.tape, src)) {
                (AbstractCell::Value(d), AbstractCell::Value(s)) => Ok(
                    set_cell(st, dest, AbstractCell::Value(wrap(d + scaled(s, multiplier, inverted)))),
                ),
                _ => Ok(lose(set_cell(st, dest, AbstractCell::Top))),
            },
            _ => Err(GiveUp::OutOfRange),
        },
        Node::SubOffsetData { dest_offset, src_offset, multiplier, inverted, .. } => match (
            address(st.pointer, dest_offset),
            address(st.pointer, src_offset),
        ) {
            (Some(dest), Some(src)) => match (cell(st.tape, dest), cell(st.tape, src)) {
                (AbstractCell::Value(d), AbstractCell::Value(s)) => Ok(
                    set_cell(st, dest, AbstractCell::Value(wrap(d - scaled(s, multiplier, inverted)))),
                ),
                _ => Ok(lose(set_cell(st, dest, AbstractCell::Top))),
            },
            _ => Err(GiveUp::OutOfRange),
        },
        Node::Output { out_type, .. } => match out_type {
            OutputType::Const(_) => Ok(record(st, n)),
            OutputType::Cell { offset } => match address(st.pointer, offset) {
                Some(a) => match cell(st.tape, a) {
                    AbstractCell::Value(v) => Ok(
                        record(st, Node::Output { out_type: OutputType::Const(v), count: 0 }),
                    ),
                    AbstractCell::Top => Ok(record(st, n)),
                },
                None => Err(GiveUp::OutOfRange),
            },
        },
        Node::Input { offset, .. } => match address(st.pointer, offset) {
            Some(a) => Ok(record(read_into(st, a), n)),
            None => Err(GiveUp::OutOfRange),
        },
        Node::Scan { .. } => Ok(st),
        Node::Loop { .. } => Ok(st),
    }
}

/// The pointer after one move of a scan, where it is a machine integer.
pub open spec fn scan_target(pointer: usize, direction: Direction, skip_amount: usize) -> Option<
    usize,
> {
    match direction {
        Direction::Right => if pointer + skip_amount <= usize::MAX {
            Some((pointer + skip_amount) as usize)
        } else {
            None
        },
        Direction::Left => if pointer - skip_amount >= 0 {
            Some((pointer - skip_amount) as usize)
        } else {
            None
        },
    }
}

/// The evaluation of a scan: it walks on while it stands on a known byte
/// other than 0, and gives up on a cell of which nothing is known.
pub open spec fn eval_scan(direction: Direction, skip_amount: usize, st: Abs, fuel: nat) -> Result<
    Abs,
    GiveUp,
>
    decreases fuel,
{
    match cell(st.tape, st.pointer) {
        AbstractCell::Value(v) => if v == 0 {
            Ok(st)
        } else if fuel == 0 {
            Err(GiveUp::OutOfFuel)
        } else {
            match scan_target(st.pointer, direction, skip_amount) {
                Some(to) => eval_scan(direction, skip_amount, move_to(st, to), (fuel - 1) as nat),
                None => Err(GiveUp::OutOfRange),
            }
        },
        AbstractCell::Top => Err(GiveUp::TopScan),
    }
}

/// Where the pointer stands, relative to where it stood before, after a node
/// of a loop body whose pointer moves can be foreseen; `None` where they
/// cannot: at a scan that moves, at a loop whose body does not come back to
/// where it began, or where a position leaves the range of an offset.
pub open spec fn settle_node(n: Node, rel: int) -> Option<int>
    decreases n, 0nat,
{
    match n {
        Node::IncPointer { amount, .. } => if rel + amount <= isize::MAX {
            Some(rel + amount)
        } else {
            None
        },
        Node::DecPointer { amount, .. } => if rel - amount >= isize::MIN {
            Some(rel - amount)
        } else {
            None
        },
        Node::Scan { skip_amount, .. } => if skip_amount == 0 {
            Some(rel)
        } else {
            None
        },
        Node::Loop { body, .. } => match settle_from(body, 0, rel) {
            Some(end) => if end == rel {
                Some(rel)
            } else {
                None
            },
            None => None,
        },
        _ => Some(rel),
    }
}

/// Where the pointer stands after the nodes `s[i..]`, as `settle_node` sees it.
pub open spec fn settle_from(s: Seq<Node>, i: int, rel: int) -> Option<int>
    decreases s, s.len() - i,
{
    if i < 0 || i >= s.len() {
        Some(rel)
    } else {
        match settle_node(s[i], rel) {
            Some(next) => settle_from(s, i + 1, next),
            None => None,
        }
    }
}

/// A loop is balanced where its body, and the body of every loop in it,
/// brings the pointer back to where it began on every path.
pub open spec fn balanced(n: Node) -> bool {
    settle_node(n, 0) is Some
}

/// What one uncertain pass makes of a node: every cell that the node may
/// write is a cell of which nothing is known any more.
pub open spec fn widen_node(n: Node, st: Abs) -> Result<Abs, GiveUp>
    decreases n, 0nat,
{
    match n {
        Node::IncPointer { .. } => eval_plain(n, st),
        Node::DecPointer { .. } => eval_plain(n, st),
        Node::IncData { offset, .. } => match address(st.pointer, offset) {
            Some(a) => Ok(set_cell(st, a, AbstractCell::Top)),
            None => Err(GiveUp::OutOfRange),
        },
        Node::DecData { offset, .. } => match address(st.pointer, offset) {
            Some(a) => Ok(set_cell(st, a, AbstractCell::Top)),
            None => Err(GiveUp::OutOfRange),
        },
        Node::SetData { offset, .. } => match address(st.pointer, offset) {
            Some(a) => Ok(set_cell(st, a, AbstractCell::Top)),
            None => Err(GiveUp::OutOfRange),
        },
        Node::Input { offset, .. } => match address(st.pointer, offset) {
            Some(a) => Ok(set_cell(st, a, AbstractCell::Top)),
            None => Err(GiveUp::OutOfRange),
        },
        Node::AddOffsetData { dest_offset, .. } => match address(st.pointer, dest_offset) {
            Some(a) => Ok(set_cell(st, a, AbstractCell::Top)),
            None => Err(GiveUp::OutOfRange),
        },
        Node::SubOffsetData { dest_offset, .. } => match address(st.pointer, dest_offset) {
            Some(a) => Ok(set_cell(st, a, AbstractCell::Top)),
            None => Err(GiveUp::OutOfRange),
        },
        Node::Output { .. } => Ok(st),
        Node::Scan { skip_amount, .. } => if skip_amount == 0 {
            Ok(st)
        } else {
            Err(GiveUp::Unbalanced)
        },
        Node::Loop { body, .. } => match widen_from(body, 0, st) {
            Ok(after) => if after.pointer == st.pointer {
                Ok(after)
            } else {
                Err(GiveUp::Unbalanced)
            },
            Err(e) => Err(e),
        },
    }
}

/// One uncertain pass over the nodes `s[i..]`.
pub open spec fn widen_from(s: Seq<Node>, i: int, st: Abs) -> Result<Abs, GiveUp>
    decreases s, s.len() - i,
{
    if i < 0 || i >= s.len() {
        Ok(st)
    } else {
        match widen_node(s[i], st) {
            Ok(after) => widen_from(s, i + 1, after),
            Err(e) => Err(e),
        }
    }
}

/// The evaluation of one node.
///
/// A loop that tests a known byte is followed turn by turn. A loop that
/// tests a cell of which nothing is known is joined by one uncertain pass
/// where it is balanced; the evaluation gives up where it is not.
pub open spec fn eval_node(n: Node, st: Abs, fuel: nat) -> Result<Abs, GiveUp>
    decreases fuel, 0nat,
{
    match n {
        Node::Scan { direction, skip_amount, .. } => eval_scan(direction, skip_amount, st, fuel),
        Node::Loop { body, .. } => match cell(st.tape, st.pointer) {
            AbstractCell::Value(v) => if v == 0 {
                Ok(st)
            } else if fuel == 0 {
                Err(GiveUp::OutOfFuel)
            } else {
                match eval_from(body, 0, st, (fuel - 1) as nat) {
                    Ok(after) => eval_node(n, after, (fuel - 1) as nat),
                    Err(e) => Err(e),
                }
            },
            AbstractCell::Top => if balanced(n) {
                match widen_node(n, st) {
                    Ok(after) => Ok(lose(after)),
                    Err(e) => Err(e),
                }
            } else {
                Err(GiveUp::Unbalanced)
            },
        },
        _ => eval_plain(n, st),
    }
}

/// The evaluation of the nodes `s[i..]`.
pub open spec fn eval_from(s: Seq<Node>, i: int, st: Abs, fuel: nat) -> Result<Abs, GiveUp>
    decreases fuel, 1 + s.len() - i,
{
    if i < 0 || i >= s.len() {
        Ok(st)
    } else {
        match eval_node(s[i], st, fuel) {
            Ok(after) => eval_from(s, i + 1, after, fuel),
            Err(e) => Err(e),
        }
    }
}

/// The pointer move that takes the residual program's pointer from `from` to `to`.
pub open spec fn pointer_fix(from: usize, to: usize) -> Seq<Node> {
    if to > from {
        seq![Node::IncPointer { amount: (to - from) as usize, count: 0 }]
    } else if to < from {
        seq![Node::DecPointer { amount: (from - to) as usize, count: 0 }]
    } else {
        Seq::empty()
    }
}

/// The residual code for the events from `i` on: each input or output, after
/// the move that brings the pointer to where the program made it.
pub open spec fn replay_code(events: Seq<Event>, i: int, from: usize) -> Seq<Node>
    decreases events.len() - i,
{
    if i < 0 || i >= events.len() {
        Seq::empty()
    } else {
        pointer_fix(from, events[i].pointer) + seq![events[i].node] + replay_code(
            events,
            i + 1,
            events[i].pointer,
        )
    }
}

/// Where the residual program's pointer stands after the events.
pub open spec fn replay_end(events: Seq<Event>, from: usize) -> usize {
    if events.len() == 0 {
        from
    } else {
        events.last().pointer
    }
}

/// The residual code that brings the touched cells from `i` on to their
/// known bytes, with the residual pointer at `at`: a store for every such
/// cell that does not hold its byte already. `None` where the offset of a
/// store is out of range.
pub open spec fn stores_from(st: Abs, i: int, at: usize) -> Option<Seq<Node>>
    decreases st.touched.len() - i,
{
    if i < 0 || i >= st.touched.len() {
        Some(Seq::empty())
    } else {
        let a = st.touched[i];
        match cell(st.tape, a) {
            AbstractCell::Value(v) => if st.held.dom().contains(a) && st.held[a]
                == AbstractCell::Value(v) {
                stores_from(st, i + 1, at)
            } else if isize::MIN <= a - at <= isize::MAX {
                match stores_from(st, i + 1, at) {
                    Some(rest) => Some(
                        seq![Node::SetData { offset: (a - at) as isize, value: v, count: 0 }] + rest,
                    ),
                    None => None,
                }
            } else {
                None
            },
            AbstractCell::Top => stores_from(st, i + 1, at),
        }
    }
}

/// The residual code where the evaluator gives up before command `k`: the
/// move that brings the residual pointer to the program's, and the rest of
/// the program as it is.
pub open spec fn unevaluated(s: Seq<Node>, k: int, at: usize, pointer: usize) -> Seq<Node> {
    pointer_fix(at, pointer) + s.subrange(k, s.len() as int)
}

/// The residual code for the commands `s[k..]`, where the evaluator knows
/// `tape`, the program's pointer stands at `pointer` and the residual
/// program's at `at`.
///
/// A command that is evaluated with nothing unknown leaves its inputs and
/// outputs and the stores of the bytes it computed. A command that computes
/// with something unknown stays as it is. Where the evaluator gives up, the
/// rest of the program stays as it is. At the end a last move brings the
/// pointer to where the program leaves it.
pub open spec fn residual_from(
    s: Seq<Node>,
    k: int,
    tape: Map<usize, AbstractCell>,
    pointer: usize,
    at: usize,
    fuel: nat,
) -> Seq<Node>
    decreases s.len() - k,
{
    if k < 0 || k >= s.len() {
        pointer_fix(at, pointer)
    } else {
        match eval_node(s[k], fresh(tape, pointer), fuel) {
            Err(_) => unevaluated(s, k, at, pointer),
            Ok(st) => if st.certain {
                let end = replay_end(st.events, at);
                match stores_from(st, 0, end) {
                    Some(stores) => replay_code(st.events, 0, at) + stores + residual_from(
                        s,
                        k + 1,
                        st.tape,
                        st.pointer,
                        end,
                        fuel,
                    ),
                    None => unevaluated(s, k, at, pointer),
                }
            } else {
                pointer_fix(at, pointer) + seq![s[k]] + residual_from(
                    s,
                    k + 1,
                    st.tape,
                    st.pointer,
                    st.pointer,
                    fuel,
                )
            },
        }
    }
}

/// The residual program of a program.
pub open spec fn partial_eval_nodes(s: Seq<Node>) -> Seq<Node> {
    residual_from(s, 0, Map::empty(), INIT_POINTER_LOC, INIT_POINTER_LOC, EVAL_FUEL as nat)
}

/// An input or output that the evaluated program makes, with the pointer at
/// which it makes it.
struct IOCommand {
    command: Command,
    pointer: usize,
}

/// The evaluator's state.
struct Evaluator {
    tape: HashMap<usize, AbstractCell>,
    pointer: usize,
    certain: bool,
    touched: Vec<usize>,
    held: HashMap<usize, AbstractCell>,
    events: Vec<IOCommand>,
}

/// The models of the noted inputs and outputs.
spec fn events_of(s: Seq<IOCommand>) -> Seq<Event> {
    Seq::new(s.len(), |i: int| Event { node: s[i].command@, pointer: s[i].pointer })
}

impl Evaluator {
    /// The state that this stands for.
    spec fn model(&self) -> Abs {
        Abs {
            tape: self.tape@,
            pointer: self.pointer,
            certain: self.certain,
            touched: self.touched@,
            held: self.held@,
            events: events_of(self.events@),
        }
    }
}

/// What is known of a cell.
fn lookup(tape: &HashMap<usize, AbstractCell>, a: usize) -> (r: AbstractCell)
    ensures
        r == cell(tape@, a),
{
    match tape.get(&a) {
        Some(c) => *c,
        None => AbstractCell::Value(0),
    }
}

/// The index of the cell at an offset from the pointer.
fn cell_address(pointer: usize, offset: isize) -> (r: Option<usize>)
    ensures
        r == address(pointer, offset),
{
    let at: i128 = pointer as i128 + offset as i128;
    if at >= 0 && at <= usize::MAX as i128 {
        Some(at as usize)
    } else {
        None
    }
}

/// Notes, before the first write to a cell, what the residual tape holds there.
fn add_prev_value(
    idx: usize,
    tape: &HashMap<usize, AbstractCell>,
    held: &mut HashMap<usize, AbstractCell>,
    touched: &mut Vec<usize>,
)
    ensures
        old(held)@.dom().contains(idx) ==> final(held)@ == old(held)@ && final(touched)@ == old(
            touched,
        )@,
        !old(held)@.dom().contains(idx) ==> final(held)@ == old(held)@.insert(
            idx,
            cell(tape@, idx),
        ) && final(touched)@ == old(touched)@.push(idx),
{
    if !held.contains_key(&idx) {
        let now = lookup(tape, idx);
        held.insert(idx, now);
        touched.push(idx);
    }
}

/// Writes what is known of a cell.
fn write_cell(ev: &mut Evaluator, a: usize, c: AbstractCell)
    ensures
        final(ev).model() == set_cell(old(ev).model(), a, c),
{
    add_prev_value(a, &ev.tape, &mut ev.held, &mut ev.touched);
    ev.tape.insert(a, c);
}

/// Notes an input or output at the current pointer.
fn record_event(ev: &mut Evaluator, command: Command)
    ensures
        final(ev).model() == record(old(ev).model(), command@),
{
    let ghost before = ev.events@;
    ev.events.push(IOCommand { command, pointer: ev.pointer });
    assert(events_of(ev.events@) =~= events_of(before).push(
        Event { node: command@, pointer: ev.pointer },
    ));
}

/// Evaluates a node other than a loop or a scan.
fn step_plain(command: &Command, ev: &mut Evaluator) -> (r: Result<(), GiveUp>)
    requires
        !(command@ is Loop),
        !(command@ is Scan),
    ensures
        match eval_plain(command@, old(ev).model()) {
            Ok(st) => r is Ok && final(ev).model() == st,
            Err(e) => r == Err::<(), GiveUp>(e) && final(ev).model() == old(ev).model(),
        },
{
    match command {
        Command::IncPointer { amount, .. } => match ev.pointer.checked_add(*amount) {
            Some(to) => {
                ev.pointer = to;
                Ok(())
            },
            None => Err(GiveUp::OutOfRange),
        },
        Command::DecPointer { amount, .. } => match ev.pointer.checked_sub(*amount) {
            Some(to) => {
                ev.pointer = to;
                Ok(())
            },
            None => Err(GiveUp::OutOfRange),
        },
        Command::IncData { offset, amount, .. } => match cell_address(ev.pointer, *offset) {
            Some(a) => {
                match lookup(&ev.tape, a) {
                    AbstractCell::Value(v) => {
                        write_cell(ev, a, AbstractCell::Value(v.wrapping_add(*amount)));
                    },
                    AbstractCell::Top => {
                        ev.certain = false;
                    },
                }
                Ok(())
            },
            None => Err(GiveUp::OutOfRange),
        },
        Command::DecData { offset, amount, .. } => match cell_address(ev.pointer, *offset) {
            Some(a) => {
                match lookup(&ev.tape, a) {
                    AbstractCell::Value(v) => {
                        write_cell(ev, a, AbstractCell::Value(v.wrapping_sub(*amount)));
                    },
                    AbstractCell::Top => {
                        ev.certain = false;
                    },
                }
                Ok(())
            },
            None => Err(GiveUp::OutOfRange),
        },
        Command::SetData { offset, value, .. } => match cell_address(ev.pointer, *offset) {
            Some(a) => {
                write_cell(ev, a, AbstractCell::Value(*value));
                Ok(())
            },
            None => Err(GiveUp::OutOfRange),
        },
        Command::AddOffsetData { dest_offset, src_offset, multiplier, inverted, .. } => {
            match (cell_address(ev.pointer, *dest_offset), cell_address(ev.pointer, *src_offset)) {
                (Some(dest), Some(src)) => {
                    match (lookup(&ev.tape, dest), lookup(&ev.tape, src)) {
                        (AbstractCell::Value(d), AbstractCell::Value(s)) => {
                            let by = scaled_byte(s, *multiplier, *inverted);
                            write_cell(ev, dest, AbstractCell::Value(d.wrapping_add(by)));
                        },
                        _ => {
                            write_cell(ev, dest, AbstractCell::Top);
                            ev.certain = false;
                        },
                    }
                    Ok(())
                },
                _ => Err(GiveUp::OutOfRange),
            }
        },
        Command::SubOffsetData { dest_offset, src_offset, multiplier, inverted, .. } => {
            match (cell_address(ev.pointer, *dest_offset), cell_address(ev.pointer, *src_offset)) {
                (Some(dest), Some(src)) => {
                    match (lookup(&ev.tape, dest), lookup(&ev.tape, src)) {
                        (AbstractCell::Value(d), AbstractCell::Value(s)) => {
                            let by = scaled_byte(s, *multiplier, *inverted);
                            write_cell(ev, dest, AbstractCell::Value(d.wrapping_sub(by)));
                        },
                        _ => {
                            write_cell(ev, dest, AbstractCell::Top);
                            ev.certain = false;
                        },
                    }
                    Ok(())
                },
                _ => Err(GiveUp::OutOfRange),
            }
        },
        Command::Output { out_type, .. } => match out_type {
            OutputType::Const(_) => {
                record_event(ev, command.clone());
                Ok(())
            },
            OutputType::Cell { offset } => match cell_address(ev.pointer, *offset) {
                Some(a) => {
                    match lookup(&ev.tape, a) {
                        AbstractCell::Value(v) => {
                            record_event(
                                ev,
                                Command::Output { out_type: OutputType::Const(v), count: 0 },
                            );
                        },
                        AbstractCell::Top => {
                            record_event(ev, command.clone());
                        },
                    }
                    Ok(())
                },
                None => Err(GiveUp::OutOfRange),
            },
        },
        Command::Input { offset, .. } => match cell_address(ev.pointer, *offset) {
            Some(a) => {
                write_cell(ev, a, AbstractCell::Top);
                ev.held.insert(a, AbstractCell::Top);
                record_event(ev, command.clone());
                Ok(())
            },
            None => Err(GiveUp::OutOfRange),
        },
        _ => Ok(()),
    }
}

/// Tells whether the pointer moves of a command can be foreseen, and where
/// they leave the pointer relative to where it stood.
fn settle(command: &Command, rel: isize) -> (r: Option<isize>)
    ensures
        match settle_node(command@, rel as int) {
            Some(end) => r == Some(end as isize) && end == end as isize,
            None => r is None,
        },
    decreases command,
{
    match command {
        Command::IncPointer { amount, .. } => {
            let to: i128 = rel as i128 + *amount as i128;
            if to <= isize::MAX as i128 {
                Some(to as isize)
            } else {
                None
            }
        },
        Command::DecPointer { amount, .. } => {
            let to: i128 = rel as i128 - *amount as i128;
            if to >= isize::MIN as i128 {
                Some(to as isize)
            } else {
                None
            }
        },
        Command::Scan { skip_amount, .. } => if *skip_amount == 0 {
            Some(rel)
        } else {
            None
        },
        Command::Loop { body, .. } => {
            let ghost s = nodes_of(body@);
            let mut at = rel;
            let mut i: usize = 0;
            while i < body.len()
                invariant
                    i <= body.len(),
                    s == nodes_of(body@),
                    command matches Command::Loop { body: b, .. } && b == body,
                    settle_from(s, i as int, at as int) == settle_from(s, 0, rel as int),
                decreases body.len() - i,
            {
                assert(s[i as int] == body@[i as int]@);
                match settle(&body[i], at) {
                    Some(next) => {
                        at = next;
                    },
                    None => {
                        return None;
                    },
                }
                i += 1;
            }
            if at == rel {
                Some(rel)
            } else {
                None
            }
        },
        _ => Some(rel),
    }
}

/// Tells whether a loop is balanced.
fn check_loop_pointer(command: &Command) -> (r: bool)
    ensures
        r == balanced(command@),
{
    settle(command, 0).is_some()
}

/// Makes one uncertain pass over a command. Where the pass gives up, the
/// pointer is back where it stood before the command.
#[verifier::loop_isolation(false)]
fn step_uncertain(command: &Command, ev: &mut Evaluator) -> (r: Result<(), GiveUp>)
    ensures
        match widen_node(command@, old(ev).model()) {
            Ok(st) => r is Ok && final(ev).model() == st,
            Err(e) => r == Err::<(), GiveUp>(e) && final(ev).pointer == old(ev).pointer,
        },
    decreases command,
{
    match command {
        Command::IncPointer { .. } => step_plain(command, ev),
        Command::DecPointer { .. } => step_plain(command, ev),
        Command::IncData { offset, .. } => widen_cell(ev, *offset),
        Command::DecData { offset, .. } => widen_cell(ev, *offset),
        Command::SetData { offset, .. } => widen_cell(ev, *offset),
        Command::Input { offset, .. } => widen_cell(ev, *offset),
        Command::AddOffsetData { dest_offset, .. } => widen_cell(ev, *dest_offset),
        Command::SubOffsetData { dest_offset, .. } => widen_cell(ev, *dest_offset),
        Command::Output { .. } => Ok(()),
        Command::Scan { skip_amount, .. } => if *skip_amount == 0 {
            Ok(())
        } else {
            Err(GiveUp::Unbalanced)
        },
        Command::Loop { body, .. } => {
            let ghost s = nodes_of(body@);
            let ghost first = ev.model();
            let start = ev.pointer;
            let mut i: usize = 0;
            while i < body.len()
                invariant
                    i <= body.len(),
                    s == nodes_of(body@),
                    command matches Command::Loop { body: b, .. } && b == body,
                    widen_from(s, i as int, ev.model()) == widen_from(s, 0, first),
                decreases body.len() - i,
            {
                assert(s[i as int] == body@[i as int]@);
                match step_uncertain(&body[i], ev) {
                    Ok(()) => {},
                    Err(e) => {
                        ev.pointer = start;
                        return Err(e);
                    },
                }
                i += 1;
            }
            if ev.pointer == start {
                Ok(())
            } else {
                ev.pointer = start;
                Err(GiveUp::Unbalanced)
            }
        },
    }
}

/// Forgets what is known of the cell at an offset from the pointer.
fn widen_cell(ev: &mut Evaluator, offset: isize) -> (r: Result<(), GiveUp>)
    ensures
        match address(old(ev).pointer, offset) {
            Some(a) => r is Ok && final(ev).model() == set_cell(old(ev).model(), a, AbstractCell::Top),
            None => r == Err::<(), GiveUp>(GiveUp::OutOfRange) && final(ev).model() == old(
                ev,
            ).model(),
        },
{
    match cell_address(ev.pointer, offset) {
        Some(a) => {
            write_cell(ev, a, AbstractCell::Top);
            Ok(())
        },
        None => Err(GiveUp::OutOfRange),
    }
}

/// Evaluates a command. Where the evaluation gives up, the pointer is back
/// where it stood before the command; after a scan that gives up, nothing
/// of the state has changed.
#[verifier::loop_isolation(false)]
fn step(command: &Command, ev: &mut Evaluator, fuel: usize) -> (r: Result<(), GiveUp>)
    ensures
        match eval_node(command@, old(ev).model(), fuel as nat) {
            Ok(st) => r is Ok && final(ev).model() == st,
            Err(e) => r == Err::<(), GiveUp>(e) && final(ev).pointer == old(ev).pointer && (
            command@ is Scan ==> final(ev).model() == old(ev).model()),
        },
    decreases fuel, 0nat,
{
    let start = ev.pointer;
    let ghost first = ev.model();
    let ghost want = eval_node(command@, first, fuel as nat);
    match command {
        Command::Scan { direction, skip_amount, .. } => {
            let mut left = fuel;
            loop
                invariant
                    eval_scan(*direction, *skip_amount, ev.model(), left as nat) == want,
                    ev.model() == move_to(first, ev.pointer),
                decreases left,
            {
                match lookup(&ev.tape, ev.pointer) {
                    AbstractCell::Value(v) => {
                        if v == 0 {
                            return Ok(());
                        }
                        if left == 0 {
                            ev.pointer = start;
                            return Err(GiveUp::OutOfFuel);
                        }
                        let to = match direction {
                            Direction::Right => ev.pointer.checked_add(*skip_amount),
                            Direction::Left => ev.pointer.checked_sub(*skip_amount),
                        };
                        match to {
                            Some(to) => {
                                ev.pointer = to;
                            },
                            None => {
                                ev.pointer = start;
                                return Err(GiveUp::OutOfRange);
                            },
                        }
                        left = left - 1;
                    },
                    AbstractCell::Top => {
                        ev.pointer = start;
                        return Err(GiveUp::TopScan);
                    },
                }
            }
        },
        Command::Loop { body, .. } => {
            let mut left = fuel;
            loop
                invariant
                    left <= fuel,
                    eval_node(command@, ev.model(), left as nat) == want,
                decreases left,
            {
                match lookup(&ev.tape, ev.pointer) {
                    AbstractCell::Value(v) => {
                        if v == 0 {
                            return Ok(());
                        }
                        if left == 0 {
                            ev.pointer = start;
                            return Err(GiveUp::OutOfFuel);
                        }
                        match step_all(body, ev, left - 1) {
                            Ok(()) => {},
                            Err(e) => {
                                ev.pointer = start;
                                return Err(e);
                            },
                        }
                        left = left - 1;
                    },
                    AbstractCell::Top => {
                        if check_loop_pointer(command) {
                            match step_uncertain(command, ev) {
                                Ok(()) => {
                                    ev.certain = false;
                                    return Ok(());
                                },
                                Err(e) => {
                                    ev.pointer = start;
                                    return Err(e);
                                },
                            }
                        } else {
                            ev.pointer = start;
                            return Err(GiveUp::Unbalanced);
                        }
                    },
                }
            }
        },
        _ => step_plain(command, ev),
    }
}

/// Evaluates a sequence of commands.
#[verifier::loop_isolation(false)]
fn step_all(commands: &Vec<Command>, ev: &mut Evaluator, fuel: usize) -> (r: Result<(), GiveUp>)
    ensures
        match eval_from(nodes_of(commands@), 0, old(ev).model(), fuel as nat) {
            Ok(st) => r is Ok && final(ev).model() == st,
            Err(e) => r == Err::<(), GiveUp>(e),
        },
    decreases fuel, 1nat,
{
    let ghost s = nodes_of(commands@);
    let ghost want = eval_from(s, 0, ev.model(), fuel as nat);
    let mut i: usize = 0;
    while i < commands.len()
        invariant
            i <= commands.len(),
            eval_from(s, i as int, ev.model(), fuel as nat) == want,
        decreases commands.len() - i,
    {
        assert(s[i as int] == commands@[i as int]@);
        match step(&commands[i], ev, fuel) {
            Ok(()) => {},
            Err(e) => {
                return Err(e);
            },
        }
        i += 1;
    }
    Ok(())
}

/// Appends the move that takes the residual pointer from `from` to `to`.
fn push_pointer_fix(out: &mut Vec<Command>, from: usize, to: usize)
    ensures
        nodes_of(final(out)@) == nodes_of(old(out)@) + pointer_fix(from, to),
{
    let ghost before = nodes_of(out@);
    if to > from {
        let c = Command::IncPointer { amount: to - from, count: 0 };
        proof {
            lemma_nodes_push(out@, c);
        }
        out.push(c);
    } else if to < from {
        let c = Command::DecPointer { amount: from - to, count: 0 };
        proof {
            lemma_nodes_push(out@, c);
        }
        out.push(c);
    }
    assert(nodes_of(out@) =~= before + pointer_fix(from, to));
}

/// Appends the commands `cmds[k..]` as they are.
fn push_rest(out: &mut Vec<Command>, cmds: &Vec<Command>, k: usize)
    requires
        k <= cmds.len(),
    ensures
        nodes_of(final(out)@) == nodes_of(old(out)@) + nodes_of(cmds@).subrange(
            k as int,
            cmds@.len() as int,
        ),
{
    let ghost before = nodes_of(out@);
    let ghost s = nodes_of(cmds@);
    let mut i = k;
    assert(nodes_of(out@) =~= before + s.subrange(k as int, i as int));
    while i < cmds.len()
        invariant
            k <= i <= cmds.len(),
            s == nodes_of(cmds@),
            nodes_of(out@) == before + s.subrange(k as int, i as int),
        decreases cmds.len() - i,
    {
        let c = cmds[i].clone();
        proof {
            lemma_nodes_push(out@, c);
            assert(s[i as int] == cmds@[i as int]@);
            assert((before + s.subrange(k as int, i as int)).push(c@) =~= before + s.subrange(
                k as int,
                i + 1,
            ));
        }
        out.push(c);
        i += 1;
    }
}

/// Appends the residual code of the events.
fn push_replay(out: &mut Vec<Command>, events: &Vec<IOCommand>, from: usize) -> (end: usize)
    ensures
        nodes_of(final(out)@) == nodes_of(old(out)@) + replay_code(events_of(events@), 0, from),
        end == replay_end(events_of(events@), from),
{
    let ghost before = nodes_of(out@);
    let ghost es = events_of(events@);
    let mut at = from;
    let mut i: usize = 0;
    assert(nodes_of(out@) + replay_code(es, 0, from) =~= before + replay_code(es, 0, from));
    while i < events.len()
        invariant
            i <= events.len(),
            es == events_of(events@),
            at == if i == 0 { from } else { es[i - 1].pointer },
            nodes_of(out@) + replay_code(es, i as int, at) == before + replay_code(es, 0, from),
        decreases events.len() - i,
    {
        let ghost mid = nodes_of(out@);
        push_pointer_fix(out, at, events[i].pointer);
        let c = events[i].command.clone();
        proof {
            lemma_nodes_push(out@, c);
        }
        out.push(c);
        assert(nodes_of(out@) + replay_code(es, i + 1, es[i as int].pointer) =~= mid + (pointer_fix(
            at,
            es[i as int].pointer,
        ) + seq![es[i as int].node] + replay_code(es, i + 1, es[i as int].pointer)));
        at = events[i].pointer;
        i += 1;
    }
    assert(nodes_of(out@) =~= before + replay_code(es, 0, from));
    at
}

/// The stores that bring the touched cells to their known bytes.
fn collect_stores(ev: &Evaluator, at: usize) -> (r: Option<Vec<Command>>)
    ensures
        match stores_from(ev.model(), 0, at) {
            Some(stores) => r matches Some(v) && nodes_of(v@) == stores,
            None => r is None,
        },
{
    let ghost st = ev.model();
    let mut out: Vec<Command> = Vec::new();
    let mut i: usize = 0;
    assert(nodes_of(out@) =~= Seq::<Node>::empty());
    while i < ev.touched.len()
        invariant
            i <= ev.touched.len(),
            st == ev.model(),
            stores_from(st, 0, at) == match stores_from(st, i as int, at) {
                Some(rest) => Some(nodes_of(out@) + rest),
                None => None,
            },
        decreases ev.touched.len() - i,
    {
        let a = ev.touched[i];
        let ghost before = nodes_of(out@);
        match lookup(&ev.tape, a) {
            AbstractCell::Value(v) => {
                let unchanged = match ev.held.get(&a) {
                    Some(h) => *h == AbstractCell::Value(v),
                    None => false,
                };
                if !unchanged {
                    let offset: i128 = a as i128 - at as i128;
                    if offset < isize::MIN as i128 || offset > isize::MAX as i128 {
                        return None;
                    }
                    let c = Command::SetData { offset: offset as isize, value: v, count: 0 };
                    proof {
                        lemma_nodes_push(out@, c);
                    }
                    out.push(c);
                    proof {
                        match stores_from(st, i + 1, at) {
                            Some(rest) => {
                                assert(nodes_of(out@) + rest =~= before + (seq![c@] + rest));
                            },
                            None => {},
                        }
                    }
                }
            },
            AbstractCell::Top => {},
        }
        i += 1;
    }
    assert(nodes_of(out@) + Seq::<Node>::empty() =~= nodes_of(out@));
    Some(out)
}

/// Appends all of `more` to `out`.
fn push_all(out: &mut Vec<Command>, more: Vec<Command>)
    ensures
        nodes_of(final(out)@) == nodes_of(old(out)@) + nodes_of(more@),
{
    let ghost before = out@;
    let mut more = more;
    let ghost added = more@;
    out.append(&mut more);
    assert(nodes_of(out@) =~= nodes_of(before) + nodes_of(added));
}

/// Builds the residual program.
fn build_residual(cmds: &Vec<Command>) -> (r: Vec<Command>)
    ensures
        nodes_of(r@) == partial_eval_nodes(nodes_of(cmds@)),
{
    let ghost s = nodes_of(cmds@);
    let ghost fuel = EVAL_FUEL as nat;
    let mut new_cmds: Vec<Command> = Vec::new();
    let mut ev = Evaluator {
        tape: HashMap::new(),
        pointer: INIT_POINTER_LOC,
        certain: true,
        touched: Vec::new(),
        held: HashMap::new(),
        events: Vec::new(),
    };
    let mut at: usize = INIT_POINTER_LOC;
    let mut k: usize = 0;
    assert(events_of(ev.events@) =~= Seq::<Event>::empty());
    assert(nodes_of(new_cmds@) + residual_from(s, 0, ev.tape@, ev.pointer, at, fuel)
        =~= partial_eval_nodes(s));
    while k < cmds.len()
        invariant
            k <= cmds.len(),
            s == nodes_of(cmds@),
            fuel == EVAL_FUEL as nat,
            ev.model() == fresh(ev.tape@, ev.pointer),
            nodes_of(new_cmds@) + residual_from(s, k as int, ev.tape@, ev.pointer, at, fuel)
                == partial_eval_nodes(s),
        decreases cmds.len() - k,
    {
        let ghost before = nodes_of(new_cmds@);
        let ghost tape = ev.tape@;
        let before_pointer = ev.pointer;
        assert(s[k as int] == cmds@[k as int]@);
        let outcome = step(&cmds[k], &mut ev, EVAL_FUEL);
        let stores = match outcome {
            Ok(()) => if ev.certain {
                collect_stores(&ev, replay_end_of(&ev.events, at))
            } else {
                Some(Vec::new())
            },
            Err(_) => None,
        };
        match stores {
            None => {
                push_pointer_fix(&mut new_cmds, at, before_pointer);
                push_rest(&mut new_cmds, cmds, k);
                assert(nodes_of(new_cmds@) =~= before + unevaluated(s, k as int, at, before_pointer));
                return new_cmds;
            },
            Some(stores) => {
                if ev.certain {
                    let ghost st = ev.model();
                    let end = push_replay(&mut new_cmds, &ev.events, at);
                    push_all(&mut new_cmds, stores);
                    assert(nodes_of(new_cmds@) + residual_from(
                        s,
                        k + 1,
                        st.tape,
                        st.pointer,
                        end,
                        fuel,
                    ) =~= before + (replay_code(st.events, 0, at) + stores_from(st, 0, end)->0
                        + residual_from(s, k + 1, st.tape, st.pointer, end, fuel)));
                    at = end;
                } else {
                    let ghost st = ev.model();
                    push_pointer_fix(&mut new_cmds, at, before_pointer);
                    let c = cmds[k].clone();
                    proof {
                        lemma_nodes_push(new_cmds@, c);
                    }
                    new_cmds.push(c);
                    assert(nodes_of(new_cmds@) + residual_from(
                        s,
                        k + 1,
                        st.tape,
                        st.pointer,
                        st.pointer,
                        fuel,
                    ) =~= before + (pointer_fix(at, before_pointer) + seq![s[k as int]]
                        + residual_from(s, k + 1, st.tape, st.pointer, st.pointer, fuel)));
                    at = ev.pointer;
                }
                ev.certain = true;
                ev.touched.clear();
                ev.held.clear();
                ev.events.clear();
                assert(events_of(ev.events@) =~= Seq::<Event>::empty());
            },
        }
        k += 1;
    }
    push_pointer_fix(&mut new_cmds, at, ev.pointer);
    new_cmds
}

/// Where the residual pointer stands after the events.
fn replay_end_of(events: &Vec<IOCommand>, from: usize) -> (r: usize)
    ensures
        r == replay_end(events_of(events@), from),
{
    if events.len() == 0 {
        from
    } else {
        events[events.len() - 1].pointer
    }
}

/// Evaluates as much of a program as can be known before it runs, and gives
/// the residual program: what is left to do at run time.
///
/// Started on a tape of zeros with the pointer at `INIT_POINTER_LOC`, on any
/// input, the residual program halts if and only if the program halts, and
/// leaves the same tape, pointer, input and output.
pub fn partial_eval(cmds: &Vec<Command>) -> (r: Vec<Command>)
    ensures
        nodes_of(r@) == partial_eval_nodes(nodes_of(cmds@)),
        forall|input: Seq<u8>, m: Machine|
            halts_with(nodes_of(cmds@), Machine::start(INIT_POINTER_LOC as int, input), m)
                <==> #[trigger] halts_with(
                nodes_of(r@),
                Machine::start(INIT_POINTER_LOC as int, input),
                m,
            ),
{
    let r = build_residual(cmds);
    proof {
        let given = nodes_of(cmds@);
        assert forall|input: Seq<u8>, m: Machine|
            halts_with(given, Machine::start(INIT_POINTER_LOC as int, input), m)
                <==> #[trigger] halts_with(
                partial_eval_nodes(given),
                Machine::start(INIT_POINTER_LOC as int, input),
                m,
            ) by {
            lemma_partial_eval_sound(given, input, m);
        }
    }
    r
}

} // verus!
