use vstd::prelude::*;
use crate::interp::{
    bump, counted, exec_from, exec_node, exec_scan, exec_turns, interp_trace, on_tape, Stop, START,
};
use crate::ir::Node;
use crate::semantics::{halts_with, run, run_from, step, stride, Machine};

verus! {

/// The node without its counts.
pub open spec fn strip(n: Node) -> Node
    decreases n, 0nat,
{
    match n {
        Node::IncPointer { amount, .. } => Node::IncPointer { amount, count: 0 },
        Node::DecPointer { amount, .. } => Node::DecPointer { amount, count: 0 },
        Node::IncData { offset, amount, .. } => Node::IncData { offset, amount, count: 0 },
        Node::DecData { offset, amount, .. } => Node::DecData { offset, amount, count: 0 },
        Node::SetData { offset, value, .. } => Node::SetData { offset, value, count: 0 },
        Node::Scan { id, direction, skip_amount, .. } => Node::Scan {
            id,
            direction,
            skip_amount,
            count: 0,
        },
        Node::AddOffsetData { dest_offset, src_offset, multiplier, inverted, .. } => {
            Node::AddOffsetData { dest_offset, src_offset, multiplier, inverted, count: 0 }
        },
        Node::SubOffsetData { dest_offset, src_offset, multiplier, inverted, .. } => {
            Node::SubOffsetData { dest_offset, src_offset, multiplier, inverted, count: 0 }
        },
        Node::Output { out_type, .. } => Node::Output { out_type, count: 0 },
        Node::Input { offset, .. } => Node::Input { offset, count: 0 },
        Node::Loop { id, body, .. } => Node::Loop {
            id,
            body: strip_all(body),
            start_count: 0,
            end_count: 0,
        },
    }
}

/// The program without its counts.
pub open spec fn strip_all(s: Seq<Node>) -> Seq<Node>
    decreases s, 1nat,
{
    Seq::new(s.len(), |i: int| if 0 <= i < s.len() { strip(s[i]) } else { arbitrary() })
}

/// Two programs that differ in their counts at most.
pub open spec fn same_code(a: Seq<Node>, b: Seq<Node>) -> bool {
    strip_all(a) == strip_all(b)
}

/// What a node does depends on no count.
pub proof fn lemma_step_ignores_counts(n: Node, m: Machine, fuel: nat)
    ensures
        step(strip(n), m, fuel) == step(n, m, fuel),
    decreases fuel, 0nat,
{
    match n {
        Node::Scan { direction, skip_amount, .. } => {
            if m.at(0) != 0 && fuel > 0 {
                lemma_step_ignores_counts(
                    n,
                    m.shift(stride(direction, skip_amount)),
                    (fuel - 1) as nat,
                );
            }
        },
        Node::Loop { body, .. } => {
            if m.at(0) != 0 && fuel > 0 {
                let rest = (fuel - 1) as nat;
                lemma_run_ignores_counts(body, 0, m, rest);
                match run_from(body, 0, m, rest) {
                    Some(after) => lemma_step_ignores_counts(n, after, rest),
                    None => {},
                }
            }
        },
        _ => {},
    }
}

/// What a program does depends on no count.
pub proof fn lemma_run_ignores_counts(s: Seq<Node>, i: int, m: Machine, fuel: nat)
    ensures
        run_from(strip_all(s), i, m, fuel) == run_from(s, i, m, fuel),
    decreases fuel, 1 + s.len() - i,
{
    if 0 <= i < s.len() {
        lemma_step_ignores_counts(s[i], m, fuel);
        match step(s[i], m, fuel) {
            Some(after) => lemma_run_ignores_counts(s, i + 1, after, fuel),
            None => {},
        }
    }
}

/// Programs that differ in their counts at most do the same.
pub proof fn lemma_same_code_same_run(a: Seq<Node>, b: Seq<Node>, i: int, m: Machine, fuel: nat)
    requires
        same_code(a, b),
    ensures
        run_from(a, i, m, fuel) == run_from(b, i, m, fuel),
{
    lemma_run_ignores_counts(a, i, m, fuel);
    lemma_run_ignores_counts(b, i, m, fuel);
}

/// The moves of a scan on the interpreter's tape are those of the scan on the
/// tape without ends, as long as they stay on the tape.
proof fn lemma_scan_refines(n: Node, m: Machine, fuel: nat, size: nat)
    requires
        n is Scan,
    ensures
        exec_scan(n, m, fuel, size).node == n,
        exec_scan(n, m, fuel, size).stop == Stop::Done ==> step(n, m, fuel) == Some(
            exec_scan(n, m, fuel, size).m,
        ),
        exec_scan(n, m, fuel, size).stop == Stop::OutOfFuel ==> step(n, m, fuel) is None,
    decreases fuel,
{
    if on_tape(m, 0, size) && m.at(0) != 0 && fuel > 0 {
        match n {
            Node::Scan { direction, skip_amount, .. } => {
                let to = m.ptr + stride(direction, skip_amount);
                if 0 <= to <= usize::MAX {
                    lemma_scan_refines(
                        n,
                        m.shift(stride(direction, skip_amount)),
                        (fuel - 1) as nat,
                        size,
                    );
                }
            },
            _ => {},
        }
    }
}

/// The turns of a loop on the interpreter's tape are those of the loop on the
/// tape without ends, as long as they stay on the tape; only counts change.
proof fn lemma_turns_refine(
    id: usize,
    body: Seq<Node>,
    start_count: usize,
    end_count: usize,
    m: Machine,
    fuel: nat,
    size: nat,
)
    requires
        m.at(0) != 0,
    ensures
        ({
            let n = Node::Loop { id, body, start_count, end_count };
            let t = exec_turns(id, body, start_count, end_count, m, fuel, size);
            &&& strip(t.node) == strip(n)
            &&& t.stop == Stop::Done ==> step(n, m, fuel) == Some(t.m)
            &&& t.stop == Stop::OutOfFuel ==> step(n, m, fuel) is None
        }),
    decreases fuel, 0nat,
{
    let n = Node::Loop { id, body, start_count, end_count };
    if fuel > 0 {
        let rest = (fuel - 1) as nat;
        let t = exec_from(body, 0, m, rest, size);
        lemma_from_refines(body, 0, m, rest, size);
        if t.stop == Stop::Done {
            if on_tape(t.m, 0, size) && t.m.at(0) != 0 {
                let next = Node::Loop {
                    id,
                    body: t.nodes,
                    start_count: bump(start_count),
                    end_count: bump(end_count),
                };
                lemma_turns_refine(id, t.nodes, bump(start_count), bump(end_count), t.m, rest, size);
                lemma_step_ignores_counts(next, t.m, rest);
                lemma_step_ignores_counts(n, t.m, rest);
            }
        }
    }
}

/// One node on the interpreter's tape does what it does on the tape without
/// ends, as long as it stays on the tape; only counts change.
pub proof fn lemma_node_refines(n: Node, m: Machine, fuel: nat, size: nat)
    ensures
        strip(exec_node(n, m, fuel, size).node) == strip(n),
        exec_node(n, m, fuel, size).stop == Stop::Done ==> step(n, m, fuel) == Some(
            exec_node(n, m, fuel, size).m,
        ),
        exec_node(n, m, fuel, size).stop == Stop::OutOfFuel ==> step(n, m, fuel) is None,
    decreases fuel, 1nat,
{
    match n {
        Node::Loop { id, body, start_count, end_count } => {
            if on_tape(m, 0, size) && m.at(0) != 0 {
                let entered = Node::Loop { id, body, start_count: bump(start_count), end_count };
                lemma_turns_refine(id, body, bump(start_count), end_count, m, fuel, size);
                lemma_step_ignores_counts(entered, m, fuel);
                lemma_step_ignores_counts(n, m, fuel);
            }
        },
        Node::Scan { .. } => {
            lemma_scan_refines(counted(n), m, fuel, size);
            lemma_step_ignores_counts(counted(n), m, fuel);
            lemma_step_ignores_counts(n, m, fuel);
        },
        _ => {},
    }
}

/// A program on the interpreter's tape does what it does on the tape without
/// ends, as long as it stays on the tape; only counts change.
pub proof fn lemma_from_refines(s: Seq<Node>, i: int, m: Machine, fuel: nat, size: nat)
    ensures
        same_code(exec_from(s, i, m, fuel, size).nodes, s),
        exec_from(s, i, m, fuel, size).stop == Stop::Done ==> run_from(s, i, m, fuel) == Some(
            exec_from(s, i, m, fuel, size).m,
        ),
        exec_from(s, i, m, fuel, size).stop == Stop::OutOfFuel ==> run_from(s, i, m, fuel) is None,
    decreases fuel, 2 + s.len() - i,
{
    if 0 <= i < s.len() {
        let t = exec_node(s[i], m, fuel, size);
        let next = s.update(i, t.node);
        lemma_node_refines(s[i], m, fuel, size);
        assert(strip_all(next) =~= strip_all(s));
        if t.stop == Stop::Done {
            lemma_from_refines(next, i + 1, t.m, fuel, size);
            lemma_same_code_same_run(next, s, i + 1, t.m, fuel);
        }
    }
}

/// Whatever the interpreter does, it changes nothing of the program but
/// counts. Where it comes to the program's end, the program halts on the tape
/// without ends too, and leaves the same tape, pointer, input and output.
/// Where it runs out of fuel, the same fuel does not suffice there either.
pub proof fn lemma_interp_refines(s: Seq<Node>, input: Seq<u8>, fuel: nat)
    ensures
        same_code(interp_trace(s, input, fuel).nodes, s),
        interp_trace(s, input, fuel).stop == Stop::Done ==> halts_with(
            s,
            Machine::start(START as int, input),
            interp_trace(s, input, fuel).m,
        ),
        interp_trace(s, input, fuel).stop == Stop::OutOfFuel ==> run(
            s,
            Machine::start(START as int, input),
            fuel,
        ) is None,
{
    let m = Machine::start(START as int, input);
    lemma_from_refines(s, 0, m, fuel, crate::interp::TAPE_SIZE as nat);
    if interp_trace(s, input, fuel).stop == Stop::Done {
        assert(run(s, m, fuel) == Some(interp_trace(s, input, fuel).m));
    }
}

} // verus!
