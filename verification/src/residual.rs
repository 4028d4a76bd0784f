use vstd::prelude::*;
use crate::ir::{Direction, Node, OutputType};
use crate::partial::{
    address, cell, eval_from, eval_node, eval_plain, eval_scan, fresh, move_to, partial_eval_nodes,
    pointer_fix, read_into, record, replay_code, replay_end, residual_from, scan_target, set_cell,
    stores_from, Abs, AbstractCell, Event, EVAL_FUEL, INIT_POINTER_LOC,
};
use crate::semantics::{
    apply, halts_with, lemma_run_concat, lemma_run_from_is_run_of_suffix, lemma_run_more_fuel,
    lemma_run_single, lemma_step_more_fuel, lemma_step_wf, run, run_from, step, stride, Machine,
};
use crate::soundness::{agrees, describes, fits, known, lemma_eval_node_sound};

verus! {

/// An input or an output.
pub open spec fn plain_io(n: Node) -> bool {
    n is Output || n is Input
}

/// Every event is an input or an output.
pub open spec fn events_plain(events: Seq<Event>) -> bool {
    forall|j: int| 0 <= j < events.len() ==> plain_io(#[trigger] events[j].node)
}

/// The machine with its pointer at `p`.
pub open spec fn at_pointer(r: Machine, p: usize) -> Machine {
    Machine { ptr: p as int, ..r }
}

/// The machine after the first `n` events, each made at its pointer.
pub open spec fn replayed(events: Seq<Event>, n: int, start: Machine) -> Machine
    decreases n,
{
    if n <= 0 {
        start
    } else {
        apply(events[n - 1].node, at_pointer(replayed(events, n - 1, start), events[n - 1].pointer))
    }
}

/// What the residual tape is known to hold at a position that the command
/// has written; `None` at a position that it has not written.
pub open spec fn held_cell(st: Abs, a: int) -> Option<AbstractCell> {
    if 0 <= a <= usize::MAX && st.held.dom().contains(a as usize) {
        Some(st.held[a as usize])
    } else {
        None
    }
}

/// The cell is among those that the command has written.
pub open spec fn listed(touched: Seq<usize>, a: usize) -> bool {
    exists|j: int| 0 <= j < touched.len() && touched[j] == a
}

/// At position `a`, the residual machine `r` is where the evaluator takes it
/// to be: it holds what the program's machine `m` holds wherever nothing is
/// known of the cell or the command has not written it, and otherwise what
/// the evaluator has noted.
pub open spec fn synced_at(st: Abs, m: Machine, r: Machine, a: int) -> bool {
    &&& known(st.tape, a) is Top ==> r.tape[a] == m.tape[a]
    &&& match held_cell(st, a) {
        None => r.tape[a] == m.tape[a],
        Some(AbstractCell::Value(s)) => r.tape[a] == s,
        Some(AbstractCell::Top) => true,
    }
}

/// The residual machine `r` has read and written what the program's machine
/// `m` has, and is where the evaluator takes it to be at every position.
pub open spec fn synced(st: Abs, m: Machine, r: Machine) -> bool {
    &&& r.wf()
    &&& r.input == m.input
    &&& r.output == m.output
    &&& forall|a: int| #[trigger] synced_at(st, m, r, a)
    &&& forall|a: usize| #[trigger] st.held.dom().contains(a) ==> listed(st.touched, a)
}

/// The residual machine after the events of the state, from `start`.
pub open spec fn residual_of(st: Abs, start: Machine) -> Machine {
    replayed(st.events, st.events.len() as int, start)
}

/// The first events are replayed alike whatever follows them.
proof fn lemma_replayed_prefix(events: Seq<Event>, e: Event, n: int, start: Machine)
    requires
        n <= events.len(),
    ensures
        replayed(events.push(e), n, start) == replayed(events, n, start),
    decreases n,
{
    if n > 0 {
        lemma_replayed_prefix(events, e, n - 1, start);
    }
}

/// One more event is replayed after the others.
proof fn lemma_replayed_push(events: Seq<Event>, e: Event, start: Machine)
    ensures
        replayed(events.push(e), events.len() as int + 1, start) == apply(
            e.node,
            at_pointer(replayed(events, events.len() as int, start), e.pointer),
        ),
{
    lemma_replayed_prefix(events, e, events.len() as int, start);
}

/// A scan changes nothing of the state but the pointer.
proof fn lemma_scan_keeps(direction: Direction, skip_amount: usize, st: Abs, left: nat)
    ensures
        eval_scan(direction, skip_amount, st, left) matches Ok(after) ==> after == move_to(
            st,
            after.pointer,
        ),
    decreases left,
{
    match cell(st.tape, st.pointer) {
        AbstractCell::Value(v) => {
            if v != 0 && left > 0 {
                match scan_target(st.pointer, direction, skip_amount) {
                    Some(to) => {
                        lemma_scan_keeps(direction, skip_amount, move_to(st, to), (left - 1) as nat);
                    },
                    None => {},
                }
            }
        },
        AbstractCell::Top => {},
    }
}

/// A command that ends with everything known began with everything known.
pub proof fn lemma_certain_before_node(n: Node, st: Abs, left: nat)
    ensures
        eval_node(n, st, left) matches Ok(after) ==> (after.certain ==> st.certain),
    decreases left, 0nat,
{
    match n {
        Node::Scan { direction, skip_amount, .. } => {
            lemma_scan_keeps(direction, skip_amount, st, left);
        },
        Node::Loop { body, .. } => {
            match cell(st.tape, st.pointer) {
                AbstractCell::Value(v) => {
                    if v != 0 && left > 0 {
                        let rest = (left - 1) as nat;
                        lemma_certain_before_from(body, 0, st, rest);
                        match eval_from(body, 0, st, rest) {
                            Ok(mid) => lemma_certain_before_node(n, mid, rest),
                            Err(_) => {},
                        }
                    }
                },
                AbstractCell::Top => {},
            }
        },
        _ => {},
    }
}

/// A sequence that ends with everything known began with everything known.
pub proof fn lemma_certain_before_from(s: Seq<Node>, i: int, st: Abs, left: nat)
    ensures
        eval_from(s, i, st, left) matches Ok(after) ==> (after.certain ==> st.certain),
    decreases left, 1 + s.len() - i,
{
    if 0 <= i < s.len() {
        lemma_certain_before_node(s[i], st, left);
        match eval_node(s[i], st, left) {
            Ok(mid) => lemma_certain_before_from(s, i + 1, mid, left),
            Err(_) => {},
        }
    }
}

/// What the lemmas about a command with everything known take and give: the
/// evaluator's state fits the program's machine, the residual machine is in
/// step with it, and all events are inputs and outputs.
pub open spec fn in_step(st: Abs, m: Machine, start: Machine) -> bool {
    &&& fits(st, m)
    &&& synced(st, m, residual_of(st, start))
    &&& events_plain(st.events)
}

/// A write of a known byte keeps the residual machine in step.
proof fn lemma_set_in_step(
    st: Abs,
    a: usize,
    c: AbstractCell,
    m: Machine,
    offset: int,
    start: Machine,
)
    requires
        in_step(st, m, start),
        c matches AbstractCell::Value(v),
        a == m.ptr + offset,
    ensures
        in_step(set_cell(st, a, c), m.store(offset, c->Value_0), start),
{
    let after = set_cell(st, a, c);
    let m2 = m.store(offset, c->Value_0);
    let r = residual_of(st, start);
    assert(residual_of(after, start) == r);
    assert forall|b: int| agrees(#[trigger] known(after.tape, b), m2.tape[b]) by {
        assert(agrees(known(st.tape, b), m.tape[b]));
    }
    assert forall|b: int| #[trigger] synced_at(after, m2, r, b) by {
        assert(synced_at(st, m, r, b));
        assert(agrees(known(st.tape, b), m.tape[b]));
    }
    assert forall|b: usize| #[trigger] after.held.dom().contains(b) implies listed(
        after.touched,
        b,
    ) by {
        if st.held.dom().contains(b) {
            let j = choose|j: int| 0 <= j < st.touched.len() && st.touched[j] == b;
            assert(after.touched[j] == b);
        } else {
            assert(after.touched[st.touched.len() as int] == b);
        }
    }
}

/// An event that changes no cell keeps the residual machine in step, where
/// the residual machine writes what the program's machine writes.
proof fn lemma_output_in_step(st: Abs, n: Node, event: Node, m: Machine, start: Machine)
    requires
        in_step(st, m, start),
        n is Output,
        event is Output,
        apply(event, at_pointer(residual_of(st, start), st.pointer)).output == apply(n, m).output,
    ensures
        in_step(record(st, event), apply(n, m), start),
{
    let after = record(st, event);
    let m2 = apply(n, m);
    let r = residual_of(st, start);
    lemma_replayed_push(st.events, Event { node: event, pointer: st.pointer }, start);
    let r2 = residual_of(after, start);
    assert(r2.tape == r.tape);
    assert(m2.tape == m.tape);
    assert forall|b: int| agrees(#[trigger] known(after.tape, b), m2.tape[b]) by {
        assert(agrees(known(st.tape, b), m.tape[b]));
    }
    assert forall|b: int| #[trigger] synced_at(after, m2, r2, b) by {
        assert(synced_at(st, m, r, b));
    }
}

/// The evaluation of a node other than a loop or a scan, with everything
/// known, keeps the residual machine in step.
proof fn lemma_plain_in_step(n: Node, st: Abs, m: Machine, start: Machine)
    requires
        in_step(st, m, start),
        !(n is Loop),
        !(n is Scan),
        eval_plain(n, st) matches Ok(after) && after.certain,
    ensures
        in_step(eval_plain(n, st)->Ok_0, apply(n, m), start),
{
    let after = eval_plain(n, st)->Ok_0;
    let m2 = apply(n, m);
    let r = residual_of(st, start);
    match n {
        Node::IncPointer { .. } => {
            assert(residual_of(after, start) == r);
            assert forall|b: int| #[trigger] synced_at(after, m2, r, b) by {
                assert(synced_at(st, m, r, b));
            }
        },
        Node::DecPointer { .. } => {
            assert(residual_of(after, start) == r);
            assert forall|b: int| #[trigger] synced_at(after, m2, r, b) by {
                assert(synced_at(st, m, r, b));
            }
        },
        Node::IncData { offset, .. } => {
            let a = address(st.pointer, offset)->0;
            assert(agrees(known(st.tape, a as int), m.tape[a as int]));
            lemma_set_in_step(st, a, cell(after.tape, a), m, offset as int, start);
        },
        Node::DecData { offset, .. } => {
            let a = address(st.pointer, offset)->0;
            assert(agrees(known(st.tape, a as int), m.tape[a as int]));
            lemma_set_in_step(st, a, cell(after.tape, a), m, offset as int, start);
        },
        Node::SetData { offset, .. } => {
            let a = address(st.pointer, offset)->0;
            lemma_set_in_step(st, a, cell(after.tape, a), m, offset as int, start);
        },
        Node::AddOffsetData { dest_offset, src_offset, .. } => {
            let d = address(st.pointer, dest_offset)->0;
            let s = address(st.pointer, src_offset)->0;
            assert(agrees(known(st.tape, d as int), m.tape[d as int]));
            assert(agrees(known(st.tape, s as int), m.tape[s as int]));
            lemma_set_in_step(st, d, cell(after.tape, d), m, dest_offset as int, start);
        },
        Node::SubOffsetData { dest_offset, src_offset, .. } => {
            let d = address(st.pointer, dest_offset)->0;
            let s = address(st.pointer, src_offset)->0;
            assert(agrees(known(st.tape, d as int), m.tape[d as int]));
            assert(agrees(known(st.tape, s as int), m.tape[s as int]));
            lemma_set_in_step(st, d, cell(after.tape, d), m, dest_offset as int, start);
        },
        Node::Output { out_type, .. } => {
            match out_type {
                OutputType::Const(_) => {
                    lemma_output_in_step(st, n, n, m, start);
                },
                OutputType::Cell { offset } => {
                    let a = address(st.pointer, offset)->0;
                    assert(agrees(known(st.tape, a as int), m.tape[a as int]));
                    assert(synced_at(st, m, r, a as int));
                    match cell(st.tape, a) {
                        AbstractCell::Value(v) => {
                            lemma_output_in_step(
                                st,
                                n,
                                Node::Output { out_type: OutputType::Const(v), count: 0 },
                                m,
                                start,
                            );
                        },
                        AbstractCell::Top => {
                            lemma_output_in_step(st, n, n, m, start);
                        },
                    }
                },
            }
        },
        Node::Input { offset, .. } => {
            let a = address(st.pointer, offset)->0;
            let wrote = read_into(st, a);
            lemma_replayed_push(wrote.events, Event { node: n, pointer: st.pointer }, start);
            let r2 = residual_of(after, start);
            assert(r2 == at_pointer(r, st.pointer).read(offset as int));
            assert forall|b: int| agrees(#[trigger] known(after.tape, b), m2.tape[b]) by {
                assert(agrees(known(st.tape, b), m.tape[b]));
            }
            assert forall|b: int| #[trigger] synced_at(after, m2, r2, b) by {
                assert(synced_at(st, m, r, b));
            }
            assert forall|b: usize| #[trigger] after.held.dom().contains(b) implies listed(
                after.touched,
                b,
            ) by {
                if st.held.dom().contains(b) {
                    let j = choose|j: int| 0 <= j < st.touched.len() && st.touched[j] == b;
                    assert(after.touched[j] == b);
                } else {
                    assert(after.touched[st.touched.len() as int] == b);
                }
            }
        },
        _ => {},
    }
}

/// The evaluation of a scan that ends with everything known follows the
/// scan: the scan halts with the evaluator's fuel, where the evaluator says.
proof fn lemma_scan_in_step(n: Node, st: Abs, left: nat, m: Machine, start: Machine)
    requires
        in_step(st, m, start),
        n is Scan,
        eval_node(n, st, left) matches Ok(after) && after.certain,
    ensures
        step(n, m, left) is Some,
        in_step(eval_node(n, st, left)->Ok_0, step(n, m, left)->0, start),
    decreases left,
{
    match n {
        Node::Scan { direction, skip_amount, .. } => {
            assert(agrees(known(st.tape, st.pointer as int), m.tape[st.pointer as int]));
            if m.at(0) != 0 {
                let to = scan_target(st.pointer, direction, skip_amount)->0;
                let moved = move_to(st, to);
                let m1 = m.shift(stride(direction, skip_amount));
                let r = residual_of(st, start);
                assert(residual_of(moved, start) == r);
                assert forall|b: int| #[trigger] synced_at(moved, m1, r, b) by {
                    assert(synced_at(st, m, r, b));
                }
                lemma_scan_in_step(n, moved, (left - 1) as nat, m1, start);
            }
        },
        _ => {},
    }
}

/// The evaluation of a node that ends with everything known follows the
/// node: the node halts with the evaluator's fuel, the state after the
/// evaluation fits the machine after the node, and the residual machine after
/// the events is in step with it.
pub proof fn lemma_node_in_step(n: Node, st: Abs, left: nat, m: Machine, start: Machine)
    requires
        in_step(st, m, start),
        eval_node(n, st, left) matches Ok(after) && after.certain,
    ensures
        step(n, m, left) is Some,
        in_step(eval_node(n, st, left)->Ok_0, step(n, m, left)->0, start),
    decreases left, 0nat,
{
    match n {
        Node::Scan { .. } => {
            lemma_scan_in_step(n, st, left, m, start);
        },
        Node::Loop { body, .. } => {
            assert(agrees(known(st.tape, st.pointer as int), m.tape[st.pointer as int]));
            match cell(st.tape, st.pointer) {
                AbstractCell::Value(v) => {
                    if v != 0 {
                        let rest = (left - 1) as nat;
                        let mid = eval_from(body, 0, st, rest)->Ok_0;
                        lemma_certain_before_node(n, mid, rest);
                        lemma_from_in_step(body, 0, st, rest, m, start);
                        lemma_node_in_step(n, mid, rest, run_from(body, 0, m, rest)->0, start);
                    }
                },
                AbstractCell::Top => {},
            }
        },
        _ => {
            lemma_plain_in_step(n, st, m, start);
        },
    }
}

/// The evaluation of a sequence that ends with everything known follows the
/// sequence.
pub proof fn lemma_from_in_step(
    s: Seq<Node>,
    i: int,
    st: Abs,
    left: nat,
    m: Machine,
    start: Machine,
)
    requires
        in_step(st, m, start),
        eval_from(s, i, st, left) matches Ok(after) && after.certain,
    ensures
        run_from(s, i, m, left) is Some,
        in_step(eval_from(s, i, st, left)->Ok_0, run_from(s, i, m, left)->0, start),
    decreases left, 1 + s.len() - i,
{
    if 0 <= i < s.len() {
        let mid = eval_node(s[i], st, left)->Ok_0;
        lemma_certain_before_from(s, i + 1, mid, left);
        lemma_node_in_step(s[i], st, left, m, start);
        lemma_from_in_step(s, i + 1, mid, left, step(s[i], m, left)->0, start);
    }
}

/// The move between two pointers takes the machine from the one to the other.
proof fn lemma_pointer_fix_runs(from: usize, to: usize, x: Machine, fuel: nat)
    requires
        x.ptr == from,
    ensures
        run(pointer_fix(from, to), x, fuel) == Some(at_pointer(x, to)),
{
    let code = pointer_fix(from, to);
    if to != from {
        lemma_run_single(code[0], x, fuel);
        assert(code =~= seq![code[0]]);
    } else {
        assert(at_pointer(x, to) == x);
    }
}

/// The residual code of the events from `i` on replays them.
proof fn lemma_replay_code_runs(events: Seq<Event>, i: int, from: usize, start: Machine, fuel: nat)
    requires
        events_plain(events),
        0 <= i <= events.len(),
    ensures
        run(replay_code(events, i, from), at_pointer(replayed(events, i, start), from), fuel) == Some(
            at_pointer(
                replayed(events, events.len() as int, start),
                if i == events.len() {
                    from
                } else {
                    events.last().pointer
                },
            ),
        ),
    decreases events.len() - i,
{
    let x = at_pointer(replayed(events, i, start), from);
    if i < events.len() {
        let p = events[i].pointer;
        let n = events[i].node;
        let fix = pointer_fix(from, p);
        let rest = replay_code(events, i + 1, p);
        assert(plain_io(events[i].node));
        lemma_pointer_fix_runs(from, p, x, fuel);
        lemma_run_single(n, at_pointer(x, p), fuel);
        lemma_run_concat(fix, seq![n], x, fuel);
        lemma_run_concat(fix + seq![n], rest, x, fuel);
        let next = replayed(events, i + 1, start);
        assert(next == apply(n, at_pointer(replayed(events, i, start), p)));
        assert(at_pointer(x, p) == at_pointer(replayed(events, i, start), p));
        assert(at_pointer(next, p) == next);
        lemma_replay_code_runs(events, i + 1, p, start, fuel);
    } else {
        assert(replay_code(events, i, from) =~= Seq::<Node>::empty());
    }
}

/// The machine after the stores for the touched cells from `i` on.
pub open spec fn after_stores(st: Abs, i: int, r: Machine) -> Machine
    decreases st.touched.len() - i,
{
    if i < 0 || i >= st.touched.len() {
        r
    } else {
        let a = st.touched[i];
        match cell(st.tape, a) {
            AbstractCell::Value(v) => if st.held.dom().contains(a) && st.held[a]
                == AbstractCell::Value(v) {
                after_stores(st, i + 1, r)
            } else {
                after_stores(st, i + 1, r.store(a - r.ptr, v))
            },
            AbstractCell::Top => after_stores(st, i + 1, r),
        }
    }
}

/// The stores for the touched cells run to `after_stores`.
proof fn lemma_stores_run(st: Abs, i: int, at: usize, r: Machine, fuel: nat)
    requires
        0 <= i <= st.touched.len(),
        r.ptr == at,
        stores_from(st, i, at) is Some,
    ensures
        run(stores_from(st, i, at)->0, r, fuel) == Some(after_stores(st, i, r)),
    decreases st.touched.len() - i,
{
    let code = stores_from(st, i, at)->0;
    if i < st.touched.len() {
        let a = st.touched[i];
        match cell(st.tape, a) {
            AbstractCell::Value(v) => {
                if st.held.dom().contains(a) && st.held[a] == AbstractCell::Value(v) {
                    lemma_stores_run(st, i + 1, at, r, fuel);
                } else {
                    let n = Node::SetData { offset: (a - at) as isize, value: v, count: 0 };
                    let rest = stores_from(st, i + 1, at)->0;
                    lemma_run_single(n, r, fuel);
                    lemma_run_concat(seq![n], rest, r, fuel);
                    lemma_stores_run(st, i + 1, at, r.store(a - at, v), fuel);
                }
            },
            AbstractCell::Top => {
                lemma_stores_run(st, i + 1, at, r, fuel);
            },
        }
    } else {
        assert(code =~= Seq::<Node>::empty());
    }
}

/// The cell is among the touched cells from `i` on.
pub open spec fn listed_from(touched: Seq<usize>, i: int, a: int) -> bool {
    exists|j: int| i <= j < touched.len() && touched[j] == a
}

/// At position `b`, the residual machine holds what the program's machine
/// holds, or a store that is still to come will make it so.
pub open spec fn settled_at(st: Abs, m: Machine, r: Machine, i: int, b: int) -> bool {
    r.tape[b] == m.tape[b] || (listed_from(st.touched, i, b) && known(st.tape, b) is Value
        && held_cell(st, b) != Some(known(st.tape, b)))
}

/// After the stores the residual machine holds what the program's machine holds.
proof fn lemma_stores_settle(st: Abs, m: Machine, i: int, r: Machine)
    requires
        0 <= i <= st.touched.len(),
        r.wf(),
        fits(st, m),
        forall|b: int| #[trigger] settled_at(st, m, r, i, b),
    ensures
        after_stores(st, i, r).wf(),
        after_stores(st, i, r).ptr == r.ptr,
        after_stores(st, i, r).input == r.input,
        after_stores(st, i, r).output == r.output,
        forall|b: int| #[trigger] after_stores(st, i, r).tape[b] == m.tape[b],
    decreases st.touched.len() - i,
{
    if i < st.touched.len() {
        let a = st.touched[i];
        let next = match cell(st.tape, a) {
            AbstractCell::Value(v) => if st.held.dom().contains(a) && st.held[a]
                == AbstractCell::Value(v) {
                r
            } else {
                r.store(a - r.ptr, v)
            },
            AbstractCell::Top => r,
        };
        assert(agrees(known(st.tape, a as int), m.tape[a as int]));
        assert forall|b: int| #[trigger] settled_at(st, m, next, i + 1, b) by {
            assert(settled_at(st, m, r, i, b));
            if b != a && listed_from(st.touched, i, b) {
                let j = choose|j: int| i <= j < st.touched.len() && st.touched[j] == b;
                assert(i + 1 <= j < st.touched.len() && st.touched[j] == b);
            }
        }
        lemma_stores_settle(st, m, i + 1, next);
    } else {
        assert forall|b: int| #[trigger] r.tape[b] == m.tape[b] by {
            assert(settled_at(st, m, r, i, b));
        }
    }
}

/// The residual code of a command that was evaluated with everything known
/// takes the residual machine to the program's machine after the command,
/// but for the pointer.
proof fn lemma_certain_code_runs(
    n: Node,
    tape: Map<usize, AbstractCell>,
    pointer: usize,
    at: usize,
    left: nat,
    m: Machine,
    fuel: nat,
)
    requires
        m.wf(),
        m.ptr == pointer,
        describes(tape, m),
        eval_node(n, fresh(tape, pointer), left) matches Ok(st) && st.certain && stores_from(
            st,
            0,
            replay_end(st.events, at),
        ) is Some,
    ensures
        step(n, m, left) is Some,
        ({
            let st = eval_node(n, fresh(tape, pointer), left)->Ok_0;
            let end = replay_end(st.events, at);
            &&& fits(st, step(n, m, left)->0)
            &&& run(replay_code(st.events, 0, at) + stores_from(st, 0, end)->0, at_pointer(m, at), fuel)
                == Some(at_pointer(step(n, m, left)->0, end))
        }),
{
    let first = fresh(tape, pointer);
    let start = at_pointer(m, at);
    let st = eval_node(n, first, left)->Ok_0;
    let end = replay_end(st.events, at);
    assert forall|a: int| #[trigger] synced_at(first, m, start, a) by {}
    assert(residual_of(first, start) == start);
    lemma_node_in_step(n, first, left, m, start);
    let m1 = step(n, m, left)->0;
    let r = residual_of(st, start);
    lemma_replay_code_runs(st.events, 0, at, start, fuel);
    let landed = at_pointer(r, end);
    assert forall|b: int| #[trigger] settled_at(st, m1, landed, 0, b) by {
        assert(synced_at(st, m1, r, b));
        assert(agrees(known(st.tape, b), m1.tape[b]));
        if landed.tape[b] != m1.tape[b] {
            assert(st.held.dom().contains(b as usize));
            let j = choose|j: int| 0 <= j < st.touched.len() && st.touched[j] == b as usize;
            assert(0 <= j < st.touched.len() && st.touched[j] == b);
        }
    }
    lemma_stores_settle(st, m1, 0, landed);
    lemma_stores_run(st, 0, end, landed, fuel);
    let done = after_stores(st, 0, landed);
    lemma_step_wf(n, m, left);
    assert(done.tape =~= m1.tape);
    assert(done == at_pointer(m1, end));
    lemma_run_concat(replay_code(st.events, 0, at), stores_from(st, 0, end)->0, start, fuel);
}

/// The residual code of the commands `s[k..]` does what they do: started on
/// the program's machine with the pointer where the residual program has it,
/// it halts with the same machine wherever they halt, and they halt with the
/// same machine wherever it halts, given the evaluator's fuel in addition.
pub proof fn lemma_residual_from(
    s: Seq<Node>,
    k: int,
    tape: Map<usize, AbstractCell>,
    pointer: usize,
    at: usize,
    left: nat,
    m: Machine,
    fuel: nat,
)
    requires
        0 <= k <= s.len(),
        m.wf(),
        m.ptr == pointer,
        describes(tape, m),
    ensures
        run_from(s, k, m, fuel) is Some ==> run(
            residual_from(s, k, tape, pointer, at, left),
            at_pointer(m, at),
            fuel,
        ) == run_from(s, k, m, fuel),
        run(residual_from(s, k, tape, pointer, at, left), at_pointer(m, at), fuel) is Some
            ==> run_from(s, k, m, fuel + left) == run(
            residual_from(s, k, tape, pointer, at, left),
            at_pointer(m, at),
            fuel,
        ),
    decreases s.len() - k,
{
    let code = residual_from(s, k, tape, pointer, at, left);
    let start = at_pointer(m, at);
    let fix = pointer_fix(at, pointer);
    lemma_pointer_fix_runs(at, pointer, start, fuel);
    assert(at_pointer(start, pointer) == m);
    if k >= s.len() {
    } else {
        let n = s[k];
        let outcome = eval_node(n, fresh(tape, pointer), left);
        let certain_code = outcome matches Ok(st) && st.certain && stores_from(
            st,
            0,
            replay_end(st.events, at),
        ) is Some;
        let kept = outcome is Err || (outcome matches Ok(st) && st.certain && stores_from(
            st,
            0,
            replay_end(st.events, at),
        ) is None);
        if kept {
            let rest = s.subrange(k, s.len() as int);
            assert(code == fix + rest);
            lemma_run_concat(fix, rest, start, fuel);
            lemma_run_from_is_run_of_suffix(s, k, m, fuel);
            if run_from(s, k, m, fuel) is Some {
                lemma_run_more_fuel(s, k, m, fuel, fuel + left);
            }
        } else if certain_code {
            let st = outcome->Ok_0;
            let end = replay_end(st.events, at);
            let head = replay_code(st.events, 0, at) + stores_from(st, 0, end)->0;
            let rest = residual_from(s, k + 1, st.tape, st.pointer, end, left);
            assert(code == head + rest);
            lemma_certain_code_runs(n, tape, pointer, at, left, m, fuel);
            let m1 = step(n, m, left)->0;
            lemma_step_wf(n, m, left);
            lemma_run_concat(head, rest, start, fuel);
            lemma_residual_from(s, k + 1, st.tape, st.pointer, end, left, m1, fuel);
            lemma_step_more_fuel(n, m, left, fuel + left);
            if step(n, m, fuel) is Some {
                if fuel <= left {
                    lemma_step_more_fuel(n, m, fuel, left);
                } else {
                    lemma_step_more_fuel(n, m, left, fuel);
                }
            }
        } else {
            let st = outcome->Ok_0;
            let rest = residual_from(s, k + 1, st.tape, st.pointer, st.pointer, left);
            assert(code == fix + seq![n] + rest);
            lemma_run_single(n, m, fuel);
            lemma_run_concat(fix, seq![n], start, fuel);
            lemma_run_concat(fix + seq![n], rest, start, fuel);
            if step(n, m, fuel) is Some {
                let m1 = step(n, m, fuel)->0;
                lemma_eval_node_sound(n, fresh(tape, pointer), left, m, fuel);
                lemma_step_wf(n, m, fuel);
                assert(at_pointer(m1, st.pointer) == m1);
                lemma_residual_from(s, k + 1, st.tape, st.pointer, st.pointer, left, m1, fuel);
                lemma_step_more_fuel(n, m, fuel, fuel + left);
            }
        }
    }
}

/// Partial evaluation changes nothing that can be observed: started on a
/// tape of zeros with the pointer at `INIT_POINTER_LOC`, on any input, the
/// residual program halts if and only if the program halts, and leaves the
/// same tape, pointer, input and output.
pub proof fn lemma_partial_eval_sound(s: Seq<Node>, input: Seq<u8>, r: Machine)
    ensures
        halts_with(s, Machine::start(INIT_POINTER_LOC as int, input), r) <==> halts_with(
            partial_eval_nodes(s),
            Machine::start(INIT_POINTER_LOC as int, input),
            r,
        ),
{
    let m = Machine::start(INIT_POINTER_LOC as int, input);
    let made = partial_eval_nodes(s);
    let left = EVAL_FUEL as nat;
    assert(at_pointer(m, INIT_POINTER_LOC) == m);
    assert(describes(Map::empty(), m)) by {
        assert forall|a: int| agrees(#[trigger] known(Map::empty(), a), m.tape[a]) by {}
    }
    if halts_with(s, m, r) {
        let fuel = choose|fuel: nat| run(s, m, fuel) == Some(r);
        lemma_residual_from(s, 0, Map::empty(), INIT_POINTER_LOC, INIT_POINTER_LOC, left, m, fuel);
        assert(run(made, m, fuel) == Some(r));
    }
    if halts_with(made, m, r) {
        let fuel = choose|fuel: nat| run(made, m, fuel) == Some(r);
        lemma_residual_from(s, 0, Map::empty(), INIT_POINTER_LOC, INIT_POINTER_LOC, left, m, fuel);
        assert(run(s, m, fuel + left) == Some(r));
    }
}

} // verus!
