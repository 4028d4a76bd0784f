use vstd::prelude::*;
use crate::ir::{Direction, Node};
use crate::optimizer::{
    clears_cell, fold_zero_node, fold_zero_nodes, scan_node, scan_nodes, scan_of, zero_cell,
};
use crate::semantics::{
    apply, equivalent, halts_with, lemma_run_wf, lemma_step_more_fuel, lemma_step_wf, run,
    run_from, step, stride, wrap, Machine,
};

verus! {

/// How much more fuel a program may need than what a pass makes of it: no
/// loop that a pass removes takes more than 255 turns.
pub open spec fn slack() -> nat {
    256
}

/// The loop that a scan stands for: one pointer move by the scan's stride.
pub open spec fn scan_loop(id: usize, direction: Direction, skip_amount: usize) -> Node {
    Node::Loop {
        id,
        body: seq![
            match direction {
                Direction::Right => Node::IncPointer { amount: skip_amount, count: 0 },
                Direction::Left => Node::DecPointer { amount: skip_amount, count: 0 },
            },
        ],
        start_count: 0,
        end_count: 0,
    }
}

/// A scan does what the loop around a single pointer move by its stride does:
/// on every machine and with every fuel, both leave the same machine or both
/// run out of fuel.
pub proof fn lemma_scan_is_loop(
    id: usize,
    direction: Direction,
    skip_amount: usize,
    count: usize,
    m: Machine,
    fuel: nat,
)
    ensures
        step(Node::Scan { id, direction, skip_amount, count }, m, fuel) == step(
            scan_loop(id, direction, skip_amount),
            m,
            fuel,
        ),
    decreases fuel,
{
    let scan = Node::Scan { id, direction, skip_amount, count };
    let looped = scan_loop(id, direction, skip_amount);
    if m.at(0) != 0 && fuel > 0 {
        let body = looped->body;
        let rest = (fuel - 1) as nat;
        let moved = m.shift(stride(direction, skip_amount));
        assert(step(body[0], m, rest) == Some(moved));
        assert(run_from(body, 1, moved, rest) == Some(moved));
        assert(run_from(body, 0, m, rest) == Some(moved));
        lemma_scan_is_loop(id, direction, skip_amount, count, moved, rest);
    }
}

/// A loop around one pointer move and the scan it becomes do the same.
proof fn lemma_scan_of(n: Node, m: Machine, fuel: nat)
    requires
        n matches Node::Loop { id, body, .. } && scan_of(id, body) is Some,
    ensures
        step(scan_node(n), m, fuel) == step(n, m, fuel),
    decreases fuel,
{
    let body = n->body;
    if m.at(0) != 0 && fuel > 0 {
        let rest = (fuel - 1) as nat;
        let moved = apply(body[0], m);
        assert(step(body[0], m, rest) == Some(moved));
        assert(run_from(body, 1, moved, rest) == Some(moved));
        assert(run_from(body, 0, m, rest) == Some(moved));
        lemma_scan_of(n, moved, rest);
    }
}

/// The scan pass changes nothing of what a node does.
pub proof fn lemma_scan_node_same(n: Node, m: Machine, fuel: nat)
    ensures
        step(scan_node(n), m, fuel) == step(n, m, fuel),
    decreases fuel, 0nat,
{
    match n {
        Node::Loop { id, body, start_count, end_count } => {
            if scan_of(id, body) is Some {
                lemma_scan_of(n, m, fuel);
            } else if m.at(0) != 0 && fuel > 0 {
                let rest = (fuel - 1) as nat;
                lemma_scan_nodes_same(body, 0, m, rest);
                match run_from(body, 0, m, rest) {
                    Some(after) => lemma_scan_node_same(n, after, rest),
                    None => {},
                }
            }
        },
        _ => {},
    }
}

/// The scan pass changes nothing of what a program does.
pub proof fn lemma_scan_nodes_same(s: Seq<Node>, i: int, m: Machine, fuel: nat)
    ensures
        run_from(scan_nodes(s), i, m, fuel) == run_from(s, i, m, fuel),
    decreases fuel, 1 + s.len() - i,
{
    if 0 <= i < s.len() {
        lemma_scan_node_same(s[i], m, fuel);
        match step(s[i], m, fuel) {
            Some(after) => lemma_scan_nodes_same(s, i + 1, after, fuel),
            None => {},
        }
    }
}

/// A program and what the scan pass makes of it cannot be told apart.
pub proof fn lemma_scans_equivalent(s: Seq<Node>)
    ensures
        equivalent(s, scan_nodes(s)),
{
    assert forall|m: Machine, r: Machine| m.wf() implies (halts_with(s, m, r) <==> halts_with(
        scan_nodes(s),
        m,
        r,
    )) by {
        if halts_with(s, m, r) {
            let fuel = choose|fuel: nat| run(s, m, fuel) == Some(r);
            lemma_scan_nodes_same(s, 0, m, fuel);
            assert(run(scan_nodes(s), m, fuel) == Some(r));
        }
        if halts_with(scan_nodes(s), m, r) {
            let fuel = choose|fuel: nat| run(scan_nodes(s), m, fuel) == Some(r);
            lemma_scan_nodes_same(s, 0, m, fuel);
            assert(run(s, m, fuel) == Some(r));
        }
    }
}

/// The inverse of an odd byte modulo 256.
pub open spec fn inverse(a: u8) -> u8 {
    let x1: u8 = ((a * ((258 - (a * a) % 256) % 256)) % 256) as u8;
    ((x1 * ((258 - (a * x1) % 256) % 256)) % 256) as u8
}

/// The byte that makes 0 when added to `v`, modulo 256.
pub open spec fn negated(v: u8) -> u8 {
    ((256 - v) % 256) as u8
}

/// How many times the odd byte `a` must be taken from `v` to reach 0, modulo 256.
#[verifier::opaque]
pub open spec fn turns_down(v: u8, a: u8) -> nat {
    ((v * inverse(a)) % 256) as nat
}

/// How many turns a cell-clearing loop takes on a cell that holds `v`, where
/// each turn adds the odd amount `a` (or takes it away, where `down`).
pub open spec fn turns(v: u8, a: u8, down: bool) -> nat {
    if down {
        turns_down(v, a)
    } else {
        turns_down(negated(v), a)
    }
}

/// Taking the amount away once leaves one turn less, and only 0 needs no turn.
#[verifier::rlimit(50)]
proof fn lemma_turns_down(v: u8, a: u8)
    requires
        a % 2 == 1,
    ensures
        turns_down(0, a) == 0,
        turns_down(v, a) < 256,
        v != 0 ==> turns_down(v, a) > 0 && turns_down(wrap(v - a), a) == turns_down(v, a) - 1,
{
    reveal(turns_down);
    let down: u8 = ((v + 256 - a) % 256) as u8;
    assert(down == wrap(v - a));
    assert(a % 2 == 1 && v != 0 && down == ((v + 256 - a) % 256) as u8 ==> (v * inverse(a)) % 256
        > 0 && (down * inverse(a)) % 256 == (v * inverse(a)) % 256 - 1) by (bit_vector);
}

/// Each turn of a cell-clearing loop leaves one turn less, and only 0 needs no turn.
proof fn lemma_turns(v: u8, a: u8)
    requires
        a % 2 == 1,
    ensures
        turns(0, a, true) == 0,
        turns(0, a, false) == 0,
        turns(v, a, true) < 256,
        turns(v, a, false) < 256,
        v != 0 ==> turns(v, a, true) > 0 && turns(wrap(v - a), a, true) == turns(v, a, true) - 1,
        v != 0 ==> turns(v, a, false) > 0 && turns(wrap(v + a), a, false) == turns(v, a, false)
            - 1,
{
    lemma_turns_down(v, a);
    lemma_turns_down(negated(v), a);
    assert(negated(wrap(v + a)) == wrap(negated(v) - a));
}

/// The odd amount that a cell-clearing body adds, and whether it takes it away.
spec fn clearing_amount(body: Seq<Node>) -> (u8, bool) {
    match body[0] {
        Node::IncData { amount, .. } => (amount, false),
        Node::DecData { amount, .. } => (amount, true),
        _ => (1, true),
    }
}

/// A cell-clearing loop that halts leaves the cell at 0 and everything else as it was.
proof fn lemma_clearing_result(n: Node, m: Machine, fuel: nat)
    requires
        m.wf(),
        n matches Node::Loop { body, .. } && clears_cell(body),
        step(n, m, fuel) is Some,
    ensures
        step(n, m, fuel) == Some(m.store(0, 0)),
    decreases fuel,
{
    let body = n->body;
    if m.at(0) == 0 {
        assert(m.store(0, 0).tape =~= m.tape);
    } else {
        let rest = (fuel - 1) as nat;
        let after = apply(body[0], m);
        assert(step(body[0], m, rest) == Some(after));
        assert(run_from(body, 1, after, rest) == Some(after));
        assert(run_from(body, 0, m, rest) == Some(after));
        lemma_clearing_result(n, after, rest);
        assert(after.store(0, 0).tape =~= m.store(0, 0).tape);
    }
}

/// A cell-clearing loop halts within as many turns as `turns` says.
proof fn lemma_clearing_halts(n: Node, m: Machine, fuel: nat)
    requires
        m.wf(),
        n matches Node::Loop { body, .. } && clears_cell(body),
        fuel >= turns(m.at(0), clearing_amount(n->body).0, clearing_amount(n->body).1),
    ensures
        step(n, m, fuel) is Some,
    decreases fuel,
{
    let body = n->body;
    let (a, down) = clearing_amount(body);
    lemma_turns(m.at(0), a);
    if m.at(0) != 0 {
        let rest = (fuel - 1) as nat;
        let after = apply(body[0], m);
        assert(step(body[0], m, rest) == Some(after));
        assert(run_from(body, 1, after, rest) == Some(after));
        assert(run_from(body, 0, m, rest) == Some(after));
        assert(after.at(0) == if down { wrap(m.at(0) - a) } else { wrap(m.at(0) + a) });
        lemma_clearing_halts(n, after, rest);
    }
}

/// Where a node halts, what the fold makes of it halts with the same fuel and
/// the same result.
pub proof fn lemma_fold_node_forward(n: Node, m: Machine, fuel: nat)
    requires
        m.wf(),
        step(n, m, fuel) is Some,
    ensures
        step(fold_zero_node(n), m, fuel) == step(n, m, fuel),
    decreases fuel, 0nat,
{
    match n {
        Node::Loop { id, body, start_count, end_count } => {
            if clears_cell(body) {
                lemma_clearing_result(n, m, fuel);
            } else if m.at(0) != 0 {
                let rest = (fuel - 1) as nat;
                lemma_fold_nodes_forward(body, 0, m, rest);
                lemma_run_wf(body, 0, m, rest);
                lemma_fold_node_forward(n, run_from(body, 0, m, rest)->0, rest);
            }
        },
        _ => {},
    }
}

/// Where a program halts, what the fold makes of it halts with the same fuel
/// and the same result.
pub proof fn lemma_fold_nodes_forward(s: Seq<Node>, i: int, m: Machine, fuel: nat)
    requires
        m.wf(),
        run_from(s, i, m, fuel) is Some,
    ensures
        run_from(fold_zero_nodes(s), i, m, fuel) == run_from(s, i, m, fuel),
    decreases fuel, 1 + s.len() - i,
{
    if 0 <= i < s.len() {
        lemma_fold_node_forward(s[i], m, fuel);
        lemma_step_wf(s[i], m, fuel);
        lemma_fold_nodes_forward(s, i + 1, step(s[i], m, fuel)->0, fuel);
    }
}

/// Where what the fold makes of a node halts, the node halts with the same
/// result, given `slack()` more fuel.
pub proof fn lemma_fold_node_backward(n: Node, m: Machine, fuel: nat)
    requires
        m.wf(),
        step(fold_zero_node(n), m, fuel) is Some,
    ensures
        step(n, m, fuel + slack()) == step(fold_zero_node(n), m, fuel),
    decreases fuel, 0nat,
{
    match n {
        Node::Loop { id, body, start_count, end_count } => {
            if clears_cell(body) {
                lemma_turns(m.at(0), clearing_amount(body).0);
                lemma_clearing_halts(n, m, fuel + slack());
                lemma_clearing_result(n, m, fuel + slack());
            } else if m.at(0) != 0 {
                let rest = (fuel - 1) as nat;
                let folded = fold_zero_node(n);
                let total = fuel + slack();
                assert(step(folded, m, fuel) == match run_from(fold_zero_nodes(body), 0, m, rest) {
                    Some(after) => step(folded, after, rest),
                    None => None,
                });
                lemma_fold_nodes_backward(body, 0, m, rest);
                let after = run_from(fold_zero_nodes(body), 0, m, rest)->0;
                lemma_run_wf(fold_zero_nodes(body), 0, m, rest);
                lemma_fold_node_backward(n, after, rest);
                assert(rest + slack() == (total - 1) as nat);
                assert(step(n, m, total) == match run_from(body, 0, m, (total - 1) as nat) {
                    Some(after) => step(n, after, (total - 1) as nat),
                    None => None,
                });
            }
        },
        _ => {
            lemma_step_more_fuel(n, m, fuel, fuel + slack());
        },
    }
}

/// Where what the fold makes of a program halts, the program halts with the
/// same result, given `slack()` more fuel.
pub proof fn lemma_fold_nodes_backward(s: Seq<Node>, i: int, m: Machine, fuel: nat)
    requires
        m.wf(),
        run_from(fold_zero_nodes(s), i, m, fuel) is Some,
    ensures
        run_from(s, i, m, fuel + slack()) == run_from(fold_zero_nodes(s), i, m, fuel),
    decreases fuel, 1 + s.len() - i,
{
    if 0 <= i < s.len() {
        let folded = fold_zero_nodes(s);
        lemma_fold_node_backward(s[i], m, fuel);
        lemma_step_wf(folded[i], m, fuel);
        lemma_fold_nodes_backward(s, i + 1, step(folded[i], m, fuel)->0, fuel);
    }
}

/// Replacing a loop that only adds an odd amount to its cell by a store of 0
/// changes nothing that can be observed: on every machine the loop halts, and
/// leaves what the store leaves.
pub proof fn lemma_clearing_loop_is_store(n: Node, m: Machine)
    requires
        m.wf(),
        n matches Node::Loop { body, .. } && clears_cell(body),
    ensures
        halts_with(seq![n], m, m.store(0, 0)),
        halts_with(seq![zero_cell()], m, m.store(0, 0)),
{
    lemma_turns(m.at(0), clearing_amount(n->body).0);
    lemma_clearing_halts(n, m, slack());
    lemma_clearing_result(n, m, slack());
    assert(run_from(seq![n], 1, m.store(0, 0), slack()) == Some(m.store(0, 0)));
    assert(run(seq![n], m, slack()) == Some(m.store(0, 0)));
    assert(step(seq![zero_cell()][0], m, 0) == Some(m.store(0, 0)));
    assert(run_from(seq![zero_cell()], 1, m.store(0, 0), 0) == Some(m.store(0, 0)));
    assert(run(seq![zero_cell()], m, 0) == Some(m.store(0, 0)));
}

/// A program and what the zero-loop fold makes of it cannot be told apart.
pub proof fn lemma_fold_equivalent(s: Seq<Node>)
    ensures
        equivalent(s, fold_zero_nodes(s)),
{
    assert forall|m: Machine, r: Machine| m.wf() implies (halts_with(s, m, r) <==> halts_with(
        fold_zero_nodes(s),
        m,
        r,
    )) by {
        if halts_with(s, m, r) {
            let fuel = choose|fuel: nat| run(s, m, fuel) == Some(r);
            lemma_fold_nodes_forward(s, 0, m, fuel);
            assert(run(fold_zero_nodes(s), m, fuel) == Some(r));
        }
        if halts_with(fold_zero_nodes(s), m, r) {
            let fuel = choose|fuel: nat| run(fold_zero_nodes(s), m, fuel) == Some(r);
            lemma_fold_nodes_backward(s, 0, m, fuel);
            assert(run(s, m, fuel + slack()) == Some(r));
        }
    }
}

} // verus!
