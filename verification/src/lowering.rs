use vstd::prelude::*;
use crate::equivalence::{negated, slack};
use crate::ir::Node;
use crate::optimizer::{
    lowered, lowered_from, replace_simple_from, replace_simple_node, replace_simple_nodes,
    simple_delta, walk_from, walk_step, Walk,
};
use crate::semantics::{
    apply, equivalent, halts_with, lemma_run_concat, lemma_run_wf, lemma_step_more_fuel,
    lemma_step_wf, lemma_wrap_sum, run, run_from, scaled, step, wrap, Machine,
};

verus! {

/// What one turn of a loop body adds to the cell at position `at` relative to
/// the loop's entry: the sum over the additions in `body[i..]` that reach that
/// cell, read with the pointer at `rel`.
pub open spec fn gain(body: Seq<Node>, i: int, rel: int, at: int) -> int
    decreases body.len() - i,
{
    if i < 0 || i >= body.len() {
        0
    } else {
        match body[i] {
            Node::IncPointer { amount, .. } => gain(body, i + 1, rel + amount, at),
            Node::DecPointer { amount, .. } => gain(body, i + 1, rel - amount, at),
            Node::IncData { offset, amount, .. } => (if rel + offset == at {
                amount as int
            } else {
                0
            }) + gain(body, i + 1, rel, at),
            Node::DecData { offset, amount, .. } => (if rel + offset == at {
                -(amount as int)
            } else {
                0
            }) + gain(body, i + 1, rel, at),
            _ => gain(body, i + 1, rel, at),
        }
    }
}

/// The machine after `k` turns of a simple loop body: every cell has gained
/// `k` times what one turn adds to it.
pub open spec fn after_turns(body: Seq<Node>, m: Machine, k: int) -> Machine {
    Machine {
        tape: Map::new(
            |a: int| true,
            |a: int| wrap(m.tape[a] + k * gain(body, 0, 0, a - m.ptr)),
        ),
        ..m
    }
}

/// How many turns a simple loop takes on an induction cell that holds `v`.
pub open spec fn remaining(v: u8, delta: int) -> int {
    if delta == 1 {
        negated(v) as int
    } else {
        v as int
    }
}

/// The gain of the induction cell is the change of the walk's delta.
proof fn lemma_gain_is_delta(body: Seq<Node>, i: int, w: Walk)
    requires
        0 <= i <= body.len(),
        walk_from(body, i, w) is Some,
    ensures
        gain(body, i, w.ptr, 0) == walk_from(body, i, w)->0.delta - w.delta,
    decreases body.len() - i,
{
    if i < body.len() {
        lemma_gain_is_delta(body, i + 1, walk_step(w, body[i])->0);
    }
}

/// One pass over the rest of a simple body moves the pointer as the walk
/// says, adds to every cell its gain, and reads and writes nothing.
proof fn lemma_body_pass(body: Seq<Node>, i: int, w: Walk, m: Machine, base: int, fuel: nat)
    requires
        m.wf(),
        0 <= i <= body.len(),
        walk_from(body, i, w) is Some,
        m.ptr == base + w.ptr,
    ensures
        run_from(body, i, m, fuel) matches Some(r) && {
            &&& r.wf()
            &&& r.ptr == base + walk_from(body, i, w)->0.ptr
            &&& r.input == m.input
            &&& r.output == m.output
            &&& forall|a: int| #[trigger]
                r.tape[a] == wrap(m.tape[a] + gain(body, i, w.ptr, a - base))
        },
    decreases body.len() - i,
{
    if i < body.len() {
        let next = walk_step(w, body[i])->0;
        let after = apply(body[i], m);
        assert(step(body[i], m, fuel) == Some(after));
        lemma_body_pass(body, i + 1, next, after, base, fuel);
        let r = run_from(body, i, m, fuel)->0;
        assert forall|a: int| #[trigger]
            r.tape[a] == wrap(m.tape[a] + gain(body, i, w.ptr, a - base)) by {
            let rest = gain(body, i + 1, next.ptr, a - base);
            match body[i] {
                Node::IncData { offset, amount, .. } => {
                    lemma_wrap_sum(m.tape[a] as int, amount as int, rest);
                },
                Node::DecData { offset, amount, .. } => {
                    lemma_wrap_sum(m.tape[a] as int, -(amount as int), rest);
                },
                _ => {},
            }
        }
    }
}

/// One turn of a simple loop body takes the machine after `k` turns to the
/// machine after `k + 1` turns.
proof fn lemma_turn(body: Seq<Node>, m: Machine, k: int, fuel: nat)
    requires
        m.wf(),
        simple_delta(body) is Some,
    ensures
        run_from(body, 0, after_turns(body, m, k), fuel) == Some(after_turns(body, m, k + 1)),
{
    let zero = Walk { ptr: 0, delta: 0 };
    let from = after_turns(body, m, k);
    lemma_body_pass(body, 0, zero, from, m.ptr, fuel);
    let r = run_from(body, 0, from, fuel)->0;
    let to = after_turns(body, m, k + 1);
    assert forall|a: int| r.tape[a] == to.tape[a] by {
        let g = gain(body, 0, 0, a - m.ptr);
        assert((k + 1) * g == k * g + g) by (nonlinear_arith);
        assert(r.tape[a] == wrap(from.tape[a] + g));
        lemma_wrap_sum(m.tape[a] as int, k * g, g);
    }
    assert(r.tape =~= to.tape);
}

/// The induction cell after `k` turns.
proof fn lemma_induction_cell(body: Seq<Node>, m: Machine, k: int)
    requires
        m.wf(),
        simple_delta(body) is Some,
    ensures
        after_turns(body, m, k).at(0) == wrap(m.at(0) + k * simple_delta(body)->0),
        after_turns(body, m, k).wf(),
        after_turns(body, m, 0) == m,
{
    lemma_gain_is_delta(body, 0, Walk { ptr: 0, delta: 0 });
    assert(after_turns(body, m, 0).tape =~= m.tape) by {
        assert forall|a: int| after_turns(body, m, 0).tape[a] == m.tape[a] by {
            assert(0 * gain(body, 0, 0, a - m.ptr) == 0) by (nonlinear_arith);
        }
    }
}

/// From one turn to the next the induction cell changes by the delta, and
/// one turn less remains.
proof fn lemma_one_turn_less(v: u8, k: int, delta: int)
    requires
        delta == 1 || delta == -1,
    ensures
        wrap(v + (k + 1) * delta) == wrap(wrap(v + k * delta) + delta),
        wrap(v + k * delta) == 0 ==> remaining(wrap(v + k * delta), delta) == 0,
        wrap(v + k * delta) != 0 ==> remaining(wrap(v + (k + 1) * delta), delta) == remaining(
            wrap(v + k * delta),
            delta,
        ) - 1,
{
    if delta == 1 {
        assert(k * delta == k && (k + 1) * delta == k + 1) by (nonlinear_arith)
            requires
                delta == 1,
        ;
    } else {
        assert(k * delta == -k && (k + 1) * delta == -k - 1) by (nonlinear_arith)
            requires
                delta == -1,
        ;
    }
}

/// A simple loop, entered after `k` turns, halts where it has fuel for the
/// turns that remain, and wherever it halts it has made exactly those turns.
#[verifier::rlimit(50)]
proof fn lemma_simple_loop(n: Node, m: Machine, k: int, fuel: nat)
    requires
        m.wf(),
        k >= 0,
        n matches Node::Loop { body, .. } && simple_delta(body) is Some,
    ensures
        fuel >= remaining(after_turns(n->body, m, k).at(0), simple_delta(n->body)->0) ==> step(
            n,
            after_turns(n->body, m, k),
            fuel,
        ) is Some,
        step(n, after_turns(n->body, m, k), fuel) is Some ==> step(
            n,
            after_turns(n->body, m, k),
            fuel,
        ) == Some(
            after_turns(
                n->body,
                m,
                k + remaining(after_turns(n->body, m, k).at(0), simple_delta(n->body)->0),
            ),
        ),
    decreases fuel,
{
    let body = n->body;
    let d = simple_delta(body)->0;
    let now = after_turns(body, m, k);
    lemma_induction_cell(body, m, k);
    lemma_induction_cell(body, m, k + 1);
    lemma_one_turn_less(m.at(0), k, d);
    if now.at(0) != 0 && fuel > 0 {
        let rest = (fuel - 1) as nat;
        lemma_turn(body, m, k, rest);
        lemma_simple_loop(n, m, k + 1, rest);
    }
}

/// The byte by which the lowered code multiplies: the number of turns.
proof fn lemma_scaled(v: u8, amount: u8, delta: int)
    requires
        delta == 1 || delta == -1,
    ensures
        scaled(v, amount as usize, delta == 1) == (remaining(v, delta) * amount) % 256,
{
}

/// The lowered code of the rest of a simple body leaves the pointer, the
/// input and the output alone, stores 0 to the induction cell, and adds to
/// every other cell its gain times the number of turns.
proof fn lemma_lowered_pass(
    body: Seq<Node>,
    i: int,
    w: Walk,
    m: Machine,
    delta: int,
    turns: int,
    fuel: nat,
)
    requires
        m.wf(),
        0 <= i <= body.len(),
        walk_from(body, i, w) is Some,
        delta == 1 || delta == -1,
        turns == remaining(m.at(0), delta),
    ensures
        run(lowered_from(body, i, w.ptr, delta == 1), m, fuel) matches Some(r) && {
            &&& r.wf()
            &&& r.ptr == m.ptr
            &&& r.input == m.input
            &&& r.output == m.output
            &&& r.tape[m.ptr] == 0
            &&& forall|a: int|
                a != m.ptr ==> #[trigger] r.tape[a] == wrap(
                    m.tape[a] + turns * gain(body, i, w.ptr, a - m.ptr),
                )
        },
    decreases body.len() - i,
{
    let inverted = delta == 1;
    let code = lowered_from(body, i, w.ptr, inverted);
    if i < body.len() {
        let next = walk_step(w, body[i])->0;
        match body[i] {
            Node::IncData { offset, amount, .. } => {
                if w.ptr + offset != 0 {
                    let dest = (w.ptr + offset) as isize;
                    let head = Node::AddOffsetData {
                        dest_offset: dest,
                        src_offset: 0,
                        multiplier: amount as usize,
                        inverted,
                        count: 0,
                    };
                    let rest = lowered_from(body, i + 1, w.ptr, inverted);
                    let after = apply(head, m);
                    assert(step(seq![head][0], m, fuel) == Some(after));
                    assert(run_from(seq![head], 1, after, fuel) == Some(after));
                    assert(run(seq![head], m, fuel) == Some(after));
                    lemma_run_concat(seq![head], rest, m, fuel);
                    assert(after.at(0) == m.at(0));
                    lemma_lowered_pass(body, i + 1, next, after, delta, turns, fuel);
                    lemma_scaled(m.at(0), amount, delta);
                    let r = run(code, m, fuel)->0;
                    assert forall|a: int| a != m.ptr implies #[trigger] r.tape[a] == wrap(
                        m.tape[a] + turns * gain(body, i, w.ptr, a - m.ptr),
                    ) by {
                        let g = gain(body, i + 1, w.ptr, a - m.ptr);
                        if a == m.ptr + dest {
                            assert(turns * (amount + g) == turns * amount + turns * g)
                                by (nonlinear_arith);
                            lemma_wrap_sum(m.tape[a] as int, turns * amount, turns * g);
                        }
                    }
                } else {
                    lemma_lowered_pass(body, i + 1, next, m, delta, turns, fuel);
                }
            },
            Node::DecData { offset, amount, .. } => {
                if w.ptr + offset != 0 {
                    let dest = (w.ptr + offset) as isize;
                    let head = Node::SubOffsetData {
                        dest_offset: dest,
                        src_offset: 0,
                        multiplier: amount as usize,
                        inverted,
                        count: 0,
                    };
                    let rest = lowered_from(body, i + 1, w.ptr, inverted);
                    let after = apply(head, m);
                    assert(step(seq![head][0], m, fuel) == Some(after));
                    assert(run_from(seq![head], 1, after, fuel) == Some(after));
                    assert(run(seq![head], m, fuel) == Some(after));
                    lemma_run_concat(seq![head], rest, m, fuel);
                    assert(after.at(0) == m.at(0));
                    lemma_lowered_pass(body, i + 1, next, after, delta, turns, fuel);
                    lemma_scaled(m.at(0), amount, delta);
                    let r = run(code, m, fuel)->0;
                    assert forall|a: int| a != m.ptr implies #[trigger] r.tape[a] == wrap(
                        m.tape[a] + turns * gain(body, i, w.ptr, a - m.ptr),
                    ) by {
                        let g = gain(body, i + 1, w.ptr, a - m.ptr);
                        if a == m.ptr + dest {
                            assert(turns * (-(amount as int) + g) == -(turns * amount) + turns * g)
                                by (nonlinear_arith);
                            lemma_wrap_sum(m.tape[a] as int, -(turns * amount), turns * g);
                            lemma_wrap_sum(m.tape[a] as int, turns * amount, 0);
                        }
                    }
                } else {
                    lemma_lowered_pass(body, i + 1, next, m, delta, turns, fuel);
                }
            },
            _ => {
                lemma_lowered_pass(body, i + 1, next, m, delta, turns, fuel);
            },
        }
    } else {
        let after = m.store(0, 0);
        assert(step(code[0], m, fuel) == Some(after));
        assert(run_from(code, 1, after, fuel) == Some(after));
        assert forall|a: int| a != m.ptr implies #[trigger] after.tape[a] == wrap(
            m.tape[a] + turns * gain(body, i, w.ptr, a - m.ptr),
        ) by {
            assert(turns * 0 == 0) by (nonlinear_arith);
        }
    }
}

/// The straight-line code of a simple loop leaves what all the turns of the loop leave.
proof fn lemma_lowered_is_all_turns(body: Seq<Node>, m: Machine, fuel: nat)
    requires
        m.wf(),
        simple_delta(body) is Some,
    ensures
        run(lowered(body, simple_delta(body)->0), m, fuel) == Some(
            after_turns(body, m, remaining(m.at(0), simple_delta(body)->0)),
        ),
{
    let d = simple_delta(body)->0;
    let k = remaining(m.at(0), d);
    lemma_lowered_pass(body, 0, Walk { ptr: 0, delta: 0 }, m, d, k, fuel);
    lemma_induction_cell(body, m, k);
    let r = run(lowered(body, d), m, fuel)->0;
    let all = after_turns(body, m, k);
    assert(k * d == if d == 1 { k } else { -k }) by (nonlinear_arith)
        requires
            d == 1 || d == -1,
    ;
    assert(r.tape =~= all.tape);
}

/// A simple loop and its straight-line code do the same: the loop halts
/// within 255 turns, and wherever it halts it leaves what the code leaves.
pub proof fn lemma_simple_loop_is_lowered(n: Node, m: Machine, fuel: nat)
    requires
        m.wf(),
        n matches Node::Loop { body, .. } && simple_delta(body) is Some,
    ensures
        run(lowered(n->body, simple_delta(n->body)->0), m, fuel) is Some,
        step(n, m, fuel) is Some ==> step(n, m, fuel) == run(
            lowered(n->body, simple_delta(n->body)->0),
            m,
            fuel,
        ),
        step(n, m, fuel + slack()) == run(lowered(n->body, simple_delta(n->body)->0), m, fuel),
{
    let body = n->body;
    lemma_lowered_is_all_turns(body, m, fuel);
    lemma_induction_cell(body, m, 0);
    lemma_simple_loop(n, m, 0, fuel);
    lemma_simple_loop(n, m, 0, fuel + slack());
}

/// Where a node halts, what the simple-loop pass makes of it halts with the
/// same fuel and the same result.
pub proof fn lemma_simple_node_forward(n: Node, m: Machine, fuel: nat)
    requires
        m.wf(),
        step(n, m, fuel) is Some,
    ensures
        run(replace_simple_node(n), m, fuel) == step(n, m, fuel),
    decreases fuel, 0nat, 1nat,
{
    let head = replace_simple_node(n);
    match n {
        Node::Loop { id, body, start_count, end_count } => {
            if simple_delta(body) is Some {
                lemma_simple_loop_is_lowered(n, m, fuel);
            } else {
                lemma_simple_loop_forward(n, m, fuel);
                assert(run_from(head, 1, step(n, m, fuel)->0, fuel) == step(n, m, fuel));
                assert(run(head, m, fuel) == step(head[0], m, fuel));
            }
        },
        _ => {
            assert(run_from(head, 1, step(n, m, fuel)->0, fuel) == step(n, m, fuel));
            assert(run(head, m, fuel) == step(n, m, fuel));
        },
    }
}

/// The loop around the lowered body of a loop that is not simple.
pub open spec fn lowered_loop(n: Node) -> Node {
    match n {
        Node::Loop { id, body, start_count, end_count } => Node::Loop {
            id,
            body: replace_simple_from(body, 0),
            start_count,
            end_count,
        },
        other => other,
    }
}

/// A loop that is not simple and the loop around its lowered body: where the
/// first halts, the second halts with the same fuel and result.
pub proof fn lemma_simple_loop_forward(n: Node, m: Machine, fuel: nat)
    requires
        m.wf(),
        n matches Node::Loop { body, .. } && simple_delta(body) is None,
        step(n, m, fuel) is Some,
    ensures
        step(lowered_loop(n), m, fuel) == step(n, m, fuel),
    decreases fuel, 0nat, 0nat,
{
    let body = n->body;
    if m.at(0) != 0 {
        let rest = (fuel - 1) as nat;
        lemma_simple_forward(body, 0, m, rest);
        lemma_run_wf(body, 0, m, rest);
        lemma_simple_loop_forward(n, run_from(body, 0, m, rest)->0, rest);
    }
}

/// Where a program halts, what the simple-loop pass makes of it halts with
/// the same fuel and the same result.
pub proof fn lemma_simple_forward(s: Seq<Node>, i: int, m: Machine, fuel: nat)
    requires
        m.wf(),
        0 <= i <= s.len(),
        run_from(s, i, m, fuel) is Some,
    ensures
        run(replace_simple_from(s, i), m, fuel) == run_from(s, i, m, fuel),
    decreases fuel, 1 + s.len() - i, 0nat,
{
    if i < s.len() {
        lemma_simple_node_forward(s[i], m, fuel);
        lemma_run_concat(replace_simple_node(s[i]), replace_simple_from(s, i + 1), m, fuel);
        lemma_step_wf(s[i], m, fuel);
        lemma_simple_forward(s, i + 1, step(s[i], m, fuel)->0, fuel);
    }
}

/// Where what the simple-loop pass makes of a node halts, the node halts with
/// the same result, given `slack()` more fuel.
pub proof fn lemma_simple_node_backward(n: Node, m: Machine, fuel: nat)
    requires
        m.wf(),
        run(replace_simple_node(n), m, fuel) is Some,
    ensures
        step(n, m, fuel + slack()) == run(replace_simple_node(n), m, fuel),
    decreases fuel, 0nat, 1nat,
{
    let head = replace_simple_node(n);
    match n {
        Node::Loop { id, body, start_count, end_count } => {
            if simple_delta(body) is Some {
                lemma_simple_loop_is_lowered(n, m, fuel);
            } else {
                assert(run(head, m, fuel) == match step(head[0], m, fuel) {
                    Some(after) => run_from(head, 1, after, fuel),
                    None => None,
                });
                assert(run_from(head, 1, step(head[0], m, fuel)->0, fuel) == step(
                    head[0],
                    m,
                    fuel,
                ));
                lemma_simple_loop_backward(n, m, fuel);
            }
        },
        _ => {
            assert(run(head, m, fuel) == match step(n, m, fuel) {
                Some(after) => run_from(head, 1, after, fuel),
                None => None,
            });
            assert(run_from(head, 1, step(n, m, fuel)->0, fuel) == step(n, m, fuel));
            lemma_step_more_fuel(n, m, fuel, fuel + slack());
        },
    }
}

/// A loop that is not simple and the loop around its lowered body: where the
/// second halts, the first halts with the same result, given `slack()` more fuel.
pub proof fn lemma_simple_loop_backward(n: Node, m: Machine, fuel: nat)
    requires
        m.wf(),
        n matches Node::Loop { body, .. } && simple_delta(body) is None,
        step(lowered_loop(n), m, fuel) is Some,
    ensures
        step(n, m, fuel + slack()) == step(lowered_loop(n), m, fuel),
    decreases fuel, 0nat, 0nat,
{
    let body = n->body;
    let made = lowered_loop(n);
    if m.at(0) != 0 {
        let rest = (fuel - 1) as nat;
        let total = fuel + slack();
        assert(step(made, m, fuel) == match run_from(made->body, 0, m, rest) {
            Some(after) => step(made, after, rest),
            None => None,
        });
        lemma_simple_backward(body, 0, m, rest);
        let after = run(made->body, m, rest)->0;
        lemma_run_wf(made->body, 0, m, rest);
        lemma_simple_loop_backward(n, after, rest);
        assert(rest + slack() == (total - 1) as nat);
        assert(step(n, m, total) == match run_from(body, 0, m, (total - 1) as nat) {
            Some(after) => step(n, after, (total - 1) as nat),
            None => None,
        });
    }
}

/// Where what the simple-loop pass makes of a program halts, the program
/// halts with the same result, given `slack()` more fuel.
pub proof fn lemma_simple_backward(s: Seq<Node>, i: int, m: Machine, fuel: nat)
    requires
        m.wf(),
        0 <= i <= s.len(),
        run(replace_simple_from(s, i), m, fuel) is Some,
    ensures
        run_from(s, i, m, fuel + slack()) == run(replace_simple_from(s, i), m, fuel),
    decreases fuel, 1 + s.len() - i, 0nat,
{
    if i < s.len() {
        let head = replace_simple_node(s[i]);
        let rest = replace_simple_from(s, i + 1);
        lemma_run_concat(head, rest, m, fuel);
        lemma_simple_node_backward(s[i], m, fuel);
        let mid = run(head, m, fuel)->0;
        lemma_run_wf(head, 0, m, fuel);
        lemma_simple_backward(s, i + 1, mid, fuel);
    }
}

/// Replacing the simple loops of a program changes nothing that can be
/// observed: started on the same machine, the program halts if and only if
/// what the pass makes of it halts, with the same tape, pointer, input left
/// and output.
pub proof fn lemma_simple_loops_equivalent(s: Seq<Node>)
    ensures
        equivalent(s, replace_simple_nodes(s)),
{
    let made = replace_simple_nodes(s);
    assert forall|m: Machine, r: Machine| m.wf() implies (halts_with(s, m, r) <==> halts_with(
        made,
        m,
        r,
    )) by {
        if halts_with(s, m, r) {
            let fuel = choose|fuel: nat| run(s, m, fuel) == Some(r);
            lemma_simple_forward(s, 0, m, fuel);
            assert(run(made, m, fuel) == Some(r));
        }
        if halts_with(made, m, r) {
            let fuel = choose|fuel: nat| run(made, m, fuel) == Some(r);
            lemma_simple_backward(s, 0, m, fuel);
            assert(run(s, m, fuel + slack()) == Some(r));
        }
    }
}

} // verus!
