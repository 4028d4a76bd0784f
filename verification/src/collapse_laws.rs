use vstd::prelude::*;
use crate::ir::Node;
use crate::optimizer::{
    absorb, absorbs, collapse_from, collapse_nodes, collapse_pass, flush, leaves_node, lonely,
    lonely_from, weight, weight_node, Run,
};
use crate::semantics::{
    apply, equivalent, halts_with, lemma_equivalent_chain, lemma_run_concat,
    lemma_run_single, lemma_run_wf,
    lemma_step_wf, lemma_wrap_sum, run, run_from, step, wrap, Machine,
};

verus! {

/// A pointer move or an addition as a finished run writes it: with a count
/// of 0 and an amount that is not 0. Every other node passes.
pub open spec fn merged(n: Node) -> bool {
    match n {
        Node::IncPointer { amount, count } => amount > 0 && count == 0,
        Node::DecPointer { amount, count } => amount > 0 && count == 0,
        Node::IncData { amount, count, .. } => amount > 0 && count == 0,
        Node::DecData { amount, count, .. } => amount > 0 && count == 0,
        _ => true,
    }
}

/// A program in which the collapse pass finds nothing to do: every pointer
/// move and addition is `merged`, none is followed by a node that its run
/// would absorb, and every loop body is settled too.
pub open spec fn settled(s: Seq<Node>) -> bool
    decreases s,
{
    forall|i: int|
        0 <= i < s.len() ==> {
            &&& merged(#[trigger] s[i])
            &&& (i + 1 < s.len() && absorbs(Run::Idle, s[i]) ==> !absorbs(
                absorb(Run::Idle, s[i]),
                s[i + 1],
            ))
            &&& (s[i] matches Node::Loop { body, .. } ==> settled(body))
        }
}

/// The run that is open before node `i` of a settled program: the one that the
/// node before it began, if that node begins runs.
pub open spec fn open_run(s: Seq<Node>, i: int) -> Run {
    if 0 < i <= s.len() && absorbs(Run::Idle, s[i - 1]) {
        absorb(Run::Idle, s[i - 1])
    } else {
        Run::Idle
    }
}

/// The nodes of a settled program that are still to be written before node
/// `i` is read: node `i - 1` where its run is open, and everything from `i` on.
pub open spec fn pending_tail(s: Seq<Node>, i: int) -> Seq<Node> {
    if 0 < i <= s.len() && absorbs(Run::Idle, s[i - 1]) {
        s.subrange(i - 1, s.len() as int)
    } else {
        s.subrange(i, s.len() as int)
    }
}

/// Collapsing the rest of a settled program writes it out unchanged.
proof fn lemma_settled_from(s: Seq<Node>, i: int)
    requires
        settled(s),
        0 <= i <= s.len(),
    ensures
        collapse_from(s, i, open_run(s, i)) == pending_tail(s, i),
    decreases s, s.len() - i,
{
    let r = open_run(s, i);
    if 0 < i {
        assert(merged(s[i - 1]));
        if absorbs(Run::Idle, s[i - 1]) {
            assert(flush(r) =~= seq![s[i - 1]]);
        }
    }
    assert(flush(Run::Idle) =~= Seq::<Node>::empty());
    if i < s.len() {
        assert(merged(s[i]));
        lemma_settled_from(s, i + 1);
        if absorbs(r, s[i]) {
            assert(r == Run::Idle);
            assert(pending_tail(s, i + 1) =~= pending_tail(s, i));
        } else if absorbs(Run::Idle, s[i]) {
            assert(flush(r) + pending_tail(s, i + 1) =~= pending_tail(s, i));
        } else {
            let kept = match s[i] {
                Node::Loop { id, body, start_count, end_count } => Node::Loop {
                    id,
                    body: collapse_from(body, 0, Run::Idle),
                    start_count,
                    end_count,
                },
                other => other,
            };
            match s[i] {
                Node::Loop { id, body, start_count, end_count } => {
                    lemma_settled_from(body, 0);
                    assert(pending_tail(body, 0) =~= body);
                },
                _ => {},
            }
            assert(kept == s[i]);
            assert(flush(r) + seq![kept] + pending_tail(s, i + 1) =~= pending_tail(s, i));
        }
    } else {
        assert(pending_tail(s, i) =~= flush(r));
    }
}

/// One pass leaves a settled program as it is.
pub proof fn lemma_pass_settled(s: Seq<Node>)
    requires
        settled(s),
    ensures
        collapse_pass(s) == s,
{
    lemma_settled_from(s, 0);
    assert(pending_tail(s, 0) =~= s);
}

/// What a run that is still open has done to the machine that it began on.
pub open spec fn effect(r: Run, m: Machine) -> Machine {
    match r {
        Run::Idle => m,
        Run::Pointer { net } => m.shift(net),
        Run::Data { offset, net } => m.store(offset as int, wrap(m.at(offset as int) + net)),
    }
}

/// A run whose net move fits the amount field of one node.
pub open spec fn in_range(r: Run) -> bool {
    match r {
        Run::Pointer { net } => -(usize::MAX as int) <= net <= usize::MAX,
        _ => true,
    }
}

/// Two settled programs make a settled program, where the run of the last
/// node of the first would not absorb the first node of the second.
proof fn lemma_settled_concat(a: Seq<Node>, b: Seq<Node>)
    requires
        settled(a),
        settled(b),
        a.len() > 0 && b.len() > 0 && absorbs(Run::Idle, a.last()) ==> !absorbs(
            absorb(Run::Idle, a.last()),
            b[0],
        ),
    ensures
        settled(a + b),
{
    let c = a + b;
    assert forall|i: int| 0 <= i < c.len() implies {
        &&& merged(#[trigger] c[i])
        &&& (i + 1 < c.len() && absorbs(Run::Idle, c[i]) ==> !absorbs(
            absorb(Run::Idle, c[i]),
            c[i + 1],
        ))
        &&& (c[i] matches Node::Loop { body, .. } ==> settled(body))
    } by {
        if i < a.len() {
            assert(merged(a[i]));
            if i + 1 < a.len() {
                assert(c[i + 1] == a[i + 1]);
            } else if i + 1 < c.len() {
                assert(c[i + 1] == b[0]);
            }
        } else {
            assert(merged(b[i - a.len()]));
            if i + 1 < c.len() {
                assert(c[i + 1] == b[i + 1 - a.len()]);
            }
        }
    }
}

/// A node that is merged, with a settled body where it is a loop, is a settled program.
proof fn lemma_settled_single(n: Node)
    requires
        merged(n),
        n matches Node::Loop { body, .. } ==> settled(body),
    ensures
        settled(seq![n]),
{
    let c = seq![n];
    assert forall|i: int| 0 <= i < c.len() implies {
        &&& merged(#[trigger] c[i])
        &&& (i + 1 < c.len() && absorbs(Run::Idle, c[i]) ==> !absorbs(
            absorb(Run::Idle, c[i]),
            c[i + 1],
        ))
        &&& (c[i] matches Node::Loop { body, .. } ==> settled(body))
    } by {}
}

/// The node that a finished run leaves acts on a node that begins a run as
/// the run itself does on the node that began it: it absorbs the one where
/// the run absorbs the other.
proof fn lemma_flushed_acts_alike(r: Run, n: Node)
    requires
        in_range(r),
        flush(r).len() == 1,
        absorbs(Run::Idle, n),
        flush(absorb(Run::Idle, n)).len() == 1,
    ensures
        absorbs(absorb(Run::Idle, flush(r)[0]), flush(absorb(Run::Idle, n))[0]) == absorbs(r, n),
        merged(flush(r)[0]),
        absorbs(Run::Idle, flush(r)[0]),
{
}

/// Where a pass finds nothing to merge, it leaves a settled program, which
/// begins with the node of the run that was open.
proof fn lemma_lonely_settled(s: Seq<Node>, i: int, r: Run)
    requires
        lonely_from(s, i, r),
        in_range(r),
        0 <= i <= s.len(),
    ensures
        settled(collapse_from(s, i, r)),
        !(r is Idle) ==> collapse_from(s, i, r).len() > 0 && collapse_from(s, i, r)[0] == flush(
            r,
        )[0],
    decreases s, s.len() - i,
{
    if !(r is Idle) && leaves_node(r) {
        lemma_settled_single(flush(r)[0]);
        assert(flush(r) =~= seq![flush(r)[0]]);
    }
    if r is Idle {
        assert(settled(flush(r)));
    }
    if i < s.len() {
        let n = s[i];
        if absorbs(r, n) {
            lemma_lonely_settled(s, i + 1, absorb(r, n));
        } else if absorbs(Run::Idle, n) {
            let next = absorb(Run::Idle, n);
            let rest = collapse_from(s, i + 1, next);
            lemma_lonely_settled(s, i + 1, next);
            if !(r is Idle) {
                lemma_lonely_leaves(s, i + 1, next);
                lemma_flushed_acts_alike(r, n);
            }
            lemma_settled_concat(flush(r), rest);
        } else {
            let kept = match n {
                Node::Loop { id, body, start_count, end_count } => Node::Loop {
                    id,
                    body: collapse_from(body, 0, Run::Idle),
                    start_count,
                    end_count,
                },
                other => other,
            };
            match n {
                Node::Loop { body, .. } => {
                    lemma_lonely_settled(body, 0, Run::Idle);
                },
                _ => {},
            }
            let rest = collapse_from(s, i + 1, Run::Idle);
            lemma_lonely_settled(s, i + 1, Run::Idle);
            lemma_settled_single(kept);
            lemma_settled_concat(flush(r), seq![kept]);
            lemma_settled_concat(flush(r) + seq![kept], rest);
        }
    }
}

/// Where a pass finds nothing to merge with a run open, the run leaves a node.
proof fn lemma_lonely_leaves(s: Seq<Node>, i: int, r: Run)
    requires
        lonely_from(s, i, r),
        !(r is Idle),
    ensures
        flush(r).len() == 1,
{
}

/// A program of one node has the weight of the node.
proof fn lemma_weight_single(n: Node)
    ensures
        weight(seq![n]) == weight_node(n),
        weight(Seq::<Node>::empty()) == 0,
        weight_node(n) >= 1,
{
    let s = seq![n];
    let none = Seq::<Node>::empty();
    assert(s.subrange(1, s.len() as int) =~= none);
    assert(weight(none) == 0);
    assert(s[0] == n);
    assert(weight(s) == weight_node(s[0]) + weight(s.subrange(1, s.len() as int)));
    match n {
        Node::Loop { body, .. } => {
            assert(weight_node(n) == 1 + weight(body));
        },
        _ => {},
    }
}

/// The weight of two programs, one after the other, is the sum of their weights.
proof fn lemma_weight_concat(a: Seq<Node>, b: Seq<Node>)
    ensures
        weight(a + b) == weight(a) + weight(b),
    decreases a.len(),
{
    if a.len() == 0 {
        assert(a + b =~= b);
    } else {
        let rest = a.subrange(1, a.len() as int);
        assert((a + b).subrange(1, (a + b).len() as int) =~= rest + b);
        lemma_weight_concat(rest, b);
    }
}

/// The weight of the rest of a program is that of its first node and of what
/// follows it.
proof fn lemma_weight_rest(s: Seq<Node>, i: int)
    requires
        0 <= i <= s.len(),
    ensures
        i < s.len() ==> weight(s.subrange(i, s.len() as int)) == weight_node(s[i]) + weight(
            s.subrange(i + 1, s.len() as int),
        ),
        i == s.len() ==> weight(s.subrange(i, s.len() as int)) == 0,
{
    let rest = s.subrange(i, s.len() as int);
    if i < s.len() {
        assert(rest.subrange(1, rest.len() as int) =~= s.subrange(i + 1, s.len() as int));
    }
}

/// What a finished run leaves weighs as much as it has nodes: one at most.
proof fn lemma_weight_flush(r: Run)
    ensures
        weight(flush(r)) == flush(r).len(),
        flush(r).len() <= 1,
        r is Idle ==> flush(r).len() == 0,
{
    if flush(r).len() == 1 {
        assert(flush(r) =~= seq![flush(r)[0]]);
        lemma_weight_single(flush(r)[0]);
    }
}

/// The bound on the weight of what a pass makes of `s[i..]`, read with the
/// run `r` open: the weight of those nodes, and one for the run.
pub open spec fn weight_bound(s: Seq<Node>, i: int, r: Run) -> int {
    weight(s.subrange(i, s.len() as int)) + if r is Idle {
        0int
    } else {
        1int
    }
}

/// A pass never makes a program larger, and it leaves it as large as it was
/// exactly where it finds nothing to merge.
pub proof fn lemma_pass_weight(s: Seq<Node>, i: int, r: Run)
    requires
        0 <= i <= s.len(),
    ensures
        weight(collapse_from(s, i, r)) <= weight_bound(s, i, r),
        weight(collapse_from(s, i, r)) == weight_bound(s, i, r) <==> lonely_from(s, i, r),
    decreases s, s.len() - i,
{
    lemma_weight_rest(s, i);
    lemma_weight_flush(r);
    if i < s.len() {
        let n = s[i];
        lemma_weight_single(n);
        if absorbs(r, n) {
            lemma_pass_weight(s, i + 1, absorb(r, n));
        } else if absorbs(Run::Idle, n) {
            let rest = collapse_from(s, i + 1, absorb(Run::Idle, n));
            lemma_pass_weight(s, i + 1, absorb(Run::Idle, n));
            lemma_weight_concat(flush(r), rest);
        } else {
            let kept = match n {
                Node::Loop { id, body, start_count, end_count } => Node::Loop {
                    id,
                    body: collapse_from(body, 0, Run::Idle),
                    start_count,
                    end_count,
                },
                other => other,
            };
            match n {
                Node::Loop { body, .. } => {
                    lemma_pass_weight(body, 0, Run::Idle);
                    assert(body.subrange(0, body.len() as int) =~= body);
                },
                _ => {},
            }
            let rest = collapse_from(s, i + 1, Run::Idle);
            lemma_pass_weight(s, i + 1, Run::Idle);
            lemma_weight_single(kept);
            lemma_weight_concat(flush(r), seq![kept]);
            lemma_weight_concat(flush(r) + seq![kept], rest);
        }
    }
}

/// What the collapse leaves is settled: a pass finds nothing to do in it.
pub proof fn lemma_collapse_is_settled(s: Seq<Node>)
    ensures
        settled(collapse_nodes(s)),
        collapse_pass(collapse_nodes(s)) == collapse_nodes(s),
    decreases weight(s),
{
    let t = collapse_pass(s);
    lemma_pass_weight(s, 0, Run::Idle);
    assert(s.subrange(0, s.len() as int) =~= s);
    if weight(t) < weight(s) {
        lemma_collapse_is_settled(t);
    } else {
        lemma_lonely_settled(s, 0, Run::Idle);
        lemma_pass_settled(t);
    }
}

/// The collapse leaves a settled program as it is.
pub proof fn lemma_collapse_settled(s: Seq<Node>)
    requires
        settled(s),
    ensures
        collapse_nodes(s) == s,
{
    lemma_pass_settled(s);
}

/// Collapsing twice is collapsing once.
pub proof fn lemma_collapse_idempotent(s: Seq<Node>)
    ensures
        collapse_nodes(collapse_nodes(s)) == collapse_nodes(s),
{
    lemma_collapse_is_settled(s);
    lemma_collapse_settled(collapse_nodes(s));
}

/// A net sum is added as its remainder modulo 256, and a multiple of 256
/// adds nothing.
proof fn lemma_wrap_reduced(x: u8, net: int)
    ensures
        wrap(x + net % 256) == wrap(x + net),
        wrap(x - (-net) % 256) == wrap(x + net),
        net % 256 == 0 ==> wrap(x + net) == x,
        (-net) % 256 == 0 ==> wrap(x + net) == x,
{
    lemma_wrap_sum(x as int, net, 0);
    lemma_wrap_sum(x as int, -net, 0);
}

/// The node of a finished run does what the run has done.
proof fn lemma_flush_runs(r: Run, m: Machine, fuel: nat)
    requires
        m.wf(),
        in_range(r),
    ensures
        run(flush(r), m, fuel) == Some(effect(r, m)),
{
    let code = flush(r);
    match r {
        Run::Idle => {},
        Run::Pointer { net } => {
            if net != 0 {
                assert(code =~= seq![code[0]]);
                lemma_run_single(code[0], m, fuel);
            } else {
                assert(m.shift(0) == m);
            }
        },
        Run::Data { offset, net } => {
            let x = m.at(offset as int);
            lemma_wrap_reduced(x, net);
            if code.len() == 0 {
                assert(wrap(x + net) == x);
                assert(m.store(offset as int, x).tape =~= m.tape);
            } else {
                assert(code =~= seq![code[0]]);
                lemma_run_single(code[0], m, fuel);
            }
        },
    }
}

/// A run that absorbs a node has then done what the node does after it.
proof fn lemma_absorb_effect(r: Run, n: Node, m: Machine)
    requires
        m.wf(),
        absorbs(r, n),
    ensures
        effect(absorb(r, n), m) == apply(n, effect(r, m)),
        in_range(r) ==> in_range(absorb(r, n)),
{
    match r {
        Run::Data { offset, net } => {
            let x = m.at(offset as int);
            match n {
                Node::IncData { amount, .. } => {
                    lemma_wrap_sum(x as int, net, amount as int);
                },
                Node::DecData { amount, .. } => {
                    lemma_wrap_sum(x as int, net, -(amount as int));
                },
                _ => {},
            }
            assert(effect(absorb(r, n), m).tape =~= apply(n, effect(r, m)).tape);
        },
        _ => {},
    }
}

/// The loop around a collapsed body does what the loop does.
proof fn lemma_collapsed_loop_same(n: Node, m: Machine, fuel: nat)
    requires
        m.wf(),
        n is Loop,
    ensures
        step(
            match n {
                Node::Loop { id, body, start_count, end_count } => Node::Loop {
                    id,
                    body: collapse_pass(body),
                    start_count,
                    end_count,
                },
                other => other,
            },
            m,
            fuel,
        ) == step(n, m, fuel),
    decreases fuel, 0nat,
{
    match n {
        Node::Loop { id, body, start_count, end_count } => {
            if m.at(0) != 0 && fuel > 0 {
                let rest = (fuel - 1) as nat;
                lemma_collapse_from_same(body, 0, Run::Idle, m, rest);
                lemma_run_wf(body, 0, m, rest);
                match run_from(body, 0, m, rest) {
                    Some(after) => lemma_collapsed_loop_same(n, after, rest),
                    None => {},
                }
            }
        },
        _ => {},
    }
}

/// What the collapse pass makes of the rest of a program, read with a run
/// open, does on the machine on which the run began what the rest of the
/// program does after the run: with every fuel both leave the same machine, or
/// both run out of fuel.
pub proof fn lemma_collapse_from_same(s: Seq<Node>, i: int, r: Run, m: Machine, fuel: nat)
    requires
        m.wf(),
        in_range(r),
        0 <= i <= s.len(),
    ensures
        run(collapse_from(s, i, r), m, fuel) == run_from(s, i, effect(r, m), fuel),
    decreases fuel, 1 + s.len() - i,
{
    let now = effect(r, m);
    lemma_flush_runs(r, m, fuel);
    if i < s.len() {
        let n = s[i];
        if absorbs(r, n) {
            lemma_absorb_effect(r, n, m);
            lemma_collapse_from_same(s, i + 1, absorb(r, n), m, fuel);
        } else if absorbs(Run::Idle, n) {
            let rest = collapse_from(s, i + 1, absorb(Run::Idle, n));
            lemma_run_concat(flush(r), rest, m, fuel);
            lemma_absorb_effect(Run::Idle, n, now);
            lemma_collapse_from_same(s, i + 1, absorb(Run::Idle, n), now, fuel);
        } else {
            let kept = match n {
                Node::Loop { id, body, start_count, end_count } => Node::Loop {
                    id,
                    body: collapse_from(body, 0, Run::Idle),
                    start_count,
                    end_count,
                },
                other => other,
            };
            let rest = collapse_from(s, i + 1, Run::Idle);
            lemma_run_concat(flush(r), seq![kept], m, fuel);
            lemma_run_concat(flush(r) + seq![kept], rest, m, fuel);
            lemma_run_single(kept, now, fuel);
            if n is Loop {
                lemma_collapsed_loop_same(n, now, fuel);
            }
            lemma_step_wf(n, now, fuel);
            match step(n, now, fuel) {
                Some(after) => lemma_collapse_from_same(s, i + 1, Run::Idle, after, fuel),
                None => {},
            }
        }
    }
}

/// A program and what one pass makes of it cannot be told apart.
pub proof fn lemma_collapse_pass_equivalent(s: Seq<Node>)
    ensures
        equivalent(s, collapse_pass(s)),
{
    assert forall|m: Machine, r: Machine| m.wf() implies (halts_with(s, m, r) <==> halts_with(
        collapse_pass(s),
        m,
        r,
    )) by {
        if halts_with(s, m, r) {
            let fuel = choose|fuel: nat| run(s, m, fuel) == Some(r);
            lemma_collapse_from_same(s, 0, Run::Idle, m, fuel);
            assert(run(collapse_pass(s), m, fuel) == Some(r));
        }
        if halts_with(collapse_pass(s), m, r) {
            let fuel = choose|fuel: nat| run(collapse_pass(s), m, fuel) == Some(r);
            lemma_collapse_from_same(s, 0, Run::Idle, m, fuel);
            assert(run(s, m, fuel) == Some(r));
        }
    }
}

/// A program and what the collapse makes of it cannot be told apart.
pub proof fn lemma_collapse_equivalent(s: Seq<Node>)
    ensures
        equivalent(s, collapse_nodes(s)),
    decreases weight(s),
{
    let t = collapse_pass(s);
    lemma_collapse_pass_equivalent(s);
    if weight(t) < weight(s) {
        lemma_collapse_equivalent(t);
        lemma_equivalent_chain(s, t, collapse_nodes(t));
    }
}

} // verus!
