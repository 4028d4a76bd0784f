use vstd::prelude::*;
use crate::ir::Node;
use crate::partial::{
    address, cell, eval_from, eval_node, eval_plain, move_to, read_into, scan_target, set_cell,
    widen_from, widen_node, Abs, AbstractCell,
};
use crate::semantics::{apply, run_from, step, stride, Machine};

verus! {

/// What is known of the cell at any position: a position that is no machine
/// integer holds 0.
pub open spec fn known(tape: Map<usize, AbstractCell>, a: int) -> AbstractCell {
    if 0 <= a <= usize::MAX {
        cell(tape, a as usize)
    } else {
        AbstractCell::Value(0)
    }
}

/// What is known of a cell is true of a byte.
pub open spec fn agrees(c: AbstractCell, byte: u8) -> bool {
    match c {
        AbstractCell::Value(v) => byte == v,
        AbstractCell::Top => true,
    }
}

/// What the evaluator knows of the tape is true of the machine.
pub open spec fn describes(tape: Map<usize, AbstractCell>, m: Machine) -> bool {
    forall|a: int| agrees(#[trigger] known(tape, a), m.tape[a])
}

/// The evaluator's state fits the machine: it has the machine's pointer, and
/// what it knows of the tape is true.
pub open spec fn fits(st: Abs, m: Machine) -> bool {
    &&& m.wf()
    &&& m.ptr == st.pointer
    &&& describes(st.tape, m)
}

/// The second tape knows of every cell what the first knows, or nothing.
pub open spec fn weaker(first: Map<usize, AbstractCell>, second: Map<usize, AbstractCell>) -> bool {
    forall|a: usize|
        (#[trigger] cell(second, a)) == cell(first, a) || cell(second, a) is Top
}

/// Two uncertain passes from the same pointer go the same way, and each
/// leaves a cell as it found it or with nothing known: the same cells in both.
pub open spec fn alike(st: Abs, other: Abs, after: Abs, other_after: Abs) -> bool {
    &&& after.pointer == other_after.pointer
    &&& forall|a: usize|
        (cell(after.tape, a) is Top && cell(other_after.tape, a) is Top) || (#[trigger] cell(
            after.tape,
            a,
        ) == cell(st.tape, a) && cell(other_after.tape, a) == cell(other.tape, a))
}

/// An uncertain pass over a node goes the same way from any two states with
/// one pointer.
#[verifier::rlimit(50)]
pub proof fn lemma_widen_node_alike(n: Node, st: Abs, other: Abs)
    requires
        st.pointer == other.pointer,
    ensures
        widen_node(n, st) is Ok <==> widen_node(n, other) is Ok,
        widen_node(n, st) is Ok ==> alike(st, other, widen_node(n, st)->Ok_0, widen_node(
            n,
            other,
        )->Ok_0),
    decreases n, 0nat,
{
    match n {
        Node::Loop { body, .. } => {
            lemma_widen_from_alike(body, 0, st, other);
        },
        _ => {},
    }
}

/// An uncertain pass over a sequence goes the same way from any two states
/// with one pointer.
pub proof fn lemma_widen_from_alike(s: Seq<Node>, i: int, st: Abs, other: Abs)
    requires
        st.pointer == other.pointer,
    ensures
        widen_from(s, i, st) is Ok <==> widen_from(s, i, other) is Ok,
        widen_from(s, i, st) is Ok ==> alike(st, other, widen_from(s, i, st)->Ok_0, widen_from(
            s,
            i,
            other,
        )->Ok_0),
    decreases s, s.len() - i,
{
    if 0 <= i < s.len() {
        lemma_widen_node_alike(s[i], st, other);
        if widen_node(s[i], st) is Ok {
            let mid = widen_node(s[i], st)->Ok_0;
            let other_mid = widen_node(s[i], other)->Ok_0;
            lemma_widen_from_alike(s, i + 1, mid, other_mid);
            if widen_from(s, i + 1, mid) is Ok {
                let end = widen_from(s, i + 1, mid)->Ok_0;
                let other_end = widen_from(s, i + 1, other_mid)->Ok_0;
                assert forall|a: usize|
                    (cell(end.tape, a) is Top && cell(other_end.tape, a) is Top) || (#[trigger] cell(
                        end.tape,
                        a,
                    ) == cell(st.tape, a) && cell(other_end.tape, a) == cell(other.tape, a)) by {
                    assert(cell(mid.tape, a) is Top || cell(mid.tape, a) is Value);
                }
            }
        }
    }
}

/// Knowledge that is true of a machine stays true when some of it is dropped.
pub proof fn lemma_weaker_describes(
    first: Map<usize, AbstractCell>,
    second: Map<usize, AbstractCell>,
    m: Machine,
)
    requires
        describes(first, m),
        weaker(first, second),
    ensures
        describes(second, m),
{
    assert forall|a: int| agrees(#[trigger] known(second, a), m.tape[a]) by {
        if 0 <= a <= usize::MAX {
            assert(cell(second, a as usize) == cell(first, a as usize) || cell(
                second,
                a as usize,
            ) is Top);
            assert(known(first, a) == cell(first, a as usize));
        } else {
            assert(known(first, a) == AbstractCell::Value(0));
        }
    }
}

/// A scan that does not move leaves the machine as it is, if it halts.
proof fn lemma_still_scan(n: Node, m: Machine, fuel: nat)
    requires
        n matches Node::Scan { skip_amount, .. } && skip_amount == 0,
        step(n, m, fuel) is Some,
    ensures
        step(n, m, fuel) == Some(m),
    decreases fuel,
{
    if m.at(0) != 0 {
        match n {
            Node::Scan { direction, skip_amount, .. } => {
                assert(m.shift(stride(direction, skip_amount)) == m);
                lemma_still_scan(n, m, (fuel - 1) as nat);
            },
            _ => {},
        }
    }
}

/// The state after a write knows the written cell as written, and every
/// other cell as before.
proof fn lemma_write_known(st: Abs, a: usize, c: AbstractCell)
    ensures
        set_cell(st, a, c).pointer == st.pointer,
        forall|b: int|
            #[trigger] known(set_cell(st, a, c).tape, b) == if b == a {
                c
            } else {
                known(st.tape, b)
            },
        forall|b: int|
            #[trigger] known(read_into(st, a).tape, b) == if b == a {
                AbstractCell::Top
            } else {
                known(st.tape, b)
            },
{
}

/// An uncertain pass over a node other than a loop is true of what the node does.
proof fn lemma_widen_plain_sound(n: Node, st: Abs, m: Machine, fuel: nat)
    requires
        fits(st, m),
        !(n is Loop),
        widen_node(n, st) is Ok,
        step(n, m, fuel) is Some,
    ensures
        fits(widen_node(n, st)->Ok_0, step(n, m, fuel)->0),
{
    let after = widen_node(n, st)->Ok_0;
    let m2 = step(n, m, fuel)->0;
    match n {
        Node::Scan { .. } => {
            lemma_still_scan(n, m, fuel);
        },
        Node::IncData { offset, .. } => {
            lemma_write_known(st, address(st.pointer, offset)->0, AbstractCell::Top);
        },
        Node::DecData { offset, .. } => {
            lemma_write_known(st, address(st.pointer, offset)->0, AbstractCell::Top);
        },
        Node::SetData { offset, .. } => {
            lemma_write_known(st, address(st.pointer, offset)->0, AbstractCell::Top);
        },
        Node::Input { offset, .. } => {
            lemma_write_known(st, address(st.pointer, offset)->0, AbstractCell::Top);
        },
        Node::AddOffsetData { dest_offset, .. } => {
            lemma_write_known(st, address(st.pointer, dest_offset)->0, AbstractCell::Top);
        },
        Node::SubOffsetData { dest_offset, .. } => {
            lemma_write_known(st, address(st.pointer, dest_offset)->0, AbstractCell::Top);
        },
        _ => {},
    }
    assert forall|a: int| agrees(#[trigger] known(after.tape, a), m2.tape[a]) by {
        assert(known(st.tape, a) is Top || known(st.tape, a) is Value);
    }
}

/// An uncertain pass over a node is true of whatever the node does: where
/// the pass goes through and the node halts, the state after the pass fits
/// the machine after the node.
pub proof fn lemma_widen_node_sound(n: Node, st: Abs, m: Machine, fuel: nat)
    requires
        fits(st, m),
        widen_node(n, st) is Ok,
        step(n, m, fuel) is Some,
    ensures
        fits(widen_node(n, st)->Ok_0, step(n, m, fuel)->0),
    decreases n, fuel, 0nat,
{
    match n {
        Node::Loop { body, .. } => {
            let after = widen_node(n, st)->Ok_0;
            lemma_widen_from_alike(body, 0, st, st);
            assert(weaker(st.tape, after.tape)) by {
                assert forall|a: usize|
                    (#[trigger] cell(after.tape, a)) == cell(st.tape, a) || cell(
                        after.tape,
                        a,
                    ) is Top by {
                    assert(cell(after.tape, a) is Top || cell(after.tape, a) is Value);
                }
            }
            if m.at(0) == 0 {
                lemma_weaker_describes(st.tape, after.tape, m);
            } else {
                let rest = (fuel - 1) as nat;
                let m1 = run_from(body, 0, m, rest)->0;
                lemma_widen_from_sound(body, 0, st, m, rest);
                lemma_widen_from_alike(body, 0, st, after);
                let again = widen_node(n, after)->Ok_0;
                lemma_widen_node_sound(n, after, m1, rest);
                assert(weaker(again.tape, after.tape)) by {
                    assert forall|a: usize|
                        (#[trigger] cell(after.tape, a)) == cell(again.tape, a) || cell(
                            after.tape,
                            a,
                        ) is Top by {
                        assert(cell(after.tape, a) is Top || cell(after.tape, a) is Value);
                    }
                }
                lemma_weaker_describes(again.tape, after.tape, step(n, m, fuel)->0);
            }
        },
        _ => {
            lemma_widen_plain_sound(n, st, m, fuel);
        },
    }
}

/// An uncertain pass over a sequence is true of whatever the sequence does.
pub proof fn lemma_widen_from_sound(s: Seq<Node>, i: int, st: Abs, m: Machine, fuel: nat)
    requires
        fits(st, m),
        widen_from(s, i, st) is Ok,
        run_from(s, i, m, fuel) is Some,
    ensures
        fits(widen_from(s, i, st)->Ok_0, run_from(s, i, m, fuel)->0),
    decreases s, fuel, s.len() - i,
{
    if 0 <= i < s.len() {
        lemma_widen_node_sound(s[i], st, m, fuel);
        lemma_widen_from_sound(
            s,
            i + 1,
            widen_node(s[i], st)->Ok_0,
            step(s[i], m, fuel)->0,
            fuel,
        );
    }
}

/// The evaluation of a node other than a loop or a scan is true of what the
/// node does.
proof fn lemma_eval_plain_sound(n: Node, st: Abs, m: Machine)
    requires
        fits(st, m),
        !(n is Loop),
        !(n is Scan),
        eval_plain(n, st) is Ok,
    ensures
        fits(eval_plain(n, st)->Ok_0, apply(n, m)),
{
    let after = eval_plain(n, st)->Ok_0;
    let m2 = apply(n, m);
    match n {
        Node::IncData { offset, .. } => {
            let a = address(st.pointer, offset)->0;
            assert(agrees(known(st.tape, a as int), m.tape[a as int]));
            lemma_write_known(st, a, cell(after.tape, a));
        },
        Node::DecData { offset, .. } => {
            let a = address(st.pointer, offset)->0;
            assert(agrees(known(st.tape, a as int), m.tape[a as int]));
            lemma_write_known(st, a, cell(after.tape, a));
        },
        Node::SetData { offset, .. } => {
            let a = address(st.pointer, offset)->0;
            lemma_write_known(st, a, cell(after.tape, a));
        },
        Node::Input { offset, .. } => {
            lemma_write_known(st, address(st.pointer, offset)->0, AbstractCell::Top);
        },
        Node::AddOffsetData { dest_offset, src_offset, .. } => {
            let d = address(st.pointer, dest_offset)->0;
            let s = address(st.pointer, src_offset)->0;
            assert(agrees(known(st.tape, d as int), m.tape[d as int]));
            assert(agrees(known(st.tape, s as int), m.tape[s as int]));
            lemma_write_known(st, d, cell(after.tape, d));
        },
        Node::SubOffsetData { dest_offset, src_offset, .. } => {
            let d = address(st.pointer, dest_offset)->0;
            let s = address(st.pointer, src_offset)->0;
            assert(agrees(known(st.tape, d as int), m.tape[d as int]));
            assert(agrees(known(st.tape, s as int), m.tape[s as int]));
            lemma_write_known(st, d, cell(after.tape, d));
        },
        _ => {},
    }
    assert forall|a: int| agrees(#[trigger] known(after.tape, a), m2.tape[a]) by {
        assert(agrees(known(st.tape, a), m.tape[a]));
    }
}

/// The evaluation of a scan is true of what the scan does.
proof fn lemma_eval_scan_sound(n: Node, st: Abs, left: nat, m: Machine, fuel: nat)
    requires
        fits(st, m),
        n is Scan,
        eval_node(n, st, left) is Ok,
        step(n, m, fuel) is Some,
    ensures
        fits(eval_node(n, st, left)->Ok_0, step(n, m, fuel)->0),
    decreases left,
{
    match n {
        Node::Scan { direction, skip_amount, .. } => {
            assert(agrees(known(st.tape, st.pointer as int), m.tape[st.pointer as int]));
            if m.at(0) != 0 {
                let to = scan_target(st.pointer, direction, skip_amount)->0;
                lemma_eval_scan_sound(
                    n,
                    move_to(st, to),
                    (left - 1) as nat,
                    m.shift(stride(direction, skip_amount)),
                    (fuel - 1) as nat,
                );
            }
        },
        _ => {},
    }
}

/// The evaluation of a node is true of whatever the node does: where the
/// evaluation goes through and the node halts, the state after the evaluation
/// fits the machine after the node.
pub proof fn lemma_eval_node_sound(n: Node, st: Abs, left: nat, m: Machine, fuel: nat)
    requires
        fits(st, m),
        eval_node(n, st, left) is Ok,
        step(n, m, fuel) is Some,
    ensures
        fits(eval_node(n, st, left)->Ok_0, step(n, m, fuel)->0),
    decreases left, 0nat,
{
    match n {
        Node::Scan { .. } => {
            lemma_eval_scan_sound(n, st, left, m, fuel);
        },
        Node::Loop { body, .. } => {
            assert(agrees(known(st.tape, st.pointer as int), m.tape[st.pointer as int]));
            match cell(st.tape, st.pointer) {
                AbstractCell::Value(v) => {
                    if v != 0 {
                        let rest = (left - 1) as nat;
                        let less = (fuel - 1) as nat;
                        lemma_eval_from_sound(body, 0, st, rest, m, less);
                        lemma_eval_node_sound(
                            n,
                            eval_from(body, 0, st, rest)->Ok_0,
                            rest,
                            run_from(body, 0, m, less)->0,
                            less,
                        );
                    }
                },
                AbstractCell::Top => {
                    lemma_widen_node_sound(n, st, m, fuel);
                },
            }
        },
        _ => {
            lemma_eval_plain_sound(n, st, m);
        },
    }
}

/// The evaluation of a sequence is true of whatever the sequence does.
pub proof fn lemma_eval_from_sound(s: Seq<Node>, i: int, st: Abs, left: nat, m: Machine, fuel: nat)
    requires
        fits(st, m),
        eval_from(s, i, st, left) is Ok,
        run_from(s, i, m, fuel) is Some,
    ensures
        fits(eval_from(s, i, st, left)->Ok_0, run_from(s, i, m, fuel)->0),
    decreases left, 1 + s.len() - i,
{
    if 0 <= i < s.len() {
        lemma_eval_node_sound(s[i], st, left, m, fuel);
        lemma_eval_from_sound(
            s,
            i + 1,
            eval_node(s[i], st, left)->Ok_0,
            left,
            step(s[i], m, fuel)->0,
            fuel,
        );
    }
}

} // verus!
