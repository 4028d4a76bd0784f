use vstd::prelude::*;
use crate::collapse_laws::in_range;
use crate::ir::Node;
use crate::optimizer::{
    absorb, absorbs, clears_cell, collapse_from, collapse_nodes, collapse_pass, flush,
    fold_zero_nodes,
    lowered_from, optimize_nodes, replace_simple_from, replace_simple_node, replace_simple_nodes,
    scan_nodes, scan_of, simple_delta, walk_from, walk_step, weight, Run, Walk,
};
use crate::parser::{all_canonical, canonical, lemma_parse_canonical, parse_text};

verus! {

/// A node that does something: a pointer move or an addition has an amount
/// of at least 1, an offset addition or subtraction has a destination other
/// than the current cell, and the body of a loop holds such nodes only.
pub open spec fn well_formed_node(n: Node) -> bool
    decreases n, 0nat,
{
    match n {
        Node::IncPointer { amount, .. } => amount >= 1,
        Node::DecPointer { amount, .. } => amount >= 1,
        Node::IncData { amount, .. } => amount >= 1,
        Node::DecData { amount, .. } => amount >= 1,
        Node::AddOffsetData { dest_offset, .. } => dest_offset != 0,
        Node::SubOffsetData { dest_offset, .. } => dest_offset != 0,
        Node::Loop { body, .. } => well_formed(body),
        _ => true,
    }
}

/// A program of nodes that do something.
pub open spec fn well_formed(s: Seq<Node>) -> bool
    decreases s, 1nat,
{
    forall|i: int| 0 <= i < s.len() ==> well_formed_node(#[trigger] s[i])
}

/// Two well-formed programs make a well-formed program.
proof fn lemma_well_formed_concat(a: Seq<Node>, b: Seq<Node>)
    requires
        well_formed(a),
        well_formed(b),
    ensures
        well_formed(a + b),
{
    assert forall|i: int| 0 <= i < (a + b).len() implies well_formed_node(#[trigger] (a + b)[i]) by {
        if i < a.len() {
            assert(well_formed_node(a[i]));
        } else {
            assert(well_formed_node(b[i - a.len()]));
        }
    }
}

/// What the parser writes is well formed.
pub proof fn lemma_canonical_well_formed(s: Seq<Node>)
    requires
        all_canonical(s),
    ensures
        well_formed(s),
    decreases s,
{
    assert forall|i: int| 0 <= i < s.len() implies well_formed_node(#[trigger] s[i]) by {
        assert(canonical(s[i]));
        match s[i] {
            Node::Loop { body, .. } => {
                lemma_canonical_well_formed(body);
            },
            _ => {},
        }
    }
}

/// One pass of the collapse keeps a program well formed.
pub proof fn lemma_collapse_from_well_formed(s: Seq<Node>, i: int, r: Run)
    requires
        well_formed(s),
        in_range(r),
        0 <= i <= s.len(),
    ensures
        well_formed(collapse_from(s, i, r)),
    decreases s, s.len() - i,
{
    assert(well_formed(flush(r)));
    if i < s.len() {
        let n = s[i];
        assert(well_formed_node(n));
        if absorbs(r, n) {
            lemma_collapse_from_well_formed(s, i + 1, absorb(r, n));
        } else if absorbs(Run::Idle, n) {
            lemma_collapse_from_well_formed(s, i + 1, absorb(Run::Idle, n));
            lemma_well_formed_concat(flush(r), collapse_from(s, i + 1, absorb(Run::Idle, n)));
        } else {
            let kept = match n {
                Node::Loop { id, body, start_count, end_count } => Node::Loop {
                    id,
                    body: collapse_from(body, 0, Run::Idle),
                    start_count,
                    end_count,
                },
                other => other,
            };
            match n {
                Node::Loop { body, .. } => {
                    lemma_collapse_from_well_formed(body, 0, Run::Idle);
                },
                _ => {},
            }
            assert(well_formed(seq![kept])) by {
                assert forall|j: int| 0 <= j < 1 implies well_formed_node(#[trigger] seq![kept][j]) by {}
            }
            lemma_collapse_from_well_formed(s, i + 1, Run::Idle);
            lemma_well_formed_concat(flush(r), seq![kept]);
            lemma_well_formed_concat(flush(r) + seq![kept], collapse_from(s, i + 1, Run::Idle));
        }
    }
}

/// The collapse keeps a program well formed.
pub proof fn lemma_collapse_well_formed(s: Seq<Node>)
    requires
        well_formed(s),
    ensures
        well_formed(collapse_nodes(s)),
    decreases weight(s),
{
    let t = collapse_pass(s);
    lemma_collapse_from_well_formed(s, 0, Run::Idle);
    if weight(t) < weight(s) {
        lemma_collapse_well_formed(t);
    }
}

/// The zero-loop fold keeps a program well formed.
pub proof fn lemma_fold_well_formed(s: Seq<Node>)
    requires
        well_formed(s),
    ensures
        well_formed(fold_zero_nodes(s)),
    decreases s,
{
    assert forall|i: int| 0 <= i < s.len() implies well_formed_node(
        #[trigger] fold_zero_nodes(s)[i],
    ) by {
        assert(well_formed_node(s[i]));
        match s[i] {
            Node::Loop { body, .. } => {
                if !clears_cell(body) {
                    lemma_fold_well_formed(body);
                }
            },
            _ => {},
        }
    }
}

/// The straight-line code of a simple loop is well formed: no offset
/// addition or subtraction in it has the induction cell for its destination.
pub proof fn lemma_lowered_well_formed(body: Seq<Node>, i: int, w: Walk, inverted: bool)
    requires
        well_formed(body),
        walk_from(body, i, w) is Some,
        0 <= i <= body.len(),
    ensures
        well_formed(lowered_from(body, i, w.ptr, inverted)),
    decreases body.len() - i,
{
    if i < body.len() {
        let next = walk_step(w, body[i])->0;
        lemma_lowered_well_formed(body, i + 1, next, inverted);
        let rest = lowered_from(body, i + 1, next.ptr, inverted);
        let code = lowered_from(body, i, w.ptr, inverted);
        if code.len() > rest.len() {
            assert(well_formed(seq![code[0]])) by {
                assert forall|j: int| 0 <= j < 1 implies well_formed_node(
                    #[trigger] seq![code[0]][j],
                ) by {}
            }
            assert(code =~= seq![code[0]] + rest);
            lemma_well_formed_concat(seq![code[0]], rest);
        }
    }
}

/// The simple-loop pass keeps a program well formed.
pub proof fn lemma_simple_well_formed(s: Seq<Node>, i: int)
    requires
        well_formed(s),
        0 <= i <= s.len(),
    ensures
        well_formed(replace_simple_from(s, i)),
    decreases s, s.len() - i,
{
    if i < s.len() {
        let n = s[i];
        assert(well_formed_node(n));
        let head = replace_simple_node(n);
        match n {
            Node::Loop { body, .. } => {
                if simple_delta(body) is Some {
                    lemma_lowered_well_formed(
                        body,
                        0,
                        Walk { ptr: 0, delta: 0 },
                        simple_delta(body)->0 == 1,
                    );
                } else {
                    lemma_simple_well_formed(body, 0);
                    assert forall|j: int| 0 <= j < head.len() implies well_formed_node(
                        #[trigger] head[j],
                    ) by {}
                }
            },
            _ => {
                assert forall|j: int| 0 <= j < head.len() implies well_formed_node(
                    #[trigger] head[j],
                ) by {}
            },
        }
        lemma_simple_well_formed(s, i + 1);
        lemma_well_formed_concat(head, replace_simple_from(s, i + 1));
    }
}

/// The scan pass keeps a program well formed.
pub proof fn lemma_scan_well_formed(s: Seq<Node>)
    requires
        well_formed(s),
    ensures
        well_formed(scan_nodes(s)),
    decreases s,
{
    assert forall|i: int| 0 <= i < s.len() implies well_formed_node(#[trigger] scan_nodes(s)[i]) by {
        assert(well_formed_node(s[i]));
        match s[i] {
            Node::Loop { id, body, .. } => {
                if scan_of(id, body) is None {
                    lemma_scan_well_formed(body);
                }
            },
            _ => {},
        }
    }
}

/// At every level the optimizer keeps a program well formed: it writes no
/// pointer move and no addition with an amount of 0, and no offset addition
/// or subtraction to the current cell.
pub proof fn lemma_optimize_well_formed(s: Seq<Node>, level: u8)
    requires
        well_formed(s),
    ensures
        well_formed(optimize_nodes(s, level)),
{
    let a = if level > 0 { collapse_nodes(s) } else { s };
    if level > 0 {
        lemma_collapse_well_formed(s);
    }
    let b = if level > 1 { fold_zero_nodes(a) } else { a };
    if level > 1 {
        lemma_fold_well_formed(a);
    }
    if level > 2 {
        lemma_simple_well_formed(b, 0);
        lemma_scan_well_formed(replace_simple_nodes(b));
    }
}

/// Whatever the parser yields and the optimizer makes of it at any level is
/// well formed.
pub proof fn lemma_parsed_and_optimized_well_formed(text: Seq<char>, level: u8)
    ensures
        parse_text(text) matches Ok(nodes) ==> well_formed(nodes) && well_formed(
            optimize_nodes(nodes, level),
        ),
{
    match parse_text(text) {
        Ok(nodes) => {
            lemma_parse_canonical(text);
            lemma_canonical_well_formed(nodes);
            lemma_optimize_well_formed(nodes, level);
        },
        Err(_) => {},
    }
}

} // verus!
