use vstd::prelude::*;
use crate::collapse_laws::lemma_collapse_equivalent;
use crate::equivalence::{lemma_fold_equivalent, lemma_scans_equivalent};
use crate::interp::{interp_trace, Stop, START};
use crate::ir::Node;
use crate::lowering::lemma_simple_loops_equivalent;
use crate::optimizer::{
    collapse_nodes, fold_zero_nodes, optimize_nodes, replace_simple_nodes, scan_nodes,
};
use crate::refinement::lemma_interp_refines;
use crate::semantics::{
    equivalent, halts_with, lemma_equivalent_chain, lemma_halts_unique, Machine,
};

verus! {

/// At every level, a program and what the optimizer makes of it cannot be
/// told apart: started on the same machine, one halts if and only if the
/// other does, with the same tape, pointer, input left and output.
pub proof fn lemma_optimize_equivalent(s: Seq<Node>, level: u8)
    ensures
        equivalent(s, optimize_nodes(s, level)),
{
    let a = if level > 0 { collapse_nodes(s) } else { s };
    let b = if level > 1 { fold_zero_nodes(a) } else { a };
    if level > 0 {
        lemma_collapse_equivalent(s);
    }
    if level > 1 {
        lemma_fold_equivalent(a);
    }
    lemma_equivalent_chain(s, a, b);
    if level > 2 {
        let c = replace_simple_nodes(b);
        lemma_simple_loops_equivalent(b);
        lemma_scans_equivalent(c);
        lemma_equivalent_chain(b, c, scan_nodes(c));
        lemma_equivalent_chain(s, b, scan_nodes(c));
    }
}

/// The interpreter is an oracle for the optimizer: wherever it runs a
/// program and what the optimizer makes of it to their ends, on the same
/// input, it leaves the same tape, pointer, input and output.
pub proof fn lemma_interp_agrees_after_optimize(
    s: Seq<Node>,
    level: u8,
    input: Seq<u8>,
    fuel: nat,
    other_fuel: nat,
)
    requires
        interp_trace(s, input, fuel).stop == Stop::Done,
        interp_trace(optimize_nodes(s, level), input, other_fuel).stop == Stop::Done,
    ensures
        interp_trace(s, input, fuel).m == interp_trace(
            optimize_nodes(s, level),
            input,
            other_fuel,
        ).m,
{
    let made = optimize_nodes(s, level);
    let m = Machine::start(START as int, input);
    let a = interp_trace(s, input, fuel).m;
    let b = interp_trace(made, input, other_fuel).m;
    lemma_interp_refines(s, input, fuel);
    lemma_interp_refines(made, input, other_fuel);
    lemma_optimize_equivalent(s, level);
    assert(m.wf());
    assert(halts_with(s, m, b) <==> halts_with(made, m, b));
    lemma_halts_unique(s, m, a, b);
}

} // verus!
