use vstd::prelude::*;
use crate::ir::{Direction, Node, OutputType};

verus! {

/// The abstract machine that programs run on: a tape of bytes without ends, a
/// pointer into it, the input not yet read and the output written so far.
pub struct Machine {
    pub tape: Map<int, u8>,
    pub ptr: int,
    pub input: Seq<u8>,
    pub output: Seq<u8>,
}

impl Machine {
    /// Every position of the tape holds a byte.
    pub open spec fn wf(self) -> bool {
        forall|i: int| self.tape.dom().contains(i)
    }

    /// The machine before a program starts: a tape of zeros, the pointer at
    /// `ptr`, nothing written.
    pub open spec fn start(ptr: int, input: Seq<u8>) -> Machine {
        Machine { tape: Map::new(|i: int| true, |i: int| 0u8), ptr, input, output: Seq::empty() }
    }

    /// The byte at an offset from the pointer.
    pub open spec fn at(self, offset: int) -> u8 {
        self.tape[self.ptr + offset]
    }

    /// The machine with a byte stored at an offset from the pointer.
    pub open spec fn store(self, offset: int, value: u8) -> Machine {
        Machine { tape: self.tape.insert(self.ptr + offset, value), ..self }
    }

    /// The machine with the pointer moved.
    pub open spec fn shift(self, by: int) -> Machine {
        Machine { ptr: self.ptr + by, ..self }
    }

    /// The machine after writing a byte.
    pub open spec fn emit(self, value: u8) -> Machine {
        Machine { output: self.output.push(value), ..self }
    }

    /// The machine after reading a byte into the cell at an offset. At the end
    /// of the input the cell gets 255.
    pub open spec fn read(self, offset: int) -> Machine {
        if self.input.len() > 0 {
            Machine { input: self.input.drop_first(), ..self.store(offset, self.input[0]) }
        } else {
            self.store(offset, 255)
        }
    }
}

/// The byte that an integer is, modulo 256.
pub open spec fn wrap(v: int) -> u8 {
    (v % 256) as u8
}

/// What an offset addition or subtraction adds or takes away: the source
/// byte, negated modulo 256 where `inverted`, times the multiplier, modulo 256.
pub open spec fn scaled(source: u8, multiplier: usize, inverted: bool) -> int {
    let factor: int = if inverted { (256 - source) % 256 } else { source as int };
    (factor * multiplier) % 256
}

/// The machine after a node that is neither a loop nor a scan.
pub open spec fn apply(n: Node, m: Machine) -> Machine {
    match n {
        Node::IncPointer { amount, .. } => m.shift(amount as int),
        Node::DecPointer { amount, .. } => m.shift(-(amount as int)),
        Node::IncData { offset, amount, .. } => m.store(
            offset as int,
            wrap(m.at(offset as int) + amount),
        ),
        Node::DecData { offset, amount, .. } => m.store(
            offset as int,
            wrap(m.at(offset as int) - amount),
        ),
        Node::SetData { offset, value, .. } => m.store(offset as int, value),
        Node::AddOffsetData { dest_offset, src_offset, multiplier, inverted, .. } => m.store(
            dest_offset as int,
            wrap(m.at(dest_offset as int) + scaled(m.at(src_offset as int), multiplier, inverted)),
        ),
        Node::SubOffsetData { dest_offset, src_offset, multiplier, inverted, .. } => m.store(
            dest_offset as int,
            wrap(m.at(dest_offset as int) - scaled(m.at(src_offset as int), multiplier, inverted)),
        ),
        Node::Output { out_type, .. } => match out_type {
            OutputType::Const(value) => m.emit(value),
            OutputType::Cell { offset } => m.emit(m.at(offset as int)),
        },
        Node::Input { offset, .. } => m.read(offset as int),
        Node::Scan { .. } => m,
        Node::Loop { .. } => m,
    }
}

/// The pointer move of one step of a scan.
pub open spec fn stride(direction: Direction, skip_amount: usize) -> int {
    match direction {
        Direction::Right => skip_amount as int,
        Direction::Left => -(skip_amount as int),
    }
}

/// The machine after one node, or `None` where `fuel` does not suffice.
///
/// Fuel bounds how often loops repeat: each turn of a loop or a scan leaves
/// one unit less for the turn's body and for the turns after it.
pub open spec fn step(n: Node, m: Machine, fuel: nat) -> Option<Machine>
    decreases fuel, 0nat,
{
    match n {
        Node::Scan { direction, skip_amount, .. } => if m.at(0) == 0 {
            Some(m)
        } else if fuel == 0 {
            None
        } else {
            step(n, m.shift(stride(direction, skip_amount)), (fuel - 1) as nat)
        },
        Node::Loop { body, .. } => if m.at(0) == 0 {
            Some(m)
        } else if fuel == 0 {
            None
        } else {
            match run_from(body, 0, m, (fuel - 1) as nat) {
                Some(after) => step(n, after, (fuel - 1) as nat),
                None => None,
            }
        },
        _ => Some(apply(n, m)),
    }
}

/// The machine after the nodes `s[i..]`, or `None` where `fuel` does not suffice.
pub open spec fn run_from(s: Seq<Node>, i: int, m: Machine, fuel: nat) -> Option<Machine>
    decreases fuel, 1 + s.len() - i,
{
    if i < 0 || i >= s.len() {
        Some(m)
    } else {
        match step(s[i], m, fuel) {
            Some(after) => run_from(s, i + 1, after, fuel),
            None => None,
        }
    }
}

/// The machine after a whole program, or `None` where `fuel` does not suffice.
pub open spec fn run(s: Seq<Node>, m: Machine, fuel: nat) -> Option<Machine> {
    run_from(s, 0, m, fuel)
}

/// The program, started on `m`, halts and leaves `r`.
pub open spec fn halts_with(s: Seq<Node>, m: Machine, r: Machine) -> bool {
    exists|fuel: nat| run(s, m, fuel) == Some(r)
}

/// Two programs that cannot be told apart: started on the same machine, one
/// halts if and only if the other does, with the same tape, pointer, input
/// left and output.
pub open spec fn equivalent(a: Seq<Node>, b: Seq<Node>) -> bool {
    forall|m: Machine, r: Machine| m.wf() ==> (halts_with(a, m, r) <==> halts_with(b, m, r))
}

/// Programs that cannot be told apart from the same program cannot be told
/// apart from each other.
pub proof fn lemma_equivalent_chain(a: Seq<Node>, b: Seq<Node>, c: Seq<Node>)
    requires
        equivalent(a, b),
        equivalent(b, c),
    ensures
        equivalent(a, c),
{
    assert forall|m: Machine, r: Machine| m.wf() implies (halts_with(a, m, r) <==> halts_with(
        c,
        m,
        r,
    )) by {
        assert(halts_with(a, m, r) <==> halts_with(b, m, r));
        assert(halts_with(b, m, r) <==> halts_with(c, m, r));
    }
}

/// Sums are reduced modulo 256 once, at the end.
pub proof fn lemma_wrap_sum(x: int, a: int, b: int)
    ensures
        wrap(wrap(x + a) + b) == wrap(x + a + b),
        wrap(x + a % 256) == wrap(x + a),
        wrap(x - a % 256) == wrap(x - a),
{
    vstd::arithmetic::div_mod::lemma_add_mod_noop_right(b, x + a, 256);
    vstd::arithmetic::div_mod::lemma_add_mod_noop_right(x, a, 256);
    vstd::arithmetic::div_mod::lemma_sub_mod_noop_right(x, a, 256);
}

/// A node other than a loop or a scan keeps the tape total.
pub proof fn lemma_apply_wf(n: Node, m: Machine)
    requires
        m.wf(),
    ensures
        apply(n, m).wf(),
{
}

/// Running keeps the tape total.
pub proof fn lemma_step_wf(n: Node, m: Machine, fuel: nat)
    requires
        m.wf(),
    ensures
        step(n, m, fuel) matches Some(r) ==> r.wf(),
    decreases fuel, 0nat,
{
    match n {
        Node::Scan { direction, skip_amount, .. } => {
            if m.at(0) != 0 && fuel > 0 {
                lemma_step_wf(n, m.shift(stride(direction, skip_amount)), (fuel - 1) as nat);
            }
        },
        Node::Loop { body, .. } => {
            if m.at(0) != 0 && fuel > 0 {
                lemma_run_wf(body, 0, m, (fuel - 1) as nat);
                match run_from(body, 0, m, (fuel - 1) as nat) {
                    Some(after) => lemma_step_wf(n, after, (fuel - 1) as nat),
                    None => {},
                }
            }
        },
        _ => {
            lemma_apply_wf(n, m);
        },
    }
}

/// Running keeps the tape total.
pub proof fn lemma_run_wf(s: Seq<Node>, i: int, m: Machine, fuel: nat)
    requires
        m.wf(),
    ensures
        run_from(s, i, m, fuel) matches Some(r) ==> r.wf(),
    decreases fuel, 1 + s.len() - i,
{
    if 0 <= i < s.len() {
        lemma_step_wf(s[i], m, fuel);
        match step(s[i], m, fuel) {
            Some(after) => lemma_run_wf(s, i + 1, after, fuel),
            None => {},
        }
    }
}

/// More fuel changes no result.
pub proof fn lemma_step_more_fuel(n: Node, m: Machine, fuel: nat, more: nat)
    requires
        step(n, m, fuel) is Some,
        fuel <= more,
    ensures
        step(n, m, more) == step(n, m, fuel),
    decreases fuel, 0nat,
{
    match n {
        Node::Scan { direction, skip_amount, .. } => {
            if m.at(0) != 0 {
                lemma_step_more_fuel(
                    n,
                    m.shift(stride(direction, skip_amount)),
                    (fuel - 1) as nat,
                    (more - 1) as nat,
                );
            }
        },
        Node::Loop { body, .. } => {
            if m.at(0) != 0 {
                lemma_run_more_fuel(body, 0, m, (fuel - 1) as nat, (more - 1) as nat);
                let after = run_from(body, 0, m, (fuel - 1) as nat)->0;
                lemma_step_more_fuel(n, after, (fuel - 1) as nat, (more - 1) as nat);
            }
        },
        _ => {},
    }
}

/// More fuel changes no result.
pub proof fn lemma_run_more_fuel(s: Seq<Node>, i: int, m: Machine, fuel: nat, more: nat)
    requires
        run_from(s, i, m, fuel) is Some,
        fuel <= more,
    ensures
        run_from(s, i, m, more) == run_from(s, i, m, fuel),
    decreases fuel, 1 + s.len() - i,
{
    if 0 <= i < s.len() {
        lemma_step_more_fuel(s[i], m, fuel, more);
        lemma_run_more_fuel(s, i + 1, step(s[i], m, fuel)->0, fuel, more);
    }
}

/// A program halts with at most one result.
pub proof fn lemma_halts_unique(s: Seq<Node>, m: Machine, a: Machine, b: Machine)
    requires
        halts_with(s, m, a),
        halts_with(s, m, b),
    ensures
        a == b,
{
    let fa = choose|fuel: nat| run(s, m, fuel) == Some(a);
    let fb = choose|fuel: nat| run(s, m, fuel) == Some(b);
    if fa <= fb {
        lemma_run_more_fuel(s, 0, m, fa, fb);
    } else {
        lemma_run_more_fuel(s, 0, m, fb, fa);
    }
}

/// A single node runs as it steps.
pub proof fn lemma_run_single(n: Node, m: Machine, fuel: nat)
    ensures
        run(seq![n], m, fuel) == step(n, m, fuel),
{
    let code = seq![n];
    assert(code[0] == n);
    match step(n, m, fuel) {
        Some(after) => {
            assert(run_from(code, 1, after, fuel) == Some(after));
        },
        None => {},
    }
}

/// Running `b[j..]` inside `a + b` is running it alone.
pub proof fn lemma_run_suffix(a: Seq<Node>, b: Seq<Node>, j: int, m: Machine, fuel: nat)
    requires
        0 <= j <= b.len(),
    ensures
        run_from(a + b, a.len() + j, m, fuel) == run_from(b, j, m, fuel),
    decreases b.len() - j,
{
    if j < b.len() {
        assert((a + b)[a.len() + j] == b[j]);
        match step(b[j], m, fuel) {
            Some(after) => lemma_run_suffix(a, b, j + 1, after, fuel),
            None => {},
        }
    }
}

/// Running `a + b` from inside `a` is running the rest of `a`, then `b`.
pub proof fn lemma_run_prefix(a: Seq<Node>, b: Seq<Node>, i: int, m: Machine, fuel: nat)
    requires
        0 <= i <= a.len(),
    ensures
        run_from(a + b, i, m, fuel) == match run_from(a, i, m, fuel) {
            Some(mid) => run(b, mid, fuel),
            None => None,
        },
    decreases a.len() - i,
{
    if i < a.len() {
        assert((a + b)[i] == a[i]);
        match step(a[i], m, fuel) {
            Some(after) => lemma_run_prefix(a, b, i + 1, after, fuel),
            None => {},
        }
    } else {
        lemma_run_suffix(a, b, 0, m, fuel);
    }
}

/// Running a concatenation is running its parts one after the other.
pub proof fn lemma_run_concat(a: Seq<Node>, b: Seq<Node>, m: Machine, fuel: nat)
    ensures
        run(a + b, m, fuel) == match run(a, m, fuel) {
            Some(mid) => run(b, mid, fuel),
            None => None,
        },
{
    lemma_run_prefix(a, b, 0, m, fuel);
}

/// Running `s[i..]` is running the sequence of those nodes.
pub proof fn lemma_run_from_is_run_of_suffix(s: Seq<Node>, i: int, m: Machine, fuel: nat)
    requires
        0 <= i <= s.len(),
    ensures
        run_from(s, i, m, fuel) == run(s.subrange(i, s.len() as int), m, fuel),
{
    let a = s.subrange(0, i);
    let b = s.subrange(i, s.len() as int);
    assert(a + b =~= s);
    lemma_run_suffix(a, b, 0, m, fuel);
}

} // verus!
