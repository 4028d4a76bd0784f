use vstd::prelude::*;
use crate::collapse_laws::{lemma_collapse_pass_equivalent, lemma_pass_weight};
use crate::equivalence::{lemma_fold_equivalent, lemma_scans_equivalent};
use crate::ir::{Command, Direction, Node, nodes_of, lemma_nodes_push};
use crate::lowering::lemma_simple_loops_equivalent;
use crate::optimizer_laws::lemma_optimize_equivalent;
use crate::semantics::{equivalent, lemma_equivalent_chain};

verus! {

/// A run of mergeable nodes that the collapse pass is still reading.
pub enum Run {
    /// No run is open.
    Idle,
    /// A run of pointer moves with the given net move to the right.
    Pointer { net: int },
    /// A run of additions to the cell at `offset` with the given net sum.
    Data { offset: isize, net: int },
}

/// Whether the node continues the run, or begins one where none is open.
///
/// A pointer run continues only while its net move fits the amount field of a
/// single node; a data run only over nodes with the same offset.
pub open spec fn absorbs(r: Run, n: Node) -> bool {
    match (r, n) {
        (Run::Idle, Node::IncPointer { .. }) => true,
        (Run::Idle, Node::DecPointer { .. }) => true,
        (Run::Idle, Node::IncData { .. }) => true,
        (Run::Idle, Node::DecData { .. }) => true,
        (Run::Pointer { net }, Node::IncPointer { amount, .. }) => net + amount <= usize::MAX,
        (Run::Pointer { net }, Node::DecPointer { amount, .. }) => net - amount >= -(usize::MAX as int),
        (Run::Data { offset, .. }, Node::IncData { offset: o, .. }) => o == offset,
        (Run::Data { offset, .. }, Node::DecData { offset: o, .. }) => o == offset,
        _ => false,
    }
}

/// The net sum of a run so far; 0 where none is open.
pub open spec fn net_of(r: Run) -> int {
    match r {
        Run::Idle => 0,
        Run::Pointer { net } => net,
        Run::Data { net, .. } => net,
    }
}

/// The run after a node that it absorbs.
pub open spec fn absorb(r: Run, n: Node) -> Run {
    match n {
        Node::IncPointer { amount, .. } => Run::Pointer { net: net_of(r) + amount },
        Node::DecPointer { amount, .. } => Run::Pointer { net: net_of(r) - amount },
        Node::IncData { offset, amount, .. } => Run::Data { offset, net: net_of(r) + amount },
        Node::DecData { offset, amount, .. } => Run::Data { offset, net: net_of(r) - amount },
        _ => r,
    }
}

/// The node that stands for a finished run: none where the run cancels.
///
/// A data run is reduced modulo 256, and leaves no node where that gives 0.
pub open spec fn flush(r: Run) -> Seq<Node> {
    match r {
        Run::Idle => Seq::empty(),
        Run::Pointer { net } => if net > 0 {
            seq![Node::IncPointer { amount: net as usize, count: 0 }]
        } else if net < 0 {
            seq![Node::DecPointer { amount: (-net) as usize, count: 0 }]
        } else {
            Seq::empty()
        },
        Run::Data { offset, net } => if net > 0 && net % 256 != 0 {
            seq![Node::IncData { offset, amount: (net % 256) as u8, count: 0 }]
        } else if net < 0 && (-net) % 256 != 0 {
            seq![Node::DecData { offset, amount: ((-net) % 256) as u8, count: 0 }]
        } else {
            Seq::empty()
        },
    }
}

/// The collapse of `s[i..]`, read with the run `r` open.
pub open spec fn collapse_from(s: Seq<Node>, i: int, r: Run) -> Seq<Node>
    decreases s, s.len() - i,
{
    if i < 0 || i >= s.len() {
        flush(r)
    } else if absorbs(r, s[i]) {
        collapse_from(s, i + 1, absorb(r, s[i]))
    } else if absorbs(Run::Idle, s[i]) {
        flush(r) + collapse_from(s, i + 1, absorb(Run::Idle, s[i]))
    } else {
        let kept = match s[i] {
            Node::Loop { id, body, start_count, end_count } => Node::Loop {
                id,
                body: collapse_from(body, 0, Run::Idle),
                start_count,
                end_count,
            },
            other => other,
        };
        flush(r) + seq![kept] + collapse_from(s, i + 1, Run::Idle)
    }
}

/// One pass of the collapse: each run of pointer moves becomes one move by
/// the net amount, each run of additions to one cell becomes one addition,
/// and a run that cancels leaves nothing; the same inside every loop body.
///
/// A pass may leave neighbours that a further pass merges: those that stood
/// on either side of a run that cancelled.
pub open spec fn collapse_pass(s: Seq<Node>) -> Seq<Node> {
    collapse_from(s, 0, Run::Idle)
}

/// The number of nodes of a node: itself, and the nodes of its body where it
/// is a loop.
pub open spec fn weight_node(n: Node) -> nat
    decreases n, 0nat,
{
    match n {
        Node::Loop { body, .. } => 1 + weight(body),
        _ => 1,
    }
}

/// The number of nodes of a program, those in loop bodies too.
pub open spec fn weight(s: Seq<Node>) -> nat
    decreases s, 1nat,
{
    if s.len() == 0 {
        0
    } else {
        weight_node(s[0]) + weight(s.subrange(1, s.len() as int))
    }
}

/// A run that leaves a node when it is finished, or no run.
pub open spec fn leaves_node(r: Run) -> bool {
    r is Idle || flush(r).len() == 1
}

/// A pass finds nothing to merge in `s[i..]`, read with the run `r` open:
/// every run is one node and leaves one node; the same in every loop body.
pub open spec fn lonely_from(s: Seq<Node>, i: int, r: Run) -> bool
    decreases s, s.len() - i,
{
    if i < 0 || i >= s.len() {
        leaves_node(r)
    } else if absorbs(r, s[i]) {
        r is Idle && lonely_from(s, i + 1, absorb(r, s[i]))
    } else if absorbs(Run::Idle, s[i]) {
        leaves_node(r) && lonely_from(s, i + 1, absorb(Run::Idle, s[i]))
    } else {
        &&& leaves_node(r)
        &&& (s[i] matches Node::Loop { body, .. } ==> lonely_from(body, 0, Run::Idle))
        &&& lonely_from(s, i + 1, Run::Idle)
    }
}

/// A pass finds nothing to merge in the program.
pub open spec fn lonely(s: Seq<Node>) -> bool {
    lonely_from(s, 0, Run::Idle)
}

/// The collapse: passes are made as long as they make the program smaller.
/// What comes out is the compaction that a further pass leaves unchanged: no
/// run of pointer moves or of additions to one cell is left unmerged, also
/// where the nodes of a run stood apart, on either side of runs that cancel.
pub open spec fn collapse_nodes(s: Seq<Node>) -> Seq<Node>
    decreases weight(s),
{
    let t = collapse_pass(s);
    if weight(t) < weight(s) {
        collapse_nodes(t)
    } else {
        t
    }
}

/// The run that the executable pass has open.
enum Pending {
    Idle,
    Pointer { net: i128 },
    Data { offset: isize, net: i128 },
}

impl Pending {
    /// The run that this stands for.
    spec fn model(self) -> Run {
        match self {
            Pending::Idle => Run::Idle,
            Pending::Pointer { net } => (Run::Pointer { net: net as int }),
            Pending::Data { offset, net } => (Run::Data { offset, net: net as int }),
        }
    }

    /// The net sum is small enough for one more node to be added without overflow.
    spec fn bounded(self, seen: int) -> bool {
        match self {
            Pending::Idle => true,
            Pending::Pointer { net } => -(usize::MAX as int) <= net <= usize::MAX,
            Pending::Data { net, .. } => -255 * seen <= net <= 255 * seen,
        }
    }
}

/// Writes out the node of a finished run, and tells whether the run leaves
/// a node or is none.
fn flush_pending(out: &mut Vec<Command>, p: &Pending) -> (left: bool)
    requires
        p.bounded(usize::MAX as int),
    ensures
        nodes_of(final(out)@) == nodes_of(old(out)@) + flush(p.model()),
        left == leaves_node(p.model()),
{
    let ghost before = out@;
    match p {
        Pending::Idle => {
            assert(nodes_of(out@) =~= nodes_of(before) + flush(p.model()));
            true
        },
        Pending::Pointer { net } => {
            let net: i128 = *net;
            if net > 0 {
                let c = Command::IncPointer { amount: net as usize, count: 0 };
                proof {
                    lemma_nodes_push(out@, c);
                }
                out.push(c);
            } else if net < 0 {
                let c = Command::DecPointer { amount: (-net) as usize, count: 0 };
                proof {
                    lemma_nodes_push(out@, c);
                }
                out.push(c);
            }
            assert(nodes_of(out@) =~= nodes_of(before) + flush(p.model()));
            net != 0
        },
        Pending::Data { offset, net } => {
            let net: i128 = *net;
            if net > 0 && net % 256 != 0 {
                let c = Command::IncData { offset: *offset, amount: (net % 256) as u8, count: 0 };
                proof {
                    lemma_nodes_push(out@, c);
                }
                out.push(c);
            } else if net < 0 && (-net) % 256 != 0 {
                let c = Command::DecData {
                    offset: *offset,
                    amount: ((-net) % 256) as u8,
                    count: 0,
                };
                proof {
                    lemma_nodes_push(out@, c);
                }
                out.push(c);
            }
            assert(nodes_of(out@) =~= nodes_of(before) + flush(p.model()));
            net % 256 != 0
        },
    }
}

/// The run after one more node, where the run absorbs it.
fn try_absorb(p: &Pending, c: &Command, Ghost(seen): Ghost<int>) -> (r: Option<Pending>)
    requires
        p.bounded(seen),
        0 <= seen < usize::MAX,
    ensures
        r is Some <==> absorbs(p.model(), c@),
        r matches Some(q) ==> q.model() == absorb(p.model(), c@) && q.bounded(seen + 1),
{
    let limit: i128 = usize::MAX as i128;
    match (p, c) {
        (Pending::Idle, Command::IncPointer { amount, .. }) => Some(
            Pending::Pointer { net: *amount as i128 },
        ),
        (Pending::Idle, Command::DecPointer { amount, .. }) => Some(
            Pending::Pointer { net: -(*amount as i128) },
        ),
        (Pending::Idle, Command::IncData { offset, amount, .. }) => Some(
            Pending::Data { offset: *offset, net: *amount as i128 },
        ),
        (Pending::Idle, Command::DecData { offset, amount, .. }) => Some(
            Pending::Data { offset: *offset, net: -(*amount as i128) },
        ),
        (Pending::Pointer { net }, Command::IncPointer { amount, .. }) => {
            let sum: i128 = *net + *amount as i128;
            if sum <= limit {
                Some(Pending::Pointer { net: sum })
            } else {
                None
            }
        },
        (Pending::Pointer { net }, Command::DecPointer { amount, .. }) => {
            let sum: i128 = *net - *amount as i128;
            if sum >= -limit {
                Some(Pending::Pointer { net: sum })
            } else {
                None
            }
        },
        (Pending::Data { offset, net }, Command::IncData { offset: o, amount, .. }) => {
            if *o == *offset {
                Some(Pending::Data { offset: *offset, net: *net + *amount as i128 })
            } else {
                None
            }
        },
        (Pending::Data { offset, net }, Command::DecData { offset: o, amount, .. }) => {
            if *o == *offset {
                Some(Pending::Data { offset: *offset, net: *net - *amount as i128 })
            } else {
                None
            }
        },
        _ => None,
    }
}

/// Makes one pass of the collapse over the program and every loop body, and
/// tells whether it found anything to merge.
fn collapse_once(commands: &mut Vec<Command>) -> (found: bool)
    ensures
        nodes_of(final(commands)@) == collapse_pass(nodes_of(old(commands)@)),
        found == !lonely(nodes_of(old(commands)@)),
    decreases *old(commands),
{
    let mut source: Vec<Command> = Vec::new();
    core::mem::swap(commands, &mut source);
    let ghost orig = source;
    let ghost s = nodes_of(source@);
    let mut out: Vec<Command> = Vec::new();
    let mut pending = Pending::Idle;
    let mut found = false;
    let mut i: usize = 0;
    assert(nodes_of(out@) =~= Seq::<Node>::empty());
    assert(nodes_of(out@) + collapse_from(s, 0, Run::Idle) =~= collapse_pass(s));
    while i < source.len()
        invariant
            i <= source.len(),
            source.len() == orig.len(),
            orig == *old(commands),
            s == nodes_of(orig@),
            forall|k: int| i <= k < source.len() ==> source@[k] == orig@[k],
            pending.bounded(i as int),
            nodes_of(out@) + collapse_from(s, i as int, pending.model()) == collapse_pass(s),
            lonely(s) == (!found && lonely_from(s, i as int, pending.model())),
        decreases source.len() - i,
    {
        let ghost before = nodes_of(out@);
        let ghost run = pending.model();
        assert(s[i as int] == source@[i as int]@);
        let open = match pending {
            Pending::Idle => false,
            _ => true,
        };
        match try_absorb(&pending, &source[i], Ghost(i as int)) {
            Some(next) => {
                if open {
                    found = true;
                }
                pending = next;
            },
            None => {
                let left = flush_pending(&mut out, &pending);
                if !left {
                    found = true;
                }
                match try_absorb(&Pending::Idle, &source[i], Ghost(i as int)) {
                    Some(next) => {
                        pending = next;
                        assert(nodes_of(out@) + collapse_from(s, i + 1, pending.model())
                            =~= before + (flush(run) + collapse_from(s, i + 1, pending.model())));
                    },
                    None => {
                        let mut taken = Command::Input { offset: 0, count: 0 };
                        core::mem::swap(&mut source[i], &mut taken);
                        assert(taken == orig@[i as int]);
                        match taken {
                            Command::Loop { id, body, start_count, end_count } => {
                                let mut body = body;
                                assert(decreases_to!(orig => orig@[i as int]));
                                if collapse_once(&mut body) {
                                    found = true;
                                }
                                taken = Command::Loop { id, body, start_count, end_count };
                            },
                            other => {
                                taken = other;
                            },
                        }
                        proof {
                            lemma_nodes_push(out@, taken);
                        }
                        out.push(taken);
                        pending = Pending::Idle;
                        assert(nodes_of(out@) + collapse_from(s, i + 1, Run::Idle)
                            =~= before + (flush(run) + seq![taken@] + collapse_from(
                            s,
                            i + 1,
                            Run::Idle,
                        )));
                    },
                }
            },
        }
        i += 1;
    }
    let left = flush_pending(&mut out, &pending);
    if !left {
        found = true;
    }
    *commands = out;
    found
}

/// Merges runs of pointer moves and of additions to one cell, in the program
/// and in every loop body, until nothing is left to merge: a second call
/// changes nothing. The program does what it did before.
#[verifier::loop_isolation(false)]
pub fn collapse(commands: &mut Vec<Command>)
    ensures
        nodes_of(final(commands)@) == collapse_nodes(nodes_of(old(commands)@)),
        equivalent(nodes_of(old(commands)@), nodes_of(final(commands)@)),
{
    let ghost given = nodes_of(commands@);
    assert(equivalent(given, given));
    loop
        invariant
            collapse_nodes(nodes_of(commands@)) == collapse_nodes(given),
            equivalent(given, nodes_of(commands@)),
        decreases weight(nodes_of(commands@)),
    {
        let ghost s = nodes_of(commands@);
        let found = collapse_once(commands);
        proof {
            lemma_pass_weight(s, 0, Run::Idle);
            assert(s.subrange(0, s.len() as int) =~= s);
            lemma_collapse_pass_equivalent(s);
            lemma_equivalent_chain(given, s, nodes_of(commands@));
        }
        if !found {
            return ;
        }
    }
}

/// Whether a loop body is one addition of an odd amount to the current cell.
///
/// Such a loop runs until the cell is 0; with an even amount it could run forever.
pub open spec fn clears_cell(body: Seq<Node>) -> bool {
    body.len() == 1 && match body[0] {
        Node::IncData { offset, amount, .. } => offset == 0 && amount % 2 == 1,
        Node::DecData { offset, amount, .. } => offset == 0 && amount % 2 == 1,
        _ => false,
    }
}

/// The node that every cell-clearing loop becomes.
pub open spec fn zero_cell() -> Node {
    Node::SetData { offset: 0, value: 0, count: 0 }
}

/// The fold of one node: a cell-clearing loop becomes a store of 0, any other
/// loop has its body folded.
pub open spec fn fold_zero_node(n: Node) -> Node
    decreases n, 0nat,
{
    match n {
        Node::Loop { id, body, start_count, end_count } => if clears_cell(body) {
            zero_cell()
        } else {
            Node::Loop { id, body: fold_zero_nodes(body), start_count, end_count }
        },
        other => other,
    }
}

/// The fold of each node, in order.
pub open spec fn fold_zero_nodes(s: Seq<Node>) -> Seq<Node>
    decreases s, 1nat,
{
    Seq::new(s.len(), |i: int| if 0 <= i < s.len() { fold_zero_node(s[i]) } else { arbitrary() })
}

/// Tells whether a loop body is one addition of an odd amount to the current cell.
fn is_clearing_body(body: &Vec<Command>) -> (r: bool)
    ensures
        r == clears_cell(nodes_of(body@)),
{
    if body.len() != 1 {
        return false;
    }
    assert(nodes_of(body@)[0] == body@[0]@);
    match &body[0] {
        Command::IncData { offset, amount, .. } => *offset == 0 && *amount % 2 == 1,
        Command::DecData { offset, amount, .. } => *offset == 0 && *amount % 2 == 1,
        _ => false,
    }
}

/// Replaces every loop that only clears its cell by a store of 0. The
/// program does what it did before.
pub fn fold_zero_loop(commands: &mut Vec<Command>)
    ensures
        nodes_of(final(commands)@) == fold_zero_nodes(nodes_of(old(commands)@)),
        equivalent(nodes_of(old(commands)@), nodes_of(final(commands)@)),
    decreases *old(commands),
{
    let ghost orig = *commands;
    let ghost s = nodes_of(commands@);
    let mut i: usize = 0;
    while i < commands.len()
        invariant
            i <= commands.len(),
            commands.len() == orig.len(),
            orig == *old(commands),
            s == nodes_of(orig@),
            forall|k: int| i <= k < commands.len() ==> commands@[k] == orig@[k],
            forall|k: int| 0 <= k < i ==> commands@[k]@ == fold_zero_node(s[k]),
        decreases commands.len() - i,
    {
        assert(s[i as int] == orig@[i as int]@);
        let clears = match &commands[i] {
            Command::Loop { body, .. } => is_clearing_body(body),
            _ => false,
        };
        if clears {
            commands[i] = Command::SetData { offset: 0, value: 0, count: 0 };
        } else {
            assert(decreases_to!(orig => orig@[i as int]));
            match &mut commands[i] {
                Command::Loop { body, .. } => {
                    fold_zero_loop(body);
                },
                _ => {},
            }
        }
        i += 1;
    }
    assert(nodes_of(commands@) =~= fold_zero_nodes(s));
    proof {
        lemma_fold_equivalent(s);
    }
}

/// Where a walk over a loop body stands: the pointer relative to the loop's
/// entry, and the net change made so far to the cell at that entry.
pub struct Walk {
    pub ptr: int,
    pub delta: int,
}

/// The walk after one more node; `None` where the node is not a pointer move
/// or an addition, or where a position leaves the range of an offset.
pub open spec fn walk_step(w: Walk, n: Node) -> Option<Walk> {
    match n {
        Node::IncPointer { amount, .. } => if w.ptr + amount <= isize::MAX {
            Some(Walk { ptr: w.ptr + amount, ..w })
        } else {
            None
        },
        Node::DecPointer { amount, .. } => if w.ptr - amount >= isize::MIN {
            Some(Walk { ptr: w.ptr - amount, ..w })
        } else {
            None
        },
        Node::IncData { offset, amount, .. } => if w.ptr + offset == 0 {
            Some(Walk { delta: w.delta + amount, ..w })
        } else if isize::MIN <= w.ptr + offset <= isize::MAX {
            Some(w)
        } else {
            None
        },
        Node::DecData { offset, amount, .. } => if w.ptr + offset == 0 {
            Some(Walk { delta: w.delta - amount, ..w })
        } else if isize::MIN <= w.ptr + offset <= isize::MAX {
            Some(w)
        } else {
            None
        },
        _ => None,
    }
}

/// The walk at the end of a body, from the walk `w` before node `i`.
pub open spec fn walk_from(body: Seq<Node>, i: int, w: Walk) -> Option<Walk>
    decreases body.len() - i,
{
    if i < 0 || i >= body.len() {
        Some(w)
    } else {
        match walk_step(w, body[i]) {
            Some(next) => walk_from(body, i + 1, next),
            None => None,
        }
    }
}

/// The walk over a whole body.
pub open spec fn walk(body: Seq<Node>) -> Option<Walk> {
    walk_from(body, 0, Walk { ptr: 0, delta: 0 })
}

/// The induction delta of a simple loop body, `None` for any other body.
///
/// A body is simple where it holds only pointer moves and additions, ends at
/// the position where it began, and changes the cell there by exactly 1 or -1.
pub open spec fn simple_delta(body: Seq<Node>) -> Option<int> {
    match walk(body) {
        Some(w) => if w.ptr == 0 && (w.delta == 1 || w.delta == -1) {
            Some(w.delta)
        } else {
            None
        },
        None => None,
    }
}

/// The induction delta of a node: that of its body where it is a simple loop.
pub open spec fn simple_loop_delta(n: Node) -> Option<int> {
    match n {
        Node::Loop { body, .. } => simple_delta(body),
        _ => None,
    }
}

/// Tells whether the command is a simple loop, and gives its induction delta
/// (1 or -1); the delta is 0 where it is none.
pub fn is_simple_loop(loop_cmd: &Command) -> (r: (bool, isize))
    ensures
        r.0 <==> simple_loop_delta(loop_cmd@) is Some,
        r.0 ==> r.1 == simple_loop_delta(loop_cmd@)->0,
        !r.0 ==> r.1 == 0,
{
    match loop_cmd {
        Command::Loop { body, .. } => {
            let ghost s = nodes_of(body@);
            let mut ptr: isize = 0;
            let mut delta: i128 = 0;
            let mut i: usize = 0;
            while i < body.len()
                invariant
                    i <= body.len(),
                    s == nodes_of(body@),
                    loop_cmd@ matches Node::Loop { body: b, .. } && b == s,
                    walk_from(s, i as int, Walk { ptr: ptr as int, delta: delta as int }) == walk(s),
                    -255 * i <= delta <= 255 * i,
                decreases body.len() - i,
            {
                assert(s[i as int] == body@[i as int]@);
                match &body[i] {
                    Command::IncPointer { amount, .. } => {
                        let next: i128 = ptr as i128 + *amount as i128;
                        if next > isize::MAX as i128 {
                            return (false, 0);
                        }
                        ptr = next as isize;
                    },
                    Command::DecPointer { amount, .. } => {
                        let next: i128 = ptr as i128 - *amount as i128;
                        if next < isize::MIN as i128 {
                            return (false, 0);
                        }
                        ptr = next as isize;
                    },
                    Command::IncData { offset, amount, .. } => {
                        let at: i128 = ptr as i128 + *offset as i128;
                        if at == 0 {
                            delta = delta + *amount as i128;
                        } else if at < isize::MIN as i128 || at > isize::MAX as i128 {
                            return (false, 0);
                        }
                    },
                    Command::DecData { offset, amount, .. } => {
                        let at: i128 = ptr as i128 + *offset as i128;
                        if at == 0 {
                            delta = delta - *amount as i128;
                        } else if at < isize::MIN as i128 || at > isize::MAX as i128 {
                            return (false, 0);
                        }
                    },
                    _ => {
                        return (false, 0);
                    },
                }
                i += 1;
            }
            if ptr == 0 && (delta == 1 || delta == -1) {
                (true, delta as isize)
            } else {
                (false, 0)
            }
        },
        _ => (false, 0),
    }
}

/// The straight-line code for `body[i..]` of a simple loop, read with the
/// pointer at `ptr` relative to the loop's entry: one offset addition or
/// subtraction for each addition to a cell other than the induction cell,
/// then a store of 0 to the induction cell.
pub open spec fn lowered_from(body: Seq<Node>, i: int, ptr: int, inverted: bool) -> Seq<Node>
    decreases body.len() - i,
{
    if i < 0 || i >= body.len() {
        seq![zero_cell()]
    } else {
        match body[i] {
            Node::IncPointer { amount, .. } => lowered_from(body, i + 1, ptr + amount, inverted),
            Node::DecPointer { amount, .. } => lowered_from(body, i + 1, ptr - amount, inverted),
            Node::IncData { offset, amount, .. } => if ptr + offset != 0 {
                seq![
                    Node::AddOffsetData {
                        dest_offset: (ptr + offset) as isize,
                        src_offset: 0,
                        multiplier: amount as usize,
                        inverted,
                        count: 0,
                    },
                ] + lowered_from(body, i + 1, ptr, inverted)
            } else {
                lowered_from(body, i + 1, ptr, inverted)
            },
            Node::DecData { offset, amount, .. } => if ptr + offset != 0 {
                seq![
                    Node::SubOffsetData {
                        dest_offset: (ptr + offset) as isize,
                        src_offset: 0,
                        multiplier: amount as usize,
                        inverted,
                        count: 0,
                    },
                ] + lowered_from(body, i + 1, ptr, inverted)
            } else {
                lowered_from(body, i + 1, ptr, inverted)
            },
            _ => lowered_from(body, i + 1, ptr, inverted),
        }
    }
}

/// The straight-line code that stands for a simple loop with the given body
/// and induction delta. With delta 1 the induction cell counts up until it
/// wraps to 0, so the source is negated.
pub open spec fn lowered(body: Seq<Node>, delta: int) -> Seq<Node> {
    lowered_from(body, 0, 0, delta == 1)
}

/// What the simple-loop pass makes of one node: a simple loop becomes its
/// straight-line code, every other loop has its body lowered.
pub open spec fn replace_simple_node(n: Node) -> Seq<Node>
    decreases n, 0nat,
{
    match n {
        Node::Loop { id, body, start_count, end_count } => match simple_delta(body) {
            Some(d) => lowered(body, d),
            None => seq![
                Node::Loop { id, body: replace_simple_from(body, 0), start_count, end_count },
            ],
        },
        other => seq![other],
    }
}

/// What the simple-loop pass makes of `s[i..]`.
pub open spec fn replace_simple_from(s: Seq<Node>, i: int) -> Seq<Node>
    decreases s, s.len() - i,
{
    if i < 0 || i >= s.len() {
        Seq::empty()
    } else {
        replace_simple_node(s[i]) + replace_simple_from(s, i + 1)
    }
}

/// The simple-loop pass over a whole program.
pub open spec fn replace_simple_nodes(s: Seq<Node>) -> Seq<Node> {
    replace_simple_from(s, 0)
}

/// Appends the straight-line code of a simple loop body to `out`.
fn push_lowered(out: &mut Vec<Command>, body: &Vec<Command>, inverted: bool)
    requires
        walk(nodes_of(body@)) is Some,
    ensures
        nodes_of(final(out)@) == nodes_of(old(out)@) + lowered_from(nodes_of(body@), 0, 0, inverted),
{
    let ghost s = nodes_of(body@);
    let ghost before = nodes_of(out@);
    let mut ptr: isize = 0;
    let mut i: usize = 0;
    let ghost mut cur = Walk { ptr: 0, delta: 0 };
    assert(nodes_of(out@) + lowered_from(s, 0, 0, inverted) =~= before + lowered_from(
        s,
        0,
        0,
        inverted,
    ));
    while i < body.len()
        invariant
            i <= body.len(),
            s == nodes_of(body@),
            cur.ptr == ptr,
            walk_from(s, i as int, cur) is Some,
            nodes_of(out@) + lowered_from(s, i as int, ptr as int, inverted) == before
                + lowered_from(s, 0, 0, inverted),
        decreases body.len() - i,
    {
        assert(s[i as int] == body@[i as int]@);
        assert(walk_step(cur, s[i as int]) is Some);
        proof {
            cur = walk_step(cur, s[i as int])->0;
        }
        let ghost mid = nodes_of(out@);
        match &body[i] {
            Command::IncPointer { amount, .. } => {
                ptr = (ptr as i128 + *amount as i128) as isize;
            },
            Command::DecPointer { amount, .. } => {
                ptr = (ptr as i128 - *amount as i128) as isize;
            },
            Command::IncData { offset, amount, .. } => {
                let at: i128 = ptr as i128 + *offset as i128;
                if at != 0 {
                    let c = Command::AddOffsetData {
                        dest_offset: at as isize,
                        src_offset: 0,
                        multiplier: *amount as usize,
                        inverted,
                        count: 0,
                    };
                    proof {
                        lemma_nodes_push(out@, c);
                    }
                    out.push(c);
                    assert(nodes_of(out@) + lowered_from(s, i + 1, ptr as int, inverted) =~= mid + (
                    seq![c@] + lowered_from(s, i + 1, ptr as int, inverted)));
                }
            },
            Command::DecData { offset, amount, .. } => {
                let at: i128 = ptr as i128 + *offset as i128;
                if at != 0 {
                    let c = Command::SubOffsetData {
                        dest_offset: at as isize,
                        src_offset: 0,
                        multiplier: *amount as usize,
                        inverted,
                        count: 0,
                    };
                    proof {
                        lemma_nodes_push(out@, c);
                    }
                    out.push(c);
                    assert(nodes_of(out@) + lowered_from(s, i + 1, ptr as int, inverted) =~= mid + (
                    seq![c@] + lowered_from(s, i + 1, ptr as int, inverted)));
                }
            },
            _ => {},
        }
        i += 1;
    }
    let ghost mid = nodes_of(out@);
    let c = Command::SetData { offset: 0, value: 0, count: 0 };
    proof {
        lemma_nodes_push(out@, c);
    }
    out.push(c);
    assert(nodes_of(out@) =~= mid + lowered_from(s, i as int, ptr as int, inverted));
}

/// Replaces every simple loop by offset additions and a store of 0. The
/// program does what it did before.
pub fn replace_simple_loops(commands: &mut Vec<Command>)
    ensures
        nodes_of(final(commands)@) == replace_simple_nodes(nodes_of(old(commands)@)),
        equivalent(nodes_of(old(commands)@), nodes_of(final(commands)@)),
    decreases *old(commands),
{
    let mut source: Vec<Command> = Vec::new();
    core::mem::swap(commands, &mut source);
    let ghost orig = source;
    let ghost s = nodes_of(source@);
    let mut out: Vec<Command> = Vec::new();
    let mut i: usize = 0;
    assert(nodes_of(out@) + replace_simple_from(s, 0) =~= replace_simple_nodes(s));
    while i < source.len()
        invariant
            i <= source.len(),
            source.len() == orig.len(),
            orig == *old(commands),
            s == nodes_of(orig@),
            forall|k: int| i <= k < source.len() ==> source@[k] == orig@[k],
            nodes_of(out@) + replace_simple_from(s, i as int) == replace_simple_nodes(s),
        decreases source.len() - i,
    {
        let ghost before = nodes_of(out@);
        assert(s[i as int] == source@[i as int]@);
        let (simple, delta) = is_simple_loop(&source[i]);
        if simple {
            match &source[i] {
                Command::Loop { body, .. } => {
                    push_lowered(&mut out, body, delta == 1);
                    assert(replace_simple_node(s[i as int]) == lowered(
                        nodes_of(body@),
                        delta as int,
                    ));
                    assert(nodes_of(out@) + replace_simple_from(s, i + 1) =~= before + (lowered(
                        nodes_of(body@),
                        delta as int,
                    ) + replace_simple_from(s, i + 1)));
                },
                _ => {},
            }
        } else {
            let mut taken = Command::Input { offset: 0, count: 0 };
            core::mem::swap(&mut source[i], &mut taken);
            assert(taken == orig@[i as int]);
            match taken {
                Command::Loop { id, body, start_count, end_count } => {
                    let mut body = body;
                    assert(decreases_to!(orig => orig@[i as int]));
                    replace_simple_loops(&mut body);
                    taken = Command::Loop { id, body, start_count, end_count };
                },
                other => {
                    taken = other;
                },
            }
            proof {
                lemma_nodes_push(out@, taken);
            }
            out.push(taken);
            assert(replace_simple_node(s[i as int]) == seq![taken@]);
            assert(nodes_of(out@) + replace_simple_from(s, i + 1) =~= before + (seq![taken@]
                + replace_simple_from(s, i + 1)));
        }
        i += 1;
    }
    assert(nodes_of(out@) =~= replace_simple_nodes(s));
    *commands = out;
    proof {
        lemma_simple_loops_equivalent(s);
    }
}

/// The scan that a loop body stands for, where it is one pointer move.
pub open spec fn scan_of(id: usize, body: Seq<Node>) -> Option<Node> {
    if body.len() == 1 {
        match body[0] {
            Node::IncPointer { amount, .. } => Some(
                Node::Scan { id, direction: Direction::Right, skip_amount: amount, count: 0 },
            ),
            Node::DecPointer { amount, .. } => Some(
                Node::Scan { id, direction: Direction::Left, skip_amount: amount, count: 0 },
            ),
            _ => None,
        }
    } else {
        None
    }
}

/// The scan pass on one node: a loop around one pointer move becomes a scan
/// with the loop's number, any other loop has the pass applied to its body.
pub open spec fn scan_node(n: Node) -> Node
    decreases n, 0nat,
{
    match n {
        Node::Loop { id, body, start_count, end_count } => match scan_of(id, body) {
            Some(scan) => scan,
            None => Node::Loop { id, body: scan_nodes(body), start_count, end_count },
        },
        other => other,
    }
}

/// The scan pass on each node, in order.
pub open spec fn scan_nodes(s: Seq<Node>) -> Seq<Node>
    decreases s, 1nat,
{
    Seq::new(s.len(), |i: int| if 0 <= i < s.len() { scan_node(s[i]) } else { arbitrary() })
}

/// The scan that a loop with this number and body stands for, if it is one.
fn scan_for(id: usize, body: &Vec<Command>) -> (r: Option<Command>)
    ensures
        match scan_of(id, nodes_of(body@)) {
            Some(n) => r matches Some(c) && c@ == n,
            None => r is None,
        },
{
    if body.len() != 1 {
        return None;
    }
    assert(nodes_of(body@)[0] == body@[0]@);
    match &body[0] {
        Command::IncPointer { amount, .. } => Some(
            Command::Scan { id, direction: Direction::Right, skip_amount: *amount, count: 0 },
        ),
        Command::DecPointer { amount, .. } => Some(
            Command::Scan { id, direction: Direction::Left, skip_amount: *amount, count: 0 },
        ),
        _ => None,
    }
}

/// Replaces every loop around a single pointer move by a scan. The program
/// does what it did before.
pub fn replace_scans(commands: &mut Vec<Command>)
    ensures
        nodes_of(final(commands)@) == scan_nodes(nodes_of(old(commands)@)),
        equivalent(nodes_of(old(commands)@), nodes_of(final(commands)@)),
    decreases *old(commands),
{
    let ghost orig = *commands;
    let ghost s = nodes_of(commands@);
    let mut i: usize = 0;
    while i < commands.len()
        invariant
            i <= commands.len(),
            commands.len() == orig.len(),
            orig == *old(commands),
            s == nodes_of(orig@),
            forall|k: int| i <= k < commands.len() ==> commands@[k] == orig@[k],
            forall|k: int| 0 <= k < i ==> commands@[k]@ == scan_node(s[k]),
        decreases commands.len() - i,
    {
        assert(s[i as int] == orig@[i as int]@);
        let scan = match &commands[i] {
            Command::Loop { id, body, .. } => scan_for(*id, body),
            _ => None,
        };
        match scan {
            Some(c) => {
                commands[i] = c;
            },
            None => {
                assert(decreases_to!(orig => orig@[i as int]));
                match &mut commands[i] {
                    Command::Loop { body, .. } => {
                        replace_scans(body);
                    },
                    _ => {},
                }
            },
        }
        i += 1;
    }
    assert(nodes_of(commands@) =~= scan_nodes(s));
    proof {
        lemma_scans_equivalent(s);
    }
}

/// What the optimizer makes of a program at a level: the collapse pass from
/// level 1, the zero-loop fold from level 2, the simple-loop and scan passes
/// from level 3, in this order.
pub open spec fn optimize_nodes(s: Seq<Node>, level: u8) -> Seq<Node> {
    let a = if level > 0 { collapse_nodes(s) } else { s };
    let b = if level > 1 { fold_zero_nodes(a) } else { a };
    if level > 2 { scan_nodes(replace_simple_nodes(b)) } else { b }
}

/// Runs the passes that the optimization level asks for. The program does
/// what it did before: started on the same machine, it halts if and only if
/// it halted before, with the same tape, pointer, input left and output.
pub fn optimize(commands: &mut Vec<Command>, optimization_level: u8)
    ensures
        nodes_of(final(commands)@) == optimize_nodes(nodes_of(old(commands)@), optimization_level),
        equivalent(nodes_of(old(commands)@), nodes_of(final(commands)@)),
{
    proof {
        lemma_optimize_equivalent(nodes_of(commands@), optimization_level);
    }
    if optimization_level > 0 {
        collapse(commands);
    }
    if optimization_level > 1 {
        fold_zero_loop(commands);
    }
    if optimization_level > 2 {
        replace_simple_loops(commands);
        replace_scans(commands);
    }
}

} // verus!
