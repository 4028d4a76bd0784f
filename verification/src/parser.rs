use vstd::prelude::*;
use vstd::std_specs::iter::IteratorSpec;
use vstd::string::StrSliceExecFns;
use vstd::string::StringExecFns;
use crate::ir::{Command, Node, OutputType, nodes_of, lemma_nodes_push};

verus! {

broadcast use vstd::string::group_string_axioms;

/// Why a source text is not a program.
#[derive(Debug, Clone, Copy, PartialEq, Eq, Structural)]
pub enum ParseError {
    /// A `[` is still open at the end of the text.
    UnmatchedOpen,
    /// A `]` closes nothing.
    UnmatchedClose,
}

impl ParseError {
    /// The fixed diagnostic line for this error.
    pub fn message(&self) -> (r: String)
        ensures
            r@ == match *self {
                ParseError::UnmatchedOpen => "Error parsing input: Unmatched '['"@,
                ParseError::UnmatchedClose => "Error parsing input: Unmatched ']'"@,
            },
    {
        match self {
            ParseError::UnmatchedOpen => String::from_str("Error parsing input: Unmatched '['"),
            ParseError::UnmatchedClose => String::from_str("Error parsing input: Unmatched ']'"),
        }
    }
}

/// What the parser holds after reading a prefix of the text.
pub struct ParseState {
    /// The commands of the outermost scope.
    pub root: Seq<Node>,
    /// The bodies of the loops that are open, outermost first.
    pub open: Seq<Seq<Node>>,
    /// How many `]` have been read.
    pub closed: nat,
    /// Whether a `]` was read while no loop was open.
    pub unmatched_close: bool,
}

/// The node that a character other than a bracket stands for, if any.
pub open spec fn plain_node(c: char) -> Option<Node> {
    if c == '>' {
        Some(Node::IncPointer { amount: 1, count: 0 })
    } else if c == '<' {
        Some(Node::DecPointer { amount: 1, count: 0 })
    } else if c == '+' {
        Some(Node::IncData { offset: 0, amount: 1, count: 0 })
    } else if c == '-' {
        Some(Node::DecData { offset: 0, amount: 1, count: 0 })
    } else if c == '.' {
        Some(Node::Output { out_type: OutputType::Cell { offset: 0 }, count: 0 })
    } else if c == ',' {
        Some(Node::Input { offset: 0, count: 0 })
    } else {
        None
    }
}

/// Appends a node to the innermost open scope.
pub open spec fn append_node(st: ParseState, n: Node) -> ParseState {
    if st.open.len() > 0 {
        ParseState { open: st.open.update(st.open.len() - 1, st.open.last().push(n)), ..st }
    } else {
        ParseState { root: st.root.push(n), ..st }
    }
}

/// The parser's state after one more character.
pub open spec fn parse_step(st: ParseState, c: char) -> ParseState {
    if st.unmatched_close {
        st
    } else if c == '[' {
        ParseState { open: st.open.push(Seq::empty()), ..st }
    } else if c == ']' {
        if st.open.len() == 0 {
            ParseState { closed: st.closed + 1, unmatched_close: true, ..st }
        } else {
            let done = Node::Loop {
                id: (st.closed + 1) as usize,
                body: st.open.last(),
                start_count: 0,
                end_count: 0,
            };
            append_node(
                ParseState { open: st.open.drop_last(), closed: st.closed + 1, ..st },
                done,
            )
        }
    } else {
        match plain_node(c) {
            Some(n) => append_node(st, n),
            None => st,
        }
    }
}

/// The parser's state after a whole text.
pub open spec fn parse_run(s: Seq<char>) -> ParseState
    decreases s.len(),
{
    if s.len() == 0 {
        ParseState { root: Seq::empty(), open: Seq::empty(), closed: 0, unmatched_close: false }
    } else {
        parse_step(parse_run(s.drop_last()), s.last())
    }
}

/// The program that a text denotes, or the reason why it denotes none.
///
/// A `]` without an open loop is reported before a `[` that is never closed.
pub open spec fn parse_text(s: Seq<char>) -> Result<Seq<Node>, ParseError> {
    let st = parse_run(s);
    if st.unmatched_close {
        Err(ParseError::UnmatchedClose)
    } else if st.open.len() > 0 {
        Err(ParseError::UnmatchedOpen)
    } else {
        Ok(st.root)
    }
}

/// A node as the parser writes it: unit amounts, no offsets, no counts, and
/// none of the kinds that only later passes introduce.
pub open spec fn canonical(n: Node) -> bool
    decreases n,
{
    match n {
        Node::IncPointer { amount, count } => amount == 1 && count == 0,
        Node::DecPointer { amount, count } => amount == 1 && count == 0,
        Node::IncData { offset, amount, count } => offset == 0 && amount == 1 && count == 0,
        Node::DecData { offset, amount, count } => offset == 0 && amount == 1 && count == 0,
        Node::Output { out_type, count } => out_type == (OutputType::Cell { offset: 0 }) && count == 0,
        Node::Input { offset, count } => offset == 0 && count == 0,
        Node::Loop { id, body, start_count, end_count } => {
            &&& start_count == 0
            &&& end_count == 0
            &&& forall|i: int| 0 <= i < body.len() ==> canonical(#[trigger] body[i])
        },
        Node::SetData { .. } => false,
        Node::Scan { .. } => false,
        Node::AddOffsetData { .. } => false,
        Node::SubOffsetData { .. } => false,
    }
}

/// Every node of the sequence is canonical.
pub open spec fn all_canonical(s: Seq<Node>) -> bool {
    forall|i: int| 0 <= i < s.len() ==> canonical(#[trigger] s[i])
}

/// Every node that the parser holds is canonical.
spec fn state_canonical(st: ParseState) -> bool {
    &&& all_canonical(st.root)
    &&& forall|k: int| 0 <= k < st.open.len() ==> all_canonical(#[trigger] st.open[k])
}

/// Appending a canonical node keeps every node canonical.
proof fn lemma_append_canonical(st: ParseState, n: Node)
    requires
        state_canonical(st),
        canonical(n),
    ensures
        state_canonical(append_node(st, n)),
{
    let r = append_node(st, n);
    if st.open.len() > 0 {
        assert forall|k: int| 0 <= k < r.open.len() implies all_canonical(#[trigger] r.open[k]) by {
            if k == st.open.len() - 1 {
                assert(all_canonical(st.open[k]));
                assert forall|i: int| 0 <= i < r.open[k].len() implies canonical(
                    #[trigger] r.open[k][i],
                ) by {
                    if i < st.open[k].len() {
                        assert(canonical(st.open[k][i]));
                    }
                }
            } else {
                assert(all_canonical(st.open[k]));
            }
        }
    } else {
        assert forall|i: int| 0 <= i < r.root.len() implies canonical(#[trigger] r.root[i]) by {
            if i < st.root.len() {
                assert(canonical(st.root[i]));
            }
        }
    }
}

/// The parser holds canonical nodes only.
proof fn lemma_run_canonical(s: Seq<char>)
    ensures
        state_canonical(parse_run(s)),
    decreases s.len(),
{
    if s.len() > 0 {
        lemma_run_canonical(s.drop_last());
        let st = parse_run(s.drop_last());
        let c = s.last();
        if st.unmatched_close {
        } else if c == '[' {
            let r = parse_step(st, c);
            assert forall|k: int| 0 <= k < r.open.len() implies all_canonical(#[trigger] r.open[k]) by {
                if k < st.open.len() {
                    assert(all_canonical(st.open[k]));
                }
            }
        } else if c == ']' {
            if st.open.len() > 0 {
                let done = Node::Loop {
                    id: (st.closed + 1) as usize,
                    body: st.open.last(),
                    start_count: 0,
                    end_count: 0,
                };
                let mid = ParseState { open: st.open.drop_last(), closed: st.closed + 1, ..st };
                assert(all_canonical(st.open[st.open.len() - 1]));
                assert(canonical(done));
                assert forall|k: int| 0 <= k < mid.open.len() implies all_canonical(
                    #[trigger] mid.open[k],
                ) by {
                    assert(all_canonical(st.open[k]));
                }
                lemma_append_canonical(mid, done);
            }
        } else {
            match plain_node(c) {
                Some(n) => lemma_append_canonical(st, n),
                None => {},
            }
        }
    }
}

/// Every program that the parser yields is canonical: data and pointer
/// nodes have amount 1 and offset 0, every output reads the cell at offset 0,
/// and no scan, set or offset-arithmetic node occurs.
pub proof fn lemma_parse_canonical(s: Seq<char>)
    ensures
        parse_text(s) matches Ok(nodes) ==> all_canonical(nodes),
{
    lemma_run_canonical(s);
}

/// A `]` that closes nothing stays an error however the text goes on.
proof fn lemma_unmatched_close_sticks(s: Seq<char>, n: int)
    requires
        0 <= n <= s.len(),
        parse_run(s.subrange(0, n)).unmatched_close,
    ensures
        parse_run(s).unmatched_close,
        parse_run(s) == parse_run(s.subrange(0, n)),
    decreases s.len() - n,
{
    if n < s.len() {
        assert(s.subrange(0, n + 1).drop_last() =~= s.subrange(0, n));
        lemma_unmatched_close_sticks(s, n + 1);
    } else {
        assert(s.subrange(0, n) =~= s);
    }
}

/// The number of `]` read never exceeds the number of characters read.
proof fn lemma_closed_bound(s: Seq<char>)
    ensures
        parse_run(s).closed <= s.len(),
    decreases s.len(),
{
    if s.len() > 0 {
        lemma_closed_bound(s.drop_last());
    }
}

/// How many loops the first `n` characters leave open: the `[` less the `]`
/// among them.
pub open spec fn depth(s: Seq<char>, n: int) -> int
    decreases n,
{
    if n <= 0 {
        0
    } else {
        depth(s, n - 1) + if s[n - 1] == '[' {
            1int
        } else if s[n - 1] == ']' {
            -1int
        } else {
            0int
        }
    }
}

/// No `]` in the text closes more loops than are open.
pub open spec fn never_negative(s: Seq<char>) -> bool {
    forall|n: int| 0 <= n <= s.len() ==> #[trigger] depth(s, n) >= 0
}

/// The depth of a prefix does not depend on what follows it.
proof fn lemma_depth_prefix(s: Seq<char>, n: int)
    requires
        0 <= n < s.len(),
    ensures
        depth(s.drop_last(), n) == depth(s, n),
    decreases n,
{
    if n > 0 {
        lemma_depth_prefix(s, n - 1);
    }
}

/// The parser fails at a `]` exactly where the depth goes below 0, and otherwise
/// has as many loops open as the depth says.
proof fn lemma_run_depth(s: Seq<char>)
    ensures
        parse_run(s).unmatched_close <==> !never_negative(s),
        !parse_run(s).unmatched_close ==> parse_run(s).open.len() == depth(s, s.len() as int),
    decreases s.len(),
{
    if s.len() == 0 {
        assert forall|n: int| 0 <= n <= s.len() implies #[trigger] depth(s, n) >= 0 by {}
    } else {
        let front = s.drop_last();
        lemma_run_depth(front);
        lemma_depth_prefix(s, s.len() - 1);
        assert forall|n: int| 0 <= n < s.len() implies depth(front, n) == #[trigger] depth(s, n) by {
            lemma_depth_prefix(s, n);
        }
        if never_negative(front) {
            if depth(s, s.len() as int) >= 0 {
                assert forall|n: int| 0 <= n <= s.len() implies #[trigger] depth(s, n) >= 0 by {
                    if n < s.len() {
                        assert(depth(front, n) >= 0);
                    }
                }
            }
        } else {
            let n = choose|n: int| 0 <= n <= front.len() && !(#[trigger] depth(front, n) >= 0);
            assert(depth(s, n) < 0);
        }
    }
}

/// A text is a program exactly where its brackets match: a `]` that closes
/// nothing makes the one error, and otherwise a `[` that is never closed
/// makes the other.
pub proof fn lemma_parse_succeeds_where_brackets_match(s: Seq<char>)
    ensures
        parse_text(s) is Ok <==> never_negative(s) && depth(s, s.len() as int) == 0,
        parse_text(s) == Err::<Seq<Node>, ParseError>(ParseError::UnmatchedClose)
            <==> !never_negative(s),
        parse_text(s) == Err::<Seq<Node>, ParseError>(ParseError::UnmatchedOpen)
            <==> never_negative(s) && depth(s, s.len() as int) > 0,
{
    lemma_run_depth(s);
    if never_negative(s) {
        assert(depth(s, s.len() as int) >= 0);
    }
}

/// The number that the last loop of a node has, where the loops of the node
/// are numbered one after the other in the order in which they close,
/// beginning after `from`; `from` for a node without loops, and `None` where
/// the loops are numbered otherwise.
pub open spec fn numbered_node(n: Node, from: nat) -> Option<nat>
    decreases n, 0nat,
{
    match n {
        Node::Loop { id, body, .. } => match numbered(body, from) {
            Some(last) => if id == last + 1 {
                Some(last + 1)
            } else {
                None
            },
            None => None,
        },
        _ => Some(from),
    }
}

/// The number that the last loop of a sequence has, where its loops are
/// numbered one after the other in the order in which they close, beginning
/// after `from`.
pub open spec fn numbered(s: Seq<Node>, from: nat) -> Option<nat>
    decreases s, 1nat,
{
    if s.len() == 0 {
        Some(from)
    } else {
        match numbered(s.drop_last(), from) {
            Some(mid) => numbered_node(s.last(), mid),
            None => None,
        }
    }
}

/// The number that the last loop has after the outermost scope and the first
/// `k` open scopes, where the loops are numbered in the order in which they close.
spec fn numbered_scopes(st: ParseState, k: int) -> Option<nat>
    decreases k,
{
    if k <= 0 {
        numbered(st.root, 0)
    } else {
        match numbered_scopes(st, k - 1) {
            Some(mid) => numbered(st.open[k - 1], mid),
            None => None,
        }
    }
}

/// The numbering of the first scopes does not depend on the scopes after them.
proof fn lemma_numbered_scopes_prefix(a: ParseState, b: ParseState, k: int)
    requires
        a.root == b.root,
        k <= a.open.len(),
        k <= b.open.len(),
        forall|j: int| 0 <= j < k ==> a.open[j] == b.open[j],
    ensures
        numbered_scopes(a, k) == numbered_scopes(b, k),
    decreases k,
{
    if k > 0 {
        lemma_numbered_scopes_prefix(a, b, k - 1);
    }
}

/// Appending a node to the innermost scope numbers its loops after all others.
proof fn lemma_append_numbered(st: ParseState, n: Node)
    requires
        numbered_scopes(st, st.open.len() as int) is Some,
    ensures
        numbered_scopes(append_node(st, n), st.open.len() as int) == numbered_node(
            n,
            numbered_scopes(st, st.open.len() as int)->0,
        ),
{
    let after = append_node(st, n);
    let k = st.open.len() as int;
    if k > 0 {
        lemma_numbered_scopes_prefix(st, after, k - 1);
        assert(after.open[k - 1].drop_last() =~= st.open[k - 1]);
    } else {
        assert(after.root.drop_last() =~= st.root);
    }
}

/// The parser numbers the loops in the order in which they close.
proof fn lemma_run_numbered(s: Seq<char>)
    requires
        s.len() <= usize::MAX,
    ensures
        !parse_run(s).unmatched_close ==> numbered_scopes(
            parse_run(s),
            parse_run(s).open.len() as int,
        ) == Some(parse_run(s).closed),
    decreases s.len(),
{
    if s.len() > 0 {
        let st = parse_run(s.drop_last());
        let c = s.last();
        let after = parse_run(s);
        lemma_run_numbered(s.drop_last());
        lemma_closed_bound(s.drop_last());
        if st.unmatched_close {
        } else if c == '[' {
            lemma_numbered_scopes_prefix(st, after, st.open.len() as int);
        } else if c == ']' {
            if st.open.len() > 0 {
                let k = st.open.len() as int;
                let done = Node::Loop {
                    id: (st.closed + 1) as usize,
                    body: st.open.last(),
                    start_count: 0,
                    end_count: 0,
                };
                let mid = ParseState { open: st.open.drop_last(), closed: st.closed + 1, ..st };
                lemma_numbered_scopes_prefix(st, mid, k - 1);
                lemma_append_numbered(mid, done);
            }
        } else {
            match plain_node(c) {
                Some(n) => lemma_append_numbered(st, n),
                None => {},
            }
        }
    }
}

/// In every program that the parser yields the loops are numbered 1, 2, ...
/// in the order in which they close: so no two loops have the same number.
pub proof fn lemma_parse_numbered(s: Seq<char>)
    requires
        s.len() <= usize::MAX,
    ensures
        parse_text(s) matches Ok(nodes) ==> numbered(nodes, 0) == Some(parse_run(s).closed),
{
    lemma_run_numbered(s);
}

/// The models of the bodies of the open loops.
spec fn open_model(stack: Seq<Vec<Command>>) -> Seq<Seq<Node>> {
    Seq::new(stack.len(), |k: int| nodes_of(stack[k]@))
}

/// Appends `op` to the innermost open body, or to the root where none is open.
fn append_command(
    commands: &mut Vec<Command>,
    stack: &mut Vec<Vec<Command>>,
    op: Command,
    Ghost(st): Ghost<ParseState>,
)
    requires
        nodes_of(old(commands)@) == st.root,
        open_model(old(stack)@) == st.open,
    ensures
        nodes_of(final(commands)@) == append_node(st, op@).root,
        open_model(final(stack)@) == append_node(st, op@).open,
{
    let depth = stack.len();
    assert(open_model(stack@).len() == depth);
    if depth > 0 {
        let ghost before = stack@;
        proof {
            lemma_nodes_push(stack@[depth - 1]@, op);
        }
        stack[depth - 1].push(op);
        assert(open_model(stack@) =~= append_node(st, op@).open) by {
            assert(open_model(before)[depth - 1] == nodes_of(before[depth - 1]@));
            assert forall|k: int| 0 <= k < depth implies open_model(stack@)[k] == append_node(
                st,
                op@,
            ).open[k] by {
                assert(open_model(before)[k] == nodes_of(before[k]@));
            }
        }
    } else {
        proof {
            lemma_nodes_push(commands@, op);
        }
        commands.push(op);
    }
}

/// Reads a program from its source text.
///
/// Only `> < + - . , [ ]` mean anything; every other character is skipped.
/// Loops get the numbers 1, 2, ... in the order in which they close.
pub fn parse(src: &String) -> (r: Result<Vec<Command>, ParseError>)
    ensures
        match parse_text(src@) {
            Ok(nodes) => r matches Ok(v) && nodes_of(v@) == nodes,
            Err(e) => r == Err::<Vec<Command>, ParseError>(e),
        },
        r matches Ok(v) ==> all_canonical(nodes_of(v@)),
{
    let text = src.as_str();
    let total = text.unicode_len();
    let mut commands: Vec<Command> = Vec::new();
    let mut stack: Vec<Vec<Command>> = Vec::new();
    let mut loop_id: usize = 0;
    let mut it = text.chars();
    let ghost all = src@;
    let ghost mut seen: Seq<char> = Seq::empty();
    assert(nodes_of(commands@) =~= parse_run(seen).root);
    assert(open_model(stack@) =~= parse_run(seen).open);
    assert(seen + it.remaining() =~= all);
    loop
        invariant
            it.obeys_prophetic_iter_laws(),
            it.decrease() is Some,
            seen + it.remaining() == all,
            all == src@,
            all.len() == total,
            !parse_run(seen).unmatched_close,
            nodes_of(commands@) == parse_run(seen).root,
            open_model(stack@) == parse_run(seen).open,
            loop_id == parse_run(seen).closed,
        ensures
            seen == all,
            !parse_run(seen).unmatched_close,
            nodes_of(commands@) == parse_run(seen).root,
            open_model(stack@) == parse_run(seen).open,
        decreases it.decrease()->0,
    {
        let ghost st = parse_run(seen);
        let next = it.next();
        match next {
            None => {
                assert(seen =~= all);
                break ;
            },
            Some(c) => {
                let ghost grown = seen.push(c);
                proof {
                    assert(grown.drop_last() =~= seen);
                    assert(grown + it.remaining() =~= all);
                    lemma_closed_bound(seen);
                    assert(all.subrange(0, grown.len() as int) =~= grown);
                }
                if c == '[' {
                    let fresh: Vec<Command> = Vec::new();
                    assert(nodes_of(fresh@) =~= Seq::<Node>::empty());
                    stack.push(fresh);
                    assert(open_model(stack@) =~= st.open.push(Seq::empty())) by {
                        assert forall|k: int| 0 <= k < stack@.len() implies open_model(stack@)[k]
                            == st.open.push(Seq::empty())[k] by {
                            if k < stack@.len() - 1 {
                                assert(open_model(stack@.drop_last())[k] == st.open[k]);
                            }
                        }
                    }
                } else if c == ']' {
                    loop_id = loop_id + 1;
                    match stack.pop() {
                        None => {
                            proof {
                                lemma_unmatched_close_sticks(all, grown.len() as int);
                            }
                            return Err(ParseError::UnmatchedClose);
                        },
                        Some(body) => {
                            let ghost mid = ParseState {
                                open: st.open.drop_last(),
                                closed: st.closed + 1,
                                ..st
                            };
                            assert(open_model(stack@) =~= mid.open);
                            assert(nodes_of(body@) == st.open.last());
                            let done = Command::Loop {
                                id: loop_id,
                                body: body,
                                start_count: 0,
                                end_count: 0,
                            };
                            append_command(&mut commands, &mut stack, done, Ghost(mid));
                        },
                    }
                } else {
                    let op = if c == '>' {
                        Some(Command::IncPointer { amount: 1, count: 0 })
                    } else if c == '<' {
                        Some(Command::DecPointer { amount: 1, count: 0 })
                    } else if c == '+' {
                        Some(Command::IncData { offset: 0, amount: 1, count: 0 })
                    } else if c == '-' {
                        Some(Command::DecData { offset: 0, amount: 1, count: 0 })
                    } else if c == '.' {
                        Some(Command::Output { out_type: OutputType::Cell { offset: 0 }, count: 0 })
                    } else if c == ',' {
                        Some(Command::Input { offset: 0, count: 0 })
                    } else {
                        None
                    };
                    match op {
                        Some(op) => {
                            append_command(&mut commands, &mut stack, op, Ghost(st));
                        },
                        None => {},
                    }
                }
                proof {
                    seen = grown;
                }
            },
        }
    }
    proof {
        lemma_parse_canonical(all);
    }
    if stack.len() > 0 {
        Err(ParseError::UnmatchedOpen)
    } else {
        Ok(commands)
    }
}

} // verus!
