use vstd::prelude::*;
use vstd::std_specs::iter::IteratorSpec;
use vstd::string::StrSliceExecFns;

verus! {

/// The eight instruction kinds of the language.
#[derive(Debug, PartialEq, Eq, Structural, Clone, Copy)]
pub enum BrainfuckOperations {
    MovePointerRight,
    MovePointerLeft,
    IncrementByOneCurrentCell,
    DecrementByOneCurrentCell,
    InputCommand,
    OutputCommand,
    LoopStart,
    LoopEnd,
}

/// A straight-line node: the instruction and the index of the node that follows it.
#[derive(Debug, PartialEq, Eq, Structural, Clone, Copy)]
pub struct CommandInformation {
    pub operation: BrainfuckOperations,
    pub next_position: usize,
}

/// A resolved loop head: where to go when the current cell is non-zero, and where
/// to go when it is zero.
#[derive(Debug, PartialEq, Eq, Structural, Clone, Copy)]
pub struct LoopInformation {
    pub operation: BrainfuckOperations,
    pub next_position_as_true: usize,
    pub next_position_as_false: usize,
}

/// One element of the flat, jump-resolved program.
#[derive(Debug, PartialEq, Eq, Structural, Clone, Copy)]
pub enum BrainfuckNodeAST {
    Command(CommandInformation),
    Loop(LoopInformation),
    NoOp,
}

/// Why a source text is not a program.
#[derive(Debug, PartialEq, Eq, Structural, Clone, Copy)]
pub enum ParserErrors {
    /// Some loop start is never closed.
    MissingTerminantedLoop,
    /// Some loop end has no loop start before it that is still open.
    MissingOpenLoop,
}

impl ParserErrors {
    /// The error in words.
    pub open spec fn message(self) -> Seq<char> {
        match self {
            ParserErrors::MissingTerminantedLoop =>
                "The source code have more open loop brackets than closing loop brackets."@,
            ParserErrors::MissingOpenLoop =>
                "The source code have more closing loop brackets than open loop brackets."@,
        }
    }

    pub fn to_string(&self) -> (text: String)
        ensures
            text@ == self.message(),
    {
        match self {
            ParserErrors::MissingTerminantedLoop =>
                "The source code have more open loop brackets than closing loop brackets.".to_owned(),
            ParserErrors::MissingOpenLoop =>
                "The source code have more closing loop brackets than open loop brackets.".to_owned(),
        }
    }
}

/// The instruction that a source character stands for, if any.
pub open spec fn operation_of(token: char) -> Option<BrainfuckOperations> {
    if token == '>' {
        Some(BrainfuckOperations::MovePointerRight)
    } else if token == '<' {
        Some(BrainfuckOperations::MovePointerLeft)
    } else if token == '+' {
        Some(BrainfuckOperations::IncrementByOneCurrentCell)
    } else if token == '-' {
        Some(BrainfuckOperations::DecrementByOneCurrentCell)
    } else if token == ',' {
        Some(BrainfuckOperations::InputCommand)
    } else if token == '.' {
        Some(BrainfuckOperations::OutputCommand)
    } else if token == '[' {
        Some(BrainfuckOperations::LoopStart)
    } else if token == ']' {
        Some(BrainfuckOperations::LoopEnd)
    } else {
        None
    }
}

/// The instructions of a source text: its recognised characters, in order.
pub open spec fn instructions(source: Seq<char>) -> Seq<BrainfuckOperations>
    decreases source.len(),
{
    if source.len() == 0 {
        Seq::empty()
    } else {
        match operation_of(source.last()) {
            Some(operation) => instructions(source.drop_last()).push(operation),
            None => instructions(source.drop_last()),
        }
    }
}

/// What one instruction adds to the nesting depth.
pub open spec fn depth_change(operation: BrainfuckOperations) -> int {
    match operation {
        BrainfuckOperations::LoopStart => 1,
        BrainfuckOperations::LoopEnd => -1,
        _ => 0,
    }
}

/// Loop starts minus loop ends among the first `k` instructions.
pub open spec fn depth(ops: Seq<BrainfuckOperations>, k: int) -> int
    decreases k,
{
    if k <= 0 {
        0
    } else {
        depth(ops, k - 1) + depth_change(ops[k - 1])
    }
}

/// Some loop end comes while no loop is open.
pub open spec fn closes_unopened(ops: Seq<BrainfuckOperations>) -> bool {
    exists|k: int| 0 <= k <= ops.len() && #[trigger] depth(ops, k) < 0
}

/// Every loop end closes an open loop, and no loop stays open.
pub open spec fn balanced(ops: Seq<BrainfuckOperations>) -> bool {
    !closes_unopened(ops) && depth(ops, ops.len() as int) == 0
}

/// The loop that starts at `open` ends at `close`: the depth is back to what it was
/// before `open` for the first time right after `close`.
pub open spec fn matches_loop(ops: Seq<BrainfuckOperations>, open: int, close: int) -> bool {
    &&& 0 <= open < close < ops.len()
    &&& ops[open] == BrainfuckOperations::LoopStart
    &&& ops[close] == BrainfuckOperations::LoopEnd
    &&& depth(ops, close + 1) == depth(ops, open)
    &&& forall|k: int| open < k <= close ==> #[trigger] depth(ops, k) > depth(ops, open)
}

/// A straight-line node that falls through to the next index.
pub open spec fn plain_node(operation: BrainfuckOperations, at: int) -> BrainfuckNodeAST {
    BrainfuckNodeAST::Command(CommandInformation { operation, next_position: (at + 1) as usize })
}

/// The node of a loop start at `open` whose loop end is at `close`.
pub open spec fn loop_node(open: int, close: int) -> BrainfuckNodeAST {
    BrainfuckNodeAST::Loop(
        LoopInformation {
            operation: BrainfuckOperations::LoopStart,
            next_position_as_true: (open + 1) as usize,
            next_position_as_false: (close + 1) as usize,
        },
    )
}

/// The node of a loop end whose loop start is at `open`.
pub open spec fn back_node(open: int) -> BrainfuckNodeAST {
    BrainfuckNodeAST::Command(
        CommandInformation { operation: BrainfuckOperations::LoopEnd, next_position: open as usize },
    )
}

/// The node at `i` is the resolved form of the instruction at `i`.
pub open spec fn node_resolved(
    ops: Seq<BrainfuckOperations>,
    nodes: Seq<BrainfuckNodeAST>,
    i: int,
) -> bool {
    match ops[i] {
        BrainfuckOperations::LoopStart => exists|close: int|
            #[trigger] matches_loop(ops, i, close) && nodes[i] == loop_node(i, close),
        BrainfuckOperations::LoopEnd => exists|open: int|
            #[trigger] matches_loop(ops, open, i) && nodes[i] == back_node(open),
        operation => nodes[i] == plain_node(operation, i),
    }
}

/// `nodes` is the jump-resolved program of the instruction sequence `ops`: one node
/// per instruction, straight-line nodes falling through, each loop start knowing its
/// body and its exit, each loop end going back to its loop start.
pub open spec fn resolved(ops: Seq<BrainfuckOperations>, nodes: Seq<BrainfuckNodeAST>) -> bool {
    &&& nodes.len() == ops.len()
    &&& ops.len() <= usize::MAX
    &&& forall|i: int| 0 <= i < ops.len() ==> #[trigger] node_resolved(ops, nodes, i)
}

/// Classifies one source character.
pub fn map_char_to_brainfuck_operation(token: char) -> (r: Option<BrainfuckOperations>)
    ensures
        r == operation_of(token),
{
    match token {
        '>' => Some(BrainfuckOperations::MovePointerRight),
        '<' => Some(BrainfuckOperations::MovePointerLeft),
        '+' => Some(BrainfuckOperations::IncrementByOneCurrentCell),
        '-' => Some(BrainfuckOperations::DecrementByOneCurrentCell),
        ',' => Some(BrainfuckOperations::InputCommand),
        '.' => Some(BrainfuckOperations::OutputCommand),
        '[' => Some(BrainfuckOperations::LoopStart),
        ']' => Some(BrainfuckOperations::LoopEnd),
        _ => None,
    }
}

/// Builds a program node by node.
pub struct BrainfuckASTBuilder {
    pub ast: Vec<BrainfuckNodeAST>,
}

/// `count` straight-line nodes of one instruction, the first at index `from`, each
/// falling through to the next index.
pub open spec fn plain_run(operation: BrainfuckOperations, from: int, count: nat) -> Seq<
    BrainfuckNodeAST,
> {
    Seq::new(count, |i: int| plain_node(operation, from + i))
}

impl BrainfuckASTBuilder {
    pub fn new() -> (builder: Self)
        ensures
            builder.ast@ == Seq::<BrainfuckNodeAST>::empty(),
    {
        BrainfuckASTBuilder { ast: Vec::new() }
    }

    /// Appends a straight-line node.
    pub fn add_command_node(
        &mut self,
        operation: BrainfuckOperations,
        next_position: usize,
    ) -> (builder: &mut Self)
        ensures
            builder.ast@ == old(self).ast@.push(
                BrainfuckNodeAST::Command(CommandInformation { operation, next_position }),
            ),
            *final(self) == *final(builder),
    {
        self.ast.push(BrainfuckNodeAST::Command(CommandInformation { operation, next_position }));
        self
    }

    /// Appends `n_times` straight-line nodes of one instruction, each falling
    /// through to the index after its own.
    pub fn add_n_command_nodes(&mut self, operation: BrainfuckOperations, n_times: usize) -> (builder:
        &mut Self)
        requires
            old(self).ast@.len() + n_times <= usize::MAX,
        ensures
            builder.ast@ == old(self).ast@ + plain_run(
                operation,
                old(self).ast@.len() as int,
                n_times as nat,
            ),
            *final(self) == *final(builder),
    {
        let mut added: usize = 0;
        while added < n_times
            invariant
                added <= n_times,
                old(self).ast@.len() + n_times <= usize::MAX,
                self.ast@ == old(self).ast@ + plain_run(
                    operation,
                    old(self).ast@.len() as int,
                    added as nat,
                ),
            decreases n_times - added,
        {
            let next_position = self.ast.len() + 1;
            self.ast.push(
                BrainfuckNodeAST::Command(CommandInformation { operation, next_position }),
            );
            added = added + 1;
            assert(self.ast@ =~= old(self).ast@ + plain_run(
                operation,
                old(self).ast@.len() as int,
                added as nat,
            ));
        }
        self
    }

    /// Appends a loop node.
    pub fn add_loop_node(
        &mut self,
        operation: BrainfuckOperations,
        next_position_as_true: usize,
        next_position_as_false: usize,
    ) -> (builder: &mut Self)
        ensures
            builder.ast@ == old(self).ast@.push(
                BrainfuckNodeAST::Loop(
                    LoopInformation { operation, next_position_as_true, next_position_as_false },
                ),
            ),
            *final(self) == *final(builder),
    {
        self.ast.push(
            BrainfuckNodeAST::Loop(
                LoopInformation { operation, next_position_as_true, next_position_as_false },
            ),
        );
        self
    }

    /// The program built so far.
    pub fn build(&self) -> (program: &Vec<BrainfuckNodeAST>)
        ensures
            program@ == self.ast@,
    {
        &self.ast
    }
}

/// The depth after `k` instructions depends on those `k` instructions only.
pub proof fn lemma_depth_prefix(
    a: Seq<BrainfuckOperations>,
    b: Seq<BrainfuckOperations>,
    k: int,
)
    requires
        a.is_prefix_of(b),
        k <= a.len(),
    ensures
        depth(a, k) == depth(b, k),
    decreases k,
{
    if k > 0 {
        lemma_depth_prefix(a, b, k - 1);
    }
}

/// The instructions of the first `i` characters are the first instructions of the
/// whole text.
pub proof fn lemma_instructions_prefix(source: Seq<char>, i: int)
    requires
        0 <= i <= source.len(),
    ensures
        instructions(source.take(i)).is_prefix_of(instructions(source)),
    decreases source.len(),
{
    if i == source.len() {
        assert(source.take(i) =~= source);
    } else {
        assert(source.drop_last().take(i) =~= source.take(i));
        lemma_instructions_prefix(source.drop_last(), i);
    }
}

/// The instructions of one more character.
proof fn lemma_instructions_step(source: Seq<char>, i: int)
    requires
        0 <= i < source.len(),
    ensures
        instructions(source.take(i + 1)) == match operation_of(source[i]) {
            Some(operation) => instructions(source.take(i)).push(operation),
            None => instructions(source.take(i)),
        },
{
    assert(source.take(i + 1).drop_last() =~= source.take(i));
}

/// A text has at most as many instructions as characters.
pub proof fn lemma_instructions_len(source: Seq<char>)
    ensures
        instructions(source).len() <= source.len(),
    decreases source.len(),
{
    if source.len() > 0 {
        lemma_instructions_len(source.drop_last());
    }
}

/// The depth after each of the first instructions is untouched by one more
/// instruction, which adds its own change at the end.
proof fn lemma_depth_push(ops: Seq<BrainfuckOperations>, operation: BrainfuckOperations)
    ensures
        forall|k: int| k <= ops.len() ==> #[trigger] depth(ops.push(operation), k) == depth(ops, k),
        depth(ops.push(operation), ops.len() as int + 1) == depth(ops, ops.len() as int) + depth_change(
            operation,
        ),
{
    assert forall|k: int| k <= ops.len() implies #[trigger] depth(ops.push(operation), k) == depth(
        ops,
        k,
    ) by {
        lemma_depth_prefix(ops, ops.push(operation), k);
    }
    assert(depth(ops.push(operation), ops.len() as int) == depth(ops, ops.len() as int));
    assert(ops.push(operation)[ops.len() as int] == operation);
}

/// A matched pair stays matched when an instruction is added.
proof fn lemma_matches_push(
    ops: Seq<BrainfuckOperations>,
    operation: BrainfuckOperations,
    open: int,
    close: int,
)
    requires
        matches_loop(ops, open, close),
    ensures
        matches_loop(ops.push(operation), open, close),
{
    lemma_depth_push(ops, operation);
}

/// The loop start at `p` is the `d`-th of those still open: nothing after it has
/// brought the depth back to `d`.
spec fn pending(
    ops: Seq<BrainfuckOperations>,
    partner: Seq<int>,
    p: int,
    d: int,
) -> bool {
    &&& 0 <= p < ops.len()
    &&& ops[p] == BrainfuckOperations::LoopStart
    &&& depth(ops, p) == d
    &&& forall|k: int| p < k <= ops.len() ==> #[trigger] depth(ops, k) > d
    &&& partner[p] == -1 - d
}

/// What the scan knows of the node at `p`. `partner[p]` is the index of the other
/// end of the loop, or `-1 - d` for the `d`-th loop start that is still open.
spec fn node_scanned(
    ops: Seq<BrainfuckOperations>,
    nodes: Seq<BrainfuckNodeAST>,
    stack: Seq<usize>,
    partner: Seq<int>,
    p: int,
) -> bool {
    match ops[p] {
        BrainfuckOperations::LoopStart => if partner[p] >= 0 {
            matches_loop(ops, p, partner[p]) && nodes[p] == loop_node(p, partner[p])
        } else {
            &&& 0 <= -1 - partner[p] < stack.len()
            &&& stack[-1 - partner[p]] == p
            &&& nodes[p] == plain_node(BrainfuckOperations::LoopStart, p)
        },
        BrainfuckOperations::LoopEnd => matches_loop(ops, partner[p], p) && nodes[p] == back_node(
            partner[p],
        ),
        operation => nodes[p] == plain_node(operation, p),
    }
}

/// The state of the scan after the instructions `ops`: no loop end came too early,
/// `stack` holds the loop starts that are still open, innermost last, and every
/// other node is resolved.
spec fn scanned(
    ops: Seq<BrainfuckOperations>,
    nodes: Seq<BrainfuckNodeAST>,
    stack: Seq<usize>,
    partner: Seq<int>,
) -> bool {
    &&& nodes.len() == ops.len()
    &&& partner.len() == ops.len()
    &&& forall|k: int| 0 <= k <= ops.len() ==> #[trigger] depth(ops, k) >= 0
    &&& stack.len() == depth(ops, ops.len() as int)
    &&& forall|d: int| 0 <= d < stack.len() ==> pending(ops, partner, #[trigger] stack[d] as int, d)
    &&& forall|p: int| 0 <= p < ops.len() ==> #[trigger] node_scanned(ops, nodes, stack, partner, p)
}

/// Scanning a straight-line instruction appends its node and leaves the open loops
/// as they are.
proof fn lemma_scan_plain(
    ops: Seq<BrainfuckOperations>,
    nodes: Seq<BrainfuckNodeAST>,
    stack: Seq<usize>,
    partner: Seq<int>,
    operation: BrainfuckOperations,
)
    requires
        scanned(ops, nodes, stack, partner),
        operation != BrainfuckOperations::LoopStart,
        operation != BrainfuckOperations::LoopEnd,
    ensures
        scanned(
            ops.push(operation),
            nodes.push(plain_node(operation, ops.len() as int)),
            stack,
            partner.push(0),
        ),
{
    let ops2 = ops.push(operation);
    let nodes2 = nodes.push(plain_node(operation, ops.len() as int));
    let partner2 = partner.push(0);
    lemma_depth_push(ops, operation);
    assert forall|d: int| 0 <= d < stack.len() implies pending(
        ops2,
        partner2,
        #[trigger] stack[d] as int,
        d,
    ) by {
        assert(pending(ops, partner, stack[d] as int, d));
    }
    assert forall|p: int| 0 <= p < ops2.len() implies #[trigger] node_scanned(
        ops2,
        nodes2,
        stack,
        partner2,
        p,
    ) by {
        if p < ops.len() {
            assert(node_scanned(ops, nodes, stack, partner, p));
            if ops[p] == BrainfuckOperations::LoopStart && partner[p] >= 0 {
                lemma_matches_push(ops, operation, p, partner[p]);
            }
            if ops[p] == BrainfuckOperations::LoopEnd {
                lemma_matches_push(ops, operation, partner[p], p);
            }
        }
    }
}

/// Scanning a loop start appends its placeholder and opens one more loop.
proof fn lemma_scan_open(
    ops: Seq<BrainfuckOperations>,
    nodes: Seq<BrainfuckNodeAST>,
    stack: Seq<usize>,
    partner: Seq<int>,
)
    requires
        scanned(ops, nodes, stack, partner),
        ops.len() <= usize::MAX,
    ensures
        scanned(
            ops.push(BrainfuckOperations::LoopStart),
            nodes.push(plain_node(BrainfuckOperations::LoopStart, ops.len() as int)),
            stack.push(ops.len() as usize),
            partner.push(-1 - stack.len()),
        ),
{
    let operation = BrainfuckOperations::LoopStart;
    let ops2 = ops.push(operation);
    let nodes2 = nodes.push(plain_node(operation, ops.len() as int));
    let stack2 = stack.push(ops.len() as usize);
    let partner2 = partner.push(-1 - stack.len());
    lemma_depth_push(ops, operation);
    assert forall|d: int| 0 <= d < stack2.len() implies pending(
        ops2,
        partner2,
        #[trigger] stack2[d] as int,
        d,
    ) by {
        if d < stack.len() {
            assert(pending(ops, partner, stack[d] as int, d));
        }
    }
    assert forall|p: int| 0 <= p < ops2.len() implies #[trigger] node_scanned(
        ops2,
        nodes2,
        stack2,
        partner2,
        p,
    ) by {
        if p < ops.len() {
            assert(node_scanned(ops, nodes, stack, partner, p));
            if ops[p] == BrainfuckOperations::LoopStart && partner[p] >= 0 {
                lemma_matches_push(ops, operation, p, partner[p]);
            }
            if ops[p] == BrainfuckOperations::LoopEnd {
                lemma_matches_push(ops, operation, partner[p], p);
            }
        }
    }
}

/// Scanning a loop end while a loop is open closes the innermost open loop: the
/// loop end goes back to it, and its placeholder becomes the resolved loop node.
proof fn lemma_scan_close(
    ops: Seq<BrainfuckOperations>,
    nodes: Seq<BrainfuckNodeAST>,
    stack: Seq<usize>,
    partner: Seq<int>,
)
    requires
        scanned(ops, nodes, stack, partner),
        stack.len() > 0,
    ensures
        scanned(
            ops.push(BrainfuckOperations::LoopEnd),
            nodes.push(back_node(stack.last() as int)).update(
                stack.last() as int,
                loop_node(stack.last() as int, ops.len() as int),
            ),
            stack.drop_last(),
            partner.push(stack.last() as int).update(stack.last() as int, ops.len() as int),
        ),
{
    let operation = BrainfuckOperations::LoopEnd;
    let open = stack.last() as int;
    let top = stack.len() - 1;
    let ops2 = ops.push(operation);
    let nodes2 = nodes.push(back_node(open)).update(open, loop_node(open, ops.len() as int));
    let stack2 = stack.drop_last();
    let partner2 = partner.push(open).update(open, ops.len() as int);
    lemma_depth_push(ops, operation);
    assert(pending(ops, partner, stack[top] as int, top));
    assert(matches_loop(ops2, open, ops.len() as int));
    assert forall|d: int| 0 <= d < stack2.len() implies pending(
        ops2,
        partner2,
        #[trigger] stack2[d] as int,
        d,
    ) by {
        assert(pending(ops, partner, stack[d] as int, d));
    }
    assert forall|p: int| 0 <= p < ops2.len() implies #[trigger] node_scanned(
        ops2,
        nodes2,
        stack2,
        partner2,
        p,
    ) by {
        if p < ops.len() && p != open {
            assert(node_scanned(ops, nodes, stack, partner, p));
            if ops[p] == BrainfuckOperations::LoopStart && partner[p] >= 0 {
                lemma_matches_push(ops, operation, p, partner[p]);
            }
            if ops[p] == BrainfuckOperations::LoopEnd {
                lemma_matches_push(ops, operation, partner[p], p);
            }
        }
    }
}

/// Once the scan has seen every instruction and no loop is open, the nodes are the
/// resolved program.
proof fn lemma_scan_done(
    ops: Seq<BrainfuckOperations>,
    nodes: Seq<BrainfuckNodeAST>,
    stack: Seq<usize>,
    partner: Seq<int>,
)
    requires
        scanned(ops, nodes, stack, partner),
        stack.len() == 0,
        ops.len() <= usize::MAX,
    ensures
        balanced(ops),
        resolved(ops, nodes),
{
    assert forall|i: int| 0 <= i < ops.len() implies #[trigger] node_resolved(ops, nodes, i) by {
        assert(node_scanned(ops, nodes, stack, partner, i));
        if ops[i] == BrainfuckOperations::LoopStart {
            assert(matches_loop(ops, i, partner[i]));
        }
        if ops[i] == BrainfuckOperations::LoopEnd {
            assert(matches_loop(ops, partner[i], i));
        }
    }
}


/// What parsing a text with the instructions `ops` gives: the resolved program
/// where the loops are balanced, else the first thing that is wrong with them.
pub open spec fn parsed(
    ops: Seq<BrainfuckOperations>,
    r: Result<Vec<BrainfuckNodeAST>, ParserErrors>,
) -> bool {
    match r {
        Ok(nodes) => balanced(ops) && resolved(ops, nodes@),
        Err(ParserErrors::MissingOpenLoop) => closes_unopened(ops),
        Err(ParserErrors::MissingTerminantedLoop) => !closes_unopened(ops) && depth(
            ops,
            ops.len() as int,
        ) > 0,
    }
}

/// Turns a source text into its flat program. Characters that are no instruction
/// are skipped. Each loop start is resolved to the index after its matching loop
/// end, each loop end to the index of its loop start. A loop end with no open loop
/// ends the scan at once; a loop that is still open at the end is reported then.
pub fn from_source_to_node_ast(source_code: &str) -> (r: Result<
    Vec<BrainfuckNodeAST>,
    ParserErrors,
>)
    ensures
        parsed(instructions(source_code@), r),
{
    broadcast use vstd::string::group_string_axioms;

    // The characters are counted first: their number fits a `usize`, and with it
    // every index into the program.
    let characters = source_code.unicode_len();
    let mut loop_start_position: Vec<usize> = Vec::new();
    let mut program_ast_vec: Vec<BrainfuckNodeAST> = Vec::new();
    let mut iter_chars = source_code.chars();
    let ghost mut consumed: int = 0;
    let ghost mut partner: Seq<int> = Seq::empty();
    proof {
        assert(source_code@.take(0) =~= Seq::<char>::empty());
        assert(source_code@.skip(0) =~= source_code@);
    }
    loop
        invariant
            0 <= consumed <= source_code@.len() <= usize::MAX,
            iter_chars.obeys_prophetic_iter_laws(),
            iter_chars.remaining() == source_code@.skip(consumed),
            program_ast_vec@.len() <= consumed,
            scanned(
                instructions(source_code@.take(consumed)),
                program_ast_vec@,
                loop_start_position@,
                partner,
            ),
        ensures
            consumed == source_code@.len(),
            program_ast_vec@.len() <= usize::MAX,
            scanned(
                instructions(source_code@.take(consumed)),
                program_ast_vec@,
                loop_start_position@,
                partner,
            ),
        decreases source_code@.len() - consumed,
    {
        let ghost ops = instructions(source_code@.take(consumed));
        let ghost open_loops = loop_start_position@;
        let token = match iter_chars.next() {
            Some(token) => token,
            None => {
                break ;
            },
        };
        proof {
            assert(token == source_code@[consumed]);
            assert(source_code@.skip(consumed).drop_first() =~= source_code@.skip(consumed + 1));
            lemma_instructions_step(source_code@, consumed);
        }
        match map_char_to_brainfuck_operation(token) {
            Some(BrainfuckOperations::LoopStart) => {
                proof {
                    lemma_scan_open(ops, program_ast_vec@, loop_start_position@, partner);
                    partner = partner.push(-1 - loop_start_position@.len());
                }
                loop_start_position.push(program_ast_vec.len());
                program_ast_vec.push(
                    BrainfuckNodeAST::Command(
                        CommandInformation {
                            operation: BrainfuckOperations::LoopStart,
                            next_position: program_ast_vec.len() + 1,
                        },
                    ),
                );
            },
            Some(BrainfuckOperations::LoopEnd) => match loop_start_position.pop() {
                Some(last_position_recorded) => {
                    proof {
                        lemma_scan_close(ops, program_ast_vec@, open_loops, partner);
                        assert(open_loops.drop_last() =~= loop_start_position@);
                        partner = partner.push(last_position_recorded as int).update(
                            last_position_recorded as int,
                            ops.len() as int,
                        );
                    }
                    program_ast_vec.push(
                        BrainfuckNodeAST::Command(
                            CommandInformation {
                                operation: BrainfuckOperations::LoopEnd,
                                next_position: last_position_recorded,
                            },
                        ),
                    );
                    let exit = program_ast_vec.len();
                    program_ast_vec.set(
                        last_position_recorded,
                        BrainfuckNodeAST::Loop(
                            LoopInformation {
                                operation: BrainfuckOperations::LoopStart,
                                next_position_as_true: last_position_recorded + 1,
                                next_position_as_false: exit,
                            },
                        ),
                    );
                },
                None => {
                    proof {
                        let all = instructions(source_code@);
                        let seen = ops.push(BrainfuckOperations::LoopEnd);
                        lemma_depth_push(ops, BrainfuckOperations::LoopEnd);
                        lemma_instructions_prefix(source_code@, consumed + 1);
                        lemma_depth_prefix(seen, all, seen.len() as int);
                        assert(depth(all, seen.len() as int) < 0);
                    }
                    return Err(ParserErrors::MissingOpenLoop);
                },
            },
            Some(value) => {
                proof {
                    lemma_scan_plain(ops, program_ast_vec@, loop_start_position@, partner, value);
                    partner = partner.push(0);
                }
                program_ast_vec.push(
                    BrainfuckNodeAST::Command(
                        CommandInformation {
                            operation: value,
                            next_position: program_ast_vec.len() + 1,
                        },
                    ),
                );
            },
            None => (),
        }
        proof {
            consumed = consumed + 1;
        }
    }
    proof {
        assert(source_code@.take(consumed) =~= source_code@);
    }
    if loop_start_position.len() > 0 {
        return Err(ParserErrors::MissingTerminantedLoop);
    }
    proof {
        lemma_scan_done(
            instructions(source_code@),
            program_ast_vec@,
            loop_start_position@,
            partner,
        );
    }
    Ok(program_ast_vec)
}


/// A loop start has one matching loop end, and a loop end one matching loop start.
pub proof fn lemma_match_is_unique(
    ops: Seq<BrainfuckOperations>,
    open: int,
    close: int,
    other_open: int,
    other_close: int,
)
    requires
        matches_loop(ops, open, close),
        matches_loop(ops, other_open, other_close),
    ensures
        open == other_open <==> close == other_close,
{
    if open == other_open {
        if close < other_close {
            assert(depth(ops, close + 1) > depth(ops, open));
        }
        if other_close < close {
            assert(depth(ops, other_close + 1) > depth(ops, open));
        }
    }
    if close == other_close {
        if open < other_open {
            assert(depth(ops, other_open) > depth(ops, open));
        }
        if other_open < open {
            assert(depth(ops, open) > depth(ops, other_open));
        }
    }
}

/// An instruction sequence has one resolved program.
pub proof fn lemma_resolved_is_unique(
    ops: Seq<BrainfuckOperations>,
    a: Seq<BrainfuckNodeAST>,
    b: Seq<BrainfuckNodeAST>,
)
    requires
        resolved(ops, a),
        resolved(ops, b),
    ensures
        a == b,
{
    assert forall|i: int| 0 <= i < ops.len() implies a[i] == b[i] by {
        assert(node_resolved(ops, a, i));
        assert(node_resolved(ops, b, i));
        if ops[i] == BrainfuckOperations::LoopStart {
            let close_a = choose|close: int| #[trigger]
                matches_loop(ops, i, close) && a[i] == loop_node(i, close);
            let close_b = choose|close: int| #[trigger]
                matches_loop(ops, i, close) && b[i] == loop_node(i, close);
            lemma_match_is_unique(ops, i, close_a, i, close_b);
        } else if ops[i] == BrainfuckOperations::LoopEnd {
            let open_a = choose|open: int| #[trigger]
                matches_loop(ops, open, i) && a[i] == back_node(open);
            let open_b = choose|open: int| #[trigger]
                matches_loop(ops, open, i) && b[i] == back_node(open);
            lemma_match_is_unique(ops, open_a, i, open_b, i);
        }
    }
    assert(a =~= b);
}

/// Every jump of a resolved program goes to a node of the program or to its end,
/// and the exit of a loop lies behind its body.
pub proof fn lemma_resolved_jumps_stay_inside(
    ops: Seq<BrainfuckOperations>,
    nodes: Seq<BrainfuckNodeAST>,
    i: int,
)
    requires
        resolved(ops, nodes),
        0 <= i < nodes.len(),
    ensures
        match nodes[i] {
            BrainfuckNodeAST::Command(command) => command.next_position <= nodes.len(),
            BrainfuckNodeAST::Loop(loop_node) => i < loop_node.next_position_as_true
                < loop_node.next_position_as_false <= nodes.len(),
            BrainfuckNodeAST::NoOp => false,
        },
{
    assert(node_resolved(ops, nodes, i));
}

/// Loop nodes among the first `k` nodes.
pub open spec fn loop_start_nodes(nodes: Seq<BrainfuckNodeAST>, k: int) -> int
    decreases k,
{
    if k <= 0 {
        0
    } else {
        loop_start_nodes(nodes, k - 1) + if nodes[k - 1] is Loop {
            1int
        } else {
            0int
        }
    }
}

/// Loop-end nodes among the first `k` nodes.
pub open spec fn loop_end_nodes(nodes: Seq<BrainfuckNodeAST>, k: int) -> int
    decreases k,
{
    if k <= 0 {
        0
    } else {
        loop_end_nodes(nodes, k - 1) + if nodes[k - 1] matches BrainfuckNodeAST::Command(command)
            && command.operation == BrainfuckOperations::LoopEnd {
            1int
        } else {
            0int
        }
    }
}

/// In a resolved program the loop nodes lead the loop-end nodes by the depth.
proof fn lemma_loop_nodes_follow_depth(
    ops: Seq<BrainfuckOperations>,
    nodes: Seq<BrainfuckNodeAST>,
    k: int,
)
    requires
        resolved(ops, nodes),
        0 <= k <= ops.len(),
    ensures
        loop_start_nodes(nodes, k) - loop_end_nodes(nodes, k) == depth(ops, k),
    decreases k,
{
    if k > 0 {
        lemma_loop_nodes_follow_depth(ops, nodes, k - 1);
        assert(node_resolved(ops, nodes, k - 1));
    }
}

/// A source whose loops are balanced parses, and its program has as many loop
/// nodes as loop-end nodes.
pub proof fn lemma_balanced_source_parses(
    source: Seq<char>,
    r: Result<Vec<BrainfuckNodeAST>, ParserErrors>,
)
    requires
        parsed(instructions(source), r),
        balanced(instructions(source)),
    ensures
        r is Ok,
        loop_start_nodes(r->Ok_0@, r->Ok_0@.len() as int) == loop_end_nodes(
            r->Ok_0@,
            r->Ok_0@.len() as int,
        ),
{
    let ops = instructions(source);
    lemma_loop_nodes_follow_depth(ops, r->Ok_0@, ops.len() as int);
}

/// A source in which some loop end comes while no loop is open is refused for
/// that, whatever else it holds.
pub proof fn lemma_early_loop_end_is_refused(
    source: Seq<char>,
    r: Result<Vec<BrainfuckNodeAST>, ParserErrors>,
)
    requires
        parsed(instructions(source), r),
        closes_unopened(instructions(source)),
    ensures
        r == Err::<Vec<BrainfuckNodeAST>, ParserErrors>(ParserErrors::MissingOpenLoop),
{
}

/// A source in which no loop end comes early and some loop stays open is refused
/// for the open loop.
pub proof fn lemma_open_loop_is_refused(
    source: Seq<char>,
    r: Result<Vec<BrainfuckNodeAST>, ParserErrors>,
)
    requires
        parsed(instructions(source), r),
        !closes_unopened(instructions(source)),
        depth(instructions(source), instructions(source).len() as int) > 0,
    ensures
        r == Err::<Vec<BrainfuckNodeAST>, ParserErrors>(ParserErrors::MissingTerminantedLoop),
{
}

/// The depth within the second of two instruction sequences put together is the
/// depth at the end of the first and the depth within the second alone.
pub proof fn lemma_depth_concat(a: Seq<BrainfuckOperations>, b: Seq<BrainfuckOperations>, k: int)
    requires
        0 <= k <= b.len(),
    ensures
        depth(a + b, a.len() as int + k) == depth(a, a.len() as int) + depth(b, k),
    decreases k,
{
    if k == 0 {
        lemma_depth_prefix(a, a + b, a.len() as int);
    } else {
        lemma_depth_concat(a, b, k - 1);
        assert((a + b)[a.len() + k - 1] == b[k - 1]);
    }
}

/// A source with one loop start that is never closed, between two texts whose
/// loops are balanced, is refused for the open loop.
pub proof fn lemma_one_open_loop_is_refused(
    before: Seq<char>,
    after: Seq<char>,
    r: Result<Vec<BrainfuckNodeAST>, ParserErrors>,
)
    requires
        balanced(instructions(before)),
        balanced(instructions(after)),
        parsed(instructions(before + seq!['['] + after), r),
    ensures
        r == Err::<Vec<BrainfuckNodeAST>, ParserErrors>(ParserErrors::MissingTerminantedLoop),
{
    let first = instructions(before);
    let open = seq![BrainfuckOperations::LoopStart];
    let rest = instructions(after);
    let ops = instructions(before + seq!['['] + after);
    lemma_instructions_concat(before + seq!['['], after);
    lemma_instructions_concat(before, seq!['[']);
    lemma_instructions_of_one('[');
    assert(ops == first + open + rest);
    lemma_depth_concat(first, open, 1);
    assert(depth(open, 1) == 1) by {
        assert(depth(open, 0) == 0);
    }
    assert forall|k: int| 0 <= k <= ops.len() implies #[trigger] depth(ops, k) >= 0 by {
        if k <= first.len() {
            lemma_depth_prefix(first, ops, k);
        } else {
            lemma_depth_concat(first + open, rest, k - first.len() - 1);
        }
    }
    lemma_depth_concat(first + open, rest, rest.len() as int);
}

/// A source with a loop end after a text whose loops are balanced is refused for
/// the loop end, whatever follows it.
pub proof fn lemma_loop_end_without_open_loop_is_refused(
    before: Seq<char>,
    after: Seq<char>,
    r: Result<Vec<BrainfuckNodeAST>, ParserErrors>,
)
    requires
        balanced(instructions(before)),
        parsed(instructions(before + seq![']'] + after), r),
    ensures
        r == Err::<Vec<BrainfuckNodeAST>, ParserErrors>(ParserErrors::MissingOpenLoop),
{
    let first = instructions(before);
    let close = seq![BrainfuckOperations::LoopEnd];
    let ops = instructions(before + seq![']'] + after);
    lemma_instructions_concat(before + seq![']'], after);
    lemma_instructions_concat(before, seq![']']);
    lemma_instructions_of_one(']');
    assert(ops == first + close + instructions(after));
    lemma_depth_concat(first, close, 1);
    assert(depth(close, 1) == -1) by {
        assert(depth(close, 0) == 0);
    }
    lemma_depth_prefix(first + close, ops, first.len() as int + 1);
    assert(depth(ops, first.len() as int + 1) < 0);
}

/// The instructions of a text of one character.
proof fn lemma_instructions_of_one(token: char)
    ensures
        instructions(seq![token]) == match operation_of(token) {
            Some(operation) => seq![operation],
            None => Seq::empty(),
        },
{
    assert(seq![token].drop_last() =~= Seq::<char>::empty());
    assert(seq![token].last() == token);
    assert(instructions(Seq::<char>::empty()) =~= Seq::<BrainfuckOperations>::empty());
    match operation_of(token) {
        Some(operation) => {
            assert(Seq::<BrainfuckOperations>::empty().push(operation) =~= seq![operation]);
        },
        None => {},
    }
}

/// The instructions of two texts put together are those of the first followed by
/// those of the second.
pub proof fn lemma_instructions_concat(a: Seq<char>, b: Seq<char>)
    ensures
        instructions(a + b) == instructions(a) + instructions(b),
    decreases b.len(),
{
    if b.len() == 0 {
        assert(a + b =~= a);
        assert(instructions(a) + instructions(b) =~= instructions(a));
    } else {
        assert((a + b).drop_last() =~= a + b.drop_last());
        assert((a + b).last() == b.last());
        lemma_instructions_concat(a, b.drop_last());
        match operation_of(b.last()) {
            Some(operation) => {
                assert((instructions(a) + instructions(b.drop_last())).push(operation)
                    =~= instructions(a) + instructions(b.drop_last()).push(operation));
            },
            None => {},
        }
    }
}

/// A character that is no instruction gives no node: with it or without it, at any
/// place, a text has the same instructions.
pub proof fn lemma_other_character_is_skipped(before: Seq<char>, token: char, after: Seq<char>)
    requires
        operation_of(token) is None,
    ensures
        instructions(before + seq![token] + after) == instructions(before + after),
{
    lemma_instructions_concat(before + seq![token], after);
    lemma_instructions_concat(before, seq![token]);
    lemma_instructions_concat(before, after);
    lemma_instructions_of_one(token);
    assert(instructions(before) + Seq::<BrainfuckOperations>::empty() =~= instructions(before));
}

/// A text without any instruction parses to the program of no nodes.
pub proof fn lemma_text_without_instructions_is_empty_program(
    source: Seq<char>,
    r: Result<Vec<BrainfuckNodeAST>, ParserErrors>,
)
    requires
        parsed(instructions(source), r),
        forall|i: int| 0 <= i < source.len() ==> operation_of(#[trigger] source[i]) is None,
    ensures
        r is Ok,
        r->Ok_0@.len() == 0,
{
    lemma_no_instruction_in_noise(source);
    let ops = instructions(source);
    assert forall|k: int| 0 <= k <= ops.len() implies #[trigger] depth(ops, k) >= 0 by {}
}

/// A text without any instruction has no instructions.
proof fn lemma_no_instruction_in_noise(source: Seq<char>)
    requires
        forall|i: int| 0 <= i < source.len() ==> operation_of(#[trigger] source[i]) is None,
    ensures
        instructions(source).len() == 0,
    decreases source.len(),
{
    if source.len() > 0 {
        assert forall|i: int| 0 <= i < source.drop_last().len() implies operation_of(
            #[trigger] source.drop_last()[i],
        ) is None by {
            assert(source.drop_last()[i] == source[i]);
        }
        lemma_no_instruction_in_noise(source.drop_last());
        assert(source.last() == source[source.len() - 1]);
    }
}

} // verus!
