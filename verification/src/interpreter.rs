use crate::io::{
    ascii_char, decrement_cell, increment_cell, replaced_by, InputError, InputValue, MemoryErrors,
    MemoryTape, OutputValue, ProgramValue,
};
use crate::parser::{
    instructions, node_resolved, parsed, resolved, BrainfuckNodeAST, BrainfuckOperations,
    CommandInformation, LoopInformation,
};
use vstd::prelude::*;

verus! {

/// The largest instruction limit that the command line takes.
pub const MAX_LIMIT_READ_INSTRUCTIONS: usize = 100_000;

/// The instruction limit of `InterpreterConfig::default`.
pub const DEFAULT_LIMIT_READ_INSTRUCTIONS: usize = 60_000;

/// Why a run stopped before the end of its program.
#[derive(Debug, PartialEq, Eq, Structural, Clone, Copy)]
pub enum InterpreterErrors {
    /// No program is loaded, or the loaded program has no node.
    EmptyAST,
    /// A node that no parsed program holds: a loop start that was never resolved, a
    /// loop node that is no loop start, or a node without an instruction.
    UnknownASTNode,
    /// The cursor would have left the tape.
    OutOfRangeMemoryAccess,
    /// The instruction limit was reached with the program still running.
    BudgetExhausted,
    /// A cell at its largest value was incremented in a run that aborts on that.
    CellOverflow,
    /// A cell at zero was decremented in a run that aborts on that.
    CellUnderflow,
}

impl InterpreterErrors {
    /// The error in words.
    pub open spec fn message(self) -> Seq<char> {
        match self {
            InterpreterErrors::EmptyAST => "There is no program to run"@,
            InterpreterErrors::UnknownASTNode => "The program holds a node that cannot be run"@,
            InterpreterErrors::OutOfRangeMemoryAccess =>
                "The program is trying to access to position out of range in the memory"@,
            InterpreterErrors::BudgetExhausted =>
                "Not enought reads to complete the program. Check if the program have infinite loops or increased the amount of reads"@,
            InterpreterErrors::CellOverflow =>
                "The program is trying to increment a cell that holds the largest value"@,
            InterpreterErrors::CellUnderflow =>
                "The program is trying to decrement a cell that holds zero"@,
        }
    }

    pub fn to_string(&self) -> (text: String)
        ensures
            text@ == self.message(),
    {
        match self {
            InterpreterErrors::EmptyAST => "There is no program to run".to_owned(),
            InterpreterErrors::UnknownASTNode =>
                "The program holds a node that cannot be run".to_owned(),
            InterpreterErrors::OutOfRangeMemoryAccess =>
                "The program is trying to access to position out of range in the memory".to_owned(),
            InterpreterErrors::BudgetExhausted =>
                "Not enought reads to complete the program. Check if the program have infinite loops or increased the amount of reads".to_owned(),
            InterpreterErrors::CellOverflow =>
                "The program is trying to increment a cell that holds the largest value".to_owned(),
            InterpreterErrors::CellUnderflow =>
                "The program is trying to decrement a cell that holds zero".to_owned(),
        }
    }
}

/// What a run does when an increment meets the largest value of a cell, or a
/// decrement meets zero.
#[derive(Debug, PartialEq, Eq, Structural, Clone, Copy)]
pub enum CellArithmetic {
    /// The cell stays as it is and the run goes on.
    Ignore,
    /// The run fails.
    Abort,
}

/// How a run is bounded, and what it does at the edges of a cell.
#[derive(Debug, PartialEq, Eq, Structural, Clone, Copy)]
pub struct InterpreterConfig {
    /// The number of instructions that one run may dispatch.
    pub limit_read_instructions: usize,
    pub cell_arithmetic: CellArithmetic,
}

impl InterpreterConfig {
    /// A run of at most `limit_read_instructions` instructions that ignores the
    /// edges of a cell.
    pub fn new(limit_read_instructions: usize) -> (config: Self)
        ensures
            config == (InterpreterConfig {
                limit_read_instructions,
                cell_arithmetic: CellArithmetic::Ignore,
            }),
    {
        InterpreterConfig { limit_read_instructions, cell_arithmetic: CellArithmetic::Ignore }
    }

    /// The same bound with another answer to the edges of a cell.
    pub fn with_cell_arithmetic(self, cell_arithmetic: CellArithmetic) -> (config: Self)
        ensures
            config == (InterpreterConfig { cell_arithmetic, ..self }),
    {
        InterpreterConfig { limit_read_instructions: self.limit_read_instructions, cell_arithmetic }
    }
}

impl Default for InterpreterConfig {
    fn default() -> (config: Self)
        ensures
            config == (InterpreterConfig {
                limit_read_instructions: DEFAULT_LIMIT_READ_INSTRUCTIONS,
                cell_arithmetic: CellArithmetic::Ignore,
            }),
    {
        InterpreterConfig {
            limit_read_instructions: DEFAULT_LIMIT_READ_INSTRUCTIONS,
            cell_arithmetic: CellArithmetic::Ignore,
        }
    }
}

/// What a run can change: the tape, the kind of the instruction dispatched last,
/// the values handed to the display so far, and the answers taken from the input
/// collaborator so far.
pub ghost struct Machine {
    pub cells: Seq<u8>,
    pub cursor: int,
    pub last: Option<BrainfuckOperations>,
    pub printed: Seq<ProgramValue>,
    pub answers: Seq<Result<ProgramValue, InputError>>,
}

/// How a run ended: its result, the machine it left, and the number of
/// instructions it dispatched.
pub ghost struct Outcome {
    pub result: Result<(), InterpreterErrors>,
    pub machine: Machine,
    pub steps: nat,
}

/// A cell after an increment: one more, or unchanged at the largest value.
pub open spec fn incremented(cell: u8) -> u8 {
    if cell < u8::MAX {
        (cell + 1) as u8
    } else {
        cell
    }
}

/// A cell after a decrement: one less, or unchanged at zero.
pub open spec fn decremented(cell: u8) -> u8 {
    if cell > 0 {
        (cell - 1) as u8
    } else {
        cell
    }
}

/// The byte that a cell takes from what the input collaborator gave: the code of a
/// 7-bit character. A failed read and any other character give none.
pub open spec fn received_byte(received: Result<ProgramValue, InputError>) -> Option<u8> {
    match received {
        Ok(value) => value.code(),
        Err(_) => None,
    }
}

/// The node asks the input collaborator for a value.
pub open spec fn asks_input(node: BrainfuckNodeAST) -> bool {
    node matches BrainfuckNodeAST::Command(command) && command.operation
        == BrainfuckOperations::InputCommand
}

/// No node of the program asks the input collaborator for a value.
pub open spec fn asks_no_input(program: Seq<BrainfuckNodeAST>) -> bool {
    forall|i: int| 0 <= i < program.len() ==> !asks_input(#[trigger] program[i])
}

/// The machine with the current cell set to `value` after an instruction of kind
/// `operation`.
pub open spec fn with_cell(m: Machine, value: u8, operation: BrainfuckOperations) -> Machine {
    Machine { cells: m.cells.update(m.cursor, value), last: Some(operation), ..m }
}

/// The machine with the cursor moved by `delta` after an instruction of kind
/// `operation`.
pub open spec fn with_cursor(m: Machine, delta: int, operation: BrainfuckOperations) -> Machine {
    Machine { cursor: m.cursor + delta, last: Some(operation), ..m }
}

/// The answer that an input node acts on: the one it was given, or a failed read
/// where it was given none.
pub open spec fn answer_of(received: Option<Result<ProgramValue, InputError>>) -> Result<
    ProgramValue,
    InputError,
> {
    match received {
        Some(answer) => answer,
        None => Err(InputError::Unknown),
    }
}

/// The machine after an input node that was given `received`: the answer is
/// taken, and where it holds a byte the current cell takes that byte.
pub open spec fn with_answer(
    m: Machine,
    received: Option<Result<ProgramValue, InputError>>,
) -> Machine {
    Machine {
        cells: match received_byte(answer_of(received)) {
            Some(value) => m.cells.update(m.cursor, value),
            None => m.cells,
        },
        last: Some(BrainfuckOperations::InputCommand),
        answers: m.answers.push(answer_of(received)),
        ..m
    }
}

/// One dispatched node: the machine it leaves and the index of the node to go to,
/// or the error that ends the run. `received` is the answer of the input
/// collaborator, read only by an input node.
pub open spec fn step(
    node: BrainfuckNodeAST,
    m: Machine,
    received: Option<Result<ProgramValue, InputError>>,
    policy: CellArithmetic,
) -> Result<(Machine, int), InterpreterErrors> {
    let cell = m.cells[m.cursor];
    match node {
        BrainfuckNodeAST::Command(command) => {
            let next = command.next_position as int;
            match command.operation {
                BrainfuckOperations::IncrementByOneCurrentCell => if cell == u8::MAX && policy
                    == CellArithmetic::Abort {
                    Err(InterpreterErrors::CellOverflow)
                } else {
                    Ok((with_cell(m, incremented(cell), command.operation), next))
                },
                BrainfuckOperations::DecrementByOneCurrentCell => if cell == 0 && policy
                    == CellArithmetic::Abort {
                    Err(InterpreterErrors::CellUnderflow)
                } else {
                    Ok((with_cell(m, decremented(cell), command.operation), next))
                },
                BrainfuckOperations::MovePointerRight => if m.cursor + 1 < m.cells.len() {
                    Ok((with_cursor(m, 1, command.operation), next))
                } else {
                    Err(InterpreterErrors::OutOfRangeMemoryAccess)
                },
                BrainfuckOperations::MovePointerLeft => if m.cursor >= 1 {
                    Ok((with_cursor(m, -1, command.operation), next))
                } else {
                    Err(InterpreterErrors::OutOfRangeMemoryAccess)
                },
                BrainfuckOperations::OutputCommand => Ok(
                    (
                        Machine {
                            printed: match ascii_char(cell) {
                                Some(value) => m.printed.push(ProgramValue(value)),
                                None => m.printed,
                            },
                            last: Some(command.operation),
                            ..m
                        },
                        next,
                    ),
                ),
                BrainfuckOperations::InputCommand => Ok((with_answer(m, received), next)),
                BrainfuckOperations::LoopEnd => Ok(
                    (Machine { last: Some(command.operation), ..m }, next),
                ),
                BrainfuckOperations::LoopStart => Err(InterpreterErrors::UnknownASTNode),
            }
        },
        BrainfuckNodeAST::Loop(loop_node) => if loop_node.operation
            == BrainfuckOperations::LoopStart {
            Ok(
                (
                    Machine { last: Some(loop_node.operation), ..m },
                    if cell > 0 {
                        loop_node.next_position_as_true as int
                    } else {
                        loop_node.next_position_as_false as int
                    },
                ),
            )
        } else {
            Err(InterpreterErrors::UnknownASTNode)
        },
        BrainfuckNodeAST::NoOp => Err(InterpreterErrors::UnknownASTNode),
    }
}

/// The run of `program` from node `position`, with `steps` instructions dispatched
/// already and at most `limit` allowed. It ends well when the position leaves the
/// program. Before each dispatch the budget is tested. `inputs` are the answers of
/// the input collaborator, one for each input node that is dispatched, in order;
/// an input node that finds none left counts that as a failed read.
pub open spec fn run_from(
    program: Seq<BrainfuckNodeAST>,
    m: Machine,
    position: int,
    steps: nat,
    inputs: Seq<Result<ProgramValue, InputError>>,
    limit: nat,
    policy: CellArithmetic,
) -> Outcome
    decreases limit - steps,
{
    if !(0 <= position < program.len()) {
        Outcome { result: Ok(()), machine: m, steps }
    } else if steps >= limit {
        Outcome { result: Err(InterpreterErrors::BudgetExhausted), machine: m, steps }
    } else {
        let node = program[position];
        let reads = asks_input(node) && inputs.len() > 0;
        let received = if reads {
            Some(inputs[0])
        } else {
            None
        };
        match step(node, m, received, policy) {
            Err(e) => Outcome { result: Err(e), machine: m, steps: steps + 1 },
            Ok((after, next)) => run_from(
                program,
                after,
                next,
                steps + 1,
                if reads {
                    inputs.drop_first()
                } else {
                    inputs
                },
                limit,
                policy,
            ),
        }
    }
}

/// The cursor of the machine is on its tape.
pub open spec fn on_tape(m: Machine) -> bool {
    0 <= m.cursor < m.cells.len()
}

/// A dispatched node leaves the tape as long as it was, with the cursor on it.
pub proof fn lemma_step_keeps_the_tape(
    node: BrainfuckNodeAST,
    m: Machine,
    received: Option<Result<ProgramValue, InputError>>,
    policy: CellArithmetic,
)
    requires
        on_tape(m),
    ensures
        step(node, m, received, policy) matches Ok((after, _)) ==> on_tape(after) && after.cells.len()
            == m.cells.len(),
{
}

/// A run leaves the tape as long as it was, with the cursor on it, and dispatches
/// no more instructions than the limit allows.
pub proof fn lemma_run_keeps_the_tape(
    program: Seq<BrainfuckNodeAST>,
    m: Machine,
    position: int,
    steps: nat,
    inputs: Seq<Result<ProgramValue, InputError>>,
    limit: nat,
    policy: CellArithmetic,
)
    requires
        on_tape(m),
        steps <= limit,
    ensures
        on_tape(run_from(program, m, position, steps, inputs, limit, policy).machine),
        run_from(program, m, position, steps, inputs, limit, policy).machine.cells.len() == m.cells.len(),
        steps <= run_from(program, m, position, steps, inputs, limit, policy).steps <= limit,
    decreases limit - steps,
{
    if 0 <= position < program.len() && steps < limit {
        let node = program[position];
        let reads = asks_input(node) && inputs.len() > 0;
        let received = if reads {
            Some(inputs[0])
        } else {
            None
        };
        lemma_step_keeps_the_tape(node, m, received, policy);
        match step(node, m, received, policy) {
            Err(_) => {},
            Ok((after, next)) => {
                lemma_run_keeps_the_tape(
                    program,
                    after,
                    next,
                    steps + 1,
                    if reads {
                        inputs.drop_first()
                    } else {
                        inputs
                    },
                    limit,
                    policy,
                );
            },
        }
    }
}

/// A run ends for want of budget only when it has dispatched exactly as many
/// instructions as the limit allows.
pub proof fn lemma_budget_is_spent_exactly(
    program: Seq<BrainfuckNodeAST>,
    m: Machine,
    position: int,
    steps: nat,
    inputs: Seq<Result<ProgramValue, InputError>>,
    limit: nat,
    policy: CellArithmetic,
)
    requires
        steps <= limit,
        run_from(program, m, position, steps, inputs, limit, policy).result == Err::<
            (),
            InterpreterErrors,
        >(InterpreterErrors::BudgetExhausted),
    ensures
        run_from(program, m, position, steps, inputs, limit, policy).steps == limit,
    decreases limit - steps,
{
    if 0 <= position < program.len() && steps < limit {
        let node = program[position];
        let reads = asks_input(node) && inputs.len() > 0;
        let received = if reads {
            Some(inputs[0])
        } else {
            None
        };
        match step(node, m, received, policy) {
            Err(_) => {},
            Ok((after, next)) => {
                lemma_budget_is_spent_exactly(
                    program,
                    after,
                    next,
                    steps + 1,
                    if reads {
                        inputs.drop_first()
                    } else {
                        inputs
                    },
                    limit,
                    policy,
                );
            },
        }
    }
}

/// A program without input nodes runs the same whatever the input collaborator
/// would answer.
pub proof fn lemma_run_without_input_nodes(
    program: Seq<BrainfuckNodeAST>,
    m: Machine,
    position: int,
    steps: nat,
    inputs: Seq<Result<ProgramValue, InputError>>,
    others: Seq<Result<ProgramValue, InputError>>,
    limit: nat,
    policy: CellArithmetic,
)
    requires
        asks_no_input(program),
    ensures
        run_from(program, m, position, steps, inputs, limit, policy) == run_from(
            program,
            m,
            position,
            steps,
            others,
            limit,
            policy,
        ),
    decreases limit - steps,
{
    if 0 <= position < program.len() && steps < limit {
        let node = program[position];
        match step(node, m, None, policy) {
            Err(_) => {},
            Ok((after, next)) => {
                lemma_run_without_input_nodes(
                    program,
                    after,
                    next,
                    steps + 1,
                    inputs,
                    others,
                    limit,
                    policy,
                );
            },
        }
    }
}

/// The node is one that the engine can dispatch: a straight-line node of any
/// instruction but the loop start, or a loop node of the loop start.
pub open spec fn known_node(node: BrainfuckNodeAST) -> bool {
    match node {
        BrainfuckNodeAST::Command(command) => command.operation != BrainfuckOperations::LoopStart,
        BrainfuckNodeAST::Loop(loop_node) => loop_node.operation == BrainfuckOperations::LoopStart,
        BrainfuckNodeAST::NoOp => false,
    }
}

/// Every node of a resolved program is one that the engine can dispatch.
pub proof fn lemma_resolved_nodes_are_known(
    ops: Seq<BrainfuckOperations>,
    program: Seq<BrainfuckNodeAST>,
)
    requires
        resolved(ops, program),
    ensures
        forall|i: int| 0 <= i < program.len() ==> known_node(#[trigger] program[i]),
{
    assert forall|i: int| 0 <= i < program.len() implies known_node(#[trigger] program[i]) by {
        assert(node_resolved(ops, program, i));
    }
}

/// A run of a program whose nodes the engine can all dispatch never fails for an
/// unknown node.
pub proof fn lemma_known_nodes_are_dispatched(
    program: Seq<BrainfuckNodeAST>,
    m: Machine,
    position: int,
    steps: nat,
    inputs: Seq<Result<ProgramValue, InputError>>,
    limit: nat,
    policy: CellArithmetic,
)
    requires
        forall|i: int| 0 <= i < program.len() ==> known_node(#[trigger] program[i]),
    ensures
        run_from(program, m, position, steps, inputs, limit, policy).result != Err::<
            (),
            InterpreterErrors,
        >(InterpreterErrors::UnknownASTNode),
    decreases limit - steps,
{
    if 0 <= position < program.len() && steps < limit {
        let node = program[position];
        assert(known_node(node));
        let reads = asks_input(node) && inputs.len() > 0;
        let received = if reads {
            Some(inputs[0])
        } else {
            None
        };
        match step(node, m, received, policy) {
            Err(_) => {},
            Ok((after, next)) => {
                lemma_known_nodes_are_dispatched(
                    program,
                    after,
                    next,
                    steps + 1,
                    if reads {
                        inputs.drop_first()
                    } else {
                        inputs
                    },
                    limit,
                    policy,
                );
            },
        }
    }
}

/// A run of a parsed program never fails for an unknown node.
pub proof fn lemma_parsed_program_is_dispatched(
    source: Seq<char>,
    program: Vec<BrainfuckNodeAST>,
    m: Machine,
    inputs: Seq<Result<ProgramValue, InputError>>,
    limit: nat,
    policy: CellArithmetic,
)
    requires
        parsed(instructions(source), Ok(program)),
    ensures
        run_from(program@, m, 0, 0, inputs, limit, policy).result != Err::<(), InterpreterErrors>(
            InterpreterErrors::UnknownASTNode,
        ),
{
    lemma_resolved_nodes_are_known(instructions(source), program@);
    lemma_known_nodes_are_dispatched(program@, m, 0, 0, inputs, limit, policy);
}

/// The node moves the cursor off the tape of `m`: to the left of the first cell,
/// or to the right of the last one.
pub open spec fn moves_off_the_tape(node: BrainfuckNodeAST, m: Machine) -> bool {
    node matches BrainfuckNodeAST::Command(command) && ((command.operation
        == BrainfuckOperations::MovePointerLeft && m.cursor == 0) || (command.operation
        == BrainfuckOperations::MovePointerRight && m.cursor == m.cells.len() - 1))
}

/// A run that comes to a move off the tape, with budget left, ends there with the
/// out-of-range error and leaves the machine, the cursor with it, as it was.
pub proof fn lemma_move_off_the_tape_ends_the_run(
    program: Seq<BrainfuckNodeAST>,
    m: Machine,
    position: int,
    steps: nat,
    inputs: Seq<Result<ProgramValue, InputError>>,
    limit: nat,
    policy: CellArithmetic,
)
    requires
        0 <= position < program.len(),
        steps < limit,
        moves_off_the_tape(program[position], m),
    ensures
        run_from(program, m, position, steps, inputs, limit, policy) == (Outcome {
            result: Err(InterpreterErrors::OutOfRangeMemoryAccess),
            machine: m,
            steps: steps + 1,
        }),
{
}

/// At `at` the program holds a loop that does nothing but decrement the current
/// cell: a loop start, a decrement, and the loop end.
pub open spec fn counts_down_at(program: Seq<BrainfuckNodeAST>, at: int) -> bool {
    &&& 0 <= at
    &&& at + 3 <= program.len()
    &&& at + 3 <= usize::MAX
    &&& program[at] == BrainfuckNodeAST::Loop(
        LoopInformation {
            operation: BrainfuckOperations::LoopStart,
            next_position_as_true: (at + 1) as usize,
            next_position_as_false: (at + 3) as usize,
        },
    )
    &&& program[at + 1] == BrainfuckNodeAST::Command(
        CommandInformation {
            operation: BrainfuckOperations::DecrementByOneCurrentCell,
            next_position: (at + 2) as usize,
        },
    )
    &&& program[at + 2] == BrainfuckNodeAST::Command(
        CommandInformation { operation: BrainfuckOperations::LoopEnd, next_position: at as usize },
    )
}

/// A loop that counts the current cell down runs its body once for each unit of
/// the cell and then exits: from a cell of value `n` the run dispatches the loop
/// start `n + 1` times and the decrement and the loop end `n` times each, and goes
/// on behind the loop with the cell at zero.
pub proof fn lemma_counting_loop_runs_once_per_unit(
    program: Seq<BrainfuckNodeAST>,
    at: int,
    m: Machine,
    steps: nat,
    inputs: Seq<Result<ProgramValue, InputError>>,
    limit: nat,
    policy: CellArithmetic,
)
    requires
        counts_down_at(program, at),
        on_tape(m),
        steps + 3 * m.cells[m.cursor] + 1 <= limit,
    ensures
        run_from(program, m, at, steps, inputs, limit, policy) == run_from(
            program,
            Machine {
                cells: m.cells.update(m.cursor, 0),
                last: Some(BrainfuckOperations::LoopStart),
                ..m
            },
            at + 3,
            (steps + 3 * m.cells[m.cursor] + 1) as nat,
            inputs,
            limit,
            policy,
        ),
    decreases m.cells[m.cursor],
{
    let cell = m.cells[m.cursor];
    let tested = Machine { last: Some(BrainfuckOperations::LoopStart), ..m };
    assert(step(program[at], m, None, policy) == Ok::<(Machine, int), InterpreterErrors>(
        (tested, if cell > 0 {
            at + 1
        } else {
            at + 3
        }),
    ));
    if cell == 0 {
        assert(m.cells.update(m.cursor, 0) =~= m.cells);
    } else {
        let counted = with_cell(
            tested,
            (cell - 1) as u8,
            BrainfuckOperations::DecrementByOneCurrentCell,
        );
        let back = Machine { last: Some(BrainfuckOperations::LoopEnd), ..counted };
        assert(step(program[at + 1], tested, None, policy) == Ok::<(Machine, int), InterpreterErrors>(
            (counted, at + 2),
        ));
        assert(step(program[at + 2], counted, None, policy) == Ok::<(Machine, int), InterpreterErrors>(
            (back, at),
        ));
        assert(run_from(program, m, at, steps, inputs, limit, policy) == run_from(
            program,
            tested,
            at + 1,
            steps + 1,
            inputs,
            limit,
            policy,
        ));
        assert(run_from(program, tested, at + 1, steps + 1, inputs, limit, policy) == run_from(
            program,
            counted,
            at + 2,
            steps + 2,
            inputs,
            limit,
            policy,
        ));
        assert(run_from(program, counted, at + 2, steps + 2, inputs, limit, policy) == run_from(
            program,
            back,
            at,
            steps + 3,
            inputs,
            limit,
            policy,
        ));
        lemma_counting_loop_runs_once_per_unit(program, at, back, steps + 3, inputs, limit, policy);
        assert(back.cells.update(back.cursor, 0) =~= m.cells.update(m.cursor, 0));
    }
}

/// At `at` the program holds a loop with an empty body.
pub open spec fn idles_at(program: Seq<BrainfuckNodeAST>, at: int) -> bool {
    &&& 0 <= at
    &&& at + 2 <= program.len()
    &&& at + 2 <= usize::MAX
    &&& program[at] == BrainfuckNodeAST::Loop(
        LoopInformation {
            operation: BrainfuckOperations::LoopStart,
            next_position_as_true: (at + 1) as usize,
            next_position_as_false: (at + 2) as usize,
        },
    )
    &&& program[at + 1] == BrainfuckNodeAST::Command(
        CommandInformation { operation: BrainfuckOperations::LoopEnd, next_position: at as usize },
    )
}

/// A loop with an empty body that is met with a cell that is not zero never ends:
/// whatever the limit, the run dispatches exactly that many instructions and then
/// fails for want of budget, the tape untouched.
pub proof fn lemma_endless_loop_spends_the_budget(
    program: Seq<BrainfuckNodeAST>,
    at: int,
    m: Machine,
    inside: bool,
    steps: nat,
    inputs: Seq<Result<ProgramValue, InputError>>,
    limit: nat,
    policy: CellArithmetic,
)
    requires
        idles_at(program, at),
        on_tape(m),
        m.cells[m.cursor] > 0,
        steps <= limit,
    ensures
        ({
            let outcome = run_from(
                program,
                m,
                if inside {
                    at + 1
                } else {
                    at
                },
                steps,
                inputs,
                limit,
                policy,
            );
            &&& outcome.result == Err::<(), InterpreterErrors>(InterpreterErrors::BudgetExhausted)
            &&& outcome.steps == limit
            &&& outcome.machine.cells == m.cells
            &&& outcome.machine.cursor == m.cursor
            &&& outcome.machine.printed == m.printed
        }),
    decreases limit - steps,
{
    if steps < limit {
        if inside {
            lemma_endless_loop_spends_the_budget(
                program,
                at,
                Machine { last: Some(BrainfuckOperations::LoopEnd), ..m },
                false,
                steps + 1,
                inputs,
                limit,
                policy,
            );
        } else {
            lemma_endless_loop_spends_the_budget(
                program,
                at,
                Machine { last: Some(BrainfuckOperations::LoopStart), ..m },
                true,
                steps + 1,
                inputs,
                limit,
                policy,
            );
        }
    }
}

/// The node asks the input collaborator for a value.
pub fn needs_input(node: &BrainfuckNodeAST) -> (b: bool)
    ensures
        b == asks_input(*node),
{
    match *node {
        BrainfuckNodeAST::Command(command) => match command.operation {
            BrainfuckOperations::InputCommand => true,
            _ => false,
        },
        _ => false,
    }
}

/// The execution engine: a tape, the loaded program, and the collaborators that
/// take output and give input.
pub struct Interpreter<'a, Display, Input, Memory> where
    Memory: MemoryTape<u8>,
    Display: OutputValue,
    Input: InputValue,
 {
    pub memory: Memory,
    pub ast_program: Option<&'a Vec<BrainfuckNodeAST>>,
    /// The kind of the instruction dispatched last.
    pub program_counter: Option<BrainfuckOperations>,
    pub display: Display,
    pub input: Input,
    pub config: InterpreterConfig,
    /// The number of instructions that the last run dispatched.
    pub instructions_read: usize,
    /// The values handed to the display so far.
    pub printed: Ghost<Seq<ProgramValue>>,
    /// The answers taken from the input collaborator so far.
    pub answers: Ghost<Seq<Result<ProgramValue, InputError>>>,
}

/// The current cell and where it is, for diagnostics.
#[derive(Debug, PartialEq, Eq, Structural, Clone, Copy)]
pub struct DebugMemoryPosition {
    pub position: usize,
    pub raw_value: u8,
    pub ascii_value: Option<char>,
}

impl<'a, Display, Input, Memory> Interpreter<'a, Display, Input, Memory> where
    Memory: MemoryTape<u8>,
    Display: OutputValue,
    Input: InputValue,
 {
    /// What a run can change, as it stands.
    pub open spec fn machine(&self) -> Machine {
        Machine {
            cells: self.memory.cells(),
            cursor: self.memory.cursor(),
            last: self.program_counter,
            printed: self.printed@,
            answers: self.answers@,
        }
    }

    /// The cursor is on the tape.
    pub open spec fn tape_valid(&self) -> bool {
        0 <= self.memory.cursor() < self.memory.cells().len()
    }

    /// Whatever a run leaves untouched is the same in `self` and `other`.
    pub open spec fn same_setup(&self, other: &Self) -> bool {
        &&& self.ast_program == other.ast_program
        &&& self.config == other.config
    }

    /// An engine with no program loaded and the default instruction limit.
    pub fn new(display: Display, input: Input, memory: Memory) -> (engine: Self)
        ensures
            engine.memory == memory,
            engine.display == display,
            engine.input == input,
            engine.ast_program is None,
            engine.program_counter is None,
            engine.config == (InterpreterConfig {
                limit_read_instructions: DEFAULT_LIMIT_READ_INSTRUCTIONS,
                cell_arithmetic: CellArithmetic::Ignore,
            }),
            engine.instructions_read == 0,
            engine.printed@ == Seq::<ProgramValue>::empty(),
            engine.answers@ == Seq::<Result<ProgramValue, InputError>>::empty(),
    {
        Interpreter {
            memory,
            ast_program: None,
            program_counter: None,
            display,
            input,
            config: InterpreterConfig {
                limit_read_instructions: DEFAULT_LIMIT_READ_INSTRUCTIONS,
                cell_arithmetic: CellArithmetic::Ignore,
            },
            instructions_read: 0,
            printed: Ghost(Seq::empty()),
            answers: Ghost(Seq::empty()),
        }
    }

    /// An engine with no program loaded and the instruction limit of `config`.
    pub fn with_config(display: Display, input: Input, memory: Memory, config: InterpreterConfig) -> (engine: Self)
        ensures
            engine.memory == memory,
            engine.display == display,
            engine.input == input,
            engine.ast_program is None,
            engine.program_counter is None,
            engine.config == config,
            engine.instructions_read == 0,
            engine.printed@ == Seq::<ProgramValue>::empty(),
            engine.answers@ == Seq::<Result<ProgramValue, InputError>>::empty(),
    {
        Interpreter {
            memory,
            ast_program: None,
            program_counter: None,
            display,
            input,
            config,
            instructions_read: 0,
            printed: Ghost(Seq::empty()),
            answers: Ghost(Seq::empty()),
        }
    }

    /// Loads the program that the next run executes.
    pub fn load_ast_program(&mut self, ast_program: &'a Vec<BrainfuckNodeAST>)
        ensures
            final(self).ast_program == Some(ast_program),
            final(self).memory == old(self).memory,
            final(self).program_counter == old(self).program_counter,
            final(self).display == old(self).display,
            final(self).input == old(self).input,
            final(self).config == old(self).config,
            final(self).instructions_read == old(self).instructions_read,
            final(self).printed == old(self).printed,
            final(self).answers == old(self).answers,
    {
        self.ast_program = Some(ast_program);
    }

    /// Dispatches one node. `received` is what the input collaborator gave for it;
    /// only an input node reads it, and counts none as a failed read. On success the
    /// result is the index of the node to go to. On failure nothing has changed.
    pub fn execute_node(
        &mut self,
        node: &BrainfuckNodeAST,
        received: Option<Result<ProgramValue, InputError>>,
    ) -> (r: Result<usize, InterpreterErrors>)
        requires
            old(self).tape_valid(),
        ensures
            final(self).tape_valid(),
            final(self).same_setup(old(self)),
            final(self).instructions_read == old(self).instructions_read,
            match step(*node, old(self).machine(), received, old(self).config.cell_arithmetic) {
                Ok((after, next)) => r == Ok::<usize, InterpreterErrors>(next as usize)
                    && final(self).machine() == after,
                Err(e) => r == Err::<usize, InterpreterErrors>(e) && final(self).machine() == old(
                    self,
                ).machine(),
            },
    {
        match *node {
            BrainfuckNodeAST::Command(command) => match command.operation {
                BrainfuckOperations::IncrementByOneCurrentCell => {
                    let updated = self.memory.update_memory_cell_value(increment_cell);
                    if updated.is_err() {
                        match self.config.cell_arithmetic {
                            CellArithmetic::Abort => {
                                return Err(InterpreterErrors::CellOverflow);
                            },
                            CellArithmetic::Ignore => {},
                        }
                    }
                    self.program_counter = Some(BrainfuckOperations::IncrementByOneCurrentCell);
                    assert(self.memory.cells() =~= old(self).memory.cells().update(
                        old(self).memory.cursor(),
                        self.memory.cells()[old(self).memory.cursor()],
                    ));
                    Ok(command.next_position)
                },
                BrainfuckOperations::DecrementByOneCurrentCell => {
                    let updated = self.memory.update_memory_cell_value(decrement_cell);
                    if updated.is_err() {
                        match self.config.cell_arithmetic {
                            CellArithmetic::Abort => {
                                return Err(InterpreterErrors::CellUnderflow);
                            },
                            CellArithmetic::Ignore => {},
                        }
                    }
                    self.program_counter = Some(BrainfuckOperations::DecrementByOneCurrentCell);
                    assert(self.memory.cells() =~= old(self).memory.cells().update(
                        old(self).memory.cursor(),
                        self.memory.cells()[old(self).memory.cursor()],
                    ));
                    Ok(command.next_position)
                },
                BrainfuckOperations::MovePointerRight => {
                    let result_move = self.memory.move_pointer_position(1);
                    if result_move.is_err() {
                        return Err(InterpreterErrors::OutOfRangeMemoryAccess);
                    }
                    self.program_counter = Some(BrainfuckOperations::MovePointerRight);
                    Ok(command.next_position)
                },
                BrainfuckOperations::MovePointerLeft => {
                    let result_move = self.memory.move_pointer_position(-1);
                    if result_move.is_err() {
                        return Err(InterpreterErrors::OutOfRangeMemoryAccess);
                    }
                    self.program_counter = Some(BrainfuckOperations::MovePointerLeft);
                    Ok(command.next_position)
                },
                BrainfuckOperations::OutputCommand => {
                    match ProgramValue::from_u8(self.memory.get_current_cell_value()) {
                        Some(value) => {
                            self.display.print(value);
                            self.printed = Ghost(self.printed@.push(value));
                        },
                        None => {},
                    }
                    self.program_counter = Some(BrainfuckOperations::OutputCommand);
                    Ok(command.next_position)
                },
                BrainfuckOperations::InputCommand => {
                    let answer = match received {
                        Some(answer) => answer,
                        None => Err(InputError::Unknown),
                    };
                    self.answers = Ghost(self.answers@.push(answer));
                    let byte = match answer {
                        Ok(value) => value.to_u8(),
                        Err(_) => None,
                    };
                    match byte {
                        Some(value) => {
                            let overwrite = (|_value: u8| -> (r: Result<u8, MemoryErrors>)
                                ensures
                                    r == replaced_by(value),
                                { Ok(value) });
                            let _ = self.memory.update_memory_cell_value(overwrite);
                            assert(self.memory.cells() =~= old(self).memory.cells().update(
                                old(self).memory.cursor(),
                                value,
                            ));
                        },
                        None => {},
                    }
                    self.program_counter = Some(BrainfuckOperations::InputCommand);
                    Ok(command.next_position)
                },
                BrainfuckOperations::LoopEnd => {
                    self.program_counter = Some(BrainfuckOperations::LoopEnd);
                    Ok(command.next_position)
                },
                BrainfuckOperations::LoopStart => Err(InterpreterErrors::UnknownASTNode),
            },
            BrainfuckNodeAST::Loop(loop_node) => match loop_node.operation {
                BrainfuckOperations::LoopStart => {
                    self.program_counter = Some(BrainfuckOperations::LoopStart);
                    if self.memory.get_current_cell_value() > 0 {
                        Ok(loop_node.next_position_as_true)
                    } else {
                        Ok(loop_node.next_position_as_false)
                    }
                },
                _ => Err(InterpreterErrors::UnknownASTNode),
            },
            BrainfuckNodeAST::NoOp => Err(InterpreterErrors::UnknownASTNode),
        }
    }

    /// The answers that were taken from the input collaborator between `self` and
    /// `after`.
    pub open spec fn taken(&self, after: &Self) -> Seq<Result<ProgramValue, InputError>> {
        after.answers@.skip(self.answers@.len() as int)
    }

    /// The run in which the input collaborator gives the answers `inputs`, and no
    /// more are taken, ends with `r` and leaves `after`.
    pub open spec fn ran(
        &self,
        program: Seq<BrainfuckNodeAST>,
        inputs: Seq<Result<ProgramValue, InputError>>,
        r: Result<(), InterpreterErrors>,
        after: &Self,
    ) -> bool {
        let outcome = run_from(
            program,
            self.machine(),
            0,
            0,
            inputs,
            self.config.limit_read_instructions as nat,
            self.config.cell_arithmetic,
        );
        &&& r == outcome.result
        &&& after.machine() == outcome.machine
        &&& after.instructions_read == outcome.steps
        &&& after.answers@ == self.answers@ + inputs
    }

    /// Runs the loaded program from its first node on the tape as it stands. With no
    /// program, or with one of no nodes, nothing happens and the run fails. Else the
    /// run is the one that the answers of the input collaborator determine: it asks
    /// once for each input node it dispatches, takes every answer it asked for, and
    /// hands each 7-bit cell that an output node meets to the display.
    pub fn run(&mut self) -> (r: Result<(), InterpreterErrors>)
        requires
            old(self).tape_valid(),
        ensures
            final(self).tape_valid(),
            final(self).same_setup(old(self)),
            match old(self).ast_program {
                Some(program) if program@.len() > 0 => {
                    &&& old(self).ran(program@, old(self).taken(final(self)), r, final(self))
                    &&& asks_no_input(program@) ==> old(self).taken(final(self)).len() == 0
                },
                _ => {
                    &&& r == Err::<(), InterpreterErrors>(InterpreterErrors::EmptyAST)
                    &&& final(self).machine() == old(self).machine()
                    &&& final(self).instructions_read == old(self).instructions_read
                },
            },
    {
        let ast = match self.ast_program {
            Some(ast) => ast,
            None => {
                return Err(InterpreterErrors::EmptyAST);
            },
        };
        if ast.len() == 0 {
            return Err(InterpreterErrors::EmptyAST);
        }
        let limit = self.config.limit_read_instructions;
        let ghost policy = self.config.cell_arithmetic;
        let mut position: usize = 0;
        self.instructions_read = 0;
        let ghost start = old(self).machine();
        let ghost mut inputs: Seq<Result<ProgramValue, InputError>> = Seq::empty();
        proof {
            assert(self.answers@ + inputs =~= self.answers@);
            assert forall|rest: Seq<Result<ProgramValue, InputError>>|
                run_from(ast@, start, 0, 0, inputs + rest, limit as nat, policy) == #[trigger] run_from(
                    ast@,
                    self.machine(),
                    position as int,
                    self.instructions_read as nat,
                    rest,
                    limit as nat,
                    policy,
                ) by {
                assert(inputs + rest =~= rest);
            }
        }
        loop
            invariant
                self.tape_valid(),
                self.same_setup(old(self)),
                old(self).ast_program == Some(ast),
                ast@.len() > 0,
                limit == self.config.limit_read_instructions,
                policy == self.config.cell_arithmetic,
                self.answers@ == old(self).answers@ + inputs,
                asks_no_input(ast@) ==> inputs.len() == 0,
                start == old(self).machine(),
                forall|rest: Seq<Result<ProgramValue, InputError>>|
                    run_from(ast@, start, 0, 0, inputs + rest, limit as nat, policy) == #[trigger] run_from(
                        ast@,
                        self.machine(),
                        position as int,
                        self.instructions_read as nat,
                        rest,
                        limit as nat,
                        policy,
                    ),
            decreases limit - self.instructions_read,
        {
            let ghost here = self.machine();
            let ghost steps = self.instructions_read as nat;
            let ghost at = position as int;
            let ghost nothing = Seq::<Result<ProgramValue, InputError>>::empty();
            proof {
                // The run from here with no further answers is the whole run.
                let rest = run_from(ast@, here, at, steps, nothing, limit as nat, policy);
                assert(inputs + nothing =~= inputs);
                assert(run_from(ast@, start, 0, 0, inputs, limit as nat, policy) == rest);
                assert(old(self).taken(self) =~= inputs);
            }
            if position >= ast.len() {
                proof {
                    assert(old(self).ran(ast@, inputs, Ok(()), self));
                }
                return Ok(());
            }
            if self.instructions_read >= limit {
                proof {
                    assert(old(self).ran(
                        ast@,
                        inputs,
                        Err(InterpreterErrors::BudgetExhausted),
                        self,
                    ));
                }
                return Err(InterpreterErrors::BudgetExhausted);
            }
            self.instructions_read = self.instructions_read + 1;
            let node = &ast[position];
            let received = if needs_input(node) {
                Some(self.input.get_input())
            } else {
                None
            };
            let ghost answers = match received {
                Some(answer) => seq![answer],
                None => nothing,
            };
            proof {
                assert forall|rest: Seq<Result<ProgramValue, InputError>>|
                    #![trigger run_from(ast@, here, at, steps, answers + rest, limit as nat, policy)]
                    run_from(ast@, here, at, steps, answers + rest, limit as nat, policy)
                        == match step(*node, here, received, policy) {
                        Err(e) => Outcome { result: Err(e), machine: here, steps: steps + 1 },
                        Ok((after, next)) => run_from(
                            ast@,
                            after,
                            next,
                            steps + 1,
                            rest,
                            limit as nat,
                            policy,
                        ),
                    } by {
                    if received is Some {
                        assert((answers + rest)[0] == received->Some_0);
                        assert((answers + rest).drop_first() =~= rest);
                    } else {
                        assert(answers + rest =~= rest);
                    }
                }
            }
            match self.execute_node(node, received) {
                Ok(next) => {
                    position = next;
                    proof {
                        let earlier = inputs;
                        inputs = inputs + answers;
                        assert(self.answers@ =~= old(self).answers@ + inputs);
                        assert forall|rest: Seq<Result<ProgramValue, InputError>>|
                            run_from(ast@, start, 0, 0, inputs + rest, limit as nat, policy)
                                == #[trigger] run_from(
                                ast@,
                                self.machine(),
                                position as int,
                                self.instructions_read as nat,
                                rest,
                                limit as nat,
                                policy,
                            ) by {
                            assert(inputs + rest =~= earlier + (answers + rest));
                            assert(run_from(
                                ast@,
                                start,
                                0,
                                0,
                                earlier + (answers + rest),
                                limit as nat,
                                policy,
                            ) == run_from(
                                ast@,
                                here,
                                at,
                                steps,
                                answers + rest,
                                limit as nat,
                                policy,
                            ));
                        }
                    }
                },
                Err(e) => {
                    proof {
                        assert(answers + nothing =~= answers);
                        assert(inputs + answers + nothing =~= inputs + answers);
                        assert(self.answers@ =~= old(self).answers@ + (inputs + answers));
                        assert(old(self).taken(self) =~= inputs + answers);
                        assert(old(self).ran(ast@, inputs + answers, Err(e), self));
                    }
                    return Err(e);
                },
            }
        }
    }

    /// The current cell, its index, and its character if it holds one.
    pub fn get_debug_info_current_position(&self) -> (info: DebugMemoryPosition)
        requires
            self.tape_valid(),
        ensures
            info.position == self.memory.cursor(),
            info.raw_value == self.memory.cells()[self.memory.cursor()],
            info.ascii_value == ascii_char(info.raw_value),
    {
        let raw_value = self.memory.get_current_cell_value();
        DebugMemoryPosition {
            position: self.memory.get_position(),
            raw_value,
            ascii_value: crate::io::ascii_char_from_u8(raw_value),
        }
    }
}

} // verus!
