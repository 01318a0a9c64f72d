use std::cell::{Cell, RefCell};
use std::iter::repeat_n;

use braincrab::interpreter::{
    CellArithmetic, DebugMemoryPosition, Interpreter, InterpreterConfig, InterpreterErrors,
};
use braincrab::io::{
    BrainfuckMemory, InputError, InputValue, MemoryErrors, MemoryTape, OutputValue, ProgramValue,
};
use braincrab::parser::{
    from_source_to_node_ast, BrainfuckASTBuilder, BrainfuckNodeAST, BrainfuckOperations,
    CommandInformation, LoopInformation,
};

#[derive(Debug, Copy, Clone)]
struct NoRender;

impl OutputValue for NoRender {
    fn print(&self, _value: ProgramValue) {
        ();
    }
}

#[derive(Debug, Copy, Clone)]
struct NoInput;

impl InputValue for NoInput {
    fn get_input(&self) -> Result<ProgramValue, InputError> {
        panic!("No input expect for this test")
    }
}

struct Recorder<'a> {
    seen: &'a RefCell<Vec<ProgramValue>>,
}

impl<'a> OutputValue for Recorder<'a> {
    fn print(&self, value: ProgramValue) {
        self.seen.borrow_mut().push(value);
    }
}

struct Script<'a> {
    answers: Vec<Result<ProgramValue, InputError>>,
    asked: &'a Cell<usize>,
}

impl<'a> InputValue for Script<'a> {
    fn get_input(&self) -> Result<ProgramValue, InputError> {
        let index = self.asked.get();
        self.asked.set(index + 1);
        self.answers[index]
    }
}

#[test]
fn given_an_ast_empty_when_interpreter_is_run_then_return_error() {
    let mut interpeter = Interpreter::new(NoRender, NoInput, BrainfuckMemory::default());
    let builder = BrainfuckASTBuilder::new();

    interpeter.load_ast_program(&builder.ast);

    let error = interpeter.run().unwrap_err();

    assert_eq!(error, InterpreterErrors::EmptyAST)
}

#[test]
fn give_an_ast_that_output_a_ascii_code_when_interpreter_is_run_then_display_a_ascii_value() {
    let mut interpeter = Interpreter::new(NoRender, NoInput, BrainfuckMemory::default());
    let mut builder = BrainfuckASTBuilder::new();
    let mut position: usize = 0;

    repeat_n(0, 65).for_each(|_value| {
        position += 1;
        builder.add_command_node(BrainfuckOperations::IncrementByOneCurrentCell, position);
    });

    builder.add_command_node(BrainfuckOperations::OutputCommand, 67);

    interpeter.load_ast_program(builder.build());

    let result = interpeter.run();

    let debug_expect = DebugMemoryPosition {
        position: 0,
        raw_value: 65,
        ascii_value: Some('A'),
    };

    assert!(result.is_ok());
    assert_eq!(interpeter.get_debug_info_current_position(), debug_expect)
}

#[test]
fn given_an_ast_that_move_one_to_the_right_when_interpreter_is_run_then_the_current_position_is_1(
) {
    let mut interpeter = Interpreter::new(NoRender, NoInput, BrainfuckMemory::default());
    let mut builder = BrainfuckASTBuilder::new();

    let ast = builder
        .add_command_node(BrainfuckOperations::MovePointerRight, 1)
        .build();

    interpeter.load_ast_program(ast);

    let result = interpeter.run();

    let debug_expect = DebugMemoryPosition {
        position: 1,
        raw_value: 0,
        ascii_value: Some('\0'),
    };

    assert!(result.is_ok());
    assert_eq!(interpeter.get_debug_info_current_position(), debug_expect)
}

#[test]
fn given_an_ast_that_move_two_to_the_right_and_one_to_left_when_interpreter_is_run_then_the_current_position_is_1(
) {
    let mut interpeter = Interpreter::new(NoRender, NoInput, BrainfuckMemory::default());
    let mut builder = BrainfuckASTBuilder::new();

    let ast = builder
        .add_command_node(BrainfuckOperations::MovePointerRight, 1)
        .add_command_node(BrainfuckOperations::MovePointerRight, 2)
        .add_command_node(BrainfuckOperations::MovePointerLeft, 3)
        .build();

    interpeter.load_ast_program(ast);

    let result = interpeter.run();

    let debug_expect = DebugMemoryPosition {
        position: 1,
        raw_value: 0,
        ascii_value: Some('\0'),
    };

    assert!(result.is_ok());
    assert_eq!(interpeter.get_debug_info_current_position(), debug_expect)
}

#[test]
fn given_an_ast_with_input_command_when_interpreter_is_run_then_the_current_position_is_modified_with_the_value_provided(
) {
    #[derive(Debug, Copy, Clone)]
    struct AutomaticInput;

    impl InputValue for AutomaticInput {
        fn get_input(&self) -> Result<ProgramValue, InputError> {
            Ok(ProgramValue('B'))
        }
    }

    let mut interpeter = Interpreter::new(NoRender, AutomaticInput, BrainfuckMemory::default());

    let mut builder = BrainfuckASTBuilder::new();

    let ast = builder
        .add_command_node(BrainfuckOperations::InputCommand, 1)
        .build();

    interpeter.load_ast_program(ast);

    let result = interpeter.run();

    let debug_expect = DebugMemoryPosition {
        position: 0,
        raw_value: 66,
        ascii_value: Some('B'),
    };

    assert!(result.is_ok());
    assert_eq!(interpeter.get_debug_info_current_position(), debug_expect)
}

#[test]
fn given_an_ast_with_loops_to_render_a_uppercase_when_is_run_then_a_uppercase_is_show() {
    let mut interpeter = Interpreter::new(NoRender, NoInput, BrainfuckMemory::default());
    let mut builder = BrainfuckASTBuilder::new();
    builder
        .add_n_command_nodes(BrainfuckOperations::IncrementByOneCurrentCell, 10)
        .add_loop_node(BrainfuckOperations::LoopStart, 11, 21)
        .add_command_node(BrainfuckOperations::MovePointerRight, 12)
        .add_n_command_nodes(BrainfuckOperations::IncrementByOneCurrentCell, 6)
        .add_command_node(BrainfuckOperations::MovePointerLeft, 19)
        .add_command_node(BrainfuckOperations::DecrementByOneCurrentCell, 20)
        .add_command_node(BrainfuckOperations::LoopEnd, 10)
        .add_command_node(BrainfuckOperations::MovePointerRight, 22)
        .add_n_command_nodes(BrainfuckOperations::IncrementByOneCurrentCell, 5)
        .add_command_node(BrainfuckOperations::OutputCommand, 28);

    interpeter.load_ast_program(builder.build());

    let result = interpeter.run();

    let debug_expect = DebugMemoryPosition {
        position: 1,
        raw_value: 65,
        ascii_value: Some('A'),
    };

    assert!(result.is_ok());
    assert_eq!(interpeter.get_debug_info_current_position(), debug_expect)
}

#[test]
fn with_no_program_loaded_the_run_fails_and_nothing_changes() {
    let mut interpreter = Interpreter::new(NoRender, NoInput, BrainfuckMemory::new(4));

    assert_eq!(interpreter.run(), Err(InterpreterErrors::EmptyAST));
    assert_eq!(interpreter.memory.get_position(), 0);
    assert_eq!(interpreter.program_counter, None);
    assert_eq!(interpreter.instructions_read, 0);
}

#[test]
fn a_source_of_other_characters_only_runs_as_an_empty_program() {
    let ast = from_source_to_node_ast("nothing to see here").unwrap();
    let mut interpreter = Interpreter::new(NoRender, NoInput, BrainfuckMemory::default());
    interpreter.load_ast_program(&ast);

    assert!(ast.is_empty());
    assert_eq!(interpreter.run(), Err(InterpreterErrors::EmptyAST));
}

#[test]
fn sixty_five_increments_and_an_output_print_one_capital_a() {
    let source = format!("{}.", "+".repeat(65));
    let ast = from_source_to_node_ast(&source).unwrap();
    let seen = RefCell::new(Vec::new());
    let mut interpreter =
        Interpreter::new(Recorder { seen: &seen }, NoInput, BrainfuckMemory::default());
    interpreter.load_ast_program(&ast);

    assert_eq!(interpreter.run(), Ok(()));
    assert_eq!(*seen.borrow(), vec![ProgramValue('A')]);
    assert_eq!(interpreter.memory.get_position(), 0);
    assert_eq!(interpreter.memory.get_current_cell_value(), 65);
    assert_eq!(interpreter.instructions_read, 66);
    assert_eq!(
        interpreter.program_counter,
        Some(BrainfuckOperations::OutputCommand)
    );
}

#[test]
fn an_endless_loop_stops_after_exactly_the_limit() {
    let ast = from_source_to_node_ast("+[]").unwrap();
    let mut interpreter = Interpreter::with_config(
        NoRender,
        NoInput,
        BrainfuckMemory::default(),
        InterpreterConfig::new(10),
    );
    interpreter.load_ast_program(&ast);

    assert_eq!(interpreter.run(), Err(InterpreterErrors::BudgetExhausted));
    assert_eq!(interpreter.instructions_read, 10);
    assert_eq!(interpreter.memory.get_current_cell_value(), 1);
}

#[test]
fn a_program_of_exactly_the_limit_ends_well() {
    let ast = from_source_to_node_ast("+++").unwrap();
    let mut interpreter = Interpreter::with_config(
        NoRender,
        NoInput,
        BrainfuckMemory::default(),
        InterpreterConfig::new(3),
    );
    interpreter.load_ast_program(&ast);

    assert_eq!(interpreter.run(), Ok(()));
    assert_eq!(interpreter.instructions_read, 3);

    let mut short = Interpreter::with_config(
        NoRender,
        NoInput,
        BrainfuckMemory::default(),
        InterpreterConfig::new(2),
    );
    short.load_ast_program(&ast);

    assert_eq!(short.run(), Err(InterpreterErrors::BudgetExhausted));
    assert_eq!(short.instructions_read, 2);
    assert_eq!(short.memory.get_current_cell_value(), 2);
}

#[test]
fn a_limit_of_zero_dispatches_nothing() {
    let ast = from_source_to_node_ast("+").unwrap();
    let mut interpreter = Interpreter::with_config(
        NoRender,
        NoInput,
        BrainfuckMemory::default(),
        InterpreterConfig::new(0),
    );
    interpreter.load_ast_program(&ast);

    assert_eq!(interpreter.run(), Err(InterpreterErrors::BudgetExhausted));
    assert_eq!(interpreter.memory.get_current_cell_value(), 0);
}

#[test]
fn the_default_limit_is_sixty_thousand() {
    assert_eq!(InterpreterConfig::default().limit_read_instructions, 60_000);
    let interpreter = Interpreter::new(NoRender, NoInput, BrainfuckMemory::default());
    assert_eq!(interpreter.config.limit_read_instructions, 60_000);
}

#[test]
fn a_counting_loop_runs_its_body_once_for_each_unit() {
    let ast = from_source_to_node_ast("+++++[>+<-]").unwrap();
    let mut interpreter = Interpreter::new(NoRender, NoInput, BrainfuckMemory::default());
    interpreter.load_ast_program(&ast);

    assert_eq!(interpreter.run(), Ok(()));
    assert_eq!(interpreter.memory.get_current_cell_value(), 0);
    assert_eq!(interpreter.instructions_read, 5 + 5 * 6 + 1);
    assert_eq!(interpreter.memory.move_pointer_position(1), Ok(()));
    assert_eq!(interpreter.memory.get_current_cell_value(), 5);
}

#[test]
fn clearing_a_cell_takes_three_dispatches_for_each_unit_and_one_more() {
    let ast = from_source_to_node_ast("++++[-]").unwrap();
    let mut interpreter = Interpreter::new(NoRender, NoInput, BrainfuckMemory::default());
    interpreter.load_ast_program(&ast);

    assert_eq!(interpreter.run(), Ok(()));
    assert_eq!(interpreter.memory.get_current_cell_value(), 0);
    assert_eq!(interpreter.instructions_read, 4 + 3 * 4 + 1);
}

#[test]
fn moving_left_from_the_first_cell_fails_and_leaves_the_cursor() {
    let ast = from_source_to_node_ast("<").unwrap();
    let mut interpreter = Interpreter::new(NoRender, NoInput, BrainfuckMemory::new(3));
    interpreter.load_ast_program(&ast);

    assert_eq!(
        interpreter.run(),
        Err(InterpreterErrors::OutOfRangeMemoryAccess)
    );
    assert_eq!(interpreter.memory.get_position(), 0);
    assert_eq!(interpreter.instructions_read, 1);
}

#[test]
fn moving_right_from_the_last_cell_fails_and_leaves_the_cursor() {
    let ast = from_source_to_node_ast(">>>+").unwrap();
    let mut interpreter = Interpreter::new(NoRender, NoInput, BrainfuckMemory::new(3));
    interpreter.load_ast_program(&ast);

    assert_eq!(
        interpreter.run(),
        Err(InterpreterErrors::OutOfRangeMemoryAccess)
    );
    assert_eq!(interpreter.memory.get_position(), 2);
    assert_eq!(interpreter.memory.get_current_cell_value(), 0);
    assert_eq!(
        interpreter.program_counter,
        Some(BrainfuckOperations::MovePointerRight)
    );
}

#[test]
fn the_tape_keeps_its_cursor_within_its_cells() {
    let mut tape = BrainfuckMemory::new(2);

    assert_eq!(tape.get_position(), 0);
    assert_eq!(tape.move_pointer_position(-1), Err(MemoryErrors::OutOfRange));
    assert_eq!(tape.get_position(), 0);
    assert_eq!(tape.move_pointer_position(1), Ok(()));
    assert_eq!(tape.get_position(), 1);
    assert_eq!(tape.move_pointer_position(1), Err(MemoryErrors::OutOfRange));
    assert_eq!(tape.get_position(), 1);
    assert_eq!(tape.move_pointer_position(2), Err(MemoryErrors::OutOfRange));
    assert_eq!(tape.move_pointer_position(isize::MIN), Err(MemoryErrors::OutOfRange));
    assert_eq!(tape.move_pointer_position(isize::MAX), Err(MemoryErrors::OutOfRange));
    assert_eq!(tape.move_pointer_position(0), Ok(()));
    assert_eq!(tape.move_pointer_position(-1), Ok(()));
    assert_eq!(tape.get_position(), 0);
}

#[test]
fn a_tape_has_at_least_one_cell_and_at_most_thirty_thousand() {
    let mut smallest = BrainfuckMemory::new(0);
    assert_eq!(smallest.get_current_cell_value(), 0);
    assert_eq!(
        smallest.move_pointer_position(1),
        Err(MemoryErrors::OutOfRange)
    );

    let mut largest = BrainfuckMemory::new(40_000);
    assert_eq!(largest.move_pointer_position(29_999), Ok(()));
    assert_eq!(largest.get_current_cell_value(), 0);
    assert_eq!(
        largest.move_pointer_position(1),
        Err(MemoryErrors::OutOfRange)
    );

    let mut usual = BrainfuckMemory::default();
    assert_eq!(usual.move_pointer_position(2_999), Ok(()));
    assert_eq!(usual.move_pointer_position(1), Err(MemoryErrors::OutOfRange));
}

#[test]
fn an_update_that_fails_leaves_the_cell() {
    let mut tape = BrainfuckMemory::new(1);

    assert_eq!(tape.update_memory_cell_value(|_value| Ok(7)), Ok(()));
    assert_eq!(tape.get_current_cell_value(), 7);
    assert_eq!(
        tape.update_memory_cell_value(|_value| Err(MemoryErrors::CellOverflow)),
        Err(MemoryErrors::CellOverflow)
    );
    assert_eq!(tape.get_current_cell_value(), 7);
    assert_eq!(
        tape.update_memory_cell_value(braincrab::io::decrement_cell),
        Ok(())
    );
    assert_eq!(tape.get_current_cell_value(), 6);
    assert_eq!(braincrab::io::increment_cell(255), Err(MemoryErrors::CellOverflow));
    assert_eq!(braincrab::io::increment_cell(254), Ok(255));
    assert_eq!(braincrab::io::decrement_cell(0), Err(MemoryErrors::CellUnderflow));
    assert_eq!(braincrab::io::decrement_cell(1), Ok(0));
}

#[test]
fn a_cell_at_its_largest_value_stays_when_incremented() {
    let source = "+".repeat(256);
    let ast = from_source_to_node_ast(&source).unwrap();
    let mut interpreter = Interpreter::new(NoRender, NoInput, BrainfuckMemory::default());
    interpreter.load_ast_program(&ast);

    assert_eq!(interpreter.run(), Ok(()));
    assert_eq!(interpreter.memory.get_current_cell_value(), 255);
}

#[test]
fn a_cell_at_zero_stays_when_decremented() {
    let ast = from_source_to_node_ast("-+").unwrap();
    let mut interpreter = Interpreter::new(NoRender, NoInput, BrainfuckMemory::default());
    interpreter.load_ast_program(&ast);

    assert_eq!(interpreter.run(), Ok(()));
    assert_eq!(interpreter.memory.get_current_cell_value(), 1);
}

#[test]
fn a_run_that_aborts_at_the_edges_of_a_cell_fails_there() {
    let config = InterpreterConfig::new(1_000).with_cell_arithmetic(CellArithmetic::Abort);
    assert_eq!(config.limit_read_instructions, 1_000);
    assert_eq!(InterpreterConfig::new(5).cell_arithmetic, CellArithmetic::Ignore);
    assert_eq!(InterpreterConfig::default().cell_arithmetic, CellArithmetic::Ignore);

    let source = format!("{}>", "+".repeat(256));
    let ast = from_source_to_node_ast(&source).unwrap();
    let mut interpreter =
        Interpreter::with_config(NoRender, NoInput, BrainfuckMemory::default(), config);
    interpreter.load_ast_program(&ast);

    assert_eq!(interpreter.run(), Err(InterpreterErrors::CellOverflow));
    assert_eq!(interpreter.memory.get_current_cell_value(), 255);
    assert_eq!(interpreter.memory.get_position(), 0);
    assert_eq!(interpreter.instructions_read, 256);

    let ast = from_source_to_node_ast("+--").unwrap();
    let mut interpreter =
        Interpreter::with_config(NoRender, NoInput, BrainfuckMemory::default(), config);
    interpreter.load_ast_program(&ast);

    assert_eq!(interpreter.run(), Err(InterpreterErrors::CellUnderflow));
    assert_eq!(interpreter.memory.get_current_cell_value(), 0);
    assert_eq!(interpreter.instructions_read, 3);
}

#[test]
fn a_cell_above_127_is_not_printed_and_the_run_goes_on() {
    let source = format!("{}.-.", "+".repeat(128));
    let ast = from_source_to_node_ast(&source).unwrap();
    let seen = RefCell::new(Vec::new());
    let mut interpreter =
        Interpreter::new(Recorder { seen: &seen }, NoInput, BrainfuckMemory::default());
    interpreter.load_ast_program(&ast);

    assert_eq!(interpreter.run(), Ok(()));
    assert_eq!(*seen.borrow(), vec![ProgramValue('\u{7f}')]);
}

#[test]
fn each_input_node_asks_once_and_a_failed_read_leaves_the_cell() {
    let ast = from_source_to_node_ast(",>,>+,>,.").unwrap();
    let asked = Cell::new(0);
    let seen = RefCell::new(Vec::new());
    let script = Script {
        answers: vec![
            Ok(ProgramValue('a')),
            Err(InputError::Unknown),
            Ok(ProgramValue('\u{e9}')),
            Ok(ProgramValue('!')),
        ],
        asked: &asked,
    };
    let mut interpreter =
        Interpreter::new(Recorder { seen: &seen }, script, BrainfuckMemory::default());
    interpreter.load_ast_program(&ast);

    assert_eq!(interpreter.run(), Ok(()));
    assert_eq!(asked.get(), 4);
    assert_eq!(*seen.borrow(), vec![ProgramValue('!')]);
    assert_eq!(interpreter.memory.get_position(), 3);
    assert_eq!(interpreter.memory.move_pointer_position(-1), Ok(()));
    assert_eq!(interpreter.memory.get_current_cell_value(), 1);
    assert_eq!(interpreter.memory.move_pointer_position(-1), Ok(()));
    assert_eq!(interpreter.memory.get_current_cell_value(), 0);
    assert_eq!(interpreter.memory.move_pointer_position(-1), Ok(()));
    assert_eq!(interpreter.memory.get_current_cell_value(), 97);
}

#[test]
fn nodes_that_no_source_gives_are_unknown() {
    let unresolved = vec![BrainfuckNodeAST::Command(CommandInformation {
        operation: BrainfuckOperations::LoopStart,
        next_position: 1,
    })];
    let wrong_loop = vec![BrainfuckNodeAST::Loop(LoopInformation {
        operation: BrainfuckOperations::LoopEnd,
        next_position_as_true: 1,
        next_position_as_false: 1,
    })];
    let empty_node = vec![BrainfuckNodeAST::NoOp];

    for program in [&unresolved, &wrong_loop, &empty_node] {
        let mut interpreter = Interpreter::new(NoRender, NoInput, BrainfuckMemory::default());
        interpreter.load_ast_program(program);
        assert_eq!(interpreter.run(), Err(InterpreterErrors::UnknownASTNode));
        assert_eq!(interpreter.instructions_read, 1);
    }
}

#[test]
fn one_node_is_dispatched_with_the_answer_it_is_given() {
    let mut interpreter = Interpreter::new(NoRender, NoInput, BrainfuckMemory::new(2));
    let input = BrainfuckNodeAST::Command(CommandInformation {
        operation: BrainfuckOperations::InputCommand,
        next_position: 9,
    });
    let looped = BrainfuckNodeAST::Loop(LoopInformation {
        operation: BrainfuckOperations::LoopStart,
        next_position_as_true: 4,
        next_position_as_false: 8,
    });

    assert_eq!(interpreter.execute_node(&looped, None), Ok(8));
    assert_eq!(
        interpreter.execute_node(&input, Some(Ok(ProgramValue('C')))),
        Ok(9)
    );
    assert_eq!(interpreter.memory.get_current_cell_value(), 67);
    assert_eq!(interpreter.execute_node(&looped, None), Ok(4));
    assert_eq!(
        interpreter.execute_node(&input, Some(Err(InputError::Unknown))),
        Ok(9)
    );
    assert_eq!(interpreter.memory.get_current_cell_value(), 67);
    assert_eq!(interpreter.execute_node(&input, None), Ok(9));
    assert_eq!(interpreter.memory.get_current_cell_value(), 67);
    assert_eq!(
        interpreter.program_counter,
        Some(BrainfuckOperations::InputCommand)
    );
}

#[test]
fn a_run_starts_from_the_tape_as_the_last_run_left_it() {
    let ast = from_source_to_node_ast("+>").unwrap();
    let mut interpreter = Interpreter::new(NoRender, NoInput, BrainfuckMemory::new(3));
    interpreter.load_ast_program(&ast);

    assert_eq!(interpreter.run(), Ok(()));
    assert_eq!(interpreter.run(), Ok(()));
    assert_eq!(interpreter.memory.get_position(), 2);
    assert_eq!(interpreter.instructions_read, 2);
    assert_eq!(
        interpreter.run(),
        Err(InterpreterErrors::OutOfRangeMemoryAccess)
    );
    assert_eq!(interpreter.memory.get_current_cell_value(), 1);
}

#[test]
fn interpreter_errors_say_what_is_wrong() {
    assert_eq!(
        InterpreterErrors::OutOfRangeMemoryAccess.to_string(),
        "The program is trying to access to position out of range in the memory"
    );
    assert_eq!(
        InterpreterErrors::BudgetExhausted.to_string(),
        "Not enought reads to complete the program. Check if the program have infinite loops or increased the amount of reads"
    );
    assert_ne!(
        InterpreterErrors::EmptyAST.to_string(),
        InterpreterErrors::UnknownASTNode.to_string()
    );
}
