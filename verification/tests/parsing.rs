use braincrab::parser::{
    from_source_to_node_ast, map_char_to_brainfuck_operation, BrainfuckASTBuilder,
    BrainfuckNodeAST, BrainfuckOperations, CommandInformation, LoopInformation, ParserErrors,
};

#[test]
fn given_a_source_code_with_some_invalid_characters_when_parse_it_to_ast_then_return_an_ast_with_invalid_characters_filtered(
) {
    let input = "b[de+a-]";
    let mut builder = BrainfuckASTBuilder::new();

    let result = from_source_to_node_ast(input)
        .expect("The input should return only parsed the valid characters, the rest ignore it");

    assert_eq!(
        result,
        *builder
            .add_loop_node(BrainfuckOperations::LoopStart, 1, 4)
            .add_command_node(BrainfuckOperations::IncrementByOneCurrentCell, 2)
            .add_command_node(BrainfuckOperations::DecrementByOneCurrentCell, 3)
            .add_command_node(BrainfuckOperations::LoopEnd, 0)
            .build(),
    )
}

#[test]
fn given_a_source_code_with_only_invalid_characters_when_parse_it_to_ast_then_return_an_empty_array(
) {
    let input = "not a none valid character!!!";

    let result = from_source_to_node_ast(input)
        .expect("Expected an empty array as we ignore everything not related to brainfuck");

    assert_eq!(result, [])
}

#[test]
fn given_a_loop_ast_formatted_then_return_a_correct_ast_with_their_information() {
    let input = "++[+>]++";
    let mut builder = BrainfuckASTBuilder::new();

    let result = from_source_to_node_ast(input)
        .expect("Expected a vec with the   dtoken correctly parsed to their AST");

    assert_eq!(
        result,
        *builder
            .add_command_node(BrainfuckOperations::IncrementByOneCurrentCell, 1)
            .add_command_node(BrainfuckOperations::IncrementByOneCurrentCell, 2)
            .add_loop_node(BrainfuckOperations::LoopStart, 3, 6)
            .add_command_node(BrainfuckOperations::IncrementByOneCurrentCell, 4)
            .add_command_node(BrainfuckOperations::MovePointerRight, 5)
            .add_command_node(BrainfuckOperations::LoopEnd, 2)
            .add_command_node(BrainfuckOperations::IncrementByOneCurrentCell, 7)
            .add_command_node(BrainfuckOperations::IncrementByOneCurrentCell, 8)
            .build()
    )
}

#[test]
fn given_a_terminated_loop_found_before_an_open_loop_then_return_an_error() {
    let input = "+]";

    let result = from_source_to_node_ast(input)
        .expect_err("Expected an error as the first bracked found is close loop");

    assert_eq!(result, ParserErrors::MissingOpenLoop)
}

#[test]
fn given_double_terminated_loop_found_after_one_open_loop_then_return_an_error() {
    let input = "+++[+++++]---]";

    let result = from_source_to_node_ast(input)
        .expect_err("Expected an error as we have unbalanced brackets in the loop");

    assert_eq!(result, ParserErrors::MissingOpenLoop)
}

#[test]
fn given_a_open_bracket_without_his_matched_bracket_then_return_an_error() {
    let input = "[+++";

    let result = from_source_to_node_ast(input)
        .expect_err("Expected an error as the parsed ended before could find a matched bracket");

    assert_eq!(result, ParserErrors::MissingTerminantedLoop)
}

#[test]
fn each_symbol_maps_to_its_instruction_and_nothing_else_does() {
    assert_eq!(
        map_char_to_brainfuck_operation('>'),
        Some(BrainfuckOperations::MovePointerRight)
    );
    assert_eq!(
        map_char_to_brainfuck_operation('<'),
        Some(BrainfuckOperations::MovePointerLeft)
    );
    assert_eq!(
        map_char_to_brainfuck_operation('+'),
        Some(BrainfuckOperations::IncrementByOneCurrentCell)
    );
    assert_eq!(
        map_char_to_brainfuck_operation('-'),
        Some(BrainfuckOperations::DecrementByOneCurrentCell)
    );
    assert_eq!(
        map_char_to_brainfuck_operation(','),
        Some(BrainfuckOperations::InputCommand)
    );
    assert_eq!(
        map_char_to_brainfuck_operation('.'),
        Some(BrainfuckOperations::OutputCommand)
    );
    assert_eq!(
        map_char_to_brainfuck_operation('['),
        Some(BrainfuckOperations::LoopStart)
    );
    assert_eq!(
        map_char_to_brainfuck_operation(']'),
        Some(BrainfuckOperations::LoopEnd)
    );
    assert_eq!(map_char_to_brainfuck_operation('a'), None);
    assert_eq!(map_char_to_brainfuck_operation(' '), None);
    assert_eq!(map_char_to_brainfuck_operation('\u{e9}'), None);
}

#[test]
fn an_empty_source_is_an_empty_program() {
    assert_eq!(from_source_to_node_ast(""), Ok(vec![]));
}

#[test]
fn nested_and_adjacent_loops_are_resolved() {
    let result = from_source_to_node_ast("[[-]>[+]]").unwrap();

    let command = |operation, next_position| {
        BrainfuckNodeAST::Command(CommandInformation {
            operation,
            next_position,
        })
    };
    let looped = |next_position_as_true, next_position_as_false| {
        BrainfuckNodeAST::Loop(LoopInformation {
            operation: BrainfuckOperations::LoopStart,
            next_position_as_true,
            next_position_as_false,
        })
    };
    assert_eq!(
        result,
        vec![
            looped(1, 9),
            looped(2, 4),
            command(BrainfuckOperations::DecrementByOneCurrentCell, 3),
            command(BrainfuckOperations::LoopEnd, 1),
            command(BrainfuckOperations::MovePointerRight, 5),
            looped(6, 8),
            command(BrainfuckOperations::IncrementByOneCurrentCell, 7),
            command(BrainfuckOperations::LoopEnd, 5),
            command(BrainfuckOperations::LoopEnd, 0),
        ]
    );
}

#[test]
fn a_balanced_source_has_as_many_loop_nodes_as_loop_ends() {
    let result = from_source_to_node_ast("+[>[-]<[.,]]-[]").unwrap();

    let starts = result
        .iter()
        .filter(|node| matches!(node, BrainfuckNodeAST::Loop(_)))
        .count();
    let ends = result
        .iter()
        .filter(|node| {
            matches!(
                node,
                BrainfuckNodeAST::Command(CommandInformation {
                    operation: BrainfuckOperations::LoopEnd,
                    ..
                })
            )
        })
        .count();
    assert_eq!(starts, 4);
    assert_eq!(ends, 4);
}

#[test]
fn an_early_loop_end_wins_over_an_open_loop() {
    assert_eq!(
        from_source_to_node_ast("]["),
        Err(ParserErrors::MissingOpenLoop)
    );
    assert_eq!(
        from_source_to_node_ast("[]][["),
        Err(ParserErrors::MissingOpenLoop)
    );
}

#[test]
fn one_open_loop_among_closed_ones_is_reported_at_the_end() {
    assert_eq!(
        from_source_to_node_ast("[-][+[>]"),
        Err(ParserErrors::MissingTerminantedLoop)
    );
}

#[test]
fn other_characters_change_nothing() {
    assert_eq!(
        from_source_to_node_ast("a+ b[c-\n]d"),
        from_source_to_node_ast("+[-]")
    );
}

#[test]
fn the_builder_numbers_a_run_of_nodes_from_where_it_stands() {
    let mut builder = BrainfuckASTBuilder::new();
    builder
        .add_command_node(BrainfuckOperations::MovePointerRight, 1)
        .add_n_command_nodes(BrainfuckOperations::IncrementByOneCurrentCell, 2);

    assert_eq!(
        *builder.build(),
        vec![
            BrainfuckNodeAST::Command(CommandInformation {
                operation: BrainfuckOperations::MovePointerRight,
                next_position: 1,
            }),
            BrainfuckNodeAST::Command(CommandInformation {
                operation: BrainfuckOperations::IncrementByOneCurrentCell,
                next_position: 2,
            }),
            BrainfuckNodeAST::Command(CommandInformation {
                operation: BrainfuckOperations::IncrementByOneCurrentCell,
                next_position: 3,
            }),
        ]
    );
}

#[test]
fn parser_errors_say_what_is_wrong() {
    assert_eq!(
        ParserErrors::MissingTerminantedLoop.to_string(),
        "The source code have more open loop brackets than closing loop brackets."
    );
    assert_eq!(
        ParserErrors::MissingOpenLoop.to_string(),
        "The source code have more closing loop brackets than open loop brackets."
    );
}
