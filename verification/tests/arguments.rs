use braincrab::number::{parse_unsigned, NumberError};
use braincrab::{limit_read_instructions_parser, memory_size_parser};

#[test]
fn a_memory_size_within_the_bounds_is_read() {
    assert_eq!(memory_size_parser("1"), Ok(1));
    assert_eq!(memory_size_parser("3000"), Ok(3000));
    assert_eq!(memory_size_parser("30000"), Ok(30000));
    assert_eq!(memory_size_parser("+12"), Ok(12));
}

#[test]
fn a_memory_size_outside_the_bounds_is_refused() {
    assert_eq!(
        memory_size_parser("0"),
        Err("Minimum value accepted is 1".to_string())
    );
    assert_eq!(
        memory_size_parser("30001"),
        Err("Maximum value accepted is 30_000".to_string())
    );
    assert_eq!(
        memory_size_parser("100001"),
        Err("Maximum value accepted is 30_000".to_string())
    );
}

#[test]
fn a_memory_size_that_is_no_number_is_refused_in_the_words_of_the_number_error() {
    assert_eq!(
        memory_size_parser(""),
        Err("cannot parse integer from empty string".to_string())
    );
    assert_eq!(
        memory_size_parser("12x"),
        Err("invalid digit found in string".to_string())
    );
    assert_eq!(
        memory_size_parser("-3"),
        Err("invalid digit found in string".to_string())
    );
    assert_eq!(
        memory_size_parser("340282366920938463463374607431768211456"),
        Err("number too large to fit in target type".to_string())
    );
}

#[test]
fn an_instruction_limit_within_the_bounds_is_read() {
    assert_eq!(limit_read_instructions_parser("1"), Ok(1));
    assert_eq!(limit_read_instructions_parser("60000"), Ok(60000));
    assert_eq!(limit_read_instructions_parser("100000"), Ok(100000));
}

#[test]
fn an_instruction_limit_outside_the_bounds_is_refused() {
    assert_eq!(
        limit_read_instructions_parser("0"),
        Err("Minimum value accepted is 1".to_string())
    );
    assert_eq!(
        limit_read_instructions_parser("100001"),
        Err("Maximum value accepted is 100_000".to_string())
    );
    assert_eq!(
        limit_read_instructions_parser("ten"),
        Err("invalid digit found in string".to_string())
    );
}

#[test]
fn the_parsers_agree_with_the_standard_parser_on_what_a_number_is() {
    for text in [
        "", "+", "-", "0", "00", "+0", "++1", "1+", "42", " 42", "42 ", "4_2", "0x10", "255",
        "256", "99a", "256a", "18446744073709551615", "18446744073709551616",
    ] {
        let ours = parse_unsigned(text, usize::MAX).ok();
        let theirs = text.parse::<usize>().ok();
        assert_eq!(ours, theirs, "{:?}", text);
    }
}

#[test]
fn a_number_is_read_up_to_its_bound() {
    assert_eq!(parse_unsigned("255", 255), Ok(255));
    assert_eq!(parse_unsigned("256", 255), Err(NumberError::PosOverflow));
    assert_eq!(parse_unsigned("2560", 255), Err(NumberError::PosOverflow));
    assert_eq!(parse_unsigned("25x", 255), Err(NumberError::InvalidDigit));
    assert_eq!(parse_unsigned("", 255), Err(NumberError::Empty));
    assert_eq!(parse_unsigned("+", 255), Err(NumberError::InvalidDigit));
    assert_eq!(parse_unsigned("0", 0), Ok(0));
    assert_eq!(parse_unsigned("1", 0), Err(NumberError::PosOverflow));
}
