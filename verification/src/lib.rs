//! A small interpreter for an eight-symbol tape language: a parser that resolves
//! loops into jump targets, a bounded byte tape, and an execution engine with an
//! instruction budget.

use vstd::prelude::*;

pub mod file;
pub mod interpreter;
pub mod io;
pub mod number;
pub mod parser;

use crate::interpreter::MAX_LIMIT_READ_INSTRUCTIONS;
use crate::io::MAX_MEMORY_SIZE;
use crate::number::{parse_unsigned, unsigned_of};

verus! {

/// What an argument that must be a number from 1 to `max` stands for: the number,
/// or the words that say what is wrong with it.
pub open spec fn bounded_argument(text: Seq<char>, max: nat, above: Seq<char>) -> Result<
    nat,
    Seq<char>,
> {
    match unsigned_of(text, usize::MAX as nat) {
        Ok(value) => if value > max {
            Err(above)
        } else if value < 1 {
            Err("Minimum value accepted is 1"@)
        } else {
            Ok(value)
        },
        Err(e) => Err(e.message()),
    }
}

/// `r` is the outcome `expected`, its number or its words.
pub open spec fn is_argument(r: Result<usize, String>, expected: Result<nat, Seq<char>>) -> bool {
    match r {
        Ok(value) => expected == Ok::<nat, Seq<char>>(value as nat),
        Err(text) => expected == Err::<nat, Seq<char>>(text@),
    }
}

/// Reads the number of cells of the tape: from 1 to 30000.
pub fn memory_size_parser(memory_size: &str) -> (r: Result<usize, String>)
    ensures
        is_argument(
            r,
            bounded_argument(
                memory_size@,
                MAX_MEMORY_SIZE as nat,
                "Maximum value accepted is 30_000"@,
            ),
        ),
{
    match parse_unsigned(memory_size, usize::MAX) {
        Ok(value) => if value > MAX_MEMORY_SIZE {
            Err("Maximum value accepted is 30_000".to_owned())
        } else if value < 1 {
            Err("Minimum value accepted is 1".to_owned())
        } else {
            Ok(value)
        },
        Err(e) => Err(e.to_string()),
    }
}

/// Reads the instruction limit of a run: from 1 to 100000.
pub fn limit_read_instructions_parser(limit_read_instructions: &str) -> (r: Result<usize, String>)
    ensures
        is_argument(
            r,
            bounded_argument(
                limit_read_instructions@,
                MAX_LIMIT_READ_INSTRUCTIONS as nat,
                "Maximum value accepted is 100_000"@,
            ),
        ),
{
    match parse_unsigned(limit_read_instructions, usize::MAX) {
        Ok(value) => if value > MAX_LIMIT_READ_INSTRUCTIONS {
            Err("Maximum value accepted is 100_000".to_owned())
        } else if value < 1 {
            Err("Minimum value accepted is 1".to_owned())
        } else {
            Ok(value)
        },
        Err(e) => Err(e.to_string()),
    }
}

} // verus!
