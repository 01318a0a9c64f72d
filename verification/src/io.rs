use crate::number::{parse_unsigned, unsigned_of, NumberError};
use vstd::prelude::*;
use vstd::string::StrSliceExecFns;
use vstd::utf8::is_ascii_chars;

verus! {

/// The largest tape that can be made.
pub const MAX_MEMORY_SIZE: usize = 30_000;

/// The length of the tape that `BrainfuckMemory::default` makes.
pub const DEFAULT_MEMORY_SIZE: usize = 3_000;

/// One character exchanged with the input and output collaborators.
#[derive(Debug, PartialEq, Eq, Structural, Clone, Copy)]
pub struct ProgramValue(pub char);

/// Why no value came from the input collaborator.
#[derive(Debug, PartialEq, Eq, Structural, Clone, Copy)]
pub enum InputError {
    Unknown,
}

/// Produces one value each time the program asks for input.
pub trait InputValue {
    fn get_input(&self) -> Result<ProgramValue, InputError>;
}

/// Takes one value each time the program writes output.
pub trait OutputValue {
    fn print(&self, value: ProgramValue);
}

/// Why a cell or the cursor could not be changed.
#[derive(Debug, PartialEq, Eq, Structural, Clone, Copy)]
pub enum MemoryErrors {
    /// The cell holds the largest value and cannot be incremented.
    CellOverflow,
    /// The cell holds zero and cannot be decremented.
    CellUnderflow,
    /// The cursor would leave the tape.
    OutOfRange,
}

/// Why a text from the prompt is no value.
#[derive(Debug, PartialEq, Eq, Structural, Clone, Copy)]
pub enum AsciiParseError {
    /// The text is a number, but above 127.
    NotValidNumericRangeValue,
    /// The text is no number and holds a character that is not 7-bit ASCII.
    NotValidAsciiCharacter,
    /// The text is empty.
    UnknownError,
}

/// The value that a text from the prompt stands for: the character with that code
/// where the text is a decimal number of at most 127, else the first character of a
/// text of 7-bit characters.
pub open spec fn prompt_value(text: Seq<char>) -> Result<ProgramValue, AsciiParseError> {
    match unsigned_of(text, u8::MAX as nat) {
        Ok(code) => if code <= 127 {
            Ok(ProgramValue(code as u8 as char))
        } else {
            Err(AsciiParseError::NotValidNumericRangeValue)
        },
        Err(NumberError::PosOverflow) => Err(AsciiParseError::NotValidNumericRangeValue),
        Err(NumberError::InvalidDigit) => if is_ascii_chars(text) {
            Ok(ProgramValue(text[0]))
        } else {
            Err(AsciiParseError::NotValidAsciiCharacter)
        },
        Err(NumberError::Empty) => Err(AsciiParseError::UnknownError),
    }
}

/// What std writes for a character under `{:?}`: the character between single
/// quotes, escaped where std escapes it.
pub uninterp spec fn debug_text(value: char) -> Seq<char>;

/// `format!` of std with `{:?}` on a character. The text that comes back is the
/// one named `debug_text`; nothing more is claimed of it.
#[verifier::external_body]
fn debug_format(value: char) -> (text: String)
    ensures
        text@ == debug_text(value),
{
    format!("{:?}", value)
}

/// The byte of a 7-bit character.
pub open spec fn ascii_code(value: char) -> Option<u8> {
    if value as u32 <= 127 {
        Some(value as u8)
    } else {
        None
    }
}

/// The character of a 7-bit byte.
pub open spec fn ascii_char(code: u8) -> Option<char> {
    if code <= 127 {
        Some(code as char)
    } else {
        None
    }
}

/// The character that a byte stands for, if it is 7-bit ASCII.
pub fn ascii_char_from_u8(code: u8) -> (r: Option<char>)
    ensures
        r == ascii_char(code),
{
    if code <= 127 {
        Some(code as char)
    } else {
        None
    }
}

/// One more than the cell, where there is such a byte.
pub open spec fn checked_increment(cell: u8) -> Result<u8, MemoryErrors> {
    if cell < u8::MAX {
        Ok((cell + 1) as u8)
    } else {
        Err(MemoryErrors::CellOverflow)
    }
}

/// One less than the cell, where there is such a byte.
pub open spec fn checked_decrement(cell: u8) -> Result<u8, MemoryErrors> {
    if cell > 0 {
        Ok((cell - 1) as u8)
    } else {
        Err(MemoryErrors::CellUnderflow)
    }
}

/// The cell's new value when it is overwritten with `value`.
pub open spec fn replaced_by(value: u8) -> Result<u8, MemoryErrors> {
    Ok(value)
}

/// The checked increment of a cell.
pub fn increment_cell(value: u8) -> (r: Result<u8, MemoryErrors>)
    ensures
        r == checked_increment(value),
{
    match value.checked_add(1) {
        Some(sum) => Ok(sum),
        None => Err(MemoryErrors::CellOverflow),
    }
}

/// The checked decrement of a cell.
pub fn decrement_cell(value: u8) -> (r: Result<u8, MemoryErrors>)
    ensures
        r == checked_decrement(value),
{
    match value.checked_sub(1) {
        Some(difference) => Ok(difference),
        None => Err(MemoryErrors::CellUnderflow),
    }
}

impl ProgramValue {
    pub fn new(value: char) -> (r: Self)
        ensures
            r == ProgramValue(value),
    {
        ProgramValue(value)
    }

    /// Reads a value from a text of the prompt: a decimal code from 0 to 127, or a
    /// character.
    pub fn try_from(value: &str) -> (r: Result<ProgramValue, AsciiParseError>)
        ensures
            r == prompt_value(value@),
    {
        match parse_unsigned(value, 255) {
            Ok(code) => match ascii_char_from_u8(code as u8) {
                Some(character) => Ok(ProgramValue(character)),
                None => Err(AsciiParseError::NotValidNumericRangeValue),
            },
            Err(NumberError::PosOverflow) => Err(AsciiParseError::NotValidNumericRangeValue),
            Err(NumberError::InvalidDigit) => {
                if value.is_ascii() {
                    Ok(ProgramValue(value.get_char(0)))
                } else {
                    Err(AsciiParseError::NotValidAsciiCharacter)
                }
            },
            Err(NumberError::Empty) => Err(AsciiParseError::UnknownError),
        }
    }

    /// The value as it is shown: its character as std writes it under `{:?}`.
    pub fn to_string(&self) -> (text: String)
        ensures
            text@ == debug_text(self.0),
    {
        debug_format(self.0)
    }

    /// The byte that a cell takes from this value.
    pub open spec fn code(self) -> Option<u8> {
        ascii_code(self.0)
    }

    /// The byte of this value, if its character is 7-bit ASCII.
    pub fn to_u8(&self) -> (r: Option<u8>)
        ensures
            r == self.code(),
    {
        if self.0 as u32 <= 127 {
            Some(self.0 as u8)
        } else {
            None
        }
    }

    /// The value that stands for a cell, if the cell holds a 7-bit character.
    pub fn from_u8(code: u8) -> (r: Option<ProgramValue>)
        ensures
            r == match ascii_char(code) {
                Some(value) => Some(ProgramValue(value)),
                None => None,
            },
    {
        match ascii_char_from_u8(code) {
            Some(value) => Some(ProgramValue(value)),
            None => None,
        }
    }
}

/// A tape of cells with one cursor. The engine reads and changes the tape through
/// these four operations only.
pub trait MemoryTape<T> {
    /// The cells of the tape.
    spec fn cells(&self) -> Seq<T>;

    /// The index of the current cell.
    spec fn cursor(&self) -> int;

    /// The value of the current cell.
    fn get_current_cell_value(&self) -> (value: T)
        requires
            0 <= self.cursor() < self.cells().len(),
        ensures
            value == self.cells()[self.cursor()],
    ;

    /// Applies `f` to the current cell. Where `f` gives a value, the cell takes it;
    /// where `f` fails, its error is handed on and the tape stays as it was.
    fn update_memory_cell_value<F: FnOnce(T) -> Result<T, MemoryErrors>>(&mut self, f: F) -> (r:
        Result<(), MemoryErrors>)
        requires
            0 <= old(self).cursor() < old(self).cells().len(),
            call_requires(f, (old(self).cells()[old(self).cursor()],)),
        ensures
            final(self).cursor() == old(self).cursor(),
            match r {
                Ok(()) => {
                    &&& call_ensures(
                        f,
                        (old(self).cells()[old(self).cursor()],),
                        Ok(final(self).cells()[old(self).cursor()]),
                    )
                    &&& final(self).cells() == old(self).cells().update(
                        old(self).cursor(),
                        final(self).cells()[old(self).cursor()],
                    )
                },
                Err(e) => {
                    &&& call_ensures(f, (old(self).cells()[old(self).cursor()],), Err(e))
                    &&& final(self).cells() == old(self).cells()
                },
            },
    ;

    /// Moves the cursor by `delta`. Where that would leave the tape, the cursor
    /// stays and the move fails.
    fn move_pointer_position(&mut self, delta: isize) -> (r: Result<(), MemoryErrors>)
        requires
            0 <= old(self).cursor() < old(self).cells().len(),
        ensures
            final(self).cells() == old(self).cells(),
            0 <= final(self).cursor() < final(self).cells().len(),
            match r {
                Ok(()) => {
                    &&& 0 <= old(self).cursor() + delta < old(self).cells().len()
                    &&& final(self).cursor() == old(self).cursor() + delta
                },
                Err(e) => {
                    &&& !(0 <= old(self).cursor() + delta < old(self).cells().len())
                    &&& e == MemoryErrors::OutOfRange
                    &&& final(self).cursor() == old(self).cursor()
                },
            },
    ;

    /// The index of the current cell.
    fn get_position(&self) -> (position: usize)
        requires
            0 <= self.cursor() < self.cells().len(),
        ensures
            position == self.cursor(),
    ;
}

/// A tape of bytes of fixed length, all zero at first, with the cursor on the
/// first cell.
pub struct BrainfuckMemory {
    memory: Vec<u8>,
    position: usize,
}

/// The length of the tape that is made when `size` cells are asked for.
pub open spec fn tape_length(size: usize) -> usize {
    if size < 1 {
        1
    } else if size > MAX_MEMORY_SIZE {
        MAX_MEMORY_SIZE
    } else {
        size
    }
}

impl BrainfuckMemory {
    /// A zeroed tape of `size` cells, but of at least one cell and of at most
    /// `MAX_MEMORY_SIZE`.
    pub fn new(size: usize) -> (tape: Self)
        ensures
            tape.cells() == Seq::new(tape_length(size) as nat, |i: int| 0u8),
            tape.cursor() == 0,
    {
        let length = if size < 1 {
            1
        } else if size > MAX_MEMORY_SIZE {
            MAX_MEMORY_SIZE
        } else {
            size
        };
        let mut memory: Vec<u8> = Vec::new();
        let mut filled: usize = 0;
        while filled < length
            invariant
                filled <= length,
                memory@ == Seq::new(filled as nat, |i: int| 0u8),
            decreases length - filled,
        {
            memory.push(0);
            filled = filled + 1;
            assert(memory@ =~= Seq::new(filled as nat, |i: int| 0u8));
        }
        BrainfuckMemory { memory, position: 0 }
    }
}

impl Default for BrainfuckMemory {
    fn default() -> (tape: Self)
        ensures
            tape.cells() == Seq::new(DEFAULT_MEMORY_SIZE as nat, |i: int| 0u8),
            tape.cursor() == 0,
    {
        BrainfuckMemory::new(DEFAULT_MEMORY_SIZE)
    }
}

impl MemoryTape<u8> for BrainfuckMemory {
    closed spec fn cells(&self) -> Seq<u8> {
        self.memory@
    }

    closed spec fn cursor(&self) -> int {
        self.position as int
    }

    fn get_current_cell_value(&self) -> (value: u8) {
        self.memory[self.position]
    }

    fn update_memory_cell_value<F: FnOnce(u8) -> Result<u8, MemoryErrors>>(&mut self, f: F) -> (r:
        Result<(), MemoryErrors>) {
        match f(self.memory[self.position]) {
            Ok(value) => {
                self.memory.set(self.position, value);
                assert(self.memory@ =~= old(self).memory@.update(self.position as int, value));
                Ok(())
            },
            Err(e) => Err(e),
        }
    }

    fn move_pointer_position(&mut self, delta: isize) -> (r: Result<(), MemoryErrors>) {
        let target: i128 = self.position as i128 + delta as i128;
        if 0 <= target && target < self.memory.len() as i128 {
            self.position = target as usize;
            Ok(())
        } else {
            Err(MemoryErrors::OutOfRange)
        }
    }

    fn get_position(&self) -> (position: usize) {
        self.position
    }
}

} // verus!
