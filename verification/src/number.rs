use vstd::prelude::*;
use vstd::std_specs::iter::IteratorSpec;

verus! {

/// Why a text is not an unsigned decimal number within a bound.
#[derive(Debug, PartialEq, Eq, Structural, Clone, Copy)]
pub enum NumberError {
    /// The text has no character.
    Empty,
    /// A character is no decimal digit; a sign with nothing behind it counts as one.
    InvalidDigit,
    /// The digits read so far already stand for more than the bound.
    PosOverflow,
}

impl NumberError {
    /// The error in words.
    pub open spec fn message(self) -> Seq<char> {
        match self {
            NumberError::Empty => "cannot parse integer from empty string"@,
            NumberError::InvalidDigit => "invalid digit found in string"@,
            NumberError::PosOverflow => "number too large to fit in target type"@,
        }
    }

    pub fn to_string(&self) -> (text: String)
        ensures
            text@ == self.message(),
    {
        match self {
            NumberError::Empty => "cannot parse integer from empty string".to_owned(),
            NumberError::InvalidDigit => "invalid digit found in string".to_owned(),
            NumberError::PosOverflow => "number too large to fit in target type".to_owned(),
        }
    }
}

/// The character is a decimal digit.
pub open spec fn is_digit(c: char) -> bool {
    '0' <= c <= '9'
}

/// The number that a decimal digit stands for.
pub open spec fn digit_value(c: char) -> nat {
    (c as u32 - '0' as u32) as nat
}

/// The number that a sequence of decimal digits stands for.
pub open spec fn decimal_value(digits: Seq<char>) -> nat
    decreases digits.len(),
{
    if digits.len() == 0 {
        0
    } else {
        decimal_value(digits.drop_last()) * 10 + digit_value(digits.last())
    }
}

/// The text without a leading plus sign. A plus sign alone is left as it is.
pub open spec fn digits_of(text: Seq<char>) -> Seq<char> {
    if text.len() > 1 && text[0] == '+' {
        text.skip(1)
    } else {
        text
    }
}

/// Every character is a decimal digit.
pub open spec fn all_digits(text: Seq<char>) -> bool {
    forall|j: int| 0 <= j < text.len() ==> is_digit(#[trigger] text[j])
}

/// Some run of digits at the start stands for more than `max`.
pub open spec fn overflows(digits: Seq<char>, max: nat) -> bool {
    exists|n: int|
        0 <= n <= digits.len() && all_digits(#[trigger] digits.take(n)) && decimal_value(
            digits.take(n),
        ) > max
}

/// The unsigned decimal number that a text stands for, read from the left: digits
/// only, after at most one plus sign. The first character that is no digit, or the
/// first digit with which the number passes `max`, decides the error.
pub open spec fn unsigned_of(text: Seq<char>, max: nat) -> Result<nat, NumberError> {
    let digits = digits_of(text);
    if text.len() == 0 {
        Err(NumberError::Empty)
    } else if overflows(digits, max) {
        Err(NumberError::PosOverflow)
    } else if !all_digits(digits) {
        Err(NumberError::InvalidDigit)
    } else {
        Ok(decimal_value(digits))
    }
}

/// The digits read so far and one more.
proof fn lemma_decimal_value_step(digits: Seq<char>, k: int)
    requires
        0 <= k < digits.len(),
    ensures
        decimal_value(digits.take(k + 1)) == decimal_value(digits.take(k)) * 10 + digit_value(
            digits[k],
        ),
{
    assert(digits.take(k + 1).drop_last() =~= digits.take(k));
}

/// Reads an unsigned decimal number of at most `max`.
pub fn parse_unsigned(text: &str, max: usize) -> (r: Result<usize, NumberError>)
    ensures
        match r {
            Ok(value) => value <= max && unsigned_of(text@, max as nat) == Ok::<nat, NumberError>(
                value as nat,
            ),
            Err(e) => unsigned_of(text@, max as nat) == Err::<nat, NumberError>(e),
        },
{
    broadcast use vstd::string::group_string_axioms;

    let mut chars = text.chars();
    let first = match chars.next() {
        Some(first) => first,
        None => {
            return Err(NumberError::Empty);
        },
    };
    let ghost digits = digits_of(text@);
    let mut current = first;
    proof {
        assert(text@.drop_first() =~= text@.skip(1));
    }
    if first == '+' {
        match chars.next() {
            Some(second) => {
                current = second;
                proof {
                    assert(text@.skip(1).drop_first() =~= digits.skip(1));
                }
            },
            None => {
                proof {
                    assert(!is_digit(digits[0]));
                    assert forall|n: int|
                        0 <= n <= digits.len() && all_digits(
                            #[trigger] digits.take(n),
                        ) implies decimal_value(digits.take(n)) <= max by {
                        if n > 0 {
                            assert(digits.take(n)[0] == digits[0]);
                        }
                    }
                }
                return Err(NumberError::InvalidDigit);
            },
        }
    }
    let mut value: usize = 0;
    let ghost mut k: int = 0;
    proof {
        assert(digits.take(0) =~= Seq::<char>::empty());
    }
    loop
        invariant_except_break
            0 <= k < digits.len(),
            current == digits[k],
            chars.remaining() == digits.skip(k + 1),
        invariant
            digits == digits_of(text@),
            text@.len() > 0,
            chars.obeys_prophetic_iter_laws(),
            forall|j: int| 0 <= j < k ==> is_digit(#[trigger] digits[j]),
            forall|j: int| 0 <= j <= k ==> #[trigger] decimal_value(digits.take(j)) <= max,
            value == decimal_value(digits.take(k)),
        ensures
            k == digits.len(),
            forall|j: int| 0 <= j < k ==> is_digit(#[trigger] digits[j]),
            forall|j: int| 0 <= j <= k ==> #[trigger] decimal_value(digits.take(j)) <= max,
            value == decimal_value(digits.take(k)),
        decreases digits.len() - k,
    {
        if !('0' <= current && current <= '9') {
            proof {
                assert(!is_digit(digits[k]));
                assert forall|n: int|
                    0 <= n <= digits.len() && all_digits(
                        #[trigger] digits.take(n),
                    ) implies decimal_value(digits.take(n)) <= max by {
                    if n > k {
                        assert(digits.take(n)[k] == digits[k]);
                    }
                }
            }
            return Err(NumberError::InvalidDigit);
        }
        let digit = (current as u32 - '0' as u32) as usize;
        proof {
            lemma_decimal_value_step(digits, k);
        }
        if value as u128 * 10 + digit as u128 > max as u128 {
            proof {
                assert forall|j: int| 0 <= j < digits.take(k + 1).len() implies is_digit(
                    #[trigger] digits.take(k + 1)[j],
                ) by {
                    assert(digits.take(k + 1)[j] == digits[j]);
                }
            }
            return Err(NumberError::PosOverflow);
        }
        value = value * 10 + digit;
        proof {
            k = k + 1;
        }
        match chars.next() {
            Some(next) => {
                current = next;
                proof {
                    assert(digits.skip(k).drop_first() =~= digits.skip(k + 1));
                }
            },
            None => {
                break ;
            },
        }
    }
    proof {
        assert(digits.take(k) =~= digits);
        assert forall|n: int|
            0 <= n <= digits.len() && all_digits(
                #[trigger] digits.take(n),
            ) implies decimal_value(digits.take(n)) <= max by {}
    }
    Ok(value)
}

} // verus!
