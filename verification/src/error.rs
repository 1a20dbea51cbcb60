//! The ways in which loading or running a program can fail.

use vstd::prelude::*;

verus! {

/// A failure of the interpreter. Every variant carries the position, in the
/// instruction sequence, of the instruction that caused it.
#[derive(Clone, Copy, Debug, PartialEq, Eq, Structural)]
pub enum InterpreterError {
    /// The `[` at this position has no matching `]`.
    RightBracketNotFound(usize),
    /// The `]` at this position has no matching `[`.
    LeftBracketNotFound(usize),
    /// The pointer move at this position would leave the tape.
    PointerOutOfBounds(usize),
    /// The step budget ran out in front of the instruction at this position.
    StepLimitReached(usize),
}

impl InterpreterError {
    /// The position that the error carries.
    pub open spec fn spec_position(&self) -> usize {
        match *self {
            InterpreterError::RightBracketNotFound(p) => p,
            InterpreterError::LeftBracketNotFound(p) => p,
            InterpreterError::PointerOutOfBounds(p) => p,
            InterpreterError::StepLimitReached(p) => p,
        }
    }

    /// The position of the instruction that caused the error.
    #[verifier::when_used_as_spec(spec_position)]
    pub fn position(&self) -> (p: usize)
        ensures
            p == self.spec_position(),
    {
        match self {
            InterpreterError::RightBracketNotFound(p) => *p,
            InterpreterError::LeftBracketNotFound(p) => *p,
            InterpreterError::PointerOutOfBounds(p) => *p,
            InterpreterError::StepLimitReached(p) => *p,
        }
    }

    /// What went wrong, without the position.
    pub open spec fn reason(&self) -> Seq<char> {
        match *self {
            InterpreterError::RightBracketNotFound(_) =>
                ", right bracket not found to match the left bracket"@,
            InterpreterError::LeftBracketNotFound(_) =>
                ", left bracket not found to match the right bracket"@,
            InterpreterError::PointerOutOfBounds(_) => ", pointer moved off the tape"@,
            InterpreterError::StepLimitReached(_) => ", step limit reached"@,
        }
    }

    /// The text of the error: the position in decimal, then the reason.
    pub open spec fn message(&self) -> Seq<char> {
        "line: "@ + decimal(self.spec_position() as nat) + self.reason()
    }

    /// The text of the error, for display.
    pub fn to_string(&self) -> (text: String)
        ensures
            text@ == self.message(),
    {
        let mut text = String::from_str("line: ");
        push_decimal(&mut text, self.position());
        match self {
            InterpreterError::RightBracketNotFound(_) => text.append(
                ", right bracket not found to match the left bracket",
            ),
            InterpreterError::LeftBracketNotFound(_) => text.append(
                ", left bracket not found to match the right bracket",
            ),
            InterpreterError::PointerOutOfBounds(_) => text.append(", pointer moved off the tape"),
            InterpreterError::StepLimitReached(_) => text.append(", step limit reached"),
        }
        text
    }
}

/// The character of a decimal digit.
pub open spec fn digit(d: nat) -> char {
    if d == 0 {
        '0'
    } else if d == 1 {
        '1'
    } else if d == 2 {
        '2'
    } else if d == 3 {
        '3'
    } else if d == 4 {
        '4'
    } else if d == 5 {
        '5'
    } else if d == 6 {
        '6'
    } else if d == 7 {
        '7'
    } else if d == 8 {
        '8'
    } else {
        '9'
    }
}

/// A number in decimal, most significant digit first, without leading zeros.
pub open spec fn decimal(n: nat) -> Seq<char>
    decreases n,
{
    if n < 10 {
        seq![digit(n)]
    } else {
        decimal(n / 10).push(digit(n % 10))
    }
}

/// The one-character text of a decimal digit.
fn digit_text(d: usize) -> (text: &'static str)
    requires
        d < 10,
    ensures
        text@ == seq![digit(d as nat)],
{
    proof {
        reveal_strlit("0");
        reveal_strlit("1");
        reveal_strlit("2");
        reveal_strlit("3");
        reveal_strlit("4");
        reveal_strlit("5");
        reveal_strlit("6");
        reveal_strlit("7");
        reveal_strlit("8");
        reveal_strlit("9");
    }
    match d {
        0 => "0",
        1 => "1",
        2 => "2",
        3 => "3",
        4 => "4",
        5 => "5",
        6 => "6",
        7 => "7",
        8 => "8",
        _ => "9",
    }
}

/// Appends a number in decimal to a text.
fn push_decimal(text: &mut String, n: usize)
    ensures
        final(text)@ == old(text)@ + decimal(n as nat),
    decreases n,
{
    if n >= 10 {
        push_decimal(text, n / 10);
    }
    text.append(digit_text(n % 10));
}

} // verus!
