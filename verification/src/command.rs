//! The instruction alphabet and the parsing of program text into instructions.

use vstd::prelude::*;

verus! {

/// One instruction of the machine.
#[derive(Clone, Copy, Debug, PartialEq, Eq, Structural)]
pub enum Command {
    /// `>`: move the data pointer one cell to the right.
    PointerIncrease,
    /// `<`: move the data pointer one cell to the left.
    PointerDecrease,
    /// `+`: add one to the current cell, wrapping from 255 to 0.
    IncreaseCell,
    /// `-`: subtract one from the current cell, wrapping from 0 to 255.
    DecreaseCell,
    /// `.`: emit the current cell as one byte of output.
    OutputCell,
    /// `,`: store the next byte of input in the current cell.
    InputCell,
    /// `[`: continue after the matching `]` if the current cell is zero.
    JumpPastIfZero,
    /// `]`: continue after the matching `[` if the current cell is not zero.
    JumpBackIfNonZero,
}

/// The instruction that a character of program text stands for, if any.
pub open spec fn decode(ch: char) -> Option<Command> {
    if ch == '>' {
        Some(Command::PointerIncrease)
    } else if ch == '<' {
        Some(Command::PointerDecrease)
    } else if ch == '+' {
        Some(Command::IncreaseCell)
    } else if ch == '-' {
        Some(Command::DecreaseCell)
    } else if ch == '.' {
        Some(Command::OutputCell)
    } else if ch == ',' {
        Some(Command::InputCell)
    } else if ch == '[' {
        Some(Command::JumpPastIfZero)
    } else if ch == ']' {
        Some(Command::JumpBackIfNonZero)
    } else {
        None
    }
}

impl Command {
    /// Decodes one character of program text.
    pub fn from_char(ch: char) -> (res: Option<Command>)
        ensures
            res == decode(ch),
    {
        match ch {
            '>' => Some(Command::PointerIncrease),
            '<' => Some(Command::PointerDecrease),
            '+' => Some(Command::IncreaseCell),
            '-' => Some(Command::DecreaseCell),
            '.' => Some(Command::OutputCell),
            ',' => Some(Command::InputCell),
            '[' => Some(Command::JumpPastIfZero),
            ']' => Some(Command::JumpBackIfNonZero),
            _ => None,
        }
    }
}

/// The instructions of a program text, in order; every other character is dropped.
pub open spec fn parse(text: Seq<char>) -> Seq<Command>
    decreases text.len(),
{
    if text.len() == 0 {
        Seq::empty()
    } else {
        match decode(text.last()) {
            Some(command) => parse(text.drop_last()).push(command),
            None => parse(text.drop_last()),
        }
    }
}

/// Parses program text into its instruction sequence.
pub fn parse_program(text: &str) -> (commands: Vec<Command>)
    ensures
        commands@ == parse(text@),
{
    let mut commands: Vec<Command> = Vec::new();
    for ch in it: text.chars()
        invariant
            it.seq() == text@,
            commands@ == parse(text@.take(it.index() as int)),
    {
        assert(text@.take(it.index() + 1).drop_last() == text@.take(it.index() as int));
        match Command::from_char(ch) {
            Some(command) => commands.push(command),
            None => {},
        }
    }
    assert(text@.take(text@.len() as int) == text@);
    commands
}

/// The instructions of two texts written one after the other are those of
/// the first followed by those of the second.
pub proof fn lemma_parse_concat(first: Seq<char>, second: Seq<char>)
    ensures
        parse(first + second) == parse(first) + parse(second),
    decreases second.len(),
{
    if second.len() > 0 {
        lemma_parse_concat(first, second.drop_last());
        assert((first + second).drop_last() =~= first + second.drop_last());
        if let Some(command) = decode(second.last()) {
            assert((parse(first) + parse(second.drop_last())).push(command) =~= parse(first)
                + parse(second.drop_last()).push(command));
        }
    }
}

/// A text that holds no instruction character parses to the empty program.
pub proof fn lemma_parse_comment(comment: Seq<char>)
    requires
        forall|i: int| 0 <= i < comment.len() ==> decode(#[trigger] comment[i]) is None,
    ensures
        parse(comment) == Seq::<Command>::empty(),
    decreases comment.len(),
{
    if comment.len() > 0 {
        lemma_parse_comment(comment.drop_last());
    }
}

/// Comments are transparent: characters that are no instructions can be
/// inserted anywhere in a program text without changing the program.
pub proof fn lemma_parse_ignores_comments(text: Seq<char>, at: int, comment: Seq<char>)
    requires
        0 <= at <= text.len(),
        forall|i: int| 0 <= i < comment.len() ==> decode(#[trigger] comment[i]) is None,
    ensures
        parse(text.take(at) + comment + text.skip(at)) == parse(text),
{
    lemma_parse_comment(comment);
    lemma_parse_concat(text.take(at), comment);
    lemma_parse_concat(text.take(at) + comment, text.skip(at));
    lemma_parse_concat(text.take(at), text.skip(at));
    assert(text.take(at) + text.skip(at) =~= text);
}

} // verus!
