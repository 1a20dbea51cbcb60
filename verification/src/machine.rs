//! The machine as a mathematical object: its states and what one instruction does to them.

use crate::command::Command;
use crate::jumps::{is_balanced, is_bracket, is_pair, jump_target, lemma_partner_is, partner};
use vstd::prelude::*;

verus! {

/// The number of cells on the tape.
pub const TAPE_LEN: usize = 30000;

/// A cell after `+`: one more, and 0 after 255.
pub open spec fn increased(cell: u8) -> u8 {
    ((cell + 1) % 256) as u8
}

/// A cell after `-`: one less, and 255 after 0.
pub open spec fn decreased(cell: u8) -> u8 {
    ((cell + 255) % 256) as u8
}

/// The state of a machine: the program it runs, the position of the next
/// instruction, the position of the current cell, and the tape.
pub struct Machine {
    pub program: Seq<Command>,
    pub pc: nat,
    pub pointer: nat,
    pub cells: Seq<u8>,
}

impl Machine {
    /// The state in which a program starts: at its first instruction, on the
    /// first cell of a tape of zeros.
    pub open spec fn initial(program: Seq<Command>) -> Machine {
        Machine { program, pc: 0, pointer: 0, cells: Seq::new(TAPE_LEN as nat, |i: int| 0u8) }
    }

    /// The states that a loaded program can be in: its brackets match, the
    /// program counter is on an instruction or just behind the last one, and
    /// the pointer is on a cell of the tape.
    pub open spec fn well_formed(self) -> bool {
        &&& is_balanced(self.program)
        &&& self.pc <= self.program.len()
        &&& self.cells.len() == TAPE_LEN
        &&& self.pointer < TAPE_LEN
    }

    /// The program counter has run off the end of the program.
    pub open spec fn halted(self) -> bool {
        self.pc >= self.program.len()
    }

    /// The instruction under the program counter.
    pub open spec fn current(self) -> Command {
        self.program[self.pc as int]
    }

    /// The cell under the pointer.
    pub open spec fn cell(self) -> u8 {
        self.cells[self.pointer as int]
    }

    /// The next instruction would move the pointer off the tape.
    pub open spec fn faults(self) -> bool {
        !self.halted() && match self.current() {
            Command::PointerIncrease => self.pointer + 1 >= self.cells.len(),
            Command::PointerDecrease => self.pointer == 0,
            _ => false,
        }
    }

    /// The next instruction reads a byte of input.
    pub open spec fn wants_input(self) -> bool {
        !self.halted() && self.current() == Command::InputCell
    }

    /// The byte that the next instruction writes, if it writes one.
    pub open spec fn emits(self) -> Option<u8> {
        if !self.halted() && self.current() == Command::OutputCell {
            Some(self.cell())
        } else {
            None
        }
    }

    /// This state with the program counter on the following instruction.
    pub open spec fn advanced(self) -> Machine {
        Machine { pc: self.pc + 1, ..self }
    }

    /// This state with another value in the current cell.
    pub open spec fn with_cell(self, value: u8) -> Machine {
        Machine { cells: self.cells.update(self.pointer as int, value), ..self }
    }

    /// The state after the next instruction. `input` is the byte that the
    /// input source offers, or `None` if it has none; only `,` looks at it.
    /// A machine that has halted, or whose next instruction faults, stays as
    /// it is.
    pub open spec fn next(self, input: Option<u8>) -> Machine {
        if self.halted() || self.faults() {
            self
        } else {
            match self.current() {
                Command::PointerIncrease => Machine { pointer: self.pointer + 1, ..self.advanced() },
                Command::PointerDecrease => Machine {
                    pointer: (self.pointer - 1) as nat,
                    ..self.advanced()
                },
                Command::IncreaseCell => self.with_cell(increased(self.cell())).advanced(),
                Command::DecreaseCell => self.with_cell(decreased(self.cell())).advanced(),
                Command::OutputCell => self.advanced(),
                Command::InputCell => match input {
                    Some(byte) => self.with_cell(byte).advanced(),
                    None => self.advanced(),
                },
                Command::JumpPastIfZero => if self.cell() == 0 {
                    Machine { pc: jump_target(self.program, self.pc as int) as nat, ..self }
                } else {
                    self.advanced()
                },
                Command::JumpBackIfNonZero => if self.cell() != 0 {
                    Machine { pc: jump_target(self.program, self.pc as int) as nat, ..self }
                } else {
                    self.advanced()
                },
            }
        }
    }
}

/// Cell arithmetic is modulo 256: `+` takes 255 to 0, `-` takes 0 to 255, and
/// each undoes the other.
pub proof fn lemma_cells_wrap()
    ensures
        increased(255) == 0,
        decreased(0) == 255,
        forall|cell: u8| cell < 255 ==> #[trigger] increased(cell) == cell + 1,
        forall|cell: u8| cell > 0 ==> #[trigger] decreased(cell) == cell - 1,
        forall|cell: u8| decreased(#[trigger] increased(cell)) == cell,
        forall|cell: u8| increased(#[trigger] decreased(cell)) == cell,
{
}

/// An instruction takes a well-formed state to a well-formed state of the
/// same program and the same tape length.
pub proof fn lemma_next_well_formed(machine: Machine, input: Option<u8>)
    requires
        machine.well_formed(),
    ensures
        machine.next(input).well_formed(),
        machine.next(input).program == machine.program,
{
    if !machine.halted() && !machine.faults() && is_bracket(machine.current()) {
        lemma_partner_is(
            machine.program,
            machine.pc as int,
            partner(machine.program, machine.pc as int),
        );
    }
}

/// A loop whose `[` is reached on a zero cell is not entered: the machine
/// continues behind the matching `]`, with nothing else changed. This holds
/// for every loop, the empty one `[]` included.
pub proof fn lemma_zero_cell_skips_loop(machine: Machine, close: int, input: Option<u8>)
    requires
        machine.well_formed(),
        is_pair(machine.program, machine.pc as int, close),
        machine.cell() == 0,
    ensures
        machine.next(input) == (Machine { pc: (close + 1) as nat, ..machine }),
        machine.emits() is None,
        !machine.wants_input(),
{
    lemma_partner_is(machine.program, machine.pc as int, close);
}

/// A `]` reached on a cell that is not zero sends the machine back to the
/// first instruction of its loop's body; reached on a zero cell it lets the
/// machine leave the loop.
pub proof fn lemma_loop_end(machine: Machine, open: int, input: Option<u8>)
    requires
        machine.well_formed(),
        is_pair(machine.program, open, machine.pc as int),
    ensures
        machine.cell() != 0 ==> machine.next(input) == (Machine {
            pc: (open + 1) as nat,
            ..machine
        }),
        machine.cell() == 0 ==> machine.next(input) == (Machine { pc: machine.pc + 1, ..machine }),
{
    lemma_partner_is(machine.program, machine.pc as int, open);
}

/// What the streams of an interpreter hold: the bytes that the program can
/// still read, first byte first, and the bytes that it has written.
pub struct Streams {
    pub input: Seq<u8>,
    pub output: Seq<u8>,
}

/// An interpreter as a mathematical object: a machine and its streams.
pub struct Execution {
    pub machine: Machine,
    pub streams: Streams,
}

impl Execution {
    /// The byte that the input stream hands to the next instruction: its
    /// first byte if the instruction is `,` and the stream is not exhausted.
    pub open spec fn offered(self) -> Option<u8> {
        if self.machine.wants_input() && self.streams.input.len() > 0 {
            Some(self.streams.input[0])
        } else {
            None
        }
    }

    /// Neither halted nor in front of a faulting instruction.
    pub open spec fn running(self) -> bool {
        !self.machine.halted() && !self.machine.faults()
    }

    /// The execution after the next instruction: `,` takes the first byte off
    /// the input, if there is one, and `.` appends a byte to the output. An
    /// execution that is not running stays as it is.
    pub open spec fn advance(self) -> Execution {
        Execution {
            machine: self.machine.next(self.offered()),
            streams: Streams {
                input: if self.offered() is Some {
                    self.streams.input.drop_first()
                } else {
                    self.streams.input
                },
                output: match self.machine.emits() {
                    Some(byte) => self.streams.output.push(byte),
                    None => self.streams.output,
                },
            },
        }
    }

    /// The execution after at most `steps` instructions: the first one on the
    /// way that is not running, or the one reached when the steps are used up.
    pub open spec fn run_for(self, steps: nat) -> Execution
        decreases steps,
    {
        if steps == 0 || !self.running() {
            self
        } else {
            self.advance().run_for((steps - 1) as nat)
        }
    }
}

/// An execution that is not running stays as it is, however many steps it
/// is given.
pub proof fn lemma_run_for_stopped(execution: Execution, steps: nat)
    requires
        !execution.running(),
    ensures
        execution.run_for(steps) == execution,
{
}

/// Running for `first + second` steps is running for `first` steps and then
/// for `second` more.
pub proof fn lemma_run_for_split(execution: Execution, first: nat, second: nat)
    ensures
        execution.run_for(first + second) == execution.run_for(first).run_for(second),
    decreases first,
{
    if first == 0 {
    } else if !execution.running() {
        lemma_run_for_stopped(execution, second);
    } else {
        lemma_run_for_split(execution.advance(), (first - 1) as nat, second);
    }
}

/// A run keeps the program, keeps the machine well-formed, and only ever
/// takes bytes off the front of the input and appends bytes to the output.
pub proof fn lemma_run_for_streams(execution: Execution, steps: nat)
    requires
        execution.machine.well_formed(),
    ensures
        execution.run_for(steps).machine.well_formed(),
        execution.run_for(steps).machine.program == execution.machine.program,
        execution.run_for(steps).streams.input.is_suffix_of(execution.streams.input),
        execution.streams.output.is_prefix_of(execution.run_for(steps).streams.output),
    decreases steps,
{
    if steps == 0 || !execution.running() {
        assert(execution.streams.output.take(execution.streams.output.len() as int)
            =~= execution.streams.output);
    } else {
        let after = execution.advance();
        let end = after.run_for((steps - 1) as nat);
        lemma_next_well_formed(execution.machine, execution.offered());
        lemma_run_for_streams(after, (steps - 1) as nat);
        assert(execution.streams.output =~= end.streams.output.take(
            execution.streams.output.len() as int,
        ));
    }
}

} // verus!
