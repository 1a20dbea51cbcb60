//! The execution engine: a loaded program with its jump table, its tape, the
//! data pointer and the program counter.

use crate::command::{parse, parse_program, Command};
use crate::error::InterpreterError;
use crate::jumps::{
    is_balanced, is_first_unmatched, jump_table, resolve_jumps, unmatched_error,
};
use crate::machine::{Machine, TAPE_LEN};
use std::collections::HashMap;
use vstd::prelude::*;

verus! {

broadcast use vstd::std_specs::hash::group_hash_axioms;

/// A loaded program and the state it runs in. The engine does no input or
/// output of its own: [`Engine::step`] is handed the byte that an input
/// instruction reads, and hands back the byte that an output instruction
/// writes.
#[derive(Debug)]
pub struct Engine {
    commands: Vec<Command>,
    program_counter: usize,
    pointer: usize,
    cells: Vec<u8>,
    jump_cache: HashMap<usize, usize>,
}

impl View for Engine {
    type V = Machine;

    closed spec fn view(&self) -> Machine {
        Machine {
            program: self.commands@,
            pc: self.program_counter as nat,
            pointer: self.pointer as nat,
            cells: self.cells@,
        }
    }
}

impl Default for Engine {
    /// The engine of the empty program, in its initial state.
    fn default() -> (engine: Self)
        ensures
            engine@ == Machine::initial(Seq::<Command>::empty()),
            engine@.well_formed(),
            engine.jumps() == jump_table(Seq::<Command>::empty()),
    {
        let cells = vec![0u8; TAPE_LEN];
        let jump_cache: HashMap<usize, usize> = HashMap::new();
        assert(cells@ =~= Seq::new(TAPE_LEN as nat, |i: int| 0u8));
        assert(jump_cache@ =~= jump_table(Seq::<Command>::empty()));
        Engine { commands: Vec::new(), program_counter: 0, pointer: 0, cells, jump_cache }
    }
}

impl Engine {
    #[verifier::type_invariant]
    spec fn consistent(self) -> bool {
        &&& self@.well_formed()
        &&& self.jump_cache@ == jump_table(self.commands@)
    }

    /// The jump table that the engine holds.
    pub closed spec fn jumps(&self) -> Map<usize, usize> {
        self.jump_cache@
    }

    /// Loads a program: keeps the instructions of the text, resolves its
    /// jumps, and puts the machine in its initial state. Fails if a bracket
    /// has no partner, with the first such bracket: `RightBracketNotFound`
    /// for a `[`, `LeftBracketNotFound` for a `]`.
    pub fn new(commands: &str) -> (res: Result<Self, InterpreterError>)
        ensures
            res is Ok <==> is_balanced(parse(commands@)),
            res matches Ok(engine) ==> {
                &&& engine@ == Machine::initial(parse(commands@))
                &&& engine@.well_formed()
                &&& engine.jumps() == jump_table(parse(commands@))
            },
            res matches Err(error) ==> is_first_unmatched(parse(commands@), error.position() as int),
            forall|i: int|
                is_first_unmatched(parse(commands@), i) ==> (res matches Err(error) && error
                    == unmatched_error(parse(commands@), i)),
    {
        let commands = parse_program(commands);
        let jump_cache = match resolve_jumps(&commands) {
            Ok(jump_cache) => jump_cache,
            Err(err) => return Err(err),
        };
        let cells = vec![0u8; TAPE_LEN];
        assert(cells@ =~= Seq::new(TAPE_LEN as nat, |i: int| 0u8));
        Ok(Engine { commands, program_counter: 0, pointer: 0, cells, jump_cache })
    }

    /// Executes the instruction under the program counter. `input` is the
    /// byte that the input source offers, `None` if it is exhausted or
    /// failed; only `,` looks at it. The result is the byte that `.` writes.
    /// A pointer move that would leave the tape fails with
    /// `PointerOutOfBounds` and changes nothing, and a halted engine stays
    /// as it is.
    pub fn step(&mut self, input: Option<u8>) -> (res: Result<Option<u8>, InterpreterError>)
        ensures
            final(self)@ == old(self)@.next(input),
            final(self)@.well_formed(),
            final(self).jumps() == old(self).jumps(),
            res == if old(self)@.faults() {
                Err::<Option<u8>, InterpreterError>(
                    InterpreterError::PointerOutOfBounds(old(self)@.pc as usize),
                )
            } else {
                Ok(old(self)@.emits())
            },
    {
        proof {
            use_type_invariant(&*self);
        }
        let position = self.program_counter;
        if position >= self.commands.len() {
            return Ok(None);
        }
        if self.faults() {
            return Err(InterpreterError::PointerOutOfBounds(position));
        }
        let mut output: Option<u8> = None;
        let mut target = position + 1;
        match self.commands[position] {
            Command::PointerIncrease => {
                self.pointer += 1;
            },
            Command::PointerDecrease => {
                self.pointer -= 1;
            },
            Command::IncreaseCell => {
                self.cells[self.pointer] = self.cells[self.pointer].wrapping_add(1);
            },
            Command::DecreaseCell => {
                self.cells[self.pointer] = self.cells[self.pointer].wrapping_sub(1);
            },
            Command::OutputCell => {
                output = Some(self.cells[self.pointer]);
            },
            Command::InputCell => {
                if let Some(byte) = input {
                    self.cells[self.pointer] = byte;
                }
            },
            Command::JumpPastIfZero => {
                if self.cells[self.pointer] == 0 {
                    target = *self.jump_cache.get(&position).unwrap();
                }
            },
            Command::JumpBackIfNonZero => {
                if self.cells[self.pointer] != 0 {
                    target = *self.jump_cache.get(&position).unwrap();
                }
            },
        }
        self.program_counter = target;
        Ok(output)
    }

    /// Whether the program counter has run off the end of the program.
    pub fn is_halted(&self) -> (halted: bool)
        ensures
            halted == self@.halted(),
            self@.well_formed(),
    {
        proof {
            use_type_invariant(self);
        }
        self.program_counter >= self.commands.len()
    }

    /// The instruction under the program counter, `None` once the engine has
    /// halted.
    pub fn current(&self) -> (command: Option<Command>)
        ensures
            command == if self@.halted() {
                None
            } else {
                Some(self@.current())
            },
    {
        if self.program_counter < self.commands.len() {
            Some(self.commands[self.program_counter])
        } else {
            None
        }
    }

    /// Whether the instruction under the program counter would move the
    /// pointer off the tape.
    pub fn faults(&self) -> (faults: bool)
        ensures
            faults == self@.faults(),
    {
        proof {
            use_type_invariant(self);
        }
        match self.current() {
            Some(Command::PointerIncrease) => self.pointer + 1 >= TAPE_LEN,
            Some(Command::PointerDecrease) => self.pointer == 0,
            _ => false,
        }
    }

    /// Whether the instruction under the program counter reads input.
    pub fn wants_input(&self) -> (wanted: bool)
        ensures
            wanted == self@.wants_input(),
    {
        match self.current() {
            Some(Command::InputCell) => true,
            _ => false,
        }
    }

    /// The instructions of the program. Their brackets match.
    pub fn commands(&self) -> (commands: &Vec<Command>)
        ensures
            commands@ == self@.program,
            is_balanced(commands@),
    {
        proof {
            use_type_invariant(self);
        }
        &self.commands
    }

    /// The position of the next instruction, which is the length of the
    /// program once the engine has halted.
    pub fn program_counter(&self) -> (pc: usize)
        ensures
            pc == self@.pc,
            pc <= self@.program.len(),
    {
        proof {
            use_type_invariant(self);
        }
        self.program_counter
    }

    /// The position of the current cell on the tape.
    pub fn pointer(&self) -> (pointer: usize)
        ensures
            pointer == self@.pointer,
            pointer < TAPE_LEN,
    {
        proof {
            use_type_invariant(self);
        }
        self.pointer
    }

    /// The tape.
    pub fn cells(&self) -> (cells: &Vec<u8>)
        ensures
            cells@ == self@.cells,
            cells.len() == TAPE_LEN,
    {
        proof {
            use_type_invariant(self);
        }
        &self.cells
    }

    /// The jump table: for each bracket, the position behind its partner.
    pub fn jump_cache(&self) -> (table: &HashMap<usize, usize>)
        ensures
            table@ == self.jumps(),
            table@ == jump_table(self@.program),
    {
        proof {
            use_type_invariant(self);
        }
        &self.jump_cache
    }
}

} // verus!
