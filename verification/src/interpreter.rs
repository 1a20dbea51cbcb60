//! The interpreter: an engine together with the streams that its program
//! reads and writes.

use crate::command::{parse, Command};
use crate::engine::Engine;
use crate::error::InterpreterError;
use crate::jumps::{is_balanced, is_first_unmatched, unmatched_error};
use crate::machine::{Execution, Machine, Streams};
use std::collections::VecDeque;
use std::time::{Duration, Instant};
use vstd::prelude::*;

verus! {

/// The streams that a program reads from and writes to, held in memory.
#[derive(Debug)]
pub struct InterpreterConfig {
    stdout: Vec<u8>,
    stdin: VecDeque<u8>,
}

impl View for InterpreterConfig {
    type V = Streams;

    closed spec fn view(&self) -> Streams {
        Streams { input: self.stdin@, output: self.stdout@ }
    }
}

impl Default for InterpreterConfig {
    /// Streams with no input and nothing written.
    fn default() -> (config: Self)
        ensures
            config@.input == Seq::<u8>::empty(),
            config@.output == Seq::<u8>::empty(),
    {
        InterpreterConfig { stdout: Vec::new(), stdin: VecDeque::new() }
    }
}

impl InterpreterConfig {
    /// Streams whose input holds the given bytes, with nothing written.
    pub fn with_input(input: &[u8]) -> (config: Self)
        ensures
            config@.input == input@,
            config@.output == Seq::<u8>::empty(),
    {
        let mut stdin: VecDeque<u8> = VecDeque::new();
        let mut i: usize = 0;
        while i < input.len()
            invariant
                i <= input.len(),
                stdin@ == input@.take(i as int),
            decreases input.len() - i,
        {
            stdin.push_back(input[i]);
            i += 1;
        }
        InterpreterConfig { stdout: Vec::new(), stdin }
    }

    /// The bytes that the program has written, in order.
    pub fn stdout(&self) -> (written: &Vec<u8>)
        ensures
            written@ == self@.output,
    {
        &self.stdout
    }

    /// The bytes that the program can still read, first byte first.
    pub fn stdin(&self) -> (pending: &VecDeque<u8>)
        ensures
            pending@ == self@.input,
    {
        &self.stdin
    }
}

/// What a run that reached the end of its program reports.
#[derive(Debug)]
pub struct InterpreterResult {
    execution_time: Duration,
}

impl View for InterpreterResult {
    type V = Duration;

    closed spec fn view(&self) -> Duration {
        self.execution_time
    }
}

impl InterpreterResult {
    /// The time that the run took.
    pub fn execution_time(&self) -> (elapsed: Duration)
        ensures
            elapsed == self@,
    {
        self.execution_time
    }
}

/// A program that has been loaded, with the tape and the streams it runs on.
#[derive(Debug)]
pub struct Interpreter {
    engine: Engine,
    config: InterpreterConfig,
}

impl View for Interpreter {
    type V = Execution;

    closed spec fn view(&self) -> Execution {
        Execution { machine: self.engine@, streams: self.config@ }
    }
}

impl Default for Interpreter {
    /// The interpreter of the empty program, with empty streams.
    fn default() -> (interpreter: Self)
        ensures
            interpreter@.machine == Machine::initial(Seq::<Command>::empty()),
            interpreter@.streams.input == Seq::<u8>::empty(),
            interpreter@.streams.output == Seq::<u8>::empty(),
    {
        Interpreter { engine: Engine::default(), config: InterpreterConfig::default() }
    }
}

impl Interpreter {
    /// Loads a program and attaches the streams it will run on. Fails as
    /// [`Engine::new`] does.
    pub fn new(commands: &str, config: InterpreterConfig) -> (res: Result<Self, InterpreterError>)
        ensures
            res is Ok <==> is_balanced(parse(commands@)),
            res matches Ok(interpreter) ==> {
                &&& interpreter@.machine == Machine::initial(parse(commands@))
                &&& interpreter@.streams == config@
            },
            res matches Err(error) ==> is_first_unmatched(parse(commands@), error.position() as int),
            forall|i: int|
                is_first_unmatched(parse(commands@), i) ==> (res matches Err(error) && error
                    == unmatched_error(parse(commands@), i)),
    {
        match Engine::new(commands) {
            Ok(engine) => Ok(Interpreter { engine, config }),
            Err(err) => Err(err),
        }
    }

    /// Runs the program on the streams of the configuration, for at most
    /// `max_steps` instructions: `,` takes the next byte off the input, and
    /// leaves the cell as it is when the input is exhausted; `.` appends a
    /// byte to the output. The run ends when the program counter has run off
    /// the end of the program, which is the one way to succeed and reports
    /// the time taken; in front of a pointer move that would leave the tape,
    /// with `PointerOutOfBounds`; or when the steps are used up, with
    /// `StepLimitReached`. Each error carries the position of the instruction
    /// that was not executed, and a later call takes the run up from there.
    pub fn run(&mut self, max_steps: u64) -> (res: Result<InterpreterResult, InterpreterError>)
        ensures
            final(self)@ == old(self)@.run_for(max_steps as nat),
            final(self)@.machine.well_formed(),
            res is Ok <==> final(self)@.machine.halted(),
            res matches Err(error) ==> error == if final(self)@.machine.faults() {
                InterpreterError::PointerOutOfBounds(final(self)@.machine.pc as usize)
            } else {
                InterpreterError::StepLimitReached(final(self)@.machine.pc as usize)
            },
    {
        let started = Instant::now();
        let mut remaining = max_steps;
        loop
            invariant
                self@.run_for(remaining as nat) == old(self)@.run_for(max_steps as nat),
            decreases remaining,
        {
            if self.engine.is_halted() {
                return Ok(InterpreterResult { execution_time: started.elapsed() });
            }
            let position = self.engine.program_counter();
            if self.engine.faults() {
                return Err(InterpreterError::PointerOutOfBounds(position));
            }
            if remaining == 0 {
                return Err(InterpreterError::StepLimitReached(position));
            }
            let input = if self.engine.wants_input() {
                self.config.stdin.pop_front()
            } else {
                None
            };
            if let Ok(Some(byte)) = self.engine.step(input) {
                self.config.stdout.push(byte);
            }
            remaining -= 1;
        }
    }

    /// The engine that executes the program.
    pub fn engine(&self) -> (engine: &Engine)
        ensures
            engine@ == self@.machine,
    {
        &self.engine
    }

    /// The streams that the program reads and writes.
    pub fn config(&self) -> (config: &InterpreterConfig)
        ensures
            config@ == self@.streams,
    {
        &self.config
    }
}

} // verus!
