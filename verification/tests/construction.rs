use brain_fuck_rs::command::{parse_program, Command};
use brain_fuck_rs::engine::Engine;
use brain_fuck_rs::error::InterpreterError;
use brain_fuck_rs::interpreter::{Interpreter, InterpreterConfig};
use brain_fuck_rs::jumps::resolve_jumps;

#[test]
fn balanced_program_is_loaded() {
    let interpreter = Interpreter::new("+[>[-]<-]", InterpreterConfig::default()).unwrap();
    let engine = interpreter.engine();
    assert_eq!(engine.commands().len(), 9);
    assert_eq!(engine.program_counter(), 0);
    assert_eq!(engine.pointer(), 0);
    assert!(!engine.is_halted());
}

#[test]
fn tape_starts_as_thirty_thousand_zero_cells() {
    let engine = Engine::new("").unwrap();
    assert_eq!(engine.cells().len(), 30000);
    assert!(engine.cells().iter().all(|cell| *cell == 0));
    assert_eq!(brain_fuck_rs::machine::TAPE_LEN, 30000);
}

#[test]
fn empty_program_is_halted_at_once() {
    let engine = Engine::new("").unwrap();
    assert!(engine.is_halted());
    assert_eq!(engine.current(), None);
    assert!(engine.jump_cache().is_empty());
}

#[test]
fn jump_table_has_one_entry_per_bracket() {
    let engine = Engine::new("+[>[-]<-]").unwrap();
    let table = engine.jump_cache();
    assert_eq!(table.len(), 4);
    assert_eq!(table.get(&1), Some(&9));
    assert_eq!(table.get(&8), Some(&2));
    assert_eq!(table.get(&3), Some(&6));
    assert_eq!(table.get(&5), Some(&4));
    assert_eq!(table.get(&0), None);
    assert_eq!(table.get(&4), None);
}

#[test]
fn jump_table_of_program_without_brackets_is_empty() {
    let engine = Engine::new("+-<>.,").unwrap();
    assert!(engine.jump_cache().is_empty());
}

#[test]
fn jump_table_of_adjacent_loops() {
    let table = resolve_jumps(&parse_program("[][]")).unwrap();
    assert_eq!(table.len(), 4);
    assert_eq!(table[&0], 2);
    assert_eq!(table[&1], 1);
    assert_eq!(table[&2], 4);
    assert_eq!(table[&3], 3);
}

#[test]
fn jump_table_of_deep_nesting() {
    let table = resolve_jumps(&parse_program("[[[]]]")).unwrap();
    assert_eq!(table.len(), 6);
    assert_eq!(table[&0], 6);
    assert_eq!(table[&5], 1);
    assert_eq!(table[&1], 5);
    assert_eq!(table[&4], 2);
    assert_eq!(table[&2], 4);
    assert_eq!(table[&3], 3);
}

#[test]
fn jump_positions_count_instructions_not_characters() {
    let engine = Engine::new("say [ hello ] twice").unwrap();
    let table = engine.jump_cache();
    assert_eq!(table.len(), 2);
    assert_eq!(table.get(&0), Some(&2));
    assert_eq!(table.get(&1), Some(&1));
}

#[test]
fn lone_left_bracket_fails_at_position_zero() {
    let result = Interpreter::new("[", InterpreterConfig::default());
    assert_eq!(result.unwrap_err(), InterpreterError::RightBracketNotFound(0));
}

#[test]
fn lone_right_bracket_fails_at_position_zero() {
    let result = Interpreter::new("]", InterpreterConfig::default());
    assert_eq!(result.unwrap_err(), InterpreterError::LeftBracketNotFound(0));
}

#[test]
fn unmatched_left_bracket_is_located() {
    assert_eq!(Engine::new("+[-]>[+").unwrap_err(), InterpreterError::RightBracketNotFound(5));
    assert_eq!(Engine::new("[[]").unwrap_err(), InterpreterError::RightBracketNotFound(0));
    assert_eq!(Engine::new("[][").unwrap_err(), InterpreterError::RightBracketNotFound(2));
}

#[test]
fn unmatched_right_bracket_is_located() {
    assert_eq!(Engine::new("+[-]>]+").unwrap_err(), InterpreterError::LeftBracketNotFound(5));
    assert_eq!(Engine::new("[]]").unwrap_err(), InterpreterError::LeftBracketNotFound(2));
    assert_eq!(Engine::new("+]").unwrap_err(), InterpreterError::LeftBracketNotFound(1));
}

#[test]
fn first_unmatched_bracket_is_the_one_reported() {
    assert_eq!(Engine::new("][").unwrap_err(), InterpreterError::LeftBracketNotFound(0));
    assert_eq!(Engine::new("[[").unwrap_err(), InterpreterError::RightBracketNotFound(0));
    assert_eq!(Engine::new("]]").unwrap_err(), InterpreterError::LeftBracketNotFound(0));
    assert_eq!(Engine::new("[]][[").unwrap_err(), InterpreterError::LeftBracketNotFound(2));
}

#[test]
fn error_position_ignores_comment_characters() {
    assert_eq!(Engine::new("abc [").unwrap_err(), InterpreterError::RightBracketNotFound(0));
    assert_eq!(Engine::new("+ x ]").unwrap_err(), InterpreterError::LeftBracketNotFound(1));
}

#[test]
fn resolver_reports_errors_on_instruction_sequences() {
    let program = vec![Command::IncreaseCell, Command::JumpBackIfNonZero];
    assert_eq!(resolve_jumps(&program).unwrap_err(), InterpreterError::LeftBracketNotFound(1));
    let program = vec![Command::JumpPastIfZero, Command::IncreaseCell];
    assert_eq!(resolve_jumps(&program).unwrap_err(), InterpreterError::RightBracketNotFound(0));
}

#[test]
fn streams_are_attached_unchanged() {
    let interpreter = Interpreter::new("+", InterpreterConfig::with_input(&[1, 2, 3])).unwrap();
    let pending: Vec<u8> = interpreter.config().stdin().iter().copied().collect();
    assert_eq!(pending, vec![1, 2, 3]);
    assert!(interpreter.config().stdout().is_empty());
}

#[test]
fn default_streams_are_empty() {
    let config = InterpreterConfig::default();
    assert!(config.stdin().is_empty());
    assert!(config.stdout().is_empty());
}

#[test]
fn default_interpreter_holds_the_empty_program() {
    let mut interpreter = Interpreter::default();
    assert!(interpreter.engine().commands().is_empty());
    assert!(interpreter.engine().is_halted());
    assert_eq!(interpreter.engine().cells().len(), 30000);
    assert!(interpreter.engine().jump_cache().is_empty());
    assert!(interpreter.config().stdin().is_empty());
    assert!(interpreter.run(0).is_ok());
    assert!(interpreter.config().stdout().is_empty());
}

#[test]
fn default_engine_is_halted_on_a_zero_tape() {
    let mut engine = Engine::default();
    assert!(engine.is_halted());
    assert_eq!(engine.pointer(), 0);
    assert_eq!(engine.program_counter(), 0);
    assert!(engine.cells().iter().all(|cell| *cell == 0));
    assert_eq!(engine.step(Some(1)), Ok(None));
    assert_eq!(engine.cells()[0], 0);
}
