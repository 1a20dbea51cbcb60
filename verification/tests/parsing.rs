use brain_fuck_rs::command::{parse_program, Command};
use brain_fuck_rs::engine::Engine;

#[test]
fn each_instruction_character_is_decoded() {
    assert_eq!(Command::from_char('>'), Some(Command::PointerIncrease));
    assert_eq!(Command::from_char('<'), Some(Command::PointerDecrease));
    assert_eq!(Command::from_char('+'), Some(Command::IncreaseCell));
    assert_eq!(Command::from_char('-'), Some(Command::DecreaseCell));
    assert_eq!(Command::from_char('.'), Some(Command::OutputCell));
    assert_eq!(Command::from_char(','), Some(Command::InputCell));
    assert_eq!(Command::from_char('['), Some(Command::JumpPastIfZero));
    assert_eq!(Command::from_char(']'), Some(Command::JumpBackIfNonZero));
}

#[test]
fn other_characters_are_no_instructions() {
    for ch in ['a', 'Z', '0', ' ', '\n', '\t', '(', ')', '{', '}', '!', '#', '=', '*', '/', 'é', '日'] {
        assert_eq!(Command::from_char(ch), None);
    }
}

#[test]
fn program_text_is_parsed_in_order() {
    assert_eq!(
        parse_program("><+-.,[]"),
        vec![
            Command::PointerIncrease,
            Command::PointerDecrease,
            Command::IncreaseCell,
            Command::DecreaseCell,
            Command::OutputCell,
            Command::InputCell,
            Command::JumpPastIfZero,
            Command::JumpBackIfNonZero,
        ]
    );
}

#[test]
fn empty_text_is_the_empty_program() {
    assert_eq!(parse_program(""), vec![]);
    assert_eq!(parse_program("no instructions here"), vec![]);
}

#[test]
fn comments_do_not_change_the_program() {
    let plain = parse_program("++[>+<-]>.");
    assert_eq!(parse_program("++ [ > + < - ] > ."), plain);
    assert_eq!(parse_program("add two\n++\nmove it [>+<-]\nprint >. done"), plain);
    assert_eq!(parse_program("é++[>+<-]日>.\u{1F600}"), plain);
}

#[test]
fn comments_do_not_change_the_loaded_engine() {
    let plain = Engine::new("+[-]").unwrap();
    let commented = Engine::new("one + loop [ down - ] end").unwrap();
    assert_eq!(plain.commands(), commented.commands());
    assert_eq!(plain.jump_cache(), commented.jump_cache());
}
