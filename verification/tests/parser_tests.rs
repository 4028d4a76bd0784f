use bfr::ir::{Command, OutputType};
use bfr::parser::{parse, ParseError};

fn parsed(text: &str) -> Vec<Command> {
    parse(&String::from(text)).unwrap()
}

#[test]
fn empty_text_is_the_empty_program() {
    assert_eq!(parsed("").len(), 0);
}

#[test]
fn each_command_character_gives_its_canonical_node() {
    let program = parsed("><+-.,");
    assert_eq!(program.len(), 6);
    assert!(matches!(program[0], Command::IncPointer { amount: 1, count: 0 }));
    assert!(matches!(program[1], Command::DecPointer { amount: 1, count: 0 }));
    assert!(matches!(program[2], Command::IncData { offset: 0, amount: 1, count: 0 }));
    assert!(matches!(program[3], Command::DecData { offset: 0, amount: 1, count: 0 }));
    assert!(matches!(
        program[4],
        Command::Output { out_type: OutputType::Cell { offset: 0 }, count: 0 }
    ));
    assert!(matches!(program[5], Command::Input { offset: 0, count: 0 }));
}

#[test]
fn other_characters_are_skipped() {
    let program = parsed("a + b\n- # é ☃ x");
    assert_eq!(program.len(), 2);
    assert!(matches!(program[0], Command::IncData { .. }));
    assert!(matches!(program[1], Command::DecData { .. }));
}

#[test]
fn loops_are_numbered_in_the_order_in_which_they_close() {
    let program = parsed("[[-]>[+]]");
    assert_eq!(program.len(), 1);
    match &program[0] {
        Command::Loop { id, body, start_count, end_count } => {
            assert_eq!(*id, 3);
            assert_eq!(*start_count, 0);
            assert_eq!(*end_count, 0);
            assert_eq!(body.len(), 3);
            match &body[0] {
                Command::Loop { id, body, .. } => {
                    assert_eq!(*id, 1);
                    assert_eq!(body.len(), 1);
                }
                _ => panic!("expected the first inner loop"),
            }
            assert!(matches!(body[1], Command::IncPointer { amount: 1, .. }));
            match &body[2] {
                Command::Loop { id, .. } => assert_eq!(*id, 2),
                _ => panic!("expected the second inner loop"),
            }
        }
        _ => panic!("expected a loop"),
    }
}

#[test]
fn a_close_without_an_open_is_an_error() {
    assert_eq!(parse(&String::from("+]")).unwrap_err(), ParseError::UnmatchedClose);
    assert_eq!(parse(&String::from("[]]")).unwrap_err(), ParseError::UnmatchedClose);
}

#[test]
fn an_open_without_a_close_is_an_error() {
    assert_eq!(parse(&String::from("[")).unwrap_err(), ParseError::UnmatchedOpen);
    assert_eq!(parse(&String::from("[[-]")).unwrap_err(), ParseError::UnmatchedOpen);
}

#[test]
fn an_unmatched_close_is_reported_before_an_unmatched_open() {
    assert_eq!(parse(&String::from("][")).unwrap_err(), ParseError::UnmatchedClose);
    assert_eq!(parse(&String::from("[[]]][")).unwrap_err(), ParseError::UnmatchedClose);
}

#[test]
fn the_errors_have_their_fixed_messages() {
    assert_eq!(ParseError::UnmatchedOpen.message(), "Error parsing input: Unmatched '['");
    assert_eq!(ParseError::UnmatchedClose.message(), "Error parsing input: Unmatched ']'");
}

fn is_canonical(commands: &Vec<Command>) -> bool {
    commands.iter().all(|c| match c {
        Command::IncPointer { amount, count } => *amount == 1 && *count == 0,
        Command::DecPointer { amount, count } => *amount == 1 && *count == 0,
        Command::IncData { offset, amount, count } => *offset == 0 && *amount == 1 && *count == 0,
        Command::DecData { offset, amount, count } => *offset == 0 && *amount == 1 && *count == 0,
        Command::Output { out_type: OutputType::Cell { offset: 0 }, count: 0 } => true,
        Command::Input { offset: 0, count: 0 } => true,
        Command::Loop { body, start_count: 0, end_count: 0, .. } => is_canonical(body),
        _ => false,
    })
}

#[test]
fn parsed_programs_are_canonical() {
    assert!(is_canonical(&parsed("++[>+<-]>.,[[-]<]")));
    assert!(is_canonical(&parsed(
        "++++++++[>++++[>++>+++>+++>+<<<<-]>+>+>->>+[<]<-]>>.>---.+++++++..+++."
    )));
}
