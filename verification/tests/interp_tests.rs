use bfr::interp::{interp, Outcome, Stop, START, TAPE_SIZE};
use bfr::ir::{Command, Direction, OutputType};
use bfr::optimizer::optimize;
use bfr::parser::parse;

const HELLO: &str = "++++++++[>++++[>++>+++>+++>+<<<<-]>+>+>->>+[<]<-]>>.>---.+++++++..+++.";

fn program(text: &str, level: u8) -> Vec<Command> {
    let mut commands = parse(&String::from(text)).unwrap();
    optimize(&mut commands, level);
    commands
}

fn run(text: &str, level: u8, input: &[u8]) -> Outcome {
    let mut commands = program(text, level);
    interp(&mut commands, &input.to_vec(), 1_000_000)
}

#[test]
fn hello_is_printed_at_every_level() {
    for level in 0..4 {
        let outcome = run(HELLO, level, &[]);
        assert_eq!(outcome.stop, Stop::Done);
        assert_eq!(outcome.state.output, b"Hello".to_vec());
    }
}

#[test]
fn the_tape_starts_with_zeros_and_the_pointer_in_the_middle() {
    let outcome = run("", 0, &[]);
    assert_eq!(outcome.stop, Stop::Done);
    assert_eq!(outcome.state.tape.len(), TAPE_SIZE);
    assert_eq!(TAPE_SIZE, 1 << 20);
    assert_eq!(START, TAPE_SIZE / 2);
    assert_eq!(outcome.state.pointer, START);
    assert!(outcome.state.tape.iter().all(|cell| *cell == 0));
    assert_eq!(outcome.state.output.len(), 0);
}

#[test]
fn input_at_the_end_of_the_input_stores_255() {
    let outcome = run(",.", 0, &[]);
    assert_eq!(outcome.stop, Stop::Done);
    assert_eq!(outcome.state.output, vec![0xFF]);
    assert_eq!(outcome.state.tape[START], 0xFF);
    assert_eq!(outcome.state.consumed, 0);
}

#[test]
fn input_is_read_byte_by_byte() {
    let outcome = run(",.,.,.", 0, &[65, 66]);
    assert_eq!(outcome.state.output, vec![65, 66, 0xFF]);
    assert_eq!(outcome.state.consumed, 2);
}

#[test]
fn additions_wrap_around() {
    let outcome = run("-", 0, &[]);
    assert_eq!(outcome.state.tape[START], 255);
    let outcome = run("-++", 0, &[]);
    assert_eq!(outcome.state.tape[START], 1);
    let mut commands = vec![
        Command::IncData { offset: 0, amount: 200, count: 0 },
        Command::IncData { offset: 0, amount: 200, count: 0 },
        Command::DecData { offset: 1, amount: 3, count: 0 },
    ];
    let outcome = interp(&mut commands, &vec![], 10);
    assert_eq!(outcome.state.tape[START], 144);
    assert_eq!(outcome.state.tape[START + 1], 253);
}

#[test]
fn a_clearing_loop_leaves_zero() {
    let text = "++++++++++++++++++++++++++++++++++++++++++[-]";
    for level in 0..4 {
        let outcome = run(text, level, &[]);
        assert_eq!(outcome.stop, Stop::Done);
        assert_eq!(outcome.state.tape[START], 0);
    }
    let folded = program(text, 2);
    assert!(matches!(folded[1], Command::SetData { offset: 0, value: 0, count: 0 }));
}

#[test]
fn a_simple_loop_and_its_lowering_leave_the_same_tape() {
    for level in 0..4 {
        let outcome = run("+++++[->+++<]", level, &[]);
        assert_eq!(outcome.stop, Stop::Done);
        assert_eq!(outcome.state.tape[START], 0);
        assert_eq!(outcome.state.tape[START + 1], 15);
        assert_eq!(outcome.state.pointer, START);
    }
}

#[test]
fn a_loop_that_counts_up_and_its_lowering_leave_the_same_tape() {
    for level in 0..4 {
        let outcome = run("---[+>++>-<<]", level, &[]);
        assert_eq!(outcome.stop, Stop::Done);
        assert_eq!(outcome.state.tape[START], 0);
        assert_eq!(outcome.state.tape[START + 1], 6);
        assert_eq!(outcome.state.tape[START + 2], 253);
    }
}

#[test]
fn a_scan_stops_at_the_first_zero() {
    for level in 0..4 {
        let outcome = run("+>+>+>+>+<<<<[>]", level, &[]);
        assert_eq!(outcome.stop, Stop::Done);
        assert_eq!(outcome.state.pointer, START + 5);
        let outcome = run(">+>+>+>+>+[>]", level, &[]);
        assert_eq!(outcome.state.pointer, START + 6);
        let outcome = run("+>>+>>+[<<]", level, &[]);
        assert_eq!(outcome.state.pointer, START - 2);
    }
}

#[test]
fn a_scan_does_what_the_loop_around_its_move_does() {
    let mut scan = vec![
        Command::IncData { offset: 0, amount: 1, count: 0 },
        Command::IncData { offset: 3, amount: 1, count: 0 },
        Command::Scan { id: 1, direction: Direction::Right, skip_amount: 3, count: 0 },
    ];
    let mut looped = vec![
        Command::IncData { offset: 0, amount: 1, count: 0 },
        Command::IncData { offset: 3, amount: 1, count: 0 },
        Command::Loop {
            id: 1,
            body: vec![Command::IncPointer { amount: 3, count: 0 }],
            start_count: 0,
            end_count: 0,
        },
    ];
    let a = interp(&mut scan, &vec![], 100);
    let b = interp(&mut looped, &vec![], 100);
    assert_eq!(a.stop, Stop::Done);
    assert_eq!(b.stop, Stop::Done);
    assert_eq!(a.state.pointer, START + 6);
    assert_eq!(b.state.pointer, START + 6);
    assert_eq!(a.state.tape, b.state.tape);
}

#[test]
fn offset_additions_multiply_the_source() {
    let mut commands = vec![
        Command::SetData { offset: 0, value: 5, count: 0 },
        Command::SetData { offset: 1, value: 1, count: 0 },
        Command::AddOffsetData {
            dest_offset: 1,
            src_offset: 0,
            multiplier: 3,
            inverted: false,
            count: 0,
        },
        Command::SubOffsetData {
            dest_offset: 2,
            src_offset: 0,
            multiplier: 2,
            inverted: false,
            count: 0,
        },
        Command::AddOffsetData {
            dest_offset: 3,
            src_offset: 0,
            multiplier: 2,
            inverted: true,
            count: 0,
        },
        Command::AddOffsetData {
            dest_offset: 4,
            src_offset: 0,
            multiplier: 259,
            inverted: false,
            count: 0,
        },
    ];
    let outcome = interp(&mut commands, &vec![], 10);
    assert_eq!(outcome.stop, Stop::Done);
    assert_eq!(outcome.state.tape[START + 1], 16);
    assert_eq!(outcome.state.tape[START + 2], 246);
    assert_eq!(outcome.state.tape[START + 3], 246);
    assert_eq!(outcome.state.tape[START + 4], 15);
}

#[test]
fn a_constant_output_writes_its_byte() {
    let mut commands = vec![
        Command::Output { out_type: OutputType::Const(72), count: 0 },
        Command::IncData { offset: 2, amount: 7, count: 0 },
        Command::Output { out_type: OutputType::Cell { offset: 2 }, count: 0 },
    ];
    let outcome = interp(&mut commands, &vec![], 10);
    assert_eq!(outcome.state.output, vec![72, 7]);
}

#[test]
fn a_loop_without_end_runs_out_of_fuel() {
    let mut commands = program("+[]", 0);
    let outcome = interp(&mut commands, &vec![], 10);
    assert_eq!(outcome.stop, Stop::OutOfFuel);
    match &commands[1] {
        Command::Loop { start_count, end_count, .. } => {
            assert_eq!(*start_count, 11);
            assert_eq!(*end_count, 10);
        }
        _ => panic!("expected a loop"),
    }
}

#[test]
fn the_fuel_bounds_the_turns_of_a_loop() {
    let mut commands = program("+++[-]", 0);
    assert_eq!(interp(&mut commands, &vec![], 2).stop, Stop::OutOfFuel);
    let mut commands = program("+++[-]", 0);
    assert_eq!(interp(&mut commands, &vec![], 3).stop, Stop::Done);
}

#[test]
fn leaving_the_tape_stops_the_interpreter() {
    let mut commands = vec![
        Command::IncPointer { amount: TAPE_SIZE - START, count: 0 },
        Command::IncData { offset: 0, amount: 1, count: 0 },
        Command::Output { out_type: OutputType::Const(1), count: 0 },
    ];
    let outcome = interp(&mut commands, &vec![], 10);
    assert_eq!(outcome.stop, Stop::OffTape);
    assert_eq!(outcome.state.pointer, TAPE_SIZE);
    assert_eq!(outcome.state.output.len(), 0);
    assert!(matches!(commands[1], Command::IncData { count: 1, .. }));
    assert!(matches!(commands[2], Command::Output { count: 0, .. }));
    let mut commands = vec![Command::DecPointer { amount: START + 1, count: 0 }];
    assert_eq!(interp(&mut commands, &vec![], 10).stop, Stop::OffTape);
    let mut commands = vec![Command::SetData { offset: -(START as isize) - 1, value: 1, count: 0 }];
    assert_eq!(interp(&mut commands, &vec![], 10).stop, Stop::OffTape);
    let mut commands = vec![Command::SetData { offset: -(START as isize), value: 1, count: 0 }];
    let outcome = interp(&mut commands, &vec![], 10);
    assert_eq!(outcome.stop, Stop::Done);
    assert_eq!(outcome.state.tape[0], 1);
}

#[test]
fn every_node_counts_how_often_it_ran() {
    let mut commands = program("+++[->+<]>.", 0);
    let outcome = interp(&mut commands, &vec![], 100);
    assert_eq!(outcome.stop, Stop::Done);
    assert!(matches!(commands[0], Command::IncData { count: 1, .. }));
    match &commands[3] {
        Command::Loop { body, start_count, end_count, .. } => {
            assert_eq!(*start_count, 4);
            assert_eq!(*end_count, 3);
            assert!(matches!(body[0], Command::DecData { count: 3, .. }));
            assert!(matches!(body[3], Command::DecPointer { count: 3, .. }));
        }
        _ => panic!("expected a loop"),
    }
    assert!(matches!(commands[5], Command::Output { count: 1, .. }));
}

#[test]
fn the_test_that_ends_a_loop_is_counted() {
    let mut commands = vec![
        Command::IncData { offset: 0, amount: 3, count: 0 },
        Command::Loop {
            id: 1,
            body: vec![Command::DecData { offset: 0, amount: 1, count: 0 }],
            start_count: 0,
            end_count: 0,
        },
    ];
    let outcome = interp(&mut commands, &vec![], 100);
    assert_eq!(outcome.stop, Stop::Done);
    assert!(matches!(commands[0], Command::IncData { offset: 0, amount: 3, count: 1 }));
    match &commands[1] {
        Command::Loop { id, body, start_count, end_count } => {
            assert_eq!(*id, 1);
            assert_eq!(*start_count, 4);
            assert_eq!(*end_count, 3);
            assert_eq!(body.len(), 1);
            assert!(matches!(body[0], Command::DecData { offset: 0, amount: 1, count: 3 }));
        }
        _ => panic!("expected a loop"),
    }
}

#[test]
fn a_loop_that_is_not_entered_counts_one_test_and_no_turn() {
    let mut commands = program("[-]", 0);
    interp(&mut commands, &vec![], 100);
    match &commands[0] {
        Command::Loop { body, start_count, end_count, .. } => {
            assert_eq!(*start_count, 1);
            assert_eq!(*end_count, 0);
            assert!(matches!(body[0], Command::DecData { count: 0, .. }));
        }
        _ => panic!("expected a loop"),
    }
}

#[test]
fn a_count_stays_at_the_largest_value() {
    let mut commands = vec![Command::IncData { offset: 0, amount: 1, count: usize::MAX }];
    interp(&mut commands, &vec![], 1);
    assert!(matches!(commands[0], Command::IncData { count: usize::MAX, .. }));
}
