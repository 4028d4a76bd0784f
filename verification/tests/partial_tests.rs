use bfr::interp::{interp, Stop};
use bfr::ir::{Command, Direction, OutputType};
use bfr::optimizer::optimize;
use bfr::parser::parse;
use bfr::partial::{partial_eval, EVAL_FUEL, INIT_POINTER_LOC};

const HELLO: &str = "++++++++[>++++[>++>+++>+++>+<<<<-]>+>+>->>+[<]<-]>>.>---.+++++++..+++.";

fn program(text: &str, level: u8) -> Vec<Command> {
    let mut commands = parse(&String::from(text)).unwrap();
    optimize(&mut commands, level);
    commands
}

fn residual(text: &str, level: u8) -> Vec<Command> {
    partial_eval(&program(text, level))
}

fn output_of(commands: &Vec<Command>, input: &[u8]) -> Vec<u8> {
    let mut commands = commands.clone();
    let outcome = interp(&mut commands, &input.to_vec(), 1_000_000);
    assert_eq!(outcome.stop, Stop::Done);
    outcome.state.output
}

fn same(a: &Vec<Command>, b: &Vec<Command>) -> bool {
    format!("{:?}", a) == format!("{:?}", b)
}

#[test]
fn the_constants_are_what_they_are() {
    assert_eq!(INIT_POINTER_LOC, 0x4000);
    assert_eq!(EVAL_FUEL, 1_000_000);
}

#[test]
fn the_empty_program_has_an_empty_residual() {
    assert_eq!(partial_eval(&vec![]).len(), 0);
}

#[test]
fn known_bytes_are_stored() {
    let made = residual("+++", 1);
    assert_eq!(made.len(), 1);
    assert!(matches!(made[0], Command::SetData { offset: 0, value: 3, count: 0 }));
}

#[test]
fn every_command_stores_what_it_changed() {
    let made = residual("+-", 0);
    assert_eq!(made.len(), 2);
    assert!(matches!(made[0], Command::SetData { offset: 0, value: 1, count: 0 }));
    assert!(matches!(made[1], Command::SetData { offset: 0, value: 0, count: 0 }));
}

#[test]
fn a_store_that_changes_nothing_is_left_out() {
    assert_eq!(residual("[-]", 0).len(), 0);
    assert_eq!(partial_eval(&vec![Command::SetData { offset: 0, value: 0, count: 0 }]).len(), 0);
    let made = partial_eval(&vec![
        Command::SetData { offset: 3, value: 9, count: 0 },
        Command::SetData { offset: 3, value: 9, count: 0 },
        Command::IncData { offset: 3, amount: 0, count: 0 },
    ]);
    assert_eq!(made.len(), 1);
    assert!(matches!(made[0], Command::SetData { offset: 3, value: 9, count: 0 }));
}

#[test]
fn stores_come_in_the_order_in_which_the_cells_were_first_written() {
    let made = residual("++[->+>++<<]", 0);
    assert_eq!(made.len(), 5);
    assert!(matches!(made[0], Command::SetData { offset: 0, value: 1, .. }));
    assert!(matches!(made[1], Command::SetData { offset: 0, value: 2, .. }));
    assert!(matches!(made[2], Command::SetData { offset: 0, value: 0, .. }));
    assert!(matches!(made[3], Command::SetData { offset: 1, value: 2, .. }));
    assert!(matches!(made[4], Command::SetData { offset: 2, value: 4, .. }));
    let made = partial_eval(&vec![
        Command::IncData { offset: 0, amount: 2, count: 0 },
        Command::Loop {
            id: 1,
            body: vec![
                Command::IncData { offset: 2, amount: 1, count: 0 },
                Command::IncData { offset: 1, amount: 1, count: 0 },
                Command::DecData { offset: 0, amount: 1, count: 0 },
            ],
            start_count: 0,
            end_count: 0,
        },
    ]);
    assert_eq!(made.len(), 4);
    assert!(matches!(made[1], Command::SetData { offset: 2, value: 2, .. }));
    assert!(matches!(made[2], Command::SetData { offset: 1, value: 2, .. }));
    assert!(matches!(made[3], Command::SetData { offset: 0, value: 0, .. }));
}

#[test]
fn a_last_move_brings_the_pointer_to_where_the_program_leaves_it() {
    let made = residual(">>>", 1);
    assert_eq!(made.len(), 1);
    assert!(matches!(made[0], Command::IncPointer { amount: 3, count: 0 }));
    let made = residual("<<", 1);
    assert!(matches!(made[0], Command::DecPointer { amount: 2, count: 0 }));
    assert_eq!(residual("><", 0).len(), 0);
}

#[test]
fn stores_are_made_relative_to_the_residual_pointer() {
    let made = residual(">>+", 1);
    assert_eq!(made.len(), 2);
    assert!(matches!(made[0], Command::SetData { offset: 2, value: 1, count: 0 }));
    assert!(matches!(made[1], Command::IncPointer { amount: 2, count: 0 }));
}

#[test]
fn an_output_of_a_known_byte_becomes_a_constant() {
    let made = residual("+++.", 1);
    assert_eq!(made.len(), 2);
    assert!(matches!(made[0], Command::SetData { offset: 0, value: 3, count: 0 }));
    assert!(matches!(made[1], Command::Output { out_type: OutputType::Const(3), count: 0 }));
}

#[test]
fn hello_is_evaluated_to_constants() {
    for level in 0..4 {
        let made = residual(HELLO, level);
        assert!(made.iter().all(|c| !matches!(c, Command::Loop { .. } | Command::Scan { .. })));
        let outputs: Vec<u8> = made
            .iter()
            .filter_map(|c| match c {
                Command::Output { out_type: OutputType::Const(v), .. } => Some(*v),
                Command::Output { .. } => panic!("an output that is no constant"),
                _ => None,
            })
            .collect();
        assert_eq!(outputs, b"Hello".to_vec());
        assert_eq!(output_of(&made, &[]), b"Hello".to_vec());
    }
}

#[test]
fn input_and_the_output_of_what_was_read_stay() {
    let made = residual(",.", 0);
    assert_eq!(made.len(), 2);
    assert!(matches!(made[0], Command::Input { offset: 0, .. }));
    assert!(matches!(made[1], Command::Output { out_type: OutputType::Cell { offset: 0 }, .. }));
    assert_eq!(output_of(&made, &[]), vec![0xFF]);
    assert_eq!(output_of(&made, &[7]), vec![7]);
}

#[test]
fn an_event_is_made_where_the_program_made_it() {
    let made = residual(">>,", 0);
    assert_eq!(made.len(), 2);
    assert!(matches!(made[0], Command::IncPointer { amount: 2, count: 0 }));
    assert!(matches!(made[1], Command::Input { offset: 0, .. }));
}

#[test]
fn a_command_that_computes_with_input_stays() {
    let made = residual(",+.", 0);
    assert_eq!(made.len(), 3);
    assert!(matches!(made[0], Command::Input { .. }));
    assert!(matches!(made[1], Command::IncData { offset: 0, amount: 1, .. }));
    assert!(matches!(made[2], Command::Output { out_type: OutputType::Cell { offset: 0 }, .. }));
    assert_eq!(output_of(&made, &[41]), vec![42]);
}

#[test]
fn a_byte_written_over_input_is_stored_after_the_input() {
    let made = residual("+[,.[-]]", 2);
    assert_eq!(made.len(), 4);
    assert!(matches!(made[0], Command::SetData { offset: 0, value: 1, .. }));
    assert!(matches!(made[1], Command::Input { .. }));
    assert!(matches!(made[2], Command::Output { out_type: OutputType::Cell { offset: 0 }, .. }));
    assert!(matches!(made[3], Command::SetData { offset: 0, value: 0, .. }));
    let mut run = made.clone();
    let outcome = interp(&mut run, &vec![9], 100);
    assert_eq!(outcome.state.output, vec![9]);
    assert_eq!(outcome.state.tape[outcome.state.pointer], 0);
}

#[test]
fn a_known_source_is_stored_before_a_command_that_stays_reads_it() {
    let text = "+++>,<[->+<]>.";
    let given = program(text, 3);
    let made = partial_eval(&given);
    assert!(matches!(made[0], Command::SetData { offset: 0, value: 3, .. }));
    assert!(made.iter().any(|c| matches!(c, Command::AddOffsetData { .. })));
    for byte in [0u8, 5, 253, 255] {
        assert_eq!(output_of(&made, &[byte]), vec![byte.wrapping_add(3)]);
        assert_eq!(output_of(&made, &[byte]), output_of(&given, &[byte]));
    }
}

#[test]
fn a_balanced_loop_on_input_stays_and_the_evaluation_goes_on() {
    let made = residual(",[->+<]>>+++.", 0);
    assert!(matches!(made[0], Command::Input { .. }));
    assert!(matches!(made[1], Command::Loop { .. }));
    assert!(matches!(
        made[made.len() - 1],
        Command::Output { out_type: OutputType::Const(3), .. }
    ));
    assert_eq!(output_of(&made, &[200]), vec![3]);
}

#[test]
fn an_unbalanced_loop_on_input_ends_the_evaluation() {
    let given = program(",[>]+++.", 0);
    let made = partial_eval(&given);
    assert!(same(&made, &given));
}

#[test]
fn a_scan_on_input_ends_the_evaluation() {
    let given = vec![
        Command::IncData { offset: 0, amount: 2, count: 0 },
        Command::IncPointer { amount: 1, count: 0 },
        Command::Input { offset: 0, count: 0 },
        Command::Scan { id: 1, direction: Direction::Left, skip_amount: 1, count: 0 },
        Command::Output { out_type: OutputType::Cell { offset: 1 }, count: 0 },
    ];
    let made = partial_eval(&given);
    assert_eq!(made.len(), 5);
    assert!(matches!(made[0], Command::SetData { offset: 0, value: 2, .. }));
    assert!(matches!(made[1], Command::IncPointer { amount: 1, .. }));
    assert!(matches!(made[2], Command::Input { .. }));
    assert!(matches!(made[3], Command::Scan { .. }));
    assert!(matches!(made[4], Command::Output { out_type: OutputType::Cell { offset: 1 }, .. }));
    assert_eq!(output_of(&made, &[0]), output_of(&given, &[0]));
}

#[test]
fn a_loop_that_runs_longer_than_the_fuel_stays() {
    let made = residual("+[]", 0);
    assert_eq!(made.len(), 2);
    assert!(matches!(made[0], Command::SetData { offset: 0, value: 1, .. }));
    assert!(matches!(made[1], Command::Loop { .. }));
}

#[test]
fn a_pointer_that_leaves_the_range_ends_the_evaluation() {
    let given = vec![
        Command::DecPointer { amount: INIT_POINTER_LOC + 1, count: 0 },
        Command::IncData { offset: 0, amount: 1, count: 0 },
    ];
    assert!(same(&partial_eval(&given), &given));
}

#[test]
fn the_residual_program_writes_what_the_program_writes() {
    let texts = [
        "++>+++[-<+>]<.",
        ",>,<[->+<]>.",
        ",[.-]",
        "+++[>,.<-]",
        ">++++[<++++++++>-]<+.>,.<.",
        ",>+<[>[-]<-]>.",
        "++[>+++[>+<-]<-]>>.,.",
    ];
    let inputs: [&[u8]; 4] = [&[], &[1], &[3, 0], &[255, 254, 7]];
    for text in texts {
        for level in 0..4 {
            let given = program(text, level);
            let made = partial_eval(&given);
            for input in inputs {
                let mut a = given.clone();
                let mut b = made.clone();
                let left = interp(&mut a, &input.to_vec(), 100_000);
                let right = interp(&mut b, &input.to_vec(), 100_000);
                assert_eq!(left.stop, Stop::Done);
                assert_eq!(right.stop, Stop::Done);
                assert_eq!(left.state.output, right.state.output);
                assert_eq!(left.state.tape, right.state.tape);
                assert_eq!(left.state.pointer, right.state.pointer);
                assert_eq!(left.state.consumed, right.state.consumed);
            }
        }
    }
}
