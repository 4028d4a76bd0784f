use bfr::interp::{interp, Stop};
use bfr::ir::Command;
use bfr::optimizer::{collapse, optimize};
use bfr::parser::parse;
use bfr::partial::partial_eval;

/// A small generator of repeatable pseudo-random numbers.
struct Numbers(u64);

impl Numbers {
    fn next(&mut self, bound: u64) -> u64 {
        self.0 = self.0.wrapping_mul(6364136223846793005).wrapping_add(1442695040888963407);
        (self.0 >> 33) % bound
    }
}

fn random_text(numbers: &mut Numbers, length: usize) -> String {
    let mut text = String::new();
    let mut open = 0;
    for _ in 0..length {
        match numbers.next(12) {
            0 | 1 | 2 => text.push('+'),
            3 | 4 | 5 => text.push('-'),
            6 => text.push('>'),
            7 => text.push('<'),
            8 => text.push('.'),
            9 => text.push(','),
            10 => {
                text.push('[');
                open += 1;
            }
            _ => {
                if open > 0 {
                    text.push(']');
                    open -= 1;
                } else {
                    text.push('>');
                }
            }
        }
    }
    for _ in 0..open {
        text.push(']');
    }
    text
}

fn run(commands: &Vec<Command>, input: &Vec<u8>, fuel: usize) -> (Stop, Vec<u8>, Vec<u8>, usize, usize) {
    let mut commands = commands.clone();
    let outcome = interp(&mut commands, input, fuel);
    (
        outcome.stop,
        outcome.state.output,
        outcome.state.tape,
        outcome.state.pointer,
        outcome.state.consumed,
    )
}

#[test]
fn the_optimizer_changes_nothing_that_the_interpreter_can_see() {
    let mut numbers = Numbers(1);
    let mut compared = 0;
    for round in 0..400 {
        let text = random_text(&mut numbers, 4 + round % 40);
        let input: Vec<u8> = (0..numbers.next(4)).map(|_| numbers.next(256) as u8).collect();
        let plain = parse(&text).unwrap();
        let expected = run(&plain, &input, 600);
        if expected.0 != Stop::Done {
            continue;
        }
        for level in 1..4 {
            let mut optimized = plain.clone();
            optimize(&mut optimized, level);
            assert_eq!(run(&optimized, &input, 600), expected, "{} at level {}", text, level);
        }
        compared += 1;
    }
    assert!(compared > 100);
}

#[test]
fn partial_evaluation_changes_nothing_that_the_interpreter_can_see() {
    let mut numbers = Numbers(2);
    let mut compared = 0;
    for round in 0..400 {
        let text = random_text(&mut numbers, 4 + round % 40);
        let input: Vec<u8> = (0..numbers.next(4)).map(|_| numbers.next(256) as u8).collect();
        let level = (round % 4) as u8;
        let mut given = parse(&text).unwrap();
        optimize(&mut given, level);
        let expected = run(&given, &input, 600);
        if expected.0 != Stop::Done {
            continue;
        }
        let made = partial_eval(&given);
        assert_eq!(run(&made, &input, 1_000_600), expected, "{} at level {}", text, level);
        compared += 1;
    }
    assert!(compared > 100);
}

#[test]
fn collapsing_a_collapsed_program_changes_nothing() {
    let mut numbers = Numbers(3);
    for round in 0..300 {
        let text = random_text(&mut numbers, 4 + round % 40);
        let mut program = parse(&text).unwrap();
        collapse(&mut program);
        let once = format!("{:?}", program);
        collapse(&mut program);
        assert_eq!(format!("{:?}", program), once, "{}", text);
    }
}
