use bfr::ir::{Command, Direction};
use bfr::optimizer::{
    collapse, fold_zero_loop, is_simple_loop, optimize, replace_scans, replace_simple_loops,
};
use bfr::parser::parse;

fn parsed(text: &str) -> Vec<Command> {
    parse(&String::from(text)).unwrap()
}

fn collapsed(text: &str) -> Vec<Command> {
    let mut program = parsed(text);
    collapse(&mut program);
    program
}

#[test]
fn collapse_merges_a_run_of_pointer_moves() {
    let program = collapsed(">>><");
    assert_eq!(program.len(), 1);
    assert!(matches!(program[0], Command::IncPointer { amount: 2, count: 0 }));
    let program = collapsed("<<<>");
    assert_eq!(program.len(), 1);
    assert!(matches!(program[0], Command::DecPointer { amount: 2, count: 0 }));
}

#[test]
fn collapse_merges_a_run_of_additions() {
    let program = collapsed("+++-");
    assert_eq!(program.len(), 1);
    assert!(matches!(program[0], Command::IncData { offset: 0, amount: 2, count: 0 }));
    let program = collapsed("-+--");
    assert_eq!(program.len(), 1);
    assert!(matches!(program[0], Command::DecData { offset: 0, amount: 2, count: 0 }));
}

#[test]
fn collapse_drops_a_run_that_cancels() {
    assert_eq!(collapsed("+-").len(), 0);
    assert_eq!(collapsed("><<>").len(), 0);
}

#[test]
fn collapse_does_not_merge_additions_at_different_offsets() {
    let mut program = vec![
        Command::IncData { offset: 0, amount: 1, count: 0 },
        Command::IncData { offset: 1, amount: 1, count: 0 },
        Command::DecData { offset: 1, amount: 3, count: 0 },
    ];
    collapse(&mut program);
    assert_eq!(program.len(), 2);
    assert!(matches!(program[0], Command::IncData { offset: 0, amount: 1, count: 0 }));
    assert!(matches!(program[1], Command::DecData { offset: 1, amount: 2, count: 0 }));
}

#[test]
fn collapse_reduces_a_sum_modulo_256_and_drops_a_multiple() {
    let mut program = vec![
        Command::IncData { offset: 0, amount: 200, count: 0 },
        Command::IncData { offset: 0, amount: 100, count: 0 },
    ];
    collapse(&mut program);
    assert_eq!(program.len(), 1);
    assert!(matches!(program[0], Command::IncData { offset: 0, amount: 44, count: 0 }));
    let mut program = vec![
        Command::IncData { offset: 0, amount: 128, count: 0 },
        Command::IncData { offset: 0, amount: 128, count: 0 },
    ];
    collapse(&mut program);
    assert_eq!(program.len(), 0);
}

#[test]
fn collapse_clears_the_counts_of_merged_nodes_and_keeps_the_others() {
    let mut program = vec![
        Command::IncData { offset: 0, amount: 1, count: 7 },
        Command::Input { offset: 0, count: 9 },
    ];
    collapse(&mut program);
    assert_eq!(program.len(), 2);
    assert!(matches!(program[0], Command::IncData { offset: 0, amount: 1, count: 0 }));
    assert!(matches!(program[1], Command::Input { offset: 0, count: 9 }));
}

#[test]
fn collapse_splits_a_pointer_run_that_does_not_fit_one_node() {
    let mut program = vec![
        Command::IncPointer { amount: usize::MAX, count: 0 },
        Command::IncPointer { amount: 2, count: 0 },
    ];
    collapse(&mut program);
    assert_eq!(program.len(), 2);
    assert!(matches!(program[0], Command::IncPointer { amount: usize::MAX, count: 0 }));
    assert!(matches!(program[1], Command::IncPointer { amount: 2, count: 0 }));
}

#[test]
fn collapse_works_inside_loops() {
    let program = collapsed("[>>+++<<]");
    assert_eq!(program.len(), 1);
    match &program[0] {
        Command::Loop { id, body, .. } => {
            assert_eq!(*id, 1);
            assert_eq!(body.len(), 3);
            assert!(matches!(body[0], Command::IncPointer { amount: 2, .. }));
            assert!(matches!(body[1], Command::IncData { amount: 3, .. }));
            assert!(matches!(body[2], Command::DecPointer { amount: 2, .. }));
        }
        _ => panic!("expected a loop"),
    }
}

fn same(a: &Vec<Command>, b: &Vec<Command>) -> bool {
    format!("{:?}", a) == format!("{:?}", b)
}

#[test]
fn collapsing_twice_is_collapsing_once() {
    for text in ["+++>>[-<<+>>]<.", "+><+", ">+-<", "+[>-+<+-]+", ">>+><-<<", "[[+><+]><]", "+>+-<->-+<+"] {
        let once = collapsed(text);
        let mut twice = collapsed(text);
        collapse(&mut twice);
        assert!(same(&once, &twice), "{}", text);
    }
}

#[test]
fn collapse_merges_the_neighbours_of_a_run_that_cancels() {
    let program = collapsed("+><+");
    assert_eq!(program.len(), 1);
    assert!(matches!(program[0], Command::IncData { offset: 0, amount: 2, count: 0 }));
    let program = collapsed(">+-<");
    assert_eq!(program.len(), 0);
    let program = collapsed("+>+-<->-+<+");
    assert_eq!(program.len(), 1);
    assert!(matches!(program[0], Command::IncData { offset: 0, amount: 1, count: 0 }));
    let program = collapsed(">>+-<");
    assert_eq!(program.len(), 1);
    assert!(matches!(program[0], Command::IncPointer { amount: 1, count: 0 }));
}

#[test]
fn collapse_merges_across_a_run_that_cancels_inside_a_loop() {
    let program = collapsed("[-><-]");
    assert_eq!(program.len(), 1);
    match &program[0] {
        Command::Loop { id, body, .. } => {
            assert_eq!(*id, 1);
            assert_eq!(body.len(), 1);
            assert!(matches!(body[0], Command::DecData { offset: 0, amount: 2, count: 0 }));
        }
        _ => panic!("expected a loop"),
    }
}

#[test]
fn collapse_does_not_merge_across_a_loop_or_a_transfer() {
    let program = collapsed("+[]+");
    assert_eq!(program.len(), 3);
    let program = collapsed("+.+");
    assert_eq!(program.len(), 3);
    let program = collapsed(">,>");
    assert_eq!(program.len(), 3);
}

#[test]
fn fold_replaces_a_clearing_loop_by_a_store_of_zero() {
    let mut program = parsed("[-]");
    fold_zero_loop(&mut program);
    assert_eq!(program.len(), 1);
    assert!(matches!(program[0], Command::SetData { offset: 0, value: 0, count: 0 }));
    let mut program = parsed("[+]");
    fold_zero_loop(&mut program);
    assert!(matches!(program[0], Command::SetData { offset: 0, value: 0, count: 0 }));
}

#[test]
fn fold_accepts_every_odd_amount_and_no_even_one() {
    let mut program = vec![Command::Loop {
        id: 1,
        body: vec![Command::DecData { offset: 0, amount: 3, count: 0 }],
        start_count: 0,
        end_count: 0,
    }];
    fold_zero_loop(&mut program);
    assert!(matches!(program[0], Command::SetData { offset: 0, value: 0, count: 0 }));
    let mut program = vec![Command::Loop {
        id: 1,
        body: vec![Command::DecData { offset: 0, amount: 2, count: 0 }],
        start_count: 0,
        end_count: 0,
    }];
    fold_zero_loop(&mut program);
    assert!(matches!(program[0], Command::Loop { .. }));
}

#[test]
fn fold_leaves_a_loop_that_adds_at_another_offset() {
    let mut program = vec![Command::Loop {
        id: 1,
        body: vec![Command::DecData { offset: 1, amount: 1, count: 0 }],
        start_count: 0,
        end_count: 0,
    }];
    fold_zero_loop(&mut program);
    assert!(matches!(program[0], Command::Loop { .. }));
}

#[test]
fn fold_works_inside_loops() {
    let mut program = parsed("[>[-]<.]");
    fold_zero_loop(&mut program);
    match &program[0] {
        Command::Loop { body, .. } => {
            assert_eq!(body.len(), 4);
            assert!(matches!(body[1], Command::SetData { offset: 0, value: 0, count: 0 }));
        }
        _ => panic!("expected a loop"),
    }
}

#[test]
fn a_loop_that_counts_down_and_comes_back_is_simple() {
    let program = collapsed("[->+++<]");
    assert_eq!(is_simple_loop(&program[0]), (true, -1));
}

#[test]
fn a_loop_that_counts_up_and_comes_back_is_simple() {
    let program = collapsed("[+>-<]");
    assert_eq!(is_simple_loop(&program[0]), (true, 1));
}

#[test]
fn other_loops_and_other_nodes_are_not_simple() {
    assert_eq!(is_simple_loop(&collapsed("[->+]")[0]), (false, 0));
    assert_eq!(is_simple_loop(&collapsed("[-->+<]")[0]), (false, 0));
    assert_eq!(is_simple_loop(&collapsed("[>+<]")[0]), (false, 0));
    assert_eq!(is_simple_loop(&collapsed("[-.]")[0]), (false, 0));
    assert_eq!(is_simple_loop(&collapsed("[-,]")[0]), (false, 0));
    assert_eq!(is_simple_loop(&collapsed("[-[-]]")[0]), (false, 0));
    assert_eq!(is_simple_loop(&collapsed("+")[0]), (false, 0));
}

#[test]
fn a_simple_loop_becomes_an_offset_addition_and_a_store() {
    let mut program = collapsed("+++[->+++<]");
    replace_simple_loops(&mut program);
    assert_eq!(program.len(), 3);
    assert!(matches!(program[0], Command::IncData { offset: 0, amount: 3, count: 0 }));
    assert!(matches!(
        program[1],
        Command::AddOffsetData {
            dest_offset: 1,
            src_offset: 0,
            multiplier: 3,
            inverted: false,
            count: 0
        }
    ));
    assert!(matches!(program[2], Command::SetData { offset: 0, value: 0, count: 0 }));
}

#[test]
fn a_simple_loop_that_counts_up_is_lowered_with_a_negated_source() {
    let mut program = collapsed("[+>-->>+<<<]");
    replace_simple_loops(&mut program);
    assert_eq!(program.len(), 3);
    assert!(matches!(
        program[0],
        Command::SubOffsetData {
            dest_offset: 1,
            src_offset: 0,
            multiplier: 2,
            inverted: true,
            count: 0
        }
    ));
    assert!(matches!(
        program[1],
        Command::AddOffsetData {
            dest_offset: 3,
            src_offset: 0,
            multiplier: 1,
            inverted: true,
            count: 0
        }
    ));
    assert!(matches!(program[2], Command::SetData { offset: 0, value: 0, count: 0 }));
}

#[test]
fn a_loop_whose_pointer_does_not_come_back_is_kept() {
    let mut program = collapsed("+[->+]");
    replace_simple_loops(&mut program);
    assert_eq!(program.len(), 2);
    assert!(matches!(program[1], Command::Loop { .. }));
}

#[test]
fn simple_loops_are_replaced_inside_other_loops() {
    let mut program = collapsed("[>[->+<]<.]");
    replace_simple_loops(&mut program);
    match &program[0] {
        Command::Loop { body, .. } => {
            assert_eq!(body.len(), 5);
            assert!(matches!(body[1], Command::AddOffsetData { dest_offset: 1, .. }));
            assert!(matches!(body[2], Command::SetData { offset: 0, value: 0, .. }));
        }
        _ => panic!("expected a loop"),
    }
}

#[test]
fn a_loop_around_one_pointer_move_becomes_a_scan_with_its_number() {
    let mut program = collapsed("[-][>>]");
    replace_scans(&mut program);
    assert!(matches!(program[0], Command::Loop { .. }));
    assert!(matches!(
        program[1],
        Command::Scan { id: 2, direction: Direction::Right, skip_amount: 2, count: 0 }
    ));
    let mut program = collapsed("[<]");
    replace_scans(&mut program);
    assert!(matches!(
        program[0],
        Command::Scan { id: 1, direction: Direction::Left, skip_amount: 1, count: 0 }
    ));
}

#[test]
fn scans_are_found_inside_other_loops() {
    let mut program = collapsed("[.[<]>]");
    replace_scans(&mut program);
    match &program[0] {
        Command::Loop { body, .. } => {
            assert!(matches!(body[1], Command::Scan { direction: Direction::Left, .. }));
        }
        _ => panic!("expected a loop"),
    }
}

#[test]
fn the_level_chooses_the_passes() {
    let text = "++[-]>[->+<]>[>]";
    let mut level0 = parsed(text);
    optimize(&mut level0, 0);
    assert_eq!(level0.len(), 7);
    let mut level1 = parsed(text);
    optimize(&mut level1, 1);
    assert_eq!(level1.len(), 6);
    assert!(matches!(level1[0], Command::IncData { amount: 2, .. }));
    assert!(matches!(level1[1], Command::Loop { .. }));
    let mut level2 = parsed(text);
    optimize(&mut level2, 2);
    assert_eq!(level2.len(), 6);
    assert!(matches!(level2[1], Command::SetData { .. }));
    assert!(matches!(level2[3], Command::Loop { .. }));
    assert!(matches!(level2[5], Command::Loop { .. }));
    let mut level3 = parsed(text);
    optimize(&mut level3, 3);
    assert_eq!(level3.len(), 7);
    assert!(matches!(level3[3], Command::AddOffsetData { .. }));
    assert!(matches!(level3[4], Command::SetData { .. }));
    assert!(matches!(level3[6], Command::Scan { .. }));
}

#[test]
fn a_loop_that_moves_one_byte_is_lowered_to_one_offset_addition() {
    let mut program = parsed("+[->+<]");
    optimize(&mut program, 3);
    assert_eq!(program.len(), 3);
    assert!(matches!(program[0], Command::IncData { offset: 0, amount: 1, count: 0 }));
    assert!(matches!(
        program[1],
        Command::AddOffsetData {
            dest_offset: 1,
            src_offset: 0,
            multiplier: 1,
            inverted: false,
            count: 0
        }
    ));
    assert!(matches!(program[2], Command::SetData { offset: 0, value: 0, count: 0 }));
}

#[test]
fn the_inner_loop_of_hello_is_lowered_and_its_scan_is_found() {
    let mut program =
        parsed("++++++++[>++++[>++>+++>+++>+<<<<-]>+>+>->>+[<]<-]>>.>---.+++++++..+++.");
    optimize(&mut program, 3);
    assert_eq!(program.len(), 12);
    assert!(matches!(program[0], Command::IncData { offset: 0, amount: 8, count: 0 }));
    match &program[1] {
        Command::Loop { id, body, .. } => {
            assert_eq!(*id, 3);
            assert_eq!(body.len(), 18);
            let multipliers: Vec<(isize, usize)> = body
                .iter()
                .filter_map(|c| match c {
                    Command::AddOffsetData {
                        dest_offset,
                        src_offset: 0,
                        multiplier,
                        inverted: false,
                        ..
                    } => Some((*dest_offset, *multiplier)),
                    _ => None,
                })
                .collect();
            assert_eq!(multipliers, vec![(1, 2), (2, 3), (3, 3), (4, 1)]);
            assert!(matches!(body[6], Command::SetData { offset: 0, value: 0, count: 0 }));
            assert!(matches!(
                body[15],
                Command::Scan { id: 2, direction: Direction::Left, skip_amount: 1, count: 0 }
            ));
        }
        _ => panic!("expected the outer loop"),
    }
}

fn well_formed(commands: &Vec<Command>) -> bool {
    commands.iter().all(|c| match c {
        Command::IncPointer { amount, .. } | Command::DecPointer { amount, .. } => *amount >= 1,
        Command::IncData { amount, .. } | Command::DecData { amount, .. } => *amount >= 1,
        Command::AddOffsetData { dest_offset, .. } | Command::SubOffsetData { dest_offset, .. } => {
            *dest_offset != 0
        }
        Command::Loop { body, .. } => well_formed(body),
        _ => true,
    })
}

#[test]
fn the_optimizer_writes_no_node_that_does_nothing() {
    let texts = [
        "+-><[-+]",
        "+++[->+>-<<]>[-]<[>>]",
        "++++++++[>++++[>++>+++>+++>+<<<<-]>+>+>->>+[<]<-]>>.>---.+++++++..+++.",
    ];
    for text in texts {
        for level in 0..4 {
            let mut program = parsed(text);
            optimize(&mut program, level);
            assert!(well_formed(&program));
        }
    }
}
