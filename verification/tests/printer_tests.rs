use bfr::interp::interp;
use bfr::ir::{Command, Direction, OutputType};
use bfr::optimizer::optimize;
use bfr::parser::parse;
use bfr::printer::pretty_print;
use bfr::profiler::print_profile;

fn program(text: &str, level: u8) -> Vec<Command> {
    let mut commands = parse(&String::from(text)).unwrap();
    optimize(&mut commands, level);
    commands
}

#[test]
fn the_empty_program_prints_as_nothing() {
    assert_eq!(pretty_print(&vec![]), "");
}

#[test]
fn plain_nodes_stand_on_one_line() {
    assert_eq!(pretty_print(&program("+", 0)), "+\n");
    assert_eq!(pretty_print(&program("><+-.,", 0)), "><+-.,\n");
    assert_eq!(pretty_print(&program(">>>+++<<--", 1)), "(>3)(+3)(<2)(-2)\n");
}

#[test]
fn every_kind_has_its_mnemonic() {
    let commands = vec![
        Command::IncData { offset: 2, amount: 1, count: 0 },
        Command::IncData { offset: 2, amount: 3, count: 0 },
        Command::DecData { offset: -1, amount: 1, count: 0 },
        Command::DecData { offset: -1, amount: 4, count: 0 },
        Command::SetData { offset: 0, value: 0, count: 0 },
        Command::SetData { offset: -1, value: 5, count: 0 },
        Command::Scan { id: 1, direction: Direction::Right, skip_amount: 2, count: 0 },
        Command::Scan { id: 2, direction: Direction::Left, skip_amount: 1, count: 0 },
        Command::AddOffsetData {
            dest_offset: 1,
            src_offset: 0,
            multiplier: 3,
            inverted: false,
            count: 0,
        },
        Command::AddOffsetData {
            dest_offset: -2,
            src_offset: 0,
            multiplier: 1,
            inverted: true,
            count: 0,
        },
        Command::SubOffsetData {
            dest_offset: 1,
            src_offset: 0,
            multiplier: 3,
            inverted: false,
            count: 0,
        },
        Command::SubOffsetData {
            dest_offset: 1,
            src_offset: 4,
            multiplier: 3,
            inverted: true,
            count: 0,
        },
        Command::Output { out_type: OutputType::Const(72), count: 0 },
        Command::Output { out_type: OutputType::Cell { offset: 3 }, count: 0 },
        Command::Input { offset: 3, count: 0 },
    ];
    assert_eq!(
        pretty_print(&commands),
        "(2)+((2)+3)(-1)-((-1)-4)(=0)((-1)=5)[(>2)][(<1)](1+=(0*3))(-2+=-(0*1))(1-=(0*3))(1-=-(4*3))(.72).,\n"
    );
}

#[test]
fn a_loop_stands_on_lines_of_its_own() {
    assert_eq!(pretty_print(&program("+++[->+<]", 1)), "(+3)\n[\n  ->+<\n]\n");
    assert_eq!(pretty_print(&program("[-]+", 0)), "[\n  -\n]\n+\n");
    assert_eq!(pretty_print(&program("[]", 0)), "[\n]\n");
}

#[test]
fn nested_loops_are_indented_by_two_spaces_for_each_level() {
    assert_eq!(pretty_print(&program("[[-]]", 0)), "[\n  [\n    -\n  ]\n]\n");
    assert_eq!(
        pretty_print(&program("+[>[.]<-].", 0)),
        "+\n[\n  >\n  [\n    .\n  ]\n  <-\n]\n.\n"
    );
}

#[test]
fn the_optimized_program_prints_its_new_nodes() {
    assert_eq!(pretty_print(&program("+++[->+++<][-][>>]", 3)), "(+3)(1+=(0*3))(=0)(=0)[(>2)]\n");
}

#[test]
fn the_profile_lists_each_node_with_its_index_and_count() {
    let mut commands = program("+", 0);
    interp(&mut commands, &vec![], 10);
    assert_eq!(print_profile(&commands), "     0 :   +    : 1\n");
}

#[test]
fn the_profile_lists_a_loop_with_its_tests_and_its_turns() {
    let mut commands = program("+++[-]", 1);
    interp(&mut commands, &vec![], 10);
    assert_eq!(
        print_profile(&commands),
        "     0 :   +3   : 1\n     1 :   [    : 4\n     2 :   -    : 3\n     3 :   ]    : 3\n\
         [Simple Loop]     : index 1      : executions 3\n"
    );
}

#[test]
fn the_profile_orders_the_loops_by_their_turns() {
    let mut commands = program("++[->+<]>[>+++[-]<-.]+[-],[.[-]]", 0);
    interp(&mut commands, &vec![0], 100);
    let profile = print_profile(&commands);
    let lists: Vec<&str> = profile.lines().filter(|line| line.starts_with('[')).collect();
    assert_eq!(
        lists,
        vec![
            "[Simple Loop]     : index 14     : executions 6",
            "[Simple Loop]     : index 2      : executions 2",
            "[Simple Loop]     : index 22     : executions 1",
            "[Simple Loop]     : index 28     : executions 0",
            "[Non-simple Loop] : index 9      : executions 2",
            "[Non-simple Loop] : index 26     : executions 0",
        ]
    );
}

#[test]
fn loops_with_the_same_turns_keep_their_order() {
    let mut commands = program("+[-]+[-]++[-]+[-]", 0);
    interp(&mut commands, &vec![], 100);
    let profile = print_profile(&commands);
    let lists: Vec<&str> = profile.lines().filter(|line| line.starts_with('[')).collect();
    assert_eq!(
        lists,
        vec![
            "[Simple Loop]     : index 10     : executions 2",
            "[Simple Loop]     : index 1      : executions 1",
            "[Simple Loop]     : index 5      : executions 1",
            "[Simple Loop]     : index 14     : executions 1",
        ]
    );
}

#[test]
fn the_profile_has_a_mnemonic_for_every_kind() {
    let commands = vec![
        Command::IncPointer { amount: 1, count: 1 },
        Command::DecPointer { amount: 12, count: 2 },
        Command::IncData { offset: 2, amount: 1, count: 3 },
        Command::DecData { offset: 0, amount: 9, count: 4 },
        Command::SetData { offset: 0, value: 0, count: 5 },
        Command::Scan { id: 1, direction: Direction::Right, skip_amount: 1, count: 6 },
        Command::AddOffsetData {
            dest_offset: 1,
            src_offset: 0,
            multiplier: 3,
            inverted: true,
            count: 7,
        },
        Command::SubOffsetData {
            dest_offset: 1,
            src_offset: 0,
            multiplier: 3,
            inverted: false,
            count: 8,
        },
        Command::Output { out_type: OutputType::Const(1), count: 9 },
        Command::Input { offset: 0, count: 10 },
    ];
    assert_eq!(
        print_profile(&commands),
        "     0 :   >    : 1\n     1 :  <12   : 2\n     2 :  (2)+  : 3\n     3 :   -9   : 4\n     \
         4 :   =0   : 5\n     5 : [(>1)] : 6\n     6 : (1+=-(0*3)) : 7\n     7 : (1-=(0*3)) : 8\n     \
         8 :   .    : 9\n     9 :   ,    : 10\n"
    );
}
