use bfr::compiler::{replace_extension_filepath, strip_directories_filepath};
use bfr::text::{push_centered, push_decimal, push_pad_left, push_pad_right, push_signed, push_spaces};

fn decimal(n: u128) -> String {
    let mut out = String::new();
    push_decimal(&mut out, n);
    out
}

fn signed(i: isize) -> String {
    let mut out = String::new();
    push_signed(&mut out, i);
    out
}

#[test]
fn numerals_have_no_leading_zeros() {
    assert_eq!(decimal(0), "0");
    assert_eq!(decimal(7), "7");
    assert_eq!(decimal(10), "10");
    assert_eq!(decimal(255), "255");
    assert_eq!(decimal(1000000), "1000000");
    assert_eq!(decimal(u64::MAX as u128), "18446744073709551615");
    assert_eq!(decimal(u128::MAX), "340282366920938463463374607431768211455");
}

#[test]
fn negative_numerals_begin_with_a_minus() {
    assert_eq!(signed(0), "0");
    assert_eq!(signed(42), "42");
    assert_eq!(signed(-1), "-1");
    assert_eq!(signed(-31), "-31");
    assert_eq!(signed(isize::MAX), isize::MAX.to_string());
    assert_eq!(signed(isize::MIN), isize::MIN.to_string());
}

#[test]
fn numerals_are_appended_to_what_is_there() {
    let mut out = String::from("$");
    push_decimal(&mut out, 32);
    push_signed(&mut out, -5);
    assert_eq!(out, "$32-5");
}

#[test]
fn padding_fills_up_to_the_width_and_never_cuts() {
    let mut out = String::from("|");
    push_pad_left(&mut out, "12", 6);
    out.push('|');
    push_pad_right(&mut out, "12", 6);
    out.push('|');
    push_centered(&mut out, "12", 6);
    out.push('|');
    push_centered(&mut out, "+", 6);
    out.push('|');
    push_centered(&mut out, "1234567", 6);
    out.push('|');
    push_pad_left(&mut out, "123456", 6);
    out.push('|');
    push_spaces(&mut out, 3);
    out.push('|');
    assert_eq!(out, "|    12|12    |  12  |  +   |1234567|123456|   |");
    assert_eq!(format!("{:>6}|{:<6}|{:^6}|{:^6}", "12", "12", "12", "+"), "    12|12    |  12  |  +   ");
}

#[test]
fn the_extension_is_what_follows_the_last_dot() {
    assert_eq!(replace_extension_filepath("prog.b", ".s"), "prog.s");
    assert_eq!(replace_extension_filepath("dir/prog.tar.b", ".o"), "dir/prog.tar.o");
    assert_eq!(replace_extension_filepath("prog", ".o"), "prog.o");
    assert_eq!(replace_extension_filepath("./prog", ".s"), ".s");
    assert_eq!(replace_extension_filepath("", ".s"), ".s");
    assert_eq!(replace_extension_filepath("héllo.b", ".s"), "héllo.s");
}

#[test]
fn the_directories_are_what_precedes_the_last_slash() {
    assert_eq!(strip_directories_filepath("a/b/c.s"), "c.s");
    assert_eq!(strip_directories_filepath("c.s"), "c.s");
    assert_eq!(strip_directories_filepath("/c"), "c");
    assert_eq!(strip_directories_filepath("a/"), "");
    assert_eq!(strip_directories_filepath("é/ü.o"), "ü.o");
}
