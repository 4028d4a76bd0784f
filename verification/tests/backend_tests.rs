use bfr::compiler;
use bfr::ir::{Command, Direction, OutputType};
use bfr::llvm;
use bfr::optimizer::optimize;
use bfr::parser::parse;

fn program(text: &str, level: u8) -> Vec<Command> {
    let mut commands = parse(&String::from(text)).unwrap();
    optimize(&mut commands, level);
    commands
}

const HEADER: &str = "
.section .data

.align 32
mask_skip2:
  .byte 0x00, 0xFF, 0x00, 0xFF, 0x00, 0xFF, 0x00, 0xFF, 0x00, 0xFF, 0x00, 0xFF, 0x00, 0xFF, 0x00, 0xFF, 0x00, 0xFF, 0x00, 0xFF, 0x00, 0xFF, 0x00, 0xFF, 0x00, 0xFF, 0x00, 0xFF, 0x00, 0xFF, 0x00, 0xFF
mask_skip2_reverse:
  .byte 0xFF, 0x00, 0xFF, 0x00, 0xFF, 0x00, 0xFF, 0x00, 0xFF, 0x00, 0xFF, 0x00, 0xFF, 0x00, 0xFF, 0x00, 0xFF, 0x00, 0xFF, 0x00, 0xFF, 0x00, 0xFF, 0x00, 0xFF, 0x00, 0xFF, 0x00, 0xFF, 0x00, 0xFF, 0x00
mask_skip4:
  .byte 0x00, 0xFF, 0xFF, 0xFF, 0x00, 0xFF, 0xFF, 0xFF, 0x00, 0xFF, 0xFF, 0xFF, 0x00, 0xFF, 0xFF, 0xFF, 0x00, 0xFF, 0xFF, 0xFF, 0x00, 0xFF, 0xFF, 0xFF, 0x00, 0xFF, 0xFF, 0xFF, 0x00, 0xFF, 0xFF, 0xFF
mask_skip4_reverse:
  .byte 0xFF, 0xFF, 0xFF, 0x00, 0xFF, 0xFF, 0xFF, 0x00, 0xFF, 0xFF, 0xFF, 0x00, 0xFF, 0xFF, 0xFF, 0x00, 0xFF, 0xFF, 0xFF, 0x00, 0xFF, 0xFF, 0xFF, 0x00, 0xFF, 0xFF, 0xFF, 0x00, 0xFF, 0xFF, 0xFF, 0x00

.section .text

.globl main

main:
    pushq %rbp
    movq  %rsp, %rbp
    pushq %r12
    pushq %r13

    movq  $2097152, %rdi
    call malloc

    pushq %rax            # Save tape address to the stack
    movq  %rax,      %r12 # Move tape address into callee saved register
    addq  $16384, %r12 # Move the pointer to the middle of the tape

    # Begin program code
";

const FOOTER: &str = "    # At bottom of main
    \n    popq %rax
    popq %r13
    popq %r12
    popq %rbp

    # Return to _start
    ret
";

fn body_of(commands: &Vec<Command>) -> String {
    let text = compiler::compile(commands);
    assert!(text.starts_with(HEADER));
    assert!(text.ends_with(FOOTER));
    text[HEADER.len()..text.len() - FOOTER.len()].to_string()
}

#[test]
fn the_empty_program_is_the_header_and_the_footer() {
    assert_eq!(compiler::compile(&vec![]), format!("{}{}", HEADER, FOOTER));
    assert_eq!(compiler::INIT_TAPE_SIZE, 2 * 1024 * 1024);
    assert_eq!(compiler::INIT_POINTER_LOC, 0x4000);
}

#[test]
fn the_header_and_footer_name_the_registers_they_are_given() {
    let mut text = String::new();
    compiler::append_assembly_header(&mut text, "%rbx", "%r14");
    assert!(text.contains("    pushq %rbx\n    pushq %r14\n"));
    assert!(text.contains("    movq  %rax,      %rbx # Move tape address"));
    assert!(text.contains("    addq  $16384, %rbx # Move the pointer"));
    let mut text = String::from("x");
    compiler::append_assembly_footer(&mut text, "%rbx", "%r14");
    assert!(text.starts_with("x    # At bottom of main\n"));
    assert!(text.contains("    popq %rax\n    popq %r14\n    popq %rbx\n    popq %rbp\n"));
}

#[test]
fn pointer_moves_by_one_use_the_short_instruction() {
    assert_eq!(body_of(&program(">", 0)), "    # >\n    incq %r12\n\n");
    assert_eq!(body_of(&program("<", 0)), "    # <\n    decq %r12\n\n");
    assert_eq!(body_of(&program(">>>", 1)), "    # >\n    addq $3, %r12\n\n");
    assert_eq!(body_of(&program("<<", 1)), "    # <\n    subq $2, %r12\n\n");
}

#[test]
fn additions_load_change_and_store_the_cell() {
    assert_eq!(
        body_of(&program("+", 0)),
        "    # +\n    movb (%r12), %r13b\n    incb %r13b\n    movb %r13b, (%r12)\n\n"
    );
    assert_eq!(
        body_of(&program("---", 1)),
        "    # -\n    movb (%r12), %r13b\n    subb $3, %r13b\n    movb %r13b, (%r12)\n\n"
    );
    assert_eq!(
        body_of(&vec![Command::IncData { offset: -2, amount: 5, count: 0 }]),
        "    # +\n    movb -2(%r12), %r13b\n    addb $5, %r13b\n    movb %r13b, -2(%r12)\n\n"
    );
}

#[test]
fn a_store_is_padded_to_24_characters() {
    assert_eq!(
        body_of(&vec![Command::SetData { offset: 0, value: 0, count: 0 }]),
        "    movb $0, (%r12)      # =0\n"
    );
    assert_eq!(
        body_of(&vec![Command::SetData { offset: 12, value: 255, count: 0 }]),
        "    movb $255, 12(%r12)  # =255\n"
    );
    assert_eq!(
        body_of(&vec![Command::SetData { offset: -1234567, value: 7, count: 0 }]),
        "    movb $7, -1234567(%r12) # =7\n"
    );
}

#[test]
fn a_loop_has_its_labels_and_jumps() {
    assert_eq!(
        body_of(&program("[-]", 0)),
        "    # [\nloop1:\n    movb (%r12), %r13b\n    cmpb $0,     %r13b\n    je   loop1_end\n\n    \
         # -\n    movb (%r12), %r13b\n    decb %r13b\n    movb %r13b, (%r12)\n\n     # ]\n    jmp  \
         loop1\n\nloop1_end:\n"
    );
}

#[test]
fn input_and_output_call_the_library() {
    assert_eq!(body_of(&program(",", 0)), "    # ,\n    call getchar\n    movb %al, 0(%r12)\n\n");
    assert_eq!(
        body_of(&program(".", 0)),
        "    # .\n    movzbl 0(%r12), %edi\n    call putchar\n\n"
    );
    assert_eq!(
        body_of(&vec![Command::Output { out_type: OutputType::Const(72), count: 0 }]),
        "    # .\n    movl $72, %edi\n    call putchar\n\n"
    );
}

#[test]
fn offset_additions_multiply_in_the_accumulator() {
    assert_eq!(
        body_of(&program("[->+++<]", 3)),
        "    movb 0(%r12), %r13b\n    movb $3, %al\n    mulb %r13b\n    movb 1(%r12), %r13b\n    \
         addb %al, %r13b\n    movb %r13b, 1(%r12)\n    movb $0, (%r12)      # =0\n"
    );
    assert_eq!(
        body_of(&vec![Command::SubOffsetData {
            dest_offset: -1,
            src_offset: 2,
            multiplier: 5,
            inverted: true,
            count: 0,
        }]),
        "    movb 2(%r12), %r13b\n    notb %r13b\n    incb %r13b\n    movb $5, %al\n    mulb \
         %r13b\n    movb -1(%r12), %r13b\n    subb %al, %r13b\n    movb %r13b, -1(%r12)\n"
    );
}

fn scan(direction: Direction, skip_amount: usize) -> String {
    body_of(&vec![Command::Scan { id: 7, direction, skip_amount, count: 0 }])
}

#[test]
fn a_scan_to_the_right_with_stride_one_is_vectorised() {
    assert_eq!(
        scan(Direction::Right, 1),
        "    # [>]\n    xorq %rsi, %rsi\n    vpxor %ymm1, %ymm1, %ymm1\nvector7_loop_start:\n    \
         vmovdqu (%r12, %rsi), %ymm0\n    vpcmpeqb %ymm1, %ymm0, %ymm2\n    vpmovmskb %ymm2, \
         %eax\n    testl %eax, %eax\n    jnz vector7_found_zero\n    addq $32, %rsi\n    jmp \
         vector7_loop_start\nvector7_found_zero:\n    bsfl %eax, %eax\n    addq %rax, %rsi\n    \
         addq %rsi, %r12\n\n"
    );
}

#[test]
fn a_scan_to_the_left_with_stride_four_masks_the_other_lanes() {
    assert_eq!(
        scan(Direction::Left, 4),
        "    # [<<<<]\n    vmovdqa mask_skip4_reverse(%rip), %ymm3\n    movq $-31, %rsi\n    vpxor \
         %ymm1, %ymm1, %ymm1\nvector7_loop_start:\n    vmovdqu (%r12, %rsi), %ymm0\n    vpor \
         %ymm3, %ymm0, %ymm0\n    vpcmpeqb %ymm1, %ymm0, %ymm2\n    vpmovmskb %ymm2, %eax\n    \
         testl %eax, %eax\n    jnz vector7_found_zero\n    subq $32, %rsi\n    jmp \
         vector7_loop_start\nvector7_found_zero:\n    bsrl %eax, %eax\n    addq %rax, %rsi\n    \
         addq %rsi, %r12\n\n"
    );
}

#[test]
fn the_masks_follow_the_stride_and_the_direction() {
    assert!(scan(Direction::Right, 2).contains("    # [>>]\n    vmovdqa mask_skip2(%rip), %ymm3\n"));
    assert!(scan(Direction::Right, 4).contains("    vmovdqa mask_skip4(%rip), %ymm3\n"));
    assert!(scan(Direction::Left, 2).contains("    vmovdqa mask_skip2_reverse(%rip), %ymm3\n"));
    assert!(!scan(Direction::Left, 1).contains("vmovdqa"));
    assert!(!scan(Direction::Left, 1).contains("vpor"));
}

#[test]
fn a_scan_with_another_stride_is_compiled_as_its_loop() {
    for (direction, inner) in [
        (Direction::Right, Command::IncPointer { amount: 3, count: 0 }),
        (Direction::Left, Command::DecPointer { amount: 3, count: 0 }),
    ] {
        let looped = vec![Command::Loop { id: 7, body: vec![inner], start_count: 0, end_count: 0 }];
        assert_eq!(scan(direction, 3), body_of(&looped));
    }
    assert!(scan(Direction::Right, 3).contains("loop7:\n"));
    assert!(scan(Direction::Right, 3).contains("    addq $3, %r12\n"));
    assert!(scan(Direction::Right, 0).contains("    addq $0, %r12\n"));
}

fn module_body(commands: &Vec<Command>) -> String {
    let text = llvm::compile(commands);
    let open = "; ModuleID = 'bf'\nsource_filename = \"bf\"\n\ndeclare ptr @calloc(i64, i64)\n\n\
                declare i32 @getchar()\n\ndeclare i32 @putchar(i32)\n\ndefine i32 @main() {\n\
                entry:\n  %tape = call ptr @calloc(i64 1, i64 2097152)\n  %tape_ptr = \
                getelementptr i8, ptr %tape, i64 16384\n  %tape_ptr_alloca = alloca ptr\n  store \
                ptr %tape_ptr, ptr %tape_ptr_alloca\n";
    let close = "  ret i32 0\n}\n";
    assert!(text.starts_with(open));
    assert!(text.ends_with(close));
    text[open.len()..text.len() - close.len()].to_string()
}

#[test]
fn the_module_of_the_empty_program_allocates_the_tape_and_returns() {
    assert_eq!(module_body(&vec![]), "");
    assert_eq!(llvm::INIT_TAPE_SIZE, 0x200000);
    assert_eq!(llvm::INIT_POINTER_LOC, 0x4000);
}

#[test]
fn a_pointer_move_loads_moves_and_stores_the_pointer() {
    assert_eq!(
        module_body(&program(">", 0)),
        "  %n_0.ptr = load ptr, ptr %tape_ptr_alloca\n  %n_0.moved = getelementptr i8, ptr \
         %n_0.ptr, i64 1\n  store ptr %n_0.moved, ptr %tape_ptr_alloca\n"
    );
    assert_eq!(
        module_body(&program("<<<", 1)),
        "  %n_0.ptr = load ptr, ptr %tape_ptr_alloca\n  %n_0.moved = getelementptr i8, ptr \
         %n_0.ptr, i64 -3\n  store ptr %n_0.moved, ptr %tape_ptr_alloca\n"
    );
}

#[test]
fn an_addition_loads_changes_and_stores_the_cell() {
    assert_eq!(
        module_body(&program("+", 0)),
        "  %n_0.ptr = load ptr, ptr %tape_ptr_alloca\n  %n_0.val = load i8, ptr %n_0.ptr\n  \
         %n_0.new = add i8 %n_0.val, 1\n  store i8 %n_0.new, ptr %n_0.ptr\n"
    );
    assert_eq!(
        module_body(&vec![Command::DecData { offset: 2, amount: 5, count: 0 }]),
        "  %n_0.ptr = load ptr, ptr %tape_ptr_alloca\n  %n_0.cell = getelementptr i8, ptr \
         %n_0.ptr, i64 2\n  %n_0.val = load i8, ptr %n_0.cell\n  %n_0.new = sub i8 %n_0.val, 5\n  \
         store i8 %n_0.new, ptr %n_0.cell\n"
    );
    assert_eq!(
        module_body(&vec![Command::SetData { offset: 0, value: 9, count: 0 }]),
        "  %n_0.ptr = load ptr, ptr %tape_ptr_alloca\n  store i8 9, ptr %n_0.ptr\n"
    );
}

#[test]
fn a_loop_has_a_block_for_its_test_its_body_and_its_end() {
    assert_eq!(
        module_body(&program("+[-]", 0)),
        "  %n_0.ptr = load ptr, ptr %tape_ptr_alloca\n  %n_0.val = load i8, ptr %n_0.ptr\n  \
         %n_0.new = add i8 %n_0.val, 1\n  store i8 %n_0.new, ptr %n_0.ptr\n  br label \
         %loop1_cond\nloop1_cond:\n  %n_1.ptr = load ptr, ptr %tape_ptr_alloca\n  %n_1.val = load \
         i8, ptr %n_1.ptr\n  %n_1.cmp = icmp ne i8 %n_1.val, 0\n  br i1 %n_1.cmp, label \
         %loop1_body, label %loop1_end\nloop1_body:\n  %n_1_0.ptr = load ptr, ptr \
         %tape_ptr_alloca\n  %n_1_0.val = load i8, ptr %n_1_0.ptr\n  %n_1_0.new = sub i8 \
         %n_1_0.val, 1\n  store i8 %n_1_0.new, ptr %n_1_0.ptr\n  br label %loop1_cond\nloop1_end:\n"
    );
}

#[test]
fn a_scan_is_lowered_as_its_loop() {
    for (direction, inner) in [
        (Direction::Right, Command::IncPointer { amount: 2, count: 0 }),
        (Direction::Left, Command::DecPointer { amount: 2, count: 0 }),
    ] {
        let scan = vec![Command::Scan { id: 4, direction, skip_amount: 2, count: 0 }];
        let looped = vec![Command::Loop { id: 4, body: vec![inner], start_count: 0, end_count: 0 }];
        assert_eq!(module_body(&scan), module_body(&looped));
    }
}

#[test]
fn input_and_output_call_getchar_and_putchar() {
    assert_eq!(
        module_body(&program(",", 0)),
        "  %n_0.got = call i32 @getchar()\n  %n_0.byte = trunc i32 %n_0.got to i8\n  %n_0.ptr = \
         load ptr, ptr %tape_ptr_alloca\n  store i8 %n_0.byte, ptr %n_0.ptr\n"
    );
    assert_eq!(
        module_body(&program(".", 0)),
        "  %n_0.ptr = load ptr, ptr %tape_ptr_alloca\n  %n_0.val = load i8, ptr %n_0.ptr\n  \
         %n_0.wide = zext i8 %n_0.val to i32\n  %n_0.put = call i32 @putchar(i32 %n_0.wide)\n"
    );
    assert_eq!(
        module_body(&vec![Command::Output { out_type: OutputType::Const(72), count: 0 }]),
        "  %n_0.put = call i32 @putchar(i32 72)\n"
    );
}

#[test]
fn an_offset_addition_multiplies_in_32_bits() {
    assert_eq!(
        module_body(&vec![Command::AddOffsetData {
            dest_offset: 1,
            src_offset: 0,
            multiplier: 3,
            inverted: true,
            count: 0,
        }]),
        "  %n_0.src.ptr = load ptr, ptr %tape_ptr_alloca\n  %n_0.dst.ptr = load ptr, ptr \
         %tape_ptr_alloca\n  %n_0.dst.cell = getelementptr i8, ptr %n_0.dst.ptr, i64 1\n  \
         %n_0.src_val = load i8, ptr %n_0.src.ptr\n  %n_0.factor = sub i8 0, %n_0.src_val\n  \
         %n_0.wide = zext i8 %n_0.factor to i32\n  %n_0.product = mul i32 %n_0.wide, 3\n  \
         %n_0.scaled = trunc i32 %n_0.product to i8\n  %n_0.dst_val = load i8, ptr \
         %n_0.dst.cell\n  %n_0.new = add i8 %n_0.dst_val, %n_0.scaled\n  store i8 %n_0.new, ptr \
         %n_0.dst.cell\n"
    );
    let text = module_body(&vec![Command::SubOffsetData {
        dest_offset: 1,
        src_offset: 0,
        multiplier: 4294967296 + 5,
        inverted: false,
        count: 0,
    }]);
    assert!(text.contains("  %n_0.factor = add i8 0, %n_0.src_val\n"));
    assert!(text.contains("  %n_0.product = mul i32 %n_0.wide, 5\n"));
    assert!(text.contains("  %n_0.new = sub i8 %n_0.dst_val, %n_0.scaled\n"));
}
