use brainfuck::instruction::Instruction;
use brainfuck::machine::Fault;
use brainfuck::program::{Program, TAPE_CAPACITY};

fn load(text: &str) -> Program {
    Program::new(text.as_bytes().to_vec(), Vec::new())
}

fn load_with_input(text: &str, input: &[u8]) -> Program {
    Program::new(text.as_bytes().to_vec(), input.to_vec())
}

#[test]
fn new_program_starts_with_an_empty_tape() {
    let program = load("+++");
    assert_eq!(program.cells(), &Vec::<u8>::new());
    assert_eq!(program.data_pointer(), 0);
    assert_eq!(program.output(), &Vec::<u8>::new());
    assert_eq!(program.current_cell(), 0);
    assert_eq!(program.cell(0), 0);
    assert_eq!(program.cell(29999), 0);
    assert_eq!(program.pass_limit(), u64::MAX);
    assert!(program.cells().capacity() >= TAPE_CAPACITY);
}

#[test]
fn tape_capacity_is_thirty_thousand() {
    assert_eq!(TAPE_CAPACITY, 30000);
}

#[test]
fn new_program_has_the_widest_limits() {
    let program = load("");
    assert_eq!(program.pass_limit(), u64::MAX);
    assert_eq!(program.tape_limit(), isize::MAX as usize);
}

#[test]
fn with_limits_records_the_limits() {
    let program = Program::with_limits(Vec::new(), Vec::new(), 17, 300);
    assert_eq!(program.pass_limit(), 17);
    assert_eq!(program.tape_limit(), 300);
}

#[test]
fn with_limits_grants_one_cell_at_least_and_no_more_than_a_tape_can_have() {
    let none = Program::with_limits(Vec::new(), Vec::new(), 1, 0);
    assert_eq!(none.tape_limit(), 1);
    let all = Program::with_limits(Vec::new(), Vec::new(), 1, usize::MAX);
    assert_eq!(all.tape_limit(), isize::MAX as usize);
    let most = Program::with_limits(Vec::new(), Vec::new(), 1, isize::MAX as usize);
    assert_eq!(most.tape_limit(), isize::MAX as usize);
}

#[test]
fn increment_pointer_at_the_last_cell_is_an_overflow() {
    let mut program = Program::with_limits(Vec::new(), Vec::new(), 1, 3);
    assert_eq!(program.increment_pointer(), Ok(()));
    assert_eq!(program.increment_pointer(), Ok(()));
    assert_eq!(program.data_pointer(), 2);
    assert_eq!(program.increment_pointer(), Err(Fault::PointerOverflow));
    assert_eq!(program.data_pointer(), 2);
    program.increment_value();
    assert_eq!(program.cells(), &vec![0u8, 0, 1]);
}

#[test]
fn program_that_moves_past_the_last_cell_fails() {
    let mut program = Program::with_limits(b"+>+>+>+>+".to_vec(), Vec::new(), 1, 3);
    assert_eq!(program.interpret(), Err(Fault::PointerOverflow));
    assert_eq!(program.cells(), &vec![1u8, 1, 1]);
    assert_eq!(program.data_pointer(), 2);
    assert_eq!(program.fetch_instruction(), Some(Instruction::IncrementValue));
}

#[test]
fn tape_of_one_cell_cannot_move_the_pointer() {
    let mut program = Program::with_limits(b"+.>".to_vec(), Vec::new(), 1, 1);
    assert_eq!(program.interpret(), Err(Fault::PointerOverflow));
    assert_eq!(program.output(), &vec![1u8]);
}

#[test]
fn runaway_loop_stops_at_the_end_of_the_tape() {
    let mut program = Program::with_limits(b"+[>+]".to_vec(), Vec::new(), u64::MAX, 1000);
    assert_eq!(program.interpret(), Err(Fault::PointerOverflow));
    assert_eq!(program.cells().len(), 1000);
    assert_eq!(program.data_pointer(), 999);
}

#[test]
fn run_is_the_same_under_a_larger_tape_limit() {
    let text = b"+>++>+++<<[->>+<<]>>.".to_vec();
    let mut small = Program::with_limits(text.clone(), Vec::new(), u64::MAX, 3);
    let mut large = Program::new(text, Vec::new());
    assert_eq!(small.interpret(), Ok(()));
    assert_eq!(large.interpret(), Ok(()));
    assert_eq!(small.cells(), large.cells());
    assert_eq!(small.output(), &vec![4u8]);
    assert_eq!(large.output(), &vec![4u8]);
}

#[test]
fn straight_line_program_runs_in_order() {
    let mut program = load("+++.");
    assert_eq!(program.interpret(), Ok(()));
    assert_eq!(program.output(), &vec![3u8]);
    assert_eq!(program.cells(), &vec![3u8]);
}

#[test]
fn straight_line_order_is_visible_in_the_output() {
    let mut program = load("+.+.>.+.<-.");
    assert_eq!(program.interpret(), Ok(()));
    assert_eq!(program.output(), &vec![1u8, 2, 0, 1, 1]);
    assert_eq!(program.cells(), &vec![1u8, 1]);
    assert_eq!(program.data_pointer(), 0);
}

#[test]
fn empty_program_does_nothing() {
    let mut program = load("");
    assert_eq!(program.interpret(), Ok(()));
    assert_eq!(program.cells(), &Vec::<u8>::new());
    assert_eq!(program.output(), &Vec::<u8>::new());
}

#[test]
fn increment_wraps_from_255_to_0() {
    let mut program = load("");
    for _ in 0..255 {
        program.increment_value();
    }
    assert_eq!(program.current_cell(), 255);
    program.increment_value();
    assert_eq!(program.current_cell(), 0);
    program.increment_value();
    assert_eq!(program.current_cell(), 1);
}

#[test]
fn decrement_wraps_from_0_to_255() {
    let mut program = load("");
    program.decrement_value();
    assert_eq!(program.current_cell(), 255);
    program.decrement_value();
    assert_eq!(program.current_cell(), 254);
}

#[test]
fn wraparound_in_a_program() {
    let mut program = load("-.+.");
    assert_eq!(program.interpret(), Ok(()));
    assert_eq!(program.output(), &vec![255u8, 0]);
}

#[test]
fn increment_and_decrement_are_modulo_256_for_every_value() {
    for start in 0..=255u8 {
        let mut up = load_with_input(",+", &[start]);
        assert_eq!(up.interpret(), Ok(()));
        assert_eq!(up.current_cell() as u32, (start as u32 + 1) % 256);
        let mut down = load_with_input(",-", &[start]);
        assert_eq!(down.interpret(), Ok(()));
        assert_eq!(down.current_cell() as u32, (start as u32 + 255) % 256);
    }
}

#[test]
fn pointer_moves_right_and_left() {
    let mut program = load("");
    assert_eq!(program.increment_pointer(), Ok(()));
    assert_eq!(program.increment_pointer(), Ok(()));
    assert_eq!(program.data_pointer(), 2);
    assert_eq!(program.decrement_pointer(), Ok(()));
    assert_eq!(program.data_pointer(), 1);
    assert_eq!(program.cells(), &Vec::<u8>::new());
}

#[test]
fn decrement_pointer_at_cell_0_is_an_underflow() {
    let mut program = load("");
    assert_eq!(program.decrement_pointer(), Err(Fault::PointerUnderflow));
    assert_eq!(program.data_pointer(), 0);
}

#[test]
fn program_that_moves_left_of_cell_0_fails() {
    let mut program = load("<");
    assert_eq!(program.interpret(), Err(Fault::PointerUnderflow));
    assert_eq!(program.data_pointer(), 0);
    assert_eq!(program.cells(), &Vec::<u8>::new());
}

#[test]
fn nothing_runs_after_a_pointer_underflow() {
    let mut program = load("+<+.>+");
    assert_eq!(program.interpret(), Err(Fault::PointerUnderflow));
    assert_eq!(program.cells(), &vec![1u8]);
    assert_eq!(program.output(), &Vec::<u8>::new());
    assert_eq!(program.data_pointer(), 0);
    assert_eq!(program.fetch_instruction(), Some(Instruction::IncrementValue));
}

#[test]
fn writing_grows_the_tape_with_zeros() {
    let mut program = load(">>+");
    assert_eq!(program.interpret(), Ok(()));
    assert_eq!(program.cells(), &vec![0u8, 0, 1]);
    assert_eq!(program.data_pointer(), 2);
    assert_eq!(program.cell(2), 1);
    assert_eq!(program.cell(3), 0);
}

#[test]
fn initialize_cells_grows_up_to_the_pointer() {
    let mut program = load("");
    program.initialize_cells();
    assert_eq!(program.cells(), &vec![0u8]);
    assert_eq!(program.increment_pointer(), Ok(()));
    assert_eq!(program.increment_pointer(), Ok(()));
    program.initialize_cells();
    assert_eq!(program.cells(), &vec![0u8, 0, 0]);
    assert_eq!(program.decrement_pointer(), Ok(()));
    program.initialize_cells();
    assert_eq!(program.cells(), &vec![0u8, 0, 0]);
}

#[test]
fn output_of_an_unwritten_cell_is_zero_and_grows_nothing() {
    let mut program = load(">>.");
    assert_eq!(program.interpret(), Ok(()));
    assert_eq!(program.output(), &vec![0u8]);
    assert_eq!(program.cells(), &Vec::<u8>::new());
}

#[test]
fn output_is_the_raw_cell_value() {
    let mut program = load_with_input(",.", &[200]);
    assert_eq!(program.interpret(), Ok(()));
    assert_eq!(program.output(), &vec![200u8]);
}

#[test]
fn input_is_read_one_byte_per_instruction() {
    let mut program = load_with_input(",>,>,", &[10, 20, 30, 40]);
    assert_eq!(program.interpret(), Ok(()));
    assert_eq!(program.cells(), &vec![10u8, 20, 30]);
}

#[test]
fn exhausted_input_stores_zero() {
    let mut program = load("+++,.");
    assert_eq!(program.interpret(), Ok(()));
    assert_eq!(program.output(), &vec![0u8]);
    assert_eq!(program.cells(), &vec![0u8]);
}

#[test]
fn input_runs_out_in_the_middle() {
    let mut program = load_with_input(",.+,.", &[7]);
    assert_eq!(program.interpret(), Ok(()));
    assert_eq!(program.output(), &vec![7u8, 0]);
}

#[test]
fn accept_input_consumes_the_input_in_order() {
    let mut program = load_with_input("", &[1, 2]);
    program.accept_input();
    assert_eq!(program.current_cell(), 1);
    program.accept_input();
    assert_eq!(program.current_cell(), 2);
    program.accept_input();
    assert_eq!(program.current_cell(), 0);
}

#[test]
fn output_value_appends_to_the_output() {
    let mut program = load("");
    program.output_value();
    program.increment_value();
    program.output_value();
    assert_eq!(program.output(), &vec![0u8, 1]);
}

#[test]
fn expects_input_looks_for_a_comma_still_to_come() {
    assert!(!load("+++[-]>.").expects_input());
    assert!(load("+++[-,]>.").expects_input());
    let mut program = load(",+x");
    assert!(program.expects_input());
    assert_eq!(program.fetch_instruction(), Some(Instruction::AcceptInput));
    assert!(!program.expects_input());
}

#[test]
fn fetch_instruction_passes_over_unrecognized_bytes() {
    let mut program = load("ab+ c\n-zz");
    assert_eq!(program.fetch_instruction(), Some(Instruction::IncrementValue));
    assert_eq!(program.fetch_instruction(), Some(Instruction::DecrementValue));
    assert_eq!(program.fetch_instruction(), None);
    assert_eq!(program.fetch_instruction(), None);
    assert_eq!(program.cells(), &Vec::<u8>::new());
}

#[test]
fn fetch_instruction_yields_the_text_in_order() {
    let mut program = load("><+-.,[]");
    let mut fetched = Vec::new();
    while let Some(instruction) = program.fetch_instruction() {
        fetched.push(instruction);
    }
    assert_eq!(
        fetched,
        vec![
            Instruction::IncrementPointer,
            Instruction::DecrementPointer,
            Instruction::IncrementValue,
            Instruction::DecrementValue,
            Instruction::OutputValue,
            Instruction::AcceptInput,
            Instruction::JumpForward,
            Instruction::JumpBackward,
        ]
    );
}

#[test]
fn unrecognized_byte_changes_nothing() {
    let mut with_noise = load("+a+");
    let mut without = load("++");
    assert_eq!(with_noise.interpret(), Ok(()));
    assert_eq!(without.interpret(), Ok(()));
    assert_eq!(with_noise.cells(), &vec![2u8]);
    assert_eq!(with_noise.cells(), without.cells());
    assert_eq!(with_noise.data_pointer(), without.data_pointer());
    assert_eq!(with_noise.output(), without.output());
}

#[test]
fn unrecognized_bytes_inside_loops_change_nothing() {
    let mut with_noise = load("++ [ > +x+ + (three) < - ] done\n>.");
    let mut without = load("++[>+++<-]>.");
    assert_eq!(with_noise.interpret(), Ok(()));
    assert_eq!(without.interpret(), Ok(()));
    assert_eq!(with_noise.cells(), without.cells());
    assert_eq!(with_noise.data_pointer(), without.data_pointer());
    assert_eq!(with_noise.output(), &vec![6u8]);
    assert_eq!(without.output(), &vec![6u8]);
}

#[test]
fn step_executes_the_six_straight_line_instructions() {
    let mut program = load_with_input("", &[9]);
    assert_eq!(program.step(&Instruction::IncrementValue), Ok(()));
    assert_eq!(program.step(&Instruction::OutputValue), Ok(()));
    assert_eq!(program.step(&Instruction::IncrementPointer), Ok(()));
    assert_eq!(program.step(&Instruction::AcceptInput), Ok(()));
    assert_eq!(program.step(&Instruction::DecrementValue), Ok(()));
    assert_eq!(program.step(&Instruction::DecrementPointer), Ok(()));
    assert_eq!(program.step(&Instruction::DecrementPointer), Err(Fault::PointerUnderflow));
    assert_eq!(program.cells(), &vec![1u8, 8]);
    assert_eq!(program.output(), &vec![1u8]);
    assert_eq!(program.data_pointer(), 0);
}

#[test]
fn interpret_instruction_dispatches_every_instruction() {
    let mut program = load_with_input("-]+", &[5]);
    assert_eq!(program.interpret_instruction(&Instruction::AcceptInput), Ok(()));
    assert_eq!(program.interpret_instruction(&Instruction::IncrementValue), Ok(()));
    assert_eq!(program.interpret_instruction(&Instruction::OutputValue), Ok(()));
    assert_eq!(program.interpret_instruction(&Instruction::IncrementPointer), Ok(()));
    assert_eq!(program.interpret_instruction(&Instruction::DecrementPointer), Ok(()));
    assert_eq!(program.interpret_instruction(&Instruction::DecrementValue), Ok(()));
    assert_eq!(program.current_cell(), 5);
    assert_eq!(program.interpret_instruction(&Instruction::JumpForward), Ok(()));
    assert_eq!(program.current_cell(), 0);
    assert_eq!(
        program.interpret_instruction(&Instruction::JumpBackward),
        Err(Fault::UnmatchedLoopEnd)
    );
    assert_eq!(program.output(), &vec![6u8]);
    assert_eq!(program.fetch_instruction(), Some(Instruction::IncrementValue));
}
