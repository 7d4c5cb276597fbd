use brainfuck::instruction::Instruction;
use brainfuck::machine::Fault;
use brainfuck::program::Program;
use brainfuck::sequence::SequenceElement;

fn load(text: &str) -> Program {
    Program::new(text.as_bytes().to_vec(), Vec::new())
}

#[test]
fn new_program_stands_at_the_start_of_its_text() {
    let program = load("+a-");
    assert_eq!(program.offset(), 0);
    assert_eq!(program.source(), &b"+a-".to_vec());
}

#[test]
fn fetch_instruction_stops_behind_the_instruction() {
    let mut program = load("ab+ c");
    assert_eq!(program.fetch_instruction(), Some(Instruction::IncrementValue));
    assert_eq!(program.offset(), 3);
    assert_eq!(program.fetch_instruction(), None);
    assert_eq!(program.offset(), 5);
    assert_eq!(program.fetch_instruction(), None);
    assert_eq!(program.offset(), 5);
}

#[test]
fn run_without_fault_reads_the_text_to_its_end() {
    let mut program = load("+. \n");
    assert_eq!(program.interpret(), Ok(()));
    assert_eq!(program.offset(), 4);
}

#[test]
fn pointer_underflow_is_reported_behind_its_instruction() {
    let mut program = load("+ <+.>+");
    assert_eq!(program.interpret(), Err(Fault::PointerUnderflow));
    assert_eq!(program.offset(), 3);
}

#[test]
fn unmatched_loop_end_is_reported_behind_its_bracket() {
    let mut program = load("+]+.");
    assert_eq!(program.interpret(), Err(Fault::UnmatchedLoopEnd));
    assert_eq!(program.offset(), 2);
}

#[test]
fn unterminated_loop_is_reported_at_the_end_of_the_text() {
    let mut zero = load("[>+.  ");
    assert_eq!(zero.interpret(), Err(Fault::UnterminatedLoop));
    assert_eq!(zero.offset(), 6);
    let mut nonzero = load("+[>+.");
    assert_eq!(nonzero.interpret(), Err(Fault::UnterminatedLoop));
    assert_eq!(nonzero.offset(), 5);
}

#[test]
fn fault_inside_a_loop_is_reported_behind_the_loop() {
    let mut program = load("+[<] +");
    assert_eq!(program.interpret(), Err(Fault::PointerUnderflow));
    assert_eq!(program.offset(), 4);
}

#[test]
fn pass_limit_is_reported_behind_the_loop() {
    let mut program = Program::with_limits(b"+[[-]+]+".to_vec(), Vec::new(), 10, usize::MAX);
    assert_eq!(program.interpret(), Err(Fault::PassLimit));
    assert_eq!(program.offset(), 7);
}

#[test]
fn pointer_overflow_is_reported_behind_its_instruction() {
    let mut program = Program::with_limits(b">> >+".to_vec(), Vec::new(), 1, 3);
    assert_eq!(program.interpret(), Err(Fault::PointerOverflow));
    assert_eq!(program.offset(), 4);
}

#[test]
fn jumpto_matching_bracket_stops_behind_the_bracket() {
    let mut program = load("+[-[x]]>]<.");
    assert_eq!(program.jumpto_matching_bracket(), Ok(()));
    assert_eq!(program.offset(), 9);
    let mut open = load("+[-]> ");
    assert_eq!(open.jumpto_matching_bracket(), Err(Fault::UnterminatedLoop));
    assert_eq!(open.offset(), 6);
}

#[test]
fn build_sequence_stops_behind_the_bracket() {
    let mut program = load("+[-[x]]>]<.");
    assert!(program.build_sequence().is_ok());
    assert_eq!(program.offset(), 9);
    let mut open = load("+[-]> ");
    assert_eq!(open.build_sequence(), Err(Fault::UnterminatedLoop));
    assert_eq!(open.offset(), 6);
}

#[test]
fn jump_forward_stops_behind_the_bracket_whatever_the_cell_holds() {
    let mut zero = load("-] +");
    assert_eq!(zero.jump_forward(), Ok(()));
    assert_eq!(zero.offset(), 2);
    let mut nonzero = load("-] +");
    nonzero.increment_value();
    assert_eq!(nonzero.jump_forward(), Ok(()));
    assert_eq!(nonzero.offset(), 2);
}

#[test]
fn executing_without_reading_keeps_the_place() {
    let mut program = Program::new(b"x+".to_vec(), vec![3]);
    assert_eq!(program.fetch_instruction(), Some(Instruction::IncrementValue));
    assert_eq!(program.offset(), 2);
    program.accept_input();
    program.increment_value();
    program.decrement_value();
    program.output_value();
    program.initialize_cells();
    assert_eq!(program.increment_pointer(), Ok(()));
    assert_eq!(program.decrement_pointer(), Ok(()));
    assert_eq!(program.step(&Instruction::IncrementValue), Ok(()));
    assert_eq!(program.interpret_instruction(&Instruction::OutputValue), Ok(()));
    assert_eq!(program.jump_backward(), Err(Fault::UnmatchedLoopEnd));
    let body = vec![SequenceElement::Instruction(Instruction::DecrementValue)];
    assert_eq!(program.execute_sequence(&body), Ok(()));
    assert_eq!(program.repeat_sequence(&body), Ok(()));
    assert_eq!(program.offset(), 2);
    assert_eq!(program.source(), &b"x+".to_vec());
    assert_eq!(program.output(), &vec![3u8, 4]);
    assert_eq!(program.current_cell(), 0);
}
