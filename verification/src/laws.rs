//! Laws of the language, proved of the definitions in [`crate::machine`],
//! [`crate::sequence`] and [`crate::stream`].

use vstd::prelude::*;
use crate::instruction::Instruction;
use crate::machine::{Fault, Machine, Outcome};
use crate::sequence::{body_text, node_text, run_from, run_loop, run_node, run_sequence, Node};
use crate::stream::{
    after_loop, instructions_from, instructions_of, lemma_after_loop_nested,
    lemma_after_loop_shorter, loop_body, offset_after, Exit, State,
};

verus! {

/// The machine after the straight-line instructions `ops`, each applied to
/// what the one before it left. The first fault ends the run.
pub open spec fn run_straight(ops: Seq<Instruction>, machine: Machine) -> Outcome
    decreases ops.len(),
{
    if ops.len() == 0 {
        machine.proceed()
    } else {
        let first = machine.step(ops[0]);
        if first.fault.is_some() {
            first
        } else {
            run_straight(ops.drop_first(), first.machine)
        }
    }
}

/// Decoding is the inverse of encoding: a byte decodes to an instruction
/// exactly if it is that instruction's opcode.
pub proof fn law_decode_inverts_opcode(byte: u8, instruction: Instruction)
    ensures
        Instruction::decode(byte) == Some(instruction) <==> instruction.spec_opcode() == byte,
{
}

/// A text in which every byte is an opcode is decoded byte for byte, in the
/// order of the text.
pub proof fn law_decode_in_order(text: Seq<u8>)
    requires
        forall|i: int| 0 <= i < text.len() ==> Instruction::decode(#[trigger] text[i]).is_some(),
    ensures
        instructions_of(text).len() == text.len(),
        forall|i: int|
            0 <= i < text.len() ==> Instruction::decode(text[i]) == Some(
                #[trigger] instructions_of(text)[i],
            ),
{
    lemma_decode_in_order_from(text, 0);
}

/// The same of the text from `start` on.
proof fn lemma_decode_in_order_from(text: Seq<u8>, start: nat)
    requires
        start <= text.len(),
        forall|i: int| 0 <= i < text.len() ==> Instruction::decode(#[trigger] text[i]).is_some(),
    ensures
        instructions_from(text, start).len() == text.len() - start,
        forall|i: int|
            0 <= i < text.len() - start ==> Instruction::decode(text[start + i]) == Some(
                #[trigger] instructions_from(text, start)[i],
            ),
    decreases text.len() - start,
{
    if start < text.len() {
        lemma_decode_in_order_from(text, start + 1);
    }
}

/// The place that reading has reached after some instructions is right
/// behind the byte of the last of them, and what the text encodes from there
/// on are the instructions that were not taken. Where more instructions are
/// asked for than the text holds, the place is the end of the text.
pub proof fn law_offset_is_behind_the_last_instruction(text: Seq<u8>, start: nat, count: nat)
    requires
        start <= text.len(),
        count > 0,
    ensures
        count <= instructions_from(text, start).len() ==> {
            let offset = offset_after(text, start, count);
            &&& start < offset <= text.len()
            &&& Instruction::decode(text[offset - 1]) == Some(
                instructions_from(text, start)[count - 1],
            )
            &&& instructions_from(text, offset) == instructions_from(text, start).skip(
                count as int,
            )
        },
        count > instructions_from(text, start).len() ==> offset_after(text, start, count)
            == text.len(),
    decreases text.len() - start,
{
    if start < text.len() {
        let here = instructions_from(text, start);
        let rest = instructions_from(text, start + 1);
        if Instruction::decode(text[start as int]).is_none() {
            law_offset_is_behind_the_last_instruction(text, start + 1, count);
        } else if count > 1 {
            law_offset_is_behind_the_last_instruction(text, start + 1, (count - 1) as nat);
            if count <= here.len() {
                assert(here.skip(count as int) =~= rest.skip(count - 1));
            }
        } else {
            assert(offset_after(text, start + 1, 0) == start + 1);
            assert(here.skip(1) =~= rest);
        }
    }
}

/// A program of straight-line instructions runs them in the order of the
/// program: each acts on the machine that the one before it left, the first
/// fault ends the run, and without a fault the whole program is consumed.
pub proof fn law_straight_line_in_order(state: State)
    requires
        forall|i: int| 0 <= i < state.pending.len() ==> !(#[trigger] state.pending[i]).is_bracket(),
    ensures
        state.run().state.machine == run_straight(state.pending, state.machine).machine,
        state.run().fault == run_straight(state.pending, state.machine).fault,
        state.run().fault.is_none() ==> state.run().state.pending.len() == 0,
    decreases state.pending.len(),
{
    if state.pending.len() > 0 {
        let rest = state.pending.drop_first();
        let first = state.machine.step(state.pending[0]);
        if first.fault.is_none() {
            law_straight_line_in_order(State { machine: first.machine, pending: rest });
        }
    }
}

/// Adding one to a cell and taking one from it are arithmetic modulo 256,
/// whatever the cell holds: 255 is followed by 0, and 0 is preceded by 255.
/// Neither ever faults, and each undoes the other.
pub proof fn law_cell_arithmetic_wraps(machine: Machine)
    ensures
        machine.step(Instruction::IncrementValue).fault.is_none(),
        machine.step(Instruction::DecrementValue).fault.is_none(),
        machine.step(Instruction::IncrementValue).machine.current() == (machine.current() + 1)
            % 256,
        machine.step(Instruction::DecrementValue).machine.current() == (machine.current() - 1)
            % 256,
        machine.step(Instruction::IncrementValue).machine.step(
            Instruction::DecrementValue,
        ).machine.current() == machine.current(),
        machine.step(Instruction::DecrementValue).machine.step(
            Instruction::IncrementValue,
        ).machine.current() == machine.current(),
{
}

/// A loop that is entered with the current cell at zero makes no pass: the
/// machine is as before, and the program goes on behind the matching `]`.
pub proof fn law_zero_trip_loop(state: State, behind: Seq<Instruction>)
    requires
        state.machine.current() == 0,
        after_loop(state.pending, 0) == Some(behind),
    ensures
        state.enter_loop() == (Exit {
            state: State { machine: state.machine, pending: behind },
            fault: None,
        }),
        state.dispatch(Instruction::JumpForward).state.run() == (State {
            machine: state.machine,
            pending: behind,
        }).run(),
{
}

/// What stands before a body does not show in the text of the body.
proof fn lemma_body_text_of_one_more(first: Node, rest: Seq<Node>, from: nat)
    requires
        from <= rest.len(),
    ensures
        body_text(seq![first] + rest, from + 1) == body_text(rest, from),
    decreases rest.len() - from,
{
    if from < rest.len() {
        lemma_body_text_of_one_more(first, rest, from + 1);
    }
}

/// A captured body loses nothing and invents nothing: written out again and
/// followed by `]` and by what is left behind the loop, it is the stream from
/// which it was captured.
pub proof fn law_captured_body_reads_back(pending: Seq<Instruction>, behind: Seq<Instruction>)
    requires
        after_loop(pending, 0) == Some(behind),
    ensures
        body_text(loop_body(pending), 0) + seq![Instruction::JumpBackward] + behind == pending,
    decreases pending.len(),
{
    let rest = pending.drop_first();
    let close = seq![Instruction::JumpBackward];
    let text = body_text(loop_body(pending), 0);
    match pending[0] {
        Instruction::JumpBackward => {},
        Instruction::JumpForward => {
            lemma_after_loop_nested(rest, 0, 0);
            lemma_after_loop_shorter(rest, 0);
            let between = after_loop(rest, 0).unwrap();
            law_captured_body_reads_back(rest, between);
            law_captured_body_reads_back(between, behind);
            let nested = Node::Loop(loop_body(rest));
            let nested_text = body_text(loop_body(rest), 0);
            let later_text = body_text(loop_body(between), 0);
            lemma_body_text_of_one_more(nested, loop_body(between), 0);
            assert(text == node_text(nested) + later_text);
            assert(text + close + behind =~= seq![Instruction::JumpForward] + (nested_text + close
                + (later_text + close + behind)));
        },
        instruction => {
            law_captured_body_reads_back(rest, behind);
            let rest_text = body_text(loop_body(rest), 0);
            lemma_body_text_of_one_more(Node::Op(instruction), loop_body(rest), 0);
            assert(text == node_text(Node::Op(instruction)) + rest_text);
            assert(text + close + behind =~= seq![instruction] + (rest_text + close + behind));
        },
    }
}

/// A byte that encodes no instruction, put into a program text at any place,
/// changes nothing: the text encodes the same instructions, so the program
/// starts in the same state and runs the same run.
pub proof fn law_unrecognized_byte_is_skipped(
    text: Seq<u8>,
    at: int,
    byte: u8,
    input: Seq<u8>,
    pass_limit: nat,
    tape_limit: nat,
)
    requires
        0 <= at <= text.len(),
        Instruction::decode(byte).is_none(),
    ensures
        instructions_of(text.insert(at, byte)) == instructions_of(text),
        State::initial(text.insert(at, byte), input, pass_limit, tape_limit) == State::initial(
            text,
            input,
            pass_limit,
            tape_limit,
        ),
        State::initial(text.insert(at, byte), input, pass_limit, tape_limit).run()
            == State::initial(text, input, pass_limit, tape_limit).run(),
{
    lemma_insert_before(text, at, byte, 0);
}

/// Behind the place where a byte was put in, the text is the old text, moved
/// by one.
proof fn lemma_insert_behind(text: Seq<u8>, at: int, byte: u8, start: nat)
    requires
        0 <= at <= start <= text.len(),
    ensures
        instructions_from(text.insert(at, byte), start + 1) == instructions_from(text, start),
    decreases text.len() - start,
{
    if start < text.len() {
        lemma_insert_behind(text, at, byte, start + 1);
    }
}

/// From any place before a byte that encodes nothing was put in, the text
/// encodes what it encoded without the byte.
proof fn lemma_insert_before(text: Seq<u8>, at: int, byte: u8, start: nat)
    requires
        0 <= start <= at <= text.len(),
        Instruction::decode(byte).is_none(),
    ensures
        instructions_from(text.insert(at, byte), start) == instructions_from(text, start),
    decreases at - start,
{
    if start < at {
        lemma_insert_before(text, at, byte, start + 1);
    } else {
        lemma_insert_behind(text, at, byte, start);
    }
}

/// Moving the pointer to the left of cell 0 is fatal: the run ends there with
/// [`Fault::PointerUnderflow`], the machine is as it was, and no instruction
/// behind the `<` is taken from the program.
pub proof fn law_pointer_underflow_is_fatal(state: State)
    requires
        state.pending.len() > 0,
        state.pending[0] == Instruction::DecrementPointer,
        state.machine.pointer == 0,
    ensures
        state.run() == (Exit {
            state: State { machine: state.machine, pending: state.pending.drop_first() },
            fault: Some(Fault::PointerUnderflow),
        }),
{
}

/// A `[` that no `]` closes before the program ends is fatal, whatever the
/// current cell holds: the run ends with [`Fault::UnterminatedLoop`], the
/// machine is as it was, and the program has been read to its end.
pub proof fn law_unterminated_loop_is_fatal(state: State)
    requires
        state.pending.len() > 0,
        state.pending[0] == Instruction::JumpForward,
        after_loop(state.pending.drop_first(), 0).is_none(),
    ensures
        state.run() == (Exit {
            state: State { machine: state.machine, pending: Seq::empty() },
            fault: Some(Fault::UnterminatedLoop),
        }),
{
}

/// A `]` that closes no loop is fatal: the run ends there with
/// [`Fault::UnmatchedLoopEnd`], the machine is as it was, and no instruction
/// behind the `]` is taken from the program.
pub proof fn law_unmatched_loop_end_is_fatal(state: State)
    requires
        state.pending.len() > 0,
        state.pending[0] == Instruction::JumpBackward,
    ensures
        state.run() == (Exit {
            state: State { machine: state.machine, pending: state.pending.drop_first() },
            fault: Some(Fault::UnmatchedLoopEnd),
        }),
{
}

/// An outcome under other limits.
pub open spec fn outcome_with_limits(outcome: Outcome, pass_limit: nat, tape_limit: nat) -> Outcome {
    Outcome { machine: outcome.machine.with_limits(pass_limit, tape_limit), fault: outcome.fault }
}

/// Neither limit was reached.
pub open spec fn within_limits(fault: Option<Fault>) -> bool {
    fault != Some(Fault::PassLimit) && fault != Some(Fault::PointerOverflow)
}

/// No instruction changes the limits. None reads the limit on passes, and
/// only `>` reads the limit of the tape: where it does not fault at the
/// limit, it does the same under a larger one.
proof fn lemma_step_under_larger_limits(
    machine: Machine,
    instruction: Instruction,
    passes: nat,
    cells: nat,
)
    ensures
        machine.step(instruction).machine.pass_limit == machine.pass_limit,
        machine.step(instruction).machine.tape_limit == machine.tape_limit,
        machine.tape_limit <= cells && within_limits(machine.step(instruction).fault)
            ==> machine.with_limits(passes, cells).step(instruction) == outcome_with_limits(
            machine.step(instruction),
            passes,
            cells,
        ),
{
}

/// No element of a body changes the limits.
proof fn lemma_node_keeps_limits(node: Node, machine: Machine)
    ensures
        run_node(node, machine).machine.pass_limit == machine.pass_limit,
        run_node(node, machine).machine.tape_limit == machine.tape_limit,
    decreases node, 0nat, 0nat,
{
    match node {
        Node::Op(instruction) => lemma_step_under_larger_limits(machine, instruction, 0, 0),
        Node::Loop(body) => lemma_loop_keeps_limits(body, machine, machine.pass_limit),
    }
}

/// No body changes the limits.
proof fn lemma_sequence_keeps_limits(body: Seq<Node>, from: nat, machine: Machine)
    ensures
        run_from(body, from, machine).machine.pass_limit == machine.pass_limit,
        run_from(body, from, machine).machine.tape_limit == machine.tape_limit,
    decreases body, 0nat, body.len() - from,
{
    if from < body.len() {
        lemma_node_keeps_limits(body[from as int], machine);
        let first = run_node(body[from as int], machine);
        if first.fault.is_none() {
            lemma_sequence_keeps_limits(body, from + 1, first.machine);
        }
    }
}

/// No replay changes the limits.
proof fn lemma_loop_keeps_limits(body: Seq<Node>, machine: Machine, passes: nat)
    ensures
        run_loop(body, machine, passes).machine.pass_limit == machine.pass_limit,
        run_loop(body, machine, passes).machine.tape_limit == machine.tape_limit,
    decreases body, 1nat, passes,
{
    if machine.current() != 0 && passes != 0 {
        lemma_sequence_keeps_limits(body, 0, machine);
        let pass = run_from(body, 0, machine);
        if pass.fault.is_none() {
            lemma_loop_keeps_limits(body, pass.machine, (passes - 1) as nat);
        }
    }
}

/// An element that reaches neither limit does the same under larger ones.
proof fn lemma_node_under_larger_limits(node: Node, machine: Machine, passes: nat, cells: nat)
    requires
        machine.pass_limit <= passes,
        machine.tape_limit <= cells,
        within_limits(run_node(node, machine).fault),
    ensures
        run_node(node, machine.with_limits(passes, cells)) == outcome_with_limits(
            run_node(node, machine),
            passes,
            cells,
        ),
    decreases node, 0nat, 0nat,
{
    match node {
        Node::Op(instruction) => lemma_step_under_larger_limits(
            machine,
            instruction,
            passes,
            cells,
        ),
        Node::Loop(body) => lemma_loop_under_larger_limits(
            body,
            machine,
            machine.pass_limit,
            passes,
            passes,
            cells,
        ),
    }
}

/// A body that reaches neither limit does the same under larger ones.
proof fn lemma_sequence_under_larger_limits(
    body: Seq<Node>,
    from: nat,
    machine: Machine,
    passes: nat,
    cells: nat,
)
    requires
        machine.pass_limit <= passes,
        machine.tape_limit <= cells,
        within_limits(run_from(body, from, machine).fault),
    ensures
        run_from(body, from, machine.with_limits(passes, cells)) == outcome_with_limits(
            run_from(body, from, machine),
            passes,
            cells,
        ),
    decreases body, 0nat, body.len() - from,
{
    if from < body.len() {
        let first = run_node(body[from as int], machine);
        lemma_node_under_larger_limits(body[from as int], machine, passes, cells);
        lemma_node_keeps_limits(body[from as int], machine);
        if first.fault.is_none() {
            lemma_sequence_under_larger_limits(body, from + 1, first.machine, passes, cells);
        }
    }
}

/// A replay that reaches neither limit does the same under larger limits and
/// with more passes left.
proof fn lemma_loop_under_larger_limits(
    body: Seq<Node>,
    machine: Machine,
    left: nat,
    more_left: nat,
    passes: nat,
    cells: nat,
)
    requires
        machine.pass_limit <= passes,
        machine.tape_limit <= cells,
        left <= more_left,
        within_limits(run_loop(body, machine, left).fault),
    ensures
        run_loop(body, machine.with_limits(passes, cells), more_left) == outcome_with_limits(
            run_loop(body, machine, left),
            passes,
            cells,
        ),
    decreases body, 1nat, left,
{
    if machine.current() != 0 && left != 0 {
        let pass = run_from(body, 0, machine);
        lemma_sequence_under_larger_limits(body, 0, machine, passes, cells);
        lemma_sequence_keeps_limits(body, 0, machine);
        if pass.fault.is_none() {
            lemma_loop_under_larger_limits(
                body,
                pass.machine,
                (left - 1) as nat,
                (more_left - 1) as nat,
                passes,
                cells,
            );
        }
    }
}

/// The limits show only where they are reached. A body that runs to its
/// end, or to a fault, without a loop in it reaching the limit on passes and
/// without the pointer reaching the limit of the tape runs in the same way
/// under all larger limits.
pub proof fn law_sequence_under_larger_limits(
    body: Seq<Node>,
    machine: Machine,
    pass_limit: nat,
    tape_limit: nat,
)
    requires
        machine.pass_limit <= pass_limit,
        machine.tape_limit <= tape_limit,
        within_limits(run_sequence(body, machine).fault),
    ensures
        run_sequence(body, machine.with_limits(pass_limit, tape_limit)) == outcome_with_limits(
            run_sequence(body, machine),
            pass_limit,
            tape_limit,
        ),
{
    lemma_sequence_under_larger_limits(body, 0, machine, pass_limit, tape_limit);
}

/// The limits show only where they are reached. A run in which neither is
/// reached is the same run under all larger limits: the same fault or none,
/// the same machine but for the limits it carries, and the same instructions
/// left.
pub proof fn law_run_under_larger_limits(state: State, pass_limit: nat, tape_limit: nat)
    requires
        state.machine.pass_limit <= pass_limit,
        state.machine.tape_limit <= tape_limit,
        within_limits(state.run().fault),
    ensures
        (State {
            machine: state.machine.with_limits(pass_limit, tape_limit),
            pending: state.pending,
        }).run() == (Exit {
            state: State {
                machine: state.run().state.machine.with_limits(pass_limit, tape_limit),
                pending: state.run().state.pending,
            },
            fault: state.run().fault,
        }),
    decreases state.pending.len(),
{
    if state.pending.len() > 0 {
        let rest = state.pending.drop_first();
        let fetched = State { machine: state.machine, pending: rest };
        let exit = fetched.dispatch(state.pending[0]);
        match state.pending[0] {
            Instruction::JumpBackward => {},
            Instruction::JumpForward => {
                if after_loop(rest, 0).is_some() {
                    let body = loop_body(rest);
                    lemma_loop_under_larger_limits(
                        body,
                        state.machine,
                        state.machine.pass_limit,
                        pass_limit,
                        pass_limit,
                        tape_limit,
                    );
                    lemma_loop_keeps_limits(body, state.machine, state.machine.pass_limit);
                    lemma_after_loop_shorter(rest, 0);
                }
            },
            instruction => {
                lemma_step_under_larger_limits(state.machine, instruction, pass_limit, tape_limit);
            },
        }
        if exit.fault.is_none() {
            law_run_under_larger_limits(exit.state, pass_limit, tape_limit);
        }
    }
}

/// A run ends without a fault only when its program is exhausted.
pub proof fn law_run_ends_at_end_of_program(state: State)
    ensures
        state.run().fault.is_none() ==> state.run().state.pending.len() == 0,
    decreases state.pending.len(),
{
    if state.pending.len() > 0 {
        let fetched = State { machine: state.machine, pending: state.pending.drop_first() };
        let exit = fetched.dispatch(state.pending[0]);
        if exit.fault.is_none() {
            lemma_after_loop_shorter(fetched.pending, 0);
            law_run_ends_at_end_of_program(exit.state);
        }
    }
}

} // verus!
