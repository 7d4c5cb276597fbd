//! The execution engine: a program text, a machine, and the operations that
//! run the one on the other.

use vstd::prelude::*;
use crate::instruction::{Instruction, ACCEPT_INPUT};
use crate::machine::{granted_tape_limit, max_tape_limit, verdict, Fault, Machine};
use crate::sequence::{
    lemma_loop_faults, lemma_view_of_nested, run_from, run_loop, run_node, run_sequence, sequence_view,
    well_nested, Sequence, SequenceElement,
};
use crate::stream::{
    after_loop, instructions_from, lemma_after_loop_nested, lemma_after_loop_shorter,
    lemma_instructions_bounded, lemma_loop_body_well_nested, lemma_offset_after_adds, loop_body,
    offset_after, offset_behind_loop, State,
};

verus! {

/// The number of cells for which a new program reserves room.
pub const TAPE_CAPACITY: usize = 30000;

/// A program in execution.
///
/// It owns the tape, the data pointer, the program text with the place up to
/// which the text has been read, the input with the place up to which it has
/// been read, and the output written so far.
///
/// Its view is the [`State`] of the run: the machine and the instructions
/// still to come. The text and the place in it are told by
/// [`Program::text`] and [`Program::offset`].
pub struct Program {
    cells: Vec<u8>,
    data_pointer: usize,
    source: Vec<u8>,
    cursor: usize,
    input: Vec<u8>,
    input_cursor: usize,
    output: Vec<u8>,
    pass_limit: u64,
    tape_limit: usize,
}

impl View for Program {
    type V = State;

    closed spec fn view(&self) -> State {
        State {
            machine: Machine {
                cells: self.cells@,
                pointer: self.data_pointer as nat,
                input: self.input@.subrange(self.input_cursor as int, self.input@.len() as int),
                output: self.output@,
                pass_limit: self.pass_limit as nat,
                tape_limit: self.tape_limit as nat,
            },
            pending: instructions_from(self.source@, self.cursor as nat),
        }
    }
}

impl Program {
    /// The invariant of a program: both read positions lie within their
    /// texts, the data pointer is a cell that the tape may grow to, and the
    /// tape may not grow beyond what a tape can be.
    pub closed spec fn well_formed(&self) -> bool {
        &&& self.cursor <= self.source@.len()
        &&& self.input_cursor <= self.input@.len()
        &&& self.data_pointer < self.tape_limit
        &&& self.tape_limit <= max_tape_limit()
    }

    /// The program text.
    pub closed spec fn text(&self) -> Seq<u8> {
        self.source@
    }

    /// The number of bytes of the text that have been read.
    pub closed spec fn spec_offset(&self) -> usize {
        self.cursor
    }

    /// The instructions still to come are those that the text encodes from
    /// the place on that reading has reached.
    pub proof fn law_pending_is_rest_of_text(&self)
        requires
            self.well_formed(),
        ensures
            self.offset() <= self.text().len(),
            self@.pending == instructions_from(self.text(), self.offset() as nat),
    {
    }

    /// Makes a program from its text and its input, with the widest limits:
    /// one activation of a loop in it may make up to `u64::MAX` passes, and
    /// its tape may grow as far as a tape can.
    pub fn new(source: Vec<u8>, input: Vec<u8>) -> (program: Program)
        ensures
            program.well_formed(),
            program@ == State::initial(source@, input@, u64::MAX as nat, max_tape_limit()),
            program.text() == source@,
            program.offset() == 0,
    {
        Program::with_limits(source, input, u64::MAX, isize::MAX as usize)
    }

    /// Makes a program from its text and its input, in which one activation
    /// of a loop makes at most `pass_limit` passes and the tape grows to at
    /// most `tape_limit` cells. A tape has at least one cell, and no tape has
    /// more than `isize::MAX`: a `tape_limit` beyond either bound is taken as
    /// that bound.
    pub fn with_limits(
        source: Vec<u8>,
        input: Vec<u8>,
        pass_limit: u64,
        tape_limit: usize,
    ) -> (program: Program)
        ensures
            program.well_formed(),
            program@ == State::initial(
                source@,
                input@,
                pass_limit as nat,
                granted_tape_limit(tape_limit as nat),
            ),
            program.text() == source@,
            program.offset() == 0,
    {
        let granted = if tape_limit == 0 {
            1
        } else if tape_limit > isize::MAX as usize {
            isize::MAX as usize
        } else {
            tape_limit
        };
        Program {
            cells: Vec::with_capacity(TAPE_CAPACITY),
            data_pointer: 0,
            source,
            cursor: 0,
            input,
            input_cursor: 0,
            output: Vec::new(),
            pass_limit,
            tape_limit: granted,
        }
    }

    /// Returns the program text.
    pub fn source(&self) -> (source: &Vec<u8>)
        ensures
            source@ == self.text(),
    {
        &self.source
    }

    /// Returns the number of bytes of the text that have been read.
    #[verifier::when_used_as_spec(spec_offset)]
    pub fn offset(&self) -> (offset: usize)
        ensures
            offset == self.spec_offset(),
    {
        self.cursor
    }

    /// Returns the cells that have been written so far. Every cell to the
    /// right of them holds zero.
    pub fn cells(&self) -> (cells: &Vec<u8>)
        ensures
            cells@ == self@.machine.cells,
    {
        &self.cells
    }

    /// Returns the value of cell `index`. A cell that was never written
    /// holds zero.
    pub fn cell(&self, index: usize) -> (value: u8)
        ensures
            value == self@.machine.cell(index as nat),
    {
        if index < self.cells.len() {
            self.cells[index]
        } else {
            0
        }
    }

    /// Returns the index of the current cell.
    pub fn data_pointer(&self) -> (pointer: usize)
        ensures
            pointer == self@.machine.pointer,
    {
        self.data_pointer
    }

    /// Returns the bytes written so far, oldest first.
    pub fn output(&self) -> (output: &Vec<u8>)
        ensures
            output@ == self@.machine.output,
    {
        &self.output
    }

    /// Returns the most passes that one activation of a loop may make.
    pub fn pass_limit(&self) -> (pass_limit: u64)
        ensures
            pass_limit == self@.machine.pass_limit,
    {
        self.pass_limit
    }

    /// Returns the number of cells that the tape may grow to.
    pub fn tape_limit(&self) -> (tape_limit: usize)
        ensures
            tape_limit == self@.machine.tape_limit,
    {
        self.tape_limit
    }

    /// Extends the tape with zero cells, as far as needed for the current
    /// cell to be among the written ones.
    pub fn initialize_cells(&mut self)
        requires
            old(self).well_formed(),
        ensures
            final(self).well_formed(),
            final(self).text() == old(self).text(),
            final(self).offset() == old(self).offset(),
            final(self)@.pending == old(self)@.pending,
            final(self)@.machine == old(self)@.machine.grown(),
            final(self)@.machine.pointer < final(self)@.machine.cells.len(),
    {
        if self.cells.len() < self.data_pointer + 1 {
            self.cells.resize(self.data_pointer + 1, 0);
        }
    }

    /// Returns the value of the current cell. A cell that was never written
    /// holds zero.
    pub fn current_cell(&self) -> (value: u8)
        ensures
            value == self@.machine.current(),
    {
        if self.data_pointer < self.cells.len() {
            self.cells[self.data_pointer]
        } else {
            0
        }
    }

    /// `>`: moves the data pointer one cell to the right. At the last cell
    /// that the tape may grow to, the pointer stays and the fault is
    /// [`Fault::PointerOverflow`].
    pub fn increment_pointer(&mut self) -> (result: Result<(), Fault>)
        requires
            old(self).well_formed(),
        ensures
            final(self).well_formed(),
            final(self).text() == old(self).text(),
            final(self).offset() == old(self).offset(),
            final(self)@ == old(self)@.dispatch(Instruction::IncrementPointer).state,
            result == verdict(old(self)@.dispatch(Instruction::IncrementPointer).fault),
            result is Err <==> old(self)@.machine.pointer + 1 == old(self)@.machine.tape_limit,
    {
        if self.data_pointer < self.tape_limit - 1 {
            self.data_pointer = self.data_pointer + 1;
            Ok(())
        } else {
            Err(Fault::PointerOverflow)
        }
    }

    /// `<`: moves the data pointer one cell to the left. At cell 0 the
    /// pointer stays and the fault is [`Fault::PointerUnderflow`].
    pub fn decrement_pointer(&mut self) -> (result: Result<(), Fault>)
        requires
            old(self).well_formed(),
        ensures
            final(self).well_formed(),
            final(self).text() == old(self).text(),
            final(self).offset() == old(self).offset(),
            final(self)@ == old(self)@.dispatch(Instruction::DecrementPointer).state,
            result == verdict(old(self)@.dispatch(Instruction::DecrementPointer).fault),
            result is Err <==> old(self)@.machine.pointer == 0,
    {
        if self.data_pointer > 0 {
            self.data_pointer = self.data_pointer - 1;
            Ok(())
        } else {
            Err(Fault::PointerUnderflow)
        }
    }

    /// `+`: adds one to the current cell, modulo 256.
    pub fn increment_value(&mut self)
        requires
            old(self).well_formed(),
        ensures
            final(self).well_formed(),
            final(self).text() == old(self).text(),
            final(self).offset() == old(self).offset(),
            final(self)@ == old(self)@.dispatch(Instruction::IncrementValue).state,
            final(self)@.machine.current() == (old(self)@.machine.current() + 1) % 256,
    {
        self.initialize_cells();
        let value = self.cells[self.data_pointer];
        self.cells[self.data_pointer] = value.wrapping_add(1);
    }

    /// `-`: subtracts one from the current cell, modulo 256.
    pub fn decrement_value(&mut self)
        requires
            old(self).well_formed(),
        ensures
            final(self).well_formed(),
            final(self).text() == old(self).text(),
            final(self).offset() == old(self).offset(),
            final(self)@ == old(self)@.dispatch(Instruction::DecrementValue).state,
            final(self)@.machine.current() == (old(self)@.machine.current() - 1) % 256,
    {
        self.initialize_cells();
        let value = self.cells[self.data_pointer];
        self.cells[self.data_pointer] = value.wrapping_sub(1);
    }

    /// `.`: appends the value of the current cell to the output, as it is
    /// stored. The tape does not grow for it.
    pub fn output_value(&mut self)
        requires
            old(self).well_formed(),
        ensures
            final(self).well_formed(),
            final(self).text() == old(self).text(),
            final(self).offset() == old(self).offset(),
            final(self)@ == old(self)@.dispatch(Instruction::OutputValue).state,
    {
        let value = self.current_cell();
        self.output.push(value);
    }

    /// `,`: takes the next byte of the input and stores it in the current
    /// cell. Where the input is exhausted, it stores zero.
    pub fn accept_input(&mut self)
        requires
            old(self).well_formed(),
        ensures
            final(self).well_formed(),
            final(self).text() == old(self).text(),
            final(self).offset() == old(self).offset(),
            final(self)@ == old(self)@.dispatch(Instruction::AcceptInput).state,
    {
        self.initialize_cells();
        if self.input_cursor < self.input.len() {
            let value = self.input[self.input_cursor];
            self.input_cursor = self.input_cursor + 1;
            self.cells[self.data_pointer] = value;
        } else {
            self.cells[self.data_pointer] = 0;
        }
    }

    /// Tells whether a `,` is still to come in the program text, so that the
    /// program may ask for input.
    pub fn expects_input(&self) -> (expected: bool)
        requires
            self.well_formed(),
        ensures
            expected == self@.pending.contains(Instruction::AcceptInput),
    {
        let mut index: usize = self.cursor;
        while index < self.source.len()
            invariant
                self.cursor <= index <= self.source@.len(),
                self@.pending.contains(Instruction::AcceptInput) == instructions_from(
                    self.source@,
                    index as nat,
                ).contains(Instruction::AcceptInput),
            decreases self.source.len() - index,
        {
            let ghost here = instructions_from(self.source@, index as nat);
            let ghost rest = instructions_from(self.source@, (index + 1) as nat);
            if self.source[index] == ACCEPT_INPUT {
                assert(here[0] == Instruction::AcceptInput);
                return true;
            }
            proof {
                if rest.contains(Instruction::AcceptInput) && here.len() == rest.len() + 1 {
                    let found = choose|i: int|
                        0 <= i < rest.len() && rest[i] == Instruction::AcceptInput;
                    assert(here[found + 1] == Instruction::AcceptInput);
                }
            }
            index = index + 1;
        }
        false
    }

    /// Takes the next instruction from the program text. Bytes that encode no
    /// instruction are passed over. `None` means that the text is exhausted.
    ///
    /// Reading stops right behind the byte of the instruction taken, or at
    /// the end of the text where none is left.
    pub fn fetch_instruction(&mut self) -> (fetched: Option<Instruction>)
        requires
            old(self).well_formed(),
        ensures
            final(self).well_formed(),
            final(self).text() == old(self).text(),
            final(self).offset() == offset_after(old(self).text(), old(self).offset() as nat, 1),
            fetched is None ==> final(self).offset() == old(self).text().len(),
            final(self)@.machine == old(self)@.machine,
            match fetched {
                Some(instruction) => {
                    &&& old(self)@.pending.len() > 0
                    &&& instruction == old(self)@.pending[0]
                    &&& final(self)@.pending == old(self)@.pending.drop_first()
                },
                None => {
                    &&& old(self)@.pending.len() == 0
                    &&& final(self)@.pending.len() == 0
                },
            },
    {
        while self.cursor < self.source.len()
            invariant
                self.well_formed(),
                self@ == old(self)@,
                self.text() == old(self).text(),
                offset_after(self.text(), self.offset() as nat, 1) == offset_after(
                    old(self).text(),
                    old(self).offset() as nat,
                    1,
                ),
            decreases self.source.len() - self.cursor,
        {
            let byte = self.source[self.cursor];
            self.cursor = self.cursor + 1;
            match Instruction::try_from(byte) {
                Ok(instruction) => {
                    assert(offset_after(self.text(), self.offset() as nat, 0) == self.offset());
                    return Some(instruction);
                },
                Err(_) => {},
            }
        }
        None
    }

    /// Passes over the rest of a loop whose `[` has just been taken from the
    /// text: reads on, counting the loops that open and close on the way,
    /// until the `]` that closes this loop has been taken.
    ///
    /// Where the text ends first, all of it has been read and the fault is
    /// [`Fault::UnterminatedLoop`].
    pub fn jumpto_matching_bracket(&mut self) -> (result: Result<(), Fault>)
        requires
            old(self).well_formed(),
        ensures
            final(self).well_formed(),
            final(self).text() == old(self).text(),
            final(self).offset() == offset_behind_loop(old(self).text(), old(self).offset() as nat),
            final(self)@.machine == old(self)@.machine,
            match after_loop(old(self)@.pending, 0) {
                Some(behind) => result == Ok::<(), Fault>(()) && final(self)@.pending == behind,
                None => result == Err::<(), Fault>(Fault::UnterminatedLoop)
                    && final(self)@.pending.len() == 0,
            },
    {
        let mut depth: usize = 0;
        proof {
            lemma_instructions_bounded(self.source@, self.cursor as nat);
            assert(self.source.len() == self.source@.len());
        }
        loop
            invariant
                self.well_formed(),
                self@.machine == old(self)@.machine,
                after_loop(self@.pending, depth as nat) == after_loop(old(self)@.pending, 0),
                depth + self@.pending.len() <= usize::MAX,
                self.text() == old(self).text(),
                self@.pending.len() <= old(self)@.pending.len(),
                self.offset() == offset_after(
                    old(self).text(),
                    old(self).offset() as nat,
                    (old(self)@.pending.len() - self@.pending.len()) as nat,
                ),
            decreases self@.pending.len(),
        {
            proof {
                lemma_offset_after_adds(
                    old(self).text(),
                    old(self).offset() as nat,
                    (old(self)@.pending.len() - self@.pending.len()) as nat,
                    1,
                );
            }
            match self.fetch_instruction() {
                None => {
                    return Err(Fault::UnterminatedLoop);
                },
                Some(Instruction::JumpForward) => {
                    depth = depth + 1;
                },
                Some(Instruction::JumpBackward) => {
                    if depth == 0 {
                        return Ok(());
                    }
                    depth = depth - 1;
                },
                Some(_) => {},
            }
        }
    }

    /// Captures the rest of a loop whose `[` has just been taken from the
    /// text: reads on until the `]` that closes this loop has been taken, and
    /// returns the instructions before it, each nested loop captured in turn
    /// as one element.
    ///
    /// Where the text ends first, all of it has been read and the fault is
    /// [`Fault::UnterminatedLoop`]. It reads exactly as far as
    /// [`Program::jumpto_matching_bracket`] does.
    pub fn build_sequence(&mut self) -> (result: Result<Sequence, Fault>)
        requires
            old(self).well_formed(),
        ensures
            final(self).well_formed(),
            final(self).text() == old(self).text(),
            final(self).offset() == offset_behind_loop(old(self).text(), old(self).offset() as nat),
            final(self)@.machine == old(self)@.machine,
            match after_loop(old(self)@.pending, 0) {
                Some(behind) => {
                    &&& result matches Ok(sequence)
                    &&& sequence_view(sequence@) == loop_body(old(self)@.pending)
                    &&& well_nested(sequence_view(sequence@))
                    &&& final(self)@.pending == behind
                },
                None => {
                    &&& result matches Err(fault)
                    &&& fault == Fault::UnterminatedLoop
                    &&& final(self)@.pending.len() == 0
                },
            },
        decreases old(self)@.pending.len(),
    {
        let ghost start = self@.pending;
        let mut parenthetic_sequence: Vec<SequenceElement> = Vec::new();
        loop
            invariant
                self.well_formed(),
                self@.machine == old(self)@.machine,
                start == old(self)@.pending,
                self@.pending.len() <= start.len(),
                after_loop(self@.pending, 0) == after_loop(start, 0),
                sequence_view(parenthetic_sequence@) + loop_body(self@.pending) == loop_body(
                    start,
                ),
                self.text() == old(self).text(),
                self.offset() == offset_after(
                    old(self).text(),
                    old(self).offset() as nat,
                    (start.len() - self@.pending.len()) as nat,
                ),
            decreases self@.pending.len(),
        {
            proof {
                lemma_offset_after_adds(
                    old(self).text(),
                    old(self).offset() as nat,
                    (start.len() - self@.pending.len()) as nat,
                    1,
                );
            }
            match self.fetch_instruction() {
                None => {
                    return Err(Fault::UnterminatedLoop);
                },
                Some(Instruction::JumpForward) => {
                    let ghost inside = self@.pending;
                    proof {
                        lemma_after_loop_nested(inside, 0, 0);
                        lemma_after_loop_shorter(inside, 0);
                        match after_loop(inside, 0) {
                            Some(between) => lemma_offset_after_adds(
                                old(self).text(),
                                old(self).offset() as nat,
                                (start.len() - inside.len()) as nat,
                                (inside.len() - between.len()) as nat,
                            ),
                            None => {},
                        }
                    }
                    match self.build_sequence() {
                        Err(fault) => {
                            return Err(fault);
                        },
                        Ok(nested) => {
                            proof {
                                lemma_view_of_nested(nested);
                            }
                            parenthetic_sequence.push(SequenceElement::Sequence(nested));
                        },
                    }
                },
                Some(Instruction::JumpBackward) => {
                    proof {
                        lemma_loop_body_well_nested(start);
                    }
                    return Ok(parenthetic_sequence);
                },
                Some(instruction) => {
                    parenthetic_sequence.push(SequenceElement::Instruction(instruction));
                },
            }
        }
    }

    /// Replays a captured loop body while the current cell is not zero. The
    /// cell is read anew before every pass, wherever the pointer then stands.
    ///
    /// A fault in a pass ends the replay at once. A pass that is due after
    /// the limit of passes has been reached is the fault
    /// [`Fault::PassLimit`].
    pub fn repeat_sequence(&mut self, sequence: &Sequence) -> (result: Result<(), Fault>)
        requires
            old(self).well_formed(),
            well_nested(sequence_view(sequence@)),
        ensures
            final(self).well_formed(),
            final(self).text() == old(self).text(),
            final(self).offset() == old(self).offset(),
            final(self)@.pending == old(self)@.pending,
            final(self)@.machine == run_loop(
                sequence_view(sequence@),
                old(self)@.machine,
                old(self)@.machine.pass_limit,
            ).machine,
            result == verdict(
                run_loop(
                    sequence_view(sequence@),
                    old(self)@.machine,
                    old(self)@.machine.pass_limit,
                ).fault,
            ),
        decreases sequence, 1nat,
    {
        let ghost body = sequence_view(sequence@);
        let ghost whole = run_loop(body, self@.machine, self@.machine.pass_limit);
        let mut passes: u64 = self.pass_limit;
        while self.current_cell() != 0
            invariant
                self.well_formed(),
                self@.pending == old(self)@.pending,
                body == sequence_view(sequence@),
                well_nested(body),
                self.text() == old(self).text(),
                self.offset() == old(self).offset(),
                whole == run_loop(body, old(self)@.machine, old(self)@.machine.pass_limit),
                run_loop(body, self@.machine, passes as nat) == whole,
            decreases passes,
        {
            if passes == 0 {
                return Err(Fault::PassLimit);
            }
            passes = passes - 1;
            match self.execute_sequence(sequence) {
                Err(fault) => {
                    return Err(fault);
                },
                Ok(()) => {},
            }
        }
        Ok(())
    }

    /// Executes a captured loop body once: its elements in order, a nested
    /// loop by replaying its own body while the current cell is not zero.
    /// The first fault ends the execution.
    pub fn execute_sequence(&mut self, sequence: &Sequence) -> (result: Result<(), Fault>)
        requires
            old(self).well_formed(),
            well_nested(sequence_view(sequence@)),
        ensures
            final(self).well_formed(),
            final(self).text() == old(self).text(),
            final(self).offset() == old(self).offset(),
            final(self)@.pending == old(self)@.pending,
            final(self)@.machine == run_sequence(
                sequence_view(sequence@),
                old(self)@.machine,
            ).machine,
            result == verdict(run_sequence(sequence_view(sequence@), old(self)@.machine).fault),
        decreases sequence, 0nat,
    {
        let ghost body = sequence_view(sequence@);
        let ghost whole = run_sequence(body, self@.machine);
        let mut index: usize = 0;
        while index < sequence.len()
            invariant
                index <= sequence.len(),
                self.well_formed(),
                self@.pending == old(self)@.pending,
                body == sequence_view(sequence@),
                well_nested(body),
                self.text() == old(self).text(),
                self.offset() == old(self).offset(),
                whole == run_sequence(body, old(self)@.machine),
                run_from(body, index as nat, self@.machine) == whole,
            decreases sequence.len() - index,
        {
            // What this element does; the run from `index` on is defined by it.
            let ghost element = run_node(body[index as int], self@.machine);
            match &sequence[index] {
                SequenceElement::Instruction(valid_instruction) => {
                    match self.step(valid_instruction) {
                        Err(fault) => {
                            return Err(fault);
                        },
                        Ok(()) => {},
                    }
                },
                SequenceElement::Sequence(parenthetic_sequence) => {
                    proof {
                        lemma_view_of_nested(*parenthetic_sequence);
                    }
                    match self.repeat_sequence(parenthetic_sequence) {
                        Err(fault) => {
                            return Err(fault);
                        },
                        Ok(()) => {},
                    }
                },
            }
            index = index + 1;
        }
        Ok(())
    }

    /// `[`: enters a loop whose `[` has just been taken from the text.
    ///
    /// With the current cell at zero it passes over the loop. Otherwise it
    /// captures the body and replays it while the current cell is not zero.
    /// Either way the text is read up to and with the matching `]`; where
    /// there is none, nothing is executed and the fault is
    /// [`Fault::UnterminatedLoop`].
    pub fn jump_forward(&mut self) -> (result: Result<(), Fault>)
        requires
            old(self).well_formed(),
        ensures
            final(self).well_formed(),
            final(self).text() == old(self).text(),
            final(self).offset() == offset_behind_loop(old(self).text(), old(self).offset() as nat),
            final(self)@ == old(self)@.enter_loop().state,
            result == verdict(old(self)@.enter_loop().fault),
    {
        if self.current_cell() == 0 {
            self.jumpto_matching_bracket()
        } else {
            match self.build_sequence() {
                Err(fault) => Err(fault),
                Ok(sequence) => self.repeat_sequence(&sequence),
            }
        }
    }

    /// `]`: a loop end met where no loop is open. Nothing changes, and the
    /// fault is [`Fault::UnmatchedLoopEnd`].
    pub fn jump_backward(&mut self) -> (result: Result<(), Fault>)
        requires
            old(self).well_formed(),
        ensures
            final(self).well_formed(),
            final(self).text() == old(self).text(),
            final(self).offset() == old(self).offset(),
            final(self)@ == old(self)@,
            result == Err::<(), Fault>(Fault::UnmatchedLoopEnd),
    {
        Err(Fault::UnmatchedLoopEnd)
    }

    /// Executes one of the six straight-line instructions.
    pub fn step(&mut self, instruction: &Instruction) -> (result: Result<(), Fault>)
        requires
            old(self).well_formed(),
            !instruction.is_bracket(),
        ensures
            final(self).well_formed(),
            final(self).text() == old(self).text(),
            final(self).offset() == old(self).offset(),
            final(self)@.pending == old(self)@.pending,
            final(self)@.machine == old(self)@.machine.step(*instruction).machine,
            result == verdict(old(self)@.machine.step(*instruction).fault),
    {
        match instruction {
            Instruction::IncrementPointer => self.increment_pointer(),
            Instruction::DecrementPointer => self.decrement_pointer(),
            Instruction::IncrementValue => {
                self.increment_value();
                Ok(())
            },
            Instruction::DecrementValue => {
                self.decrement_value();
                Ok(())
            },
            Instruction::OutputValue => {
                self.output_value();
                Ok(())
            },
            Instruction::AcceptInput => {
                self.accept_input();
                Ok(())
            },
            Instruction::JumpForward | Instruction::JumpBackward => Ok(()),
        }
    }

    /// Executes one instruction that has just been taken from the text: a
    /// straight-line instruction by its step, `[` by entering the loop, and
    /// `]`, which closes no loop here, by the fault
    /// [`Fault::UnmatchedLoopEnd`].
    pub fn interpret_instruction(&mut self, instruction: &Instruction) -> (result: Result<
        (),
        Fault,
    >)
        requires
            old(self).well_formed(),
        ensures
            final(self).well_formed(),
            final(self).text() == old(self).text(),
            final(self).offset() == if *instruction == Instruction::JumpForward {
                offset_behind_loop(old(self).text(), old(self).offset() as nat)
            } else {
                old(self).offset() as nat
            },
            final(self)@ == old(self)@.dispatch(*instruction).state,
            result == verdict(old(self)@.dispatch(*instruction).fault),
    {
        match instruction {
            Instruction::JumpForward => self.jump_forward(),
            Instruction::JumpBackward => self.jump_backward(),
            _ => self.step(instruction),
        }
    }

    /// Runs the program: takes one instruction after the other from the text
    /// and executes it, until the text is exhausted or a fault stops the run.
    pub fn interpret(&mut self) -> (result: Result<(), Fault>)
        requires
            old(self).well_formed(),
        ensures
            final(self).well_formed(),
            final(self).text() == old(self).text(),
            final(self).offset() == old(self)@.offset_behind_run(
                old(self).text(),
                old(self).offset() as nat,
            ),
            final(self)@ == old(self)@.run().state,
            result == verdict(old(self)@.run().fault),
            result is Ok ==> final(self)@.pending.len() == 0,
    {
        loop
            invariant
                self.well_formed(),
                self@.run() == old(self)@.run(),
                self.text() == old(self).text(),
                self@.pending.len() <= old(self)@.pending.len(),
                self.offset() == offset_after(
                    old(self).text(),
                    old(self).offset() as nat,
                    (old(self)@.pending.len() - self@.pending.len()) as nat,
                ),
            decreases self@.pending.len(),
        {
            proof {
                lemma_offset_after_adds(
                    old(self).text(),
                    old(self).offset() as nat,
                    (old(self)@.pending.len() - self@.pending.len()) as nat,
                    1,
                );
            }
            match self.fetch_instruction() {
                Some(valid_instruction) => {
                    proof {
                        let inside = self@.pending;
                        lemma_after_loop_shorter(inside, 0);
                        lemma_loop_faults(
                            loop_body(inside),
                            self@.machine,
                            self@.machine.pass_limit,
                        );
                        match after_loop(inside, 0) {
                            Some(behind) => lemma_offset_after_adds(
                                old(self).text(),
                                old(self).offset() as nat,
                                (old(self)@.pending.len() - inside.len()) as nat,
                                (inside.len() - behind.len()) as nat,
                            ),
                            None => {},
                        }
                    }
                    match self.interpret_instruction(&valid_instruction) {
                        Err(fault) => {
                            return Err(fault);
                        },
                        Ok(()) => {},
                    }
                },
                None => {
                    return Ok(());
                },
            }
        }
    }
}

} // verus!
