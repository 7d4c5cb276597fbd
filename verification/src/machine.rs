//! The abstract machine: the tape, the data pointer, the input and the output;
//! and the faults that end a run.
//!
//! [`Machine::step`] says what each of the six straight-line instructions
//! does; the loop instructions are given their meaning in
//! [`crate::sequence`] and [`crate::stream`].

use vstd::prelude::*;
use crate::instruction::Instruction;

verus! {

/// Why a run stopped before the end of its program.
#[derive(Clone, Copy, Debug, PartialEq, Eq, Structural)]
pub enum Fault {
    /// The data pointer was at cell 0 and the program moved it to the left.
    PointerUnderflow,
    /// The data pointer was at the last cell that the tape may grow to and
    /// the program moved it to the right.
    PointerOverflow,
    /// A `[` has no matching `]` before the end of the program.
    UnterminatedLoop,
    /// A `]` was met where no loop is open.
    UnmatchedLoopEnd,
    /// One activation of a loop used up its passes without its guard cell
    /// reaching zero.
    PassLimit,
}

impl Fault {
    /// A sentence that says what went wrong.
    pub open spec fn spec_description(self) -> Seq<char> {
        match self {
            Fault::PointerUnderflow => "The data pointer was moved to the left of cell 0"@,
            Fault::PointerOverflow => "The data pointer was moved past the last cell"@,
            Fault::UnterminatedLoop => "No matching ]"@,
            Fault::UnmatchedLoopEnd => "No matching \"[\" open bracket!"@,
            Fault::PassLimit => "A loop reached its limit of passes"@,
        }
    }

    /// Returns a sentence that says what went wrong, for the user.
    pub fn description(self) -> (text: &'static str)
        ensures
            text@ == self.spec_description(),
    {
        match self {
            Fault::PointerUnderflow => "The data pointer was moved to the left of cell 0",
            Fault::PointerOverflow => "The data pointer was moved past the last cell",
            Fault::UnterminatedLoop => "No matching ]",
            Fault::UnmatchedLoopEnd => "No matching \"[\" open bracket!",
            Fault::PassLimit => "A loop reached its limit of passes",
        }
    }
}

/// The state that instructions act on.
#[verifier::ext_equal]
pub struct Machine {
    /// The cells that have been written so far. Every cell to the right of
    /// them holds zero.
    pub cells: Seq<u8>,
    /// The index of the current cell.
    pub pointer: nat,
    /// The input that has not been read yet.
    pub input: Seq<u8>,
    /// The bytes written so far, oldest first.
    pub output: Seq<u8>,
    /// The most passes that one activation of a loop may make.
    pub pass_limit: nat,
    /// The number of cells that the tape may grow to. The data pointer stays
    /// below it.
    pub tape_limit: nat,
}

/// A machine, and the fault that stopped it if one did.
#[verifier::ext_equal]
pub struct Outcome {
    pub machine: Machine,
    pub fault: Option<Fault>,
}

/// The result that a run reports: `Ok` unless a fault stopped it.
pub open spec fn verdict(fault: Option<Fault>) -> Result<(), Fault> {
    match fault {
        Some(fault) => Err(fault),
        None => Ok(()),
    }
}

/// The number of cells that no tape can exceed: no vector holds more bytes.
pub open spec fn max_tape_limit() -> nat {
    isize::MAX as nat
}

/// The limit that a tape gets where `asked` cells are asked for: at least
/// one cell, and no more than any tape can have.
pub open spec fn granted_tape_limit(asked: nat) -> nat {
    if asked == 0 {
        1
    } else if asked > max_tape_limit() {
        max_tape_limit()
    } else {
        asked
    }
}

/// `value + 1`, where 255 is followed by 0.
pub open spec fn successor(value: u8) -> u8 {
    ((value + 1) % 256) as u8
}

/// `value - 1`, where 0 is followed by 255.
pub open spec fn predecessor(value: u8) -> u8 {
    ((value + 255) % 256) as u8
}

impl Machine {
    /// The machine before its program starts: an empty tape, the pointer at
    /// cell 0, nothing written.
    pub open spec fn initial(input: Seq<u8>, pass_limit: nat, tape_limit: nat) -> Machine {
        Machine {
            cells: Seq::empty(),
            pointer: 0,
            input,
            output: Seq::empty(),
            pass_limit,
            tape_limit,
        }
    }

    /// The same machine with other limits.
    pub open spec fn with_limits(self, pass_limit: nat, tape_limit: nat) -> Machine {
        Machine { pass_limit, tape_limit, ..self }
    }

    /// The value of cell `index`.
    pub open spec fn cell(self, index: nat) -> u8 {
        if index < self.cells.len() {
            self.cells[index as int]
        } else {
            0
        }
    }

    /// The value of the current cell.
    pub open spec fn current(self) -> u8 {
        self.cell(self.pointer)
    }

    /// The same machine with its tape extended by zero cells, as far as
    /// needed for the current cell to be among the written ones.
    pub open spec fn grown(self) -> Machine {
        if self.pointer < self.cells.len() {
            self
        } else {
            Machine {
                cells: self.cells + Seq::new(
                    (self.pointer + 1 - self.cells.len()) as nat,
                    |i: int| 0u8,
                ),
                ..self
            }
        }
    }

    /// The machine after `value` has been written to the current cell.
    pub open spec fn store(self, value: u8) -> Machine {
        Machine { cells: self.grown().cells.update(self.pointer as int, value), ..self }
    }

    /// The machine runs on without a fault.
    pub open spec fn proceed(self) -> Outcome {
        Outcome { machine: self, fault: None }
    }

    /// The machine stops as it is, with `fault`.
    pub open spec fn stop(self, fault: Fault) -> Outcome {
        Outcome { machine: self, fault: Some(fault) }
    }

    /// What one straight-line instruction does.
    ///
    /// A read from exhausted input stores zero. The two loop delimiters are
    /// no steps of the machine: for them the result is the machine itself.
    pub open spec fn step(self, instruction: Instruction) -> Outcome
        recommends
            !instruction.is_bracket(),
    {
        match instruction {
            Instruction::IncrementPointer => if self.pointer + 1 < self.tape_limit {
                Machine { pointer: self.pointer + 1, ..self }.proceed()
            } else {
                self.stop(Fault::PointerOverflow)
            },
            Instruction::DecrementPointer => if self.pointer > 0 {
                Machine { pointer: (self.pointer - 1) as nat, ..self }.proceed()
            } else {
                self.stop(Fault::PointerUnderflow)
            },
            Instruction::IncrementValue => self.store(successor(self.current())).proceed(),
            Instruction::DecrementValue => self.store(predecessor(self.current())).proceed(),
            Instruction::OutputValue => Machine {
                output: self.output.push(self.current()),
                ..self
            }.proceed(),
            Instruction::AcceptInput => if self.input.len() > 0 {
                Machine { input: self.input.drop_first(), ..self.store(self.input[0]) }.proceed()
            } else {
                self.store(0).proceed()
            },
            Instruction::JumpForward | Instruction::JumpBackward => self.proceed(),
        }
    }
}

} // verus!
