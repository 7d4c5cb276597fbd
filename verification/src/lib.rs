//! An interpreter for the eight-instruction tape language, with its meaning
//! stated and its code proved against it.
//!
//! A program is a text of bytes. Eight bytes are instructions (`>`, `<`, `+`,
//! `-`, `.`, `,`, `[`, `]`); every other byte is passed over. The program
//! acts on a tape of byte cells that grows to the right, a data pointer, an
//! input and an output.
//!
//! - [`instruction`]: the instructions and the bytes that encode them.
//! - [`machine`]: the machine that instructions act on, and what each of the
//!   six straight-line instructions does to it.
//! - [`sequence`]: captured loop bodies, and what it means to replay them.
//! - [`stream`]: the instruction stream of a program text, how loops are
//!   delimited in it, and the run of a machine over it.
//! - [`program`]: the engine. It reads the text once, front to back; it
//!   passes over a loop whose guard cell is zero, and captures and replays
//!   the body of one whose guard cell is not.
//! - [`laws`]: what holds of every program, proved.
//!
//! The engine does no input or output of its own. The input is handed to it
//! as bytes before the run, and the output is collected as bytes:
//!
//! ```
//! use brainfuck::program::Program;
//!
//! let mut program = Program::new(b",[.,]".to_vec(), b"abc".to_vec());
//! assert_eq!(program.interpret(), Ok(()));
//! assert_eq!(program.output(), &b"abc".to_vec());
//! ```
//!
//! These choices are fixed here:
//!
//! - A `,` takes one byte of the input, as it is. Where the input is
//!   exhausted, it stores zero.
//! - A `.` writes the cell as the byte it is.
//! - The data pointer does not wrap. To the left of cell 0 there is nothing,
//!   and a move there is a fault. To the right the tape ends at the
//!   program's tape limit, which is where no vector could hold more cells
//!   unless a smaller limit is asked for; a move past it is the fault
//!   [`machine::Fault::PointerOverflow`].
//! - Every function of the engine returns. One activation of a loop makes at
//!   most as many passes as the program's pass limit allows, `u64::MAX` unless
//!   another limit is asked for; a pass beyond it is the fault
//!   [`machine::Fault::PassLimit`].
//!
//! A run in which neither limit is reached is the same under all larger
//! limits.

pub mod instruction;
pub mod machine;
pub mod sequence;
pub mod stream;
pub mod program;
pub mod laws;
