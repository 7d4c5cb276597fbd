//! What a program means: the instruction stream of a program text, how loops
//! are delimited in it, and the run of a machine over it.
//!
//! A program is read once, front to back. Its state is therefore a machine
//! and the instructions that are still to come. The bytes that encode no
//! instruction show in one thing only: in the place in the text that reading
//! has reached, which the `offset` functions tell.

use vstd::prelude::*;
use crate::instruction::Instruction;
use crate::machine::{Fault, Machine};
use crate::sequence::{run_loop, well_nested, Node};

verus! {

/// The instructions that the bytes of `text` from index `start` on encode, in
/// order. A byte that encodes no instruction contributes nothing.
pub open spec fn instructions_from(text: Seq<u8>, start: nat) -> Seq<Instruction>
    decreases text.len() - start,
{
    if start >= text.len() {
        Seq::empty()
    } else {
        match Instruction::decode(text[start as int]) {
            Some(instruction) => seq![instruction] + instructions_from(text, start + 1),
            None => instructions_from(text, start + 1),
        }
    }
}

/// The instruction stream of a whole program text.
pub open spec fn instructions_of(text: Seq<u8>) -> Seq<Instruction> {
    instructions_from(text, 0)
}

/// What is left of `pending` behind the `]` that closes the loop in which
/// `pending` starts, where `depth` more loops have been opened inside that
/// loop and not closed yet. `None` where `pending` ends before that `]`.
pub open spec fn after_loop(pending: Seq<Instruction>, depth: nat) -> Option<Seq<Instruction>>
    decreases pending.len(),
{
    if pending.len() == 0 {
        None
    } else {
        let rest = pending.drop_first();
        match pending[0] {
            Instruction::JumpForward => after_loop(rest, depth + 1),
            Instruction::JumpBackward => if depth == 0 {
                Some(rest)
            } else {
                after_loop(rest, (depth - 1) as nat)
            },
            _ => after_loop(rest, depth),
        }
    }
}

/// The body of the loop in which `pending` starts: the instructions up to
/// the `]` that closes it, each nested loop folded into one element.
pub open spec fn loop_body(pending: Seq<Instruction>) -> Seq<Node>
    decreases pending.len(),
{
    if pending.len() == 0 {
        Seq::empty()
    } else {
        let rest = pending.drop_first();
        match pending[0] {
            Instruction::JumpBackward => Seq::empty(),
            Instruction::JumpForward => match after_loop(rest, 0) {
                Some(behind) => {
                    proof {
                        lemma_after_loop_shorter(rest, 0);
                    }
                    seq![Node::Loop(loop_body(rest))] + loop_body(behind)
                },
                None => seq![Node::Loop(loop_body(rest))],
            },
            instruction => seq![Node::Op(instruction)] + loop_body(rest),
        }
    }
}

/// The state of a run: a machine and the instructions still to come.
#[verifier::ext_equal]
pub struct State {
    pub machine: Machine,
    pub pending: Seq<Instruction>,
}

/// How a run, or a part of one, ended: the state it left, and the fault that
/// stopped it if one did.
#[verifier::ext_equal]
pub struct Exit {
    pub state: State,
    pub fault: Option<Fault>,
}

impl State {
    /// The state in which a program text is started.
    pub open spec fn initial(
        text: Seq<u8>,
        input: Seq<u8>,
        pass_limit: nat,
        tape_limit: nat,
    ) -> State {
        State {
            machine: Machine::initial(input, pass_limit, tape_limit),
            pending: instructions_of(text),
        }
    }

    /// What a `[` does that has just been taken from the stream, so that
    /// `self.pending` starts inside the loop.
    ///
    /// Where the stream ends before the matching `]`, all of it is consumed,
    /// the machine is untouched and the fault is
    /// [`Fault::UnterminatedLoop`], whatever the current cell holds.
    /// Otherwise the body is replayed while the current cell is not zero, and
    /// the stream goes on behind the matching `]`.
    pub open spec fn enter_loop(self) -> Exit {
        match after_loop(self.pending, 0) {
            None => Exit {
                state: State { machine: self.machine, pending: Seq::empty() },
                fault: Some(Fault::UnterminatedLoop),
            },
            Some(behind) => {
                let replay = run_loop(
                    loop_body(self.pending),
                    self.machine,
                    self.machine.pass_limit,
                );
                Exit {
                    state: State { machine: replay.machine, pending: behind },
                    fault: replay.fault,
                }
            },
        }
    }

    /// What `instruction` does that has just been taken from the stream.
    pub open spec fn dispatch(self, instruction: Instruction) -> Exit {
        match instruction {
            Instruction::JumpForward => self.enter_loop(),
            Instruction::JumpBackward => Exit { state: self, fault: Some(Fault::UnmatchedLoopEnd) },
            _ => {
                let after = self.machine.step(instruction);
                Exit {
                    state: State { machine: after.machine, pending: self.pending },
                    fault: after.fault,
                }
            },
        }
    }

    /// The run of the machine over the pending instructions: one after the
    /// other is taken from the stream and dispatched, until the stream is
    /// empty or a fault stops the run.
    pub open spec fn run(self) -> Exit
        decreases self.pending.len(),
    {
        if self.pending.len() == 0 {
            Exit { state: self, fault: None }
        } else {
            let fetched = State { machine: self.machine, pending: self.pending.drop_first() };
            let exit = fetched.dispatch(self.pending[0]);
            if exit.fault.is_some() {
                exit
            } else {
                proof {
                    lemma_after_loop_shorter(fetched.pending, 0);
                }
                exit.state.run()
            }
        }
    }

    /// The place in `text` that reading has reached when a run that started
    /// at `start`, with `self` as its state, has ended as `self.run()` says.
    ///
    /// A run without a fault has read the text to its end, and so has one
    /// that looked in vain for the end of a loop. After any other fault the
    /// place is behind the last instruction taken: the one that failed, or
    /// the `]` of the outermost loop in which one failed.
    pub open spec fn offset_behind_run(self, text: Seq<u8>, start: nat) -> nat {
        match self.run().fault {
            None => text.len(),
            Some(Fault::UnterminatedLoop) => text.len(),
            Some(_) => offset_after(
                text,
                start,
                (self.pending.len() - self.run().state.pending.len()) as nat,
            ),
        }
    }
}

/// The place in `text` that reading has reached when `count` instructions
/// have been taken from `start` on: the index behind the byte of the last of
/// them, or the end of the text where it holds fewer.
pub open spec fn offset_after(text: Seq<u8>, start: nat, count: nat) -> nat
    decreases text.len() - start,
{
    if count == 0 {
        start
    } else if start >= text.len() {
        text.len()
    } else if Instruction::decode(text[start as int]).is_some() {
        offset_after(text, start + 1, (count - 1) as nat)
    } else {
        offset_after(text, start + 1, count)
    }
}

/// The place in `text` that reading has reached behind the loop in which the
/// text stands at `start`: behind the `]` that closes it, or the end of the
/// text where none does.
pub open spec fn offset_behind_loop(text: Seq<u8>, start: nat) -> nat {
    let pending = instructions_from(text, start);
    match after_loop(pending, 0) {
        Some(behind) => offset_after(text, start, (pending.len() - behind.len()) as nat),
        None => text.len(),
    }
}

/// A stream left behind a loop is shorter than the stream in which the loop
/// started.
pub proof fn lemma_after_loop_shorter(pending: Seq<Instruction>, depth: nat)
    ensures
        after_loop(pending, depth) matches Some(rest) ==> rest.len() < pending.len(),
    decreases pending.len(),
{
    if pending.len() > 0 {
        let rest = pending.drop_first();
        match pending[0] {
            Instruction::JumpForward => lemma_after_loop_shorter(rest, depth + 1),
            Instruction::JumpBackward => if depth > 0 {
                lemma_after_loop_shorter(rest, (depth - 1) as nat);
            },
            _ => lemma_after_loop_shorter(rest, depth),
        }
    }
}

/// Closing a nested loop leads back into the loop around it: scanning at
/// depth `inner + 1 + outer` is scanning at depth `inner` and then, behind
/// the `]` found, at depth `outer`.
pub proof fn lemma_after_loop_nested(pending: Seq<Instruction>, inner: nat, outer: nat)
    ensures
        after_loop(pending, inner + 1 + outer) == match after_loop(pending, inner) {
            Some(behind) => after_loop(behind, outer),
            None => None,
        },
    decreases pending.len(),
{
    if pending.len() > 0 {
        let rest = pending.drop_first();
        match pending[0] {
            Instruction::JumpForward => lemma_after_loop_nested(rest, inner + 1, outer),
            Instruction::JumpBackward => if inner > 0 {
                lemma_after_loop_nested(rest, (inner - 1) as nat, outer);
            },
            _ => lemma_after_loop_nested(rest, inner, outer),
        }
    }
}

/// In the body of a loop no delimiter stands as a bare instruction.
pub proof fn lemma_loop_body_well_nested(pending: Seq<Instruction>)
    ensures
        well_nested(loop_body(pending)),
    decreases pending.len(),
{
    if pending.len() > 0 {
        let rest = pending.drop_first();
        match pending[0] {
            Instruction::JumpBackward => {},
            Instruction::JumpForward => {
                lemma_loop_body_well_nested(rest);
                match after_loop(rest, 0) {
                    Some(behind) => {
                        lemma_after_loop_shorter(rest, 0);
                        lemma_loop_body_well_nested(behind);
                    },
                    None => {},
                }
            },
            _ => lemma_loop_body_well_nested(rest),
        }
    }
}

/// A text encodes at most as many instructions as it has bytes.
pub proof fn lemma_instructions_bounded(text: Seq<u8>, start: nat)
    ensures
        start + instructions_from(text, start).len() <= text.len() || instructions_from(
            text,
            start,
        ).len() == 0,
    decreases text.len() - start,
{
    if start < text.len() {
        lemma_instructions_bounded(text, start + 1);
    }
}

/// Taking `first` instructions and then `second` more is taking
/// `first + second`.
pub proof fn lemma_offset_after_adds(text: Seq<u8>, start: nat, first: nat, second: nat)
    requires
        start <= text.len(),
    ensures
        start <= offset_after(text, start, first) <= text.len(),
        offset_after(text, offset_after(text, start, first), second) == offset_after(
            text,
            start,
            first + second,
        ),
    decreases text.len() - start,
{
    if first > 0 && start < text.len() {
        if Instruction::decode(text[start as int]).is_some() {
            lemma_offset_after_adds(text, start + 1, (first - 1) as nat, second);
        } else {
            lemma_offset_after_adds(text, start + 1, first, second);
        }
    } else if first > 0 {
        reveal_with_fuel(offset_after, 2);
    }
}

} // verus!
