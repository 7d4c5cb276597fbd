//! Captured loop bodies and what it means to replay them.

use vstd::prelude::*;
use crate::instruction::Instruction;
use crate::machine::{Fault, Machine, Outcome};

verus! {

/// One element of a captured loop body.
#[derive(Debug, PartialEq, Eq)]
pub enum SequenceElement {
    /// A straight-line instruction.
    Instruction(Instruction),
    /// A nested loop, held as its own body.
    Sequence(Vec<SequenceElement>),
}

/// A possibly nested sequence of instructions: the body of a loop.
pub type Sequence = Vec<SequenceElement>;

/// The mathematical form of a [`SequenceElement`].
pub enum Node {
    /// A straight-line instruction.
    Op(Instruction),
    /// A loop with the given body.
    Loop(Seq<Node>),
}

impl SequenceElement {
    /// The mathematical form of this element. (The test on `i` is there for
    /// the proof that the definition is well-founded: an index within the
    /// body leads to a smaller element.)
    pub open spec fn node(self) -> Node
        decreases self,
    {
        match self {
            SequenceElement::Instruction(instruction) => Node::Op(instruction),
            SequenceElement::Sequence(body) => Node::Loop(
                Seq::new(
                    body@.len(),
                    |i: int|
                        if 0 <= i < body@.len() {
                            body@[i].node()
                        } else {
                            arbitrary()
                        },
                ),
            ),
        }
    }
}

impl View for SequenceElement {
    type V = Node;

    open spec fn view(&self) -> Node {
        self.node()
    }
}

/// The mathematical form of a [`Sequence`]: element by element.
pub open spec fn sequence_view(elements: Seq<SequenceElement>) -> Seq<Node> {
    Seq::new(elements.len(), |i: int| elements[i]@)
}

/// A nested loop is seen as the loop of its elements' views.
pub proof fn lemma_view_of_nested(body: Vec<SequenceElement>)
    ensures
        SequenceElement::Sequence(body)@ == Node::Loop(sequence_view(body@)),
{
    reveal_with_fuel(SequenceElement::node, 2);
    let nested = SequenceElement::Sequence(body)@;
    assert(nested->Loop_0 =~= sequence_view(body@));
}

/// No loop delimiter stands in `body` as a bare instruction, at any depth.
pub open spec fn well_nested(body: Seq<Node>) -> bool
    decreases body,
{
    forall|i: int|
        0 <= i < body.len() ==> match #[trigger] body[i] {
            Node::Op(instruction) => !instruction.is_bracket(),
            Node::Loop(inner) => well_nested(inner),
        }
}

/// Tells whether no loop delimiter stands in `sequence` as a bare
/// instruction, at any depth: whether the sequence may be executed.
pub fn is_well_nested(sequence: &Sequence) -> (well: bool)
    ensures
        well == well_nested(sequence_view(sequence@)),
    decreases sequence,
{
    let ghost body = sequence_view(sequence@);
    let mut index: usize = 0;
    while index < sequence.len()
        invariant
            index <= sequence.len(),
            body == sequence_view(sequence@),
            forall|i: int|
                0 <= i < index ==> match #[trigger] body[i] {
                    Node::Op(instruction) => !instruction.is_bracket(),
                    Node::Loop(inner) => well_nested(inner),
                },
        decreases sequence.len() - index,
    {
        assert(body[index as int] == sequence@[index as int]@);
        match &sequence[index] {
            SequenceElement::Instruction(instruction) => {
                if *instruction == Instruction::JumpForward || *instruction
                    == Instruction::JumpBackward {
                    return false;
                }
            },
            SequenceElement::Sequence(nested) => {
                proof {
                    lemma_view_of_nested(*nested);
                }
                if !is_well_nested(nested) {
                    return false;
                }
            },
        }
        index = index + 1;
    }
    true
}

/// The instructions of one element, written out: an instruction as itself, a
/// loop as its body between `[` and `]`.
pub open spec fn node_text(node: Node) -> Seq<Instruction>
    decreases node, 0nat,
{
    match node {
        Node::Op(instruction) => seq![instruction],
        Node::Loop(body) => seq![Instruction::JumpForward] + body_text(body, 0)
            + seq![Instruction::JumpBackward],
    }
}

/// The instructions of the elements of `body` from index `from` on, written
/// out in order.
pub open spec fn body_text(body: Seq<Node>, from: nat) -> Seq<Instruction>
    decreases body, body.len() - from,
{
    if from >= body.len() {
        Seq::empty()
    } else {
        node_text(body[from as int]) + body_text(body, from + 1)
    }
}

/// The machine after one element of a body.
pub open spec fn run_node(node: Node, machine: Machine) -> Outcome
    decreases node, 0nat, 0nat,
{
    match node {
        Node::Op(instruction) => machine.step(instruction),
        Node::Loop(body) => run_loop(body, machine, machine.pass_limit),
    }
}

/// The machine after the elements of `body` from index `from` on, in order.
/// The first fault ends the run.
pub open spec fn run_from(body: Seq<Node>, from: nat, machine: Machine) -> Outcome
    decreases body, 0nat, body.len() - from,
{
    if from >= body.len() {
        machine.proceed()
    } else {
        let first = run_node(body[from as int], machine);
        if first.fault.is_some() {
            first
        } else {
            run_from(body, from + 1, first.machine)
        }
    }
}

/// The machine after a whole body.
pub open spec fn run_sequence(body: Seq<Node>, machine: Machine) -> Outcome {
    run_from(body, 0, machine)
}

/// The machine after a loop with `passes` passes left: as long as the current
/// cell is not zero, one more pass through `body`. The guard is read anew
/// before every pass. A pass that is due when none is left is a fault.
pub open spec fn run_loop(body: Seq<Node>, machine: Machine, passes: nat) -> Outcome
    decreases body, 1nat, passes,
{
    if machine.current() == 0 {
        machine.proceed()
    } else if passes == 0 {
        machine.stop(Fault::PassLimit)
    } else {
        let pass = run_from(body, 0, machine);
        if pass.fault.is_some() {
            pass
        } else {
            run_loop(body, pass.machine, (passes - 1) as nat)
        }
    }
}

/// The faults of the machine itself: those that a body can meet in execution.
/// The two faults of loop delimiters are met only where the program text is
/// read.
pub open spec fn machine_fault(fault: Option<Fault>) -> bool {
    fault != Some(Fault::UnterminatedLoop) && fault != Some(Fault::UnmatchedLoopEnd)
}

/// The execution of an element ends without a fault or with one of the
/// machine.
pub proof fn lemma_node_faults(node: Node, machine: Machine)
    ensures
        machine_fault(run_node(node, machine).fault),
    decreases node, 0nat, 0nat,
{
    match node {
        Node::Op(instruction) => {},
        Node::Loop(body) => lemma_loop_faults(body, machine, machine.pass_limit),
    }
}

/// The execution of a body ends without a fault or with one of the machine.
pub proof fn lemma_sequence_faults(body: Seq<Node>, from: nat, machine: Machine)
    ensures
        machine_fault(run_from(body, from, machine).fault),
    decreases body, 0nat, body.len() - from,
{
    if from < body.len() {
        lemma_node_faults(body[from as int], machine);
        let first = run_node(body[from as int], machine);
        if first.fault.is_none() {
            lemma_sequence_faults(body, from + 1, first.machine);
        }
    }
}

/// A replay ends without a fault or with one of the machine.
pub proof fn lemma_loop_faults(body: Seq<Node>, machine: Machine, passes: nat)
    ensures
        machine_fault(run_loop(body, machine, passes).fault),
    decreases body, 1nat, passes,
{
    if machine.current() != 0 && passes != 0 {
        lemma_sequence_faults(body, 0, machine);
        let pass = run_from(body, 0, machine);
        if pass.fault.is_none() {
            lemma_loop_faults(body, pass.machine, (passes - 1) as nat);
        }
    }
}

} // verus!
