//! The eight instructions and their byte encoding.

use vstd::prelude::*;

verus! {

/// `>`: move the data pointer one cell to the right.
pub const INCREMENT_POINTER: u8 = 0x3E;

/// `<`: move the data pointer one cell to the left.
pub const DECREMENT_POINTER: u8 = 0x3C;

/// `+`: add one to the current cell.
pub const INCREMENT_VALUE: u8 = 0x2B;

/// `-`: subtract one from the current cell.
pub const DECREMENT_VALUE: u8 = 0x2D;

/// `.`: write the current cell to the output.
pub const OUTPUT_VALUE: u8 = 0x2E;

/// `,`: read one byte of input into the current cell.
pub const ACCEPT_INPUT: u8 = 0x2C;

/// `[`: start of a loop.
pub const JUMP_FORWARD: u8 = 0x5B;

/// `]`: end of a loop.
pub const JUMP_BACKWARD: u8 = 0x5D;

/// One instruction of the language.
#[derive(Clone, Copy, Debug, PartialEq, Eq, Structural)]
pub enum Instruction {
    IncrementPointer,
    DecrementPointer,
    IncrementValue,
    DecrementValue,
    OutputValue,
    AcceptInput,
    JumpForward,
    JumpBackward,
}

/// The error of decoding a byte that encodes no instruction. It carries the
/// byte.
#[derive(Clone, Copy, Debug, PartialEq, Eq, Structural)]
pub struct UnrecognizedByte {
    pub byte: u8,
}

impl UnrecognizedByte {
    /// Returns what to tell the user of such a byte.
    pub fn description(&self) -> (text: &'static str)
        ensures
            text@ == "Unrecognised instruction"@,
    {
        "Unrecognised instruction"
    }
}

impl Instruction {
    /// The byte that encodes this instruction.
    pub open spec fn spec_opcode(self) -> u8 {
        match self {
            Instruction::IncrementPointer => INCREMENT_POINTER,
            Instruction::DecrementPointer => DECREMENT_POINTER,
            Instruction::IncrementValue => INCREMENT_VALUE,
            Instruction::DecrementValue => DECREMENT_VALUE,
            Instruction::OutputValue => OUTPUT_VALUE,
            Instruction::AcceptInput => ACCEPT_INPUT,
            Instruction::JumpForward => JUMP_FORWARD,
            Instruction::JumpBackward => JUMP_BACKWARD,
        }
    }

    /// The instruction that `byte` encodes, if it encodes one.
    pub open spec fn decode(byte: u8) -> Option<Instruction> {
        if byte == INCREMENT_POINTER {
            Some(Instruction::IncrementPointer)
        } else if byte == DECREMENT_POINTER {
            Some(Instruction::DecrementPointer)
        } else if byte == INCREMENT_VALUE {
            Some(Instruction::IncrementValue)
        } else if byte == DECREMENT_VALUE {
            Some(Instruction::DecrementValue)
        } else if byte == OUTPUT_VALUE {
            Some(Instruction::OutputValue)
        } else if byte == ACCEPT_INPUT {
            Some(Instruction::AcceptInput)
        } else if byte == JUMP_FORWARD {
            Some(Instruction::JumpForward)
        } else if byte == JUMP_BACKWARD {
            Some(Instruction::JumpBackward)
        } else {
            None
        }
    }

    /// Whether this is one of the two loop delimiters.
    pub open spec fn is_bracket(self) -> bool {
        self == Instruction::JumpForward || self == Instruction::JumpBackward
    }

    /// The character that stands for this instruction in program text.
    pub open spec fn spec_symbol(self) -> char {
        match self {
            Instruction::IncrementPointer => '>',
            Instruction::DecrementPointer => '<',
            Instruction::IncrementValue => '+',
            Instruction::DecrementValue => '-',
            Instruction::OutputValue => '.',
            Instruction::AcceptInput => ',',
            Instruction::JumpForward => '[',
            Instruction::JumpBackward => ']',
        }
    }

    /// The descriptive name of this instruction.
    pub open spec fn spec_name(self) -> Seq<char> {
        match self {
            Instruction::IncrementPointer => "IncrementPointer"@,
            Instruction::DecrementPointer => "DecrementPointer"@,
            Instruction::IncrementValue => "IncrementValue"@,
            Instruction::DecrementValue => "DecrementValue"@,
            Instruction::OutputValue => "OutputValue"@,
            Instruction::AcceptInput => "AcceptInput"@,
            Instruction::JumpForward => "JumpForward"@,
            Instruction::JumpBackward => "JumpBackward"@,
        }
    }

    /// Returns the byte that encodes this instruction.
    #[verifier::when_used_as_spec(spec_opcode)]
    pub fn opcode(self) -> (byte: u8)
        ensures
            byte == self.spec_opcode(),
            Instruction::decode(byte) == Some(self),
    {
        match self {
            Instruction::IncrementPointer => INCREMENT_POINTER,
            Instruction::DecrementPointer => DECREMENT_POINTER,
            Instruction::IncrementValue => INCREMENT_VALUE,
            Instruction::DecrementValue => DECREMENT_VALUE,
            Instruction::OutputValue => OUTPUT_VALUE,
            Instruction::AcceptInput => ACCEPT_INPUT,
            Instruction::JumpForward => JUMP_FORWARD,
            Instruction::JumpBackward => JUMP_BACKWARD,
        }
    }

    /// Returns the character that stands for this instruction in program
    /// text: the character whose code is the instruction's byte.
    #[verifier::when_used_as_spec(spec_symbol)]
    pub fn symbol(self) -> (c: char)
        ensures
            c == self.spec_symbol(),
            c as u32 == self.spec_opcode() as u32,
    {
        match self {
            Instruction::IncrementPointer => '>',
            Instruction::DecrementPointer => '<',
            Instruction::IncrementValue => '+',
            Instruction::DecrementValue => '-',
            Instruction::OutputValue => '.',
            Instruction::AcceptInput => ',',
            Instruction::JumpForward => '[',
            Instruction::JumpBackward => ']',
        }
    }

    /// Returns this instruction as program text: the one character that
    /// stands for it.
    pub fn to_string(&self) -> (text: String)
        ensures
            text@ == seq![self.spec_symbol()],
    {
        proof {
            reveal_strlit(">");
            reveal_strlit("<");
            reveal_strlit("+");
            reveal_strlit("-");
            reveal_strlit(".");
            reveal_strlit(",");
            reveal_strlit("[");
            reveal_strlit("]");
        }
        let text = match self {
            Instruction::IncrementPointer => ">",
            Instruction::DecrementPointer => "<",
            Instruction::IncrementValue => "+",
            Instruction::DecrementValue => "-",
            Instruction::OutputValue => ".",
            Instruction::AcceptInput => ",",
            Instruction::JumpForward => "[",
            Instruction::JumpBackward => "]",
        };
        assert(text@ =~= seq![self.spec_symbol()]);
        text.to_owned()
    }

    /// Returns the descriptive name of this instruction, for logs and error
    /// messages.
    pub fn name(self) -> (name: &'static str)
        ensures
            name@ == self.spec_name(),
    {
        match self {
            Instruction::IncrementPointer => "IncrementPointer",
            Instruction::DecrementPointer => "DecrementPointer",
            Instruction::IncrementValue => "IncrementValue",
            Instruction::DecrementValue => "DecrementValue",
            Instruction::OutputValue => "OutputValue",
            Instruction::AcceptInput => "AcceptInput",
            Instruction::JumpForward => "JumpForward",
            Instruction::JumpBackward => "JumpBackward",
        }
    }
}

/// What [`Instruction::try_from`] returns: the instruction that the byte
/// encodes, or the byte as the error.
impl vstd::std_specs::convert::TryFromSpecImpl<u8> for Instruction {
    open spec fn obeys_try_from_spec() -> bool {
        true
    }

    open spec fn try_from_spec(value: u8) -> Result<Instruction, UnrecognizedByte> {
        match Instruction::decode(value) {
            Some(instruction) => Ok(instruction),
            None => Err(UnrecognizedByte { byte: value }),
        }
    }
}

impl TryFrom<u8> for Instruction {
    type Error = UnrecognizedByte;

    /// Decodes one program byte. Every byte but the eight opcodes is
    /// rejected, and the error carries the byte.
    fn try_from(value: u8) -> (decoded: Result<Instruction, UnrecognizedByte>)
        ensures
            decoded == match Instruction::decode(value) {
                Some(instruction) => Ok::<Instruction, UnrecognizedByte>(instruction),
                None => Err(UnrecognizedByte { byte: value }),
            },
    {
        if value == INCREMENT_POINTER {
            Ok(Instruction::IncrementPointer)
        } else if value == DECREMENT_POINTER {
            Ok(Instruction::DecrementPointer)
        } else if value == INCREMENT_VALUE {
            Ok(Instruction::IncrementValue)
        } else if value == DECREMENT_VALUE {
            Ok(Instruction::DecrementValue)
        } else if value == OUTPUT_VALUE {
            Ok(Instruction::OutputValue)
        } else if value == ACCEPT_INPUT {
            Ok(Instruction::AcceptInput)
        } else if value == JUMP_FORWARD {
            Ok(Instruction::JumpForward)
        } else if value == JUMP_BACKWARD {
            Ok(Instruction::JumpBackward)
        } else {
            Err(UnrecognizedByte { byte: value })
        }
    }
}

} // verus!
