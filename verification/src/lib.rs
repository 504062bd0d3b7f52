//! A minimal interpreter for the Brainfuck language: a parser that turns
//! source text into a tree of instructions, and a tree-walking executor
//! over a growable byte tape.
//!
//! Character input and output go through a fixed 8-bit text table (see
//! [`compat`]); the executor itself works on plain values, so a caller
//! supplies the input characters and collects the output characters
//! through an [`interpret::Io`] buffer.

pub mod compat;
pub mod interpret;
pub mod parser;

pub use compat::to_char_8859;
pub use interpret::execute;
pub use interpret::run;
pub use interpret::run_from_state;
pub use parser::parse;

use vstd::prelude::*;
use vstd::string::StringExecFns;

verus! {

/// A `Vec` of `u8`s representing the memory of a Brainfuck process.
pub type Memory = Vec<u8>;

/// The pointer that indicates the selected cell of a Brainfuck process.
pub type Pointer = usize;

/// The state of a Brainfuck process.
#[derive(Debug)]
pub struct State {
    /// The process's memory.
    pub mem: Memory,
    /// The location of the pointer.
    pub pointer: Pointer,
    /// Whether the process has outputted.
    ///
    /// Used for repl
    pub outted: bool,
}

impl State {
    /// The pointer always selects an existing cell.
    pub open spec fn wf(self) -> bool {
        self.pointer < self.mem@.len()
    }

    /// Creates a new Brainfuck state: a single zeroed cell, the pointer
    /// on it, and no output seen yet.
    pub fn new() -> (s: Self)
        ensures
            s.wf(),
            s.mem@ == seq![0u8],
            s.pointer == 0,
            !s.outted,
    {
        let mem: Vec<u8> = vec![0];
        proof {
            assert(mem@ =~= seq![0u8]);
        }
        Self { mem, pointer: 0, outted: false }
    }
}

/// A Brainfuck instruction.
#[derive(Debug, PartialEq, Eq)]
pub enum Instruction {
    /// Represents the `+` instruction: increment the current cell.
    Increment,
    /// Represents the `-` instruction: decrement the current cell.
    Decrement,
    /// Represents the `>` instruction: move to the next cell.
    Forward,
    /// Represents the `<` instruction: move to the previous cell.
    Backward,
    /// Represents a loop (inside `[]`): repeats everything within it
    /// until the current cell reads zero after a full pass.
    Loop(Vec<Instruction>),
    /// Represents the end of a Brainfuck loop.
    ///
    /// Only used while parsing; never present in a parsed list of
    /// instructions.
    LoopEnd,
    /// Represents the `.` instruction: output the current cell.
    Out,
    /// Represents the `,` instruction: read one character of input into
    /// the current cell.
    In,
}

/// The error of classifying a character that names no instruction.
#[derive(Debug, PartialEq, Eq)]
pub struct TryFromCharError;

impl TryFromCharError {
    /// A human-readable description of the error.
    pub fn message(&self) -> (r: String)
        ensures
            r@ == "Could not convert from a `char`."@,
    {
        String::from_str("Could not convert from a `char`.")
    }
}

/// The eight characters that name instructions.
pub open spec fn is_instruction_char(c: char) -> bool {
    c == '+' || c == '-' || c == '>' || c == '<' || c == '[' || c == ']' || c == '.'
        || c == ','
}

impl Instruction {
    /// Classifies a single character as a Brainfuck instruction.
    ///
    /// This is the strict one-character contract: any character outside
    /// the eight-character instruction set is an error here, while the
    /// full-program parser skips such characters silently.
    pub fn try_from_char(c: char) -> (r: Result<Instruction, TryFromCharError>)
        ensures
            r is Ok <==> is_instruction_char(c),
            c == '+' ==> r == Ok::<Instruction, TryFromCharError>(Instruction::Increment),
            c == '-' ==> r == Ok::<Instruction, TryFromCharError>(Instruction::Decrement),
            c == '>' ==> r == Ok::<Instruction, TryFromCharError>(Instruction::Forward),
            c == '<' ==> r == Ok::<Instruction, TryFromCharError>(Instruction::Backward),
            c == '[' ==> (r matches Ok(i) && i matches Instruction::Loop(body)
                && body@.len() == 0),
            c == ']' ==> r == Ok::<Instruction, TryFromCharError>(Instruction::LoopEnd),
            c == '.' ==> r == Ok::<Instruction, TryFromCharError>(Instruction::Out),
            c == ',' ==> r == Ok::<Instruction, TryFromCharError>(Instruction::In),
            !is_instruction_char(c) ==> r == Err::<Instruction, TryFromCharError>(
                TryFromCharError,
            ),
    {
        match c {
            '+' => Ok(Instruction::Increment),
            '-' => Ok(Instruction::Decrement),
            '>' => Ok(Instruction::Forward),
            '<' => Ok(Instruction::Backward),
            '[' => Ok(Instruction::Loop(Vec::new())),
            ']' => Ok(Instruction::LoopEnd),
            '.' => Ok(Instruction::Out),
            ',' => Ok(Instruction::In),
            _ => Err(TryFromCharError),
        }
    }
}

} // verus!
