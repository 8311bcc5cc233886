//! The bytecode container: instructions, their source lines, and the
//! constant pool.
use vstd::prelude::*;

verus! {

/// The largest number of constants that one chunk may hold: a constant's
/// index is a single operand byte, and the compiler refuses the 256th.
pub const MAX_CONSTANTS: usize = 255;

/// The closed set of instructions of the machine.
#[derive(Clone, Copy, Debug, PartialEq, Eq, Structural)]
pub enum OpCode {
    /// Push a constant; followed by one operand byte, its pool index.
    Constant,
    Add,
    Subtract,
    Multiply,
    Divide,
    Negate,
    /// Pop the result and halt.
    Return,
}

/// The byte that encodes an opcode.
pub open spec fn opcode_byte(op: OpCode) -> u8 {
    match op {
        OpCode::Constant => 0,
        OpCode::Add => 1,
        OpCode::Subtract => 2,
        OpCode::Multiply => 3,
        OpCode::Divide => 4,
        OpCode::Negate => 5,
        OpCode::Return => 6,
    }
}

/// The opcode that a byte encodes, if any.
pub open spec fn decode_opcode(b: u8) -> Option<OpCode> {
    if b == 0 {
        Some(OpCode::Constant)
    } else if b == 1 {
        Some(OpCode::Add)
    } else if b == 2 {
        Some(OpCode::Subtract)
    } else if b == 3 {
        Some(OpCode::Multiply)
    } else if b == 4 {
        Some(OpCode::Divide)
    } else if b == 5 {
        Some(OpCode::Negate)
    } else if b == 6 {
        Some(OpCode::Return)
    } else {
        None
    }
}

impl OpCode {
    /// The byte that encodes this opcode.
    pub fn to_byte(self) -> (r: u8)
        ensures
            r == opcode_byte(self),
    {
        match self {
            OpCode::Constant => 0,
            OpCode::Add => 1,
            OpCode::Subtract => 2,
            OpCode::Multiply => 3,
            OpCode::Divide => 4,
            OpCode::Negate => 5,
            OpCode::Return => 6,
        }
    }

    /// The opcode that `v` encodes, or `None` for a byte that is no opcode.
    pub fn try_from_byte(v: u8) -> (r: Option<OpCode>)
        ensures
            r == decode_opcode(v),
    {
        match v {
            0 => Some(OpCode::Constant),
            1 => Some(OpCode::Add),
            2 => Some(OpCode::Subtract),
            3 => Some(OpCode::Multiply),
            4 => Some(OpCode::Divide),
            5 => Some(OpCode::Negate),
            6 => Some(OpCode::Return),
            _ => None,
        }
    }
}

/// Instructions with the source line of each byte, and the constant pool.
/// A constant is the bit pattern of an IEEE-754 double.
pub struct Chunk {
    pub code: Vec<u8>,
    pub lines: Vec<usize>,
    pub constants: Vec<u64>,
}

impl Chunk {
    /// Every instruction byte has its line.
    pub open spec fn wf(&self) -> bool {
        self.code@.len() == self.lines@.len()
    }
}

/// An empty chunk.
pub fn init_chunk() -> (r: Chunk)
    ensures
        r.code@ == Seq::<u8>::empty(),
        r.lines@ == Seq::<usize>::empty(),
        r.constants@ == Seq::<u64>::empty(),
        r.wf(),
{
    Chunk { code: Vec::new(), lines: Vec::new(), constants: Vec::new() }
}

/// Releases a chunk.
pub fn free_chunk(chunk: Chunk) {
    let _ = chunk;
}

/// Appends one byte, with the line it came from.
pub fn write_chunk(chunk: &mut Chunk, byte: u8, line: usize)
    ensures
        final(chunk).code@ == old(chunk).code@.push(byte),
        final(chunk).lines@ == old(chunk).lines@.push(line),
        final(chunk).constants@ == old(chunk).constants@,
        old(chunk).wf() ==> final(chunk).wf(),
{
    chunk.code.push(byte);
    chunk.lines.push(line);
}

/// Appends a constant to the pool and returns its index.
pub fn add_constant(chunk: &mut Chunk, value: u64) -> (r: usize)
    requires
        old(chunk).constants@.len() < usize::MAX,
    ensures
        final(chunk).constants@ == old(chunk).constants@.push(value),
        final(chunk).code@ == old(chunk).code@,
        final(chunk).lines@ == old(chunk).lines@,
        r == old(chunk).constants@.len(),
{
    chunk.constants.push(value);
    chunk.constants.len() - 1
}

} // verus!
