//! A compiled unit: a linear byte stream of instructions, a source-line
//! map aligned byte for byte with it, and a pool of constant values that
//! instructions name by one-byte indices.
use vstd::prelude::*;
use crate::value::Value;

verus! {

/// One instruction opcode.  Its byte encoding is given by
/// `spec_opcode_byte`; the operand bytes that follow each opcode are fixed
/// per opcode.
#[derive(Clone, Copy, PartialEq, Eq, Structural, Debug)]
pub enum OpCode {
    OpConstant,
    OpNil,
    OpTrue,
    OpFalse,
    OpPop,
    OpEqual,
    OpGreater,
    OpLess,
    OpAdd,
    OpSubtract,
    OpMultiply,
    OpDivide,
    OpNot,
    OpNegate,
    OpPrint,
    OpDefineGlobal,
    OpGetGlobal,
    OpSetGlobal,
    OpGetLocal,
    OpSetLocal,
    OpJumpIfFalse,
    OpJump,
    OpLoop,
    OpReturn,
}

/// The byte that encodes an opcode.
pub open spec fn spec_opcode_byte(op: OpCode) -> u8 {
    match op {
        OpCode::OpConstant => 0,
        OpCode::OpNil => 1,
        OpCode::OpTrue => 2,
        OpCode::OpFalse => 3,
        OpCode::OpPop => 4,
        OpCode::OpEqual => 5,
        OpCode::OpGreater => 6,
        OpCode::OpLess => 7,
        OpCode::OpAdd => 8,
        OpCode::OpSubtract => 9,
        OpCode::OpMultiply => 10,
        OpCode::OpDivide => 11,
        OpCode::OpNot => 12,
        OpCode::OpNegate => 13,
        OpCode::OpPrint => 14,
        OpCode::OpDefineGlobal => 15,
        OpCode::OpGetGlobal => 16,
        OpCode::OpSetGlobal => 17,
        OpCode::OpGetLocal => 18,
        OpCode::OpSetLocal => 19,
        OpCode::OpJumpIfFalse => 20,
        OpCode::OpJump => 21,
        OpCode::OpLoop => 22,
        OpCode::OpReturn => 23,
    }
}

/// The opcode a byte encodes, if any.
pub open spec fn spec_opcode_of_byte(b: u8) -> Option<OpCode> {
    if b == 0 {
        Some(OpCode::OpConstant)
    } else if b == 1 {
        Some(OpCode::OpNil)
    } else if b == 2 {
        Some(OpCode::OpTrue)
    } else if b == 3 {
        Some(OpCode::OpFalse)
    } else if b == 4 {
        Some(OpCode::OpPop)
    } else if b == 5 {
        Some(OpCode::OpEqual)
    } else if b == 6 {
        Some(OpCode::OpGreater)
    } else if b == 7 {
        Some(OpCode::OpLess)
    } else if b == 8 {
        Some(OpCode::OpAdd)
    } else if b == 9 {
        Some(OpCode::OpSubtract)
    } else if b == 10 {
        Some(OpCode::OpMultiply)
    } else if b == 11 {
        Some(OpCode::OpDivide)
    } else if b == 12 {
        Some(OpCode::OpNot)
    } else if b == 13 {
        Some(OpCode::OpNegate)
    } else if b == 14 {
        Some(OpCode::OpPrint)
    } else if b == 15 {
        Some(OpCode::OpDefineGlobal)
    } else if b == 16 {
        Some(OpCode::OpGetGlobal)
    } else if b == 17 {
        Some(OpCode::OpSetGlobal)
    } else if b == 18 {
        Some(OpCode::OpGetLocal)
    } else if b == 19 {
        Some(OpCode::OpSetLocal)
    } else if b == 20 {
        Some(OpCode::OpJumpIfFalse)
    } else if b == 21 {
        Some(OpCode::OpJump)
    } else if b == 22 {
        Some(OpCode::OpLoop)
    } else if b == 23 {
        Some(OpCode::OpReturn)
    } else {
        None
    }
}

/// Encoding and decoding of opcode bytes invert each other.
pub proof fn lemma_opcode_byte_round_trip()
    ensures
        forall|op: OpCode| spec_opcode_of_byte(spec_opcode_byte(op)) == Some(op),
        forall|b: u8| #[trigger] spec_opcode_of_byte(b) is Some ==> spec_opcode_byte(
            spec_opcode_of_byte(b)->0,
        ) == b,
{
}

pub fn opcode_byte(op: OpCode) -> (r: u8)
    ensures
        r == spec_opcode_byte(op),
{
    match op {
        OpCode::OpConstant => 0,
        OpCode::OpNil => 1,
        OpCode::OpTrue => 2,
        OpCode::OpFalse => 3,
        OpCode::OpPop => 4,
        OpCode::OpEqual => 5,
        OpCode::OpGreater => 6,
        OpCode::OpLess => 7,
        OpCode::OpAdd => 8,
        OpCode::OpSubtract => 9,
        OpCode::OpMultiply => 10,
        OpCode::OpDivide => 11,
        OpCode::OpNot => 12,
        OpCode::OpNegate => 13,
        OpCode::OpPrint => 14,
        OpCode::OpDefineGlobal => 15,
        OpCode::OpGetGlobal => 16,
        OpCode::OpSetGlobal => 17,
        OpCode::OpGetLocal => 18,
        OpCode::OpSetLocal => 19,
        OpCode::OpJumpIfFalse => 20,
        OpCode::OpJump => 21,
        OpCode::OpLoop => 22,
        OpCode::OpReturn => 23,
    }
}

pub fn opcode_of_byte(b: u8) -> (r: Option<OpCode>)
    ensures
        r == spec_opcode_of_byte(b),
{
    if b == 0 {
        Some(OpCode::OpConstant)
    } else if b == 1 {
        Some(OpCode::OpNil)
    } else if b == 2 {
        Some(OpCode::OpTrue)
    } else if b == 3 {
        Some(OpCode::OpFalse)
    } else if b == 4 {
        Some(OpCode::OpPop)
    } else if b == 5 {
        Some(OpCode::OpEqual)
    } else if b == 6 {
        Some(OpCode::OpGreater)
    } else if b == 7 {
        Some(OpCode::OpLess)
    } else if b == 8 {
        Some(OpCode::OpAdd)
    } else if b == 9 {
        Some(OpCode::OpSubtract)
    } else if b == 10 {
        Some(OpCode::OpMultiply)
    } else if b == 11 {
        Some(OpCode::OpDivide)
    } else if b == 12 {
        Some(OpCode::OpNot)
    } else if b == 13 {
        Some(OpCode::OpNegate)
    } else if b == 14 {
        Some(OpCode::OpPrint)
    } else if b == 15 {
        Some(OpCode::OpDefineGlobal)
    } else if b == 16 {
        Some(OpCode::OpGetGlobal)
    } else if b == 17 {
        Some(OpCode::OpSetGlobal)
    } else if b == 18 {
        Some(OpCode::OpGetLocal)
    } else if b == 19 {
        Some(OpCode::OpSetLocal)
    } else if b == 20 {
        Some(OpCode::OpJumpIfFalse)
    } else if b == 21 {
        Some(OpCode::OpJump)
    } else if b == 22 {
        Some(OpCode::OpLoop)
    } else if b == 23 {
        Some(OpCode::OpReturn)
    } else {
        None
    }
}

/// The value of two bytes read big-endian.
pub open spec fn two_byte_be(hi: u8, lo: u8) -> int {
    hi * 256 + lo
}

pub struct Chunk {
    pub code: Vec<u8>,
    pub lines: Vec<usize>,
    pub constants: Vec<Value>,
}

impl Chunk {
    /// The line map is aligned byte for byte with the code.
    pub open spec fn wf(&self) -> bool {
        self.code@.len() == self.lines@.len()
    }

    pub fn new() -> (r: Self)
        ensures
            r.wf(),
            r.code@ == Seq::<u8>::empty(),
            r.lines@ == Seq::<usize>::empty(),
            r.constants@ == Seq::<Value>::empty(),
    {
        Chunk { code: Vec::new(), lines: Vec::new(), constants: Vec::new() }
    }

    /// Append one opcode byte, recording the source line it came from.
    pub fn write(&mut self, opcode: OpCode, line: usize)
        requires
            old(self).wf(),
        ensures
            final(self).wf(),
            final(self).code@ == old(self).code@.push(spec_opcode_byte(opcode)),
            final(self).lines@ == old(self).lines@.push(line),
            final(self).constants@ == old(self).constants@,
    {
        self.code.push(opcode_byte(opcode));
        self.lines.push(line);
    }

    /// Append one raw operand byte, recording the source line it came from.
    pub fn write_byte(&mut self, byte: u8, line: usize)
        requires
            old(self).wf(),
        ensures
            final(self).wf(),
            final(self).code@ == old(self).code@.push(byte),
            final(self).lines@ == old(self).lines@.push(line),
            final(self).constants@ == old(self).constants@,
    {
        self.code.push(byte);
        self.lines.push(line);
    }

    /// Append a value to the constant pool and return its index.
    pub fn add_constant(&mut self, value: Value) -> (r: usize)
        ensures
            final(self).constants@ == old(self).constants@.push(value),
            r == old(self).constants@.len(),
            final(self).code@ == old(self).code@,
            final(self).lines@ == old(self).lines@,
            final(self).wf() == old(self).wf(),
    {
        let r = self.constants.len();
        self.constants.push(value);
        r
    }

    pub fn constants_len(&self) -> (r: usize)
        ensures
            r == self.constants@.len(),
    {
        self.constants.len()
    }

    pub fn get_constant(&self, index: usize) -> (r: Value)
        requires
            index < self.constants@.len(),
        ensures
            r@ == self.constants@[index as int]@,
    {
        self.constants[index].clone()
    }

    /// Append a jump opcode and two placeholder offset bytes; return the
    /// offset of the first placeholder, the patch site.
    pub fn emit_jump(&mut self, instruction: OpCode, line: usize) -> (r: usize)
        requires
            old(self).wf(),
            old(self).code@.len() + 2 < usize::MAX,
        ensures
            final(self).wf(),
            final(self).code@ == old(self).code@ + seq![spec_opcode_byte(instruction), 0xFFu8, 0xFFu8],
            final(self).lines@ == old(self).lines@ + seq![line, line, line],
            final(self).constants@ == old(self).constants@,
            r == old(self).code@.len() + 1,
    {
        self.write(instruction, line);
        self.write_byte(0xFF, line);
        self.write_byte(0xFF, line);
        proof {
            assert(self.code@ =~= old(self).code@ + seq![
                spec_opcode_byte(instruction),
                0xFFu8,
                0xFFu8,
            ]);
            assert(self.lines@ =~= old(self).lines@ + seq![line, line, line]);
        }
        self.code.len() - 2
    }

    /// Back-fill a forward jump: write the distance from just after the
    /// two operand bytes to the current end of the code, big-endian, into
    /// the two placeholder bytes at the patch site.  A distance that does
    /// not fit in 16 bits cannot be patched.
    pub fn patch_jump(&mut self, offset: usize)
        requires
            old(self).wf(),
            offset + 2 <= old(self).code@.len(),
            old(self).code@.len() - offset - 2 <= 0xFFFF,
        ensures
            final(self).wf(),
            final(self).lines@ == old(self).lines@,
            final(self).constants@ == old(self).constants@,
            final(self).code@.len() == old(self).code@.len(),
            two_byte_be(final(self).code@[offset as int], final(self).code@[offset + 1]) == final(self).code@.len()
                - offset - 2,
            forall|i: int|
                0 <= i < final(self).code@.len() && i != offset && i != offset + 1 ==> final(self).code@[i]
                    == old(self).code@[i],
    {
        let jump = self.code.len() - offset - 2;
        self.code.set(offset, (jump / 256) as u8);
        self.code.set(offset + 1, (jump % 256) as u8);
    }

    /// Append a loop opcode and a big-endian 16-bit backward distance that
    /// brings the instruction pointer, measured from just after the two
    /// operand bytes, back to `loop_start`.
    pub fn emit_loop(&mut self, loop_start: usize, line: usize)
        requires
            old(self).wf(),
            loop_start <= old(self).code@.len(),
            old(self).code@.len() + 3 - loop_start <= 0xFFFF,
        ensures
            final(self).wf(),
            final(self).constants@ == old(self).constants@,
            final(self).lines@ == old(self).lines@ + seq![line, line, line],
            final(self).code@.len() == old(self).code@.len() + 3,
            final(self).code@ == old(self).code@ + seq![
                spec_opcode_byte(OpCode::OpLoop),
                ((old(self).code@.len() + 3 - loop_start) / 256) as u8,
                ((old(self).code@.len() + 3 - loop_start) % 256) as u8,
            ],
            two_byte_be(
                final(self).code@[old(self).code@.len() as int + 1],
                final(self).code@[old(self).code@.len() as int + 2],
            ) == final(self).code@.len() - loop_start,
    {
        self.write(OpCode::OpLoop, line);
        let offset = self.code.len() - loop_start + 2;
        self.write_byte((offset / 256) as u8, line);
        self.write_byte((offset % 256) as u8, line);
        proof {
            assert(self.code@ =~= old(self).code@ + seq![
                spec_opcode_byte(OpCode::OpLoop),
                ((old(self).code@.len() + 3 - loop_start) / 256) as u8,
                ((old(self).code@.len() + 3 - loop_start) % 256) as u8,
            ]);
            assert(self.lines@ =~= old(self).lines@ + seq![line, line, line]);
        }
    }
}

} // verus!
