//! The disassembler: renders a chunk's instructions as text, and parses
//! opcode names back, losslessly over the instruction table.
use vstd::prelude::*;
use crate::chunk::{Chunk, OpCode, spec_opcode_of_byte, opcode_of_byte};
use crate::text::{ascii_bytes, bytes_equal, str_bytes, str_byte_vec, decimal_bytes, append_bytes};

verus! {

/// The printed name of an opcode.
pub open spec fn spec_opcode_name(op: OpCode) -> Seq<u8> {
    match op {
        OpCode::OpConstant => ascii_bytes("OP_CONSTANT"@),
        OpCode::OpNil => ascii_bytes("OP_NIL"@),
        OpCode::OpTrue => ascii_bytes("OP_TRUE"@),
        OpCode::OpFalse => ascii_bytes("OP_FALSE"@),
        OpCode::OpPop => ascii_bytes("OP_POP"@),
        OpCode::OpEqual => ascii_bytes("OP_EQUAL"@),
        OpCode::OpGreater => ascii_bytes("OP_GREATER"@),
        OpCode::OpLess => ascii_bytes("OP_LESS"@),
        OpCode::OpAdd => ascii_bytes("OP_ADD"@),
        OpCode::OpSubtract => ascii_bytes("OP_SUBTRACT"@),
        OpCode::OpMultiply => ascii_bytes("OP_MULTIPLY"@),
        OpCode::OpDivide => ascii_bytes("OP_DIVIDE"@),
        OpCode::OpNot => ascii_bytes("OP_NOT"@),
        OpCode::OpNegate => ascii_bytes("OP_NEGATE"@),
        OpCode::OpPrint => ascii_bytes("OP_PRINT"@),
        OpCode::OpDefineGlobal => ascii_bytes("OP_DEFINE_GLOBAL"@),
        OpCode::OpGetGlobal => ascii_bytes("OP_GET_GLOBAL"@),
        OpCode::OpSetGlobal => ascii_bytes("OP_SET_GLOBAL"@),
        OpCode::OpGetLocal => ascii_bytes("OP_GET_LOCAL"@),
        OpCode::OpSetLocal => ascii_bytes("OP_SET_LOCAL"@),
        OpCode::OpJumpIfFalse => ascii_bytes("OP_JUMP_IF_FALSE"@),
        OpCode::OpJump => ascii_bytes("OP_JUMP"@),
        OpCode::OpLoop => ascii_bytes("OP_LOOP"@),
        OpCode::OpReturn => ascii_bytes("OP_RETURN"@),
    }
}

/// The opcode a printed name denotes, if any.
pub open spec fn spec_opcode_of_name(name: Seq<u8>) -> Option<OpCode> {
    if name == ascii_bytes("OP_CONSTANT"@) {
        Some(OpCode::OpConstant)
    } else if name == ascii_bytes("OP_NIL"@) {
        Some(OpCode::OpNil)
    } else if name == ascii_bytes("OP_TRUE"@) {
        Some(OpCode::OpTrue)
    } else if name == ascii_bytes("OP_FALSE"@) {
        Some(OpCode::OpFalse)
    } else if name == ascii_bytes("OP_POP"@) {
        Some(OpCode::OpPop)
    } else if name == ascii_bytes("OP_EQUAL"@) {
        Some(OpCode::OpEqual)
    } else if name == ascii_bytes("OP_GREATER"@) {
        Some(OpCode::OpGreater)
    } else if name == ascii_bytes("OP_LESS"@) {
        Some(OpCode::OpLess)
    } else if name == ascii_bytes("OP_ADD"@) {
        Some(OpCode::OpAdd)
    } else if name == ascii_bytes("OP_SUBTRACT"@) {
        Some(OpCode::OpSubtract)
    } else if name == ascii_bytes("OP_MULTIPLY"@) {
        Some(OpCode::OpMultiply)
    } else if name == ascii_bytes("OP_DIVIDE"@) {
        Some(OpCode::OpDivide)
    } else if name == ascii_bytes("OP_NOT"@) {
        Some(OpCode::OpNot)
    } else if name == ascii_bytes("OP_NEGATE"@) {
        Some(OpCode::OpNegate)
    } else if name == ascii_bytes("OP_PRINT"@) {
        Some(OpCode::OpPrint)
    } else if name == ascii_bytes("OP_DEFINE_GLOBAL"@) {
        Some(OpCode::OpDefineGlobal)
    } else if name == ascii_bytes("OP_GET_GLOBAL"@) {
        Some(OpCode::OpGetGlobal)
    } else if name == ascii_bytes("OP_SET_GLOBAL"@) {
        Some(OpCode::OpSetGlobal)
    } else if name == ascii_bytes("OP_GET_LOCAL"@) {
        Some(OpCode::OpGetLocal)
    } else if name == ascii_bytes("OP_SET_LOCAL"@) {
        Some(OpCode::OpSetLocal)
    } else if name == ascii_bytes("OP_JUMP_IF_FALSE"@) {
        Some(OpCode::OpJumpIfFalse)
    } else if name == ascii_bytes("OP_JUMP"@) {
        Some(OpCode::OpJump)
    } else if name == ascii_bytes("OP_LOOP"@) {
        Some(OpCode::OpLoop)
    } else if name == ascii_bytes("OP_RETURN"@) {
        Some(OpCode::OpReturn)
    } else {
        None
    }
}

/// Printing an opcode's name and parsing it back yields the same opcode:
/// the disassembly's names are lossless over the instruction table.
pub proof fn lemma_opcode_name_round_trip()
    ensures
        forall|op: OpCode| spec_opcode_of_name(spec_opcode_name(op)) == Some(op),
{
    reveal_strlit("OP_CONSTANT");
    reveal_strlit("OP_NIL");
    reveal_strlit("OP_TRUE");
    reveal_strlit("OP_FALSE");
    reveal_strlit("OP_POP");
    reveal_strlit("OP_EQUAL");
    reveal_strlit("OP_GREATER");
    reveal_strlit("OP_LESS");
    reveal_strlit("OP_ADD");
    reveal_strlit("OP_SUBTRACT");
    reveal_strlit("OP_MULTIPLY");
    reveal_strlit("OP_DIVIDE");
    reveal_strlit("OP_NOT");
    reveal_strlit("OP_NEGATE");
    reveal_strlit("OP_PRINT");
    reveal_strlit("OP_DEFINE_GLOBAL");
    reveal_strlit("OP_GET_GLOBAL");
    reveal_strlit("OP_SET_GLOBAL");
    reveal_strlit("OP_GET_LOCAL");
    reveal_strlit("OP_SET_LOCAL");
    reveal_strlit("OP_JUMP_IF_FALSE");
    reveal_strlit("OP_JUMP");
    reveal_strlit("OP_LOOP");
    reveal_strlit("OP_RETURN");
    assert(ascii_bytes("OP_CONSTANT"@).len() == 11);
    assert(ascii_bytes("OP_NIL"@).len() == 6);
    assert(ascii_bytes("OP_TRUE"@).len() == 7);
    assert(ascii_bytes("OP_FALSE"@).len() == 8);
    assert(ascii_bytes("OP_POP"@).len() == 6);
    assert(ascii_bytes("OP_EQUAL"@).len() == 8);
    assert(ascii_bytes("OP_GREATER"@).len() == 10);
    assert(ascii_bytes("OP_LESS"@).len() == 7);
    assert(ascii_bytes("OP_ADD"@).len() == 6);
    assert(ascii_bytes("OP_SUBTRACT"@).len() == 11);
    assert(ascii_bytes("OP_MULTIPLY"@).len() == 11);
    assert(ascii_bytes("OP_DIVIDE"@).len() == 9);
    assert(ascii_bytes("OP_NOT"@).len() == 6);
    assert(ascii_bytes("OP_NEGATE"@).len() == 9);
    assert(ascii_bytes("OP_PRINT"@).len() == 8);
    assert(ascii_bytes("OP_DEFINE_GLOBAL"@).len() == 16);
    assert(ascii_bytes("OP_GET_GLOBAL"@).len() == 13);
    assert(ascii_bytes("OP_SET_GLOBAL"@).len() == 13);
    assert(ascii_bytes("OP_GET_LOCAL"@).len() == 12);
    assert(ascii_bytes("OP_SET_LOCAL"@).len() == 12);
    assert(ascii_bytes("OP_JUMP_IF_FALSE"@).len() == 16);
    assert(ascii_bytes("OP_JUMP"@).len() == 7);
    assert(ascii_bytes("OP_LOOP"@).len() == 7);
    assert(ascii_bytes("OP_RETURN"@).len() == 9);
    assert(ascii_bytes("OP_NIL"@)[3] != ascii_bytes("OP_POP"@)[3]);
    assert(ascii_bytes("OP_NIL"@)[3] != ascii_bytes("OP_ADD"@)[3]);
    assert(ascii_bytes("OP_NIL"@)[4] != ascii_bytes("OP_NOT"@)[4]);
    assert(ascii_bytes("OP_POP"@)[3] != ascii_bytes("OP_ADD"@)[3]);
    assert(ascii_bytes("OP_POP"@)[3] != ascii_bytes("OP_NOT"@)[3]);
    assert(ascii_bytes("OP_ADD"@)[3] != ascii_bytes("OP_NOT"@)[3]);
    assert(ascii_bytes("OP_TRUE"@)[3] != ascii_bytes("OP_LESS"@)[3]);
    assert(ascii_bytes("OP_TRUE"@)[3] != ascii_bytes("OP_JUMP"@)[3]);
    assert(ascii_bytes("OP_TRUE"@)[3] != ascii_bytes("OP_LOOP"@)[3]);
    assert(ascii_bytes("OP_LESS"@)[3] != ascii_bytes("OP_JUMP"@)[3]);
    assert(ascii_bytes("OP_LESS"@)[4] != ascii_bytes("OP_LOOP"@)[4]);
    assert(ascii_bytes("OP_JUMP"@)[3] != ascii_bytes("OP_LOOP"@)[3]);
    assert(ascii_bytes("OP_FALSE"@)[3] != ascii_bytes("OP_EQUAL"@)[3]);
    assert(ascii_bytes("OP_FALSE"@)[3] != ascii_bytes("OP_PRINT"@)[3]);
    assert(ascii_bytes("OP_EQUAL"@)[3] != ascii_bytes("OP_PRINT"@)[3]);
    assert(ascii_bytes("OP_DIVIDE"@)[3] != ascii_bytes("OP_NEGATE"@)[3]);
    assert(ascii_bytes("OP_DIVIDE"@)[3] != ascii_bytes("OP_RETURN"@)[3]);
    assert(ascii_bytes("OP_NEGATE"@)[3] != ascii_bytes("OP_RETURN"@)[3]);
    assert(ascii_bytes("OP_CONSTANT"@)[3] != ascii_bytes("OP_SUBTRACT"@)[3]);
    assert(ascii_bytes("OP_CONSTANT"@)[3] != ascii_bytes("OP_MULTIPLY"@)[3]);
    assert(ascii_bytes("OP_SUBTRACT"@)[3] != ascii_bytes("OP_MULTIPLY"@)[3]);
    assert(ascii_bytes("OP_DEFINE_GLOBAL"@)[3] != ascii_bytes("OP_JUMP_IF_FALSE"@)[3]);
    assert(ascii_bytes("OP_GET_GLOBAL"@)[3] != ascii_bytes("OP_SET_GLOBAL"@)[3]);
    assert(ascii_bytes("OP_GET_LOCAL"@)[3] != ascii_bytes("OP_SET_LOCAL"@)[3]);
    assert forall|op: OpCode| spec_opcode_of_name(spec_opcode_name(op)) == Some(op) by {
        match op {
            OpCode::OpConstant => {},
            OpCode::OpNil => {},
            OpCode::OpTrue => {},
            OpCode::OpFalse => {},
            OpCode::OpPop => {},
            OpCode::OpEqual => {},
            OpCode::OpGreater => {},
            OpCode::OpLess => {},
            OpCode::OpAdd => {},
            OpCode::OpSubtract => {},
            OpCode::OpMultiply => {},
            OpCode::OpDivide => {},
            OpCode::OpNot => {},
            OpCode::OpNegate => {},
            OpCode::OpPrint => {},
            OpCode::OpDefineGlobal => {},
            OpCode::OpGetGlobal => {},
            OpCode::OpSetGlobal => {},
            OpCode::OpGetLocal => {},
            OpCode::OpSetLocal => {},
            OpCode::OpJumpIfFalse => {},
            OpCode::OpJump => {},
            OpCode::OpLoop => {},
            OpCode::OpReturn => {},
        }
    }
}

/// The printed name of an opcode.
pub fn opcode_name(op: OpCode) -> (r: Vec<u8>)
    ensures
        r@ == spec_opcode_name(op),
{
    proof {
        reveal_strlit("OP_CONSTANT");
        reveal_strlit("OP_NIL");
        reveal_strlit("OP_TRUE");
        reveal_strlit("OP_FALSE");
        reveal_strlit("OP_POP");
        reveal_strlit("OP_EQUAL");
        reveal_strlit("OP_GREATER");
        reveal_strlit("OP_LESS");
        reveal_strlit("OP_ADD");
        reveal_strlit("OP_SUBTRACT");
        reveal_strlit("OP_MULTIPLY");
        reveal_strlit("OP_DIVIDE");
        reveal_strlit("OP_NOT");
        reveal_strlit("OP_NEGATE");
        reveal_strlit("OP_PRINT");
        reveal_strlit("OP_DEFINE_GLOBAL");
        reveal_strlit("OP_GET_GLOBAL");
        reveal_strlit("OP_SET_GLOBAL");
        reveal_strlit("OP_GET_LOCAL");
        reveal_strlit("OP_SET_LOCAL");
        reveal_strlit("OP_JUMP_IF_FALSE");
        reveal_strlit("OP_JUMP");
        reveal_strlit("OP_LOOP");
        reveal_strlit("OP_RETURN");
    }
    match op {
        OpCode::OpConstant => str_byte_vec("OP_CONSTANT"),
        OpCode::OpNil => str_byte_vec("OP_NIL"),
        OpCode::OpTrue => str_byte_vec("OP_TRUE"),
        OpCode::OpFalse => str_byte_vec("OP_FALSE"),
        OpCode::OpPop => str_byte_vec("OP_POP"),
        OpCode::OpEqual => str_byte_vec("OP_EQUAL"),
        OpCode::OpGreater => str_byte_vec("OP_GREATER"),
        OpCode::OpLess => str_byte_vec("OP_LESS"),
        OpCode::OpAdd => str_byte_vec("OP_ADD"),
        OpCode::OpSubtract => str_byte_vec("OP_SUBTRACT"),
        OpCode::OpMultiply => str_byte_vec("OP_MULTIPLY"),
        OpCode::OpDivide => str_byte_vec("OP_DIVIDE"),
        OpCode::OpNot => str_byte_vec("OP_NOT"),
        OpCode::OpNegate => str_byte_vec("OP_NEGATE"),
        OpCode::OpPrint => str_byte_vec("OP_PRINT"),
        OpCode::OpDefineGlobal => str_byte_vec("OP_DEFINE_GLOBAL"),
        OpCode::OpGetGlobal => str_byte_vec("OP_GET_GLOBAL"),
        OpCode::OpSetGlobal => str_byte_vec("OP_SET_GLOBAL"),
        OpCode::OpGetLocal => str_byte_vec("OP_GET_LOCAL"),
        OpCode::OpSetLocal => str_byte_vec("OP_SET_LOCAL"),
        OpCode::OpJumpIfFalse => str_byte_vec("OP_JUMP_IF_FALSE"),
        OpCode::OpJump => str_byte_vec("OP_JUMP"),
        OpCode::OpLoop => str_byte_vec("OP_LOOP"),
        OpCode::OpReturn => str_byte_vec("OP_RETURN"),
    }
}

/// Parse an opcode name back to the opcode.
pub fn opcode_from_name(name: &[u8]) -> (r: Option<OpCode>)
    ensures
        r == spec_opcode_of_name(name@),
{
    proof {
        reveal_strlit("OP_CONSTANT");
        reveal_strlit("OP_NIL");
        reveal_strlit("OP_TRUE");
        reveal_strlit("OP_FALSE");
        reveal_strlit("OP_POP");
        reveal_strlit("OP_EQUAL");
        reveal_strlit("OP_GREATER");
        reveal_strlit("OP_LESS");
        reveal_strlit("OP_ADD");
        reveal_strlit("OP_SUBTRACT");
        reveal_strlit("OP_MULTIPLY");
        reveal_strlit("OP_DIVIDE");
        reveal_strlit("OP_NOT");
        reveal_strlit("OP_NEGATE");
        reveal_strlit("OP_PRINT");
        reveal_strlit("OP_DEFINE_GLOBAL");
        reveal_strlit("OP_GET_GLOBAL");
        reveal_strlit("OP_SET_GLOBAL");
        reveal_strlit("OP_GET_LOCAL");
        reveal_strlit("OP_SET_LOCAL");
        reveal_strlit("OP_JUMP_IF_FALSE");
        reveal_strlit("OP_JUMP");
        reveal_strlit("OP_LOOP");
        reveal_strlit("OP_RETURN");
    }
    if bytes_equal(name, str_bytes("OP_CONSTANT")) {
        Some(OpCode::OpConstant)
    } else if bytes_equal(name, str_bytes("OP_NIL")) {
        Some(OpCode::OpNil)
    } else if bytes_equal(name, str_bytes("OP_TRUE")) {
        Some(OpCode::OpTrue)
    } else if bytes_equal(name, str_bytes("OP_FALSE")) {
        Some(OpCode::OpFalse)
    } else if bytes_equal(name, str_bytes("OP_POP")) {
        Some(OpCode::OpPop)
    } else if bytes_equal(name, str_bytes("OP_EQUAL")) {
        Some(OpCode::OpEqual)
    } else if bytes_equal(name, str_bytes("OP_GREATER")) {
        Some(OpCode::OpGreater)
    } else if bytes_equal(name, str_bytes("OP_LESS")) {
        Some(OpCode::OpLess)
    } else if bytes_equal(name, str_bytes("OP_ADD")) {
        Some(OpCode::OpAdd)
    } else if bytes_equal(name, str_bytes("OP_SUBTRACT")) {
        Some(OpCode::OpSubtract)
    } else if bytes_equal(name, str_bytes("OP_MULTIPLY")) {
        Some(OpCode::OpMultiply)
    } else if bytes_equal(name, str_bytes("OP_DIVIDE")) {
        Some(OpCode::OpDivide)
    } else if bytes_equal(name, str_bytes("OP_NOT")) {
        Some(OpCode::OpNot)
    } else if bytes_equal(name, str_bytes("OP_NEGATE")) {
        Some(OpCode::OpNegate)
    } else if bytes_equal(name, str_bytes("OP_PRINT")) {
        Some(OpCode::OpPrint)
    } else if bytes_equal(name, str_bytes("OP_DEFINE_GLOBAL")) {
        Some(OpCode::OpDefineGlobal)
    } else if bytes_equal(name, str_bytes("OP_GET_GLOBAL")) {
        Some(OpCode::OpGetGlobal)
    } else if bytes_equal(name, str_bytes("OP_SET_GLOBAL")) {
        Some(OpCode::OpSetGlobal)
    } else if bytes_equal(name, str_bytes("OP_GET_LOCAL")) {
        Some(OpCode::OpGetLocal)
    } else if bytes_equal(name, str_bytes("OP_SET_LOCAL")) {
        Some(OpCode::OpSetLocal)
    } else if bytes_equal(name, str_bytes("OP_JUMP_IF_FALSE")) {
        Some(OpCode::OpJumpIfFalse)
    } else if bytes_equal(name, str_bytes("OP_JUMP")) {
        Some(OpCode::OpJump)
    } else if bytes_equal(name, str_bytes("OP_LOOP")) {
        Some(OpCode::OpLoop)
    } else if bytes_equal(name, str_bytes("OP_RETURN")) {
        Some(OpCode::OpReturn)
    } else {
        None
    }
}

/// How many operand bytes follow an opcode.
pub open spec fn spec_operand_width(op: OpCode) -> int {
    match op {
        OpCode::OpConstant => 1,
        OpCode::OpDefineGlobal => 1,
        OpCode::OpGetGlobal => 1,
        OpCode::OpSetGlobal => 1,
        OpCode::OpGetLocal => 1,
        OpCode::OpSetLocal => 1,
        OpCode::OpJumpIfFalse => 2,
        OpCode::OpJump => 2,
        OpCode::OpLoop => 2,
        _ => 0,
    }
}

/// Render one instruction: its offset in decimal, the opcode name, and
/// its operand bytes in decimal; an unknown opcode byte is rendered as
/// such.  Returns the text and the offset of the next instruction.  An
/// instruction whose operand bytes run past the end of the code is
/// rendered without them, ending the walk.
pub fn disassemble_instruction(chunk: &Chunk, offset: usize) -> (r: (Vec<u8>, usize))
    requires
        offset < chunk.code@.len(),
    ensures
        offset < r.1 <= chunk.code@.len(),
        spec_opcode_of_byte(chunk.code@[offset as int]) matches Some(op) ==> r.1 <= offset + 1
            + spec_operand_width(op),
        spec_opcode_of_byte(chunk.code@[offset as int]) is None ==> r.1 == offset + 1,
        spec_opcode_of_byte(chunk.code@[offset as int]) is Some && offset + 1 + spec_operand_width(
            spec_opcode_of_byte(chunk.code@[offset as int])->0,
        ) <= chunk.code@.len() ==> r.1 == offset + 1 + spec_operand_width(
            spec_opcode_of_byte(chunk.code@[offset as int])->0,
        ),
{
    let n = chunk.code.len();
    let mut text = decimal_bytes(offset);
    text.push(0x20);
    let byte = chunk.code[offset];
    match opcode_of_byte(byte) {
        None => {
            proof {
                reveal_strlit("Unknown opcode ");
            }
            let mut line = decimal_bytes(offset);
            line.push(0x20);
            append_bytes(&mut line, str_bytes("Unknown opcode "));
            let b = decimal_bytes(byte as usize);
            append_bytes(&mut line, b.as_slice());
            (line, offset + 1)
        },
        Some(op) => {
            let name = opcode_name(op);
            append_bytes(&mut text, name.as_slice());
            let width = match op {
                OpCode::OpConstant => 1,
                OpCode::OpDefineGlobal => 1,
                OpCode::OpGetGlobal => 1,
                OpCode::OpSetGlobal => 1,
                OpCode::OpGetLocal => 1,
                OpCode::OpSetLocal => 1,
                OpCode::OpJumpIfFalse => 2,
                OpCode::OpJump => 2,
                OpCode::OpLoop => 2,
                _ => 0,
            };
            proof {
                assert(width == spec_operand_width(op));
            }
            let mut next = offset + 1;
            let mut consumed: usize = 0;
            while consumed < width
                invariant
                    n == chunk.code@.len(),
                    offset < n,
                    next == offset + 1 + consumed,
                    next <= n,
                    consumed <= width,
                    width <= 2,
                    width == spec_operand_width(op),
                    spec_opcode_of_byte(chunk.code@[offset as int]) == Some(op),
                decreases width - consumed,
            {
                if next >= n {
                    return (text, n);
                }
                text.push(0x20);
                let operand = decimal_bytes(chunk.code[next] as usize);
                append_bytes(&mut text, operand.as_slice());
                next = next + 1;
                consumed = consumed + 1;
            }
            (text, next)
        },
    }
}

/// Render a whole chunk: a header line with the given name, then one
/// line per instruction, each ending in a newline.
pub fn disassemble_chunk(chunk: &Chunk, name: &[u8]) -> (r: Vec<u8>)
{
    proof {
        reveal_strlit("== ");
        reveal_strlit(" ==");
    }
    let mut out = str_byte_vec("== ");
    append_bytes(&mut out, name);
    append_bytes(&mut out, str_bytes(" =="));
    out.push(0x0A);
    let mut offset: usize = 0;
    while offset < chunk.code.len()
        invariant
            offset <= chunk.code@.len(),
        decreases chunk.code@.len() - offset,
    {
        let (line, next) = disassemble_instruction(chunk, offset);
        append_bytes(&mut out, line.as_slice());
        out.push(0x0A);
        offset = next;
    }
    out
}

} // verus!
