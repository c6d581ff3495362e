use rlox::chunk::{opcode_byte, opcode_of_byte, Chunk, OpCode};
use rlox::debug::{disassemble_chunk, disassemble_instruction, opcode_from_name, opcode_name};
use rlox::value::Value;

/// The line map stays aligned byte for byte with the code.
#[test]
fn code_and_lines_stay_aligned() {
    let mut chunk = Chunk::new();
    chunk.write(OpCode::OpNil, 1);
    chunk.write_byte(7, 1);
    let idx = chunk.add_constant(Value::nil());
    chunk.write(OpCode::OpConstant, 2);
    chunk.write_byte(idx as u8, 2);
    let _ = chunk.emit_jump(OpCode::OpJump, 3);
    chunk.emit_loop(0, 4);
    chunk.write(OpCode::OpReturn, 5);
    assert_eq!(chunk.code.len(), chunk.lines.len());
    assert_eq!(chunk.lines, vec![1, 1, 2, 2, 3, 3, 3, 4, 4, 4, 5]);
}

/// After an `emit_jump`/`patch_jump` pair the patched 16-bit value is the
/// forward distance from just after the operand bytes to the emit point.
#[test]
fn patch_jump_encodes_forward_distance() {
    let mut chunk = Chunk::new();
    let site = chunk.emit_jump(OpCode::OpJumpIfFalse, 1);
    assert_eq!(site, 1);
    assert_eq!(chunk.code[1], 0xFF);
    assert_eq!(chunk.code[2], 0xFF);
    chunk.write(OpCode::OpPop, 1);
    chunk.write(OpCode::OpNil, 1);
    chunk.write(OpCode::OpNil, 1);
    chunk.patch_jump(site);
    let jump = ((chunk.code[site] as usize) << 8) | chunk.code[site + 1] as usize;
    assert_eq!(jump, chunk.code.len() - site - 2);
    assert_eq!(jump, 3);
}

#[test]
fn emit_loop_encodes_backward_distance() {
    let mut chunk = Chunk::new();
    chunk.write(OpCode::OpNil, 1);
    let loop_start = chunk.code.len();
    chunk.write(OpCode::OpPop, 1);
    chunk.emit_loop(loop_start, 1);
    let n = chunk.code.len();
    let offset = ((chunk.code[n - 2] as usize) << 8) | chunk.code[n - 1] as usize;
    // Subtracting the offset from the position just after the operand
    // bytes lands back on loop_start.
    assert_eq!(n - offset, loop_start);
}

#[test]
fn opcode_bytes_round_trip() {
    let all = [
        OpCode::OpConstant,
        OpCode::OpNil,
        OpCode::OpTrue,
        OpCode::OpFalse,
        OpCode::OpPop,
        OpCode::OpEqual,
        OpCode::OpGreater,
        OpCode::OpLess,
        OpCode::OpAdd,
        OpCode::OpSubtract,
        OpCode::OpMultiply,
        OpCode::OpDivide,
        OpCode::OpNot,
        OpCode::OpNegate,
        OpCode::OpPrint,
        OpCode::OpDefineGlobal,
        OpCode::OpGetGlobal,
        OpCode::OpSetGlobal,
        OpCode::OpGetLocal,
        OpCode::OpSetLocal,
        OpCode::OpJumpIfFalse,
        OpCode::OpJump,
        OpCode::OpLoop,
        OpCode::OpReturn,
    ];
    for (i, op) in all.iter().enumerate() {
        let b = opcode_byte(*op);
        assert_eq!(b as usize, i);
        assert_eq!(opcode_of_byte(b), Some(*op));
    }
    assert_eq!(opcode_of_byte(24), None);
    assert_eq!(opcode_of_byte(255), None);
}

/// Disassembling opcode names and re-parsing them is lossless over the
/// whole instruction table.
#[test]
fn opcode_names_round_trip() {
    let all = [
        OpCode::OpConstant,
        OpCode::OpNil,
        OpCode::OpTrue,
        OpCode::OpFalse,
        OpCode::OpPop,
        OpCode::OpEqual,
        OpCode::OpGreater,
        OpCode::OpLess,
        OpCode::OpAdd,
        OpCode::OpSubtract,
        OpCode::OpMultiply,
        OpCode::OpDivide,
        OpCode::OpNot,
        OpCode::OpNegate,
        OpCode::OpPrint,
        OpCode::OpDefineGlobal,
        OpCode::OpGetGlobal,
        OpCode::OpSetGlobal,
        OpCode::OpGetLocal,
        OpCode::OpSetLocal,
        OpCode::OpJumpIfFalse,
        OpCode::OpJump,
        OpCode::OpLoop,
        OpCode::OpReturn,
    ];
    for op in all {
        let name = opcode_name(op);
        assert_eq!(opcode_from_name(name.as_slice()), Some(op));
    }
    assert_eq!(opcode_from_name(b"OP_NOPE"), None);
}

#[test]
fn disassembly_renders_names_and_operands() {
    let mut chunk = Chunk::new();
    let idx = chunk.add_constant(Value::number(7.0f64.to_bits()));
    chunk.write(OpCode::OpConstant, 1);
    chunk.write_byte(idx as u8, 1);
    chunk.write(OpCode::OpPrint, 1);
    chunk.write(OpCode::OpReturn, 1);

    let (line0, next0) = disassemble_instruction(&chunk, 0);
    assert_eq!(String::from_utf8(line0).unwrap(), "0 OP_CONSTANT 0");
    assert_eq!(next0, 2);
    let (line1, next1) = disassemble_instruction(&chunk, 2);
    assert_eq!(String::from_utf8(line1).unwrap(), "2 OP_PRINT");
    assert_eq!(next1, 3);

    let text = String::from_utf8(disassemble_chunk(&chunk, b"test")).unwrap();
    assert_eq!(text, "== test ==\n0 OP_CONSTANT 0\n2 OP_PRINT\n3 OP_RETURN\n");
}
