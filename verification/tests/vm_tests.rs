use rlox::chunk::{Chunk, OpCode};
use rlox::value::Value;
use rlox::vm::{InterpretResult, RuntimeErrorKind, VM};

#[test]
fn test_string_interning() {
    let mut vm = VM::new();

    let str1 = vm.intern_string(b"hello".to_vec());
    let str2 = vm.intern_string(b"hello".to_vec());
    let str3 = vm.intern_string(b"world".to_vec());

    assert_eq!(str1, str2);
    assert_eq!(str1.as_slice(), b"hello");
    assert_ne!(str1, str3);
    assert_eq!(str3.as_slice(), b"world");
}

#[test]
fn test_multiple_interning() {
    let mut vm = VM::new();

    for _ in 0..10 {
        vm.intern_string(b"test".to_vec());
    }

    let result = vm.intern_string(b"test".to_vec());
    assert_eq!(result.as_slice(), b"test");
}

/// A well-formed chunk runs to its return instruction without reading
/// outside the code: `1 + 2`, printed.
#[test]
fn test_well_formed_chunk_executes() {
    let mut chunk = Chunk::new();
    let one = chunk.add_constant(Value::number(1.0f64.to_bits()));
    chunk.write(OpCode::OpConstant, 1);
    chunk.write_byte(one as u8, 1);
    let two = chunk.add_constant(Value::number(2.0f64.to_bits()));
    chunk.write(OpCode::OpConstant, 1);
    chunk.write_byte(two as u8, 1);
    chunk.write(OpCode::OpAdd, 1);
    chunk.write(OpCode::OpPrint, 1);
    chunk.write(OpCode::OpReturn, 1);

    let mut vm = VM::new();
    let outcome = vm.interpret(chunk);
    assert!(matches!(outcome.result, InterpretResult::Success));
    assert!(outcome.fault.is_none());
    assert_eq!(outcome.output.len(), 1);
    assert_eq!(String::from_utf8(outcome.output[0].clone()).unwrap(), "3");
}

/// An ill-formed chunk (a constant index past the pool) halts with a
/// runtime error and no stack access beyond bounds.
#[test]
fn test_ill_formed_chunk_is_rejected() {
    let mut chunk = Chunk::new();
    chunk.write(OpCode::OpConstant, 1);
    chunk.write_byte(9, 1);
    chunk.write(OpCode::OpReturn, 1);

    let mut vm = VM::new();
    let outcome = vm.interpret(chunk);
    assert!(matches!(outcome.result, InterpretResult::RuntimeError));
    assert!(outcome.fault.is_none());
}

/// A chunk that runs off the end of its code without a return halts
/// gracefully.
#[test]
fn test_chunk_without_return_is_rejected() {
    let mut chunk = Chunk::new();
    chunk.write(OpCode::OpNil, 1);

    let mut vm = VM::new();
    let outcome = vm.interpret(chunk);
    assert!(matches!(outcome.result, InterpretResult::RuntimeError));
    assert!(outcome.fault.is_none());
}

/// The branch pattern the specification gives for conditionals: a
/// conditional jump over the then-branch, whose end jumps over the
/// else-branch, both patched through the chunk's helpers.
#[test]
fn test_forward_jumps_execute() {
    let mut chunk = Chunk::new();
    let one = chunk.add_constant(Value::number(1.0f64.to_bits()));
    let two = chunk.add_constant(Value::number(2.0f64.to_bits()));
    chunk.write(OpCode::OpFalse, 1);
    let to_else = chunk.emit_jump(OpCode::OpJumpIfFalse, 1);
    chunk.write(OpCode::OpPop, 1);
    chunk.write(OpCode::OpConstant, 1);
    chunk.write_byte(one as u8, 1);
    chunk.write(OpCode::OpPrint, 1);
    let to_end = chunk.emit_jump(OpCode::OpJump, 1);
    chunk.patch_jump(to_else);
    chunk.write(OpCode::OpPop, 1);
    chunk.write(OpCode::OpConstant, 1);
    chunk.write_byte(two as u8, 1);
    chunk.write(OpCode::OpPrint, 1);
    chunk.patch_jump(to_end);
    chunk.write(OpCode::OpReturn, 1);

    let mut vm = VM::new();
    let outcome = vm.interpret(chunk);
    assert!(matches!(outcome.result, InterpretResult::Success));
    assert!(outcome.fault.is_none());
    assert_eq!(outcome.output.len(), 1);
    assert_eq!(String::from_utf8(outcome.output[0].clone()).unwrap(), "2");
}

/// A backward-jump instruction is outside the supported dispatch: the
/// machine halts on it rather than running forever.
#[test]
fn test_loop_opcode_is_rejected() {
    let mut chunk = Chunk::new();
    chunk.write(OpCode::OpNil, 1);
    chunk.write(OpCode::OpPop, 1);
    chunk.emit_loop(0, 1);
    chunk.write(OpCode::OpReturn, 1);

    let mut vm = VM::new();
    let outcome = vm.interpret(chunk);
    assert!(matches!(outcome.result, InterpretResult::RuntimeError));
    assert!(outcome.fault.is_none());
}

#[test]
fn test_runtime_error_rendering() {
    let fault = rlox::vm::RuntimeFault {
        kind: RuntimeErrorKind::UndefinedVariable(b"y".to_vec()),
        line: 1,
    };
    let text = String::from_utf8(rlox::vm::render_runtime_error(&fault)).unwrap();
    assert_eq!(text, "Undefined variable 'y'.\n[line 1] in script");
}

#[test]
fn test_globals_survive_between_interpret_calls() {
    let mut vm = VM::new();
    let (chunk, diags) = rlox::compiler::compile(b"var a = 5;", &mut vm);
    assert!(diags.is_empty());
    let outcome = vm.interpret(chunk.unwrap());
    assert!(matches!(outcome.result, InterpretResult::Success));

    let (chunk2, diags2) = rlox::compiler::compile(b"print a;", &mut vm);
    assert!(diags2.is_empty());
    let outcome2 = vm.interpret(chunk2.unwrap());
    assert!(matches!(outcome2.result, InterpretResult::Success));
    assert_eq!(String::from_utf8(outcome2.output[0].clone()).unwrap(), "5");
}
