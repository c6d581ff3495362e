//! The stack machine: it owns the global-variable table, the interned
//! string set, the value stack and the instruction pointer, and executes
//! one chunk per `interpret` call, collecting printed output.
use vstd::prelude::*;
use crate::chunk::{Chunk, OpCode, opcode_of_byte, spec_opcode_of_byte, two_byte_be};
use crate::table::Table;
use crate::text::{ascii_bytes, spec_decimal, append_bytes, str_bytes, decimal_bytes};
use crate::value::{AbsValue, Value, value_text, values_equal};

verus! {

/// A chunk is well formed from position `pc` at stack height `h` when
/// the instruction there is complete and supported, its operands are in
/// range — constant indices within the pool, global names naming string
/// constants, local slots below the stack height, jump targets inside
/// the code — the stack is deep enough for it, and the code it can reach
/// is well formed at the height it leaves, up to a return instruction,
/// which is reached with the stack holding none of the chunk's own
/// values (height zero: the stack is left as the chunk found it).
/// Executing a well-formed chunk never reads outside the code, the
/// constant pool or the stack before returning.  A backward jump is not
/// well formed: execution of the machine below is proved to terminate
/// because the instruction pointer only moves forward, and a loop
/// instruction would allow a chunk to run forever; the compiler, whose
/// statement grammar has no loops, never emits one.
pub open spec fn chunk_ok(code: Seq<u8>, constants: Seq<Value>, pc: int, h: int) -> bool
    decreases code.len() - pc,
{
    0 <= pc < code.len() && match spec_opcode_of_byte(code[pc]) {
        Some(op) => match op {
            OpCode::OpReturn => h == 0,
            OpCode::OpConstant => pc + 1 < code.len() && (code[pc + 1] as int) < constants.len()
                && chunk_ok(code, constants, pc + 2, h + 1),
            OpCode::OpNil => chunk_ok(code, constants, pc + 1, h + 1),
            OpCode::OpTrue => chunk_ok(code, constants, pc + 1, h + 1),
            OpCode::OpFalse => chunk_ok(code, constants, pc + 1, h + 1),
            OpCode::OpPop => h >= 1 && chunk_ok(code, constants, pc + 1, h - 1),
            OpCode::OpEqual => h >= 2 && chunk_ok(code, constants, pc + 1, h - 1),
            OpCode::OpGreater => h >= 2 && chunk_ok(code, constants, pc + 1, h - 1),
            OpCode::OpLess => h >= 2 && chunk_ok(code, constants, pc + 1, h - 1),
            OpCode::OpAdd => h >= 2 && chunk_ok(code, constants, pc + 1, h - 1),
            OpCode::OpSubtract => h >= 2 && chunk_ok(code, constants, pc + 1, h - 1),
            OpCode::OpMultiply => h >= 2 && chunk_ok(code, constants, pc + 1, h - 1),
            OpCode::OpDivide => h >= 2 && chunk_ok(code, constants, pc + 1, h - 1),
            OpCode::OpNot => h >= 1 && chunk_ok(code, constants, pc + 1, h),
            OpCode::OpNegate => h >= 1 && chunk_ok(code, constants, pc + 1, h),
            OpCode::OpPrint => h >= 1 && chunk_ok(code, constants, pc + 1, h - 1),
            OpCode::OpDefineGlobal => pc + 1 < code.len() && (code[pc + 1] as int)
                < constants.len() && constants[code[pc + 1] as int]@ is Str && h >= 1 && chunk_ok(
                code,
                constants,
                pc + 2,
                h - 1,
            ),
            OpCode::OpGetGlobal => pc + 1 < code.len() && (code[pc + 1] as int) < constants.len()
                && constants[code[pc + 1] as int]@ is Str && chunk_ok(
                code,
                constants,
                pc + 2,
                h + 1,
            ),
            OpCode::OpSetGlobal => pc + 1 < code.len() && (code[pc + 1] as int) < constants.len()
                && constants[code[pc + 1] as int]@ is Str && h >= 1 && chunk_ok(
                code,
                constants,
                pc + 2,
                h,
            ),
            OpCode::OpGetLocal => pc + 1 < code.len() && (code[pc + 1] as int) < h && chunk_ok(
                code,
                constants,
                pc + 2,
                h + 1,
            ),
            OpCode::OpSetLocal => pc + 1 < code.len() && (code[pc + 1] as int) < h && h >= 1
                && chunk_ok(code, constants, pc + 2, h),
            OpCode::OpJumpIfFalse => pc + 2 < code.len() && h >= 1 && chunk_ok(
                code,
                constants,
                pc + 3,
                h,
            ) && pc + 3 + two_byte_be(code[pc + 1], code[pc + 2]) <= code.len() && chunk_ok(
                code,
                constants,
                pc + 3 + two_byte_be(code[pc + 1], code[pc + 2]),
                h,
            ),
            OpCode::OpJump => pc + 2 < code.len() && pc + 3 + two_byte_be(
                code[pc + 1],
                code[pc + 2],
            ) <= code.len() && chunk_ok(
                code,
                constants,
                pc + 3 + two_byte_be(code[pc + 1], code[pc + 2]),
                h,
            ),
            OpCode::OpLoop => false,
        },
        None => false,
    }
}

/// The byte string is held by the chunk's constant pool as a string
/// constant: the only names the chunk's global instructions can use.
pub open spec fn chunk_names(c: Chunk, k: Seq<u8>) -> bool {
    exists|i: int| 0 <= i < c.constants@.len() && c.constants@[i]@ == AbsValue::Str(k)
}

/// The globals table has changed only at keys the chunk names: any other
/// global is still present, or absent, with its value untouched.
pub open spec fn globals_frame(
    c: Chunk,
    before: Map<Seq<u8>, AbsValue>,
    after: Map<Seq<u8>, AbsValue>,
) -> bool {
    forall|k: Seq<u8>|
        !chunk_names(c, k) ==> (#[trigger] after.contains_key(k)) == before.contains_key(k) && (
        before.contains_key(k) ==> after[k] == before[k])
}

proof fn lemma_globals_frame_insert(
    c: Chunk,
    g0: Map<Seq<u8>, AbsValue>,
    cur: Map<Seq<u8>, AbsValue>,
    name: Seq<u8>,
    v: AbsValue,
)
    requires
        globals_frame(c, g0, cur),
        chunk_names(c, name),
    ensures
        globals_frame(c, g0, cur.insert(name, v)),
{
}

proof fn lemma_globals_frame_remove(
    c: Chunk,
    g0: Map<Seq<u8>, AbsValue>,
    cur: Map<Seq<u8>, AbsValue>,
    name: Seq<u8>,
)
    requires
        globals_frame(c, g0, cur),
        chunk_names(c, name),
    ensures
        globals_frame(c, g0, cur.remove(name)),
{
}

/// Straight-line evaluation of the static stack effect of the code
/// window `[pc, end)`: the height a stack of height `h` has after the
/// window, or `None` when some instruction in it is incomplete,
/// unsupported, out of range, or too deep for the stack.  A return
/// instruction ends a chunk, not a window, so it has no effect here.
pub open spec fn seg_run(code: Seq<u8>, constants: Seq<Value>, pc: int, end: int, h: int) -> Option<
    int,
>
    decreases end - pc,
{
    if pc == end {
        Some(h)
    } else if !(0 <= pc < end && end <= code.len()) {
        None
    } else {
        match spec_opcode_of_byte(code[pc]) {
            Some(op) => match op {
                OpCode::OpReturn => None,
                OpCode::OpConstant => if pc + 1 < end && (code[pc + 1] as int) < constants.len() {
                    seg_run(code, constants, pc + 2, end, h + 1)
                } else {
                    None
                },
                OpCode::OpNil => seg_run(code, constants, pc + 1, end, h + 1),
                OpCode::OpTrue => seg_run(code, constants, pc + 1, end, h + 1),
                OpCode::OpFalse => seg_run(code, constants, pc + 1, end, h + 1),
                OpCode::OpPop => if h >= 1 {
                    seg_run(code, constants, pc + 1, end, h - 1)
                } else {
                    None
                },
                OpCode::OpEqual => if h >= 2 {
                    seg_run(code, constants, pc + 1, end, h - 1)
                } else {
                    None
                },
                OpCode::OpGreater => if h >= 2 {
                    seg_run(code, constants, pc + 1, end, h - 1)
                } else {
                    None
                },
                OpCode::OpLess => if h >= 2 {
                    seg_run(code, constants, pc + 1, end, h - 1)
                } else {
                    None
                },
                OpCode::OpAdd => if h >= 2 {
                    seg_run(code, constants, pc + 1, end, h - 1)
                } else {
                    None
                },
                OpCode::OpSubtract => if h >= 2 {
                    seg_run(code, constants, pc + 1, end, h - 1)
                } else {
                    None
                },
                OpCode::OpMultiply => if h >= 2 {
                    seg_run(code, constants, pc + 1, end, h - 1)
                } else {
                    None
                },
                OpCode::OpDivide => if h >= 2 {
                    seg_run(code, constants, pc + 1, end, h - 1)
                } else {
                    None
                },
                OpCode::OpNot => if h >= 1 {
                    seg_run(code, constants, pc + 1, end, h)
                } else {
                    None
                },
                OpCode::OpNegate => if h >= 1 {
                    seg_run(code, constants, pc + 1, end, h)
                } else {
                    None
                },
                OpCode::OpPrint => if h >= 1 {
                    seg_run(code, constants, pc + 1, end, h - 1)
                } else {
                    None
                },
                OpCode::OpDefineGlobal => if pc + 1 < end && (code[pc + 1] as int)
                    < constants.len() && constants[code[pc + 1] as int]@ is Str && h >= 1 {
                    seg_run(code, constants, pc + 2, end, h - 1)
                } else {
                    None
                },
                OpCode::OpGetGlobal => if pc + 1 < end && (code[pc + 1] as int) < constants.len()
                    && constants[code[pc + 1] as int]@ is Str {
                    seg_run(code, constants, pc + 2, end, h + 1)
                } else {
                    None
                },
                OpCode::OpSetGlobal => if pc + 1 < end && (code[pc + 1] as int) < constants.len()
                    && constants[code[pc + 1] as int]@ is Str && h >= 1 {
                    seg_run(code, constants, pc + 2, end, h)
                } else {
                    None
                },
                OpCode::OpGetLocal => if pc + 1 < end && (code[pc + 1] as int) < h {
                    seg_run(code, constants, pc + 2, end, h + 1)
                } else {
                    None
                },
                OpCode::OpSetLocal => if pc + 1 < end && (code[pc + 1] as int) < h && h >= 1 {
                    seg_run(code, constants, pc + 2, end, h)
                } else {
                    None
                },
                OpCode::OpJumpIfFalse => None,
                OpCode::OpJump => None,
                OpCode::OpLoop => None,
            },
            None => None,
        }
    }
}

/// A single instruction without operand bytes evaluates as one window
/// step: a push, a drop, a binary fold, or an in-place change.
pub proof fn lemma_seg_one(
    code: Seq<u8>,
    constants: Seq<Value>,
    pc: int,
    h: int,
    op: OpCode,
    h2: int,
)
    requires
        0 <= pc,
        pc + 1 <= code.len(),
        spec_opcode_of_byte(code[pc]) == Some(op),
        match op {
            OpCode::OpNil => h2 == h + 1,
            OpCode::OpTrue => h2 == h + 1,
            OpCode::OpFalse => h2 == h + 1,
            OpCode::OpPop => h >= 1 && h2 == h - 1,
            OpCode::OpPrint => h >= 1 && h2 == h - 1,
            OpCode::OpEqual => h >= 2 && h2 == h - 1,
            OpCode::OpGreater => h >= 2 && h2 == h - 1,
            OpCode::OpLess => h >= 2 && h2 == h - 1,
            OpCode::OpAdd => h >= 2 && h2 == h - 1,
            OpCode::OpSubtract => h >= 2 && h2 == h - 1,
            OpCode::OpMultiply => h >= 2 && h2 == h - 1,
            OpCode::OpDivide => h >= 2 && h2 == h - 1,
            OpCode::OpNot => h >= 1 && h2 == h,
            OpCode::OpNegate => h >= 1 && h2 == h,
            _ => false,
        },
    ensures
        seg_run(code, constants, pc, pc + 1, h) == Some(h2),
{
    assert(seg_run(code, constants, pc + 1, pc + 1, h2) == Some(h2));
}

/// Adjacent code windows compose: the second window continues at the
/// height the first one reaches.
pub proof fn lemma_seg_chain(
    code: Seq<u8>,
    constants: Seq<Value>,
    a: int,
    b: int,
    c: int,
    h: int,
    h2: int,
)
    requires
        seg_run(code, constants, a, b, h) == Some(h2),
        a <= b <= c,
    ensures
        seg_run(code, constants, a, c, h) == seg_run(code, constants, b, c, h2),
    decreases b - a,
{
    if a == b {
    } else {
        reveal_with_fuel(seg_run, 2);
        match spec_opcode_of_byte(code[a]) {
            Some(op) => match op {
                OpCode::OpConstant | OpCode::OpDefineGlobal | OpCode::OpGetGlobal
                    | OpCode::OpSetGlobal | OpCode::OpGetLocal | OpCode::OpSetLocal => {
                    let hm = match op {
                        OpCode::OpConstant => h + 1,
                        OpCode::OpDefineGlobal => h - 1,
                        OpCode::OpGetGlobal => h + 1,
                        OpCode::OpSetGlobal => h,
                        OpCode::OpGetLocal => h + 1,
                        _ => h,
                    };
                    lemma_seg_chain(code, constants, a + 2, b, c, hm, h2);
                },
                _ => {
                    let hm = match op {
                        OpCode::OpNil | OpCode::OpTrue | OpCode::OpFalse => h + 1,
                        OpCode::OpNot | OpCode::OpNegate => h,
                        _ => h - 1,
                    };
                    lemma_seg_chain(code, constants, a + 1, b, c, hm, h2);
                },
            },
            None => {},
        }
    }
}

/// Appending code and constants does not change how an already emitted
/// window evaluates, when it evaluated at all.
pub proof fn lemma_seg_extend(
    code: Seq<u8>,
    constants: Seq<Value>,
    code2: Seq<u8>,
    constants2: Seq<Value>,
    a: int,
    b: int,
    h: int,
)
    requires
        seg_run(code, constants, a, b, h) is Some,
        b <= code.len(),
        code.len() <= code2.len(),
        forall|i: int| 0 <= i < code.len() ==> code2[i] == code[i],
        constants.len() <= constants2.len(),
        forall|i: int| 0 <= i < constants.len() ==> constants2[i] == constants[i],
    ensures
        seg_run(code2, constants2, a, b, h) == seg_run(code, constants, a, b, h),
    decreases b - a,
{
    if a == b {
    } else {
        match spec_opcode_of_byte(code[a]) {
            Some(op) => match op {
                OpCode::OpConstant | OpCode::OpDefineGlobal | OpCode::OpGetGlobal
                    | OpCode::OpSetGlobal | OpCode::OpGetLocal | OpCode::OpSetLocal => {
                    let hm = match op {
                        OpCode::OpConstant => h + 1,
                        OpCode::OpDefineGlobal => h - 1,
                        OpCode::OpGetGlobal => h + 1,
                        OpCode::OpSetGlobal => h,
                        OpCode::OpGetLocal => h + 1,
                        _ => h,
                    };
                    lemma_seg_extend(code, constants, code2, constants2, a + 2, b, hm);
                },
                _ => {
                    let hm = match op {
                        OpCode::OpNil | OpCode::OpTrue | OpCode::OpFalse => h + 1,
                        OpCode::OpNot | OpCode::OpNegate => h,
                        _ => h - 1,
                    };
                    lemma_seg_extend(code, constants, code2, constants2, a + 1, b, hm);
                },
            },
            None => {},
        }
    }
}

/// A chunk whose last byte is a return instruction and whose body up to
/// it evaluates as a straight-line window ending at height zero is well
/// formed.
pub proof fn lemma_seg_chunk_ok(code: Seq<u8>, constants: Seq<Value>, pc: int, h: int)
    requires
        code.len() >= 1,
        code[code.len() - 1] == crate::chunk::spec_opcode_byte(OpCode::OpReturn),
        seg_run(code, constants, pc, code.len() - 1, h) == Some(0int),
    ensures
        chunk_ok(code, constants, pc, h),
    decreases code.len() - pc,
{
    let end = code.len() - 1;
    if pc == end {
    } else {
        match spec_opcode_of_byte(code[pc]) {
            Some(op) => match op {
                OpCode::OpConstant | OpCode::OpDefineGlobal | OpCode::OpGetGlobal
                    | OpCode::OpSetGlobal | OpCode::OpGetLocal | OpCode::OpSetLocal => {
                    let hm = match op {
                        OpCode::OpConstant => h + 1,
                        OpCode::OpDefineGlobal => h - 1,
                        OpCode::OpGetGlobal => h + 1,
                        OpCode::OpSetGlobal => h,
                        OpCode::OpGetLocal => h + 1,
                        _ => h,
                    };
                    lemma_seg_chunk_ok(code, constants, pc + 2, hm);
                },
                _ => {
                    let hm = match op {
                        OpCode::OpNil | OpCode::OpTrue | OpCode::OpFalse => h + 1,
                        OpCode::OpNot | OpCode::OpNegate => h,
                        _ => h - 1,
                    };
                    lemma_seg_chunk_ok(code, constants, pc + 1, hm);
                },
            },
            None => {},
        }
    }
}

/// Spec-level model of a runtime error's reason.
pub enum AbsFault {
    OperandMustBeNumber,
    OperandsMustBeNumbers,
    OperandsMustBeNumbersOrStrings,
    UndefinedVariable(Seq<u8>),
}

/// The stack as a sequence of value models.
pub open spec fn stack_view(s: Seq<Value>) -> Seq<AbsValue> {
    s.map_values(|v: Value| v@)
}

/// The printed lines as byte sequences.
pub open spec fn output_view(o: Seq<Vec<u8>>) -> Seq<Seq<u8>> {
    o.map_values(|l: Vec<u8>| l@)
}

/// What executing a chunk yields: a normal halt, a runtime error with
/// its reason and line, or a stop on ill-formed bytecode.  The halting
/// and failing outcomes carry the final stack or globals and everything
/// printed up to that point.
pub enum ExecOutcome {
    Done { stack: Seq<AbsValue>, globals: Map<Seq<u8>, AbsValue>, output: Seq<Seq<u8>> },
    Failed {
        fault: AbsFault,
        line: usize,
        globals: Map<Seq<u8>, AbsValue>,
        output: Seq<Seq<u8>>,
    },
    Stuck,
}

/// The machine's semantics, one instruction at a time from `pc`: what
/// the dispatch loop below computes, defined over the models of the
/// stack, the globals and the output, with the arithmetic written over
/// the trusted `f64` functions.  It terminates because every supported
/// instruction, jumps included, moves the program counter forward.
pub open spec fn spec_exec(
    code: Seq<u8>,
    constants: Seq<Value>,
    lines: Seq<usize>,
    pc: int,
    st: Seq<AbsValue>,
    g: Map<Seq<u8>, AbsValue>,
    out: Seq<Seq<u8>>,
) -> ExecOutcome
    decreases code.len() - pc,
{
    if !(0 <= pc < code.len()) {
        ExecOutcome::Stuck
    } else {
        let l = st.len() as int;
        match spec_opcode_of_byte(code[pc]) {
            None => ExecOutcome::Stuck,
            Some(op) => match op {
                OpCode::OpReturn => ExecOutcome::Done { stack: st, globals: g, output: out },
                OpCode::OpConstant => if !(pc + 1 < code.len() && (code[pc + 1] as int)
                    < constants.len()) {
                    ExecOutcome::Stuck
                } else {
                    spec_exec(
                        code,
                        constants,
                        lines,
                        pc + 2,
                        st.push(constants[code[pc + 1] as int]@),
                        g,
                        out,
                    )
                },
                OpCode::OpNil => spec_exec(
                    code,
                    constants,
                    lines,
                    pc + 1,
                    st.push(AbsValue::Nil),
                    g,
                    out,
                ),
                OpCode::OpTrue => spec_exec(
                    code,
                    constants,
                    lines,
                    pc + 1,
                    st.push(AbsValue::Bool(true)),
                    g,
                    out,
                ),
                OpCode::OpFalse => spec_exec(
                    code,
                    constants,
                    lines,
                    pc + 1,
                    st.push(AbsValue::Bool(false)),
                    g,
                    out,
                ),
                OpCode::OpPop => if l < 1 {
                    ExecOutcome::Stuck
                } else {
                    spec_exec(code, constants, lines, pc + 1, st.drop_last(), g, out)
                },
                OpCode::OpEqual => if l < 2 {
                    ExecOutcome::Stuck
                } else {
                    spec_exec(
                        code,
                        constants,
                        lines,
                        pc + 1,
                        st.drop_last().drop_last().push(
                            AbsValue::Bool(
                                crate::value::spec_values_equal(st[l - 2], st[l - 1]),
                            ),
                        ),
                        g,
                        out,
                    )
                },
                OpCode::OpGreater => if l < 2 {
                    ExecOutcome::Stuck
                } else if !(st[l - 1] is Num && st[l - 2] is Num) {
                    ExecOutcome::Failed {
                        fault: AbsFault::OperandsMustBeNumbers,
                        line: lines[pc],
                        globals: g,
                        output: out,
                    }
                } else {
                    spec_exec(
                        code,
                        constants,
                        lines,
                        pc + 1,
                        st.drop_last().drop_last().push(
                            AbsValue::Bool(
                                crate::number::f64_lt(st[l - 1]->Num_0, st[l - 2]->Num_0),
                            ),
                        ),
                        g,
                        out,
                    )
                },
                OpCode::OpLess => if l < 2 {
                    ExecOutcome::Stuck
                } else if !(st[l - 1] is Num && st[l - 2] is Num) {
                    ExecOutcome::Failed {
                        fault: AbsFault::OperandsMustBeNumbers,
                        line: lines[pc],
                        globals: g,
                        output: out,
                    }
                } else {
                    spec_exec(
                        code,
                        constants,
                        lines,
                        pc + 1,
                        st.drop_last().drop_last().push(
                            AbsValue::Bool(
                                crate::number::f64_lt(st[l - 2]->Num_0, st[l - 1]->Num_0),
                            ),
                        ),
                        g,
                        out,
                    )
                },
                OpCode::OpNot => if l < 1 {
                    ExecOutcome::Stuck
                } else {
                    spec_exec(
                        code,
                        constants,
                        lines,
                        pc + 1,
                        st.drop_last().push(
                            AbsValue::Bool(crate::value::spec_falsey(st.last())),
                        ),
                        g,
                        out,
                    )
                },
                OpCode::OpNegate => if l < 1 {
                    ExecOutcome::Stuck
                } else if !(st.last() is Num) {
                    ExecOutcome::Failed {
                        fault: AbsFault::OperandMustBeNumber,
                        line: lines[pc],
                        globals: g,
                        output: out,
                    }
                } else {
                    spec_exec(
                        code,
                        constants,
                        lines,
                        pc + 1,
                        st.drop_last().push(
                            AbsValue::Num(crate::number::f64_neg(st.last()->Num_0)),
                        ),
                        g,
                        out,
                    )
                },
                OpCode::OpAdd => if l < 2 {
                    ExecOutcome::Stuck
                } else if st[l - 1] is Str && st[l - 2] is Str {
                    spec_exec(
                        code,
                        constants,
                        lines,
                        pc + 1,
                        st.drop_last().drop_last().push(
                            AbsValue::Str(st[l - 2]->Str_0 + st[l - 1]->Str_0),
                        ),
                        g,
                        out,
                    )
                } else if st[l - 1] is Num && st[l - 2] is Num {
                    spec_exec(
                        code,
                        constants,
                        lines,
                        pc + 1,
                        st.drop_last().drop_last().push(
                            AbsValue::Num(
                                crate::number::f64_add(st[l - 2]->Num_0, st[l - 1]->Num_0),
                            ),
                        ),
                        g,
                        out,
                    )
                } else {
                    ExecOutcome::Failed {
                        fault: AbsFault::OperandsMustBeNumbersOrStrings,
                        line: lines[pc],
                        globals: g,
                        output: out,
                    }
                },
                OpCode::OpSubtract => if l < 2 {
                    ExecOutcome::Stuck
                } else if !(st[l - 1] is Num && st[l - 2] is Num) {
                    ExecOutcome::Failed {
                        fault: AbsFault::OperandsMustBeNumbers,
                        line: lines[pc],
                        globals: g,
                        output: out,
                    }
                } else {
                    spec_exec(
                        code,
                        constants,
                        lines,
                        pc + 1,
                        st.drop_last().drop_last().push(
                            AbsValue::Num(
                                crate::number::f64_sub(st[l - 2]->Num_0, st[l - 1]->Num_0),
                            ),
                        ),
                        g,
                        out,
                    )
                },
                OpCode::OpMultiply => if l < 2 {
                    ExecOutcome::Stuck
                } else if !(st[l - 1] is Num && st[l - 2] is Num) {
                    ExecOutcome::Failed {
                        fault: AbsFault::OperandsMustBeNumbers,
                        line: lines[pc],
                        globals: g,
                        output: out,
                    }
                } else {
                    spec_exec(
                        code,
                        constants,
                        lines,
                        pc + 1,
                        st.drop_last().drop_last().push(
                            AbsValue::Num(
                                crate::number::f64_mul(st[l - 2]->Num_0, st[l - 1]->Num_0),
                            ),
                        ),
                        g,
                        out,
                    )
                },
                OpCode::OpDivide => if l < 2 {
                    ExecOutcome::Stuck
                } else if !(st[l - 1] is Num && st[l - 2] is Num) {
                    ExecOutcome::Failed {
                        fault: AbsFault::OperandsMustBeNumbers,
                        line: lines[pc],
                        globals: g,
                        output: out,
                    }
                } else {
                    spec_exec(
                        code,
                        constants,
                        lines,
                        pc + 1,
                        st.drop_last().drop_last().push(
                            AbsValue::Num(
                                crate::number::f64_div(st[l - 2]->Num_0, st[l - 1]->Num_0),
                            ),
                        ),
                        g,
                        out,
                    )
                },
                OpCode::OpPrint => if l < 1 {
                    ExecOutcome::Stuck
                } else {
                    spec_exec(
                        code,
                        constants,
                        lines,
                        pc + 1,
                        st.drop_last(),
                        g,
                        out.push(crate::value::spec_value_text(st.last())),
                    )
                },
                OpCode::OpDefineGlobal => if !(pc + 1 < code.len() && (code[pc + 1] as int)
                    < constants.len()) {
                    ExecOutcome::Stuck
                } else if !(constants[code[pc + 1] as int]@ is Str) {
                    ExecOutcome::Stuck
                } else if l < 1 {
                    ExecOutcome::Stuck
                } else {
                    spec_exec(
                        code,
                        constants,
                        lines,
                        pc + 2,
                        st.drop_last(),
                        g.insert(constants[code[pc + 1] as int]@->Str_0, st.last()),
                        out,
                    )
                },
                OpCode::OpGetGlobal => if !(pc + 1 < code.len() && (code[pc + 1] as int)
                    < constants.len()) {
                    ExecOutcome::Stuck
                } else if !(constants[code[pc + 1] as int]@ is Str) {
                    ExecOutcome::Stuck
                } else if g.contains_key(constants[code[pc + 1] as int]@->Str_0) {
                    spec_exec(
                        code,
                        constants,
                        lines,
                        pc + 2,
                        st.push(g[constants[code[pc + 1] as int]@->Str_0]),
                        g,
                        out,
                    )
                } else {
                    ExecOutcome::Failed {
                        fault: AbsFault::UndefinedVariable(
                            constants[code[pc + 1] as int]@->Str_0,
                        ),
                        line: lines[pc + 1],
                        globals: g,
                        output: out,
                    }
                },
                OpCode::OpSetGlobal => if !(pc + 1 < code.len() && (code[pc + 1] as int)
                    < constants.len()) {
                    ExecOutcome::Stuck
                } else if !(constants[code[pc + 1] as int]@ is Str) {
                    ExecOutcome::Stuck
                } else if l < 1 {
                    ExecOutcome::Stuck
                } else if g.contains_key(constants[code[pc + 1] as int]@->Str_0) {
                    spec_exec(
                        code,
                        constants,
                        lines,
                        pc + 2,
                        st,
                        g.insert(constants[code[pc + 1] as int]@->Str_0, st.last()),
                        out,
                    )
                } else {
                    ExecOutcome::Failed {
                        fault: AbsFault::UndefinedVariable(
                            constants[code[pc + 1] as int]@->Str_0,
                        ),
                        line: lines[pc + 1],
                        globals: g,
                        output: out,
                    }
                },
                OpCode::OpGetLocal => if !(pc + 1 < code.len() && (code[pc + 1] as int) < l) {
                    ExecOutcome::Stuck
                } else {
                    spec_exec(
                        code,
                        constants,
                        lines,
                        pc + 2,
                        st.push(st[code[pc + 1] as int]),
                        g,
                        out,
                    )
                },
                OpCode::OpSetLocal => if !(pc + 1 < code.len() && (code[pc + 1] as int) < l && l
                    >= 1) {
                    ExecOutcome::Stuck
                } else {
                    spec_exec(
                        code,
                        constants,
                        lines,
                        pc + 2,
                        st.update(code[pc + 1] as int, st.last()),
                        g,
                        out,
                    )
                },
                OpCode::OpJumpIfFalse => if !(pc + 2 < code.len()) {
                    ExecOutcome::Stuck
                } else if l < 1 {
                    ExecOutcome::Stuck
                } else if crate::value::spec_falsey(st.last()) {
                    if two_byte_be(code[pc + 1], code[pc + 2]) > code.len() - (pc + 3) {
                        ExecOutcome::Stuck
                    } else {
                        spec_exec(
                            code,
                            constants,
                            lines,
                            pc + 3 + two_byte_be(code[pc + 1], code[pc + 2]),
                            st,
                            g,
                            out,
                        )
                    }
                } else {
                    spec_exec(code, constants, lines, pc + 3, st, g, out)
                },
                OpCode::OpJump => if !(pc + 2 < code.len()) {
                    ExecOutcome::Stuck
                } else if two_byte_be(code[pc + 1], code[pc + 2]) > code.len() - (pc + 3) {
                    ExecOutcome::Stuck
                } else {
                    spec_exec(
                        code,
                        constants,
                        lines,
                        pc + 3 + two_byte_be(code[pc + 1], code[pc + 2]),
                        st,
                        g,
                        out,
                    )
                },
                OpCode::OpLoop => ExecOutcome::Stuck,
            },
        }
    }
}

/// Spec-level model of a fault record's reason.
pub open spec fn fault_view(k: RuntimeErrorKind) -> AbsFault {
    match k {
        RuntimeErrorKind::OperandMustBeNumber => AbsFault::OperandMustBeNumber,
        RuntimeErrorKind::OperandsMustBeNumbers => AbsFault::OperandsMustBeNumbers,
        RuntimeErrorKind::OperandsMustBeNumbersOrStrings => AbsFault::OperandsMustBeNumbersOrStrings,
        RuntimeErrorKind::UndefinedVariable(n) => AbsFault::UndefinedVariable(n@),
    }
}

pub broadcast proof fn lemma_stack_view_push(s: Seq<Value>, v: Value)
    ensures
        #[trigger] stack_view(s.push(v)) == stack_view(s).push(v@),
{
    assert(stack_view(s.push(v)) =~= stack_view(s).push(v@));
}

pub broadcast proof fn lemma_stack_view_drop(s: Seq<Value>)
    requires
        s.len() >= 1,
    ensures
        #[trigger] stack_view(s.drop_last()) == stack_view(s).drop_last(),
{
    assert(stack_view(s.drop_last()) =~= stack_view(s).drop_last());
}

pub broadcast proof fn lemma_stack_view_update(s: Seq<Value>, i: int, v: Value)
    requires
        0 <= i < s.len(),
    ensures
        #[trigger] stack_view(s.update(i, v)) == stack_view(s).update(i, v@),
{
    assert(stack_view(s.update(i, v)) =~= stack_view(s).update(i, v@));
}

pub broadcast proof fn lemma_output_view_push(o: Seq<Vec<u8>>, l: Vec<u8>)
    ensures
        #[trigger] output_view(o.push(l)) == output_view(o).push(l@),
{
    assert(output_view(o.push(l)) =~= output_view(o).push(l@));
}

/// How an `interpret` call ended.
pub enum InterpretResult {
    Success,
    RuntimeError,
    CompileError,
}

/// The reason a chunk's execution failed.
pub enum RuntimeErrorKind {
    /// Unary negation of a value that is not a number.
    OperandMustBeNumber,
    /// Arithmetic or comparison on values that are not both numbers.
    OperandsMustBeNumbers,
    /// Addition of values that are neither two numbers nor two strings.
    OperandsMustBeNumbersOrStrings,
    /// A read or assignment of a global that is not defined, naming it.
    UndefinedVariable(Vec<u8>),
}

/// A runtime error: its reason and the source line of the instruction
/// that raised it.
pub struct RuntimeFault {
    pub kind: RuntimeErrorKind,
    pub line: usize,
}

/// The diagnostic message for a runtime error reason.
pub open spec fn spec_runtime_message(kind: RuntimeErrorKind) -> Seq<u8> {
    match kind {
        RuntimeErrorKind::OperandMustBeNumber => ascii_bytes("Operand must be a number."@),
        RuntimeErrorKind::OperandsMustBeNumbers => ascii_bytes("Operands must be numbers."@),
        RuntimeErrorKind::OperandsMustBeNumbersOrStrings => ascii_bytes(
            "Operands must be two numbers or two strings."@,
        ),
        RuntimeErrorKind::UndefinedVariable(name) => ascii_bytes("Undefined variable '"@) + name@
            + ascii_bytes("'."@),
    }
}

/// The full stderr text of a runtime error: the message, a newline, and
/// `[line N] in script`.
pub open spec fn spec_runtime_text(kind: RuntimeErrorKind, line: usize) -> Seq<u8> {
    spec_runtime_message(kind) + seq![0x0Au8] + ascii_bytes("[line "@) + spec_decimal(line as int)
        + ascii_bytes("] in script"@)
}

/// The diagnostic message of a runtime error.
pub fn runtime_error_message(kind: &RuntimeErrorKind) -> (r: Vec<u8>)
    ensures
        r@ == spec_runtime_message(*kind),
{
    match kind {
        RuntimeErrorKind::OperandMustBeNumber => {
            proof {
                reveal_strlit("Operand must be a number.");
            }
            crate::text::str_byte_vec("Operand must be a number.")
        },
        RuntimeErrorKind::OperandsMustBeNumbers => {
            proof {
                reveal_strlit("Operands must be numbers.");
            }
            crate::text::str_byte_vec("Operands must be numbers.")
        },
        RuntimeErrorKind::OperandsMustBeNumbersOrStrings => {
            proof {
                reveal_strlit("Operands must be two numbers or two strings.");
            }
            crate::text::str_byte_vec("Operands must be two numbers or two strings.")
        },
        RuntimeErrorKind::UndefinedVariable(name) => {
            proof {
                reveal_strlit("Undefined variable '");
                reveal_strlit("'.");
            }
            let mut out = crate::text::str_byte_vec("Undefined variable '");
            append_bytes(&mut out, name.as_slice());
            append_bytes(&mut out, str_bytes("'."));
            out
        },
    }
}

/// The full stderr text of a runtime error.
pub fn render_runtime_error(fault: &RuntimeFault) -> (r: Vec<u8>)
    ensures
        r@ == spec_runtime_text(fault.kind, fault.line),
{
    proof {
        reveal_strlit("[line ");
        reveal_strlit("] in script");
    }
    let mut out = runtime_error_message(&fault.kind);
    out.push(0x0A);
    append_bytes(&mut out, str_bytes("[line "));
    let digits = decimal_bytes(fault.line);
    append_bytes(&mut out, digits.as_slice());
    append_bytes(&mut out, str_bytes("] in script"));
    proof {
        assert(out@ =~= spec_runtime_text(fault.kind, fault.line));
    }
    out
}

/// What interpreting a chunk produced: the result, the lines printed by
/// `print` statements, and the runtime error that halted execution, if
/// one was reported.
pub struct Interpretation {
    pub result: InterpretResult,
    pub output: Vec<Vec<u8>>,
    pub fault: Option<RuntimeFault>,
}

pub struct VM {
    pub chunk: Option<Chunk>,
    pub ip: usize,
    pub stack: Vec<Value>,
    pub strings: Table,
    pub globals: Table,
}

impl VM {
    /// Both tables are well-formed hash tables.
    pub open spec fn wf(&self) -> bool {
        &&& self.strings.wf()
        &&& self.globals.wf()
    }

    pub fn new() -> (r: Self)
        ensures
            r.wf(),
            r.strings@ == Map::<Seq<u8>, AbsValue>::empty(),
            r.globals@ == Map::<Seq<u8>, AbsValue>::empty(),
            r.strings.count == 0,
            r.globals.count == 0,
            r.stack@.len() == 0,
    {
        VM {
            chunk: None,
            ip: 0,
            stack: Vec::new(),
            strings: Table::new(),
            globals: Table::new(),
        }
    }

    /// Intern a string: return a string with the same bytes, and record
    /// it in the interning set so that later interns of equal content
    /// find it.  Two interned strings are equal exactly when their
    /// contents are: the returned string always holds the argument's
    /// bytes unchanged.  Past a count far below the address-space limit
    /// the set stops storing new entries, which is invisible to callers:
    /// string identity is content identity.
    pub fn intern_string(&mut self, string: Vec<u8>) -> (r: Vec<u8>)
        requires
            old(self).wf(),
        ensures
            final(self).wf(),
            r@ == string@,
            final(self).globals == old(self).globals,
            final(self).chunk == old(self).chunk,
            final(self).ip == old(self).ip,
            final(self).stack == old(self).stack,
            final(self).strings@ == old(self).strings@ || final(self).strings@ == old(self).strings@.insert(string@, AbsValue::Nil),
            old(self).strings@.contains_key(string@) ==> final(self).strings@ == old(self).strings@,
            !old(self).strings@.contains_key(string@) && old(self).strings.count < usize::MAX / 32
                ==> final(self).strings@ == old(self).strings@.insert(string@, AbsValue::Nil),
    {
        let hash = crate::table::hash_string(string.as_slice());
        let found = match self.strings.find_string(string.as_slice(), hash) {
            Some(interned) => Some(crate::value::clone_bytes(interned)),
            None => None,
        };
        match found {
            Some(interned) => interned,
            None => {
                if self.strings.count < usize::MAX / 32 {
                    let copy = crate::value::clone_bytes(&string);
                    let _ = self.strings.set(copy, Value::nil());
                }
                string
            },
        }
    }

    /// Push a value on the stack.
    fn push(&mut self, value: Value)
        ensures
            final(self).stack@ == old(self).stack@.push(value),
            final(self).strings == old(self).strings,
            final(self).globals == old(self).globals,
            final(self).ip == old(self).ip,
            final(self).chunk == old(self).chunk,
    {
        self.stack.push(value);
    }

    /// Pop the top of the stack.
    fn pop(&mut self) -> (r: Value)
        requires
            old(self).stack@.len() >= 1,
        ensures
            final(self).stack@ == old(self).stack@.drop_last(),
            r == old(self).stack@.last(),
            final(self).strings == old(self).strings,
            final(self).globals == old(self).globals,
            final(self).ip == old(self).ip,
            final(self).chunk == old(self).chunk,
    {
        match self.stack.pop() {
            Some(v) => v,
            None => unreached(),
        }
    }

    /// The value `distance` slots below the top of the stack, without
    /// popping.
    fn peek(&self, distance: usize) -> (r: &Value)
        requires
            distance < self.stack@.len(),
        ensures
            *r == self.stack@[self.stack@.len() - 1 - distance],
    {
        &self.stack[self.stack.len() - 1 - distance]
    }

    /// Read and advance past the byte at the instruction pointer.
    fn read_byte(&mut self, chunk: &Chunk) -> (r: u8)
        requires
            old(self).ip < chunk.code@.len(),
        ensures
            r == chunk.code@[old(self).ip as int],
            final(self).ip == old(self).ip + 1,
            final(self).stack == old(self).stack,
            final(self).strings == old(self).strings,
            final(self).globals == old(self).globals,
            final(self).chunk == old(self).chunk,
    {
        let n = chunk.code.len();
        proof {
            assert(self.ip < n);
        }
        let byte = chunk.code[self.ip];
        self.ip = self.ip + 1;
        byte
    }

    /// The runtime error record for the instruction just dispatched,
    /// carrying the source line of its opcode byte.
    fn runtime_error(&self, chunk: &Chunk, kind: RuntimeErrorKind) -> (r: RuntimeFault)
        requires
            chunk.wf(),
            1 <= self.ip <= chunk.lines@.len(),
        ensures
            r.kind == kind,
            r.line == chunk.lines@[self.ip - 1],
    {
        RuntimeFault { kind, line: chunk.lines[self.ip - 1] }
    }

    /// Execute a chunk's instructions from the start until a return
    /// instruction, a runtime error, or ill-formed bytecode.  The
    /// result, the printed lines, the final stack and globals, and any
    /// fault's reason and line are exactly what `spec_exec` computes for
    /// the chunk from the starting state.  Of a well-formed chunk no
    /// bytecode is ever ill formed: every reported failure then carries
    /// a runtime error record.
    fn run(&mut self, chunk: &Chunk) -> (r: Interpretation)
        requires
            old(self).wf(),
            chunk.wf(),
            old(self).ip == 0,
            old(self).globals.count + chunk.code@.len() < usize::MAX / 16,
        ensures
            final(self).wf(),
            final(self).strings == old(self).strings,
            !(r.result is CompileError),
            r.fault is Some ==> r.result is RuntimeError,
            chunk_ok(chunk.code@, chunk.constants@, 0, old(self).stack@.len() as int) ==> (
            r.result is RuntimeError ==> r.fault is Some),
            chunk_ok(chunk.code@, chunk.constants@, 0, old(self).stack@.len() as int) && r.result
                is Success ==> final(self).stack@.len() == 0,
            globals_frame(*chunk, old(self).globals@, final(self).globals@),
            match spec_exec(
                chunk.code@,
                chunk.constants@,
                chunk.lines@,
                0,
                stack_view(old(self).stack@),
                old(self).globals@,
                Seq::empty(),
            ) {
                ExecOutcome::Done { stack, globals, output: out } => r.result is Success
                    && r.fault is None && stack_view(final(self).stack@) == stack && final(self).globals@ == globals && output_view(r.output@) == out,
                ExecOutcome::Failed { fault, line, globals, output: out } => r.result
                    is RuntimeError && (r.fault matches Some(f) && fault_view(f.kind) == fault
                    && f.line == line) && final(self).globals@ == globals && output_view(r.output@)
                    == out,
                ExecOutcome::Stuck => r.result is RuntimeError && r.fault is None,
            },
    {
        broadcast use lemma_stack_view_push, lemma_stack_view_drop, lemma_stack_view_update, lemma_output_view_push;

        let ghost wf0 = chunk_ok(chunk.code@, chunk.constants@, 0, old(self).stack@.len() as int);
        let mut output: Vec<Vec<u8>> = Vec::new();
        proof {
            assert(output_view(output@) =~= Seq::<Seq<u8>>::empty());
            assert(stack_view(self.stack@) =~= stack_view(old(self).stack@));
        }
        loop
            invariant
                self.wf(),
                chunk.wf(),
                self.strings == old(self).strings,
                self.ip <= chunk.code@.len(),
                self.globals.count <= old(self).globals.count + self.ip,
                old(self).globals.count + chunk.code@.len() < usize::MAX / 16,
                wf0 == chunk_ok(chunk.code@, chunk.constants@, 0, old(self).stack@.len() as int),
                wf0 ==> chunk_ok(
                    chunk.code@,
                    chunk.constants@,
                    self.ip as int,
                    self.stack@.len() as int,
                ),
                globals_frame(*chunk, old(self).globals@, self.globals@),
                spec_exec(
                    chunk.code@,
                    chunk.constants@,
                    chunk.lines@,
                    0,
                    stack_view(old(self).stack@),
                    old(self).globals@,
                    Seq::empty(),
                ) == spec_exec(
                    chunk.code@,
                    chunk.constants@,
                    chunk.lines@,
                    self.ip as int,
                    stack_view(self.stack@),
                    self.globals@,
                    output_view(output@),
                ),
            decreases chunk.code@.len() - self.ip,
        {
            broadcast use lemma_stack_view_push, lemma_stack_view_drop, lemma_stack_view_update, lemma_output_view_push;

            let ghost ip0 = self.ip as int;
            let ghost st0 = stack_view(self.stack@);
            let ghost g0 = self.globals@;
            let ghost out0 = output_view(output@);
            if self.ip >= chunk.code.len() {
                return Interpretation {
                    result: InterpretResult::RuntimeError,
                    output,
                    fault: None,
                };
            }
            let instruction = self.read_byte(chunk);
            let decoded = opcode_of_byte(instruction);
            match decoded {
                None => {
                    return Interpretation {
                        result: InterpretResult::RuntimeError,
                        output,
                        fault: None,
                    };
                },
                Some(OpCode::OpReturn) => {
                    proof {
                        if wf0 {
                            assert(self.stack@.len() == 0);
                        }
                    }
                    return Interpretation {
                        result: InterpretResult::Success,
                        output,
                        fault: None,
                    };
                },
                Some(OpCode::OpConstant) => {
                    if self.ip >= chunk.code.len() {
                        return Interpretation {
                            result: InterpretResult::RuntimeError,
                            output,
                            fault: None,
                        };
                    }
                    let idx = self.read_byte(chunk) as usize;
                    if idx >= chunk.constants.len() {
                        return Interpretation {
                            result: InterpretResult::RuntimeError,
                            output,
                            fault: None,
                        };
                    }
                    let v = chunk.get_constant(idx);
                    self.push(v);
                },
                Some(OpCode::OpNil) => {
                    self.push(Value::nil());
                },
                Some(OpCode::OpTrue) => {
                    self.push(Value::bool(true));
                },
                Some(OpCode::OpFalse) => {
                    self.push(Value::bool(false));
                },
                Some(OpCode::OpPop) => {
                    if self.stack.len() < 1 {
                        return Interpretation {
                            result: InterpretResult::RuntimeError,
                            output,
                            fault: None,
                        };
                    }
                    let _ = self.pop();
                },
                Some(OpCode::OpEqual) => {
                    if self.stack.len() < 2 {
                        return Interpretation {
                            result: InterpretResult::RuntimeError,
                            output,
                            fault: None,
                        };
                    }
                    let b = self.pop();
                    let a = self.pop();
                    self.push(Value::bool(values_equal(&a, &b)));
                },
                Some(OpCode::OpGreater) => {
                    if self.stack.len() < 2 {
                        return Interpretation {
                            result: InterpretResult::RuntimeError,
                            output,
                            fault: None,
                        };
                    }
                    if !self.peek(0).is_number() || !self.peek(1).is_number() {
                        let fault = self.runtime_error(
                            chunk,
                            RuntimeErrorKind::OperandsMustBeNumbers,
                        );
                        return Interpretation {
                            result: InterpretResult::RuntimeError,
                            output,
                            fault: Some(fault),
                        };
                    }
                    let b = self.pop().as_number();
                    let a = self.pop().as_number();
                    self.push(Value::bool(crate::number::number_lt(b, a)));
                },
                Some(OpCode::OpLess) => {
                    if self.stack.len() < 2 {
                        return Interpretation {
                            result: InterpretResult::RuntimeError,
                            output,
                            fault: None,
                        };
                    }
                    if !self.peek(0).is_number() || !self.peek(1).is_number() {
                        let fault = self.runtime_error(
                            chunk,
                            RuntimeErrorKind::OperandsMustBeNumbers,
                        );
                        return Interpretation {
                            result: InterpretResult::RuntimeError,
                            output,
                            fault: Some(fault),
                        };
                    }
                    let b = self.pop().as_number();
                    let a = self.pop().as_number();
                    self.push(Value::bool(crate::number::number_lt(a, b)));
                },
                Some(OpCode::OpNot) => {
                    if self.stack.len() < 1 {
                        return Interpretation {
                            result: InterpretResult::RuntimeError,
                            output,
                            fault: None,
                        };
                    }
                    let value = self.pop();
                    self.push(Value::bool(value.is_falsey()));
                },
                Some(OpCode::OpNegate) => {
                    if self.stack.len() < 1 {
                        return Interpretation {
                            result: InterpretResult::RuntimeError,
                            output,
                            fault: None,
                        };
                    }
                    if !self.peek(0).is_number() {
                        let fault = self.runtime_error(
                            chunk,
                            RuntimeErrorKind::OperandMustBeNumber,
                        );
                        return Interpretation {
                            result: InterpretResult::RuntimeError,
                            output,
                            fault: Some(fault),
                        };
                    }
                    let bits = self.pop().as_number();
                    self.push(Value::number(crate::number::number_neg(bits)));
                },
                Some(OpCode::OpAdd) => {
                    if self.stack.len() < 2 {
                        return Interpretation {
                            result: InterpretResult::RuntimeError,
                            output,
                            fault: None,
                        };
                    }
                    if self.peek(0).is_string() && self.peek(1).is_string() {
                        let b = self.pop();
                        let a = self.pop();
                        let mut joined = crate::value::clone_bytes(a.as_string());
                        crate::text::append_bytes(&mut joined, b.as_string().as_slice());
                        self.push(Value::string(joined));
                    } else if self.peek(0).is_number() && self.peek(1).is_number() {
                        let b = self.pop().as_number();
                        let a = self.pop().as_number();
                        self.push(Value::number(crate::number::number_add(a, b)));
                    } else {
                        let fault = self.runtime_error(
                            chunk,
                            RuntimeErrorKind::OperandsMustBeNumbersOrStrings,
                        );
                        return Interpretation {
                            result: InterpretResult::RuntimeError,
                            output,
                            fault: Some(fault),
                        };
                    }
                },
                Some(OpCode::OpSubtract) => {
                    if self.stack.len() < 2 {
                        return Interpretation {
                            result: InterpretResult::RuntimeError,
                            output,
                            fault: None,
                        };
                    }
                    if !self.peek(0).is_number() || !self.peek(1).is_number() {
                        let fault = self.runtime_error(
                            chunk,
                            RuntimeErrorKind::OperandsMustBeNumbers,
                        );
                        return Interpretation {
                            result: InterpretResult::RuntimeError,
                            output,
                            fault: Some(fault),
                        };
                    }
                    let b = self.pop().as_number();
                    let a = self.pop().as_number();
                    self.push(Value::number(crate::number::number_sub(a, b)));
                },
                Some(OpCode::OpMultiply) => {
                    if self.stack.len() < 2 {
                        return Interpretation {
                            result: InterpretResult::RuntimeError,
                            output,
                            fault: None,
                        };
                    }
                    if !self.peek(0).is_number() || !self.peek(1).is_number() {
                        let fault = self.runtime_error(
                            chunk,
                            RuntimeErrorKind::OperandsMustBeNumbers,
                        );
                        return Interpretation {
                            result: InterpretResult::RuntimeError,
                            output,
                            fault: Some(fault),
                        };
                    }
                    let b = self.pop().as_number();
                    let a = self.pop().as_number();
                    self.push(Value::number(crate::number::number_mul(a, b)));
                },
                Some(OpCode::OpDivide) => {
                    if self.stack.len() < 2 {
                        return Interpretation {
                            result: InterpretResult::RuntimeError,
                            output,
                            fault: None,
                        };
                    }
                    if !self.peek(0).is_number() || !self.peek(1).is_number() {
                        let fault = self.runtime_error(
                            chunk,
                            RuntimeErrorKind::OperandsMustBeNumbers,
                        );
                        return Interpretation {
                            result: InterpretResult::RuntimeError,
                            output,
                            fault: Some(fault),
                        };
                    }
                    let b = self.pop().as_number();
                    let a = self.pop().as_number();
                    self.push(Value::number(crate::number::number_div(a, b)));
                },
                Some(OpCode::OpPrint) => {
                    if self.stack.len() < 1 {
                        return Interpretation {
                            result: InterpretResult::RuntimeError,
                            output,
                            fault: None,
                        };
                    }
                    let value = self.pop();
                    output.push(value_text(&value));
                },
                Some(OpCode::OpDefineGlobal) => {
                    if self.ip >= chunk.code.len() {
                        return Interpretation {
                            result: InterpretResult::RuntimeError,
                            output,
                            fault: None,
                        };
                    }
                    let idx = self.read_byte(chunk) as usize;
                    if idx >= chunk.constants.len() {
                        return Interpretation {
                            result: InterpretResult::RuntimeError,
                            output,
                            fault: None,
                        };
                    }
                    let name_value = chunk.get_constant(idx);
                    let name = match name_value {
                        Value::Str(bytes) => bytes,
                        _ => {
                            return Interpretation {
                                result: InterpretResult::RuntimeError,
                                output,
                                fault: None,
                            };
                        },
                    };
                    if self.stack.len() < 1 {
                        return Interpretation {
                            result: InterpretResult::RuntimeError,
                            output,
                            fault: None,
                        };
                    }
                    let value = self.pop();
                    let ghost gpre = self.globals@;
                    let ghost gname = name@;
                    let ghost gval = value@;
                    let _ = self.globals.set(name, value);
                    proof {
                        assert(chunk_names(*chunk, gname));
                        lemma_globals_frame_insert(*chunk, old(self).globals@, gpre, gname, gval);
                    }
                },
                Some(OpCode::OpGetGlobal) => {
                    if self.ip >= chunk.code.len() {
                        return Interpretation {
                            result: InterpretResult::RuntimeError,
                            output,
                            fault: None,
                        };
                    }
                    let idx = self.read_byte(chunk) as usize;
                    if idx >= chunk.constants.len() {
                        return Interpretation {
                            result: InterpretResult::RuntimeError,
                            output,
                            fault: None,
                        };
                    }
                    let name_value = chunk.get_constant(idx);
                    let name = match name_value {
                        Value::Str(bytes) => bytes,
                        _ => {
                            return Interpretation {
                                result: InterpretResult::RuntimeError,
                                output,
                                fault: None,
                            };
                        },
                    };
                    let looked_up = match self.globals.get(name.as_slice()) {
                        Some(v) => Some(v.clone()),
                        None => None,
                    };
                    match looked_up {
                        Some(v) => {
                            self.push(v);
                        },
                        None => {
                            let fault = self.runtime_error(
                                chunk,
                                RuntimeErrorKind::UndefinedVariable(name),
                            );
                            return Interpretation {
                                result: InterpretResult::RuntimeError,
                                output,
                                fault: Some(fault),
                            };
                        },
                    }
                },
                Some(OpCode::OpSetGlobal) => {
                    if self.ip >= chunk.code.len() {
                        return Interpretation {
                            result: InterpretResult::RuntimeError,
                            output,
                            fault: None,
                        };
                    }
                    let idx = self.read_byte(chunk) as usize;
                    if idx >= chunk.constants.len() {
                        return Interpretation {
                            result: InterpretResult::RuntimeError,
                            output,
                            fault: None,
                        };
                    }
                    let name_value = chunk.get_constant(idx);
                    let name = match name_value {
                        Value::Str(bytes) => bytes,
                        _ => {
                            return Interpretation {
                                result: InterpretResult::RuntimeError,
                                output,
                                fault: None,
                            };
                        },
                    };
                    if self.stack.len() < 1 {
                        return Interpretation {
                            result: InterpretResult::RuntimeError,
                            output,
                            fault: None,
                        };
                    }
                    let value = self.peek(0).clone();
                    let key = crate::value::clone_bytes(&name);
                    let ghost gpre = self.globals@;
                    let ghost gname = key@;
                    let ghost gval = value@;
                    let is_new = self.globals.set(key, value);
                    proof {
                        assert(chunk_names(*chunk, gname));
                        lemma_globals_frame_insert(*chunk, old(self).globals@, gpre, gname, gval);
                    }
                    if is_new {
                        let ghost gpre2 = self.globals@;
                        let _ = self.globals.delete(name.as_slice());
                        proof {
                            lemma_globals_frame_remove(*chunk, old(self).globals@, gpre2, gname);
                        }
                        let fault = self.runtime_error(
                            chunk,
                            RuntimeErrorKind::UndefinedVariable(name),
                        );
                        return Interpretation {
                            result: InterpretResult::RuntimeError,
                            output,
                            fault: Some(fault),
                        };
                    }
                },
                Some(OpCode::OpGetLocal) => {
                    if self.ip >= chunk.code.len() {
                        return Interpretation {
                            result: InterpretResult::RuntimeError,
                            output,
                            fault: None,
                        };
                    }
                    let slot = self.read_byte(chunk) as usize;
                    if slot >= self.stack.len() {
                        return Interpretation {
                            result: InterpretResult::RuntimeError,
                            output,
                            fault: None,
                        };
                    }
                    let v = self.stack[slot].clone();
                    self.push(v);
                },
                Some(OpCode::OpSetLocal) => {
                    if self.ip >= chunk.code.len() {
                        return Interpretation {
                            result: InterpretResult::RuntimeError,
                            output,
                            fault: None,
                        };
                    }
                    let slot = self.read_byte(chunk) as usize;
                    if slot >= self.stack.len() {
                        return Interpretation {
                            result: InterpretResult::RuntimeError,
                            output,
                            fault: None,
                        };
                    }
                    let v = self.peek(0).clone();
                    self.stack.set(slot, v);
                },
                Some(OpCode::OpJumpIfFalse) => {
                    if self.ip >= chunk.code.len() {
                        return Interpretation {
                            result: InterpretResult::RuntimeError,
                            output,
                            fault: None,
                        };
                    }
                    let hi = self.read_byte(chunk);
                    if self.ip >= chunk.code.len() {
                        return Interpretation {
                            result: InterpretResult::RuntimeError,
                            output,
                            fault: None,
                        };
                    }
                    let lo = self.read_byte(chunk);
                    let offset = (hi as usize) * 256 + (lo as usize);
                    if self.stack.len() < 1 {
                        return Interpretation {
                            result: InterpretResult::RuntimeError,
                            output,
                            fault: None,
                        };
                    }
                    if self.peek(0).is_falsey() {
                        if offset > chunk.code.len() - self.ip {
                            return Interpretation {
                                result: InterpretResult::RuntimeError,
                                output,
                                fault: None,
                            };
                        }
                        self.ip = self.ip + offset;
                    }
                },
                Some(OpCode::OpJump) => {
                    if self.ip >= chunk.code.len() {
                        return Interpretation {
                            result: InterpretResult::RuntimeError,
                            output,
                            fault: None,
                        };
                    }
                    let hi = self.read_byte(chunk);
                    if self.ip >= chunk.code.len() {
                        return Interpretation {
                            result: InterpretResult::RuntimeError,
                            output,
                            fault: None,
                        };
                    }
                    let lo = self.read_byte(chunk);
                    let offset = (hi as usize) * 256 + (lo as usize);
                    if offset > chunk.code.len() - self.ip {
                        return Interpretation {
                            result: InterpretResult::RuntimeError,
                            output,
                            fault: None,
                        };
                    }
                    self.ip = self.ip + offset;
                },
                Some(OpCode::OpLoop) => {
                    return Interpretation {
                        result: InterpretResult::RuntimeError,
                        output,
                        fault: None,
                    };
                },
            }
        }
    }

    /// Execute a chunk: the result, the printed lines, the globals and
    /// any fault are exactly what `spec_exec` computes for the chunk.
    /// The chunk becomes the VM's current chunk; the globals and
    /// interned strings persist for the next call, and a global whose
    /// name is not among the chunk's string constants keeps its value.
    /// On a runtime error the value stack is drained, keeping the VM
    /// usable.  Of a well-formed chunk run on an empty stack, every
    /// runtime failure carries an error record with its message and
    /// line, and success leaves the stack empty again.  The count bound
    /// is a machine limit: the globals table must stay far below the
    /// address space.
    pub fn interpret(&mut self, chunk: Chunk) -> (r: Interpretation)
        requires
            old(self).wf(),
            chunk.wf(),
            old(self).globals.count + chunk.code@.len() < usize::MAX / 16,
        ensures
            final(self).wf(),
            final(self).strings == old(self).strings,
            !(r.result is CompileError),
            r.fault is Some ==> r.result is RuntimeError,
            chunk_ok(chunk.code@, chunk.constants@, 0, old(self).stack@.len() as int) ==> (
            r.result is RuntimeError ==> r.fault is Some),
            r.result is RuntimeError ==> final(self).stack@.len() == 0,
            chunk_ok(chunk.code@, chunk.constants@, 0, old(self).stack@.len() as int) && r.result
                is Success ==> final(self).stack@.len() == 0,
            globals_frame(chunk, old(self).globals@, final(self).globals@),
            match spec_exec(
                chunk.code@,
                chunk.constants@,
                chunk.lines@,
                0,
                stack_view(old(self).stack@),
                old(self).globals@,
                Seq::empty(),
            ) {
                ExecOutcome::Done { stack, globals, output: out } => r.result is Success
                    && r.fault is None && stack_view(final(self).stack@) == stack && final(self).globals@ == globals && output_view(r.output@) == out,
                ExecOutcome::Failed { fault, line, globals, output: out } => r.result
                    is RuntimeError && (r.fault matches Some(f) && fault_view(f.kind) == fault
                    && f.line == line) && final(self).globals@ == globals && output_view(r.output@)
                    == out,
                ExecOutcome::Stuck => r.result is RuntimeError && r.fault is None,
            },
    {
        self.ip = 0;
        let outcome = self.run(&chunk);
        self.chunk = Some(chunk);
        if matches!(outcome.result, InterpretResult::RuntimeError) {
            self.stack.clear();
        }
        outcome
    }
}

/// Interned strings are identical exactly when their contents are: what
/// `intern_string` returns holds its argument's bytes, so two interned
/// results are equal as byte strings exactly when the two arguments were.
pub proof fn lemma_intern_identity(s: Seq<u8>, t: Seq<u8>, rs: Seq<u8>, rt: Seq<u8>)
    requires
        rs == s,
        rt == t,
    ensures
        (rs == rt) <==> (s == t),
{
}

} // verus!
