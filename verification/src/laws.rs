//! Laws of the machine: properties that relate several operations, proved
//! over the spec-level model.

use vstd::prelude::*;

use crate::stack::STACK_CAPACITY;
use crate::vm::FrameModel;
use crate::vm::Instruction;
use crate::vm::VmError;
use crate::vm::VmModel;
use crate::vm::binary_op_result;
use crate::vm::is_binary_op;
use crate::vm::reinserted;
use crate::vm::step_spec;
use crate::vm::steps;

verus! {

/// Whether `instr` is an arithmetic/logic opcode, the ones that pre-check
/// their operand count.
pub open spec fn is_alu_op(instr: Instruction) -> bool {
    is_binary_op(instr) || instr is NOT
}

/// The number of operands an arithmetic/logic opcode pops.
pub open spec fn required_operands(instr: Instruction) -> nat
    recommends
        is_alu_op(instr),
{
    if instr is NOT {
        1nat
    } else {
        2nat
    }
}

/// An arithmetic/logic opcode whose frame holds fewer operands than it
/// needs reports `InsufficientOperands`.  By `VM::next_instruction`'s
/// contract an erring step leaves the whole machine — the global variable
/// table included — unchanged.
pub proof fn lemma_insufficient_operands(s: VmModel)
    requires
        s.frames.len() > 0,
        s.frames.last().ip < s.instructions.len(),
        is_alu_op(s.instructions[s.frames.last().ip as int]),
        s.frames.last().stack.len() < required_operands(
            s.instructions[s.frames.last().ip as int],
        ),
    ensures
        step_spec(s) == Err::<VmModel, VmError>(VmError::InsufficientOperands),
{
}

/// The opcodes whose result does not depend on operand order.
pub open spec fn is_commutative_op(instr: Instruction) -> bool {
    ||| instr is ADD
    ||| instr is MUL
    ||| instr is AND
    ||| instr is OR
    ||| instr is EQ
}

/// A commutative opcode computes the same value, or the same fault, with
/// its two operands exchanged.
pub proof fn lemma_commutative_result(op: Instruction, a: i16, b: i16)
    requires
        is_commutative_op(op),
    ensures
        binary_op_result(op, a, b) == binary_op_result(op, b, a),
{
    if op is MUL {
        assert(a as int * b as int == b as int * a as int) by (nonlinear_arith);
    }
}

/// `s` with the top frame's operand stack replaced by `t`.
pub open spec fn with_operands(s: VmModel, t: Seq<i16>) -> VmModel
    recommends
        s.frames.len() > 0,
{
    reinserted(s, FrameModel { stack: t, ip: s.frames.last().ip })
}

/// A commutative opcode steps to the same state whichever order its two
/// operands were pushed in.
pub proof fn lemma_commutative_push_order(s: VmModel, t: Seq<i16>, a: i16, b: i16)
    requires
        s.frames.len() > 0,
        s.frames.last().ip < s.instructions.len(),
        is_commutative_op(s.instructions[s.frames.last().ip as int]),
    ensures
        step_spec(with_operands(s, t.push(a).push(b))) == step_spec(
            with_operands(s, t.push(b).push(a)),
        ),
{
    let op = s.instructions[s.frames.last().ip as int];
    let ip = s.frames.last().ip;
    let s1 = with_operands(s, t.push(a).push(b));
    let s2 = with_operands(s, t.push(b).push(a));
    lemma_commutative_result(op, b, a);
    assert(t.push(a).push(b).drop_last().drop_last() =~= t);
    assert(t.push(b).push(a).drop_last().drop_last() =~= t);
    assert(s1.frames.drop_last() =~= s.frames.drop_last());
    assert(s2.frames.drop_last() =~= s.frames.drop_last());
    if binary_op_result(op, b, a) is Ok && ip != u16::MAX {
        let v = binary_op_result(op, b, a)->Ok_0;
        assert(reinserted(s1, FrameModel { stack: t.push(v), ip: (ip + 1) as u16 }) =~~= reinserted(
            s2,
            FrameModel { stack: t.push(v), ip: (ip + 1) as u16 },
        ));
    }
}

/// A two-operand opcode pops `a` — the most recently pushed operand — then
/// `b`, and pushes exactly `binary_op_result(op, a, b)`: `SUB`, for
/// instance, computes the last-pushed value minus the one pushed before it.
pub proof fn lemma_binary_operand_order(s: VmModel)
    requires
        s.frames.len() > 0,
        s.frames.last().ip < s.instructions.len(),
        s.frames.last().ip != u16::MAX,
        is_binary_op(s.instructions[s.frames.last().ip as int]),
        s.frames.last().stack.len() >= 2,
        binary_op_result(
            s.instructions[s.frames.last().ip as int],
            s.frames.last().stack.last(),
            s.frames.last().stack[s.frames.last().stack.len() - 2],
        ) is Ok,
    ensures
        step_spec(s) is Ok,
        ({
            let t = step_spec(s)->Ok_0;
            let a = s.frames.last().stack.last();
            let b = s.frames.last().stack[s.frames.last().stack.len() - 2];
            &&& t.frames.last().stack.last() == binary_op_result(
                s.instructions[s.frames.last().ip as int],
                a,
                b,
            )->Ok_0
            &&& t.frames.last().stack.drop_last() == s.frames.last().stack.drop_last().drop_last()
            &&& t.frames.last().ip == s.frames.last().ip + 1
        }),
{
}

/// `CALL(addr)` saves the caller with its pointer advanced past the call
/// and its operand stack intact, and enters a fresh frame — with an empty
/// operand stack — at `addr`.
pub proof fn lemma_call_enters_callee(s: VmModel, addr: u16)
    requires
        s.frames.len() > 0,
        s.frames.len() < STACK_CAPACITY,
        s.frames.last().ip < s.instructions.len(),
        s.frames.last().ip != u16::MAX,
        s.instructions[s.frames.last().ip as int] == Instruction::CALL(addr),
    ensures
        step_spec(s) is Ok,
        ({
            let t = step_spec(s)->Ok_0;
            &&& t.frames.len() == s.frames.len() + 1
            &&& t.frames.last() == FrameModel { stack: Seq::<i16>::empty(), ip: addr }
            &&& t.frames[s.frames.len() - 1] == FrameModel {
                stack: s.frames.last().stack,
                ip: (s.frames.last().ip + 1) as u16,
            }
            &&& t.frames.drop_last().drop_last() == s.frames.drop_last()
        }),
{
    let t = step_spec(s)->Ok_0;
    assert(t.frames.drop_last().drop_last() =~= s.frames.drop_last());
}

/// `JMP(addr)` makes `instructions[addr]` — addressed absolutely — the
/// instruction the frame will execute next, whatever the current pointer.
pub proof fn lemma_jmp_targets(s: VmModel, addr: u16)
    requires
        s.frames.len() > 0,
        s.frames.last().ip < s.instructions.len(),
        s.instructions[s.frames.last().ip as int] == Instruction::JMP(addr),
    ensures
        step_spec(s) is Ok,
        step_spec(s)->Ok_0.frames.len() == s.frames.len(),
        step_spec(s)->Ok_0.frames.last().ip == addr,
        step_spec(s)->Ok_0.instructions == s.instructions,
{
}

/// `JMPIF(addr)` with a non-zero value on top of the operand stack jumps to
/// `addr` just as `JMP` does.
pub proof fn lemma_jmpif_true_targets(s: VmModel, addr: u16)
    requires
        s.frames.len() > 0,
        s.frames.last().ip < s.instructions.len(),
        s.instructions[s.frames.last().ip as int] == Instruction::JMPIF(addr),
        s.frames.last().stack.len() > 0,
        s.frames.last().stack.last() != 0,
    ensures
        step_spec(s) is Ok,
        step_spec(s)->Ok_0.frames.len() == s.frames.len(),
        step_spec(s)->Ok_0.frames.last().ip == addr,
        step_spec(s)->Ok_0.instructions == s.instructions,
{
}

/// Every state within the next `n` fault-free steps from `s` keeps at least
/// `d` frames on the call stack.
pub open spec fn stays_at_depth(s: VmModel, n: nat, d: nat) -> bool
    decreases n,
{
    n == 0 || {
        &&& step_spec(s) is Ok
        &&& step_spec(s)->Ok_0.frames.len() >= d
        &&& stays_at_depth(step_spec(s)->Ok_0, (n - 1) as nat, d)
    }
}

/// One fault-free step that keeps the call stack at least `d` frames deep
/// cannot touch the frames below the `d`th.
proof fn lemma_step_keeps_lower_frames(s: VmModel, d: nat)
    requires
        d >= 1,
        s.frames.len() >= d,
        step_spec(s) is Ok,
        step_spec(s)->Ok_0.frames.len() >= d,
    ensures
        step_spec(s)->Ok_0.frames.take(d - 1) == s.frames.take(d - 1),
        step_spec(s)->Ok_0.instructions == s.instructions,
{
    let t = step_spec(s)->Ok_0;
    assert(t.frames.take(d - 1) =~= s.frames.take(d - 1));
}

/// A fault-free run that never lets the call stack shrink below `d` frames
/// leaves the frames below the `d`th exactly as they were.
pub proof fn lemma_deep_run_keeps_lower_frames(s: VmModel, n: nat, d: nat)
    requires
        d >= 1,
        s.frames.len() >= d,
        stays_at_depth(s, n, d),
    ensures
        steps(s, n) is Ok,
        steps(s, n)->Ok_0.frames.len() >= d,
        steps(s, n)->Ok_0.frames.take(d - 1) == s.frames.take(d - 1),
        steps(s, n)->Ok_0.instructions == s.instructions,
    decreases n,
{
    if n != 0 {
        lemma_step_keeps_lower_frames(s, d);
        lemma_deep_run_keeps_lower_frames(step_spec(s)->Ok_0, (n - 1) as nat, d);
    }
}

/// `CALL(addr)` followed eventually by the matching `RET` resumes the
/// caller immediately after the `CALL`, with the caller's operand stack
/// exactly as it was before the call; the callee's stack is discarded.
///
/// The callee's work is any `n` fault-free steps that never return past the
/// callee's own frame — nested calls included — after which the callee is
/// back on top, about to execute `RET`.
pub proof fn lemma_call_then_ret(s: VmModel, addr: u16, n: nat)
    requires
        s.frames.len() > 0,
        s.frames.last().ip < s.instructions.len(),
        s.instructions[s.frames.last().ip as int] == Instruction::CALL(addr),
        step_spec(s) is Ok,
        stays_at_depth(step_spec(s)->Ok_0, n, s.frames.len() + 1),
        steps(step_spec(s)->Ok_0, n)->Ok_0.frames.len() == s.frames.len() + 1,
        steps(step_spec(s)->Ok_0, n)->Ok_0.frames.last().ip < s.instructions.len(),
        s.instructions[steps(step_spec(s)->Ok_0, n)->Ok_0.frames.last().ip as int] is RET,
    ensures
        step_spec(steps(step_spec(s)->Ok_0, n)->Ok_0) is Ok,
        ({
            let resumed = step_spec(steps(step_spec(s)->Ok_0, n)->Ok_0)->Ok_0;
            &&& resumed.frames.len() == s.frames.len()
            &&& resumed.frames.last().stack == s.frames.last().stack
            &&& resumed.frames.last().ip == s.frames.last().ip + 1
            &&& resumed.frames.drop_last() == s.frames.drop_last()
        }),
{
    let d = s.frames.len();
    let t = step_spec(s)->Ok_0;
    assert(t.frames.len() == d + 1);
    assert(t.frames[d - 1] == FrameModel {
        stack: s.frames.last().stack,
        ip: (s.frames.last().ip + 1) as u16,
    });
    lemma_deep_run_keeps_lower_frames(t, n, (d + 1) as nat);
    let u = steps(t, n)->Ok_0;
    assert(u.frames.take(d as int) == t.frames.take(d as int));
    let v = step_spec(u)->Ok_0;
    assert(v.frames =~= u.frames.take(d as int));
    assert(v.frames.last() == t.frames[d - 1]);
    assert(v.frames.drop_last() =~= s.frames.drop_last());
}

/// `RETVAL` transfers exactly the callee's top operand onto the caller's
/// stack — leaving the rest of the caller's stack untouched beneath it —
/// and discards the callee's frame.
pub proof fn lemma_retval_transfers_top(s: VmModel)
    requires
        s.frames.len() >= 2,
        s.frames.last().ip < s.instructions.len(),
        s.instructions[s.frames.last().ip as int] is RETVAL,
        s.frames.last().stack.len() > 0,
        s.frames[s.frames.len() - 2].stack.len() < STACK_CAPACITY,
    ensures
        step_spec(s) is Ok,
        ({
            let t = step_spec(s)->Ok_0;
            let caller = s.frames[s.frames.len() - 2];
            &&& t.frames.len() == s.frames.len() - 1
            &&& t.frames.last().stack == caller.stack.push(s.frames.last().stack.last())
            &&& t.frames.last().ip == caller.ip
            &&& t.frames.drop_last() == s.frames.drop_last().drop_last()
            &&& t.variables == s.variables
            &&& t.output == s.output
            &&& t.halted == s.halted
        }),
{
    let t = step_spec(s)->Ok_0;
    assert(t.frames.drop_last() =~= s.frames.drop_last().drop_last());
}

/// The global-store round trip: `PUSH(v)` then `STORE(a)` then `LOAD(a)`
/// leaves `v` on top of the operand stack, for any address and any value.
pub proof fn lemma_store_load_roundtrip(s: VmModel, v: i16, a: u16)
    requires
        s.wf(),
        s.frames.len() > 0,
        s.frames.last().stack.len() < STACK_CAPACITY,
        s.frames.last().ip + 2 < s.instructions.len(),
        s.frames.last().ip + 3 <= u16::MAX,
        s.instructions[s.frames.last().ip as int] == Instruction::PUSH(v),
        s.instructions[s.frames.last().ip + 1] == Instruction::STORE(a),
        s.instructions[s.frames.last().ip + 2] == Instruction::LOAD(a),
    ensures
        steps(s, 3) is Ok,
        ({
            let t = steps(s, 3nat)->Ok_0;
            &&& t.frames.len() == s.frames.len()
            &&& t.frames.last().stack == s.frames.last().stack.push(v)
            &&& t.frames.last().ip == s.frames.last().ip + 3
            &&& t.variables == s.variables.update(a as int, v)
        }),
{
    let f = s.frames.last();
    let s1 = reinserted(s, FrameModel { stack: f.stack.push(v), ip: (f.ip + 1) as u16 });
    assert(step_spec(s) == Ok::<VmModel, VmError>(s1));
    assert(f.stack.push(v).drop_last() =~= f.stack);
    let s2 = VmModel {
        frames: s1.frames.drop_last().push(FrameModel { stack: f.stack, ip: (f.ip + 2) as u16 }),
        variables: s.variables.update(a as int, v),
        ..s
    };
    assert(step_spec(s1) == Ok::<VmModel, VmError>(s2)) by {
        assert(s1.frames.last() == FrameModel { stack: f.stack.push(v), ip: (f.ip + 1) as u16 });
        assert(step_spec(s1)->Ok_0 =~~= s2);
    }
    let s3 = VmModel {
        frames: s2.frames.drop_last().push(
            FrameModel { stack: f.stack.push(v), ip: (f.ip + 3) as u16 },
        ),
        variables: s.variables.update(a as int, v),
        ..s
    };
    assert(step_spec(s2) == Ok::<VmModel, VmError>(s3)) by {
        assert(s2.variables[a as int] == v);
        assert(step_spec(s2)->Ok_0 =~~= s3);
    }
    assert(steps(s3, 0nat) == Ok::<VmModel, VmError>(s3));
    assert(steps(s2, 1nat) == Ok::<VmModel, VmError>(s3));
    assert(steps(s1, 2nat) == Ok::<VmModel, VmError>(s3));
    assert(steps(s, 3nat) == Ok::<VmModel, VmError>(s3));
    assert(s3.frames.len() == s.frames.len());
    assert(s3.frames.last().stack == f.stack.push(v));
}

/// `HALT(code)` sets the halted flag, records the halt code, and discards
/// the current frame; the global table and the emitted output are
/// untouched.  Together with `lemma_halted_is_terminal` and `VM::run`'s
/// contract — the run stops at the first halted state — no instruction
/// executes afterward, and the flag is set exactly once.
pub proof fn lemma_halt_stops_machine(s: VmModel, code: i16)
    requires
        s.frames.len() > 0,
        s.frames.last().ip < s.instructions.len(),
        s.instructions[s.frames.last().ip as int] == Instruction::HALT(code),
    ensures
        step_spec(s) is Ok,
        step_spec(s)->Ok_0.halted,
        step_spec(s)->Ok_0.halt_code == Some(code),
        step_spec(s)->Ok_0.frames == s.frames.drop_last(),
        step_spec(s)->Ok_0.variables == s.variables,
        step_spec(s)->Ok_0.output == s.output,
{
}

/// Only `HALT` sets the halted flag: a fault-free step out of a running
/// state that ends halted executed a `HALT` instruction.
pub proof fn lemma_only_halt_halts(s: VmModel)
    requires
        !s.halted,
        step_spec(s) is Ok,
        step_spec(s)->Ok_0.halted,
    ensures
        s.frames.len() > 0,
        s.frames.last().ip < s.instructions.len(),
        s.instructions[s.frames.last().ip as int] is HALT,
{
}

} // verus!
