//! The virtual machine: instruction set, frames, the spec-level machine
//! model, and the verified dispatch loop.
//!
//! The behaviour of one step of the machine is written down once, as the
//! spec function [`step_spec`] over the mathematical model [`VmModel`].
//! The executable [`VM::next_instruction`] is proved to agree with it
//! exactly: a step that succeeds moves the machine to the model's successor
//! state, and a step that reports an error leaves the machine unchanged.

use vstd::prelude::*;

use crate::stack::Stack;
use crate::stack::STACK_CAPACITY;

verus! {

/// The number of slots in the global variable table.
pub const GLOBAL_COUNT: u32 = 65536;

/// The largest program a 16-bit instruction pointer can address.
pub const PROGRAM_CAPACITY: u32 = 65536;

/// One opcode, optionally carrying an immediate literal or address operand.
#[derive(Clone, Copy, PartialEq, Eq, Structural, Debug)]
pub enum Instruction {
    HALT(i16),
    ADD,
    SUB,
    MUL,
    DIV,
    MOD,
    NOT,
    OR,
    AND,
    EQ,
    GT,
    GTE,
    JMP(u16),
    JMPIF(u16),
    POP,
    PUSH(i16),
    STORE(u16),
    LOAD(u16),
    CALL(u16),
    RET,
    RETVAL,
    OUT,
}

/// Everything that can stop a step of the machine.
///
/// `InsufficientOperands` is the recoverable pre-check failure of the
/// arithmetic and logic opcodes; every other variant names a condition that
/// is fatal to the whole run.
#[derive(Clone, Copy, PartialEq, Eq, Structural, Debug)]
pub enum VmError {
    /// An arithmetic/logic opcode found fewer operands than it needs.
    InsufficientOperands,
    /// An unchecked pop (`JMPIF`, `POP`, `STORE`, `OUT`, `RETVAL`) found an
    /// empty operand stack.
    StackUnderflow,
    /// A push would exceed a stack's capacity ceiling.
    StackOverflow,
    /// The instruction pointer is outside the instruction sequence, or
    /// advancing it past the current instruction would not fit in 16 bits.
    InvalidInstructionPointer,
    /// The call stack became empty mid-run (a `RET`/`RETVAL` imbalance).
    EmptyCallStack,
    /// `DIV` or `MOD` with a zero divisor.
    DivisionByZero,
    /// `DIV` or `MOD` of the minimum value by minus one.
    DivisionOverflow,
}

/// One activation record: an operand stack plus an instruction pointer.
pub struct Frame {
    stack: Stack<i16>,
    ip: u16,
}

/// The mathematical value of a [`Frame`].
#[verifier::ext_equal]
pub ghost struct FrameModel {
    pub stack: Seq<i16>,
    pub ip: u16,
}

impl View for Frame {
    type V = FrameModel;

    closed spec fn view(&self) -> FrameModel {
        FrameModel { stack: self.stack@, ip: self.ip }
    }
}

/// The mathematical value of a [`VM`]: the call stack (bottom first, the
/// current frame last), the program, the halted flag, the global variable
/// table, the values emitted by `OUT` in order, and the halt code once
/// `HALT` has executed.
#[verifier::ext_equal]
pub ghost struct VmModel {
    pub frames: Seq<FrameModel>,
    pub instructions: Seq<Instruction>,
    pub halted: bool,
    pub variables: Seq<i16>,
    pub output: Seq<i16>,
    pub halt_code: Option<i16>,
}

impl VmModel {
    /// Well-formedness: bounded stacks, a fully allocated global table, and
    /// a program addressable by a 16-bit instruction pointer.
    pub open spec fn wf(self) -> bool {
        &&& self.frames.len() <= STACK_CAPACITY
        &&& forall|i: int|
            0 <= i < self.frames.len() ==> (#[trigger] self.frames[i]).stack.len()
                <= STACK_CAPACITY
        &&& self.variables.len() == GLOBAL_COUNT
        &&& self.instructions.len() <= PROGRAM_CAPACITY
    }
}

/// The `0`/`1` encoding the machine uses for booleans.
pub open spec fn bool_val(b: bool) -> i16 {
    if b {
        1i16
    } else {
        0i16
    }
}

/// Whether `instr` is one of the ten two-operand arithmetic/logic opcodes.
pub open spec fn is_binary_op(instr: Instruction) -> bool {
    ||| instr is ADD
    ||| instr is SUB
    ||| instr is MUL
    ||| instr is DIV
    ||| instr is MOD
    ||| instr is OR
    ||| instr is AND
    ||| instr is EQ
    ||| instr is GT
    ||| instr is GTE
}

/// The value a two-operand opcode pushes, given the most recently pushed
/// operand `a` and the one beneath it `b`, or the error that stops it.
///
/// `ADD`, `SUB` and `MUL` wrap in 16-bit two's complement; `DIV` and `MOD`
/// truncate toward zero and fault on a zero divisor or on dividing the
/// minimum value by minus one.
pub open spec fn binary_op_result(op: Instruction, a: i16, b: i16) -> Result<i16, VmError>
    recommends
        is_binary_op(op),
{
    match op {
        Instruction::ADD => Ok(a.wrapping_add(b)),
        Instruction::SUB => Ok(a.wrapping_sub(b)),
        Instruction::MUL => Ok(a.wrapping_mul(b)),
        Instruction::DIV => match a.checked_div(b) {
            Some(q) => Ok(q),
            None => if b == 0 {
                Err(VmError::DivisionByZero)
            } else {
                Err(VmError::DivisionOverflow)
            },
        },
        Instruction::MOD => match a.checked_rem(b) {
            Some(m) => Ok(m),
            None => if b == 0 {
                Err(VmError::DivisionByZero)
            } else {
                Err(VmError::DivisionOverflow)
            },
        },
        Instruction::OR => Ok(bool_val(a != 0 || b != 0)),
        Instruction::AND => Ok(bool_val(a != 0 && b != 0)),
        Instruction::EQ => Ok(bool_val(a == b)),
        Instruction::GT => Ok(bool_val(a > b)),
        Instruction::GTE => Ok(bool_val(a >= b)),
        _ => arbitrary(),
    }
}

/// `s` with its current (top) frame replaced by `f`.
pub open spec fn reinserted(s: VmModel, f: FrameModel) -> VmModel {
    VmModel { frames: s.frames.drop_last().push(f), ..s }
}

/// One step of the machine, over the model: remove the top frame, execute
/// the instruction at its pointer, and reinsert the updated frame unless the
/// instruction itself altered the call stack's shape.
///
/// Within one instruction, faults are reported in a fixed order: operand
/// availability first, then the operation's own faults, then a pointer
/// advance that would not fit in 16 bits.
pub open spec fn step_spec(s: VmModel) -> Result<VmModel, VmError> {
    if s.frames.len() == 0 {
        Err(VmError::EmptyCallStack)
    } else {
        let f = s.frames.last();
        if f.ip >= s.instructions.len() {
            Err(VmError::InvalidInstructionPointer)
        } else {
            let instr = s.instructions[f.ip as int];
            match instr {
                Instruction::HALT(code) => Ok(
                    VmModel { frames: s.frames.drop_last(), halted: true, halt_code: Some(code), ..s },
                ),
                Instruction::ADD | Instruction::SUB | Instruction::MUL | Instruction::DIV
                | Instruction::MOD | Instruction::OR | Instruction::AND | Instruction::EQ
                | Instruction::GT | Instruction::GTE => {
                    if f.stack.len() < 2 {
                        Err(VmError::InsufficientOperands)
                    } else {
                        let a = f.stack.last();
                        let b = f.stack[f.stack.len() - 2];
                        match binary_op_result(instr, a, b) {
                            Err(e) => Err(e),
                            Ok(v) => if f.ip == u16::MAX {
                                Err(VmError::InvalidInstructionPointer)
                            } else {
                                Ok(
                                    reinserted(
                                        s,
                                        FrameModel {
                                            stack: f.stack.drop_last().drop_last().push(v),
                                            ip: (f.ip + 1) as u16,
                                        },
                                    ),
                                )
                            },
                        }
                    }
                },
                Instruction::NOT => {
                    if f.stack.len() < 1 {
                        Err(VmError::InsufficientOperands)
                    } else if f.ip == u16::MAX {
                        Err(VmError::InvalidInstructionPointer)
                    } else {
                        Ok(
                            reinserted(
                                s,
                                FrameModel {
                                    stack: f.stack.drop_last().push(bool_val(f.stack.last() == 0)),
                                    ip: (f.ip + 1) as u16,
                                },
                            ),
                        )
                    }
                },
                Instruction::JMP(addr) => Ok(reinserted(s, FrameModel { stack: f.stack, ip: addr })),
                Instruction::JMPIF(addr) => {
                    if f.stack.len() == 0 {
                        Err(VmError::StackUnderflow)
                    } else if f.stack.last() != 0 {
                        Ok(reinserted(s, FrameModel { stack: f.stack.drop_last(), ip: addr }))
                    } else if f.ip == u16::MAX {
                        Err(VmError::InvalidInstructionPointer)
                    } else {
                        Ok(
                            reinserted(
                                s,
                                FrameModel { stack: f.stack.drop_last(), ip: (f.ip + 1) as u16 },
                            ),
                        )
                    }
                },
                Instruction::POP => {
                    if f.stack.len() == 0 {
                        Err(VmError::StackUnderflow)
                    } else if f.ip == u16::MAX {
                        Err(VmError::InvalidInstructionPointer)
                    } else {
                        Ok(
                            reinserted(
                                s,
                                FrameModel { stack: f.stack.drop_last(), ip: (f.ip + 1) as u16 },
                            ),
                        )
                    }
                },
                Instruction::PUSH(v) => {
                    if f.stack.len() >= STACK_CAPACITY {
                        Err(VmError::StackOverflow)
                    } else if f.ip == u16::MAX {
                        Err(VmError::InvalidInstructionPointer)
                    } else {
                        Ok(
                            reinserted(
                                s,
                                FrameModel { stack: f.stack.push(v), ip: (f.ip + 1) as u16 },
                            ),
                        )
                    }
                },
                Instruction::STORE(addr) => {
                    if f.stack.len() == 0 {
                        Err(VmError::StackUnderflow)
                    } else if f.ip == u16::MAX {
                        Err(VmError::InvalidInstructionPointer)
                    } else {
                        Ok(
                            VmModel {
                                frames: s.frames.drop_last().push(
                                    FrameModel { stack: f.stack.drop_last(), ip: (f.ip + 1) as u16 },
                                ),
                                variables: s.variables.update(addr as int, f.stack.last()),
                                ..s
                            },
                        )
                    }
                },
                Instruction::LOAD(addr) => {
                    if f.stack.len() >= STACK_CAPACITY {
                        Err(VmError::StackOverflow)
                    } else if f.ip == u16::MAX {
                        Err(VmError::InvalidInstructionPointer)
                    } else {
                        Ok(
                            reinserted(
                                s,
                                FrameModel {
                                    stack: f.stack.push(s.variables[addr as int]),
                                    ip: (f.ip + 1) as u16,
                                },
                            ),
                        )
                    }
                },
                Instruction::CALL(addr) => {
                    if f.ip == u16::MAX {
                        Err(VmError::InvalidInstructionPointer)
                    } else if s.frames.len() >= STACK_CAPACITY {
                        Err(VmError::StackOverflow)
                    } else {
                        Ok(
                            VmModel {
                                frames: s.frames.drop_last().push(
                                    FrameModel { stack: f.stack, ip: (f.ip + 1) as u16 },
                                ).push(FrameModel { stack: Seq::empty(), ip: addr }),
                                ..s
                            },
                        )
                    }
                },
                Instruction::RET => Ok(VmModel { frames: s.frames.drop_last(), ..s }),
                Instruction::RETVAL => {
                    if s.frames.len() < 2 {
                        Err(VmError::EmptyCallStack)
                    } else if f.stack.len() == 0 {
                        Err(VmError::StackUnderflow)
                    } else {
                        let caller = s.frames[s.frames.len() - 2];
                        if caller.stack.len() >= STACK_CAPACITY {
                            Err(VmError::StackOverflow)
                        } else {
                            Ok(
                                VmModel {
                                    frames: s.frames.drop_last().drop_last().push(
                                        FrameModel {
                                            stack: caller.stack.push(f.stack.last()),
                                            ip: caller.ip,
                                        },
                                    ),
                                    ..s
                                },
                            )
                        }
                    }
                },
                Instruction::OUT => {
                    if f.stack.len() == 0 {
                        Err(VmError::StackUnderflow)
                    } else if f.ip == u16::MAX {
                        Err(VmError::InvalidInstructionPointer)
                    } else {
                        Ok(
                            VmModel {
                                frames: s.frames.drop_last().push(
                                    FrameModel { stack: f.stack.drop_last(), ip: (f.ip + 1) as u16 },
                                ),
                                output: s.output.push(f.stack.last()),
                                ..s
                            },
                        )
                    }
                },
            }
        }
    }
}

/// `n` successive steps of the machine from `s`; an error stops the
/// iteration and is the result.
pub open spec fn steps(s: VmModel, n: nat) -> Result<VmModel, VmError>
    decreases n,
{
    if n == 0 {
        Ok(s)
    } else {
        match step_spec(s) {
            Ok(t) => steps(t, (n - 1) as nat),
            Err(e) => Err(e),
        }
    }
}

/// Whether execution from `s` stops — by halting or by a fault — within
/// `n` steps.
pub open spec fn stops_within(s: VmModel, n: nat) -> bool {
    steps(s, n) is Err || steps(s, n)->Ok_0.halted
}

/// Extending a fault-free iteration by one more successful step.
pub proof fn lemma_steps_snoc(s: VmModel, n: nat)
    requires
        steps(s, n) is Ok,
        step_spec(steps(s, n)->Ok_0) is Ok,
    ensures
        steps(s, n + 1) == Ok::<VmModel, VmError>(step_spec(steps(s, n)->Ok_0)->Ok_0),
    decreases n,
{
    if n == 0 {
        let t = step_spec(s)->Ok_0;
        assert(steps(t, 0nat) == Ok::<VmModel, VmError>(t));
        assert(steps(s, 1nat) == steps(t, 0nat));
    } else {
        lemma_steps_snoc(step_spec(s)->Ok_0, (n - 1) as nat);
    }
}

/// A prefix of a fault-free iteration is fault-free.
pub proof fn lemma_steps_prefix(s: VmModel, m: nat, n: nat)
    requires
        m <= n,
        steps(s, n) is Ok,
    ensures
        steps(s, m) is Ok,
    decreases m,
{
    if m != 0 {
        lemma_steps_prefix(step_spec(s)->Ok_0, (m - 1) as nat, (n - 1) as nat);
    }
}

/// Iterating `a + b` steps is iterating `a`, then `b` more from where that
/// ended.
pub proof fn lemma_steps_add(s: VmModel, a: nat, b: nat)
    requires
        steps(s, a) is Ok,
    ensures
        steps(s, a + b) == steps(steps(s, a)->Ok_0, b),
    decreases a,
{
    if a != 0 {
        lemma_steps_add(step_spec(s)->Ok_0, (a - 1) as nat, b);
    }
}

/// No instruction clears the halted flag: one fault-free step out of a
/// halted state leaves the machine halted.
pub proof fn lemma_step_keeps_halted(s: VmModel)
    requires
        s.halted,
        step_spec(s) is Ok,
    ensures
        step_spec(s)->Ok_0.halted,
{
}

/// The halted flag is terminal: it survives any number of fault-free steps.
pub proof fn lemma_halted_is_terminal(s: VmModel, n: nat)
    requires
        s.halted,
        steps(s, n) is Ok,
    ensures
        steps(s, n)->Ok_0.halted,
    decreases n,
{
    if n != 0 {
        lemma_step_keeps_halted(s);
        lemma_halted_is_terminal(step_spec(s)->Ok_0, (n - 1) as nat);
    }
}

/// While the machine has neither halted nor faulted, it has taken fewer
/// steps than any bound within which execution stops.
proof fn lemma_run_bound(s0: VmModel, n: nat, fuel: nat, cur: VmModel)
    requires
        steps(s0, n) == Ok::<VmModel, VmError>(cur),
        !cur.halted,
        stops_within(s0, fuel),
    ensures
        n < fuel,
{
    if n >= fuel {
        lemma_steps_prefix(s0, fuel, n);
        let mid = steps(s0, fuel)->Ok_0;
        lemma_steps_add(s0, fuel, (n - fuel) as nat);
        lemma_halted_is_terminal(mid, (n - fuel) as nat);
        assert(false);
    }
}

/// The virtual machine: the frame (call) stack, the fixed instruction
/// sequence, the halted flag, the global variable table, and the values the
/// program has emitted.
pub struct VM {
    frames: Stack<Frame>,
    instructions: Vec<Instruction>,
    halted: bool,
    variables: Vec<i16>,
    output: Vec<i16>,
    halt_code: Option<i16>,
}

impl View for VM {
    type V = VmModel;

    closed spec fn view(&self) -> VmModel {
        VmModel {
            frames: self.frames@.map_values(|fr: Frame| fr@),
            instructions: self.instructions@,
            halted: self.halted,
            variables: self.variables@,
            output: self.output@,
            halt_code: self.halt_code,
        }
    }
}

/// The machine's state just after construction: one frame with an empty
/// operand stack at `start`, a zeroed global table, nothing halted, nothing
/// emitted.
pub open spec fn init_model(instructions: Seq<Instruction>, start: u16) -> VmModel {
    VmModel {
        frames: seq![FrameModel { stack: Seq::empty(), ip: start }],
        instructions: instructions,
        halted: false,
        variables: Seq::new(GLOBAL_COUNT as nat, |i: int| 0i16),
        output: Seq::empty(),
        halt_code: None,
    }
}

impl VM {
    /// Well-formedness of the machine's internal state.
    pub open spec fn wf(&self) -> bool {
        self@.wf()
    }

    /// Builds a machine for `instructions` whose single starting frame
    /// begins execution at index `start`.
    pub fn new(instructions: Vec<Instruction>, start: u16) -> (vm: VM)
        requires
            instructions@.len() <= PROGRAM_CAPACITY,
        ensures
            vm.wf(),
            vm@ == init_model(instructions@, start),
    {
        let ghost instrs = instructions@;
        let mut frames = Stack::new();
        let main_frame = Frame { stack: Stack::new(), ip: start };
        frames.push(main_frame);
        let mut variables: Vec<i16> = Vec::new();
        while variables.len() < GLOBAL_COUNT as usize
            invariant
                variables@.len() <= GLOBAL_COUNT,
                forall|i: int| 0 <= i < variables@.len() ==> variables@[i] == 0i16,
            decreases GLOBAL_COUNT - variables@.len(),
        {
            variables.push(0i16);
        }
        let vm = VM {
            frames,
            instructions,
            halted: false,
            variables,
            output: Vec::new(),
            halt_code: None,
        };
        proof {
            assert(vm@.frames =~= seq![FrameModel { stack: Seq::<i16>::empty(), ip: start }]);
            assert(vm@.variables =~= Seq::new(GLOBAL_COUNT as nat, |i: int| 0i16));
            assert(vm@ =~~= init_model(instrs, start));
        }
        vm
    }

    /// Whether `HALT` has executed.
    pub fn is_halted(&self) -> (r: bool)
        ensures
            r == self@.halted,
    {
        self.halted
    }

    /// The values emitted by `OUT` so far, oldest first.
    pub fn output(&self) -> (r: &Vec<i16>)
        ensures
            r@ == self@.output,
    {
        &self.output
    }

    /// The code carried by the `HALT` instruction that stopped the machine,
    /// if one has executed.
    pub fn halt_code(&self) -> (r: Option<i16>)
        ensures
            r == self@.halt_code,
    {
        self.halt_code
    }

    /// The current value of global variable `addr`.
    pub fn global(&self, addr: u16) -> (r: i16)
        requires
            self.wf(),
        ensures
            r == self@.variables[addr as int],
    {
        self.variables[addr as usize]
    }

    /// Executes the instruction at the current frame's pointer, as
    /// [`step_spec`] describes; an error leaves the machine unchanged.
    pub fn next_instruction(&mut self) -> (r: Result<(), VmError>)
        requires
            old(self).wf(),
        ensures
            final(self).wf(),
            match r {
                Ok(()) => step_spec(old(self)@) == Ok::<VmModel, VmError>(final(self)@),
                Err(e) => {
                    &&& step_spec(old(self)@) == Err::<VmModel, VmError>(e)
                    &&& final(self)@ == old(self)@
                },
            },
    {
        let ghost s0 = self@;
        proof {
            assert(s0.frames.len() == self.frames@.len());
            assert(forall|i: int|
                0 <= i < self.frames@.len() ==> (#[trigger] self.frames@[i]).stack@.len()
                    == s0.frames[i].stack.len());
        }
        if self.frames.is_empty() {
            return Err(VmError::EmptyCallStack);
        }
        let mut frame = self.frames.pop();
        proof {
            assert(frame@ == s0.frames.last());
            assert(self.frames@.map_values(|fr: Frame| fr@) =~= s0.frames.drop_last());
        }
        if frame.ip as usize >= self.instructions.len() {
            self.frames.push(frame);
            proof {
                assert(self@ =~~= s0);
            }
            return Err(VmError::InvalidInstructionPointer);
        }
        let instr = self.instructions[frame.ip as usize];
        proof {
            assert(instr == s0.instructions[s0.frames.last().ip as int]);
        }
        match instr {
            Instruction::HALT(code) => {
                self.halted = true;
                self.halt_code = Some(code);
                proof {
                    assert(self@ =~~= (VmModel {
                        frames: s0.frames.drop_last(),
                        halted: true,
                        halt_code: Some(code),
                        ..s0
                    }));
                }
                Ok(())
            },
            Instruction::ADD | Instruction::SUB | Instruction::MUL | Instruction::DIV
            | Instruction::MOD | Instruction::OR | Instruction::AND | Instruction::EQ
            | Instruction::GT | Instruction::GTE => {
                if frame.stack.size() < 2 {
                    self.frames.push(frame);
                    proof {
                        assert(self@ =~~= s0);
                    }
                    return Err(VmError::InsufficientOperands);
                }
                let a = *frame.stack.peek(0);
                let b = *frame.stack.peek(1);
                match apply_binary(instr, a, b) {
                    Err(e) => {
                        self.frames.push(frame);
                        proof {
                            assert(self@ =~~= s0);
                        }
                        Err(e)
                    },
                    Ok(v) => {
                        if frame.ip == u16::MAX {
                            self.frames.push(frame);
                            proof {
                                assert(self@ =~~= s0);
                            }
                            return Err(VmError::InvalidInstructionPointer);
                        }
                        frame.stack.pop();
                        frame.stack.pop();
                        frame.stack.push(v);
                        frame.ip = frame.ip + 1;
                        let ghost fnew = frame@;
                        self.frames.push(frame);
                        proof {
                            assert(fnew.stack =~= s0.frames.last().stack.drop_last().drop_last().push(v));
                            assert(self@ =~~= reinserted(s0, fnew));
                        }
                        Ok(())
                    },
                }
            },
            Instruction::NOT => {
                if frame.stack.size() < 1 {
                    self.frames.push(frame);
                    proof {
                        assert(self@ =~~= s0);
                    }
                    return Err(VmError::InsufficientOperands);
                }
                if frame.ip == u16::MAX {
                    self.frames.push(frame);
                    proof {
                        assert(self@ =~~= s0);
                    }
                    return Err(VmError::InvalidInstructionPointer);
                }
                let x = frame.stack.pop();
                frame.stack.push(if x == 0 { 1 } else { 0 });
                frame.ip = frame.ip + 1;
                let ghost fnew = frame@;
                self.frames.push(frame);
                proof {
                    assert(fnew.stack =~= s0.frames.last().stack.drop_last().push(
                        bool_val(s0.frames.last().stack.last() == 0),
                    ));
                    assert(self@ =~~= reinserted(s0, fnew));
                }
                Ok(())
            },
            Instruction::JMP(addr) => {
                frame.ip = addr;
                let ghost fnew = frame@;
                self.frames.push(frame);
                proof {
                    assert(self@ =~~= reinserted(s0, fnew));
                }
                Ok(())
            },
            Instruction::JMPIF(addr) => {
                if frame.stack.is_empty() {
                    self.frames.push(frame);
                    proof {
                        assert(self@ =~~= s0);
                    }
                    return Err(VmError::StackUnderflow);
                }
                let c = frame.stack.pop();
                if c != 0 {
                    frame.ip = addr;
                } else {
                    if frame.ip == u16::MAX {
                        frame.stack.push(c);
                        proof {
                            assert(frame@.stack =~= s0.frames.last().stack);
                        }
                        self.frames.push(frame);
                        proof {
                            assert(self@ =~~= s0);
                        }
                        return Err(VmError::InvalidInstructionPointer);
                    }
                    frame.ip = frame.ip + 1;
                }
                let ghost fnew = frame@;
                self.frames.push(frame);
                proof {
                    assert(self@ =~~= reinserted(s0, fnew));
                }
                Ok(())
            },
            Instruction::POP => {
                if frame.stack.is_empty() {
                    self.frames.push(frame);
                    proof {
                        assert(self@ =~~= s0);
                    }
                    return Err(VmError::StackUnderflow);
                }
                if frame.ip == u16::MAX {
                    self.frames.push(frame);
                    proof {
                        assert(self@ =~~= s0);
                    }
                    return Err(VmError::InvalidInstructionPointer);
                }
                frame.stack.pop();
                frame.ip = frame.ip + 1;
                let ghost fnew = frame@;
                self.frames.push(frame);
                proof {
                    assert(self@ =~~= reinserted(s0, fnew));
                }
                Ok(())
            },
            Instruction::PUSH(v) => {
                if frame.stack.is_full() {
                    self.frames.push(frame);
                    proof {
                        assert(self@ =~~= s0);
                    }
                    return Err(VmError::StackOverflow);
                }
                if frame.ip == u16::MAX {
                    self.frames.push(frame);
                    proof {
                        assert(self@ =~~= s0);
                    }
                    return Err(VmError::InvalidInstructionPointer);
                }
                frame.stack.push(v);
                frame.ip = frame.ip + 1;
                let ghost fnew = frame@;
                self.frames.push(frame);
                proof {
                    assert(self@ =~~= reinserted(s0, fnew));
                }
                Ok(())
            },
            Instruction::STORE(addr) => {
                if frame.stack.is_empty() {
                    self.frames.push(frame);
                    proof {
                        assert(self@ =~~= s0);
                    }
                    return Err(VmError::StackUnderflow);
                }
                if frame.ip == u16::MAX {
                    self.frames.push(frame);
                    proof {
                        assert(self@ =~~= s0);
                    }
                    return Err(VmError::InvalidInstructionPointer);
                }
                let v = frame.stack.pop();
                self.variables.set(addr as usize, v);
                frame.ip = frame.ip + 1;
                let ghost fnew = frame@;
                self.frames.push(frame);
                proof {
                    assert(self@ =~~= (VmModel {
                        frames: s0.frames.drop_last().push(fnew),
                        variables: s0.variables.update(addr as int, v),
                        ..s0
                    }));
                }
                Ok(())
            },
            Instruction::LOAD(addr) => {
                if frame.stack.is_full() {
                    self.frames.push(frame);
                    proof {
                        assert(self@ =~~= s0);
                    }
                    return Err(VmError::StackOverflow);
                }
                if frame.ip == u16::MAX {
                    self.frames.push(frame);
                    proof {
                        assert(self@ =~~= s0);
                    }
                    return Err(VmError::InvalidInstructionPointer);
                }
                let v = self.variables[addr as usize];
                frame.stack.push(v);
                frame.ip = frame.ip + 1;
                let ghost fnew = frame@;
                self.frames.push(frame);
                proof {
                    assert(self@ =~~= reinserted(s0, fnew));
                }
                Ok(())
            },
            Instruction::CALL(addr) => {
                if frame.ip == u16::MAX {
                    self.frames.push(frame);
                    proof {
                        assert(self@ =~~= s0);
                    }
                    return Err(VmError::InvalidInstructionPointer);
                }
                if self.frames.size() >= STACK_CAPACITY - 1 {
                    self.frames.push(frame);
                    proof {
                        assert(self@ =~~= s0);
                    }
                    return Err(VmError::StackOverflow);
                }
                frame.ip = frame.ip + 1;
                let ghost caller = frame@;
                self.frames.push(frame);
                let callee = Frame { stack: Stack::new(), ip: addr };
                let ghost calleeg = callee@;
                self.frames.push(callee);
                proof {
                    assert(calleeg =~= FrameModel { stack: Seq::empty(), ip: addr });
                    assert(self@ =~~= (VmModel {
                        frames: s0.frames.drop_last().push(caller).push(calleeg),
                        ..s0
                    }));
                }
                Ok(())
            },
            Instruction::RET => {
                proof {
                    assert(self@ =~~= (VmModel { frames: s0.frames.drop_last(), ..s0 }));
                }
                Ok(())
            },
            Instruction::RETVAL => {
                if self.frames.is_empty() {
                    self.frames.push(frame);
                    proof {
                        assert(self@ =~~= s0);
                    }
                    return Err(VmError::EmptyCallStack);
                }
                if frame.stack.is_empty() {
                    self.frames.push(frame);
                    proof {
                        assert(self@ =~~= s0);
                    }
                    return Err(VmError::StackUnderflow);
                }
                let mut caller = self.frames.pop();
                proof {
                    assert(caller@ == s0.frames[s0.frames.len() - 2]);
                }
                if caller.stack.is_full() {
                    self.frames.push(caller);
                    self.frames.push(frame);
                    proof {
                        assert(self@ =~~= s0);
                    }
                    return Err(VmError::StackOverflow);
                }
                let v = frame.stack.pop();
                caller.stack.push(v);
                let ghost callerg = caller@;
                self.frames.push(caller);
                proof {
                    assert(self@ =~~= (VmModel {
                        frames: s0.frames.drop_last().drop_last().push(callerg),
                        ..s0
                    }));
                }
                Ok(())
            },
            Instruction::OUT => {
                if frame.stack.is_empty() {
                    self.frames.push(frame);
                    proof {
                        assert(self@ =~~= s0);
                    }
                    return Err(VmError::StackUnderflow);
                }
                if frame.ip == u16::MAX {
                    self.frames.push(frame);
                    proof {
                        assert(self@ =~~= s0);
                    }
                    return Err(VmError::InvalidInstructionPointer);
                }
                let v = frame.stack.pop();
                self.output.push(v);
                frame.ip = frame.ip + 1;
                let ghost fnew = frame@;
                self.frames.push(frame);
                proof {
                    assert(self@ =~~= (VmModel {
                        frames: s0.frames.drop_last().push(fnew),
                        output: s0.output.push(v),
                        ..s0
                    }));
                }
                Ok(())
            },
        }
    }

    /// Repeats single steps until the halted flag is set; the first error a
    /// step reports aborts the whole run.
    ///
    /// Verified functions must terminate, so the contract asks that
    /// execution stop — by halting or by a fault — within some number of
    /// steps.  The final state is exactly where the fault-free iteration
    /// from the starting state first halts, or the state whose step faults.
    pub fn run(&mut self) -> (r: Result<(), VmError>)
        requires
            old(self).wf(),
            exists|n: nat| stops_within(old(self)@, n),
        ensures
            final(self).wf(),
            exists|n: nat|
                {
                    &&& #[trigger] steps(old(self)@, n) == Ok::<VmModel, VmError>(final(self)@)
                    &&& forall|m: nat| m < n ==> !(#[trigger] steps(old(self)@, m))->Ok_0.halted
                },
            match r {
                Ok(()) => final(self)@.halted,
                Err(e) => {
                    &&& !final(self)@.halted
                    &&& step_spec(final(self)@) == Err::<VmModel, VmError>(e)
                },
            },
    {
        let ghost s0 = self@;
        let ghost fuel = choose|m: nat| stops_within(s0, m);
        let ghost mut n: nat = 0nat;
        loop
            invariant
                self.wf(),
                s0 == old(self)@,
                stops_within(s0, fuel),
                steps(s0, n) == Ok::<VmModel, VmError>(self@),
                forall|m: nat| m < n ==> !(#[trigger] steps(s0, m))->Ok_0.halted,
            decreases fuel - n,
        {
            if self.is_halted() {
                proof {
                    assert(exists|k: nat|
                        {
                            &&& #[trigger] steps(s0, k) == Ok::<VmModel, VmError>(self@)
                            &&& forall|m: nat| m < k ==> !(#[trigger] steps(s0, m))->Ok_0.halted
                        }) by {
                        assert(steps(s0, n) == Ok::<VmModel, VmError>(self@));
                    }
                }
                return Ok(());
            }
            proof {
                lemma_run_bound(s0, n, fuel, self@);
            }
            let ghost pre = self@;
            match self.next_instruction() {
                Ok(()) => {
                    proof {
                        lemma_steps_snoc(s0, n);
                        assert(steps(s0, n) == Ok::<VmModel, VmError>(pre) && !pre.halted);
                        n = n + 1;
                    }
                },
                Err(e) => {
                    proof {
                        assert(exists|k: nat|
                            {
                                &&& #[trigger] steps(s0, k) == Ok::<VmModel, VmError>(self@)
                                &&& forall|m: nat| m < k ==> !(#[trigger] steps(s0, m))->Ok_0.halted
                            }) by {
                            assert(steps(s0, n) == Ok::<VmModel, VmError>(self@));
                        }
                    }
                    return Err(e);
                },
            }
        }
    }
}

/// The two-operand arithmetic/logic opcodes' shared computation.
fn apply_binary(op: Instruction, a: i16, b: i16) -> (r: Result<i16, VmError>)
    requires
        is_binary_op(op),
    ensures
        r == binary_op_result(op, a, b),
{
    match op {
        Instruction::ADD => Ok(a.wrapping_add(b)),
        Instruction::SUB => Ok(a.wrapping_sub(b)),
        Instruction::MUL => Ok(a.wrapping_mul(b)),
        Instruction::DIV => match a.checked_div(b) {
            Some(q) => Ok(q),
            None => if b == 0 {
                Err(VmError::DivisionByZero)
            } else {
                Err(VmError::DivisionOverflow)
            },
        },
        Instruction::MOD => match a.checked_rem(b) {
            Some(m) => Ok(m),
            None => if b == 0 {
                Err(VmError::DivisionByZero)
            } else {
                Err(VmError::DivisionOverflow)
            },
        },
        Instruction::OR => Ok(if a != 0 || b != 0 { 1 } else { 0 }),
        Instruction::AND => Ok(if a != 0 && b != 0 { 1 } else { 0 }),
        Instruction::EQ => Ok(if a == b { 1 } else { 0 }),
        Instruction::GT => Ok(if a > b { 1 } else { 0 }),
        Instruction::GTE => Ok(if a >= b { 1 } else { 0 }),
        _ => unreached(),
    }
}

} // verus!
