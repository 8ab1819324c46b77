use stackvm::vm::Instruction;
use stackvm::vm::Instruction::{
    ADD, AND, CALL, DIV, EQ, GT, GTE, HALT, JMP, JMPIF, LOAD, MOD, MUL, NOT, OR, OUT, POP, PUSH,
    RET, RETVAL, STORE, SUB,
};
use stackvm::vm::VmError;
use stackvm::vm::VM;

fn run_to_end(program: Vec<Instruction>, start: u16) -> VM {
    let mut vm = VM::new(program, start);
    assert_eq!(vm.run(), Ok(()));
    assert!(vm.is_halted());
    vm
}

#[test]
fn new_vm_is_not_halted() {
    let vm = VM::new(vec![HALT(0)], 0);
    assert!(!vm.is_halted());
    assert_eq!(vm.halt_code(), None);
    assert!(vm.output().is_empty());
}

#[test]
fn globals_start_zeroed() {
    let vm = VM::new(vec![HALT(0)], 0);
    assert_eq!(vm.global(0), 0);
    assert_eq!(vm.global(123), 0);
    assert_eq!(vm.global(65535), 0);
}

#[test]
fn add_pushes_sum() {
    let vm = run_to_end(vec![PUSH(2), PUSH(3), ADD, OUT, HALT(0)], 0);
    assert_eq!(vm.output(), &vec![5]);
    assert_eq!(vm.halt_code(), Some(0));
}

#[test]
fn sub_uses_push_order() {
    // push 5, push 3, SUB computes 3 - 5
    let vm = run_to_end(vec![PUSH(5), PUSH(3), SUB, OUT, HALT(0)], 0);
    assert_eq!(vm.output(), &vec![-2]);
}

#[test]
fn div_and_mod_truncate_toward_zero() {
    let vm = run_to_end(vec![PUSH(2), PUSH(7), DIV, OUT, HALT(0)], 0);
    assert_eq!(vm.output(), &vec![3]);
    let vm = run_to_end(vec![PUSH(2), PUSH(7), MOD, OUT, HALT(0)], 0);
    assert_eq!(vm.output(), &vec![1]);
    let vm = run_to_end(vec![PUSH(-2), PUSH(7), DIV, OUT, HALT(0)], 0);
    assert_eq!(vm.output(), &vec![-3]);
    let vm = run_to_end(vec![PUSH(-2), PUSH(7), MOD, OUT, HALT(0)], 0);
    assert_eq!(vm.output(), &vec![1]);
    let vm = run_to_end(vec![PUSH(2), PUSH(-7), DIV, OUT, HALT(0)], 0);
    assert_eq!(vm.output(), &vec![-3]);
    let vm = run_to_end(vec![PUSH(2), PUSH(-7), MOD, OUT, HALT(0)], 0);
    assert_eq!(vm.output(), &vec![-1]);
}

#[test]
fn not_encodes_booleans() {
    let vm = run_to_end(vec![PUSH(0), NOT, OUT, HALT(0)], 0);
    assert_eq!(vm.output(), &vec![1]);
    let vm = run_to_end(vec![PUSH(7), NOT, OUT, HALT(0)], 0);
    assert_eq!(vm.output(), &vec![0]);
}

#[test]
fn comparisons_use_push_order() {
    // push 3, push 5: GT computes 5 > 3
    let vm = run_to_end(vec![PUSH(3), PUSH(5), GT, OUT, HALT(0)], 0);
    assert_eq!(vm.output(), &vec![1]);
    let vm = run_to_end(vec![PUSH(5), PUSH(3), GT, OUT, HALT(0)], 0);
    assert_eq!(vm.output(), &vec![0]);
    let vm = run_to_end(vec![PUSH(5), PUSH(5), GTE, OUT, HALT(0)], 0);
    assert_eq!(vm.output(), &vec![1]);
    let vm = run_to_end(vec![PUSH(6), PUSH(5), GTE, OUT, HALT(0)], 0);
    assert_eq!(vm.output(), &vec![0]);
    let vm = run_to_end(vec![PUSH(4), PUSH(4), EQ, OUT, HALT(0)], 0);
    assert_eq!(vm.output(), &vec![1]);
}

#[test]
fn logic_ops_treat_nonzero_as_true() {
    let vm = run_to_end(vec![PUSH(0), PUSH(-7), OR, OUT, HALT(0)], 0);
    assert_eq!(vm.output(), &vec![1]);
    let vm = run_to_end(vec![PUSH(0), PUSH(0), OR, OUT, HALT(0)], 0);
    assert_eq!(vm.output(), &vec![0]);
    let vm = run_to_end(vec![PUSH(2), PUSH(3), AND, OUT, HALT(0)], 0);
    assert_eq!(vm.output(), &vec![1]);
    let vm = run_to_end(vec![PUSH(0), PUSH(3), AND, OUT, HALT(0)], 0);
    assert_eq!(vm.output(), &vec![0]);
}

#[test]
fn commutative_ops_ignore_push_order() {
    let pairs: [(i16, i16); 4] = [(2, 3), (32767, 1), (-300, 109), (0, -5)];
    for op in [ADD, MUL, AND, OR, EQ] {
        for (a, b) in pairs {
            let one = run_to_end(vec![PUSH(a), PUSH(b), op, OUT, HALT(0)], 0);
            let two = run_to_end(vec![PUSH(b), PUSH(a), op, OUT, HALT(0)], 0);
            assert_eq!(one.output(), two.output());
        }
    }
}

#[test]
fn add_sub_mul_wrap() {
    let vm = run_to_end(vec![PUSH(1), PUSH(32767), ADD, OUT, HALT(0)], 0);
    assert_eq!(vm.output(), &vec![-32768]);
    let vm = run_to_end(vec![PUSH(1), PUSH(-32768), SUB, OUT, HALT(0)], 0);
    assert_eq!(vm.output(), &vec![32767]);
    let vm = run_to_end(vec![PUSH(2), PUSH(20000), MUL, OUT, HALT(0)], 0);
    assert_eq!(vm.output(), &vec![-25536]);
}

#[test]
fn jmp_is_absolute() {
    // the jump lands exactly on instruction 2, skipping the halt at 1
    let vm = run_to_end(vec![JMP(2), HALT(1), PUSH(42), OUT, HALT(0)], 0);
    assert_eq!(vm.output(), &vec![42]);
    assert_eq!(vm.halt_code(), Some(0));
}

#[test]
fn jmpif_jumps_on_nonzero() {
    let vm = run_to_end(vec![PUSH(1), JMPIF(4), PUSH(7), OUT, HALT(2)], 0);
    assert_eq!(vm.output(), &Vec::<i16>::new());
    assert_eq!(vm.halt_code(), Some(2));
}

#[test]
fn jmpif_falls_through_on_zero() {
    let vm = run_to_end(vec![PUSH(0), JMPIF(4), PUSH(1), OUT, HALT(9)], 0);
    assert_eq!(vm.output(), &vec![1]);
    assert_eq!(vm.halt_code(), Some(9));
}

#[test]
fn pop_discards_top() {
    let vm = run_to_end(vec![PUSH(1), PUSH(2), POP, OUT, HALT(0)], 0);
    assert_eq!(vm.output(), &vec![1]);
}

#[test]
fn call_then_ret_preserves_caller_stack() {
    // the callee's own operands are discarded; the caller resumes right
    // after the CALL and still finds its 7
    let vm = run_to_end(vec![PUSH(7), CALL(4), OUT, HALT(0), PUSH(99), RET], 0);
    assert_eq!(vm.output(), &vec![7]);
    assert_eq!(vm.halt_code(), Some(0));
}

#[test]
fn retval_transfers_exactly_the_top() {
    let vm = run_to_end(vec![PUSH(7), CALL(5), OUT, OUT, HALT(0), PUSH(99), RETVAL], 0);
    assert_eq!(vm.output(), &vec![99, 7]);
}

#[test]
fn store_load_roundtrip() {
    let cases: [(u16, i16); 5] = [(0, 0), (0, -32768), (65535, 32767), (123, -1), (65535, -32768)];
    for (a, v) in cases {
        let vm = run_to_end(vec![PUSH(v), STORE(a), LOAD(a), OUT, HALT(0)], 0);
        assert_eq!(vm.output(), &vec![v]);
        assert_eq!(vm.global(a), v);
    }
}

#[test]
fn halt_is_terminal() {
    let mut vm = VM::new(vec![HALT(3), PUSH(1), OUT, HALT(0)], 0);
    assert_eq!(vm.run(), Ok(()));
    assert!(vm.is_halted());
    assert_eq!(vm.halt_code(), Some(3));
    assert!(vm.output().is_empty());
    // running again executes nothing further
    assert_eq!(vm.run(), Ok(()));
    assert_eq!(vm.halt_code(), Some(3));
    assert!(vm.output().is_empty());
}

#[test]
fn insufficient_operands_for_every_alu_opcode() {
    for op in [ADD, SUB, MUL, DIV, MOD, OR, AND, EQ, GT, GTE] {
        // one operand where two are needed
        let mut vm = VM::new(vec![PUSH(1), op], 0);
        assert_eq!(vm.run(), Err(VmError::InsufficientOperands));
        assert!(!vm.is_halted());
    }
    let mut vm = VM::new(vec![NOT], 0);
    assert_eq!(vm.run(), Err(VmError::InsufficientOperands));
}

#[test]
fn insufficient_operands_leaves_state_unmodified() {
    let mut vm = VM::new(vec![PUSH(5), STORE(0), ADD], 0);
    assert_eq!(vm.run(), Err(VmError::InsufficientOperands));
    assert_eq!(vm.global(0), 5);
    assert!(vm.output().is_empty());
    assert!(!vm.is_halted());
}

#[test]
fn unchecked_pops_underflow() {
    for program in [vec![POP], vec![JMPIF(0)], vec![STORE(0)], vec![OUT]] {
        let mut vm = VM::new(program, 0);
        assert_eq!(vm.run(), Err(VmError::StackUnderflow));
    }
    // RETVAL with an empty callee operand stack
    let mut vm = VM::new(vec![CALL(1), RETVAL], 0);
    assert_eq!(vm.run(), Err(VmError::StackUnderflow));
}

#[test]
fn retval_without_caller_empties_the_call_stack() {
    let mut vm = VM::new(vec![PUSH(1), RETVAL], 0);
    assert_eq!(vm.run(), Err(VmError::EmptyCallStack));
}

#[test]
fn ret_below_the_bottom_frame() {
    let mut vm = VM::new(vec![RET], 0);
    assert_eq!(vm.run(), Err(VmError::EmptyCallStack));
}

#[test]
fn pointer_outside_the_program() {
    let mut vm = VM::new(vec![], 0);
    assert_eq!(vm.run(), Err(VmError::InvalidInstructionPointer));
    let mut vm = VM::new(vec![PUSH(1)], 0);
    assert_eq!(vm.run(), Err(VmError::InvalidInstructionPointer));
}

#[test]
fn division_faults() {
    let mut vm = VM::new(vec![PUSH(0), PUSH(5), DIV], 0);
    assert_eq!(vm.run(), Err(VmError::DivisionByZero));
    let mut vm = VM::new(vec![PUSH(0), PUSH(5), MOD], 0);
    assert_eq!(vm.run(), Err(VmError::DivisionByZero));
    let mut vm = VM::new(vec![PUSH(-1), PUSH(-32768), DIV], 0);
    assert_eq!(vm.run(), Err(VmError::DivisionOverflow));
    let mut vm = VM::new(vec![PUSH(-1), PUSH(-32768), MOD], 0);
    assert_eq!(vm.run(), Err(VmError::DivisionOverflow));
}

#[test]
fn operand_stack_overflows_at_capacity() {
    let mut vm = VM::new(vec![PUSH(1), JMP(0)], 0);
    assert_eq!(vm.run(), Err(VmError::StackOverflow));
}

#[test]
fn call_stack_overflows_on_unbounded_recursion() {
    let mut vm = VM::new(vec![CALL(0)], 0);
    assert_eq!(vm.run(), Err(VmError::StackOverflow));
}

#[test]
fn single_steps_report_each_instruction() {
    let mut vm = VM::new(vec![PUSH(5), OUT, HALT(4)], 0);
    assert_eq!(vm.next_instruction(), Ok(()));
    assert!(vm.output().is_empty());
    assert_eq!(vm.next_instruction(), Ok(()));
    assert_eq!(vm.output(), &vec![5]);
    assert!(!vm.is_halted());
    assert_eq!(vm.next_instruction(), Ok(()));
    assert!(vm.is_halted());
    assert_eq!(vm.halt_code(), Some(4));
}

#[test]
fn fibonacci_end_to_end() {
    // seeds globals[0] = 9, globals[1] = 1, globals[2] = 0, then repeatedly
    // steps the pair and decrements the counter until it reaches zero
    let vm = run_to_end(
        vec![
            LOAD(1),
            LOAD(2),
            ADD,
            LOAD(1),
            STORE(2),
            STORE(1),
            RET,
            CALL(0),
            PUSH(1),
            LOAD(0),
            SUB,
            STORE(0),
            LOAD(0),
            NOT,
            JMPIF(16),
            CALL(7),
            RET,
            PUSH(0),
            STORE(2),
            PUSH(1),
            STORE(1),
            PUSH(9),
            STORE(0),
            CALL(7),
            LOAD(1),
            OUT,
            HALT(0),
        ],
        17,
    );
    assert_eq!(vm.output(), &vec![55]);
    assert_eq!(vm.halt_code(), Some(0));
}
