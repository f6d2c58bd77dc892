use lox_vm::chunk::Chunk;
use lox_vm::compiler::CompileError;
use lox_vm::instruction::{DecodeError, Instruction};
use lox_vm::scanner::LexError;
use lox_vm::vm::{interpret, BinaryOp, Expr, InterpretResult, RuntimeFault, VM};

fn eval(e: &Expr, constants: &[f64]) -> f64 {
    match e {
        Expr::Constant(i) => constants[*i],
        Expr::Negate(a) => -eval(a, constants),
        Expr::Binary(op, a, b) => {
            let (a, b) = (eval(a, constants), eval(b, constants));
            match op {
                BinaryOp::Add => a + b,
                BinaryOp::Subtract => a - b,
                BinaryOp::Multiply => a * b,
                BinaryOp::Divide => a / b,
            }
        }
    }
}

fn run_value(chunk: &Chunk<f64>) -> f64 {
    match VM::interpret(chunk) {
        InterpretResult::Completed(Some(e)) => eval(&e, &chunk.constants),
        other => panic!("no value: {:?}", other),
    }
}

fn binary_program(a: f64, b: f64, op: Instruction) -> Chunk<f64> {
    let mut chunk = Chunk::new();
    chunk.write_constant(a, 1);
    chunk.write_constant(b, 1);
    chunk.write_instruction(op, 1);
    chunk.write_instruction(Instruction::OpReturn, 1);
    chunk
}

#[test]
fn subtract_takes_operands_in_push_order() {
    let chunk = binary_program(10.0, 4.0, Instruction::OpSubtract);
    assert_eq!(
        VM::interpret(&chunk),
        InterpretResult::Completed(Some(Expr::Binary(
            BinaryOp::Subtract,
            Box::new(Expr::Constant(0)),
            Box::new(Expr::Constant(1)),
        )))
    );
    assert_eq!(run_value(&chunk), 6.0);
}

#[test]
fn divide_takes_operands_in_push_order() {
    let chunk = binary_program(8.0, 2.0, Instruction::OpDivide);
    assert_eq!(run_value(&chunk), 4.0);
}

#[test]
fn add_and_multiply() {
    assert_eq!(run_value(&binary_program(1.5, 2.0, Instruction::OpAdd)), 3.5);
    assert_eq!(run_value(&binary_program(1.5, 2.0, Instruction::OpMultiply)), 3.0);
}

#[test]
fn division_by_zero_is_infinite() {
    let v = run_value(&binary_program(1.0, 0.0, Instruction::OpDivide));
    assert!(v.is_infinite() && v > 0.0);
}

#[test]
fn arithmetic_scenario() {
    let mut chunk = Chunk::new();
    chunk.write_constant(1.2, 123);
    chunk.write_constant(3.4, 123);
    chunk.write_instruction(Instruction::OpAdd, 123);
    chunk.write_constant(5.6, 123);
    chunk.write_instruction(Instruction::OpDivide, 123);
    chunk.write_instruction(Instruction::OpNegate, 123);
    chunk.write_instruction(Instruction::OpReturn, 123);
    assert_eq!(run_value(&chunk), -((1.2 + 3.4) / 5.6));
}

#[test]
fn add_on_empty_stack_faults() {
    let mut chunk: Chunk<f64> = Chunk::new();
    chunk.write_instruction(Instruction::OpAdd, 1);
    chunk.write_instruction(Instruction::OpReturn, 1);
    assert_eq!(
        VM::interpret(&chunk),
        InterpretResult::RuntimeError(RuntimeFault::StackUnderflow)
    );
}

#[test]
fn binary_with_one_operand_faults() {
    let mut chunk: Chunk<f64> = Chunk::new();
    chunk.write_constant(1.0, 1);
    chunk.write_instruction(Instruction::OpSubtract, 1);
    assert_eq!(
        VM::interpret(&chunk),
        InterpretResult::RuntimeError(RuntimeFault::StackUnderflow)
    );
}

#[test]
fn return_and_negate_on_empty_stack_fault() {
    for op in [Instruction::OpReturn, Instruction::OpNegate] {
        let mut chunk: Chunk<f64> = Chunk::new();
        chunk.write_instruction(op, 1);
        assert_eq!(
            VM::interpret(&chunk),
            InterpretResult::RuntimeError(RuntimeFault::StackUnderflow)
        );
    }
}

#[test]
fn constant_out_of_range_faults() {
    let mut chunk: Chunk<f64> = Chunk::new();
    chunk.write_instruction(Instruction::OpConstant(3), 1);
    assert_eq!(
        VM::interpret(&chunk),
        InterpretResult::RuntimeError(RuntimeFault::ConstantOutOfRange(3))
    );
    let mut chunk: Chunk<f64> = Chunk::new();
    chunk.write_instruction(Instruction::OpConstantLong(70000), 1);
    assert_eq!(
        VM::interpret(&chunk),
        InterpretResult::RuntimeError(RuntimeFault::ConstantOutOfRange(70000))
    );
}

#[test]
fn undecodable_bytes_fault() {
    let mut chunk: Chunk<f64> = Chunk::new();
    chunk.write_chunk(0, 1);
    assert_eq!(
        VM::interpret(&chunk),
        InterpretResult::RuntimeError(RuntimeFault::Decode(DecodeError::UnknownOpcode(0)))
    );
    let mut chunk: Chunk<f64> = Chunk::new();
    chunk.write_constant(1.0, 1);
    chunk.write_chunk(lox_vm::instruction::OP_CONSTANT, 1);
    assert_eq!(
        VM::interpret(&chunk),
        InterpretResult::RuntimeError(RuntimeFault::Decode(DecodeError::Truncated))
    );
}

#[test]
fn return_ends_execution() {
    let mut chunk: Chunk<f64> = Chunk::new();
    chunk.write_constant(1.0, 1);
    chunk.write_instruction(Instruction::OpReturn, 1);
    chunk.write_instruction(Instruction::OpAdd, 2);
    assert_eq!(
        VM::interpret(&chunk),
        InterpretResult::Completed(Some(Expr::Constant(0)))
    );
}

#[test]
fn code_without_return_completes_without_value() {
    let mut chunk: Chunk<f64> = Chunk::new();
    assert_eq!(VM::interpret(&chunk), InterpretResult::Completed(None));
    chunk.write_constant(1.0, 1);
    assert_eq!(VM::interpret(&chunk), InterpretResult::Completed(None));
}

#[test]
fn interpreting_twice_gives_the_same_outcome() {
    let chunk = binary_program(7.0, 2.0, Instruction::OpSubtract);
    assert_eq!(VM::interpret(&chunk), VM::interpret(&chunk));
    let mut faulty: Chunk<f64> = Chunk::new();
    faulty.write_instruction(Instruction::OpAdd, 1);
    assert_eq!(VM::interpret(&faulty), VM::interpret(&faulty));
}

#[test]
fn compile_error_is_never_run() {
    let err = CompileError { line: 2, error: LexError::UnexpectedCharacter };
    let compiled: Result<Chunk<f64>, CompileError> = Err(err);
    assert_eq!(interpret(&compiled), InterpretResult::CompileError(err));
}

#[test]
fn compiled_chunk_is_run() {
    let compiled: Result<Chunk<f64>, CompileError> =
        Ok(binary_program(7.0, 2.0, Instruction::OpMultiply));
    match (&compiled, interpret(&compiled)) {
        (Ok(chunk), InterpretResult::Completed(Some(e))) => {
            assert_eq!(eval(&e, &chunk.constants), 14.0)
        }
        _ => panic!("expected a value"),
    }
}
