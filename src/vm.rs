use vstd::prelude::*;
use crate::chunk::Chunk;
use crate::compiler::CompileError;
use crate::instruction::{
    decode, decoded, encoding, lemma_decode_encode, DecodeError, Instruction, OP_ADD, OP_NEGATE,
    OP_RETURN,
};

verus! {

#[derive(PartialEq, Eq, Structural, Clone, Copy, Debug)]
pub enum BinaryOp {
    Add,
    Subtract,
    Multiply,
    Divide,
}

/// A value on the machine's stack, as the arithmetic that computes it from
/// the chunk's constants: the machine decides which operation is applied to
/// which operands, in which order, and the host evaluates the result.
#[derive(PartialEq, Debug)]
pub enum Expr {
    Constant(usize),
    Negate(Box<Expr>),
    Binary(BinaryOp, Box<Expr>, Box<Expr>),
}

/// Why execution stopped before the program returned.
#[derive(PartialEq, Eq, Structural, Clone, Copy, Debug)]
pub enum RuntimeFault {
    Decode(DecodeError),
    ConstantOutOfRange(u32),
    StackUnderflow,
}

#[derive(PartialEq, Debug)]
pub enum InterpretResult {
    /// Execution ended: with the value that `Return` yielded, or with `None`
    /// where the code ran out first.
    Completed(Option<Expr>),
    CompileError(CompileError),
    RuntimeError(RuntimeFault),
}

/// What one instruction does to the stack.
pub enum Step {
    Continue(Seq<Expr>),
    Return(Expr),
    Fault(RuntimeFault),
}

/// The stack after popping `b` then `a` and pushing `a op b`.
pub open spec fn apply_binary(op: BinaryOp, stack: Seq<Expr>) -> Step {
    if stack.len() < 2 {
        Step::Fault(RuntimeFault::StackUnderflow)
    } else {
        let b = stack[stack.len() - 1];
        let a = stack[stack.len() - 2];
        Step::Continue(
            stack.take(stack.len() - 2).push(Expr::Binary(op, Box::new(a), Box::new(b))),
        )
    }
}

pub open spec fn load_constant(index: u32, n_consts: nat, stack: Seq<Expr>) -> Step {
    if (index as nat) < n_consts {
        Step::Continue(stack.push(Expr::Constant(index as usize)))
    } else {
        Step::Fault(RuntimeFault::ConstantOutOfRange(index))
    }
}

/// One instruction executed on `stack`, with a pool of `n_consts` constants.
pub open spec fn step(inst: Instruction, n_consts: nat, stack: Seq<Expr>) -> Step {
    match inst {
        Instruction::OpConstant(i) => load_constant(i as u32, n_consts, stack),
        Instruction::OpConstantLong(i) => load_constant(i, n_consts, stack),
        Instruction::OpAdd => apply_binary(BinaryOp::Add, stack),
        Instruction::OpSubtract => apply_binary(BinaryOp::Subtract, stack),
        Instruction::OpMultiply => apply_binary(BinaryOp::Multiply, stack),
        Instruction::OpDivide => apply_binary(BinaryOp::Divide, stack),
        Instruction::OpNegate => if stack.len() == 0 {
            Step::Fault(RuntimeFault::StackUnderflow)
        } else {
            Step::Continue(stack.drop_last().push(Expr::Negate(Box::new(stack.last()))))
        },
        Instruction::OpReturn => if stack.len() == 0 {
            Step::Fault(RuntimeFault::StackUnderflow)
        } else {
            Step::Return(stack.last())
        },
    }
}

/// The result of running `code` from offset `ip` with `stack`.
pub open spec fn outcome(code: Seq<u8>, n_consts: nat, ip: nat, stack: Seq<Expr>) -> InterpretResult
    decreases code.len() - ip,
    via outcome_decreases
{
    if ip >= code.len() {
        InterpretResult::Completed(None)
    } else {
        match decoded(code, ip as int) {
            Err(e) => InterpretResult::RuntimeError(RuntimeFault::Decode(e)),
            Ok((size, inst)) => match step(inst, n_consts, stack) {
                Step::Continue(next) => outcome(code, n_consts, ip + size, next),
                Step::Return(v) => InterpretResult::Completed(Some(v)),
                Step::Fault(f) => InterpretResult::RuntimeError(f),
            },
        }
    }
}

#[via_fn]
proof fn outcome_decreases(code: Seq<u8>, n_consts: nat, ip: nat, stack: Seq<Expr>) {
}

/// The stack when the code runs out, on a run from offset `ip` with `stack`
/// that neither returns nor faults.
pub open spec fn end_stack(code: Seq<u8>, n_consts: nat, ip: nat, stack: Seq<Expr>) -> Seq<Expr>
    decreases code.len() - ip,
    via end_stack_decreases
{
    if ip >= code.len() {
        stack
    } else {
        match decoded(code, ip as int) {
            Ok((size, inst)) => match step(inst, n_consts, stack) {
                Step::Continue(next) => end_stack(code, n_consts, ip + size, next),
                _ => stack,
            },
            Err(_) => stack,
        }
    }
}

#[via_fn]
proof fn end_stack_decreases(code: Seq<u8>, n_consts: nat, ip: nat, stack: Seq<Expr>) {
}

/// What interpreting a chunk gives, from offset 0 with an empty stack.
pub open spec fn interpretation<V>(chunk: &Chunk<V>) -> InterpretResult {
    outcome(chunk.code@, chunk.constants@.len(), 0, Seq::empty())
}

/// A machine running one chunk: its instruction pointer and its own stack.
pub struct VM<'a, V> {
    chunk: &'a Chunk<V>,
    ip: usize,
    stack: Vec<Expr>,
}

impl<'a, V> VM<'a, V> {
    /// Runs `chunk` on a fresh machine until it returns, runs out of code
    /// or faults.
    pub fn interpret(chunk: &'a Chunk<V>) -> (r: InterpretResult)
        ensures
            r == interpretation(chunk),
    {
        let mut vm = VM { chunk, ip: 0, stack: Vec::new() };
        vm.run()
    }

    fn binary(&mut self, op: BinaryOp) -> (ok: bool)
        ensures
            final(self).chunk == old(self).chunk,
            final(self).ip == old(self).ip,
            ok <==> old(self).stack@.len() >= 2,
            ok ==> apply_binary(op, old(self).stack@) == Step::Continue(final(self).stack@),
    {
        if self.stack.len() < 2 {
            return false;
        }
        let b = self.stack.pop().unwrap();
        let a = self.stack.pop().unwrap();
        self.stack.push(Expr::Binary(op, Box::new(a), Box::new(b)));
        assert(final(self).stack@ =~= old(self).stack@.take(old(self).stack@.len() - 2).push(
            Expr::Binary(op, Box::new(a), Box::new(b)),
        ));
        true
    }

    fn run(&mut self) -> (r: InterpretResult)
        requires
            old(self).ip <= old(self).chunk.code@.len(),
        ensures
            final(self).chunk == old(self).chunk,
            r == outcome(
                old(self).chunk.code@,
                old(self).chunk.constants@.len(),
                old(self).ip as nat,
                old(self).stack@,
            ),
            r == InterpretResult::Completed(None) ==> final(self).ip == final(self).chunk.code@.len()
                && final(self).stack@ == end_stack(
                old(self).chunk.code@,
                old(self).chunk.constants@.len(),
                old(self).ip as nat,
                old(self).stack@,
            ),
    {
        let len = self.chunk.code.len();
        let ghost code = self.chunk.code@;
        let ghost n = self.chunk.constants@.len();
        let ghost goal = outcome(code, n, self.ip as nat, self.stack@);
        while self.ip < len
            invariant
                self.chunk == old(self).chunk,
                code == self.chunk.code@,
                n == self.chunk.constants@.len(),
                len == code.len(),
                goal == outcome(
                    old(self).chunk.code@,
                    old(self).chunk.constants@.len(),
                    old(self).ip as nat,
                    old(self).stack@,
                ),
                outcome(code, n, self.ip as nat, self.stack@) == goal,
                end_stack(code, n, self.ip as nat, self.stack@) == end_stack(
                    old(self).chunk.code@,
                    old(self).chunk.constants@.len(),
                    old(self).ip as nat,
                    old(self).stack@,
                ),
                self.ip <= len,
            decreases len - self.ip,
        {
            let (size, inst) = match decode(&self.chunk.code, self.ip) {
                Ok(d) => d,
                Err(e) => return InterpretResult::RuntimeError(RuntimeFault::Decode(e)),
            };
            let ghost before = self.stack@;
            match inst {
                Instruction::OpConstant(i) => {
                    if (i as usize) < self.chunk.constants.len() {
                        self.stack.push(Expr::Constant(i as usize));
                    } else {
                        return InterpretResult::RuntimeError(
                            RuntimeFault::ConstantOutOfRange(i as u32),
                        );
                    }
                },
                Instruction::OpConstantLong(i) => {
                    if (i as usize) < self.chunk.constants.len() {
                        self.stack.push(Expr::Constant(i as usize));
                    } else {
                        return InterpretResult::RuntimeError(RuntimeFault::ConstantOutOfRange(i));
                    }
                },
                Instruction::OpReturn => {
                    match self.stack.pop() {
                        Some(v) => return InterpretResult::Completed(Some(v)),
                        None => return InterpretResult::RuntimeError(RuntimeFault::StackUnderflow),
                    }
                },
                Instruction::OpNegate => {
                    match self.stack.pop() {
                        Some(v) => self.stack.push(Expr::Negate(Box::new(v))),
                        None => return InterpretResult::RuntimeError(RuntimeFault::StackUnderflow),
                    }
                },
                Instruction::OpAdd => {
                    if !self.binary(BinaryOp::Add) {
                        return InterpretResult::RuntimeError(RuntimeFault::StackUnderflow);
                    }
                },
                Instruction::OpSubtract => {
                    if !self.binary(BinaryOp::Subtract) {
                        return InterpretResult::RuntimeError(RuntimeFault::StackUnderflow);
                    }
                },
                Instruction::OpMultiply => {
                    if !self.binary(BinaryOp::Multiply) {
                        return InterpretResult::RuntimeError(RuntimeFault::StackUnderflow);
                    }
                },
                Instruction::OpDivide => {
                    if !self.binary(BinaryOp::Divide) {
                        return InterpretResult::RuntimeError(RuntimeFault::StackUnderflow);
                    }
                },
            }
            assert(step(inst, n, before) == Step::Continue(self.stack@));
            self.ip = self.ip + size;
        }
        InterpretResult::Completed(None)
    }
}

/// The arithmetic operation of an instruction, if it is one.
pub open spec fn binary_op_of(inst: Instruction) -> Option<BinaryOp> {
    match inst {
        Instruction::OpAdd => Some(BinaryOp::Add),
        Instruction::OpSubtract => Some(BinaryOp::Subtract),
        Instruction::OpMultiply => Some(BinaryOp::Multiply),
        Instruction::OpDivide => Some(BinaryOp::Divide),
        _ => None,
    }
}

/// Loading constant `a`, then constant `b`, then applying an arithmetic
/// operation and returning yields `a op b`: the value pushed first is the
/// left operand.
pub proof fn lemma_binary_operand_order(code: Seq<u8>, n_consts: nat, a: u8, b: u8, op: Instruction)
    requires
        binary_op_of(op) is Some,
        (a as nat) < n_consts,
        (b as nat) < n_consts,
        code == encoding(Instruction::OpConstant(a)) + encoding(Instruction::OpConstant(b))
            + encoding(op) + encoding(Instruction::OpReturn),
    ensures
        outcome(code, n_consts, 0, Seq::empty()) == InterpretResult::Completed(
            Some(
                Expr::Binary(
                    binary_op_of(op)->0,
                    Box::new(Expr::Constant(a as usize)),
                    Box::new(Expr::Constant(b as usize)),
                ),
            ),
        ),
{
    let e0 = encoding(Instruction::OpConstant(a));
    let e1 = encoding(Instruction::OpConstant(b));
    let e2 = encoding(op);
    let e3 = encoding(Instruction::OpReturn);
    lemma_decode_encode(Instruction::OpConstant(a), Seq::empty(), e1 + e2 + e3);
    assert(code =~= Seq::<u8>::empty() + e0 + (e1 + e2 + e3));
    lemma_decode_encode(Instruction::OpConstant(b), e0, e2 + e3);
    assert(code =~= e0 + e1 + (e2 + e3));
    lemma_decode_encode(op, e0 + e1, e3);
    assert(code =~= (e0 + e1) + e2 + e3);
    lemma_decode_encode(Instruction::OpReturn, e0 + e1 + e2, Seq::empty());
    assert(code =~= (e0 + e1 + e2) + e3 + Seq::<u8>::empty());
    let s1 = Seq::<Expr>::empty().push(Expr::Constant(a as usize));
    let s2 = s1.push(Expr::Constant(b as usize));
    assert(s2.take(0) =~= Seq::<Expr>::empty());
    let s3 = Seq::<Expr>::empty().push(
        Expr::Binary(
            binary_op_of(op)->0,
            Box::new(Expr::Constant(a as usize)),
            Box::new(Expr::Constant(b as usize)),
        ),
    );
    assert(step(op, n_consts, s2) == Step::Continue(s3));
    assert(outcome(code, n_consts, 5, s3) == InterpretResult::Completed(Some(s3.last())));
    assert(outcome(code, n_consts, 4, s2) == outcome(code, n_consts, 5, s3));
    assert(outcome(code, n_consts, 2, s1) == outcome(code, n_consts, 4, s2));
}

/// A program whose first instruction pops a value (an arithmetic operation,
/// a negation or a return) stops with a stack underflow.
pub proof fn lemma_pop_first_faults(code: Seq<u8>, n_consts: nat)
    requires
        code.len() >= 1,
        code[0] == OP_RETURN || (OP_ADD <= code[0] <= OP_NEGATE),
    ensures
        outcome(code, n_consts, 0, Seq::empty()) == InterpretResult::RuntimeError(
            RuntimeFault::StackUnderflow,
        ),
{
}

/// Interpreting a chunk depends on its code and the size of its pool
/// alone: two runs of one chunk, each on a fresh machine, end alike.
pub proof fn lemma_interpret_repeatable<V>(c1: &Chunk<V>, c2: &Chunk<V>)
    requires
        c1.code@ == c2.code@,
        c1.constants@.len() == c2.constants@.len(),
    ensures
        interpretation(c1) == interpretation(c2),
{
}

/// Runs a compiled chunk; a source that did not compile is never run.
pub fn interpret<V>(compiled: &Result<Chunk<V>, CompileError>) -> (r: InterpretResult)
    ensures
        match compiled {
            Ok(chunk) => r == interpretation(chunk),
            Err(e) => r == InterpretResult::CompileError(*e),
        },
{
    match compiled {
        Ok(chunk) => VM::interpret(chunk),
        Err(e) => InterpretResult::CompileError(*e),
    }
}

} // verus!
