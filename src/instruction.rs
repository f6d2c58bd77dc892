use vstd::prelude::*;

verus! {

/// Tag reserved for no operation, so that a zeroed buffer never decodes.
pub const OP_INVALID: u8 = 0;

pub const OP_RETURN: u8 = 1;

pub const OP_CONSTANT: u8 = 2;

pub const OP_CONSTANT_LONG: u8 = 3;

pub const OP_ADD: u8 = 4;

pub const OP_SUBTRACT: u8 = 5;

pub const OP_MULTIPLY: u8 = 6;

pub const OP_DIVIDE: u8 = 7;

pub const OP_NEGATE: u8 = 8;

/// One decoded instruction: its opcode and, for constant loads, the index
/// into the constant pool.
#[derive(PartialEq, Eq, Structural, Clone, Copy, Debug)]
pub enum Instruction {
    OpReturn,
    OpConstant(u8),
    OpConstantLong(u32),
    OpAdd,
    OpSubtract,
    OpMultiply,
    OpDivide,
    OpNegate,
}

/// Why the bytes at an offset do not form an instruction.
#[derive(PartialEq, Eq, Structural, Clone, Copy, Debug)]
pub enum DecodeError {
    /// The offset lies at or past the end of the code.
    OutOfBounds,
    /// The byte at the offset is no opcode.
    UnknownOpcode(u8),
    /// The code ends before the opcode's operand does.
    Truncated,
}

/// Bytes that follow each opcode, or `None` for a byte that is no opcode.
pub open spec fn operand_width(op: u8) -> Option<nat> {
    if op == OP_CONSTANT {
        Some(1)
    } else if op == OP_CONSTANT_LONG {
        Some(4)
    } else if OP_RETURN <= op <= OP_NEGATE {
        Some(0)
    } else {
        None
    }
}

pub open spec fn opcode_of(inst: Instruction) -> u8 {
    match inst {
        Instruction::OpReturn => OP_RETURN,
        Instruction::OpConstant(_) => OP_CONSTANT,
        Instruction::OpConstantLong(_) => OP_CONSTANT_LONG,
        Instruction::OpAdd => OP_ADD,
        Instruction::OpSubtract => OP_SUBTRACT,
        Instruction::OpMultiply => OP_MULTIPLY,
        Instruction::OpDivide => OP_DIVIDE,
        Instruction::OpNegate => OP_NEGATE,
    }
}

/// The four bytes of `x`, most significant first.
pub open spec fn be_bytes(x: u32) -> Seq<u8> {
    seq![(x >> 24u32) as u8, (x >> 16u32) as u8, (x >> 8u32) as u8, x as u8]
}

/// The number whose big-endian bytes are `b0 b1 b2 b3`.
pub open spec fn be_u32(b0: u8, b1: u8, b2: u8, b3: u8) -> u32 {
    ((b0 as u32) << 24u32) | ((b1 as u32) << 16u32) | ((b2 as u32) << 8u32) | (b3 as u32)
}

/// The bytes that stand for an instruction in a chunk's code.
pub open spec fn encoding(inst: Instruction) -> Seq<u8> {
    match inst {
        Instruction::OpConstant(i) => seq![OP_CONSTANT, i],
        Instruction::OpConstantLong(i) => seq![OP_CONSTANT_LONG].add(be_bytes(i)),
        _ => seq![opcode_of(inst)],
    }
}

/// The instruction whose opcode is `op` and whose operand bytes start at `at`.
pub open spec fn instruction_at(code: Seq<u8>, op: u8, at: int) -> Instruction {
    if op == OP_CONSTANT {
        Instruction::OpConstant(code[at])
    } else if op == OP_CONSTANT_LONG {
        Instruction::OpConstantLong(be_u32(code[at], code[at + 1], code[at + 2], code[at + 3]))
    } else if op == OP_RETURN {
        Instruction::OpReturn
    } else if op == OP_ADD {
        Instruction::OpAdd
    } else if op == OP_SUBTRACT {
        Instruction::OpSubtract
    } else if op == OP_MULTIPLY {
        Instruction::OpMultiply
    } else if op == OP_DIVIDE {
        Instruction::OpDivide
    } else {
        Instruction::OpNegate
    }
}

/// What decoding `code` at offset `ip` gives: the size in bytes and the
/// instruction, or why there is none.
pub open spec fn decoded(code: Seq<u8>, ip: int) -> Result<(nat, Instruction), DecodeError> {
    if ip < 0 || ip >= code.len() {
        Err(DecodeError::OutOfBounds)
    } else {
        let op = code[ip];
        match operand_width(op) {
            None => Err(DecodeError::UnknownOpcode(op)),
            Some(w) => if ip + 1 + w > code.len() {
                Err(DecodeError::Truncated)
            } else {
                Ok(((1 + w) as nat, instruction_at(code, op, ip + 1)))
            },
        }
    }
}

/// Writes the four bytes of `x`, most significant first.
pub fn to_be_bytes(x: u32) -> (r: [u8; 4])
    ensures
        r@ == be_bytes(x),
{
    let r = [(x >> 24u32) as u8, (x >> 16u32) as u8, (x >> 8u32) as u8, x as u8];
    assert(r@ =~= be_bytes(x));
    r
}

/// Reads a number from four bytes, most significant first.
pub fn from_be_bytes(b: [u8; 4]) -> (r: u32)
    ensures
        r == be_u32(b@[0], b@[1], b@[2], b@[3]),
{
    ((b[0] as u32) << 24u32) | ((b[1] as u32) << 16u32) | ((b[2] as u32) << 8u32) | (b[3] as u32)
}

/// The bytes of an instruction, as they stand in a chunk's code.
pub fn encode(inst: Instruction) -> (r: Vec<u8>)
    ensures
        r@ == encoding(inst),
{
    let r = match inst {
        Instruction::OpReturn => vec![OP_RETURN],
        Instruction::OpConstant(i) => vec![OP_CONSTANT, i],
        Instruction::OpConstantLong(i) => {
            let b = to_be_bytes(i);
            vec![OP_CONSTANT_LONG, b[0], b[1], b[2], b[3]]
        },
        Instruction::OpAdd => vec![OP_ADD],
        Instruction::OpSubtract => vec![OP_SUBTRACT],
        Instruction::OpMultiply => vec![OP_MULTIPLY],
        Instruction::OpDivide => vec![OP_DIVIDE],
        Instruction::OpNegate => vec![OP_NEGATE],
    };
    assert(r@ =~= encoding(inst));
    r
}

/// Decodes the instruction that starts at offset `ip`; returns its size in
/// bytes and the instruction.
pub fn decode(code: &Vec<u8>, ip: usize) -> (r: Result<(usize, Instruction), DecodeError>)
    ensures
        match r {
            Ok((size, inst)) => decoded(code@, ip as int) == Ok::<(nat, Instruction), DecodeError>(
                (size as nat, inst),
            ),
            Err(e) => decoded(code@, ip as int) == Err::<(nat, Instruction), DecodeError>(e),
        },
{
    if ip >= code.len() {
        return Err(DecodeError::OutOfBounds);
    }
    let op = code[ip];
    let rest = code.len() - ip - 1;
    if op == OP_CONSTANT {
        if rest < 1 {
            return Err(DecodeError::Truncated);
        }
        Ok((2, Instruction::OpConstant(code[ip + 1])))
    } else if op == OP_CONSTANT_LONG {
        if rest < 4 {
            return Err(DecodeError::Truncated);
        }
        let index = from_be_bytes([code[ip + 1], code[ip + 2], code[ip + 3], code[ip + 4]]);
        Ok((5, Instruction::OpConstantLong(index)))
    } else if op == OP_RETURN {
        Ok((1, Instruction::OpReturn))
    } else if op == OP_ADD {
        Ok((1, Instruction::OpAdd))
    } else if op == OP_SUBTRACT {
        Ok((1, Instruction::OpSubtract))
    } else if op == OP_MULTIPLY {
        Ok((1, Instruction::OpMultiply))
    } else if op == OP_DIVIDE {
        Ok((1, Instruction::OpDivide))
    } else if op == OP_NEGATE {
        Ok((1, Instruction::OpNegate))
    } else {
        Err(DecodeError::UnknownOpcode(op))
    }
}

/// Decoding the bytes of an instruction, wherever they stand in the code,
/// gives back that instruction and the number of bytes written.
pub proof fn lemma_decode_encode(inst: Instruction, before: Seq<u8>, after: Seq<u8>)
    ensures
        decoded(before + encoding(inst) + after, before.len() as int) == Ok::<
            (nat, Instruction),
            DecodeError,
        >((encoding(inst).len(), inst)),
{
    let code = before + encoding(inst) + after;
    let at = before.len() as int;
    assert(code[at] == opcode_of(inst));
    match inst {
        Instruction::OpConstant(i) => {
            assert(code[at + 1] == i);
        },
        Instruction::OpConstantLong(i) => {
            assert(code[at + 1] == (i >> 24u32) as u8);
            assert(code[at + 2] == (i >> 16u32) as u8);
            assert(code[at + 3] == (i >> 8u32) as u8);
            assert(code[at + 4] == i as u8);
            assert(be_u32((i >> 24u32) as u8, (i >> 16u32) as u8, (i >> 8u32) as u8, i as u8) == i)
                by (bit_vector);
        },
        _ => {},
    }
}

/// The name that listings give an instruction's opcode.
pub open spec fn mnemonic_of(inst: Instruction) -> Seq<char> {
    match inst {
        Instruction::OpReturn => "OpReturn"@,
        Instruction::OpConstant(_) => "OpConstant"@,
        Instruction::OpConstantLong(_) => "OpConstantLong"@,
        Instruction::OpAdd => "OpAdd"@,
        Instruction::OpSubtract => "OpSubtract"@,
        Instruction::OpMultiply => "OpMultiply"@,
        Instruction::OpDivide => "OpDivide"@,
        Instruction::OpNegate => "OpNegate"@,
    }
}

/// The name of an instruction's opcode.
pub fn mnemonic(inst: Instruction) -> (r: &'static str)
    ensures
        r@ == mnemonic_of(inst),
{
    match inst {
        Instruction::OpReturn => "OpReturn",
        Instruction::OpConstant(_) => "OpConstant",
        Instruction::OpConstantLong(_) => "OpConstantLong",
        Instruction::OpAdd => "OpAdd",
        Instruction::OpSubtract => "OpSubtract",
        Instruction::OpMultiply => "OpMultiply",
        Instruction::OpDivide => "OpDivide",
        Instruction::OpNegate => "OpNegate",
    }
}

} // verus!
