use lox_vm::chunk::{Chunk, Line};
use lox_vm::instruction::{decode, Instruction, OP_CONSTANT, OP_CONSTANT_LONG};

#[test]
fn pool_boundary_switches_to_long_form() {
    let mut chunk: Chunk<f64> = Chunk::new();
    for i in 0..256 {
        chunk.write_constant(i as f64, 1);
    }
    // The 256th constant still has the two-byte form.
    assert_eq!(chunk.code.len(), 512);
    assert_eq!(chunk.code[510], OP_CONSTANT);
    assert_eq!(decode(&chunk.code, 510), Ok((2, Instruction::OpConstant(255))));

    // The 257th takes the five-byte form and records index 256.
    chunk.write_constant(1.5, 1);
    assert_eq!(chunk.code.len(), 517);
    assert_eq!(chunk.code[512], OP_CONSTANT_LONG);
    assert_eq!(
        decode(&chunk.code, 512),
        Ok((5, Instruction::OpConstantLong(256)))
    );
    assert_eq!(chunk.constants[256], 1.5);
}

#[test]
fn long_form_holds_the_index_not_the_value() {
    let mut chunk: Chunk<f64> = Chunk::new();
    for _ in 0..256 {
        chunk.write_constant(0.0, 1);
    }
    chunk.write_constant(1234.5, 1);
    assert_eq!(&chunk.code[512..517], &[OP_CONSTANT_LONG, 0, 0, 1, 0]);
}

#[test]
fn line_table_has_one_entry_per_line_change() {
    let mut chunk: Chunk<f64> = Chunk::new();
    chunk.write_constant(1.0, 1);
    chunk.write_constant(2.0, 1);
    chunk.write_instruction(Instruction::OpAdd, 2);
    chunk.write_constant(3.0, 2);
    chunk.write_instruction(Instruction::OpMultiply, 2);
    chunk.write_instruction(Instruction::OpReturn, 3);
    assert_eq!(
        chunk.lines,
        vec![
            Line { start: 0, line: 1 },
            Line { start: 4, line: 2 },
            Line { start: 8, line: 3 },
        ]
    );
}

#[test]
fn write_chunk_opens_a_line_only_on_change() {
    let mut chunk: Chunk<f64> = Chunk::new();
    chunk.write_chunk(1, 7);
    chunk.write_chunk(1, 7);
    chunk.write_chunk(1, 8);
    chunk.write_chunk(1, 7);
    assert_eq!(
        chunk.lines,
        vec![
            Line { start: 0, line: 7 },
            Line { start: 2, line: 8 },
            Line { start: 3, line: 7 },
        ]
    );
}

#[test]
fn new_line_starts_at_the_last_byte() {
    let mut chunk: Chunk<f64> = Chunk::new();
    chunk.code.push(1);
    chunk.code.push(1);
    chunk.new_line(9);
    assert_eq!(chunk.lines, vec![Line { start: 1, line: 9 }]);
}

#[test]
fn line_lookup_is_exact() {
    let mut chunk: Chunk<f64> = Chunk::new();
    chunk.write_constant(1.0, 1);
    chunk.write_instruction(Instruction::OpNegate, 1);
    chunk.write_instruction(Instruction::OpReturn, 4);
    assert_eq!(chunk.line_at(0), Some(1));
    assert_eq!(chunk.line_at(1), None);
    assert_eq!(chunk.line_at(2), None);
    assert_eq!(chunk.line_at(3), Some(4));
    assert_eq!(chunk.line_at(4), None);
}

#[test]
fn line_lookup_over_many_lines() {
    let mut chunk: Chunk<f64> = Chunk::new();
    for line in 1..100u32 {
        chunk.write_instruction(Instruction::OpNegate, line);
        chunk.write_instruction(Instruction::OpNegate, line);
    }
    for line in 1..100u32 {
        let start = 2 * (line as usize - 1);
        assert_eq!(chunk.line_at(start), Some(line));
        assert_eq!(chunk.line_at(start + 1), None);
    }
}
