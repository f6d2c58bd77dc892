use lox_vm::chunk::Chunk;
use lox_vm::debug::{disassemble_chunk, disassemble_instruction, Disassembled};
use lox_vm::instruction::{DecodeError, Instruction};

fn sample() -> Chunk<f64> {
    let mut chunk = Chunk::new();
    chunk.write_constant(1.5, 1);
    chunk.write_instruction(Instruction::OpNegate, 1);
    chunk.write_instruction(Instruction::OpReturn, 2);
    chunk
}

#[test]
fn listing_of_a_chunk() {
    let rows = disassemble_chunk(&sample());
    assert_eq!(
        rows,
        vec![
            Disassembled {
                offset: 0,
                line: Some(1),
                decoded: Ok((2, Instruction::OpConstant(0))),
                constant: Some(1.5),
            },
            Disassembled {
                offset: 2,
                line: None,
                decoded: Ok((1, Instruction::OpNegate)),
                constant: None,
            },
            Disassembled {
                offset: 3,
                line: Some(2),
                decoded: Ok((1, Instruction::OpReturn)),
                constant: None,
            },
        ]
    );
}

#[test]
fn listing_resolves_long_constants() {
    let mut chunk: Chunk<f64> = Chunk::new();
    for i in 0..257 {
        chunk.write_constant(i as f64, 1);
    }
    let rows = disassemble_chunk(&chunk);
    assert_eq!(rows.len(), 257);
    assert_eq!(rows[256].offset, 512);
    assert_eq!(rows[256].decoded, Ok((5, Instruction::OpConstantLong(256))));
    assert_eq!(rows[256].constant, Some(256.0));
}

#[test]
fn listing_stops_at_an_unknown_tag() {
    let mut chunk = sample();
    chunk.write_chunk(99, 3);
    chunk.write_instruction(Instruction::OpReturn, 3);
    let rows = disassemble_chunk(&chunk);
    assert_eq!(rows.len(), 4);
    assert_eq!(rows[3].offset, 4);
    assert_eq!(rows[3].line, Some(3));
    assert_eq!(rows[3].decoded, Err(DecodeError::UnknownOpcode(99)));
}

#[test]
fn missing_constant_is_not_resolved() {
    let mut chunk: Chunk<f64> = Chunk::new();
    chunk.write_instruction(Instruction::OpConstant(4), 1);
    let row = disassemble_instruction(&chunk, 0);
    assert_eq!(row.decoded, Ok((2, Instruction::OpConstant(4))));
    assert_eq!(row.constant, None);
}

#[test]
fn disassembling_twice_gives_the_same_listing() {
    let chunk = sample();
    assert_eq!(disassemble_chunk(&chunk), disassemble_chunk(&chunk));
}
