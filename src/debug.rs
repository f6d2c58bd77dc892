use vstd::prelude::*;
use crate::chunk::{line_starting_at, Chunk};
use crate::instruction::{decode, decoded, DecodeError, Instruction};

verus! {

/// One row of a chunk's listing.
#[derive(PartialEq, Debug)]
pub struct Disassembled<V> {
    pub offset: usize,
    /// The source line that opens at this offset, if one does.
    pub line: Option<u32>,
    /// The instruction's size and the instruction, or why the bytes are none.
    pub decoded: Result<(usize, Instruction), DecodeError>,
    /// The constant that a load refers to, where the pool holds it.
    pub constant: Option<V>,
}

/// The pool entry that `inst` loads, if it is a load and the entry exists.
pub open spec fn referenced_constant<V>(constants: Seq<V>, inst: Instruction) -> Option<V> {
    match inst {
        Instruction::OpConstant(i) => if (i as nat) < constants.len() {
            Some(constants[i as int])
        } else {
            None
        },
        Instruction::OpConstantLong(i) => if (i as nat) < constants.len() {
            Some(constants[i as int])
        } else {
            None
        },
        _ => None,
    }
}

pub open spec fn row<V>(chunk: &Chunk<V>, ip: nat) -> Disassembled<V> {
    let d = decoded(chunk.code@, ip as int);
    Disassembled {
        offset: ip as usize,
        line: line_starting_at(chunk.lines@, ip as usize),
        decoded: match d {
            Ok((size, inst)) => Ok((size as usize, inst)),
            Err(e) => Err(e),
        },
        constant: match d {
            Ok((_, inst)) => referenced_constant(chunk.constants@, inst),
            Err(_) => None,
        },
    }
}

/// The rows from offset `ip` to the end of the code; a row whose bytes do
/// not decode ends the listing.
pub open spec fn listing<V>(chunk: &Chunk<V>, ip: nat) -> Seq<Disassembled<V>>
    decreases chunk.code@.len() - ip,
    via listing_decreases::<V>
{
    if ip >= chunk.code@.len() {
        Seq::empty()
    } else {
        match decoded(chunk.code@, ip as int) {
            Ok((size, _)) => seq![row(chunk, ip)] + listing(chunk, ip + size),
            Err(_) => seq![row(chunk, ip)],
        }
    }
}

#[via_fn]
proof fn listing_decreases<V>(chunk: &Chunk<V>, ip: nat) {
}

fn constant_of<V: Copy>(chunk: &Chunk<V>, inst: Instruction) -> (r: Option<V>)
    ensures
        r == referenced_constant(chunk.constants@, inst),
{
    let index: usize = match inst {
        Instruction::OpConstant(i) => i as usize,
        Instruction::OpConstantLong(i) => i as usize,
        _ => return None,
    };
    if index < chunk.constants.len() {
        Some(chunk.constants[index])
    } else {
        None
    }
}

/// Describes the instruction at offset `ip`.
pub fn disassemble_instruction<V: Copy>(chunk: &Chunk<V>, ip: usize) -> (r: Disassembled<V>)
    requires
        chunk.wf(),
    ensures
        r == row(chunk, ip as nat),
{
    let d = decode(&chunk.code, ip);
    let constant = match d {
        Ok((_, inst)) => constant_of(chunk, inst),
        Err(_) => None,
    };
    Disassembled { offset: ip, line: chunk.line_at(ip), decoded: d, constant }
}

/// The listing of a whole chunk, one row per instruction from offset 0; a
/// row whose bytes do not decode is the last.
pub fn disassemble_chunk<V: Copy>(chunk: &Chunk<V>) -> (r: Vec<Disassembled<V>>)
    requires
        chunk.wf(),
    ensures
        r@ == listing(chunk, 0),
{
    let mut rows: Vec<Disassembled<V>> = Vec::new();
    let mut ip: usize = 0;
    let len = chunk.code.len();
    while ip < len
        invariant
            chunk.wf(),
            len == chunk.code@.len(),
            rows@ + listing(chunk, ip as nat) == listing(chunk, 0),
        decreases len - ip,
    {
        let d = disassemble_instruction(chunk, ip);
        match d.decoded {
            Ok((size, _)) => {
                let ghost rest = listing(chunk, (ip + size) as nat);
                rows.push(d);
                assert(rows@ + rest =~= listing(chunk, 0));
                ip = ip + size;
            },
            Err(_) => {
                rows.push(d);
                assert(rows@ =~= listing(chunk, 0));
                return rows;
            },
        }
    }
    assert(rows@ =~= listing(chunk, 0));
    rows
}

/// A listing depends on the chunk's code, pool and line table alone:
/// disassembling one chunk twice gives the same rows.
pub proof fn lemma_listing_repeatable<V>(c1: &Chunk<V>, c2: &Chunk<V>, ip: nat)
    requires
        c1.code@ == c2.code@,
        c1.constants@ == c2.constants@,
        c1.lines@ == c2.lines@,
    ensures
        listing(c1, ip) == listing(c2, ip),
    decreases c1.code@.len() - ip,
{
    if ip < c1.code@.len() {
        if let Ok((size, _)) = decoded(c1.code@, ip as int) {
            lemma_listing_repeatable(c1, c2, ip + size);
        }
    }
}

} // verus!
