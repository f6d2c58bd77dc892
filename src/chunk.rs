use vstd::prelude::*;
use crate::instruction::{decoded, encode, encoding, lemma_decode_encode, DecodeError, Instruction};

verus! {

/// First code offset of a source line's instructions.
#[derive(PartialEq, Eq, Structural, Clone, Copy, Debug)]
pub struct Line {
    pub start: usize,
    pub line: u32,
}

/// Bytecode, its constant pool, and a line table with one entry for each
/// change of source line. `V` is the type of the constants.
pub struct Chunk<V> {
    pub code: Vec<u8>,
    pub constants: Vec<V>,
    pub lines: Vec<Line>,
}

/// The line table after a byte written at offset `at` for source line `line`.
pub open spec fn lines_after_write(lines: Seq<Line>, at: usize, line: u32) -> Seq<Line> {
    if lines.len() == 0 || lines.last().line != line {
        lines.push(Line { start: at, line })
    } else {
        lines
    }
}

/// Starts strictly increase, lie inside the code, and two neighbouring
/// entries name different lines.
pub open spec fn lines_wf(lines: Seq<Line>, code_len: nat) -> bool {
    &&& forall|i: int, j: int| 0 <= i < j < lines.len() ==> lines[i].start < lines[j].start
    &&& forall|i: int| 0 <= i < lines.len() ==> lines[i].start < code_len
    &&& forall|i: int| 0 < i < lines.len() ==> lines[i - 1].line != #[trigger] lines[i].line
    &&& code_len > 0 ==> lines.len() > 0 && lines[0].start == 0
}

/// The source line whose first instruction starts exactly at `offset`, if any.
pub open spec fn line_starting_at(lines: Seq<Line>, offset: usize) -> Option<u32> {
    if exists|i: int| 0 <= i < lines.len() && lines[i].start == offset {
        let i = choose|i: int| 0 <= i < lines.len() && lines[i].start == offset;
        Some(lines[i].line)
    } else {
        None
    }
}

impl<V> Chunk<V> {
    pub open spec fn wf(&self) -> bool {
        lines_wf(self.lines@, self.code@.len())
    }

    pub fn new() -> (r: Chunk<V>)
        ensures
            r.code@ == Seq::<u8>::empty(),
            r.constants@ == Seq::<V>::empty(),
            r.lines@ == Seq::<Line>::empty(),
            r.wf(),
    {
        Chunk { code: Vec::new(), constants: Vec::new(), lines: Vec::new() }
    }

    /// Records that the last byte written opens source line `line`.
    pub fn new_line(&mut self, line: u32)
        requires
            old(self).code.len() > 0,
        ensures
            final(self).lines@ == old(self).lines@.push(
                Line { start: (old(self).code.len() - 1) as usize, line },
            ),
            final(self).code@ == old(self).code@,
            final(self).constants@ == old(self).constants@,
    {
        let start = self.code.len() - 1;
        self.lines.push(Line { start, line });
    }

    /// Appends one byte written for source line `line`.
    pub fn write_chunk(&mut self, code: u8, line: u32)
        requires
            old(self).wf(),
            old(self).code.len() < usize::MAX,
        ensures
            final(self).wf(),
            final(self).code@ == old(self).code@.push(code),
            final(self).constants@ == old(self).constants@,
            final(self).lines@ == lines_after_write(
                old(self).lines@,
                old(self).code.len(),
                line,
            ),
    {
        self.code.push(code);
        let n = self.lines.len();
        if n == 0 || self.lines[n - 1].line != line {
            self.new_line(line);
        }
    }

    /// Appends the bytes of an instruction written for source line `line`.
    pub fn write_instruction(&mut self, inst: Instruction, line: u32)
        requires
            old(self).wf(),
            old(self).code.len() + encoding(inst).len() <= usize::MAX,
        ensures
            final(self).wf(),
            final(self).code@ == old(self).code@ + encoding(inst),
            final(self).constants@ == old(self).constants@,
            final(self).lines@ == lines_after_write(
                old(self).lines@,
                old(self).code.len(),
                line,
            ),
    {
        let bytes = encode(inst);
        let ghost start = self.code.len();
        let mut k: usize = 0;
        while k < bytes.len()
            invariant
                self.wf(),
                k <= bytes@.len(),
                bytes@ == encoding(inst),
                old(self).code.len() + bytes@.len() <= usize::MAX,
                start == old(self).code.len(),
                self.code@ == old(self).code@ + bytes@.take(k as int),
                self.constants@ == old(self).constants@,
                k == 0 ==> self.lines@ == old(self).lines@,
                k > 0 ==> self.lines@ == lines_after_write(old(self).lines@, start, line),
            decreases bytes@.len() - k,
        {
            self.write_chunk(bytes[k], line);
            assert(bytes@.take(k + 1) =~= bytes@.take(k as int).push(bytes@[k as int]));
            k = k + 1;
        }
        assert(bytes@.take(k as int) =~= bytes@);
    }

    /// Appends `value` to the constant pool and the instruction that loads
    /// it: the one-byte form while the pool held fewer than 256 values, the
    /// four-byte form after that.
    pub fn write_constant(&mut self, value: V, line: u32)
        requires
            old(self).wf(),
            old(self).constants.len() <= u32::MAX,
            old(self).code.len() + 5 <= usize::MAX,
        ensures
            final(self).wf(),
            final(self).constants@ == old(self).constants@.push(value),
            final(self).code@ == old(self).code@ + encoding(
                constant_load(old(self).constants.len() as nat),
            ),
            final(self).lines@ == lines_after_write(
                old(self).lines@,
                old(self).code.len(),
                line,
            ),
    {
        let len = self.constants.len();
        if len < 256 {
            self.write_instruction(Instruction::OpConstant(len as u8), line);
        } else {
            self.write_instruction(Instruction::OpConstantLong(len as u32), line);
        }
        self.constants.push(value);
    }

    /// The source line that opens at `offset`, found by binary search over
    /// the line table; `None` where no line opens there.
    pub fn line_at(&self, offset: usize) -> (r: Option<u32>)
        requires
            self.wf(),
        ensures
            r == line_starting_at(self.lines@, offset),
    {
        let mut lo: usize = 0;
        let mut hi: usize = self.lines.len();
        while lo < hi
            invariant
                self.wf(),
                lo <= hi <= self.lines@.len(),
                forall|i: int| 0 <= i < lo ==> self.lines@[i].start < offset,
                forall|i: int| hi <= i < self.lines@.len() ==> self.lines@[i].start > offset,
            decreases hi - lo,
        {
            let mid = lo + (hi - lo) / 2;
            let start = self.lines[mid].start;
            if start == offset {
                assert(0 <= mid < self.lines@.len() && self.lines@[mid as int].start == offset);
                let ghost j = choose|j: int|
                    0 <= j < self.lines@.len() && self.lines@[j].start == offset;
                assert(j == mid) by {
                    if j < mid {
                        assert(self.lines@[j].start < self.lines@[mid as int].start);
                    } else if j > mid {
                        assert(self.lines@[mid as int].start < self.lines@[j].start);
                    }
                };
                return Some(self.lines[mid].line);
            } else if start < offset {
                assert(forall|i: int| 0 <= i <= mid ==> self.lines@[i].start < offset) by {
                    assert forall|i: int| 0 <= i <= mid implies self.lines@[i].start < offset by {
                        if i < mid {
                            assert(self.lines@[i].start < self.lines@[mid as int].start);
                        }
                    };
                };
                lo = mid + 1;
            } else {
                assert(forall|i: int| mid <= i < self.lines@.len() ==> self.lines@[i].start > offset)
                    by {
                    assert forall|i: int| mid <= i < self.lines@.len() implies self.lines@[i].start
                        > offset by {
                        if i > mid {
                            assert(self.lines@[mid as int].start < self.lines@[i].start);
                        }
                    };
                };
                hi = mid;
            }
        }
        None
    }
}

/// The instruction that loads the constant at `index`: the one-byte form for
/// the first 256 entries of the pool, the four-byte form after them.
pub open spec fn constant_load(index: nat) -> Instruction {
    if index < 256 {
        Instruction::OpConstant(index as u8)
    } else {
        Instruction::OpConstantLong(index as u32)
    }
}

/// The load that `write_constant` emits for pool index `index` decodes, in
/// any surrounding code, to that very index: in two bytes for the first 256
/// entries, in five bytes from entry 256 on.
pub proof fn lemma_constant_load_index(index: nat, before: Seq<u8>, after: Seq<u8>)
    requires
        index <= u32::MAX,
    ensures
        index < 256 ==> decoded(before + encoding(constant_load(index)) + after, before.len() as int)
            == Ok::<(nat, Instruction), DecodeError>((2, Instruction::OpConstant(index as u8))),
        index >= 256 ==> decoded(before + encoding(constant_load(index)) + after, before.len() as int)
            == Ok::<(nat, Instruction), DecodeError>((5, Instruction::OpConstantLong(index as u32))),
        (index as u32) as nat == index,
{
    lemma_decode_encode(constant_load(index), before, after);
}

/// An instruction appended to a chunk's code decodes, at the offset where
/// its bytes begin, to itself and the number of bytes appended.
pub proof fn lemma_appended_instruction_decodes(before: Seq<u8>, after: Seq<u8>, inst: Instruction)
    requires
        after == before + encoding(inst),
    ensures
        decoded(after, before.len() as int) == Ok::<(nat, Instruction), DecodeError>(
            (encoding(inst).len(), inst),
        ),
        encoding(inst).len() == after.len() - before.len(),
{
    lemma_decode_encode(inst, before, Seq::empty());
    assert(after =~= before + encoding(inst) + Seq::<u8>::empty());
}

} // verus!
