//! Bytecode: instructions, their source lines and the constant pool, and a
//! listing of a chunk for people to read.

use vstd::prelude::*;

verus! {

/// A runtime value: an IEEE-754 single, held as its bit pattern.
#[derive(Clone, Copy, Debug, PartialEq, Eq, Structural)]
pub struct Value {
    pub bits: u32,
}

/// One instruction of the machine.
#[derive(Clone, Copy, Debug, PartialEq, Eq, Structural)]
pub enum OpCode {
    /// Push the constant at this index of the pool.
    Constant(usize),
    Add,
    Subtract,
    Multiply,
    Divide,
    Negate,
    Return,
}

impl OpCode {
    /// The name under which a listing shows the instruction.
    pub open spec fn mnemonic(self) -> &'static str {
        match self {
            OpCode::Constant(_) => "Constant",
            OpCode::Add => "Add",
            OpCode::Subtract => "Subtract",
            OpCode::Multiply => "Multiply",
            OpCode::Divide => "Divide",
            OpCode::Negate => "Negate",
            OpCode::Return => "Return",
        }
    }
}

/// The constant pool: values in the order in which they were added.
pub struct ValueArray {
    pub values: Vec<Value>,
}

impl View for ValueArray {
    type V = Seq<Value>;

    open spec fn view(&self) -> Seq<Value> {
        self.values@
    }
}

impl ValueArray {
    pub fn new() -> (pool: Self)
        ensures
            pool@ == Seq::<Value>::empty(),
    {
        Self { values: Vec::new() }
    }

    pub fn len(&self) -> (n: usize)
        ensures
            n == self@.len(),
    {
        self.values.len()
    }
}

/// What a chunk holds, as plain sequences.
pub struct ChunkView {
    pub code: Seq<OpCode>,
    pub lines: Seq<u32>,
    pub constants: Seq<Value>,
}

/// One row of a listing.
#[derive(Clone, Copy, Debug, PartialEq, Eq)]
pub struct Row {
    /// The source line of the instruction, or `None` where it is the line
    /// of the instruction before it.
    pub line: Option<u32>,
    /// The name of the instruction.
    pub name: &'static str,
    /// The index that `Constant` carries.
    pub index: Option<usize>,
    /// The constant at that index, where the pool has one.
    pub value: Option<Value>,
}

/// A listing of a chunk: a title and a row for each instruction.
pub struct Listing {
    pub title: String,
    pub rows: Vec<Row>,
}

impl ChunkView {
    /// The line that the row at `offset` shows: a line is shown where it
    /// differs from that of the instruction before.
    pub open spec fn shown_line(self, offset: int) -> Option<u32> {
        if offset > 0 && self.lines[offset] == self.lines[offset - 1] {
            None
        } else {
            Some(self.lines[offset])
        }
    }

    /// The row of `instruction` when it stands at `offset`.
    pub open spec fn row_of(self, instruction: OpCode, offset: int) -> Row {
        match instruction {
            OpCode::Constant(index) => Row {
                line: self.shown_line(offset),
                name: instruction.mnemonic(),
                index: Some(index),
                value: if index < self.constants.len() {
                    Some(self.constants[index as int])
                } else {
                    None
                },
            },
            _ => Row {
                line: self.shown_line(offset),
                name: instruction.mnemonic(),
                index: None,
                value: None,
            },
        }
    }

    /// The rows of the whole chunk.
    pub open spec fn rows(self) -> Seq<Row> {
        Seq::new(self.code.len(), |offset: int| self.row_of(self.code[offset], offset))
    }
}

/// Instructions with the source line of each, and the constants that they
/// refer to by index.
pub struct Chunk {
    pub code: Vec<OpCode>,
    pub constants: ValueArray,
    pub lines: Vec<u32>,
}

impl View for Chunk {
    type V = ChunkView;

    open spec fn view(&self) -> ChunkView {
        ChunkView { code: self.code@, lines: self.lines@, constants: self.constants@ }
    }
}

impl Chunk {
    /// Every instruction has its source line.
    pub open spec fn well_formed(&self) -> bool {
        self.code.len() == self.lines.len()
    }

    /// A chunk without instructions and constants.
    pub fn new() -> (chunk: Self)
        ensures
            chunk.well_formed(),
            chunk@.code == Seq::<OpCode>::empty(),
            chunk@.lines == Seq::<u32>::empty(),
            chunk@.constants == Seq::<Value>::empty(),
    {
        Self { code: Vec::new(), constants: ValueArray::new(), lines: Vec::new() }
    }

    /// Appends an instruction and the source line that it came from. An
    /// index that the instruction carries is not looked at here.
    pub fn write_chunk(&mut self, byte: OpCode, line: u32)
        requires
            old(self).well_formed(),
        ensures
            final(self).well_formed(),
            final(self)@.code == old(self)@.code.push(byte),
            final(self)@.lines == old(self)@.lines.push(line),
            final(self)@.constants == old(self)@.constants,
    {
        self.code.push(byte);
        self.lines.push(line);
    }

    /// Appends a constant to the pool and returns its index.
    pub fn add_constant(&mut self, value: Value) -> (index: usize)
        ensures
            index == old(self)@.constants.len(),
            final(self)@.constants == old(self)@.constants.push(value),
            final(self)@.code == old(self)@.code,
            final(self)@.lines == old(self)@.lines,
    {
        self.constants.values.push(value);
        self.constants.len() - 1
    }

    /// Lists the chunk under the title `name`, a row for each instruction.
    /// The chunk is only read.
    pub fn disassemble_chunk(&self, name: &str) -> (listing: Listing)
        requires
            self.well_formed(),
        ensures
            listing.title@ == name@,
            listing.rows@ == self@.rows(),
    {
        let mut rows: Vec<Row> = Vec::new();
        let mut offset: usize = 0;
        while offset < self.code.len()
            invariant
                self.well_formed(),
                offset <= self.code.len(),
                rows@.len() == offset,
                forall|i: int| 0 <= i < offset ==> rows@[i] == self@.row_of(self@.code[i], i),
            decreases self.code.len() - offset,
        {
            let row = self.disassemble_instruction(&self.code[offset], offset);
            rows.push(row);
            offset += 1;
        }
        assert(rows@ =~= self@.rows());
        Listing { title: name.to_owned(), rows: rows }
    }

    /// The row of `instruction`, which stands at `offset`.
    pub fn disassemble_instruction(&self, instruction: &OpCode, offset: usize) -> (row: Row)
        requires
            self.well_formed(),
            offset < self@.code.len(),
        ensures
            row == self@.row_of(*instruction, offset as int),
    {
        let line = if offset > 0 && self.lines[offset] == self.lines[offset - 1] {
            None
        } else {
            Some(self.lines[offset])
        };
        match instruction {
            OpCode::Constant(index) => self.constant_instruction("Constant", index, line),
            OpCode::Add => Self::simple_instruction("Add", line),
            OpCode::Subtract => Self::simple_instruction("Subtract", line),
            OpCode::Multiply => Self::simple_instruction("Multiply", line),
            OpCode::Divide => Self::simple_instruction("Divide", line),
            OpCode::Negate => Self::simple_instruction("Negate", line),
            OpCode::Return => Self::simple_instruction("Return", line),
        }
    }

    fn constant_instruction(&self, name: &'static str, index: &usize, line: Option<u32>) -> (row: Row)
        ensures
            row == (Row {
                line: line,
                name: name,
                index: Some(*index),
                value: if *index < self@.constants.len() {
                    Some(self@.constants[*index as int])
                } else {
                    None
                },
            }),
    {
        let value = if *index < self.constants.len() {
            Some(self.constants.values[*index])
        } else {
            None
        };
        Row { line: line, name: name, index: Some(*index), value: value }
    }

    fn simple_instruction(name: &'static str, line: Option<u32>) -> (row: Row)
        ensures
            row == (Row { line: line, name: name, index: None, value: None }),
    {
        Row { line: line, name: name, index: None, value: None }
    }
}

} // verus!
