//! The chunk: what the compiler writes and the machine reads.
use vstd::prelude::*;
use crate::diagnostic::{Diagnostic, DiagnosticView};

verus! {

/// A chunk as three sequences: the code, the line of each byte of the code,
/// and the text of each constant.
pub ghost struct ChunkView {
    pub code: Seq<u8>,
    pub lines: Seq<usize>,
    pub constants: Seq<Seq<char>>,
}

impl ChunkView {
    pub open spec fn empty() -> ChunkView {
        ChunkView { code: Seq::empty(), lines: Seq::empty(), constants: Seq::empty() }
    }

    /// One byte of code, written for a token on `line`.
    pub open spec fn byte(byte: u8, line: usize) -> ChunkView {
        ChunkView { code: seq![byte], lines: seq![line], constants: Seq::empty() }
    }

    /// One constant.
    pub open spec fn constant(text: Seq<char>) -> ChunkView {
        ChunkView { code: Seq::empty(), lines: Seq::empty(), constants: seq![text] }
    }

    /// This chunk with `more` written behind it.
    pub open spec fn join(self, more: ChunkView) -> ChunkView {
        ChunkView {
            code: self.code + more.code,
            lines: self.lines + more.lines,
            constants: self.constants + more.constants,
        }
    }

    /// Every byte of code has its line.
    pub open spec fn aligned(self) -> bool {
        self.code.len() == self.lines.len()
    }
}

pub proof fn join_is_associative(a: ChunkView, b: ChunkView, c: ChunkView)
    ensures
        a.join(b).join(c) == a.join(b.join(c)),
        a.join(ChunkView::empty()) == a,
        ChunkView::empty().join(a) == a,
{
    assert(a.join(b).join(c).code =~= a.join(b.join(c)).code);
    assert(a.join(b).join(c).lines =~= a.join(b.join(c)).lines);
    assert(a.join(b).join(c).constants =~= a.join(b.join(c)).constants);
    assert(a.join(ChunkView::empty()).code =~= a.code);
    assert(a.join(ChunkView::empty()).lines =~= a.lines);
    assert(a.join(ChunkView::empty()).constants =~= a.constants);
    assert(ChunkView::empty().join(a).code =~= a.code);
    assert(ChunkView::empty().join(a).lines =~= a.lines);
    assert(ChunkView::empty().join(a).constants =~= a.constants);
}

/// The text of each of some constants.
pub open spec fn texts(constants: Seq<Vec<char>>) -> Seq<Seq<char>> {
    Seq::new(constants.len(), |i: int| constants[i]@)
}

/// A chunk of bytecode: code, the source line of each byte, the constants
/// that the code names, and the refusal if the source was refused.
#[derive(Clone, Debug, PartialEq, Eq)]
pub struct Bytecodes {
    code: Vec<u8>,
    lines: Vec<usize>,
    constants: Vec<Vec<char>>,
    fault: Option<Diagnostic>,
}

impl View for Bytecodes {
    type V = ChunkView;

    closed spec fn view(&self) -> ChunkView {
        ChunkView { code: self.code@, lines: self.lines@, constants: texts(self.constants@) }
    }
}

impl Bytecodes {
    /// The invariant of a chunk: `code` and `lines` have one length.
    pub open spec fn wf(&self) -> bool {
        self@.aligned()
    }

    /// Why the source of this chunk was refused, if it was.
    pub closed spec fn fault(&self) -> Option<DiagnosticView> {
        match self.fault {
            Some(diagnostic) => Some(diagnostic@),
            None => None,
        }
    }

    /// A chunk is valid unless it was marked with a refusal.
    pub open spec fn valid(&self) -> bool {
        self.fault() is None
    }

    /// An empty, valid chunk.
    pub fn new() -> (chunk: Bytecodes)
        ensures
            chunk@ == ChunkView::empty(),
            chunk.fault() is None,
            chunk.wf(),
    {
        let chunk = Bytecodes {
            code: Vec::new(),
            lines: Vec::new(),
            constants: Vec::new(),
            fault: None,
        };
        assert(chunk@.constants =~= Seq::<Seq<char>>::empty());
        chunk
    }

    /// Appends one byte of code and its line.
    pub fn write_byte(&mut self, byte: u8, line: usize)
        requires
            old(self).wf(),
        ensures
            final(self)@ == old(self)@.join(ChunkView::byte(byte, line)),
            final(self).fault() == old(self).fault(),
            final(self).wf(),
    {
        self.code.push(byte);
        self.lines.push(line);
        proof {
            let after = old(self)@.join(ChunkView::byte(byte, line));
            assert(self@.code =~= after.code);
            assert(self@.lines =~= after.lines);
            assert(self@.constants =~= after.constants);
        }
    }

    /// Appends one constant and gives its index.
    pub fn write_constant(&mut self, text: Vec<char>) -> (index: usize)
        ensures
            final(self)@ == old(self)@.join(ChunkView::constant(text@)),
            final(self).fault() == old(self).fault(),
            index == old(self)@.constants.len(),
    {
        let index: usize = self.constants.len();
        self.constants.push(text);
        proof {
            let after = old(self)@.join(ChunkView::constant(text@));
            assert(self@.constants =~= after.constants);
            assert(self@.code =~= after.code);
            assert(self@.lines =~= after.lines);
        }
        index
    }

    /// The byte of code at `ip`, if the code reaches that far.
    pub fn read_byte(&self, ip: usize) -> (byte: Option<u8>)
        ensures
            byte == (if ip < self@.code.len() {
                Some(self@.code[ip as int])
            } else {
                None
            }),
    {
        if ip < self.code.len() {
            Some(self.code[ip])
        } else {
            None
        }
    }

    /// The line of the byte of code at `ip`, if the chunk has one.
    pub fn read_line(&self, ip: usize) -> (line: Option<usize>)
        ensures
            line == (if ip < self@.lines.len() {
                Some(self@.lines[ip as int])
            } else {
                None
            }),
    {
        if ip < self.lines.len() {
            Some(self.lines[ip])
        } else {
            None
        }
    }

    /// The text of the constant at `index`, if the chunk has that many.
    pub fn read_constant(&self, index: usize) -> (text: Option<&Vec<char>>)
        ensures
            index < self@.constants.len() ==> text is Some && text->0@ == self@.constants[index as int],
            index >= self@.constants.len() ==> text is None,
    {
        if index < self.constants.len() {
            Some(&self.constants[index])
        } else {
            None
        }
    }

    /// The number of bytes of code.
    pub fn len(&self) -> (n: usize)
        ensures
            n == self@.code.len(),
    {
        self.code.len()
    }

    /// The number of constants.
    pub fn constants_len(&self) -> (n: usize)
        ensures
            n == self@.constants.len(),
    {
        self.constants.len()
    }

    /// Marks the chunk as invalid: its source was refused.
    pub fn mark_invalid(&mut self, diagnostic: Diagnostic)
        ensures
            final(self)@ == old(self)@,
            final(self).fault() == Some(diagnostic@),
    {
        self.fault = Some(diagnostic);
    }

    pub fn is_valid(&self) -> (b: bool)
        ensures
            b == self.valid(),
    {
        self.fault.is_none()
    }

    /// The refusal that the chunk was marked with.
    pub fn diagnostic(&self) -> (found: Option<&Diagnostic>)
        ensures
            found is Some <==> self.fault() is Some,
            found is Some ==> Some(found->0@) == self.fault(),
    {
        self.fault.as_ref()
    }
}

} // verus!
