//! The compiler: from a source text to a chunk.
use vstd::prelude::*;
use crate::bytecodes::{Bytecodes, ChunkView};
use crate::diagnostic::DiagnosticView;
use crate::lexer::tokens;
use crate::parser::Parser;
use crate::syntax::{parse_program, program_code, program_fault};

verus! {

/// The code, lines and constants of the chunk that `source` compiles to.
pub open spec fn compiled(source: Seq<char>) -> ChunkView {
    program_code(parse_program(tokens(source)), source)
}

/// The refusal of `source`, if it is no program.
pub open spec fn refused(source: Seq<char>) -> Option<DiagnosticView> {
    program_fault(parse_program(tokens(source)), source)
}

/// A source that is ready to be compiled.
pub struct Compiler {
    source: String,
}

impl Compiler {
    pub closed spec fn source(&self) -> Seq<char> {
        self.source@
    }

    pub fn new(source: String) -> (compiler: Compiler)
        ensures
            compiler.source() == source@,
    {
        Compiler { source }
    }

    /// Compiles the source. The chunk is returned in any case; it is marked
    /// invalid, with the refusal, if the source is no program.
    pub fn compile(self) -> (chunk: Bytecodes)
        ensures
            chunk.wf(),
            chunk@ == compiled(self.source()),
            chunk.fault() == refused(self.source()),
    {
        let mut parser = Parser::new(self.source.as_str());
        parser.program();
        parser.finish()
    }
}

} // verus!
