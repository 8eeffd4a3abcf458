use vstd::prelude::*;

verus! {

/// A position in code defined by line and character.
#[derive(Copy, Clone, Debug, PartialEq, Eq, Structural)]
pub struct CodePosition {
    pub line: u16,
    pub character: u16,
}

impl CodePosition {
    /// The position at the very start of a source (line 0, character 0).
    pub fn zero_initialized() -> (res: CodePosition)
        ensures
            res.line == 0,
            res.character == 0,
    {
        CodePosition { line: 0, character: 0 }
    }
}

/// A stretch of source code between two positions.
#[derive(Copy, Clone, Debug, PartialEq, Eq, Structural)]
pub struct Range {
    pub start: CodePosition,
    pub end: CodePosition,
}

impl Default for Range {
    fn default() -> (res: Range)
        ensures
            res.start.line == 0 && res.start.character == 0,
            res.end.line == 0 && res.end.character == 0,
    {
        Range { start: CodePosition::zero_initialized(), end: CodePosition::zero_initialized() }
    }
}

} // verus!
