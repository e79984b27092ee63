//! Places in a source file.
use vstd::prelude::*;

verus! {

/// A place in a source file: the file's name and a 1-based line and column.
#[derive(Debug, Clone)]
pub struct Position {
    pub file: String,
    pub line: usize,
    pub col: usize,
}

/// The mathematical value of a [`Position`].
pub struct SpecPosition {
    pub file: Seq<char>,
    pub line: usize,
    pub col: usize,
}

impl View for Position {
    type V = SpecPosition;

    open spec fn view(&self) -> SpecPosition {
        SpecPosition { file: self.file@, line: self.line, col: self.col }
    }
}

impl Position {
    /// A copy of this position.
    pub fn duplicate(&self) -> (r: Position)
        ensures
            r@ == self@,
    {
        Position { file: self.file.clone(), line: self.line, col: self.col }
    }
}

} // verus!
