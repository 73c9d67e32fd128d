use vstd::prelude::*;

verus! {

/// Where a command, an action or an expression was written: nowhere in
/// particular, a range of characters of a source file, or a place in Rust
/// code.
#[derive(Debug)]
pub enum Span {
    Panic,
    Egglog { file: String, start: usize, end: usize },
    Rust { file: String, line: u32, column: u32 },
}

impl Clone for Span {
    fn clone(&self) -> (r: Self)
        ensures
            r == *self,
    {
        match self {
            Span::Panic => Span::Panic,
            Span::Egglog { file, start, end } => Span::Egglog { file: file.clone(), start: *start, end: *end },
            Span::Rust { file, line, column } => Span::Rust { file: file.clone(), line: *line, column: *column },
        }
    }
}

} // verus!
