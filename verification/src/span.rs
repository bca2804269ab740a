//! Source position tracking for diagnostics and source maps.
//!
//! Every AST node carries a `Span` recording its exact position in source.
//! Lines and columns are 1-indexed. Columns are byte offsets within the line.

use vstd::prelude::*;

verus! {

/// A file path normalised to forward slashes, relative to the entry file's directory.
pub type FilePath = String;

/// A source span: file path + start/end positions.
#[derive(Debug)]
pub struct Span {
    pub file: FilePath,
    pub start_line: u32,
    pub start_col: u32,
    pub end_line: u32,
    pub end_col: u32,
}

/// A span by its file path and positions.
pub type SpanV = (Seq<char>, u32, u32, u32, u32);

pub open spec fn span_view(s: Span) -> SpanV {
    (s.file@, s.start_line, s.start_col, s.end_line, s.end_col)
}

impl Clone for Span {
    fn clone(&self) -> (s: Self)
        ensures
            s == *self,
    {
        Span {
            file: self.file.clone(),
            start_line: self.start_line,
            start_col: self.start_col,
            end_line: self.end_line,
            end_col: self.end_col,
        }
    }
}

impl Span {
    pub fn new(file: FilePath, start_line: u32, start_col: u32, end_line: u32, end_col: u32) -> (s: Self)
        ensures
            s.file@ == file@,
            s.start_line == start_line,
            s.start_col == start_col,
            s.end_line == end_line,
            s.end_col == end_col,
    {
        Span { file, start_line, start_col, end_line, end_col }
    }

    /// A synthetic span for compiler-generated constructs.
    pub fn synthetic() -> (s: Self)
        ensures
            s.file@ == Seq::<char>::empty(),
            s.start_line == 0,
            s.start_col == 0,
            s.end_line == 0,
            s.end_col == 0,
    {
        Span { file: String::new(), start_line: 0, start_col: 0, end_line: 0, end_col: 0 }
    }
}

} // verus!
