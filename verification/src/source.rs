//! The source buffer: the original text as an ordered sequence of lines
//! plus a file identifier, used to render human-readable diagnostics.

use vstd::prelude::*;

verus! {

/// What the line snapshot of a one-based line number is: the line itself
/// when it exists, else the last line, else the empty text. Out-of-range
/// requests fall back rather than fail, because diagnostics may point just
/// past the end of the input.
pub open spec fn spec_line_text(lines: Seq<String>, line: nat) -> Seq<char> {
    let index = if line > 0 { (line - 1) as nat } else { 0nat };
    if index < lines.len() {
        lines[index as int]@
    } else if lines.len() > 0 {
        lines[lines.len() - 1]@
    } else {
        Seq::empty()
    }
}

/// The original file text, split into lines, plus the file's name.
#[derive(Debug, PartialEq)]
pub struct Source {
    pub file: String,
    pub lines: Vec<String>,
}

impl Source {
    pub fn new(file: &str, lines: Vec<String>) -> (r: Source)
        ensures
            r.file@ == file@,
            r.lines == lines,
    {
        Source { file: file.to_owned(), lines }
    }

    /// An explicit deep copy; `derive(Clone)` would say nothing about the
    /// copy, so the statement of equality is made here instead.
    pub fn duplicate(&self) -> (r: Source)
        ensures
            r.file@ == self.file@,
            r.lines@ == self.lines@,
    {
        let mut lines: Vec<String> = Vec::new();
        let mut i: usize = 0;
        while i < self.lines.len()
            invariant
                i <= self.lines@.len(),
                lines@.len() == i as int,
                forall|j: int| 0 <= j < i as int ==> lines@[j] == self.lines@[j],
            decreases self.lines@.len() - i as int,
        {
            lines.push(self.lines[i].clone());
            i = i + 1;
        }
        proof {
            assert(lines@ =~= self.lines@);
        }
        Source { file: self.file.clone(), lines }
    }

    /// The snapshot text for a one-based line number, as diagnostics and
    /// tokens carry it.
    pub fn line_text(&self, line: usize) -> (r: String)
        ensures
            r@ == spec_line_text(self.lines@, line as nat),
    {
        let index: usize = if line > 0 { line - 1 } else { 0 };
        if index < self.lines.len() {
            self.lines[index].clone()
        } else if self.lines.len() > 0 {
            self.lines[self.lines.len() - 1].clone()
        } else {
            String::new()
        }
    }
}

} // verus!
