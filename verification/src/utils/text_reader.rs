use vstd::prelude::*;
use crate::utils::strings::{replace_all, replace_text};
use crate::utils::text::split_chars;
use crate::utils::text_writer::string_views;
use crate::utils::text::split_on;

verus! {

/// The lines of a text once its spaces and carriage returns are removed.
pub open spec fn text_lines(text: Seq<char>) -> Seq<Seq<char>> {
    split_on(replace_all(replace_all(text, " "@, seq![]), "\r"@, seq![]), '\n')
}

/// A reader over the lines of a text, with the spaces and carriage returns
/// removed.
pub struct TextReader {
    pub lines: Vec<String>,
    pub line_idx: usize,
}

impl TextReader {
    /// A reader at the first line of `text`.
    pub fn new(text: &str) -> (tr: TextReader)
        ensures
            string_views(tr.lines@) == text_lines(text@),
            tr.line_idx == 0,
    {
        proof {
            reveal_strlit(" ");
            reveal_strlit("\r");
            reveal_strlit("");
        }
        let no_spaces = replace_text(text, " ", "");
        let no_returns = replace_text(no_spaces.as_str(), "\r", "");
        let lines = split_chars(no_returns.as_str(), '\n');
        proof {
            assert(""@ =~= Seq::<char>::empty());
        }
        TextReader { lines, line_idx: 0 }
    }

    /// The next line; `None` past the last one.
    pub fn read_line(&mut self) -> (r: Option<String>)
        ensures
            final(self).lines == old(self).lines,
            match r {
                Some(line) => old(self).line_idx < old(self).lines@.len() && line@
                    == old(self).lines@[old(self).line_idx as int]@ && final(self).line_idx
                    == old(self).line_idx + 1,
                None => old(self).line_idx >= old(self).lines@.len(),
            },
    {
        if self.line_idx >= self.lines.len() {
            return None;
        }
        let ret = self.lines[self.line_idx].clone();
        self.line_idx = self.line_idx + 1;
        Some(ret)
    }
}

} // verus!
