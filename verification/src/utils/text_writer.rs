use vstd::prelude::*;

verus! {

/// A writer that collects the lines of a text file, to be stored at `path`.
pub struct TextWriter {
    pub lines: Vec<String>,
    pub path: String,
}

/// The models of a list of strings.
pub open spec fn string_views(v: Seq<String>) -> Seq<Seq<char>> {
    v.map_values(|s: String| s@)
}

impl TextWriter {
    /// An empty writer for the file at `path`.
    pub fn new(path: &str) -> (tw: TextWriter)
        ensures
            string_views(tw.lines@) == Seq::<Seq<char>>::empty(),
            tw.path@ == path@,
    {
        proof {
            assert(string_views(Seq::<String>::empty()) =~= Seq::<Seq<char>>::empty());
        }
        TextWriter { lines: Vec::new(), path: path.to_string() }
    }

    /// Appends one line.
    pub fn write_line(&mut self, line: String)
        ensures
            string_views(final(self).lines@) == string_views(old(self).lines@).push(line@),
            final(self).path == old(self).path,
    {
        self.lines.push(line);
        proof {
            assert(string_views(self.lines@) =~= string_views(old(self).lines@).push(line@));
        }
    }
}

} // verus!
