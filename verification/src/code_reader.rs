use vstd::prelude::*;
use vstd::string::{StrSliceExecFns, StringExecFns, StringSliceAdditionalSpecFns};

verus! {

/// The position of the first newline of `s` from `from` on, or the length of `s`.
pub open spec fn first_newline(s: Seq<char>, from: int) -> int
    decreases s.len() - from,
{
    if from < 0 || from >= s.len() || s[from] == '\n' {
        from
    } else {
        first_newline(s, from + 1)
    }
}

/// A line without the carriage return that ends it, if one does.
pub open spec fn strip_cr(line: Seq<char>) -> Seq<char> {
    if line.len() > 0 && line.last() == '\r' {
        line.drop_last()
    } else {
        line
    }
}

pub proof fn lemma_first_newline_bounds(s: Seq<char>, from: int)
    requires
        0 <= from <= s.len(),
    ensures
        from <= first_newline(s, from) <= s.len(),
        first_newline(s, from) < s.len() ==> s[first_newline(s, from)] == '\n',
        forall|j: int| from <= j < first_newline(s, from) ==> s[j] != '\n',
    decreases s.len() - from,
{
    if from < s.len() && s[from] != '\n' {
        lemma_first_newline_bounds(s, from + 1);
    }
}

/// The lines of `s` from position `from` on, split at each `\n` (a `\r` right before it is
/// part of the line ending); the text after the last newline is a line if it is not empty.
pub open spec fn lines_from(s: Seq<char>, from: int) -> Seq<Seq<char>>
    decreases s.len() - from,
{
    if from < 0 || from >= s.len() {
        seq![]
    } else {
        let nl = first_newline(s, from);
        proof {
            lemma_first_newline_bounds(s, from);
        }
        if nl >= s.len() {
            seq![s.subrange(from, s.len() as int)]
        } else {
            seq![strip_cr(s.subrange(from, nl))] + lines_from(s, nl + 1)
        }
    }
}

/// The lines of `s`.
pub open spec fn lines_of(s: Seq<char>) -> Seq<Seq<char>> {
    lines_from(s, 0)
}

/// The texts of `lines`.
pub open spec fn texts(lines: Seq<String>) -> Seq<Seq<char>> {
    lines.map_values(|l: String| l@)
}

proof fn lemma_first_newline_skip(s: Seq<char>, from: int, i: int)
    requires
        0 <= from <= i <= s.len(),
        forall|j: int| from <= j < i ==> s[j] != '\n',
    ensures
        first_newline(s, from) == first_newline(s, i),
    decreases i - from,
{
    if from < i {
        lemma_first_newline_skip(s, from + 1, i);
    }
}

/// Reads a text line by line.
pub struct CodeReader {
    lines: Vec<String>,
    index: usize,
}

impl CodeReader {
    /// The lines of the text.
    pub closed spec fn spec_lines(&self) -> Seq<Seq<char>> {
        texts(self.lines@)
    }

    /// The index of the next line to read.
    pub closed spec fn spec_index(&self) -> usize {
        self.index
    }

    /// A reader of the lines of `code`, at the first line.
    pub fn from_str(code: &str) -> (r: Self)
        ensures
            r.spec_lines() == lines_of(code@),
            r.spec_index() == 0,
    {
        let ghost s = code@;
        let n = code.unicode_len();
        let mut lines: Vec<String> = Vec::new();
        let mut start: usize = 0;
        let mut i: usize = 0;
        while i < n
            invariant
                n == s.len(),
                s == code@,
                0 <= start <= i <= n,
                forall|j: int| start <= j < i ==> s[j] != '\n',
                lines_of(s) == texts(lines@) + lines_from(s, start as int),
            decreases n - i,
        {
            let c = code.get_char(i);
            if c == '\n' {
                proof {
                    lemma_first_newline_skip(s, start as int, i as int);
                    lemma_first_newline_bounds(s, start as int);
                }
                let end = if i > start && code.get_char(i - 1) == '\r' {
                    i - 1
                } else {
                    i
                };
                let line = String::from_str(code.substring_char(start, end));
                proof {
                    assert(line@ == strip_cr(s.subrange(start as int, i as int))) by {
                        if i > start && s[i - 1] == '\r' {
                            assert(s.subrange(start as int, i as int).drop_last() =~= s.subrange(
                                start as int,
                                i - 1,
                            ));
                        }
                    }
                    assert(texts(lines@.push(line)) =~= texts(lines@).push(line@));
                    assert(lines_from(s, start as int) == seq![
                        strip_cr(s.subrange(start as int, i as int)),
                    ] + lines_from(s, i + 1));
                }
                lines.push(line);
                start = i + 1;
            }
            i = i + 1;
        }
        if start < n {
            proof {
                lemma_first_newline_skip(s, start as int, n as int);
            }
            let line = String::from_str(code.substring_char(start, n));
            proof {
                assert(texts(lines@.push(line)) =~= texts(lines@).push(line@));
            }
            lines.push(line);
        }
        assert(lines_of(s) =~= texts(lines@));
        Self { lines, index: 0 }
    }

    pub fn get_index(&self) -> (i: usize)
        ensures
            i == self.spec_index(),
    {
        self.index
    }

    pub fn seek(&mut self, to: usize)
        ensures
            final(self).spec_index() == to,
            final(self).spec_lines() == old(self).spec_lines(),
    {
        self.index = to;
    }

    /// The line at the current index, if there is one; the index moves on either way.
    pub fn get_next(&mut self) -> (line: Option<&String>)
        requires
            old(self).spec_index() < usize::MAX,
        ensures
            final(self).spec_index() == old(self).spec_index() + 1,
            final(self).spec_lines() == old(self).spec_lines(),
            match line {
                Some(l) => old(self).spec_index() < old(self).spec_lines().len() && l@
                    == old(self).spec_lines()[old(self).spec_index() as int],
                None => old(self).spec_index() >= old(self).spec_lines().len(),
            },
    {
        let i = self.index;
        self.index = i + 1;
        if i < self.lines.len() {
            Some(&self.lines[i])
        } else {
            None
        }
    }

    /// Copies the next line into `buf` and returns its length in bytes; fails at the end.
    pub fn read_line(&mut self, buf: &mut String) -> (r: Result<usize, String>)
        requires
            old(self).spec_index() < usize::MAX,
        ensures
            final(self).spec_index() == old(self).spec_index() + 1,
            final(self).spec_lines() == old(self).spec_lines(),
            match r {
                Ok(len) => {
                    &&& old(self).spec_index() < old(self).spec_lines().len()
                    &&& final(buf)@ == old(self).spec_lines()[old(self).spec_index() as int]
                    &&& len == vstd::utf8::encode_utf8(final(buf)@).len() as usize
                },
                Err(e) => {
                    &&& old(self).spec_index() >= old(self).spec_lines().len()
                    &&& e@ == "Could not get next line."@
                    &&& *final(buf) == *old(buf)
                },
            },
    {
        let line = match self.get_next() {
            Some(line) => line,
            None => {
                return Err(String::from_str("Could not get next line."));
            },
        };
        let len = line.as_str().len();
        *buf = line.clone();
        Ok(len)
    }
}

} // verus!
