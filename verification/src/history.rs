//! The command history between two runs.
use vstd::prelude::*;
use vstd::string::*;
use crate::menu::{join_path, joined_path};
use crate::text::{chars_of, trim, trim_chars};

verus! {

/// The path of a user's history, below the directory for data or the home directory.
pub open spec fn history_place(data: Option<Seq<char>>, home: Option<Seq<char>>) -> Seq<char> {
    match data {
        Some(d) => joined_path(d, "manto/history"@),
        None => joined_path(
            match home {
                Some(h) => h,
                None => "."@,
            },
            ".manto/history"@,
        ),
    }
}

/// Where the history is kept.
pub struct History {
    path: String,
}

impl History {
    pub closed spec fn place(&self) -> Seq<char> {
        self.path@
    }

    pub fn new(path: String) -> (h: History)
        ensures
            h.place() == path@,
    {
        History { path }
    }

    /// The history of a user: below the directory for data where there is one, below
    /// the home directory otherwise.
    pub fn of_user(data: Option<&str>, home: Option<&str>) -> (h: History)
        ensures
            h.place() == history_place(
                match data {
                    Some(d) => Some(d@),
                    None => None,
                },
                match home {
                    Some(d) => Some(d@),
                    None => None,
                },
            ),
    {
        let path = match (data, home) {
            (Some(d), _) => join_path(&chars_of(d), &chars_of("manto/history")),
            (None, Some(d)) => join_path(&chars_of(d), &chars_of(".manto/history")),
            (None, None) => join_path(&chars_of("."), &chars_of(".manto/history")),
        };
        History { path }
    }

    /// The path of the history file.
    pub fn path(&self) -> (p: &str)
        ensures
            p@ == self.place(),
    {
        self.path.as_str()
    }

    /// The newest `max_lines` of the lines that the file holds.
    pub fn load(&self, lines: &[String], max_lines: usize) -> (r: Vec<String>)
        ensures
            r@ == (if lines@.len() > max_lines {
                lines@.skip(lines@.len() - max_lines)
            } else {
                lines@
            }),
    {
        let start: usize = lines.len().saturating_sub(max_lines);
        let mut r: Vec<String> = Vec::new();
        let mut i: usize = start;
        while i < lines.len()
            invariant
                start <= i <= lines@.len(),
                r@ == lines@.subrange(start as int, i as int),
            decreases lines@.len() - i,
        {
            r.push(lines[i].clone());
            assert(r@ =~= lines@.subrange(start as int, i + 1));
            i = i + 1;
        }
        assert(lines@.subrange(start as int, lines@.len() as int) =~= lines@.skip(start as int));
        assert(lines@.skip(0) =~= lines@);
        r
    }

    /// What goes to the end of the file for a line: nothing for one of white space
    /// alone, else the line and a line break.
    pub fn append(&self, line: &str) -> (r: Option<String>)
        ensures
            match r {
                Some(t) => trim(line@).len() > 0 && t@ == line@.push('\n'),
                None => trim(line@).len() == 0,
            },
    {
        if trim_chars(&chars_of(line)).len() == 0 {
            return None;
        }
        let mut t = line.to_owned();
        t.push('\n');
        Some(t)
    }
}

} // verus!
