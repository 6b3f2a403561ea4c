//! A field that a document may write as one string or as a list of strings.

use vstd::prelude::*;
use crate::text::{copy_strings, join, joined, lines_of, split_lines};

verus! {

/// One string, or a list of strings.
#[derive(Clone, Debug, PartialEq, Eq)]
pub enum SingleOrMultiString {
    Single(String),
    Multi(Vec<String>),
}

impl SingleOrMultiString {
    /// The lines that the field holds.
    pub open spec fn lines_view(self) -> Seq<Seq<char>> {
        match self {
            SingleOrMultiString::Single(s) => lines_of(s@),
            SingleOrMultiString::Multi(items) => items.deep_view(),
        }
    }

    /// The field as one text.
    pub open spec fn joined_view(self) -> Seq<char> {
        match self {
            SingleOrMultiString::Single(s) => s@,
            SingleOrMultiString::Multi(items) => joined(items.deep_view(), "\n"@),
        }
    }

    /// The field as a sequence of lines: the lines of the one string, or the
    /// members of the list, each taken as one line.
    pub fn lines(&self) -> (out: Vec<String>)
        ensures
            out.deep_view() == self.lines_view(),
    {
        match self {
            SingleOrMultiString::Single(s) => split_lines(s.as_str()),
            SingleOrMultiString::Multi(items) => copy_strings(items),
        }
    }

    /// The field as one text: the one string, or the members of the list
    /// with a line feed between each two.
    pub fn joined(&self) -> (out: String)
        ensures
            out@ == self.joined_view(),
    {
        match self {
            SingleOrMultiString::Single(s) => s.clone(),
            SingleOrMultiString::Multi(items) => join(items, "\n"),
        }
    }
}

} // verus!
