//! Source coordinates.

use crate::text::{decimal, push_decimal};
use vstd::prelude::*;
use vstd::string::StringExecFns;

verus! {

/// A place in a source text: the file's name, the line and the column, both
/// counted from zero. The column is a byte offset into the line after its
/// surrounding white space was removed.
#[derive(Debug, PartialEq, Eq)]
pub struct Location {
    pub filename: String,
    pub line: usize,
    pub col: usize,
}

/// What a `Location` stands for.
pub struct Place {
    pub file: Seq<char>,
    pub line: nat,
    pub col: nat,
}

impl Place {
    /// The place as `file:line:col`.
    pub open spec fn text(self) -> Seq<char> {
        self.file + seq![':'] + decimal(self.line) + seq![':'] + decimal(self.col)
    }
}

impl View for Location {
    type V = Place;

    open spec fn view(&self) -> Place {
        Place { file: self.filename@, line: self.line as nat, col: self.col as nat }
    }
}

impl Clone for Location {
    fn clone(&self) -> (r: Self)
        ensures
            r@ == self@,
    {
        Location { filename: self.filename.clone(), line: self.line, col: self.col }
    }
}

impl Location {
    /// The location as `file:line:col`.
    pub fn to_text(&self) -> (s: String)
        ensures
            s@ == self@.text(),
    {
        let mut s = self.filename.clone();
        s.push(':');
        push_decimal(&mut s, self.line as u128);
        s.push(':');
        push_decimal(&mut s, self.col as u128);
        assert(s@ == self@.text());
        s
    }
}

} // verus!
