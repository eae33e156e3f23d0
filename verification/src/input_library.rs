//! An input static library.

use vstd::prelude::*;

verus! {

/// A static library (ar archive) to be merged. The name is used to give
/// more meaningful messages in case of errors; the reader reads the binary
/// data of the static library file.
pub struct InputLibrary<R> {
    name: String,
    reader: R,
}

impl<R> View for InputLibrary<R> {
    type V = Seq<char>;

    closed spec fn view(&self) -> Seq<char> {
        self.name@
    }
}

impl<R> InputLibrary<R> {
    pub fn new(name: String, reader: R) -> (r: InputLibrary<R>)
        ensures
            r@ == name@,
    {
        InputLibrary { name, reader }
    }

    /// The library's name.
    pub fn name(&self) -> (r: &str)
        ensures
            r@ == self@,
    {
        self.name.as_str()
    }

    /// Take the library apart into its name and its reader.
    pub fn into_parts(self) -> (r: (String, R))
        ensures
            r.0@ == self@,
    {
        (self.name, self.reader)
    }
}

} // verus!
