//! String values crossing the module ABI: a C-compatible string descriptor,
//! modeled by the text it points at.
use vstd::prelude::*;

verus! {

/// A string crossing the C ABI as a pointer and length; the model carries
/// the text itself.
#[derive(Clone, Debug, PartialEq, Eq, Hash, Default)]
pub struct FFIStr {
    text: String,
}

impl FFIStr {
    /// The characters of the descriptor's text.
    pub closed spec fn spec_text(&self) -> Seq<char> {
        self.text@
    }

    /// Wraps a string for the module ABI.
    pub fn from(value: &str) -> (r: FFIStr)
        ensures
            r.spec_text() == value@,
    {
        FFIStr { text: value.to_owned() }
    }

    /// The text behind the descriptor.
    pub fn as_str(&self) -> (r: &str)
        ensures
            r@ == self.spec_text(),
    {
        self.text.as_str()
    }
}

} // verus!
