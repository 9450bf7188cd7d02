use vstd::prelude::*;

verus! {

/// A plain-string response type: a newtype over `String` so that a raw,
/// unparsed model response can be told apart from structured output.
#[derive(Debug)]
pub struct RawString(pub String);

impl View for RawString {
    type V = Seq<char>;

    open spec fn view(&self) -> Seq<char> {
        self.0@
    }
}

impl RawString {
    /// Wraps the string unchanged.
    pub fn new(s: String) -> (r: RawString)
        ensures
            r@ == s@,
    {
        RawString(s)
    }

    /// The wrapped string.
    pub fn as_str(&self) -> (r: &str)
        ensures
            r@ == self@,
    {
        self.0.as_str()
    }
}

} // verus!
