use crate::error::AsimovError;
use vstd::prelude::*;
use vstd::string::StringExecFns;
use vstd::string::StringExecFnsIsAscii;
use vstd::utf8::is_ascii_chars;

verus! {

/// True for the strings accepted as namespace names: non-empty and
/// ASCII-only.
pub open spec fn valid_namespace(s: Seq<char>) -> bool {
    &&& s.len() > 0
    &&& is_ascii_chars(s)
}

/// Namespaces group related items in the vector space. A `Namespace` only
/// ever holds a validated name: non-empty and ASCII-only. It is immutable
/// once created.
#[derive(Debug, Hash)]
pub struct Namespace {
    name: String,
}

impl View for Namespace {
    type V = Seq<char>;

    closed spec fn view(&self) -> Seq<char> {
        self.name@
    }
}

impl Namespace {
    /// Creates a `Namespace` from a string, accepting exactly the valid
    /// names and keeping the accepted string unchanged.
    pub fn new(name: String) -> (r: Result<Namespace, AsimovError>)
        ensures
            r is Ok <==> valid_namespace(name@),
            r is Ok ==> r->Ok_0@ == name@,
            r is Err ==> r->Err_0 == AsimovError::InvalidNamespace,
    {
        if name.as_str().is_empty() {
            return Err(AsimovError::InvalidNamespace);
        }
        if !name.is_ascii() {
            return Err(AsimovError::InvalidNamespace);
        }
        Ok(Namespace { name })
    }

    /// The name as a string slice; the round trip back to the accepted
    /// string.
    pub fn as_str(&self) -> (r: &str)
        ensures
            r@ == self@,
    {
        self.name.as_str()
    }

    /// True when the name equals the given string.
    pub fn eq_string(&self, s: &String) -> (r: bool)
        ensures
            r == (self@ == s@),
    {
        self.name == *s
    }

    /// Gives the name back as an owned string.
    pub fn into_string(self) -> (r: String)
        ensures
            r@ == self@,
    {
        self.name
    }
}

impl PartialEq for Namespace {
    fn eq(&self, other: &Namespace) -> (r: bool) {
        self.name == other.name
    }
}

impl vstd::std_specs::cmp::PartialEqSpecImpl for Namespace {
    open spec fn obeys_eq_spec() -> bool {
        true
    }

    open spec fn eq_spec(&self, other: &Namespace) -> bool {
        self@ == other@
    }
}

} // verus!
