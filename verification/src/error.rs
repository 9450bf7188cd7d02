use vstd::prelude::*;
use vstd::string::StringExecFns;

verus! {

/// Every fallible operation of the library reports one of these failure
/// kinds; no operation silently swallows an error.
#[derive(Debug)]
pub enum AsimovError {
    /// An object could not be rendered to text.
    Input(String),
    /// A streamed response could not be assembled.
    Output(String),
    /// A tokenizer rejected its input.
    Tokenizer(String),
    /// A namespace string failed validation.
    Namespace(String),
    /// The embedding capability failed, or handed back a vector the
    /// backend cannot index.
    Model(String),
    /// Structured output could not be parsed.
    ParsingError(String),
    /// The key (namespace or item id) is already present.
    KeyCollision(String),
    /// The key (namespace or item id) is absent.
    KeyNotFound(String),
    /// A namespace string was empty or not ASCII.
    InvalidNamespace,
    /// The in-memory index could not be built or searched.
    Hora(String),
    /// A remote vector store failed.
    Qdrant(String),
    /// A vector store backend failed.
    VectorDb(String),
    /// Example selection failed.
    FewShot(String),
    Unknown(String),
}

impl AsimovError {
    /// The human-readable description of the error.
    pub open spec fn message_spec(&self) -> Seq<char> {
        match self {
            AsimovError::Input(s) => "Context error: "@ + s@,
            AsimovError::Output(s) => "Output error: "@ + s@,
            AsimovError::Tokenizer(s) => "Tokenizer error: "@ + s@,
            AsimovError::Namespace(s) => "Namespace error: "@ + s@,
            AsimovError::Model(s) => "Model error: "@ + s@,
            AsimovError::ParsingError(s) => "Parsing error: "@ + s@,
            AsimovError::KeyCollision(s) => "Key "@ + s@ + " is already present"@,
            AsimovError::KeyNotFound(s) => "Key "@ + s@ + " not found"@,
            AsimovError::InvalidNamespace => "Invalid namespace"@,
            AsimovError::Hora(s) => s@,
            AsimovError::Qdrant(s) => s@,
            AsimovError::VectorDb(s) => s@,
            AsimovError::FewShot(s) => "Few shot error: "@ + s@,
            AsimovError::Unknown(s) => "unknown error "@ + s@,
        }
    }

    /// Renders the error as text.
    pub fn message(&self) -> (m: String)
        ensures
            m@ == self.message_spec(),
    {
        match self {
            AsimovError::Input(s) => String::from_str("Context error: ").concat(s.as_str()),
            AsimovError::Output(s) => String::from_str("Output error: ").concat(s.as_str()),
            AsimovError::Tokenizer(s) => String::from_str("Tokenizer error: ").concat(s.as_str()),
            AsimovError::Namespace(s) => String::from_str("Namespace error: ").concat(s.as_str()),
            AsimovError::Model(s) => String::from_str("Model error: ").concat(s.as_str()),
            AsimovError::ParsingError(s) => String::from_str("Parsing error: ").concat(s.as_str()),
            AsimovError::KeyCollision(s) => String::from_str("Key ").concat(s.as_str()).concat(
                " is already present",
            ),
            AsimovError::KeyNotFound(s) => String::from_str("Key ").concat(s.as_str()).concat(
                " not found",
            ),
            AsimovError::InvalidNamespace => String::from_str("Invalid namespace"),
            AsimovError::Hora(s) => String::from_str(s.as_str()),
            AsimovError::Qdrant(s) => String::from_str(s.as_str()),
            AsimovError::VectorDb(s) => String::from_str(s.as_str()),
            AsimovError::FewShot(s) => String::from_str("Few shot error: ").concat(s.as_str()),
            AsimovError::Unknown(s) => String::from_str("unknown error ").concat(s.as_str()),
        }
    }
}

} // verus!
