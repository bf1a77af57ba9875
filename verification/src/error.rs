//! Error taxonomy for the orchestration engine.

use vstd::prelude::*;

verus! {

/// Errors that the engine and its workflows can report.
///
/// Every variant carries a human-readable description; the variant itself is
/// the machine-readable classification that callers dispatch on.
#[derive(Debug, Clone)]
pub enum Error {
    /// No network with the given name is registered.
    NetworkNotFound(String),
    /// No node with the given name exists in the network.
    NodeNotFound(String),
    /// A container-runtime operation failed.
    Docker(String),
    /// A workflow precondition was violated or a response was malformed.
    Config(String),
    /// Reading or writing the store failed.
    Io(String),
    /// A persisted record could not be decoded.
    Serialization(String),
}

impl Error {
    /// The descriptive text carried by the error, without its category prefix.
    pub fn detail(&self) -> (r: &String)
        ensures
            r == self.spec_detail(),
    {
        match self {
            Error::NetworkNotFound(s) => s,
            Error::NodeNotFound(s) => s,
            Error::Docker(s) => s,
            Error::Config(s) => s,
            Error::Io(s) => s,
            Error::Serialization(s) => s,
        }
    }

    /// The descriptive text of the error, as a sequence of characters.
    pub open spec fn spec_detail(&self) -> String {
        match self {
            Error::NetworkNotFound(s) => *s,
            Error::NodeNotFound(s) => *s,
            Error::Docker(s) => *s,
            Error::Config(s) => *s,
            Error::Io(s) => *s,
            Error::Serialization(s) => *s,
        }
    }

    /// A full message in the style `category: detail`.
    pub fn message(&self) -> (r: String)
        ensures
            r@ == self.spec_message(),
    {
        let prefix: &str = match self {
            Error::NetworkNotFound(_) => "network not found: ",
            Error::NodeNotFound(_) => "node not found: ",
            Error::Docker(_) => "docker error: ",
            Error::Config(_) => "config error: ",
            Error::Io(_) => "io error: ",
            Error::Serialization(_) => "serialization error: ",
        };
        let mut out = String::from_str(prefix);
        out.append(self.detail().as_str());
        out
    }

    /// The message `message` returns: the category prefix followed by the detail.
    pub open spec fn spec_message(&self) -> Seq<char> {
        (match self {
            Error::NetworkNotFound(_) => "network not found: "@,
            Error::NodeNotFound(_) => "node not found: "@,
            Error::Docker(_) => "docker error: "@,
            Error::Config(_) => "config error: "@,
            Error::Io(_) => "io error: "@,
            Error::Serialization(_) => "serialization error: "@,
        }) + self.spec_detail()@
    }
}

/// Result type used throughout the engine.
pub type EngineResult<T> = Result<T, Error>;

} // verus!
