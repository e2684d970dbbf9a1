use vstd::prelude::*;

verus! {

/// The ways in which a registry operation can fail.
#[derive(Debug, Clone, PartialEq, Eq)]
pub enum RegistryError {
    /// Reading or writing durable storage failed.
    Io(String),
    /// A snapshot could not be encoded, or a stored one could not be decoded.
    Serialization(String),
    /// No package of the given name is registered.
    NotFound(String),
    /// An artifact filename does not have the `name-version-...` shape.
    InvalidFormat(String),
    /// The incoming stream of named parts was malformed.
    Protocol(String),
}

/// HTTP status for a missing resource.
pub const STATUS_NOT_FOUND: u16 = 404;

/// HTTP status for every other failure.
pub const STATUS_INTERNAL: u16 = 500;

impl RegistryError {
    /// Whether this error means that the requested package does not exist.
    pub open spec fn spec_is_not_found(&self) -> bool {
        self is NotFound
    }

    /// The status a client sees: a missing package is told apart from
    /// everything else, which is an undifferentiated internal failure.
    pub fn status_code(&self) -> (r: u16)
        ensures
            r == (if self.spec_is_not_found() { STATUS_NOT_FOUND } else { STATUS_INTERNAL }),
    {
        match self {
            RegistryError::NotFound(_) => STATUS_NOT_FOUND,
            _ => STATUS_INTERNAL,
        }
    }
}

} // verus!
