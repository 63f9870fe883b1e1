use vstd::prelude::*;

verus! {

/// Failures that the core hands back to its callers.
#[derive(Clone, Debug, PartialEq, Eq, Structural)]
pub enum QuizError {
    /// A referenced entity id does not resolve.
    NotFound,
    /// The store refused a write (a key or reference constraint).
    PersistenceError,
    /// A participant cookie does not decode to a group.
    MalformedSession,
    /// The host secret is missing from the configuration.
    ConfigurationError,
}

} // verus!
