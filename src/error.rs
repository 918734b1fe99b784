use vstd::prelude::*;

verus! {

/// Every failure that the library reports to its caller.
#[derive(Debug, Clone, PartialEq, Eq)]
pub enum AppError {
    /// No task matches the given identifier; for an ambiguous prefix the
    /// message lists every full id that matched.
    TaskNotFound(String),
    /// No context carries the given name.
    ContextNotFound(String),
    /// A context with the given name exists already.
    ContextAlreadyExists(String),
    /// The named context is the active one and cannot be deleted.
    ContextInUse(String),
    /// The given text names no time horizon.
    InvalidTimeHorizon(String),
    /// The given text names no priority.
    InvalidPriority(String),
    /// The only remaining context cannot be deleted.
    CannotDeleteLastContext,
    /// Stored data breaks an invariant of the model.
    InvalidDataFormat(String),
}

} // verus!
