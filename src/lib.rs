//! A task tracker organised around named contexts: the data model and its
//! invariants, partial-id resolution, ordering and filtering, merging of
//! imported data, and the checks made when stored data is loaded.
pub mod commands;
pub mod context;
pub mod error;
pub mod listing;
pub mod merge;
pub mod resolve;
pub mod store;
pub mod task;
pub mod text;

pub use context::{Context, ContextManager, ContextMap};
pub use error::AppError;
pub use store::{StorageData, Store};
pub use task::{Priority, Task, TimeHorizon};
