use vstd::prelude::*;

use crate::context::{default_name, ContextManager, ContextMap};
use crate::task::Task;
use crate::error::AppError;

verus! {

#[verifier::external_type_specification]
#[verifier::external_body]
pub struct ExPathBuf(std::path::PathBuf);

/// The version stamp written with stored data.
pub open spec fn storage_version() -> Seq<char> {
    "1.0.0"@
}

/// The message for stored data whose active name is not a context.
pub open spec fn missing_active_message(active: Seq<char>) -> Seq<char> {
    "Active context '"@ + active + "' does not exist in contexts"@
}

/// What is written to and read from the data file: a manager's contexts
/// and active name, with a version stamp.
#[derive(Debug)]
pub struct StorageData {
    pub version: String,
    pub contexts: ContextMap,
    pub active_context: String,
}

impl StorageData {
    /// Stamps contexts and an active name with the current version.
    pub fn new(contexts: ContextMap, active_context: String) -> (d: StorageData)
        ensures
            d.version@ == storage_version(),
            d.contexts == contexts,
            d.active_context == active_context,
    {
        StorageData { version: String::from_str("1.0.0"), contexts, active_context }
    }

    /// The data satisfy the manager's invariant.
    pub open spec fn is_valid(&self) -> bool {
        &&& self.contexts.wf()
        &&& self.contexts@.dom().contains(self.active_context@)
    }

    /// Checks that the active name is one of the contexts, and turns the
    /// data into a manager; on failure nothing is returned but the error.
    pub fn into_manager(self) -> (r: Result<ContextManager, AppError>)
        requires
            self.contexts.wf(),
        ensures
            self.is_valid() ==> (r matches Ok(m) && m.wf() && m.contexts == self.contexts
                && m.active_context == self.active_context),
            !self.is_valid() ==> (r matches Err(AppError::InvalidDataFormat(msg)) && msg@
                == missing_active_message(self.active_context@)),
    {
        if !self.contexts.contains_key(self.active_context.as_str()) {
            let mut msg = String::from_str("Active context '");
            msg.append(self.active_context.as_str());
            msg.append("' does not exist in contexts");
            return Err(AppError::InvalidDataFormat(msg));
        }
        Ok(ContextManager { contexts: self.contexts, active_context: self.active_context })
    }
}

/// The data of a well-formed manager, as stored, pass the check that loading
/// makes, and load back with the same contexts and the same active name.
pub proof fn lemma_stored_manager_loads_back(m: ContextManager, d: StorageData)
    requires
        m.wf(),
        d.contexts == m.contexts,
        d.active_context == m.active_context,
    ensures
        d.is_valid(),
        d.contexts@ == m.contexts@,
        d.active_context@ == m.active_context@,
{
}

/// Where the data file lives.
#[derive(Debug)]
pub struct Store {
    file_path: std::path::PathBuf,
}

impl Store {
    /// The path of the data file.
    pub closed spec fn path(&self) -> std::path::PathBuf {
        self.file_path
    }

    /// A store for the data file at `file_path`.
    pub fn new(file_path: std::path::PathBuf) -> (s: Store)
        ensures
            s.path() == file_path,
    {
        Store { file_path }
    }

    /// The path of the data file.
    pub fn file_path(&self) -> (p: &std::path::PathBuf)
        ensures
            *p == self.path(),
    {
        &self.file_path
    }

    /// The manager that loading yields: a fresh one when there is no data
    /// file, and otherwise the stored data once they pass the check.
    pub fn load_from(found: Option<StorageData>) -> (r: Result<ContextManager, AppError>)
        requires
            found matches Some(d) ==> d.contexts.wf(),
        ensures
            found is None ==> (r matches Ok(m) && m.wf() && m.active_context@ == default_name()
                && m.contexts@.len() == 1 && m.contexts@ == map![
                default_name() => (default_name(), Seq::<Task>::empty()),
            ]),
            found matches Some(d) ==> (d.is_valid() ==> (r matches Ok(m) && m.wf() && m.contexts
                == d.contexts && m.active_context == d.active_context)),
            found matches Some(d) ==> (!d.is_valid() ==> (r matches Err(
                AppError::InvalidDataFormat(msg),
            ) && msg@ == missing_active_message(d.active_context@))),
    {
        match found {
            None => Ok(ContextManager::new()),
            Some(d) => d.into_manager(),
        }
    }
}

} // verus!
