//! The error kinds a run can end with. Every one is fatal to the run: there
//! is no retry and no continuation to the next project.
use vstd::prelude::*;

verus! {

#[derive(Debug, Clone)]
pub enum Error {
    /// A job references an environment key absent from the environment
    /// mapping; carries the missing key.
    ConfigReference(String),
    /// Listing the remote jobs of a project failed; carries a description.
    RemoteFetch(String),
    /// A remote create or update call failed; carries a description.
    RemoteWrite(String),
    /// An update or delete action lacks a remote identifier; carries the
    /// job's name.
    MissingIdentifier(String),
}

} // verus!
