//! Run context: the account to work in, the project a record is stamped
//! with, and the credentials the caller holds for the remote side.
use vstd::prelude::*;

verus! {

#[derive(Debug, Clone)]
pub struct Config {
    pub account_id: i64,
    pub project_id: Option<i64>,
    pub token: String,
    pub base_url: String,
}

impl Config {
    /// The same context, scoped to one project.
    pub fn with_project_id(&self, project_id: i64) -> (r: Config)
        ensures
            r.account_id == self.account_id,
            r.project_id == Some(project_id),
            r.token@ == self.token@,
            r.base_url@ == self.base_url@,
    {
        Config {
            account_id: self.account_id,
            project_id: Some(project_id),
            token: self.token.clone(),
            base_url: self.base_url.clone(),
        }
    }
}

} // verus!
