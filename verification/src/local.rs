//! The desired-state records a user authors: projects with keyed jobs, and a
//! mapping of environment names to their numeric ids. Keyed collections are
//! held as ordered key/value pairs.
use vstd::prelude::*;

verus! {

#[derive(Debug, Clone)]
pub struct Root {
    pub account: Option<Account>,
    pub projects: Vec<(String, Project)>,
    pub environments: Vec<(String, Environment)>,
}

#[derive(Debug, Clone, Copy)]
pub struct Account {
    pub id: i64,
}

#[derive(Debug, Clone)]
pub struct Project {
    pub id: i64,
    pub jobs: Vec<(String, Job)>,
}

#[derive(Debug, Clone)]
pub struct Job {
    pub name: Option<String>,
    pub environment: String,
    pub target: String,
    pub timeout: Option<i64>,
    pub threads: Option<i64>,
    pub ci: Option<CI>,
    pub schedule: Option<Schedule>,
    pub steps: Vec<String>,
    pub generate_docs: Option<bool>,
    pub defer_to_job_id: Option<i64>,
    pub defer_to_env_id: Option<i64>,
}

#[derive(Debug, Clone, Copy)]
pub struct CI {
    pub run_on_pr: Option<bool>,
    pub custom_branch_only: Option<bool>,
}

#[derive(Debug, Clone)]
pub struct Schedule {
    pub cron: String,
}

#[derive(Debug, Clone, Copy)]
pub struct Environment {
    pub id: i64,
}

} // verus!
