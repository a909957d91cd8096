//! The canonical job shape the remote side holds: the shared vocabulary both
//! desired-state projections and fetched records are normalized into, and its
//! deterministic conversion into the generic tree value the diff engine
//! compares.
use vstd::prelude::*;

use crate::value::{wf, wf_arr, wf_obj, Value};

verus! {

#[derive(Debug, Clone, PartialEq)]
pub struct Response<T> {
    pub data: Option<T>,
    pub status: Status,
}

#[derive(Debug, Clone, PartialEq)]
pub struct Status {
    pub code: i64,
    pub is_success: bool,
    pub user_message: String,
    pub developer_message: String,
}

#[derive(Debug, Clone, PartialEq)]
pub struct Job {
    pub id: Option<i64>,
    pub account_id: i64,
    pub project_id: i64,
    pub environment_id: i64,
    pub name: String,
    pub dbt_version: Option<String>,
    pub triggers: Triggers,
    pub execute_steps: Vec<String>,
    pub settings: Settings,
    pub state: i64,
    pub generate_docs: bool,
    pub deferring_job_definition_id: Option<i64>,
    pub deferring_environment_id: Option<i64>,
    pub schedule: Schedule,
    pub execution: Execution,
}

#[derive(Debug, Clone, Copy, PartialEq)]
pub struct Triggers {
    pub github_webhook: bool,
    pub git_provider_webhook: bool,
    pub schedule: bool,
    pub custom_branch_only: Option<bool>,
}

#[derive(Debug, Clone, PartialEq)]
pub struct Settings {
    pub threads: i64,
    pub target_name: String,
}

#[derive(Debug, Clone, PartialEq)]
pub struct Schedule {
    pub cron: String,
    pub date: Date,
    pub time: Time,
}

#[derive(Debug, Clone, PartialEq)]
pub struct Date {
    pub type_field: String,
    pub days: Option<Vec<i64>>,
    pub cron: Option<String>,
}

#[derive(Debug, Clone, PartialEq)]
pub struct Time {
    pub type_field: String,
    pub interval: Option<i64>,
    pub hours: Option<Vec<i64>>,
}

#[derive(Debug, Clone, Copy, PartialEq)]
pub struct Execution {
    pub timeout_seconds: i64,
}

// --- what each piece looks like as a tree value ---

pub open spec fn is_str(v: Value, s: Seq<char>) -> bool {
    v matches Value::Str(t) && t@ == s
}

pub open spec fn is_opt_int(v: Value, o: Option<i64>) -> bool {
    match o {
        Option::Some(x) => v == Value::Int(x),
        Option::None => v is Null,
    }
}

pub open spec fn is_opt_str(v: Value, o: Option<String>) -> bool {
    match o {
        Option::Some(s) => is_str(v, s@),
        Option::None => v is Null,
    }
}

pub open spec fn is_opt_bool(v: Value, o: Option<bool>) -> bool {
    match o {
        Option::Some(b) => v == Value::Bool(b),
        Option::None => v is Null,
    }
}

pub open spec fn is_str_arr(v: Value, xs: Seq<String>) -> bool {
    v matches Value::Array(es) && es@.len() == xs.len() && (forall|i: int|
        0 <= i < xs.len() ==> is_str(#[trigger] es@[i], xs[i]@))
}

pub open spec fn is_int_arr(v: Value, xs: Seq<i64>) -> bool {
    v matches Value::Array(es) && es@.len() == xs.len() && (forall|i: int|
        0 <= i < xs.len() ==> #[trigger] es@[i] == Value::Int(xs[i]))
}

pub open spec fn represents_triggers(v: Value, t: Triggers) -> bool {
    &&& v matches Value::Object(f)
    &&& f@.len() == 4
    &&& f@[0].0@ == "github_webhook"@ && f@[0].1 == Value::Bool(t.github_webhook)
    &&& f@[1].0@ == "git_provider_webhook"@ && f@[1].1 == Value::Bool(t.git_provider_webhook)
    &&& f@[2].0@ == "schedule"@ && f@[2].1 == Value::Bool(t.schedule)
    &&& f@[3].0@ == "custom_branch_only"@ && is_opt_bool(f@[3].1, t.custom_branch_only)
}

pub open spec fn represents_settings(v: Value, s: Settings) -> bool {
    &&& v matches Value::Object(f)
    &&& f@.len() == 2
    &&& f@[0].0@ == "threads"@ && f@[0].1 == Value::Int(s.threads)
    &&& f@[1].0@ == "target_name"@ && is_str(f@[1].1, s.target_name@)
}

/// The date descriptor: the optional parts are left out entirely when absent.
pub open spec fn represents_date(v: Value, d: Date) -> bool {
    &&& v matches Value::Object(f)
    &&& f@.len() == 1 + (if d.days is Some {
        1int
    } else {
        0int
    }) + (if d.cron is Some {
        1int
    } else {
        0int
    })
    &&& f@[0].0@ == "type"@ && is_str(f@[0].1, d.type_field@)
    &&& (d.days matches Option::Some(ds) ==> f@[1].0@ == "days"@ && is_int_arr(f@[1].1, ds@))
    &&& (d.cron matches Option::Some(c) ==> {
        let ci = if d.days is Some {
            2int
        } else {
            1int
        };
        f@[ci].0@ == "cron"@ && is_str(f@[ci].1, c@)
    })
}

/// The time descriptor: `interval` is always present (null when unset), the
/// hour list is left out entirely when absent.
pub open spec fn represents_time(v: Value, t: Time) -> bool {
    &&& v matches Value::Object(f)
    &&& f@.len() == 2 + (if t.hours is Some {
        1int
    } else {
        0int
    })
    &&& f@[0].0@ == "type"@ && is_str(f@[0].1, t.type_field@)
    &&& f@[1].0@ == "interval"@ && is_opt_int(f@[1].1, t.interval)
    &&& (t.hours matches Option::Some(hs) ==> f@[2].0@ == "hours"@ && is_int_arr(f@[2].1, hs@))
}

pub open spec fn represents_schedule(v: Value, s: Schedule) -> bool {
    &&& v matches Value::Object(f)
    &&& f@.len() == 3
    &&& f@[0].0@ == "cron"@ && is_str(f@[0].1, s.cron@)
    &&& f@[1].0@ == "date"@ && represents_date(f@[1].1, s.date)
    &&& f@[2].0@ == "time"@ && represents_time(f@[2].1, s.time)
}

pub open spec fn represents_execution(v: Value, e: Execution) -> bool {
    &&& v matches Value::Object(f)
    &&& f@.len() == 1
    &&& f@[0].0@ == "timeout_seconds"@ && f@[0].1 == Value::Int(e.timeout_seconds)
}

/// The canonical record as a tree: one field per record field, in the order
/// of the wire shape.
pub open spec fn represents_job(v: Value, j: Job) -> bool {
    &&& v matches Value::Object(f)
    &&& f@.len() == 15
    &&& f@[0].0@ == "id"@ && is_opt_int(f@[0].1, j.id)
    &&& f@[1].0@ == "account_id"@ && f@[1].1 == Value::Int(j.account_id)
    &&& f@[2].0@ == "project_id"@ && f@[2].1 == Value::Int(j.project_id)
    &&& f@[3].0@ == "environment_id"@ && f@[3].1 == Value::Int(j.environment_id)
    &&& f@[4].0@ == "name"@ && is_str(f@[4].1, j.name@)
    &&& f@[5].0@ == "dbt_version"@ && is_opt_str(f@[5].1, j.dbt_version)
    &&& f@[6].0@ == "triggers"@ && represents_triggers(f@[6].1, j.triggers)
    &&& f@[7].0@ == "execute_steps"@ && is_str_arr(f@[7].1, j.execute_steps@)
    &&& f@[8].0@ == "settings"@ && represents_settings(f@[8].1, j.settings)
    &&& f@[9].0@ == "state"@ && f@[9].1 == Value::Int(j.state)
    &&& f@[10].0@ == "generate_docs"@ && f@[10].1 == Value::Bool(j.generate_docs)
    &&& f@[11].0@ == "deferring_job_definition_id"@ && is_opt_int(
        f@[11].1,
        j.deferring_job_definition_id,
    )
    &&& f@[12].0@ == "deferring_environment_id"@ && is_opt_int(
        f@[12].1,
        j.deferring_environment_id,
    )
    &&& f@[13].0@ == "schedule"@ && represents_schedule(f@[13].1, j.schedule)
    &&& f@[14].0@ == "execution"@ && represents_execution(f@[14].1, j.execution)
}

fn val_str(s: &String) -> (r: Value)
    ensures
        is_str(r, s@),
{
    Value::Str(s.clone())
}

fn val_opt_int(o: &Option<i64>) -> (r: Value)
    ensures
        is_opt_int(r, *o),
{
    match o {
        Option::Some(x) => Value::Int(*x),
        Option::None => Value::Null,
    }
}

fn val_opt_str(o: &Option<String>) -> (r: Value)
    ensures
        is_opt_str(r, *o),
{
    match o {
        Option::Some(s) => Value::Str(s.clone()),
        Option::None => Value::Null,
    }
}

fn val_opt_bool(o: &Option<bool>) -> (r: Value)
    ensures
        is_opt_bool(r, *o),
{
    match o {
        Option::Some(b) => Value::Bool(*b),
        Option::None => Value::Null,
    }
}

fn val_str_arr(xs: &Vec<String>) -> (r: Value)
    ensures
        is_str_arr(r, xs@),
{
    let mut es: Vec<Value> = Vec::new();
    let mut i: usize = 0;
    while i < xs.len()
        invariant
            0 <= i <= xs@.len(),
            es@.len() == i,
            forall|t: int| 0 <= t < i ==> is_str(#[trigger] es@[t], xs@[t]@),
        decreases xs@.len() - i,
    {
        es.push(Value::Str(xs[i].clone()));
        i += 1;
    }
    Value::Array(es)
}

fn val_int_arr(xs: &Vec<i64>) -> (r: Value)
    ensures
        is_int_arr(r, xs@),
{
    let mut es: Vec<Value> = Vec::new();
    let mut i: usize = 0;
    while i < xs.len()
        invariant
            0 <= i <= xs@.len(),
            es@.len() == i,
            forall|t: int| 0 <= t < i ==> #[trigger] es@[t] == Value::Int(xs@[t]),
        decreases xs@.len() - i,
    {
        es.push(Value::Int(xs[i]));
        i += 1;
    }
    Value::Array(es)
}

impl Triggers {
    pub fn to_value(&self) -> (r: Value)
        ensures
            represents_triggers(r, *self),
    {
        let mut f: Vec<(String, Value)> = Vec::new();
        f.push((String::from_str("github_webhook"), Value::Bool(self.github_webhook)));
        f.push((String::from_str("git_provider_webhook"), Value::Bool(self.git_provider_webhook)));
        f.push((String::from_str("schedule"), Value::Bool(self.schedule)));
        f.push((String::from_str("custom_branch_only"), val_opt_bool(&self.custom_branch_only)));
        Value::Object(f)
    }
}

impl Settings {
    pub fn to_value(&self) -> (r: Value)
        ensures
            represents_settings(r, *self),
    {
        let mut f: Vec<(String, Value)> = Vec::new();
        f.push((String::from_str("threads"), Value::Int(self.threads)));
        f.push((String::from_str("target_name"), val_str(&self.target_name)));
        Value::Object(f)
    }
}

impl Date {
    pub fn to_value(&self) -> (r: Value)
        ensures
            represents_date(r, *self),
    {
        let mut f: Vec<(String, Value)> = Vec::new();
        f.push((String::from_str("type"), val_str(&self.type_field)));
        match &self.days {
            Option::Some(ds) => {
                f.push((String::from_str("days"), val_int_arr(ds)));
            },
            Option::None => {},
        }
        match &self.cron {
            Option::Some(c) => {
                f.push((String::from_str("cron"), val_str(c)));
            },
            Option::None => {},
        }
        Value::Object(f)
    }
}

impl Time {
    pub fn to_value(&self) -> (r: Value)
        ensures
            represents_time(r, *self),
    {
        let mut f: Vec<(String, Value)> = Vec::new();
        f.push((String::from_str("type"), val_str(&self.type_field)));
        f.push((String::from_str("interval"), val_opt_int(&self.interval)));
        match &self.hours {
            Option::Some(hs) => {
                f.push((String::from_str("hours"), val_int_arr(hs)));
            },
            Option::None => {},
        }
        Value::Object(f)
    }
}

impl Schedule {
    /// The redundant schedule encoding of one cron expression: the flat cron
    /// string, a date descriptor carrying the same cron, and the fixed
    /// every-hour time descriptor. These constants are the remote side's wire
    /// contract and are reproduced exactly.
    pub fn cron(schedule: &str) -> (r: Schedule)
        ensures
            r.cron@ == schedule@,
            r.date.type_field@ == "custom_cron"@,
            r.date.days is None,
            r.date.cron matches Option::Some(c) && c@ == schedule@,
            r.time.type_field@ == "every_hour"@,
            r.time.interval == Option::Some(1i64),
            r.time.hours is None,
    {
        Schedule {
            cron: schedule.to_owned(),
            date: Date {
                type_field: String::from_str("custom_cron"),
                days: Option::None,
                cron: Option::Some(schedule.to_owned()),
            },
            time: Time {
                type_field: String::from_str("every_hour"),
                interval: Option::Some(1),
                hours: Option::None,
            },
        }
    }

    pub fn to_value(&self) -> (r: Value)
        ensures
            represents_schedule(r, *self),
    {
        let mut f: Vec<(String, Value)> = Vec::new();
        f.push((String::from_str("cron"), val_str(&self.cron)));
        f.push((String::from_str("date"), self.date.to_value()));
        f.push((String::from_str("time"), self.time.to_value()));
        Value::Object(f)
    }
}

impl Execution {
    pub fn to_value(&self) -> (r: Value)
        ensures
            represents_execution(r, *self),
    {
        let mut f: Vec<(String, Value)> = Vec::new();
        f.push((String::from_str("timeout_seconds"), Value::Int(self.timeout_seconds)));
        Value::Object(f)
    }
}

impl Job {
    /// The deterministic tree form of the record, compared by the diff engine.
    pub fn to_value(&self) -> (r: Value)
        ensures
            represents_job(r, *self),
    {
        let mut f: Vec<(String, Value)> = Vec::new();
        f.push((String::from_str("id"), val_opt_int(&self.id)));
        f.push((String::from_str("account_id"), Value::Int(self.account_id)));
        f.push((String::from_str("project_id"), Value::Int(self.project_id)));
        f.push((String::from_str("environment_id"), Value::Int(self.environment_id)));
        f.push((String::from_str("name"), val_str(&self.name)));
        f.push((String::from_str("dbt_version"), val_opt_str(&self.dbt_version)));
        f.push((String::from_str("triggers"), self.triggers.to_value()));
        f.push((String::from_str("execute_steps"), val_str_arr(&self.execute_steps)));
        f.push((String::from_str("settings"), self.settings.to_value()));
        f.push((String::from_str("state"), Value::Int(self.state)));
        f.push((String::from_str("generate_docs"), Value::Bool(self.generate_docs)));
        f.push(
            (
                String::from_str("deferring_job_definition_id"),
                val_opt_int(&self.deferring_job_definition_id),
            ),
        );
        f.push(
            (
                String::from_str("deferring_environment_id"),
                val_opt_int(&self.deferring_environment_id),
            ),
        );
        f.push((String::from_str("schedule"), self.schedule.to_value()));
        f.push((String::from_str("execution"), self.execution.to_value()));
        Value::Object(f)
    }
}

// --- well-formedness of the record's tree ---

proof fn lemma_opt_int_wf(v: Value, o: Option<i64>)
    requires
        is_opt_int(v, o),
    ensures
        wf(v),
{
    match o {
        Option::Some(_x) => {
            assert(wf(v));
        },
        Option::None => {
            assert(wf(v));
        },
    }
}

proof fn lemma_opt_str_wf(v: Value, o: Option<String>)
    requires
        is_opt_str(v, o),
    ensures
        wf(v),
{
    match o {
        Option::Some(_s) => {
            assert(wf(v));
        },
        Option::None => {
            assert(wf(v));
        },
    }
}

proof fn lemma_opt_bool_wf(v: Value, o: Option<bool>)
    requires
        is_opt_bool(v, o),
    ensures
        wf(v),
{
    match o {
        Option::Some(_b) => {
            assert(wf(v));
        },
        Option::None => {
            assert(wf(v));
        },
    }
}

proof fn lemma_str_arr_wf(v: Value, xs: Seq<String>)
    requires
        is_str_arr(v, xs),
    ensures
        wf(v),
{
    if let Value::Array(es) = v {
        assert forall|i: int| 0 <= i < es@.len() implies wf(#[trigger] es@[i]) by {
            assert(is_str(es@[i], xs[i]@));
        }
        assert(wf_arr(es));
    }
}

proof fn lemma_int_arr_wf(v: Value, xs: Seq<i64>)
    requires
        is_int_arr(v, xs),
    ensures
        wf(v),
{
    if let Value::Array(es) = v {
        assert forall|i: int| 0 <= i < es@.len() implies wf(#[trigger] es@[i]) by {
            assert(es@[i] == Value::Int(xs[i]));
        }
        assert(wf_arr(es));
    }
}

proof fn lemma_represents_triggers_wf(v: Value, t: Triggers)
    requires
        represents_triggers(v, t),
    ensures
        wf(v),
{
    reveal_strlit("github_webhook");
    reveal_strlit("git_provider_webhook");
    reveal_strlit("schedule");
    reveal_strlit("custom_branch_only");
    assert("github_webhook"@.len() == 14);
    assert("git_provider_webhook"@.len() == 20);
    assert("schedule"@.len() == 8);
    assert("custom_branch_only"@.len() == 18);
    if let Value::Object(f) = v {
        lemma_opt_bool_wf(f@[3].1, t.custom_branch_only);
        assert forall|i: int| 0 <= i < f@.len() implies wf(#[trigger] f@[i].1) by {
            if i < 3 {
                assert(f@[i].1 is Bool);
            }
        }
        assert forall|a: int, b: int| 0 <= a < b < f@.len() implies f@[a].0@
            != f@[b].0@ by {
            assert(f@[0].0@ != f@[1].0@);
            assert(f@[0].0@ != f@[2].0@);
            assert(f@[0].0@ != f@[3].0@);
            assert(f@[1].0@ != f@[2].0@);
            assert(f@[1].0@ != f@[3].0@);
            assert(f@[2].0@ != f@[3].0@);
        }
        assert(wf_obj(f));
    }
}

proof fn lemma_represents_settings_wf(v: Value, s: Settings)
    requires
        represents_settings(v, s),
    ensures
        wf(v),
{
    reveal_strlit("threads");
    reveal_strlit("target_name");
    assert("threads"@.len() == 7);
    assert("target_name"@.len() == 11);
    if let Value::Object(f) = v {
        assert forall|i: int| 0 <= i < f@.len() implies wf(#[trigger] f@[i].1) by {}
        assert forall|a: int, b: int| 0 <= a < b < f@.len() implies f@[a].0@
            != f@[b].0@ by {
            assert(f@[0].0@ != f@[1].0@);
        }
        assert(wf_obj(f));
    }
}

proof fn lemma_represents_date_wf(v: Value, d: Date)
    requires
        represents_date(v, d),
    ensures
        wf(v),
{
    reveal_strlit("type");
    reveal_strlit("days");
    reveal_strlit("cron");
    assert("type"@.len() == 4);
    assert("days"@.len() == 4);
    assert("cron"@.len() == 4);
    assert("type"@[0] == 't');
    assert("days"@[0] == 'd');
    assert("cron"@[0] == 'c');
    if let Value::Object(f) = v {
        assert forall|i: int| 0 <= i < f@.len() implies wf(#[trigger] f@[i].1) by {
            if i == 0 {
                assert(f@[0].1 is Str);
            } else {
                match (d.days, d.cron) {
                    (Option::Some(ds), Option::Some(c)) => {
                        if i == 1 {
                            lemma_int_arr_wf(f@[1].1, ds@);
                        } else {
                            assert(f@[2].1 is Str);
                        }
                    },
                    (Option::Some(ds), Option::None) => {
                        lemma_int_arr_wf(f@[1].1, ds@);
                    },
                    (Option::None, Option::Some(c)) => {
                        assert(f@[1].1 is Str);
                    },
                    (Option::None, Option::None) => {},
                }
            }
        }
        match (d.days, d.cron) {
            (Option::Some(_ds), Option::Some(_c)) => {
                assert forall|a: int, b: int| 0 <= a < b < f@.len() implies f@[a].0@
            != f@[b].0@ by {
                    assert(f@[0].0@ != f@[1].0@);
                    assert(f@[0].0@ != f@[2].0@);
                    assert(f@[1].0@ != f@[2].0@);
                }
            },
            (Option::Some(_ds), Option::None) => {
                assert forall|a: int, b: int| 0 <= a < b < f@.len() implies f@[a].0@
            != f@[b].0@ by {
                    assert(f@[0].0@ != f@[1].0@);
                }
            },
            (Option::None, Option::Some(_c)) => {
                assert forall|a: int, b: int| 0 <= a < b < f@.len() implies f@[a].0@
            != f@[b].0@ by {
                    assert(f@[0].0@ != f@[1].0@);
                }
            },
            (Option::None, Option::None) => {
                assert(f@.len() == 1);
            },
        }
        assert(wf_obj(f));
    }
}

proof fn lemma_represents_time_wf(v: Value, t: Time)
    requires
        represents_time(v, t),
    ensures
        wf(v),
{
    reveal_strlit("type");
    reveal_strlit("interval");
    reveal_strlit("hours");
    assert("type"@.len() == 4);
    assert("interval"@.len() == 8);
    assert("hours"@.len() == 5);
    if let Value::Object(f) = v {
        lemma_opt_int_wf(f@[1].1, t.interval);
        assert forall|i: int| 0 <= i < f@.len() implies wf(#[trigger] f@[i].1) by {
            if i == 0 {
                assert(f@[0].1 is Str);
            } else if i == 2 {
                match t.hours {
                    Option::Some(hs) => {
                        lemma_int_arr_wf(f@[2].1, hs@);
                    },
                    Option::None => {},
                }
            }
        }
        match t.hours {
            Option::Some(_hs) => {
                assert forall|a: int, b: int| 0 <= a < b < f@.len() implies f@[a].0@
            != f@[b].0@ by {
                    assert(f@[0].0@ != f@[1].0@);
                    assert(f@[0].0@ != f@[2].0@);
                    assert(f@[1].0@ != f@[2].0@);
                }
            },
            Option::None => {
                assert forall|a: int, b: int| 0 <= a < b < f@.len() implies f@[a].0@
            != f@[b].0@ by {
                    assert(f@[0].0@ != f@[1].0@);
                }
            },
        }
        assert(wf_obj(f));
    }
}

proof fn lemma_represents_schedule_wf(v: Value, s: Schedule)
    requires
        represents_schedule(v, s),
    ensures
        wf(v),
{
    reveal_strlit("cron");
    reveal_strlit("date");
    reveal_strlit("time");
    assert("cron"@.len() == 4);
    assert("date"@.len() == 4);
    assert("time"@.len() == 4);
    assert("cron"@[0] == 'c');
    assert("date"@[0] == 'd');
    assert("time"@[0] == 't');
    if let Value::Object(f) = v {
        lemma_represents_date_wf(f@[1].1, s.date);
        lemma_represents_time_wf(f@[2].1, s.time);
        assert forall|i: int| 0 <= i < f@.len() implies wf(#[trigger] f@[i].1) by {
            if i == 0 {
                assert(f@[0].1 is Str);
            }
        }
        assert forall|a: int, b: int| 0 <= a < b < f@.len() implies f@[a].0@
            != f@[b].0@ by {
            assert(f@[0].0@ != f@[1].0@);
            assert(f@[0].0@ != f@[2].0@);
            assert(f@[1].0@ != f@[2].0@);
        }
        assert(wf_obj(f));
    }
}

proof fn lemma_represents_execution_wf(v: Value, e: Execution)
    requires
        represents_execution(v, e),
    ensures
        wf(v),
{
    reveal_strlit("timeout_seconds");
    if let Value::Object(f) = v {
        assert forall|i: int| 0 <= i < f@.len() implies wf(#[trigger] f@[i].1) by {}
        assert(f@.len() == 1);
        assert(wf_obj(f));
    }
}

/// The tree of a canonical record is well formed: no object in it repeats
/// a key.
pub proof fn lemma_represents_job_wf(v: Value, j: Job)
    requires
        represents_job(v, j),
    ensures
        wf(v),
{
    reveal_strlit("id");
    reveal_strlit("account_id");
    reveal_strlit("project_id");
    reveal_strlit("environment_id");
    reveal_strlit("name");
    reveal_strlit("dbt_version");
    reveal_strlit("triggers");
    reveal_strlit("execute_steps");
    reveal_strlit("settings");
    reveal_strlit("state");
    reveal_strlit("generate_docs");
    reveal_strlit("deferring_job_definition_id");
    reveal_strlit("deferring_environment_id");
    reveal_strlit("schedule");
    reveal_strlit("execution");
    assert("id"@.len() == 2);
    assert("account_id"@.len() == 10);
    assert("project_id"@.len() == 10);
    assert("environment_id"@.len() == 14);
    assert("name"@.len() == 4);
    assert("dbt_version"@.len() == 11);
    assert("triggers"@.len() == 8);
    assert("execute_steps"@.len() == 13);
    assert("settings"@.len() == 8);
    assert("state"@.len() == 5);
    assert("generate_docs"@.len() == 13);
    assert("deferring_job_definition_id"@.len() == 27);
    assert("deferring_environment_id"@.len() == 24);
    assert("schedule"@.len() == 8);
    assert("execution"@.len() == 9);
    assert("account_id"@[0] == 'a');
    assert("project_id"@[0] == 'p');
    assert("triggers"@[0] == 't');
    assert("settings"@[0] == 's');
    assert("schedule"@[0] == 's');
    assert("settings"@[1] == 'e');
    assert("schedule"@[1] == 'c');
    assert("execute_steps"@[0] == 'e');
    assert("generate_docs"@[0] == 'g');
    if let Value::Object(f) = v {
        lemma_opt_int_wf(f@[0].1, j.id);
        lemma_opt_str_wf(f@[5].1, j.dbt_version);
        lemma_represents_triggers_wf(f@[6].1, j.triggers);
        lemma_str_arr_wf(f@[7].1, j.execute_steps@);
        lemma_represents_settings_wf(f@[8].1, j.settings);
        lemma_opt_int_wf(f@[11].1, j.deferring_job_definition_id);
        lemma_opt_int_wf(f@[12].1, j.deferring_environment_id);
        lemma_represents_schedule_wf(f@[13].1, j.schedule);
        lemma_represents_execution_wf(f@[14].1, j.execution);
        assert forall|i: int| 0 <= i < f@.len() implies wf(#[trigger] f@[i].1) by {
            if i == 1 || i == 2 || i == 3 || i == 9 {
                assert(f@[i].1 is Int);
            } else if i == 4 {
                assert(f@[4].1 is Str);
            } else if i == 10 {
                assert(f@[10].1 is Bool);
            }
        }
        assert forall|a: int, b: int| 0 <= a < b < f@.len() implies f@[a].0@
            != f@[b].0@ by {
            assert(f@[0].0@ != f@[1].0@);
            assert(f@[0].0@ != f@[2].0@);
            assert(f@[0].0@ != f@[3].0@);
            assert(f@[0].0@ != f@[4].0@);
            assert(f@[0].0@ != f@[5].0@);
            assert(f@[0].0@ != f@[6].0@);
            assert(f@[0].0@ != f@[7].0@);
            assert(f@[0].0@ != f@[8].0@);
            assert(f@[0].0@ != f@[9].0@);
            assert(f@[0].0@ != f@[10].0@);
            assert(f@[0].0@ != f@[11].0@);
            assert(f@[0].0@ != f@[12].0@);
            assert(f@[0].0@ != f@[13].0@);
            assert(f@[0].0@ != f@[14].0@);
            assert(f@[1].0@ != f@[2].0@);
            assert(f@[1].0@ != f@[3].0@);
            assert(f@[1].0@ != f@[4].0@);
            assert(f@[1].0@ != f@[5].0@);
            assert(f@[1].0@ != f@[6].0@);
            assert(f@[1].0@ != f@[7].0@);
            assert(f@[1].0@ != f@[8].0@);
            assert(f@[1].0@ != f@[9].0@);
            assert(f@[1].0@ != f@[10].0@);
            assert(f@[1].0@ != f@[11].0@);
            assert(f@[1].0@ != f@[12].0@);
            assert(f@[1].0@ != f@[13].0@);
            assert(f@[1].0@ != f@[14].0@);
            assert(f@[2].0@ != f@[3].0@);
            assert(f@[2].0@ != f@[4].0@);
            assert(f@[2].0@ != f@[5].0@);
            assert(f@[2].0@ != f@[6].0@);
            assert(f@[2].0@ != f@[7].0@);
            assert(f@[2].0@ != f@[8].0@);
            assert(f@[2].0@ != f@[9].0@);
            assert(f@[2].0@ != f@[10].0@);
            assert(f@[2].0@ != f@[11].0@);
            assert(f@[2].0@ != f@[12].0@);
            assert(f@[2].0@ != f@[13].0@);
            assert(f@[2].0@ != f@[14].0@);
            assert(f@[3].0@ != f@[4].0@);
            assert(f@[3].0@ != f@[5].0@);
            assert(f@[3].0@ != f@[6].0@);
            assert(f@[3].0@ != f@[7].0@);
            assert(f@[3].0@ != f@[8].0@);
            assert(f@[3].0@ != f@[9].0@);
            assert(f@[3].0@ != f@[10].0@);
            assert(f@[3].0@ != f@[11].0@);
            assert(f@[3].0@ != f@[12].0@);
            assert(f@[3].0@ != f@[13].0@);
            assert(f@[3].0@ != f@[14].0@);
            assert(f@[4].0@ != f@[5].0@);
            assert(f@[4].0@ != f@[6].0@);
            assert(f@[4].0@ != f@[7].0@);
            assert(f@[4].0@ != f@[8].0@);
            assert(f@[4].0@ != f@[9].0@);
            assert(f@[4].0@ != f@[10].0@);
            assert(f@[4].0@ != f@[11].0@);
            assert(f@[4].0@ != f@[12].0@);
            assert(f@[4].0@ != f@[13].0@);
            assert(f@[4].0@ != f@[14].0@);
            assert(f@[5].0@ != f@[6].0@);
            assert(f@[5].0@ != f@[7].0@);
            assert(f@[5].0@ != f@[8].0@);
            assert(f@[5].0@ != f@[9].0@);
            assert(f@[5].0@ != f@[10].0@);
            assert(f@[5].0@ != f@[11].0@);
            assert(f@[5].0@ != f@[12].0@);
            assert(f@[5].0@ != f@[13].0@);
            assert(f@[5].0@ != f@[14].0@);
            assert(f@[6].0@ != f@[7].0@);
            assert(f@[6].0@ != f@[8].0@);
            assert(f@[6].0@ != f@[9].0@);
            assert(f@[6].0@ != f@[10].0@);
            assert(f@[6].0@ != f@[11].0@);
            assert(f@[6].0@ != f@[12].0@);
            assert(f@[6].0@ != f@[13].0@);
            assert(f@[6].0@ != f@[14].0@);
            assert(f@[7].0@ != f@[8].0@);
            assert(f@[7].0@ != f@[9].0@);
            assert(f@[7].0@ != f@[10].0@);
            assert(f@[7].0@ != f@[11].0@);
            assert(f@[7].0@ != f@[12].0@);
            assert(f@[7].0@ != f@[13].0@);
            assert(f@[7].0@ != f@[14].0@);
            assert(f@[8].0@ != f@[9].0@);
            assert(f@[8].0@ != f@[10].0@);
            assert(f@[8].0@ != f@[11].0@);
            assert(f@[8].0@ != f@[12].0@);
            assert(f@[8].0@ != f@[13].0@);
            assert(f@[8].0@ != f@[14].0@);
            assert(f@[9].0@ != f@[10].0@);
            assert(f@[9].0@ != f@[11].0@);
            assert(f@[9].0@ != f@[12].0@);
            assert(f@[9].0@ != f@[13].0@);
            assert(f@[9].0@ != f@[14].0@);
            assert(f@[10].0@ != f@[11].0@);
            assert(f@[10].0@ != f@[12].0@);
            assert(f@[10].0@ != f@[13].0@);
            assert(f@[10].0@ != f@[14].0@);
            assert(f@[11].0@ != f@[12].0@);
            assert(f@[11].0@ != f@[13].0@);
            assert(f@[11].0@ != f@[14].0@);
            assert(f@[12].0@ != f@[13].0@);
            assert(f@[12].0@ != f@[14].0@);
            assert(f@[13].0@ != f@[14].0@);
        }
        assert(wf_obj(f));
    }
}


// --- the zero placeholder is covered by every record's tree ---

proof fn lemma_triggers_covers(v1: Value, v2: Value, t1: Triggers, t2: Triggers)
    requires
        represents_triggers(v1, t1),
        represents_triggers(v2, t2),
    ensures
        crate::diff::covers(v1, v2),
{
    lemma_represents_triggers_wf(v2, t2);
    if let Value::Object(bf) = v1 {
        if let Value::Object(af) = v2 {
            assert(wf_obj(af));
            assert forall|i: int| 0 <= i < bf@.len() implies (crate::value::obj_get(
                af@,
                (#[trigger] bf@[i]).0@,
            ) matches Option::Some(av) && crate::diff::covers(bf@[i].1, av)) by {
                assert(af@[i].0@ == bf@[i].0@);
                crate::value::lemma_obj_get_at(af@, bf@[i].0@, i);
                if i < 3 {
                    assert(bf@[i].1 is Bool);
                    assert(crate::diff::covers(bf@[i].1, af@[i].1));
                } else {
                    match t1.custom_branch_only {
                        Option::Some(_x) => {
                            assert(crate::diff::covers(bf@[3].1, af@[3].1));
                        },
                        Option::None => {
                            assert(crate::diff::covers(bf@[3].1, af@[3].1));
                        },
                    }
                }
            }
        }
    }
}

proof fn lemma_settings_covers(v1: Value, v2: Value, s1: Settings, s2: Settings)
    requires
        represents_settings(v1, s1),
        represents_settings(v2, s2),
    ensures
        crate::diff::covers(v1, v2),
{
    lemma_represents_settings_wf(v2, s2);
    if let Value::Object(bf) = v1 {
        if let Value::Object(af) = v2 {
            assert(wf_obj(af));
            assert forall|i: int| 0 <= i < bf@.len() implies (crate::value::obj_get(
                af@,
                (#[trigger] bf@[i]).0@,
            ) matches Option::Some(av) && crate::diff::covers(bf@[i].1, av)) by {
                assert(af@[i].0@ == bf@[i].0@);
                crate::value::lemma_obj_get_at(af@, bf@[i].0@, i);
                if i == 0 {
                    assert(crate::diff::covers(bf@[0].1, af@[0].1));
                } else {
                    assert(bf@[1].1 is Str);
                    assert(crate::diff::covers(bf@[1].1, af@[1].1));
                }
            }
        }
    }
}

proof fn lemma_execution_covers(v1: Value, v2: Value, e1: Execution, e2: Execution)
    requires
        represents_execution(v1, e1),
        represents_execution(v2, e2),
    ensures
        crate::diff::covers(v1, v2),
{
    if let Value::Object(bf) = v1 {
        if let Value::Object(af) = v2 {
            assert forall|i: int| 0 <= i < bf@.len() implies (crate::value::obj_get(
                af@,
                (#[trigger] bf@[i]).0@,
            ) matches Option::Some(av) && crate::diff::covers(bf@[i].1, av)) by {
                assert(af@[0].0@ == bf@[0].0@);
                crate::value::lemma_obj_get_at(af@, bf@[0].0@, 0);
                assert(crate::diff::covers(bf@[0].1, af@[0].1));
            }
        }
    }
}

proof fn lemma_bare_date_covers(v1: Value, v2: Value, d1: Date, d2: Date)
    requires
        d1.days is None,
        d1.cron is None,
        represents_date(v1, d1),
        represents_date(v2, d2),
    ensures
        crate::diff::covers(v1, v2),
{
    if let Value::Object(bf) = v1 {
        if let Value::Object(af) = v2 {
            assert(bf@.len() == 1);
            assert forall|i: int| 0 <= i < bf@.len() implies (crate::value::obj_get(
                af@,
                (#[trigger] bf@[i]).0@,
            ) matches Option::Some(av) && crate::diff::covers(bf@[i].1, av)) by {
                assert(af@[0].0@ == bf@[0].0@);
                crate::value::lemma_obj_get_at(af@, bf@[0].0@, 0);
                assert(bf@[0].1 is Str);
                assert(crate::diff::covers(bf@[0].1, af@[0].1));
            }
        }
    }
}

proof fn lemma_bare_time_covers(v1: Value, v2: Value, t1: Time, t2: Time)
    requires
        t1.hours is None,
        represents_time(v1, t1),
        represents_time(v2, t2),
    ensures
        crate::diff::covers(v1, v2),
{
    lemma_represents_time_wf(v2, t2);
    if let Value::Object(bf) = v1 {
        if let Value::Object(af) = v2 {
            assert(bf@.len() == 2);
            assert(wf_obj(af));
            assert forall|i: int| 0 <= i < bf@.len() implies (crate::value::obj_get(
                af@,
                (#[trigger] bf@[i]).0@,
            ) matches Option::Some(av) && crate::diff::covers(bf@[i].1, av)) by {
                assert(af@[i].0@ == bf@[i].0@);
                crate::value::lemma_obj_get_at(af@, bf@[i].0@, i);
                if i == 0 {
                    assert(bf@[0].1 is Str);
                    assert(crate::diff::covers(bf@[0].1, af@[0].1));
                } else {
                    match t1.interval {
                        Option::Some(_x) => {
                            assert(crate::diff::covers(bf@[1].1, af@[1].1));
                        },
                        Option::None => {
                            assert(crate::diff::covers(bf@[1].1, af@[1].1));
                        },
                    }
                }
            }
        }
    }
}

proof fn lemma_bare_schedule_covers(v1: Value, v2: Value, s1: Schedule, s2: Schedule)
    requires
        s1.date.days is None,
        s1.date.cron is None,
        s1.time.hours is None,
        represents_schedule(v1, s1),
        represents_schedule(v2, s2),
    ensures
        crate::diff::covers(v1, v2),
{
    lemma_represents_schedule_wf(v2, s2);
    if let Value::Object(bf) = v1 {
        if let Value::Object(af) = v2 {
            assert(wf_obj(af));
            lemma_bare_date_covers(bf@[1].1, af@[1].1, s1.date, s2.date);
            lemma_bare_time_covers(bf@[2].1, af@[2].1, s1.time, s2.time);
            assert forall|i: int| 0 <= i < bf@.len() implies (crate::value::obj_get(
                af@,
                (#[trigger] bf@[i]).0@,
            ) matches Option::Some(av) && crate::diff::covers(bf@[i].1, av)) by {
                assert(af@[i].0@ == bf@[i].0@);
                crate::value::lemma_obj_get_at(af@, bf@[i].0@, i);
                if i == 0 {
                    assert(bf@[0].1 is Str);
                    assert(crate::diff::covers(bf@[0].1, af@[0].1));
                }
            }
        }
    }
}

/// The tree of the zero-value placeholder holds no position that the tree
/// of a record lacks: its optional fields are null, its step list is empty,
/// and its schedule carries no optional part.
pub proof fn lemma_zero_covers_job(vb: Value, va: Value, z: Job, j: Job)
    requires
        zero_job(z),
        represents_job(vb, z),
        represents_job(va, j),
    ensures
        crate::diff::covers(vb, va),
{
    lemma_represents_job_wf(va, j);
    if let Value::Object(bf) = vb {
        if let Value::Object(af) = va {
            assert(wf_obj(af));
            lemma_triggers_covers(bf@[6].1, af@[6].1, z.triggers, j.triggers);
            lemma_settings_covers(bf@[8].1, af@[8].1, z.settings, j.settings);
            lemma_bare_schedule_covers(bf@[13].1, af@[13].1, z.schedule, j.schedule);
            lemma_execution_covers(bf@[14].1, af@[14].1, z.execution, j.execution);
            assert forall|i: int| 0 <= i < bf@.len() implies (crate::value::obj_get(
                af@,
                (#[trigger] bf@[i]).0@,
            ) matches Option::Some(av) && crate::diff::covers(bf@[i].1, av)) by {
                assert(af@[i].0@ == bf@[i].0@);
                crate::value::lemma_obj_get_at(af@, bf@[i].0@, i);
                if i == 0 || i == 5 || i == 11 || i == 12 {
                    assert(bf@[i].1 is Null);
                    assert(crate::diff::covers(bf@[i].1, af@[i].1));
                } else if i == 1 || i == 2 || i == 3 || i == 9 {
                    assert(bf@[i].1 is Int);
                    assert(crate::diff::covers(bf@[i].1, af@[i].1));
                } else if i == 4 {
                    assert(bf@[4].1 is Str);
                    assert(crate::diff::covers(bf@[4].1, af@[4].1));
                } else if i == 10 {
                    assert(bf@[10].1 is Bool);
                    assert(crate::diff::covers(bf@[10].1, af@[10].1));
                } else if i == 7 {
                    if let Value::Array(bx) = bf@[7].1 {
                        assert(bx@.len() == 0);
                        assert(af@[7].1 is Array);
                        assert(crate::diff::covers(bf@[7].1, af@[7].1));
                    }
                }
            }
        }
    }
}

/// Law: a create-style diff of a record against the zero-value placeholder
/// yields only additions and unchanged entries: never a modification, never
/// a removal.
pub proof fn lemma_job_create_diff_only_additions(vb: Value, va: Value, z: Job, j: Job)
    requires
        zero_job(z),
        represents_job(vb, z),
        represents_job(va, j),
    ensures
        forall|i: int|
            0 <= i < crate::diff::as_create(crate::diff::diff_spec(vb, va)).len() ==> (
            #[trigger] crate::diff::as_create(crate::diff::diff_spec(vb, va))[i] is Added
                || crate::diff::as_create(crate::diff::diff_spec(vb, va))[i] is Unchanged),
{
    lemma_zero_covers_job(vb, va, z, j);
    crate::diff::lemma_create_diff_only_additions(vb, va);
}

/// Law: the diff of a record that carries its identifier against the
/// zero-value placeholder always reports a change: its identifier position
/// alone is already modified, so a delete plan is never empty.
pub proof fn lemma_delete_diff_has_changes(vb: Value, va: Value, r: Job, z: Job)
    requires
        represents_job(vb, r),
        zero_job(z),
        represents_job(va, z),
        r.id is Some,
    ensures
        crate::diff::spec_has_changes(crate::diff::diff_spec(vb, va)),
{
    if let Value::Object(bf) = vb {
        if let Value::Object(zf) = va {
            assert(zf@[0].0@ == bf@[0].0@);
            crate::value::lemma_obj_get_at(zf@, bf@[0].0@, 0);
            let p = crate::diff::child(Seq::empty(), bf@[0].0@);
            assert(bf@[0].1 is Int);
            assert(zf@[0].1 is Null);
            assert(crate::diff::diff_value(p, bf@[0].1, zf@[0].1) == seq![
                crate::diff::ChangeS::Modified(
                    p,
                    crate::value::render(bf@[0].1),
                    crate::value::render(zf@[0].1),
                ),
            ]);
            assert(crate::diff::diff_obj_base(Seq::empty(), bf, zf, 0) == crate::diff::diff_value(
                p,
                bf@[0].1,
                zf@[0].1,
            ) + crate::diff::diff_obj_base(Seq::empty(), bf, zf, 1));
            assert(crate::diff::diff_spec(vb, va)[0] is Modified);
            assert(!(crate::diff::diff_spec(vb, va)[0] is Unchanged));
        }
    }
}

/// Law: a canonical record diffed against itself reports no change.
pub proof fn lemma_job_diff_self_no_changes(v: Value, j: Job)
    requires
        represents_job(v, j),
    ensures
        !crate::diff::spec_has_changes(crate::diff::diff_spec(v, v)),
{
    lemma_represents_job_wf(v, j);
    crate::diff::lemma_diff_self_no_changes(v);
}

// --- content equality: the same record, character for character ---

pub open spec fn opt_str_like(a: Option<String>, b: Option<String>) -> bool {
    match (a, b) {
        (Option::Some(x), Option::Some(y)) => x@ == y@,
        (Option::None, Option::None) => true,
        _ => false,
    }
}

pub open spec fn strs_like(a: Seq<String>, b: Seq<String>) -> bool {
    a.len() == b.len() && (forall|i: int| 0 <= i < a.len() ==> #[trigger] a[i]@ == b[i]@)
}

pub open spec fn opt_int_arr_like(a: Option<Vec<i64>>, b: Option<Vec<i64>>) -> bool {
    match (a, b) {
        (Option::Some(x), Option::Some(y)) => x@ == y@,
        (Option::None, Option::None) => true,
        _ => false,
    }
}

pub open spec fn date_like(a: Date, b: Date) -> bool {
    a.type_field@ == b.type_field@ && opt_int_arr_like(a.days, b.days) && opt_str_like(
        a.cron,
        b.cron,
    )
}

pub open spec fn time_like(a: Time, b: Time) -> bool {
    a.type_field@ == b.type_field@ && a.interval == b.interval && opt_int_arr_like(
        a.hours,
        b.hours,
    )
}

pub open spec fn schedule_like(a: Schedule, b: Schedule) -> bool {
    a.cron@ == b.cron@ && date_like(a.date, b.date) && time_like(a.time, b.time)
}

pub open spec fn settings_like(a: Settings, b: Settings) -> bool {
    a.threads == b.threads && a.target_name@ == b.target_name@
}

/// Two canonical records with the same content in every field.
pub open spec fn job_like(a: Job, b: Job) -> bool {
    &&& a.id == b.id
    &&& a.account_id == b.account_id
    &&& a.project_id == b.project_id
    &&& a.environment_id == b.environment_id
    &&& a.name@ == b.name@
    &&& opt_str_like(a.dbt_version, b.dbt_version)
    &&& a.triggers == b.triggers
    &&& strs_like(a.execute_steps@, b.execute_steps@)
    &&& settings_like(a.settings, b.settings)
    &&& a.state == b.state
    &&& a.generate_docs == b.generate_docs
    &&& a.deferring_job_definition_id == b.deferring_job_definition_id
    &&& a.deferring_environment_id == b.deferring_environment_id
    &&& schedule_like(a.schedule, b.schedule)
    &&& a.execution == b.execution
}

fn dup_opt_str(o: &Option<String>) -> (r: Option<String>)
    ensures
        opt_str_like(r, *o),
{
    match o {
        Option::Some(s) => Option::Some(s.clone()),
        Option::None => Option::None,
    }
}

fn dup_opt_ints(o: &Option<Vec<i64>>) -> (r: Option<Vec<i64>>)
    ensures
        opt_int_arr_like(r, *o),
{
    match o {
        Option::Some(v) => {
            let c = v.clone();
            proof {
                assert(c@ =~= v@);
            }
            Option::Some(c)
        },
        Option::None => Option::None,
    }
}

fn dup_strs(v: &Vec<String>) -> (r: Vec<String>)
    ensures
        strs_like(r@, v@),
{
    let mut out: Vec<String> = Vec::new();
    let mut i: usize = 0;
    while i < v.len()
        invariant
            0 <= i <= v@.len(),
            out@.len() == i,
            forall|t: int| 0 <= t < i ==> #[trigger] out@[t]@ == v@[t]@,
        decreases v@.len() - i,
    {
        out.push(v[i].clone());
        i += 1;
    }
    out
}

impl Job {
    /// A copy of the record, equal in content to the original.
    pub fn duplicate(&self) -> (r: Job)
        ensures
            job_like(r, *self),
    {
        Job {
            id: self.id,
            account_id: self.account_id,
            project_id: self.project_id,
            environment_id: self.environment_id,
            name: self.name.clone(),
            dbt_version: dup_opt_str(&self.dbt_version),
            triggers: self.triggers,
            execute_steps: dup_strs(&self.execute_steps),
            settings: Settings {
                threads: self.settings.threads,
                target_name: self.settings.target_name.clone(),
            },
            state: self.state,
            generate_docs: self.generate_docs,
            deferring_job_definition_id: self.deferring_job_definition_id,
            deferring_environment_id: self.deferring_environment_id,
            schedule: self.schedule.duplicate(),
            execution: self.execution,
        }
    }
}

impl Schedule {
    /// A copy of the encoding, equal in content to the original.
    pub fn duplicate(&self) -> (r: Schedule)
        ensures
            schedule_like(r, *self),
    {
        Schedule {
            cron: self.cron.clone(),
            date: Date {
                type_field: self.date.type_field.clone(),
                days: dup_opt_ints(&self.date.days),
                cron: dup_opt_str(&self.date.cron),
            },
            time: Time {
                type_field: self.time.type_field.clone(),
                interval: self.time.interval,
                hours: dup_opt_ints(&self.time.hours),
            },
        }
    }
}

// --- zero values: the placeholder a create or delete diff compares against ---

pub open spec fn zero_triggers(t: Triggers) -> bool {
    t.github_webhook == false && t.git_provider_webhook == false && t.schedule == false
        && t.custom_branch_only is None
}

pub open spec fn zero_settings(s: Settings) -> bool {
    s.threads == 4 && s.target_name@ == "production"@
}

pub open spec fn zero_schedule(s: Schedule) -> bool {
    s.cron@.len() == 0 && s.date.type_field@.len() == 0 && s.date.days is None && s.date.cron
        is None && s.time.type_field@.len() == 0 && s.time.interval is None && s.time.hours is None
}

pub open spec fn zero_job(j: Job) -> bool {
    &&& j.id is None
    &&& j.account_id == 0
    &&& j.project_id == 0
    &&& j.environment_id == 0
    &&& j.name@.len() == 0
    &&& j.dbt_version is None
    &&& zero_triggers(j.triggers)
    &&& j.execute_steps@.len() == 0
    &&& zero_settings(j.settings)
    &&& j.state == 0
    &&& j.generate_docs == false
    &&& j.deferring_job_definition_id is None
    &&& j.deferring_environment_id is None
    &&& zero_schedule(j.schedule)
    &&& j.execution.timeout_seconds == 0
}

impl Default for Job {
    /// The zero-value record; the execution settings default to four threads
    /// against the "production" target, as the remote side does.
    fn default() -> (r: Job)
        ensures
            zero_job(r),
    {
        Job {
            id: Option::None,
            account_id: 0,
            project_id: 0,
            environment_id: 0,
            name: String::new(),
            dbt_version: Option::None,
            triggers: Triggers {
                github_webhook: false,
                git_provider_webhook: false,
                schedule: false,
                custom_branch_only: Option::None,
            },
            execute_steps: Vec::new(),
            settings: Settings { threads: 4, target_name: String::from_str("production") },
            state: 0,
            generate_docs: false,
            deferring_job_definition_id: Option::None,
            deferring_environment_id: Option::None,
            schedule: Schedule {
                cron: String::new(),
                date: Date { type_field: String::new(), days: Option::None, cron: Option::None },
                time: Time { type_field: String::new(), interval: Option::None, hours: Option::None },
            },
            execution: Execution { timeout_seconds: 0 },
        }
    }
}

/// Membership in one project, as the filter predicate.
pub open spec fn in_project(project_id: i64) -> spec_fn(Job) -> bool {
    |j: Job| j.project_id == project_id
}

/// The remote records that belong to one project, in their given order.
pub fn filter_jobs_for_project(jobs: Vec<Job>, project_id: i64) -> (r: Vec<Job>)
    ensures
        r@ == jobs@.filter(in_project(project_id)),
{
    let ghost orig = jobs@;
    let n: usize = jobs.len();
    proof {
        assert(orig.len() == n as nat);
    }
    let mut input = jobs;
    let mut out: Vec<Job> = Vec::new();
    let mut i: usize = 0;
    proof {
        reveal_with_fuel(Seq::<Job>::filter, 1);
        assert(orig.take(0int) =~= Seq::<Job>::empty());
        assert(orig.take(0int).filter(in_project(project_id)) =~= Seq::<Job>::empty());
        assert(input@ =~= orig.skip(0int));
    }
    while input.len() > 0
        invariant
            orig.len() <= usize::MAX,
            0 <= i <= orig.len(),
            input@ == orig.skip(i as int),
            out@ == orig.take(i as int).filter(in_project(project_id)),
        decreases input@.len(),
    {
        let j = input.remove(0);
        proof {
            assert(orig.skip(i as int)[0] == orig[i as int]);
            assert(j == orig[i as int]);
            assert(orig.skip(i as int).remove(0int) =~= orig.skip(i + 1));
            assert(input@ == orig.skip(i + 1));
            reveal_with_fuel(Seq::<Job>::filter, 1);
            assert(orig.take(i + 1).drop_last() =~= orig.take(i as int));
            assert(orig.take(i + 1).last() == orig[i as int]);
        }
        if j.project_id == project_id {
            out.push(j);
            proof {
                assert(out@ =~= orig.take(i + 1).filter(in_project(project_id)));
            }
        } else {
            proof {
                assert(out@ =~= orig.take(i + 1).filter(in_project(project_id)));
            }
        }
        i += 1;
    }
    proof {
        assert(orig.skip(i as int).len() == 0);
        assert(orig.take(i as int) =~= orig);
    }
    out
}

} // verus!
