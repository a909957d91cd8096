//! Projection of a desired-state job into the canonical remote shape: the
//! deterministic naming algorithm, environment resolution, the schedule
//! encoding, and the merge that protects server-owned fields.
use vstd::prelude::*;
use vstd::string::StringExecFns;

use convert_case::Casing;

use crate::config::Config;
use crate::diff::{as_create, change_view, changes_view, diff_spec, Diff};
use crate::error::Error;
use crate::local;
use crate::local::Environment;
use crate::remote::{
    represents_job, schedule_like, zero_job, Execution, Job, Schedule, Settings, Triggers,
};
use crate::strutil::{push_char, spec_upper_char, str_eq, upper_char};

verus! {

/// An ASCII whitespace character: the separators word splitting honours.
pub open spec fn is_ws(c: char) -> bool {
    c == ' ' || c == '\t' || c == '\n' || c == '\x0C' || c == '\r'
}

/// The length of the run of non-whitespace characters a word starts with.
pub open spec fn word_len(s: Seq<char>) -> nat
    decreases s.len(),
{
    if s.len() == 0 || is_ws(s[0]) {
        0
    } else {
        1 + word_len(s.drop_first())
    }
}

pub proof fn lemma_word_len_le(s: Seq<char>)
    ensures
        word_len(s) <= s.len(),
    decreases s.len(),
{
    if s.len() > 0 && !is_ws(s[0]) {
        lemma_word_len_le(s.drop_first());
    }
}

proof fn lemma_word_len_exact(u: Seq<char>, m: int)
    requires
        0 <= m <= u.len(),
        forall|t: int| 0 <= t < m ==> !is_ws(#[trigger] u[t]),
        m == u.len() || is_ws(u[m]),
    ensures
        word_len(u) == m,
    decreases m,
{
    if m == 0 {
    } else {
        assert(!is_ws(u[0]));
        assert forall|t: int| 0 <= t < m - 1 implies !is_ws(#[trigger] u.drop_first()[t]) by {
            assert(u.drop_first()[t] == u[t + 1]);
        }
        if m - 1 < u.drop_first().len() {
            assert(u.drop_first()[m - 1] == u[m]);
        }
        lemma_word_len_exact(u.drop_first(), m - 1);
    }
}

/// The words of a string: maximal runs of non-whitespace characters.
pub open spec fn split_ws(s: Seq<char>) -> Seq<Seq<char>>
    decreases s.len(),
    via split_ws_decreases
{
    if s.len() == 0 {
        Seq::empty()
    } else if is_ws(s[0]) {
        split_ws(s.drop_first())
    } else {
        seq![s.take(word_len(s) as int)] + split_ws(s.skip(word_len(s) as int))
    }
}

#[via_fn]
proof fn split_ws_decreases(s: Seq<char>) {
    lemma_word_len_le(s);
}

proof fn lemma_split_ws_words_nonempty(s: Seq<char>)
    ensures
        forall|t: int| 0 <= t < split_ws(s).len() ==> #[trigger] split_ws(s)[t].len() >= 1,
    decreases s.len(),
{
    if s.len() == 0 {
    } else if is_ws(s[0]) {
        lemma_split_ws_words_nonempty(s.drop_first());
        assert(split_ws(s) == split_ws(s.drop_first()));
    } else {
        lemma_word_len_le(s);
        lemma_split_ws_words_nonempty(s.skip(word_len(s) as int));
        assert forall|t: int| 0 <= t < split_ws(s).len() implies #[trigger] split_ws(s)[t].len()
            >= 1 by {
            if t == 0 {
                assert(split_ws(s)[0] == s.take(word_len(s) as int));
            } else {
                assert(split_ws(s)[t] == split_ws(s.skip(word_len(s) as int))[t - 1]);
            }
        }
    }
}

/// A word of at most two characters is upper-cased whole; longer words are
/// kept as they are.
pub open spec fn cap_word(w: Seq<char>) -> Seq<char> {
    if w.len() <= 2 {
        w.map_values(|c: char| spec_upper_char(c))
    } else {
        w
    }
}

pub open spec fn cap_words(ws: Seq<Seq<char>>) -> Seq<Seq<char>> {
    ws.map_values(|w: Seq<char>| cap_word(w))
}

/// Words joined back with single spaces.
pub open spec fn join_words(ws: Seq<Seq<char>>) -> Seq<char>
    decreases ws.len(),
{
    if ws.len() == 0 {
        Seq::empty()
    } else if ws.len() == 1 {
        ws[0]
    } else {
        ws[0] + seq![' '] + join_words(ws.drop_first())
    }
}

proof fn lemma_join_words_empty(ws: Seq<Seq<char>>)
    requires
        forall|t: int| 0 <= t < ws.len() ==> #[trigger] ws[t].len() >= 1,
    ensures
        (join_words(ws).len() == 0) == (ws.len() == 0),
    decreases ws.len(),
{
    if ws.len() >= 2 {
        lemma_join_words_empty(ws.drop_first());
    }
}

/// The whole treatment: split into words, upper-case the short ones, join.
pub open spec fn cap_short_words_spec(s: Seq<char>) -> Seq<char> {
    join_words(cap_words(split_ws(s)))
}

fn is_ws_exec(c: char) -> (r: bool)
    ensures
        r == is_ws(c),
{
    c == ' ' || c == '\t' || c == '\n' || c == '\x0C' || c == '\r'
}

fn cap_short_from(s: &str, i: usize) -> (r: String)
    requires
        i <= s@.len(),
    ensures
        r@ == join_words(cap_words(split_ws(s@.skip(i as int)))),
    decreases s@.len() - i,
{
    let n = s.unicode_len();
    if i == n {
        let r = String::new();
        proof {
            assert(s@.skip(i as int) =~= Seq::<char>::empty());
        }
        r
    } else if is_ws_exec(s.get_char(i)) {
        let r = cap_short_from(s, i + 1);
        proof {
            assert(s@.skip(i as int).drop_first() =~= s@.skip(i + 1));
        }
        r
    } else {
        let ghost u = s@.skip(i as int);
        // scan to the end of the word
        let mut j: usize = i + 1;
        while j < n && !is_ws_exec(s.get_char(j))
            invariant
                i < j <= n,
                n == s@.len(),
                forall|t: int| i <= t < j ==> !is_ws(#[trigger] s@[t]),
            decreases n - j,
        {
            j += 1;
        }
        proof {
            assert forall|t: int| 0 <= t < j - i implies !is_ws(#[trigger] u[t]) by {
                assert(u[t] == s@[i + t]);
            }
            if (j - i) < u.len() {
                assert(u[j - i] == s@[j as int]);
            }
            lemma_word_len_exact(u, j - i);
            assert(u.take(j - i) =~= s@.subrange(i as int, j as int));
        }
        // build the word, upper-casing it when it is short
        let mut out = String::new();
        let short = j - i <= 2;
        let mut k: usize = i;
        while k < j
            invariant
                i <= k <= j <= n,
                n == s@.len(),
                short == (j - i <= 2),
                out@.len() == k - i,
                forall|t: int|
                    0 <= t < k - i ==> out@[t] == (if j - i <= 2 {
                        spec_upper_char(s@[i + t])
                    } else {
                        s@[i + t]
                    }),
            decreases j - k,
        {
            let c = s.get_char(k);
            if short {
                push_char(&mut out, upper_char(c));
            } else {
                push_char(&mut out, c);
            }
            k += 1;
        }
        proof {
            assert(out@ =~= cap_word(s@.subrange(i as int, j as int)));
        }
        let rest = cap_short_from(s, j);
        proof {
            assert(split_ws(u) == seq![u.take(word_len(u) as int)] + split_ws(
                u.skip(word_len(u) as int),
            ));
            assert(u.skip(j - i) =~= s@.skip(j as int));
            lemma_split_ws_words_nonempty(s@.skip(j as int));
            lemma_split_ws_words_nonempty(u);
            assert forall|t: int|
                0 <= t < cap_words(split_ws(s@.skip(j as int))).len() implies #[trigger] cap_words(
                split_ws(s@.skip(j as int)),
            )[t].len() >= 1 by {
                assert(split_ws(s@.skip(j as int))[t].len() >= 1);
            }
            lemma_join_words_empty(cap_words(split_ws(s@.skip(j as int))));
        }
        if rest.as_str().unicode_len() == 0 {
            proof {
                assert(split_ws(s@.skip(j as int)) =~= Seq::<Seq<char>>::empty());
                assert(cap_words(split_ws(u)) =~= seq![cap_word(s@.subrange(i as int, j as int))]);
            }
            out
        } else {
            push_char(&mut out, ' ');
            out.append(rest.as_str());
            proof {
                let ws = cap_words(split_ws(u));
                assert(ws[0] == cap_word(s@.subrange(i as int, j as int)));
                assert(ws.drop_first() =~= cap_words(split_ws(s@.skip(j as int))));
                assert(ws.len() >= 2);
                assert(out@ =~= ws[0] + seq![' '] + join_words(ws.drop_first()));
            }
            out
        }
    }
}

/// Upper-cases every word of at most two characters, so that short words
/// read as acronyms, and normalizes word separation to single spaces.
pub fn captialize_short_words(w: &str) -> (r: String)
    ensures
        r@ == cap_short_words_spec(w@),
{
    let r = cap_short_from(w, 0);
    proof {
        assert(w@.skip(0int) =~= w@);
    }
    r
}

/// The title-cased form of a key, as the case conversion library defines
/// it: a function of the input characters alone.
pub uninterp spec fn title_case_of(s: Seq<char>) -> Seq<char>;

/// Relies on convert_case's `Casing::to_case` with `Case::Title`: words are
/// recognized at delimiters and case boundaries, capitalized, and joined
/// with single spaces; the result depends on the input characters alone.
#[verifier::external_body]
fn title_case(s: &str) -> (r: String)
    ensures
        r@ == title_case_of(s@),
{
    s.to_case(convert_case::Case::Title)
}

/// The display name a projected record carries: the explicit name when one
/// is given, otherwise the key title-cased with short words upper-cased.
pub open spec fn derived_name(key: Seq<char>, name: Option<String>) -> Seq<char> {
    match name {
        Option::Some(n) => n@,
        Option::None => cap_short_words_spec(title_case_of(key)),
    }
}

/// The first environment bound to `name`, if any.
pub open spec fn lookup_env(envs: Seq<(String, Environment)>, name: Seq<char>) -> Option<
    Environment,
>
    decreases envs.len(),
{
    if envs.len() == 0 {
        Option::None
    } else if envs[0].0@ == name {
        Option::Some(envs[0].1)
    } else {
        lookup_env(envs.drop_first(), name)
    }
}

proof fn lemma_lookup_env_at(envs: Seq<(String, Environment)>, name: Seq<char>, i: int)
    requires
        0 <= i < envs.len(),
        envs[i].0@ == name,
        forall|t: int| 0 <= t < i ==> envs[t].0@ != name,
    ensures
        lookup_env(envs, name) == Option::Some(envs[i].1),
    decreases i,
{
    if i > 0 {
        lemma_lookup_env_at(envs.drop_first(), name, i - 1);
    }
}

proof fn lemma_lookup_env_miss(envs: Seq<(String, Environment)>, name: Seq<char>)
    requires
        forall|t: int| 0 <= t < envs.len() ==> envs[t].0@ != name,
    ensures
        lookup_env(envs, name) is None,
    decreases envs.len(),
{
    if envs.len() > 0 {
        lemma_lookup_env_miss(envs.drop_first(), name);
    }
}

fn find_env(envs: &Vec<(String, Environment)>, name: &String) -> (r: Option<Environment>)
    ensures
        r == lookup_env(envs@, name@),
{
    let mut i: usize = 0;
    while i < envs.len()
        invariant
            0 <= i <= envs@.len(),
            forall|t: int| 0 <= t < i ==> envs@[t].0@ != name@,
        decreases envs@.len() - i,
    {
        if str_eq(envs[i].0.as_str(), name.as_str()) {
            proof {
                lemma_lookup_env_at(envs@, name@, i as int);
            }
            return Option::Some(envs[i].1);
        }
        i += 1;
    }
    proof {
        lemma_lookup_env_miss(envs@, name@);
    }
    Option::None
}

/// What projection promises of its result, field by field.
pub open spec fn projected(
    key: Seq<char>,
    job: local::Job,
    config: Config,
    envs: Seq<(String, Environment)>,
    j: Job,
) -> bool {
    &&& j.id is None
    &&& j.account_id == config.account_id
    &&& config.project_id matches Option::Some(pid) && j.project_id == pid
    &&& lookup_env(envs, job.environment@) matches Option::Some(e) && j.environment_id == e.id
    &&& j.name@ == derived_name(key, job.name)
    &&& j.dbt_version is None
    &&& j.triggers.github_webhook == (match job.ci {
        Option::Some(ci) => ci.run_on_pr == Option::Some(true),
        Option::None => false,
    })
    &&& j.triggers.git_provider_webhook == false
    &&& j.triggers.schedule == (job.schedule is Some)
    &&& j.triggers.custom_branch_only == (match job.ci {
        Option::Some(ci) => ci.custom_branch_only,
        Option::None => Option::None,
    })
    &&& j.execute_steps == job.steps
    &&& j.settings.threads == (match job.threads {
        Option::Some(t) => t,
        Option::None => 4i64,
    })
    &&& j.settings.target_name == job.target
    &&& j.state == 1
    &&& j.generate_docs == (match job.generate_docs {
        Option::Some(g) => g,
        Option::None => false,
    })
    &&& j.deferring_job_definition_id == job.defer_to_job_id
    &&& j.deferring_environment_id == job.defer_to_env_id
    &&& j.execution.timeout_seconds == (match job.timeout {
        Option::Some(t) => t,
        Option::None => 0i64,
    })
    &&& {
        let e = match job.schedule {
            Option::Some(s) => s.cron@,
            Option::None => "0/10 * * * *"@,
        };
        &&& j.schedule.cron@ == e
        &&& j.schedule.date.type_field@ == "custom_cron"@
        &&& j.schedule.date.days is None
        &&& j.schedule.date.cron matches Option::Some(c) && c@ == e
        &&& j.schedule.time.type_field@ == "every_hour"@
        &&& j.schedule.time.interval == Option::Some(1i64)
        &&& j.schedule.time.hours is None
    }
}

impl Job {
    /// Projects one desired-state job into the canonical remote shape.
    /// Fails, fatally for the run, when the referenced environment is not in
    /// the environment mapping.
    pub fn from_local_job(
        key: &str,
        job: local::Job,
        config: &Config,
        environments: &Vec<(String, Environment)>,
    ) -> (r: Result<Job, Error>)
        requires
            config.project_id is Some,
        ensures
            r matches Ok(j) ==> projected(key@, job, *config, environments@, j),
            r is Ok <==> lookup_env(environments@, job.environment@) is Some,
            r matches Err(e) ==> e matches Error::ConfigReference(n) && n@ == job.environment@,
    {
        let environment = match find_env(environments, &job.environment) {
            Option::Some(e) => e,
            Option::None => {
                return Result::Err(Error::ConfigReference(job.environment));
            },
        };
        let has_schedule = match &job.schedule {
            Option::Some(_) => true,
            Option::None => false,
        };
        let cron_string = match job.schedule {
            Option::Some(s) => s.cron,
            Option::None => String::from_str("0/10 * * * *"),
        };
        let ci = match job.ci {
            Option::Some(c) => c,
            Option::None => local::CI { run_on_pr: Option::None, custom_branch_only: Option::None },
        };
        let name = match job.name {
            Option::Some(n) => n,
            Option::None => captialize_short_words(title_case(key).as_str()),
        };
        let project_id = match config.project_id {
            Option::Some(p) => p,
            Option::None => {
                proof {
                    assert(false);
                }
                0
            },
        };
        let run_on_pr = match ci.run_on_pr {
            Option::Some(true) => true,
            _ => false,
        };
        Result::Ok(
            Job {
                id: Option::None,
                account_id: config.account_id,
                project_id,
                environment_id: environment.id,
                name,
                dbt_version: Option::None,
                triggers: Triggers {
                    github_webhook: run_on_pr,
                    git_provider_webhook: false,
                    schedule: has_schedule,
                    custom_branch_only: ci.custom_branch_only,
                },
                execute_steps: job.steps,
                execution: Execution {
                    timeout_seconds: match job.timeout {
                        Option::Some(t) => t,
                        Option::None => 0,
                    },
                },
                settings: Settings {
                    threads: match job.threads {
                        Option::Some(t) => t,
                        Option::None => 4,
                    },
                    target_name: job.target,
                },
                state: 1,
                generate_docs: match job.generate_docs {
                    Option::Some(g) => g,
                    Option::None => false,
                },
                schedule: Schedule::cron(cron_string.as_str()),
                deferring_job_definition_id: job.defer_to_job_id,
                deferring_environment_id: job.defer_to_env_id,
            },
        )
    }

    /// What merging promises: the identifier is the existing record's, the
    /// schedule is the existing record's unless the desired record declares
    /// one, and every other field is the desired record's.
    pub open spec fn merged(desired: Job, existing: Job, r: Job) -> bool {
        &&& r.id == existing.id
        &&& (if !desired.triggers.schedule {
            schedule_like(r.schedule, existing.schedule)
        } else {
            schedule_like(r.schedule, desired.schedule)
        })
        &&& r.account_id == desired.account_id
        &&& r.project_id == desired.project_id
        &&& r.environment_id == desired.environment_id
        &&& r.name@ == desired.name@
        &&& crate::remote::opt_str_like(r.dbt_version, desired.dbt_version)
        &&& r.triggers == desired.triggers
        &&& crate::remote::strs_like(r.execute_steps@, desired.execute_steps@)
        &&& crate::remote::settings_like(r.settings, desired.settings)
        &&& r.state == desired.state
        &&& r.generate_docs == desired.generate_docs
        &&& r.deferring_job_definition_id == desired.deferring_job_definition_id
        &&& r.deferring_environment_id == desired.deferring_environment_id
        &&& r.execution == desired.execution
    }

    /// Combines this (desired) record with its matched remote record,
    /// preserving the server-owned identifier and, when no schedule is
    /// declared locally, the remote's existing schedule.
    pub fn merge(&self, existing: &Job) -> (r: Job)
        ensures
            Job::merged(*self, *existing, r),
    {
        let mut s = self.duplicate();
        s.id = existing.id;
        if !s.triggers.schedule {
            s.schedule = existing.schedule.duplicate();
        }
        s
    }

    /// The structural diff of this record (as the "before" side) against
    /// `job` (as the "after" side), over their tree forms.
    pub fn diff(&self, job: &Job) -> (d: Diff)
        ensures
            represents_job(d.local, *self),
            represents_job(d.remote, *job),
            changes_view(d.changes@) == diff_spec(d.local, d.remote),
    {
        Diff::from(self.to_value(), job.to_value())
    }

    /// The diff of this record against `job` with every modification
    /// reclassified as an addition: for baselines that are placeholders.
    /// From the zero-value placeholder itself, every entry is an addition
    /// or unchanged: no modification, no removal.
    pub fn new_diff(&self, job: &Job) -> (d: Diff)
        ensures
            represents_job(d.local, *self),
            represents_job(d.remote, *job),
            changes_view(d.changes@) == as_create(diff_spec(d.local, d.remote)),
            forall|i: int|
                0 <= i < d.changes@.len() ==> !(#[trigger] change_view(d.changes@[i]) is Modified),
            zero_job(*self) ==> forall|i: int|
                0 <= i < d.changes@.len() ==> (#[trigger] change_view(d.changes@[i]) is Added
                    || change_view(d.changes@[i]) is Unchanged),
    {
        let d = Diff::from_new(self.to_value(), job.to_value());
        proof {
            if zero_job(*self) {
                crate::remote::lemma_job_create_diff_only_additions(d.local, d.remote, *self, *job);
                assert forall|i: int| 0 <= i < d.changes@.len() implies (#[trigger] change_view(
                    d.changes@[i],
                ) is Added || change_view(d.changes@[i]) is Unchanged) by {
                    assert(change_view(d.changes@[i]) == changes_view(d.changes@)[i]);
                    assert(changes_view(d.changes@)[i] == as_create(
                        diff_spec(d.local, d.remote),
                    )[i]);
                }
            }
        }
        d
    }
}

} // verus!
