//! Classification of projected and remote records into create, update and
//! delete actions; plan assembly; rendering; and the apply pass, which is a
//! list of explicit calls for the caller to carry out.
use vstd::prelude::*;
use vstd::string::StringExecFns;

use crate::config::Config;
use crate::diff::{
    as_create, change_lines, changes_view, diff_spec, lines_view, spec_has_changes, Diff,
    LineKind, LineS, RenderLine,
};
use crate::error::Error;
use crate::local::{Environment, Project, Root};
use crate::local;
use crate::remote::{job_like, represents_job, zero_job, Job};
use crate::strutil::{lex_le, spec_int_str, str_eq};
use crate::utils::{lookup_env, projected};
use crate::value::Value;

verus! {

/// The action a classified record calls for.
#[derive(Debug)]
pub enum JobPlanType {
    /// Present only in desired state: create it, with the projected record.
    Create(Job),
    /// Present on both sides: update with the merged record; the matched
    /// remote record rides along.
    Update(Job, Job),
    /// Present only remotely: surfaced in the plan, never executed.
    Delete(Job),
}

/// One action paired with its field-level diff.
#[derive(Debug)]
pub struct JobPlan {
    pub plan_type: JobPlanType,
    pub diff: Diff,
}

#[derive(Debug)]
pub struct ProjectPlan {
    pub project_id: i64,
    pub project_name: String,
    pub jobs: Vec<JobPlan>,
}

#[derive(Debug)]
pub struct Plan {
    pub projects: Vec<ProjectPlan>,
}

/// Some record in `jobs` carries the display name `n`.
pub open spec fn has_name(jobs: Seq<Job>, n: Seq<char>) -> bool {
    exists|i: int| 0 <= i < jobs.len() && #[trigger] jobs[i].name@ == n
}

/// The first record in `jobs` carrying the display name `n`.
pub open spec fn find_by_name(jobs: Seq<Job>, n: Seq<char>) -> Option<Job>
    decreases jobs.len(),
{
    if jobs.len() == 0 {
        Option::None
    } else if jobs[0].name@ == n {
        Option::Some(jobs[0])
    } else {
        find_by_name(jobs.drop_first(), n)
    }
}

/// No two records in `jobs` share a display name.
pub open spec fn distinct_names(jobs: Seq<Job>) -> bool {
    forall|i: int, j: int| 0 <= i < j < jobs.len() ==> jobs[i].name@ != jobs[j].name@
}

proof fn lemma_find_by_name_at(jobs: Seq<Job>, n: Seq<char>, i: int)
    requires
        0 <= i < jobs.len(),
        jobs[i].name@ == n,
        forall|t: int| 0 <= t < i ==> jobs[t].name@ != n,
    ensures
        find_by_name(jobs, n) == Option::Some(jobs[i]),
    decreases i,
{
    if i > 0 {
        lemma_find_by_name_at(jobs.drop_first(), n, i - 1);
    }
}

proof fn lemma_find_by_name_miss(jobs: Seq<Job>, n: Seq<char>)
    requires
        forall|t: int| 0 <= t < jobs.len() ==> jobs[t].name@ != n,
    ensures
        find_by_name(jobs, n) is None,
        !has_name(jobs, n),
    decreases jobs.len(),
{
    if jobs.len() > 0 {
        lemma_find_by_name_miss(jobs.drop_first(), n);
    }
}

proof fn lemma_find_by_name_some(jobs: Seq<Job>, n: Seq<char>)
    ensures
        has_name(jobs, n) == (find_by_name(jobs, n) is Some),
    decreases jobs.len(),
{
    if jobs.len() > 0 {
        lemma_find_by_name_some(jobs.drop_first(), n);
        if jobs[0].name@ == n {
        } else {
            assert forall|i: int|
                0 <= i < jobs.len() && #[trigger] jobs[i].name@ == n implies has_name(
                jobs.drop_first(),
                n,
            ) by {
                assert(jobs.drop_first()[i - 1].name@ == n);
            }
        }
    }
}

fn find_name_index(jobs: &Vec<Job>, n: &String) -> (r: Option<usize>)
    ensures
        match r {
            Option::Some(i) => 0 <= i < jobs@.len() && jobs@[i as int].name@ == n@ && find_by_name(
                jobs@,
                n@,
            ) == Option::Some(jobs@[i as int]) && has_name(jobs@, n@),
            Option::None => find_by_name(jobs@, n@) is None && !has_name(jobs@, n@),
        },
{
    let mut i: usize = 0;
    while i < jobs.len()
        invariant
            0 <= i <= jobs@.len(),
            forall|t: int| 0 <= t < i ==> jobs@[t].name@ != n@,
        decreases jobs@.len() - i,
    {
        if str_eq(jobs[i].name.as_str(), n.as_str()) {
            proof {
                lemma_find_by_name_at(jobs@, n@, i as int);
            }
            return Option::Some(i);
        }
        i += 1;
    }
    proof {
        lemma_find_by_name_miss(jobs@, n@);
    }
    Option::None
}

/// Absence from the desired side, as the filter predicate for deletions.
pub open spec fn not_in(locals: Seq<Job>) -> spec_fn(Job) -> bool {
    |j: Job| !has_name(locals, j.name@)
}

/// What classification promises: one entry per desired record, in order —
/// an update where the remote side has the name, a create where it does not
/// — followed by one delete entry per remote-only record, in order.
pub open spec fn classify_post(
    locals: Seq<Job>,
    remotes: Seq<Job>,
    out: Seq<(String, JobPlanType)>,
) -> bool {
    &&& out.len() == locals.len() + remotes.filter(not_in(locals)).len()
    &&& forall|i: int|
        0 <= i < locals.len() ==> {
            &&& (#[trigger] out[i]).0@ == locals[i].name@
            &&& match find_by_name(remotes, locals[i].name@) {
                Option::Some(rjob) => out[i].1 matches JobPlanType::Update(m, rem) && job_like(
                    rem,
                    rjob,
                ) && Job::merged(locals[i], rjob, m),
                Option::None => out[i].1 matches JobPlanType::Create(c) && c == locals[i],
            }
        }
    &&& forall|k: int|
        0 <= k < remotes.filter(not_in(locals)).len() ==> {
            &&& (#[trigger] out[locals.len() + k]).0@ == remotes.filter(not_in(locals))[k].name@
            &&& out[locals.len() + k].1 matches JobPlanType::Delete(d) && job_like(
                d,
                remotes.filter(not_in(locals))[k],
            )
        }
}

/// Partitions the union of projected-desired and remote records, keyed by
/// display name, into create, update and delete actions.
pub fn determine_job_plan_types_by_name(local_jobs: Vec<Job>, remote_jobs: Vec<Job>) -> (r: Vec<
    (String, JobPlanType),
>)
    ensures
        classify_post(local_jobs@, remote_jobs@, r@),
{
    let ghost locals = local_jobs@;
    let ghost remotes = remote_jobs@;
    let mut out: Vec<(String, JobPlanType)> = Vec::new();
    let mut input = local_jobs;
    let n: usize = input.len();
    let mut i: usize = 0;
    proof {
        assert(input@ =~= locals.skip(0int));
    }
    while i < n
        invariant
            0 <= i <= n,
            n == locals.len(),
            remotes == remote_jobs@,
            input@ == locals.skip(i as int),
            out@.len() == i,
            forall|t: int|
                0 <= t < i ==> {
                    &&& (#[trigger] out@[t]).0@ == locals[t].name@
                    &&& match find_by_name(remotes, locals[t].name@) {
                        Option::Some(rjob) => out@[t].1 matches JobPlanType::Update(m, rem)
                            && job_like(rem, rjob) && Job::merged(locals[t], rjob, m),
                        Option::None => out@[t].1 matches JobPlanType::Create(c) && c == locals[t],
                    }
                },
        decreases n - i,
    {
        let l = input.remove(0);
        proof {
            assert(locals.skip(i as int)[0] == locals[i as int]);
            assert(locals.skip(i as int).remove(0int) =~= locals.skip(i + 1));
        }
        let name = l.name.clone();
        match find_name_index(&remote_jobs, &l.name) {
            Option::Some(idx) => {
                let m = l.merge(&remote_jobs[idx]);
                let rem = remote_jobs[idx].duplicate();
                proof {
                    assert(find_by_name(remotes, locals[i as int].name@) == Option::Some(
                        remotes[idx as int],
                    ));
                }
                out.push((name, JobPlanType::Update(m, rem)));
            },
            Option::None => {
                out.push((name, JobPlanType::Create(l)));
            },
        }
        i += 1;
    }
    // one delete entry per remote-only record, in order
    let mut rin = remote_jobs;
    let mut k: usize = 0;
    let rn: usize = rin.len();
    proof {
        assert(rin@ =~= remotes.skip(0int));
        assert(remotes.take(0int) =~= Seq::<Job>::empty());
        reveal_with_fuel(Seq::<Job>::filter, 1);
        assert(remotes.take(0int).filter(not_in(locals)) =~= Seq::<Job>::empty());
    }
    while k < rn
        invariant
            0 <= k <= rn,
            rn == remotes.len(),
            n == locals.len(),
            rin@ == remotes.skip(k as int),
            out@.len() == n + remotes.take(k as int).filter(not_in(locals)).len(),
            forall|t: int|
                0 <= t < n ==> {
                    &&& (#[trigger] out@[t]).0@ == locals[t].name@
                    &&& match find_by_name(remotes, locals[t].name@) {
                        Option::Some(rjob) => out@[t].1 matches JobPlanType::Update(m, rem)
                            && job_like(rem, rjob) && Job::merged(locals[t], rjob, m),
                        Option::None => out@[t].1 matches JobPlanType::Create(c) && c == locals[t],
                    }
                },
            forall|d: int|
                0 <= d < remotes.take(k as int).filter(not_in(locals)).len() ==> {
                    &&& (#[trigger] out@[n + d]).0@ == remotes.take(k as int).filter(
                        not_in(locals),
                    )[d].name@
                    &&& out@[n + d].1 matches JobPlanType::Delete(dd) && job_like(
                        dd,
                        remotes.take(k as int).filter(not_in(locals))[d],
                    )
                },
        decreases rn - k,
    {
        let r = rin.remove(0);
        proof {
            assert(remotes.skip(k as int)[0] == remotes[k as int]);
            assert(remotes.skip(k as int).remove(0int) =~= remotes.skip(k + 1));
            reveal_with_fuel(Seq::<Job>::filter, 1);
            assert(remotes.take(k + 1).drop_last() =~= remotes.take(k as int));
            assert(remotes.take(k + 1).last() == remotes[k as int]);
        }
        let is_local = any_name_matches(&out, n, &r.name);
        proof {
            if is_local {
                let t = choose|t: int| 0 <= t < n && #[trigger] out@[t].0@ == r.name@;
                assert(locals[t].name@ == r.name@);
                assert(has_name(locals, r.name@));
            } else {
                assert forall|t: int| 0 <= t < locals.len() implies #[trigger] locals[t].name@
                    != r.name@ by {
                    assert(out@[t].0@ == locals[t].name@);
                }
                assert(!has_name(locals, r.name@));
            }
        }
        if !is_local {
            let name = r.name.clone();
            let ghost prev = remotes.take(k as int).filter(not_in(locals));
            out.push((name, JobPlanType::Delete(r)));
            proof {
                assert(remotes.take(k + 1).filter(not_in(locals)) =~= prev.push(
                    remotes[k as int],
                ));
                assert(job_like(remotes[k as int], remotes[k as int]));
                assert forall|d: int|
                    0 <= d < remotes.take(k + 1).filter(not_in(locals)).len() implies {
                    &&& (#[trigger] out@[n + d]).0@ == remotes.take(k + 1).filter(
                        not_in(locals),
                    )[d].name@
                    &&& out@[n + d].1 matches JobPlanType::Delete(dd) && job_like(
                        dd,
                        remotes.take(k + 1).filter(not_in(locals))[d],
                    )
                } by {
                    if d < prev.len() {
                        assert(prev[d] == remotes.take(k + 1).filter(not_in(locals))[d]);
                    }
                }
            }
        } else {
            proof {
                assert(remotes.take(k + 1).filter(not_in(locals)) =~= remotes.take(
                    k as int,
                ).filter(not_in(locals)));
            }
        }
        k += 1;
    }
    proof {
        assert(remotes.take(rn as int) =~= remotes);
    }
    out
}

proof fn lemma_filter_index_member(s: Seq<Job>, p: spec_fn(Job) -> bool)
    ensures
        forall|d: int|
            0 <= d < s.filter(p).len() ==> exists|i: int|
                0 <= i < s.len() && s[i] == #[trigger] s.filter(p)[d],
    decreases s.len(),
{
    reveal_with_fuel(Seq::<Job>::filter, 1);
    if s.len() > 0 {
        lemma_filter_index_member(s.drop_last(), p);
        assert forall|d: int| 0 <= d < s.filter(p).len() implies exists|i: int|
            0 <= i < s.len() && s[i] == #[trigger] s.filter(p)[d] by {
            if d < s.drop_last().filter(p).len() {
                assert(s.filter(p)[d] == s.drop_last().filter(p)[d]);
                let i = choose|i: int|
                    0 <= i < s.drop_last().len() && s.drop_last()[i] == s.drop_last().filter(p)[d];
                assert(s[i] == s.filter(p)[d]);
            } else {
                assert(s[s.len() - 1] == s.filter(p)[d]);
            }
        }
    }
}

proof fn lemma_filter_distinct(s: Seq<Job>, p: spec_fn(Job) -> bool)
    requires
        distinct_names(s),
    ensures
        distinct_names(s.filter(p)),
    decreases s.len(),
{
    reveal_with_fuel(Seq::<Job>::filter, 1);
    if s.len() > 0 {
        assert(distinct_names(s.drop_last()));
        lemma_filter_distinct(s.drop_last(), p);
        lemma_filter_index_member(s.drop_last(), p);
        if p(s.last()) {
            assert(s.filter(p) == s.drop_last().filter(p).push(s.last()));
            assert forall|i: int, j: int|
                0 <= i < j < s.filter(p).len() implies s.filter(p)[i].name@ != s.filter(
                p,
            )[j].name@ by {
                if j < s.filter(p).len() - 1 {
                    assert(s.filter(p)[i] == s.drop_last().filter(p)[i]);
                    assert(s.filter(p)[j] == s.drop_last().filter(p)[j]);
                } else {
                    assert(s.filter(p)[i] == s.drop_last().filter(p)[i]);
                    let t = choose|t: int|
                        0 <= t < s.drop_last().len() && s.drop_last()[t] == s.drop_last().filter(
                            p,
                        )[i];
                    assert(s[t] == s.filter(p)[i]);
                    assert(s[t].name@ != s[s.len() - 1].name@);
                }
            }
        }
    }
}

/// Law: on inputs whose display names are unique on each side,
/// classification partitions the union of the two name sets. Every entry's
/// name comes from one of the sides, no name appears twice, every name of
/// either side appears, and the action kind of each entry is determined by
/// membership: update for names on both sides, create for desired-only
/// names, delete for remote-only names.
pub proof fn lemma_classify_partition(
    locals: Seq<Job>,
    remotes: Seq<Job>,
    out: Seq<(String, JobPlanType)>,
)
    requires
        distinct_names(locals),
        distinct_names(remotes),
        classify_post(locals, remotes, out),
    ensures
        forall|k1: int, k2: int| 0 <= k1 < k2 < out.len() ==> out[k1].0@ != out[k2].0@,
        forall|k: int|
            0 <= k < out.len() ==> has_name(locals, (#[trigger] out[k]).0@) || has_name(
                remotes,
                out[k].0@,
            ),
        forall|i: int|
            0 <= i < locals.len() ==> exists|k: int|
                0 <= k < out.len() && (#[trigger] out[k]).0@ == (#[trigger] locals[i]).name@,
        forall|i: int|
            0 <= i < remotes.len() ==> exists|k: int|
                0 <= k < out.len() && (#[trigger] out[k]).0@ == (#[trigger] remotes[i]).name@,
        forall|k: int|
            0 <= k < out.len() ==> ((#[trigger] out[k]).1 is Update <==> (has_name(
                locals,
                out[k].0@,
            ) && has_name(remotes, out[k].0@))),
        forall|k: int|
            0 <= k < out.len() ==> ((#[trigger] out[k]).1 is Create <==> (has_name(
                locals,
                out[k].0@,
            ) && !has_name(remotes, out[k].0@))),
        forall|k: int|
            0 <= k < out.len() ==> ((#[trigger] out[k]).1 is Delete <==> (!has_name(
                locals,
                out[k].0@,
            ) && has_name(remotes, out[k].0@))),
{
    let n = locals.len() as int;
    let dels = remotes.filter(not_in(locals));
    lemma_filter_index_member(remotes, not_in(locals));
    lemma_filter_distinct(remotes, not_in(locals));
    // names of head entries are local names; names of tail entries are
    // remote-only names
    assert forall|k: int| 0 <= k < out.len() implies has_name(locals, (#[trigger] out[k]).0@)
        || has_name(remotes, out[k].0@) by {
        if k < n {
            assert(out[k].0@ == locals[k].name@);
            assert(has_name(locals, locals[k].name@));
        } else {
            let d = k - n;
            assert(out[locals.len() + d] == out[k]);
            Seq::lemma_filter_pred(remotes, not_in(locals), d);
            let i = choose|i: int| 0 <= i < remotes.len() && remotes[i] == dels[d];
            assert(has_name(remotes, remotes[i].name@));
        }
    }
    assert forall|k: int| 0 <= k < n implies has_name(locals, (#[trigger] out[k]).0@)
        && (has_name(remotes, out[k].0@) == (out[k].1 is Update)) && ((out[k].1 is Create)
        == !has_name(remotes, out[k].0@)) && !(out[k].1 is Delete) by {
        assert(out[k].0@ == locals[k].name@);
        assert(has_name(locals, locals[k].name@));
        lemma_find_by_name_some(remotes, locals[k].name@);
    }
    assert forall|k: int| n <= k < out.len() implies !has_name(locals, (#[trigger] out[k]).0@)
        && has_name(remotes, out[k].0@) && out[k].1 is Delete by {
        let d = k - n;
        assert(out[locals.len() + d] == out[k]);
        Seq::lemma_filter_pred(remotes, not_in(locals), d);
        assert(not_in(locals)(dels[d]));
        let i = choose|i: int| 0 <= i < remotes.len() && remotes[i] == dels[d];
        assert(has_name(remotes, remotes[i].name@));
    }
    // no name appears twice
    assert forall|k1: int, k2: int| 0 <= k1 < k2 < out.len() implies out[k1].0@ != out[k2].0@ by {
        if k2 < n {
        } else if k1 < n {
            assert(out[k1].0@ == locals[k1].name@);
            assert(out[locals.len() + (k2 - n)] == out[k2]);
            Seq::lemma_filter_pred(remotes, not_in(locals), k2 - n);
            assert(not_in(locals)(dels[k2 - n]));
            if out[k1].0@ == out[k2].0@ {
                assert(has_name(locals, dels[k2 - n].name@));
            }
        } else {
            assert(out[locals.len() + (k1 - n)] == out[k1]);
            assert(out[locals.len() + (k2 - n)] == out[k2]);
            assert(out[k1].0@ == dels[k1 - n].name@);
            assert(out[k2].0@ == dels[k2 - n].name@);
        }
    }
    // every name of either side appears
    assert forall|i: int| 0 <= i < remotes.len() implies exists|k: int|
        0 <= k < out.len() && (#[trigger] out[k]).0@ == (#[trigger] remotes[i]).name@ by {
        if has_name(locals, remotes[i].name@) {
            let t = choose|t: int| 0 <= t < locals.len() && #[trigger] locals[t].name@
                == remotes[i].name@;
            assert(out[t].0@ == remotes[i].name@);
        } else {
            assert(not_in(locals)(remotes[i]));
            Seq::lemma_filter_contains(remotes, not_in(locals), i);
            let d = choose|d: int| 0 <= d < dels.len() && dels[d] == remotes[i];
            assert(out[locals.len() + d] == out[n + d]);
            assert(out[n + d].0@ == remotes[i].name@);
        }
    }
    assert forall|i: int| 0 <= i < locals.len() implies exists|k: int|
        0 <= k < out.len() && (#[trigger] out[k]).0@ == (#[trigger] locals[i]).name@ by {
        assert(out[i].0@ == locals[i].name@);
    }
}

fn any_name_matches(entries: &Vec<(String, JobPlanType)>, upto: usize, n: &String) -> (r: bool)
    requires
        upto <= entries@.len(),
    ensures
        r == exists|t: int| 0 <= t < upto && #[trigger] entries@[t].0@ == n@,
{
    let mut i: usize = 0;
    while i < upto
        invariant
            0 <= i <= upto <= entries@.len(),
            forall|t: int| 0 <= t < i ==> #[trigger] entries@[t].0@ != n@,
        decreases upto - i,
    {
        if str_eq(entries[i].0.as_str(), n.as_str()) {
            return true;
        }
        i += 1;
    }
    false
}

/// Every projected record in `out` corresponds to the desired job at the
/// same position.
pub open spec fn projected_post(
    jobs: Seq<(String, local::Job)>,
    config: Config,
    envs: Seq<(String, Environment)>,
    out: Seq<Job>,
) -> bool {
    out.len() == jobs.len() && (forall|i: int|
        0 <= i < jobs.len() ==> projected(
            (#[trigger] jobs[i]).0@,
            jobs[i].1,
            config,
            envs,
            out[i],
        ))
}

/// Every desired job's environment reference resolves.
pub open spec fn all_envs_resolve(
    jobs: Seq<(String, local::Job)>,
    envs: Seq<(String, Environment)>,
) -> bool {
    forall|i: int|
        0 <= i < jobs.len() ==> lookup_env(envs, (#[trigger] jobs[i]).1.environment@) is Some
}

fn project_jobs(
    jobs: Vec<(String, local::Job)>,
    config: &Config,
    envs: &Vec<(String, Environment)>,
) -> (r: Result<Vec<Job>, Error>)
    requires
        config.project_id is Some,
    ensures
        r matches Ok(out) ==> projected_post(jobs@, *config, envs@, out@),
        r is Ok <==> all_envs_resolve(jobs@, envs@),
        r matches Err(e) ==> e is ConfigReference,
{
    let ghost orig = jobs@;
    let mut input = jobs;
    let mut out: Vec<Job> = Vec::new();
    let n: usize = input.len();
    let mut i: usize = 0;
    proof {
        assert(input@ =~= orig.skip(0int));
    }
    while i < n
        invariant
            0 <= i <= n,
            n == orig.len(),
            orig == jobs@,
            config.project_id is Some,
            input@ == orig.skip(i as int),
            out@.len() == i,
            forall|t: int|
                0 <= t < i ==> projected(
                    (#[trigger] orig[t]).0@,
                    orig[t].1,
                    *config,
                    envs@,
                    out@[t],
                ),
            forall|t: int|
                0 <= t < i ==> lookup_env(envs@, (#[trigger] orig[t]).1.environment@) is Some,
        decreases n - i,
    {
        let (key, job) = input.remove(0);
        proof {
            assert(orig.skip(i as int)[0] == orig[i as int]);
            assert(orig.skip(i as int).remove(0int) =~= orig.skip(i + 1));
        }
        let ghost j0 = job;
        match Job::from_local_job(key.as_str(), job, config, envs) {
            Result::Ok(j) => {
                out.push(j);
            },
            Result::Err(e) => {
                proof {
                    assert(lookup_env(envs@, (orig[i as int]).1.environment@) is None);
                    assert(!all_envs_resolve(orig, envs@));
                }
                return Result::Err(e);
            },
        }
        i += 1;
    }
    proof {
        assert(all_envs_resolve(orig, envs@));
    }
    Result::Ok(out)
}

/// The tree stands for the zero-value placeholder record.
pub open spec fn represents_zero(v: Value) -> bool {
    exists|d: Job| zero_job(d) && #[trigger] represents_job(v, d)
}

/// The stored diff belongs to the stored action: an update diffs the remote
/// record against the merged one, a create diffs the placeholder against the
/// projected record (as a create-style diff), a delete diffs the remote
/// record against the placeholder.
pub open spec fn job_plan_diff_ok(jp: JobPlan) -> bool {
    match jp.plan_type {
        JobPlanType::Update(m, rem) => represents_job(jp.diff.local, rem) && represents_job(
            jp.diff.remote,
            m,
        ) && changes_view(jp.diff.changes@) == diff_spec(jp.diff.local, jp.diff.remote),
        JobPlanType::Create(c) => represents_zero(jp.diff.local) && represents_job(
            jp.diff.remote,
            c,
        ) && changes_view(jp.diff.changes@) == as_create(
            diff_spec(jp.diff.local, jp.diff.remote),
        ),
        JobPlanType::Delete(rem) => represents_job(jp.diff.local, rem) && represents_zero(
            jp.diff.remote,
        ) && changes_view(jp.diff.changes@) == diff_spec(jp.diff.local, jp.diff.remote),
    }
}

fn build_job_plans(entries: Vec<(String, JobPlanType)>) -> (r: Vec<JobPlan>)
    ensures
        r@.len() == entries@.len(),
        forall|k: int|
            0 <= k < entries@.len() ==> (#[trigger] r@[k]).plan_type == entries@[k].1
                && job_plan_diff_ok(r@[k]),
{
    let ghost orig = entries@;
    let mut input = entries;
    let mut out: Vec<JobPlan> = Vec::new();
    let n: usize = input.len();
    let mut i: usize = 0;
    proof {
        assert(input@ =~= orig.skip(0int));
    }
    while i < n
        invariant
            0 <= i <= n,
            n == orig.len(),
            input@ == orig.skip(i as int),
            out@.len() == i,
            forall|k: int|
                0 <= k < i ==> (#[trigger] out@[k]).plan_type == orig[k].1 && job_plan_diff_ok(
                    out@[k],
                ),
        decreases n - i,
    {
        let (_name, plan_type) = input.remove(0);
        proof {
            assert(orig.skip(i as int)[0] == orig[i as int]);
            assert(orig.skip(i as int).remove(0int) =~= orig.skip(i + 1));
        }
        let jp = match plan_type {
            JobPlanType::Update(m, rem) => {
                let d = rem.diff(&m);
                JobPlan { plan_type: JobPlanType::Update(m, rem), diff: d }
            },
            JobPlanType::Create(c) => {
                let zero = Job::default();
                let d = zero.new_diff(&c);
                proof {
                    assert(represents_zero(d.local));
                }
                JobPlan { plan_type: JobPlanType::Create(c), diff: d }
            },
            JobPlanType::Delete(rem) => {
                let zero = Job::default();
                let d = rem.diff(&zero);
                proof {
                    assert(represents_zero(d.remote));
                }
                JobPlan { plan_type: JobPlanType::Delete(rem), diff: d }
            },
        };
        out.push(jp);
        i += 1;
    }
    out
}

/// The display name an action is keyed by.
pub open spec fn plan_name(pt: JobPlanType) -> Seq<char> {
    match pt {
        JobPlanType::Create(c) => c.name@,
        JobPlanType::Update(_m, rem) => rem.name@,
        JobPlanType::Delete(rem) => rem.name@,
    }
}

/// The job plan carries at least one change entry that is not `Unchanged`.
pub open spec fn jp_changed(jp: JobPlan) -> bool {
    spec_has_changes(changes_view(jp.diff.changes@))
}

/// A changed update or delete action carries the remote identifier it needs.
pub open spec fn jp_applicable(jp: JobPlan) -> bool {
    jp_changed(jp) ==> match jp.plan_type {
        JobPlanType::Create(_c) => true,
        JobPlanType::Update(m, _rem) => m.id is Some,
        JobPlanType::Delete(rem) => rem.id is Some,
    }
}

/// One call of the apply pass. A `Delete` is an announcement only: the
/// applier never issues a remote delete call.
#[derive(Debug)]
pub enum ApplyCall {
    /// Issue a remote create with this record.
    Create(Job),
    /// Issue a remote update with this (merged) record, addressed by its id.
    Update(Job),
    /// Print that this remote job, by id, would be deleted; no remote call.
    Delete(i64),
}

/// The call carries the action's record: the projected record for a create,
/// the merged record (with its identifier) for an update, the remote
/// identifier for a delete announcement.
pub open spec fn call_matches(jp: JobPlan, c: ApplyCall) -> bool {
    match jp.plan_type {
        JobPlanType::Create(cr) => c matches ApplyCall::Create(j) && job_like(j, cr),
        JobPlanType::Update(m, _rem) => c matches ApplyCall::Update(j) && job_like(j, m) && j.id
            is Some,
        JobPlanType::Delete(rem) => c matches ApplyCall::Delete(id) && rem.id == Some(id),
    }
}

/// The calls are exactly one per changed job plan, in order; unchanged job
/// plans are skipped entirely.
pub open spec fn apply_calls_match(jobs: Seq<JobPlan>, calls: Seq<ApplyCall>) -> bool
    decreases jobs.len(),
{
    if jobs.len() == 0 {
        calls.len() == 0
    } else if !jp_changed(jobs[0]) {
        apply_calls_match(jobs.drop_first(), calls)
    } else {
        calls.len() >= 1 && call_matches(jobs[0], calls[0]) && apply_calls_match(
            jobs.drop_first(),
            calls.drop_first(),
        )
    }
}

proof fn lemma_apply_match_snoc(
    jobs: Seq<JobPlan>,
    calls: Seq<ApplyCall>,
    jp: JobPlan,
    c: Option<ApplyCall>,
)
    requires
        apply_calls_match(jobs, calls),
        match c {
            Option::Some(call) => jp_changed(jp) && call_matches(jp, call),
            Option::None => !jp_changed(jp),
        },
    ensures
        apply_calls_match(
            jobs.push(jp),
            match c {
                Option::Some(call) => calls.push(call),
                Option::None => calls,
            },
        ),
    decreases jobs.len(),
{
    let calls2 = match c {
        Option::Some(call) => calls.push(call),
        Option::None => calls,
    };
    if jobs.len() == 0 {
        assert(jobs.push(jp)[0] == jp);
        assert(jobs.push(jp).drop_first() =~= Seq::<JobPlan>::empty());
        match c {
            Option::Some(call) => {
                assert(calls2[0] == call);
                assert(calls2.drop_first() =~= Seq::<ApplyCall>::empty());
            },
            Option::None => {},
        }
    } else {
        assert(jobs.push(jp)[0] == jobs[0]);
        assert(jobs.push(jp).drop_first() =~= jobs.drop_first().push(jp));
        if !jp_changed(jobs[0]) {
            lemma_apply_match_snoc(jobs.drop_first(), calls, jp, c);
        } else {
            lemma_apply_match_snoc(jobs.drop_first(), calls.drop_first(), jp, c);
            match c {
                Option::Some(call) => {
                    assert(calls.len() >= 1);
                    assert(calls2[0] == calls[0]);
                    assert(calls2.drop_first() =~= calls.drop_first().push(call));
                },
                Option::None => {},
            }
        }
    }
    assert(apply_calls_match(jobs.push(jp), calls2) == (if jobs.push(jp).len() == 0 {
        calls2.len() == 0
    } else if !jp_changed(jobs.push(jp)[0]) {
        apply_calls_match(jobs.push(jp).drop_first(), calls2)
    } else {
        calls2.len() >= 1 && call_matches(jobs.push(jp)[0], calls2[0]) && apply_calls_match(
            jobs.push(jp).drop_first(),
            calls2.drop_first(),
        )
    }));
    assert(apply_calls_match(jobs.push(jp), calls2));
}

impl JobPlan {
    pub fn has_changes(&self) -> (r: bool)
        ensures
            r == jp_changed(*self),
    {
        self.diff.has_changes()
    }

    /// The display name of the action, for sorting and headers.
    pub fn name(&self) -> (r: &String)
        ensures
            r@ == plan_name(self.plan_type),
    {
        match &self.plan_type {
            JobPlanType::Create(c) => &c.name,
            JobPlanType::Update(_m, rem) => &rem.name,
            JobPlanType::Delete(rem) => &rem.name,
        }
    }

    /// The remote call this job plan asks for: none when it carries no
    /// change; otherwise one call for its action. A changed update or
    /// delete without a remote identifier is an error.
    pub fn apply(&self) -> (r: Result<Option<ApplyCall>, Error>)
        ensures
            r matches Ok(c) ==> match c {
                Option::Some(call) => jp_changed(*self) && call_matches(*self, call),
                Option::None => !jp_changed(*self),
            },
            r is Ok <==> jp_applicable(*self),
            r matches Err(e) ==> e is MissingIdentifier,
    {
        if !self.has_changes() {
            return Result::Ok(Option::None);
        }
        match &self.plan_type {
            JobPlanType::Create(c) => Result::Ok(
                Option::Some(ApplyCall::Create(c.duplicate())),
            ),
            JobPlanType::Update(m, _rem) => {
                match m.id {
                    Option::Some(_id) => Result::Ok(
                        Option::Some(ApplyCall::Update(m.duplicate())),
                    ),
                    Option::None => Result::Err(Error::MissingIdentifier(m.name.clone())),
                }
            },
            JobPlanType::Delete(rem) => {
                match rem.id {
                    Option::Some(id) => Result::Ok(Option::Some(ApplyCall::Delete(id))),
                    Option::None => Result::Err(Error::MissingIdentifier(rem.name.clone())),
                }
            },
        }
    }
}

/// Every changed action of the project carries the identifier it needs.
pub open spec fn pp_applicable(pp: ProjectPlan) -> bool {
    forall|k: int| 0 <= k < pp.jobs@.len() ==> jp_applicable(#[trigger] pp.jobs@[k])
}

/// The calls of a whole plan: a prefix per project, in order.
pub open spec fn plans_apply_match(ps: Seq<ProjectPlan>, calls: Seq<ApplyCall>) -> bool
    decreases ps.len(),
{
    if ps.len() == 0 {
        calls.len() == 0
    } else {
        exists|k: int|
            0 <= k <= calls.len() && #[trigger] apply_calls_match(ps[0].jobs@, calls.take(k))
                && plans_apply_match(ps.drop_first(), calls.skip(k))
    }
}

proof fn lemma_plans_apply_snoc(
    ps: Seq<ProjectPlan>,
    calls: Seq<ApplyCall>,
    pp: ProjectPlan,
    c2: Seq<ApplyCall>,
)
    requires
        plans_apply_match(ps, calls),
        apply_calls_match(pp.jobs@, c2),
    ensures
        plans_apply_match(ps.push(pp), calls + c2),
    decreases ps.len(),
{
    if ps.len() == 0 {
        assert(calls.len() == 0);
        let k = c2.len() as int;
        assert((calls + c2).take(k) =~= c2);
        assert((calls + c2).skip(k) =~= Seq::<ApplyCall>::empty());
        assert(ps.push(pp)[0] == pp);
        assert(ps.push(pp).drop_first() =~= Seq::<ProjectPlan>::empty());
        assert(apply_calls_match(ps.push(pp)[0].jobs@, (calls + c2).take(k)));
        assert(plans_apply_match(ps.push(pp).drop_first(), (calls + c2).skip(k)));
    } else {
        let k = choose|k: int|
            0 <= k <= calls.len() && #[trigger] apply_calls_match(ps[0].jobs@, calls.take(k))
                && plans_apply_match(ps.drop_first(), calls.skip(k));
        lemma_plans_apply_snoc(ps.drop_first(), calls.skip(k), pp, c2);
        assert(ps.push(pp)[0] == ps[0]);
        assert(ps.push(pp).drop_first() =~= ps.drop_first().push(pp));
        assert((calls + c2).take(k) =~= calls.take(k));
        assert(calls.skip(k) + c2 =~= (calls + c2).skip(k));
        assert(apply_calls_match(ps.push(pp)[0].jobs@, (calls + c2).take(k)));
        assert(plans_apply_match(ps.push(pp).drop_first(), (calls + c2).skip(k)));
        assert(0 <= k <= (calls + c2).len());
    }
}

impl ProjectPlan {
    /// The remote calls this project's plan asks for: one per changed job
    /// plan, in order. Fails when a changed update or delete action lacks
    /// its remote identifier.
    pub fn apply(&self) -> (r: Result<Vec<ApplyCall>, Error>)
        ensures
            r matches Ok(calls) ==> apply_calls_match(self.jobs@, calls@),
            r is Ok <==> pp_applicable(*self),
            r matches Err(e) ==> e is MissingIdentifier,
    {
        let mut calls: Vec<ApplyCall> = Vec::new();
        let mut k: usize = 0;
        proof {
            assert(self.jobs@.take(0int) =~= Seq::<JobPlan>::empty());
        }
        while k < self.jobs.len()
            invariant
                0 <= k <= self.jobs@.len(),
                apply_calls_match(self.jobs@.take(k as int), calls@),
                forall|t: int| 0 <= t < k ==> jp_applicable(#[trigger] self.jobs@[t]),
            decreases self.jobs@.len() - k,
        {
            let c = match self.jobs[k].apply() {
                Result::Ok(c) => c,
                Result::Err(e) => {
                    proof {
                        assert(!jp_applicable(self.jobs@[k as int]));
                    }
                    return Result::Err(e);
                },
            };
            let ghost c0 = c;
            let ghost prev = calls@;
            match c {
                Option::Some(call) => {
                    calls.push(call);
                },
                Option::None => {},
            }
            proof {
                lemma_apply_match_snoc(self.jobs@.take(k as int), prev, self.jobs@[k as int], c0);
                assert(self.jobs@.take(k + 1) =~= self.jobs@.take(k as int).push(
                    self.jobs@[k as int],
                ));
            }
            k += 1;
        }
        proof {
            assert(self.jobs@.take(self.jobs@.len() as int) =~= self.jobs@);
        }
        Result::Ok(calls)
    }
}

impl Plan {
    /// The remote calls of the whole plan, project by project. A `Create`
    /// call creates, an `Update` call updates by id, and a `Delete` is an
    /// announcement only: no remote delete is ever issued.
    pub fn apply(&self) -> (r: Result<Vec<ApplyCall>, Error>)
        ensures
            r matches Ok(calls) ==> plans_apply_match(self.projects@, calls@),
            r is Ok <==> (forall|p: int|
                0 <= p < self.projects@.len() ==> pp_applicable(#[trigger] self.projects@[p])),
            r matches Err(e) ==> e is MissingIdentifier,
    {
        let mut calls: Vec<ApplyCall> = Vec::new();
        let mut p: usize = 0;
        proof {
            assert(self.projects@.take(0int) =~= Seq::<ProjectPlan>::empty());
        }
        while p < self.projects.len()
            invariant
                0 <= p <= self.projects@.len(),
                plans_apply_match(self.projects@.take(p as int), calls@),
                forall|t: int| 0 <= t < p ==> pp_applicable(#[trigger] self.projects@[t]),
            decreases self.projects@.len() - p,
        {
            let mut sub = match self.projects[p].apply() {
                Result::Ok(c) => c,
                Result::Err(e) => {
                    return Result::Err(e);
                },
            };
            let ghost prev = calls@;
            let ghost subv = sub@;
            calls.append(&mut sub);
            proof {
                lemma_plans_apply_snoc(
                    self.projects@.take(p as int),
                    prev,
                    self.projects@[p as int],
                    subv,
                );
                assert(self.projects@.take(p + 1) =~= self.projects@.take(p as int).push(
                    self.projects@[p as int],
                ));
            }
            p += 1;
        }
        proof {
            assert(self.projects@.take(self.projects@.len() as int) =~= self.projects@);
        }
        Result::Ok(calls)
    }
}

/// Law: a delete plan whose remote record carries its identifier is always
/// flagged as changed, so it is surfaced in the plan and announced by the
/// apply pass.
pub proof fn lemma_delete_plan_changed(jp: JobPlan)
    requires
        job_plan_diff_ok(jp),
        jp.plan_type matches JobPlanType::Delete(rem) && rem.id is Some,
    ensures
        jp_changed(jp),
{
    if let JobPlanType::Delete(rem) = jp.plan_type {
        let z = choose|d: Job| zero_job(d) && #[trigger] represents_job(jp.diff.remote, d);
        crate::remote::lemma_delete_diff_has_changes(jp.diff.local, jp.diff.remote, rem, z);
    }
}

/// The id shown in a header; empty when the record has none.
pub open spec fn id_text(o: Option<i64>) -> Seq<char> {
    match o {
        Option::Some(id) => spec_int_str(id as int),
        Option::None => Seq::empty(),
    }
}

/// The printed lines of one job plan: nothing when it carries no change;
/// otherwise a header tagged by its action kind, and, for creates and
/// updates, the visible change lines beneath it.
pub open spec fn jp_lines(jp: JobPlan) -> Seq<LineS> {
    if !jp_changed(jp) {
        Seq::empty()
    } else {
        match jp.plan_type {
            JobPlanType::Create(c) => seq![
                LineS { kind: LineKind::Added, text: "+    \""@ + c.name@ + "\" (Computed)"@ },
            ] + change_lines("      "@, changes_view(jp.diff.changes@)),
            JobPlanType::Update(_m, rem) => seq![
                LineS {
                    kind: LineKind::Modified,
                    text: "+/-  \""@ + rem.name@ + "\" ("@ + id_text(rem.id) + ")"@,
                },
            ] + change_lines("      "@, changes_view(jp.diff.changes@)),
            JobPlanType::Delete(rem) => seq![
                LineS {
                    kind: LineKind::Removed,
                    text: "-    \""@ + rem.name@ + "\" ("@ + id_text(rem.id) + ")"@,
                },
            ],
        }
    }
}

/// A changed update or delete can only be shown with its remote identifier.
pub open spec fn jp_renderable(jp: JobPlan) -> bool {
    jp_changed(jp) ==> match jp.plan_type {
        JobPlanType::Create(_c) => true,
        JobPlanType::Update(_m, rem) => rem.id is Some,
        JobPlanType::Delete(rem) => rem.id is Some,
    }
}

impl JobPlan {
    /// The printed lines of this job plan. Fails when a changed update or
    /// delete lacks the remote identifier its header shows.
    pub fn pretty_print(&self) -> (r: Result<Vec<RenderLine>, Error>)
        ensures
            r matches Ok(lines) ==> lines_view(lines@) == jp_lines(*self),
            r is Ok <==> jp_renderable(*self),
            r matches Err(e) ==> e is MissingIdentifier,
    {
        let mut out: Vec<RenderLine> = Vec::new();
        if !self.has_changes() {
            proof {
                assert(lines_view(out@) =~= jp_lines(*self));
            }
            return Result::Ok(out);
        }
        match &self.plan_type {
            JobPlanType::Create(c) => {
                let mut t = String::from_str("+    \"");
                t.append(c.name.as_str());
                t.append("\" (Computed)");
                out.push(RenderLine { kind: LineKind::Added, text: t });
                let mut body = self.diff.pretty_print("      ");
                proof {
                    crate::diff::lemma_lines_view_concat(out@, body@);
                }
                out.append(&mut body);
                proof {
                    assert(lines_view(out@) =~= jp_lines(*self));
                }
                Result::Ok(out)
            },
            JobPlanType::Update(_m, rem) => {
                match rem.id {
                    Option::Some(id) => {
                        let mut t = String::from_str("+/-  \"");
                        t.append(rem.name.as_str());
                        t.append("\" (");
                        let idtxt = crate::strutil::i64_string(id);
                        t.append(idtxt.as_str());
                        t.append(")");
                        out.push(RenderLine { kind: LineKind::Modified, text: t });
                        let mut body = self.diff.pretty_print("      ");
                        proof {
                            crate::diff::lemma_lines_view_concat(out@, body@);
                        }
                        out.append(&mut body);
                        proof {
                            assert(lines_view(out@) =~= jp_lines(*self));
                        }
                        Result::Ok(out)
                    },
                    Option::None => Result::Err(Error::MissingIdentifier(rem.name.clone())),
                }
            },
            JobPlanType::Delete(rem) => {
                match rem.id {
                    Option::Some(id) => {
                        let mut t = String::from_str("-    \"");
                        t.append(rem.name.as_str());
                        t.append("\" (");
                        let idtxt = crate::strutil::i64_string(id);
                        t.append(idtxt.as_str());
                        t.append(")");
                        out.push(RenderLine { kind: LineKind::Removed, text: t });
                        proof {
                            assert(lines_view(out@) =~= jp_lines(*self));
                        }
                        Result::Ok(out)
                    },
                    Option::None => Result::Err(Error::MissingIdentifier(rem.name.clone())),
                }
            },
        }
    }
}

/// Job plans in ascending, case-sensitive order of display name, along an
/// index order.
pub open spec fn is_order(order: Seq<usize>, n: int) -> bool {
    &&& order.len() == n
    &&& forall|i: int| 0 <= i < order.len() ==> (#[trigger] order[i]) < n
    &&& forall|i: int, j: int| 0 <= i < j < order.len() ==> order[i] != order[j]
}

pub open spec fn order_sorted(jobs: Seq<JobPlan>, order: Seq<usize>) -> bool {
    forall|a: int, b: int|
        0 <= a < b < order.len() ==> lex_le(
            plan_name(jobs[(#[trigger] order[a]) as int].plan_type),
            plan_name(jobs[(#[trigger] order[b]) as int].plan_type),
        )
}

/// The printed lines of the job plans visited in the given index order.
pub open spec fn ordered_lines(jobs: Seq<JobPlan>, order: Seq<usize>) -> Seq<LineS>
    decreases order.len(),
{
    if order.len() == 0 {
        Seq::empty()
    } else {
        jp_lines(jobs[order[0] as int]) + ordered_lines(jobs, order.drop_first())
    }
}

proof fn lemma_ordered_lines_snoc(jobs: Seq<JobPlan>, order: Seq<usize>, x: usize)
    ensures
        ordered_lines(jobs, order.push(x)) == ordered_lines(jobs, order) + jp_lines(
            jobs[x as int],
        ),
    decreases order.len(),
{
    let t = order.push(x);
    if order.len() == 0 {
        assert(t[0] == x);
        assert(t.drop_first() =~= Seq::<usize>::empty());
        assert(ordered_lines(jobs, t) == jp_lines(jobs[x as int]) + ordered_lines(
            jobs,
            Seq::<usize>::empty(),
        ));
        assert(jp_lines(jobs[x as int]) + Seq::<LineS>::empty() =~= jp_lines(jobs[x as int]));
        assert(ordered_lines(jobs, order) + jp_lines(jobs[x as int]) =~= jp_lines(
            jobs[x as int],
        ));
    } else {
        assert(t[0] == order[0]);
        assert(t.drop_first() =~= order.drop_first().push(x));
        lemma_ordered_lines_snoc(jobs, order.drop_first(), x);
        assert(ordered_lines(jobs, t) == jp_lines(jobs[order[0] as int]) + (ordered_lines(
            jobs,
            order.drop_first(),
        ) + jp_lines(jobs[x as int])));
        assert(jp_lines(jobs[order[0] as int]) + (ordered_lines(jobs, order.drop_first())
            + jp_lines(jobs[x as int])) =~= (jp_lines(jobs[order[0] as int]) + ordered_lines(
            jobs,
            order.drop_first(),
        )) + jp_lines(jobs[x as int]));
    }
}

/// A sorted arrangement of all job plan indices, ascending by display name.
fn sort_indices(jobs: &Vec<JobPlan>) -> (r: Vec<usize>)
    ensures
        is_order(r@, jobs@.len() as int),
        order_sorted(jobs@, r@),
{
    let n: usize = jobs.len();
    let mut avail: Vec<usize> = Vec::new();
    let mut i: usize = 0;
    while i < n
        invariant
            0 <= i <= n,
            avail@.len() == i,
            forall|t: int| 0 <= t < i ==> (#[trigger] avail@[t]) == t,
        decreases n - i,
    {
        avail.push(i);
        i += 1;
    }
    let mut order: Vec<usize> = Vec::new();
    while avail.len() > 0
        invariant
            n == jobs@.len(),
            order@.len() + avail@.len() == n,
            forall|t: int| 0 <= t < order@.len() ==> (#[trigger] order@[t]) < n,
            forall|t: int| 0 <= t < avail@.len() ==> (#[trigger] avail@[t]) < n,
            forall|a: int, b: int| 0 <= a < b < order@.len() ==> order@[a] != order@[b],
            forall|a: int, b: int| 0 <= a < b < avail@.len() ==> avail@[a] != avail@[b],
            forall|a: int, b: int|
                0 <= a < order@.len() && 0 <= b < avail@.len() ==> (#[trigger] order@[a])
                    != (#[trigger] avail@[b]),
            order_sorted(jobs@, order@),
            forall|a: int, b: int|
                0 <= a < order@.len() && 0 <= b < avail@.len() ==> lex_le(
                    plan_name(jobs@[(#[trigger] order@[a]) as int].plan_type),
                    plan_name(jobs@[(#[trigger] avail@[b]) as int].plan_type),
                ),
        decreases avail@.len(),
    {
        let mut mi: usize = 0;
        let mut t: usize = 1;
        proof {
            crate::strutil::lemma_lex_le_total(
                plan_name(jobs@[avail@[0int] as int].plan_type),
                plan_name(jobs@[avail@[0int] as int].plan_type),
            );
        }
        while t < avail.len()
            invariant
                avail@.len() > 0,
                n == jobs@.len(),
                forall|x: int| 0 <= x < avail@.len() ==> (#[trigger] avail@[x]) < n,
                0 <= mi < avail@.len(),
                1 <= t <= avail@.len(),
                forall|x: int|
                    0 <= x < t ==> lex_le(
                        plan_name(jobs@[avail@[mi as int] as int].plan_type),
                        plan_name(jobs@[(#[trigger] avail@[x]) as int].plan_type),
                    ),
            decreases avail@.len() - t,
        {
            if crate::strutil::str_le(
                jobs[avail[t]].name().as_str(),
                jobs[avail[mi]].name().as_str(),
            ) {
                proof {
                    assert forall|x: int| 0 <= x < t + 1 implies lex_le(
                        plan_name(jobs@[avail@[t as int] as int].plan_type),
                        plan_name(jobs@[(#[trigger] avail@[x]) as int].plan_type),
                    ) by {
                        if x < t {
                            crate::strutil::lemma_lex_le_trans(
                                plan_name(jobs@[avail@[t as int] as int].plan_type),
                                plan_name(jobs@[avail@[mi as int] as int].plan_type),
                                plan_name(jobs@[avail@[x] as int].plan_type),
                            );
                        } else {
                            crate::strutil::lemma_lex_le_total(
                                plan_name(jobs@[avail@[t as int] as int].plan_type),
                                plan_name(jobs@[avail@[t as int] as int].plan_type),
                            );
                        }
                    }
                }
                mi = t;
            } else {
                proof {
                    crate::strutil::lemma_lex_le_total(
                        plan_name(jobs@[avail@[t as int] as int].plan_type),
                        plan_name(jobs@[avail@[mi as int] as int].plan_type),
                    );
                }
            }
            t += 1;
        }
        let ghost before = avail@;
        let chosen = avail.remove(mi);
        let ghost oprev = order@;
        order.push(chosen);
        proof {
            assert(chosen == before[mi as int]);
            assert forall|b: int| 0 <= b < avail@.len() implies (#[trigger] avail@[b])
                == before[if b < mi as int { b } else { b + 1 }] by {}
            assert forall|a: int, b: int|
                0 <= a < b < order@.len() implies order@[a] != order@[b] by {
                if b == order@.len() - 1 {
                    assert(order@[a] == oprev[a]);
                    assert(order@[b] == chosen);
                }
            }
            assert forall|a: int, b: int|
                0 <= a < order@.len() && 0 <= b < avail@.len() implies (#[trigger] order@[a])
                != (#[trigger] avail@[b]) by {
                let bb = if b < mi as int { b } else { b + 1 };
                assert(avail@[b] == before[bb]);
                if a == order@.len() - 1 {
                    assert(order@[a] == chosen);
                }
            }
            assert forall|a: int, b: int|
                0 <= a < b < order@.len() implies lex_le(
                plan_name(jobs@[(#[trigger] order@[a]) as int].plan_type),
                plan_name(jobs@[(#[trigger] order@[b]) as int].plan_type),
            ) by {
                if b == order@.len() - 1 {
                    assert(order@[a] == oprev[a]);
                    assert(order@[b] == chosen);
                }
            }
            assert forall|a: int, b: int|
                0 <= a < order@.len() && 0 <= b < avail@.len() implies lex_le(
                plan_name(jobs@[(#[trigger] order@[a]) as int].plan_type),
                plan_name(jobs@[(#[trigger] avail@[b]) as int].plan_type),
            ) by {
                let bb = if b < mi as int { b } else { b + 1 };
                assert(avail@[b] == before[bb]);
                if a == order@.len() - 1 {
                    assert(order@[a] == chosen);
                    assert(lex_le(
                        plan_name(jobs@[before[mi as int] as int].plan_type),
                        plan_name(jobs@[before[bb] as int].plan_type),
                    ));
                }
            }
        }
    }
    order
}

/// The header of a project: its name, its id, and a blank separator line.
pub open spec fn pp_header(pp: ProjectPlan) -> Seq<LineS> {
    seq![
        LineS {
            kind: LineKind::Plain,
            text: pp.project_name@ + " ("@ + spec_int_str(pp.project_id as int) + "):"@,
        },
        LineS { kind: LineKind::Plain, text: Seq::empty() },
    ]
}

/// The lines are the project's header followed by the lines of its job
/// plans in some name-ascending arrangement of all of them.
pub open spec fn pp_rendered(pp: ProjectPlan, lines: Seq<LineS>) -> bool {
    exists|order: Seq<usize>|
        {
            &&& #[trigger] is_order(order, pp.jobs@.len() as int)
            &&& order_sorted(pp.jobs@, order)
            &&& lines == pp_header(pp) + ordered_lines(pp.jobs@, order)
        }
}

impl ProjectPlan {
    /// The printed lines of this project's plan: the project header, then
    /// the lines of each changed job plan, in ascending order of name.
    /// Succeeds whenever every changed update or delete carries its remote
    /// identifier.
    pub fn pretty_print(&self) -> (r: Result<Vec<RenderLine>, Error>)
        ensures
            r matches Ok(lines) ==> pp_rendered(*self, lines_view(lines@)),
            (forall|k: int|
                0 <= k < self.jobs@.len() ==> jp_renderable(#[trigger] self.jobs@[k])) ==> r
                is Ok,
            r matches Err(e) ==> e is MissingIdentifier,
    {
        let mut out: Vec<RenderLine> = Vec::new();
        let mut header = self.project_name.clone();
        header.append(" (");
        let idtxt = crate::strutil::i64_string(self.project_id);
        header.append(idtxt.as_str());
        header.append("):");
        out.push(RenderLine { kind: LineKind::Plain, text: header });
        out.push(RenderLine { kind: LineKind::Plain, text: String::new() });
        proof {
            assert(lines_view(out@) =~= pp_header(*self));
        }
        let order = sort_indices(&self.jobs);
        let ghost ord = order@;
        let n: usize = order.len();
        let mut k: usize = 0;
        proof {
            assert(ordered_lines(self.jobs@, ord.take(0int)) =~= Seq::<LineS>::empty());
            assert(lines_view(out@) + Seq::<LineS>::empty() =~= lines_view(out@));
        }
        while k < n
            invariant
                0 <= k <= n,
                n == ord.len(),
                ord == order@,
                is_order(ord, self.jobs@.len() as int),
                order_sorted(self.jobs@, ord),
                lines_view(out@) == pp_header(*self) + ordered_lines(
                    self.jobs@,
                    ord.take(k as int),
                ),
            decreases n - k,
        {
            let idx = order[k];
            let mut lines = match self.jobs[idx].pretty_print() {
                Result::Ok(l) => l,
                Result::Err(e) => {
                    proof {
                        assert(!jp_renderable(self.jobs@[ord[k as int] as int]));
                    }
                    return Result::Err(e);
                },
            };
            proof {
                crate::diff::lemma_lines_view_concat(out@, lines@);
                lemma_ordered_lines_snoc(self.jobs@, ord.take(k as int), ord[k as int]);
                assert(ord.take(k + 1) =~= ord.take(k as int).push(ord[k as int]));
            }
            out.append(&mut lines);
            proof {
                assert(lines_view(out@) =~= pp_header(*self) + ordered_lines(
                    self.jobs@,
                    ord.take(k + 1),
                ));
            }
            k += 1;
        }
        proof {
            assert(ord.take(n as int) =~= ord);
        }
        Result::Ok(out)
    }
}

/// The lines of a whole plan: a run of lines per project, in order.
pub open spec fn plans_render_match(ps: Seq<ProjectPlan>, lines: Seq<LineS>) -> bool
    decreases ps.len(),
{
    if ps.len() == 0 {
        lines.len() == 0
    } else {
        exists|k: int|
            0 <= k <= lines.len() && #[trigger] pp_rendered(ps[0], lines.take(k))
                && plans_render_match(ps.drop_first(), lines.skip(k))
    }
}

proof fn lemma_plans_render_snoc(
    ps: Seq<ProjectPlan>,
    lines: Seq<LineS>,
    pp: ProjectPlan,
    l2: Seq<LineS>,
)
    requires
        plans_render_match(ps, lines),
        pp_rendered(pp, l2),
    ensures
        plans_render_match(ps.push(pp), lines + l2),
    decreases ps.len(),
{
    if ps.len() == 0 {
        assert(lines.len() == 0);
        let k = l2.len() as int;
        assert((lines + l2).take(k) =~= l2);
        assert((lines + l2).skip(k) =~= Seq::<LineS>::empty());
        assert(ps.push(pp)[0] == pp);
        assert(ps.push(pp).drop_first() =~= Seq::<ProjectPlan>::empty());
        assert(pp_rendered(ps.push(pp)[0], (lines + l2).take(k)));
        assert(plans_render_match(ps.push(pp).drop_first(), (lines + l2).skip(k)));
    } else {
        let k = choose|k: int|
            0 <= k <= lines.len() && #[trigger] pp_rendered(ps[0], lines.take(k))
                && plans_render_match(ps.drop_first(), lines.skip(k));
        lemma_plans_render_snoc(ps.drop_first(), lines.skip(k), pp, l2);
        assert(ps.push(pp)[0] == ps[0]);
        assert(ps.push(pp).drop_first() =~= ps.drop_first().push(pp));
        assert((lines + l2).take(k) =~= lines.take(k));
        assert(lines.skip(k) + l2 =~= (lines + l2).skip(k));
        assert(pp_rendered(ps.push(pp)[0], (lines + l2).take(k)));
        assert(plans_render_match(ps.push(pp).drop_first(), (lines + l2).skip(k)));
        assert(0 <= k <= (lines + l2).len());
    }
}

impl Plan {
    /// The printed lines of the whole plan, project by project. Succeeds
    /// whenever every changed update or delete in every project carries its
    /// remote identifier.
    pub fn pretty_print(&self) -> (r: Result<Vec<RenderLine>, Error>)
        ensures
            r matches Ok(lines) ==> plans_render_match(self.projects@, lines_view(lines@)),
            (forall|p: int, k: int|
                0 <= p < self.projects@.len() && 0 <= k < self.projects@[p].jobs@.len()
                    ==> jp_renderable(#[trigger] self.projects@[p].jobs@[k])) ==> r is Ok,
            r matches Err(e) ==> e is MissingIdentifier,
    {
        let mut out: Vec<RenderLine> = Vec::new();
        let mut p: usize = 0;
        proof {
            assert(self.projects@.take(0int) =~= Seq::<ProjectPlan>::empty());
        }
        while p < self.projects.len()
            invariant
                0 <= p <= self.projects@.len(),
                plans_render_match(self.projects@.take(p as int), lines_view(out@)),
            decreases self.projects@.len() - p,
        {
            let mut lines = match self.projects[p].pretty_print() {
                Result::Ok(l) => l,
                Result::Err(e) => {
                    proof {
                        assert(!(forall|k: int|
                            0 <= k < self.projects@[p as int].jobs@.len() ==> jp_renderable(
                                #[trigger] self.projects@[p as int].jobs@[k],
                            )));
                    }
                    return Result::Err(e);
                },
            };
            let ghost prev = out@;
            let ghost sub = lines@;
            out.append(&mut lines);
            proof {
                crate::diff::lemma_lines_view_concat(prev, sub);
                lemma_plans_render_snoc(
                    self.projects@.take(p as int),
                    lines_view(prev),
                    self.projects@[p as int],
                    lines_view(sub),
                );
                assert(self.projects@.take(p + 1) =~= self.projects@.take(p as int).push(
                    self.projects@[p as int],
                ));
            }
            p += 1;
        }
        proof {
            assert(self.projects@.take(self.projects@.len() as int) =~= self.projects@);
        }
        Result::Ok(out)
    }
}

/// The run context scoped to one project.
pub open spec fn scoped(config: Config, pid: i64) -> Config {
    Config { project_id: Some(pid), ..config }
}

impl ProjectPlan {
    /// The plan is the classification of the projected desired jobs against
    /// the remote records, each action carrying its diff.
    pub open spec fn well_formed(
        self,
        name: Seq<char>,
        project: Project,
        remote_jobs: Seq<Job>,
        config: Config,
        envs: Seq<(String, Environment)>,
    ) -> bool {
        &&& self.project_id == project.id
        &&& self.project_name@ == name
        &&& exists|pj: Seq<Job>, entries: Seq<(String, JobPlanType)>|
            {
                &&& #[trigger] projected_post(project.jobs@, scoped(config, project.id), envs, pj)
                &&& #[trigger] classify_post(pj, remote_jobs, entries)
                &&& self.jobs@.len() == entries.len()
                &&& forall|k: int|
                    0 <= k < entries.len() ==> (#[trigger] self.jobs@[k]).plan_type == entries[k].1
                        && job_plan_diff_ok(self.jobs@[k])
            }
    }

    /// Builds the plan for one project from its desired jobs and the remote
    /// records fetched for it.
    pub fn from(
        name: String,
        project: Project,
        remote_jobs: Vec<Job>,
        config: &Config,
        environments: &Vec<(String, Environment)>,
    ) -> (r: Result<ProjectPlan, Error>)
        ensures
            r matches Ok(pp) ==> pp.well_formed(
                name@,
                project,
                remote_jobs@,
                *config,
                environments@,
            ),
            r is Ok <==> all_envs_resolve(project.jobs@, environments@),
            r matches Err(e) ==> e is ConfigReference,
    {
        let local_config = config.with_project_id(project.id);
        let ghost jobs0 = project.jobs@;
        let projected_jobs = match project_jobs(project.jobs, &local_config, environments) {
            Result::Ok(p) => p,
            Result::Err(e) => {
                return Result::Err(e);
            },
        };
        proof {
            assert forall|i: int|
                0 <= i < jobs0.len() implies projected(
                (#[trigger] jobs0[i]).0@,
                jobs0[i].1,
                scoped(*config, project.id),
                environments@,
                projected_jobs@[i],
            ) by {
                assert(projected(
                    jobs0[i].0@,
                    jobs0[i].1,
                    local_config,
                    environments@,
                    projected_jobs@[i],
                ));
            }
        }
        let ghost pj = projected_jobs@;
        let entries = determine_job_plan_types_by_name(projected_jobs, remote_jobs);
        let ghost ent = entries@;
        let jobs = build_job_plans(entries);
        let pp = ProjectPlan { project_id: project.id, project_name: name, jobs };
        proof {
            assert(projected_post(jobs0, scoped(*config, project.id), environments@, pj));
            assert(classify_post(pj, remote_jobs@, ent));
        }
        Result::Ok(pp)
    }

    /// True when any job plan in the project carries a change.
    pub open spec fn spec_has_changes(self) -> bool {
        exists|k: int|
            0 <= k < self.jobs@.len() && spec_has_changes(
                changes_view((#[trigger] self.jobs@[k]).diff.changes@),
            )
    }

    pub fn has_changes(&self) -> (r: bool)
        ensures
            r == self.spec_has_changes(),
    {
        let mut k: usize = 0;
        while k < self.jobs.len()
            invariant
                0 <= k <= self.jobs@.len(),
                forall|t: int|
                    0 <= t < k ==> !spec_has_changes(
                        changes_view((#[trigger] self.jobs@[t]).diff.changes@),
                    ),
            decreases self.jobs@.len() - k,
        {
            if self.jobs[k].has_changes() {
                return true;
            }
            k += 1;
        }
        false
    }
}

impl Plan {
    /// One project plan per configured project, in order, each well formed
    /// against its own remote records.
    pub open spec fn well_formed(self, yaml: Root, remotes: Seq<Vec<Job>>, config: Config) -> bool {
        &&& self.projects@.len() == yaml.projects@.len()
        &&& forall|p: int|
            0 <= p < yaml.projects@.len() ==> (#[trigger] self.projects@[p]).well_formed(
                yaml.projects@[p].0@,
                yaml.projects@[p].1,
                remotes[p]@,
                config,
                yaml.environments@,
            )
    }

    /// Builds the full plan: one project plan per project, against the
    /// remote records fetched for that project (given in the same order).
    pub fn from(yaml: Root, remote_jobs_by_project: Vec<Vec<Job>>, config: &Config) -> (r: Result<
        Plan,
        Error,
    >)
        requires
            remote_jobs_by_project@.len() == yaml.projects@.len(),
        ensures
            r matches Ok(p) ==> p.well_formed(yaml, remote_jobs_by_project@, *config),
            r is Ok <==> (forall|p: int|
                0 <= p < yaml.projects@.len() ==> all_envs_resolve(
                    (#[trigger] yaml.projects@[p]).1.jobs@,
                    yaml.environments@,
                )),
            r matches Err(e) ==> e is ConfigReference,
    {
        let ghost projs = yaml.projects@;
        let ghost rems = remote_jobs_by_project@;
        let mut pin = yaml.projects;
        let mut rin = remote_jobs_by_project;
        let mut out: Vec<ProjectPlan> = Vec::new();
        let n: usize = pin.len();
        let mut i: usize = 0;
        proof {
            assert(pin@ =~= projs.skip(0int));
            assert(rin@ =~= rems.skip(0int));
        }
        while i < n
            invariant
                0 <= i <= n,
                n == projs.len(),
                rems.len() == projs.len(),
                projs == yaml.projects@,
                rems == remote_jobs_by_project@,
                pin@ == projs.skip(i as int),
                rin@ == rems.skip(i as int),
                out@.len() == i,
                forall|p: int|
                    0 <= p < i ==> (#[trigger] out@[p]).well_formed(
                        projs[p].0@,
                        projs[p].1,
                        rems[p]@,
                        *config,
                        yaml.environments@,
                    ),
                forall|p: int|
                    0 <= p < i ==> all_envs_resolve(
                        (#[trigger] projs[p]).1.jobs@,
                        yaml.environments@,
                    ),
            decreases n - i,
        {
            let (pname, project) = pin.remove(0);
            let remote = rin.remove(0);
            proof {
                assert(projs.skip(i as int)[0] == projs[i as int]);
                assert(projs.skip(i as int).remove(0int) =~= projs.skip(i + 1));
                assert(rems.skip(i as int)[0] == rems[i as int]);
                assert(rems.skip(i as int).remove(0int) =~= rems.skip(i + 1));
            }
            match ProjectPlan::from(pname, project, remote, config, &yaml.environments) {
                Result::Ok(pp) => {
                    out.push(pp);
                },
                Result::Err(e) => {
                    proof {
                        assert(!all_envs_resolve((projs[i as int]).1.jobs@, yaml.environments@));
                        assert(!(forall|p: int|
                            0 <= p < projs.len() ==> all_envs_resolve(
                                (#[trigger] projs[p]).1.jobs@,
                                yaml.environments@,
                            )));
                    }
                    return Result::Err(e);
                },
            }
            i += 1;
        }
        Result::Ok(Plan { projects: out })
    }

    /// True when any contained job plan carries a change.
    pub open spec fn spec_has_changes(self) -> bool {
        exists|p: int|
            0 <= p < self.projects@.len() && (#[trigger] self.projects@[p]).spec_has_changes()
    }

    pub fn has_changes(&self) -> (r: bool)
        ensures
            r == self.spec_has_changes(),
    {
        let mut p: usize = 0;
        while p < self.projects.len()
            invariant
                0 <= p <= self.projects@.len(),
                forall|t: int| 0 <= t < p ==> !(#[trigger] self.projects@[t]).spec_has_changes(),
            decreases self.projects@.len() - p,
        {
            if self.projects[p].has_changes() {
                return true;
            }
            p += 1;
        }
        false
    }
}

} // verus!
