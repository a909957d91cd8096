use dbterra::config::Config;
use dbterra::diff::{Change, Diff, LineKind};
use dbterra::error::Error;
use dbterra::local::{Environment, Job as LocalJob, Project, Root, Schedule as LocalSchedule, CI};
use dbterra::plan::{
    determine_job_plan_types_by_name, ApplyCall, JobPlan, JobPlanType, Plan, ProjectPlan,
};
use dbterra::remote::{filter_jobs_for_project, Job as RemoteJob};
use dbterra::value::{render_value, Value};

fn config() -> Config {
    Config {
        account_id: 123,
        token: "abc123".to_string(),
        project_id: Some(456),
        base_url: "https://cloud.getdbt.com".to_string(),
    }
}

fn environments() -> Vec<(String, Environment)> {
    vec![("prod".to_string(), Environment { id: 10 })]
}

fn local_job(schedule: Option<&str>) -> LocalJob {
    LocalJob {
        steps: vec!["dbt run".to_string()],
        environment: "prod".to_string(),
        target: "production".to_string(),
        name: None,
        timeout: None,
        threads: None,
        ci: None,
        schedule: schedule.map(|c| LocalSchedule {
            cron: c.to_string(),
        }),
        generate_docs: None,
        defer_to_job_id: None,
        defer_to_env_id: None,
    }
}

fn projected(key: &str, job: LocalJob) -> RemoteJob {
    RemoteJob::from_local_job(key, job, &config(), &environments()).unwrap()
}

#[test]
fn diff_of_a_record_with_itself_is_all_unchanged() {
    let job = projected("daily_run", local_job(Some("0 3 * * *")));
    let d = job.diff(&job);
    assert!(!d.has_changes());
    assert!(!d.changes.is_empty());
    for c in &d.changes {
        assert!(matches!(c, Change::Unchanged(_, _)));
    }
}

#[test]
fn null_baseline_reports_added_not_modified() {
    let a = Value::Object(vec![("a".to_string(), Value::Null)]);
    let b = Value::Object(vec![("a".to_string(), Value::Int(1))]);
    let d = Diff::from(a, b);
    assert_eq!(
        d.changes,
        vec![Change::Added("a".to_string(), "1".to_string())]
    );

    // the same collapse on a record field: an absent optional flag gaining a value
    let remote = projected("daily_run", local_job(None));
    let mut with_flag = local_job(None);
    with_flag.ci = Some(CI {
        run_on_pr: None,
        custom_branch_only: Some(true),
    });
    let desired = projected("daily_run", with_flag);
    let d = remote.diff(&desired.merge(&remote));
    assert!(d.changes.contains(&Change::Added(
        "triggers.custom_branch_only".to_string(),
        "true".to_string()
    )));
    for c in &d.changes {
        if let Change::Modified(k, _, _) = c {
            assert_ne!(k, "triggers.custom_branch_only");
        }
    }
}

#[test]
fn create_style_diff_never_modifies() {
    let desired = projected("daily_run", local_job(Some("0 3 * * *")));
    let d = RemoteJob::default().new_diff(&desired);
    assert!(d.has_changes());
    // from the zero-value placeholder, every entry is an addition or unchanged
    for c in &d.changes {
        assert!(matches!(c, Change::Added(_, _) | Change::Unchanged(_, _)));
    }
}

#[test]
fn plain_diff_renders_values() {
    let a = Value::Object(vec![("n".to_string(), Value::Int(1))]);
    let b = Value::Object(vec![("n".to_string(), Value::Int(2))]);
    let d = Diff::from(a, b);
    assert_eq!(
        d.changes,
        vec![Change::Modified(
            "n".to_string(),
            "1".to_string(),
            "2".to_string()
        )]
    );
}

#[test]
fn rendered_values_are_compact() {
    assert_eq!(render_value(&Value::Int(-42)), "-42");
    assert_eq!(render_value(&Value::Null), "null");
    assert_eq!(render_value(&Value::Bool(true)), "true");
    assert_eq!(render_value(&Value::Str("a\"b".to_string())), "\"a\\\"b\"");
    assert_eq!(
        render_value(&Value::Array(vec![Value::Int(1), Value::Int(2)])),
        "[1,2]"
    );
    assert_eq!(
        render_value(&Value::Object(vec![(
            "k".to_string(),
            Value::Str("v".to_string())
        )])),
        "{\"k\":\"v\"}"
    );
}

#[test]
fn classifier_partitions_by_name() {
    let mut a = local_job(None);
    a.name = Some("A".to_string());
    let mut b = local_job(None);
    b.name = Some("B".to_string());
    let locals = vec![projected("a", a), projected("b", b)];
    let mut remote_b = locals[1].clone();
    remote_b.id = Some(2);
    let mut c = local_job(None);
    c.name = Some("C".to_string());
    let mut remote_c = projected("c", c);
    remote_c.id = Some(3);
    let remotes = vec![remote_b, remote_c];

    let entries = determine_job_plan_types_by_name(locals, remotes);
    assert_eq!(entries.len(), 3);
    assert_eq!(entries[0].0, "A");
    assert!(matches!(entries[0].1, JobPlanType::Create(_)));
    assert_eq!(entries[1].0, "B");
    match &entries[1].1 {
        JobPlanType::Update(merged, remote) => {
            assert_eq!(merged.id, Some(2));
            assert_eq!(remote.id, Some(2));
        }
        other => panic!("expected an update, got {:?}", other),
    }
    assert_eq!(entries[2].0, "C");
    match &entries[2].1 {
        JobPlanType::Delete(remote) => assert_eq!(remote.id, Some(3)),
        other => panic!("expected a delete, got {:?}", other),
    }
}

#[test]
fn plan_for_new_job_is_one_create() {
    let yaml = Root {
        account: None,
        projects: vec![(
            "analytics".to_string(),
            Project {
                id: 456,
                jobs: vec![("daily_run".to_string(), local_job(Some("0 3 * * *")))],
            },
        )],
        environments: environments(),
    };
    let plan = Plan::from(yaml, vec![vec![]], &config()).unwrap();
    assert!(plan.has_changes());
    assert_eq!(plan.projects.len(), 1);
    assert_eq!(plan.projects[0].project_name, "analytics");
    assert_eq!(plan.projects[0].project_id, 456);
    assert_eq!(plan.projects[0].jobs.len(), 1);
    match &plan.projects[0].jobs[0].plan_type {
        JobPlanType::Create(j) => assert_eq!(j.name, "Daily Run"),
        other => panic!("expected a create, got {:?}", other),
    }
    let calls = plan.apply().unwrap();
    assert_eq!(calls.len(), 1);
    match &calls[0] {
        ApplyCall::Create(j) => assert_eq!(j.name, "Daily Run"),
        other => panic!("expected a create call, got {:?}", other),
    }
}

#[test]
fn plan_for_changed_threads_is_one_update() {
    let mut desired = local_job(Some("0 3 * * *"));
    desired.threads = Some(8);
    let mut old = local_job(Some("0 3 * * *"));
    old.threads = Some(4);
    let mut remote = projected("daily_run", old);
    remote.id = Some(77);

    let yaml = Root {
        account: None,
        projects: vec![(
            "analytics".to_string(),
            Project {
                id: 456,
                jobs: vec![("daily_run".to_string(), desired)],
            },
        )],
        environments: environments(),
    };
    let plan = Plan::from(yaml, vec![vec![remote]], &config()).unwrap();
    assert!(plan.has_changes());
    let jp = &plan.projects[0].jobs[0];
    match &jp.plan_type {
        JobPlanType::Update(merged, remote) => {
            assert_eq!(merged.id, Some(77));
            assert_eq!(remote.id, Some(77));
        }
        other => panic!("expected an update, got {:?}", other),
    }
    let interesting: Vec<&Change> = jp
        .diff
        .changes
        .iter()
        .filter(|c| !matches!(c, Change::Unchanged(_, _)))
        .collect();
    assert_eq!(
        interesting,
        vec![&Change::Modified(
            "settings.threads".to_string(),
            "4".to_string(),
            "8".to_string()
        )]
    );
    let lines = plan.pretty_print().unwrap();
    assert!(lines
        .iter()
        .any(|l| l.text.contains("settings.threads") && l.text.contains("4 -> 8")));
    let calls = plan.apply().unwrap();
    assert_eq!(calls.len(), 1);
    match &calls[0] {
        ApplyCall::Update(j) => assert_eq!(j.id, Some(77)),
        other => panic!("expected an update call, got {:?}", other),
    }
}

#[test]
fn remote_only_job_is_a_delete_announcement() {
    let mut legacy = local_job(None);
    legacy.name = Some("Legacy".to_string());
    let mut remote = projected("legacy", legacy);
    remote.id = Some(9);
    let yaml = Root {
        account: None,
        projects: vec![(
            "analytics".to_string(),
            Project {
                id: 456,
                jobs: vec![],
            },
        )],
        environments: environments(),
    };
    let plan = Plan::from(yaml, vec![vec![remote]], &config()).unwrap();
    assert!(plan.has_changes());
    assert!(matches!(
        plan.projects[0].jobs[0].plan_type,
        JobPlanType::Delete(_)
    ));
    let calls = plan.apply().unwrap();
    assert_eq!(calls.len(), 1);
    assert!(matches!(calls[0], ApplyCall::Delete(9)));
}

#[test]
fn unchanged_job_is_skipped_entirely() {
    let desired = local_job(Some("0 3 * * *"));
    let mut remote = projected("daily_run", local_job(Some("0 3 * * *")));
    remote.id = Some(5);
    let yaml = Root {
        account: None,
        projects: vec![(
            "analytics".to_string(),
            Project {
                id: 456,
                jobs: vec![("daily_run".to_string(), desired)],
            },
        )],
        environments: environments(),
    };
    let plan = Plan::from(yaml, vec![vec![remote]], &config()).unwrap();
    assert!(!plan.has_changes());
    assert_eq!(plan.apply().unwrap().len(), 0);
}

#[test]
fn schedule_internal_changes_flag_but_do_not_show() {
    let desired = local_job(Some("0 3 * * *"));
    let mut remote = projected("daily_run", local_job(Some("0 3 * * *")));
    remote.id = Some(5);
    remote.schedule.time.interval = Some(2);
    // an hour list on the remote side disappears under the declared schedule:
    // a removal at a suppressed path, hidden like any other schedule-internal change
    remote.schedule.time.hours = Some(vec![1, 2]);
    let yaml = Root {
        account: None,
        projects: vec![(
            "analytics".to_string(),
            Project {
                id: 456,
                jobs: vec![("daily_run".to_string(), desired)],
            },
        )],
        environments: environments(),
    };
    let plan = Plan::from(yaml, vec![vec![remote]], &config()).unwrap();
    assert!(plan.has_changes());
    let jp = &plan.projects[0].jobs[0];
    let lines = jp.pretty_print().unwrap();
    // the header is printed, but the schedule-internal detail is suppressed
    assert_eq!(lines.len(), 1);
    assert!(lines[0].text.contains("Daily Run"));
    let details = jp.diff.pretty_print("      ");
    assert!(details.is_empty());
}

#[test]
fn rendered_plan_sorts_jobs_by_name() {
    let mut beta = local_job(None);
    beta.name = Some("Beta".to_string());
    let mut alpha = local_job(None);
    alpha.name = Some("Alpha".to_string());
    let project = Project {
        id: 456,
        jobs: vec![
            ("b".to_string(), beta),
            ("a".to_string(), alpha),
        ],
    };
    let pp = ProjectPlan::from(
        "analytics".to_string(),
        project,
        vec![],
        &config(),
        &environments(),
    )
    .unwrap();
    let lines = pp.pretty_print().unwrap();
    assert!(lines[0].text.starts_with("analytics (456):"));
    assert_eq!(lines[0].kind, LineKind::Plain);
    assert_eq!(lines[1].text, "");
    let alpha_pos = lines.iter().position(|l| l.text.contains("Alpha")).unwrap();
    let beta_pos = lines.iter().position(|l| l.text.contains("Beta")).unwrap();
    assert!(alpha_pos < beta_pos);
}

#[test]
fn update_without_identifier_is_an_error() {
    let a = projected("daily_run", local_job(None));
    let mut b = projected("daily_run", local_job(None));
    b.settings.threads = 8;
    let d = a.diff(&b);
    assert!(d.has_changes());
    let jp = JobPlan {
        plan_type: JobPlanType::Update(b, a),
        diff: d,
    };
    assert!(matches!(jp.apply(), Err(Error::MissingIdentifier(_))));
    assert!(matches!(
        jp.pretty_print(),
        Err(Error::MissingIdentifier(_))
    ));
}

#[test]
fn missing_environment_fails_the_whole_plan() {
    let mut job = local_job(None);
    job.environment = "staging".to_string();
    let yaml = Root {
        account: None,
        projects: vec![(
            "analytics".to_string(),
            Project {
                id: 456,
                jobs: vec![("j".to_string(), job)],
            },
        )],
        environments: environments(),
    };
    let err = Plan::from(yaml, vec![vec![]], &config()).unwrap_err();
    assert!(matches!(err, Error::ConfigReference(ref n) if n == "staging"));
}

#[test]
fn remote_jobs_are_filtered_by_project() {
    let mut a = projected("a", local_job(None));
    a.project_id = 1;
    let mut b = projected("b", local_job(None));
    b.project_id = 2;
    let kept = filter_jobs_for_project(vec![a.clone(), b], 1);
    assert_eq!(kept, vec![a]);
}

#[test]
fn extreme_numbers_render_exactly() {
    assert_eq!(
        render_value(&Value::Int(i64::MIN)),
        "-9223372036854775808"
    );
    assert_eq!(render_value(&Value::Int(i64::MAX)), "9223372036854775807");
    assert_eq!(render_value(&Value::Int(0)), "0");
}

#[test]
fn empty_project_renders_header_only() {
    let pp = ProjectPlan::from(
        "empty".to_string(),
        Project { id: 1, jobs: vec![] },
        vec![],
        &config(),
        &environments(),
    )
    .unwrap();
    assert!(!pp.has_changes());
    let lines = pp.pretty_print().unwrap();
    assert_eq!(lines.len(), 2);
    assert_eq!(lines[0].text, "empty (1):");
    assert_eq!(lines[1].text, "");
}
