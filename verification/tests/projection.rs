use dbterra::config::Config;
use dbterra::error::Error;
use dbterra::local::{Environment, Job as LocalJob, Schedule as LocalSchedule, CI};
use dbterra::remote::{Date, Execution, Job as RemoteJob, Schedule, Settings, Time, Triggers};
use dbterra::utils::captialize_short_words;

fn base_config() -> Config {
    Config {
        account_id: 123,
        token: "abc123".to_string(),
        project_id: Some(456),
        base_url: "https://cloud.getdbt.com".to_string(),
    }
}

fn base_environments() -> Vec<(String, Environment)> {
    vec![("test".to_string(), Environment { id: 789 })]
}

fn base_local_job() -> LocalJob {
    LocalJob {
        steps: vec!["dbt run".to_string()],
        environment: "test".to_string(),
        target: "production".to_string(),
        name: None,
        timeout: None,
        threads: None,
        ci: None,
        schedule: None,
        generate_docs: None,
        defer_to_job_id: None,
        defer_to_env_id: None,
    }
}

#[test]
fn defaults() {
    let config = base_config();
    let environments = base_environments();
    let local_job = base_local_job();
    let expected_remote = RemoteJob {
        id: None,
        account_id: config.account_id,
        project_id: config.project_id.unwrap(),
        environment_id: 789,
        name: "Test".to_string(), // converted from key
        dbt_version: None,
        triggers: Triggers {
            github_webhook: false,
            git_provider_webhook: false,
            schedule: false,
            custom_branch_only: None,
        },
        execute_steps: vec!["dbt run".to_string()],
        settings: Settings {
            threads: 4,
            target_name: "production".to_string(),
        },
        state: 1,
        generate_docs: false,
        deferring_job_definition_id: None,
        deferring_environment_id: None,
        schedule: Schedule {
            cron: "0/10 * * * *".to_string(),
            date: Date {
                type_field: "custom_cron".to_string(),
                cron: Some("0/10 * * * *".to_string()),
                days: None,
            },
            time: Time {
                type_field: "every_hour".to_string(),
                interval: Some(1),
                hours: None,
            },
        },
        execution: Execution { timeout_seconds: 0 },
    };
    assert_eq!(
        RemoteJob::from_local_job("test", local_job, &config, &environments).unwrap(),
        expected_remote
    );
}

#[test]
fn key() {
    let config = base_config();
    let environments = base_environments();
    let local_job = base_local_job();
    let converted_job = RemoteJob::from_local_job(
        "test_some_snake_case_thing",
        local_job,
        &config,
        &environments,
    )
    .unwrap();
    assert_eq!(&converted_job.name, "Test Some Snake Case Thing");
}

#[test]
fn key_is_overridden() {
    let config = base_config();
    let environments = base_environments();
    let mut local_job = base_local_job();
    local_job.name = Some("My Test Job".to_string());
    let converted_job = RemoteJob::from_local_job(
        "test_some_snake_case_thing",
        local_job,
        &config,
        &environments,
    )
    .unwrap();
    assert_eq!(&converted_job.name, "My Test Job");
}

#[test]
fn short_words_become_acronyms() {
    let config = base_config();
    let environments = base_environments();
    let local_job = base_local_job();
    let converted = RemoteJob::from_local_job("ml_features", local_job, &config, &environments)
        .unwrap();
    assert_eq!(&converted.name, "ML Features");
}

#[test]
fn kebab_keys_derive_names_too() {
    let config = base_config();
    let environments = base_environments();
    let converted = RemoteJob::from_local_job(
        "kebab-case-key",
        base_local_job(),
        &config,
        &environments,
    )
    .unwrap();
    assert_eq!(&converted.name, "Kebab Case Key");
}

#[test]
fn capitalize_short_words_only() {
    assert_eq!(captialize_short_words("Ml Features"), "ML Features");
    assert_eq!(captialize_short_words("Alpha db x"), "Alpha DB X");
    assert_eq!(captialize_short_words(""), "");
}

#[test]
fn schedule_encoding_is_exact() {
    let s = Schedule::cron("0 9 * * 1");
    assert_eq!(s.cron, "0 9 * * 1");
    assert_eq!(s.date.type_field, "custom_cron");
    assert_eq!(s.date.cron, Some("0 9 * * 1".to_string()));
    assert_eq!(s.date.days, None);
    assert_eq!(s.time.type_field, "every_hour");
    assert_eq!(s.time.interval, Some(1));
    assert_eq!(s.time.hours, None);
}

#[test]
fn declared_schedule_sets_trigger() {
    let config = base_config();
    let environments = base_environments();
    let mut local_job = base_local_job();
    local_job.schedule = Some(LocalSchedule {
        cron: "0 9 * * 1".to_string(),
    });
    local_job.ci = Some(CI {
        run_on_pr: Some(true),
        custom_branch_only: Some(true),
    });
    let converted = RemoteJob::from_local_job("j", local_job, &config, &environments).unwrap();
    assert!(converted.triggers.schedule);
    assert!(converted.triggers.github_webhook);
    assert_eq!(converted.triggers.custom_branch_only, Some(true));
    assert_eq!(converted.schedule.cron, "0 9 * * 1");
    assert_eq!(converted.schedule.date.cron, Some("0 9 * * 1".to_string()));
}

#[test]
fn missing_environment_is_fatal() {
    let config = base_config();
    let environments = base_environments();
    let mut local_job = base_local_job();
    local_job.environment = "prod".to_string();
    let err = RemoteJob::from_local_job("j", local_job, &config, &environments).unwrap_err();
    assert!(matches!(err, Error::ConfigReference(ref n) if n == "prod"));
}

#[test]
fn merge_keeps_remote_id_and_schedule() {
    let config = base_config();
    let environments = base_environments();
    let desired =
        RemoteJob::from_local_job("daily", base_local_job(), &config, &environments).unwrap();
    let mut remote = desired.clone();
    remote.id = Some(42);
    remote.schedule = Schedule::cron("15 6 * * *");
    // no schedule declared locally: the remote's schedule survives the merge
    let merged = desired.merge(&remote);
    assert_eq!(merged.id, Some(42));
    assert_eq!(merged.schedule, remote.schedule);
    assert_eq!(merged.name, desired.name);

    // a declared schedule wins over the remote's
    let mut with_schedule = base_local_job();
    with_schedule.schedule = Some(LocalSchedule {
        cron: "0 3 * * *".to_string(),
    });
    let desired2 =
        RemoteJob::from_local_job("daily", with_schedule, &config, &environments).unwrap();
    let merged2 = desired2.merge(&remote);
    assert_eq!(merged2.id, Some(42));
    assert_eq!(merged2.schedule.cron, "0 3 * * *");
}
