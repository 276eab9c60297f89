use fastsql2json::config::{AppConfig, Config, DatabaseConfig};
use fastsql2json::errors::{FatalError, TaskError};
use fastsql2json::file_handler::FileHandler;
use fastsql2json::json_generator::{ResultGroup, SqlValue};
use fastsql2json::pipeline::{
    tally_outcomes, FileTask, StageAction, StageEvent, TaskOutcome,
};
use fs2::FileExt;

fn sample_config() -> Config {
    Config {
        database: DatabaseConfig {
            host: "localhost".to_string(),
            port: 3306,
            user: "test_user".to_string(),
            password: "test_pass".to_string(),
            database: "test_db".to_string(),
        },
        app: AppConfig {
            start_dir: "./test_sql".to_string(),
        },
        file_intervals: Some(vec![("./test_sql/query1.sql".to_string(), 60)]),
    }
}

#[test]
fn interval_lookup_matches_exact_path() {
    let config = sample_config();
    assert_eq!(config.get_interval("./test_sql/query1.sql"), Some(60));
    assert_eq!(config.get_interval("./test_sql/query2.sql"), None);
}

#[test]
fn missing_interval_map_means_none() {
    let mut config = sample_config();
    config.file_intervals = None;
    assert_eq!(config.get_interval("./test_sql/query1.sql"), None);
}

#[test]
fn staleness_rules() {
    let handler = FileHandler::new();
    // No output: always regenerate, whatever the interval.
    assert!(handler.should_update(false, None, 1000, None));
    assert!(handler.should_update(false, None, 1000, Some(60)));
    // Output exists but no interval configured: always regenerate.
    assert!(handler.should_update(true, Some(1000), 1000, None));
    // Fresh output inside the interval: keep it.
    let now: u64 = 100_000;
    assert!(!handler.should_update(true, Some(now - 600), now, Some(60)));
    // Exactly at the boundary: still fresh (staleness needs strictly more).
    assert!(!handler.should_update(true, Some(now - 3600), now, Some(60)));
    // One second past the boundary: regenerate.
    assert!(handler.should_update(true, Some(now - 3601), now, Some(60)));
    // An unreadable modification time counts as very old.
    assert!(handler.should_update(true, None, now, Some(60)));
}

#[test]
fn json_path_derivation() {
    let handler = FileHandler::new();
    assert_eq!(handler.sql_to_json_path("test.sql"), "test.json");
    assert_eq!(handler.sql_to_json_path("a/b.sql"), "a/b.json");
    assert_eq!(handler.sql_to_json_path("dir.d/noext"), "dir.d/noext.json");
    assert_eq!(handler.sql_to_json_path("a/.hidden"), "a/.hidden.json");
}

#[test]
fn dot_components_name_no_output() {
    let handler = FileHandler::new();
    // `.` and `..` have no file stem: the output path stays unchanged.
    assert_eq!(handler.sql_to_json_path(".."), "..");
    assert_eq!(handler.sql_to_json_path("a/.."), "a/..");
    assert_eq!(handler.sql_to_json_path("."), ".");
}

#[test]
fn lock_sidecar_path() {
    let handler = FileHandler::new();
    assert_eq!(handler.lock_path("dir/kpi.sql"), "dir/kpi.sql.lock");
}

#[test]
fn verify_written_detects_mismatch() {
    let handler = FileHandler::new();
    assert!(handler.verify_written("{\"a\": 1}", "{\"a\": 1}"));
    assert!(!handler.verify_written("{\"a\": 1}", "{\"a\": 2}"));
    assert!(!handler.verify_written("{\"a\": 1}", "{\"a\": 1} "));
}

#[test]
fn fresh_output_skips_query_and_write() {
    let now: u64 = 1_000_000;
    let mut task = FileTask::new("report.sql".to_string(), Some(60));
    let a = task.advance(StageEvent::Started);
    assert!(matches!(a, StageAction::CheckStaleness));
    let a = task.advance(StageEvent::OutputStat {
        exists: true,
        last_modified: Some(now - 600),
        now,
    });
    assert!(matches!(a, StageAction::Finish(TaskOutcome::Fresh)));
}

#[test]
fn stale_file_runs_to_completion() {
    let mut task = FileTask::new("queries/kpi.sql".to_string(), None);
    let a = task.advance(StageEvent::Started);
    assert!(matches!(a, StageAction::CheckStaleness));
    let a = task.advance(StageEvent::OutputStat {
        exists: false,
        last_modified: None,
        now: 42,
    });
    assert!(matches!(a, StageAction::AcquireLock));
    let a = task.advance(StageEvent::LockAcquired);
    assert!(matches!(a, StageAction::RunQuery));
    let groups = vec![ResultGroup {
        columns: vec!["id".to_string(), "name".to_string()],
        rows: vec![vec![SqlValue::Int(1), SqlValue::Text("a".to_string())]],
    }];
    let a = task.advance(StageEvent::QueryRows { groups });
    match a {
        StageAction::WriteOutput(path, content) => {
            assert_eq!(path, "queries/kpi.json");
            let v: serde_json::Value = serde_json::from_str(&content).unwrap();
            let rows = v.get("kpi").unwrap().as_array().unwrap();
            assert_eq!(rows[0].get("id").unwrap().as_i64().unwrap(), 1);
            assert_eq!(rows[0].get("name").unwrap().as_str().unwrap(), "a");
        }
        _ => panic!("expected a write"),
    }
    let a = task.advance(StageEvent::WriteDone);
    assert!(matches!(a, StageAction::Finish(TaskOutcome::Completed)));
}

#[test]
fn query_failure_is_local_to_its_file() {
    let mut task = FileTask::new("bad.sql".to_string(), None);
    task.advance(StageEvent::Started);
    task.advance(StageEvent::OutputStat {
        exists: false,
        last_modified: None,
        now: 0,
    });
    task.advance(StageEvent::LockAcquired);
    let a = task.advance(StageEvent::QueryFailed {
        detail: "syntax error near FROM".to_string(),
    });
    match a {
        StageAction::Finish(TaskOutcome::Failed(err)) => {
            assert_eq!(err.category(), "QueryExecutionError");
            assert!(!err.is_benign_skip());
            match err {
                TaskError::QueryExecution { file, detail } => {
                    assert_eq!(file, "bad.sql");
                    assert_eq!(detail, "syntax error near FROM");
                }
                _ => panic!("wrong error"),
            }
        }
        _ => panic!("expected a failure outcome"),
    }
    // The run goes on: a failed file only adds to the failure count.
    let outcomes = vec![
        TaskOutcome::Completed,
        TaskOutcome::Failed(TaskError::QueryExecution {
            file: "bad.sql".to_string(),
            detail: "syntax error near FROM".to_string(),
        }),
        TaskOutcome::Completed,
    ];
    let summary = tally_outcomes(&outcomes);
    assert_eq!(summary.completed, 2);
    assert_eq!(summary.failed, 1);
    assert_eq!(summary.fresh, 0);
    assert_eq!(summary.locked, 0);
}

#[test]
fn busy_lock_is_a_benign_skip() {
    let mut task = FileTask::new("shared.sql".to_string(), None);
    task.advance(StageEvent::Started);
    task.advance(StageEvent::OutputStat {
        exists: false,
        last_modified: None,
        now: 0,
    });
    let a = task.advance(StageEvent::LockBusy);
    assert!(matches!(a, StageAction::Finish(TaskOutcome::SkippedLocked)));
    let skip = TaskError::LockUnavailable {
        file: "shared.sql".to_string(),
    };
    assert!(skip.is_benign_skip());
    assert_eq!(skip.category(), "LockUnavailableError");
}

#[test]
fn write_mismatch_is_an_integrity_error() {
    let mut task = FileTask::new("x.sql".to_string(), None);
    task.advance(StageEvent::Started);
    task.advance(StageEvent::OutputStat {
        exists: false,
        last_modified: None,
        now: 0,
    });
    task.advance(StageEvent::LockAcquired);
    task.advance(StageEvent::QueryRows { groups: vec![] });
    let a = task.advance(StageEvent::WriteMismatch);
    match a {
        StageAction::Finish(TaskOutcome::Failed(err)) => {
            assert_eq!(err.category(), "IntegrityError");
        }
        _ => panic!("expected an integrity failure"),
    }
}

#[test]
fn exclusive_lock_admits_one_holder() {
    let first = tempfile::NamedTempFile::new().unwrap();
    let second = first.reopen().unwrap();
    first.as_file().try_lock_exclusive().unwrap();
    // The second, non-blocking attempt must fail at once.
    assert!(second.try_lock_exclusive().is_err());
    fs2::FileExt::unlock(first.as_file()).unwrap();
    // Once released, the lock can be taken again.
    assert!(second.try_lock_exclusive().is_ok());
}

#[test]
fn stat_failure_is_an_io_error() {
    let mut task = FileTask::new("y.sql".to_string(), Some(5));
    task.advance(StageEvent::Started);
    let a = task.advance(StageEvent::StatFailed {
        detail: "permission denied".to_string(),
    });
    match a {
        StageAction::Finish(TaskOutcome::Failed(err)) => {
            assert_eq!(err.category(), "IOError");
            match err {
                TaskError::Io { file, detail } => {
                    assert_eq!(file, "y.sql");
                    assert_eq!(detail, "permission denied");
                }
                _ => panic!("wrong error"),
            }
        }
        _ => panic!("expected an I/O failure"),
    }
}

#[test]
fn fatal_error_categories() {
    let c = FatalError::Configuration {
        detail: "missing field".to_string(),
    };
    assert_eq!(c.category(), "ConfigurationError");
    let d = FatalError::DatabaseConnect {
        detail: "connection refused".to_string(),
    };
    assert_eq!(d.category(), "DatabaseConnectError");
}
