use ferri_log::cache::{Cache, MemCache};
use ferri_log::errors::RepositoryError;
use ferri_log::pipeline::{plan_for, EventKind, EventPlan, IngestionPipeline};
use ferri_log::repository::{LogRepository, MemLogRepo};

fn line(ts: &str, message: &str) -> String {
    format!(
        r#"{{"timestamp":"{}","host":"web1","severity":"err","facility":"cron","syslog_tag":"tag","source":"sshd","message":"{}"}}"#,
        ts, message
    )
}

fn fresh_pipeline() -> IngestionPipeline<MemCache, MemLogRepo> {
    IngestionPipeline::new(MemCache::new(), MemLogRepo::new())
}

#[test]
fn event_kinds_map_to_plans() {
    assert_eq!(plan_for(EventKind::Modify), EventPlan::IngestPaths);
    assert_eq!(plan_for(EventKind::Remove), EventPlan::PurgeCursors);
    assert_eq!(plan_for(EventKind::Other), EventPlan::Ignore);
}

#[test]
fn ingests_a_batch_and_advances_the_cursor_by_bytes() {
    let mut p = fresh_pipeline();

    let offset = p.begin_file_change("/var/log/app.log").unwrap();
    assert_eq!(offset, 0);

    let data = format!(
        "{}\n\n{}\n",
        line("2023-01-01T00:00:00Z", "first"),
        line("2023-01-01T00:00:01Z", "s\\u00e9cond")
    );
    p.apply_file_change("/var/log/app.log", offset, &data).unwrap();

    let logs = p.log_repo.get_all_logs().unwrap();
    assert_eq!(logs.len(), 2);
    assert_eq!(logs[0].message, "first");
    assert_eq!(logs[1].message, "s\u{e9}cond");
    assert_eq!(logs[0].timestamp, 1_672_531_200_000_000i64);

    let cursor = p.cache.get("/var/log/app.log").unwrap();
    assert_eq!(cursor, data.len() as u64);
}

#[test]
fn replaying_an_already_advanced_batch_ingests_nothing() {
    let mut p = fresh_pipeline();

    let data = format!("{}\n", line("2023-01-01T00:00:00Z", "only"));
    let offset = p.begin_file_change("/var/log/app.log").unwrap();
    p.apply_file_change("/var/log/app.log", offset, &data).unwrap();
    let advanced = p.cache.get("/var/log/app.log").unwrap();
    assert_eq!(advanced, data.len() as u64);

    let replay_offset = p.begin_file_change("/var/log/app.log").unwrap();
    assert_eq!(replay_offset, advanced);
    p.apply_file_change("/var/log/app.log", replay_offset, "").unwrap();

    assert_eq!(p.log_repo.get_all_logs().unwrap().len(), 1);
    assert_eq!(p.cache.get("/var/log/app.log").unwrap(), advanced);
}

#[test]
fn removal_deletes_the_cursor_and_restarts_at_zero() {
    let mut p = fresh_pipeline();

    let data = format!("{}\n", line("2023-01-01T00:00:00Z", "only"));
    let offset = p.begin_file_change("/tmp/f.log").unwrap();
    p.apply_file_change("/tmp/f.log", offset, &data).unwrap();
    assert!(p.cache.get("/tmp/f.log").unwrap() > 0);

    p.on_files_delete(&vec!["/tmp/f.log".to_string()]).unwrap();
    assert_eq!(p.cache.get("/tmp/f.log").unwrap_err(), RepositoryError::NotFound);

    let restarted = p.begin_file_change("/tmp/f.log").unwrap();
    assert_eq!(restarted, 0);
}

#[test]
fn deleting_an_unseen_path_is_not_an_error() {
    let mut p = fresh_pipeline();
    p.on_files_delete(&vec!["/nope".to_string(), "/also/nope".to_string()]).unwrap();
}

#[test]
fn a_malformed_line_aborts_the_batch_and_keeps_the_cursor() {
    let mut p = fresh_pipeline();

    let offset = p.begin_file_change("/tmp/f.log").unwrap();
    let data = format!("{}\nnot a record\n", line("2023-01-01T00:00:00Z", "kept"));
    let err = p.apply_file_change("/tmp/f.log", offset, &data).unwrap_err();
    assert_eq!(err, RepositoryError::MalformedRecord);

    // The cursor did not advance past the failed batch ...
    assert_eq!(p.cache.get("/tmp/f.log").unwrap(), 0);
    // ... while the valid line before the failure stays persisted: a
    // permitted duplicate on retry, never a loss.
    let logs = p.log_repo.get_all_logs().unwrap();
    assert_eq!(logs.len(), 1);
    assert_eq!(logs[0].message, "kept");

    let retry_offset = p.begin_file_change("/tmp/f.log").unwrap();
    assert_eq!(retry_offset, 0);
}

#[test]
fn a_bad_timestamp_aborts_the_batch() {
    let mut p = fresh_pipeline();
    let offset = p.begin_file_change("/tmp/f.log").unwrap();
    let data = line("not-a-time", "m");
    assert_eq!(
        p.apply_file_change("/tmp/f.log", offset, &data).unwrap_err(),
        RepositoryError::InvalidTimestamp
    );
    assert_eq!(p.cache.get("/tmp/f.log").unwrap(), 0);
    assert_eq!(p.log_repo.get_all_logs().unwrap().len(), 0);
}

#[test]
fn multibyte_text_advances_by_byte_length() {
    let mut p = fresh_pipeline();
    let offset = p.begin_file_change("/tmp/f.log").unwrap();
    let data = format!("{}\n", line("2023-01-01T00:00:00Z", "caf\u{e9} \u{2028}"));
    assert!(data.len() > data.chars().count());
    p.apply_file_change("/tmp/f.log", offset, &data).unwrap();
    assert_eq!(p.cache.get("/tmp/f.log").unwrap(), data.len() as u64);
}
