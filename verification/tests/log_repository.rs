use ferri_log::record::{map_record, DiskLogEntryDto};
use ferri_log::repository::{LogRepository, MemLogRepo};

fn sample_dto() -> DiskLogEntryDto {
    DiskLogEntryDto {
        facility: "Repo test".into(),
        host: "localhost".into(),
        message: "Sample message".into(),
        severity: "Info".into(),
        source: "Unit test".into(),
        syslog_tag: "Sample tag".into(),
        timestamp: chrono::Utc::now().to_rfc3339(),
    }
}

#[test]
fn successfully_create_log_entry_in_database() {
    let mut log_repo = MemLogRepo::new();

    let log_dto = sample_dto();
    let entry = map_record(&log_dto).expect("Cannot map log entry");

    let res = log_repo.create_log(entry);

    assert!(res.is_ok());
    assert!(res.unwrap() != 0)
}

#[test]
fn successfully_get_log_entry_from_database() {
    let mut log_repo = MemLogRepo::new();

    let log_dto = sample_dto();
    let entry = map_record(&log_dto).expect("Cannot map log entry");

    let log_entry_id = log_repo
        .create_log(entry)
        .expect("Cannot add log entry to database");

    let log = log_repo.get_log_by_id(log_entry_id);

    assert_eq!(log.unwrap().id, log_entry_id);
}

#[test]
fn successfully_get_all_log_entries_from_database() {
    let mut log_repo = MemLogRepo::new();

    let log_dto_1 = sample_dto();

    let mut log_dto_2 = log_dto_1.clone();
    log_dto_2.facility = "Repo test 2".into();

    let mut log_dto_3 = log_dto_1.clone();
    log_dto_3.facility = "Repo test 3".into();

    let ids = vec![
        log_repo
            .create_log(map_record(&log_dto_1).unwrap())
            .expect("Cannot add log entry to database"),
        log_repo
            .create_log(map_record(&log_dto_2).unwrap())
            .expect("Cannot add log entry to database"),
        log_repo
            .create_log(map_record(&log_dto_3).unwrap())
            .expect("Cannot add log entry to database"),
    ];

    let logs = log_repo.get_all_logs();

    assert_eq!(logs.as_ref().unwrap().len(), 3);

    for (log, id) in logs.unwrap().iter().zip(ids.iter()) {
        assert_eq!(log.id, *id);
    }
}

#[test]
fn successfully_delete_log_entry_from_database() {
    let mut log_repo = MemLogRepo::new();

    let log_dto_1 = sample_dto();

    let id = log_repo.create_log(map_record(&log_dto_1).unwrap()).unwrap();
    let log = log_repo.get_log_by_id(id).unwrap();
    log_repo.delete_log(log.id).unwrap();

    assert!(log_repo.get_log_by_id(id).is_err());
}
