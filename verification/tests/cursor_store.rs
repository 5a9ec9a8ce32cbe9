use ferri_log::cache::{Cache, MemCache};
use ferri_log::errors::RepositoryError;
use ferri_log::repository::{BlacklistRepository, MemBlacklistRepo};

#[test]
fn get_on_an_unseen_path_is_not_found() {
    let cache = MemCache::new();
    assert_eq!(cache.get("/var/log/syslog").unwrap_err(), RepositoryError::NotFound);
}

#[test]
fn set_establishes_and_does_not_overwrite() {
    let mut cache = MemCache::new();
    assert_eq!(cache.set("/a", 10).unwrap(), true);
    assert_eq!(cache.get("/a").unwrap(), 10);
    // A second set on a seen path declines and changes nothing.
    assert_eq!(cache.set("/a", 99).unwrap(), false);
    assert_eq!(cache.get("/a").unwrap(), 10);
}

#[test]
fn update_is_idempotent_under_retry() {
    let mut cache = MemCache::new();
    cache.set("/a", 0).unwrap();
    cache.update("/a", 42).unwrap();
    assert_eq!(cache.get("/a").unwrap(), 42);
    // Reapplying the same offset is a no-op.
    cache.update("/a", 42).unwrap();
    assert_eq!(cache.get("/a").unwrap(), 42);
}

#[test]
fn update_of_an_unseen_path_is_not_found() {
    let mut cache = MemCache::new();
    assert_eq!(cache.update("/a", 1).unwrap_err(), RepositoryError::NotFound);
}

#[test]
fn del_reports_how_many_entries_went() {
    let mut cache = MemCache::new();
    cache.set("/a", 7).unwrap();
    assert_eq!(cache.del("/a").unwrap(), 1);
    assert_eq!(cache.del("/a").unwrap(), 0);
    assert_eq!(cache.get("/a").unwrap_err(), RepositoryError::NotFound);
}

#[test]
fn cursors_are_independent_per_path() {
    let mut cache = MemCache::new();
    cache.set("/a", 1).unwrap();
    cache.set("/b", 2).unwrap();
    cache.del("/a").unwrap();
    assert_eq!(cache.get("/b").unwrap(), 2);
}

#[test]
fn blacklist_lookup_by_props() {
    let mut blk = MemBlacklistRepo::new();
    blk.create_entry(1, "sshd", "cron", "Failed password").unwrap();

    let found = blk
        .get_entry_by_props("sshd".into(), "cron".into(), "Failed password".into())
        .unwrap();
    assert_eq!(found.id, 1);

    let missing = blk.get_entry_by_props("sshd".into(), "mail".into(), "Failed password".into());
    assert_eq!(missing.unwrap_err(), RepositoryError::NotFound);

    let by_id = blk.get_entry_by_id(1).unwrap();
    assert_eq!(by_id.message, "Failed password");
    assert_eq!(blk.get_entry_by_id(2).unwrap_err(), RepositoryError::NotFound);
}
