use chunkstore::durability::DurabilityManager;
use chunkstore::UploadError;

#[test]
fn overlapping_requests_coalesce_into_one_sync() {
    let mut manager = DurabilityManager::new();
    assert!(manager.request_sync(), "nothing in flight: a sync is issued");
    assert!(!manager.request_sync(), "coalesced into the in-flight sync");
    assert!(!manager.request_sync());
    assert_eq!(manager.sync_completed(true), None);
    assert!(manager.request_sync(), "after completion a new sync is issued");
}

#[test]
fn failed_sync_is_a_diagnostic_not_a_job_failure() {
    let mut manager = DurabilityManager::new();
    manager.request_sync();
    let diagnostic = manager.sync_completed(false);
    assert_eq!(diagnostic, Some(UploadError::SyncFailure));
    assert!(!diagnostic.unwrap().is_fatal_to_job());
}
