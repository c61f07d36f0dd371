use chunkstore::catalog::Catalog;
use chunkstore::UploadError;

#[test]
fn delete_removes_exactly_that_entry() {
    let mut catalog = Catalog::new();
    catalog.record(String::from("alpha.bin"), 100);
    catalog.record(String::from("beta.bin"), 2_500_000);
    catalog.record(String::from("gamma.bin"), 42);

    let r = catalog.delete(&String::from("beta.bin"));
    assert!(r.is_ok());

    assert_eq!(catalog.size_of(&String::from("beta.bin")), None);
    // Every other entry keeps its presence and its size.
    assert_eq!(catalog.size_of(&String::from("alpha.bin")), Some(100));
    assert_eq!(catalog.size_of(&String::from("gamma.bin")), Some(42));
    assert_eq!(catalog.list().len(), 2);
}

#[test]
fn deleting_an_absent_name_fails_and_changes_nothing() {
    let mut catalog = Catalog::new();
    catalog.record(String::from("alpha.bin"), 100);

    let r = catalog.delete(&String::from("missing.bin"));
    assert_eq!(r, Err(UploadError::DeleteFailure));
    assert_eq!(catalog.size_of(&String::from("alpha.bin")), Some(100));
    assert_eq!(catalog.list().len(), 1);
}

#[test]
fn recording_an_existing_name_replaces_its_size() {
    let mut catalog = Catalog::new();
    catalog.record(String::from("alpha.bin"), 100);
    catalog.record(String::from("alpha.bin"), 900);
    assert_eq!(catalog.size_of(&String::from("alpha.bin")), Some(900));
    assert_eq!(catalog.list().len(), 1);
}

#[test]
fn listing_reports_names_and_sizes() {
    let mut catalog = Catalog::new();
    catalog.record(String::from("one"), 1);
    catalog.record(String::from("two"), 2);
    let listed = catalog.list();
    assert_eq!(listed.len(), 2);
    assert_eq!(listed[0].name, "one");
    assert_eq!(listed[0].size, 1);
    assert_eq!(listed[1].name, "two");
    assert_eq!(listed[1].size, 2);
}

#[test]
fn error_fatality_follows_the_taxonomy() {
    assert!(UploadError::CreateFailure.is_fatal_to_job());
    assert!(UploadError::ReadFailure.is_fatal_to_job());
    assert!(UploadError::WriteFailure.is_fatal_to_job());
    assert!(UploadError::FlushFailure.is_fatal_to_job());
    assert!(!UploadError::SyncFailure.is_fatal_to_job());
    assert!(!UploadError::DeleteFailure.is_fatal_to_job());
}

#[test]
fn errors_describe_themselves() {
    assert_eq!(UploadError::SyncFailure.describe(), "durability sync failed");
    assert_eq!(UploadError::DeleteFailure.describe(), "failed to delete the file");
}
