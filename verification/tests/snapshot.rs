use gnosis_era::snapshot::{SnapshotCreator, SnapshotError, SnapshotResult};

#[test]
fn creator_builds() {
    let _creator = SnapshotCreator::new();
}

#[test]
fn error_variants_carry_their_context() {
    let io = SnapshotError::Io(String::from("permission denied"));
    assert!(matches!(io, SnapshotError::Io(_)));
    assert_eq!(SnapshotError::DatabaseNotFound, SnapshotError::DatabaseNotFound);
    let failed: SnapshotResult<u64> =
        Err(SnapshotError::ArchiveCreation(String::from("stream closed")));
    assert!(matches!(failed, Err(SnapshotError::ArchiveCreation(_))));
}
