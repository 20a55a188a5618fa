use archivum::storage::StorageStep::{
    Commit, DecodeValue, EncodeKey, EncodeValue, OpenDatabase, OpenStore, OpenTransaction, Read,
    Write,
};
use archivum::storage::{
    get_db, step_is_coding, sync_state_key, IndexedDbBlobStorage, IndexedDbBlobStorageError,
    IndexedDbMetadataStorage, IndexedDbMetadataStorageError, Progress, StepOutcome, StorageOp,
    StorageStep, TransactionMode,
};

#[test]
fn the_database_has_three_stores() {
    let layout = get_db();
    assert_eq!(layout.name, "archivum");
    assert_eq!(layout.version, 1);
    assert_eq!(layout.stores, vec!["events", "meta", "blobs"]);
    assert_eq!(sync_state_key(), "sync_state");
}

#[test]
fn each_operation_has_its_store_and_mode() {
    assert_eq!(StorageOp::StoreBlob.store_name(), "blobs");
    assert_eq!(StorageOp::RetrieveBlob.store_name(), "blobs");
    assert_eq!(StorageOp::SaveEvent.store_name(), "events");
    assert_eq!(StorageOp::LoadEvent.store_name(), "events");
    assert_eq!(StorageOp::SaveSyncState.store_name(), "meta");
    assert_eq!(StorageOp::LoadSyncState.store_name(), "meta");
    assert_eq!(StorageOp::StoreBlob.mode(), TransactionMode::ReadWrite);
    assert_eq!(StorageOp::SaveEvent.mode(), TransactionMode::ReadWrite);
    assert_eq!(StorageOp::SaveSyncState.mode(), TransactionMode::ReadWrite);
    assert_eq!(StorageOp::RetrieveBlob.mode(), TransactionMode::ReadOnly);
    assert_eq!(StorageOp::LoadEvent.mode(), TransactionMode::ReadOnly);
    assert_eq!(StorageOp::LoadSyncState.mode(), TransactionMode::ReadOnly);
}

#[test]
fn each_operation_has_its_steps() {
    assert_eq!(
        StorageOp::StoreBlob.steps(),
        vec![OpenDatabase, OpenTransaction, OpenStore, EncodeKey, Write, Commit]
    );
    assert_eq!(
        StorageOp::RetrieveBlob.steps(),
        vec![OpenDatabase, OpenTransaction, OpenStore, EncodeKey, Read]
    );
    assert_eq!(
        StorageOp::SaveEvent.steps(),
        vec![OpenDatabase, OpenTransaction, OpenStore, EncodeKey, EncodeValue, Write, Commit]
    );
    assert_eq!(
        StorageOp::LoadEvent.steps(),
        vec![OpenDatabase, OpenTransaction, OpenStore, EncodeKey, Read, DecodeValue]
    );
    assert_eq!(
        StorageOp::SaveSyncState.steps(),
        vec![OpenDatabase, OpenTransaction, OpenStore, EncodeValue, Write, Commit]
    );
    assert_eq!(
        StorageOp::LoadSyncState.steps(),
        vec![OpenDatabase, OpenTransaction, OpenStore, Read, DecodeValue]
    );
    assert!(step_is_coding(EncodeKey));
    assert!(step_is_coding(EncodeValue));
    assert!(step_is_coding(DecodeValue));
    assert!(!step_is_coding(Write));
    assert!(!step_is_coding(OpenDatabase));
}

#[test]
fn storing_a_blob_goes_step_by_step() {
    assert!(matches!(
        IndexedDbBlobStorage::store_blob(0, StepOutcome::Done),
        Progress::Next(StorageStep::OpenTransaction)
    ));
    assert!(matches!(
        IndexedDbBlobStorage::store_blob(3, StepOutcome::Done),
        Progress::Next(StorageStep::Write)
    ));
    assert!(matches!(IndexedDbBlobStorage::store_blob(5, StepOutcome::Done), Progress::Finished));
    assert!(matches!(IndexedDbBlobStorage::store_blob(6, StepOutcome::Done), Progress::Finished));
    match IndexedDbBlobStorage::store_blob(0, StepOutcome::Failed("no db".to_string())) {
        Progress::Failed(IndexedDbBlobStorageError::IndexedDbError(m)) => assert_eq!(m, "no db"),
        other => panic!("unexpected {:?}", other),
    }
    match IndexedDbBlobStorage::store_blob(3, StepOutcome::Failed("bad key".to_string())) {
        Progress::Failed(IndexedDbBlobStorageError::SerializationError(m)) => assert_eq!(m, "bad key"),
        other => panic!("unexpected {:?}", other),
    }
    match IndexedDbBlobStorage::store_blob(4, StepOutcome::Failed("quota".to_string())) {
        Progress::Failed(IndexedDbBlobStorageError::IndexedDbError(m)) => assert_eq!(m, "quota"),
        other => panic!("unexpected {:?}", other),
    }
}

#[test]
fn a_blob_that_is_not_there_is_not_found() {
    assert!(matches!(
        IndexedDbBlobStorage::retrieve_blob(4, StepOutcome::Missing),
        Progress::Failed(IndexedDbBlobStorageError::NotFound)
    ));
    assert!(matches!(IndexedDbBlobStorage::retrieve_blob(4, StepOutcome::Done), Progress::Finished));
    assert!(matches!(
        IndexedDbBlobStorage::retrieve_blob(2, StepOutcome::Done),
        Progress::Next(StorageStep::EncodeKey)
    ));
}

#[test]
fn storage_failures_read_as_lines() {
    assert_eq!(
        IndexedDbBlobStorageError::IndexedDbError("x".to_string()).message(),
        "IndexedDb error: x"
    );
    assert_eq!(
        IndexedDbBlobStorageError::SerializationError("y".to_string()).message(),
        "Serialization error: y"
    );
    assert_eq!(IndexedDbBlobStorageError::NotFound.message(), "Blob not found");
    assert_eq!(
        IndexedDbMetadataStorageError::IndexedDbError("x".to_string()).message(),
        "IndexedDb error: x"
    );
    assert_eq!(
        IndexedDbMetadataStorageError::SerializationError("y".to_string()).message(),
        "Serialization error: y"
    );
    assert!(matches!(
        IndexedDbMetadataStorageError::at(StorageStep::DecodeValue, "z".to_string()),
        IndexedDbMetadataStorageError::SerializationError(_)
    ));
    assert!(matches!(
        IndexedDbBlobStorageError::at(StorageStep::Commit, "z".to_string()),
        IndexedDbBlobStorageError::IndexedDbError(_)
    ));
}

#[test]
fn saving_and_loading_events_goes_step_by_step() {
    assert!(matches!(
        IndexedDbMetadataStorage::save_event(3, StepOutcome::Done),
        Progress::Next(StorageStep::EncodeValue)
    ));
    assert!(matches!(IndexedDbMetadataStorage::save_event(6, StepOutcome::Done), Progress::Finished));
    match IndexedDbMetadataStorage::save_event(4, StepOutcome::Failed("cyclic".to_string())) {
        Progress::Failed(IndexedDbMetadataStorageError::SerializationError(m)) => assert_eq!(m, "cyclic"),
        other => panic!("unexpected {:?}", other),
    }
    match IndexedDbMetadataStorage::save_event(5, StepOutcome::Failed("quota".to_string())) {
        Progress::Failed(IndexedDbMetadataStorageError::IndexedDbError(m)) => assert_eq!(m, "quota"),
        other => panic!("unexpected {:?}", other),
    }
    assert!(matches!(
        IndexedDbMetadataStorage::load_event(4, StepOutcome::Done),
        Progress::Next(StorageStep::DecodeValue)
    ));
    // an event that is not there is absent, which is no failure
    assert!(matches!(
        IndexedDbMetadataStorage::load_event(4, StepOutcome::Missing),
        Progress::Absent
    ));
    match IndexedDbMetadataStorage::load_event(4, StepOutcome::Failed("Event x not found".to_string())) {
        Progress::Failed(IndexedDbMetadataStorageError::IndexedDbError(m)) => {
            assert_eq!(m, "Event x not found")
        },
        other => panic!("unexpected {:?}", other),
    }
    match IndexedDbMetadataStorage::load_event(5, StepOutcome::Failed("shape".to_string())) {
        Progress::Failed(IndexedDbMetadataStorageError::SerializationError(m)) => assert_eq!(m, "shape"),
        other => panic!("unexpected {:?}", other),
    }
}

#[test]
fn a_missing_cursor_is_the_default_cursor() {
    assert!(matches!(
        IndexedDbMetadataStorage::load_sync_state(3, StepOutcome::Missing),
        Progress::Absent
    ));
    assert!(matches!(
        IndexedDbMetadataStorage::load_sync_state(3, StepOutcome::Done),
        Progress::Next(StorageStep::DecodeValue)
    ));
    assert!(matches!(
        IndexedDbMetadataStorage::load_sync_state(4, StepOutcome::Done),
        Progress::Finished
    ));
    assert!(matches!(
        IndexedDbMetadataStorage::save_sync_state(3, StepOutcome::Done),
        Progress::Next(StorageStep::Write)
    ));
    match IndexedDbMetadataStorage::save_sync_state(3, StepOutcome::Failed("nan".to_string())) {
        Progress::Failed(IndexedDbMetadataStorageError::SerializationError(m)) => assert_eq!(m, "nan"),
        other => panic!("unexpected {:?}", other),
    }
}
