//! The browser database that keeps events, the sync cursor and blobs: its
//! layout, the steps of each operation on it, and what the outcome of each
//! step means.

use vstd::prelude::*;
use vstd::string::StringExecFns;

verus! {

/// How the database is laid out.
#[derive(Debug)]
pub struct DatabaseLayout {
    pub name: String,
    pub version: u32,
    pub stores: Vec<String>,
}

/// The layout of the database: its name, its version and its three object
/// stores.
pub fn get_db() -> (layout: DatabaseLayout)
    ensures
        layout.name@ == "archivum"@,
        layout.version == 1,
        layout.stores@.len() == 3,
        layout.stores@[0]@ == "events"@,
        layout.stores@[1]@ == "meta"@,
        layout.stores@[2]@ == "blobs"@,
{
    let mut stores: Vec<String> = Vec::new();
    stores.push(String::from_str("events"));
    stores.push(String::from_str("meta"));
    stores.push(String::from_str("blobs"));
    DatabaseLayout { name: String::from_str("archivum"), version: 1, stores }
}

/// Whether a transaction only reads.
#[derive(Clone, Copy, Debug, PartialEq, Eq, Structural)]
pub enum TransactionMode {
    ReadOnly,
    ReadWrite,
}

/// One step of an operation on the database.
#[derive(Clone, Copy, Debug, PartialEq, Eq, Structural)]
pub enum StorageStep {
    OpenDatabase,
    OpenTransaction,
    OpenStore,
    EncodeKey,
    EncodeValue,
    Write,
    Read,
    Commit,
    DecodeValue,
}

/// The operations on the database.
#[derive(Clone, Copy, Debug, PartialEq, Eq, Structural)]
pub enum StorageOp {
    StoreBlob,
    RetrieveBlob,
    SaveEvent,
    LoadEvent,
    SaveSyncState,
    LoadSyncState,
}

/// How a step ended.
#[derive(Debug)]
pub enum StepOutcome {
    /// The step did its work.
    Done,
    /// A read found nothing under the key.
    Missing,
    /// The step failed, with the words of whatever failed.
    Failed(String),
}

/// What to do after a step.
#[derive(Debug)]
pub enum Progress<E> {
    /// Take this step next.
    Next(StorageStep),
    /// The operation is complete.
    Finished,
    /// The operation is complete and found nothing under the key. That is no
    /// failure.
    Absent,
    /// The operation failed.
    Failed(E),
}

impl StorageOp {
    /// The steps of the operation, in order.
    pub open spec fn plan(self) -> Seq<StorageStep> {
        match self {
            StorageOp::StoreBlob => seq![
                StorageStep::OpenDatabase,
                StorageStep::OpenTransaction,
                StorageStep::OpenStore,
                StorageStep::EncodeKey,
                StorageStep::Write,
                StorageStep::Commit,
            ],
            StorageOp::RetrieveBlob => seq![
                StorageStep::OpenDatabase,
                StorageStep::OpenTransaction,
                StorageStep::OpenStore,
                StorageStep::EncodeKey,
                StorageStep::Read,
            ],
            StorageOp::SaveEvent => seq![
                StorageStep::OpenDatabase,
                StorageStep::OpenTransaction,
                StorageStep::OpenStore,
                StorageStep::EncodeKey,
                StorageStep::EncodeValue,
                StorageStep::Write,
                StorageStep::Commit,
            ],
            StorageOp::LoadEvent => seq![
                StorageStep::OpenDatabase,
                StorageStep::OpenTransaction,
                StorageStep::OpenStore,
                StorageStep::EncodeKey,
                StorageStep::Read,
                StorageStep::DecodeValue,
            ],
            StorageOp::SaveSyncState => seq![
                StorageStep::OpenDatabase,
                StorageStep::OpenTransaction,
                StorageStep::OpenStore,
                StorageStep::EncodeValue,
                StorageStep::Write,
                StorageStep::Commit,
            ],
            StorageOp::LoadSyncState => seq![
                StorageStep::OpenDatabase,
                StorageStep::OpenTransaction,
                StorageStep::OpenStore,
                StorageStep::Read,
                StorageStep::DecodeValue,
            ],
        }
    }

    /// The steps of the operation, in order.
    pub fn steps(self) -> (v: Vec<StorageStep>)
        ensures
            v@ == self.plan(),
    {
        let mut v: Vec<StorageStep> = Vec::new();
        v.push(StorageStep::OpenDatabase);
        v.push(StorageStep::OpenTransaction);
        v.push(StorageStep::OpenStore);
        match self {
            StorageOp::StoreBlob => {
                v.push(StorageStep::EncodeKey);
                v.push(StorageStep::Write);
                v.push(StorageStep::Commit);
            },
            StorageOp::RetrieveBlob => {
                v.push(StorageStep::EncodeKey);
                v.push(StorageStep::Read);
            },
            StorageOp::SaveEvent => {
                v.push(StorageStep::EncodeKey);
                v.push(StorageStep::EncodeValue);
                v.push(StorageStep::Write);
                v.push(StorageStep::Commit);
            },
            StorageOp::LoadEvent => {
                v.push(StorageStep::EncodeKey);
                v.push(StorageStep::Read);
                v.push(StorageStep::DecodeValue);
            },
            StorageOp::SaveSyncState => {
                v.push(StorageStep::EncodeValue);
                v.push(StorageStep::Write);
                v.push(StorageStep::Commit);
            },
            StorageOp::LoadSyncState => {
                v.push(StorageStep::Read);
                v.push(StorageStep::DecodeValue);
            },
        }
        assert(v@ =~= self.plan());
        v
    }

    /// The object store that the operation works on.
    pub fn store_name(self) -> (s: &'static str)
        ensures
            s@ == match self {
                StorageOp::StoreBlob | StorageOp::RetrieveBlob => "blobs"@,
                StorageOp::SaveEvent | StorageOp::LoadEvent => "events"@,
                StorageOp::SaveSyncState | StorageOp::LoadSyncState => "meta"@,
            },
    {
        match self {
            StorageOp::StoreBlob | StorageOp::RetrieveBlob => "blobs",
            StorageOp::SaveEvent | StorageOp::LoadEvent => "events",
            StorageOp::SaveSyncState | StorageOp::LoadSyncState => "meta",
        }
    }

    /// Whether the operation's transaction writes.
    pub fn mode(self) -> (m: TransactionMode)
        ensures
            m == match self {
                StorageOp::StoreBlob | StorageOp::SaveEvent | StorageOp::SaveSyncState =>
                    TransactionMode::ReadWrite,
                _ => TransactionMode::ReadOnly,
            },
    {
        match self {
            StorageOp::StoreBlob | StorageOp::SaveEvent | StorageOp::SaveSyncState =>
                TransactionMode::ReadWrite,
            _ => TransactionMode::ReadOnly,
        }
    }
}

/// The key under which the sync cursor is kept in the `meta` store.
pub fn sync_state_key() -> (s: &'static str)
    ensures
        s@ == "sync_state"@,
{
    "sync_state"
}

/// A step that turns a value into what the database stores, or back.
pub open spec fn is_coding(step: StorageStep) -> bool {
    step == StorageStep::EncodeKey || step == StorageStep::EncodeValue || step
        == StorageStep::DecodeValue
}

/// Whether `step` turns a value into what the database stores, or back.
pub fn step_is_coding(step: StorageStep) -> (b: bool)
    ensures
        b == is_coding(step),
{
    match step {
        StorageStep::EncodeKey | StorageStep::EncodeValue | StorageStep::DecodeValue => true,
        _ => false,
    }
}

/// The step after position `position` of `op`, if there is one.
pub open spec fn following(op: StorageOp, position: int) -> Option<StorageStep> {
    if 0 <= position && position + 1 < op.plan().len() {
        Some(op.plan()[position + 1])
    } else {
        None
    }
}

fn next_step(op: StorageOp, position: usize) -> (r: Option<StorageStep>)
    ensures
        r == following(op, position as int),
{
    let steps = op.steps();
    if position < steps.len() && position + 1 < steps.len() {
        Some(steps[position + 1])
    } else {
        None
    }
}

fn step_at(op: StorageOp, position: usize) -> (r: Option<StorageStep>)
    ensures
        r == if position < op.plan().len() {
            Some(op.plan()[position as int])
        } else {
            None
        },
{
    let steps = op.steps();
    if position < steps.len() {
        Some(steps[position])
    } else {
        None
    }
}

/// Why an operation on the blob store of the database failed.
#[derive(Debug)]
pub enum IndexedDbBlobStorageError {
    IndexedDbError(String),
    SerializationError(String),
    NotFound,
}

/// A failure of the blob store as contracts speak of it.
pub enum BlobStorageFault {
    IndexedDb(Seq<char>),
    Serialization(Seq<char>),
    NotFound,
}

impl View for IndexedDbBlobStorageError {
    type V = BlobStorageFault;

    open spec fn view(&self) -> BlobStorageFault {
        match self {
            IndexedDbBlobStorageError::IndexedDbError(m) => BlobStorageFault::IndexedDb(m@),
            IndexedDbBlobStorageError::SerializationError(m) => BlobStorageFault::Serialization(m@),
            IndexedDbBlobStorageError::NotFound => BlobStorageFault::NotFound,
        }
    }
}

impl IndexedDbBlobStorageError {
    /// The failure of `step` with the words `message`.
    pub fn at(step: StorageStep, message: String) -> (e: IndexedDbBlobStorageError)
        ensures
            e@ == if is_coding(step) {
                BlobStorageFault::Serialization(message@)
            } else {
                BlobStorageFault::IndexedDb(message@)
            },
    {
        if step_is_coding(step) {
            IndexedDbBlobStorageError::SerializationError(message)
        } else {
            IndexedDbBlobStorageError::IndexedDbError(message)
        }
    }

    /// The failure as a line for a person to read.
    pub fn message(&self) -> (s: String)
        ensures
            s@ == match self@ {
                BlobStorageFault::IndexedDb(m) => "IndexedDb error: "@ + m,
                BlobStorageFault::Serialization(m) => "Serialization error: "@ + m,
                BlobStorageFault::NotFound => "Blob not found"@,
            },
    {
        match self {
            IndexedDbBlobStorageError::IndexedDbError(m) => String::from_str(
                "IndexedDb error: ",
            ).concat(m.as_str()),
            IndexedDbBlobStorageError::SerializationError(m) => String::from_str(
                "Serialization error: ",
            ).concat(m.as_str()),
            IndexedDbBlobStorageError::NotFound => String::from_str("Blob not found"),
        }
    }
}

/// Why an operation on the event and cursor stores of the database failed.
#[derive(Debug)]
pub enum IndexedDbMetadataStorageError {
    IndexedDbError(String),
    SerializationError(String),
}

/// A failure of the event and cursor stores as contracts speak of it.
pub enum MetadataStorageFault {
    IndexedDb(Seq<char>),
    Serialization(Seq<char>),
}

impl View for IndexedDbMetadataStorageError {
    type V = MetadataStorageFault;

    open spec fn view(&self) -> MetadataStorageFault {
        match self {
            IndexedDbMetadataStorageError::IndexedDbError(m) => MetadataStorageFault::IndexedDb(m@),
            IndexedDbMetadataStorageError::SerializationError(m) =>
                MetadataStorageFault::Serialization(m@),
        }
    }
}

impl IndexedDbMetadataStorageError {
    /// The failure of `step` with the words `message`.
    pub fn at(step: StorageStep, message: String) -> (e: IndexedDbMetadataStorageError)
        ensures
            e@ == if is_coding(step) {
                MetadataStorageFault::Serialization(message@)
            } else {
                MetadataStorageFault::IndexedDb(message@)
            },
    {
        if step_is_coding(step) {
            IndexedDbMetadataStorageError::SerializationError(message)
        } else {
            IndexedDbMetadataStorageError::IndexedDbError(message)
        }
    }

    /// The failure as a line for a person to read.
    pub fn message(&self) -> (s: String)
        ensures
            s@ == match self@ {
                MetadataStorageFault::IndexedDb(m) => "IndexedDb error: "@ + m,
                MetadataStorageFault::Serialization(m) => "Serialization error: "@ + m,
            },
    {
        match self {
            IndexedDbMetadataStorageError::IndexedDbError(m) => String::from_str(
                "IndexedDb error: ",
            ).concat(m.as_str()),
            IndexedDbMetadataStorageError::SerializationError(m) => String::from_str(
                "Serialization error: ",
            ).concat(m.as_str()),
        }
    }
}

/// What a blob operation does after the step at `position` ended with
/// `outcome`: a failed step ends it with the step's failure, a read that
/// found nothing ends it with `NotFound`, and otherwise the next step
/// follows, if there is one. Only a read can find nothing.
pub open spec fn blob_progress(op: StorageOp, position: int, outcome: StepOutcome) -> Progress<
    BlobStorageFault,
> {
    if !(0 <= position < op.plan().len()) {
        Progress::Finished
    } else {
        match outcome {
            StepOutcome::Failed(m) => Progress::Failed(
                if is_coding(op.plan()[position]) {
                    BlobStorageFault::Serialization(m@)
                } else {
                    BlobStorageFault::IndexedDb(m@)
                },
            ),
            StepOutcome::Missing if op.plan()[position] == StorageStep::Read => Progress::Failed(
                BlobStorageFault::NotFound,
            ),
            _ => match following(op, position) {
                Some(s) => Progress::Next(s),
                None => Progress::Finished,
            },
        }
    }
}

/// `p` as contracts speak of it.
pub open spec fn blob_progress_view(p: Progress<IndexedDbBlobStorageError>) -> Progress<
    BlobStorageFault,
> {
    match p {
        Progress::Next(s) => Progress::Next(s),
        Progress::Finished => Progress::Finished,
        Progress::Absent => Progress::Absent,
        Progress::Failed(e) => Progress::Failed(e@),
    }
}

/// The blob store of the database.
#[derive(Debug)]
pub struct IndexedDbBlobStorage;

impl IndexedDbBlobStorage {
    fn advance(op: StorageOp, position: usize, outcome: StepOutcome) -> (p: Progress<
        IndexedDbBlobStorageError,
    >)
        ensures
            blob_progress_view(p) == blob_progress(op, position as int, outcome),
    {
        match step_at(op, position) {
            None => Progress::Finished,
            Some(step) => match outcome {
                StepOutcome::Failed(m) => Progress::Failed(IndexedDbBlobStorageError::at(step, m)),
                StepOutcome::Missing if step == StorageStep::Read => Progress::Failed(
                    IndexedDbBlobStorageError::NotFound,
                ),
                _ => match next_step(op, position) {
                    Some(s) => Progress::Next(s),
                    None => Progress::Finished,
                },
            },
        }
    }

    /// What storing a blob does after its step at `position` ended with
    /// `outcome`.
    pub fn store_blob(position: usize, outcome: StepOutcome) -> (p: Progress<
        IndexedDbBlobStorageError,
    >)
        ensures
            blob_progress_view(p) == blob_progress(StorageOp::StoreBlob, position as int, outcome),
    {
        IndexedDbBlobStorage::advance(StorageOp::StoreBlob, position, outcome)
    }

    /// What retrieving a blob does after its step at `position` ended with
    /// `outcome`.
    pub fn retrieve_blob(position: usize, outcome: StepOutcome) -> (p: Progress<
        IndexedDbBlobStorageError,
    >)
        ensures
            blob_progress_view(p) == blob_progress(StorageOp::RetrieveBlob, position as int, outcome),
    {
        IndexedDbBlobStorage::advance(StorageOp::RetrieveBlob, position, outcome)
    }
}

/// What an operation on events or the cursor does after the step at
/// `position` ended with `outcome`: a failed step ends it with the step's
/// failure; a read that found nothing ends it as absent, which is no
/// failure: there is no such event, or no cursor was saved yet and the
/// default cursor stands; otherwise the next step follows, if there is one.
/// Only a read can find nothing.
pub open spec fn metadata_progress(op: StorageOp, position: int, outcome: StepOutcome) -> Progress<
    MetadataStorageFault,
> {
    if !(0 <= position < op.plan().len()) {
        Progress::Finished
    } else {
        match outcome {
            StepOutcome::Failed(m) => Progress::Failed(
                if is_coding(op.plan()[position]) {
                    MetadataStorageFault::Serialization(m@)
                } else {
                    MetadataStorageFault::IndexedDb(m@)
                },
            ),
            StepOutcome::Missing if op.plan()[position] == StorageStep::Read => Progress::Absent,
            _ => match following(op, position) {
                Some(s) => Progress::Next(s),
                None => Progress::Finished,
            },
        }
    }
}

/// `p` as contracts speak of it.
pub open spec fn metadata_progress_view(p: Progress<IndexedDbMetadataStorageError>) -> Progress<
    MetadataStorageFault,
> {
    match p {
        Progress::Next(s) => Progress::Next(s),
        Progress::Finished => Progress::Finished,
        Progress::Absent => Progress::Absent,
        Progress::Failed(e) => Progress::Failed(e@),
    }
}

/// The event and cursor stores of the database.
#[derive(Debug)]
pub struct IndexedDbMetadataStorage;

impl IndexedDbMetadataStorage {
    fn advance(op: StorageOp, position: usize, outcome: StepOutcome) -> (p: Progress<
        IndexedDbMetadataStorageError,
    >)
        ensures
            metadata_progress_view(p) == metadata_progress(op, position as int, outcome),
    {
        match step_at(op, position) {
            None => Progress::Finished,
            Some(step) => match outcome {
                StepOutcome::Failed(m) => Progress::Failed(
                    IndexedDbMetadataStorageError::at(step, m),
                ),
                StepOutcome::Missing if step == StorageStep::Read => Progress::Absent,
                _ => match next_step(op, position) {
                    Some(s) => Progress::Next(s),
                    None => Progress::Finished,
                },
            },
        }
    }

    /// What saving an event does after its step at `position` ended with
    /// `outcome`.
    pub fn save_event(position: usize, outcome: StepOutcome) -> (p: Progress<
        IndexedDbMetadataStorageError,
    >)
        ensures
            metadata_progress_view(p) == metadata_progress(
                StorageOp::SaveEvent,
                position as int,
                outcome,
            ),
    {
        IndexedDbMetadataStorage::advance(StorageOp::SaveEvent, position, outcome)
    }

    /// What loading an event does after its step at `position` ended with
    /// `outcome`. Where the read finds no event the loading ends as absent.
    pub fn load_event(position: usize, outcome: StepOutcome) -> (p: Progress<
        IndexedDbMetadataStorageError,
    >)
        ensures
            metadata_progress_view(p) == metadata_progress(
                StorageOp::LoadEvent,
                position as int,
                outcome,
            ),
    {
        IndexedDbMetadataStorage::advance(StorageOp::LoadEvent, position, outcome)
    }

    /// What saving the cursor does after its step at `position` ended with
    /// `outcome`.
    pub fn save_sync_state(position: usize, outcome: StepOutcome) -> (p: Progress<
        IndexedDbMetadataStorageError,
    >)
        ensures
            metadata_progress_view(p) == metadata_progress(
                StorageOp::SaveSyncState,
                position as int,
                outcome,
            ),
    {
        IndexedDbMetadataStorage::advance(StorageOp::SaveSyncState, position, outcome)
    }

    /// What loading the cursor does after its step at `position` ended with
    /// `outcome`. Where the read finds no cursor the loading ends as absent,
    /// and the default cursor stands.
    pub fn load_sync_state(position: usize, outcome: StepOutcome) -> (p: Progress<
        IndexedDbMetadataStorageError,
    >)
        ensures
            metadata_progress_view(p) == metadata_progress(
                StorageOp::LoadSyncState,
                position as int,
                outcome,
            ),
    {
        IndexedDbMetadataStorage::advance(StorageOp::LoadSyncState, position, outcome)
    }
}

} // verus!
