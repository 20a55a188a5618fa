//! A content-addressed blob store kept in memory.

use vstd::prelude::*;
use crate::blob::BlobId;
use crate::error::{BlobError, RepoError};
use crate::table::Table;

verus! {

/// The bytes of one blob.
pub struct BlobData {
    pub bytes: Vec<u8>,
}

impl View for BlobData {
    type V = Seq<u8>;

    open spec fn view(&self) -> Seq<u8> {
        self.bytes@
    }
}

/// A copy of `data`.
pub fn copy_bytes(data: &[u8]) -> (v: Vec<u8>)
    ensures
        v@ == data@,
{
    let mut v: Vec<u8> = Vec::new();
    let mut i: usize = 0;
    while i < data.len()
        invariant
            i <= data@.len(),
            v@ == data@.take(i as int),
        decreases data@.len() - i,
    {
        v.push(data[i]);
        assert(data@.take(i as int).push(data@[i as int]) =~= data@.take(i + 1));
        i += 1;
    }
    assert(data@.take(i as int) =~= data@);
    v
}

/// A blob store as contracts speak of it.
pub struct BlobStoreView {
    /// The bytes kept under each id, by the number in the id.
    pub contents: Map<u128, Seq<u8>>,
    /// Whether the store can be reached.
    pub online: bool,
}

impl BlobStoreView {
    /// What an upload makes of the store: nothing where it cannot be
    /// reached; nothing where the id is already taken, which for equal bytes
    /// is the same as storing them again; else the bytes are kept under the
    /// id.
    pub open spec fn upload(self, id: BlobId, bytes: Seq<u8>) -> Result<BlobStoreView, BlobError> {
        if !self.online {
            Err(BlobError::TransportError)
        } else if self.contents.contains_key(id.0) {
            Ok(self)
        } else {
            Ok(BlobStoreView { contents: self.contents.insert(id.0, bytes), ..self })
        }
    }

    /// What a check for `id` gives.
    pub open spec fn has(self, id: BlobId) -> Result<bool, BlobError> {
        if !self.online {
            Err(BlobError::TransportError)
        } else {
            Ok(self.contents.contains_key(id.0))
        }
    }

    /// What a download of `id` gives.
    pub open spec fn download(self, id: BlobId) -> Result<Seq<u8>, BlobError> {
        if !self.online {
            Err(BlobError::TransportError)
        } else if !self.contents.contains_key(id.0) {
            Err(BlobError::NotFound)
        } else {
            Ok(self.contents[id.0])
        }
    }
}

/// What to do with a blob once the store has said whether it has it.
#[derive(Clone, Copy, Debug, PartialEq, Eq, Structural)]
pub enum UploadAction {
    /// The store has the blob: there is nothing to send.
    Skip,
    /// The store lacks the blob: send it.
    Send,
}

/// What an upload does after the existence check, whose outcome is
/// `present`: it sends the blob only where the store lacks it, and gives up
/// where the check itself failed.
pub fn upload_action(present: Result<bool, BlobError>) -> (r: Result<UploadAction, RepoError>)
    ensures
        r == (match present {
            Ok(true) => Ok::<UploadAction, RepoError>(UploadAction::Skip),
            Ok(false) => Ok(UploadAction::Send),
            Err(e) => Err(RepoError::BlobError(e)),
        }),
{
    match present {
        Ok(true) => Ok(UploadAction::Skip),
        Ok(false) => Ok(UploadAction::Send),
        Err(e) => Err(RepoError::BlobError(e)),
    }
}

/// Blobs found by id, and a switch that makes the store unreachable.
pub struct BlobStore {
    blobs: Table<BlobData>,
    online: bool,
}

impl View for BlobStore {
    type V = BlobStoreView;

    closed spec fn view(&self) -> BlobStoreView {
        BlobStoreView { contents: self.blobs@, online: self.online }
    }
}

impl BlobStore {
    /// One entry per id.
    pub closed spec fn wf(&self) -> bool {
        self.blobs.wf()
    }

    /// An empty store that can be reached.
    pub fn new() -> (store: BlobStore)
        ensures
            store.wf(),
            store@ == (BlobStoreView { contents: Map::empty(), online: true }),
    {
        BlobStore { blobs: Table::new(), online: true }
    }

    /// Makes the store reachable or not.
    pub fn set_online(&mut self, online: bool)
        requires
            old(self).wf(),
        ensures
            final(self).wf(),
            final(self)@ == (BlobStoreView { online, ..old(self)@ }),
    {
        self.online = online;
    }

    /// How many blobs the store keeps.
    pub fn len(&self) -> (n: usize)
        requires
            self.wf(),
        ensures
            n == self@.contents.dom().len(),
            self@.contents.dom().finite(),
    {
        proof {
            self.blobs.keys@.unique_seq_to_set();
            vstd::seq_lib::seq_to_set_is_finite(self.blobs.keys@);
            assert(self.blobs@.dom() =~= self.blobs.keys@.to_set());
        }
        self.blobs.len()
    }

    /// Whether the store keeps a blob under `blob_id`.
    pub fn check_exists(&self, blob_id: &BlobId) -> (r: Result<bool, BlobError>)
        requires
            self.wf(),
        ensures
            r == self@.has(*blob_id),
    {
        if !self.online {
            return Err(BlobError::TransportError);
        }
        Ok(self.blobs.contains_key(blob_id.0))
    }

    /// Keeps `data` under `blob_id`, unless the id is already taken.
    pub fn upload(&mut self, blob_id: &BlobId, data: &[u8]) -> (r: Result<(), BlobError>)
        requires
            old(self).wf(),
        ensures
            final(self).wf(),
            match old(self)@.upload(*blob_id, data@) {
                Ok(s) => r is Ok && final(self)@ == s,
                Err(e) => r == Err::<(), BlobError>(e) && final(self)@ == old(self)@,
            },
    {
        if !self.online {
            return Err(BlobError::TransportError);
        }
        if self.blobs.contains_key(blob_id.0) {
            return Ok(());
        }
        self.blobs.insert_new(blob_id.0, BlobData { bytes: copy_bytes(data) });
        Ok(())
    }

    /// The bytes kept under `blob_id`.
    pub fn download(&self, blob_id: &BlobId) -> (r: Result<Vec<u8>, BlobError>)
        requires
            self.wf(),
        ensures
            match self@.download(*blob_id) {
                Ok(bytes) => r matches Ok(v) && v@ == bytes,
                Err(e) => r == Err::<Vec<u8>, BlobError>(e),
            },
    {
        if !self.online {
            return Err(BlobError::TransportError);
        }
        match self.blobs.get(blob_id.0) {
            None => Err(BlobError::NotFound),
            Some(b) => Ok(copy_bytes(b.bytes.as_slice())),
        }
    }
}

/// A successful upload can be read back: afterwards the id is known and,
/// unless other bytes were kept under it before, a download gives exactly
/// the bytes; and uploading the same bytes again changes nothing.
pub proof fn lemma_upload_round_trip(s: BlobStoreView, id: BlobId, bytes: Seq<u8>)
    requires
        s.online,
        s.contents.contains_key(id.0) ==> s.contents[id.0] == bytes,
    ensures
        s.upload(id, bytes) is Ok,
        s.upload(id, bytes)->Ok_0.has(id) == Ok::<bool, BlobError>(true),
        s.upload(id, bytes)->Ok_0.download(id) == Ok::<Seq<u8>, BlobError>(bytes),
        s.upload(id, bytes)->Ok_0.upload(id, bytes) == s.upload(id, bytes),
{
}

/// An upload changes nothing under any other id.
pub proof fn lemma_upload_leaves_others(s: BlobStoreView, id: BlobId, bytes: Seq<u8>, other: BlobId)
    requires
        other != id,
        s.upload(id, bytes) is Ok,
    ensures
        s.upload(id, bytes)->Ok_0.download(other) == s.download(other),
{
}

} // verus!
