//! Content addressing: a blob is named by a hash of its bytes.

use vstd::prelude::*;

verus! {

/// The 128-bit FNV offset basis.
pub const FNV_OFFSET: u128 = 0x6c62272e07bb014262b821756295c58d;

/// The 128-bit FNV prime.
pub const FNV_PRIME: u128 = 0x0000000001000000000000000000013b;

/// One round of FNV-1a: mix the byte in, then multiply modulo 2^128.
pub open spec fn hash_step(h: u128, b: u8) -> u128 {
    (h ^ (b as u128)).wrapping_mul(FNV_PRIME)
}

/// The FNV-1a hash of `bytes`, taken from the first byte to the last.
pub open spec fn content_hash(bytes: Seq<u8>) -> u128
    decreases bytes.len(),
{
    if bytes.len() == 0 {
        FNV_OFFSET
    } else {
        hash_step(content_hash(bytes.drop_last()), bytes.last())
    }
}

/// Names a blob by its content: equal bytes give equal ids.
#[derive(Clone, Copy, Debug, PartialEq, Eq, Structural)]
pub struct BlobId(pub u128);

impl BlobId {
    /// The id of `data`.
    pub fn of(data: &[u8]) -> (id: BlobId)
        ensures
            id.0 == content_hash(data@),
    {
        let mut h: u128 = FNV_OFFSET;
        let mut i: usize = 0;
        while i < data.len()
            invariant
                i <= data@.len(),
                h == content_hash(data@.take(i as int)),
            decreases data@.len() - i,
        {
            let b: u8 = data[i];
            assert(data@.take(i + 1).drop_last() =~= data@.take(i as int));
            assert(data@.take(i + 1).last() == b);
            h = (h ^ (b as u128)).wrapping_mul(FNV_PRIME);
            i += 1;
        }
        assert(data@.take(i as int) =~= data@);
        BlobId(h)
    }
}

/// What the repository records of a blob: its id and its size in bytes.
#[derive(Clone, Copy, Debug, PartialEq, Eq, Structural)]
pub struct BlobRecord {
    pub id: BlobId,
    pub size: u64,
}

impl View for BlobRecord {
    type V = BlobRecord;

    open spec fn view(&self) -> BlobRecord {
        *self
    }
}

impl BlobRecord {
    /// The record of `data`; `None` where its length does not fit in 64 bits.
    pub fn of(data: &[u8]) -> (r: Option<BlobRecord>)
        ensures
            match r {
                Some(rec) => rec.id.0 == content_hash(data@) && rec.size == data@.len(),
                None => data@.len() > u64::MAX,
            },
    {
        let n: usize = data.len();
        if n as u128 > u64::MAX as u128 {
            return None;
        }
        Some(BlobRecord { id: BlobId::of(data), size: n as u64 })
    }
}

} // verus!
