//! A local-first repository engine: typed nodes organised by a tag tree,
//! captured as an append-only event log, folded into a projection and
//! reconciled with a remote metadata authority.

pub mod blob;
pub mod blob_store;
pub mod error;
pub mod event;
pub mod event_log;
pub mod id_set;
pub mod ids;
pub mod laws;
pub mod metadata_endpoint;
pub mod model;
pub mod network_blob_store;
pub mod node;
pub mod projection;
pub mod repository;
pub mod storage;
pub mod stored;
pub mod sync;
pub mod table;
pub mod tag;
pub mod text;
