//! Nodes: the typed records that the repository holds.

use vstd::prelude::*;
use crate::blob::BlobId;
use crate::id_set::IdSet;
use crate::ids::{EventId, NodeId, TagId};
use crate::event::EventKey;

verus! {

/// What a node carries, one variant per kind of node.
#[derive(Debug)]
pub enum NodeType {
    /// A node that only groups others.
    Folder,
    /// A piece of text.
    Note { body: String },
    /// A reference to something outside the repository.
    Link { target: String },
    /// A file whose bytes live in the blob store.
    File { blob: BlobId },
}

/// A node's payload as contracts speak of it.
pub enum NodeTypeView {
    Folder,
    Note { body: Seq<char> },
    Link { target: Seq<char> },
    File { blob: BlobId },
}

impl View for NodeType {
    type V = NodeTypeView;

    open spec fn view(&self) -> NodeTypeView {
        match self {
            NodeType::Folder => NodeTypeView::Folder,
            NodeType::Note { body } => NodeTypeView::Note { body: body@ },
            NodeType::Link { target } => NodeTypeView::Link { target: target@ },
            NodeType::File { blob } => NodeTypeView::File { blob: *blob },
        }
    }
}

impl Clone for NodeType {
    fn clone(&self) -> (r: NodeType)
        ensures
            r@ == self@,
    {
        match self {
            NodeType::Folder => NodeType::Folder,
            NodeType::Note { body } => NodeType::Note { body: body.clone() },
            NodeType::Link { target } => NodeType::Link { target: target.clone() },
            NodeType::File { blob } => NodeType::File { blob: *blob },
        }
    }
}

/// Where a node stands with respect to the remote authority.
#[derive(Clone, Copy, Debug, PartialEq, Eq, Structural)]
pub enum NodeStatus {
    /// Nothing that this replica did to the node is waiting to be pushed.
    Synced,
    /// The node is live and something that this replica did to it is
    /// waiting to be pushed.
    PendingPush,
    /// The node is deleted and something that this replica did to it is
    /// waiting to be pushed.
    PendingDelete,
}

/// A live node as the projection holds it.
#[derive(Debug)]
pub struct NodeRecord {
    pub id: NodeId,
    pub title: String,
    pub data: NodeType,
    pub date_created: u64,
    pub date_updated: u64,
    /// The tags the node carries.
    pub tags: IdSet,
    /// The tags that were taken off the node; such a tag does not come back.
    pub untagged: IdSet,
    /// The blobs attached to the node.
    pub blobs: IdSet,
    /// The event that set the current title.
    pub title_stamp: EventKey,
    /// The event that set the current payload.
    pub data_stamp: EventKey,
    /// The latest event applied to the node.
    pub last_event: EventId,
}

/// A live node as contracts speak of it.
pub struct NodeView {
    pub id: NodeId,
    pub title: Seq<char>,
    pub data: NodeTypeView,
    pub date_created: u64,
    pub date_updated: u64,
    pub tags: Set<u128>,
    pub untagged: Set<u128>,
    pub blobs: Set<u128>,
    pub title_stamp: EventKey,
    pub data_stamp: EventKey,
    pub last_event: EventId,
}

impl View for NodeRecord {
    type V = NodeView;

    open spec fn view(&self) -> NodeView {
        NodeView {
            id: self.id,
            title: self.title@,
            data: self.data@,
            date_created: self.date_created,
            date_updated: self.date_updated,
            tags: self.tags@,
            untagged: self.untagged@,
            blobs: self.blobs@,
            title_stamp: self.title_stamp,
            data_stamp: self.data_stamp,
            last_event: self.last_event,
        }
    }
}

impl Clone for NodeRecord {
    fn clone(&self) -> (r: NodeRecord)
        ensures
            r@ == self@,
            self.wf() ==> r.wf(),
    {
        NodeRecord {
            id: self.id,
            title: self.title.clone(),
            data: self.data.clone(),
            date_created: self.date_created,
            date_updated: self.date_updated,
            tags: self.tags.clone(),
            untagged: self.untagged.clone(),
            blobs: self.blobs.clone(),
            title_stamp: self.title_stamp,
            data_stamp: self.data_stamp,
            last_event: self.last_event,
        }
    }
}

impl NodeRecord {
    /// Each of the record's sets holds every member once.
    pub open spec fn wf(&self) -> bool {
        &&& self.tags.wf()
        &&& self.untagged.wf()
        &&& self.blobs.wf()
    }

    pub fn get_id(&self) -> (id: NodeId)
        ensures
            id == self@.id,
    {
        self.id
    }

    pub fn get_title(&self) -> (t: &String)
        ensures
            t@ == self@.title,
    {
        &self.title
    }

    pub fn get_data(&self) -> (d: &NodeType)
        ensures
            d@ == self@.data,
    {
        &self.data
    }

    pub fn get_date_created(&self) -> (t: u64)
        ensures
            t == self@.date_created,
    {
        self.date_created
    }

    pub fn get_date_updated(&self) -> (t: u64)
        ensures
            t == self@.date_updated,
    {
        self.date_updated
    }

    /// The node's tags, each once.
    pub fn get_tags(&self) -> (tags: Vec<TagId>)
        requires
            self.wf(),
        ensures
            tags@.len() == self.tags.items@.len(),
            forall|i: int| 0 <= i < tags@.len() ==> (#[trigger] tags@[i]).0 == self.tags.items@[i],
            forall|t: TagId| tags@.contains(t) <==> self@.tags.contains(t.0),
            tags@.no_duplicates(),
    {
        let mut out: Vec<TagId> = Vec::new();
        let mut i: usize = 0;
        while i < self.tags.items.len()
            invariant
                i <= self.tags.items@.len(),
                out@.len() == i,
                forall|j: int| 0 <= j < i ==> (#[trigger] out@[j]).0 == self.tags.items@[j],
            decreases self.tags.items@.len() - i,
        {
            out.push(TagId(self.tags.items[i]));
            i += 1;
        }
        proof {
            assert forall|t: TagId| out@.contains(t) <==> self@.tags.contains(t.0) by {
                if out@.contains(t) {
                    let j = choose|j: int| 0 <= j < out@.len() && out@[j] == t;
                    assert(self.tags.items@[j] == t.0);
                }
                if self@.tags.contains(t.0) {
                    let j = choose|j: int| 0 <= j < self.tags.items@.len() && self.tags.items@[j] == t.0;
                    assert(out@[j].0 == t.0);
                    assert(out@[j] == t);
                }
            }
            assert forall|a: int, b: int| 0 <= a < out@.len() && 0 <= b < out@.len() && a != b implies out@[a]
                != out@[b] by {
                assert(out@[a].0 == self.tags.items@[a]);
                assert(out@[b].0 == self.tags.items@[b]);
            }
        }
        out
    }
}

} // verus!
