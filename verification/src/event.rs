//! Events: the immutable records of what was done to the repository.

use vstd::prelude::*;
use crate::blob::BlobRecord;
use crate::ids::{ClientId, EventId, NodeId, TagId};
use crate::node::{NodeType, NodeTypeView};
use crate::tag::TagColors;
use crate::text::{clone_path, path_view};

verus! {

impl View for EventId {
    type V = EventId;

    open spec fn view(&self) -> EventId {
        *self
    }
}

/// Where an event stands in the order in which replicas apply what they
/// receive: by time, then by replica, then by sequence number.
#[derive(Clone, Copy, Debug, PartialEq, Eq, Structural)]
pub struct EventKey {
    pub timestamp: u64,
    pub client: ClientId,
    pub seq: u64,
}

impl EventKey {
    /// `self` comes strictly before `other`.
    pub open spec fn before(self, other: EventKey) -> bool {
        ||| self.timestamp < other.timestamp
        ||| (self.timestamp == other.timestamp && self.client.0 < other.client.0)
        ||| (self.timestamp == other.timestamp && self.client.0 == other.client.0 && self.seq
            < other.seq)
    }

    /// Whether `self` comes strictly before `other`.
    pub fn is_before(&self, other: &EventKey) -> (b: bool)
        ensures
            b == self.before(*other),
    {
        if self.timestamp != other.timestamp {
            self.timestamp < other.timestamp
        } else if self.client.0 != other.client.0 {
            self.client.0 < other.client.0
        } else {
            self.seq < other.seq
        }
    }
}

/// One change to the repository.
#[derive(Debug)]
#[allow(inconsistent_fields)]
pub enum RepoEvent {
    CreateNode { id: NodeId, title: String, data: NodeType },
    RenameNode { id: NodeId, title: String },
    /// Replaces the node's payload; its title and tags stay.
    UpdateNode { id: NodeId, data: NodeType },
    DeleteNode { id: NodeId },
    CreateTag { id: TagId, path: Vec<String>, color: Option<TagColors> },
    DeleteTag { id: TagId },
    TagNode { node: NodeId, tag: TagId },
    UntagNode { node: NodeId, tag: TagId },
    AttachBlob { node: NodeId, blob: BlobRecord },
}

/// An event as contracts speak of it.
#[allow(inconsistent_fields)]
pub enum EventView {
    CreateNode { id: NodeId, title: Seq<char>, data: NodeTypeView },
    RenameNode { id: NodeId, title: Seq<char> },
    UpdateNode { id: NodeId, data: NodeTypeView },
    DeleteNode { id: NodeId },
    CreateTag { id: TagId, path: Seq<Seq<char>>, color: Option<TagColors> },
    DeleteTag { id: TagId },
    TagNode { node: NodeId, tag: TagId },
    UntagNode { node: NodeId, tag: TagId },
    AttachBlob { node: NodeId, blob: BlobRecord },
}

impl View for RepoEvent {
    type V = EventView;

    open spec fn view(&self) -> EventView {
        match self {
            RepoEvent::CreateNode { id, title, data } => EventView::CreateNode {
                id: *id,
                title: title@,
                data: data@,
            },
            RepoEvent::RenameNode { id, title } => EventView::RenameNode { id: *id, title: title@ },
            RepoEvent::UpdateNode { id, data } => EventView::UpdateNode { id: *id, data: data@ },
            RepoEvent::DeleteNode { id } => EventView::DeleteNode { id: *id },
            RepoEvent::CreateTag { id, path, color } => EventView::CreateTag {
                id: *id,
                path: path_view(path@),
                color: *color,
            },
            RepoEvent::DeleteTag { id } => EventView::DeleteTag { id: *id },
            RepoEvent::TagNode { node, tag } => EventView::TagNode { node: *node, tag: *tag },
            RepoEvent::UntagNode { node, tag } => EventView::UntagNode { node: *node, tag: *tag },
            RepoEvent::AttachBlob { node, blob } => EventView::AttachBlob { node: *node, blob: *blob },
        }
    }
}

impl Clone for RepoEvent {
    fn clone(&self) -> (r: RepoEvent)
        ensures
            r@ == self@,
    {
        match self {
            RepoEvent::CreateNode { id, title, data } => RepoEvent::CreateNode {
                id: *id,
                title: title.clone(),
                data: data.clone(),
            },
            RepoEvent::RenameNode { id, title } => RepoEvent::RenameNode {
                id: *id,
                title: title.clone(),
            },
            RepoEvent::UpdateNode { id, data } => RepoEvent::UpdateNode {
                id: *id,
                data: data.clone(),
            },
            RepoEvent::DeleteNode { id } => RepoEvent::DeleteNode { id: *id },
            RepoEvent::CreateTag { id, path, color } => RepoEvent::CreateTag {
                id: *id,
                path: clone_path(path),
                color: *color,
            },
            RepoEvent::DeleteTag { id } => RepoEvent::DeleteTag { id: *id },
            RepoEvent::TagNode { node, tag } => RepoEvent::TagNode { node: *node, tag: *tag },
            RepoEvent::UntagNode { node, tag } => RepoEvent::UntagNode { node: *node, tag: *tag },
            RepoEvent::AttachBlob { node, blob } => RepoEvent::AttachBlob { node: *node, blob: *blob },
        }
    }
}

/// Whether `event` is an event on the node `node`: its creation, renaming,
/// update or deletion, a tag put on it or taken off it, or a blob attached to it.
/// The deletion of a tag is no event on the nodes that carried the tag.
pub open spec fn touches(event: EventView, node: NodeId) -> bool {
    match event {
        EventView::CreateNode { id, .. } => id == node,
        EventView::RenameNode { id, .. } => id == node,
        EventView::UpdateNode { id, .. } => id == node,
        EventView::DeleteNode { id } => id == node,
        EventView::TagNode { node: n, .. } => n == node,
        EventView::UntagNode { node: n, .. } => n == node,
        EventView::AttachBlob { node: n, .. } => n == node,
        _ => false,
    }
}

impl RepoEvent {
    /// Whether this is an event on the node `node`.
    pub fn touches(&self, node: NodeId) -> (b: bool)
        ensures
            b == touches(self@, node),
    {
        match self {
            RepoEvent::CreateNode { id, .. } => id.0 == node.0,
            RepoEvent::RenameNode { id, .. } => id.0 == node.0,
            RepoEvent::UpdateNode { id, .. } => id.0 == node.0,
            RepoEvent::DeleteNode { id } => id.0 == node.0,
            RepoEvent::TagNode { node: n, .. } => n.0 == node.0,
            RepoEvent::UntagNode { node: n, .. } => n.0 == node.0,
            RepoEvent::AttachBlob { node: n, .. } => n.0 == node.0,
            _ => false,
        }
    }
}

/// An event together with its id and the time it was made: the unit that
/// the log stores and that replicas exchange.
#[derive(Debug)]
pub struct RepoEventContainer {
    pub id: EventId,
    pub timestamp: u64,
    pub event: RepoEvent,
}

/// A stored event as contracts speak of it.
pub struct ContainerView {
    pub id: EventId,
    pub timestamp: u64,
    pub event: EventView,
}

impl ContainerView {
    /// The event's place in the apply order.
    pub open spec fn key(self) -> EventKey {
        EventKey { timestamp: self.timestamp, client: self.id.client, seq: self.id.seq }
    }
}

impl View for RepoEventContainer {
    type V = ContainerView;

    open spec fn view(&self) -> ContainerView {
        ContainerView { id: self.id, timestamp: self.timestamp, event: self.event@ }
    }
}

impl Clone for RepoEventContainer {
    fn clone(&self) -> (r: RepoEventContainer)
        ensures
            r@ == self@,
    {
        RepoEventContainer { id: self.id, timestamp: self.timestamp, event: self.event.clone() }
    }
}

impl RepoEventContainer {
    pub fn new(id: EventId, timestamp: u64, event: RepoEvent) -> (c: RepoEventContainer)
        ensures
            c@ == (ContainerView { id, timestamp, event: event@ }),
    {
        RepoEventContainer { id, timestamp, event }
    }

    pub fn get_id(&self) -> (id: EventId)
        ensures
            id == self@.id,
    {
        self.id
    }

    pub fn get_timestamp(&self) -> (t: u64)
        ensures
            t == self@.timestamp,
    {
        self.timestamp
    }

    pub fn get_event(&self) -> (e: &RepoEvent)
        ensures
            e@ == self@.event,
    {
        &self.event
    }

    /// The event's place in the apply order.
    pub fn key(&self) -> (k: EventKey)
        ensures
            k == self@.key(),
    {
        EventKey { timestamp: self.timestamp, client: self.id.client, seq: self.id.seq }
    }
}

/// The views of a sequence of stored events, in the same order.
pub open spec fn views(s: Seq<RepoEventContainer>) -> Seq<ContainerView> {
    Seq::new(s.len(), |i: int| s[i]@)
}

pub proof fn lemma_views_push(s: Seq<RepoEventContainer>, c: RepoEventContainer)
    ensures
        views(s.push(c)) == views(s).push(c@),
{
    assert(views(s.push(c)) =~= views(s).push(c@));
}

/// A copy of `events` with the same views.
pub fn clone_events(events: &Vec<RepoEventContainer>) -> (r: Vec<RepoEventContainer>)
    ensures
        views(r@) == views(events@),
{
    let mut r: Vec<RepoEventContainer> = Vec::new();
    let mut i: usize = 0;
    while i < events.len()
        invariant
            i <= events@.len(),
            r@.len() == i,
            forall|j: int| 0 <= j < i ==> r@[j]@ == events@[j]@,
        decreases events@.len() - i,
    {
        r.push(events[i].clone());
        i += 1;
    }
    assert(views(r@) =~= views(events@));
    r
}

} // verus!
