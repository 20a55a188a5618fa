//! The repository: the event log, the projection folded from it, and the
//! operations that change both together.

use vstd::prelude::*;
use crate::blob::{content_hash, BlobId, BlobRecord};
use crate::blob_store::{upload_action, BlobStore, UploadAction};
use crate::error::RepoError;
use crate::event::{views, ContainerView, EventView, RepoEvent, RepoEventContainer};
use crate::event_log::{
    clients_of, gapless, increasing, last_seq, last_touch, newest, since, EventLog,
};
use crate::ids::{ClientId, EventId, NodeId, TagId};
use crate::model::{
    doomed, first_free, later, lemma_prune_step, lists_nodes, lists_tags, pruned, replay,
    ProjectionView, TagFilter,
};
use crate::node::{NodeRecord, NodeStatus, NodeType};
use crate::projection::Projection;
use crate::stored::{events_of, in_position_order, replay_order, stored_views, StoredEvent};
use crate::sync::{in_apply_order, read_batch, readable, sort_batch, RemoteMetadataStore};
use crate::tag::{TagColors, TagRecord};
use crate::text::{path_eq, path_is_valid, path_prefix, path_view, valid_path};

verus! {

/// A repository as contracts speak of it.
pub struct RepoView {
    /// The replica that this repository is.
    pub client: ClientId,
    /// Every event applied here, in the order of application.
    pub log: Seq<ContainerView>,
    /// The most events that the log takes.
    pub capacity: nat,
    /// The highest own sequence number that the remote authority has confirmed.
    pub pushed: u64,
    /// The current state of nodes, tags and blob records.
    pub projection: ProjectionView,
}

impl RepoView {
    /// What applying `c` makes of the repository. An event at or below its
    /// replica's watermark was seen before and changes nothing; one that
    /// skips a sequence number is refused; one that the fold refuses is
    /// refused with the fold's reason; a full log refuses. Otherwise the event
    /// is recorded and folded into the projection.
    pub open spec fn apply(self, c: ContainerView) -> Result<RepoView, RepoError> {
        let mark = last_seq(self.log, c.id.client.0);
        if c.id.seq <= mark {
            Ok(self)
        } else if c.id.seq > mark + 1 {
            Err(RepoError::ProtocolError)
        } else {
            match self.projection.step(c) {
                Err(e) => Err(e),
                Ok(p) => if self.log.len() >= self.capacity {
                    Err(RepoError::StorageUnavailable)
                } else {
                    Ok(RepoView { log: self.log.push(c), projection: p, ..self })
                },
            }
        }
    }

    /// The container that this replica gives to its next event: the next
    /// sequence number, and the time `now` unless an applied event carries a
    /// later one.
    pub open spec fn next_container(self, event: EventView, now: u64) -> ContainerView {
        ContainerView {
            id: EventId {
                client: self.client,
                seq: (last_seq(self.log, self.client.0) + 1) as u64,
            },
            timestamp: later(now, newest(self.log)),
            event,
        }
    }

    /// What a local change makes of the repository: the event gets this
    /// replica's next container and is applied. With the sequence numbers
    /// used up the change is refused.
    pub open spec fn local(self, event: EventView, now: u64) -> Result<RepoView, RepoError> {
        if last_seq(self.log, self.client.0) == u64::MAX {
            Err(RepoError::StorageUnavailable)
        } else {
            self.apply(self.next_container(event, now))
        }
    }

    /// The event that an upsert of the node `id` makes: an update of the
    /// payload where the node is live, else its creation, without a title.
    pub open spec fn upsert_event(self, id: NodeId, data: crate::node::NodeTypeView) -> EventView {
        if self.projection.nodes.contains_key(id.0) {
            EventView::UpdateNode { id, data }
        } else {
            EventView::CreateNode { id, title: Seq::empty(), data }
        }
    }

    /// This replica can still number an event and the log can still take one.
    pub open spec fn has_room(self) -> bool {
        last_seq(self.log, self.client.0) < u64::MAX && self.log.len() < self.capacity
    }

    /// Where the node `id` stands with respect to the remote authority.
    /// Nothing for a node that never was. For a live or deleted node, what
    /// counts is the latest event on it that this replica made itself: while
    /// that lies above what the authority has confirmed, the node waits to
    /// be pushed, as a change where it is live and as a deletion where it is
    /// deleted; else it is synced, as is a node that this replica never
    /// touched.
    pub open spec fn status(self, id: NodeId) -> Option<NodeStatus> {
        if self.projection.nodes.contains_key(id.0) {
            if last_touch(self.log, self.client.0, id) > self.pushed {
                Some(NodeStatus::PendingPush)
            } else {
                Some(NodeStatus::Synced)
            }
        } else if self.projection.deleted.contains_key(id.0) {
            if last_touch(self.log, self.client.0, id) > self.pushed {
                Some(NodeStatus::PendingDelete)
            } else {
                Some(NodeStatus::Synced)
            }
        } else {
            None
        }
    }

    /// The events that a pull asks the remote authority for: for each replica
    /// of `clients` but this one, in turn, those of its events in `remote`
    /// that lie above its watermark here.
    pub open spec fn news(self, remote: Seq<ContainerView>, clients: Seq<u128>) -> Seq<ContainerView>
        decreases clients.len(),
    {
        if clients.len() == 0 {
            Seq::empty()
        } else {
            let earlier = self.news(remote, clients.drop_last());
            if clients.last() == self.client.0 {
                earlier
            } else {
                earlier + since(remote, clients.last(), last_seq(self.log, clients.last()))
            }
        }
    }

    /// What a pull asks for, given the replicas that the remote authority
    /// knows: for each of them but this one, in turn, its watermark here, above
    /// which its events are wanted.
    pub open spec fn requests(self, clients: Seq<ClientId>) -> Seq<(ClientId, u64)>
        decreases clients.len(),
    {
        if clients.len() == 0 {
            Seq::empty()
        } else {
            let earlier = self.requests(clients.drop_last());
            if clients.last() == self.client {
                earlier
            } else {
                earlier.push((clients.last(), last_seq(self.log, clients.last().0)))
            }
        }
    }

    /// The repository of the same replica and capacity before any event.
    pub open spec fn cleared(self) -> RepoView {
        RepoView {
            client: self.client,
            log: Seq::empty(),
            capacity: self.capacity,
            pushed: 0,
            projection: ProjectionView::empty(),
        }
    }

    /// What resolving the first `k` segments of `path` makes of the
    /// repository: from the root down, each prefix that no live tag has yet
    /// gets a tag of its own by a local `CreateTag` event. Each new tag gets
    /// the first id from `id` upward that no live tag has; only the tag of
    /// the whole path gets the colour.
    pub open spec fn resolve(
        self,
        path: Seq<Seq<char>>,
        color: Option<TagColors>,
        id: TagId,
        now: u64,
        k: nat,
    ) -> Result<RepoView, RepoError>
        decreases k,
    {
        if k == 0 {
            Ok(self)
        } else {
            match self.resolve(path, color, id, now, (k - 1) as nat) {
                Err(e) => Err(e),
                Ok(s) => if s.projection.path_taken(path.take(k as int)) {
                    Ok(s)
                } else {
                    s.local(
                        EventView::CreateTag {
                            id: TagId(first_free(s.projection.tags.dom(), id.0, 0)),
                            path: path.take(k as int),
                            color: if k == path.len() {
                                color
                            } else {
                                None
                            },
                        },
                        now,
                    )
                },
            }
        }
    }

    /// What deleting the tags `order` one after the other makes of the
    /// repository, each by a local `DeleteTag` event.
    pub open spec fn delete_all(self, order: Seq<u128>, now: u64) -> Result<RepoView, RepoError>
        decreases order.len(),
    {
        if order.len() == 0 {
            Ok(self)
        } else {
            match self.delete_all(order.drop_last(), now) {
                Err(e) => Err(e),
                Ok(s) => s.local(EventView::DeleteTag { id: TagId(order.last()) }, now),
            }
        }
    }

    /// This replica can still number `n` more events and the log can still
    /// take them.
    pub open spec fn has_room_for(self, n: nat) -> bool {
        last_seq(self.log, self.client.0) + n <= u64::MAX && self.log.len() + n <= self.capacity
    }

    /// What applying `batch` makes of the repository, first event first, up
    /// to the first refusal.
    pub open spec fn apply_all(self, batch: Seq<ContainerView>) -> Result<RepoView, RepoError>
        decreases batch.len(),
    {
        if batch.len() == 0 {
            Ok(self)
        } else {
            match self.apply_all(batch.drop_last()) {
                Err(e) => Err(e),
                Ok(s) => s.apply(batch.last()),
            }
        }
    }
}

/// `r` reports `expected`: on success the repository is the expected one, on
/// refusal it is unchanged.
pub open spec fn carried_out(
    r: Result<(), RepoError>,
    before: RepoView,
    after: RepoView,
    expected: Result<RepoView, RepoError>,
) -> bool {
    match expected {
        Ok(s) => r is Ok && after == s,
        Err(e) => r == Err::<(), RepoError>(e) && after == before,
    }
}

/// A refusal inside a batch is the batch's refusal, whatever follows.
pub proof fn lemma_apply_all_fails(s: RepoView, batch: Seq<ContainerView>, n: int)
    requires
        0 <= n <= batch.len(),
        s.apply_all(batch.take(n)) is Err,
    ensures
        s.apply_all(batch) == s.apply_all(batch.take(n)),
    decreases batch.len() - n,
{
    if n < batch.len() {
        assert(batch.take(n + 1).drop_last() =~= batch.take(n));
        lemma_apply_all_fails(s, batch, n + 1);
    } else {
        assert(batch.take(n) =~= batch);
    }
}

/// A refusal while resolving a path is the refusal of the whole.
pub proof fn lemma_resolve_fails(
    s: RepoView,
    path: Seq<Seq<char>>,
    color: Option<TagColors>,
    id: TagId,
    now: u64,
    k: nat,
    n: nat,
)
    requires
        k <= n,
        s.resolve(path, color, id, now, k) is Err,
    ensures
        s.resolve(path, color, id, now, n) == s.resolve(path, color, id, now, k),
    decreases n - k,
{
    if k < n {
        lemma_resolve_fails(s, path, color, id, now, k + 1, n);
    }
}

/// The smaller of two sequence numbers.
pub open spec fn lower(a: u64, b: u64) -> u64 {
    if a <= b {
        a
    } else {
        b
    }
}

/// The sync cursor that a replica keeps between sessions: the watermark of
/// each replica whose events it has applied, and the highest own sequence
/// number that the remote authority has confirmed.
#[derive(Debug)]
pub struct RepoState {
    pub watermarks: Vec<(ClientId, u64)>,
    pub pushed: u64,
}

impl RepoState {
    /// The cursor of a replica that has applied and pushed nothing.
    pub fn new() -> (state: RepoState)
        ensures
            state.watermarks@.len() == 0,
            state.pushed == 0,
    {
        RepoState { watermarks: Vec::new(), pushed: 0 }
    }
}

/// One replica's repository.
pub struct Repository {
    client: ClientId,
    log: EventLog,
    projection: Projection,
    pushed: u64,
}

impl View for Repository {
    type V = RepoView;

    closed spec fn view(&self) -> RepoView {
        RepoView {
            client: self.client,
            log: self.log@,
            capacity: self.log.spec_capacity(),
            pushed: self.pushed,
            projection: self.projection@,
        }
    }
}

impl Repository {
    /// The log and the projection are sound, the log leaves no sequence
    /// number out, the projection is what the log folds to, and nothing is
    /// confirmed that was not issued.
    pub closed spec fn wf(&self) -> bool {
        &&& self.log.wf()
        &&& gapless(self.log@)
        &&& self.projection.wf()
        &&& self.projection@ == replay(self.log@)
        &&& self.pushed <= last_seq(self.log@, self.client.0)
    }

    /// In a sound repository the projection is exactly what the log folds to
    /// from nothing, the log keeps to its bound and numbers every replica's
    /// events without a gap, and nothing is confirmed that was not issued.
    pub proof fn lemma_sound(&self)
        requires
            self.wf(),
        ensures
            self@.projection == replay(self@.log),
            increasing(self@.log),
            gapless(self@.log),
            self@.log.len() <= self@.capacity,
            self@.pushed <= last_seq(self@.log, self@.client.0),
    {
        self.log.lemma_sound();
    }

    /// An empty repository for the replica `client_id`, whose log takes up to
    /// `capacity` events.
    pub fn with_capacity(client_id: ClientId, capacity: usize) -> (repo: Repository)
        ensures
            repo.wf(),
            repo@ == (RepoView {
                client: client_id,
                log: Seq::empty(),
                capacity: capacity as nat,
                pushed: 0,
                projection: ProjectionView::empty(),
            }),
    {
        Repository {
            client: client_id,
            log: EventLog::with_capacity(capacity),
            projection: Projection::new(),
            pushed: 0,
        }
    }

    /// An empty repository for the replica `client_id`.
    pub fn new(client_id: ClientId) -> (repo: Repository)
        ensures
            repo.wf(),
            repo@ == (RepoView {
                client: client_id,
                log: Seq::empty(),
                capacity: usize::MAX as nat,
                pushed: 0,
                projection: ProjectionView::empty(),
            }),
    {
        Repository::with_capacity(client_id, usize::MAX)
    }

    /// The shared fold: applies one event, whether made here or received, or
    /// refuses it and changes nothing.
    pub fn apply(&mut self, c: RepoEventContainer) -> (r: Result<(), RepoError>)
        requires
            old(self).wf(),
        ensures
            final(self).wf(),
            match old(self)@.apply(c@) {
                Ok(s) => r is Ok && final(self)@ == s,
                Err(e) => r == Err::<(), RepoError>(e) && final(self)@ == old(self)@,
            },
    {
        let mark = self.log.last_seq(c.id.client);
        if c.id.seq <= mark {
            return Ok(());
        }
        if c.id.seq - mark > 1 {
            return Err(RepoError::ProtocolError);
        }
        match self.projection.check(&c) {
            Err(e) => {
                return Err(e);
            },
            Ok(()) => {},
        }
        if self.log.is_full() {
            return Err(RepoError::StorageUnavailable);
        }
        let ghost before = self.log@;
        let stepped = self.projection.step(&c);
        let appended = self.log.append(c);
        proof {
            assert(self.log@ == before.push(c@));
            assert(self.log@.drop_last() =~= before);
        }
        Ok(())
    }

    /// The container that the next local event gets.
    fn next_container(&self, event: RepoEvent, now: u64) -> (c: RepoEventContainer)
        requires
            self.wf(),
            last_seq(self@.log, self@.client.0) < u64::MAX,
        ensures
            c@ == self@.next_container(event@, now),
    {
        let seq = self.log.last_seq(self.client) + 1;
        let clock = self.log.newest();
        let timestamp = if now >= clock {
            now
        } else {
            clock
        };
        RepoEventContainer::new(EventId { client: self.client, seq }, timestamp, event)
    }

    /// Prepares a local change without making it: the container that the
    /// event would get, provided the repository would take it.
    pub fn stage(&self, event: RepoEvent, now: u64) -> (r: Result<RepoEventContainer, RepoError>)
        requires
            self.wf(),
        ensures
            match self@.local(event@, now) {
                Ok(_) => r matches Ok(c) && c@ == self@.next_container(event@, now),
                Err(e) => r == Err::<RepoEventContainer, RepoError>(e),
            },
    {
        if self.log.last_seq(self.client) == u64::MAX {
            return Err(RepoError::StorageUnavailable);
        }
        let c = self.next_container(event, now);
        match self.projection.check(&c) {
            Err(e) => {
                return Err(e);
            },
            Ok(()) => {},
        }
        if self.log.is_full() {
            return Err(RepoError::StorageUnavailable);
        }
        Ok(c)
    }

    /// Makes a local change: the event gets this replica's next container
    /// and goes through the shared fold.
    pub fn record(&mut self, event: RepoEvent, now: u64) -> (r: Result<(), RepoError>)
        requires
            old(self).wf(),
        ensures
            final(self).wf(),
            match old(self)@.local(event@, now) {
                Ok(s) => r is Ok && final(self)@ == s,
                Err(e) => r == Err::<(), RepoError>(e) && final(self)@ == old(self)@,
            },
    {
        if self.log.last_seq(self.client) == u64::MAX {
            return Err(RepoError::StorageUnavailable);
        }
        let c = self.next_container(event, now);
        self.apply(c)
    }

    /// Creates the node `id`. Refused with `AlreadyExists` where the id is
    /// live or deleted.
    pub fn create_node(&mut self, id: NodeId, title: String, node_data: NodeType, now: u64) -> (r:
        Result<(), RepoError>)
        requires
            old(self).wf(),
        ensures
            final(self).wf(),
            carried_out(
                r,
                old(self)@,
                final(self)@,
                old(self)@.local(EventView::CreateNode { id, title: title@, data: node_data@ }, now),
            ),
            r is Ok <==> old(self)@.has_room() && !old(self)@.projection.nodes.contains_key(id.0)
                && !old(self)@.projection.deleted.contains_key(id.0),
    {
        self.record(RepoEvent::CreateNode { id, title, data: node_data }, now)
    }

    /// Gives the live node `node_id` a new title. The title stays where an
    /// event later in the apply order has already set it.
    pub fn rename_node(&mut self, node_id: NodeId, new_title: String, now: u64) -> (r: Result<
        (),
        RepoError,
    >)
        requires
            old(self).wf(),
        ensures
            final(self).wf(),
            carried_out(
                r,
                old(self)@,
                final(self)@,
                old(self)@.local(EventView::RenameNode { id: node_id, title: new_title@ }, now),
            ),
            r is Ok <==> old(self)@.has_room() && old(self)@.projection.nodes.contains_key(node_id.0),
    {
        self.record(RepoEvent::RenameNode { id: node_id, title: new_title }, now)
    }

    /// Gives the live node `node_id` a new payload; its title, its tags and
    /// the time of its creation stay. The payload stays too where an event
    /// later in the apply order has already set it.
    pub fn update_node(&mut self, node_id: NodeId, node_data: NodeType, now: u64) -> (r: Result<
        (),
        RepoError,
    >)
        requires
            old(self).wf(),
        ensures
            final(self).wf(),
            carried_out(
                r,
                old(self)@,
                final(self)@,
                old(self)@.local(EventView::UpdateNode { id: node_id, data: node_data@ }, now),
            ),
            r is Ok <==> old(self)@.has_room() && old(self)@.projection.nodes.contains_key(node_id.0),
    {
        self.record(RepoEvent::UpdateNode { id: node_id, data: node_data }, now)
    }

    /// Updates the node `node_id` where it is live, and creates it where it
    /// is not: a live node gets the payload and keeps its title, its tags
    /// and the time of its creation; a new node gets the payload and an
    /// empty title. A deleted node stays deleted: `AlreadyExists`.
    pub fn upsert_node(&mut self, node_id: NodeId, node_data: NodeType, now: u64) -> (r: Result<
        (),
        RepoError,
    >)
        requires
            old(self).wf(),
        ensures
            final(self).wf(),
            carried_out(
                r,
                old(self)@,
                final(self)@,
                old(self)@.local(old(self)@.upsert_event(node_id, node_data@), now),
            ),
            r is Ok <==> old(self)@.has_room() && !old(self)@.projection.deleted.contains_key(
                node_id.0,
            ),
    {
        proof {
            crate::laws::lemma_replay_is_consistent(self.log@);
            assert(self@.projection.nodes.contains_key(node_id.0)
                ==> !self@.projection.deleted.contains_key(node_id.0));
        }
        if self.projection.has_node(node_id) {
            self.record(RepoEvent::UpdateNode { id: node_id, data: node_data }, now)
        } else {
            self.record(
                RepoEvent::CreateNode { id: node_id, title: String::new(), data: node_data },
                now,
            )
        }
    }

    /// Deletes the node `node_id`. Deleting a deleted node changes nothing
    /// but the log.
    pub fn delete_node(&mut self, node_id: NodeId, now: u64) -> (r: Result<(), RepoError>)
        requires
            old(self).wf(),
        ensures
            final(self).wf(),
            carried_out(
                r,
                old(self)@,
                final(self)@,
                old(self)@.local(EventView::DeleteNode { id: node_id }, now),
            ),
            r is Ok <==> old(self)@.has_room() && (old(self)@.projection.nodes.contains_key(node_id.0)
                || old(self)@.projection.deleted.contains_key(node_id.0)),
    {
        self.record(RepoEvent::DeleteNode { id: node_id }, now)
    }

    /// Puts the live tag `tag_id` on the live node `node_id`. A tag that was
    /// taken off the node before does not come back.
    pub fn tag_node(&mut self, node_id: NodeId, tag_id: TagId, now: u64) -> (r: Result<(), RepoError>)
        requires
            old(self).wf(),
        ensures
            final(self).wf(),
            carried_out(
                r,
                old(self)@,
                final(self)@,
                old(self)@.local(EventView::TagNode { node: node_id, tag: tag_id }, now),
            ),
            r is Ok <==> old(self)@.has_room() && old(self)@.projection.nodes.contains_key(node_id.0)
                && old(self)@.projection.tags.contains_key(tag_id.0),
    {
        self.record(RepoEvent::TagNode { node: node_id, tag: tag_id }, now)
    }

    /// Takes the tag `tag_id` off the live node `node_id`.
    pub fn untag_node(&mut self, node_id: NodeId, tag_id: TagId, now: u64) -> (r: Result<
        (),
        RepoError,
    >)
        requires
            old(self).wf(),
        ensures
            final(self).wf(),
            carried_out(
                r,
                old(self)@,
                final(self)@,
                old(self)@.local(EventView::UntagNode { node: node_id, tag: tag_id }, now),
            ),
            r is Ok <==> old(self)@.has_room() && old(self)@.projection.nodes.contains_key(node_id.0),
    {
        self.record(RepoEvent::UntagNode { node: node_id, tag: tag_id }, now)
    }

    /// Attaches the blob that `blob` describes to the live node `node_id`
    /// and records it.
    pub fn attach_blob(&mut self, node_id: NodeId, blob: BlobRecord, now: u64) -> (r: Result<
        (),
        RepoError,
    >)
        requires
            old(self).wf(),
        ensures
            final(self).wf(),
            carried_out(
                r,
                old(self)@,
                final(self)@,
                old(self)@.local(EventView::AttachBlob { node: node_id, blob }, now),
            ),
            r is Ok <==> old(self)@.has_room() && old(self)@.projection.nodes.contains_key(node_id.0),
    {
        self.record(RepoEvent::AttachBlob { node: node_id, blob }, now)
    }

    /// The replica that this repository is.
    pub fn client_id(&self) -> (c: ClientId)
        ensures
            c == self@.client,
    {
        self.client
    }

    /// The highest own sequence number that the remote authority has confirmed.
    pub fn pushed(&self) -> (n: u64)
        ensures
            n == self@.pushed,
    {
        self.pushed
    }

    /// The watermark of `client`: the highest sequence number of that
    /// replica applied here.
    pub fn watermark(&self, client: ClientId) -> (n: u64)
        requires
            self.wf(),
        ensures
            n == last_seq(self@.log, client.0),
    {
        self.log.last_seq(client)
    }

    /// The current state of nodes, tags and blob records.
    pub fn projection(&self) -> (p: &Projection)
        requires
            self.wf(),
        ensures
            p.wf(),
            p@ == self@.projection,
    {
        &self.projection
    }

    /// How many events were applied here.
    pub fn event_count(&self) -> (n: usize)
        ensures
            n == self@.log.len(),
    {
        self.log.len()
    }

    /// Every event applied here, in the order of application.
    pub fn events(&self) -> (out: Vec<RepoEventContainer>)
        ensures
            views(out@) == self@.log,
    {
        self.log.all()
    }

    /// The live node `node_id`.
    pub fn get_node(&self, node_id: NodeId) -> (r: Option<NodeRecord>)
        requires
            self.wf(),
        ensures
            match r {
                Some(n) => self@.projection.nodes.contains_key(node_id.0) && n@
                    == self@.projection.nodes[node_id.0] && n.wf(),
                None => !self@.projection.nodes.contains_key(node_id.0),
            },
    {
        self.projection.get_node(node_id)
    }

    /// The live tag `tag_id`.
    pub fn get_tag(&self, tag_id: TagId) -> (r: Option<TagRecord>)
        requires
            self.wf(),
        ensures
            match r {
                Some(t) => self@.projection.tags.contains_key(tag_id.0) && t@
                    == self@.projection.tags[tag_id.0],
                None => !self@.projection.tags.contains_key(tag_id.0),
            },
    {
        self.projection.get_tag(tag_id)
    }

    /// Every live node, each once.
    pub fn get_all_nodes(&self) -> (out: Vec<NodeRecord>)
        requires
            self.wf(),
        ensures
            lists_nodes(out@, self@.projection.nodes, None),
    {
        self.projection.select_nodes(None)
    }

    /// Every live tag, each once.
    pub fn get_all_tags(&self) -> (out: Vec<TagRecord>)
        requires
            self.wf(),
        ensures
            lists_tags(out@, self@.projection.tags, TagFilter::All, Seq::empty()),
    {
        let none: Vec<String> = Vec::new();
        let out = self.projection.select_tags(TagFilter::All, &none);
        assert(lists_tags(out@, self@.projection.tags, TagFilter::All, Seq::empty()));
        out
    }

    /// The live tag whose path is `path`. An empty path, or one with an
    /// empty segment, is refused with `InvalidPath`.
    pub fn get_tag_by_path(&self, path: Vec<String>) -> (r: Result<Option<TagRecord>, RepoError>)
        requires
            self.wf(),
        ensures
            match r {
                Ok(Some(t)) => {
                    &&& valid_path(path_view(path@))
                    &&& self@.projection.tags.contains_key(t@.id.0)
                    &&& self@.projection.tags[t@.id.0] == t@
                    &&& t@.path == path_view(path@)
                },
                Ok(None) => valid_path(path_view(path@)) && !self@.projection.path_taken(
                    path_view(path@),
                ),
                Err(e) => e == RepoError::InvalidPath && !valid_path(path_view(path@)),
            },
    {
        if !path_is_valid(&path) {
            return Err(RepoError::InvalidPath);
        }
        Ok(self.projection.find_tag_by_path(&path))
    }

    /// What is recorded of the blob `blob_id`.
    pub fn get_blob_record(&self, blob_id: BlobId) -> (r: Option<BlobRecord>)
        requires
            self.wf(),
        ensures
            match r {
                Some(b) => self@.projection.blobs.contains_key(blob_id.0) && b
                    == self@.projection.blobs[blob_id.0],
                None => !self@.projection.blobs.contains_key(blob_id.0),
            },
    {
        self.projection.get_blob_record(blob_id)
    }

    /// Where the node `node_id` stands with respect to the remote authority.
    pub fn get_node_status(&self, node_id: NodeId) -> (r: Option<NodeStatus>)
        requires
            self.wf(),
        ensures
            r == self@.status(node_id),
    {
        let live = self.projection.has_node(node_id);
        let gone = self.projection.deleted_by(node_id).is_some();
        if !live && !gone {
            return None;
        }
        let waiting = self.log.last_touch(self.client, node_id) > self.pushed;
        if !waiting {
            Some(NodeStatus::Synced)
        } else if live {
            Some(NodeStatus::PendingPush)
        } else {
            Some(NodeStatus::PendingDelete)
        }
    }

    /// The live tags directly below the live tag `parent`: those whose path
    /// is its path and one more segment. Nothing where `parent` is not live.
    pub fn get_child_tags(&self, parent: TagId) -> (r: Option<Vec<TagRecord>>)
        requires
            self.wf(),
        ensures
            match r {
                Some(out) => self@.projection.tags.contains_key(parent.0) && lists_tags(
                    out@,
                    self@.projection.tags,
                    TagFilter::ChildOf,
                    self@.projection.tags[parent.0].path,
                ),
                None => !self@.projection.tags.contains_key(parent.0),
            },
    {
        match self.projection.get_tag(parent) {
            Some(t) => Some(self.projection.select_tags(TagFilter::ChildOf, &t.path)),
            None => None,
        }
    }

    /// The live nodes that carry the tag `tag_id`, each once.
    pub fn get_nodes_with_tag(&self, tag_id: TagId) -> (out: Vec<NodeRecord>)
        requires
            self.wf(),
        ensures
            lists_nodes(out@, self@.projection.nodes, Some(tag_id.0)),
    {
        self.projection.select_nodes(Some(tag_id))
    }

    /// A copy of the repository.
    fn snapshot(&self) -> (r: Repository)
        requires
            self.wf(),
        ensures
            r.wf(),
            r@ == self@,
    {
        Repository {
            client: self.client,
            log: self.log.clone(),
            projection: self.projection.clone(),
            pushed: self.pushed,
        }
    }

    /// Applies `events` in the order given, all of them or none.
    pub fn apply_in_order(&mut self, events: &Vec<RepoEventContainer>) -> (r: Result<(), RepoError>)
        requires
            old(self).wf(),
        ensures
            final(self).wf(),
            carried_out(r, old(self)@, final(self)@, old(self)@.apply_all(views(events@))),
    {
        let mut scratch = self.snapshot();
        let ghost before = *self;
        let ghost batch = views(events@);
        let mut i: usize = 0;
        assert(batch.take(0) =~= Seq::<ContainerView>::empty());
        while i < events.len()
            invariant
                *self == before,
                before.wf(),
                i <= events@.len(),
                batch == views(events@),
                scratch.wf(),
                before@.apply_all(batch.take(i as int)) == Ok::<RepoView, RepoError>(scratch@),
            decreases events@.len() - i,
        {
            let c = events[i].clone();
            proof {
                assert(batch.take(i + 1).drop_last() =~= batch.take(i as int));
                assert(batch.take(i + 1).last() == c@);
            }
            match scratch.apply(c) {
                Err(e) => {
                    proof {
                        lemma_apply_all_fails(before@, batch, i + 1);
                    }
                    return Err(e);
                },
                Ok(()) => {},
            }
            i += 1;
        }
        assert(batch.take(i as int) =~= batch);
        *self = scratch;
        Ok(())
    }

    /// Applies a batch of received events in the apply order, all of it or
    /// nothing. Events seen before are passed over.
    pub fn apply_remote(&mut self, batch: &Vec<RepoEventContainer>) -> (r: Result<(), RepoError>)
        requires
            old(self).wf(),
        ensures
            final(self).wf(),
            carried_out(
                r,
                old(self)@,
                final(self)@,
                old(self)@.apply_all(in_apply_order(views(batch@))),
            ),
    {
        let sorted = sort_batch(batch);
        self.apply_in_order(&sorted)
    }

    /// Takes a batch as it came from the remote authority, where a record
    /// that could not be read stands as `None`. One such record makes the
    /// whole batch a `ProtocolError` and nothing of it is applied; else the
    /// batch is applied as `apply_remote` applies it.
    pub fn receive(&mut self, batch: Vec<Option<RepoEventContainer>>) -> (r: Result<(), RepoError>)
        requires
            old(self).wf(),
        ensures
            final(self).wf(),
            carried_out(
                r,
                old(self)@,
                final(self)@,
                match readable(batch@) {
                    Some(events) => old(self)@.apply_all(in_apply_order(events)),
                    None => Err(RepoError::ProtocolError),
                },
            ),
    {
        match read_batch(batch) {
            None => Err(RepoError::ProtocolError),
            Some(events) => self.apply_remote(&events),
        }
    }

    /// Puts the repository into the state that `events` fold to from
    /// nothing, in the order given, with the confirmed sequence number of
    /// `state` as far as the events bear it out. Changes nothing where an
    /// event is refused.
    pub fn load_local(&mut self, events: &Vec<RepoEventContainer>, state: &RepoState) -> (r: Result<
        (),
        RepoError,
    >)
        requires
            old(self).wf(),
        ensures
            final(self).wf(),
            match old(self)@.cleared().apply_all(views(events@)) {
                Ok(s) => r is Ok && final(self)@ == (RepoView {
                    pushed: lower(state.pushed, last_seq(s.log, s.client.0)),
                    ..s
                }),
                Err(e) => r == Err::<(), RepoError>(e) && final(self)@ == old(self)@,
            },
    {
        let mut fresh = Repository::with_capacity(self.client, self.log.capacity());
        match fresh.apply_in_order(events) {
            Err(e) => Err(e),
            Ok(()) => {
                let own = fresh.log.last_seq(fresh.client);
                fresh.pushed = if state.pushed <= own {
                    state.pushed
                } else {
                    own
                };
                *self = fresh;
                Ok(())
            },
        }
    }

    /// Puts the repository into the state that the stored events fold to
    /// from nothing, taken in the order of their positions, as `load_local`
    /// does for events that are in order already.
    pub fn load_stored(&mut self, stored: &Vec<StoredEvent>, state: &RepoState) -> (r: Result<
        (),
        RepoError,
    >)
        requires
            old(self).wf(),
        ensures
            final(self).wf(),
            match old(self)@.cleared().apply_all(
                events_of(in_position_order(stored_views(stored@))),
            ) {
                Ok(s) => r is Ok && final(self)@ == (RepoView {
                    pushed: lower(state.pushed, last_seq(s.log, s.client.0)),
                    ..s
                }),
                Err(e) => r == Err::<(), RepoError>(e) && final(self)@ == old(self)@,
            },
    {
        let events = replay_order(stored);
        self.load_local(&events, state)
    }

    /// The events from place `from` of the log on, each with its place: what
    /// the local store is to keep of them.
    pub fn stored_since(&self, from: usize) -> (out: Vec<StoredEvent>)
        ensures
            out@.len() == if from <= self@.log.len() {
                self@.log.len() - from
            } else {
                0
            },
            forall|i: int|
                0 <= i < out@.len() ==> (#[trigger] out@[i])@ == (crate::stored::StoredView {
                    position: (from + i) as u64,
                    event: self@.log[from + i],
                }),
    {
        let events = self.log.all();
        assert(views(events@).len() == events@.len());
        let mut out: Vec<StoredEvent> = Vec::new();
        let mut i: usize = from;
        while i < events.len()
            invariant
                views(events@) == self@.log,
                events@.len() == self@.log.len(),
                from <= i,
                from <= events@.len() ==> i <= events@.len() && out@.len() == i - from,
                from > events@.len() ==> out@.len() == 0,
                forall|j: int|
                    0 <= j < out@.len() ==> (#[trigger] out@[j])@ == (crate::stored::StoredView {
                        position: (from + j) as u64,
                        event: self@.log[from + j],
                    }),
            decreases events@.len() - i,
        {
            assert(self@.log[i as int] == events@[i as int]@);
            out.push(StoredEvent { position: i as u64, event: events[i].clone() });
            i += 1;
        }
        out
    }

    /// The event `c` with the place that it gets in the log once applied:
    /// what the local store is to keep before the event is applied.
    pub fn to_store(&self, c: RepoEventContainer) -> (out: StoredEvent)
        ensures
            out@ == (crate::stored::StoredView { position: self@.log.len() as u64, event: c@ }),
    {
        StoredEvent { position: self.log.len() as u64, event: c }
    }

    /// The sync cursor to keep between sessions.
    pub fn sync_state(&self) -> (state: RepoState)
        requires
            self.wf(),
        ensures
            state.pushed == self@.pushed,
            forall|i: int|
                0 <= i < state.watermarks@.len() ==> (#[trigger] state.watermarks@[i]).1 == last_seq(
                    self@.log,
                    state.watermarks@[i].0.0,
                ) && state.watermarks@[i].1 > 0,
            forall|client: u128|
                last_seq(self@.log, client) > 0 ==> exists|i: int|
                    0 <= i < state.watermarks@.len() && (#[trigger] state.watermarks@[i]).0.0 == client,
            forall|i: int, j: int|
                0 <= i < j < state.watermarks@.len() ==> (#[trigger] state.watermarks@[i]).0 != (
                #[trigger] state.watermarks@[j]).0,
    {
        let state = RepoState { watermarks: self.log.cursor(), pushed: self.pushed };
        proof {
            assert forall|client: u128| last_seq(self@.log, client) > 0 implies exists|i: int|
                0 <= i < state.watermarks@.len() && (#[trigger] state.watermarks@[i]).0.0
                    == client by {
                assert(last_seq(self.log@, client) > 0);
                let i = choose|i: int|
                    0 <= i < state.watermarks@.len() && (#[trigger] state.watermarks@[i]).0.0
                        == client;
                assert(state.watermarks@[i].0.0 == client);
            }
        }
        state
    }

    /// What to ask the remote authority for in a pull, given the replicas it
    /// knows: each replica but this one, with its watermark here.
    pub fn pull_requests(&self, known: &Vec<ClientId>) -> (out: Vec<(ClientId, u64)>)
        requires
            self.wf(),
        ensures
            out@ == self@.requests(known@),
    {
        let mut out: Vec<(ClientId, u64)> = Vec::new();
        let mut i: usize = 0;
        assert(known@.take(0) =~= Seq::<ClientId>::empty());
        while i < known.len()
            invariant
                self.wf(),
                i <= known@.len(),
                out@ == self@.requests(known@.take(i as int)),
            decreases known@.len() - i,
        {
            let client = known[i];
            proof {
                assert(known@.take(i + 1).drop_last() =~= known@.take(i as int));
                assert(known@.take(i + 1).last() == client);
            }
            if client.0 != self.client.0 {
                out.push((client, self.log.last_seq(client)));
            }
            i += 1;
        }
        assert(known@.take(i as int) =~= known@);
        out
    }

    /// The own events that the remote authority has not confirmed, oldest
    /// first.
    pub fn pending_push(&self) -> (out: Vec<RepoEventContainer>)
        ensures
            views(out@) == since(self@.log, self@.client.0, self@.pushed),
    {
        self.log.read_since(self.client, self.pushed)
    }

    /// Notes that the remote authority has confirmed the own events up to
    /// the sequence number `through`. The confirmed number never goes down
    /// and never passes what was issued.
    pub fn confirm_push(&mut self, through: u64)
        requires
            old(self).wf(),
        ensures
            final(self).wf(),
            final(self)@ == (RepoView {
                pushed: later(
                    old(self)@.pushed,
                    lower(through, last_seq(old(self)@.log, old(self)@.client.0)),
                ),
                ..old(self)@
            }),
    {
        let own = self.log.last_seq(self.client);
        let reached = if through <= own {
            through
        } else {
            own
        };
        if reached > self.pushed {
            self.pushed = reached;
        }
    }

    /// Sends the unconfirmed own events to the remote authority, oldest
    /// first, and on its confirmation counts them all as pushed. Where the
    /// authority cannot be reached or refuses, nothing changes on either
    /// side.
    pub fn push_remote(&mut self, remote: &mut RemoteMetadataStore) -> (r: Result<(), RepoError>)
        requires
            old(self).wf(),
            old(remote).wf(),
        ensures
            final(self).wf(),
            final(remote).wf(),
            match old(remote)@.push(since(old(self)@.log, old(self)@.client.0, old(self)@.pushed)) {
                Ok(v) => {
                    &&& r is Ok
                    &&& final(remote)@ == v
                    &&& final(self)@ == (RepoView {
                        pushed: last_seq(old(self)@.log, old(self)@.client.0),
                        ..old(self)@
                    })
                },
                Err(e) => {
                    &&& r == Err::<(), RepoError>(e)
                    &&& final(remote)@ == old(remote)@
                    &&& final(self)@ == old(self)@
                },
            },
    {
        let pending = self.pending_push();
        match remote.push(&pending) {
            Err(e) => Err(e),
            Ok(()) => {
                self.pushed = self.log.last_seq(self.client);
                Ok(())
            },
        }
    }

    /// Fetches from the remote authority, for every replica it knows but
    /// this one, the events above that replica's watermark here, and applies
    /// them in the apply order, all of them or none. Where the authority
    /// cannot be reached nothing changes.
    pub fn pull_remote(&mut self, remote: &RemoteMetadataStore) -> (r: Result<(), RepoError>)
        requires
            old(self).wf(),
            remote.wf(),
        ensures
            final(self).wf(),
            carried_out(
                r,
                old(self)@,
                final(self)@,
                if remote@.reachable {
                    old(self)@.apply_all(
                        in_apply_order(old(self)@.news(remote@.log, clients_of(remote@.log))),
                    )
                } else {
                    Err(RepoError::SyncUnavailable)
                },
            ),
    {
        let known = match remote.known_clients() {
            Ok(k) => k,
            Err(e) => {
                return Err(e);
            },
        };
        let ghost clients = clients_of(remote@.log);
        let mut batch: Vec<RepoEventContainer> = Vec::new();
        let mut i: usize = 0;
        assert(clients.take(0) =~= Seq::<u128>::empty());
        assert(views(batch@) =~= Seq::<ContainerView>::empty());
        while i < known.len()
            invariant
                self.wf(),
                *self == *old(self),
                remote.wf(),
                remote@.reachable,
                clients == clients_of(remote@.log),
                known@.len() == clients.len(),
                forall|j: int| 0 <= j < known@.len() ==> (#[trigger] known@[j]).0 == clients[j],
                i <= known@.len(),
                views(batch@) == self@.news(remote@.log, clients.take(i as int)),
            decreases known@.len() - i,
        {
            let client = known[i];
            proof {
                assert(clients.take(i + 1).drop_last() =~= clients.take(i as int));
                assert(clients.take(i + 1).last() == client.0);
            }
            if client.0 != self.client.0 {
                let mark = self.log.last_seq(client);
                match remote.pull(client, mark) {
                    Err(e) => {
                        return Err(e);
                    },
                    Ok(part) => {
                        let mut part = part;
                        let ghost head = batch@;
                        let ghost tail = part@;
                        batch.append(&mut part);
                        assert(views(head + tail) =~= views(head) + views(tail));
                    },
                }
            }
            i += 1;
        }
        assert(clients.take(i as int) =~= clients);
        self.apply_remote(&batch)
    }

    /// Resolves `path` to a tag, creating what is missing: walks the path
    /// from the root and gives every prefix that has no live tag a tag of
    /// its own, each by its own event, then hands back the id of the tag of
    /// the whole path. Each new tag gets the first id from `id` upward that
    /// no live tag has; only a new tag of the whole path gets the colour. An
    /// invalid path is refused with `InvalidPath`, and the whole is refused
    /// with `StorageUnavailable` where the log cannot take an event that is
    /// needed; then nothing changes.
    pub fn create_tag(&mut self, path: Vec<String>, color: Option<TagColors>, id: TagId, now: u64) -> (r:
        Result<TagId, RepoError>)
        requires
            old(self).wf(),
        ensures
            final(self).wf(),
            !valid_path(path_view(path@)) ==> r == Err::<TagId, RepoError>(RepoError::InvalidPath)
                && final(self)@ == old(self)@,
            valid_path(path_view(path@)) ==> match old(self)@.resolve(
                path_view(path@),
                color,
                id,
                now,
                path@.len(),
            ) {
                Ok(s) => {
                    &&& r matches Ok(leaf)
                    &&& final(self)@ == s
                    &&& s.projection.tags.contains_key(leaf.0)
                    &&& s.projection.tags[leaf.0].path == path_view(path@)
                    &&& forall|j: int|
                        1 <= j <= path@.len() ==> s.projection.path_taken(
                            #[trigger] path_view(path@).take(j),
                        )
                },
                Err(e) => r == Err::<TagId, RepoError>(e) && final(self)@ == old(self)@ && e
                    == RepoError::StorageUnavailable,
            },
            valid_path(path_view(path@)) && old(self)@.has_room_for(path@.len()) ==> r is Ok,
    {
        if !path_is_valid(&path) {
            return Err(RepoError::InvalidPath);
        }
        let n: usize = path.len();
        let ghost whole = path_view(path@);
        let ghost before = *self;
        let mut scratch = self.snapshot();
        let mut leaf = id;
        let mut done: usize = 0;
        assert(whole.len() == n);
        while done < n
            invariant
                *self == before,
                before.wf(),
                scratch.wf(),
                whole == path_view(path@),
                valid_path(whole),
                whole.len() == n,
                n == path@.len(),
                done <= n,
                before@.resolve(whole, color, id, now, done as nat) == Ok::<RepoView, RepoError>(
                    scratch@,
                ),
                done > 0 ==> scratch@.projection.tags.contains_key(leaf.0)
                    && scratch@.projection.tags[leaf.0].path == whole.take(done as int),
                forall|j: int|
                    1 <= j <= done ==> scratch@.projection.path_taken(#[trigger] whole.take(j)),
                scratch@.client == before@.client,
                scratch@.capacity == before@.capacity,
                scratch@.log.len() <= before@.log.len() + done,
                last_seq(scratch@.log, scratch@.client.0) <= last_seq(
                    before@.log,
                    before@.client.0,
                ) + done,
            decreases n - done,
        {
            let k: usize = done + 1;
            let prefix = path_prefix(&path, k);
            let ghost state = scratch@;
            proof {
                assert(valid_path(whole.take(k as int))) by {
                    assert forall|i: int| 0 <= i < k implies (#[trigger] whole.take(k as int)[i]).len()
                        > 0 by {
                        assert(whole.take(k as int)[i] == whole[i]);
                    }
                }
            }
            match scratch.projection.find_tag_by_path(&prefix) {
                Some(t) => {
                    leaf = t.id;
                    proof {
                        assert(state.projection.tags.contains_key(t@.id.0));
                    }
                },
                None => {
                    let tag_id = scratch.projection.next_tag_id(id.0);
                    let tag_color = if k == n {
                        color
                    } else {
                        None
                    };
                    let event = RepoEvent::CreateTag { id: tag_id, path: prefix, color: tag_color };
                    let ghost c = state.next_container(event@, now);
                    match scratch.record(event, now) {
                        Err(e) => {
                            proof {
                                lemma_resolve_fails(before@, whole, color, id, now, k as nat, n as nat);
                            }
                            return Err(e);
                        },
                        Ok(()) => {
                            leaf = tag_id;
                        },
                    }
                    proof {
                        assert(scratch@.log == state.log.push(c));
                        assert(scratch@.log.drop_last() =~= state.log);
                        assert forall|j: int| 1 <= j <= done implies scratch@.projection.path_taken(
                            #[trigger] whole.take(j),
                        ) by {
                            assert(state.projection.path_taken(whole.take(j)));
                            let w = choose|w: u128| #[trigger]
                                state.projection.tags.contains_key(w) && state.projection.tags[w].path
                                    == whole.take(j);
                            assert(scratch@.projection.tags.contains_key(w));
                        }
                    }
                },
            }
            proof {
                assert(scratch@.projection.tags.contains_key(leaf.0));
            }
            done = k;
        }
        assert(whole.take(n as int) =~= whole);
        *self = scratch;
        Ok(leaf)
    }

    /// Makes sure that the tag `tag_id` is live with the path `path`: where
    /// it is, nothing changes; else it is created under exactly this id,
    /// without a colour and without its parents, and the creation is refused
    /// as the fold refuses it, with `AlreadyExists` where the id or the path
    /// is taken.
    pub fn upsert_tag(&mut self, tag_id: TagId, path: Vec<String>, now: u64) -> (r: Result<
        (),
        RepoError,
    >)
        requires
            old(self).wf(),
        ensures
            final(self).wf(),
            carried_out(
                r,
                old(self)@,
                final(self)@,
                if old(self)@.projection.tags.contains_key(tag_id.0)
                    && old(self)@.projection.tags[tag_id.0].path == path_view(path@) {
                    Ok(old(self)@)
                } else {
                    old(self)@.local(
                        EventView::CreateTag { id: tag_id, path: path_view(path@), color: None },
                        now,
                    )
                },
            ),
    {
        match self.projection.get_tag(tag_id) {
            Some(t) => {
                if path_eq(&t.path, &path) {
                    return Ok(());
                }
            },
            None => {},
        }
        self.record(RepoEvent::CreateTag { id: tag_id, path, color: None }, now)
    }

    /// The first id from `seed` upward, wrapping round, that no node has or
    /// had. Creating a node with it is not refused for the id.
    pub fn get_next_node_id(&self, seed: u128) -> (id: NodeId)
        requires
            self.wf(),
        ensures
            id.0 == first_free(
                self@.projection.nodes.dom().union(self@.projection.deleted.dom()),
                seed,
                0,
            ),
            !self@.projection.nodes.contains_key(id.0),
            !self@.projection.deleted.contains_key(id.0),
    {
        self.projection.next_node_id(seed)
    }

    /// The first id from `seed` upward, wrapping round, that no live tag has.
    pub fn get_next_tag_id(&self, seed: u128) -> (id: TagId)
        requires
            self.wf(),
        ensures
            id.0 == first_free(self@.projection.tags.dom(), seed, 0),
            !self@.projection.tags.contains_key(id.0),
    {
        self.projection.next_tag_id(seed)
    }

    /// Deletes the live tag `tag_id` and every live tag below it, each by
    /// its own event, and takes them off every node. Refused with `NotFound`
    /// where the tag is not live, and with `StorageUnavailable` where the
    /// log cannot take an event for each of the tags; then nothing changes.
    pub fn delete_tag(&mut self, tag_id: TagId, now: u64) -> (r: Result<(), RepoError>)
        requires
            old(self).wf(),
        ensures
            final(self).wf(),
            match r {
                Ok(()) => {
                    &&& old(self)@.projection.tags.contains_key(tag_id.0)
                    &&& final(self)@.projection == pruned(
                        old(self)@.projection,
                        doomed(old(self)@.projection, tag_id.0),
                    )
                    &&& exists|order: Seq<u128>|
                        {
                            &&& #[trigger] order.to_set() == doomed(old(self)@.projection, tag_id.0)
                            &&& order.no_duplicates()
                            &&& old(self)@.delete_all(order, now) == Ok::<RepoView, RepoError>(
                                final(self)@,
                            )
                        }
                },
                Err(e) => {
                    &&& final(self)@ == old(self)@
                    &&& (e == RepoError::NotFound || e == RepoError::StorageUnavailable)
                    &&& (e == RepoError::NotFound <==> !old(self)@.projection.tags.contains_key(
                        tag_id.0,
                    ))
                },
            },
            r is Ok <==> old(self)@.projection.tags.contains_key(tag_id.0) && old(self)@.has_room_for(
                doomed(old(self)@.projection, tag_id.0).len(),
            ),
    {
        let root = match self.projection.get_tag(tag_id) {
            None => {
                return Err(RepoError::NotFound);
            },
            Some(t) => t,
        };
        let victims = self.projection.select_tags(TagFilter::Under, &root.path);
        let ghost before = *self;
        let ghost p = before@.projection;
        let ghost gone = doomed(p, tag_id.0);
        let ghost all = Seq::new(victims@.len(), |j: int| victims@[j]@.id.0);
        proof {
            assert forall|a: int, b: int| 0 <= a < all.len() && 0 <= b < all.len() && a != b implies all[a]
                != all[b] by {
                if a < b {
                    assert(victims@[a]@.id != victims@[b]@.id);
                } else {
                    assert(victims@[b]@.id != victims@[a]@.id);
                }
            }
            assert forall|k: u128| all.to_set().contains(k) <==> gone.contains(k) by {
                if all.to_set().contains(k) {
                    let j = choose|j: int| 0 <= j < all.len() && all[j] == k;
                    assert(p.tags.contains_key(victims@[j]@.id.0));
                }
                if gone.contains(k) {
                    assert(p.tags.contains_key(k));
                    let j = choose|j: int| 0 <= j < victims@.len() && (#[trigger] victims@[j])@.id.0 == k;
                    assert(all[j] == k);
                }
            }
            assert(all.to_set() =~= gone);
            all.unique_seq_to_set();
            assert(all.take(0) =~= Seq::<u128>::empty());
            assert(all.take(0).to_set() =~= Set::<u128>::empty());
            assert(pruned(p, Set::<u128>::empty()).tags =~= p.tags);
            assert forall|k: u128| p.nodes.contains_key(k) implies #[trigger] pruned(
                p,
                Set::<u128>::empty(),
            ).nodes[k] == p.nodes[k] by {
                assert(p.nodes[k].tags.difference(Set::<u128>::empty()) =~= p.nodes[k].tags);
            }
            assert(pruned(p, Set::<u128>::empty()).nodes =~= p.nodes);
        }
        let mut scratch = self.snapshot();
        let mut i: usize = 0;
        while i < victims.len()
            invariant
                *self == before,
                before.wf(),
                scratch.wf(),
                p == before@.projection,
                gone == doomed(p, tag_id.0),
                p.tags.contains_key(tag_id.0),
                all.len() == victims@.len(),
                forall|j: int| 0 <= j < all.len() ==> all[j] == (#[trigger] victims@[j])@.id.0,
                all.no_duplicates(),
                all.to_set() == gone,
                gone.len() == all.len(),
                forall|j: int| 0 <= j < all.len() ==> p.tags.contains_key(#[trigger] all[j]),
                i <= victims@.len(),
                before@.delete_all(all.take(i as int), now) == Ok::<RepoView, RepoError>(scratch@),
                scratch@.projection == pruned(p, all.take(i as int).to_set()),
                scratch@.client == before@.client,
                scratch@.capacity == before@.capacity,
                scratch@.log.len() == before@.log.len() + i,
                last_seq(scratch@.log, scratch@.client.0) == last_seq(
                    before@.log,
                    before@.client.0,
                ) + i,
            decreases victims@.len() - i,
        {
            let id = victims[i].id;
            let ghost sofar = all.take(i as int);
            let ghost state = scratch@;
            proof {
                assert(all.take(i + 1).drop_last() =~= sofar);
                assert(all.take(i + 1).last() == id.0);
                assert(!sofar.to_set().contains(id.0)) by {
                    if sofar.to_set().contains(id.0) {
                        let j = choose|j: int| 0 <= j < sofar.len() && sofar[j] == id.0;
                        assert(all[j] == all[i as int]);
                    }
                }
                assert(p.tags.contains_key(all[i as int]));
                let next = all.take(i + 1);
                assert(next =~= sofar.push(id.0));
                assert(next.to_set() =~= sofar.to_set().insert(id.0)) by {
                    assert forall|k: u128|
                        next.to_set().contains(k) <==> sofar.to_set().insert(id.0).contains(k) by {
                        if next.to_set().contains(k) {
                            let j = choose|j: int| 0 <= j < next.len() && next[j] == k;
                            if j < i {
                                assert(sofar[j] == k);
                            }
                        }
                        if sofar.to_set().contains(k) {
                            let j = choose|j: int| 0 <= j < sofar.len() && sofar[j] == k;
                            assert(next[j] == k);
                        }
                        if k == id.0 {
                            assert(next[i as int] == k);
                        }
                    }
                }
                if last_seq(state.log, state.client.0) < u64::MAX {
                    lemma_prune_step(
                        p,
                        sofar.to_set(),
                        state.next_container(EventView::DeleteTag { id }, now),
                        id.0,
                    );
                }
            }
            match scratch.record(RepoEvent::DeleteTag { id }, now) {
                Err(e) => {
                    return Err(e);
                },
                Ok(()) => {},
            }
            proof {
                assert(scratch@.log == state.log.push(
                    state.next_container(EventView::DeleteTag { id }, now),
                ));
                assert(scratch@.log.drop_last() =~= state.log);
            }
            i += 1;
        }
        proof {
            assert(all.take(i as int) =~= all);
            scratch.log.lemma_sound();
        }
        *self = scratch;
        Ok(())
    }

    /// Stores `data` in `store` under the id that its bytes give, unless the
    /// store already has that id, and hands the id back.
    pub fn upload_data_as_blob(&self, data: &[u8], store: &mut BlobStore) -> (r: Result<
        BlobId,
        RepoError,
    >)
        requires
            old(store).wf(),
        ensures
            final(store).wf(),
            match old(store)@.upload(BlobId(content_hash(data@)), data@) {
                Ok(s) => r == Ok::<BlobId, RepoError>(BlobId(content_hash(data@))) && final(store)@
                    == s,
                Err(e) => r == Err::<BlobId, RepoError>(RepoError::BlobError(e)) && final(store)@
                    == old(store)@,
            },
    {
        let id = BlobId::of(data);
        match upload_action(store.check_exists(&id)) {
            Err(e) => Err(e),
            Ok(UploadAction::Skip) => Ok(id),
            Ok(UploadAction::Send) => match store.upload(&id, data) {
                Err(e) => Err(RepoError::BlobError(e)),
                Ok(()) => Ok(id),
            },
        }
    }

    /// The bytes that `store` keeps under `blob_id`.
    pub fn get_blob_data(&self, blob_id: &BlobId, store: &BlobStore) -> (r: Result<Vec<u8>, RepoError>)
        requires
            store.wf(),
        ensures
            match store@.download(*blob_id) {
                Ok(bytes) => r matches Ok(v) && v@ == bytes,
                Err(e) => r == Err::<Vec<u8>, RepoError>(RepoError::BlobError(e)),
            },
    {
        match store.download(blob_id) {
            Ok(v) => Ok(v),
            Err(e) => Err(RepoError::BlobError(e)),
        }
    }
}

} // verus!
