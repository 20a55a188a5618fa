//! The projection that the engine keeps in memory, and the executable fold.

use vstd::prelude::*;
use crate::blob::{BlobId, BlobRecord};
use crate::error::RepoError;
use crate::event::{views, ContainerView, RepoEvent, RepoEventContainer};
use crate::id_set::{copy_ids, IdSet};
use crate::ids::{EventId, NodeId, TagId};
use crate::model::{
    first_free, later, lemma_first_free_is_free, lists_nodes, lists_tags, node_matches, replay,
    tag_matches, touched, without_tag, ProjectionView, TagFilter,
};
use crate::node::{NodeRecord, NodeView};
use crate::table::{
    lemma_table_dom, lemma_table_lookup, lemma_table_update, lemma_table_views_agree, table_map,
    Table,
};
use crate::tag::TagRecord;
use crate::text::{
    clone_path, path_eq, path_is_child, path_is_under, path_is_valid, path_view,
};

verus! {

/// Nodes, tombstones, tags and blob records, each found by id.
pub struct Projection {
    nodes: Table<NodeRecord>,
    deleted: Table<EventId>,
    tags: Table<TagRecord>,
    blobs: Table<BlobRecord>,
}

impl View for Projection {
    type V = ProjectionView;

    closed spec fn view(&self) -> ProjectionView {
        ProjectionView {
            nodes: self.nodes@,
            deleted: self.deleted@,
            tags: self.tags@,
            blobs: self.blobs@,
        }
    }
}

impl Projection {
    /// The tables are sound, every record is filed under its own id, and
    /// every node's sets are sound.
    pub closed spec fn wf(&self) -> bool {
        &&& self.nodes.wf()
        &&& self.deleted.wf()
        &&& self.tags.wf()
        &&& self.blobs.wf()
        &&& forall|i: int|
            0 <= i < self.nodes.vals@.len() ==> (#[trigger] self.nodes.vals@[i]).wf()
                && self.nodes.vals@[i].id.0 == self.nodes.keys@[i]
        &&& forall|i: int|
            0 <= i < self.tags.vals@.len() ==> (#[trigger] self.tags.vals@[i]).id.0
                == self.tags.keys@[i]
    }

    /// The projection before any event.
    pub fn new() -> (p: Projection)
        ensures
            p.wf(),
            p@ == ProjectionView::empty(),
    {
        Projection {
            nodes: Table::new(),
            deleted: Table::new(),
            tags: Table::new(),
            blobs: Table::new(),
        }
    }

    /// The position of a live tag with the path `path`.
    fn find_path(&self, path: &Vec<String>) -> (r: Option<usize>)
        requires
            self.wf(),
        ensures
            match r {
                Some(i) => {
                    &&& i < self.tags.vals@.len()
                    &&& self.tags.vals@[i as int]@.path == path_view(path@)
                    &&& self@.path_taken(path_view(path@))
                },
                None => !self@.path_taken(path_view(path@)),
            },
    {
        let mut i: usize = 0;
        while i < self.tags.vals.len()
            invariant
                self.wf(),
                i <= self.tags.vals@.len(),
                forall|j: int| 0 <= j < i ==> self.tags.vals@[j]@.path != path_view(path@),
            decreases self.tags.vals@.len() - i,
        {
            if path_eq(&self.tags.vals[i].path, path) {
                proof {
                    lemma_table_lookup(self.tags.keys@, self.tags.vals@, i as int);
                    assert(self@.tags.contains_key(self.tags.keys@[i as int]));
                }
                return Some(i);
            }
            i += 1;
        }
        proof {
            assert forall|k: u128| #[trigger] self@.tags.contains_key(k) implies self@.tags[k].path
                != path_view(path@) by {
                let j = self.tags.keys@.index_of(k);
                lemma_table_lookup(self.tags.keys@, self.tags.vals@, j);
            }
        }
        None
    }

    /// Marks the node at position `i` as touched by the event `id` at `timestamp`.
    fn touch(&mut self, i: usize, id: EventId, timestamp: u64)
        requires
            i < old(self).nodes.vals@.len(),
        ensures
            final(self).nodes.keys == old(self).nodes.keys,
            final(self).deleted == old(self).deleted,
            final(self).tags == old(self).tags,
            final(self).blobs == old(self).blobs,
            final(self).nodes.vals@ == old(self).nodes.vals@.update(
                i as int,
                final(self).nodes.vals@[i as int],
            ),
            final(self).nodes.vals@[i as int] == (NodeRecord {
                date_updated: later(old(self).nodes.vals@[i as int].date_updated, timestamp),
                last_event: id,
                ..old(self).nodes.vals@[i as int]
            }),
    {
        if timestamp > self.nodes.vals[i].date_updated {
            self.nodes.vals[i].date_updated = timestamp;
        }
        self.nodes.vals[i].last_event = id;
    }

    /// What is left to show once the node at position `i` has been changed in
    /// place: the table stands for the old map with that node's entry replaced.
    proof fn lemma_node_changed(self, before: Projection, i: int)
        requires
            before.wf(),
            0 <= i < before.nodes.vals@.len(),
            self.nodes.keys == before.nodes.keys,
            self.nodes.vals@.len() == before.nodes.vals@.len(),
            forall|j: int|
                0 <= j < before.nodes.vals@.len() && j != i ==> self.nodes.vals@[j]
                    == before.nodes.vals@[j],
            self.nodes.vals@[i].wf(),
            self.nodes.vals@[i].id == before.nodes.vals@[i].id,
            self.deleted == before.deleted,
            self.tags == before.tags,
            self.blobs.wf(),
        ensures
            self.wf(),
            self@.nodes == before@.nodes.insert(before.nodes.keys@[i], self.nodes.vals@[i]@),
            before@.nodes.contains_key(before.nodes.keys@[i]),
            before@.nodes[before.nodes.keys@[i]] == before.nodes.vals@[i]@,
    {
        assert(self.nodes.vals@ =~= before.nodes.vals@.update(i, self.nodes.vals@[i]));
        lemma_table_update(before.nodes.keys@, before.nodes.vals@, i, self.nodes.vals@[i]);
        lemma_table_lookup(before.nodes.keys@, before.nodes.vals@, i);
        assert forall|j: int| 0 <= j < self.nodes.vals@.len() implies (#[trigger] self.nodes.vals@[j]).wf()
            && self.nodes.vals@[j].id.0 == self.nodes.keys@[j] by {
            if j != i {
                assert(self.nodes.vals@[j] == before.nodes.vals@[j]);
            }
        }
    }

    /// The fold: applies `c`, or refuses it and changes nothing.
    pub fn step(&mut self, c: &RepoEventContainer) -> (r: Result<(), RepoError>)
        requires
            old(self).wf(),
        ensures
            final(self).wf(),
            match old(self)@.step(c@) {
                Ok(p) => r is Ok && final(self)@ == p,
                Err(e) => r == Err::<(), RepoError>(e) && final(self)@ == old(self)@,
            },
    {
        let ghost before = *self;
        match &c.event {
            RepoEvent::CreateNode { id, title, data } => {
                if self.nodes.contains_key(id.0) || self.deleted.contains_key(id.0) {
                    return Err(RepoError::AlreadyExists);
                }
                let record = NodeRecord {
                    id: *id,
                    title: title.clone(),
                    data: data.clone(),
                    date_created: c.timestamp,
                    date_updated: c.timestamp,
                    tags: IdSet::new(),
                    untagged: IdSet::new(),
                    blobs: IdSet::new(),
                    title_stamp: c.key(),
                    data_stamp: c.key(),
                    last_event: c.id,
                };
                self.nodes.insert_new(id.0, record);
                Ok(())
            },
            RepoEvent::RenameNode { id, title } => {
                match self.nodes.find(id.0) {
                    None => Err(RepoError::NotFound),
                    Some(i) => {
                        let key = c.key();
                        if self.nodes.vals[i].title_stamp.is_before(&key) {
                            self.nodes.vals[i].title = title.clone();
                            self.nodes.vals[i].title_stamp = key;
                        }
                        self.touch(i, c.id, c.timestamp);
                        proof {
                            self.lemma_node_changed(before, i as int);
                        }
                        Ok(())
                    },
                }
            },
            RepoEvent::UpdateNode { id, data } => {
                match self.nodes.find(id.0) {
                    None => Err(RepoError::NotFound),
                    Some(i) => {
                        let key = c.key();
                        if self.nodes.vals[i].data_stamp.is_before(&key) {
                            self.nodes.vals[i].data = data.clone();
                            self.nodes.vals[i].data_stamp = key;
                        }
                        self.touch(i, c.id, c.timestamp);
                        proof {
                            self.lemma_node_changed(before, i as int);
                        }
                        Ok(())
                    },
                }
            },
            RepoEvent::DeleteNode { id } => {
                match self.nodes.find(id.0) {
                    Some(i) => {
                        self.nodes.remove_at(i);
                        self.deleted.insert(id.0, c.id);
                        Ok(())
                    },
                    None => {
                        if self.deleted.contains_key(id.0) {
                            Ok(())
                        } else {
                            Err(RepoError::NotFound)
                        }
                    },
                }
            },
            RepoEvent::CreateTag { id, path, color } => {
                if !path_is_valid(path) {
                    return Err(RepoError::InvalidPath);
                }
                if self.tags.contains_key(id.0) || self.find_path(path).is_some() {
                    return Err(RepoError::AlreadyExists);
                }
                let record = TagRecord { id: *id, path: clone_path(path), color: *color };
                self.tags.insert_new(id.0, record);
                Ok(())
            },
            RepoEvent::DeleteTag { id } => {
                match self.tags.find(id.0) {
                    None => Err(RepoError::NotFound),
                    Some(i) => {
                        self.tags.remove_at(i);
                        self.sweep(id.0);
                        Ok(())
                    },
                }
            },
            RepoEvent::TagNode { node, tag } => {
                if !self.tags.contains_key(tag.0) {
                    return Err(RepoError::NotFound);
                }
                match self.nodes.find(node.0) {
                    None => Err(RepoError::NotFound),
                    Some(i) => {
                        if !self.nodes.vals[i].untagged.contains(tag.0) {
                            self.nodes.vals[i].tags.insert(tag.0);
                        }
                        self.touch(i, c.id, c.timestamp);
                        proof {
                            self.lemma_node_changed(before, i as int);
                        }
                        Ok(())
                    },
                }
            },
            RepoEvent::UntagNode { node, tag } => {
                match self.nodes.find(node.0) {
                    None => Err(RepoError::NotFound),
                    Some(i) => {
                        self.nodes.vals[i].tags.remove(tag.0);
                        self.nodes.vals[i].untagged.insert(tag.0);
                        self.touch(i, c.id, c.timestamp);
                        proof {
                            self.lemma_node_changed(before, i as int);
                        }
                        Ok(())
                    },
                }
            },
            RepoEvent::AttachBlob { node, blob } => {
                match self.nodes.find(node.0) {
                    None => Err(RepoError::NotFound),
                    Some(i) => {
                        self.nodes.vals[i].blobs.insert(blob.id.0);
                        self.touch(i, c.id, c.timestamp);
                        self.blobs.insert(blob.id.0, *blob);
                        proof {
                            self.lemma_node_changed(before, i as int);
                        }
                        Ok(())
                    },
                }
            },
        }
    }

    /// The first id from `seed` upward, wrapping round, that no live tag
    /// has.
    pub fn next_tag_id(&self, seed: u128) -> (id: TagId)
        requires
            self.wf(),
        ensures
            id.0 == first_free(self@.tags.dom(), seed, 0),
            !self@.tags.contains_key(id.0),
    {
        let rows: usize = self.tags.len();
        proof {
            lemma_table_dom(self.tags.keys@, self.tags.vals@);
            lemma_first_free_is_free(self@.tags.dom(), seed);
        }
        let ghost used = self@.tags.dom();
        let mut k: u128 = 0;
        loop
            invariant
                self.wf(),
                used == self@.tags.dom(),
                first_free(used, seed, k as nat) == first_free(used, seed, 0),
                !used.contains(first_free(used, seed, 0)),
            decreases u128::MAX - k,
        {
            let candidate = seed.wrapping_add(k);
            if !self.tags.contains_key(candidate) {
                return TagId(candidate);
            }
            if k == u128::MAX {
                assert(first_free(used, seed, (k + 1) as nat) == seed);
                return TagId(seed);
            }
            k += 1;
        }
    }

    /// The first id from `seed` upward, wrapping round, that no node has or
    /// had: neither a live node nor a deleted one.
    pub fn next_node_id(&self, seed: u128) -> (id: NodeId)
        requires
            self.wf(),
        ensures
            id.0 == first_free(self@.nodes.dom().union(self@.deleted.dom()), seed, 0),
            !self@.nodes.contains_key(id.0),
            !self@.deleted.contains_key(id.0),
    {
        let ghost used = self@.nodes.dom().union(self@.deleted.dom());
        let live: usize = self.nodes.len();
        let gone: usize = self.deleted.len();
        proof {
            lemma_table_dom(self.nodes.keys@, self.nodes.vals@);
            lemma_table_dom(self.deleted.keys@, self.deleted.vals@);
            vstd::set_lib::lemma_set_union_finite_iff(self@.nodes.dom(), self@.deleted.dom());
            vstd::set_lib::lemma_len_union(self@.nodes.dom(), self@.deleted.dom());
            lemma_first_free_is_free(used, seed);
        }
        let mut k: u128 = 0;
        loop
            invariant
                self.wf(),
                used == self@.nodes.dom().union(self@.deleted.dom()),
                first_free(used, seed, k as nat) == first_free(used, seed, 0),
                !used.contains(first_free(used, seed, 0)),
            decreases u128::MAX - k,
        {
            let candidate = seed.wrapping_add(k);
            if !self.nodes.contains_key(candidate) && !self.deleted.contains_key(candidate) {
                return NodeId(candidate);
            }
            if k == u128::MAX {
                assert(first_free(used, seed, (k + 1) as nat) == seed);
                return NodeId(seed);
            }
            k += 1;
        }
    }

    /// The projection that `events` fold to from nothing, first event first;
    /// an event that the fold refuses is passed over.
    pub fn replay(events: &Vec<RepoEventContainer>) -> (p: Projection)
        ensures
            p.wf(),
            p@ == replay(views(events@)),
    {
        let mut p = Projection::new();
        let ghost log = views(events@);
        let mut i: usize = 0;
        assert(log.take(0) =~= Seq::<ContainerView>::empty());
        while i < events.len()
            invariant
                i <= events@.len(),
                log == views(events@),
                p.wf(),
                p@ == replay(log.take(i as int)),
            decreases events@.len() - i,
        {
            proof {
                assert(log.take(i + 1).drop_last() =~= log.take(i as int));
                assert(log.take(i + 1).last() == events@[i as int]@);
            }
            let stepped = p.step(&events[i]);
            i += 1;
        }
        assert(log.take(i as int) =~= log);
        p
    }

    /// Whether the fold would take `c`, and why not if it would not. Changes
    /// nothing.
    pub fn check(&self, c: &RepoEventContainer) -> (r: Result<(), RepoError>)
        requires
            self.wf(),
        ensures
            match self@.step(c@) {
                Ok(_) => r is Ok,
                Err(e) => r == Err::<(), RepoError>(e),
            },
    {
        match &c.event {
            RepoEvent::CreateNode { id, title, data } => {
                if self.nodes.contains_key(id.0) || self.deleted.contains_key(id.0) {
                    Err(RepoError::AlreadyExists)
                } else {
                    Ok(())
                }
            },
            RepoEvent::RenameNode { id, title } => {
                if self.nodes.contains_key(id.0) {
                    Ok(())
                } else {
                    Err(RepoError::NotFound)
                }
            },
            RepoEvent::UpdateNode { id, data } => {
                if self.nodes.contains_key(id.0) {
                    Ok(())
                } else {
                    Err(RepoError::NotFound)
                }
            },
            RepoEvent::DeleteNode { id } => {
                if self.nodes.contains_key(id.0) || self.deleted.contains_key(id.0) {
                    Ok(())
                } else {
                    Err(RepoError::NotFound)
                }
            },
            RepoEvent::CreateTag { id, path, color } => {
                if !path_is_valid(path) {
                    Err(RepoError::InvalidPath)
                } else if self.tags.contains_key(id.0) || self.find_path(path).is_some() {
                    Err(RepoError::AlreadyExists)
                } else {
                    Ok(())
                }
            },
            RepoEvent::DeleteTag { id } => {
                if self.tags.contains_key(id.0) {
                    Ok(())
                } else {
                    Err(RepoError::NotFound)
                }
            },
            RepoEvent::TagNode { node, tag } => {
                if self.nodes.contains_key(node.0) && self.tags.contains_key(tag.0) {
                    Ok(())
                } else {
                    Err(RepoError::NotFound)
                }
            },
            RepoEvent::UntagNode { node, tag } => {
                if self.nodes.contains_key(node.0) {
                    Ok(())
                } else {
                    Err(RepoError::NotFound)
                }
            },
            RepoEvent::AttachBlob { node, blob } => {
                if self.nodes.contains_key(node.0) {
                    Ok(())
                } else {
                    Err(RepoError::NotFound)
                }
            },
        }
    }

    /// Whether the node `id` is live.
    pub fn has_node(&self, id: NodeId) -> (b: bool)
        requires
            self.wf(),
        ensures
            b == self@.nodes.contains_key(id.0),
    {
        self.nodes.contains_key(id.0)
    }

    /// The live node `id`.
    pub fn get_node(&self, id: NodeId) -> (r: Option<NodeRecord>)
        requires
            self.wf(),
        ensures
            match r {
                Some(n) => self@.nodes.contains_key(id.0) && n@ == self@.nodes[id.0] && n.wf(),
                None => !self@.nodes.contains_key(id.0),
            },
    {
        match self.nodes.find(id.0) {
            Some(i) => Some(self.nodes.vals[i].clone()),
            None => None,
        }
    }

    /// The event that deleted the node `id`.
    pub fn deleted_by(&self, id: NodeId) -> (r: Option<EventId>)
        requires
            self.wf(),
        ensures
            match r {
                Some(e) => self@.deleted.contains_key(id.0) && e == self@.deleted[id.0],
                None => !self@.deleted.contains_key(id.0),
            },
    {
        match self.deleted.find(id.0) {
            Some(i) => Some(self.deleted.vals[i]),
            None => None,
        }
    }

    /// The live tag `id`.
    pub fn get_tag(&self, id: TagId) -> (r: Option<TagRecord>)
        requires
            self.wf(),
        ensures
            match r {
                Some(t) => self@.tags.contains_key(id.0) && t@ == self@.tags[id.0],
                None => !self@.tags.contains_key(id.0),
            },
    {
        match self.tags.find(id.0) {
            Some(i) => Some(self.tags.vals[i].clone()),
            None => None,
        }
    }

    /// What is recorded of the blob `id`.
    pub fn get_blob_record(&self, id: BlobId) -> (r: Option<BlobRecord>)
        requires
            self.wf(),
        ensures
            match r {
                Some(b) => self@.blobs.contains_key(id.0) && b == self@.blobs[id.0],
                None => !self@.blobs.contains_key(id.0),
            },
    {
        match self.blobs.find(id.0) {
            Some(i) => Some(self.blobs.vals[i]),
            None => None,
        }
    }

    /// The live tag whose path is `path`.
    pub fn find_tag_by_path(&self, path: &Vec<String>) -> (r: Option<TagRecord>)
        requires
            self.wf(),
        ensures
            match r {
                Some(t) => {
                    &&& self@.tags.contains_key(t@.id.0)
                    &&& self@.tags[t@.id.0] == t@
                    &&& t@.path == path_view(path@)
                },
                None => !self@.path_taken(path_view(path@)),
            },
    {
        match self.find_path(path) {
            Some(i) => {
                proof {
                    lemma_table_lookup(self.tags.keys@, self.tags.vals@, i as int);
                }
                Some(self.tags.vals[i].clone())
            },
            None => None,
        }
    }

    /// The tags that `filter` asks for with respect to `path`, each once.
    pub fn select_tags(&self, filter: TagFilter, path: &Vec<String>) -> (out: Vec<TagRecord>)
        requires
            self.wf(),
        ensures
            lists_tags(out@, self@.tags, filter, path_view(path@)),
    {
        let mut out: Vec<TagRecord> = Vec::new();
        let ghost mut src: Seq<int> = Seq::empty();
        let mut i: usize = 0;
        while i < self.tags.vals.len()
            invariant
                self.wf(),
                i <= self.tags.vals@.len(),
                src.len() == out@.len(),
                forall|j: int|
                    0 <= j < out@.len() ==> 0 <= #[trigger] src[j] < i && out@[j]@
                        == self.tags.vals@[src[j]]@,
                forall|a: int, b: int| 0 <= a < b < src.len() ==> #[trigger] src[a] < #[trigger] src[b],
                forall|j: int|
                    0 <= j < out@.len() ==> tag_matches(filter, path_view(path@), (#[trigger] out@[j])@),
                forall|idx: int|
                    0 <= idx < i && tag_matches(
                        filter,
                        path_view(path@),
                        (#[trigger] self.tags.vals@[idx])@,
                    ) ==> exists|j: int| 0 <= j < out@.len() && src[j] == idx,
            decreases self.tags.vals@.len() - i,
        {
            let wanted = match filter {
                TagFilter::All => true,
                TagFilter::ChildOf => path_is_child(&self.tags.vals[i].path, path),
                TagFilter::Under => path_is_under(&self.tags.vals[i].path, path),
            };
            if wanted {
                let ghost old_src = src;
                let ghost old_len = out@.len();
                out.push(self.tags.vals[i].clone());
                proof {
                    src = src.push(i as int);
                    assert forall|idx: int|
                        0 <= idx < i + 1 && tag_matches(
                            filter,
                            path_view(path@),
                            (#[trigger] self.tags.vals@[idx])@,
                        ) implies exists|j: int| 0 <= j < out@.len() && src[j] == idx by {
                        if idx < i {
                            let j = choose|j: int| 0 <= j < old_len && old_src[j] == idx;
                            assert(src[j] == idx);
                        } else {
                            assert(src[old_len as int] == idx);
                        }
                    }
                }
            }
            i += 1;
        }
        proof {
            let tags = self@.tags;
            assert forall|j: int| 0 <= j < out@.len() implies {
                &&& tags.contains_key((#[trigger] out@[j])@.id.0)
                &&& tags[out@[j]@.id.0] == out@[j]@
            } by {
                lemma_table_lookup(self.tags.keys@, self.tags.vals@, src[j]);
            }
            assert forall|k: u128|
                #[trigger] tags.contains_key(k) && tag_matches(
                    filter,
                    path_view(path@),
                    tags[k],
                ) implies exists|j: int| 0 <= j < out@.len() && (#[trigger] out@[j])@.id.0 == k by {
                let idx = self.tags.keys@.index_of(k);
                lemma_table_lookup(self.tags.keys@, self.tags.vals@, idx);
                let j = choose|j: int| 0 <= j < out@.len() && src[j] == idx;
                assert(out@[j]@.id.0 == k);
            }
            assert forall|a: int, b: int| 0 <= a < b < out@.len() implies (#[trigger] out@[a])@.id != (
            #[trigger] out@[b])@.id by {
                assert(src[a] < src[b]);
                assert(self.tags.keys@[src[a]] != self.tags.keys@[src[b]]);
            }
        }
        out
    }

    /// The live nodes that carry `tag`, or every live node where no tag is
    /// given; each once.
    pub fn select_nodes(&self, tag: Option<TagId>) -> (out: Vec<NodeRecord>)
        requires
            self.wf(),
        ensures
            lists_nodes(
                out@,
                self@.nodes,
                match tag {
                    Some(t) => Some(t.0),
                    None => None,
                },
            ),
    {
        let ghost want: Option<u128> = match tag {
            Some(t) => Some(t.0),
            None => None,
        };
        let mut out: Vec<NodeRecord> = Vec::new();
        let ghost mut src: Seq<int> = Seq::empty();
        let mut i: usize = 0;
        while i < self.nodes.vals.len()
            invariant
                self.wf(),
                want == match tag {
                    Some(t) => Some(t.0),
                    None => None::<u128>,
                },
                i <= self.nodes.vals@.len(),
                src.len() == out@.len(),
                forall|j: int|
                    0 <= j < out@.len() ==> 0 <= #[trigger] src[j] < i && out@[j]@
                        == self.nodes.vals@[src[j]]@ && out@[j].wf(),
                forall|a: int, b: int| 0 <= a < b < src.len() ==> #[trigger] src[a] < #[trigger] src[b],
                forall|j: int| 0 <= j < out@.len() ==> node_matches(want, (#[trigger] out@[j])@),
                forall|idx: int|
                    0 <= idx < i && node_matches(want, (#[trigger] self.nodes.vals@[idx])@)
                        ==> exists|j: int| 0 <= j < out@.len() && src[j] == idx,
            decreases self.nodes.vals@.len() - i,
        {
            let wanted = match tag {
                None => true,
                Some(t) => self.nodes.vals[i].tags.contains(t.0),
            };
            if wanted {
                let ghost old_src = src;
                let ghost old_len = out@.len();
                out.push(self.nodes.vals[i].clone());
                proof {
                    src = src.push(i as int);
                    assert forall|idx: int|
                        0 <= idx < i + 1 && node_matches(
                            want,
                            (#[trigger] self.nodes.vals@[idx])@,
                        ) implies exists|j: int| 0 <= j < out@.len() && src[j] == idx by {
                        if idx < i {
                            let j = choose|j: int| 0 <= j < old_len && old_src[j] == idx;
                            assert(src[j] == idx);
                        } else {
                            assert(src[old_len as int] == idx);
                        }
                    }
                }
            }
            i += 1;
        }
        proof {
            let nodes = self@.nodes;
            assert forall|j: int| 0 <= j < out@.len() implies {
                &&& nodes.contains_key((#[trigger] out@[j])@.id.0)
                &&& nodes[out@[j]@.id.0] == out@[j]@
            } by {
                lemma_table_lookup(self.nodes.keys@, self.nodes.vals@, src[j]);
            }
            assert forall|k: u128|
                #[trigger] nodes.contains_key(k) && node_matches(want, nodes[k]) implies exists|j: int|
                0 <= j < out@.len() && (#[trigger] out@[j])@.id.0 == k by {
                let idx = self.nodes.keys@.index_of(k);
                lemma_table_lookup(self.nodes.keys@, self.nodes.vals@, idx);
                let j = choose|j: int| 0 <= j < out@.len() && src[j] == idx;
                assert(out@[j]@.id.0 == k);
            }
            assert forall|a: int, b: int| 0 <= a < b < out@.len() implies (#[trigger] out@[a])@.id != (
            #[trigger] out@[b])@.id by {
                assert(src[a] < src[b]);
                assert(self.nodes.keys@[src[a]] != self.nodes.keys@[src[b]]);
            }
        }
        out
    }

    /// Takes `tag` off every node.
    fn sweep(&mut self, tag: u128)
        requires
            old(self).nodes.wf(),
            forall|i: int|
                0 <= i < old(self).nodes.vals@.len() ==> (#[trigger] old(self).nodes.vals@[i]).wf()
                    && old(self).nodes.vals@[i].id.0 == old(self).nodes.keys@[i],
        ensures
            final(self).nodes.wf(),
            forall|i: int|
                0 <= i < final(self).nodes.vals@.len() ==> (#[trigger] final(self).nodes.vals@[i]).wf()
                    && final(self).nodes.vals@[i].id.0 == final(self).nodes.keys@[i],
            final(self).nodes.keys == old(self).nodes.keys,
            final(self).deleted == old(self).deleted,
            final(self).tags == old(self).tags,
            final(self).blobs == old(self).blobs,
            final(self).nodes@ == old(self).nodes@.map_values(|n: NodeView| without_tag(n, tag)),
    {
        let ghost vals0 = self.nodes.vals@;
        let ghost keys = self.nodes.keys@;
        let mut j: usize = 0;
        while j < self.nodes.vals.len()
            invariant
                self.nodes.keys@ == keys,
                self.nodes.keys == old(self).nodes.keys,
                self.deleted == old(self).deleted,
                self.tags == old(self).tags,
                self.blobs == old(self).blobs,
                keys.no_duplicates(),
                keys.len() == vals0.len(),
                self.nodes.vals@.len() == vals0.len(),
                j <= vals0.len(),
                forall|k: int|
                    0 <= k < vals0.len() ==> (#[trigger] self.nodes.vals@[k]).wf()
                        && self.nodes.vals@[k].id.0 == keys[k],
                forall|k: int| 0 <= k < j ==> (#[trigger] self.nodes.vals@[k])@ == without_tag(vals0[k]@, tag),
                forall|k: int| j <= k < vals0.len() ==> #[trigger] self.nodes.vals@[k] == vals0[k],
            decreases vals0.len() - j,
        {
            self.nodes.vals[j].tags.remove(tag);
            j += 1;
        }
        proof {
            let f = |n: NodeView| without_tag(n, tag);
            assert forall|k: u128| keys.contains(k) implies #[trigger] table_map(
                keys,
                self.nodes.vals@,
            )[k] == table_map(keys, vals0).map_values(f)[k] by {
                let idx = keys.index_of(k);
                lemma_table_lookup(keys, vals0, idx);
                lemma_table_lookup(keys, self.nodes.vals@, idx);
            }
            assert(table_map(keys, self.nodes.vals@) =~= table_map(keys, vals0).map_values(f));
        }
    }
}

fn clone_nodes(v: &Vec<NodeRecord>) -> (r: Vec<NodeRecord>)
    ensures
        r@.len() == v@.len(),
        forall|i: int|
            0 <= i < v@.len() ==> (#[trigger] r@[i])@ == v@[i]@ && (v@[i].wf() ==> r@[i].wf()),
{
    let mut r: Vec<NodeRecord> = Vec::new();
    let mut i: usize = 0;
    while i < v.len()
        invariant
            i <= v@.len(),
            r@.len() == i,
            forall|j: int| 0 <= j < i ==> (#[trigger] r@[j])@ == v@[j]@ && (v@[j].wf() ==> r@[j].wf()),
        decreases v@.len() - i,
    {
        r.push(v[i].clone());
        i += 1;
    }
    r
}

fn clone_tags(v: &Vec<TagRecord>) -> (r: Vec<TagRecord>)
    ensures
        r@.len() == v@.len(),
        forall|i: int| 0 <= i < v@.len() ==> (#[trigger] r@[i])@ == v@[i]@,
{
    let mut r: Vec<TagRecord> = Vec::new();
    let mut i: usize = 0;
    while i < v.len()
        invariant
            i <= v@.len(),
            r@.len() == i,
            forall|j: int| 0 <= j < i ==> (#[trigger] r@[j])@ == v@[j]@,
        decreases v@.len() - i,
    {
        r.push(v[i].clone());
        i += 1;
    }
    r
}

fn copy_event_ids(v: &Vec<EventId>) -> (r: Vec<EventId>)
    ensures
        r@ == v@,
{
    let mut r: Vec<EventId> = Vec::new();
    let mut i: usize = 0;
    while i < v.len()
        invariant
            i <= v@.len(),
            r@ == v@.take(i as int),
        decreases v@.len() - i,
    {
        r.push(v[i]);
        assert(v@.take(i as int).push(v@[i as int]) =~= v@.take(i + 1));
        i += 1;
    }
    assert(v@.take(i as int) =~= v@);
    r
}

fn copy_blob_records(v: &Vec<BlobRecord>) -> (r: Vec<BlobRecord>)
    ensures
        r@ == v@,
{
    let mut r: Vec<BlobRecord> = Vec::new();
    let mut i: usize = 0;
    while i < v.len()
        invariant
            i <= v@.len(),
            r@ == v@.take(i as int),
        decreases v@.len() - i,
    {
        r.push(v[i]);
        assert(v@.take(i as int).push(v@[i as int]) =~= v@.take(i + 1));
        i += 1;
    }
    assert(v@.take(i as int) =~= v@);
    r
}

impl Clone for Projection {
    fn clone(&self) -> (r: Projection)
        ensures
            self.wf() ==> r.wf() && r@ == self@,
    {
        let r = Projection {
            nodes: Table { keys: copy_ids(&self.nodes.keys), vals: clone_nodes(&self.nodes.vals) },
            deleted: Table {
                keys: copy_ids(&self.deleted.keys),
                vals: copy_event_ids(&self.deleted.vals),
            },
            tags: Table { keys: copy_ids(&self.tags.keys), vals: clone_tags(&self.tags.vals) },
            blobs: Table {
                keys: copy_ids(&self.blobs.keys),
                vals: copy_blob_records(&self.blobs.vals),
            },
        };
        proof {
            if self.nodes.keys@.len() == self.nodes.vals@.len() {
                lemma_table_views_agree(self.nodes.keys@, r.nodes.vals@, self.nodes.vals@);
            }
            if self.tags.keys@.len() == self.tags.vals@.len() {
                lemma_table_views_agree(self.tags.keys@, r.tags.vals@, self.tags.vals@);
            }
            assert(r.deleted@ == self.deleted@);
            assert(r.blobs@ == self.blobs@);
        }
        r
    }
}

} // verus!
