//! The projection as a mathematical value, and the fold that every replica
//! runs: one event in, the next projection or a refusal out.

use vstd::prelude::*;
use crate::blob::BlobRecord;
use crate::error::RepoError;
use crate::event::{ContainerView, EventView};
use crate::ids::EventId;
use crate::node::{NodeRecord, NodeView};
use crate::tag::{TagRecord, TagView};
use crate::text::{is_child_path, is_under, valid_path};

verus! {

/// The larger of two times.
pub open spec fn later(a: u64, b: u64) -> u64 {
    if a >= b {
        a
    } else {
        b
    }
}

/// The current state of nodes, tags and blob records, keyed by the number
/// inside each id. A node is live while `nodes` holds it, deleted once
/// `deleted` holds it, and absent before that.
pub struct ProjectionView {
    pub nodes: Map<u128, NodeView>,
    pub deleted: Map<u128, EventId>,
    pub tags: Map<u128, TagView>,
    pub blobs: Map<u128, BlobRecord>,
}

/// `n` as it is after `c` touched it.
pub open spec fn touched(n: NodeView, c: ContainerView) -> NodeView {
    NodeView { date_updated: later(n.date_updated, c.timestamp), last_event: c.id, ..n }
}

/// `n` without the tag `tag`.
pub open spec fn without_tag(n: NodeView, tag: u128) -> NodeView {
    NodeView { tags: n.tags.remove(tag), ..n }
}

impl ProjectionView {
    /// The projection before any event.
    pub open spec fn empty() -> ProjectionView {
        ProjectionView {
            nodes: Map::empty(),
            deleted: Map::empty(),
            tags: Map::empty(),
            blobs: Map::empty(),
        }
    }

    /// Some live tag has the path `path`.
    pub open spec fn path_taken(self, path: Seq<Seq<char>>) -> bool {
        exists|k: u128| #[trigger] self.tags.contains_key(k) && self.tags[k].path == path
    }

    /// The fold: what `c` makes of this projection. An `Err` leaves the
    /// projection as it is.
    pub open spec fn step(self, c: ContainerView) -> Result<ProjectionView, RepoError> {
        match c.event {
            EventView::CreateNode { id, title, data } => {
                if self.nodes.contains_key(id.0) || self.deleted.contains_key(id.0) {
                    Err(RepoError::AlreadyExists)
                } else {
                    Ok(
                        ProjectionView {
                            nodes: self.nodes.insert(
                                id.0,
                                NodeView {
                                    id,
                                    title,
                                    data,
                                    date_created: c.timestamp,
                                    date_updated: c.timestamp,
                                    tags: Set::empty(),
                                    untagged: Set::empty(),
                                    blobs: Set::empty(),
                                    title_stamp: c.key(),
                                    data_stamp: c.key(),
                                    last_event: c.id,
                                },
                            ),
                            ..self
                        },
                    )
                }
            },
            EventView::RenameNode { id, title } => {
                if !self.nodes.contains_key(id.0) {
                    Err(RepoError::NotFound)
                } else {
                    let n = self.nodes[id.0];
                    let renamed = if n.title_stamp.before(c.key()) {
                        NodeView { title, title_stamp: c.key(), ..n }
                    } else {
                        n
                    };
                    Ok(ProjectionView { nodes: self.nodes.insert(id.0, touched(renamed, c)), ..self })
                }
            },
            EventView::UpdateNode { id, data } => {
                if !self.nodes.contains_key(id.0) {
                    Err(RepoError::NotFound)
                } else {
                    let n = self.nodes[id.0];
                    let updated = if n.data_stamp.before(c.key()) {
                        NodeView { data, data_stamp: c.key(), ..n }
                    } else {
                        n
                    };
                    Ok(ProjectionView { nodes: self.nodes.insert(id.0, touched(updated, c)), ..self })
                }
            },
            EventView::DeleteNode { id } => {
                if self.nodes.contains_key(id.0) {
                    Ok(
                        ProjectionView {
                            nodes: self.nodes.remove(id.0),
                            deleted: self.deleted.insert(id.0, c.id),
                            ..self
                        },
                    )
                } else if self.deleted.contains_key(id.0) {
                    Ok(self)
                } else {
                    Err(RepoError::NotFound)
                }
            },
            EventView::CreateTag { id, path, color } => {
                if !valid_path(path) {
                    Err(RepoError::InvalidPath)
                } else if self.tags.contains_key(id.0) || self.path_taken(path) {
                    Err(RepoError::AlreadyExists)
                } else {
                    Ok(ProjectionView { tags: self.tags.insert(id.0, TagView { id, path, color }), ..self })
                }
            },
            EventView::DeleteTag { id } => {
                if !self.tags.contains_key(id.0) {
                    Err(RepoError::NotFound)
                } else {
                    Ok(
                        ProjectionView {
                            tags: self.tags.remove(id.0),
                            nodes: self.nodes.map_values(|n: NodeView| without_tag(n, id.0)),
                            ..self
                        },
                    )
                }
            },
            EventView::TagNode { node, tag } => {
                if !self.nodes.contains_key(node.0) || !self.tags.contains_key(tag.0) {
                    Err(RepoError::NotFound)
                } else {
                    let n = self.nodes[node.0];
                    let tagged = if n.untagged.contains(tag.0) {
                        n
                    } else {
                        NodeView { tags: n.tags.insert(tag.0), ..n }
                    };
                    Ok(ProjectionView { nodes: self.nodes.insert(node.0, touched(tagged, c)), ..self })
                }
            },
            EventView::UntagNode { node, tag } => {
                if !self.nodes.contains_key(node.0) {
                    Err(RepoError::NotFound)
                } else {
                    let n = self.nodes[node.0];
                    let untagged = NodeView {
                        tags: n.tags.remove(tag.0),
                        untagged: n.untagged.insert(tag.0),
                        ..n
                    };
                    Ok(ProjectionView { nodes: self.nodes.insert(node.0, touched(untagged, c)), ..self })
                }
            },
            EventView::AttachBlob { node, blob } => {
                if !self.nodes.contains_key(node.0) {
                    Err(RepoError::NotFound)
                } else {
                    let n = self.nodes[node.0];
                    let attached = NodeView { blobs: n.blobs.insert(blob.id.0), ..n };
                    Ok(
                        ProjectionView {
                            nodes: self.nodes.insert(node.0, touched(attached, c)),
                            blobs: self.blobs.insert(blob.id.0, blob),
                            ..self
                        },
                    )
                }
            },
        }
    }
}

/// Which tags a query asks for, with respect to a path.
#[derive(Clone, Copy, Debug, PartialEq, Eq, Structural)]
pub enum TagFilter {
    /// Every tag.
    All,
    /// The tags whose path is the given path and one more segment.
    ChildOf,
    /// The tags whose path starts with the given path.
    Under,
}

/// Whether the tag `t` is one that `filter` asks for with respect to `path`.
pub open spec fn tag_matches(filter: TagFilter, path: Seq<Seq<char>>, t: TagView) -> bool {
    match filter {
        TagFilter::All => true,
        TagFilter::ChildOf => is_child_path(t.path, path),
        TagFilter::Under => is_under(t.path, path),
    }
}

/// Whether the node `n` is one that a query for `tag` asks for: every node
/// where no tag is given, else the nodes that carry it.
pub open spec fn node_matches(tag: Option<u128>, n: NodeView) -> bool {
    match tag {
        None => true,
        Some(t) => n.tags.contains(t),
    }
}

/// `out` holds, each once, the tags of `tags` that `filter` asks for.
pub open spec fn lists_tags(
    out: Seq<TagRecord>,
    tags: Map<u128, TagView>,
    filter: TagFilter,
    path: Seq<Seq<char>>,
) -> bool {
    &&& forall|i: int|
        0 <= i < out.len() ==> {
            &&& tags.contains_key((#[trigger] out[i])@.id.0)
            &&& tags[out[i]@.id.0] == out[i]@
            &&& tag_matches(filter, path, out[i]@)
        }
    &&& forall|k: u128|
        #[trigger] tags.contains_key(k) && tag_matches(filter, path, tags[k]) ==> exists|i: int|
            0 <= i < out.len() && (#[trigger] out[i])@.id.0 == k
    &&& forall|i: int, j: int|
        0 <= i < j < out.len() ==> (#[trigger] out[i])@.id != (#[trigger] out[j])@.id
}

/// `out` holds, each once, the live nodes of `nodes` that a query for `tag`
/// asks for.
pub open spec fn lists_nodes(out: Seq<NodeRecord>, nodes: Map<u128, NodeView>, tag: Option<u128>) -> bool {
    &&& forall|i: int|
        0 <= i < out.len() ==> {
            &&& nodes.contains_key((#[trigger] out[i])@.id.0)
            &&& nodes[out[i]@.id.0] == out[i]@
            &&& node_matches(tag, out[i]@)
            &&& out[i].wf()
        }
    &&& forall|k: u128|
        #[trigger] nodes.contains_key(k) && node_matches(tag, nodes[k]) ==> exists|i: int|
            0 <= i < out.len() && (#[trigger] out[i])@.id.0 == k
    &&& forall|i: int, j: int|
        0 <= i < j < out.len() ==> (#[trigger] out[i])@.id != (#[trigger] out[j])@.id
}

/// The `j`-th id from `seed` on, wrapping round.
pub open spec fn nth_id(seed: u128, j: nat) -> u128 {
    seed.wrapping_add(j as u128)
}

/// The first id that `used` does not hold among `seed` and the ids that
/// follow it, wrapping round, looked for from the `k`-th of them on. Where
/// every id is used, `seed`.
pub open spec fn first_free(used: Set<u128>, seed: u128, k: nat) -> u128
    decreases u128::MAX + 1 - k,
{
    if k > u128::MAX {
        seed
    } else if !used.contains(nth_id(seed, k)) {
        nth_id(seed, k)
    } else {
        first_free(used, seed, k + 1)
    }
}

/// The first `k` ids from `seed` on.
pub open spec fn probed(seed: u128, k: nat) -> Set<u128> {
    Set::new(|v: u128| exists|j: nat| j < k && v == #[trigger] nth_id(seed, j))
}

/// The first `k` ids from `seed` on are `k` ids.
pub proof fn lemma_probed_len(seed: u128, k: nat)
    requires
        k <= u128::MAX + 1,
    ensures
        probed(seed, k).finite(),
        probed(seed, k).len() == k,
    decreases k,
{
    if k == 0 {
        assert(probed(seed, 0) =~= Set::<u128>::empty());
    } else {
        let j = (k - 1) as nat;
        lemma_probed_len(seed, j);
        let last = nth_id(seed, j);
        assert(!probed(seed, j).contains(last)) by {
            if probed(seed, j).contains(last) {
                let i = choose|i: nat| i < j && last == #[trigger] nth_id(seed, i);
                assert(nth_id(seed, i) != nth_id(seed, j));
            }
        }
        assert(probed(seed, k) =~= probed(seed, j).insert(last)) by {
            assert forall|v: u128| probed(seed, k).contains(v) <==> probed(seed, j).insert(
                last,
            ).contains(v) by {
                if probed(seed, k).contains(v) {
                    let i = choose|i: nat| i < k && v == #[trigger] nth_id(seed, i);
                    if i < j {
                        assert(probed(seed, j).contains(v));
                    }
                }
                if probed(seed, j).contains(v) {
                    let i = choose|i: nat| i < j && v == #[trigger] nth_id(seed, i);
                    assert(i < k);
                }
                if v == last {
                    assert(j < k && v == nth_id(seed, j));
                }
            }
        }
    }
}

/// The search for an unused id ends at one, as long as not every id is
/// used: where the first `k` ids from `seed` on are all in use, the search
/// from the `k`-th on still finds an id that is not.
pub proof fn lemma_first_free_from(used: Set<u128>, seed: u128, k: nat)
    requires
        used.finite(),
        used.len() <= u128::MAX,
        probed(seed, k).subset_of(used),
        k <= u128::MAX + 1,
    ensures
        !used.contains(first_free(used, seed, k)),
    decreases u128::MAX + 1 - k,
{
    lemma_probed_len(seed, k);
    vstd::set_lib::lemma_len_subset(probed(seed, k), used);
    let candidate = nth_id(seed, k);
    if used.contains(candidate) {
        assert(probed(seed, k + 1).subset_of(used)) by {
            assert forall|v: u128| probed(seed, k + 1).contains(v) implies used.contains(v) by {
                let i = choose|i: nat| i < k + 1 && v == #[trigger] nth_id(seed, i);
                if i < k {
                    assert(probed(seed, k).contains(v));
                }
            }
        }
        lemma_first_free_from(used, seed, k + 1);
    }
}

/// Among fewer ids than there are, the search from any seed finds one that
/// is not in use.
pub proof fn lemma_first_free_is_free(used: Set<u128>, seed: u128)
    requires
        used.finite(),
        used.len() <= u128::MAX,
    ensures
        !used.contains(first_free(used, seed, 0)),
{
    assert(probed(seed, 0) =~= Set::<u128>::empty());
    lemma_first_free_from(used, seed, 0);
}

/// The live tags at or below the live tag `root`, by the number in their id.
pub open spec fn doomed(p: ProjectionView, root: u128) -> Set<u128> {
    Set::new(|k: u128| p.tags.contains_key(k) && is_under(p.tags[k].path, p.tags[root].path))
}

/// `p` without the tags `gone`: they leave the tag tree and every node's
/// tag set.
pub open spec fn pruned(p: ProjectionView, gone: Set<u128>) -> ProjectionView {
    ProjectionView {
        tags: p.tags.remove_keys(gone),
        nodes: p.nodes.map_values(|n: NodeView| NodeView { tags: n.tags.difference(gone), ..n }),
        ..p
    }
}

/// Deleting one more tag prunes one more tag.
pub proof fn lemma_prune_step(p: ProjectionView, gone: Set<u128>, c: ContainerView, id: u128)
    requires
        p.tags.contains_key(id),
        !gone.contains(id),
        c.event == (EventView::DeleteTag { id: crate::ids::TagId(id) }),
    ensures
        pruned(p, gone).step(c) == Ok::<ProjectionView, RepoError>(pruned(p, gone.insert(id))),
{
    let a = pruned(p, gone);
    let b = pruned(p, gone.insert(id));
    assert(a.tags.contains_key(id));
    let stepped = a.step(c)->Ok_0;
    assert(stepped.tags =~= b.tags);
    assert forall|k: u128| stepped.nodes.contains_key(k) implies #[trigger] stepped.nodes[k]
        == b.nodes[k] by {
        let n = p.nodes[k];
        assert(n.tags.difference(gone).remove(id) =~= n.tags.difference(gone.insert(id)));
    }
    assert(stepped.nodes =~= b.nodes);
}

/// The projection that a log yields when it is folded from the empty
/// projection, first event first. An event that the fold refuses leaves the
/// projection as it was.
pub open spec fn replay(log: Seq<ContainerView>) -> ProjectionView
    decreases log.len(),
{
    if log.len() == 0 {
        ProjectionView::empty()
    } else {
        let before = replay(log.drop_last());
        match before.step(log.last()) {
            Ok(after) => after,
            Err(_) => before,
        }
    }
}

} // verus!
