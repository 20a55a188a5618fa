//! What holds of the engine whatever the inputs: laws of the fold, of the
//! repository and of synchronisation, each proved from the definitions.

use vstd::prelude::*;
use crate::error::RepoError;
use crate::event::{ContainerView, EventView};
use crate::event_log::{gapless, increasing, last_seq, since};
use crate::ids::ClientId;
use crate::model::{doomed, pruned, replay, tag_matches, ProjectionView, TagFilter};
use crate::repository::RepoView;
use crate::sync::{accept, accept_all};
use crate::text::{is_under, valid_path};

verus! {

/// One local change: the event and the time it is made at.
pub struct Change {
    pub event: EventView,
    pub now: u64,
}

/// The repository after a sequence of local changes, each made in turn; a
/// change that is refused leaves the repository as it was.
pub open spec fn after_changes(start: RepoView, changes: Seq<Change>) -> RepoView
    decreases changes.len(),
{
    if changes.len() == 0 {
        start
    } else {
        let before = after_changes(start, changes.drop_last());
        match before.local(changes.last().event, changes.last().now) {
            Ok(after) => after,
            Err(_) => before,
        }
    }
}

/// The projection is what the log folds to.
pub open spec fn replayable(s: RepoView) -> bool {
    s.projection == replay(s.log)
}

/// Applying an event keeps the projection equal to the replay of the log.
pub proof fn lemma_apply_keeps_replay(s: RepoView, c: ContainerView)
    requires
        replayable(s),
    ensures
        s.apply(c) matches Ok(t) ==> replayable(t),
{
    if let Ok(t) = s.apply(c) {
        if t != s {
            assert(t.log.drop_last() =~= s.log);
        }
    }
}

/// Replaying the log that any sequence of local changes leaves, from the
/// empty projection and through the same fold, gives exactly the projection
/// that the changes left.
pub proof fn lemma_replay_reproduces(start: RepoView, changes: Seq<Change>)
    requires
        replayable(start),
    ensures
        replayable(after_changes(start, changes)),
    decreases changes.len(),
{
    if changes.len() > 0 {
        lemma_replay_reproduces(start, changes.drop_last());
        let before = after_changes(start, changes.drop_last());
        if last_seq(before.log, before.client.0) < u64::MAX {
            lemma_apply_keeps_replay(
                before,
                before.next_container(changes.last().event, changes.last().now),
            );
        }
    }
}

/// A repository that holds nothing is replayable, so the law above covers
/// every history that starts from nothing.
pub proof fn lemma_cleared_is_replayable(s: RepoView)
    ensures
        replayable(s.cleared()),
{
}

/// Applying the same stored event twice gives what applying it once gives:
/// the second time it is at or below its replica's watermark and changes
/// nothing; and an event that was refused left everything as it was.
pub proof fn lemma_apply_twice(s: RepoView, c: ContainerView)
    ensures
        match s.apply(c) {
            Ok(t) => t.apply(c) == Ok::<RepoView, RepoError>(t),
            Err(e) => true,
        },
{
    if let Ok(t) = s.apply(c) {
        if t != s {
            assert(t.log.drop_last() =~= s.log);
        }
    }
}

/// Applying one batch after another is applying the two as one.
pub proof fn lemma_apply_all_in_parts(s: RepoView, first: Seq<ContainerView>, second: Seq<ContainerView>)
    ensures
        s.apply_all(first + second) == (match s.apply_all(first) {
            Ok(t) => t.apply_all(second),
            Err(e) => Err(e),
        }),
    decreases second.len(),
{
    if second.len() == 0 {
        assert(first + second =~= first);
    } else {
        assert((first + second).drop_last() =~= first + second.drop_last());
        assert((first + second).last() == second.last());
        lemma_apply_all_in_parts(s, first, second.drop_last());
    }
}

/// Applying a batch never lowers a watermark.
pub proof fn lemma_apply_all_raises_watermark(s: RepoView, batch: Seq<ContainerView>, client: u128)
    ensures
        s.apply_all(batch) matches Ok(t) ==> last_seq(t.log, client) >= last_seq(s.log, client),
    decreases batch.len(),
{
    if batch.len() > 0 {
        lemma_apply_all_raises_watermark(s, batch.drop_last(), client);
        if let Ok(u) = s.apply_all(batch.drop_last()) {
            lemma_apply_raises_watermark(u, batch.last(), client);
        }
    }
}

/// An event that comes again later in a batch is passed over the second
/// time: the batch gives what it gives with the later copy left out,
/// whatever stands before, between and after the two.
pub proof fn lemma_duplicate_is_passed_over(
    s: RepoView,
    before: Seq<ContainerView>,
    e: ContainerView,
    between: Seq<ContainerView>,
    after: Seq<ContainerView>,
)
    ensures
        s.apply_all(before.push(e) + between.push(e) + after) == s.apply_all(
            before.push(e) + between + after,
        ),
{
    let head = before.push(e) + between;
    assert(before.push(e) + between.push(e) =~= head.push(e));
    lemma_apply_all_in_parts(s, head.push(e), after);
    lemma_apply_all_in_parts(s, head, after);
    assert(head.push(e).drop_last() =~= head);
    // after the first copy the watermark of its replica has reached it, and stays there
    lemma_apply_all_in_parts(s, before.push(e), between);
    assert(before.push(e).drop_last() =~= before);
    if let Ok(u) = s.apply_all(before) {
        if let Ok(t) = u.apply(e) {
            lemma_apply_raises_watermark(u, e, e.id.client.0);
            lemma_apply_all_raises_watermark(t, between, e.id.client.0);
        }
    }
}

/// Applying an event never lowers a watermark, and takes the watermark of
/// the event's replica at least to the event.
pub proof fn lemma_apply_raises_watermark(s: RepoView, c: ContainerView, client: u128)
    ensures
        s.apply(c) matches Ok(t) ==> last_seq(t.log, client) >= last_seq(s.log, client) && last_seq(
            t.log,
            c.id.client.0,
        ) >= c.id.seq,
{
    if let Ok(t) = s.apply(c) {
        if t != s {
            assert(t.log.drop_last() =~= s.log);
        }
    }
}

/// Applying an event keeps the sequence numbers of the log growing per
/// replica.
pub proof fn lemma_apply_keeps_increasing(s: RepoView, c: ContainerView)
    requires
        increasing(s.log),
    ensures
        s.apply(c) matches Ok(t) ==> increasing(t.log),
{
    if let Ok(t) = s.apply(c) {
        if t != s {
            assert(t.log.drop_last() =~= s.log);
        }
    }
}

/// Applying an event keeps the log free of gaps.
pub proof fn lemma_apply_keeps_gapless(s: RepoView, c: ContainerView)
    requires
        gapless(s.log),
    ensures
        s.apply(c) matches Ok(t) ==> gapless(t.log),
{
    if let Ok(t) = s.apply(c) {
        if t != s {
            assert(t.log.drop_last() =~= s.log);
        }
    }
}

/// A log without gaps numbers its events in growing order.
pub proof fn lemma_gapless_is_increasing(log: Seq<ContainerView>)
    requires
        gapless(log),
    ensures
        increasing(log),
    decreases log.len(),
{
    if log.len() > 0 {
        lemma_gapless_is_increasing(log.drop_last());
    }
}

/// In a log without gaps, the events of a replica above a mark are exactly
/// those numbered from the mark to the replica's watermark, each once and in
/// that order.
pub proof fn lemma_gapless_since(log: Seq<ContainerView>, client: u128, after: u64)
    requires
        gapless(log),
        after <= last_seq(log, client),
    ensures
        since(log, client, after).len() == last_seq(log, client) - after,
        forall|i: int|
            0 <= i < since(log, client, after).len() ==> (#[trigger] since(log, client, after)[i]).id
                == (crate::ids::EventId { client: ClientId(client), seq: (after + 1 + i) as u64 }),
    decreases log.len(),
{
    if log.len() > 0 {
        let earlier = log.drop_last();
        let c = log.last();
        if c.id.client.0 == client {
            if c.id.seq > after {
                lemma_gapless_since(earlier, client, after);
            } else {
                lemma_low_mark_no_news(earlier, client, after);
            }
        } else {
            lemma_gapless_since(earlier, client, after);
        }
    }
}

/// Above its watermark a replica has no events.
pub proof fn lemma_low_mark_no_news(log: Seq<ContainerView>, client: u128, after: u64)
    requires
        gapless(log),
        last_seq(log, client) <= after,
    ensures
        since(log, client, after).len() == 0,
    decreases log.len(),
{
    if log.len() > 0 {
        let earlier = log.drop_last();
        if log.last().id.client.0 == client {
            lemma_marks_grow(earlier, client);
        }
        lemma_low_mark_no_news(earlier, client, after);
    }
}

/// In a log without gaps a replica's watermark is what it was one event
/// earlier, or one more.
proof fn lemma_marks_grow(log: Seq<ContainerView>, client: u128)
    requires
        gapless(log),
    ensures
        log.len() > 0 ==> last_seq(log.drop_last(), client) <= last_seq(log, client),
{
}

/// A create for an id that an earlier create has taken is refused with
/// `AlreadyExists`, whichever replica made either, and the node stays as the
/// first create made it.
pub proof fn lemma_second_create_refused(p: ProjectionView, first: ContainerView, second: ContainerView)
    requires
        first.event is CreateNode,
        second.event is CreateNode,
        first.event->CreateNode_id == second.event->CreateNode_id,
        p.step(first) is Ok,
    ensures
        p.step(first)->Ok_0.step(second) == Err::<ProjectionView, RepoError>(RepoError::AlreadyExists),
{
}

/// A node that is live or deleted never becomes a node that never was.
pub proof fn lemma_known_node_stays(p: ProjectionView, c: ContainerView, node: u128)
    requires
        p.nodes.contains_key(node) || p.deleted.contains_key(node),
    ensures
        p.step(c) matches Ok(q) ==> q.nodes.contains_key(node) || q.deleted.contains_key(node),
{
}

/// The same over a batch.
pub proof fn lemma_known_node_stays_known(s: RepoView, batch: Seq<ContainerView>, node: u128)
    requires
        s.projection.nodes.contains_key(node) || s.projection.deleted.contains_key(node),
    ensures
        s.apply_all(batch) matches Ok(t) ==> t.projection.nodes.contains_key(node)
            || t.projection.deleted.contains_key(node),
    decreases batch.len(),
{
    if batch.len() > 0 {
        lemma_known_node_stays_known(s, batch.drop_last(), node);
        if let Ok(u) = s.apply_all(batch.drop_last()) {
            lemma_known_node_stays(u.projection, batch.last(), node);
        }
    }
}

/// A batch that holds the creation of a node that is live or deleted here is
/// refused with `AlreadyExists`, whatever stands before and after the
/// creation, provided what stands before is applied and the creation is its
/// replica's next event when its turn comes. Nothing is overwritten: a
/// refused batch changes nothing.
pub proof fn lemma_create_of_known_node_refuses_batch(
    s: RepoView,
    before: Seq<ContainerView>,
    create: ContainerView,
    after: Seq<ContainerView>,
)
    requires
        create.event is CreateNode,
        ({
            let node = create.event->CreateNode_id.0;
            s.projection.nodes.contains_key(node) || s.projection.deleted.contains_key(node)
        }),
        s.apply_all(before) is Ok,
        create.id.seq == last_seq(s.apply_all(before)->Ok_0.log, create.id.client.0) + 1,
    ensures
        s.apply_all(before.push(create) + after) == Err::<RepoView, RepoError>(
            RepoError::AlreadyExists,
        ),
{
    let node = create.event->CreateNode_id.0;
    lemma_known_node_stays_known(s, before, node);
    assert(before.push(create).drop_last() =~= before);
    lemma_apply_all_in_parts(s, before.push(create), after);
}

/// Two renames of one live node give the same title in either order: the
/// title of the rename that comes later in the apply order, unless the node's
/// title was set by an event later than both.
pub proof fn lemma_renames_converge(p: ProjectionView, a: ContainerView, b: ContainerView)
    requires
        a.event is RenameNode,
        b.event is RenameNode,
        a.event->RenameNode_id == b.event->RenameNode_id,
        p.nodes.contains_key(a.event->RenameNode_id.0),
        a.key() != b.key(),
    ensures
        p.step(a) is Ok,
        p.step(b) is Ok,
        p.step(a)->Ok_0.step(b) is Ok,
        p.step(b)->Ok_0.step(a) is Ok,
        ({
            let id = a.event->RenameNode_id.0;
            let ab = p.step(a)->Ok_0.step(b)->Ok_0.nodes[id];
            let ba = p.step(b)->Ok_0.step(a)->Ok_0.nodes[id];
            let winner = if a.key().before(b.key()) {
                b
            } else {
                a
            };
            &&& ab.title == ba.title
            &&& ab.title_stamp == ba.title_stamp
            &&& p.nodes[id].title_stamp.before(winner.key()) ==> ab.title
                == winner.event->RenameNode_title && ab.title_stamp == winner.key()
        }),
{
}

/// Path resolution and child lookup agree: where a path is resolved, the
/// tag of each of its prefixes has the tag of the prefix one segment longer
/// among its children.
pub proof fn lemma_resolved_prefix_has_child(
    p: ProjectionView,
    path: Seq<Seq<char>>,
    j: int,
    parent: u128,
)
    requires
        1 <= j < path.len(),
        p.path_taken(path.take(j + 1)),
        p.tags.contains_key(parent),
        p.tags[parent].path == path.take(j),
    ensures
        exists|k: u128|
            {
                &&& #[trigger] p.tags.contains_key(k)
                &&& p.tags[k].path == path.take(j + 1)
                &&& tag_matches(TagFilter::ChildOf, p.tags[parent].path, p.tags[k])
            },
{
    let k = choose|k: u128| #[trigger] p.tags.contains_key(k) && p.tags[k].path == path.take(j + 1);
    assert(path.take(j + 1).take(j) =~= path.take(j));
}

/// Deleting a tag with all that lies below it leaves nothing of them: no
/// live tag at or below the deleted tag's path, and none of the deleted tags
/// on any node; every other tag stays as it was, on the tree and on the
/// nodes.
pub proof fn lemma_pruned_subtree_is_gone(p: ProjectionView, root: u128)
    requires
        p.tags.contains_key(root),
    ensures
        ({
            let gone = doomed(p, root);
            let q = pruned(p, gone);
            &&& gone.contains(root)
            &&& forall|k: u128| #[trigger]
                q.tags.contains_key(k) ==> !is_under(q.tags[k].path, p.tags[root].path)
            &&& forall|k: u128|
                p.tags.contains_key(k) && !is_under(p.tags[k].path, p.tags[root].path)
                    ==> #[trigger] q.tags.contains_key(k) && q.tags[k] == p.tags[k]
            &&& q.nodes.dom() == p.nodes.dom()
            &&& forall|n: u128, t: u128|
                #[trigger] q.nodes.contains_key(n) && #[trigger] gone.contains(t)
                    ==> !q.nodes[n].tags.contains(t)
            &&& forall|n: u128, t: u128|
                #[trigger] q.nodes.contains_key(n) && !gone.contains(t) ==> (
                #[trigger] q.nodes[n].tags.contains(t) <==> p.nodes[n].tags.contains(t))
        }),
{
    let gone = doomed(p, root);
    let q = pruned(p, gone);
    assert(p.tags[root].path.take(p.tags[root].path.len() as int) =~= p.tags[root].path);
    assert(q.nodes.dom() =~= p.nodes.dom());
}

/// What is true of every projection that the fold can reach.
pub open spec fn consistent(p: ProjectionView) -> bool {
    &&& forall|k: u128| p.nodes.contains_key(k) ==> !p.deleted.contains_key(k)
    &&& forall|k: u128|
        #[trigger] p.nodes.contains_key(k) ==> {
            &&& p.nodes[k].id.0 == k
            &&& p.nodes[k].date_updated >= p.nodes[k].date_created
            &&& forall|t: u128| p.nodes[k].tags.contains(t) ==> p.tags.contains_key(t)
        }
    &&& forall|k: u128|
        #[trigger] p.tags.contains_key(k) ==> p.tags[k].id.0 == k && valid_path(p.tags[k].path)
    &&& forall|j: u128, k: u128|
        #[trigger] p.tags.contains_key(j) && #[trigger] p.tags.contains_key(k) && j != k
            ==> p.tags[j].path != p.tags[k].path
}

/// The fold keeps a projection consistent: no node is both live and
/// deleted, every record is filed under its own id, no node was updated
/// before it was created, no node carries a tag that is not live, and no two
/// live tags share a path.
pub proof fn lemma_step_keeps_consistent(p: ProjectionView, c: ContainerView)
    requires
        consistent(p),
    ensures
        p.step(c) matches Ok(q) ==> consistent(q),
{
    if let Ok(q) = p.step(c) {
        match c.event {
            EventView::CreateTag { id, path, color } => {
                assert forall|j: u128, k: u128|
                    #[trigger] q.tags.contains_key(j) && #[trigger] q.tags.contains_key(k) && j
                        != k implies q.tags[j].path != q.tags[k].path by {
                    if j == id.0 {
                        assert(p.tags.contains_key(k));
                    } else if k == id.0 {
                        assert(p.tags.contains_key(j));
                    }
                }
            },
            _ => {},
        }
    }
}

/// Whatever the log, the projection it folds to is consistent.
pub proof fn lemma_replay_is_consistent(log: Seq<ContainerView>)
    ensures
        consistent(replay(log)),
    decreases log.len(),
{
    if log.len() > 0 {
        lemma_replay_is_consistent(log.drop_last());
        lemma_step_keeps_consistent(replay(log.drop_last()), log.last());
    }
}

/// The remote authority never lowers a watermark when it takes an event, and
/// afterwards the event is at or below its replica's watermark.
pub proof fn lemma_accept_raises_watermark(
    log: Seq<ContainerView>,
    capacity: nat,
    c: ContainerView,
    client: u128,
)
    ensures
        accept(log, capacity, c) matches Ok(l) ==> last_seq(l, client) >= last_seq(log, client)
            && last_seq(l, c.id.client.0) >= c.id.seq,
{
    if let Ok(l) = accept(log, capacity, c) {
        if l != log {
            assert(l.drop_last() =~= log);
        }
    }
}

/// The remote authority's record stays free of gaps.
pub proof fn lemma_accept_keeps_gapless(log: Seq<ContainerView>, capacity: nat, c: ContainerView)
    requires
        gapless(log),
    ensures
        accept(log, capacity, c) matches Ok(l) ==> gapless(l),
{
    if let Ok(l) = accept(log, capacity, c) {
        if l != log {
            assert(l.drop_last() =~= log);
        }
    }
}

/// Once the authority has taken a batch, every event of a part of the batch
/// that it took is at or below its replica's watermark.
pub proof fn lemma_taken_is_covered(
    log: Seq<ContainerView>,
    capacity: nat,
    batch: Seq<ContainerView>,
    k: int,
    i: int,
)
    requires
        0 <= i < k <= batch.len(),
        accept_all(log, capacity, batch.take(k)) is Ok,
    ensures
        batch[i].id.seq <= last_seq(
            accept_all(log, capacity, batch.take(k))->Ok_0,
            batch[i].id.client.0,
        ),
    decreases k,
{
    let part = batch.take(k);
    assert(part.drop_last() =~= batch.take(k - 1));
    assert(part.last() == batch[k - 1]);
    let earlier = accept_all(log, capacity, batch.take(k - 1))->Ok_0;
    lemma_accept_raises_watermark(earlier, capacity, batch[k - 1], batch[i].id.client.0);
    if i < k - 1 {
        lemma_taken_is_covered(log, capacity, batch, k - 1, i);
    }
}

/// Taking a batch keeps the authority's record free of gaps.
pub proof fn lemma_accept_all_keeps_gapless(
    log: Seq<ContainerView>,
    capacity: nat,
    batch: Seq<ContainerView>,
)
    requires
        gapless(log),
    ensures
        accept_all(log, capacity, batch) matches Ok(l) ==> gapless(l),
    decreases batch.len(),
{
    if batch.len() > 0 {
        lemma_accept_all_keeps_gapless(log, capacity, batch.drop_last());
        if let Ok(l) = accept_all(log, capacity, batch.drop_last()) {
            lemma_accept_keeps_gapless(l, capacity, batch.last());
        }
    }
}

/// After a push that the authority took, it holds of the pushing replica,
/// above any mark at or below the replica's watermark there, exactly the
/// events numbered from the mark to that watermark, each number once and in
/// order; and every pushed event is among the numbers up to the watermark.
pub proof fn lemma_pushed_without_gaps(
    log: Seq<ContainerView>,
    capacity: nat,
    batch: Seq<ContainerView>,
    client: u128,
    mark: u64,
    i: int,
)
    requires
        gapless(log),
        accept_all(log, capacity, batch) is Ok,
        0 <= i < batch.len(),
        batch[i].id.client.0 == client,
        mark <= last_seq(accept_all(log, capacity, batch)->Ok_0, client),
    ensures
        ({
            let held = accept_all(log, capacity, batch)->Ok_0;
            &&& gapless(held)
            &&& batch[i].id.seq <= last_seq(held, client)
            &&& since(held, client, mark).len() == last_seq(held, client) - mark
            &&& forall|k: int|
                0 <= k < since(held, client, mark).len() ==> (#[trigger] since(held, client, mark)[k]).id
                    == (crate::ids::EventId { client: ClientId(client), seq: (mark + 1 + k) as u64 })
        }),
{
    let held = accept_all(log, capacity, batch)->Ok_0;
    lemma_accept_all_keeps_gapless(log, capacity, batch);
    assert(batch.take(batch.len() as int) =~= batch);
    lemma_taken_is_covered(log, capacity, batch, batch.len() as int, i);
    lemma_gapless_since(held, client, mark);
}

/// A push that is cut off and tried again leaves the authority with what an
/// uninterrupted push leaves: where the authority took the first `k` events
/// of a batch and then takes the whole batch, it holds what it would hold
/// had it taken the whole batch at once, each event once.
pub proof fn lemma_push_resumes(
    log: Seq<ContainerView>,
    capacity: nat,
    batch: Seq<ContainerView>,
    k: int,
)
    requires
        0 <= k <= batch.len(),
        accept_all(log, capacity, batch.take(k)) is Ok,
    ensures
        accept_all(accept_all(log, capacity, batch.take(k))->Ok_0, capacity, batch) == accept_all(
            log,
            capacity,
            batch,
        ),
{
    let mid = accept_all(log, capacity, batch.take(k))->Ok_0;
    lemma_resume_upto(log, capacity, batch, k, batch.len() as int);
    assert(batch.take(batch.len() as int) =~= batch);
}

/// The part of the resumed push up to `n`: below the cut nothing changes, at
/// and above it the resumed push goes as the uninterrupted one.
proof fn lemma_resume_upto(
    log: Seq<ContainerView>,
    capacity: nat,
    batch: Seq<ContainerView>,
    k: int,
    n: int,
)
    requires
        0 <= k <= batch.len(),
        0 <= n <= batch.len(),
        accept_all(log, capacity, batch.take(k)) is Ok,
    ensures
        ({
            let mid = accept_all(log, capacity, batch.take(k))->Ok_0;
            if n <= k {
                accept_all(mid, capacity, batch.take(n)) == Ok::<Seq<ContainerView>, RepoError>(mid)
            } else {
                accept_all(mid, capacity, batch.take(n)) == accept_all(log, capacity, batch.take(n))
            }
        }),
    decreases n,
{
    let mid = accept_all(log, capacity, batch.take(k))->Ok_0;
    if n > 0 {
        lemma_resume_upto(log, capacity, batch, k, n - 1);
        assert(batch.take(n).drop_last() =~= batch.take(n - 1));
        assert(batch.take(n).last() == batch[n - 1]);
        if n <= k {
            lemma_taken_is_covered(log, capacity, batch, k, n - 1);
        } else if n - 1 == k {
        }
    }
}

/// Pushing a batch that the authority has taken changes nothing.
pub proof fn lemma_push_again(log: Seq<ContainerView>, capacity: nat, batch: Seq<ContainerView>)
    requires
        accept_all(log, capacity, batch) is Ok,
    ensures
        accept_all(accept_all(log, capacity, batch)->Ok_0, capacity, batch) == accept_all(
            log,
            capacity,
            batch,
        ),
{
    assert(batch.take(batch.len() as int) =~= batch);
    lemma_push_resumes(log, capacity, batch, batch.len() as int);
}

} // verus!
