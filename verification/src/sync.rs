//! What synchronisation needs besides the repository: the order in which
//! received events are applied, and the remote authority's own record.

use vstd::prelude::*;
use crate::error::RepoError;
use crate::event::{views, ContainerView, RepoEventContainer};
use crate::event_log::{clients_of, gapless, last_seq, since, EventLog};
use crate::ids::ClientId;

verus! {

/// Where `c` goes into `sorted`: behind every event that it does not come
/// strictly before.
pub open spec fn slot(sorted: Seq<ContainerView>, c: ContainerView) -> int
    decreases sorted.len(),
{
    if sorted.len() == 0 {
        0
    } else if c.key().before(sorted.last().key()) {
        slot(sorted.drop_last(), c)
    } else {
        sorted.len() as int
    }
}

/// `batch` in the order in which it is applied: by time, then by replica,
/// then by sequence number; events that agree in all three keep the order
/// in which they came.
pub open spec fn in_apply_order(batch: Seq<ContainerView>) -> Seq<ContainerView>
    decreases batch.len(),
{
    if batch.len() == 0 {
        Seq::empty()
    } else {
        let earlier = in_apply_order(batch.drop_last());
        earlier.insert(slot(earlier, batch.last()), batch.last())
    }
}

/// No event of `s` comes strictly before one that stands ahead of it.
pub open spec fn ordered(s: Seq<ContainerView>) -> bool {
    forall|i: int, j: int| 0 <= i < j < s.len() ==> !(#[trigger] s[j]).key().before((#[trigger] s[i]).key())
}

pub proof fn lemma_slot_bounds(sorted: Seq<ContainerView>, c: ContainerView)
    ensures
        0 <= slot(sorted, c) <= sorted.len(),
        forall|j: int| slot(sorted, c) <= j < sorted.len() ==> c.key().before((#[trigger] sorted[j]).key()),
        slot(sorted, c) > 0 ==> !c.key().before(sorted[slot(sorted, c) - 1].key()),
    decreases sorted.len(),
{
    if sorted.len() > 0 && c.key().before(sorted.last().key()) {
        lemma_slot_bounds(sorted.drop_last(), c);
        assert forall|j: int| slot(sorted, c) <= j < sorted.len() implies c.key().before(
            (#[trigger] sorted[j]).key(),
        ) by {
            if j < sorted.len() - 1 {
                assert(sorted.drop_last()[j] == sorted[j]);
            }
        }
    }
}

/// The apply order is an order: it holds every event of the batch, as often
/// as the batch does, and none before one that comes strictly before it.
pub proof fn lemma_apply_order(batch: Seq<ContainerView>)
    ensures
        ordered(in_apply_order(batch)),
        in_apply_order(batch).len() == batch.len(),
        in_apply_order(batch).to_multiset() == batch.to_multiset(),
    decreases batch.len(),
{
    broadcast use vstd::seq_lib::group_to_multiset_ensures;

    if batch.len() == 0 {
        assert(in_apply_order(batch) =~= batch);
    } else {
        let earlier = in_apply_order(batch.drop_last());
        let c = batch.last();
        let k = slot(earlier, c);
        lemma_apply_order(batch.drop_last());
        lemma_slot_bounds(earlier, c);
        let out = earlier.insert(k, c);
        assert(out == in_apply_order(batch));
        assert forall|i: int, j: int| 0 <= i < j < out.len() implies !(#[trigger] out[j]).key().before(
            (#[trigger] out[i]).key(),
        ) by {
            if j < k {
                assert(out[i] == earlier[i] && out[j] == earlier[j]);
            } else if j == k {
                assert(out[i] == earlier[i]);
                lemma_slot_prefix(earlier, c, i);
            } else if i < k {
                assert(out[i] == earlier[i] && out[j] == earlier[j - 1]);
            } else if i == k {
                assert(out[j] == earlier[j - 1]);
                assert(c.key().before(earlier[j - 1].key()));
            } else {
                assert(out[i] == earlier[i - 1] && out[j] == earlier[j - 1]);
            }
        }
        vstd::seq_lib::to_multiset_insert(earlier, k, c);
        assert(batch =~= batch.drop_last().push(c));
        assert(batch.drop_last().push(c).to_multiset() == batch.drop_last().to_multiset().insert(c));
    }
}

/// In an ordered sequence, the new event does not come strictly before
/// anything ahead of its slot.
proof fn lemma_slot_prefix(sorted: Seq<ContainerView>, c: ContainerView, i: int)
    requires
        ordered(sorted),
        0 <= i < slot(sorted, c),
    ensures
        !c.key().before(sorted[i].key()),
{
    lemma_slot_bounds(sorted, c);
    let k = slot(sorted, c);
    // the event just ahead of the slot does not come after c, and sorted[i] does not come after it
    if i < k - 1 {
        assert(!sorted[k - 1].key().before(sorted[i].key()));
    }
}

/// `batch` in the order in which it is applied.
pub fn sort_batch(batch: &Vec<RepoEventContainer>) -> (out: Vec<RepoEventContainer>)
    ensures
        views(out@) == in_apply_order(views(batch@)),
{
    let mut out: Vec<RepoEventContainer> = Vec::new();
    let mut n: usize = 0;
    assert(views(batch@).take(0) =~= Seq::<ContainerView>::empty());
    assert(views(out@) =~= Seq::<ContainerView>::empty());
    while n < batch.len()
        invariant
            n <= batch@.len(),
            out@.len() == n,
            views(out@) == in_apply_order(views(batch@).take(n as int)),
        decreases batch@.len() - n,
    {
        let c = batch[n].clone();
        let key = c.key();
        let ghost sorted = views(out@);
        let mut i: usize = out.len();
        assert(sorted.take(i as int) =~= sorted);
        while i > 0 && key.is_before(&out[i - 1].key())
            invariant
                i <= out@.len(),
                sorted == views(out@),
                key == c@.key(),
                slot(sorted, c@) == slot(sorted.take(i as int), c@),
            decreases i,
        {
            proof {
                assert(sorted.take(i as int).last() == out@[i - 1]@);
                assert(sorted.take(i as int).drop_last() =~= sorted.take(i - 1));
            }
            i -= 1;
        }
        proof {
            if i > 0 {
                assert(sorted.take(i as int).last() == out@[i - 1]@);
            }
            assert(sorted.take(out@.len() as int) =~= sorted);
            assert(slot(sorted, c@) == i);
            assert(views(batch@).take(n + 1).drop_last() =~= views(batch@).take(n as int));
            assert(views(batch@).take(n + 1).last() == batch@[n as int]@);
            assert(views(out@.insert(i as int, c)) =~= sorted.insert(i as int, c@));
        }
        out.insert(i, c);
        n += 1;
    }
    assert(views(batch@).take(n as int) =~= views(batch@));
    out
}

/// What the remote authority makes of one pushed event: one at or below its
/// replica's watermark is already there and changes nothing; one that skips
/// a sequence number is refused; a full record refuses; otherwise the event
/// goes to the end.
pub open spec fn accept(log: Seq<ContainerView>, capacity: nat, c: ContainerView) -> Result<
    Seq<ContainerView>,
    RepoError,
> {
    let mark = last_seq(log, c.id.client.0);
    if c.id.seq <= mark {
        Ok(log)
    } else if c.id.seq > mark + 1 {
        Err(RepoError::ProtocolError)
    } else if log.len() >= capacity {
        Err(RepoError::SyncUnavailable)
    } else {
        Ok(log.push(c))
    }
}

/// What the remote authority makes of a pushed batch, first event first, up
/// to the first refusal.
pub open spec fn accept_all(log: Seq<ContainerView>, capacity: nat, batch: Seq<ContainerView>) -> Result<
    Seq<ContainerView>,
    RepoError,
>
    decreases batch.len(),
{
    if batch.len() == 0 {
        Ok(log)
    } else {
        match accept_all(log, capacity, batch.drop_last()) {
            Err(e) => Err(e),
            Ok(l) => accept(l, capacity, batch.last()),
        }
    }
}

/// A refusal inside a pushed batch is the batch's refusal, whatever follows.
pub proof fn lemma_accept_all_fails(
    log: Seq<ContainerView>,
    capacity: nat,
    batch: Seq<ContainerView>,
    n: int,
)
    requires
        0 <= n <= batch.len(),
        accept_all(log, capacity, batch.take(n)) is Err,
    ensures
        accept_all(log, capacity, batch) == accept_all(log, capacity, batch.take(n)),
    decreases batch.len() - n,
{
    if n < batch.len() {
        assert(batch.take(n + 1).drop_last() =~= batch.take(n));
        lemma_accept_all_fails(log, capacity, batch, n + 1);
    } else {
        assert(batch.take(n) =~= batch);
    }
}

/// The remote authority as contracts speak of it.
pub struct RemoteView {
    /// Every event the authority holds, in the order in which it took them.
    pub log: Seq<ContainerView>,
    /// The most events that it takes.
    pub capacity: nat,
    /// Whether it can be reached.
    pub reachable: bool,
}

impl RemoteView {
    /// What a push makes of the authority: nothing where it cannot be
    /// reached or refuses an event of the batch, else the batch is taken.
    pub open spec fn push(self, batch: Seq<ContainerView>) -> Result<RemoteView, RepoError> {
        if !self.reachable {
            Err(RepoError::SyncUnavailable)
        } else {
            match accept_all(self.log, self.capacity, batch) {
                Err(e) => Err(e),
                Ok(l) => Ok(RemoteView { log: l, ..self }),
            }
        }
    }
}

/// The remote metadata authority, kept in memory: the events that replicas
/// pushed, and a switch that makes it unreachable.
pub struct RemoteMetadataStore {
    log: EventLog,
    reachable: bool,
}

impl View for RemoteMetadataStore {
    type V = RemoteView;

    closed spec fn view(&self) -> RemoteView {
        RemoteView {
            log: self.log@,
            capacity: self.log.spec_capacity(),
            reachable: self.reachable,
        }
    }
}

impl RemoteMetadataStore {
    /// The authority's record is a sound log that leaves no sequence number
    /// out.
    pub closed spec fn wf(&self) -> bool {
        self.log.wf() && gapless(self.log@)
    }

    /// A sound authority keeps to its bound and holds every replica's events
    /// without a gap.
    pub proof fn lemma_sound(&self)
        requires
            self.wf(),
        ensures
            gapless(self@.log),
            self@.log.len() <= self@.capacity,
    {
        self.log.lemma_sound();
    }

    /// An authority that holds nothing and can be reached.
    pub fn new() -> (remote: RemoteMetadataStore)
        ensures
            remote.wf(),
            remote@ == (RemoteView {
                log: Seq::empty(),
                capacity: usize::MAX as nat,
                reachable: true,
            }),
    {
        RemoteMetadataStore { log: EventLog::new(), reachable: true }
    }

    /// Makes the authority reachable or not.
    pub fn set_reachable(&mut self, reachable: bool)
        requires
            old(self).wf(),
        ensures
            final(self).wf(),
            final(self)@ == (RemoteView { reachable, ..old(self)@ }),
    {
        self.reachable = reachable;
    }

    pub fn is_reachable(&self) -> (b: bool)
        ensures
            b == self@.reachable,
    {
        self.reachable
    }

    /// How many events the authority holds.
    pub fn len(&self) -> (n: usize)
        ensures
            n == self@.log.len(),
    {
        self.log.len()
    }

    /// Takes a batch of events, all of it or nothing. Events that the
    /// authority already holds are passed over.
    pub fn push(&mut self, events: &Vec<RepoEventContainer>) -> (r: Result<(), RepoError>)
        requires
            old(self).wf(),
        ensures
            final(self).wf(),
            match old(self)@.push(views(events@)) {
                Ok(v) => r is Ok && final(self)@ == v,
                Err(e) => r == Err::<(), RepoError>(e) && final(self)@ == old(self)@,
            },
    {
        if !self.reachable {
            return Err(RepoError::SyncUnavailable);
        }
        let mut scratch = self.log.clone();
        let ghost batch = views(events@);
        let ghost start = self.log@;
        let ghost capacity = self.log.spec_capacity();
        let ghost before = *self;
        let mut i: usize = 0;
        assert(batch.take(0) =~= Seq::<ContainerView>::empty());
        while i < events.len()
            invariant
                *self == before,
                before.wf(),
                before.reachable,
                before.log@ == start,
                before.log.spec_capacity() == capacity,
                i <= events@.len(),
                batch == views(events@),
                scratch.wf(),
                gapless(scratch@),
                scratch.spec_capacity() == capacity,
                accept_all(start, capacity, batch.take(i as int)) == Ok::<
                    Seq<ContainerView>,
                    RepoError,
                >(scratch@),
            decreases events@.len() - i,
        {
            let c = events[i].clone();
            proof {
                assert(batch.take(i + 1).drop_last() =~= batch.take(i as int));
                assert(batch.take(i + 1).last() == c@);
            }
            let mark = scratch.last_seq(c.id.client);
            if c.id.seq > mark {
                if c.id.seq - mark > 1 {
                    proof {
                        lemma_accept_all_fails(start, capacity, batch, i + 1);
                    }
                    return Err(RepoError::ProtocolError);
                }
                if scratch.is_full() {
                    proof {
                        lemma_accept_all_fails(start, capacity, batch, i + 1);
                    }
                    return Err(RepoError::SyncUnavailable);
                }
                let ghost earlier = scratch@;
                let appended = scratch.append(c);
                assert(scratch@.drop_last() =~= earlier);
            }
            i += 1;
        }
        assert(batch.take(i as int) =~= batch);
        self.log = scratch;
        Ok(())
    }

    /// The events of `client` with a sequence number above `after`, oldest
    /// first.
    pub fn pull(&self, client: ClientId, after: u64) -> (r: Result<Vec<RepoEventContainer>, RepoError>)
        ensures
            match r {
                Ok(out) => self@.reachable && views(out@) == since(self@.log, client.0, after),
                Err(e) => !self@.reachable && e == RepoError::SyncUnavailable,
            },
    {
        if !self.reachable {
            return Err(RepoError::SyncUnavailable);
        }
        Ok(self.log.read_since(client, after))
    }

    /// The replicas whose events the authority holds, in the order of their
    /// first event.
    pub fn known_clients(&self) -> (r: Result<Vec<ClientId>, RepoError>)
        requires
            self.wf(),
        ensures
            match r {
                Ok(out) => self@.reachable && out@.len() == clients_of(self@.log).len() && forall|i: int|
                    0 <= i < out@.len() ==> (#[trigger] out@[i]).0 == clients_of(self@.log)[i],
                Err(e) => !self@.reachable && e == RepoError::SyncUnavailable,
            },
    {
        if !self.reachable {
            return Err(RepoError::SyncUnavailable);
        }
        Ok(self.log.clients())
    }
}

/// Keeps synchronisation from running into itself: at most one push and at
/// most one pull are under way at a time. Local changes need no leave.
#[derive(Clone, Copy, Debug, PartialEq, Eq, Structural)]
pub struct SyncGate {
    pub pushing: bool,
    pub pulling: bool,
}

impl SyncGate {
    /// A gate with nothing under way.
    pub fn new() -> (gate: SyncGate)
        ensures
            gate == (SyncGate { pushing: false, pulling: false }),
    {
        SyncGate { pushing: false, pulling: false }
    }

    /// Asks leave to push. Granted unless a push is under way.
    pub fn begin_push(&mut self) -> (granted: bool)
        ensures
            granted == !old(self).pushing,
            *final(self) == (SyncGate { pushing: true, ..*old(self) }),
    {
        let granted = !self.pushing;
        self.pushing = true;
        granted
    }

    /// Notes that the push that was granted has ended, however it ended.
    pub fn end_push(&mut self)
        ensures
            *final(self) == (SyncGate { pushing: false, ..*old(self) }),
    {
        self.pushing = false;
    }

    /// Asks leave to pull. Granted unless a pull is under way.
    pub fn begin_pull(&mut self) -> (granted: bool)
        ensures
            granted == !old(self).pulling,
            *final(self) == (SyncGate { pulling: true, ..*old(self) }),
    {
        let granted = !self.pulling;
        self.pulling = true;
        granted
    }

    /// Notes that the pull that was granted has ended, however it ended.
    pub fn end_pull(&mut self)
        ensures
            *final(self) == (SyncGate { pulling: false, ..*old(self) }),
    {
        self.pulling = false;
    }
}

/// The events of a received batch in which every record could be read; an
/// unreadable record stands as `None`.
pub open spec fn readable(batch: Seq<Option<RepoEventContainer>>) -> Option<Seq<ContainerView>> {
    if forall|i: int| 0 <= i < batch.len() ==> (#[trigger] batch[i]) is Some {
        Some(Seq::new(batch.len(), |i: int| batch[i]->Some_0@))
    } else {
        None
    }
}

/// The events of `batch`, provided every record could be read.
pub fn read_batch(batch: Vec<Option<RepoEventContainer>>) -> (r: Option<Vec<RepoEventContainer>>)
    ensures
        match r {
            Some(events) => readable(batch@) == Some(views(events@)),
            None => readable(batch@) is None,
        },
{
    let mut events: Vec<RepoEventContainer> = Vec::new();
    let mut i: usize = 0;
    while i < batch.len()
        invariant
            i <= batch@.len(),
            events@.len() == i,
            forall|j: int| 0 <= j < i ==> (#[trigger] batch@[j]) is Some && events@[j]@
                == batch@[j]->Some_0@,
        decreases batch@.len() - i,
    {
        match &batch[i] {
            None => {
                return None;
            },
            Some(c) => {
                events.push(c.clone());
            },
        }
        i += 1;
    }
    assert(views(events@) =~= readable(batch@)->Some_0);
    Some(events)
}

} // verus!
