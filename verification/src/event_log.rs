//! The event log: an append-only record of events in which each replica's
//! sequence numbers only grow.

use vstd::prelude::*;
use crate::error::LogError;
use crate::event::{
    clone_events, lemma_views_push, touches, views, ContainerView, RepoEventContainer,
};
use crate::id_set::copy_ids;
use crate::ids::{ClientId, EventId, NodeId};
use crate::model::later;
use crate::table::{lemma_table_lookup, Table};

verus! {

/// The sequence number of the latest event of `client` in `log`, 0 where it
/// has none: the replica's watermark.
pub open spec fn last_seq(log: Seq<ContainerView>, client: u128) -> u64
    decreases log.len(),
{
    if log.len() == 0 {
        0
    } else if log.last().id.client.0 == client {
        log.last().id.seq
    } else {
        last_seq(log.drop_last(), client)
    }
}

/// The sequence number of the latest event of `client` in `log` that is an
/// event on the node `node`, 0 where it has none.
pub open spec fn last_touch(log: Seq<ContainerView>, client: u128, node: NodeId) -> u64
    decreases log.len(),
{
    if log.len() == 0 {
        0
    } else if log.last().id.client.0 == client && touches(log.last().event, node) {
        log.last().id.seq
    } else {
        last_touch(log.drop_last(), client, node)
    }
}

/// The latest time that any event of `log` carries, 0 for the empty log.
pub open spec fn newest(log: Seq<ContainerView>) -> u64
    decreases log.len(),
{
    if log.len() == 0 {
        0
    } else {
        later(newest(log.drop_last()), log.last().timestamp)
    }
}

/// Along `log`, each event's sequence number is above its replica's
/// watermark at that point.
pub open spec fn increasing(log: Seq<ContainerView>) -> bool
    decreases log.len(),
{
    log.len() == 0 || {
        &&& increasing(log.drop_last())
        &&& log.last().id.seq > last_seq(log.drop_last(), log.last().id.client.0)
    }
}

/// Along `log`, each event's sequence number is the one after its replica's
/// watermark at that point: every replica's events are numbered 1, 2, 3 and
/// so on, none twice and none left out.
pub open spec fn gapless(log: Seq<ContainerView>) -> bool
    decreases log.len(),
{
    log.len() == 0 || {
        &&& gapless(log.drop_last())
        &&& log.last().id.seq == last_seq(log.drop_last(), log.last().id.client.0) + 1
    }
}

/// The events of `client` in `log` with a sequence number above `after`, in
/// log order.
pub open spec fn since(log: Seq<ContainerView>, client: u128, after: u64) -> Seq<ContainerView>
    decreases log.len(),
{
    if log.len() == 0 {
        Seq::empty()
    } else {
        let earlier = since(log.drop_last(), client, after);
        if log.last().id.client.0 == client && log.last().id.seq > after {
            earlier.push(log.last())
        } else {
            earlier
        }
    }
}

/// The replicas that have events in `log`, in the order of their first event.
pub open spec fn clients_of(log: Seq<ContainerView>) -> Seq<u128>
    decreases log.len(),
{
    if log.len() == 0 {
        Seq::empty()
    } else {
        let earlier = clients_of(log.drop_last());
        if earlier.contains(log.last().id.client.0) {
            earlier
        } else {
            earlier.push(log.last().id.client.0)
        }
    }
}

/// What an append makes of a log that holds at most `capacity` events: an
/// event at or below its replica's watermark is already recorded and changes
/// nothing; a full log refuses; otherwise the event goes to the end.
pub open spec fn append_spec(log: Seq<ContainerView>, capacity: nat, c: ContainerView) -> Result<
    Seq<ContainerView>,
    LogError,
> {
    if c.id.seq <= last_seq(log, c.id.client.0) {
        Ok(log)
    } else if log.len() >= capacity {
        Err(LogError::StorageUnavailable)
    } else {
        Ok(log.push(c))
    }
}

/// The watermark that a table of marks gives for `client`.
pub open spec fn mark_of(marks: Map<u128, u64>, client: u128) -> u64 {
    if marks.contains_key(client) {
        marks[client]
    } else {
        0
    }
}

/// An append-only log of events with a bound on its length.
pub struct EventLog {
    events: Vec<RepoEventContainer>,
    marks: Table<u64>,
    clock: u64,
    capacity: usize,
}

impl View for EventLog {
    type V = Seq<ContainerView>;

    closed spec fn view(&self) -> Seq<ContainerView> {
        views(self.events@)
    }
}

impl EventLog {
    /// The most events that the log takes.
    pub closed spec fn spec_capacity(&self) -> nat {
        self.capacity as nat
    }

    /// Sequence numbers grow per replica, the log fits its bound, and the
    /// cached watermarks and clock are those of the events.
    pub closed spec fn wf(&self) -> bool {
        &&& increasing(self@)
        &&& self.events@.len() <= self.capacity
        &&& self.marks.wf()
        &&& forall|client: u128| mark_of(self.marks@, client) == #[trigger] last_seq(self@, client)
        &&& forall|i: int|
            0 <= i < self.marks.keys@.len() ==> (#[trigger] self.marks.vals@[i]) > 0
        &&& self.clock == newest(self@)
    }

    /// A sound log keeps to its bound and its sequence numbers grow.
    pub proof fn lemma_sound(&self)
        requires
            self.wf(),
        ensures
            self@.len() <= self.spec_capacity(),
            increasing(self@),
    {
        assert(self@.len() == self.events@.len());
    }

    /// An empty log that takes up to `capacity` events.
    pub fn with_capacity(capacity: usize) -> (log: EventLog)
        ensures
            log.wf(),
            log@ == Seq::<ContainerView>::empty(),
            log.spec_capacity() == capacity,
    {
        let log = EventLog { events: Vec::new(), marks: Table::new(), clock: 0, capacity };
        assert(log@ =~= Seq::<ContainerView>::empty());
        log
    }

    /// An empty log bounded only by the machine.
    pub fn new() -> (log: EventLog)
        ensures
            log.wf(),
            log@ == Seq::<ContainerView>::empty(),
            log.spec_capacity() == usize::MAX,
    {
        EventLog::with_capacity(usize::MAX)
    }

    pub fn len(&self) -> (n: usize)
        ensures
            n == self@.len(),
    {
        self.events.len()
    }

    pub fn capacity(&self) -> (n: usize)
        ensures
            n == self.spec_capacity(),
    {
        self.capacity
    }

    /// Whether the log refuses every new event.
    pub fn is_full(&self) -> (b: bool)
        requires
            self.wf(),
        ensures
            b == (self@.len() >= self.spec_capacity()),
    {
        self.events.len() >= self.capacity
    }

    /// The watermark of `client`.
    pub fn last_seq(&self, client: ClientId) -> (seq: u64)
        requires
            self.wf(),
        ensures
            seq == last_seq(self@, client.0),
    {
        match self.marks.get(client.0) {
            Some(m) => *m,
            None => 0,
        }
    }

    /// The sequence number of the latest event of `client` on the node
    /// `node`, 0 where it has none.
    pub fn last_touch(&self, client: ClientId, node: NodeId) -> (seq: u64)
        ensures
            seq == last_touch(self@, client.0, node),
    {
        let mut i: usize = self.events.len();
        assert(self@.take(i as int) =~= self@);
        while i > 0
            invariant
                i <= self.events@.len(),
                last_touch(self@, client.0, node) == last_touch(self@.take(i as int), client.0, node),
            decreases i,
        {
            proof {
                assert(self@.take(i as int).last() == self.events@[i - 1]@);
                assert(self@.take(i as int).drop_last() =~= self@.take(i - 1));
            }
            if self.events[i - 1].id.client.0 == client.0 && self.events[i - 1].event.touches(node) {
                return self.events[i - 1].id.seq;
            }
            i -= 1;
        }
        0
    }

    /// The latest time that any event of the log carries.
    pub fn newest(&self) -> (t: u64)
        requires
            self.wf(),
        ensures
            t == newest(self@),
    {
        self.clock
    }

    /// Records `c`, unless it is already recorded or the log is full.
    pub fn append(&mut self, c: RepoEventContainer) -> (r: Result<(), LogError>)
        requires
            old(self).wf(),
        ensures
            final(self).wf(),
            final(self).spec_capacity() == old(self).spec_capacity(),
            match append_spec(old(self)@, old(self).spec_capacity(), c@) {
                Ok(log) => r is Ok && final(self)@ == log,
                Err(e) => r == Err::<(), LogError>(e) && final(self)@ == old(self)@,
            },
    {
        let client = c.id.client;
        let seq = c.id.seq;
        if seq <= self.last_seq(client) {
            return Ok(());
        }
        if self.events.len() >= self.capacity {
            return Err(LogError::StorageUnavailable);
        }
        let ghost before = self@;
        let ghost old_marks = self.marks@;
        proof {
            lemma_views_push(self.events@, c);
            assert(before.push(c@).drop_last() =~= before);
        }
        if c.timestamp > self.clock {
            self.clock = c.timestamp;
        }
        self.marks.insert(client.0, seq);
        self.events.push(c);
        proof {
            assert(self@ == before.push(c@));
            assert forall|other: u128| mark_of(self.marks@, other) == #[trigger] last_seq(
                self@,
                other,
            ) by {
                assert(mark_of(old_marks, other) == last_seq(before, other));
            }
            assert forall|i: int| 0 <= i < self.marks.keys@.len() implies (#[trigger] self.marks.vals@[i])
                > 0 by {
                if self.marks.keys@[i] != client.0 {
                    assert(self.marks.vals@[i] == old(self).marks.vals@[i]);
                }
            }
        }
        Ok(())
    }

    /// The events of `client` with a sequence number above `after`, oldest first.
    pub fn read_since(&self, client: ClientId, after: u64) -> (out: Vec<RepoEventContainer>)
        ensures
            views(out@) == since(self@, client.0, after),
    {
        let mut out: Vec<RepoEventContainer> = Vec::new();
        let mut i: usize = 0;
        assert(views(out@) =~= Seq::<ContainerView>::empty());
        assert(self@.take(0) =~= Seq::<ContainerView>::empty());
        while i < self.events.len()
            invariant
                i <= self.events@.len(),
                views(out@) == since(self@.take(i as int), client.0, after),
            decreases self.events@.len() - i,
        {
            proof {
                assert(self@.take(i + 1).drop_last() =~= self@.take(i as int));
                assert(self@.take(i + 1).last() == self.events@[i as int]@);
            }
            if self.events[i].id.client.0 == client.0 && self.events[i].id.seq > after {
                let c = self.events[i].clone();
                proof {
                    lemma_views_push(out@, c);
                }
                out.push(c);
            }
            i += 1;
        }
        assert(self@.take(i as int) =~= self@);
        out
    }

    /// The recorded event with the id `id`.
    pub fn get(&self, id: EventId) -> (r: Option<RepoEventContainer>)
        ensures
            match r {
                Some(c) => c@.id == id && self@.contains(c@),
                None => forall|i: int| 0 <= i < self@.len() ==> (#[trigger] self@[i]).id != id,
            },
    {
        let mut i: usize = 0;
        while i < self.events.len()
            invariant
                i <= self.events@.len(),
                forall|j: int| 0 <= j < i ==> (#[trigger] self@[j]).id != id,
            decreases self.events@.len() - i,
        {
            if self.events[i].id.client.0 == id.client.0 && self.events[i].id.seq == id.seq {
                assert(self@[i as int] == self.events@[i as int]@);
                return Some(self.events[i].clone());
            }
            i += 1;
        }
        None
    }

    /// Every recorded event, oldest first.
    pub fn all(&self) -> (out: Vec<RepoEventContainer>)
        ensures
            views(out@) == self@,
    {
        clone_events(&self.events)
    }

    /// The replicas that have events in the log, in the order of their first
    /// event.
    pub fn clients(&self) -> (out: Vec<ClientId>)
        ensures
            out@.len() == clients_of(self@).len(),
            forall|i: int| 0 <= i < out@.len() ==> (#[trigger] out@[i]).0 == clients_of(self@)[i],
    {
        let mut out: Vec<ClientId> = Vec::new();
        let mut i: usize = 0;
        assert(self@.take(0) =~= Seq::<ContainerView>::empty());
        while i < self.events.len()
            invariant
                i <= self.events@.len(),
                out@.len() == clients_of(self@.take(i as int)).len(),
                forall|j: int|
                    0 <= j < out@.len() ==> (#[trigger] out@[j]).0 == clients_of(
                        self@.take(i as int),
                    )[j],
            decreases self.events@.len() - i,
        {
            let client = self.events[i].id.client;
            let ghost earlier = clients_of(self@.take(i as int));
            proof {
                assert(self@.take(i + 1).drop_last() =~= self@.take(i as int));
                assert(self@.take(i + 1).last() == self.events@[i as int]@);
            }
            let mut found = false;
            let mut j: usize = 0;
            while j < out.len()
                invariant
                    j <= out@.len(),
                    out@.len() == earlier.len(),
                    forall|k: int| 0 <= k < out@.len() ==> (#[trigger] out@[k]).0 == earlier[k],
                    found <==> exists|k: int| 0 <= k < j && earlier[k] == client.0,
                decreases out@.len() - j,
            {
                if out[j].0 == client.0 {
                    found = true;
                }
                j += 1;
            }
            if !found {
                out.push(client);
            }
            i += 1;
        }
        assert(self@.take(i as int) =~= self@);
        out
    }

    /// The replicas that have events in the log, each once, with their
    /// watermarks.
    pub fn cursor(&self) -> (out: Vec<(ClientId, u64)>)
        requires
            self.wf(),
        ensures
            forall|i: int|
                0 <= i < out@.len() ==> (#[trigger] out@[i]).1 == last_seq(self@, out@[i].0.0)
                    && out@[i].1 > 0,
            forall|client: u128|
                last_seq(self@, client) > 0 ==> exists|i: int|
                    0 <= i < out@.len() && (#[trigger] out@[i]).0.0 == client,
            forall|i: int, j: int|
                0 <= i < j < out@.len() ==> (#[trigger] out@[i]).0 != (#[trigger] out@[j]).0,
    {
        let mut out: Vec<(ClientId, u64)> = Vec::new();
        let mut i: usize = 0;
        while i < self.marks.keys.len()
            invariant
                self.wf(),
                i <= self.marks.keys@.len(),
                out@.len() == i,
                forall|j: int|
                    0 <= j < i ==> (#[trigger] out@[j]).0.0 == self.marks.keys@[j] && out@[j].1
                        == self.marks.vals@[j],
            decreases self.marks.keys@.len() - i,
        {
            out.push((ClientId(self.marks.keys[i]), self.marks.vals[i]));
            i += 1;
        }
        proof {
            assert forall|j: int| 0 <= j < out@.len() implies (#[trigger] out@[j]).1 == last_seq(
                self@,
                out@[j].0.0,
            ) && out@[j].1 > 0 by {
                lemma_table_lookup(self.marks.keys@, self.marks.vals@, j);
                assert(mark_of(self.marks@, self.marks.keys@[j]) == last_seq(
                    self@,
                    self.marks.keys@[j],
                ));
            }
            assert forall|client: u128| last_seq(self@, client) > 0 implies exists|j: int|
                0 <= j < out@.len() && (#[trigger] out@[j]).0.0 == client by {
                assert(mark_of(self.marks@, client) == last_seq(self@, client));
                let j = self.marks.keys@.index_of(client);
                assert(out@[j].0.0 == client);
            }
            assert forall|a: int, b: int| 0 <= a < b < out@.len() implies (#[trigger] out@[a]).0 != (
            #[trigger] out@[b]).0 by {
                assert(self.marks.keys@[a] != self.marks.keys@[b]);
            }
        }
        out
    }
}

impl Clone for EventLog {
    fn clone(&self) -> (r: EventLog)
        ensures
            r@ == self@,
            r.spec_capacity() == self.spec_capacity(),
            self.wf() ==> r.wf(),
    {
        let r = EventLog {
            events: clone_events(&self.events),
            marks: Table { keys: copy_ids(&self.marks.keys), vals: copy_marks(&self.marks.vals) },
            clock: self.clock,
            capacity: self.capacity,
        };
        proof {
            assert(r.marks@ =~= self.marks@);
            assert(views(r.events@).len() == r.events@.len());
            assert(views(self.events@).len() == self.events@.len());
        }
        r
    }
}

/// A copy of `marks`.
fn copy_marks(marks: &Vec<u64>) -> (v: Vec<u64>)
    ensures
        v@ == marks@,
{
    let mut v: Vec<u64> = Vec::new();
    let mut i: usize = 0;
    while i < marks.len()
        invariant
            i <= marks@.len(),
            v@ == marks@.take(i as int),
        decreases marks@.len() - i,
    {
        v.push(marks[i]);
        assert(marks@.take(i as int).push(marks@[i as int]) =~= marks@.take(i + 1));
        i += 1;
    }
    assert(marks@.take(i as int) =~= marks@);
    v
}

} // verus!
