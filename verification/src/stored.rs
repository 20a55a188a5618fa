//! Events as the local store keeps them: each with its place in the log, so
//! that the log can be put together again in the order in which it grew.

use vstd::prelude::*;
use crate::event::{ContainerView, RepoEventContainer};

verus! {

/// An event with its place in the log, counted from 0.
#[derive(Debug)]
pub struct StoredEvent {
    pub position: u64,
    pub event: RepoEventContainer,
}

/// A stored event as contracts speak of it.
pub struct StoredView {
    pub position: u64,
    pub event: ContainerView,
}

impl View for StoredEvent {
    type V = StoredView;

    open spec fn view(&self) -> StoredView {
        StoredView { position: self.position, event: self.event@ }
    }
}

impl Clone for StoredEvent {
    fn clone(&self) -> (r: StoredEvent)
        ensures
            r@ == self@,
    {
        StoredEvent { position: self.position, event: self.event.clone() }
    }
}

/// The views of stored events, in the same order.
pub open spec fn stored_views(s: Seq<StoredEvent>) -> Seq<StoredView> {
    Seq::new(s.len(), |i: int| s[i]@)
}

/// Where `c` goes into `sorted`: behind every event whose position is not
/// above its own.
pub open spec fn place(sorted: Seq<StoredView>, c: StoredView) -> int
    decreases sorted.len(),
{
    if sorted.len() == 0 {
        0
    } else if c.position < sorted.last().position {
        place(sorted.drop_last(), c)
    } else {
        sorted.len() as int
    }
}

/// `stored` by position, lowest first; events at one position keep the
/// order in which they came.
pub open spec fn in_position_order(stored: Seq<StoredView>) -> Seq<StoredView>
    decreases stored.len(),
{
    if stored.len() == 0 {
        Seq::empty()
    } else {
        let earlier = in_position_order(stored.drop_last());
        earlier.insert(place(earlier, stored.last()), stored.last())
    }
}

/// The events of `stored`, without their positions.
pub open spec fn events_of(stored: Seq<StoredView>) -> Seq<ContainerView> {
    Seq::new(stored.len(), |i: int| stored[i].event)
}

/// Positions never fall along `s`.
pub open spec fn rising(s: Seq<StoredView>) -> bool {
    forall|i: int, j: int| 0 <= i < j < s.len() ==> (#[trigger] s[i]).position <= (#[trigger] s[j]).position
}

proof fn lemma_place_bounds(sorted: Seq<StoredView>, c: StoredView)
    ensures
        0 <= place(sorted, c) <= sorted.len(),
        forall|j: int| place(sorted, c) <= j < sorted.len() ==> c.position < (#[trigger] sorted[j]).position,
        place(sorted, c) > 0 ==> sorted[place(sorted, c) - 1].position <= c.position,
    decreases sorted.len(),
{
    if sorted.len() > 0 && c.position < sorted.last().position {
        lemma_place_bounds(sorted.drop_last(), c);
        assert forall|j: int| place(sorted, c) <= j < sorted.len() implies c.position < (
        #[trigger] sorted[j]).position by {
            if j < sorted.len() - 1 {
                assert(sorted.drop_last()[j] == sorted[j]);
            }
        }
    }
}

/// The position order is an order: it holds every stored event as often as
/// it was handed in, and positions never fall along it.
pub proof fn lemma_position_order(stored: Seq<StoredView>)
    ensures
        rising(in_position_order(stored)),
        in_position_order(stored).len() == stored.len(),
        in_position_order(stored).to_multiset() == stored.to_multiset(),
    decreases stored.len(),
{
    broadcast use vstd::seq_lib::group_to_multiset_ensures;

    if stored.len() == 0 {
        assert(in_position_order(stored) =~= stored);
    } else {
        let earlier = in_position_order(stored.drop_last());
        let c = stored.last();
        let k = place(earlier, c);
        lemma_position_order(stored.drop_last());
        lemma_place_bounds(earlier, c);
        let out = earlier.insert(k, c);
        assert forall|i: int, j: int| 0 <= i < j < out.len() implies (#[trigger] out[i]).position <= (
        #[trigger] out[j]).position by {
            if j < k {
                assert(out[i] == earlier[i] && out[j] == earlier[j]);
            } else if j == k {
                assert(out[i] == earlier[i]);
                if i < k - 1 {
                    assert(earlier[i].position <= earlier[k - 1].position);
                }
            } else if i < k {
                assert(out[i] == earlier[i] && out[j] == earlier[j - 1]);
            } else if i == k {
                assert(out[j] == earlier[j - 1]);
            } else {
                assert(out[i] == earlier[i - 1] && out[j] == earlier[j - 1]);
            }
        }
        vstd::seq_lib::to_multiset_insert(earlier, k, c);
        assert(stored =~= stored.drop_last().push(c));
        assert(stored.drop_last().push(c).to_multiset() == stored.drop_last().to_multiset().insert(c));
    }
}

/// `stored` by position, lowest first.
pub fn sort_stored(stored: &Vec<StoredEvent>) -> (out: Vec<StoredEvent>)
    ensures
        stored_views(out@) == in_position_order(stored_views(stored@)),
{
    let mut out: Vec<StoredEvent> = Vec::new();
    let mut n: usize = 0;
    assert(stored_views(stored@).take(0) =~= Seq::<StoredView>::empty());
    assert(stored_views(out@) =~= Seq::<StoredView>::empty());
    while n < stored.len()
        invariant
            n <= stored@.len(),
            out@.len() == n,
            stored_views(out@) == in_position_order(stored_views(stored@).take(n as int)),
        decreases stored@.len() - n,
    {
        let c = stored[n].clone();
        let ghost sorted = stored_views(out@);
        let mut i: usize = out.len();
        assert(sorted.take(i as int) =~= sorted);
        while i > 0 && c.position < out[i - 1].position
            invariant
                i <= out@.len(),
                sorted == stored_views(out@),
                place(sorted, c@) == place(sorted.take(i as int), c@),
            decreases i,
        {
            proof {
                assert(sorted.take(i as int).last() == out@[i - 1]@);
                assert(sorted.take(i as int).drop_last() =~= sorted.take(i - 1));
            }
            i -= 1;
        }
        proof {
            if i > 0 {
                assert(sorted.take(i as int).last() == out@[i - 1]@);
            }
            assert(place(sorted, c@) == i);
            assert(stored_views(stored@).take(n + 1).drop_last() =~= stored_views(stored@).take(
                n as int,
            ));
            assert(stored_views(stored@).take(n + 1).last() == stored@[n as int]@);
            assert(stored_views(out@.insert(i as int, c)) =~= sorted.insert(i as int, c@));
        }
        out.insert(i, c);
        n += 1;
    }
    assert(stored_views(stored@).take(n as int) =~= stored_views(stored@));
    out
}

/// The events of `stored` in the order in which the log grew: by position.
pub fn replay_order(stored: &Vec<StoredEvent>) -> (out: Vec<RepoEventContainer>)
    ensures
        crate::event::views(out@) == events_of(in_position_order(stored_views(stored@))),
{
    let sorted = sort_stored(stored);
    let mut out: Vec<RepoEventContainer> = Vec::new();
    let mut i: usize = 0;
    while i < sorted.len()
        invariant
            i <= sorted@.len(),
            out@.len() == i,
            forall|j: int| 0 <= j < i ==> (#[trigger] out@[j])@ == sorted@[j]@.event,
        decreases sorted@.len() - i,
    {
        out.push(sorted[i].event.clone());
        i += 1;
    }
    assert(crate::event::views(out@) =~= events_of(stored_views(sorted@)));
    out
}

} // verus!
