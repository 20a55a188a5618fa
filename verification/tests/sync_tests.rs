use archivum::error::{LogError, RepoError};
use archivum::event::{EventKey, RepoEvent, RepoEventContainer};
use archivum::event_log::EventLog;
use archivum::ids::{ClientId, EventId, NodeId};
use archivum::node::NodeType;
use archivum::repository::Repository;
use archivum::sync::{sort_batch, RemoteMetadataStore};

fn create(client: u128, seq: u64, timestamp: u64, node: u128, title: &str) -> RepoEventContainer {
    RepoEventContainer::new(
        EventId::new(ClientId(client), seq),
        timestamp,
        RepoEvent::CreateNode { id: NodeId(node), title: title.to_string(), data: NodeType::Folder },
    )
}

fn rename(client: u128, seq: u64, timestamp: u64, node: u128, title: &str) -> RepoEventContainer {
    RepoEventContainer::new(
        EventId::new(ClientId(client), seq),
        timestamp,
        RepoEvent::RenameNode { id: NodeId(node), title: title.to_string() },
    )
}

fn ids(events: &Vec<RepoEventContainer>) -> Vec<(u128, u64)> {
    events.iter().map(|e| (e.get_id().client.0, e.get_id().seq)).collect()
}

#[test]
fn event_keys_order_by_time_then_replica_then_sequence() {
    let a = EventKey { timestamp: 1, client: ClientId(9), seq: 9 };
    let b = EventKey { timestamp: 2, client: ClientId(1), seq: 1 };
    let c = EventKey { timestamp: 2, client: ClientId(2), seq: 1 };
    let d = EventKey { timestamp: 2, client: ClientId(2), seq: 2 };
    assert!(a.is_before(&b));
    assert!(b.is_before(&c));
    assert!(c.is_before(&d));
    assert!(!d.is_before(&c));
    assert!(!c.is_before(&c));
    assert!(!b.is_before(&a));
}

#[test]
fn batches_are_applied_by_time_with_the_lower_replica_first() {
    let batch = vec![
        create(2, 1, 30, 1, "c"),
        create(3, 1, 10, 2, "a"),
        create(1, 1, 30, 3, "b"),
        create(3, 2, 20, 4, "d"),
        create(1, 2, 31, 5, "e"),
    ];
    let sorted = sort_batch(&batch);
    assert_eq!(ids(&sorted), vec![(3, 1), (3, 2), (1, 1), (2, 1), (1, 2)]);
    assert_eq!(sort_batch(&Vec::new()).len(), 0);
    // the input is left as it was
    assert_eq!(ids(&batch), vec![(2, 1), (3, 1), (1, 1), (3, 2), (1, 2)]);
}

#[test]
fn the_log_keeps_sequence_numbers_growing() {
    let mut log = EventLog::with_capacity(3);
    assert_eq!(log.append(create(1, 1, 5, 1, "a")), Ok(()));
    assert_eq!(log.append(create(2, 1, 9, 2, "b")), Ok(()));
    // already recorded: nothing happens
    assert_eq!(log.append(create(1, 1, 5, 1, "a")), Ok(()));
    assert_eq!(log.len(), 2);
    assert_eq!(log.append(create(1, 2, 7, 3, "c")), Ok(()));
    assert_eq!(log.len(), 3);
    assert!(log.is_full());
    assert_eq!(log.append(create(1, 3, 8, 4, "d")), Err(LogError::StorageUnavailable));
    assert_eq!(log.len(), 3);
    assert_eq!(log.capacity(), 3);
    assert_eq!(log.last_seq(ClientId(1)), 2);
    assert_eq!(log.last_seq(ClientId(2)), 1);
    assert_eq!(log.last_seq(ClientId(3)), 0);
    assert_eq!(log.newest(), 9);
    assert_eq!(ids(&log.read_since(ClientId(1), 0)), vec![(1, 1), (1, 2)]);
    assert_eq!(ids(&log.read_since(ClientId(1), 1)), vec![(1, 2)]);
    assert_eq!(ids(&log.read_since(ClientId(1), 2)), vec![]);
    assert_eq!(ids(&log.read_since(ClientId(7), 0)), vec![]);
    assert_eq!(ids(&log.all()), vec![(1, 1), (2, 1), (1, 2)]);
    assert_eq!(log.get(EventId::new(ClientId(2), 1)).unwrap().get_timestamp(), 9);
    assert!(log.get(EventId::new(ClientId(2), 2)).is_none());
    assert_eq!(log.clients(), vec![ClientId(1), ClientId(2)]);
    assert_eq!(log.cursor(), vec![(ClientId(1), 2), (ClientId(2), 1)]);
    let copy = log.clone();
    assert_eq!(ids(&copy.all()), ids(&log.all()));
    assert_eq!(EventLog::new().capacity(), usize::MAX);
}

#[test]
fn push_sends_what_is_pending_and_advances_the_watermark() {
    let mut repo = Repository::new(ClientId(1));
    let mut remote = RemoteMetadataStore::new();
    repo.create_node(NodeId(1), "a".to_string(), NodeType::Folder, 1).unwrap();
    repo.create_node(NodeId(2), "b".to_string(), NodeType::Folder, 2).unwrap();
    assert_eq!(ids(&repo.pending_push()), vec![(1, 1), (1, 2)]);
    assert_eq!(repo.push_remote(&mut remote), Ok(()));
    assert_eq!(repo.pushed(), 2);
    assert_eq!(remote.len(), 2);
    assert_eq!(repo.pending_push().len(), 0);
    repo.create_node(NodeId(3), "c".to_string(), NodeType::Folder, 3).unwrap();
    assert_eq!(ids(&repo.pending_push()), vec![(1, 3)]);
    assert_eq!(repo.push_remote(&mut remote), Ok(()));
    assert_eq!(ids(&remote.pull(ClientId(1), 0).unwrap()), vec![(1, 1), (1, 2), (1, 3)]);
    assert_eq!(ids(&remote.pull(ClientId(1), 2).unwrap()), vec![(1, 3)]);
    assert_eq!(remote.known_clients(), Ok(vec![ClientId(1)]));
}

#[test]
fn an_unreachable_remote_leaves_everything_untouched() {
    let mut repo = Repository::new(ClientId(1));
    let mut remote = RemoteMetadataStore::new();
    repo.create_node(NodeId(1), "a".to_string(), NodeType::Folder, 1).unwrap();
    remote.set_reachable(false);
    assert!(!remote.is_reachable());
    assert_eq!(repo.push_remote(&mut remote), Err(RepoError::SyncUnavailable));
    assert_eq!(repo.pushed(), 0);
    assert_eq!(remote.len(), 0);
    assert_eq!(repo.pull_remote(&remote), Err(RepoError::SyncUnavailable));
    assert_eq!(repo.events().len(), 1);
    assert_eq!(remote.pull(ClientId(1), 0).err(), Some(RepoError::SyncUnavailable));
    assert_eq!(remote.known_clients(), Err(RepoError::SyncUnavailable));
    remote.set_reachable(true);
    assert_eq!(repo.push_remote(&mut remote), Ok(()));
    assert_eq!(remote.len(), 1);
}

#[test]
fn an_interrupted_push_can_be_resumed() {
    let mut repo = Repository::new(ClientId(1));
    let mut remote = RemoteMetadataStore::new();
    for n in 1..=5u128 {
        repo.create_node(NodeId(n), "n".to_string(), NodeType::Folder, n as u64).unwrap();
    }
    let pending = repo.pending_push();
    assert_eq!(pending.len(), 5);
    // the remote takes two events, then the connection drops before any confirmation
    let first_two: Vec<RepoEventContainer> = pending.iter().take(2).cloned().collect();
    assert_eq!(remote.push(&first_two), Ok(()));
    assert_eq!(remote.len(), 2);
    assert_eq!(repo.pushed(), 0);
    assert_eq!(repo.pending_push().len(), 5);
    // the retry sends all five again
    assert_eq!(repo.push_remote(&mut remote), Ok(()));
    assert_eq!(remote.len(), 5);
    assert_eq!(
        ids(&remote.pull(ClientId(1), 0).unwrap()),
        vec![(1, 1), (1, 2), (1, 3), (1, 4), (1, 5)]
    );
    assert_eq!(repo.pushed(), 5);
    // and once more changes nothing
    assert_eq!(remote.push(&pending), Ok(()));
    assert_eq!(remote.len(), 5);
}

#[test]
fn the_remote_refuses_a_batch_with_a_hole() {
    let mut remote = RemoteMetadataStore::new();
    let batch = vec![create(1, 1, 1, 1, "a"), create(1, 3, 3, 3, "c")];
    assert_eq!(remote.push(&batch), Err(RepoError::ProtocolError));
    assert_eq!(remote.len(), 0);
}

#[test]
fn pull_applies_the_events_of_the_others() {
    let mut a = Repository::new(ClientId(1));
    let mut b = Repository::new(ClientId(2));
    let mut remote = RemoteMetadataStore::new();
    a.create_node(NodeId(1), "from a".to_string(), NodeType::Folder, 10).unwrap();
    b.create_node(NodeId(2), "from b".to_string(), NodeType::Folder, 5).unwrap();
    a.push_remote(&mut remote).unwrap();
    b.push_remote(&mut remote).unwrap();
    assert_eq!(a.pull_remote(&remote), Ok(()));
    assert_eq!(b.pull_remote(&remote), Ok(()));
    assert_eq!(a.get_node(NodeId(2)).unwrap().get_title(), "from b");
    assert_eq!(b.get_node(NodeId(1)).unwrap().get_title(), "from a");
    assert_eq!(a.watermark(ClientId(2)), 1);
    assert_eq!(b.watermark(ClientId(1)), 1);
    assert_eq!(ids(&a.events()), vec![(1, 1), (2, 1)]);
    assert_eq!(ids(&b.events()), vec![(2, 1), (1, 1)]);
    // a second pull finds nothing new
    assert_eq!(a.pull_remote(&remote), Ok(()));
    assert_eq!(a.events().len(), 2);
    // what came from elsewhere is not pending here
    assert_eq!(a.pending_push().len(), 0);
    assert_eq!(remote.known_clients(), Ok(vec![ClientId(1), ClientId(2)]));
}

#[test]
fn a_pull_asks_for_what_lies_above_the_watermarks() {
    let mut repo = Repository::new(ClientId(1));
    repo.create_node(NodeId(1), "own".to_string(), NodeType::Folder, 1).unwrap();
    repo.apply(create(2, 1, 2, 2, "b1")).unwrap();
    repo.apply(create(2, 2, 3, 3, "b2")).unwrap();
    let known = vec![ClientId(2), ClientId(1), ClientId(3)];
    assert_eq!(repo.pull_requests(&known), vec![(ClientId(2), 2), (ClientId(3), 0)]);
    assert_eq!(repo.pull_requests(&Vec::new()), vec![]);
}

#[test]
fn the_second_create_of_one_id_is_refused() {
    let mut a = Repository::new(ClientId(1));
    let mut b = Repository::new(ClientId(2));
    let mut remote = RemoteMetadataStore::new();
    a.create_node(NodeId(7), "a's".to_string(), NodeType::Folder, 10).unwrap();
    b.create_node(NodeId(7), "b's".to_string(), NodeType::Folder, 11).unwrap();
    a.push_remote(&mut remote).unwrap();
    b.push_remote(&mut remote).unwrap();
    assert_eq!(a.pull_remote(&remote), Err(RepoError::AlreadyExists));
    assert_eq!(b.pull_remote(&remote), Err(RepoError::AlreadyExists));
    // no silent overwrite, and no watermark moved
    assert_eq!(a.get_node(NodeId(7)).unwrap().get_title(), "a's");
    assert_eq!(b.get_node(NodeId(7)).unwrap().get_title(), "b's");
    assert_eq!(a.watermark(ClientId(2)), 0);
    assert_eq!(b.watermark(ClientId(1)), 0);
    // folded together in one log, whichever comes second is refused
    let mut c = Repository::new(ClientId(3));
    assert_eq!(c.apply(create(1, 1, 10, 7, "a's")), Ok(()));
    assert_eq!(c.apply(create(2, 1, 11, 7, "b's")), Err(RepoError::AlreadyExists));
    assert_eq!(c.get_node(NodeId(7)).unwrap().get_title(), "a's");
}

#[test]
fn renames_converge_to_the_later_one() {
    let mut a = Repository::new(ClientId(1));
    let mut b = Repository::new(ClientId(2));
    let mut remote = RemoteMetadataStore::new();
    a.create_node(NodeId(1), "start".to_string(), NodeType::Folder, 1).unwrap();
    a.push_remote(&mut remote).unwrap();
    b.pull_remote(&remote).unwrap();
    a.rename_node(NodeId(1), "by a".to_string(), 10).unwrap();
    b.rename_node(NodeId(1), "by b".to_string(), 20).unwrap();
    a.push_remote(&mut remote).unwrap();
    b.push_remote(&mut remote).unwrap();
    a.pull_remote(&remote).unwrap();
    b.pull_remote(&remote).unwrap();
    assert_eq!(a.get_node(NodeId(1)).unwrap().get_title(), "by b");
    assert_eq!(b.get_node(NodeId(1)).unwrap().get_title(), "by b");
    assert_eq!(a.get_node(NodeId(1)).unwrap().get_date_updated(), 20);
    assert_eq!(b.get_node(NodeId(1)).unwrap().get_date_updated(), 20);
}

#[test]
fn renames_at_one_time_go_to_the_higher_replica() {
    let mut a = Repository::new(ClientId(1));
    let mut b = Repository::new(ClientId(2));
    let mut remote = RemoteMetadataStore::new();
    a.create_node(NodeId(1), "start".to_string(), NodeType::Folder, 1).unwrap();
    a.push_remote(&mut remote).unwrap();
    b.pull_remote(&remote).unwrap();
    a.rename_node(NodeId(1), "by a".to_string(), 10).unwrap();
    b.rename_node(NodeId(1), "by b".to_string(), 10).unwrap();
    a.push_remote(&mut remote).unwrap();
    b.push_remote(&mut remote).unwrap();
    a.pull_remote(&remote).unwrap();
    b.pull_remote(&remote).unwrap();
    assert_eq!(a.get_node(NodeId(1)).unwrap().get_title(), "by b");
    assert_eq!(b.get_node(NodeId(1)).unwrap().get_title(), "by b");
}

#[test]
fn a_received_batch_is_all_or_nothing() {
    let mut repo = Repository::new(ClientId(1));
    let batch = vec![
        create(2, 1, 10, 1, "ok"),
        rename(2, 2, 11, 99, "no such node"),
    ];
    assert_eq!(repo.apply_remote(&batch), Err(RepoError::NotFound));
    assert!(repo.get_node(NodeId(1)).is_none());
    assert_eq!(repo.events().len(), 0);
    assert_eq!(repo.watermark(ClientId(2)), 0);
    // events whose timestamps run against their sequence numbers cannot be applied in order
    let skewed = vec![create(2, 1, 20, 1, "late"), create(2, 2, 10, 2, "early")];
    assert_eq!(repo.apply_remote(&skewed), Err(RepoError::ProtocolError));
    assert_eq!(repo.events().len(), 0);
    let fine = vec![rename(2, 2, 11, 1, "renamed"), create(2, 1, 10, 1, "ok")];
    assert_eq!(repo.apply_remote(&fine), Ok(()));
    assert_eq!(repo.get_node(NodeId(1)).unwrap().get_title(), "renamed");
    assert_eq!(repo.apply_in_order(&vec![create(3, 1, 1, 5, "x"), create(3, 1, 1, 5, "x")]), Ok(()));
    assert_eq!(repo.events().len(), 3);
}
