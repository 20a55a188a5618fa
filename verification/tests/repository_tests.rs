use archivum::blob::{BlobId, BlobRecord};
use archivum::error::RepoError;
use archivum::event::{RepoEvent, RepoEventContainer};
use archivum::ids::{ClientId, EventId, NodeId, TagId};
use archivum::node::{NodeRecord, NodeStatus, NodeType};
use archivum::projection::Projection;
use archivum::repository::{RepoState, Repository};
use archivum::stored::{replay_order, sort_stored, StoredEvent};
use archivum::tag::{TagColors, TagRecord};

fn path(segments: &[&str]) -> Vec<String> {
    segments.iter().map(|s| s.to_string()).collect()
}

fn sorted(mut ids: Vec<u128>) -> Vec<u128> {
    ids.sort();
    ids
}

fn same_node(a: &NodeRecord, b: &NodeRecord) -> bool {
    a.id == b.id
        && a.title == b.title
        && format!("{:?}", a.data) == format!("{:?}", b.data)
        && a.date_created == b.date_created
        && a.date_updated == b.date_updated
        && sorted(a.tags.to_vec()) == sorted(b.tags.to_vec())
        && sorted(a.untagged.to_vec()) == sorted(b.untagged.to_vec())
        && sorted(a.blobs.to_vec()) == sorted(b.blobs.to_vec())
        && a.title_stamp == b.title_stamp
        && a.data_stamp == b.data_stamp
        && a.last_event == b.last_event
}

fn same_tag(a: &TagRecord, b: &TagRecord) -> bool {
    a.id == b.id && a.path == b.path && a.color == b.color
}

fn same_projection(a: &Projection, b: &Projection) -> bool {
    let an = a.select_nodes(None);
    let bn = b.select_nodes(None);
    let at = a.select_tags(archivum::model::TagFilter::All, &Vec::new());
    let bt = b.select_tags(archivum::model::TagFilter::All, &Vec::new());
    an.len() == bn.len()
        && at.len() == bt.len()
        && an.iter().all(|n| match b.get_node(n.id) {
            Some(m) => same_node(n, &m),
            None => false,
        })
        && at.iter().all(|t| match b.get_tag(t.id) {
            Some(u) => same_tag(t, &u),
            None => false,
        })
}

#[test]
fn create_then_get_node() {
    let mut repo = Repository::new(ClientId(1));
    assert_eq!(repo.create_node(NodeId(10), "first".to_string(), NodeType::Folder, 100), Ok(()));
    let node = repo.get_node(NodeId(10)).unwrap();
    assert_eq!(node.get_id(), NodeId(10));
    assert_eq!(node.get_title(), "first");
    assert_eq!(node.get_date_created(), 100);
    assert_eq!(node.get_date_updated(), 100);
    assert_eq!(node.last_event, EventId { client: ClientId(1), seq: 1 });
    assert_eq!(repo.get_node_status(NodeId(10)), Some(NodeStatus::PendingPush));
    assert_eq!(repo.events().len(), 1);
    assert_eq!(repo.watermark(ClientId(1)), 1);
    assert_eq!(repo.watermark(ClientId(2)), 0);
}

#[test]
fn create_twice_is_refused() {
    let mut repo = Repository::new(ClientId(1));
    assert_eq!(repo.create_node(NodeId(10), "a".to_string(), NodeType::Folder, 1), Ok(()));
    assert_eq!(
        repo.create_node(NodeId(10), "b".to_string(), NodeType::Folder, 2),
        Err(RepoError::AlreadyExists)
    );
    assert_eq!(repo.get_node(NodeId(10)).unwrap().get_title(), "a");
    assert_eq!(repo.events().len(), 1);
}

#[test]
fn node_life_cycle_is_absent_active_deleted() {
    let mut repo = Repository::new(ClientId(1));
    let id = NodeId(7);
    assert_eq!(repo.rename_node(id, "x".to_string(), 1), Err(RepoError::NotFound));
    assert_eq!(repo.delete_node(id, 1), Err(RepoError::NotFound));
    assert_eq!(repo.untag_node(id, TagId(1), 1), Err(RepoError::NotFound));
    assert_eq!(repo.get_node_status(id), None);
    assert_eq!(repo.create_node(id, "n".to_string(), NodeType::Folder, 2), Ok(()));
    assert_eq!(repo.rename_node(id, "m".to_string(), 3), Ok(()));
    assert_eq!(repo.get_node(id).unwrap().get_title(), "m");
    assert_eq!(repo.get_node(id).unwrap().get_date_updated(), 3);
    assert_eq!(repo.delete_node(id, 4), Ok(()));
    assert!(repo.get_node(id).is_none());
    assert_eq!(repo.get_node_status(id), Some(NodeStatus::PendingDelete));
    // deleting again is a no-op, not an error
    assert_eq!(repo.delete_node(id, 5), Ok(()));
    assert!(repo.get_node(id).is_none());
    // deleted is terminal
    assert_eq!(repo.rename_node(id, "z".to_string(), 6), Err(RepoError::NotFound));
    assert_eq!(repo.tag_node(id, TagId(1), 6), Err(RepoError::NotFound));
    assert_eq!(
        repo.create_node(id, "again".to_string(), NodeType::Folder, 7),
        Err(RepoError::AlreadyExists)
    );
}

#[test]
fn timestamps_never_run_backwards() {
    let mut repo = Repository::new(ClientId(1));
    assert_eq!(repo.create_node(NodeId(1), "a".to_string(), NodeType::Folder, 50), Ok(()));
    // the clock of the caller went back: the event carries the latest time seen
    assert_eq!(repo.rename_node(NodeId(1), "b".to_string(), 20), Ok(()));
    let events = repo.events();
    assert_eq!(events[1].get_timestamp(), 50);
    let node = repo.get_node(NodeId(1)).unwrap();
    assert_eq!(node.get_title(), "b");
    assert_eq!(node.get_date_created(), 50);
    assert_eq!(node.get_date_updated(), 50);
}

#[test]
fn tagging_needs_a_live_tag_and_a_live_node() {
    let mut repo = Repository::new(ClientId(1));
    assert_eq!(repo.create_node(NodeId(1), "n".to_string(), NodeType::Folder, 1), Ok(()));
    assert_eq!(repo.tag_node(NodeId(1), TagId(5), 2), Err(RepoError::NotFound));
    let tag = repo.create_tag(path(&["t"]), Some(TagColors::Red), TagId(5), 3).unwrap();
    assert_eq!(tag, TagId(5));
    assert_eq!(repo.tag_node(NodeId(2), tag, 4), Err(RepoError::NotFound));
    assert_eq!(repo.tag_node(NodeId(1), tag, 5), Ok(()));
    assert_eq!(repo.get_node(NodeId(1)).unwrap().get_tags(), vec![TagId(5)]);
    let tagged = repo.get_nodes_with_tag(tag);
    assert_eq!(tagged.len(), 1);
    assert_eq!(tagged[0].get_id(), NodeId(1));
    assert_eq!(repo.get_nodes_with_tag(TagId(6)).len(), 0);
}

#[test]
fn a_tag_taken_off_does_not_come_back() {
    let mut repo = Repository::new(ClientId(1));
    repo.create_node(NodeId(1), "n".to_string(), NodeType::Folder, 1).unwrap();
    let tag = repo.create_tag(path(&["t"]), None, TagId(5), 2).unwrap();
    repo.tag_node(NodeId(1), tag, 3).unwrap();
    assert_eq!(repo.untag_node(NodeId(1), tag, 4), Ok(()));
    assert_eq!(repo.get_node(NodeId(1)).unwrap().get_tags(), Vec::<TagId>::new());
    assert_eq!(repo.tag_node(NodeId(1), tag, 5), Ok(()));
    assert_eq!(repo.get_node(NodeId(1)).unwrap().get_tags(), Vec::<TagId>::new());
    assert_eq!(repo.get_node(NodeId(1)).unwrap().get_date_updated(), 5);
}

#[test]
fn tag_and_untag_commute() {
    let mut one = Projection::new();
    let mut two = Projection::new();
    let create = RepoEventContainer::new(
        EventId::new(ClientId(1), 1),
        1,
        RepoEvent::CreateNode { id: NodeId(1), title: "n".to_string(), data: NodeType::Folder },
    );
    let tag = RepoEventContainer::new(
        EventId::new(ClientId(1), 2),
        2,
        RepoEvent::CreateTag { id: TagId(9), path: path(&["t"]), color: None },
    );
    let add = RepoEventContainer::new(
        EventId::new(ClientId(1), 3),
        3,
        RepoEvent::TagNode { node: NodeId(1), tag: TagId(9) },
    );
    let remove = RepoEventContainer::new(
        EventId::new(ClientId(2), 1),
        3,
        RepoEvent::UntagNode { node: NodeId(1), tag: TagId(9) },
    );
    for p in [&mut one, &mut two] {
        p.step(&create).unwrap();
        p.step(&tag).unwrap();
    }
    one.step(&add).unwrap();
    one.step(&remove).unwrap();
    two.step(&remove).unwrap();
    two.step(&add).unwrap();
    let a = one.get_node(NodeId(1)).unwrap();
    let b = two.get_node(NodeId(1)).unwrap();
    assert_eq!(a.tags.to_vec(), Vec::<u128>::new());
    assert_eq!(b.tags.to_vec(), Vec::<u128>::new());
    assert_eq!(a.untagged.to_vec(), vec![9]);
    assert_eq!(b.untagged.to_vec(), vec![9]);
}

#[test]
fn replaying_the_log_reproduces_the_projection() {
    let mut repo = Repository::new(ClientId(3));
    repo.create_node(NodeId(1), "one".to_string(), NodeType::Note { body: "text".to_string() }, 10)
        .unwrap();
    repo.create_node(NodeId(2), "two".to_string(), NodeType::Folder, 11).unwrap();
    let leaf = repo.create_tag(path(&["a", "b"]), Some(TagColors::Blue), TagId(100), 12).unwrap();
    repo.tag_node(NodeId(1), leaf, 13).unwrap();
    repo.tag_node(NodeId(2), leaf, 14).unwrap();
    repo.rename_node(NodeId(1), "uno".to_string(), 15).unwrap();
    repo.untag_node(NodeId(2), leaf, 16).unwrap();
    repo.attach_blob(NodeId(1), BlobRecord { id: BlobId(77), size: 3 }, 17).unwrap();
    repo.delete_node(NodeId(2), 18).unwrap();
    assert_eq!(repo.create_node(NodeId(1), "dup".to_string(), NodeType::Folder, 19), Err(RepoError::AlreadyExists));
    let parent = repo.get_tag_by_path(path(&["a"])).unwrap().unwrap();
    repo.delete_tag(parent.get_id(), 20).unwrap();

    let events = repo.events();
    assert_eq!(events.len(), 12);
    let replayed = Projection::replay(&events);
    assert!(same_projection(&replayed, repo.projection()));
    assert!(same_projection(repo.projection(), &replayed));
    assert_eq!(replayed.select_nodes(None).len(), 1);
    assert_eq!(replayed.get_node(NodeId(1)).unwrap().get_title(), "uno");
    assert_eq!(replayed.get_node(NodeId(1)).unwrap().get_tags(), Vec::<TagId>::new());
    assert_eq!(replayed.deleted_by(NodeId(2)), Some(EventId::new(ClientId(3), 10)));
    assert_eq!(replayed.get_blob_record(BlobId(77)), Some(BlobRecord { id: BlobId(77), size: 3 }));
}

#[test]
fn applying_an_event_twice_is_applying_it_once() {
    let mut once = Repository::new(ClientId(1));
    let mut twice = Repository::new(ClientId(1));
    let create = RepoEventContainer::new(
        EventId::new(ClientId(2), 1),
        5,
        RepoEvent::CreateNode { id: NodeId(1), title: "n".to_string(), data: NodeType::Folder },
    );
    assert_eq!(once.apply(create.clone()), Ok(()));
    assert_eq!(twice.apply(create.clone()), Ok(()));
    assert_eq!(twice.apply(create.clone()), Ok(()));
    assert_eq!(once.events().len(), 1);
    assert_eq!(twice.events().len(), 1);
    assert!(same_projection(once.projection(), twice.projection()));
    assert_eq!(twice.watermark(ClientId(2)), 1);
}

#[test]
fn an_event_that_skips_a_sequence_number_is_refused() {
    let mut repo = Repository::new(ClientId(1));
    let late = RepoEventContainer::new(
        EventId::new(ClientId(2), 2),
        5,
        RepoEvent::CreateNode { id: NodeId(1), title: "n".to_string(), data: NodeType::Folder },
    );
    assert_eq!(repo.apply(late), Err(RepoError::ProtocolError));
    assert_eq!(repo.events().len(), 0);
    assert!(repo.get_node(NodeId(1)).is_none());
}

#[test]
fn a_full_log_refuses_and_the_projection_stays() {
    let mut repo = Repository::with_capacity(ClientId(1), 1);
    assert_eq!(repo.create_node(NodeId(1), "a".to_string(), NodeType::Folder, 1), Ok(()));
    assert_eq!(
        repo.create_node(NodeId(2), "b".to_string(), NodeType::Folder, 2),
        Err(RepoError::StorageUnavailable)
    );
    assert!(repo.get_node(NodeId(2)).is_none());
    assert_eq!(repo.events().len(), 1);
    // what the fold refuses is reported before the log is asked
    assert_eq!(
        repo.create_node(NodeId(1), "c".to_string(), NodeType::Folder, 3),
        Err(RepoError::AlreadyExists)
    );
    assert_eq!(repo.stage(RepoEvent::DeleteNode { id: NodeId(1) }, 4).err(), Some(RepoError::StorageUnavailable));
}

#[test]
fn stage_prepares_without_changing() {
    let mut repo = Repository::new(ClientId(4));
    repo.create_node(NodeId(1), "a".to_string(), NodeType::Folder, 10).unwrap();
    let staged = repo.stage(RepoEvent::RenameNode { id: NodeId(1), title: "b".to_string() }, 5).unwrap();
    assert_eq!(staged.get_id(), EventId::new(ClientId(4), 2));
    assert_eq!(staged.get_timestamp(), 10);
    assert_eq!(repo.events().len(), 1);
    assert_eq!(repo.get_node(NodeId(1)).unwrap().get_title(), "a");
    assert_eq!(
        repo.stage(RepoEvent::RenameNode { id: NodeId(2), title: "b".to_string() }, 5).err(),
        Some(RepoError::NotFound)
    );
    assert_eq!(repo.apply(staged), Ok(()));
    assert_eq!(repo.get_node(NodeId(1)).unwrap().get_title(), "b");
}

#[test]
fn resolving_a_path_creates_what_is_missing() {
    let mut repo = Repository::new(ClientId(1));
    let leaf = repo.create_tag(path(&["a", "b", "c"]), Some(TagColors::Green), TagId(10), 1).unwrap();
    assert_eq!(leaf, TagId(12));
    assert_eq!(repo.events().len(), 3);
    let a = repo.get_tag_by_path(path(&["a"])).unwrap().unwrap();
    let b = repo.get_tag_by_path(path(&["a", "b"])).unwrap().unwrap();
    let c = repo.get_tag_by_path(path(&["a", "b", "c"])).unwrap().unwrap();
    assert_eq!(a.get_id(), TagId(10));
    assert_eq!(b.get_id(), TagId(11));
    assert_eq!(c.get_id(), TagId(12));
    assert_eq!(a.get_color(), None);
    assert_eq!(c.get_color(), Some(TagColors::Green));
    assert_eq!(c.get_path(), &path(&["a", "b", "c"]));
    // resolving again creates nothing and gives the same tag
    assert_eq!(repo.create_tag(path(&["a", "b", "c"]), None, TagId(50), 2), Ok(TagId(12)));
    assert_eq!(repo.create_tag(path(&["a"]), None, TagId(60), 2), Ok(TagId(10)));
    assert_eq!(repo.events().len(), 3);
    assert_eq!(repo.get_all_tags().len(), 3);
    // a sibling creates only what is missing, under the first ids that are free
    assert_eq!(repo.create_tag(path(&["a", "d"]), None, TagId(11), 3), Ok(TagId(13)));
    assert_eq!(repo.events().len(), 4);
    assert_eq!(repo.events()[3].get_id(), EventId::new(ClientId(1), 4));
}

#[test]
fn resolving_and_child_lookup_agree() {
    let mut repo = Repository::new(ClientId(1));
    repo.create_tag(path(&["a", "b", "c"]), None, TagId(10), 1).unwrap();
    let a = repo.create_tag(path(&["a"]), None, TagId(20), 2).unwrap();
    let children = repo.get_child_tags(a).unwrap();
    assert_eq!(children.len(), 1);
    assert_eq!(children[0].get_path(), &path(&["a", "b"]));
    let b = repo.get_tag_by_path(path(&["a", "b"])).unwrap().unwrap();
    assert_eq!(children[0].get_id(), b.get_id());
    assert!(repo.get_child_tags(TagId(999)).is_none());
    let c = repo.get_tag_by_path(path(&["a", "b", "c"])).unwrap().unwrap();
    assert_eq!(repo.get_child_tags(c.get_id()).unwrap().len(), 0);
    assert_eq!(repo.get_child_tags(b.get_id()).unwrap().len(), 1);
}

#[test]
fn an_empty_path_is_invalid() {
    let mut repo = Repository::new(ClientId(1));
    assert_eq!(repo.create_tag(Vec::new(), None, TagId(1), 1), Err(RepoError::InvalidPath));
    assert_eq!(repo.create_tag(path(&["a", ""]), None, TagId(1), 1), Err(RepoError::InvalidPath));
    assert_eq!(repo.get_tag_by_path(Vec::new()).err(), Some(RepoError::InvalidPath));
    assert!(repo.get_tag_by_path(path(&["a"])).unwrap().is_none());
    assert_eq!(repo.events().len(), 0);
    let raw = RepoEventContainer::new(
        EventId::new(ClientId(2), 1),
        1,
        RepoEvent::CreateTag { id: TagId(1), path: Vec::new(), color: None },
    );
    assert_eq!(repo.apply(raw), Err(RepoError::InvalidPath));
}

#[test]
fn new_tags_get_ids_that_are_free() {
    let mut repo = Repository::new(ClientId(1));
    repo.create_tag(path(&["a"]), None, TagId(1), 1).unwrap();
    assert_eq!(repo.get_next_tag_id(0), TagId(0));
    assert_eq!(repo.get_next_tag_id(1), TagId(2));
    assert_eq!(repo.create_tag(path(&["b", "c"]), None, TagId(0), 2), Ok(TagId(2)));
    assert_eq!(repo.get_tag_by_path(path(&["b"])).unwrap().unwrap().get_id(), TagId(0));
    assert_eq!(repo.get_next_tag_id(0), TagId(3));
    // the search wraps round
    assert_eq!(repo.create_tag(path(&["z"]), None, TagId(u128::MAX), 3), Ok(TagId(u128::MAX)));
    assert_eq!(repo.get_next_tag_id(u128::MAX), TagId(3));
}

#[test]
fn new_nodes_can_ask_for_an_id_that_was_never_used() {
    let mut repo = Repository::new(ClientId(1));
    assert_eq!(repo.get_next_node_id(7), NodeId(7));
    repo.create_node(NodeId(7), "a".to_string(), NodeType::Folder, 1).unwrap();
    repo.create_node(NodeId(8), "b".to_string(), NodeType::Folder, 1).unwrap();
    repo.delete_node(NodeId(8), 2).unwrap();
    // a deleted node's id stays taken
    assert_eq!(repo.get_next_node_id(7), NodeId(9));
    assert_eq!(repo.get_next_node_id(8), NodeId(9));
    assert_eq!(repo.get_next_node_id(100), NodeId(100));
    let id = repo.get_next_node_id(7);
    assert_eq!(repo.create_node(id, "c".to_string(), NodeType::Folder, 3), Ok(()));
}

#[test]
fn a_taken_id_or_path_refuses_a_tag_event() {
    let mut repo = Repository::new(ClientId(1));
    repo.create_tag(path(&["a"]), None, TagId(1), 1).unwrap();
    let same_id = RepoEventContainer::new(
        EventId::new(ClientId(2), 1),
        1,
        RepoEvent::CreateTag { id: TagId(1), path: path(&["b"]), color: None },
    );
    assert_eq!(repo.apply(same_id), Err(RepoError::AlreadyExists));
    let same_path = RepoEventContainer::new(
        EventId::new(ClientId(2), 1),
        1,
        RepoEvent::CreateTag { id: TagId(7), path: path(&["a"]), color: None },
    );
    assert_eq!(repo.apply(same_path), Err(RepoError::AlreadyExists));
}

#[test]
fn deleting_a_tag_removes_its_subtree_everywhere() {
    let mut repo = Repository::new(ClientId(1));
    let y = repo.create_tag(path(&["x", "y"]), None, TagId(10), 1).unwrap();
    let x = repo.get_tag_by_path(path(&["x"])).unwrap().unwrap().get_id();
    let other = repo.create_tag(path(&["xx"]), None, TagId(30), 2).unwrap();
    repo.create_node(NodeId(1), "n".to_string(), NodeType::Folder, 3).unwrap();
    repo.create_node(NodeId(2), "m".to_string(), NodeType::Folder, 3).unwrap();
    repo.tag_node(NodeId(1), x, 4).unwrap();
    repo.tag_node(NodeId(1), y, 4).unwrap();
    repo.tag_node(NodeId(2), y, 4).unwrap();
    repo.tag_node(NodeId(2), other, 4).unwrap();
    let before = repo.events().len();
    assert_eq!(repo.delete_tag(x, 5), Ok(()));
    assert!(repo.get_tag(x).is_none());
    assert!(repo.get_tag(y).is_none());
    assert!(repo.get_tag_by_path(path(&["x"])).unwrap().is_none());
    assert!(repo.get_tag_by_path(path(&["x", "y"])).unwrap().is_none());
    assert!(repo.get_tag(other).is_some());
    assert_eq!(repo.get_node(NodeId(1)).unwrap().get_tags(), Vec::<TagId>::new());
    assert_eq!(repo.get_node(NodeId(2)).unwrap().get_tags(), vec![other]);
    // one DeleteTag event per removed tag
    let events = repo.events();
    assert_eq!(events.len(), before + 2);
    let mut deleted: Vec<u128> = Vec::new();
    for e in &events[before..] {
        match e.get_event() {
            RepoEvent::DeleteTag { id } => deleted.push(id.0),
            other => panic!("unexpected event {:?}", other),
        }
    }
    assert_eq!(sorted(deleted), sorted(vec![x.0, y.0]));
    assert_eq!(repo.delete_tag(x, 6), Err(RepoError::NotFound));
    // and replay reaches the same end state
    assert!(same_projection(&Projection::replay(&events), repo.projection()));
}

#[test]
fn deleting_a_subtree_is_all_or_nothing() {
    let mut repo = Repository::with_capacity(ClientId(1), 3);
    // three tags are needed, the log takes three events: fine
    assert_eq!(
        Repository::with_capacity(ClientId(1), 3).create_tag(path(&["p", "q", "r"]), None, TagId(1), 1),
        Ok(TagId(3))
    );
    // three tags are needed, the log takes two events: nothing is created
    let mut small = Repository::with_capacity(ClientId(1), 2);
    assert_eq!(
        small.create_tag(path(&["p", "q", "r"]), None, TagId(1), 1),
        Err(RepoError::StorageUnavailable)
    );
    assert_eq!(small.get_all_tags().len(), 0);
    assert_eq!(small.event_count(), 0);
    repo.create_tag(path(&["x", "y"]), None, TagId(10), 1).unwrap();
    let x = repo.get_tag_by_path(path(&["x"])).unwrap().unwrap().get_id();
    // two events are needed, the log takes one more
    assert_eq!(repo.delete_tag(x, 2), Err(RepoError::StorageUnavailable));
    assert_eq!(repo.get_all_tags().len(), 2);
    assert_eq!(repo.events().len(), 2);
}

#[test]
fn node_status_follows_the_pushed_watermark() {
    let mut repo = Repository::new(ClientId(1));
    repo.create_node(NodeId(1), "a".to_string(), NodeType::Folder, 1).unwrap();
    repo.create_node(NodeId(2), "b".to_string(), NodeType::Folder, 2).unwrap();
    assert_eq!(repo.get_node_status(NodeId(1)), Some(NodeStatus::PendingPush));
    repo.confirm_push(1);
    assert_eq!(repo.pushed(), 1);
    assert_eq!(repo.get_node_status(NodeId(1)), Some(NodeStatus::Synced));
    assert_eq!(repo.get_node_status(NodeId(2)), Some(NodeStatus::PendingPush));
    // the confirmed number neither passes what was issued nor goes back
    repo.confirm_push(99);
    assert_eq!(repo.pushed(), 2);
    repo.confirm_push(1);
    assert_eq!(repo.pushed(), 2);
    repo.delete_node(NodeId(2), 3).unwrap();
    assert_eq!(repo.get_node_status(NodeId(2)), Some(NodeStatus::PendingDelete));
    repo.confirm_push(3);
    // a deleted node whose deletion is confirmed is synced
    assert_eq!(repo.get_node_status(NodeId(2)), Some(NodeStatus::Synced));
    // a node that never was has no status
    assert_eq!(repo.get_node_status(NodeId(3)), None);
}

#[test]
fn an_unpushed_own_change_keeps_a_node_pending() {
    let mut repo = Repository::new(ClientId(1));
    repo.create_node(NodeId(1), "a".to_string(), NodeType::Folder, 1).unwrap();
    // a rename of the node arrives from another replica
    let rename = RepoEventContainer::new(
        EventId::new(ClientId(2), 1),
        5,
        RepoEvent::RenameNode { id: NodeId(1), title: "b".to_string() },
    );
    assert_eq!(repo.apply(rename), Ok(()));
    assert_eq!(repo.get_node(NodeId(1)).unwrap().get_title(), "b");
    // the own create is still waiting
    assert_eq!(repo.get_node_status(NodeId(1)), Some(NodeStatus::PendingPush));
    repo.confirm_push(1);
    assert_eq!(repo.get_node_status(NodeId(1)), Some(NodeStatus::Synced));
    // a node that only others touched is synced
    let other = RepoEventContainer::new(
        EventId::new(ClientId(2), 2),
        6,
        RepoEvent::CreateNode { id: NodeId(2), title: "theirs".to_string(), data: NodeType::Folder },
    );
    assert_eq!(repo.apply(other), Ok(()));
    assert_eq!(repo.get_node_status(NodeId(2)), Some(NodeStatus::Synced));
    // an own change to another node, or the deletion of a tag, leaves it so
    repo.create_node(NodeId(3), "c".to_string(), NodeType::Folder, 7).unwrap();
    let tag = repo.create_tag(path(&["t"]), None, TagId(9), 8).unwrap();
    repo.delete_tag(tag, 9).unwrap();
    assert_eq!(repo.get_node_status(NodeId(2)), Some(NodeStatus::Synced));
    assert_eq!(repo.get_node_status(NodeId(1)), Some(NodeStatus::Synced));
    assert_eq!(repo.get_node_status(NodeId(3)), Some(NodeStatus::PendingPush));
    // an own deletion of their node waits to be pushed
    repo.delete_node(NodeId(2), 10).unwrap();
    assert_eq!(repo.get_node_status(NodeId(2)), Some(NodeStatus::PendingDelete));
}

#[test]
fn an_upsert_updates_what_is_there_and_creates_what_is_not() {
    let mut repo = Repository::new(ClientId(1));
    assert_eq!(repo.update_node(NodeId(1), NodeType::Folder, 1), Err(RepoError::NotFound));
    assert_eq!(repo.upsert_node(NodeId(1), NodeType::Note { body: "one".to_string() }, 10), Ok(()));
    let made = repo.get_node(NodeId(1)).unwrap();
    assert_eq!(made.get_title(), "");
    assert_eq!(made.get_date_created(), 10);
    assert!(matches!(made.get_data(), NodeType::Note { body } if body == "one"));
    let tag = repo.create_tag(path(&["t"]), None, TagId(5), 11).unwrap();
    repo.tag_node(NodeId(1), tag, 12).unwrap();
    repo.rename_node(NodeId(1), "named".to_string(), 13).unwrap();
    assert_eq!(repo.upsert_node(NodeId(1), NodeType::Link { target: "x".to_string() }, 20), Ok(()));
    let kept = repo.get_node(NodeId(1)).unwrap();
    assert!(matches!(kept.get_data(), NodeType::Link { target } if target == "x"));
    // the tags, the title and the time of creation stay
    assert_eq!(kept.get_tags(), vec![tag]);
    assert_eq!(kept.get_title(), "named");
    assert_eq!(kept.get_date_created(), 10);
    assert_eq!(kept.get_date_updated(), 20);
    assert_eq!(repo.update_node(NodeId(1), NodeType::Folder, 21), Ok(()));
    assert!(matches!(repo.get_node(NodeId(1)).unwrap().get_data(), NodeType::Folder));
    repo.delete_node(NodeId(1), 22).unwrap();
    assert_eq!(repo.upsert_node(NodeId(1), NodeType::Folder, 23), Err(RepoError::AlreadyExists));
    assert!(same_projection(&Projection::replay(&repo.events()), repo.projection()));
}

#[test]
fn an_older_update_does_not_win_by_arriving_later() {
    let mut repo = Repository::new(ClientId(2));
    repo.create_node(NodeId(1), "n".to_string(), NodeType::Folder, 1).unwrap();
    repo.update_node(NodeId(1), NodeType::Note { body: "new".to_string() }, 20).unwrap();
    let older = RepoEventContainer::new(
        EventId::new(ClientId(1), 1),
        10,
        RepoEvent::UpdateNode { id: NodeId(1), data: NodeType::Note { body: "old".to_string() } },
    );
    assert_eq!(repo.apply(older), Ok(()));
    assert!(matches!(repo.get_node(NodeId(1)).unwrap().get_data(), NodeType::Note { body } if body == "new"));
}

#[test]
fn an_upsert_of_a_tag_creates_it_once() {
    let mut repo = Repository::new(ClientId(1));
    assert_eq!(repo.upsert_tag(TagId(4), path(&["a", "b"]), 1), Ok(()));
    assert_eq!(repo.get_tag(TagId(4)).unwrap().get_path(), &path(&["a", "b"]));
    assert_eq!(repo.event_count(), 1);
    assert_eq!(repo.upsert_tag(TagId(4), path(&["a", "b"]), 2), Ok(()));
    assert_eq!(repo.event_count(), 1);
    assert_eq!(repo.upsert_tag(TagId(4), path(&["c"]), 3), Err(RepoError::AlreadyExists));
    assert_eq!(repo.upsert_tag(TagId(5), path(&["a", "b"]), 3), Err(RepoError::AlreadyExists));
    assert_eq!(repo.upsert_tag(TagId(5), Vec::new(), 3), Err(RepoError::InvalidPath));
}

#[test]
fn stored_events_are_replayed_by_position() {
    let mut source = Repository::new(ClientId(1));
    source.create_node(NodeId(1), "a".to_string(), NodeType::Folder, 1).unwrap();
    source.rename_node(NodeId(1), "b".to_string(), 2).unwrap();
    source.delete_node(NodeId(1), 3).unwrap();
    let staged = source.stage(RepoEvent::DeleteNode { id: NodeId(1) }, 4).unwrap();
    assert_eq!(source.to_store(staged).position, 3);
    let all = source.stored_since(0);
    assert_eq!(all.iter().map(|s| s.position).collect::<Vec<u64>>(), vec![0, 1, 2]);
    assert_eq!(source.stored_since(2).len(), 1);
    assert_eq!(source.stored_since(2)[0].position, 2);
    assert_eq!(source.stored_since(3).len(), 0);
    assert_eq!(source.stored_since(9).len(), 0);
    // the store hands them out in any order
    let shuffled: Vec<StoredEvent> = vec![all[2].clone(), all[0].clone(), all[1].clone()];
    assert_eq!(
        replay_order(&shuffled).iter().map(|e| e.get_id().seq).collect::<Vec<u64>>(),
        vec![1, 2, 3]
    );
    assert_eq!(
        sort_stored(&shuffled).iter().map(|s| s.position).collect::<Vec<u64>>(),
        vec![0, 1, 2]
    );
    let mut loaded = Repository::new(ClientId(1));
    assert_eq!(loaded.load_stored(&shuffled, &source.sync_state()), Ok(()));
    assert!(same_projection(loaded.projection(), source.projection()));
    assert_eq!(loaded.event_count(), 3);
    // with an event missing the rest does not load
    let holed: Vec<StoredEvent> = vec![all[2].clone(), all[0].clone()];
    assert_eq!(loaded.load_stored(&holed, &source.sync_state()), Err(RepoError::ProtocolError));
    assert_eq!(loaded.event_count(), 3);
}

#[test]
fn attaching_a_blob_records_it() {
    let mut repo = Repository::new(ClientId(1));
    let record = BlobRecord::of(b"hello").unwrap();
    assert_eq!(record.size, 5);
    assert_eq!(repo.attach_blob(NodeId(1), record, 1), Err(RepoError::NotFound));
    assert_eq!(repo.get_blob_record(record.id), None);
    repo.create_node(NodeId(1), "f".to_string(), NodeType::File { blob: record.id }, 1).unwrap();
    assert_eq!(repo.attach_blob(NodeId(1), record, 2), Ok(()));
    assert_eq!(repo.get_blob_record(record.id), Some(record));
    assert_eq!(repo.get_node(NodeId(1)).unwrap().blobs.to_vec(), vec![record.id.0]);
}

#[test]
fn load_local_rebuilds_from_stored_events() {
    let mut source = Repository::new(ClientId(1));
    source.create_node(NodeId(1), "a".to_string(), NodeType::Folder, 1).unwrap();
    source.create_tag(path(&["t"]), None, TagId(5), 2).unwrap();
    source.tag_node(NodeId(1), TagId(5), 3).unwrap();
    source.confirm_push(2);
    let state = source.sync_state();
    assert_eq!(state.pushed, 2);
    assert_eq!(state.watermarks, vec![(ClientId(1), 3)]);

    let mut loaded = Repository::new(ClientId(1));
    loaded.create_node(NodeId(9), "old".to_string(), NodeType::Folder, 1).unwrap();
    assert_eq!(loaded.load_local(&source.events(), &state), Ok(()));
    assert!(loaded.get_node(NodeId(9)).is_none());
    assert!(same_projection(loaded.projection(), source.projection()));
    assert_eq!(loaded.pushed(), 2);
    assert_eq!(loaded.watermark(ClientId(1)), 3);

    // a stored cursor cannot claim more than the events bear out
    let claims = RepoState { watermarks: Vec::new(), pushed: 10 };
    assert_eq!(loaded.load_local(&source.events(), &claims), Ok(()));
    assert_eq!(loaded.pushed(), 3);

    // a log with a hole is refused and nothing changes
    let mut broken = source.events();
    broken.remove(1);
    assert_eq!(loaded.load_local(&broken, &state), Err(RepoError::ProtocolError));
    assert!(same_projection(loaded.projection(), source.projection()));
    assert_eq!(RepoState::new().pushed, 0);
}
