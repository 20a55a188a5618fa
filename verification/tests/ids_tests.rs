use archivum::error::RepoError;
use archivum::event::{RepoEvent, RepoEventContainer};
use archivum::ids::{hex_digit_value, parse_id_text, parse_time, ClientId, EventId, NodeId};
use archivum::metadata_endpoint::MetadataEndpoint;
use archivum::network_blob_store::{HttpMethod, HttpReply};
use archivum::node::NodeType;
use archivum::repository::Repository;
use archivum::storage::{IndexedDbBlobStorage, IndexedDbMetadataStorage, Progress, StepOutcome, StorageStep};
use archivum::sync::{read_batch, SyncGate};

#[test]
fn ids_are_read_from_hex_text() {
    assert_eq!(parse_id_text("00000000000000000000000000000001"), Some(1));
    assert_eq!(parse_id_text("00000000-0000-0000-0000-000000000001"), Some(1));
    assert_eq!(parse_id_text("ffffffff-ffff-ffff-ffff-ffffffffffff"), Some(u128::MAX));
    assert_eq!(
        parse_id_text("01234567-89ab-cdef-0123-456789ABCDEF"),
        Some(0x0123456789abcdef0123456789abcdef)
    );
    assert_eq!(
        parse_id_text("d228cb696f1a8caf78912b704e4a8964"),
        Some(0xd228cb696f1a8caf78912b704e4a8964)
    );
    assert_eq!(
        ClientId::parse_str("550e8400-e29b-41d4-a716-446655440000"),
        Some(ClientId(0x550e8400e29b41d4a716446655440000))
    );
}

#[test]
fn text_that_is_no_id_is_refused() {
    assert_eq!(parse_id_text(""), None);
    assert_eq!(parse_id_text("1"), None);
    assert_eq!(parse_id_text("0000000000000000000000000000000g"), None);
    assert_eq!(parse_id_text("00000000-0000-0000-0000-00000000000"), None);
    assert_eq!(parse_id_text("00000000+0000-0000-0000-000000000001"), None);
    assert_eq!(parse_id_text("00000000-0000-0000-0000_000000000001"), None);
    assert_eq!(parse_id_text("0000000-00000-0000-0000-000000000001"), None);
    assert_eq!(parse_id_text("00000000-0000-0000-0000-0000000000-1"), None);
    assert_eq!(parse_id_text("000000000000000000000000000000001"), None);
    assert_eq!(parse_id_text("éééééééééééééééééééééééééééééééé"), None);
    assert_eq!(ClientId::parse_str("client"), None);
}

#[test]
fn hex_digits_have_values() {
    assert_eq!(hex_digit_value('0'), Some(0));
    assert_eq!(hex_digit_value('9'), Some(9));
    assert_eq!(hex_digit_value('a'), Some(10));
    assert_eq!(hex_digit_value('F'), Some(15));
    assert_eq!(hex_digit_value('g'), None);
    assert_eq!(hex_digit_value('-'), None);
}

#[test]
fn the_gate_lets_one_push_and_one_pull_through() {
    let mut gate = SyncGate::new();
    assert!(gate.begin_push());
    assert!(!gate.begin_push());
    // a pull may run beside a push
    assert!(gate.begin_pull());
    assert!(!gate.begin_pull());
    gate.end_push();
    assert!(gate.begin_push());
    assert!(!gate.begin_pull());
    gate.end_pull();
    gate.end_push();
    assert_eq!(gate, SyncGate::new());
}

fn create(client: u128, seq: u64, node: u128) -> RepoEventContainer {
    RepoEventContainer::new(
        EventId::new(ClientId(client), seq),
        seq,
        RepoEvent::CreateNode { id: NodeId(node), title: "n".to_string(), data: NodeType::Folder },
    )
}

#[test]
fn one_unreadable_record_refuses_the_batch() {
    let mut repo = Repository::new(ClientId(1));
    let batch = vec![Some(create(2, 1, 1)), None, Some(create(2, 2, 2))];
    assert_eq!(repo.receive(batch), Err(RepoError::ProtocolError));
    assert_eq!(repo.event_count(), 0);
    assert!(repo.get_node(NodeId(1)).is_none());
    assert_eq!(repo.receive(vec![Some(create(2, 2, 2)), Some(create(2, 1, 1))]), Ok(()));
    assert_eq!(repo.event_count(), 2);
    assert_eq!(repo.receive(Vec::new()), Ok(()));
    assert!(read_batch(vec![None]).is_none());
    assert_eq!(read_batch(vec![Some(create(1, 1, 1))]).unwrap().len(), 1);
}

#[test]
fn only_a_read_can_find_nothing() {
    assert!(matches!(
        IndexedDbBlobStorage::store_blob(4, StepOutcome::Missing),
        Progress::Next(StorageStep::Commit)
    ));
    assert!(matches!(
        IndexedDbMetadataStorage::save_event(0, StepOutcome::Missing),
        Progress::Next(StorageStep::OpenTransaction)
    ));
    assert!(matches!(
        IndexedDbMetadataStorage::load_event(3, StepOutcome::Missing),
        Progress::Next(StorageStep::Read)
    ));
}

#[test]
fn times_are_read_from_decimal_text() {
    assert_eq!(parse_time("0"), Some(0));
    assert_eq!(parse_time("007"), Some(7));
    assert_eq!(parse_time("1700000000000"), Some(1700000000000));
    assert_eq!(parse_time("18446744073709551615"), Some(u64::MAX));
    assert_eq!(parse_time("18446744073709551616"), None);
    assert_eq!(parse_time("99999999999999999999999"), None);
    assert_eq!(parse_time(""), None);
    assert_eq!(parse_time("12a"), None);
    assert_eq!(parse_time("-1"), None);
    assert_eq!(parse_time(" 1"), None);
    assert_eq!(parse_time("2024-01-01"), None);
}

#[test]
fn the_authority_is_asked_in_three_ways() {
    let endpoint = MetadataEndpoint::new("https://meta.example".to_string());
    let push = endpoint.push_request(b"[]".to_vec());
    assert_eq!(push.method, HttpMethod::Post);
    assert_eq!(push.url, "https://meta.example/events");
    assert_eq!(push.content_type.as_deref(), Some("application/json"));
    assert_eq!(push.body, b"[]".to_vec());
    let pull = MetadataEndpoint::new("https://meta.example/".to_string())
        .pull_request(ClientId(0xab), 5);
    assert_eq!(pull.method, HttpMethod::Get);
    assert_eq!(
        pull.url,
        "https://meta.example/events/000000000000000000000000000000ab?after=00000000000000000000000000000005"
    );
    assert_eq!(pull.content_type, None);
    assert_eq!(pull.body, Vec::<u8>::new());
    let clients = endpoint.clients_request();
    assert_eq!(clients.method, HttpMethod::Get);
    assert_eq!(clients.url, "https://meta.example/clients");
}

fn status(code: u16) -> Result<HttpReply, String> {
    Ok(HttpReply { status: code, status_text: code.to_string() })
}

#[test]
fn the_authority_s_replies_have_their_meaning() {
    assert_eq!(MetadataEndpoint::push_reply(status(200)), Ok(()));
    assert_eq!(MetadataEndpoint::push_reply(status(204)), Ok(()));
    assert_eq!(MetadataEndpoint::push_reply(status(400)), Err(RepoError::ProtocolError));
    assert_eq!(MetadataEndpoint::push_reply(status(499)), Err(RepoError::ProtocolError));
    assert_eq!(MetadataEndpoint::push_reply(status(500)), Err(RepoError::SyncUnavailable));
    assert_eq!(MetadataEndpoint::push_reply(status(302)), Err(RepoError::SyncUnavailable));
    assert_eq!(
        MetadataEndpoint::push_reply(Err("refused".to_string())),
        Err(RepoError::SyncUnavailable)
    );
    assert_eq!(MetadataEndpoint::fetch_reply(status(200), true), Ok(()));
    assert_eq!(MetadataEndpoint::fetch_reply(status(200), false), Err(RepoError::ProtocolError));
    assert_eq!(MetadataEndpoint::fetch_reply(status(404), true), Err(RepoError::SyncUnavailable));
    assert_eq!(MetadataEndpoint::fetch_reply(status(503), false), Err(RepoError::SyncUnavailable));
    assert_eq!(
        MetadataEndpoint::fetch_reply(Err("dns".to_string()), true),
        Err(RepoError::SyncUnavailable)
    );
    assert_eq!(
        MetadataEndpoint::read_clients(vec![Some(ClientId(1)), Some(ClientId(2))]),
        Ok(vec![ClientId(1), ClientId(2)])
    );
    assert_eq!(
        MetadataEndpoint::read_clients(vec![Some(ClientId(1)), None]),
        Err(RepoError::ProtocolError)
    );
    assert_eq!(MetadataEndpoint::read_clients(Vec::new()), Ok(Vec::new()));
}
