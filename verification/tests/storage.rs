use bluebubbles::api::models::Conversation;
use bluebubbles::api::client::ApiClient;
use bluebubbles::api::http::Response;
use bluebubbles::document::Document;
use bluebubbles::storage::{
    get_chats, init, last_chat_updated_at, upsert_chats, CacheStore, CachedConversationRecord,
    StorageError,
};

fn raw(text: &str) -> Document {
    let response = Response { status: 200, body: format!("[{}]", text) };
    let (_, mut items) = ApiClient::new().conversations(Ok(response)).unwrap();
    items.remove(0)
}

fn chat(id: &str, name: &str) -> Conversation {
    Conversation { id: id.to_string(), name: name.to_string() }
}

fn ready_store() -> CacheStore {
    let mut store = CacheStore::new();
    init(&mut store).unwrap();
    store
}

#[test]
fn init_is_safe_at_every_start() {
    let mut store = CacheStore::new();
    assert_eq!(init(&mut store), Ok(()));
    upsert_chats(&mut store, &vec![chat("1", "Alice")], None, 10).unwrap();
    assert_eq!(init(&mut store), Ok(()));
    assert_eq!(get_chats(&store, None), Ok(vec![chat("1", "Alice")]));
}

#[test]
fn a_cache_without_table_fails() {
    let mut store = CacheStore::new();
    assert_eq!(upsert_chats(&mut store, &vec![chat("1", "Alice")], None, 10), Err(StorageError::Uninitialized));
    assert_eq!(get_chats(&store, None), Err(StorageError::Uninitialized));
    assert_eq!(last_chat_updated_at(&store, "1"), Err(StorageError::Uninitialized));
    assert!(store.rows().is_empty());
    assert_eq!(StorageError::Uninitialized.message(), "no such table: chats");
}

#[test]
fn upsert_keeps_one_record_for_each_identity() {
    let mut store = ready_store();
    let batch = vec![chat("1", "Alice"), chat("2", "Bob"), chat("1", "Alicia")];
    upsert_chats(&mut store, &batch, None, 10).unwrap();
    let listed = get_chats(&store, None).unwrap();
    assert_eq!(listed, vec![chat("1", "Alicia"), chat("2", "Bob")]);
    assert_eq!(store.rows().len(), 2);
}

#[test]
fn upsert_twice_is_upsert_once() {
    let batch = vec![chat("1", "Alice"), chat("2", "Bob"), chat("1", "Alicia")];
    let mut once = ready_store();
    upsert_chats(&mut once, &vec![chat("0", "Old")], None, 5).unwrap();
    upsert_chats(&mut once, &batch, None, 10).unwrap();
    let mut thrice = ready_store();
    upsert_chats(&mut thrice, &vec![chat("0", "Old")], None, 5).unwrap();
    upsert_chats(&mut thrice, &batch, None, 10).unwrap();
    upsert_chats(&mut thrice, &batch, None, 10).unwrap();
    upsert_chats(&mut thrice, &batch, None, 10).unwrap();
    assert_eq!(once.rows(), thrice.rows());
}

#[test]
fn upsert_overwrites_name_time_and_document() {
    let mut store = ready_store();
    let first = vec![raw(r#"{"id":"1","v":1}"#)];
    upsert_chats(&mut store, &vec![chat("1", "Alice")], Some(&first), 10).unwrap();
    assert_eq!(
        store.rows(),
        &vec![CachedConversationRecord {
            id: "1".to_string(),
            name: "Alice".to_string(),
            updated_at: 10,
            raw_payload: Some(r#"{"id":"1","v":1}"#.to_string()),
        }]
    );
    upsert_chats(&mut store, &vec![chat("1", "Alicia")], None, 20).unwrap();
    assert_eq!(
        store.rows(),
        &vec![CachedConversationRecord {
            id: "1".to_string(),
            name: "Alicia".to_string(),
            updated_at: 20,
            raw_payload: None,
        }]
    );
}

#[test]
fn upsert_pairs_documents_by_index() {
    let mut store = ready_store();
    let raws = vec![raw(r#"{"id":"1"}"#)];
    upsert_chats(&mut store, &vec![chat("1", "A"), chat("2", "B")], Some(&raws), 10).unwrap();
    assert_eq!(store.rows()[0].raw_payload, Some(r#"{"id":"1"}"#.to_string()));
    assert_eq!(store.rows()[1].raw_payload, None);
}

#[test]
fn get_chats_lists_the_latest_first_and_names_ascending() {
    let mut store = ready_store();
    upsert_chats(&mut store, &vec![chat("1", "Zoe"), chat("2", "Adam")], None, 10).unwrap();
    upsert_chats(&mut store, &vec![chat("3", "Mia")], None, 30).unwrap();
    upsert_chats(&mut store, &vec![chat("4", "bob"), chat("5", "Bob")], None, 20).unwrap();
    assert_eq!(
        get_chats(&store, None),
        Ok(vec![chat("3", "Mia"), chat("5", "Bob"), chat("4", "bob"), chat("2", "Adam"), chat("1", "Zoe")])
    );
}

#[test]
fn get_chats_keeps_the_order_of_the_table_among_equals() {
    let mut store = ready_store();
    upsert_chats(&mut store, &vec![chat("b", "Same"), chat("a", "Same"), chat("c", "Same")], None, 10).unwrap();
    assert_eq!(get_chats(&store, None), Ok(vec![chat("b", "Same"), chat("a", "Same"), chat("c", "Same")]));
}

#[test]
fn get_chats_never_returns_more_than_the_limit() {
    let mut store = ready_store();
    upsert_chats(&mut store, &vec![chat("1", "A"), chat("2", "B"), chat("3", "C")], None, 10).unwrap();
    assert_eq!(get_chats(&store, Some(2)), Ok(vec![chat("1", "A"), chat("2", "B")]));
    assert_eq!(get_chats(&store, Some(0)), Ok(Vec::new()));
    assert_eq!(get_chats(&store, Some(3)).unwrap().len(), 3);
    assert_eq!(get_chats(&store, Some(usize::MAX)).unwrap().len(), 3);
}

#[test]
fn get_chats_stops_at_500_without_a_limit() {
    let mut store = ready_store();
    let mut batch = Vec::new();
    for i in 0..510 {
        batch.push(chat(&format!("{:04}", i), &format!("{:04}", i)));
    }
    upsert_chats(&mut store, &batch, None, 10).unwrap();
    let listed = get_chats(&store, None).unwrap();
    assert_eq!(listed.len(), 500);
    assert_eq!(listed[0], chat("0000", "0000"));
    assert_eq!(listed[499], chat("0499", "0499"));
    assert_eq!(get_chats(&store, Some(600)).unwrap().len(), 510);
}

#[test]
fn last_chat_updated_at_finds_the_time_of_writing() {
    let mut store = ready_store();
    upsert_chats(&mut store, &vec![chat("1", "A")], None, 10).unwrap();
    upsert_chats(&mut store, &vec![chat("2", "B")], None, -5).unwrap();
    assert_eq!(last_chat_updated_at(&store, "1"), Ok(Some(10)));
    assert_eq!(last_chat_updated_at(&store, "2"), Ok(Some(-5)));
    assert_eq!(last_chat_updated_at(&store, "3"), Ok(None));
    upsert_chats(&mut store, &vec![chat("1", "A")], None, 99).unwrap();
    assert_eq!(last_chat_updated_at(&store, "1"), Ok(Some(99)));
}

#[test]
fn restore_takes_the_rows_of_a_table() {
    let rows = vec![
        CachedConversationRecord { id: "1".to_string(), name: "A".to_string(), updated_at: 5, raw_payload: None },
        CachedConversationRecord { id: "2".to_string(), name: "B".to_string(), updated_at: 7, raw_payload: Some("{}".to_string()) },
        CachedConversationRecord { id: "1".to_string(), name: "C".to_string(), updated_at: 9, raw_payload: None },
    ];
    let mut store = CacheStore::restore(rows);
    assert_eq!(get_chats(&store, None), Err(StorageError::Uninitialized));
    init(&mut store).unwrap();
    assert_eq!(get_chats(&store, None), Ok(vec![chat("1", "C"), chat("2", "B")]));
    assert_eq!(store.rows().len(), 2);
    assert_eq!(store.rows()[1].raw_payload, Some("{}".to_string()));
}

#[test]
fn changed_rows_names_what_a_write_touched() {
    let mut store = ready_store();
    upsert_chats(&mut store, &vec![chat("1", "A"), chat("2", "B"), chat("3", "C")], None, 10).unwrap();
    let before = store.rows().clone();
    assert_eq!(store.changed_rows(&before), Vec::<usize>::new());
    assert_eq!(store.changed_rows(&Vec::new()), vec![0, 1, 2]);
    upsert_chats(&mut store, &vec![chat("2", "B"), chat("4", "D"), chat("3", "Cee")], None, 10).unwrap();
    assert_eq!(store.changed_rows(&before), vec![2, 3]);
    upsert_chats(&mut store, &vec![chat("1", "A")], None, 11).unwrap();
    assert_eq!(store.changed_rows(&before), vec![0, 2, 3]);
}
