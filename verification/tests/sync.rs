use bluebubbles::api::client::ApiClient;
use bluebubbles::api::error::ApiError;
use bluebubbles::api::http::{Method, Response};
use bluebubbles::api::models::Conversation;
use bluebubbles::app::AppState;
use bluebubbles::storage::{get_chats, init, upsert_chats, CacheStore, StorageError};
use bluebubbles::sync::{
    conversation_created, conversations_loaded, create_conversation, load_contacts,
    load_conversations, LoadPlan, Publication, SyncError, VIEW_LIMIT,
};

fn named(id: &str, name: &str) -> Conversation {
    Conversation { id: id.to_string(), name: name.to_string() }
}

fn credentials() -> AppState {
    AppState { base_url: "http://host".to_string(), password: "pw".to_string(), token: None }
}

fn table() -> CacheStore {
    let mut store = CacheStore::new();
    init(&mut store).unwrap();
    store
}

fn replied(body: &str) -> Result<Response, String> {
    Ok(Response { status: 200, body: body.to_string() })
}

#[test]
fn a_load_without_credentials_does_nothing() {
    let mut store = table();
    upsert_chats(&mut store, &vec![named("1", "A")], None, 1).unwrap();
    let plan = load_conversations(&store, &AppState::new(), &ApiClient::new());
    assert_eq!(plan, LoadPlan { provisional: None, request: None });
}

#[test]
fn a_load_shows_the_cache_first_and_asks_the_server() {
    let mut store = table();
    upsert_chats(&mut store, &vec![named("1", "A")], None, 1).unwrap();
    let plan = load_conversations(&store, &credentials(), &ApiClient::new());
    assert_eq!(plan.provisional, Some(vec![named("1", "A")]));
    let request = plan.request.unwrap();
    assert_eq!(request.method, Method::Post);
    assert_eq!(request.url, "http://host/api/v1/chat/query?password=pw");
}

#[test]
fn a_load_with_an_empty_cache_shows_nothing_at_first() {
    let plan = load_conversations(&table(), &credentials(), &ApiClient::new());
    assert_eq!(plan.provisional, None);
    assert!(plan.request.is_some());
    let cold = load_conversations(&CacheStore::new(), &credentials(), &ApiClient::new());
    assert_eq!(cold.provisional, None);
    assert!(cold.request.is_some());
}

#[test]
fn a_load_writes_the_answer_and_shows_the_whole_cache() {
    let mut store = table();
    upsert_chats(&mut store, &vec![named("mine", "Made here")], None, 1).unwrap();
    let body = r#"{"data":[{"name":"no id"},{"id":"1","name":"Alice","n":1},{"id":"2"}]}"#;
    let published = conversations_loaded(&mut store, &ApiClient::new(), replied(body), 50);
    assert_eq!(
        published,
        Publication {
            view: Some(vec![named("1", "Alice"), named("2", "Chat"), named("mine", "Made here")]),
            error: None,
        }
    );
    assert_eq!(store.rows()[1].raw_payload, Some(r#"{"id":"1","n":1,"name":"Alice"}"#.to_string()));
    assert_eq!(store.rows()[2].raw_payload, Some(r#"{"id":"2"}"#.to_string()));
    assert_eq!(store.rows()[1].updated_at, 50);
}

#[test]
fn a_failed_load_leaves_the_cache_and_reports_one_error() {
    let mut store = table();
    upsert_chats(&mut store, &vec![named("1", "A"), named("2", "B")], None, 1).unwrap();
    let before = get_chats(&store, Some(VIEW_LIMIT)).unwrap();
    let rows_before = store.rows().clone();
    let published =
        conversations_loaded(&mut store, &ApiClient::new(), Err("connection reset".to_string()), 50);
    assert_eq!(
        published,
        Publication {
            view: None,
            error: Some(SyncError::Remote(ApiError::Transport("connection reset".to_string()))),
        }
    );
    assert_eq!(get_chats(&store, Some(VIEW_LIMIT)).unwrap(), before);
    assert_eq!(store.rows(), &rows_before);
    let refused = conversations_loaded(
        &mut store,
        &ApiClient::new(),
        Ok(Response { status: 500, body: "[]".to_string() }),
        60,
    );
    assert_eq!(refused.view, None);
    assert_eq!(refused.error, Some(SyncError::Remote(ApiError::Server(500))));
    assert_eq!(store.rows(), &rows_before);
}

#[test]
fn a_load_that_cannot_write_shows_what_came_and_reports_the_cache() {
    let mut store = CacheStore::new();
    let published =
        conversations_loaded(&mut store, &ApiClient::new(), replied(r#"[{"id":"1","name":"A"}]"#), 50);
    assert_eq!(
        published,
        Publication {
            view: Some(vec![named("1", "A")]),
            error: Some(SyncError::Storage(StorageError::Uninitialized)),
        }
    );
    assert!(store.rows().is_empty());
}

#[test]
fn a_view_shows_no_more_than_its_limit() {
    let mut store = table();
    let mut items = Vec::new();
    for i in 0..250 {
        items.push(format!(r#"{{"id":"{:03}","name":"{:03}"}}"#, i, i));
    }
    let body = format!("[{}]", items.join(","));
    let published = conversations_loaded(&mut store, &ApiClient::new(), replied(&body), 50);
    assert_eq!(published.view.unwrap().len(), 200);
    assert_eq!(store.rows().len(), 250);
    assert_eq!(VIEW_LIMIT, 200);
}

#[test]
fn a_creation_asks_only_with_credentials() {
    let client = ApiClient::new();
    assert_eq!(create_conversation(&AppState::new(), &client, vec!["+1".to_string()], None), None);
    let request = create_conversation(&credentials(), &client, vec!["+1".to_string()], None).unwrap();
    assert_eq!(request.url, "http://host/api/v1/chat/new?password=pw");
    assert_eq!(request.body, Some(r#"{"addresses":["+1"],"message":""}"#.to_string()));
    assert_eq!(load_contacts(&AppState::new(), &client), None);
    assert_eq!(load_contacts(&credentials(), &client).unwrap().url, "http://host/api/v1/contact?password=pw");
}

#[test]
fn a_creation_writes_the_conversation_and_shows_the_whole_cache() {
    let mut store = table();
    upsert_chats(&mut store, &vec![named("1", "A")], None, 1).unwrap();
    let published =
        conversation_created(&mut store, &ApiClient::new(), replied(r#"{"guid":"new","name":"N"}"#), 9);
    assert_eq!(published, Publication { view: Some(vec![named("new", "N"), named("1", "A")]), error: None });
    assert_eq!(store.rows()[1].raw_payload, None);
}

#[test]
fn two_creations_with_one_identity_leave_one_record() {
    let mut store = table();
    let client = ApiClient::new();
    conversation_created(&mut store, &client, replied(r#"{"guid":"same","name":"First"}"#), 9);
    let published = conversation_created(&mut store, &client, replied(r#"{"guid":"same","name":"Second"}"#), 9);
    assert_eq!(published.view, Some(vec![named("same", "Second")]));
    assert_eq!(store.rows().len(), 1);
    let mut other = table();
    conversation_created(&mut other, &client, replied(r#"{"guid":"same","name":"Second"}"#), 9);
    conversation_created(&mut other, &client, replied(r#"{"guid":"same","name":"First"}"#), 9);
    assert_eq!(other.rows().len(), 1);
    assert_eq!(get_chats(&other, None), Ok(vec![named("same", "First")]));
}

#[test]
fn a_failed_creation_changes_nothing() {
    let mut store = table();
    upsert_chats(&mut store, &vec![named("1", "A")], None, 1).unwrap();
    let rows_before = store.rows().clone();
    let published = conversation_created(&mut store, &ApiClient::new(), replied(r#"{"name":"N"}"#), 9);
    assert_eq!(published, Publication { view: None, error: Some(SyncError::Remote(ApiError::Creation)) });
    assert_eq!(store.rows(), &rows_before);
    let cold = conversation_created(&mut CacheStore::new(), &ApiClient::new(), replied(r#"{"id":"x"}"#), 9);
    assert_eq!(
        cold,
        Publication {
            view: Some(vec![named("x", "Chat")]),
            error: Some(SyncError::Storage(StorageError::Uninitialized)),
        }
    );
}

#[test]
fn sync_error_messages() {
    assert_eq!(SyncError::Remote(ApiError::Server(502)).message(), "HTTP 502 Bad Gateway");
    assert_eq!(SyncError::Storage(StorageError::Uninitialized).message(), "no such table: chats");
}
