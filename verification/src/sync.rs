//! The sync orchestrator: what a load or a creation of conversations shows
//! first, what it asks the server, and what it writes and shows when the
//! answer is there. It holds no state of its own: every view is read from the
//! cache, after any write.
//!
//! The caller sends the request in the background and comes back with the
//! outcome; between the two steps the consumer stays free.

use crate::api::client::{
    conversations_in, conversations_outcome, conversations_request, create_chat_outcome,
    create_chat_request, contacts_request, identified, lemma_identified_pairs, outcome_view,
    owned_text_view, ApiClient,
};
use crate::api::error::ApiError;
use crate::api::http::{Request, Response};
use crate::api::models::{Conversation, ConversationView};
use crate::app::AppState;
use crate::document::{encoded, Json};
use crate::seqs::views;
use crate::storage::{
    batch, conversations_of, distinct_ids, get_chats, lemma_put_all, lemma_put_all_one_row,
    lemma_slot, lemma_written_is_listed_once, listing, payloads, put_all, slot, upsert_chats,
    CacheStore, RecordView, StorageError, StoreView,
};
use vstd::prelude::*;

verus! {

/// How many conversations a view shows.
pub const VIEW_LIMIT: usize = 200;

/// What went wrong in a sync.
#[derive(Debug, Clone, PartialEq, Eq)]
pub enum SyncError {
    /// The server could not be asked, or its answer is of no use.
    Remote(ApiError),
    /// The answer is of use and could not be written to the cache.
    Storage(StorageError),
}

impl SyncError {
    /// The message that a caller shows for this failure.
    pub fn message(&self) -> (r: String)
        ensures
            r@ == match self {
                SyncError::Remote(e) => e@.message(),
                SyncError::Storage(e) => "no such table: chats"@,
            },
    {
        match self {
            SyncError::Remote(e) => e.message(),
            SyncError::Storage(e) => e.message(),
        }
    }
}

/// What a step of a sync hands to the consumer: the conversations to show, if
/// there are new ones to show, and the failure to report, if there is one.
/// What the consumer shows stays on display where `view` is `None`.
#[derive(Debug, Clone, PartialEq, Eq)]
pub struct Publication {
    pub view: Option<Vec<Conversation>>,
    pub error: Option<SyncError>,
}

/// The first step of a load: what to show at once, and what to ask the
/// server.
#[derive(Debug, Clone, PartialEq, Eq)]
pub struct LoadPlan {
    pub provisional: Option<Vec<Conversation>>,
    pub request: Option<Request>,
}

/// The texts that are stored for the items of a list.
pub open spec fn texts(items: Seq<Json>) -> Seq<Seq<char>> {
    Seq::new(items.len(), |i: int| encoded(items[i]))
}

/// The rows after a load has written what the server listed: each
/// conversation with the text of the item that it was read from.
pub open spec fn rows_after_load(rows: Seq<RecordView>, items: Seq<Json>, now: int) -> Seq<
    RecordView,
> {
    put_all(rows, batch(conversations_in(items), Some(texts(identified(items))), now))
}

/// The rows after a creation has written the new conversation.
pub open spec fn rows_after_creation(rows: Seq<RecordView>, created: ConversationView, now: int) -> Seq<
    RecordView,
> {
    put_all(rows, batch(seq![created], None, now))
}

/// What a view shows of a table.
pub open spec fn view_of(rows: Seq<RecordView>) -> Seq<ConversationView> {
    conversations_of(listing(rows, VIEW_LIMIT as nat))
}

/// In the batch of a load every record holds the text of the item that its
/// conversation was read from.
pub proof fn lemma_load_pairs(items: Seq<Json>, now: int, k: int)
    requires
        0 <= k < conversations_in(items).len(),
    ensures
        k < identified(items).len(),
        crate::api::client::conversation_in(identified(items)[k]) == Some(
            conversations_in(items)[k],
        ),
        batch(conversations_in(items), Some(texts(identified(items))), now)[k].raw_payload
            == Some(encoded(identified(items)[k])),
{
    lemma_identified_pairs(items);
}

/// Two creations that the server answers with one identity leave one row for
/// it, whatever the table held and whenever each was written: the row holds
/// the name that was written last.
pub proof fn lemma_two_creations_one_row(
    rows: Seq<RecordView>,
    first: ConversationView,
    second: ConversationView,
    at_first: int,
    at_second: int,
)
    requires
        distinct_ids(rows),
        first.id == second.id,
    ensures
        ({
            let table = rows_after_creation(
                rows_after_creation(rows, first, at_first),
                second,
                at_second,
            );
            &&& distinct_ids(table)
            &&& slot(table, first.id) is Some
            &&& table[slot(table, first.id)->0].name == second.name
            &&& forall|j: int|
                0 <= j < table.len() && j != slot(table, first.id)->0 ==> (#[trigger] table[j]).id
                    != first.id
        }),
{
    let between = rows_after_creation(rows, first, at_first);
    let written = batch(seq![second], None, at_second);
    lemma_put_all(rows, batch(seq![first], None, at_first));
    lemma_put_all(between, written);
    lemma_put_all_one_row(between, written, 0);
    lemma_slot(written, second.id);
}

/// After a creation the view shows the new conversation, and shows it once,
/// where the table is no longer than the view. A longer table is cut to the
/// view, and the new conversation is then shown only if fewer rows than the
/// view holds are listed before it.
pub proof fn lemma_created_is_shown_once(rows: Seq<RecordView>, created: ConversationView, now: int)
    requires
        distinct_ids(rows),
        rows_after_creation(rows, created, now).len() <= VIEW_LIMIT,
    ensures
        exists|i: int|
            0 <= i < view_of(rows_after_creation(rows, created, now)).len() && (
            #[trigger] view_of(rows_after_creation(rows, created, now))[i]) == created
                && forall|j: int|
                0 <= j < view_of(rows_after_creation(rows, created, now)).len() && j != i ==> (
                #[trigger] view_of(rows_after_creation(rows, created, now))[j]).id != created.id,
{
    let written = batch(seq![created], None, now);
    let shown = view_of(rows_after_creation(rows, created, now));
    assert(written.len() == 1);
    assert(written[0].id == created.id && written[0].name == created.name);
    assert(slot(written, created.id) == Some(0int));
    lemma_written_is_listed_once(rows, written, 0, VIEW_LIMIT as nat);
    let i = choose|i: int|
        0 <= i < shown.len() && (#[trigger] shown[i]) == (ConversationView {
            id: written[0].id,
            name: written[slot(written, written[0].id)->0].name,
        }) && forall|j: int|
            0 <= j < shown.len() && j != i ==> (#[trigger] shown[j]).id != written[0].id;
    assert(shown[i] == created);
}

/// Starts a load. Without credentials there is nothing to show and nothing
/// to ask. With them, the conversations of the cache are shown at once if
/// there are any, and the server is asked for its list.
pub fn load_conversations(store: &CacheStore, state: &AppState, client: &ApiClient) -> (r:
    LoadPlan)
    ensures
        !state@.configured() ==> r.provisional is None && r.request is None,
        state@.configured() ==> (r.request matches Some(request) && request@
            == conversations_request(state@.base_url, state@.password)),
        state@.configured() ==> match r.provisional {
            Some(shown) => store@.ready && shown@.len() > 0 && views(shown@) == view_of(
                store@.rows,
            ),
            None => !store@.ready || view_of(store@.rows).len() == 0,
        },
{
    if !state.is_configured() {
        return LoadPlan { provisional: None, request: None };
    }
    let provisional = match get_chats(store, Some(VIEW_LIMIT)) {
        Ok(shown) => if shown.len() > 0 {
            Some(shown)
        } else {
            None
        },
        Err(_) => None,
    };
    let request = client.conversations_request(state.base_url.as_str(), state.password.as_str());
    LoadPlan { provisional, request: Some(request) }
}

/// Ends a load with the outcome of its request.
///
/// Where the server listed its conversations, they are written to the cache,
/// each with the text of its item, and the view is read from the cache
/// again, so that it shows what the cache held before as well. Where there is
/// no table to write to, the conversations are shown as they came and the
/// failure of the cache is reported with them. Where the request failed, the
/// failure is all there is: the cache stays as it was and so does what is on
/// display.
pub fn conversations_loaded(
    store: &mut CacheStore,
    client: &ApiClient,
    outcome: Result<Response, String>,
    now: i64,
) -> (r: Publication)
    ensures
        match conversations_outcome(outcome_view(outcome)) {
            Err(failure) => {
                &&& final(store)@ == old(store)@
                &&& r.view is None
                &&& r.error matches Some(SyncError::Remote(e)) && e@ == failure
            },
            Ok((list, items)) => if old(store)@.ready {
                &&& final(store)@ == (StoreView {
                    ready: true,
                    rows: rows_after_load(old(store)@.rows, items, now as int),
                })
                &&& distinct_ids(final(store)@.rows)
                &&& r.error is None
                &&& r.view matches Some(shown) && views(shown@) == view_of(final(store)@.rows)
            } else {
                &&& final(store)@ == old(store)@
                &&& r.error == Some(SyncError::Storage(StorageError::Uninitialized))
                &&& r.view matches Some(shown) && views(shown@) == list
            },
        },
{
    match client.conversations(outcome) {
        Err(e) => Publication { view: None, error: Some(SyncError::Remote(e)) },
        Ok((list, raw)) => {
            let aligned = ApiClient::identified_documents(&raw);
            proof {
                assert(payloads(Some(&aligned)) == Some(texts(identified(views(raw@)))))
                    by {
                    assert(payloads(Some(&aligned))->0 =~= texts(identified(views(raw@))));
                }
            }
            match upsert_chats(store, &list, Some(&aligned), now) {
                Ok(_) => match get_chats(store, Some(VIEW_LIMIT)) {
                    Ok(shown) => Publication { view: Some(shown), error: None },
                    Err(e) => Publication { view: Some(list), error: Some(SyncError::Storage(e)) },
                },
                Err(e) => Publication { view: Some(list), error: Some(SyncError::Storage(e)) },
            }
        },
    }
}

/// Starts the listing of the contacts: the request to send, if there are
/// credentials.
pub fn load_contacts(state: &AppState, client: &ApiClient) -> (r: Option<Request>)
    ensures
        match r {
            Some(request) => state@.configured() && request@ == contacts_request(
                state@.base_url,
                state@.password,
            ),
            None => !state@.configured(),
        },
{
    if state.is_configured() {
        Some(client.contacts_request(state.base_url.as_str(), state.password.as_str()))
    } else {
        None
    }
}

/// Starts a creation: the request to send, if there are credentials.
pub fn create_conversation(
    state: &AppState,
    client: &ApiClient,
    addresses: Vec<String>,
    message: Option<String>,
) -> (r: Option<Request>)
    ensures
        match r {
            Some(request) => state@.configured() && request@ == create_chat_request(
                state@.base_url,
                state@.password,
                views(addresses@),
                owned_text_view(message),
            ),
            None => !state@.configured(),
        },
{
    if state.is_configured() {
        Some(
            client.create_chat_request(
                state.base_url.as_str(),
                state.password.as_str(),
                addresses,
                message,
            ),
        )
    } else {
        None
    }
}

/// Ends a creation with the outcome of its request.
///
/// Where the server named the new conversation, it is written to the cache
/// and the view is read from the cache again. Where there is no table to
/// write to, the new conversation alone is shown and the failure of the cache
/// is reported with it. Where the request failed, the failure is all there
/// is, and the cache stays as it was.
pub fn conversation_created(
    store: &mut CacheStore,
    client: &ApiClient,
    outcome: Result<Response, String>,
    now: i64,
) -> (r: Publication)
    ensures
        match create_chat_outcome(outcome_view(outcome)) {
            Err(failure) => {
                &&& final(store)@ == old(store)@
                &&& r.view is None
                &&& r.error matches Some(SyncError::Remote(e)) && e@ == failure
            },
            Ok(created) => if old(store)@.ready {
                &&& final(store)@ == (StoreView {
                    ready: true,
                    rows: rows_after_creation(old(store)@.rows, created, now as int),
                })
                &&& distinct_ids(final(store)@.rows)
                &&& r.error is None
                &&& r.view matches Some(shown) && views(shown@) == view_of(final(store)@.rows)
            } else {
                &&& final(store)@ == old(store)@
                &&& r.error == Some(SyncError::Storage(StorageError::Uninitialized))
                &&& r.view matches Some(shown) && views(shown@) == seq![created]
            },
        },
{
    match client.create_chat(outcome) {
        Err(e) => Publication { view: None, error: Some(SyncError::Remote(e)) },
        Ok(created) => {
            let list = vec![created];
            assert(views(list@) =~= seq![created@]);
            match upsert_chats(store, &list, None, now) {
                Ok(_) => match get_chats(store, Some(VIEW_LIMIT)) {
                    Ok(shown) => Publication { view: Some(shown), error: None },
                    Err(e) => Publication { view: Some(list), error: Some(SyncError::Storage(e)) },
                },
                Err(e) => Publication { view: Some(list), error: Some(SyncError::Storage(e)) },
            }
        },
    }
}

} // verus!
