//! The operations of the client. Each is split in what to send, as a
//! `Request`, and what to make of the outcome of sending it.

use crate::api::error::{ApiError, ApiFailure};
use crate::api::http::{success, Header, HeaderView, Method, Request, RequestView, Response};
use crate::api::models::{ContactEntry, ContactEntryView, Conversation, ConversationView};
use crate::document::{
    decode, decoded, encode, encoded, lemma_list_view, lemma_record_view, Document, Entry, Json,
    Member,
};
use crate::seqs::{lemma_views_push, views};
use crate::text::{ends_with, joined, trim_end_matches, without_trailing};
use vstd::prelude::*;

verus! {

/// The client of one session.
pub struct ApiClient {
    /// The address of the event socket, once one is known.
    pub ws_url: Option<String>,
}

/// The view of an optional text.
pub open spec fn text_view(text: Option<&str>) -> Option<Seq<char>> {
    match text {
        Some(t) => Some(t@),
        None => None,
    }
}

/// The view of an optional owned text.
pub open spec fn owned_text_view(text: Option<String>) -> Option<Seq<char>> {
    match text {
        Some(t) => Some(t@),
        None => None,
    }
}

/// The outcome of sending a request, by its value: the status and body of the
/// response, or the transport's message.
pub open spec fn outcome_view(outcome: Result<Response, String>) -> Result<
    (u16, Seq<char>),
    Seq<char>,
> {
    match outcome {
        Ok(response) => Ok((response.status, response.body@)),
        Err(message) => Err(message@),
    }
}

/// `base_url` without trailing slashes.
pub open spec fn origin(base_url: Seq<char>) -> Seq<char> {
    without_trailing(base_url, '/')
}

/// The root of the API below `base_url`: the origin, with `/api` behind it
/// unless it ends in that already.
pub open spec fn api_root(base_url: Seq<char>) -> Seq<char> {
    if "/api"@.is_suffix_of(origin(base_url)) {
        origin(base_url)
    } else {
        origin(base_url) + "/api"@
    }
}

/// `request` with the headers that carry the credentials given: first the
/// bearer token, then the password.
pub open spec fn authorized(
    request: RequestView,
    token: Option<Seq<char>>,
    password: Option<Seq<char>>,
) -> RequestView {
    let with_token = match token {
        Some(t) => request.headers.push(
            HeaderView { name: "Authorization"@, value: "Bearer "@ + t },
        ),
        None => request.headers,
    };
    let with_password = match password {
        Some(p) => with_token.push(HeaderView { name: "password"@, value: p }),
        None => with_token,
    };
    RequestView { headers: with_password, ..request }
}

/// A request without headers or body.
pub open spec fn bare(method: Method, url: Seq<char>) -> RequestView {
    RequestView { method, url, headers: Seq::empty(), body: None }
}

/// The keys under which a response may carry its list of conversations.
pub open spec fn conversation_list_keys() -> Seq<Seq<char>> {
    seq!["chats"@, "data"@]
}

/// The keys under which an item may carry the name of a conversation.
pub open spec fn conversation_name_keys() -> Seq<Seq<char>> {
    seq!["name"@, "display_name"@, "title"@, "displayName"@]
}

/// The conversation that an item of the list stands for: none where the item
/// has no `id` that is a string and not empty; the name is the first
/// non-empty string under the name keys, in their order, and `Chat` where
/// there is none.
pub open spec fn conversation_in(item: Json) -> Option<ConversationView> {
    let id = item.text_or(seq!["id"@], Seq::empty());
    if id.len() == 0 {
        None
    } else {
        Some(ConversationView { id, name: item.text_or(conversation_name_keys(), "Chat"@) })
    }
}

/// The conversations that the items stand for, in the order of the items.
pub open spec fn conversations_in(items: Seq<Json>) -> Seq<ConversationView>
    decreases items.len(),
{
    if items.len() == 0 {
        Seq::empty()
    } else {
        match conversation_in(items.last()) {
            Some(c) => conversations_in(items.drop_last()).push(c),
            None => conversations_in(items.drop_last()),
        }
    }
}

/// The document that asks for the conversations: the first thousand, with
/// their last message, sorted by it.
pub open spec fn conversation_query() -> Json {
    Json::Record(
        seq![
            Entry { key: "limit"@, value: Json::Number("1000"@) },
            Entry { key: "offset"@, value: Json::Number("0"@) },
            Entry {
                key: "with"@,
                value: Json::List(
                    seq![Json::Text("lastMessage"@), Json::Text("sms"@), Json::Text("archived"@)],
                ),
            },
            Entry { key: "sort"@, value: Json::Text("lastmessage"@) },
        ],
    )
}

/// The request that lists the conversations.
pub open spec fn conversations_request(base_url: Seq<char>, password: Seq<char>) -> RequestView {
    RequestView {
        method: Method::Post,
        url: origin(base_url) + "/api/v1/chat/query?password="@ + password,
        headers: Seq::empty(),
        body: Some(encoded(conversation_query())),
    }
}

/// What a response says where it is JSON and holds no list in any of the
/// shapes that are read.
pub open spec fn no_list_message() -> Seq<char> {
    "Response holds no list"@
}

/// What the outcome of that request gives: the conversations and all items of
/// the list, or the failure. A body that is JSON of another shape than a list,
/// bare or under `chats` or `data`, fails as one that cannot be decoded.
pub open spec fn conversations_outcome(outcome: Result<(u16, Seq<char>), Seq<char>>) -> Result<
    (Seq<ConversationView>, Seq<Json>),
    ApiFailure,
> {
    match outcome {
        Err(message) => Err(ApiFailure::Transport(message)),
        Ok((status, body)) => if !success(status) {
            Err(ApiFailure::Server(status))
        } else {
            match decoded(body) {
                Err(message) => Err(ApiFailure::Decode(message)),
                Ok(json) => match json.listing(conversation_list_keys()) {
                    Some(items) => Ok((conversations_in(items), items)),
                    None => Err(ApiFailure::Decode(no_list_message())),
                },
            }
        },
    }
}

/// The three shapes of a response give the same list: the bare array, and the
/// array under `chats` or under `data`.
pub proof fn lemma_three_shapes(items: Seq<Json>)
    ensures
        Json::List(items).listing(conversation_list_keys()) == Some(items),
        Json::Record(seq![Entry { key: "chats"@, value: Json::List(items) }]).listing(
            conversation_list_keys(),
        ) == Some(items),
        Json::Record(seq![Entry { key: "data"@, value: Json::List(items) }]).listing(
            conversation_list_keys(),
        ) == Some(items),
{
    reveal_strlit("chats");
    reveal_strlit("data");
    let keys = conversation_list_keys();
    let chats = seq![Entry { key: "chats"@, value: Json::List(items) }];
    assert(chats.drop_last().len() == 0);
    assert(Json::Record(chats).first_list(keys) == Some(items));
    let data = seq![Entry { key: "data"@, value: Json::List(items) }];
    assert(data.drop_last().len() == 0);
    assert("chats"@ != "data"@) by {
        assert("chats"@[0] != "data"@[0]);
    }
    assert(crate::document::lookup(data.drop_last(), "chats"@) is None);
    assert(Json::Record(data).member("chats"@) is None);
    assert(keys.drop_first().first() == "data"@);
    assert(Json::Record(data).first_list(keys.drop_first()) == Some(items));
}

/// An item without an `id` stands for no conversation.
pub proof fn lemma_no_id_no_conversation(item: Json)
    requires
        item.member("id"@) is None,
    ensures
        conversation_in(item) is None,
{
    let keys = seq!["id"@];
    assert(keys.drop_first().len() == 0);
    assert(item.first_text(keys.drop_first()) is None);
    assert(item.first_text(keys) is None);
}

/// An item that stands for no conversation adds nothing to the list.
pub proof fn lemma_conversations_in_push(items: Seq<Json>, item: Json)
    ensures
        conversations_in(items.push(item)) == match conversation_in(item) {
            Some(c) => conversations_in(items).push(c),
            None => conversations_in(items),
        },
{
    assert(items.push(item).drop_last() =~= items);
}

fn name_key_names() -> (keys: Vec<&'static str>)
    ensures
        views(keys@) == conversation_name_keys(),
{
    let keys = vec!["name", "display_name", "title", "displayName"];
    assert(views(keys@) =~= conversation_name_keys());
    keys
}

fn list_key_names() -> (keys: Vec<&'static str>)
    ensures
        views(keys@) == conversation_list_keys(),
{
    let keys = vec!["chats", "data"];
    assert(views(keys@) =~= conversation_list_keys());
    keys
}

fn one_key(key: &'static str) -> (keys: Vec<&'static str>)
    ensures
        views(keys@) == seq![key@],
{
    let keys = vec![key];
    assert(views(keys@) =~= seq![key@]);
    keys
}

impl ApiClient {
    /// A client that knows no event socket yet.
    pub fn new() -> (r: ApiClient)
        ensures
            r.ws_url is None,
    {
        ApiClient { ws_url: None }
    }

    /// Logs in with a user name. The server takes the password with each
    /// request, so there is nothing to do and this succeeds.
    pub fn login(&self, server: &str, username: &str, password: &str) -> (r: Result<(), String>)
        ensures
            r is Ok,
    {
        Ok(())
    }

    /// The root of the API below `base_url`.
    pub fn base_api(base_url: &str) -> (r: String)
        ensures
            r@ == api_root(base_url@),
    {
        let trimmed = trim_end_matches(base_url, '/');
        if ends_with(trimmed, "/api") {
            trimmed.to_owned()
        } else {
            joined(trimmed, "/api")
        }
    }

    /// Adds the headers that carry the credentials given.
    pub fn with_auth(request: Request, token: Option<&str>, password: Option<&str>) -> (r: Request)
        ensures
            r@ == authorized(request@, text_view(token), text_view(password)),
    {
        let mut request = request;
        let ghost before = request@;
        match token {
            Some(t) => {
                let header = Header {
                    name: "Authorization".to_owned(),
                    value: joined("Bearer ", t),
                };
                proof {
                    lemma_views_push(request.headers@, header);
                }
                request.headers.push(header);
            },
            None => {},
        }
        match password {
            Some(p) => {
                let header = Header { name: "password".to_owned(), value: p.to_owned() };
                proof {
                    lemma_views_push(request.headers@, header);
                }
                request.headers.push(header);
            },
            None => {},
        }
        assert(request@.headers =~= authorized(before, text_view(token), text_view(password)).headers);
        request
    }

    /// The conversation that an item of the list stands for.
    pub fn read_conversation(item: &Document) -> (r: Option<Conversation>)
        ensures
            match r {
                Some(c) => conversation_in(item@) == Some(c@),
                None => conversation_in(item@) is None,
            },
    {
        let id = item.text_or(&one_key("id"), "");
        proof {
            reveal_strlit("");
            assert(""@ =~= Seq::<char>::empty());
        }
        if id.as_str().is_empty() {
            None
        } else {
            let name = item.text_or(&name_key_names(), "Chat");
            Some(Conversation { id, name })
        }
    }

    /// The conversations that the items stand for, in the order of the items.
    pub fn read_conversations(items: &Vec<Document>) -> (r: Vec<Conversation>)
        ensures
            views(r@) == conversations_in(views(items@)),
    {
        let mut out: Vec<Conversation> = Vec::new();
        let mut i: usize = 0;
        assert(views(items@).take(0) =~= Seq::<Json>::empty());
        assert(views(out@) =~= Seq::<ConversationView>::empty());
        while i < items.len()
            invariant
                i <= items@.len(),
                views(out@) == conversations_in(views(items@).take(i as int)),
            decreases items@.len() - i,
        {
            proof {
                assert(views(items@).take(i + 1) =~= views(items@).take(i as int).push(
                    items@[i as int]@,
                ));
                lemma_conversations_in_push(views(items@).take(i as int), items@[i as int]@);
            }
            match ApiClient::read_conversation(&items[i]) {
                Some(c) => {
                    proof {
                        lemma_views_push(out@, c);
                    }
                    out.push(c);
                },
                None => {},
            }
            i = i + 1;
        }
        assert(views(items@).take(i as int) =~= views(items@));
        out
    }

    /// The request that lists the conversations.
    pub fn conversations_request(&self, base_url: &str, password: &str) -> (r: Request)
        ensures
            r@ == conversations_request(base_url@, password@),
    {
        let url = joined(
            joined(trim_end_matches(base_url, '/'), "/api/v1/chat/query?password=").as_str(),
            password,
        );
        let with = vec![
            Document::Text("lastMessage".to_owned()),
            Document::Text("sms".to_owned()),
            Document::Text("archived".to_owned()),
        ];
        let members = vec![
            Member { key: "limit".to_owned(), value: Document::Number("1000".to_owned()) },
            Member { key: "offset".to_owned(), value: Document::Number("0".to_owned()) },
            Member { key: "with".to_owned(), value: Document::List(with) },
            Member { key: "sort".to_owned(), value: Document::Text("lastmessage".to_owned()) },
        ];
        proof {
            lemma_list_view(with);
            lemma_record_view(members);
            assert(views(with@) =~= seq![
                Json::Text("lastMessage"@),
                Json::Text("sms"@),
                Json::Text("archived"@),
            ]);
            assert(crate::document::entries(members@) =~= conversation_query()->Record_0);
        }
        let query = Document::Record(members);
        let r = Request { method: Method::Post, url, headers: Vec::new(), body: Some(encode(&query)) };
        assert(r@.headers =~= Seq::<HeaderView>::empty());
        r
    }

    /// What the outcome of listing the conversations gives: the conversations,
    /// and with them every item of the list as it came, also those that stand
    /// for no conversation.
    pub fn conversations(&self, outcome: Result<Response, String>) -> (r: Result<
        (Vec<Conversation>, Vec<Document>),
        ApiError,
    >)
        ensures
            match r {
                Ok((list, raw)) => conversations_outcome(outcome_view(outcome)) == Ok::<
                    (Seq<ConversationView>, Seq<Json>),
                    ApiFailure,
                >((views(list@), views(raw@))),
                Err(e) => conversations_outcome(outcome_view(outcome)) == Err::<
                    (Seq<ConversationView>, Seq<Json>),
                    ApiFailure,
                >(e@),
            },
    {
        match outcome {
            Err(message) => Err(ApiError::Transport(message)),
            Ok(response) => {
                if !response.is_success() {
                    Err(ApiError::Server(response.status))
                } else {
                    match decode(response.body.as_str()) {
                        Err(message) => Err(ApiError::Decode(message)),
                        Ok(doc) => match doc.into_listing(&list_key_names()) {
                            Some(raw) => {
                                let list = ApiClient::read_conversations(&raw);
                                Ok((list, raw))
                            },
                            None => Err(ApiError::Decode("Response holds no list".to_owned())),
                        },
                    }
                }
            },
        }
    }
}

/// The key under which a response may carry its list of contacts.
pub open spec fn contact_list_keys() -> Seq<Seq<char>> {
    seq!["data"@]
}

/// The keys under which an entry may carry the name of a contact.
pub open spec fn contact_name_keys() -> Seq<Seq<char>> {
    seq!["displayName"@, "name"@]
}

/// The keys under which an entry may carry the address of a contact.
pub open spec fn contact_address_keys() -> Seq<Seq<char>> {
    seq!["address"@, "phone"@, "email"@, "id"@]
}

/// The label of a contact: `name (address)`, and the address alone where
/// there is no name.
pub open spec fn contact_label(name: Seq<char>, address: Seq<char>) -> Seq<char> {
    if name.len() == 0 {
        address
    } else {
        name + " ("@ + address + ")"@
    }
}

/// The contact that an entry stands for: none where it has no address. Name
/// and address are the first non-empty strings under their keys, in the order
/// of the keys.
pub open spec fn contact_in(item: Json) -> Option<ContactEntryView> {
    let name = item.text_or(contact_name_keys(), Seq::empty());
    let address = item.text_or(contact_address_keys(), Seq::empty());
    if address.len() == 0 {
        None
    } else {
        Some(ContactEntryView { label: contact_label(name, address), address })
    }
}

/// The contacts that the entries stand for, in the order of the entries.
pub open spec fn contacts_in(items: Seq<Json>) -> Seq<ContactEntryView>
    decreases items.len(),
{
    if items.len() == 0 {
        Seq::empty()
    } else {
        match contact_in(items.last()) {
            Some(c) => contacts_in(items.drop_last()).push(c),
            None => contacts_in(items.drop_last()),
        }
    }
}

/// The request that lists the contacts.
pub open spec fn contacts_request(base_url: Seq<char>, password: Seq<char>) -> RequestView {
    bare(Method::Get, origin(base_url) + "/api/v1/contact?password="@ + password)
}

/// What the outcome of that request gives: the contacts, or the failure. A
/// body that is JSON of another shape than a list, bare or under `data`, fails
/// as one that cannot be decoded.
pub open spec fn contacts_outcome(outcome: Result<(u16, Seq<char>), Seq<char>>) -> Result<
    Seq<ContactEntryView>,
    ApiFailure,
> {
    match outcome {
        Err(message) => Err(ApiFailure::Transport(message)),
        Ok((status, body)) => if !success(status) {
            Err(ApiFailure::Server(status))
        } else {
            match decoded(body) {
                Err(message) => Err(ApiFailure::Decode(message)),
                Ok(json) => match json.listing(contact_list_keys()) {
                    Some(items) => Ok(contacts_in(items)),
                    None => Err(ApiFailure::Decode(no_list_message())),
                },
            }
        },
    }
}

/// The document that asks for a new conversation with `addresses`, opened
/// with `message`, which is empty where none is given.
pub open spec fn creation_document(addresses: Seq<Seq<char>>, message: Option<Seq<char>>) -> Json {
    Json::Record(
        seq![
            Entry {
                key: "addresses"@,
                value: Json::List(Seq::new(addresses.len(), |i: int| Json::Text(addresses[i]))),
            },
            Entry {
                key: "message"@,
                value: Json::Text(
                    match message {
                        Some(m) => m,
                        None => Seq::empty(),
                    },
                ),
            },
        ],
    )
}

/// The request that creates a conversation.
pub open spec fn create_chat_request(
    base_url: Seq<char>,
    password: Seq<char>,
    addresses: Seq<Seq<char>>,
    message: Option<Seq<char>>,
) -> RequestView {
    RequestView {
        method: Method::Post,
        url: origin(base_url) + "/api/v1/chat/new?password="@ + password,
        headers: Seq::empty(),
        body: Some(encoded(creation_document(addresses, message))),
    }
}

/// The conversation that the answer to a creation names: its identity is the
/// first non-empty string under `guid`, then `id`, and where neither holds
/// one there is none; its name is the first non-empty string under `name`,
/// then `displayName`, and `Chat` where there is none.
pub open spec fn created_in(json: Json) -> Result<ConversationView, ApiFailure> {
    let id = json.text_or(seq!["guid"@, "id"@], Seq::empty());
    if id.len() == 0 {
        Err(ApiFailure::Creation)
    } else {
        Ok(ConversationView { id, name: json.text_or(seq!["name"@, "displayName"@], "Chat"@) })
    }
}

/// A creation fails for want of an identity exactly when neither `guid` nor
/// `id` holds a non-empty string; an empty `guid` gives way to `id`.
pub proof fn lemma_creation_identity(json: Json)
    ensures
        created_in(json) is Err <==> json.filled("guid"@) is None && json.filled("id"@) is None,
        json.filled("guid"@) is Some ==> (created_in(json) matches Ok(c) && Some(c.id)
            == json.filled("guid"@)),
        json.filled("guid"@) is None && json.filled("id"@) is Some ==> (created_in(json) matches Ok(
            c,
        ) && Some(c.id) == json.filled("id"@)),
{
    let keys = seq!["guid"@, "id"@];
    assert(keys[0] == "guid"@ && keys[1] == "id"@);
    if json.filled("guid"@) is Some {
        crate::document::lemma_first_text(json, keys, 0);
    } else if json.filled("id"@) is Some {
        crate::document::lemma_first_text(json, keys, 1);
    } else {
        crate::document::lemma_first_text_none(json, keys);
    }
}

/// What the outcome of a creation gives: the conversation, or the failure.
pub open spec fn create_chat_outcome(outcome: Result<(u16, Seq<char>), Seq<char>>) -> Result<
    ConversationView,
    ApiFailure,
> {
    match outcome {
        Err(message) => Err(ApiFailure::Transport(message)),
        Ok((status, body)) => if !success(status) {
            Err(ApiFailure::Server(status))
        } else {
            match decoded(body) {
                Err(message) => Err(ApiFailure::Decode(message)),
                Ok(json) => created_in(json),
            }
        },
    }
}

/// One more entry adds its contact, if it stands for one.
pub proof fn lemma_contacts_in_push(items: Seq<Json>, item: Json)
    ensures
        contacts_in(items.push(item)) == match contact_in(item) {
            Some(c) => contacts_in(items).push(c),
            None => contacts_in(items),
        },
{
    assert(items.push(item).drop_last() =~= items);
}

fn two_keys(first: &'static str, second: &'static str) -> (keys: Vec<&'static str>)
    ensures
        views(keys@) == seq![first@, second@],
{
    let keys = vec![first, second];
    assert(views(keys@) =~= seq![first@, second@]);
    keys
}

fn address_key_names() -> (keys: Vec<&'static str>)
    ensures
        views(keys@) == contact_address_keys(),
{
    let keys = vec!["address", "phone", "email", "id"];
    assert(views(keys@) =~= contact_address_keys());
    keys
}

impl ApiClient {
    /// The contact that an entry stands for.
    pub fn read_contact(item: &Document) -> (r: Option<ContactEntry>)
        ensures
            match r {
                Some(c) => contact_in(item@) == Some(c@),
                None => contact_in(item@) is None,
            },
    {
        proof {
            reveal_strlit("");
            assert(""@ =~= Seq::<char>::empty());
        }
        let name = item.text_or(&two_keys("displayName", "name"), "");
        let address = item.text_or(&address_key_names(), "");
        if address.as_str().is_empty() {
            None
        } else {
            let label = if name.as_str().is_empty() {
                address.clone()
            } else {
                let opened = joined(name.as_str(), " (");
                let filled = joined(opened.as_str(), address.as_str());
                joined(filled.as_str(), ")")
            };
            Some(ContactEntry { label, address })
        }
    }

    /// The contacts that the entries stand for, in the order of the entries.
    pub fn read_contacts(items: &Vec<Document>) -> (r: Vec<ContactEntry>)
        ensures
            views(r@) == contacts_in(views(items@)),
    {
        let mut out: Vec<ContactEntry> = Vec::new();
        let mut i: usize = 0;
        assert(views(items@).take(0) =~= Seq::<Json>::empty());
        assert(views(out@) =~= Seq::<ContactEntryView>::empty());
        while i < items.len()
            invariant
                i <= items@.len(),
                views(out@) == contacts_in(views(items@).take(i as int)),
            decreases items@.len() - i,
        {
            proof {
                assert(views(items@).take(i + 1) =~= views(items@).take(i as int).push(
                    items@[i as int]@,
                ));
                lemma_contacts_in_push(views(items@).take(i as int), items@[i as int]@);
            }
            match ApiClient::read_contact(&items[i]) {
                Some(c) => {
                    proof {
                        lemma_views_push(out@, c);
                    }
                    out.push(c);
                },
                None => {},
            }
            i = i + 1;
        }
        assert(views(items@).take(i as int) =~= views(items@));
        out
    }

    /// The request that lists the contacts.
    pub fn contacts_request(&self, base_url: &str, password: &str) -> (r: Request)
        ensures
            r@ == contacts_request(base_url@, password@),
    {
        let url = joined(
            joined(trim_end_matches(base_url, '/'), "/api/v1/contact?password=").as_str(),
            password,
        );
        let r = Request { method: Method::Get, url, headers: Vec::new(), body: None };
        assert(r@.headers =~= Seq::<HeaderView>::empty());
        r
    }

    /// What the outcome of listing the contacts gives.
    pub fn contacts(&self, outcome: Result<Response, String>) -> (r: Result<
        Vec<ContactEntry>,
        ApiError,
    >)
        ensures
            match r {
                Ok(list) => contacts_outcome(outcome_view(outcome)) == Ok::<
                    Seq<ContactEntryView>,
                    ApiFailure,
                >(views(list@)),
                Err(e) => contacts_outcome(outcome_view(outcome)) == Err::<
                    Seq<ContactEntryView>,
                    ApiFailure,
                >(e@),
            },
    {
        match outcome {
            Err(message) => Err(ApiError::Transport(message)),
            Ok(response) => {
                if !response.is_success() {
                    Err(ApiError::Server(response.status))
                } else {
                    match decode(response.body.as_str()) {
                        Err(message) => Err(ApiError::Decode(message)),
                        Ok(doc) => match doc.into_listing(&one_key("data")) {
                            Some(items) => Ok(ApiClient::read_contacts(&items)),
                            None => Err(ApiError::Decode("Response holds no list".to_owned())),
                        },
                    }
                }
            },
        }
    }

    /// The request that creates a conversation with `addresses`, opened with
    /// `message`.
    pub fn create_chat_request(
        &self,
        base_url: &str,
        password: &str,
        addresses: Vec<String>,
        message: Option<String>,
    ) -> (r: Request)
        ensures
            r@ == create_chat_request(
                base_url@,
                password@,
                views(addresses@),
                owned_text_view(message),
            ),
    {
        let url = joined(
            joined(trim_end_matches(base_url, '/'), "/api/v1/chat/new?password=").as_str(),
            password,
        );
        let mut listed: Vec<Document> = Vec::new();
        let mut i: usize = 0;
        while i < addresses.len()
            invariant
                i <= addresses@.len(),
                listed@.len() == i,
                forall|j: int| 0 <= j < i ==> (#[trigger] listed@[j])@ == Json::Text(addresses@[j]@),
            decreases addresses@.len() - i,
        {
            listed.push(Document::Text(addresses[i].clone()));
            i = i + 1;
        }
        let ghost given = owned_text_view(message);
        let opening = match message {
            Some(m) => m,
            None => String::new(),
        };
        let members = vec![
            Member { key: "addresses".to_owned(), value: Document::List(listed) },
            Member { key: "message".to_owned(), value: Document::Text(opening) },
        ];
        proof {
            lemma_list_view(listed);
            lemma_record_view(members);
            let wanted = creation_document(views(addresses@), given);
            assert(views(listed@) =~= Seq::new(
                views(addresses@).len(),
                |i: int| Json::Text(views(addresses@)[i]),
            ));
            assert(crate::document::entries(members@) =~= wanted->Record_0);
        }
        let body = Document::Record(members);
        let r = Request { method: Method::Post, url, headers: Vec::new(), body: Some(encode(&body)) };
        assert(r@.headers =~= Seq::<HeaderView>::empty());
        r
    }

    /// The conversation that the answer to a creation names.
    pub fn read_created(doc: &Document) -> (r: Result<Conversation, ApiError>)
        ensures
            match r {
                Ok(c) => created_in(doc@) == Ok::<ConversationView, ApiFailure>(c@),
                Err(e) => created_in(doc@) == Err::<ConversationView, ApiFailure>(e@),
            },
    {
        proof {
            reveal_strlit("");
            assert(""@ =~= Seq::<char>::empty());
        }
        let id = doc.text_or(&two_keys("guid", "id"), "");
        if id.as_str().is_empty() {
            Err(ApiError::Creation)
        } else {
            let name = doc.text_or(&two_keys("name", "displayName"), "Chat");
            Ok(Conversation { id, name })
        }
    }

    /// What the outcome of a creation gives.
    pub fn create_chat(&self, outcome: Result<Response, String>) -> (r: Result<Conversation, ApiError>)
        ensures
            match r {
                Ok(c) => create_chat_outcome(outcome_view(outcome)) == Ok::<
                    ConversationView,
                    ApiFailure,
                >(c@),
                Err(e) => create_chat_outcome(outcome_view(outcome)) == Err::<
                    ConversationView,
                    ApiFailure,
                >(e@),
            },
    {
        match outcome {
            Err(message) => Err(ApiError::Transport(message)),
            Ok(response) => {
                if !response.is_success() {
                    Err(ApiError::Server(response.status))
                } else {
                    match decode(response.body.as_str()) {
                        Err(message) => Err(ApiError::Decode(message)),
                        Ok(doc) => ApiClient::read_created(&doc),
                    }
                }
            },
        }
    }
}

/// The items that stand for a conversation, in their order.
pub open spec fn identified(items: Seq<Json>) -> Seq<Json>
    decreases items.len(),
{
    if items.len() == 0 {
        Seq::empty()
    } else {
        match conversation_in(items.last()) {
            Some(c) => identified(items.drop_last()).push(items.last()),
            None => identified(items.drop_last()),
        }
    }
}

/// One more item is kept if it stands for a conversation.
pub proof fn lemma_identified_push(items: Seq<Json>, item: Json)
    ensures
        identified(items.push(item)) == match conversation_in(item) {
            Some(c) => identified(items).push(item),
            None => identified(items),
        },
{
    assert(items.push(item).drop_last() =~= items);
}

/// The items that are kept pair with the conversations by index: there are
/// as many, and conversation `k` is the one that item `k` stands for.
pub proof fn lemma_identified_pairs(items: Seq<Json>)
    ensures
        identified(items).len() == conversations_in(items).len(),
        forall|k: int|
            0 <= k < identified(items).len() ==> conversation_in(#[trigger] identified(items)[k])
                == Some(conversations_in(items)[k]),
    decreases items.len(),
{
    if items.len() > 0 {
        lemma_identified_pairs(items.drop_last());
    }
}

/// The request that asks the server about itself, which a login sends to
/// see whether address and password are of use.
pub open spec fn server_info_request(base_url: Seq<char>, password: Seq<char>) -> RequestView {
    bare(Method::Get, origin(base_url) + "/api/v1/server/info?password="@ + password)
}

/// What `url::Url::parse` makes of `text`: the URL in its normal form, or the
/// message of the error.
pub uninterp spec fn parsed_url(text: Seq<char>) -> Result<Seq<char>, Seq<char>>;

/// Trusted: `url::Url::parse`, with the URL turned into its text by
/// `String::from` and the error into its message. The outcome is a function
/// of the text alone, and the contract says no more than that.
#[verifier::external_body]
fn parse_url(text: &str) -> (r: Result<String, String>)
    ensures
        match r {
            Ok(url) => parsed_url(text@) == Ok::<Seq<char>, Seq<char>>(url@),
            Err(message) => parsed_url(text@) == Err::<Seq<char>, Seq<char>>(message@),
        },
{
    match url::Url::parse(text) {
        Ok(url) => Ok(String::from(url)),
        Err(error) => Err(error.to_string()),
    }
}

impl ApiClient {
    /// The documents of the items that stand for a conversation. Document `k`
    /// of the result is the one that conversation `k` of `read_conversations`
    /// was read from, so the two lists pair by index.
    pub fn identified_documents(items: &Vec<Document>) -> (r: Vec<Document>)
        ensures
            views(r@) == identified(views(items@)),
            r@.len() == conversations_in(views(items@)).len(),
    {
        let mut out: Vec<Document> = Vec::new();
        let mut i: usize = 0;
        assert(views(items@).take(0) =~= Seq::<Json>::empty());
        assert(views(out@) =~= Seq::<Json>::empty());
        while i < items.len()
            invariant
                i <= items@.len(),
                views(out@) == identified(views(items@).take(i as int)),
            decreases items@.len() - i,
        {
            proof {
                assert(views(items@).take(i + 1) =~= views(items@).take(i as int).push(
                    items@[i as int]@,
                ));
                lemma_identified_push(views(items@).take(i as int), items@[i as int]@);
            }
            match ApiClient::read_conversation(&items[i]) {
                Some(c) => {
                    let copy = items[i].duplicate();
                    assert(views(out@.push(copy)) =~= views(out@).push(copy@));
                    out.push(copy);
                },
                None => {},
            }
            i = i + 1;
        }
        proof {
            assert(views(items@).take(i as int) =~= views(items@));
            lemma_identified_pairs(views(items@));
        }
        out
    }

    /// The request that asks the server about itself.
    pub fn server_info_request(&self, base_url: &str, password: &str) -> (r: Request)
        ensures
            r@ == server_info_request(base_url@, password@),
    {
        let url = joined(
            joined(trim_end_matches(base_url, '/'), "/api/v1/server/info?password=").as_str(),
            password,
        );
        let r = Request { method: Method::Get, url, headers: Vec::new(), body: None };
        assert(r@.headers =~= Seq::<HeaderView>::empty());
        r
    }

    /// Checks the address of the event socket. The answer is the address in
    /// its normal form, to connect to, or what is wrong with it.
    pub fn connect_ws(&self, ws_url: &str) -> (r: Result<String, String>)
        ensures
            match r {
                Ok(url) => parsed_url(ws_url@) == Ok::<Seq<char>, Seq<char>>(url@),
                Err(message) => parsed_url(ws_url@) == Err::<Seq<char>, Seq<char>>(message@),
            },
    {
        parse_url(ws_url)
    }
}

} // verus!
