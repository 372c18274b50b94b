use bluebubbles::api::client::ApiClient;
use bluebubbles::api::http::Response;
use bluebubbles::api::models::Conversation;
use bluebubbles::document::{Document, Member};
use bluebubbles::storage::{init, upsert_chats, CacheStore};

fn parse(text: &str) -> Result<Document, String> {
    let response = Response { status: 200, body: format!("[{}]", text) };
    match ApiClient::new().conversations(Ok(response)) {
        Ok((_, mut items)) if items.len() == 1 => Ok(items.remove(0)),
        Ok(_) => Err("not one document".to_string()),
        Err(e) => Err(e.message()),
    }
}

fn render(doc: &Document) -> String {
    let mut store = CacheStore::new();
    init(&mut store).unwrap();
    let chat = Conversation { id: "1".to_string(), name: "n".to_string() };
    upsert_chats(&mut store, &vec![chat], Some(&vec![doc.duplicate()]), 0).unwrap();
    store.rows()[0].raw_payload.clone().unwrap()
}

fn text(s: &str) -> Document {
    Document::Text(s.to_string())
}

fn member(key: &str, value: Document) -> Member {
    Member { key: key.to_string(), value }
}

#[test]
fn parse_reads_every_kind_of_value() {
    let doc = parse(r#"{"a":null,"b":true,"c":12,"d":"x","e":[1.5,-3],"f":{"g":"h"}}"#).unwrap();
    let expected = Document::Record(vec![
        member("a", Document::Null),
        member("b", Document::Bool(true)),
        member("c", Document::Number("12".to_string())),
        member("d", text("x")),
        member(
            "e",
            Document::List(vec![
                Document::Number("1.5".to_string()),
                Document::Number("-3".to_string()),
            ]),
        ),
        member("f", Document::Record(vec![member("g", text("h"))])),
    ]);
    assert_eq!(doc, expected);
}

#[test]
fn parse_reports_what_is_not_json() {
    let failed = parse("{\"a\": ");
    assert!(failed.is_err());
    assert!(!failed.unwrap_err().is_empty());
    assert!(parse("1,").is_err());
    assert!(parse("[1,2] trailing").is_err());
}

#[test]
fn render_writes_compact_json() {
    let doc = Document::Record(vec![
        member("addresses", Document::List(vec![text("+15551234567"), text("a@b.c")])),
        member("message", text("say \"hi\"\n")),
    ]);
    assert_eq!(
        render(&doc),
        r#"{"addresses":["+15551234567","a@b.c"],"message":"say \"hi\"\n"}"#
    );
}

#[test]
fn render_keeps_numerals() {
    let source = r#"[0,-7,18446744073709551615,2.5,1e+100]"#;
    let doc = parse(source).unwrap();
    assert_eq!(render(&doc), source);
}

#[test]
fn render_writes_null_for_what_is_no_numeral() {
    assert_eq!(render(&Document::Number("twelve".to_string())), "null");
}

#[test]
fn render_takes_the_later_of_two_entries_with_one_key() {
    let doc = Document::Record(vec![member("k", text("first")), member("k", text("second"))]);
    assert_eq!(render(&doc), r#"{"k":"second"}"#);
    assert_eq!(doc.get("k"), Some(&text("second")));
}

#[test]
fn parse_then_render_gives_the_text_back() {
    let source = r#"{"chats":[{"id":"1","n":3,"name":"Alice"}],"ok":true}"#;
    assert_eq!(render(&parse(source).unwrap()), source);
}

#[test]
fn get_finds_members_of_objects_only() {
    let doc = Document::Record(vec![member("id", text("1")), member("name", Document::Null)]);
    assert_eq!(doc.get("id"), Some(&text("1")));
    assert_eq!(doc.get("name"), Some(&Document::Null));
    assert_eq!(doc.get("title"), None);
    assert_eq!(Document::List(vec![text("id")]).get("id"), None);
    assert_eq!(text("id").get("id"), None);
}

#[test]
fn as_array_and_as_str_tell_the_kinds_apart() {
    let list = Document::List(vec![text("a")]);
    assert_eq!(list.as_array(), Some(&vec![text("a")]));
    assert_eq!(list.as_str(), None);
    assert_eq!(text("a").as_str(), Some("a"));
    assert_eq!(text("a").as_array(), None);
    assert_eq!(Document::Null.as_str(), None);
}

#[test]
fn filled_takes_strings_that_are_not_empty() {
    let doc = Document::Record(vec![
        member("a", text("A")),
        member("b", text("")),
        member("c", Document::Null),
        member("d", Document::List(vec![text("x")])),
    ]);
    assert_eq!(doc.filled("a"), Some("A"));
    assert_eq!(doc.filled("b"), None);
    assert_eq!(doc.filled("c"), None);
    assert_eq!(doc.filled("d"), None);
    assert_eq!(doc.filled("e"), None);
    assert_eq!(text("A").filled("a"), None);
}

#[test]
fn first_text_takes_the_first_string_that_is_not_empty() {
    let doc = Document::Record(vec![
        member("title", text("T")),
        member("display_name", text("")),
        member("name", Document::Null),
    ]);
    let keys = vec!["name", "display_name", "title", "displayName"];
    assert_eq!(doc.first_text(&keys), Some("T"));
    assert_eq!(doc.first_text(&vec!["title", "name"]), Some("T"));
    assert_eq!(doc.first_text(&vec!["name", "display_name", "displayName"]), None);
    assert_eq!(doc.first_text(&Vec::new()), None);
}

#[test]
fn text_or_falls_back_to_the_default() {
    let doc = Document::Record(vec![member("name", Document::Null), member("title", text("T"))]);
    assert_eq!(doc.text_or(&vec!["name", "title"], "Chat"), "T");
    assert_eq!(doc.text_or(&vec!["name"], "Chat"), "Chat");
    assert_eq!(doc.text_or(&vec!["title", "name"], "Chat"), "T");
    assert_eq!(doc.text_or(&vec!["other"], "Chat"), "Chat");
    assert_eq!(text("plain").text_or(&vec!["name"], ""), "");
}

#[test]
fn into_listing_unwraps_the_shapes() {
    let items = || vec![text("a"), text("b")];
    let keys = vec!["chats", "data"];
    assert_eq!(Document::List(items()).into_listing(&keys), Some(items()));
    let under_chats = Document::Record(vec![member("chats", Document::List(items()))]);
    assert_eq!(under_chats.into_listing(&keys), Some(items()));
    let under_data = Document::Record(vec![
        member("status", Document::Number("200".to_string())),
        member("data", Document::List(items())),
    ]);
    assert_eq!(under_data.into_listing(&keys), Some(items()));
    let chats_is_no_list = Document::Record(vec![
        member("chats", text("none")),
        member("data", Document::List(items())),
    ]);
    assert_eq!(chats_is_no_list.into_listing(&keys), Some(items()));
    let empty_under_data = Document::Record(vec![member("data", Document::List(Vec::new()))]);
    assert_eq!(empty_under_data.into_listing(&keys), Some(Vec::new()));
    assert_eq!(Document::Record(Vec::new()).into_listing(&keys), None);
    assert_eq!(Document::Record(vec![member("foo", text("1"))]).into_listing(&keys), None);
    assert_eq!(text("x").into_listing(&keys), None);
}

#[test]
fn duplicate_copies_the_whole_document() {
    let doc = parse(r#"{"a":[1,{"b":[true,null,"c"]}],"d":{}}"#).unwrap();
    assert_eq!(doc.duplicate(), doc);
}

#[test]
fn render_keeps_fractions_through_reading_and_writing() {
    for numeral in ["0.1", "2.2250738585072014e-308", "1.7976931348623157e+308", "5e-324", "0.30000000000000004", "123456789.12345679"] {
        let doc = parse(numeral).unwrap();
        assert_eq!(doc, Document::Number(numeral.to_string()));
        assert_eq!(render(&doc), numeral);
    }
}
