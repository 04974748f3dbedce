use turls::base58::from_base58;
use turls::json::{JsonDocument, JsonMember};
use turls::store::{AddError, Added, LoadError, UrlMap, ID_HIGH, ID_LOW};

fn text(member: &str) -> JsonMember {
    JsonMember::Text(member.to_string())
}

fn object(members: Vec<(&str, JsonMember)>) -> JsonDocument {
    JsonDocument::Object(members.into_iter().map(|(name, member)| (name.to_string(), member)).collect())
}

fn empty_store() -> UrlMap {
    UrlMap::new("urls.json", "{}").unwrap()
}

fn load_error(text: &str) -> LoadError {
    match UrlMap::new("urls.json", text) {
        Ok(_) => panic!("loaded"),
        Err(error) => error,
    }
}

#[test]
fn identifier_range_is_as_laid_down() {
    assert_eq!(ID_LOW, 3364);
    assert_eq!(ID_LOW, 58 * 58);
    assert_eq!(ID_HIGH, 113164);
}

#[test]
fn load_then_lookup() {
    let store = UrlMap::new("urls.json", "{\"abc\": \"https://x.test\"}").unwrap();
    assert_eq!(store.get_url("abc"), Some("https://x.test"));
    assert_eq!(store.len(), 1);
}

#[test]
fn load_keeps_the_path() {
    let store = UrlMap::new("/home/me/.config/turls/urls.json", "{}").unwrap();
    assert_eq!(store.path(), "/home/me/.config/turls/urls.json");
}

#[test]
fn load_empty_object_gives_empty_store() {
    let store = empty_store();
    assert_eq!(store.len(), 0);
    assert_eq!(store.get_url("abc"), None);
}

#[test]
fn load_several_entries() {
    let store = UrlMap::new(
        "urls.json",
        "{\"211\": \"https://a.example\", \"212\": \"https://b.example\", \"zz\": \"\"}",
    ).unwrap();
    assert_eq!(store.len(), 3);
    assert_eq!(store.get_url("211"), Some("https://a.example"));
    assert_eq!(store.get_url("212"), Some("https://b.example"));
    assert_eq!(store.get_url("zz"), Some(""));
}

#[test]
fn load_refuses_what_is_no_json() {
    assert_eq!(load_error(""), LoadError::Syntax);
    assert_eq!(load_error("not json"), LoadError::Syntax);
    assert_eq!(load_error("{\"abc\": \"https://x.test\""), LoadError::Syntax);
    assert_eq!(load_error("{\"abc\": \"https://x.test\"} trailing"), LoadError::Syntax);
}

#[test]
fn load_refuses_what_is_no_object() {
    assert_eq!(load_error("[]"), LoadError::NotAnObject);
    assert_eq!(load_error("[\"abc\", \"https://x.test\"]"), LoadError::NotAnObject);
    assert_eq!(load_error("\"abc\""), LoadError::NotAnObject);
    assert_eq!(load_error("12"), LoadError::NotAnObject);
    assert_eq!(load_error("null"), LoadError::NotAnObject);
    assert_eq!(load_error("true"), LoadError::NotAnObject);
}

#[test]
fn load_refuses_a_value_that_is_no_string() {
    assert_eq!(load_error("{\"abc\": 1}"), LoadError::NonStringValue);
    assert_eq!(load_error("{\"abc\": null}"), LoadError::NonStringValue);
    assert_eq!(load_error("{\"abc\": [\"https://x.test\"]}"), LoadError::NonStringValue);
    assert_eq!(load_error("{\"abc\": {\"d\": \"https://x.test\"}}"), LoadError::NonStringValue);
    assert_eq!(
        load_error("{\"abc\": \"https://x.test\", \"abd\": false}"),
        LoadError::NonStringValue
    );
}

#[test]
fn load_refuses_a_url_under_two_tokens() {
    assert_eq!(
        load_error("{\"abc\": \"https://x.test\", \"abd\": \"https://x.test\"}"),
        LoadError::DuplicateUrl
    );
}

#[test]
fn document_with_one_entry_loads() {
    let document = object(vec![("abc", text("https://x.test"))]);
    let store = UrlMap::from_document("urls.json", &document).unwrap();
    assert_eq!(store.get_url("abc"), Some("https://x.test"));
    assert_eq!(store.get_url("abd"), None);
    assert_eq!(store.len(), 1);
    assert_eq!(store.path(), "urls.json");
}

#[test]
fn document_keeps_the_order_of_its_members() {
    let document = object(vec![("b", text("2")), ("a", text("1"))]);
    let store = UrlMap::from_document("urls.json", &document).unwrap();
    assert_eq!(store.save_urls().unwrap(), "{\"b\":\"2\",\"a\":\"1\"}");
}

#[test]
fn document_that_is_no_object_is_refused() {
    let outcome = UrlMap::from_document("urls.json", &JsonDocument::Other);
    assert_eq!(outcome.err(), Some(LoadError::NotAnObject));
}

#[test]
fn document_with_a_token_twice_is_refused() {
    let document = object(vec![("abc", text("https://x.test")), ("abc", text("https://y.test"))]);
    let outcome = UrlMap::from_document("urls.json", &document);
    assert_eq!(outcome.err(), Some(LoadError::DuplicateToken));
}

#[test]
fn document_with_a_url_twice_is_refused() {
    let document = object(vec![("abc", text("https://x.test")), ("abd", text("https://x.test"))]);
    let outcome = UrlMap::from_document("urls.json", &document);
    assert_eq!(outcome.err(), Some(LoadError::DuplicateUrl));
}

#[test]
fn document_with_another_value_is_refused() {
    let document = object(vec![("abc", text("https://x.test")), ("abd", JsonMember::Other)]);
    let outcome = UrlMap::from_document("urls.json", &document);
    assert_eq!(outcome.err(), Some(LoadError::NonStringValue));
}

#[test]
fn the_first_fault_of_a_document_decides() {
    let url_first = object(vec![
        ("a", text("1")),
        ("b", text("1")),
        ("a", text("2")),
        ("c", JsonMember::Other),
    ]);
    assert_eq!(UrlMap::from_document("p", &url_first).err(), Some(LoadError::DuplicateUrl));
    let token_first = object(vec![
        ("a", text("1")),
        ("a", text("1")),
        ("c", JsonMember::Other),
    ]);
    assert_eq!(UrlMap::from_document("p", &token_first).err(), Some(LoadError::DuplicateToken));
    let other_first = object(vec![
        ("a", text("1")),
        ("a", JsonMember::Other),
        ("b", text("1")),
    ]);
    assert_eq!(UrlMap::from_document("p", &other_first).err(), Some(LoadError::NonStringValue));
}

#[test]
fn load_urls_replaces_the_entries() {
    let mut store = UrlMap::new("urls.json", "{\"abc\": \"https://x.test\"}").unwrap();
    assert_eq!(store.load_urls("{\"abd\": \"https://y.test\"}"), Ok(()));
    assert_eq!(store.get_url("abc"), None);
    assert_eq!(store.get_url("abd"), Some("https://y.test"));
    assert_eq!(store.len(), 1);
    assert_eq!(store.path(), "urls.json");
}

#[test]
fn load_urls_that_fails_changes_nothing() {
    let mut store = UrlMap::new("urls.json", "{\"abc\": \"https://x.test\"}").unwrap();
    assert_eq!(store.load_urls("{"), Err(LoadError::Syntax));
    assert_eq!(store.load_urls("[]"), Err(LoadError::NotAnObject));
    assert_eq!(store.load_urls("{\"abd\": 1}"), Err(LoadError::NonStringValue));
    assert_eq!(
        store.load_urls("{\"a\": \"u\", \"b\": \"u\"}"),
        Err(LoadError::DuplicateUrl)
    );
    assert_eq!(store.get_url("abc"), Some("https://x.test"));
    assert_eq!(store.len(), 1);
}

#[test]
fn lookup_is_exact() {
    let store = UrlMap::new("urls.json", "{\"abc\": \"https://x.test\"}").unwrap();
    assert_eq!(store.get_url("abc"), Some("https://x.test"));
    assert_eq!(store.get_url("ABC"), None);
    assert_eq!(store.get_url("Abc"), None);
    assert_eq!(store.get_url("ab"), None);
    assert_eq!(store.get_url("abcd"), None);
    assert_eq!(store.get_url(""), None);
    assert_eq!(store.get_url("doesnotexist"), None);
    assert_eq!(store.get_url("https://x.test"), None);
}

#[test]
fn add_then_lookup() {
    let mut store = empty_store();
    let added = store.add_url("https://example.com").unwrap();
    let length = added.token.chars().count();
    assert!(length == 2 || length == 3);
    assert_eq!(length, 3);
    assert_eq!(store.get_url(&added.token), Some("https://example.com"));
}

#[test]
fn add_draws_the_token_from_the_identifier_range() {
    let mut store = empty_store();
    for n in 0..200 {
        let added = store.add_url(&format!("https://example.com/{}", n)).unwrap();
        let id = from_base58(&added.token).unwrap();
        assert!(ID_LOW <= id && id < ID_HIGH);
        assert_eq!(store.get_url(&added.token), Some(format!("https://example.com/{}", n).as_str()));
    }
    assert_eq!(store.len(), 200);
}

#[test]
fn add_twice_gives_the_same_token() {
    let mut store = empty_store();
    let first = store.add_url("https://example.com").unwrap();
    let second = store.add_url("https://example.com").unwrap();
    assert_eq!(first.token, second.token);
    assert_eq!(store.len(), 1);
}

#[test]
fn add_hands_out_the_document_once() {
    let mut store = empty_store();
    let first = store.add_url("https://example.com").unwrap();
    assert_eq!(
        first.document,
        Some(format!("{{\"{}\":\"https://example.com\"}}", first.token))
    );
    let second = store.add_url("https://example.com").unwrap();
    assert_eq!(second.document, None);
}

#[test]
fn add_of_a_loaded_url_gives_its_token() {
    let mut store = UrlMap::new("urls.json", "{\"abc\": \"https://x.test\"}").unwrap();
    let added = store.add_url("https://x.test").unwrap();
    assert_eq!(added, Added { token: "abc".to_string(), document: None });
    assert_eq!(store.len(), 1);
}

#[test]
fn add_two_urls_gives_two_tokens() {
    let mut store = empty_store();
    let one = store.add_url("https://a.example").unwrap();
    let two = store.add_url("https://b.example").unwrap();
    assert_ne!(one.token, two.token);
    assert_eq!(store.len(), 2);
    assert_eq!(store.get_url(&one.token), Some("https://a.example"));
    assert_eq!(store.get_url(&two.token), Some("https://b.example"));
    let document = two.document.unwrap();
    let reloaded = UrlMap::new("urls.json", &document).unwrap();
    assert_eq!(reloaded.len(), 2);
    assert_eq!(reloaded.get_url(&one.token), Some("https://a.example"));
    assert_eq!(reloaded.get_url(&two.token), Some("https://b.example"));
}

#[test]
fn add_takes_the_empty_url() {
    let mut store = empty_store();
    let added = store.add_url("").unwrap();
    assert_eq!(store.get_url(&added.token), Some(""));
}

#[test]
fn add_with_takes_the_candidate_that_is_free() {
    let mut store = empty_store();
    let added = store.add_url_with("https://example.com", 3364).unwrap();
    assert_eq!(
        added,
        Added {
            token: "211".to_string(),
            document: Some("{\"211\":\"https://example.com\"}".to_string()),
        }
    );
    assert_eq!(store.get_url("211"), Some("https://example.com"));
    let last = store.add_url_with("https://example.org", 113163).unwrap();
    assert_eq!(last.token, "ae6");
    assert_eq!(
        last.document,
        Some("{\"211\":\"https://example.com\",\"ae6\":\"https://example.org\"}".to_string())
    );
}

#[test]
fn add_with_passes_over_a_candidate_that_is_taken() {
    let mut store = empty_store();
    assert_eq!(store.add_url_with("https://a.example", 5000).unwrap().token, to_token(5000));
    assert_eq!(store.add_url_with("https://b.example", 5000).unwrap().token, "211");
    assert_eq!(store.add_url_with("https://c.example", 5000).unwrap().token, "212");
    assert_eq!(store.add_url_with("https://d.example", 3364).unwrap().token, "213");
    assert_eq!(store.len(), 4);
}

fn to_token(id: u32) -> String {
    turls::to_base58(id)
}

#[test]
fn add_with_passes_over_a_candidate_out_of_range() {
    let mut store = empty_store();
    assert_eq!(store.add_url_with("https://a.example", 0).unwrap().token, "211");
    assert_eq!(store.add_url_with("https://b.example", 3363).unwrap().token, "212");
    assert_eq!(store.add_url_with("https://c.example", 113164).unwrap().token, "213");
    assert_eq!(store.add_url_with("https://d.example", u32::MAX).unwrap().token, "214");
}

#[test]
fn add_with_passes_over_a_token_that_was_loaded() {
    let mut store = UrlMap::new("urls.json", "{\"211\": \"https://x.test\"}").unwrap();
    assert_eq!(store.add_url_with("https://a.example", 3364).unwrap().token, "212");
}

#[test]
fn add_with_of_a_known_url_gives_its_token() {
    let mut store = empty_store();
    let first = store.add_url_with("https://example.com", 4000).unwrap();
    let second = store.add_url_with("https://example.com", 4001).unwrap();
    assert_eq!(second, Added { token: first.token, document: None });
    assert_eq!(store.len(), 1);
}

#[test]
fn settle_takes_back_what_was_not_written() {
    let mut store = UrlMap::new("urls.json", "{\"abc\": \"https://x.test\"}").unwrap();
    let added = store.add_url("https://example.com").unwrap();
    assert_eq!(store.len(), 2);
    assert_eq!(store.settle(&added.token, false), Err(AddError::NotPersisted));
    assert_eq!(store.len(), 1);
    assert_eq!(store.get_url(&added.token), None);
    assert_eq!(store.get_url("abc"), Some("https://x.test"));
    assert_eq!(store.save_urls().unwrap(), "{\"abc\":\"https://x.test\"}");
}

#[test]
fn settle_keeps_what_was_written() {
    let mut store = UrlMap::new("urls.json", "{\"abc\": \"https://x.test\"}").unwrap();
    let added = store.add_url("https://example.com").unwrap();
    assert_eq!(store.settle(&added.token, true), Ok(()));
    assert_eq!(store.len(), 2);
    assert_eq!(store.get_url(&added.token), Some("https://example.com"));
}

#[test]
fn settle_of_an_unknown_token_changes_nothing() {
    let mut store = UrlMap::new("urls.json", "{\"abc\": \"https://x.test\"}").unwrap();
    assert_eq!(store.settle("abd", false), Err(AddError::NotPersisted));
    assert_eq!(store.len(), 1);
    assert_eq!(store.get_url("abc"), Some("https://x.test"));
}

#[test]
fn settle_puts_the_last_entry_in_the_place() {
    let document = object(vec![("a", text("1")), ("b", text("2")), ("c", text("3"))]);
    let mut store = UrlMap::from_document("urls.json", &document).unwrap();
    assert_eq!(store.settle("a", false), Err(AddError::NotPersisted));
    assert_eq!(store.save_urls().unwrap(), "{\"c\":\"3\",\"b\":\"2\"}");
}

#[test]
fn save_writes_a_flat_object() {
    assert_eq!(empty_store().save_urls().unwrap(), "{}");
    let store = UrlMap::new("urls.json", "{ \"abc\" : \"https://x.test\" }").unwrap();
    assert_eq!(store.save_urls().unwrap(), "{\"abc\":\"https://x.test\"}");
}

#[test]
fn save_escapes_what_json_escapes() {
    let mut store = empty_store();
    store.add_url_with("a\"b\\c\nd", 3364).unwrap();
    assert_eq!(store.save_urls().unwrap(), "{\"211\":\"a\\\"b\\\\c\\nd\"}");
}

#[test]
fn save_then_load_gives_the_same_entries() {
    let mut store = empty_store();
    let urls = [
        "https://example.com",
        "https://a.example/x?y=z&w=\"q\"",
        "",
        "ünïcödé/✓",
        "back\\slash\nnewline\ttab",
    ];
    let mut tokens = Vec::new();
    for url in urls {
        tokens.push(store.add_url(url).unwrap().token);
    }
    let reloaded = UrlMap::new(store.path(), &store.save_urls().unwrap()).unwrap();
    assert_eq!(reloaded.len(), store.len());
    assert_eq!(reloaded.len(), urls.len());
    for (token, url) in tokens.iter().zip(urls) {
        assert_eq!(reloaded.get_url(token), Some(url));
        assert_eq!(store.get_url(token), Some(url));
    }
}

#[test]
fn errors_of_adding_differ() {
    assert_ne!(AddError::Exhausted, AddError::NotPersisted);
}

fn full_store_but(left_out: &[u32]) -> UrlMap {
    let members = (ID_LOW..ID_HIGH)
        .filter(|id| !left_out.contains(id))
        .map(|id| (turls::to_base58(id), JsonMember::Text(format!("https://example.com/{}", id))))
        .collect();
    UrlMap::from_document("urls.json", &JsonDocument::Object(members)).unwrap()
}

#[test]
fn add_to_a_full_store_fails() {
    let mut store = full_store_but(&[]);
    assert_eq!(store.len(), 109800);
    assert_eq!(store.add_url("https://example.org").err(), Some(AddError::Exhausted));
    assert_eq!(store.add_url_with("https://example.org", 3364).err(), Some(AddError::Exhausted));
    assert_eq!(store.add_url_with("https://example.org", 0).err(), Some(AddError::Exhausted));
    assert_eq!(store.len(), 109800);
    assert_eq!(store.get_url("211"), Some("https://example.com/3364"));
    assert_eq!(store.get_url("ae6"), Some("https://example.com/113163"));
}

#[test]
fn add_of_a_known_url_to_a_full_store_gives_its_token() {
    let mut store = full_store_but(&[]);
    let known = store.add_url("https://example.com/113163").unwrap();
    assert_eq!(known, Added { token: "ae6".to_string(), document: None });
    assert_eq!(store.len(), 109800);
}

#[test]
fn add_finds_the_last_free_token() {
    let mut store = full_store_but(&[70000]);
    assert_eq!(store.len(), 109799);
    let added = store.add_url("https://example.org").unwrap();
    assert_eq!(added.token, turls::to_base58(70000));
    assert_eq!(store.get_url(&added.token), Some("https://example.org"));
    assert_eq!(store.len(), 109800);
    assert_eq!(store.add_url("https://example.net").err(), Some(AddError::Exhausted));
}

#[test]
fn add_with_finds_the_least_free_token() {
    let mut store = full_store_but(&[5000, 70000, 113163]);
    assert_eq!(store.add_url_with("https://a.example", 3364).unwrap().token, turls::to_base58(5000));
    assert_eq!(store.add_url_with("https://b.example", 113163).unwrap().token, "ae6");
    assert_eq!(store.add_url_with("https://c.example", 113163).unwrap().token, turls::to_base58(70000));
    assert_eq!(store.add_url_with("https://d.example", 113163).err(), Some(AddError::Exhausted));
}

#[test]
fn tokens_out_of_the_range_take_no_room() {
    let mut store = UrlMap::new(
        "urls.json",
        "{\"zz\": \"a\", \"2111\": \"b\", \"1211\": \"c\", \"21 1\": \"d\", \"\": \"e\", \"ae7\": \"f\"}",
    ).unwrap();
    assert_eq!(store.add_url_with("https://example.org", 0).unwrap().token, "211");
    assert_eq!(store.get_url("1211"), Some("c"));
    assert_eq!(store.get_url(""), Some("e"));
}

#[test]
fn load_takes_the_last_of_two_members_of_one_name() {
    let store = UrlMap::new("urls.json", "{\"abc\": \"https://x.test\", \"abc\": \"https://y.test\"}")
        .unwrap();
    assert_eq!(store.len(), 1);
    assert_eq!(store.get_url("abc"), Some("https://y.test"));
}

#[test]
fn load_of_a_text_never_finds_a_token_twice() {
    for text in [
        "{\"a\": \"1\", \"a\": \"1\"}",
        "{\"a\": \"1\", \"b\": \"2\", \"a\": \"3\"}",
        "{\"a\": 1, \"a\": \"1\"}",
    ] {
        assert!(UrlMap::new("urls.json", text).is_ok());
    }
    assert_eq!(load_error("{\"a\": \"1\", \"a\": 1}"), LoadError::NonStringValue);
    assert_eq!(load_error("{\"a\": \"1\", \"b\": \"2\", \"a\": \"2\"}"), LoadError::DuplicateUrl);
}
