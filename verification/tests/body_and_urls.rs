use duckduckgo_suggest::parse::suggestions_from_body;
use duckduckgo_suggest::url::{open_url, suggest_url};

#[test]
fn well_formed_body_is_parsed() {
    let body = "[{\"phrase\":\"bing\"},{\"phrase\":\"bank\"}]";
    let r = suggestions_from_body("x", Some(body), false);
    assert_eq!(r, vec!["bank".to_string(), "bing".to_string()]);
}

#[test]
fn extra_fields_are_ignored() {
    let body = "[{\"phrase\":\"bank\",\"score\":3,\"tags\":[1,2]}]";
    let r = suggestions_from_body("x", Some(body), false);
    assert_eq!(r, vec!["bank".to_string()]);
}

#[test]
fn empty_array_parses_to_nothing() {
    let r = suggestions_from_body("q", Some("[]"), true);
    assert_eq!(r, vec!["q".to_string()]);
}

#[test]
fn malformed_body_degrades_to_query_only() {
    let r = suggestions_from_body("q", Some("not json at all"), true);
    assert_eq!(r, vec!["q".to_string()]);
}

#[test]
fn non_string_phrase_fails_the_parse() {
    let r = suggestions_from_body("q", Some("[{\"phrase\":3}]"), false);
    assert!(r.is_empty());
}

#[test]
fn element_without_phrase_fails_the_parse() {
    let r = suggestions_from_body("q", Some("[{\"word\":\"bank\"}]"), false);
    assert!(r.is_empty());
}

#[test]
fn non_array_body_fails_the_parse() {
    let r = suggestions_from_body("q", Some("{\"phrase\":\"bank\"}"), false);
    assert!(r.is_empty());
}

#[test]
fn transport_failure_policy_off() {
    let r = suggestions_from_body("q", None, false);
    assert!(r.is_empty());
}

#[test]
fn transport_failure_policy_on() {
    let r = suggestions_from_body("q", None, true);
    assert_eq!(r, vec!["q".to_string()]);
}

#[test]
fn request_url_is_percent_encoded() {
    let url = suggest_url("c++ & rust");
    assert_eq!(url, "https://ac.duckduckgo.com/ac/?q=c%2B%2B%20%26%20rust");
}

#[test]
fn request_url_for_plain_query() {
    let url = suggest_url("bank");
    assert_eq!(url, "https://ac.duckduckgo.com/ac/?q=bank");
}

#[test]
fn request_url_for_empty_query() {
    let url = suggest_url("");
    assert_eq!(url, "https://ac.duckduckgo.com/ac/?q=");
}

#[test]
fn request_url_encodes_multibyte_characters() {
    let url = suggest_url("caf\u{e9}");
    assert_eq!(url, "https://ac.duckduckgo.com/ac/?q=caf%C3%A9");
}

#[test]
fn browser_url_is_percent_encoded() {
    let url = open_url("hello world");
    assert_eq!(url, "https://ac.duckduckgo.com/?q=hello%20world");
}
