use neo::response::{display, render_body, render_parsed, RawResponse};

#[test]
fn response_is_cut_at_the_blank_line() {
    let response = RawResponse::split("HEAD\r\n\r\nBODY");
    assert_eq!(response.head(), "HEAD");
    assert_eq!(response.body(), "BODY");
}

#[test]
fn response_without_blank_line_is_all_head() {
    let response = RawResponse::split("HTTP/1.1 200 OK\r\nContent-Length: 0\r\n");
    assert_eq!(response.head(), "HTTP/1.1 200 OK\r\nContent-Length: 0\r\n");
    assert_eq!(response.body(), "");
    let response = RawResponse::split("");
    assert_eq!(response.head(), "");
    assert_eq!(response.body(), "");
}

#[test]
fn response_is_cut_at_the_first_blank_line_only() {
    let response = RawResponse::split("A: b\r\nC: d\r\n\r\none\r\n\r\ntwo");
    assert_eq!(response.head(), "A: b\r\nC: d");
    assert_eq!(response.body(), "one\r\n\r\ntwo");
}

#[test]
fn blank_line_at_either_end() {
    let response = RawResponse::split("\r\n\r\nBODY");
    assert_eq!(response.head(), "");
    assert_eq!(response.body(), "BODY");
    let response = RawResponse::split("HEAD\r\n\r\n");
    assert_eq!(response.head(), "HEAD");
    assert_eq!(response.body(), "");
    let response = RawResponse::split("H\r\n\r\n\r\nB");
    assert_eq!(response.head(), "H");
    assert_eq!(response.body(), "\r\nB");
}

#[test]
fn bare_line_feeds_are_no_blank_line() {
    let response = RawResponse::split("HEAD\n\nBODY");
    assert_eq!(response.head(), "HEAD\n\nBODY");
    assert_eq!(response.body(), "");
}

#[test]
fn multi_byte_text_is_cut_by_characters() {
    let response = RawResponse::split("Grüße: 値\r\n\r\n{\"é\":\"😀\"}");
    assert_eq!(response.head(), "Grüße: 値");
    assert_eq!(response.body(), "{\"é\":\"😀\"}");
}

#[test]
fn json_body_is_printed_with_indentation() {
    assert_eq!(render_body("{\"a\":1}"), "{\n  \"a\": 1\n}");
    assert_eq!(render_body("{\"ok\":true}"), "{\n  \"ok\": true\n}");
    assert_eq!(render_body("[1,2]"), "[\n  1,\n  2\n]");
    assert_eq!(render_body(" \"x\" "), "\"x\"");
    assert_eq!(
        render_body("{\"b\":{\"c\":null},\"a\":[]}"),
        "{\n  \"b\": {\n    \"c\": null\n  },\n  \"a\": []\n}"
    );
}

#[test]
fn printed_json_holds_the_same_document() {
    let shown = render_body("{\"a\":1,\"list\":[true,\"x\",2.5]}");
    let before: serde_json::Value =
        serde_json::from_str("{\"a\":1,\"list\":[true,\"x\",2.5]}").unwrap();
    let after: serde_json::Value = serde_json::from_str(&shown).unwrap();
    assert_eq!(before, after);
}

#[test]
fn other_body_is_shown_as_it_is() {
    assert_eq!(render_body("not json"), "not json");
    assert_eq!(render_body("  <html>\r\n</html>\n"), "  <html>\r\n</html>\n");
    assert_eq!(render_body(""), "");
    assert_eq!(render_body("{\"a\":1} trailing"), "{\"a\":1} trailing");
    assert_eq!(render_body("{a:1}"), "{a:1}");
}

#[test]
fn render_parsed_follows_the_parser() {
    let rejected = serde_json::from_str::<serde_json::Value>("not json");
    assert_eq!(render_parsed("not json", rejected), "not json");
    let rejected = serde_json::from_str::<serde_json::Value>("?");
    assert_eq!(render_parsed("shown as it is", rejected), "shown as it is");
    let read = serde_json::from_str::<serde_json::Value>("{\"a\":1}");
    assert_eq!(render_parsed("ignored", read), "{\n  \"a\": 1\n}");
}

#[test]
fn display_prefers_the_indented_form() {
    assert_eq!(display("{\"a\":1}", Some(String::from("{\n  \"a\": 1\n}"))), "{\n  \"a\": 1\n}");
    assert_eq!(display(" not json ", None), " not json ");
    assert_eq!(display("", None), "");
    assert_eq!(display("body", Some(String::new())), "");
}
