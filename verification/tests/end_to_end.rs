use neo::request::{prepare_request, RequestSpec};
use neo::response::{render_body, RawResponse};
use neo::transport::{Event, Exchange, Step};

/// A peer that takes at most `window` bytes per write and answers with
/// `reply` in pieces of at most `window` bytes.
fn run(mut exchange: Exchange, reply: &[u8], window: usize) -> (Vec<u8>, Exchange) {
    let mut taken: Vec<u8> = Vec::new();
    let mut sent = 0;
    loop {
        match exchange.next_step() {
            Step::Write => {
                let pending = exchange.pending();
                let n = pending.len().min(window);
                taken.extend_from_slice(&pending[..n]);
                exchange.advance(Event::Wrote(n));
            }
            Step::Read => {
                let n = (reply.len() - sent).min(window);
                exchange.advance(Event::Read(reply[sent..sent + n].to_vec()));
                sent += n;
            }
            Step::Finish => return (taken, exchange),
        }
    }
}

#[test]
fn post_of_a_loose_body_and_a_json_reply() {
    let request =
        RequestSpec::new("POST", "example.test", "8080", "/api/items", Some("name:widget,qty:3"))
            .unwrap();
    let wire = prepare_request(&request).unwrap();
    let body = "{\"name\":\"widget\",\"qty\":\"3\"}";
    let expected = format!(
        "POST /api/items HTTP/1.1\r\nHost: example.test:8080\r\nConnection: close\r\n\
         Content-Type: application/json\r\nContent-Length: {}\r\n\r\n{}",
        body.len(),
        body
    );
    assert_eq!(wire.as_bytes(), expected.as_bytes());
    let text = String::from_utf8(wire.as_bytes().to_vec()).unwrap();
    assert!(text.contains("POST /api/items HTTP/1.1"));
    assert!(text.contains("Content-Length: 27\r\n"));
    assert!(text.ends_with(body));

    let (taken, exchange) =
        run(Exchange::start(wire), b"HTTP/1.1 200 OK\r\n\r\n{\"ok\":true}", 7);
    assert_eq!(taken, expected.as_bytes());
    let raw = exchange.into_outcome().unwrap().unwrap();
    let response = RawResponse::split(&raw);
    assert_eq!(response.head(), "HTTP/1.1 200 OK");
    assert_eq!(response.body(), "{\"ok\":true}");
    assert_eq!(render_body(response.body()), "{\n  \"ok\": true\n}");
}

#[test]
fn get_and_a_reply_that_is_no_json() {
    let request = RequestSpec::new("GET", "example.test", "80", "/", None).unwrap();
    let wire = prepare_request(&request).unwrap();
    let (taken, exchange) = run(
        Exchange::start(wire),
        b"HTTP/1.1 404 Not Found\r\nContent-Type: text/plain\r\n\r\nnot here\n",
        1024,
    );
    assert_eq!(
        taken,
        b"GET / HTTP/1.1\r\nHost: example.test:80\r\nConnection: close\r\n\r\n".to_vec()
    );
    let raw = exchange.into_outcome().unwrap().unwrap();
    let response = RawResponse::split(&raw);
    assert_eq!(response.head(), "HTTP/1.1 404 Not Found\r\nContent-Type: text/plain");
    assert_eq!(render_body(response.body()), "not here\n");
}

#[test]
fn the_request_splits_like_a_response() {
    let request = RequestSpec::new("PUT", "h", "81", "/x", Some("a:\r\n\r\n")).unwrap();
    let wire = prepare_request(&request).unwrap();
    let text = String::from_utf8(wire.into_bytes()).unwrap();
    let parts = RawResponse::split(&text);
    assert_eq!(
        parts.head(),
        "PUT /x HTTP/1.1\r\nHost: h:81\r\nConnection: close\r\n\
         Content-Type: application/json\r\nContent-Length: 8"
    );
    assert_eq!(parts.body(), "{\"a\":\"\"}");
}
