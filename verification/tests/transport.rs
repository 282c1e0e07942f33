use neo::request::{build_request, RequestSpec, WireRequest};
use neo::transport::{decode_response, Event, Exchange, Phase, Step, TransportError};

fn request() -> WireRequest {
    let spec = RequestSpec::new("GET", "h", "80", "/", None).unwrap();
    build_request(&spec, None)
}

#[test]
fn exchange_starts_by_writing_the_whole_request() {
    let bytes = request().into_bytes();
    let exchange = Exchange::start(request());
    assert_eq!(exchange.phase(), Phase::Sending);
    assert_eq!(exchange.next_step(), Step::Write);
    assert_eq!(exchange.pending(), &bytes[..]);
}

#[test]
fn partial_writes_go_on_where_the_stream_stopped() {
    let bytes = request().into_bytes();
    let mut exchange = Exchange::start(request());
    exchange.advance(Event::Wrote(5));
    assert_eq!(exchange.next_step(), Step::Write);
    assert_eq!(exchange.pending(), &bytes[5..]);
    exchange.advance(Event::Wrote(1));
    assert_eq!(exchange.pending(), &bytes[6..]);
    exchange.advance(Event::Wrote(bytes.len() - 6));
    assert_eq!(exchange.next_step(), Step::Read);
    assert_eq!(exchange.phase(), Phase::Receiving);
    assert_eq!(exchange.pending(), &[] as &[u8]);
}

#[test]
fn response_is_read_until_the_peer_closes() {
    let mut exchange = Exchange::start(request());
    let all = exchange.pending().len();
    exchange.advance(Event::Wrote(all));
    exchange.advance(Event::Read(b"HTTP/1.1 200 OK\r\n".to_vec()));
    assert_eq!(exchange.next_step(), Step::Read);
    exchange.advance(Event::Read(b"\r\n{\"ok\"".to_vec()));
    exchange.advance(Event::Read(b":true}".to_vec()));
    assert_eq!(exchange.phase(), Phase::Receiving);
    exchange.advance(Event::Read(Vec::new()));
    assert_eq!(exchange.next_step(), Step::Finish);
    assert_eq!(exchange.phase(), Phase::Done);
    assert_eq!(
        exchange.into_outcome(),
        Some(Ok(String::from("HTTP/1.1 200 OK\r\n\r\n{\"ok\":true}")))
    );
}

#[test]
fn multi_byte_characters_may_be_split_between_reads() {
    let mut exchange = Exchange::start(request());
    let all = exchange.pending().len();
    exchange.advance(Event::Wrote(all));
    let text = "Zürich 値";
    let bytes = text.as_bytes();
    exchange.advance(Event::Read(bytes[..2].to_vec()));
    exchange.advance(Event::Read(bytes[2..9].to_vec()));
    exchange.advance(Event::Read(bytes[9..].to_vec()));
    exchange.advance(Event::Read(Vec::new()));
    assert_eq!(exchange.into_outcome(), Some(Ok(String::from(text))));
}

#[test]
fn empty_response_is_empty_text() {
    let mut exchange = Exchange::start(request());
    let all = exchange.pending().len();
    exchange.advance(Event::Wrote(all));
    exchange.advance(Event::Read(Vec::new()));
    assert_eq!(exchange.into_outcome(), Some(Ok(String::new())));
}

#[test]
fn outcome_is_none_while_the_exchange_runs() {
    let mut exchange = Exchange::start(request());
    exchange.advance(Event::Wrote(1));
    assert_eq!(exchange.into_outcome(), None);
    let exchange = Exchange::start(request());
    assert_eq!(exchange.into_outcome(), None);
}

#[test]
fn write_failure_ends_the_exchange() {
    let mut exchange = Exchange::start(request());
    exchange.advance(Event::Wrote(3));
    exchange.advance(Event::Failed(String::from("broken pipe")));
    assert_eq!(exchange.next_step(), Step::Finish);
    assert_eq!(exchange.pending(), &[] as &[u8]);
    assert_eq!(
        exchange.into_outcome(),
        Some(Err(TransportError::Write(String::from("broken pipe"))))
    );
}

#[test]
fn read_failure_drops_what_was_read() {
    let mut exchange = Exchange::start(request());
    let all = exchange.pending().len();
    exchange.advance(Event::Wrote(all));
    exchange.advance(Event::Read(b"HTTP/1.1 200".to_vec()));
    exchange.advance(Event::Failed(String::from("connection reset")));
    assert_eq!(exchange.phase(), Phase::Done);
    assert_eq!(
        exchange.into_outcome(),
        Some(Err(TransportError::Read(String::from("connection reset"))))
    );
}

#[test]
fn a_write_that_takes_nothing_is_a_failure() {
    let mut exchange = Exchange::start(request());
    exchange.advance(Event::Wrote(0));
    assert_eq!(exchange.into_outcome(), Some(Err(TransportError::WriteZero)));
}

#[test]
fn reports_out_of_turn_end_the_exchange() {
    let mut exchange = Exchange::start(request());
    let all = exchange.pending().len();
    exchange.advance(Event::Wrote(all + 1));
    assert_eq!(exchange.into_outcome(), Some(Err(TransportError::OutOfTurn)));

    let mut exchange = Exchange::start(request());
    exchange.advance(Event::Read(b"early".to_vec()));
    assert_eq!(exchange.into_outcome(), Some(Err(TransportError::OutOfTurn)));

    let mut exchange = Exchange::start(request());
    exchange.advance(Event::Wrote(all));
    exchange.advance(Event::Wrote(1));
    assert_eq!(exchange.into_outcome(), Some(Err(TransportError::OutOfTurn)));
}

#[test]
fn nothing_changes_once_the_exchange_is_over() {
    let mut exchange = Exchange::start(request());
    let all = exchange.pending().len();
    exchange.advance(Event::Wrote(all));
    exchange.advance(Event::Read(b"done".to_vec()));
    exchange.advance(Event::Read(Vec::new()));
    exchange.advance(Event::Read(b"more".to_vec()));
    exchange.advance(Event::Wrote(1));
    exchange.advance(Event::Failed(String::from("late")));
    assert_eq!(exchange.into_outcome(), Some(Ok(String::from("done"))));
}

#[test]
fn response_that_is_no_text_is_a_failure() {
    let mut exchange = Exchange::start(request());
    let all = exchange.pending().len();
    exchange.advance(Event::Wrote(all));
    exchange.advance(Event::Read(vec![b'o', b'k', 0xff]));
    exchange.advance(Event::Read(Vec::new()));
    assert_eq!(exchange.into_outcome(), Some(Err(TransportError::NotText)));
}

#[test]
fn bytes_are_decoded_as_utf8() {
    assert_eq!(decode_response(Vec::new()), Ok(String::new()));
    assert_eq!(decode_response(b"abc".to_vec()), Ok(String::from("abc")));
    assert_eq!(decode_response(vec![0xc3, 0xbc]), Ok(String::from("ü")));
    assert_eq!(decode_response(vec![0xc3]), Err(TransportError::NotText));
    assert_eq!(decode_response(vec![0xed, 0xa0, 0x80]), Err(TransportError::NotText));
    assert_eq!(decode_response(vec![0xc0, 0x80]), Err(TransportError::NotText));
    assert_eq!(decode_response(vec![0xf4, 0x90, 0x80, 0x80]), Err(TransportError::NotText));
}
