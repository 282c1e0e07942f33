//! What holds of every request that the builder assembles: which header
//! fields it carries, where its head ends, and that the announced content
//! length is the length of what follows.

use crate::decimal::{decimal_text, decimal_value, lemma_decimal_digits, lemma_decimal_round_trip};
use crate::request::{
    body_or_empty, byte_len, header_block, header_line, headers_of, host_value, request_head,
    request_line, wire_bytes, Method, RequestView,
};
use crate::response::{separator, split_at_blank_line};
use crate::text::{block, first_match, lemma_first_blank_line, line_end, line_safe};
use vstd::prelude::*;
use vstd::utf8::encode_utf8;

verus! {

/// The text of a request: the head, then the body as it is.
pub open spec fn request_text(request: RequestView, body: Option<Seq<char>>) -> Seq<char> {
    request_head(request, byte_len(body)) + body_or_empty(body)
}

/// The header fields as lines, without their line ends.
pub open spec fn field_lines(headers: Seq<(Seq<char>, Seq<char>)>) -> Seq<Seq<char>> {
    Seq::new(headers.len(), |i: int| headers[i].0 + ": "@ + headers[i].1)
}

/// The lines of the head of a request, without their line ends: the request
/// line, then the header fields.
pub open spec fn head_lines(request: RequestView, body_len: Option<nat>) -> Seq<Seq<char>> {
    seq![request.method.name() + " "@ + request.route + " HTTP/1.1"@] + field_lines(
        headers_of(request, body_len),
    )
}

/// Encoding a text piece by piece gives the encoding of the whole.
pub proof fn lemma_encode_concat(a: Seq<char>, b: Seq<char>)
    ensures
        encode_utf8(a + b) == encode_utf8(a) + encode_utf8(b),
    decreases a.len(),
{
    if a.len() == 0 {
        assert(a + b =~= b);
        assert(encode_utf8(a) + encode_utf8(b) =~= encode_utf8(b));
    } else {
        lemma_encode_concat(a.drop_first(), b);
        assert((a + b).drop_first() =~= a.drop_first() + b);
        assert((a + b)[0] == a[0]);
        assert(encode_utf8(a + b) =~= encode_utf8(a) + encode_utf8(b));
    }
}

/// The bytes of a request are the encoding of its text.
pub proof fn lemma_wire_bytes_encode_text(request: RequestView, body: Option<Seq<char>>)
    ensures
        wire_bytes(request, body) == encode_utf8(request_text(request, body)),
{
    lemma_encode_concat(request_head(request, byte_len(body)), body_or_empty(body));
}

/// A request without a body carries the fields `Host` and `Connection` and
/// no other: there is no `Content-Length` among its header fields. Its text
/// is its head, which ends with `Connection: close` and one blank line.
pub proof fn lemma_no_body_no_content_length(request: RequestView)
    ensures
        headers_of(request, None) == seq![
            ("Host"@, host_value(request)),
            ("Connection"@, "close"@),
        ],
        forall|i: int|
            0 <= i < headers_of(request, None).len() ==> (#[trigger] headers_of(request, None)[i]).0
                != "Content-Length"@,
        request_text(request, None) == request_head(request, None),
        wire_bytes(request, None) == encode_utf8(request_head(request, None)),
        (header_line("Connection"@, "close"@) + line_end()).is_suffix_of(
            request_head(request, None),
        ),
{
    reveal_strlit("Host");
    reveal_strlit("Connection");
    reveal_strlit("Content-Length");
    reveal_strlit("\r\n");
    let headers = headers_of(request, None);
    let head = request_head(request, None);
    assert(request_text(request, None) =~= head);
    assert(encode_utf8(Seq::<char>::empty()) =~= Seq::<u8>::empty());
    assert(wire_bytes(request, None) =~= encode_utf8(head));
    assert(headers.drop_last() =~= seq![("Host"@, host_value(request))]);
    assert(header_block(headers) == header_block(headers.drop_last()) + header_line(
        "Connection"@,
        "close"@,
    ));
    assert("\r\n"@ =~= line_end());
    let tail = header_line("Connection"@, "close"@) + line_end();
    assert(head =~= request_line(request) + header_block(headers.drop_last()) + tail);
    assert(head.skip(head.len() - tail.len()) =~= tail);
}

/// A request with a body announces, in the last of its header fields, the
/// number of bytes of that body in decimal notation, and the bytes that
/// follow its head are the bytes of the body and nothing else.
pub proof fn lemma_content_length_is_body_length(request: RequestView, body: Seq<char>)
    ensures
        ({
            let n = encode_utf8(body).len();
            let headers = headers_of(request, Some(n));
            let wire = wire_bytes(request, Some(body));
            &&& headers.len() == 4
            &&& headers[3] == ("Content-Length"@, decimal_text(n))
            &&& forall|i: int| 0 <= i < 3 ==> (#[trigger] headers[i]).0 != "Content-Length"@
            &&& decimal_value(decimal_text(n)) == Some(n)
            &&& wire.len() >= n
            &&& wire.skip(wire.len() - n) == encode_utf8(body)
            &&& wire.take(wire.len() - n) == encode_utf8(request_head(request, Some(n)))
        }),
{
    reveal_strlit("Host");
    reveal_strlit("Connection");
    reveal_strlit("Content-Type");
    reveal_strlit("Content-Length");
    let n = encode_utf8(body).len();
    let wire = wire_bytes(request, Some(body));
    let head = encode_utf8(request_head(request, Some(n)));
    lemma_decimal_round_trip(n);
    assert(wire == head + encode_utf8(body));
    assert(wire.skip(wire.len() - n) =~= encode_utf8(body));
    assert(wire.take(wire.len() - n) =~= head);
}

/// The header block is the block of the header fields' lines.
pub proof fn lemma_header_block_lines(headers: Seq<(Seq<char>, Seq<char>)>)
    ensures
        header_block(headers) == block(field_lines(headers)),
    decreases headers.len(),
{
    reveal_strlit("\r\n");
    assert("\r\n"@ =~= line_end());
    if headers.len() == 0 {
        assert(field_lines(headers) =~= Seq::<Seq<char>>::empty());
    } else {
        lemma_header_block_lines(headers.drop_last());
        assert(field_lines(headers).drop_last() =~= field_lines(headers.drop_last()));
        assert(field_lines(headers).last() == headers.last().0 + ": "@ + headers.last().1);
        assert(header_block(headers) =~= block(field_lines(headers)));
    }
}

/// A line in front of a block.
pub proof fn lemma_block_after_line(first: Seq<char>, lines: Seq<Seq<char>>)
    ensures
        block(seq![first] + lines) == first + line_end() + block(lines),
    decreases lines.len(),
{
    let all = seq![first] + lines;
    if lines.len() == 0 {
        assert(all.drop_last() =~= Seq::<Seq<char>>::empty());
        assert(all.last() == first);
        assert(block(all.drop_last()) =~= Seq::<char>::empty());
        assert(block(all) == block(all.drop_last()) + all.last() + line_end());
        assert(block(all) =~= first + line_end() + block(lines));
    } else {
        lemma_block_after_line(first, lines.drop_last());
        assert(all.drop_last() =~= seq![first] + lines.drop_last());
        assert(all.last() == lines.last());
        assert(block(all) =~= first + line_end() + block(lines));
    }
}

/// The head of a request is the block of its lines, followed by a blank
/// line.
pub proof fn lemma_head_is_block(request: RequestView, body_len: Option<nat>)
    ensures
        request_head(request, body_len) == block(head_lines(request, body_len)) + line_end(),
{
    reveal_strlit("\r\n");
    reveal_strlit(" HTTP/1.1");
    reveal_strlit(" HTTP/1.1\r\n");
    assert("\r\n"@ =~= line_end());
    assert(" HTTP/1.1\r\n"@ =~= " HTTP/1.1"@ + line_end());
    let first = request.method.name() + " "@ + request.route + " HTTP/1.1"@;
    let fields = field_lines(headers_of(request, body_len));
    lemma_header_block_lines(headers_of(request, body_len));
    lemma_block_after_line(first, fields);
    assert(request_line(request) =~= first + line_end());
    assert(request_head(request, body_len) =~= block(head_lines(request, body_len)) + line_end());
}

/// No line of the head of a request is empty or holds a line break, as long
/// as neither the host nor the route holds one.
pub proof fn lemma_head_lines_are_lines(request: RequestView, body_len: Option<nat>)
    requires
        line_safe(request.host),
        line_safe(request.route),
    ensures
        forall|k: int|
            0 <= k < head_lines(request, body_len).len() ==> (#[trigger] head_lines(
                request,
                body_len,
            )[k]).len() > 0 && line_safe(head_lines(request, body_len)[k]),
{
    reveal_strlit("GET");
    reveal_strlit("POST");
    reveal_strlit("PUT");
    reveal_strlit("DELETE");
    reveal_strlit(" ");
    reveal_strlit(" HTTP/1.1");
    reveal_strlit(": ");
    reveal_strlit(":");
    reveal_strlit("Host");
    reveal_strlit("Connection");
    reveal_strlit("close");
    reveal_strlit("Content-Type");
    reveal_strlit("application/json");
    reveal_strlit("Content-Length");
    let lines = head_lines(request, body_len);
    let headers = headers_of(request, body_len);
    lemma_decimal_digits(request.port as nat);
    match body_len {
        Some(n) => {
            lemma_decimal_digits(n);
        },
        None => {},
    }
    assert(line_safe(request.method.name()));
    assert(line_safe(" "@) && line_safe(" HTTP/1.1"@) && line_safe(": "@) && line_safe(":"@));
    assert(line_safe(decimal_text(request.port as nat)));
    lemma_line_safe_concat(request.host, ":"@);
    lemma_line_safe_concat(request.host + ":"@, decimal_text(request.port as nat));
    assert(line_safe(host_value(request)));
    assert forall|i: int| 0 <= i < headers.len() implies line_safe((#[trigger] headers[i]).0)
        && line_safe(headers[i].1) by {
        match body_len {
            Some(n) => {
                assert(line_safe(decimal_text(n)));
            },
            None => {},
        }
    }
    assert forall|k: int| 0 <= k < lines.len() implies (#[trigger] lines[k]).len() > 0
        && line_safe(lines[k]) by {
        if k == 0 {
            lemma_line_safe_concat(request.method.name(), " "@);
            lemma_line_safe_concat(request.method.name() + " "@, request.route);
            lemma_line_safe_concat(request.method.name() + " "@ + request.route, " HTTP/1.1"@);
        } else {
            let field = headers[k - 1];
            assert(lines[k] == field.0 + ": "@ + field.1);
            lemma_line_safe_concat(field.0, ": "@);
            lemma_line_safe_concat(field.0 + ": "@, field.1);
        }
    }
}

/// Two texts without line breaks make a text without line breaks.
pub proof fn lemma_line_safe_concat(a: Seq<char>, b: Seq<char>)
    requires
        line_safe(a),
        line_safe(b),
    ensures
        line_safe(a + b),
{
    assert forall|i: int| 0 <= i < (a + b).len() implies #[trigger] (a + b)[i] != '\r' && (a
        + b)[i] != '\n' by {
        if i < a.len() {
            assert((a + b)[i] == a[i]);
        } else {
            assert((a + b)[i] == b[i - a.len()]);
        }
    }
}

/// Cutting the text of a request at its first blank line gives back its
/// body, and as head the head without the blank line: the blank line that
/// ends the head is the first one, and there is exactly one in a request
/// without a body. This holds as long as neither the host nor the route
/// holds a line break.
pub proof fn lemma_request_splits_at_head_end(request: RequestView, body: Option<Seq<char>>)
    requires
        line_safe(request.host),
        line_safe(request.route),
    ensures
        ({
            let head = request_head(request, byte_len(body));
            &&& head.len() >= 4
            &&& first_match(request_text(request, body), separator()) == Some(head.len() - 4)
            &&& split_at_blank_line(request_text(request, body)) == (
                head.take(head.len() - 4),
                body_or_empty(body),
            )
        }),
{
    let lines = head_lines(request, byte_len(body));
    let head = request_head(request, byte_len(body));
    let text = request_text(request, body);
    lemma_head_is_block(request, byte_len(body));
    lemma_head_lines_are_lines(request, byte_len(body));
    lemma_first_blank_line(lines, body_or_empty(body));
    assert(separator() =~= line_end() + line_end());
    assert(text =~= block(lines) + line_end() + body_or_empty(body));
    assert(text.take(head.len() - 4) =~= head.take(head.len() - 4));
    assert(text.skip(head.len() - 4 + 4) =~= body_or_empty(body));
}

} // verus!
