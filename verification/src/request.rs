//! The request side: what the user asks for (`RequestSpec`), and the exact
//! bytes that go on the wire for it (`WireRequest`).

use crate::decimal::{decimal_text, decimal_value, parse_decimal, push_decimal};
use crate::normalize::{body_text, parse_loose_json, ParseError};
use crate::text::chars_of;
use vstd::prelude::*;
use vstd::string::{StrSliceExecFns, StringExecFns};
use vstd::utf8::encode_utf8;

verus! {

/// The request methods that the client sends.
#[derive(Debug, Clone, Copy, PartialEq, Eq, Structural)]
pub enum Method {
    Get,
    Post,
    Put,
    Delete,
}

/// Why the user's arguments do not describe a request.
#[derive(Debug, Clone, Copy, PartialEq, Eq, Structural)]
pub enum RequestError {
    /// No host was given.
    MissingHost,
    /// The port is no decimal number from 1 to 65535.
    InvalidPort,
    /// The route does not start with `/`.
    InvalidRoute,
    /// The method is none of those the client sends.
    UnsupportedMethod,
}

/// The method with the given name, in upper case as it goes on the wire.
pub open spec fn method_named(name: Seq<char>) -> Option<Method> {
    if name == "GET"@ {
        Some(Method::Get)
    } else if name == "POST"@ {
        Some(Method::Post)
    } else if name == "PUT"@ {
        Some(Method::Put)
    } else if name == "DELETE"@ {
        Some(Method::Delete)
    } else {
        None
    }
}

/// The port that a text denotes: a decimal number from 1 to 65535.
pub open spec fn port_of(text: Seq<char>) -> Option<u16> {
    match decimal_value(text) {
        Some(v) => if 1 <= v <= 65535 {
            Some(v as u16)
        } else {
            None
        },
        None => None,
    }
}

/// A request as a mathematical value.
pub struct RequestView {
    pub method: Method,
    pub host: Seq<char>,
    pub port: u16,
    pub route: Seq<char>,
    pub raw_body: Option<Seq<char>>,
}

impl RequestView {
    /// The host is named, the port is not zero and the route starts with `/`.
    pub open spec fn well_formed(self) -> bool {
        &&& self.host.len() > 0
        &&& self.port >= 1
        &&& self.route.len() > 0
        &&& self.route[0] == '/'
    }
}

/// The request that the given arguments describe, or the first reason why
/// they describe none: host, port, route and method are checked in this
/// order.
pub open spec fn checked_request(
    method: Seq<char>,
    host: Seq<char>,
    port: Seq<char>,
    route: Seq<char>,
    raw_body: Option<Seq<char>>,
) -> Result<RequestView, RequestError> {
    if host.len() == 0 {
        Err(RequestError::MissingHost)
    } else if port_of(port) is None {
        Err(RequestError::InvalidPort)
    } else if route.len() == 0 || route[0] != '/' {
        Err(RequestError::InvalidRoute)
    } else if method_named(method) is None {
        Err(RequestError::UnsupportedMethod)
    } else {
        Ok(
            RequestView {
                method: method_named(method).unwrap(),
                host,
                port: port_of(port).unwrap(),
                route,
                raw_body,
            },
        )
    }
}

/// One header field as a line of the request.
pub open spec fn header_line(name: Seq<char>, value: Seq<char>) -> Seq<char> {
    name + ": "@ + value + "\r\n"@
}

/// The header fields, one line each, in order.
pub open spec fn header_block(headers: Seq<(Seq<char>, Seq<char>)>) -> Seq<char>
    decreases headers.len(),
{
    if headers.len() == 0 {
        Seq::empty()
    } else {
        header_block(headers.drop_last()) + header_line(headers.last().0, headers.last().1)
    }
}

/// What the `Host` field says: the host and, always, the port.
pub open spec fn host_value(request: RequestView) -> Seq<char> {
    request.host + ":"@ + decimal_text(request.port as nat)
}

/// The header fields of a request, by name and value. `Host` and
/// `Connection` are always there; a body of `n` bytes adds `Content-Type`
/// and `Content-Length`, in this order.
pub open spec fn headers_of(request: RequestView, body_len: Option<nat>) -> Seq<
    (Seq<char>, Seq<char>),
> {
    let always = seq![("Host"@, host_value(request)), ("Connection"@, "close"@)];
    match body_len {
        Some(n) => always + seq![
            ("Content-Type"@, "application/json"@),
            ("Content-Length"@, decimal_text(n)),
        ],
        None => always,
    }
}

/// The first line of a request.
pub open spec fn request_line(request: RequestView) -> Seq<char> {
    request.method.name() + " "@ + request.route + " HTTP/1.1\r\n"@
}

/// Everything up to and including the blank line that ends the header.
pub open spec fn request_head(request: RequestView, body_len: Option<nat>) -> Seq<char> {
    request_line(request) + header_block(headers_of(request, body_len)) + "\r\n"@
}

/// The number of bytes that a body occupies on the wire.
pub open spec fn byte_len(body: Option<Seq<char>>) -> Option<nat> {
    match body {
        Some(text) => Some(encode_utf8(text).len()),
        None => None,
    }
}

/// The body as it follows the header: nothing where there is none.
pub open spec fn body_or_empty(body: Option<Seq<char>>) -> Seq<char> {
    match body {
        Some(text) => text,
        None => Seq::empty(),
    }
}

/// The bytes of a request: the head, then the body as it is.
pub open spec fn wire_bytes(request: RequestView, body: Option<Seq<char>>) -> Seq<u8> {
    encode_utf8(request_head(request, byte_len(body))) + encode_utf8(body_or_empty(body))
}

/// What is sent for a request: its raw body, if it has one, is normalised
/// first, and nothing is sent where that fails.
pub open spec fn prepared(request: RequestView) -> Result<Seq<u8>, ParseError> {
    match request.raw_body {
        Some(raw) => match body_text(raw) {
            Ok(body) => Ok(wire_bytes(request, Some(body))),
            Err(e) => Err(e),
        },
        None => Ok(wire_bytes(request, None)),
    }
}

impl Method {
    /// The method's name as it goes on the wire.
    pub open spec fn name(self) -> Seq<char> {
        match self {
            Method::Get => "GET"@,
            Method::Post => "POST"@,
            Method::Put => "PUT"@,
            Method::Delete => "DELETE"@,
        }
    }

    /// The method's name as it goes on the wire.
    pub fn as_str(&self) -> (text: &'static str)
        ensures
            text@ == self.name(),
    {
        match self {
            Method::Get => "GET",
            Method::Post => "POST",
            Method::Put => "PUT",
            Method::Delete => "DELETE",
        }
    }

    /// Reads a method name. Names are matched exactly: `get` is no method.
    pub fn parse(name: &str) -> (r: Option<Method>)
        ensures
            r == method_named(name@),
    {
        if same_text(name, "GET") {
            Some(Method::Get)
        } else if same_text(name, "POST") {
            Some(Method::Post)
        } else if same_text(name, "PUT") {
            Some(Method::Put)
        } else if same_text(name, "DELETE") {
            Some(Method::Delete)
        } else {
            None
        }
    }
}

/// Decides whether two texts hold the same characters.
pub fn same_text(a: &str, b: &str) -> (r: bool)
    ensures
        r == (a@ == b@),
{
    let left = chars_of(a);
    let right = chars_of(b);
    if left.len() != right.len() {
        return false;
    }
    let mut i: usize = 0;
    while i < left.len()
        invariant
            0 <= i <= left.len(),
            left.len() == right.len(),
            left@ == a@,
            right@ == b@,
            forall|j: int| 0 <= j < i ==> left@[j] == right@[j],
        decreases left.len() - i,
    {
        if left[i] != right[i] {
            return false;
        }
        i += 1;
    }
    assert(left@ =~= right@);
    true
}

/// Reads a port number: decimal digits that denote a number from 1 to 65535.
pub fn parse_port(text: &str) -> (r: Option<u16>)
    ensures
        r == port_of(text@),
{
    let chars = chars_of(text);
    match parse_decimal(&chars, 65535) {
        Some(v) => if v >= 1 {
            Some(v as u16)
        } else {
            None
        },
        None => None,
    }
}

/// A request to send: method, host, port, route and, optionally, the raw
/// text of a body. A value of this type is well formed and does not change.
pub struct RequestSpec {
    method: Method,
    host: String,
    port: u16,
    route: String,
    raw_body: Option<String>,
}

impl View for RequestSpec {
    type V = RequestView;

    closed spec fn view(&self) -> RequestView {
        RequestView {
            method: self.method,
            host: self.host@,
            port: self.port,
            route: self.route@,
            raw_body: match self.raw_body {
                Some(text) => Some(text@),
                None => None,
            },
        }
    }
}

impl RequestSpec {
    #[verifier::type_invariant]
    spec fn is_valid(self) -> bool {
        self@.well_formed()
    }

    /// Checks the user's arguments and makes the request that they describe.
    pub fn new(method: &str, host: &str, port: &str, route: &str, raw_body: Option<&str>) -> (r:
        Result<RequestSpec, RequestError>)
        ensures
            match r {
                Ok(request) => checked_request(
                    method@,
                    host@,
                    port@,
                    route@,
                    match raw_body {
                        Some(text) => Some(text@),
                        None => None,
                    },
                ) == Ok::<_, RequestError>(request@) && request@.well_formed(),
                Err(e) => checked_request(
                    method@,
                    host@,
                    port@,
                    route@,
                    match raw_body {
                        Some(text) => Some(text@),
                        None => None,
                    },
                ) == Err::<RequestView, _>(e),
            },
    {
        if host.is_empty() {
            return Err(RequestError::MissingHost);
        }
        let port = match parse_port(port) {
            Some(port) => port,
            None => {
                return Err(RequestError::InvalidPort);
            },
        };
        if route.is_empty() || route.get_char(0) != '/' {
            return Err(RequestError::InvalidRoute);
        }
        let method = match Method::parse(method) {
            Some(method) => method,
            None => {
                return Err(RequestError::UnsupportedMethod);
            },
        };
        let raw_body = match raw_body {
            Some(text) => Some(text.to_owned()),
            None => None,
        };
        Ok(RequestSpec { method, host: host.to_owned(), port, route: route.to_owned(), raw_body })
    }

    /// The request method.
    pub fn method(&self) -> (m: Method)
        ensures
            m == self@.method,
    {
        self.method
    }

    /// The host to connect to; never empty.
    pub fn host(&self) -> (text: &str)
        ensures
            text@ == self@.host,
            text@.len() > 0,
    {
        proof {
            use_type_invariant(self);
        }
        self.host.as_str()
    }

    /// The port to connect to; never zero.
    pub fn port(&self) -> (p: u16)
        ensures
            p == self@.port,
            p >= 1,
    {
        proof {
            use_type_invariant(self);
        }
        self.port
    }

    /// The route to ask for; starts with `/`.
    pub fn route(&self) -> (text: &str)
        ensures
            text@ == self@.route,
            text@.len() > 0 && text@[0] == '/',
    {
        proof {
            use_type_invariant(self);
        }
        self.route.as_str()
    }

    /// The raw text of the body, if the request has one.
    pub fn raw_body(&self) -> (body: Option<&str>)
        ensures
            match body {
                Some(text) => self@.raw_body == Some(text@),
                None => self@.raw_body is None,
            },
    {
        match &self.raw_body {
            Some(text) => Some(text.as_str()),
            None => None,
        }
    }
}

/// The exact bytes of one request, ready to be written to a connection.
///
/// A value of this type is what the builder assembled for some request and
/// body: in particular, a content length that it announces is the length of
/// the body that follows.
pub struct WireRequest {
    bytes: Vec<u8>,
    built_for: Ghost<RequestView>,
    built_with: Ghost<Option<Seq<char>>>,
}

impl View for WireRequest {
    type V = Seq<u8>;

    closed spec fn view(&self) -> Seq<u8> {
        self.bytes@
    }
}

impl WireRequest {
    #[verifier::type_invariant]
    spec fn is_valid(self) -> bool {
        self.bytes@ == wire_bytes(self.built_for@, self.built_with@)
    }

    /// The request that these bytes were assembled for.
    pub closed spec fn request(&self) -> RequestView {
        self.built_for@
    }

    /// The body that these bytes were assembled with.
    pub closed spec fn body(&self) -> Option<Seq<char>> {
        self.built_with@
    }

    /// The bytes to send.
    pub fn as_bytes(&self) -> (bytes: &[u8])
        ensures
            bytes@ == self@,
            bytes@ == wire_bytes(self.request(), self.body()),
    {
        proof {
            use_type_invariant(self);
        }
        self.bytes.as_slice()
    }

    /// The bytes to send, by value.
    pub fn into_bytes(self) -> (bytes: Vec<u8>)
        ensures
            bytes@ == self@,
            bytes@ == wire_bytes(self.request(), self.body()),
    {
        proof {
            use_type_invariant(&self);
        }
        self.bytes
    }
}

/// A further header field adds its line at the end of the block.
pub proof fn lemma_header_block_push(
    headers: Seq<(Seq<char>, Seq<char>)>,
    name: Seq<char>,
    value: Seq<char>,
)
    ensures
        header_block(headers.push((name, value))) == header_block(headers) + header_line(
            name,
            value,
        ),
{
    assert(headers.push((name, value)).drop_last() =~= headers);
}

/// Appends one header field to `out`.
fn push_header(out: &mut String, name: &str, value: &str)
    ensures
        final(out)@ == old(out)@ + header_line(name@, value@),
{
    out.append(name);
    out.append(": ");
    out.append(value);
    out.append("\r\n");
    assert(out@ =~= old(out)@ + header_line(name@, value@));
}

/// Assembles the request for `request` with the given body text, which is
/// sent as it is.
///
/// The request line is followed by `Host` (with the port), by
/// `Connection: close` and, where there is a body, by `Content-Type` and by
/// `Content-Length` with the body's length in bytes; then come the blank
/// line and the body.
pub fn build_request(request: &RequestSpec, body: Option<&str>) -> (wire: WireRequest)
    ensures
        wire.request() == request@,
        wire.body() == match body {
            Some(text) => Some(text@),
            None => None,
        },
        wire@ == wire_bytes(wire.request(), wire.body()),
{
    let ghost model = request@;
    let ghost sent_body = match body {
        Some(text) => Some(text@),
        None => None,
    };
    let ghost body_len = byte_len(sent_body);
    let mut head = String::new();
    head.append(request.method.as_str());
    head.append(" ");
    head.append(request.route.as_str());
    head.append(" HTTP/1.1\r\n");
    assert(head@ =~= request_line(model));

    let mut host = String::new();
    host.append(request.host.as_str());
    host.append(":");
    push_decimal(&mut host, request.port as usize);
    assert(host@ =~= host_value(model));
    let ghost none = Seq::<(Seq<char>, Seq<char>)>::empty();
    let ghost hosted = none.push(("Host"@, host_value(model)));
    let ghost always = hosted.push(("Connection"@, "close"@));
    push_header(&mut head, "Host", host.as_str());
    proof {
        lemma_header_block_push(none, "Host"@, host_value(model));
        assert(head@ =~= request_line(model) + header_block(hosted));
    }
    push_header(&mut head, "Connection", "close");
    proof {
        lemma_header_block_push(hosted, "Connection"@, "close"@);
        assert(head@ =~= request_line(model) + header_block(always));
        assert(always =~= headers_of(model, None));
    }
    match body {
        Some(text) => {
            let length = text.as_bytes().len();
            let mut digits = String::new();
            push_decimal(&mut digits, length);
            assert(digits@ =~= decimal_text(length as nat));
            let ghost typed = always.push(("Content-Type"@, "application/json"@));
            let ghost all = typed.push(("Content-Length"@, decimal_text(length as nat)));
            push_header(&mut head, "Content-Type", "application/json");
            proof {
                lemma_header_block_push(always, "Content-Type"@, "application/json"@);
                assert(head@ =~= request_line(model) + header_block(typed));
            }
            push_header(&mut head, "Content-Length", digits.as_str());
            proof {
                lemma_header_block_push(typed, "Content-Length"@, decimal_text(length as nat));
                assert(head@ =~= request_line(model) + header_block(all));
                assert(all =~= headers_of(model, body_len));
            }
        },
        None => {},
    }
    head.append("\r\n");
    assert(head@ =~= request_head(model, body_len));
    let mut bytes = head.as_str().as_bytes_vec();
    match body {
        Some(text) => {
            let payload = text.as_bytes();
            let mut i: usize = 0;
            while i < payload.len()
                invariant
                    0 <= i <= payload.len(),
                    bytes@ == encode_utf8(head@) + payload@.take(i as int),
                decreases payload.len() - i,
            {
                bytes.push(payload[i]);
                assert(payload@.take(i + 1) =~= payload@.take(i as int).push(payload@[i as int]));
                i += 1;
            }
            assert(payload@.take(i as int) =~= payload@);
        },
        None => {
            assert(encode_utf8(Seq::<char>::empty()) =~= Seq::<u8>::empty());
            assert(bytes@ =~= encode_utf8(head@) + Seq::<u8>::empty());
        },
    }
    WireRequest { bytes, built_for: Ghost(model), built_with: Ghost(sent_body) }
}

/// Normalises the raw body of `request`, if it has one, and assembles the
/// request around the result.
///
/// Fails, with the normaliser's error, exactly when the raw body cannot be
/// normalised; nothing is to be sent then.
pub fn prepare_request(request: &RequestSpec) -> (r: Result<WireRequest, ParseError>)
    ensures
        match r {
            Ok(wire) => prepared(request@) == Ok::<_, ParseError>(wire@),
            Err(e) => prepared(request@) == Err::<Seq<u8>, _>(e),
        },
{
    match &request.raw_body {
        Some(raw) => match parse_loose_json(raw.as_str()) {
            Ok(body) => Ok(build_request(request, Some(body.as_str()))),
            Err(e) => Err(e),
        },
        None => Ok(build_request(request, None)),
    }
}

} // verus!
