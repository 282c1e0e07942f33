//! One request/response exchange over a byte stream, as a state machine.
//!
//! The library never touches a connection. It says what is to be done next
//! (`Step`), the caller does it and reports what happened (`Event`), and the
//! exchange moves on: first the whole request is written, partial writes
//! being continued where they stopped; then the response is read until the
//! peer closes the stream; then the bytes read are decoded as text. The
//! first failure ends the exchange, and what was read until then is dropped.

use crate::request::WireRequest;
use vstd::prelude::*;
use vstd::slice::slice_subrange;
use vstd::utf8::{decode_utf8, encode_utf8, valid_utf8};

verus! {

/// Where an exchange stands.
#[derive(Debug, Clone, Copy, PartialEq, Eq, Structural)]
pub enum Phase {
    /// Part of the request is still to be written.
    Sending,
    /// The request is out; the response is being read.
    Receiving,
    /// The exchange is over, with a response or with an error.
    Done,
}

/// What the caller is asked to do next.
#[derive(Debug, Clone, Copy, PartialEq, Eq, Structural)]
pub enum Step {
    /// Write the pending bytes, or as many of them as the stream takes.
    Write,
    /// Read the next bytes from the stream.
    Read,
    /// Nothing: take the outcome.
    Finish,
}

/// What the caller reports back.
#[derive(Debug, PartialEq, Eq)]
pub enum Event {
    /// The stream took this many of the pending bytes.
    Wrote(usize),
    /// The stream delivered these bytes; none means that the peer has
    /// closed it.
    Read(Vec<u8>),
    /// Writing or reading failed, for the given reason.
    Failed(String),
}

/// Why an exchange failed.
#[derive(Debug, PartialEq, Eq)]
pub enum TransportError {
    /// Writing the request failed, for the given reason.
    Write(String),
    /// The stream took none of the pending bytes.
    WriteZero,
    /// Reading the response failed, for the given reason.
    Read(String),
    /// The response is not UTF-8 text.
    NotText,
    /// The caller reported something that cannot follow the step that was
    /// due: bytes read while the request was being written, more bytes
    /// written than were pending, or bytes written while reading.
    OutOfTurn,
}

/// An event as a mathematical value.
pub enum EventView {
    Wrote(nat),
    Read(Seq<u8>),
    Failed(Seq<char>),
}

/// An error as a mathematical value.
pub enum ErrorView {
    Write(Seq<char>),
    WriteZero,
    Read(Seq<char>),
    NotText,
    OutOfTurn,
}

impl View for Event {
    type V = EventView;

    open spec fn view(&self) -> EventView {
        match *self {
            Event::Wrote(n) => EventView::Wrote(n as nat),
            Event::Read(bytes) => EventView::Read(bytes@),
            Event::Failed(cause) => EventView::Failed(cause@),
        }
    }
}

impl View for TransportError {
    type V = ErrorView;

    open spec fn view(&self) -> ErrorView {
        match *self {
            TransportError::Write(cause) => ErrorView::Write(cause@),
            TransportError::WriteZero => ErrorView::WriteZero,
            TransportError::Read(cause) => ErrorView::Read(cause@),
            TransportError::NotText => ErrorView::NotText,
            TransportError::OutOfTurn => ErrorView::OutOfTurn,
        }
    }
}

/// An exchange as a mathematical value: the request, how much of it has
/// been written, the bytes read so far, and the outcome once there is one.
pub struct ExchangeView {
    pub request: Seq<u8>,
    pub sent: nat,
    pub received: Seq<u8>,
    pub outcome: Option<Result<Seq<char>, ErrorView>>,
}

/// The outcome of reading `bytes` as a whole response.
pub open spec fn decoded(bytes: Seq<u8>) -> Result<Seq<char>, ErrorView> {
    if valid_utf8(bytes) {
        Ok(decode_utf8(bytes))
    } else {
        Err(ErrorView::NotText)
    }
}

impl ExchangeView {
    /// No more has been written than the request holds.
    pub open spec fn well_formed(self) -> bool {
        self.sent <= self.request.len()
    }

    /// The exchange before anything has happened.
    pub open spec fn initial(request: Seq<u8>) -> ExchangeView {
        ExchangeView { request, sent: 0, received: Seq::empty(), outcome: None }
    }

    /// Where the exchange stands.
    pub open spec fn phase(self) -> Phase {
        if self.outcome is Some {
            Phase::Done
        } else if self.sent < self.request.len() {
            Phase::Sending
        } else {
            Phase::Receiving
        }
    }

    /// The bytes of the request that are still to be written.
    pub open spec fn pending(self) -> Seq<u8> {
        if self.phase() == Phase::Sending {
            self.request.skip(self.sent as int)
        } else {
            Seq::empty()
        }
    }

    /// The exchange, ended with the given outcome; what was read is dropped.
    pub open spec fn ended(self, outcome: Result<Seq<char>, ErrorView>) -> ExchangeView {
        ExchangeView { received: Seq::empty(), outcome: Some(outcome), ..self }
    }

    /// The exchange after the caller has reported `event`.
    pub open spec fn after(self, event: EventView) -> ExchangeView {
        match self.phase() {
            Phase::Sending => match event {
                EventView::Wrote(n) => if n == 0 {
                    self.ended(Err(ErrorView::WriteZero))
                } else if n > self.request.len() - self.sent {
                    self.ended(Err(ErrorView::OutOfTurn))
                } else {
                    ExchangeView { sent: self.sent + n, ..self }
                },
                EventView::Read(_) => self.ended(Err(ErrorView::OutOfTurn)),
                EventView::Failed(cause) => self.ended(Err(ErrorView::Write(cause))),
            },
            Phase::Receiving => match event {
                EventView::Wrote(_) => self.ended(Err(ErrorView::OutOfTurn)),
                EventView::Read(bytes) => if bytes.len() == 0 {
                    self.ended(decoded(self.received))
                } else {
                    ExchangeView { received: self.received + bytes, ..self }
                },
                EventView::Failed(cause) => self.ended(Err(ErrorView::Read(cause))),
            },
            Phase::Done => self,
        }
    }

    /// The exchange after the caller has reported `events`, one by one.
    pub open spec fn after_all(self, events: Seq<EventView>) -> ExchangeView
        decreases events.len(),
    {
        if events.len() == 0 {
            self
        } else {
            self.after_all(events.drop_last()).after(events.last())
        }
    }
}

/// The reports of reading the given chunks, one after the other.
pub open spec fn reads(chunks: Seq<Seq<u8>>) -> Seq<EventView> {
    Seq::new(chunks.len(), |i: int| EventView::Read(chunks[i]))
}

/// The chunks one after the other.
pub open spec fn joined(chunks: Seq<Seq<u8>>) -> Seq<u8>
    decreases chunks.len(),
{
    if chunks.len() == 0 {
        Seq::empty()
    } else {
        joined(chunks.drop_last()) + chunks.last()
    }
}

/// An exchange never has more written than the request holds.
pub proof fn lemma_after_well_formed(state: ExchangeView, event: EventView)
    requires
        state.well_formed(),
    ensures
        ExchangeView::initial(state.request).well_formed(),
        state.after(event).well_formed(),
        state.after(event).request == state.request,
{
}

/// A write that takes only part of what is pending leaves the rest pending:
/// the exchange goes on writing where the stream stopped, and it starts to
/// read once nothing is left.
pub proof fn lemma_partial_write_continues(state: ExchangeView, n: nat)
    requires
        state.phase() == Phase::Sending,
        0 < n <= state.pending().len(),
    ensures
        state.after(EventView::Wrote(n)).pending() == state.pending().skip(n as int),
        state.after(EventView::Wrote(n)).phase() == if n == state.pending().len() {
            Phase::Receiving
        } else {
            Phase::Sending
        },
{
    let next = state.after(EventView::Wrote(n));
    assert(next.pending() =~= state.pending().skip(n as int));
}

/// What is read chunk by chunk is the response: once the peer closes the
/// stream, the outcome is the text that all the chunks together encode, or
/// `NotText` where they encode none.
pub proof fn lemma_reads_accumulate(state: ExchangeView, chunks: Seq<Seq<u8>>)
    requires
        state.phase() == Phase::Receiving,
        forall|i: int| 0 <= i < chunks.len() ==> (#[trigger] chunks[i]).len() > 0,
    ensures
        state.after_all(reads(chunks)).phase() == Phase::Receiving,
        state.after_all(reads(chunks)).received == state.received + joined(chunks),
        state.after_all(reads(chunks)).after(EventView::Read(Seq::empty())).outcome == Some(
            decoded(state.received + joined(chunks)),
        ),
    decreases chunks.len(),
{
    if chunks.len() == 0 {
        assert(state.received + joined(chunks) =~= state.received);
    } else {
        let before = chunks.drop_last();
        assert forall|i: int| 0 <= i < before.len() implies (#[trigger] before[i]).len() > 0 by {
            assert(before[i] == chunks[i]);
        }
        lemma_reads_accumulate(state, before);
        assert(reads(chunks).drop_last() =~= reads(before));
        assert(reads(chunks).last() == EventView::Read(chunks.last()));
        assert(chunks[chunks.len() - 1].len() > 0);
        assert(state.received + joined(before) + chunks.last() =~= state.received + joined(
            chunks,
        ));
    }
}

/// `String::from_utf8`: succeeds exactly on valid UTF-8, and the text it
/// returns is the one that these bytes encode.
#[verifier::external_body]
fn text_from_utf8(bytes: Vec<u8>) -> (r: Option<String>)
    ensures
        r is Some <==> valid_utf8(bytes@),
        r matches Some(text) ==> encode_utf8(text@) == bytes@,
{
    match String::from_utf8(bytes) {
        Ok(text) => Some(text),
        Err(_) => None,
    }
}

/// Reads the bytes of a whole response as text.
pub fn decode_response(bytes: Vec<u8>) -> (r: Result<String, TransportError>)
    ensures
        match r {
            Ok(text) => decoded(bytes@) == Ok::<_, ErrorView>(text@),
            Err(e) => decoded(bytes@) == Err::<Seq<char>, _>(e@),
        },
{
    match text_from_utf8(bytes) {
        Some(text) => {
            proof {
                vstd::utf8::encode_utf8_decode_utf8(text@);
            }
            Ok(text)
        },
        None => Err(TransportError::NotText),
    }
}

/// One exchange: a request on its way out and a response on its way in.
pub struct Exchange {
    request: Vec<u8>,
    sent: usize,
    received: Vec<u8>,
    outcome: Option<Result<String, TransportError>>,
}

impl View for Exchange {
    type V = ExchangeView;

    closed spec fn view(&self) -> ExchangeView {
        ExchangeView {
            request: self.request@,
            sent: self.sent as nat,
            received: self.received@,
            outcome: match self.outcome {
                Some(Ok(text)) => Some(Ok(text@)),
                Some(Err(e)) => Some(Err(e@)),
                None => None,
            },
        }
    }
}

impl Exchange {
    /// An exchange that is about to send `request`.
    pub fn start(request: WireRequest) -> (exchange: Exchange)
        ensures
            exchange@ == ExchangeView::initial(request@),
    {
        Exchange { request: request.into_bytes(), sent: 0, received: Vec::new(), outcome: None }
    }

    /// Where the exchange stands.
    pub fn phase(&self) -> (phase: Phase)
        ensures
            phase == self@.phase(),
    {
        if self.outcome.is_some() {
            Phase::Done
        } else if self.sent < self.request.len() {
            Phase::Sending
        } else {
            Phase::Receiving
        }
    }

    /// What the caller is to do next.
    pub fn next_step(&self) -> (step: Step)
        ensures
            step == match self@.phase() {
                Phase::Sending => Step::Write,
                Phase::Receiving => Step::Read,
                Phase::Done => Step::Finish,
            },
    {
        match self.phase() {
            Phase::Sending => Step::Write,
            Phase::Receiving => Step::Read,
            Phase::Done => Step::Finish,
        }
    }

    /// The bytes that are to be written next: the part of the request that
    /// the stream has not taken yet. Empty unless the step due is `Write`.
    pub fn pending(&self) -> (bytes: &[u8])
        ensures
            bytes@ == self@.pending(),
    {
        let end = self.request.len();
        match self.phase() {
            Phase::Sending => slice_subrange(self.request.as_slice(), self.sent, end),
            _ => slice_subrange(self.request.as_slice(), end, end),
        }
    }

    /// Moves the exchange on by what the caller reports.
    pub fn advance(&mut self, event: Event)
        ensures
            final(self)@ == old(self)@.after(event@),
    {
        match self.phase() {
            Phase::Sending => match event {
                Event::Wrote(n) => {
                    if n == 0 {
                        self.end(Err(TransportError::WriteZero));
                    } else if n > self.request.len() - self.sent {
                        self.end(Err(TransportError::OutOfTurn));
                    } else {
                        self.sent = self.sent + n;
                    }
                },
                Event::Read(_) => {
                    self.end(Err(TransportError::OutOfTurn));
                },
                Event::Failed(cause) => {
                    self.end(Err(TransportError::Write(cause)));
                },
            },
            Phase::Receiving => match event {
                Event::Wrote(_) => {
                    self.end(Err(TransportError::OutOfTurn));
                },
                Event::Read(bytes) => {
                    if bytes.len() == 0 {
                        let mut received: Vec<u8> = Vec::new();
                        core::mem::swap(&mut self.received, &mut received);
                        let outcome = decode_response(received);
                        self.end(outcome);
                    } else {
                        let mut bytes = bytes;
                        self.received.append(&mut bytes);
                    }
                },
                Event::Failed(cause) => {
                    self.end(Err(TransportError::Read(cause)));
                },
            },
            Phase::Done => {},
        }
    }

    /// Ends the exchange with `outcome` and drops what was read.
    fn end(&mut self, outcome: Result<String, TransportError>)
        requires
            old(self)@.outcome is None,
        ensures
            final(self)@ == old(self)@.ended(
                match outcome {
                    Ok(text) => Ok(text@),
                    Err(e) => Err(e@),
                },
            ),
    {
        self.received = Vec::new();
        self.outcome = Some(outcome);
    }

    /// The outcome of the exchange: the response as text, or the error that
    /// ended it. `None` while the exchange is not over.
    pub fn into_outcome(self) -> (outcome: Option<Result<String, TransportError>>)
        ensures
            match outcome {
                Some(Ok(text)) => self@.outcome == Some(Ok::<_, ErrorView>(text@)),
                Some(Err(e)) => self@.outcome == Some(Err::<Seq<char>, _>(e@)),
                None => self@.outcome is None,
            },
    {
        self.outcome
    }
}

} // verus!
