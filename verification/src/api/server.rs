//! The request/response cycle of one connection, as a machine that is told
//! what happened on the socket and says what to do next.

use vstd::prelude::*;
use crate::api::api_versions::{
    api_versions_response,
    api_versions_response_bytes,
    ApiVersionsResponse,
};
use crate::api::request::{KafkaRequest, KafkaRequestParseError, KafkaRequestView, ParseFailure};
use crate::serialisation::from_kafka_bytes::{ByteReader, ReadKafkaBytes};
use crate::serialisation::{
    be_bytes_u32,
    bits_of_i32,
    lemma_response_message_size,
    response_message,
    to_response_message,
    ToKafkaBytes,
};

verus! {

/// Where a connection stands between two steps. A request is parsed and
/// answered inside one step, so a connection is never seen while it does
/// either.
#[derive(Debug, Clone, Copy, PartialEq, Eq, Structural)]
pub enum ConnectionState {
    /// The bytes received so far hold no whole request: more are to be read.
    AwaitingRequest,
    /// A response was handed out and is being written.
    Writing,
    /// The connection is over.
    Closed,
}

/// What happened on the socket.
#[derive(Debug)]
pub enum ConnectionEvent {
    /// These bytes arrived.
    Received(Vec<u8>),
    /// The peer closed the stream.
    PeerClosed,
    /// The response that was handed out has been written in full.
    Written,
}

/// What to do on the socket.
#[derive(Debug)]
pub enum ConnectionAction {
    /// Read more bytes.
    Read,
    /// Write these bytes: one whole response.
    Write(Vec<u8>),
    /// Close the connection, and report the error that ended it, if one did.
    Close(Option<KafkaRequestParseError>),
}

/// An event as contracts speak of it.
pub enum EventView {
    Received(Seq<u8>),
    PeerClosed,
    Written,
}

/// An action as contracts speak of it.
pub enum ActionView {
    Read,
    Write(Seq<u8>),
    Close(Option<ParseFailure>),
}

impl View for ConnectionEvent {
    type V = EventView;

    open spec fn view(&self) -> EventView {
        match self {
            ConnectionEvent::Received(bytes) => EventView::Received(bytes@),
            ConnectionEvent::PeerClosed => EventView::PeerClosed,
            ConnectionEvent::Written => EventView::Written,
        }
    }
}

impl View for ConnectionAction {
    type V = ActionView;

    open spec fn view(&self) -> ActionView {
        match self {
            ConnectionAction::Read => ActionView::Read,
            ConnectionAction::Write(bytes) => ActionView::Write(bytes@),
            ConnectionAction::Close(Some(error)) => ActionView::Close(Some(error@)),
            ConnectionAction::Close(None) => ActionView::Close(None),
        }
    }
}

/// One connection: its state and the bytes that were received and not yet
/// parsed.
#[derive(Debug)]
pub struct Connection {
    state: ConnectionState,
    buffer: Vec<u8>,
}

/// What a connection holds.
pub struct ConnectionView {
    pub state: ConnectionState,
    pub buffer: Seq<u8>,
}

impl View for Connection {
    type V = ConnectionView;

    closed spec fn view(&self) -> ConnectionView {
        ConnectionView { state: self.state, buffer: self.buffer@ }
    }
}

/// The bytes that answer `request`: the envelope of its ApiVersions response.
pub open spec fn response_to(request: KafkaRequestView) -> Seq<u8> {
    response_message(api_versions_response_bytes(api_versions_response(request)))
}

/// What a connection that is free to serve does with the bytes it holds.
/// Where they begin with a whole request, the request leaves the buffer and
/// its response is to be written. Where they are the beginning of a request,
/// more are to be read. Where they are no request, the connection closes.
pub open spec fn serve_buffer(buffer: Seq<u8>) -> (ConnectionView, ActionView) {
    match KafkaRequest::parsed(buffer) {
        Ok((request, taken)) => (
            ConnectionView { state: ConnectionState::Writing, buffer: buffer.skip(taken as int) },
            ActionView::Write(response_to(request)),
        ),
        Err(ParseFailure::MissingData(_)) => (
            ConnectionView { state: ConnectionState::AwaitingRequest, buffer },
            ActionView::Read,
        ),
        Err(failure) => (
            ConnectionView { state: ConnectionState::Closed, buffer },
            ActionView::Close(Some(failure)),
        ),
    }
}

/// The step of a connection: its next state and what is to be done, for each
/// state and event. Bytes that arrive while a request is awaited are added
/// to the buffer, which is then served. When the peer closes the stream
/// while a request is awaited, the connection closes with the error that the
/// unfinished request gives. When a response has been written, the buffer is
/// served again. An event that the state does not wait for closes the
/// connection.
pub open spec fn step_of(connection: ConnectionView, event: EventView) -> (
    ConnectionView,
    ActionView,
) {
    let closed = ConnectionView { state: ConnectionState::Closed, buffer: connection.buffer };
    match (connection.state, event) {
        (ConnectionState::AwaitingRequest, EventView::Received(bytes)) => serve_buffer(
            connection.buffer + bytes,
        ),
        (ConnectionState::AwaitingRequest, EventView::PeerClosed) => match KafkaRequest::parsed(
            connection.buffer,
        ) {
            Err(failure) => (closed, ActionView::Close(Some(failure))),
            Ok(_) => (closed, ActionView::Close(None)),
        },
        (ConnectionState::Writing, EventView::Written) => serve_buffer(connection.buffer),
        _ => (closed, ActionView::Close(None)),
    }
}

impl Connection {
    /// While a request is awaited, the buffer holds the beginning of one and
    /// no more: the next request is not taken up before the response to the
    /// one before it was written.
    pub open spec fn wf(&self) -> bool {
        self@.state == ConnectionState::AwaitingRequest ==> KafkaRequest::parsed(self@.buffer)
            matches Err(ParseFailure::MissingData(_))
    }

    /// A connection that was just accepted: it awaits its first request, and
    /// the first thing to do is to read.
    pub fn new() -> (connection: Connection)
        ensures
            connection.wf(),
            connection@.state == ConnectionState::AwaitingRequest,
            connection@.buffer == Seq::<u8>::empty(),
    {
        Connection { state: ConnectionState::AwaitingRequest, buffer: Vec::new() }
    }

    /// Where the connection stands.
    pub fn state(&self) -> (state: ConnectionState)
        ensures
            state == self@.state,
    {
        self.state
    }

    /// Parses one request from the buffer and answers it.
    fn serve(&mut self) -> (action: ConnectionAction)
        ensures
            (final(self)@, action@) == serve_buffer(old(self)@.buffer),
    {
        let mut reader: ByteReader = ByteReader::new(self.buffer.as_slice());
        assert(reader.remaining() =~= self.buffer@);
        match KafkaRequest::try_read_from(&mut reader) {
            Ok(request) => {
                let taken: usize = reader.position();
                let response: ApiVersionsResponse = ApiVersionsResponse::process_request(&request);
                let message: Vec<u8> = to_response_message(response);
                let rest: Vec<u8> = self.buffer.split_off(taken);
                assert(rest@ =~= old(self)@.buffer.skip(taken as int));
                self.buffer = rest;
                self.state = ConnectionState::Writing;
                ConnectionAction::Write(message)
            },
            Err(KafkaRequestParseError::MissingData(_)) => {
                self.state = ConnectionState::AwaitingRequest;
                ConnectionAction::Read
            },
            Err(error) => {
                self.state = ConnectionState::Closed;
                ConnectionAction::Close(Some(error))
            },
        }
    }

    /// Takes in what happened on the socket and says what to do next.
    pub fn step(&mut self, event: ConnectionEvent) -> (action: ConnectionAction)
        ensures
            (final(self)@, action@) == step_of(old(self)@, event@),
            old(self).wf() ==> final(self).wf(),
    {
        match (self.state, event) {
            (ConnectionState::AwaitingRequest, ConnectionEvent::Received(bytes)) => {
                let mut bytes: Vec<u8> = bytes;
                self.buffer.append(&mut bytes);
                self.serve()
            },
            (ConnectionState::AwaitingRequest, ConnectionEvent::PeerClosed) => {
                let mut reader: ByteReader = ByteReader::new(self.buffer.as_slice());
                assert(reader.remaining() =~= self.buffer@);
                let outcome: Result<KafkaRequest, KafkaRequestParseError> =
                    KafkaRequest::try_read_from(&mut reader);
                self.state = ConnectionState::Closed;
                match outcome {
                    Err(error) => ConnectionAction::Close(Some(error)),
                    Ok(_) => ConnectionAction::Close(None),
                }
            },
            (ConnectionState::Writing, ConnectionEvent::Written) => self.serve(),
            _ => {
                self.state = ConnectionState::Closed;
                ConnectionAction::Close(None)
            },
        }
    }
}

/// A closed connection stays closed, and nothing more is read or written on
/// it.
pub proof fn lemma_closed_stays_closed(connection: ConnectionView, event: EventView)
    requires
        connection.state == ConnectionState::Closed,
    ensures
        step_of(connection, event).0.state == ConnectionState::Closed,
        step_of(connection, event).1 is Close,
{
}

/// A response is written only after a whole request was parsed from the
/// front of the received bytes, and it is that request's whole response.
/// When a request fails to parse for another reason than missing data, the
/// connection closes and nothing is written.
pub proof fn lemma_write_answers_request(connection: ConnectionView, event: EventView)
    ensures
        step_of(connection, event).1 matches ActionView::Write(bytes) ==> {
            let received = match event {
                EventView::Received(more) => connection.buffer + more,
                _ => connection.buffer,
            };
            &&& KafkaRequest::parsed(received) matches Ok((request, taken))
            &&& bytes == response_to(request)
            &&& step_of(connection, event).0.state == ConnectionState::Writing
            &&& step_of(connection, event).0.buffer == received.skip(taken as int)
        },
        step_of(connection, event).1 matches ActionView::Close(_) ==> step_of(
            connection,
            event,
        ).0.state == ConnectionState::Closed,
{
}

/// How the bytes of a request are cut into deliveries does not matter: where
/// a delivery leaves the connection waiting for more, the delivery after it
/// is served as if both had come as one.
pub proof fn lemma_deliveries_join(connection: ConnectionView, first: Seq<u8>, second: Seq<u8>)
    requires
        connection.state == ConnectionState::AwaitingRequest,
        step_of(connection, EventView::Received(first)).1 is Read,
    ensures
        step_of(step_of(connection, EventView::Received(first)).0, EventView::Received(second))
            == step_of(connection, EventView::Received(first + second)),
{
    assert((connection.buffer + first) + second =~= connection.buffer + (first + second));
}

/// A response is an envelope around a payload that begins with the
/// correlation id of the request: behind the four bytes of the size, which
/// hold the length of all that follows them, the next four bytes are the
/// request's correlation id.
pub proof fn lemma_response_echoes_correlation_id(request: KafkaRequestView)
    ensures
        response_to(request).len() >= 8,
        response_to(request).subrange(4, 8) == be_bytes_u32(bits_of_i32(request.correlation_id)),
        response_to(request).len() - 4 <= i32::MAX ==> i32::decoded(response_to(request)) == Ok::<
            (i32, nat),
            ParseFailure,
        >(((response_to(request).len() - 4) as i32, 4)),
{
    let payload = api_versions_response_bytes(api_versions_response(request));
    lemma_response_message_size(payload);
    assert(payload.subrange(0, 4) =~= request.correlation_id.kafka_bytes());
    assert(response_to(request).subrange(4, 8) =~= payload.subrange(0, 4));
}

} // verus!
