//! What a native connection does next.
//!
//! A [`ConnectionActor`] takes the commands for a connection one after the other. It writes
//! and reads nothing itself: each call gives the [`Action`] that is to be performed, and
//! what came of it is handed back as an [`Event`], until the command is finished. With each
//! event it is told whether the caller has lost interest, so that a query can be cancelled
//! without giving the connection up.
use vstd::prelude::*;

use crate::duration::Duration;
use crate::error::Error;
use crate::settings::{self, copy_pairs, merge_settings};

verus! {

/// What the connection is in the middle of between two commands.
#[derive(Debug, Clone, Copy, PartialEq, Eq, Structural)]
pub enum ActorState {
    /// Nothing: all commands but those that continue an insert are accepted.
    Idle,
    /// An insert: only the commands that continue or finish it are accepted.
    InsertActive,
}

/// A command for a connection.
#[derive(Debug)]
pub enum ConnectionCmd {
    /// Asks the server whether it is there.
    Ping,
    /// Runs a query whose rows nobody wants.
    ExecuteQuery { query_id: String, query: String, extra_settings: Vec<(String, String)> },
    /// Starts an insert; its reply is the columns that the server declares.
    BeginInsert { query: String },
    /// Sends one block of an insert.
    SendInsertBlock { column_bytes: Vec<u8>, num_columns: usize, num_rows: usize },
    /// Ends an insert.
    FinishInsert,
    /// Runs a query whose packets are handed to the caller as they come.
    ExecuteStream { query_id: String, query: String, extra_settings: Vec<(String, String)> },
}

/// What there is to know of a packet from the server.
#[derive(Debug)]
pub enum ServerPacket {
    /// A block of data, by the names and type names of its columns.
    Data(Vec<(String, String)>),
    Pong,
    EndOfStream,
    /// An exception, by its text.
    Exception(String),
    /// Progress, profile information, logs and the like.
    Other,
}

/// What came of waiting for the next packet.
#[derive(Debug)]
pub enum Received {
    Packet(ServerPacket),
    Failed(Error),
    /// The reader has exited.
    Closed,
}

/// What came of looking whether a packet has arrived.
#[derive(Debug)]
pub enum Polled {
    Packet(ServerPacket),
    Failed(Error),
    /// None has arrived.
    Empty,
    /// The reader has exited.
    Closed,
}

/// What came of an action.
#[derive(Debug)]
pub enum Event {
    /// Of a write.
    Written(std::result::Result<(), Error>),
    /// Of waiting for a packet.
    Received(Received),
    /// Of looking for a packet.
    Polled(Polled),
    /// Of handing a packet to the caller: whether the caller took it.
    Delivered(bool),
}

/// Why a command failed.
#[derive(Debug)]
pub enum ActorError {
    /// The server reported an exception.
    Server(String),
    /// The connection could not be written to or read from.
    Io(Error),
    /// The reader has exited.
    ReaderExited,
    /// The reader has exited during an insert.
    ReaderExitedMidInsert,
    /// The command does not fit what the connection is in the middle of.
    Busy(ActorState),
}

/// What a caller is told.
#[derive(Debug)]
pub enum Reply {
    Done(std::result::Result<(), ActorError>),
    Headers(std::result::Result<Vec<(String, String)>, ActorError>),
    /// The last that goes into a stream of packets.
    StreamError(ActorError),
}

/// What is to be done next.
#[derive(Debug)]
pub enum Action {
    SendPing,
    /// Send the query and an empty block behind it.
    SendQuery { query_id: String, query: String, settings: Vec<(String, String)> },
    SendCancel,
    SendDataBlock { column_bytes: Vec<u8>, num_columns: usize, num_rows: usize },
    SendEmptyBlock,
    /// Wait for the next packet.
    Receive,
    /// Look whether a packet has arrived.
    Poll,
    /// Hand the packet that was received to the caller.
    Forward,
    /// The command is finished; tell the caller, if there is something to tell.
    Finish(Option<Reply>),
}

/// How far the command in progress has come.
#[derive(Debug)]
pub enum Op {
    /// No command is in progress.
    Resting,
    PingSent { keepalive: bool },
    PingWaiting { keepalive: bool },
    QuerySent,
    QueryWaiting { cancelled: bool },
    QueryCancelling,
    BeginSent,
    BeginWaiting,
    BlockPolling { column_bytes: Vec<u8>, num_columns: usize, num_rows: usize },
    BlockDraining { exception: String },
    BlockSent,
    FinishSent,
    FinishWaiting,
    StreamSent,
    StreamWaiting { cancelled: bool },
    StreamForwarding { terminal: bool },
    StreamCancelling { terminal: bool },
}

/// The commands that are accepted in a state.
pub open spec fn accepts(state: ActorState, cmd: ConnectionCmd) -> bool {
    match cmd {
        ConnectionCmd::SendInsertBlock { .. } => state == ActorState::InsertActive,
        ConnectionCmd::FinishInsert => state == ActorState::InsertActive,
        _ => state == ActorState::Idle,
    }
}

/// The reply to a command that is not accepted.
pub open spec fn rejection(state: ActorState, cmd: ConnectionCmd) -> Reply {
    match cmd {
        ConnectionCmd::BeginInsert { .. } => Reply::Headers(Err(ActorError::Busy(state))),
        ConnectionCmd::ExecuteStream { .. } => Reply::StreamError(ActorError::Busy(state)),
        _ => Reply::Done(Err(ActorError::Busy(state))),
    }
}

/// The events that an action can have in a step of a command.
pub open spec fn expected(op: Op, event: Event) -> bool {
    match op {
        Op::Resting => false,
        Op::PingSent { .. }
        | Op::QuerySent
        | Op::QueryCancelling
        | Op::BeginSent
        | Op::BlockSent
        | Op::FinishSent
        | Op::StreamSent
        | Op::StreamCancelling { .. } => event is Written,
        Op::PingWaiting { .. }
        | Op::QueryWaiting { .. }
        | Op::BeginWaiting
        | Op::BlockDraining { .. }
        | Op::FinishWaiting
        | Op::StreamWaiting { .. } => event is Received,
        Op::BlockPolling { .. } => event is Polled,
        Op::StreamForwarding { .. } => event is Delivered,
    }
}

/// What a step leads to: how far the command has come, the state, whether the connection
/// is to be given up, and what is to be done.
#[derive(Debug)]
pub struct Step {
    pub op: Op,
    pub state: ActorState,
    pub poison: bool,
    pub action: Action,
}

/// A step that goes on with the command.
pub open spec fn goes_on(op: Op, state: ActorState, action: Action) -> Step {
    Step { op, state, poison: false, action }
}

/// A step that finishes the command.
pub open spec fn finished(state: ActorState, poison: bool, reply: Option<Reply>) -> Step {
    Step { op: Op::Resting, state, poison, action: Action::Finish(reply) }
}

/// The reply to a ping: none where it only kept the connection alive.
pub open spec fn ping_reply(
    keepalive: bool,
    result: std::result::Result<(), ActorError>,
) -> Option<Reply> {
    if keepalive {
        None
    } else {
        Some(Reply::Done(result))
    }
}

/// The error for a packet that could not be received.
pub open spec fn receive_error(r: Received) -> ActorError {
    match r {
        Received::Failed(e) => ActorError::Io(e),
        _ => ActorError::ReaderExited,
    }
}

/// An error that counts as an answer of the server.
pub open spec fn is_bad_response(e: ActorError) -> bool {
    match e {
        ActorError::Server(_) => true,
        ActorError::Io(e) => e is BadResponse,
        _ => false,
    }
}

/// Waiting for the next packet of a query, unless the caller has just lost interest.
pub open spec fn query_continues(state: ActorState, cancelled: bool, gone: bool) -> Step {
    if !cancelled && gone {
        goes_on(Op::QueryCancelling, state, Action::SendCancel)
    } else {
        goes_on(Op::QueryWaiting { cancelled }, state, Action::Receive)
    }
}

/// Waiting for the next packet of a stream, unless the caller has just lost interest.
pub open spec fn stream_continues(state: ActorState, cancelled: bool, gone: bool) -> Step {
    if !cancelled && gone {
        goes_on(Op::StreamCancelling { terminal: false }, state, Action::SendCancel)
    } else {
        goes_on(Op::StreamWaiting { cancelled }, state, Action::Receive)
    }
}

/// The end of a block that failed: an answer of the server ends the insert, anything else
/// the connection.
pub open spec fn block_failed(state: ActorState, e: ActorError) -> Step {
    if is_bad_response(e) {
        finished(ActorState::Idle, false, Some(Reply::Done(Err(e))))
    } else {
        finished(state, true, Some(Reply::Done(Err(e))))
    }
}

/// The step that follows an event.
pub open spec fn next_step(op: Op, state: ActorState, event: Event, gone: bool) -> Step {
    match (op, event) {
        (Op::PingSent { keepalive }, Event::Written(Ok(_))) => goes_on(
            Op::PingWaiting { keepalive },
            state,
            Action::Receive,
        ),
        (Op::PingSent { keepalive }, Event::Written(Err(e))) => finished(
            state,
            true,
            ping_reply(keepalive, Err(ActorError::Io(e))),
        ),
        (Op::PingWaiting { keepalive }, Event::Received(r)) => match r {
            Received::Packet(ServerPacket::Pong) => finished(
                state,
                false,
                ping_reply(keepalive, Ok(())),
            ),
            Received::Packet(ServerPacket::Exception(s)) => finished(
                state,
                true,
                ping_reply(keepalive, Err(ActorError::Server(s))),
            ),
            Received::Packet(_) => goes_on(Op::PingWaiting { keepalive }, state, Action::Receive),
            r => finished(state, true, ping_reply(keepalive, Err(receive_error(r)))),
        },
        (Op::QuerySent, Event::Written(Ok(_))) => query_continues(state, false, gone),
        (Op::QuerySent, Event::Written(Err(e))) => finished(state, true, None),
        (Op::QueryCancelling, Event::Written(Ok(_))) => query_continues(state, true, gone),
        (Op::QueryCancelling, Event::Written(Err(e))) => finished(state, true, None),
        (Op::QueryWaiting { cancelled }, Event::Received(r)) => match r {
            Received::Packet(ServerPacket::EndOfStream) => finished(
                state,
                false,
                if cancelled {
                    None
                } else {
                    Some(Reply::Done(Ok(())))
                },
            ),
            Received::Packet(ServerPacket::Exception(s)) => finished(
                state,
                false,
                if cancelled {
                    None
                } else {
                    Some(Reply::Done(Err(ActorError::Server(s))))
                },
            ),
            Received::Packet(_) => query_continues(state, cancelled, gone),
            _ => finished(state, true, None),
        },
        (Op::BeginSent, Event::Written(Ok(_))) => goes_on(Op::BeginWaiting, state, Action::Receive),
        (Op::BeginSent, Event::Written(Err(e))) => finished(
            state,
            true,
            Some(Reply::Headers(Err(ActorError::Io(e)))),
        ),
        (Op::BeginWaiting, Event::Received(r)) => match r {
            Received::Packet(ServerPacket::Data(headers)) => finished(
                ActorState::InsertActive,
                false,
                Some(Reply::Headers(Ok(headers))),
            ),
            Received::Packet(ServerPacket::Exception(s)) => finished(
                state,
                true,
                Some(Reply::Headers(Err(ActorError::Server(s)))),
            ),
            Received::Packet(_) => goes_on(Op::BeginWaiting, state, Action::Receive),
            r => finished(state, true, Some(Reply::Headers(Err(receive_error(r))))),
        },
        (Op::BlockPolling { column_bytes, num_columns, num_rows }, Event::Polled(p)) => match p {
            Polled::Packet(ServerPacket::Exception(s)) => goes_on(
                Op::BlockDraining { exception: s },
                state,
                Action::Receive,
            ),
            Polled::Packet(_) => goes_on(
                Op::BlockPolling { column_bytes, num_columns, num_rows },
                state,
                Action::Poll,
            ),
            Polled::Failed(e) => block_failed(state, ActorError::Io(e)),
            Polled::Empty => goes_on(
                Op::BlockSent,
                state,
                Action::SendDataBlock { column_bytes, num_columns, num_rows },
            ),
            Polled::Closed => block_failed(state, ActorError::ReaderExitedMidInsert),
        },
        (Op::BlockDraining { exception }, Event::Received(r)) => match r {
            Received::Packet(ServerPacket::EndOfStream) => block_failed(
                state,
                ActorError::Server(exception),
            ),
            Received::Packet(_) => goes_on(
                Op::BlockDraining { exception },
                state,
                Action::Receive,
            ),
            _ => block_failed(state, ActorError::Server(exception)),
        },
        (Op::BlockSent, Event::Written(Ok(_))) => finished(
            state,
            false,
            Some(Reply::Done(Ok(()))),
        ),
        (Op::BlockSent, Event::Written(Err(e))) => block_failed(state, ActorError::Io(e)),
        (Op::FinishSent, Event::Written(Ok(_))) => goes_on(
            Op::FinishWaiting,
            state,
            Action::Receive,
        ),
        (Op::FinishSent, Event::Written(Err(e))) => finished(
            ActorState::Idle,
            true,
            Some(Reply::Done(Err(ActorError::Io(e)))),
        ),
        (Op::FinishWaiting, Event::Received(r)) => match r {
            Received::Packet(ServerPacket::EndOfStream) => finished(
                ActorState::Idle,
                false,
                Some(Reply::Done(Ok(()))),
            ),
            Received::Packet(ServerPacket::Exception(s)) => finished(
                ActorState::Idle,
                true,
                Some(Reply::Done(Err(ActorError::Server(s)))),
            ),
            Received::Packet(_) => goes_on(Op::FinishWaiting, state, Action::Receive),
            r => finished(
                ActorState::Idle,
                true,
                Some(Reply::Done(Err(receive_error(r)))),
            ),
        },
        (Op::StreamSent, Event::Written(Ok(_))) => stream_continues(state, false, gone),
        (Op::StreamSent, Event::Written(Err(e))) => finished(state, true, None),
        (Op::StreamWaiting { cancelled }, Event::Received(r)) => match r {
            Received::Packet(p) => {
                let terminal = p is EndOfStream || p is Exception;
                if !cancelled {
                    goes_on(Op::StreamForwarding { terminal }, state, Action::Forward)
                } else if terminal {
                    finished(state, false, None)
                } else {
                    stream_continues(state, true, gone)
                }
            },
            r => finished(
                state,
                true,
                if cancelled {
                    None
                } else {
                    Some(Reply::StreamError(receive_error(r)))
                },
            ),
        },
        (Op::StreamForwarding { terminal }, Event::Delivered(taken)) => if !taken {
            goes_on(Op::StreamCancelling { terminal }, state, Action::SendCancel)
        } else if terminal {
            finished(state, false, None)
        } else {
            stream_continues(state, false, gone)
        },
        (Op::StreamCancelling { terminal }, Event::Written(Ok(_))) => if terminal {
            finished(state, false, None)
        } else {
            stream_continues(state, true, gone)
        },
        (Op::StreamCancelling { terminal }, Event::Written(Err(e))) => finished(state, true, None),
        _ => arbitrary(),
    }
}

/// The commands for a connection, one after the other.
#[derive(Debug)]
pub struct ConnectionActor {
    pub settings: Vec<(String, String)>,
    pub state: ActorState,
    /// The connection is broken and has to be given up.
    pub poisoned: bool,
    pub op: Op,
}

impl ActorError {
    /// The error that a caller is given.
    pub fn into_error(self) -> (r: Error)
        ensures
            (match self {
                ActorError::Server(s) => r == Error::BadResponse(s),
                ActorError::Io(e) => r == e,
                ActorError::ReaderExited => r matches Error::Custom(s) && s@
                    == "reader task exited (server closed connection)"@,
                ActorError::ReaderExitedMidInsert => r matches Error::Custom(s) && s@
                    == "reader task exited mid-INSERT"@,
                ActorError::Busy(ActorState::Idle) => r matches Error::Custom(s) && s@
                    == "connection actor busy (Idle); command rejected"@,
                ActorError::Busy(ActorState::InsertActive) => r matches Error::Custom(s) && s@
                    == "connection actor busy (InsertActive); command rejected"@,
            }),
    {
        match self {
            ActorError::Server(s) => Error::BadResponse(s),
            ActorError::Io(e) => e,
            ActorError::ReaderExited => Error::Custom(
                "reader task exited (server closed connection)".to_owned(),
            ),
            ActorError::ReaderExitedMidInsert => Error::Custom(
                "reader task exited mid-INSERT".to_owned(),
            ),
            ActorError::Busy(ActorState::Idle) => Error::Custom(
                "connection actor busy (Idle); command rejected".to_owned(),
            ),
            ActorError::Busy(ActorState::InsertActive) => Error::Custom(
                "connection actor busy (InsertActive); command rejected".to_owned(),
            ),
        }
    }
}

fn make_goes_on(op: Op, state: ActorState, action: Action) -> (r: Step)
    ensures
        r == goes_on(op, state, action),
{
    Step { op, state, poison: false, action }
}

fn make_finished(state: ActorState, poison: bool, reply: Option<Reply>) -> (r: Step)
    ensures
        r == finished(state, poison, reply),
{
    Step { op: Op::Resting, state, poison, action: Action::Finish(reply) }
}

fn make_ping_reply(keepalive: bool, result: std::result::Result<(), ActorError>) -> (r: Option<
    Reply,
>)
    ensures
        r == ping_reply(keepalive, result),
{
    if keepalive {
        None
    } else {
        Some(Reply::Done(result))
    }
}

fn continue_query(state: ActorState, cancelled: bool, gone: bool) -> (r: Step)
    ensures
        r == query_continues(state, cancelled, gone),
{
    if !cancelled && gone {
        make_goes_on(Op::QueryCancelling, state, Action::SendCancel)
    } else {
        make_goes_on(Op::QueryWaiting { cancelled }, state, Action::Receive)
    }
}

fn continue_stream(state: ActorState, cancelled: bool, gone: bool) -> (r: Step)
    ensures
        r == stream_continues(state, cancelled, gone),
{
    if !cancelled && gone {
        make_goes_on(Op::StreamCancelling { terminal: false }, state, Action::SendCancel)
    } else {
        make_goes_on(Op::StreamWaiting { cancelled }, state, Action::Receive)
    }
}

fn fail_block(state: ActorState, e: ActorError) -> (r: Step)
    ensures
        r == block_failed(state, e),
{
    let answer: bool = match &e {
        ActorError::Server(_) => true,
        ActorError::Io(Error::BadResponse(_)) => true,
        _ => false,
    };
    if answer {
        make_finished(ActorState::Idle, false, Some(Reply::Done(Err(e))))
    } else {
        make_finished(state, true, Some(Reply::Done(Err(e))))
    }
}

fn ping_step(keepalive: bool, state: ActorState, r: Received) -> (out: Step)
    ensures
        out == next_step(Op::PingWaiting { keepalive }, state, Event::Received(r), false),
{
    match r {
        Received::Packet(ServerPacket::Pong) => make_finished(
            state,
            false,
            make_ping_reply(keepalive, Ok(())),
        ),
        Received::Packet(ServerPacket::Exception(s)) => make_finished(
            state,
            true,
            make_ping_reply(keepalive, Err(ActorError::Server(s))),
        ),
        Received::Packet(_) => make_goes_on(
            Op::PingWaiting { keepalive },
            state,
            Action::Receive,
        ),
        Received::Failed(e) => make_finished(
            state,
            true,
            make_ping_reply(keepalive, Err(ActorError::Io(e))),
        ),
        Received::Closed => make_finished(
            state,
            true,
            make_ping_reply(keepalive, Err(ActorError::ReaderExited)),
        ),
    }
}

fn query_step(cancelled: bool, state: ActorState, r: Received, gone: bool) -> (out: Step)
    ensures
        out == next_step(Op::QueryWaiting { cancelled }, state, Event::Received(r), gone),
{
    match r {
        Received::Packet(ServerPacket::EndOfStream) => make_finished(
            state,
            false,
            if cancelled {
                None
            } else {
                Some(Reply::Done(Ok(())))
            },
        ),
        Received::Packet(ServerPacket::Exception(s)) => make_finished(
            state,
            false,
            if cancelled {
                None
            } else {
                Some(Reply::Done(Err(ActorError::Server(s))))
            },
        ),
        Received::Packet(_) => continue_query(state, cancelled, gone),
        _ => make_finished(state, true, None),
    }
}

fn begin_step(state: ActorState, r: Received) -> (out: Step)
    ensures
        out == next_step(Op::BeginWaiting, state, Event::Received(r), false),
{
    match r {
        Received::Packet(ServerPacket::Data(headers)) => make_finished(
            ActorState::InsertActive,
            false,
            Some(Reply::Headers(Ok(headers))),
        ),
        Received::Packet(ServerPacket::Exception(s)) => make_finished(
            state,
            true,
            Some(Reply::Headers(Err(ActorError::Server(s)))),
        ),
        Received::Packet(_) => make_goes_on(Op::BeginWaiting, state, Action::Receive),
        Received::Failed(e) => make_finished(
            state,
            true,
            Some(Reply::Headers(Err(ActorError::Io(e)))),
        ),
        Received::Closed => make_finished(
            state,
            true,
            Some(Reply::Headers(Err(ActorError::ReaderExited))),
        ),
    }
}

fn poll_step(
    column_bytes: Vec<u8>,
    num_columns: usize,
    num_rows: usize,
    state: ActorState,
    p: Polled,
) -> (out: Step)
    ensures
        out == next_step(
            Op::BlockPolling { column_bytes, num_columns, num_rows },
            state,
            Event::Polled(p),
            false,
        ),
{
    match p {
        Polled::Packet(ServerPacket::Exception(s)) => make_goes_on(
            Op::BlockDraining { exception: s },
            state,
            Action::Receive,
        ),
        Polled::Packet(_) => make_goes_on(
            Op::BlockPolling { column_bytes, num_columns, num_rows },
            state,
            Action::Poll,
        ),
        Polled::Failed(e) => fail_block(state, ActorError::Io(e)),
        Polled::Empty => make_goes_on(
            Op::BlockSent,
            state,
            Action::SendDataBlock { column_bytes, num_columns, num_rows },
        ),
        Polled::Closed => fail_block(state, ActorError::ReaderExitedMidInsert),
    }
}

fn finish_step(state: ActorState, r: Received) -> (out: Step)
    ensures
        out == next_step(Op::FinishWaiting, state, Event::Received(r), false),
{
    match r {
        Received::Packet(ServerPacket::EndOfStream) => make_finished(
            ActorState::Idle,
            false,
            Some(Reply::Done(Ok(()))),
        ),
        Received::Packet(ServerPacket::Exception(s)) => make_finished(
            ActorState::Idle,
            true,
            Some(Reply::Done(Err(ActorError::Server(s)))),
        ),
        Received::Packet(_) => make_goes_on(Op::FinishWaiting, state, Action::Receive),
        Received::Failed(e) => make_finished(
            ActorState::Idle,
            true,
            Some(Reply::Done(Err(ActorError::Io(e)))),
        ),
        Received::Closed => make_finished(
            ActorState::Idle,
            true,
            Some(Reply::Done(Err(ActorError::ReaderExited))),
        ),
    }
}

fn stream_step(cancelled: bool, state: ActorState, r: Received, gone: bool) -> (out: Step)
    ensures
        out == next_step(Op::StreamWaiting { cancelled }, state, Event::Received(r), gone),
{
    match r {
        Received::Packet(p) => {
            let terminal: bool = match &p {
                ServerPacket::EndOfStream => true,
                ServerPacket::Exception(_) => true,
                _ => false,
            };
            if !cancelled {
                make_goes_on(Op::StreamForwarding { terminal }, state, Action::Forward)
            } else if terminal {
                make_finished(state, false, None)
            } else {
                continue_stream(state, true, gone)
            }
        },
        Received::Failed(e) => make_finished(
            state,
            true,
            if cancelled {
                None
            } else {
                Some(Reply::StreamError(ActorError::Io(e)))
            },
        ),
        Received::Closed => make_finished(
            state,
            true,
            if cancelled {
                None
            } else {
                Some(Reply::StreamError(ActorError::ReaderExited))
            },
        ),
    }
}

fn written_step(op: Op, state: ActorState, w: std::result::Result<(), Error>, gone: bool) -> (out:
    Step)
    requires
        expected(op, Event::Written(w)),
    ensures
        out == next_step(op, state, Event::Written(w), gone),
{
    match w {
        Ok(_) => match op {
            Op::PingSent { keepalive } => make_goes_on(
                Op::PingWaiting { keepalive },
                state,
                Action::Receive,
            ),
            Op::QuerySent => continue_query(state, false, gone),
            Op::QueryCancelling => continue_query(state, true, gone),
            Op::BeginSent => make_goes_on(Op::BeginWaiting, state, Action::Receive),
            Op::BlockSent => make_finished(state, false, Some(Reply::Done(Ok(())))),
            Op::FinishSent => make_goes_on(Op::FinishWaiting, state, Action::Receive),
            Op::StreamCancelling { terminal } => if terminal {
                make_finished(state, false, None)
            } else {
                continue_stream(state, true, gone)
            },
            _ => continue_stream(state, false, gone),
        },
        Err(e) => match op {
            Op::PingSent { keepalive } => make_finished(
                state,
                true,
                make_ping_reply(keepalive, Err(ActorError::Io(e))),
            ),
            Op::BeginSent => make_finished(
                state,
                true,
                Some(Reply::Headers(Err(ActorError::Io(e)))),
            ),
            Op::BlockSent => fail_block(state, ActorError::Io(e)),
            Op::FinishSent => make_finished(
                ActorState::Idle,
                true,
                Some(Reply::Done(Err(ActorError::Io(e)))),
            ),
            _ => make_finished(state, true, None),
        },
    }
}

fn received_step(op: Op, state: ActorState, r: Received, gone: bool) -> (out: Step)
    requires
        expected(op, Event::Received(r)),
    ensures
        out == next_step(op, state, Event::Received(r), gone),
{
    match op {
        Op::PingWaiting { keepalive } => ping_step(keepalive, state, r),
        Op::QueryWaiting { cancelled } => query_step(cancelled, state, r, gone),
        Op::BeginWaiting => begin_step(state, r),
        Op::BlockDraining { exception } => match r {
            Received::Packet(ServerPacket::EndOfStream) => fail_block(
                state,
                ActorError::Server(exception),
            ),
            Received::Packet(_) => make_goes_on(
                Op::BlockDraining { exception },
                state,
                Action::Receive,
            ),
            _ => fail_block(state, ActorError::Server(exception)),
        },
        Op::StreamWaiting { cancelled } => stream_step(cancelled, state, r, gone),
        _ => finish_step(state, r),
    }
}

impl ConnectionActor {
    /// The commands for a connection that has just been opened with the given settings.
    pub fn new(settings: Vec<(String, String)>) -> (r: Self)
        ensures
            r.settings == settings,
            r.state == ActorState::Idle,
            !r.poisoned,
            r.op == Op::Resting,
    {
        ConnectionActor { settings, state: ActorState::Idle, poisoned: false, op: Op::Resting }
    }

    /// Takes a command. One that does not fit what the connection is in the middle of is
    /// turned down, and nothing else happens.
    pub fn handle(&mut self, cmd: ConnectionCmd) -> (action: Action)
        requires
            old(self).op == Op::Resting,
        ensures
            final(self).settings == old(self).settings,
            final(self).poisoned == old(self).poisoned,
            final(self).state == old(self).state,
            !accepts(old(self).state, cmd) ==> final(self).op == Op::Resting && action
                == Action::Finish(Some(rejection(old(self).state, cmd))),
            accepts(old(self).state, cmd) ==> (match cmd {
                ConnectionCmd::Ping => final(self).op == (Op::PingSent { keepalive: false })
                    && action == Action::SendPing,
                ConnectionCmd::ExecuteQuery { query_id, query, extra_settings } => final(self).op
                    == Op::QuerySent && (action matches Action::SendQuery {
                    query_id: i,
                    query: q,
                    settings: s,
                } && i == query_id && q == query && settings::pairs(s@) == settings::merged(
                    settings::pairs(old(self).settings@),
                    settings::pairs(extra_settings@),
                )),
                ConnectionCmd::BeginInsert { query } => final(self).op == Op::BeginSent && (
                action matches Action::SendQuery { query_id: i, query: q, settings: s } && i@
                    == ""@ && q == query && settings::pairs(s@) == settings::pairs(
                    old(self).settings@,
                )),
                ConnectionCmd::SendInsertBlock { column_bytes, num_columns, num_rows } =>
                    final(self).op == (Op::BlockPolling { column_bytes, num_columns, num_rows })
                    && action == Action::Poll,
                ConnectionCmd::FinishInsert => final(self).op == Op::FinishSent && action
                    == Action::SendEmptyBlock,
                ConnectionCmd::ExecuteStream { query_id, query, extra_settings } => final(self).op
                    == Op::StreamSent && (action matches Action::SendQuery {
                    query_id: i,
                    query: q,
                    settings: s,
                } && i == query_id && q == query && settings::pairs(s@) == settings::merged(
                    settings::pairs(old(self).settings@),
                    settings::pairs(extra_settings@),
                )),
            }),
    {
        match (cmd, self.state) {
            (ConnectionCmd::Ping, ActorState::Idle) => {
                self.op = Op::PingSent { keepalive: false };
                Action::SendPing
            },
            (
                ConnectionCmd::ExecuteQuery { query_id, query, extra_settings },
                ActorState::Idle,
            ) => {
                self.op = Op::QuerySent;
                let settings = merge_settings(&self.settings, &extra_settings);
                Action::SendQuery { query_id, query, settings }
            },
            (ConnectionCmd::BeginInsert { query }, ActorState::Idle) => {
                self.op = Op::BeginSent;
                Action::SendQuery {
                    query_id: "".to_owned(),
                    query,
                    settings: copy_pairs(&self.settings),
                }
            },
            (
                ConnectionCmd::SendInsertBlock { column_bytes, num_columns, num_rows },
                ActorState::InsertActive,
            ) => {
                self.op = Op::BlockPolling { column_bytes, num_columns, num_rows };
                Action::Poll
            },
            (ConnectionCmd::FinishInsert, ActorState::InsertActive) => {
                self.op = Op::FinishSent;
                Action::SendEmptyBlock
            },
            (
                ConnectionCmd::ExecuteStream { query_id, query, extra_settings },
                ActorState::Idle,
            ) => {
                self.op = Op::StreamSent;
                let settings = merge_settings(&self.settings, &extra_settings);
                Action::SendQuery { query_id, query, settings }
            },
            (cmd, state) => Action::Finish(Some(reject_for_state(&cmd, state))),
        }
    }

    /// Takes what came of the last action, and whether the caller has lost interest.
    pub fn resume(&mut self, event: Event, gone: bool) -> (action: Action)
        requires
            expected(old(self).op, event),
        ensures
            final(self).settings == old(self).settings,
            ({
                let step = next_step(old(self).op, old(self).state, event, gone);
                &&& final(self).op == step.op
                &&& final(self).state == step.state
                &&& final(self).poisoned == (old(self).poisoned || step.poison)
                &&& action == step.action
            }),
    {
        let mut op = Op::Resting;
        std::mem::swap(&mut op, &mut self.op);
        let state = self.state;
        let step = match event {
            Event::Written(w) => written_step(op, state, w, gone),
            Event::Received(r) => received_step(op, state, r, gone),
            Event::Polled(p) => match op {
                Op::BlockPolling { column_bytes, num_columns, num_rows } => poll_step(
                    column_bytes,
                    num_columns,
                    num_rows,
                    state,
                    p,
                ),
                _ => make_finished(state, true, None),
            },
            Event::Delivered(taken) => match op {
                Op::StreamForwarding { terminal } => if !taken {
                    make_goes_on(Op::StreamCancelling { terminal }, state, Action::SendCancel)
                } else if terminal {
                    make_finished(state, false, None)
                } else {
                    continue_stream(state, false, gone)
                },
                _ => make_finished(state, true, None),
            },
        };
        self.op = step.op;
        self.state = step.state;
        if step.poison {
            self.poisoned = true;
        }
        step.action
    }

    /// Keeps the connection alive: after a full interval without a command, the server is
    /// asked whether it is there.
    pub fn on_idle(&mut self, idle: Duration, keepalive: Duration) -> (action: Option<Action>)
        requires
            old(self).op == Op::Resting,
        ensures
            final(self).settings == old(self).settings,
            final(self).state == old(self).state,
            final(self).poisoned == old(self).poisoned,
            idle.nanos < keepalive.nanos ==> action is None && final(self).op == Op::Resting,
            idle.nanos >= keepalive.nanos ==> action == Some(Action::SendPing) && final(self).op
                == (Op::PingSent { keepalive: true }),
    {
        if idle.nanos < keepalive.nanos {
            return None;
        }
        self.op = Op::PingSent { keepalive: true };
        Some(Action::SendPing)
    }

    /// Gives the connection up.
    pub fn poison(&mut self)
        ensures
            final(self).poisoned,
            final(self).op == old(self).op,
            final(self).state == old(self).state,
            final(self).settings == old(self).settings,
    {
        self.poisoned = true;
    }
}

/// The reply to a command that does not fit the state.
pub fn reject_for_state(cmd: &ConnectionCmd, state: ActorState) -> (r: Reply)
    ensures
        r == rejection(state, *cmd),
{
    match cmd {
        ConnectionCmd::BeginInsert { .. } => Reply::Headers(Err(ActorError::Busy(state))),
        ConnectionCmd::ExecuteStream { .. } => Reply::StreamError(ActorError::Busy(state)),
        _ => Reply::Done(Err(ActorError::Busy(state))),
    }
}

/// A packet that ends the answer to a query.
pub open spec fn is_terminal(p: ServerPacket) -> bool {
    p is EndOfStream || p is Exception
}

/// The connection could not be written to or read from.
pub open spec fn is_failure(event: Event) -> bool {
    match event {
        Event::Written(w) => w is Err,
        Event::Received(r) => !(r is Packet),
        Event::Polled(p) => p is Failed || p is Closed,
        Event::Delivered(_) => false,
    }
}

/// A query or a stream is in progress.
pub open spec fn is_query(op: Op) -> bool {
    op is QuerySent || op is QueryWaiting || op is QueryCancelling || op is StreamSent
        || op is StreamWaiting || op is StreamForwarding || op is StreamCancelling
}

/// The query or stream in progress has been cancelled.
pub open spec fn is_cancelled(op: Op) -> bool {
    match op {
        Op::QueryWaiting { cancelled } => cancelled,
        Op::QueryCancelling => true,
        Op::StreamWaiting { cancelled } => cancelled,
        Op::StreamCancelling { .. } => true,
        _ => false,
    }
}

/// A step finishes its command exactly where no command is in progress behind it, so that
/// every command is finished once.
pub proof fn commands_finish_once(op: Op, state: ActorState, event: Event, gone: bool)
    requires
        expected(op, event),
    ensures
        ({
            let step = next_step(op, state, event, gone);
            step.op is Resting <==> step.action is Finish
        }),
{
}

/// What is done next can only have events that the next step takes.
pub proof fn actions_have_expected_events(op: Op, state: ActorState, event: Event, gone: bool)
    requires
        expected(op, event),
    ensures
        ({
            let step = next_step(op, state, event, gone);
            &&& (step.action is Receive ==> forall|r: Received|
                #[trigger] expected(step.op, Event::Received(r)))
            &&& (step.action is Poll ==> forall|p: Polled|
                #[trigger] expected(step.op, Event::Polled(p)))
            &&& (step.action is Forward ==> forall|t: bool|
                #[trigger] expected(step.op, Event::Delivered(t)))
            &&& ((step.action is SendPing || step.action is SendQuery || step.action is SendCancel
                || step.action is SendDataBlock || step.action is SendEmptyBlock) ==> forall|
                w: std::result::Result<(), Error>,
            |
                #[trigger] expected(step.op, Event::Written(w)))
        }),
{
}

/// Neither cancelling a query or a stream nor an exception of the server costs the
/// connection: only a failed write or read does, and it always does.
pub proof fn only_failures_poison_queries(op: Op, state: ActorState, event: Event, gone: bool)
    requires
        expected(op, event),
        is_query(op),
    ensures
        next_step(op, state, event, gone).poison <==> is_failure(event),
        next_step(op, state, event, gone).state == state,
{
}

/// A query or stream whose caller is gone is cancelled before the next packet is waited for.
pub proof fn callers_that_are_gone_cancel(op: Op, state: ActorState, event: Event)
    requires
        expected(op, event),
        is_query(op),
        !is_cancelled(op),
    ensures
        !(next_step(op, state, event, true).action is Receive),
{
}

/// Once cancelled, a query or stream is not cancelled again, sends nothing more to the
/// caller, and goes on reading until the server has ended its answer.
pub proof fn cancelled_queries_drain(op: Op, state: ActorState, event: Event, gone: bool)
    requires
        expected(op, event),
        is_cancelled(op),
        !is_failure(event),
    ensures
        ({
            let step = next_step(op, state, event, gone);
            &&& step.action is Receive || step.action == Action::Finish(None)
            &&& step.action is Receive ==> is_cancelled(step.op)
            &&& step.action is Finish ==> (event matches Event::Received(Received::Packet(p))
                && is_terminal(p)) || op == (Op::StreamCancelling { terminal: true })
        }),
{
}

/// After a server has rejected an insert, nothing more of it is sent, the rest of the
/// answer is read, and the connection can be used again.
pub proof fn rejected_inserts_send_nothing(op: Op, state: ActorState, event: Event, gone: bool)
    requires
        expected(op, event),
        op is BlockDraining || (op is BlockPolling && (event matches Event::Polled(
            Polled::Packet(p),
        ) && p is Exception)),
    ensures
        ({
            let step = next_step(op, state, event, gone);
            &&& !step.poison
            &&& step.op is BlockDraining && step.action is Receive || step.op is Resting
                && step.state == ActorState::Idle
        }),
{
}

/// A connection is in an insert exactly from the columns that the server declares to the
/// end or the rejection of the insert; no other step changes its state.
pub proof fn state_changes(op: Op, state: ActorState, event: Event, gone: bool)
    requires
        expected(op, event),
    ensures
        ({
            let step = next_step(op, state, event, gone);
            &&& step.state != state && step.state == ActorState::InsertActive ==> op is BeginWaiting
                && (event matches Event::Received(Received::Packet(p)) && p is Data)
            &&& step.state != state && step.state == ActorState::Idle ==> op is BlockPolling
                || op is BlockDraining || op is BlockSent || op is FinishSent || op is FinishWaiting
        }),
{
}

} // verus!
