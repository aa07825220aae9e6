//! What holds of every command on a connection, whatever the server answers.
use vstd::prelude::*;

use crate::error::Error;
use crate::native::connection_actor::{
    self, Action, ActorError, ActorState, ConnectionCmd, Event, Op, Polled, Received, Reply,
    ServerPacket, Step,
};

verus! {

/// What a step tells the caller.
pub open spec fn told(step: Step) -> Option<Reply> {
    match step.action {
        Action::Finish(reply) => reply,
        _ => None,
    }
}

/// The error in a reply.
pub open spec fn error_in(reply: Option<Reply>) -> Option<ActorError> {
    match reply {
        Some(Reply::Done(Err(e))) => Some(e),
        Some(Reply::Headers(Err(e))) => Some(e),
        Some(Reply::StreamError(e)) => Some(e),
        _ => None,
    }
}

/// A step that finishes its command with this error.
pub open spec fn fails_with(step: Step, e: ActorError) -> bool {
    step.action is Finish && error_in(told(step)) == Some(e)
}

/// A command whose caller waits for a single reply is in progress, and the caller still waits.
pub open spec fn owes_a_reply(op: Op) -> bool {
    match op {
        Op::PingSent { keepalive } => !keepalive,
        Op::PingWaiting { keepalive } => !keepalive,
        Op::QueryWaiting { cancelled } => !cancelled,
        Op::BeginSent | Op::BeginWaiting => true,
        Op::BlockPolling { .. } | Op::BlockDraining { .. } | Op::BlockSent => true,
        Op::FinishSent | Op::FinishWaiting => true,
        _ => false,
    }
}

/// A block of an insert is in progress.
pub open spec fn is_block(op: Op) -> bool {
    op is BlockPolling || op is BlockDraining || op is BlockSent
}

/// Outside of an insert every command is accepted but those that continue one; in an insert, those
/// alone. What is turned down is answered in the form that its caller waits for, and the answer
/// names what the connection is in the middle of.
pub proof fn commands_fit_the_state(state: ActorState, cmd: ConnectionCmd)
    ensures
        connection_actor::accepts(state, cmd) <==> ((cmd is SendInsertBlock || cmd is FinishInsert)
            <==> state == ActorState::InsertActive),
        error_in(Some(connection_actor::rejection(state, cmd))) == Some(ActorError::Busy(state)),
        connection_actor::rejection(state, cmd) is Headers <==> cmd is BeginInsert,
        connection_actor::rejection(state, cmd) is StreamError <==> cmd is ExecuteStream,
{
}

/// A caller is told that a command succeeded exactly where the server confirmed it or, for a block
/// of an insert, where the block was written: a ping by a pong, a query and the end of an insert by
/// the end of the answer.
pub proof fn success_is_told_where_it_was_confirmed(
    op: Op,
    state: ActorState,
    event: Event,
    gone: bool,
)
    requires
        connection_actor::expected(op, event),
    ensures
        told(connection_actor::next_step(op, state, event, gone)) == Some(Reply::Done(Ok(())))
            <==> {
            ||| op == (Op::PingWaiting { keepalive: false }) && event == Event::Received(
                Received::Packet(ServerPacket::Pong),
            )
            ||| op == (Op::QueryWaiting { cancelled: false }) && event == Event::Received(
                Received::Packet(ServerPacket::EndOfStream),
            )
            ||| op == Op::BlockSent && (event matches Event::Written(w) && w is Ok)
            ||| op == Op::FinishWaiting && event == Event::Received(
                Received::Packet(ServerPacket::EndOfStream),
            )
        },
{
}

/// An insert starts exactly where the server declares its columns, and its caller is told those
/// columns, in their order.
pub proof fn declared_columns_are_told(
    op: Op,
    state: ActorState,
    event: Event,
    gone: bool,
    headers: Vec<(String, String)>,
)
    requires
        connection_actor::expected(op, event),
    ensures
        ({
            let step = connection_actor::next_step(op, state, event, gone);
            &&& told(step) == Some(Reply::Headers(Ok(headers))) <==> op == Op::BeginWaiting && event
                == Event::Received(Received::Packet(ServerPacket::Data(headers)))
            &&& (told(step) matches Some(Reply::Headers(Ok(_))) ==> step.state
                == ActorState::InsertActive && !step.poison)
        }),
{
}

/// An exception of the server reaches the caller with its text: it finishes a ping, a query and
/// the start or the end of an insert.
pub proof fn exceptions_are_told(op: Op, state: ActorState, text: String, gone: bool)
    requires
        owes_a_reply(op),
        connection_actor::expected(
            op,
            Event::Received(Received::Packet(ServerPacket::Exception(text))),
        ),
        !(op is BlockDraining),
    ensures
        fails_with(
            connection_actor::next_step(
                op,
                state,
                Event::Received(Received::Packet(ServerPacket::Exception(text))),
                gone,
            ),
            ActorError::Server(text),
        ),
{
}

/// An exception that has arrived before a block was written is what the block fails with, whatever
/// the server sends behind it, and the connection can be used again.
pub proof fn rejected_blocks_fail_with_the_exception(
    block: Op,
    state: ActorState,
    text: String,
    next: Received,
    gone: bool,
    later: bool,
)
    requires
        block is BlockPolling,
    ensures
        ({
            let first = connection_actor::next_step(
                block,
                state,
                Event::Polled(Polled::Packet(ServerPacket::Exception(text))),
                gone,
            );
            let second = connection_actor::next_step(
                first.op,
                first.state,
                Event::Received(next),
                later,
            );
            &&& first.action is Receive
            &&& first.state == state
            &&& !first.poison
            &&& !second.poison
            &&& match next {
                Received::Packet(p) if !(p is EndOfStream) => second.op == first.op && second.action
                    is Receive && second.state == first.state,
                _ => fails_with(second, ActorError::Server(text)) && second.state
                    == ActorState::Idle,
            }
        }),
{
}

/// Where the connection cannot be written to or read from, a caller that waits for a reply is told
/// that very error. The connection is given up, unless the error says that the server has answered
/// a block.
pub proof fn failures_are_told(op: Op, state: ActorState, e: Error, gone: bool)
    requires
        owes_a_reply(op),
        !(op is BlockDraining),
    ensures
        ({
            let answered = is_block(op) && e is BadResponse;
            &&& connection_actor::expected(op, Event::Written(Err(e))) && !(op is QueryWaiting)
                ==> {
                let step = connection_actor::next_step(op, state, Event::Written(Err(e)), gone);
                fails_with(step, ActorError::Io(e)) && step.poison == !answered
            }
            &&& connection_actor::expected(op, Event::Received(Received::Failed(e))) && !(
            op is QueryWaiting) ==> {
                let step = connection_actor::next_step(
                    op,
                    state,
                    Event::Received(Received::Failed(e)),
                    gone,
                );
                fails_with(step, ActorError::Io(e)) && step.poison
            }
            &&& connection_actor::expected(op, Event::Polled(Polled::Failed(e))) ==> {
                let step = connection_actor::next_step(
                    op,
                    state,
                    Event::Polled(Polled::Failed(e)),
                    gone,
                );
                fails_with(step, ActorError::Io(e)) && step.poison == !answered
            }
        }),
{
}

/// Where the reader has exited, a caller that waits for a reply is told so, and the connection is
/// given up.
pub proof fn exited_readers_are_told(op: Op, state: ActorState, gone: bool)
    requires
        owes_a_reply(op),
        !(op is BlockDraining),
        !(op is QueryWaiting),
    ensures
        connection_actor::expected(op, Event::Received(Received::Closed)) ==> {
            let step = connection_actor::next_step(
                op,
                state,
                Event::Received(Received::Closed),
                gone,
            );
            fails_with(step, ActorError::ReaderExited) && step.poison
        },
        connection_actor::expected(op, Event::Polled(Polled::Closed)) ==> {
            let step = connection_actor::next_step(op, state, Event::Polled(Polled::Closed), gone);
            fails_with(step, ActorError::ReaderExitedMidInsert) && step.poison
        },
{
}

/// A query that can no longer be sent or read finishes without a reply, and the connection is given
/// up.
pub proof fn broken_queries_give_the_connection_up(
    op: Op,
    state: ActorState,
    event: Event,
    gone: bool,
)
    requires
        connection_actor::expected(op, event),
        connection_actor::is_failure(event),
        op is QuerySent || op is QueryWaiting || op is QueryCancelling || op is StreamSent
            || op is StreamCancelling || op == (Op::StreamWaiting { cancelled: true }),
    ensures
        ({
            let step = connection_actor::next_step(op, state, event, gone);
            step.action == Action::Finish(None) && step.poison
        }),
{
}

/// A stream that can no longer be read ends with that error in the stream, and the connection is
/// given up.
pub proof fn broken_streams_end_with_the_error(state: ActorState, e: Error, gone: bool)
    ensures
        ({
            let op = Op::StreamWaiting { cancelled: false };
            let failed = connection_actor::next_step(
                op,
                state,
                Event::Received(Received::Failed(e)),
                gone,
            );
            let closed = connection_actor::next_step(
                op,
                state,
                Event::Received(Received::Closed),
                gone,
            );
            &&& failed.action == Action::Finish(Some(Reply::StreamError(ActorError::Io(e))))
            &&& closed.action == Action::Finish(
                Some(Reply::StreamError(ActorError::ReaderExited)),
            )
            &&& failed.poison && closed.poison
        }),
{
}

/// Packets that say nothing of the command are passed over: the command waits on as it did.
pub proof fn other_packets_are_passed_over(op: Op, state: ActorState, p: ServerPacket)
    requires
        connection_actor::expected(op, Event::Received(Received::Packet(p))),
        !(p is EndOfStream),
        !(p is Exception) || op is BlockDraining,
        !(p is Pong) || !(op is PingWaiting),
        !(p is Data) || !(op is BeginWaiting),
        !(op is StreamWaiting),
    ensures
        connection_actor::next_step(op, state, Event::Received(Received::Packet(p)), false) == (
        Step { op, state, poison: false, action: Action::Receive }),
{
}

/// Packets that have arrived before a block is written are passed over, all but an exception.
pub proof fn packets_before_a_block_are_passed_over(
    op: Op,
    state: ActorState,
    p: ServerPacket,
    gone: bool,
)
    requires
        op is BlockPolling,
        !(p is Exception),
    ensures
        connection_actor::next_step(op, state, Event::Polled(Polled::Packet(p)), gone) == (Step {
            op,
            state,
            poison: false,
            action: Action::Poll,
        }),
{
}

/// The end of a stream neither confirms a ping nor declares the columns of an insert: both wait on.
pub proof fn early_ends_are_passed_over(op: Op, state: ActorState, gone: bool)
    requires
        op is PingWaiting || op is BeginWaiting,
    ensures
        connection_actor::next_step(
            op,
            state,
            Event::Received(Received::Packet(ServerPacket::EndOfStream)),
            gone,
        ) == (Step { op, state, poison: false, action: Action::Receive }),
{
}

/// What was sent is answered: behind a write that succeeded, a ping, a query, a stream and the start
/// and the end of an insert wait for the server, and nothing else has changed.
pub proof fn sent_commands_wait_for_the_server(op: Op, state: ActorState)
    requires
        op is PingSent || op is QuerySent || op is BeginSent || op is FinishSent || op
            is StreamSent,
    ensures
        ({
            let step = connection_actor::next_step(op, state, Event::Written(Ok(())), false);
            &&& step.action is Receive
            &&& step.state == state
            &&& !step.poison
            &&& step.op is PingWaiting <==> op is PingSent
            &&& step.op is QueryWaiting <==> op is QuerySent
            &&& step.op is BeginWaiting <==> op is BeginSent
            &&& step.op is FinishWaiting <==> op is FinishSent
            &&& step.op is StreamWaiting <==> op is StreamSent
            &&& !connection_actor::is_cancelled(step.op)
            &&& owes_a_reply(step.op) == (owes_a_reply(op) || op is QuerySent)
        }),
{
}

/// A ping that only keeps the connection alive is never answered, and what it meets gives the
/// connection up exactly as it would for a ping of a caller.
pub proof fn keepalives_are_silent(state: ActorState, event: Event, gone: bool)
    ensures
        ({
            let sent = connection_actor::next_step(
                Op::PingSent { keepalive: true },
                state,
                event,
                gone,
            );
            let asked = connection_actor::next_step(
                Op::PingSent { keepalive: false },
                state,
                event,
                gone,
            );
            event is Written ==> told(sent) is None && sent.poison == asked.poison && (
            sent.action is Finish <==> asked.action is Finish) && (sent.op is PingWaiting
                ==> sent.op == (Op::PingWaiting { keepalive: true }))
        }),
        ({
            let waiting = connection_actor::next_step(
                Op::PingWaiting { keepalive: true },
                state,
                event,
                gone,
            );
            let asked = connection_actor::next_step(
                Op::PingWaiting { keepalive: false },
                state,
                event,
                gone,
            );
            event is Received ==> told(waiting) is None && waiting.poison == asked.poison && (
            waiting.action is Finish <==> asked.action is Finish) && (waiting.op is PingWaiting
                ==> waiting.op == (Op::PingWaiting { keepalive: true }))
        }),
{
}

/// A ping and the start and the end of an insert cost the connection exactly where they fail, also
/// where the server reports an exception.
pub proof fn failed_commands_give_the_connection_up(
    op: Op,
    state: ActorState,
    event: Event,
    gone: bool,
)
    requires
        connection_actor::expected(op, event),
        owes_a_reply(op),
        !(op is QueryWaiting),
        !is_block(op),
    ensures
        ({
            let step = connection_actor::next_step(op, state, event, gone);
            step.poison <==> error_in(told(step)) is Some
        }),
{
}

/// The end of an insert leaves the insert, however it went; nothing else that it meets does.
pub proof fn finished_inserts_are_left(op: Op, state: ActorState, event: Event, gone: bool)
    requires
        connection_actor::expected(op, event),
        op is FinishSent || op is FinishWaiting,
    ensures
        ({
            let step = connection_actor::next_step(op, state, event, gone);
            step.state == if step.action is Finish {
                ActorState::Idle
            } else {
                state
            }
        }),
{
}

/// A block leaves the insert exactly where the server has answered it; a block that was written
/// keeps the insert going, and so does one that failed with the connection.
pub proof fn blocks_stay_in_the_insert(op: Op, state: ActorState, event: Event, gone: bool)
    requires
        connection_actor::expected(op, event),
        is_block(op),
        state == ActorState::InsertActive,
    ensures
        ({
            let step = connection_actor::next_step(op, state, event, gone);
            step.state == ActorState::Idle <==> match error_in(told(step)) {
                Some(ActorError::Server(_)) => true,
                Some(ActorError::Io(e)) => e is BadResponse,
                _ => false,
            }
        }),
{
}

/// A block is written where no packet of the server waits, and it is written as it was handed over:
/// its bytes, its columns and its rows.
pub proof fn blocks_are_sent_as_they_are(
    column_bytes: Vec<u8>,
    num_columns: usize,
    num_rows: usize,
    state: ActorState,
    gone: bool,
)
    ensures
        ({
            let step = connection_actor::next_step(
                Op::BlockPolling { column_bytes, num_columns, num_rows },
                state,
                Event::Polled(Polled::Empty),
                gone,
            );
            &&& step.action == (Action::SendDataBlock { column_bytes, num_columns, num_rows })
            &&& step.op is BlockSent
            &&& step.state == state
            &&& !step.poison
        }),
{
}

/// No step but the one that finds no packet waiting sends a block, and no step sends a ping, a query
/// or the end of an insert again.
pub proof fn nothing_is_sent_twice(op: Op, state: ActorState, event: Event, gone: bool)
    requires
        connection_actor::expected(op, event),
    ensures
        ({
            let step = connection_actor::next_step(op, state, event, gone);
            &&& !(step.action is SendPing)
            &&& !(step.action is SendQuery)
            &&& !(step.action is SendEmptyBlock)
            &&& step.action is SendDataBlock <==> op is BlockPolling && event == Event::Polled(
                Polled::Empty,
            )
            &&& step.action is SendCancel ==> !connection_actor::is_cancelled(op)
                && connection_actor::is_query(op)
        }),
{
}

/// While a stream is not cancelled, every packet that is received is handed to the caller before
/// anything else is done, and the stream is over once a packet that ends it was taken.
pub proof fn received_packets_are_handed_on(state: ActorState, p: ServerPacket, gone: bool)
    ensures
        ({
            let step = connection_actor::next_step(
                Op::StreamWaiting { cancelled: false },
                state,
                Event::Received(Received::Packet(p)),
                gone,
            );
            let taken = connection_actor::next_step(
                step.op,
                step.state,
                Event::Delivered(true),
                false,
            );
            &&& step.action is Forward
            &&& step.op is StreamForwarding
            &&& step.state == state
            &&& !step.poison
            &&& taken.action == if p is EndOfStream || p is Exception {
                Action::Finish(None)
            } else {
                Action::Receive
            }
            &&& !(p is EndOfStream || p is Exception) ==> taken.op == (Op::StreamWaiting {
                cancelled: false,
            })
        }),
{
}

/// A packet that the caller did not take cancels the stream; the rest of the answer is read, unless
/// that packet was its end.
pub proof fn refused_packets_cancel(state: ActorState, p: ServerPacket, gone: bool, later: bool)
    ensures
        ({
            let step = connection_actor::next_step(
                Op::StreamWaiting { cancelled: false },
                state,
                Event::Received(Received::Packet(p)),
                gone,
            );
            let refused = connection_actor::next_step(
                step.op,
                step.state,
                Event::Delivered(false),
                later,
            );
            let cancelled = connection_actor::next_step(
                refused.op,
                refused.state,
                Event::Written(Ok(())),
                later,
            );
            &&& refused.action is SendCancel
            &&& !refused.poison
            &&& cancelled.action == if p is EndOfStream || p is Exception {
                Action::Finish(None)
            } else {
                Action::Receive
            }
            &&& !cancelled.poison
        }),
{
}

/// A caller that is gone is noticed as soon as the next packet would be waited for: the server is
/// told to stop. A caller that is there is not.
pub proof fn cancels_are_for_callers_that_are_gone(
    op: Op,
    state: ActorState,
    event: Event,
    gone: bool,
)
    requires
        connection_actor::expected(op, event),
        connection_actor::is_query(op),
        !connection_actor::is_cancelled(op),
        event != Event::Delivered(false),
    ensures
        ({
            let there = connection_actor::next_step(op, state, event, false);
            let away = connection_actor::next_step(op, state, event, true);
            &&& !(there.action is SendCancel)
            &&& away.action is SendCancel <==> there.action is Receive
            &&& !(there.action is Receive) ==> away == there
        }),
{
}

/// The command after the events, each with whether the caller was gone by then.
pub open spec fn after_events(op: Op, state: ActorState, events: Seq<(Event, bool)>) -> (
    Op,
    ActorState,
)
    decreases events.len(),
{
    if events.len() == 0 {
        (op, state)
    } else {
        let (before, s) = after_events(op, state, events.drop_last());
        let step = connection_actor::next_step(before, s, events.last().0, events.last().1);
        (step.op, step.state)
    }
}

/// The step that the last of the events led to.
pub open spec fn last_step(op: Op, state: ActorState, events: Seq<(Event, bool)>) -> Step {
    let (before, s) = after_events(op, state, events.drop_last());
    connection_actor::next_step(before, s, events.last().0, events.last().1)
}

/// Each event can come of what was to be done before it.
pub open spec fn plays(op: Op, state: ActorState, events: Seq<(Event, bool)>) -> bool
    decreases events.len(),
{
    events.len() > 0 ==> plays(op, state, events.drop_last()) && connection_actor::expected(
        after_events(op, state, events.drop_last()).0,
        events.last().0,
    )
}

/// The packets that were received in the events, in their order.
pub open spec fn received_packets(events: Seq<(Event, bool)>) -> Seq<ServerPacket>
    decreases events.len(),
{
    if events.len() == 0 {
        Seq::empty()
    } else {
        match events.last().0 {
            Event::Received(Received::Packet(p)) => received_packets(events.drop_last()).push(p),
            _ => received_packets(events.drop_last()),
        }
    }
}

/// The packets that were handed to the caller, in their order.
pub open spec fn forwarded_packets(op: Op, state: ActorState, events: Seq<(Event, bool)>) -> Seq<
    ServerPacket,
>
    decreases events.len(),
{
    if events.len() == 0 {
        Seq::empty()
    } else {
        let before = forwarded_packets(op, state, events.drop_last());
        match (events.last().0, last_step(op, state, events).action) {
            (Event::Received(Received::Packet(p)), Action::Forward) => before.push(p),
            _ => before,
        }
    }
}

/// No step of the events told the server to stop.
pub open spec fn never_cancels(op: Op, state: ActorState, events: Seq<(Event, bool)>) -> bool
    decreases events.len(),
{
    events.len() > 0 ==> never_cancels(op, state, events.drop_last()) && !(last_step(
        op,
        state,
        events,
    ).action is SendCancel)
}

/// A stream that is not cancelled hands on the packets that it receives: all of them, and in the
/// order in which they came.
pub proof fn streams_hand_on_what_they_receive(state: ActorState, events: Seq<(Event, bool)>)
    requires
        plays(Op::StreamSent, state, events),
        never_cancels(Op::StreamSent, state, events),
    ensures
        forwarded_packets(Op::StreamSent, state, events) == received_packets(events),
    decreases events.len(),
{
    lemma_stream_is_open(state, events);
    if events.len() > 0 {
        lemma_stream_is_open(state, events.drop_last());
        streams_hand_on_what_they_receive(state, events.drop_last());
    }
}

proof fn lemma_stream_is_open(state: ActorState, events: Seq<(Event, bool)>)
    requires
        plays(Op::StreamSent, state, events),
        never_cancels(Op::StreamSent, state, events),
    ensures
        ({
            let op = after_events(Op::StreamSent, state, events).0;
            op is StreamSent || op == (Op::StreamWaiting { cancelled: false }) || op
                is StreamForwarding || op is Resting
        }),
    decreases events.len(),
{
    if events.len() > 0 {
        lemma_stream_is_open(state, events.drop_last());
    }
}

/// The blocks that were sent, in their order.
pub open spec fn sent_blocks(op: Op, state: ActorState, events: Seq<(Event, bool)>) -> Seq<Action>
    decreases events.len(),
{
    if events.len() == 0 {
        Seq::empty()
    } else {
        let before = sent_blocks(op, state, events.drop_last());
        let action = last_step(op, state, events).action;
        if action is SendDataBlock {
            before.push(action)
        } else {
            before
        }
    }
}

/// A block of an insert is sent once at most, and as it was handed over. Its caller is told that it
/// is done exactly where it was sent and that write succeeded.
pub proof fn blocks_are_done_once_they_are_written(
    column_bytes: Vec<u8>,
    num_columns: usize,
    num_rows: usize,
    state: ActorState,
    events: Seq<(Event, bool)>,
)
    requires
        plays(Op::BlockPolling { column_bytes, num_columns, num_rows }, state, events),
        events.len() > 0,
    ensures
        ({
            let op = Op::BlockPolling { column_bytes, num_columns, num_rows };
            let sent = sent_blocks(op, state, events);
            let block = Action::SendDataBlock { column_bytes, num_columns, num_rows };
            &&& sent == Seq::<Action>::empty() || sent == seq![block]
            &&& told(last_step(op, state, events)) == Some(Reply::Done(Ok(()))) <==> sent
                == seq![block] && (events.last().0 matches Event::Written(w) && w is Ok)
        }),
{
    let block = Action::SendDataBlock { column_bytes, num_columns, num_rows };
    assert(seq![block].len() == 1);
    lemma_block_is_sent_once(column_bytes, num_columns, num_rows, state, events.drop_last());
    lemma_block_is_sent_once(column_bytes, num_columns, num_rows, state, events);
}

proof fn lemma_block_is_sent_once(
    column_bytes: Vec<u8>,
    num_columns: usize,
    num_rows: usize,
    state: ActorState,
    events: Seq<(Event, bool)>,
)
    requires
        plays(Op::BlockPolling { column_bytes, num_columns, num_rows }, state, events),
    ensures
        ({
            let start = Op::BlockPolling { column_bytes, num_columns, num_rows };
            let op = after_events(start, state, events).0;
            let sent = sent_blocks(start, state, events);
            let block = Action::SendDataBlock { column_bytes, num_columns, num_rows };
            &&& op == start || op is BlockDraining || op is BlockSent || op is Resting
            &&& op == start || op is BlockDraining ==> sent == Seq::<Action>::empty()
            &&& op is BlockSent ==> sent == seq![block]
            &&& sent == Seq::<Action>::empty() || sent == seq![block]
        }),
    decreases events.len(),
{
    if events.len() > 0 {
        lemma_block_is_sent_once(column_bytes, num_columns, num_rows, state, events.drop_last());
        assert(Seq::<Action>::empty().push(
            Action::SendDataBlock { column_bytes, num_columns, num_rows },
        ) =~= seq![Action::SendDataBlock { column_bytes, num_columns, num_rows }]);
    }
}

/// What a command sends first is answered by whether it could be written, and a block by whether a
/// packet waits.
pub proof fn first_actions_have_expected_events(
    w: std::result::Result<(), Error>,
    p: Polled,
    keepalive: bool,
    column_bytes: Vec<u8>,
    num_columns: usize,
    num_rows: usize,
)
    ensures
        connection_actor::expected(Op::PingSent { keepalive }, Event::Written(w)),
        connection_actor::expected(Op::QuerySent, Event::Written(w)),
        connection_actor::expected(Op::StreamSent, Event::Written(w)),
        connection_actor::expected(Op::BeginSent, Event::Written(w)),
        connection_actor::expected(Op::FinishSent, Event::Written(w)),
        connection_actor::expected(
            Op::BlockPolling { column_bytes, num_columns, num_rows },
            Event::Polled(p),
        ),
{
}

} // verus!
