use clickhouse::duration::Duration;
use clickhouse::error::Error;
use clickhouse::native::connection::{
    call_outcome, default_keepalive, is_alive, stream_outcome, PendingCall,
};
use clickhouse::native::connection_actor::{
    Action, ActorError, ActorState, ConnectionActor, ConnectionCmd, Event, Received, Reply,
    ServerPacket,
};
use clickhouse::native::cursor::{
    CursorEvent, CursorPacket, CursorState, CursorStep, NativeRowCursor, Notice,
};
use clickhouse::settings::merge_settings;

fn packet(p: ServerPacket) -> Event {
    Event::Received(Received::Packet(p))
}

#[test]
fn a_ping_is_answered() {
    let mut actor = ConnectionActor::new(Vec::new());
    assert!(matches!(actor.handle(ConnectionCmd::Ping), Action::SendPing));
    assert!(matches!(actor.resume(Event::Written(Ok(())), false), Action::Receive));
    let done = actor.resume(packet(ServerPacket::Pong), false);
    assert!(matches!(done, Action::Finish(Some(Reply::Done(Ok(()))))));
    assert!(!actor.poisoned);
}

#[test]
fn a_query_runs_to_its_end() {
    let base = vec![("max_threads".to_string(), "1".to_string())];
    let mut actor = ConnectionActor::new(base);
    let cmd = ConnectionCmd::ExecuteQuery {
        query_id: "q".to_string(),
        query: "SELECT 1".to_string(),
        extra_settings: vec![("max_threads".to_string(), "2".to_string())],
    };
    match actor.handle(cmd) {
        Action::SendQuery { query_id, query, settings } => {
            assert_eq!((query_id.as_str(), query.as_str()), ("q", "SELECT 1"));
            assert_eq!(settings, vec![("max_threads".to_string(), "2".to_string())]);
        }
        other => panic!("expected SendQuery, got {other:?}"),
    }
    assert!(matches!(actor.resume(Event::Written(Ok(())), false), Action::Receive));
    assert!(matches!(actor.resume(packet(ServerPacket::Other), false), Action::Receive));
    let done = actor.resume(packet(ServerPacket::EndOfStream), false);
    assert!(matches!(done, Action::Finish(Some(Reply::Done(Ok(()))))));
}

#[test]
fn an_exception_fails_the_query_and_not_the_connection() {
    let mut actor = ConnectionActor::new(Vec::new());
    actor.handle(ConnectionCmd::ExecuteQuery {
        query_id: String::new(),
        query: "SELECT x".to_string(),
        extra_settings: Vec::new(),
    });
    actor.resume(Event::Written(Ok(())), false);
    let done = actor.resume(packet(ServerPacket::Exception("no x".to_string())), false);
    match done {
        Action::Finish(Some(Reply::Done(Err(e)))) => {
            assert!(e.into_error().message().contains("no x"));
        }
        other => panic!("expected a failure, got {other:?}"),
    }
    assert!(!actor.poisoned);
}

#[test]
fn a_caller_that_is_gone_cancels() {
    let mut actor = ConnectionActor::new(Vec::new());
    actor.handle(ConnectionCmd::ExecuteQuery {
        query_id: String::new(),
        query: "SELECT 1".to_string(),
        extra_settings: Vec::new(),
    });
    actor.resume(Event::Written(Ok(())), false);
    assert!(matches!(actor.resume(packet(ServerPacket::Other), true), Action::SendCancel));
    assert!(matches!(actor.resume(Event::Written(Ok(())), true), Action::Receive));
    assert!(matches!(
        actor.resume(packet(ServerPacket::EndOfStream), true),
        Action::Finish(_)
    ));
    assert!(!actor.poisoned);
}

#[test]
fn commands_must_fit_the_state() {
    let mut actor = ConnectionActor::new(Vec::new());
    match actor.handle(ConnectionCmd::FinishInsert) {
        Action::Finish(Some(Reply::Done(Err(ActorError::Busy(state))))) => {
            assert_eq!(state, ActorState::Idle);
        }
        other => panic!("expected a rejection, got {other:?}"),
    }
    actor.handle(ConnectionCmd::BeginInsert { query: "INSERT".to_string() });
    actor.resume(Event::Written(Ok(())), false);
    let columns = vec![("a".to_string(), "UInt8".to_string())];
    match actor.resume(packet(ServerPacket::Data(columns.clone())), false) {
        Action::Finish(Some(Reply::Headers(Ok(headers)))) => assert_eq!(headers, columns),
        other => panic!("expected headers, got {other:?}"),
    }
    assert_eq!(actor.state, ActorState::InsertActive);
    assert!(matches!(
        actor.handle(ConnectionCmd::Ping),
        Action::Finish(Some(Reply::Done(Err(ActorError::Busy(ActorState::InsertActive)))))
    ));
}

#[test]
fn a_broken_write_poisons_the_connection() {
    let mut actor = ConnectionActor::new(Vec::new());
    actor.handle(ConnectionCmd::Ping);
    let done = actor.resume(Event::Written(Err(Error::TimedOut)), false);
    assert!(matches!(done, Action::Finish(Some(Reply::Done(Err(ActorError::Io(Error::TimedOut)))))));
    assert!(actor.poisoned);
}

#[test]
fn idle_connections_are_kept_alive() {
    let mut actor = ConnectionActor::new(Vec::new());
    assert!(actor.on_idle(Duration::from_secs(1), Duration::from_secs(30)).is_none());
    let action = actor.on_idle(Duration::from_secs(31), Duration::from_secs(30));
    assert!(matches!(action, Some(Action::SendPing)));
    assert!(matches!(actor.resume(Event::Written(Ok(())), false), Action::Receive));
    let done = actor.resume(Event::Received(Received::Closed), false);
    assert!(matches!(done, Action::Finish(None)));
    assert!(actor.poisoned);
}

#[test]
fn settings_of_a_query_win() {
    let pair = |a: &str, b: &str| (a.to_string(), b.to_string());
    let base = vec![pair("a", "1"), pair("b", "2")];
    let extra = vec![pair("b", "3"), pair("c", "4")];
    assert_eq!(
        merge_settings(&base, &extra),
        vec![pair("a", "1"), pair("b", "3"), pair("c", "4")]
    );
}

#[test]
fn a_cursor_gives_rows_in_order() {
    let mut cursor = NativeRowCursor::new("SELECT".to_string(), String::new(), Vec::new());
    assert!(matches!(cursor.next(), CursorStep::Start));
    cursor.started(Ok(())).unwrap();
    assert!(matches!(cursor.next(), CursorStep::Receive));
    let notice = cursor.feed(CursorEvent::Packet(CursorPacket::Progress)).unwrap();
    assert_eq!(notice, Some(Notice::Progress));
    let block = CursorPacket::Data { num_rows: 2, row_data: vec![vec![1], vec![2]] };
    cursor.feed(CursorEvent::Packet(block)).unwrap();
    assert!(matches!(cursor.next(), CursorStep::Row(row) if row == vec![1]));
    assert!(matches!(cursor.next(), CursorStep::Row(row) if row == vec![2]));
    cursor.feed(CursorEvent::Packet(CursorPacket::EndOfStream)).unwrap();
    assert!(matches!(cursor.next(), CursorStep::End));
    assert_eq!(cursor.state, CursorState::Done);
}

#[test]
fn a_cursor_ends_at_an_exception() {
    let mut cursor = NativeRowCursor::new("SELECT".to_string(), String::new(), Vec::new());
    cursor.next();
    cursor.started(Ok(())).unwrap();
    let event = CursorEvent::Packet(CursorPacket::Exception("stop".to_string()));
    assert!(cursor.feed(event).is_err());
    assert!(matches!(cursor.next(), CursorStep::End));
}

#[test]
fn callers_learn_that_a_connection_is_gone() {
    let closed = call_outcome::<()>(PendingCall::Ping, false, None);
    assert!(matches!(closed, Err(Error::Custom(s)) if s == "connection actor closed"));
    let dropped = call_outcome::<()>(PendingCall::BeginInsert, true, None);
    assert!(matches!(
        dropped,
        Err(Error::Custom(s)) if s == "connection actor dropped during BeginInsert"
    ));
    assert_eq!(call_outcome(PendingCall::Query, true, Some(Ok(7u8))).unwrap(), 7);
    assert_eq!(stream_outcome(true, 5u8).unwrap(), 5);
    assert!(stream_outcome(false, 5u8).is_err());
    assert!(is_alive(true, false) && !is_alive(true, true) && !is_alive(false, false));
    assert_eq!(default_keepalive(), Duration::from_secs(120));
}
