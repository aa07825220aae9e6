//! What a caller of a connection learns when the connection goes away.
use vstd::prelude::*;

use crate::duration::Duration;
use crate::error::{Error, Result};

verus! {

/// How many commands wait for a connection before callers have to.
pub const DEFAULT_CMD_CHANNEL: usize = 16;

/// How many packets wait for a connection before it stops reading.
pub const PACKET_CHANNEL_CAPACITY: usize = 64;

/// After how much idle time a connection is probed.
pub fn default_keepalive() -> (r: Duration)
    ensures
        r.nanos == 120_000_000_000,
{
    Duration::from_secs(120)
}

/// What a caller waits for.
#[derive(Debug, Clone, Copy, PartialEq, Eq, Structural)]
pub enum PendingCall {
    Ping,
    Query,
    BeginInsert,
    SendInsertBlock,
    FinishInsert,
}

/// How a call reads in an error.
pub open spec fn call_name(call: PendingCall) -> Seq<char> {
    match call {
        PendingCall::Ping => "ping"@,
        PendingCall::Query => "query"@,
        PendingCall::BeginInsert => "BeginInsert"@,
        PendingCall::SendInsertBlock => "SendInsertBlock"@,
        PendingCall::FinishInsert => "FinishInsert"@,
    }
}

fn name_of(call: PendingCall) -> (r: &'static str)
    ensures
        r@ == call_name(call),
{
    match call {
        PendingCall::Ping => "ping",
        PendingCall::Query => "query",
        PendingCall::BeginInsert => "BeginInsert",
        PendingCall::SendInsertBlock => "SendInsertBlock",
        PendingCall::FinishInsert => "FinishInsert",
    }
}

/// What a call comes to. `sent` says whether the connection took the command, and `reply` is
/// its answer, if it gave one before it went away.
pub fn call_outcome<R>(call: PendingCall, sent: bool, reply: Option<Result<R>>) -> (r: Result<R>)
    ensures
        !sent ==> (r matches Err(Error::Custom(s)) && s@ == "connection actor closed"@),
        sent ==> (match reply {
            Some(answer) => r == answer,
            None => r matches Err(Error::Custom(s)) && s@ == "connection actor dropped during "@
                + call_name(call),
        }),
{
    if !sent {
        return Err(Error::Custom("connection actor closed".to_owned()));
    }
    match reply {
        Some(answer) => answer,
        None => {
            let mut told = "connection actor dropped during ".to_owned();
            told.push_str(name_of(call));
            Err(Error::Custom(told))
        },
    }
}

/// What opening a stream of packets comes to: its packets, if the connection took the
/// command.
pub fn stream_outcome<R>(sent: bool, packets: R) -> (r: Result<R>)
    ensures
        sent ==> r == std::result::Result::<R, Error>::Ok(packets),
        !sent ==> (r matches Err(Error::Custom(s)) && s@ == "connection actor closed"@),
{
    if sent {
        Ok(packets)
    } else {
        Err(Error::Custom("connection actor closed".to_owned()))
    }
}

/// Whether a connection can be used again: it runs, and nothing has broken it.
pub fn is_alive(running: bool, poisoned: bool) -> (r: bool)
    ensures
        r == (running && !poisoned),
{
    running && !poisoned
}

/// An error names the call that was under way: no two calls go by one name.
pub proof fn calls_have_names_of_their_own(a: PendingCall, b: PendingCall)
    requires
        call_name(a) == call_name(b),
    ensures
        a == b,
        call_name(PendingCall::Ping) == "ping"@,
        call_name(PendingCall::Query) == "query"@,
        call_name(PendingCall::BeginInsert) == "BeginInsert"@,
        call_name(PendingCall::SendInsertBlock) == "SendInsertBlock"@,
        call_name(PendingCall::FinishInsert) == "FinishInsert"@,
{
    reveal_strlit("ping");
    reveal_strlit("query");
    reveal_strlit("BeginInsert");
    reveal_strlit("SendInsertBlock");
    reveal_strlit("FinishInsert");
    assert(call_name(a).len() == call_name(b).len());
}

} // verus!
