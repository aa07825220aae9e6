//! Rows of a native query, as they come.
//!
//! A [`NativeRowCursor`] holds the rows that have arrived and says what is to be done for
//! the next one: take it, start the query, or wait for the next packet, which is then
//! handed to the cursor.
use vstd::prelude::*;
use std::collections::VecDeque;

use crate::error::Error;

verus! {

/// How many packets may wait for a cursor to read them.
pub const STREAM_CAPACITY: usize = 64;

/// How far a cursor has come.
#[derive(Debug, Clone, Copy, PartialEq, Eq, Structural)]
pub enum CursorState {
    /// The query has not been sent.
    NotStarted,
    /// Packets are coming.
    Reading,
    /// No more packets come.
    Done,
}

/// What there is to know of a packet.
#[derive(Debug)]
pub enum CursorPacket {
    EndOfStream,
    /// A block of rows, each as bytes.
    Data { num_rows: u64, row_data: Vec<Vec<u8>> },
    Exception(String),
    Progress,
    ProfileInfo,
    Other,
}

/// What came of waiting for a packet.
#[derive(Debug)]
pub enum CursorEvent {
    Packet(CursorPacket),
    Failed(Error),
    /// No packet can come any more.
    Closed,
}

/// What is to be done for the next row.
#[derive(Debug)]
pub enum CursorStep {
    /// Take this row.
    Row(Vec<u8>),
    /// There is none.
    End,
    /// Send the query.
    Start,
    /// Wait for the next packet.
    Receive,
}

/// What observers of a query are told.
#[derive(Debug, Clone, Copy, PartialEq, Eq, Structural)]
pub enum Notice {
    Progress,
    ProfileInfo,
}

/// A cursor over the rows of a query.
#[derive(Debug)]
pub struct NativeRowCursor {
    pub sql: String,
    pub query_id: String,
    pub settings: Vec<(String, String)>,
    pub row_buf: VecDeque<Vec<u8>>,
    pub state: CursorState,
}

/// The rows that a packet brings. A block without rows brings none.
pub open spec fn rows_in(event: CursorEvent) -> Seq<Vec<u8>> {
    match event {
        CursorEvent::Packet(CursorPacket::Data { num_rows, row_data }) => if num_rows > 0 {
            row_data@
        } else {
            Seq::empty()
        },
        _ => Seq::empty(),
    }
}

/// A packet that ends the answer, or the failure to get one.
pub open spec fn ends(event: CursorEvent) -> bool {
    match event {
        CursorEvent::Packet(CursorPacket::EndOfStream) => true,
        CursorEvent::Packet(CursorPacket::Exception(_)) => true,
        CursorEvent::Packet(_) => false,
        _ => true,
    }
}

/// What observers are told of a packet.
pub open spec fn notice(event: CursorEvent) -> Option<Notice> {
    match event {
        CursorEvent::Packet(CursorPacket::Progress) => Some(Notice::Progress),
        CursorEvent::Packet(CursorPacket::ProfileInfo) => Some(Notice::ProfileInfo),
        _ => None,
    }
}

/// The rows that a sequence of packets brings, in order.
pub open spec fn all_rows(events: Seq<CursorEvent>) -> Seq<Vec<u8>>
    decreases events.len(),
{
    if events.len() == 0 {
        Seq::empty()
    } else {
        all_rows(events.drop_last()) + rows_in(events.last())
    }
}

impl NativeRowCursor {
    /// A cursor over the rows of a query that has not been sent.
    pub fn new(sql: String, query_id: String, settings: Vec<(String, String)>) -> (r: Self)
        ensures
            r.sql == sql,
            r.query_id == query_id,
            r.settings == settings,
            r.row_buf@ == Seq::<Vec<u8>>::empty(),
            r.state == CursorState::NotStarted,
    {
        NativeRowCursor {
            sql,
            query_id,
            settings,
            row_buf: VecDeque::new(),
            state: CursorState::NotStarted,
        }
    }

    /// What is to be done for the next row: the first row that waits, if there is one.
    pub fn next(&mut self) -> (r: CursorStep)
        ensures
            final(self).state == old(self).state,
            final(self).sql == old(self).sql,
            final(self).query_id == old(self).query_id,
            final(self).settings == old(self).settings,
            old(self).row_buf@.len() > 0 ==> r == CursorStep::Row(old(self).row_buf@[0])
                && final(self).row_buf@ == old(self).row_buf@.skip(1),
            old(self).row_buf@.len() == 0 ==> final(self).row_buf@ == old(self).row_buf@ && r == (
            match old(self).state {
                CursorState::Done => CursorStep::End,
                CursorState::NotStarted => CursorStep::Start,
                CursorState::Reading => CursorStep::Receive,
            }),
    {
        if let Some(row) = self.row_buf.pop_front() {
            return CursorStep::Row(row);
        }
        match self.state {
            CursorState::Done => CursorStep::End,
            CursorState::NotStarted => CursorStep::Start,
            CursorState::Reading => CursorStep::Receive,
        }
    }

    /// Takes what came of sending the query. Where it could not be sent, it can be tried
    /// again.
    pub fn started(&mut self, outcome: std::result::Result<(), Error>) -> (r: std::result::Result<
        (),
        Error,
    >)
        requires
            old(self).state == CursorState::NotStarted,
        ensures
            r == outcome,
            final(self).state == (if outcome is Ok {
                CursorState::Reading
            } else {
                CursorState::NotStarted
            }),
            final(self).row_buf@ == old(self).row_buf@,
            final(self).sql == old(self).sql,
            final(self).query_id == old(self).query_id,
            final(self).settings == old(self).settings,
    {
        if outcome.is_ok() {
            self.state = CursorState::Reading;
        }
        outcome
    }

    /// Takes what came of waiting for a packet: its rows wait behind those that already
    /// do. An exception or a failure ends the cursor and is reported once.
    pub fn feed(&mut self, event: CursorEvent) -> (r: std::result::Result<Option<Notice>, Error>)
        requires
            old(self).state == CursorState::Reading,
        ensures
            final(self).row_buf@ == old(self).row_buf@ + rows_in(event),
            final(self).state == (if ends(event) {
                CursorState::Done
            } else {
                CursorState::Reading
            }),
            final(self).sql == old(self).sql,
            final(self).query_id == old(self).query_id,
            final(self).settings == old(self).settings,
            (match event {
                CursorEvent::Packet(CursorPacket::Exception(s)) => r == Err::<
                    Option<Notice>,
                    Error,
                >(Error::BadResponse(s)),
                CursorEvent::Failed(e) => r == Err::<Option<Notice>, Error>(e),
                CursorEvent::Closed => r matches Err(Error::Custom(s)) && s@
                    == "connection actor closed mid-stream"@,
                event => r == Ok::<Option<Notice>, Error>(notice(event)),
            }),
    {
        let ghost before = self.row_buf@;
        proof {
            assert(before + Seq::empty() =~= before);
        }
        match event {
            CursorEvent::Packet(CursorPacket::EndOfStream) => {
                self.state = CursorState::Done;
                Ok(None)
            },
            CursorEvent::Packet(CursorPacket::Data { num_rows, row_data }) => {
                if num_rows > 0 {
                    let ghost all = row_data@;
                    for row in it: row_data
                        invariant
                            it.seq() == all,
                            self.row_buf@ == before + all.take(it.index()),
                            self.state == old(self).state,
                            self.sql == old(self).sql,
                            self.query_id == old(self).query_id,
                            self.settings == old(self).settings,
                    {
                        proof {
                            assert(all.take(it.index() + 1) =~= all.take(it.index()).push(row));
                        }
                        self.row_buf.push_back(row);
                    }
                    proof {
                        assert(all.take(all.len() as int) =~= all);
                    }
                }
                Ok(None)
            },
            CursorEvent::Packet(CursorPacket::Exception(s)) => {
                self.state = CursorState::Done;
                Err(Error::BadResponse(s))
            },
            CursorEvent::Packet(CursorPacket::Progress) => Ok(Some(Notice::Progress)),
            CursorEvent::Packet(CursorPacket::ProfileInfo) => Ok(Some(Notice::ProfileInfo)),
            CursorEvent::Packet(CursorPacket::Other) => Ok(None),
            CursorEvent::Failed(e) => {
                self.state = CursorState::Done;
                Err(e)
            },
            CursorEvent::Closed => {
                self.state = CursorState::Done;
                Err(Error::Custom("connection actor closed mid-stream".to_owned()))
            },
        }
    }

    /// Takes what came of waiting for a packet whose rows nobody wants: the end of the
    /// answer, or nothing where more is to come.
    pub fn drain(&mut self, event: CursorEvent) -> (r: Option<std::result::Result<(), Error>>)
        requires
            old(self).state == CursorState::Reading,
        ensures
            final(self).row_buf@ == old(self).row_buf@,
            final(self).state == (if ends(event) {
                CursorState::Done
            } else {
                CursorState::Reading
            }),
            final(self).sql == old(self).sql,
            final(self).query_id == old(self).query_id,
            final(self).settings == old(self).settings,
            r == (match event {
                CursorEvent::Packet(CursorPacket::EndOfStream) => Some(
                    Ok::<(), Error>(()),
                ),
                CursorEvent::Closed => Some(Ok::<(), Error>(())),
                CursorEvent::Packet(CursorPacket::Exception(s)) => Some(
                    Err::<(), Error>(Error::BadResponse(s)),
                ),
                CursorEvent::Failed(e) => Some(Err::<(), Error>(e)),
                CursorEvent::Packet(_) => None,
            }),
    {
        match event {
            CursorEvent::Packet(CursorPacket::EndOfStream) => {
                self.state = CursorState::Done;
                Some(Ok(()))
            },
            CursorEvent::Closed => {
                self.state = CursorState::Done;
                Some(Ok(()))
            },
            CursorEvent::Packet(CursorPacket::Exception(s)) => {
                self.state = CursorState::Done;
                Some(Err(Error::BadResponse(s)))
            },
            CursorEvent::Failed(e) => {
                self.state = CursorState::Done;
                Some(Err(e))
            },
            CursorEvent::Packet(_) => None,
        }
    }
}

/// What a cursor has handed out and what still waits, in that order, is what the packets
/// brought: no row is lost, repeated or out of order. `out` are the rows handed out before
/// a call of `next` that gives the row `row` and leaves `rest` waiting.
pub proof fn rows_come_in_order(
    events: Seq<CursorEvent>,
    event: CursorEvent,
    out: Seq<Vec<u8>>,
    waiting: Seq<Vec<u8>>,
)
    requires
        out + waiting == all_rows(events),
    ensures
        out + (waiting + rows_in(event)) == all_rows(events.push(event)),
        waiting.len() > 0 ==> out.push(waiting[0]) + waiting.skip(1) == all_rows(events),
{
    assert(events.push(event).drop_last() =~= events);
    assert(out + (waiting + rows_in(event)) =~= out + waiting + rows_in(event));
    if waiting.len() > 0 {
        assert(out.push(waiting[0]) + waiting.skip(1) =~= out + waiting);
    }
}

/// A block brings all its rows, in their order, and nothing else brings rows. A block that counts no
/// row brings none.
pub proof fn blocks_bring_their_rows(event: CursorEvent)
    ensures
        event matches CursorEvent::Packet(CursorPacket::Data { num_rows, row_data }) ==> (num_rows
            > 0 ==> rows_in(event) == row_data@) && (num_rows == 0 ==> rows_in(event).len() == 0),
        rows_in(event).len() > 0 ==> (event matches CursorEvent::Packet(p) && p is Data),
{
}

/// The answer goes on exactly until the server has ended it, has reported an exception, or can no
/// longer be heard: no block of rows ends it.
pub proof fn answers_end_with_their_last_packet(event: CursorEvent)
    ensures
        ends(event) <==> match event {
            CursorEvent::Packet(p) => p is EndOfStream || p is Exception,
            CursorEvent::Failed(_) | CursorEvent::Closed => true,
        },
        notice(event) is Some ==> !ends(event) && rows_in(event).len() == 0,
        notice(event) == Some(Notice::Progress) <==> event == CursorEvent::Packet(
            CursorPacket::Progress,
        ),
        notice(event) == Some(Notice::ProfileInfo) <==> event == CursorEvent::Packet(
            CursorPacket::ProfileInfo,
        ),
{
}

} // verus!
