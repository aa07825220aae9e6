//! Rows into any sink, with flushes by count, size and time.
use vstd::prelude::*;

use crate::duration::Duration;
use crate::error::{Error, Result};
use crate::sink::{self, BatchSink, FlushStats, Row, Sink, StreamSink};

verus! {

/// When an inserter flushes by itself. Without any limit it never does.
#[derive(Debug, Clone, Copy, PartialEq, Eq, Structural)]
pub struct FlushPolicy {
    pub max_rows: Option<u64>,
    pub max_bytes: Option<u64>,
    pub max_elapsed: Option<Duration>,
}

/// No limit at all.
pub open spec fn no_limits() -> FlushPolicy {
    FlushPolicy { max_rows: None, max_bytes: None, max_elapsed: None }
}

/// A limit is reached.
pub open spec fn is_due(policy: FlushPolicy, rows: int, bytes: int, elapsed: Duration) -> bool {
    ||| policy.max_rows matches Some(m) && rows >= m
    ||| policy.max_bytes matches Some(m) && bytes >= m
    ||| policy.max_elapsed matches Some(m) && elapsed.nanos >= m.nanos
}

/// Without limits an inserter is flushed by hand alone.
pub proof fn nothing_is_due_without_limits(rows: int, bytes: int, elapsed: Duration)
    ensures
        !is_due(no_limits(), rows, bytes, elapsed),
{
}

impl Default for FlushPolicy {
    fn default() -> (r: FlushPolicy)
        ensures
            r == no_limits(),
    {
        FlushPolicy { max_rows: None, max_bytes: None, max_elapsed: None }
    }
}

impl FlushPolicy {
    /// Flushes after so many rows.
    pub fn with_max_rows(self, rows: u64) -> (r: FlushPolicy)
        ensures
            r == (FlushPolicy { max_rows: Some(rows), ..self }),
    {
        let mut out = self;
        out.max_rows = Some(rows);
        out
    }

    /// Flushes after so many bytes.
    pub fn with_max_bytes(self, bytes: u64) -> (r: FlushPolicy)
        ensures
            r == (FlushPolicy { max_bytes: Some(bytes), ..self }),
    {
        let mut out = self;
        out.max_bytes = Some(bytes);
        out
    }

    /// Flushes after so much time.
    pub fn with_max_elapsed(self, period: Duration) -> (r: FlushPolicy)
        ensures
            r == (FlushPolicy { max_elapsed: Some(period), ..self }),
    {
        let mut out = self;
        out.max_elapsed = Some(period);
        out
    }
}

/// A number of bytes, or the largest that is counted.
pub open spec fn saturated(n: nat) -> u64 {
    if n > u64::MAX {
        u64::MAX
    } else {
        n as u64
    }
}

fn add_bytes(a: u64, b: u64) -> (r: u64)
    ensures
        r == saturated((a + b) as nat),
{
    if a > u64::MAX - b {
        u64::MAX
    } else {
        a + b
    }
}

/// What was taken since the last flush. Moments are given as the time since some fixed moment.
#[derive(Debug, Clone, Copy, PartialEq, Eq, Structural)]
pub struct Pending {
    pub policy: FlushPolicy,
    pub rows: u64,
    /// The bytes of these rows, up to the largest number that is counted.
    pub bytes: u64,
    /// When the sink was flushed last.
    pub since_flush: Duration,
}

impl Pending {
    /// How long ago the last flush was.
    pub open spec fn elapsed(&self, now: Duration) -> Duration {
        Duration {
            nanos: if now.nanos >= self.since_flush.nanos {
                (now.nanos - self.since_flush.nanos) as u128
            } else {
                0
            },
        }
    }

    /// A flush is due.
    pub open spec fn due(&self, now: Duration) -> bool {
        is_due(self.policy, self.rows as int, self.bytes as int, self.elapsed(now))
    }

    /// Nothing was taken.
    pub fn new(policy: FlushPolicy, now: Duration) -> (r: Pending)
        ensures
            r == (Pending { policy, rows: 0, bytes: 0, since_flush: now }),
    {
        Pending { policy, rows: 0, bytes: 0, since_flush: now }
    }

    /// What was taken when `rows` more rows with `bytes` bytes are.
    pub open spec fn with(&self, rows: nat, bytes: nat) -> Pending {
        Pending {
            rows: (self.rows + rows) as u64,
            bytes: saturated(self.bytes as nat + bytes),
            ..*self
        }
    }

    /// Counts rows that the sink took, and their bytes. Gives whether a flush is due.
    pub fn took(&mut self, rows: u64, bytes: u64, now: Duration) -> (r: bool)
        requires
            old(self).rows + rows <= u64::MAX,
        ensures
            *final(self) == old(self).with(rows as nat, bytes as nat),
            r == final(self).due(now),
    {
        self.rows = self.rows + rows;
        self.bytes = add_bytes(self.bytes, bytes);
        self.should_flush(now)
    }

    /// Counting starts anew after a flush that succeeded.
    pub fn flushed(&mut self, now: Duration)
        ensures
            *final(self) == (Pending { rows: 0, bytes: 0, since_flush: now, ..*old(self) }),
    {
        self.rows = 0;
        self.bytes = 0;
        self.since_flush = now;
    }

    /// Whether a limit is reached.
    pub fn should_flush(&self, now: Duration) -> (r: bool)
        ensures
            r == self.due(now),
    {
        let elapsed: u128 = if now.nanos >= self.since_flush.nanos {
            now.nanos - self.since_flush.nanos
        } else {
            0
        };
        let rows = match self.policy.max_rows {
            Some(m) => self.rows >= m,
            None => false,
        };
        let bytes = match self.policy.max_bytes {
            Some(m) => self.bytes >= m,
            None => false,
        };
        let time = match self.policy.max_elapsed {
            Some(m) => elapsed >= m.nanos,
            None => false,
        };
        rows || bytes || time
    }
}

/// Takes rows for a sink and flushes it when a limit is reached.
pub struct Inserter<S: Sink> {
    pub sink: S,
    pub pending: Pending,
}

impl<S: Sink> Inserter<S> {
    /// An inserter without limits.
    pub fn new(sink: S, now: Duration) -> (r: Inserter<S>)
        ensures
            r == (Inserter {
                sink,
                pending: Pending { policy: no_limits(), rows: 0, bytes: 0, since_flush: now },
            }),
    {
        Inserter { sink, pending: Pending::new(FlushPolicy::default(), now) }
    }

    /// Sets the limits.
    pub fn with_policy(self, policy: FlushPolicy) -> (r: Inserter<S>)
        ensures
            r == (Inserter { pending: Pending { policy, ..self.pending }, ..self }),
    {
        let mut out = self;
        out.pending.policy = policy;
        out
    }

    /// Flushes the sink. Counting starts anew if that succeeds, and goes on if it does not.
    pub fn flush(&mut self, now: Duration) -> (r: Result<FlushStats>)
        ensures
            r is Ok ==> final(self).pending == (Pending {
                rows: 0,
                bytes: 0,
                since_flush: now,
                ..old(self).pending
            }),
            r is Err ==> final(self).pending == old(self).pending,
            S::flushes(old(self).sink, final(self).sink, r),
    {
        let r = self.sink.flush();
        if r.is_ok() {
            self.pending.flushed(now);
        }
        r
    }

    /// Flushes the sink for the last time.
    pub fn end(self, now: Duration) -> (r: Result<FlushStats>)
        ensures
            exists|after: S| #[trigger] S::flushes(self.sink, after, r),
    {
        let mut last = self;
        last.flush(now)
    }

    /// Whether a limit is reached.
    pub fn should_flush(&self, now: Duration) -> (r: bool)
        ensures
            r == self.pending.due(now),
    {
        self.pending.should_flush(now)
    }
}

/// What becomes of an inserter once its sink took rows: `taken` is the sink then. They and their
/// bytes are counted, and where that reaches a limit the sink is flushed. An error of the flush is
/// reported, and counting then goes on.
pub open spec fn settles<S: Sink>(
    before: Inserter<S>,
    taken: S,
    rows: nat,
    bytes: nat,
    now: Duration,
    after: Inserter<S>,
    r: Result<()>,
) -> bool {
    let counted = before.pending.with(rows, bytes);
    if counted.due(now) {
        exists|flushed: Result<FlushStats>| #[trigger]
            S::flushes(taken, after.sink, flushed) && (match flushed {
                Ok(_) => r is Ok && after.pending == (Pending {
                    rows: 0,
                    bytes: 0,
                    since_flush: now,
                    ..counted
                }),
                Err(e) => r == std::result::Result::<(), Error>::Err(e) && after.pending
                    == counted,
            })
    } else {
        &&& r is Ok
        &&& after.sink == taken
        &&& after.pending == counted
    }
}

/// What becomes of an inserter whose sink refused rows: nothing is counted.
pub open spec fn refuses<S: Sink>(
    before: Inserter<S>,
    refused: S,
    e: Error,
    after: Inserter<S>,
    r: Result<()>,
) -> bool {
    &&& r == std::result::Result::<(), Error>::Err(e)
    &&& after == (Inserter { sink: refused, ..before })
}

impl<S: Sink> Inserter<S> {
    fn settle(&mut self, rows: u64, bytes: u64, now: Duration) -> (r: Result<()>)
        requires
            old(self).pending.rows + rows <= u64::MAX,
        ensures
            settles(
                *old(self),
                old(self).sink,
                rows as nat,
                bytes as nat,
                now,
                *final(self),
                r,
            ),
    {
        if self.pending.took(rows, bytes, now) {
            match self.flush(now) {
                Ok(_) => Ok(()),
                Err(e) => Err(e),
            }
        } else {
            Ok(())
        }
    }
}

/// How many bytes rows have together, as far as they are counted.
fn count_bytes<T: Row>(rows: &[T]) -> (r: u64)
    ensures
        r == saturated(sink::bytes_of(sink::serialised_rows(rows@))),
{
    let ghost all = sink::serialised_rows(rows@);
    let mut bytes: u64 = 0;
    let mut i: usize = 0;
    proof {
        assert(all.take(0) =~= Seq::empty());
    }
    while i < rows.len()
        invariant
            i <= rows@.len(),
            all == sink::serialised_rows(rows@),
            bytes == saturated(sink::bytes_of(all.take(i as int))),
        decreases rows@.len() - i,
    {
        proof {
            assert(all.take(i + 1).drop_last() =~= all.take(i as int));
            assert(all.take(i + 1).last() == rows@[i as int].serialised());
        }
        bytes = add_bytes(bytes, rows[i].serialised_len());
        i += 1;
    }
    proof {
        assert(all.take(i as int) =~= all);
    }
    bytes
}

impl<S: StreamSink> Inserter<S> {
    /// Hands a row to the sink, and flushes it where that reaches a limit.
    pub fn write<T: Row>(&mut self, row: &T, now: Duration) -> (r: Result<()>)
        requires
            old(self).sink.has_room(1),
            old(self).pending.rows < u64::MAX,
        ensures
            exists|taken: S, written: Result<()>| #[trigger]
                S::takes_row(old(self).sink, row.serialised(), taken, written) && (match written {
                    Ok(_) => settles(
                        *old(self),
                        taken,
                        1,
                        row.serialised().len(),
                        now,
                        *final(self),
                        r,
                    ),
                    Err(e) => refuses(*old(self), taken, e, *final(self), r),
                }),
    {
        let ghost before = *self;
        let written = self.sink.write_row(row);
        let ghost taken = self.sink;
        proof {
            assert(S::takes_row(before.sink, row.serialised(), taken, written));
        }
        match written {
            Ok(_) => self.settle(1, row.serialised_len(), now),
            Err(e) => Err(e),
        }
    }
}

impl<S: BatchSink> Inserter<S> {
    /// Hands a batch to the sink, and flushes it where that reaches a limit.
    pub fn write_all<T: Row>(&mut self, rows: &[T], now: Duration) -> (r: Result<()>)
        requires
            old(self).sink.has_room(rows@.len()),
            old(self).pending.rows + rows@.len() <= u64::MAX,
        ensures
            exists|taken: S, written: Result<()>| #[trigger]
                S::takes_batch(
                    old(self).sink,
                    sink::serialised_rows(rows@),
                    taken,
                    written,
                ) && (match written {
                    Ok(_) => settles(
                        *old(self),
                        taken,
                        rows@.len(),
                        sink::bytes_of(sink::serialised_rows(rows@)),
                        now,
                        *final(self),
                        r,
                    ),
                    Err(e) => refuses(*old(self), taken, e, *final(self), r),
                }),
    {
        let ghost before = *self;
        let written = self.sink.write_batch(rows);
        let ghost taken = self.sink;
        proof {
            assert(S::takes_batch(
                before.sink,
                sink::serialised_rows(rows@),
                taken,
                written,
            ));
        }
        match written {
            Ok(_) => {
                let bytes: u64 = count_bytes(rows);
                proof {
                    let all = sink::bytes_of(sink::serialised_rows(rows@));
                    assert(before.pending.with(rows@.len(), all) == before.pending.with(
                        rows@.len(),
                        bytes as nat,
                    ));
                }
                self.settle(rows.len() as u64, bytes, now)
            },
            Err(e) => Err(e),
        }
    }
}

/// Each limit counts on its own: a flush is due where one that is set is reached, and a limit that is
/// not set never makes it due.
pub proof fn each_limit_counts_on_its_own(
    rows: int,
    bytes: int,
    elapsed: Duration,
    m: u64,
    period: Duration,
    policy: FlushPolicy,
)
    ensures
        is_due(FlushPolicy { max_rows: Some(m), ..no_limits() }, rows, bytes, elapsed) <==> rows >= m,
        is_due(FlushPolicy { max_bytes: Some(m), ..no_limits() }, rows, bytes, elapsed) <==> bytes
            >= m,
        is_due(FlushPolicy { max_elapsed: Some(period), ..no_limits() }, rows, bytes, elapsed)
            <==> elapsed.nanos >= period.nanos,
        is_due(policy, rows, bytes, elapsed) <==> {
            ||| is_due(FlushPolicy { max_rows: policy.max_rows, ..no_limits() }, rows, bytes, elapsed)
            ||| is_due(
                FlushPolicy { max_bytes: policy.max_bytes, ..no_limits() },
                rows,
                bytes,
                elapsed,
            )
            ||| is_due(
                FlushPolicy { max_elapsed: policy.max_elapsed, ..no_limits() },
                rows,
                bytes,
                elapsed,
            )
        },
        no_limits().max_rows is None && no_limits().max_bytes is None && no_limits().max_elapsed
            is None,
{
}

/// Rows and bytes are counted from the last flush on, and the time from its moment; the limits stay as
/// they are. A clock that goes back has counted no time.
pub proof fn counting_starts_at_the_last_flush(
    p: Pending,
    rows: nat,
    bytes: nat,
    now: Duration,
)
    requires
        p.rows + rows <= u64::MAX,
    ensures
        p.with(rows, bytes).rows == p.rows + rows,
        p.bytes + bytes <= u64::MAX ==> p.with(rows, bytes).bytes == p.bytes + bytes,
        p.bytes + bytes > u64::MAX ==> p.with(rows, bytes).bytes == u64::MAX,
        p.with(rows, bytes).policy == p.policy,
        p.with(rows, bytes).since_flush == p.since_flush,
        now.nanos >= p.since_flush.nanos ==> p.elapsed(now).nanos == now.nanos - p.since_flush.nanos,
        now.nanos < p.since_flush.nanos ==> p.elapsed(now).nanos == 0,
        p.due(now) <==> is_due(p.policy, p.rows as int, p.bytes as int, p.elapsed(now)),
{
}

/// Rows that reach no limit are counted and stay with the sink, and that is a success.
pub proof fn rows_below_the_limits_wait<S: Sink>(
    before: Inserter<S>,
    taken: S,
    rows: nat,
    bytes: nat,
    now: Duration,
    after: Inserter<S>,
    r: Result<()>,
)
    requires
        settles(before, taken, rows, bytes, now, after, r),
        !before.pending.with(rows, bytes).due(now),
    ensures
        r is Ok,
        after.sink == taken,
        after.pending == before.pending.with(rows, bytes),
{
}

/// Rows that reach a limit are flushed with all that waited. Where that succeeds, counting starts anew
/// at this moment; where it fails, its error is reported and the rows go on counting.
pub proof fn rows_at_the_limits_are_flushed<S: Sink>(
    before: Inserter<S>,
    taken: S,
    rows: nat,
    bytes: nat,
    now: Duration,
    after: Inserter<S>,
    r: Result<()>,
)
    requires
        settles(before, taken, rows, bytes, now, after, r),
        before.pending.with(rows, bytes).due(now),
    ensures
        r matches Err(e) ==> S::flushes(taken, after.sink, Err(e)) && after.pending
            == before.pending.with(rows, bytes),
        r is Ok ==> (exists|stats: FlushStats| #[trigger] S::flushes(taken, after.sink, Ok(stats)))
            && after.pending.rows == 0 && after.pending.bytes == 0 && after.pending.since_flush == now
            && after.pending.policy == before.pending.policy,
{
    let flushed = choose|flushed: Result<FlushStats>| #[trigger]
        S::flushes(taken, after.sink, flushed) && (match flushed {
            Ok(_) => r is Ok && after.pending == (Pending {
                rows: 0,
                bytes: 0,
                since_flush: now,
                ..before.pending.with(rows, bytes)
            }),
            Err(e) => r == std::result::Result::<(), Error>::Err(e) && after.pending
                == before.pending.with(rows, bytes),
        });
    if let Ok(stats) = flushed {
        assert(S::flushes(taken, after.sink, Ok(stats)));
    }
}

/// Rows that the sink refuses are not counted, and its error is reported as it is.
pub proof fn refused_rows_are_not_counted<S: Sink>(
    before: Inserter<S>,
    refused: S,
    e: Error,
    after: Inserter<S>,
    r: Result<()>,
)
    requires
        refuses(before, refused, e, after, r),
    ensures
        r == std::result::Result::<(), Error>::Err(e),
        after.pending == before.pending,
        after.sink == refused,
{
}

} // verus!
