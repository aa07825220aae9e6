//! An inserter that many tasks write to: its configuration, the worker that owns the
//! underlying inserter, and how its end is reported.
use vstd::prelude::*;

use crate::duration::Duration;
use crate::error::{Error, Result};
use crate::text::{self, push_hex};

verus! {

/// How many commands wait for the worker before writers have to.
pub const DEFAULT_CHANNEL_CAPACITY: usize = 8192;

/// What stands in the `log_comment` setting of an inserter. Writers with distinct comments
/// do not share a queue on the server, so that a bad row of one does not fail the others.
#[derive(Debug)]
#[non_exhaustive]
pub enum WriterId {
    /// A generated text, distinct for each inserter.
    Auto,
    /// A given text.
    Custom(String),
    /// No comment.
    Disabled,
}

impl Default for WriterId {
    fn default() -> (r: WriterId)
        ensures
            r is Auto,
    {
        WriterId::Auto
    }
}

impl Clone for WriterId {
    fn clone(&self) -> (r: WriterId)
        ensures
            (match *self {
                WriterId::Custom(s) => r matches WriterId::Custom(t) && t@ == s@,
                other => r == other,
            }),
    {
        match self {
            WriterId::Auto => WriterId::Auto,
            WriterId::Custom(s) => WriterId::Custom(s.clone()),
            WriterId::Disabled => WriterId::Disabled,
        }
    }
}

/// When an inserter sends what it holds.
#[derive(Debug)]
pub struct AsyncInserterConfig {
    /// After so many rows.
    pub max_rows: u64,
    /// After so many bytes.
    pub max_bytes: u64,
    /// After so much time. `None`: never.
    pub max_period: Option<Duration>,
    /// How many commands wait for the worker before writers have to.
    pub channel_capacity: usize,
    pub writer_id: WriterId,
}

impl Default for AsyncInserterConfig {
    fn default() -> (r: AsyncInserterConfig)
        ensures
            r.max_rows == 100_000,
            r.max_bytes == 10 * 1024 * 1024,
            r.max_period matches Some(d) && d.nanos == 5_000_000_000,
            r.channel_capacity == DEFAULT_CHANNEL_CAPACITY,
            r.writer_id is Auto,
            r.is_runnable(),
    {
        AsyncInserterConfig {
            max_rows: 100_000,
            max_bytes: 10 * 1024 * 1024,
            max_period: Some(Duration::from_secs(5)),
            channel_capacity: DEFAULT_CHANNEL_CAPACITY,
            writer_id: WriterId::Auto,
        }
    }
}

impl AsyncInserterConfig {
    /// The configuration can be run: the channel holds a command, and the period takes
    /// time.
    pub open spec fn is_runnable(self) -> bool {
        &&& self.channel_capacity > 0
        &&& self.max_period matches Some(d) ==> d.nanos > 0
    }

    /// Sets after how many rows the inserter sends.
    pub fn with_max_rows(self, n: u64) -> (r: AsyncInserterConfig)
        ensures
            r == (AsyncInserterConfig { max_rows: n, ..self }),
            self.is_runnable() ==> r.is_runnable(),
    {
        let mut out = self;
        out.max_rows = n;
        out
    }

    /// Sets after how many bytes the inserter sends.
    pub fn with_max_bytes(self, n: u64) -> (r: AsyncInserterConfig)
        ensures
            r == (AsyncInserterConfig { max_bytes: n, ..self }),
            self.is_runnable() ==> r.is_runnable(),
    {
        let mut out = self;
        out.max_bytes = n;
        out
    }

    /// Sets after how much time the inserter sends, at least a millisecond.
    pub fn with_max_period(self, d: Duration) -> (r: AsyncInserterConfig)
        ensures
            r == (AsyncInserterConfig {
                max_period: Some(
                    Duration { nanos: if d.nanos < 1_000_000 { 1_000_000 } else { d.nanos } },
                ),
                ..self
            }),
            self.is_runnable() ==> r.is_runnable(),
    {
        let mut out = self;
        let least = Duration::from_millis(1);
        out.max_period = Some(
            if d.nanos < least.nanos {
                least
            } else {
                d
            },
        );
        out
    }

    /// The inserter does not send because of time alone.
    pub fn without_period(self) -> (r: AsyncInserterConfig)
        ensures
            r == (AsyncInserterConfig { max_period: None, ..self }),
            self.is_runnable() ==> r.is_runnable(),
    {
        let mut out = self;
        out.max_period = None;
        out
    }

    /// Sets how many commands wait for the worker, at least one.
    pub fn with_channel_capacity(self, cap: usize) -> (r: AsyncInserterConfig)
        ensures
            r == (AsyncInserterConfig {
                channel_capacity: if cap == 0 { 1 } else { cap },
                ..self
            }),
            self.is_runnable() ==> r.is_runnable(),
    {
        let mut out = self;
        out.channel_capacity = if cap == 0 {
            1
        } else {
            cap
        };
        out
    }

    /// Sets the comment of this inserter.
    pub fn with_writer_id(self, id: String) -> (r: AsyncInserterConfig)
        ensures
            r == (AsyncInserterConfig { writer_id: WriterId::Custom(id), ..self }),
            self.is_runnable() ==> r.is_runnable(),
    {
        let mut out = self;
        out.writer_id = WriterId::Custom(id);
        out
    }

    /// This inserter has no comment.
    pub fn without_writer_id(self) -> (r: AsyncInserterConfig)
        ensures
            r == (AsyncInserterConfig { writer_id: WriterId::Disabled, ..self }),
            self.is_runnable() ==> r.is_runnable(),
    {
        let mut out = self;
        out.writer_id = WriterId::Disabled;
        out
    }
}

/// The generated comment of the inserter with number `seq` in its process, made at `nanos`.
pub open spec fn auto_id(nanos: u64, seq: u64) -> Seq<char> {
    "clickhouse-rs:async_inserter:"@ + text::hex(nanos as nat) + ":"@ + text::hex(seq as nat)
}

/// The comment of an inserter.
pub open spec fn resolved_id(id: WriterId, nanos: u64, seq: u64) -> Option<Seq<char>> {
    match id {
        WriterId::Auto => Some(auto_id(nanos, seq)),
        WriterId::Custom(s) => Some(s@),
        WriterId::Disabled => None,
    }
}

/// Generates the comment of the inserter with number `seq` in its process, made at `nanos`.
pub fn generate_auto_writer_id(nanos: u64, seq: u64) -> (out: String)
    ensures
        out@ == auto_id(nanos, seq),
{
    let mut out = "clickhouse-rs:async_inserter:".to_owned();
    push_hex(&mut out, nanos);
    out.push_str(":");
    push_hex(&mut out, seq);
    out
}

/// The comment of an inserter. `nanos` is the time since the epoch and `seq` counts the
/// inserters of this process.
pub fn resolve_writer_id(id: &WriterId, nanos: u64, seq: u64) -> (r: Option<String>)
    ensures
        crate::response::opt_text(r) == resolved_id(*id, nanos, seq),
{
    match id {
        WriterId::Auto => Some(generate_auto_writer_id(nanos, seq)),
        WriterId::Custom(s) => Some(s.clone()),
        WriterId::Disabled => None,
    }
}

/// Two inserters of one process never share a generated comment, even if both were made in
/// the same nanosecond.
pub proof fn generated_ids_are_distinct(nanos: u64, seq: u64, other_nanos: u64, other_seq: u64)
    requires
        seq != other_seq,
    ensures
        auto_id(nanos, seq) != auto_id(other_nanos, other_seq),
{
    reveal_strlit(":");
    if auto_id(nanos, seq) == auto_id(other_nanos, other_seq) {
        let b = text::hex(seq as nat);
        let d = text::hex(other_seq as nat);
        let s = auto_id(nanos, seq);
        let t = auto_id(other_nanos, other_seq);
        text::lemma_hex_chars(seq as nat);
        text::lemma_hex_chars(other_seq as nat);
        let i = s.len() - b.len() - 1;
        let j = t.len() - d.len() - 1;
        assert(s[i] == ':');
        assert(t[j] == ':');
        if i < j {
            assert(s[j] == b[j - i - 1]);
        } else if j < i {
            assert(t[i] == d[i - j - 1]);
        }
        assert(i == j);
        assert(b =~= s.skip(i + 1));
        assert(d =~= t.skip(j + 1));
        text::hex_injective(seq as nat, other_seq as nat);
    }
}

/// How much an inserter has sent.
#[derive(Debug, Clone, Copy, PartialEq, Eq, Structural)]
pub struct Quantities {
    pub bytes: u64,
    pub rows: u64,
    pub transactions: u64,
}

impl Quantities {
    /// Nothing at all.
    pub open spec fn nothing() -> Quantities {
        Quantities { bytes: 0, rows: 0, transactions: 0 }
    }

    /// Nothing at all.
    pub fn zero() -> (r: Quantities)
        ensures
            r == Quantities::nothing(),
    {
        Quantities { bytes: 0, rows: 0, transactions: 0 }
    }
}

/// What the underlying inserter is set up with.
pub struct InserterPlan {
    pub max_rows: u64,
    pub max_bytes: u64,
    pub period: Option<Duration>,
    /// The `log_comment` setting.
    pub log_comment: Option<String>,
    pub channel_capacity: usize,
}

/// Decides what the underlying inserter is set up with.
pub fn inserter_plan(config: &AsyncInserterConfig, nanos: u64, seq: u64) -> (r: InserterPlan)
    ensures
        r.max_rows == config.max_rows,
        r.max_bytes == config.max_bytes,
        r.period == config.max_period,
        crate::response::opt_text(r.log_comment) == resolved_id(config.writer_id, nanos, seq),
        r.channel_capacity == config.channel_capacity,
{
    InserterPlan {
        max_rows: config.max_rows,
        max_bytes: config.max_bytes,
        period: config.max_period,
        log_comment: resolve_writer_id(&config.writer_id, nanos, seq),
        channel_capacity: config.channel_capacity,
    }
}

/// What writers ask of the worker.
#[derive(Debug)]
pub enum AsyncInserterCommand<T> {
    Write(T),
    Flush,
    End,
}

/// What the worker asks of the underlying inserter.
#[derive(Debug)]
pub enum InserterCall<T> {
    Write(T),
    /// Sends if a threshold is reached.
    Commit,
    /// Sends in any case.
    ForceCommit,
    /// Sends and consumes the inserter.
    End,
}

/// What the underlying inserter answered.
#[derive(Debug)]
pub enum CallOutcome {
    Written(Result<()>),
    Committed(Result<Quantities>),
}

/// What a writer is told.
#[derive(Debug)]
pub enum WorkerReply {
    Write(Result<()>),
    Flush(Result<Quantities>),
    End(Result<Quantities>),
}

/// What is to be done next for the worker.
#[derive(Debug)]
pub enum WorkerStep<T> {
    Call(InserterCall<T>),
    Reply(WorkerReply),
    /// Nothing; the worker waits for a command.
    Idle,
}

/// Which answer of the underlying inserter the worker waits for.
#[derive(Debug, Clone, Copy, PartialEq, Eq, Structural)]
pub enum Awaiting {
    Nothing,
    Write,
    CommitAfterWrite,
    Flush,
    End,
    IdleCommit,
    Shutdown,
}

/// The answer is of the kind that the worker waits for.
pub open spec fn answers(awaiting: Awaiting, outcome: CallOutcome) -> bool {
    match awaiting {
        Awaiting::Nothing => false,
        Awaiting::Write => outcome is Written,
        _ => outcome is Committed,
    }
}

/// What a command leads to: whether the inserter is still there afterwards, what the worker
/// waits for, and the next step.
pub open spec fn on_command<T>(live: bool, cmd: AsyncInserterCommand<T>) -> (
    bool,
    Awaiting,
    WorkerStep<T>,
) {
    match cmd {
        AsyncInserterCommand::Write(row) => if live {
            (true, Awaiting::Write, WorkerStep::Call(InserterCall::Write(row)))
        } else {
            (false, Awaiting::Nothing, WorkerStep::Reply(WorkerReply::Write(Err(Error::WorkerExited))))
        },
        AsyncInserterCommand::Flush => if live {
            (true, Awaiting::Flush, WorkerStep::Call(InserterCall::ForceCommit))
        } else {
            (
                false,
                Awaiting::Nothing,
                WorkerStep::Reply(WorkerReply::Flush(Ok(Quantities::nothing()))),
            )
        },
        AsyncInserterCommand::End => if live {
            (false, Awaiting::End, WorkerStep::Call(InserterCall::End))
        } else {
            (
                false,
                Awaiting::Nothing,
                WorkerStep::Reply(WorkerReply::End(Ok(Quantities::nothing()))),
            )
        },
    }
}

/// What an answer of the underlying inserter leads to.
pub open spec fn on_outcome<T>(awaiting: Awaiting, outcome: CallOutcome) -> (
    Awaiting,
    WorkerStep<T>,
) {
    match (awaiting, outcome) {
        (Awaiting::Write, CallOutcome::Written(Ok(_))) => (
            Awaiting::CommitAfterWrite,
            WorkerStep::Call(InserterCall::Commit),
        ),
        (Awaiting::Write, CallOutcome::Written(Err(e))) => (
            Awaiting::Nothing,
            WorkerStep::Reply(WorkerReply::Write(Err(e))),
        ),
        (Awaiting::CommitAfterWrite, CallOutcome::Committed(Ok(_))) => (
            Awaiting::Nothing,
            WorkerStep::Reply(WorkerReply::Write(Ok(()))),
        ),
        (Awaiting::CommitAfterWrite, CallOutcome::Committed(Err(e))) => (
            Awaiting::Nothing,
            WorkerStep::Reply(WorkerReply::Write(Err(e))),
        ),
        (Awaiting::Flush, CallOutcome::Committed(r)) => (
            Awaiting::Nothing,
            WorkerStep::Reply(WorkerReply::Flush(r)),
        ),
        (Awaiting::End, CallOutcome::Committed(r)) => (
            Awaiting::Nothing,
            WorkerStep::Reply(WorkerReply::End(r)),
        ),
        _ => (Awaiting::Nothing, WorkerStep::Idle),
    }
}

/// The worker that owns the underlying inserter.
#[derive(Debug)]
pub struct InserterWorker {
    /// The inserter is there. `End` and a shutdown consume it.
    pub live: bool,
    pub awaiting: Awaiting,
    pub period: Option<Duration>,
}

impl InserterWorker {
    /// A worker with an inserter.
    pub fn new(config: &AsyncInserterConfig) -> (r: InserterWorker)
        ensures
            r.live,
            r.awaiting is Nothing,
            r.period == config.max_period,
    {
        InserterWorker { live: true, awaiting: Awaiting::Nothing, period: config.max_period }
    }

    /// How often `on_idle` is to be called.
    pub fn idle_interval(&self) -> (r: Option<Duration>)
        ensures
            r == self.period,
    {
        self.period
    }

    /// Takes a command. Without an inserter a write is refused, and a flush or an end has
    /// nothing to send.
    pub fn handle<T>(&mut self, cmd: AsyncInserterCommand<T>) -> (step: WorkerStep<T>)
        requires
            old(self).awaiting is Nothing,
        ensures
            (final(self).live, final(self).awaiting, step) == on_command(old(self).live, cmd),
            final(self).period == old(self).period,
    {
        if !self.live {
            return match cmd {
                AsyncInserterCommand::Write(_) => WorkerStep::Reply(
                    WorkerReply::Write(Err(Error::WorkerExited)),
                ),
                AsyncInserterCommand::Flush => WorkerStep::Reply(
                    WorkerReply::Flush(Ok(Quantities::zero())),
                ),
                AsyncInserterCommand::End => WorkerStep::Reply(
                    WorkerReply::End(Ok(Quantities::zero())),
                ),
            };
        }
        match cmd {
            AsyncInserterCommand::Write(row) => {
                self.awaiting = Awaiting::Write;
                WorkerStep::Call(InserterCall::Write(row))
            },
            AsyncInserterCommand::Flush => {
                self.awaiting = Awaiting::Flush;
                WorkerStep::Call(InserterCall::ForceCommit)
            },
            AsyncInserterCommand::End => {
                self.live = false;
                self.awaiting = Awaiting::End;
                WorkerStep::Call(InserterCall::End)
            },
        }
    }

    /// Takes the answer of the underlying inserter. A row that was written is committed, and
    /// the writer is told of an error of either.
    pub fn resume<T>(&mut self, outcome: CallOutcome) -> (step: WorkerStep<T>)
        requires
            answers(old(self).awaiting, outcome),
        ensures
            (final(self).awaiting, step) == on_outcome::<T>(old(self).awaiting, outcome),
            final(self).live == old(self).live,
            final(self).period == old(self).period,
    {
        let awaiting = self.awaiting;
        self.awaiting = Awaiting::Nothing;
        match (awaiting, outcome) {
            (Awaiting::Write, CallOutcome::Written(Ok(_))) => {
                self.awaiting = Awaiting::CommitAfterWrite;
                WorkerStep::Call(InserterCall::Commit)
            },
            (Awaiting::Write, CallOutcome::Written(Err(e))) => WorkerStep::Reply(
                WorkerReply::Write(Err(e)),
            ),
            (Awaiting::CommitAfterWrite, CallOutcome::Committed(Ok(_))) => WorkerStep::Reply(
                WorkerReply::Write(Ok(())),
            ),
            (Awaiting::CommitAfterWrite, CallOutcome::Committed(Err(e))) => WorkerStep::Reply(
                WorkerReply::Write(Err(e)),
            ),
            (Awaiting::Flush, CallOutcome::Committed(r)) => WorkerStep::Reply(
                WorkerReply::Flush(r),
            ),
            (Awaiting::End, CallOutcome::Committed(r)) => WorkerStep::Reply(WorkerReply::End(r)),
            _ => WorkerStep::Idle,
        }
    }

    /// Time has passed: what is held is sent if a threshold is reached.
    pub fn on_idle<T>(&mut self) -> (step: WorkerStep<T>)
        requires
            old(self).awaiting is Nothing,
        ensures
            old(self).live ==> step == WorkerStep::<T>::Call(InserterCall::Commit)
                && final(self).awaiting is IdleCommit,
            !old(self).live ==> step == WorkerStep::<T>::Idle && final(self).awaiting is Nothing,
            final(self).live == old(self).live,
            final(self).period == old(self).period,
    {
        if self.live {
            self.awaiting = Awaiting::IdleCommit;
            WorkerStep::Call(InserterCall::Commit)
        } else {
            WorkerStep::Idle
        }
    }

    /// The worker is to stop: an inserter that is still there is ended.
    pub fn on_shutdown<T>(&mut self) -> (step: WorkerStep<T>)
        requires
            old(self).awaiting is Nothing,
        ensures
            old(self).live ==> step == WorkerStep::<T>::Call(InserterCall::End)
                && final(self).awaiting is Shutdown,
            !old(self).live ==> step == WorkerStep::<T>::Idle && final(self).awaiting is Nothing,
            !final(self).live,
            final(self).period == old(self).period,
    {
        if self.live {
            self.live = false;
            self.awaiting = Awaiting::Shutdown;
            WorkerStep::Call(InserterCall::End)
        } else {
            WorkerStep::Idle
        }
    }
}

/// A writer is told that its row was taken only if it was written and the commit that
/// followed succeeded; otherwise it is told of the first error.
pub proof fn writes_report_the_first_error<T>(
    row: T,
    written: Result<()>,
    committed: Result<Quantities>,
)
    ensures
        on_command(true, AsyncInserterCommand::Write(row)) == (
            true,
            Awaiting::Write,
            WorkerStep::Call(InserterCall::Write(row)),
        ),
        written matches Err(e) ==> on_outcome::<T>(Awaiting::Write, CallOutcome::Written(written))
            == (Awaiting::Nothing, WorkerStep::<T>::Reply(WorkerReply::Write(Err(e)))),
        written is Ok ==> on_outcome::<T>(Awaiting::Write, CallOutcome::Written(written)) == (
            Awaiting::CommitAfterWrite,
            WorkerStep::<T>::Call(InserterCall::Commit),
        ),
        committed matches Err(e) ==> on_outcome::<T>(
            Awaiting::CommitAfterWrite,
            CallOutcome::Committed(committed),
        ) == (Awaiting::Nothing, WorkerStep::<T>::Reply(WorkerReply::Write(Err(e)))),
        committed is Ok ==> on_outcome::<T>(
            Awaiting::CommitAfterWrite,
            CallOutcome::Committed(committed),
        ) == (Awaiting::Nothing, WorkerStep::<T>::Reply(WorkerReply::Write(Ok(())))),
{
}

/// Once the inserter has been ended it is never called again: every command is answered at
/// once, and the inserter does not come back.
pub proof fn ended_workers_call_nothing<T>(cmd: AsyncInserterCommand<T>)
    ensures
        !on_command(false, cmd).0,
        on_command(false, cmd).1 is Nothing,
        on_command(false, cmd).2 is Reply,
        !on_command(true, AsyncInserterCommand::<T>::End).0,
{
}

/// The reply to a flush and to an end is the answer of the underlying inserter, whatever it is.
pub proof fn flushes_and_ends_report_the_answer<T>(answer: Result<Quantities>)
    ensures
        ({
            let (_, awaiting, call) = on_command(true, AsyncInserterCommand::<T>::Flush);
            let (left, reply) = on_outcome::<T>(awaiting, CallOutcome::Committed(answer));
            &&& call == WorkerStep::<T>::Call(InserterCall::ForceCommit)
            &&& left is Nothing
            &&& reply == WorkerStep::<T>::Reply(WorkerReply::Flush(answer))
        }),
        ({
            let (_, awaiting, call) = on_command(true, AsyncInserterCommand::<T>::End);
            let (left, reply) = on_outcome::<T>(awaiting, CallOutcome::Committed(answer));
            &&& call == WorkerStep::<T>::Call(InserterCall::End)
            &&& left is Nothing
            &&& reply == WorkerStep::<T>::Reply(WorkerReply::End(answer))
        }),
{
}

/// The error in an answer of the underlying inserter.
pub open spec fn error_answered(outcome: CallOutcome) -> Option<Error> {
    match outcome {
        CallOutcome::Written(Err(e)) => Some(e),
        CallOutcome::Committed(Err(e)) => Some(e),
        _ => None,
    }
}

/// The error in a reply.
pub open spec fn error_told(reply: WorkerReply) -> Option<Error> {
    match reply {
        WorkerReply::Write(Err(e)) => Some(e),
        WorkerReply::Flush(Err(e)) => Some(e),
        WorkerReply::End(Err(e)) => Some(e),
        _ => None,
    }
}

/// Whatever a writer waits for, an error of the underlying inserter is told as it is, and no error
/// is told that the inserter did not answer.
pub proof fn errors_are_told_as_they_are<T>(awaiting: Awaiting, outcome: CallOutcome)
    requires
        answers(awaiting, outcome),
        !(awaiting is IdleCommit || awaiting is Shutdown),
    ensures
        ({
            let (left, step) = on_outcome::<T>(awaiting, outcome);
            &&& (step matches WorkerStep::Reply(reply) ==> error_told(reply) == error_answered(
                outcome,
            ))
            &&& error_answered(outcome) is Some ==> step is Reply
            &&& step is Reply <==> left is Nothing
            &&& step is Call ==> awaiting is Write
        }),
{
}

/// A commit because time has passed and the end of an inserter at a shutdown have no writer: nobody
/// is told of their answers, and the worker waits for the next command.
pub proof fn answers_without_a_writer_are_kept<T>(awaiting: Awaiting, outcome: CallOutcome)
    requires
        awaiting is IdleCommit || awaiting is Shutdown,
    ensures
        on_outcome::<T>(awaiting, outcome) == (Awaiting::Nothing, WorkerStep::<T>::Idle),
{
}

/// Without an inserter, a write is refused because the worker has exited; a flush and an end have
/// sent no byte, no row and no transaction.
pub proof fn ended_workers_refuse_rows<T>(row: T)
    ensures
        on_command(false, AsyncInserterCommand::Write(row)).2 == WorkerStep::<T>::Reply(
            WorkerReply::Write(Err(Error::WorkerExited)),
        ),
        on_command(false, AsyncInserterCommand::<T>::Flush).2 == WorkerStep::<T>::Reply(
            WorkerReply::Flush(Ok(Quantities { bytes: 0, rows: 0, transactions: 0 })),
        ),
        on_command(false, AsyncInserterCommand::<T>::End).2 == WorkerStep::<T>::Reply(
            WorkerReply::End(Ok(Quantities { bytes: 0, rows: 0, transactions: 0 })),
        ),
{
}

/// Only an end takes the inserter away.
pub proof fn inserters_stay_until_the_end<T>(cmd: AsyncInserterCommand<T>)
    ensures
        on_command(true, cmd).0 <==> !(cmd is End),
        on_command(true, cmd).2 is Call,
        !(on_command(true, cmd).1 is Nothing),
{
}

/// An inserter has the comment that it was given, a generated one where it was given none, and no
/// comment where it is to have none.
pub proof fn given_comments_are_kept(given: String, nanos: u64, seq: u64)
    ensures
        resolved_id(WriterId::Custom(given), nanos, seq) == Some(given@),
        resolved_id(WriterId::Disabled, nanos, seq) is None,
        resolved_id(WriterId::Auto, nanos, seq) matches Some(id)
            && "clickhouse-rs:async_inserter:"@.is_prefix_of(id),
{
    let id = auto_id(nanos, seq);
    let n = "clickhouse-rs:async_inserter:"@.len() as int;
    assert(id.take(n) =~= "clickhouse-rs:async_inserter:"@);
    assert("clickhouse-rs:async_inserter:"@ =~= id.subrange(0, n));
}

/// How the background task came to its end.
#[derive(Debug)]
pub enum JoinOutcome {
    Finished,
    /// It panicked, with this description.
    Panicked(String),
    /// It was cancelled.
    Cancelled,
}

/// What a task that ended early left behind.
#[derive(Debug)]
pub enum PanicPayload {
    /// It did not panic; the text says what happened.
    NoPanic(String),
    /// It panicked with a text.
    Text(String),
    /// It panicked with something else.
    Opaque,
}

/// Describes what a task that ended early left behind.
pub fn describe_panic(payload: PanicPayload) -> (out: String)
    ensures
        (match payload {
            PanicPayload::NoPanic(s) => out == s,
            PanicPayload::Text(s) => out == s,
            PanicPayload::Opaque => out@ == "<non-string panic payload>"@,
        }),
{
    match payload {
        PanicPayload::NoPanic(s) => s,
        PanicPayload::Text(s) => s,
        PanicPayload::Opaque => "<non-string panic payload>".to_owned(),
    }
}

/// What ending an inserter reports: an error of the last send first, then a panic of the
/// background task, and otherwise what was sent last. A task that was cancelled after the
/// last send succeeded is no error.
pub fn end_outcome(end: Result<Quantities>, join: JoinOutcome) -> (r: Result<Quantities>)
    ensures
        (match (end, join) {
            (Err(e), _) => r == std::result::Result::<Quantities, Error>::Err(e),
            (Ok(q), JoinOutcome::Panicked(s)) => r matches Err(Error::Custom(t)) && t@
                == "AsyncInserter background task panicked: "@ + s@,
            (Ok(q), _) => r == std::result::Result::<Quantities, Error>::Ok(q),
        }),
{
    match (end, join) {
        (Err(e), _) => Err(e),
        (Ok(_), JoinOutcome::Panicked(s)) => {
            let mut told = "AsyncInserter background task panicked: ".to_owned();
            told.push_str(s.as_str());
            Err(Error::Custom(told))
        },
        (Ok(q), _) => Ok(q),
    }
}

/// What a command reports where the worker cannot be reached: `None` stands for a worker
/// that has exited before it took the command or before it answered.
pub fn send_cmd<R>(reply: Option<Result<R>>) -> (r: Result<R>)
    ensures
        (match reply {
            Some(answer) => r == answer,
            None => r == std::result::Result::<R, Error>::Err(Error::WorkerExited),
        }),
{
    match reply {
        Some(answer) => answer,
        None => Err(Error::WorkerExited),
    }
}

/// A configuration can be run exactly where its channel holds a command and its period, if it has one,
/// takes time.
pub proof fn runnable_configurations_take_commands(config: AsyncInserterConfig)
    ensures
        config.is_runnable() <==> config.channel_capacity > 0 && (config.max_period is None
            || config.max_period->0.nanos > 0),
{
}

/// A row is answered for once it was written, and everything else once it was committed.
pub proof fn calls_have_answers_of_their_kind(
    awaiting: Awaiting,
    written: Result<()>,
    committed: Result<Quantities>,
)
    ensures
        answers(awaiting, CallOutcome::Written(written)) <==> awaiting is Write,
        answers(awaiting, CallOutcome::Committed(committed)) <==> !(awaiting is Write || awaiting
            is Nothing),
{
}

} // verus!
