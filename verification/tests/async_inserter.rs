use clickhouse::async_inserter::{
    describe_panic, end_outcome, inserter_plan, resolve_writer_id, send_cmd, AsyncInserterCommand,
    AsyncInserterConfig, Awaiting, CallOutcome, InserterCall, InserterWorker, JoinOutcome,
    PanicPayload, Quantities, WorkerReply, WorkerStep, WriterId,
};
use clickhouse::duration::Duration;
use clickhouse::error::Error;

#[test]
fn with_max_period_zero_clamps_to_one_millisecond() {
    let cfg = AsyncInserterConfig::default().with_max_period(Duration::zero());
    assert_eq!(cfg.max_period, Some(Duration::from_millis(1)));
}

#[test]
fn with_max_period_above_minimum_unchanged() {
    let cfg = AsyncInserterConfig::default().with_max_period(Duration::from_secs(7));
    assert_eq!(cfg.max_period, Some(Duration::from_secs(7)));
}

#[test]
fn with_channel_capacity_zero_clamps_to_one() {
    let cfg = AsyncInserterConfig::default().with_channel_capacity(0);
    assert_eq!(cfg.channel_capacity, 1);
}

#[test]
fn with_channel_capacity_above_minimum_unchanged() {
    let cfg = AsyncInserterConfig::default().with_channel_capacity(16);
    assert_eq!(cfg.channel_capacity, 16);
}

#[test]
fn writer_id_auto_yields_distinct_values_across_calls() {
    // Within the same nanosecond, the counter alone tells the inserters apart.
    let a = resolve_writer_id(&WriterId::Auto, 1_700_000_000, 0).expect("Auto -> Some");
    let b = resolve_writer_id(&WriterId::Auto, 1_700_000_000, 1).expect("Auto -> Some");
    assert_ne!(a, b, "Auto must produce distinct ids per call: {a} == {b}");
    for v in [&a, &b] {
        assert!(
            v.starts_with("clickhouse-rs:async_inserter:"),
            "auto id missing prefix: {v}"
        );
    }
}

#[test]
fn writer_id_custom_resolves_verbatim_and_disabled_resolves_none() {
    assert_eq!(
        resolve_writer_id(&WriterId::Custom("shard-7".into()), 0, 0),
        Some("shard-7".to_string()),
    );
    assert_eq!(resolve_writer_id(&WriterId::Disabled, 0, 0), None);
}

#[test]
fn auto_ids_are_hexadecimal() {
    assert_eq!(
        resolve_writer_id(&WriterId::Auto, 255, 4096).as_deref(),
        Some("clickhouse-rs:async_inserter:ff:1000"),
    );
    assert_eq!(
        resolve_writer_id(&WriterId::Auto, 0, u64::MAX).as_deref(),
        Some("clickhouse-rs:async_inserter:0:ffffffffffffffff"),
    );
}

#[test]
fn default_config_has_the_documented_thresholds() {
    let cfg = AsyncInserterConfig::default();
    assert_eq!(cfg.max_rows, 100_000);
    assert_eq!(cfg.max_bytes, 10 * 1024 * 1024);
    assert_eq!(cfg.max_period, Some(Duration::from_secs(5)));
    assert_eq!(cfg.channel_capacity, 8192);
    assert!(matches!(cfg.writer_id, WriterId::Auto));
    assert!(matches!(WriterId::default(), WriterId::Auto));
}

#[test]
fn setters_change_one_thing_each() {
    let cfg = AsyncInserterConfig::default()
        .with_max_rows(7)
        .with_max_bytes(8)
        .without_period()
        .with_writer_id("w".to_string());
    assert_eq!((cfg.max_rows, cfg.max_bytes), (7, 8));
    assert_eq!(cfg.max_period, None);
    assert!(matches!(&cfg.writer_id, WriterId::Custom(s) if s == "w"));
    let cloned = cfg.writer_id.clone();
    assert!(matches!(cloned, WriterId::Custom(s) if s == "w"));
    assert!(matches!(cfg.without_writer_id().writer_id, WriterId::Disabled));
}

#[test]
fn the_underlying_inserter_is_set_up_from_the_config() {
    let cfg = AsyncInserterConfig::default().with_writer_id("tenant".to_string());
    let plan = inserter_plan(&cfg, 1, 2);
    assert_eq!((plan.max_rows, plan.max_bytes), (100_000, 10_485_760));
    assert_eq!(plan.period, Some(Duration::from_secs(5)));
    assert_eq!(plan.log_comment.as_deref(), Some("tenant"));
    assert_eq!(plan.channel_capacity, 8192);
}

#[test]
fn a_write_is_committed_before_it_is_acknowledged() {
    let mut worker = InserterWorker::new(&AsyncInserterConfig::default());
    assert_eq!(worker.idle_interval(), Some(Duration::from_secs(5)));
    let step = worker.handle(AsyncInserterCommand::Write(5u32));
    assert!(matches!(step, WorkerStep::Call(InserterCall::Write(5))));
    let step = worker.resume::<u32>(CallOutcome::Written(Ok(())));
    assert!(matches!(step, WorkerStep::Call(InserterCall::Commit)));
    let step = worker.resume::<u32>(CallOutcome::Committed(Ok(Quantities::zero())));
    assert!(matches!(step, WorkerStep::Reply(WorkerReply::Write(Ok(())))));
    assert_eq!(worker.awaiting, Awaiting::Nothing);
}

#[test]
fn the_first_error_of_a_write_reaches_the_writer() {
    let mut worker = InserterWorker::new(&AsyncInserterConfig::default());
    worker.handle(AsyncInserterCommand::Write(5u32));
    let step = worker.resume::<u32>(CallOutcome::Written(Err(Error::NotEnoughData)));
    assert!(matches!(
        step,
        WorkerStep::Reply(WorkerReply::Write(Err(Error::NotEnoughData)))
    ));
    worker.handle(AsyncInserterCommand::Write(6u32));
    worker.resume::<u32>(CallOutcome::Written(Ok(())));
    let step = worker.resume::<u32>(CallOutcome::Committed(Err(Error::TimedOut)));
    assert!(matches!(
        step,
        WorkerStep::Reply(WorkerReply::Write(Err(Error::TimedOut)))
    ));
}

#[test]
fn an_ended_worker_calls_nothing() {
    let mut worker = InserterWorker::new(&AsyncInserterConfig::default());
    let step = worker.handle(AsyncInserterCommand::<u32>::End);
    assert!(matches!(step, WorkerStep::Call(InserterCall::End)));
    let sent = Quantities { bytes: 3, rows: 2, transactions: 1 };
    let step = worker.resume::<u32>(CallOutcome::Committed(Ok(sent)));
    assert!(matches!(step, WorkerStep::Reply(WorkerReply::End(Ok(q))) if q == sent));
    let step = worker.handle(AsyncInserterCommand::Write(1u32));
    assert!(matches!(
        step,
        WorkerStep::Reply(WorkerReply::Write(Err(Error::WorkerExited)))
    ));
    let step = worker.handle(AsyncInserterCommand::<u32>::Flush);
    assert!(matches!(step, WorkerStep::Reply(WorkerReply::Flush(Ok(q))) if q == Quantities::zero()));
    let step = worker.handle(AsyncInserterCommand::<u32>::End);
    assert!(matches!(step, WorkerStep::Reply(WorkerReply::End(Ok(q))) if q == Quantities::zero()));
    assert!(matches!(worker.on_idle::<u32>(), WorkerStep::Idle));
    assert!(matches!(worker.on_shutdown::<u32>(), WorkerStep::Idle));
}

#[test]
fn idle_and_shutdown_reach_the_inserter() {
    let mut worker = InserterWorker::new(&AsyncInserterConfig::default());
    assert!(matches!(worker.on_idle::<u32>(), WorkerStep::Call(InserterCall::Commit)));
    assert!(matches!(
        worker.resume::<u32>(CallOutcome::Committed(Err(Error::TimedOut))),
        WorkerStep::Idle
    ));
    let step = worker.handle(AsyncInserterCommand::<u32>::Flush);
    assert!(matches!(step, WorkerStep::Call(InserterCall::ForceCommit)));
    let sent = Quantities { bytes: 9, rows: 1, transactions: 1 };
    let step = worker.resume::<u32>(CallOutcome::Committed(Ok(sent)));
    assert!(matches!(step, WorkerStep::Reply(WorkerReply::Flush(Ok(q))) if q == sent));
    assert!(matches!(worker.on_shutdown::<u32>(), WorkerStep::Call(InserterCall::End)));
    assert!(!worker.live);
}

#[test]
fn the_end_prefers_the_error_of_the_last_send() {
    let q = Quantities { bytes: 1, rows: 1, transactions: 1 };
    assert_eq!(end_outcome(Ok(q), JoinOutcome::Finished).unwrap(), q);
    assert_eq!(end_outcome(Ok(q), JoinOutcome::Cancelled).unwrap(), q);
    let told = end_outcome(Ok(q), JoinOutcome::Panicked("boom".to_string()));
    assert!(matches!(
        told,
        Err(Error::Custom(s)) if s == "AsyncInserter background task panicked: boom"
    ));
    let told = end_outcome(Err(Error::TimedOut), JoinOutcome::Panicked("boom".to_string()));
    assert!(matches!(told, Err(Error::TimedOut)));
}

#[test]
fn panics_are_described() {
    assert_eq!(describe_panic(PanicPayload::Text("x".to_string())), "x");
    assert_eq!(describe_panic(PanicPayload::NoPanic("cancelled".to_string())), "cancelled");
    assert_eq!(describe_panic(PanicPayload::Opaque), "<non-string panic payload>");
}

#[test]
fn a_worker_that_is_gone_is_reported() {
    assert!(matches!(send_cmd::<u8>(None), Err(Error::WorkerExited)));
    assert_eq!(send_cmd(Some(Ok(3u8))).unwrap(), 3);
}
