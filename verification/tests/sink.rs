use clickhouse::duration::Duration;
use clickhouse::error::{Error, Result};
use clickhouse::sink::inserter::{FlushPolicy, Inserter};
use clickhouse::sink::null::NullSink;
use clickhouse::sink::{BatchSink, FlushStats, Row, Sink, StreamSink};

#[test]
fn inserter_with_null_sink_composes() {
    let start = Duration::zero();
    let mut ins = Inserter::new(NullSink::default(), start).with_policy(
        FlushPolicy::default()
            .with_max_rows(1_000)
            .with_max_bytes(8 * 1024 * 1024)
            .with_max_elapsed(Duration::from_secs(5)),
    );
    let stats = ins.flush(start).unwrap();
    assert_eq!(stats.bytes_sent, 0);
    assert_eq!(stats.rows_committed, 0);
    let final_stats = ins.end(start).unwrap();
    assert_eq!(final_stats.rows_committed, 0);
}

#[test]
fn flush_policy_builder_chains() {
    let policy = FlushPolicy::default()
        .with_max_rows(100)
        .with_max_bytes(1024);
    assert_eq!(policy.max_rows, Some(100));
    assert_eq!(policy.max_bytes, Some(1024));
    assert_eq!(policy.max_elapsed, None);
}

#[test]
fn rows_are_flushed_at_the_limit() {
    let start = Duration::zero();
    let mut ins = Inserter::new(NullSink::default(), start)
        .with_policy(FlushPolicy::default().with_max_rows(3));
    ins.write(&vec![1u8], start).unwrap();
    ins.write(&vec![2u8], start).unwrap();
    assert_eq!(ins.pending.rows, 2);
    assert_eq!(ins.sink.pending_rows, 2);
    ins.write(&vec![3u8], start).unwrap();
    assert_eq!(ins.pending.rows, 0);
    assert_eq!(ins.sink.pending_rows, 0);
    ins.write_all(&[vec![1u8], vec![2]], start).unwrap();
    assert_eq!(ins.end(start).unwrap(), FlushStats { bytes_sent: 0, rows_committed: 2 });
}

#[test]
fn time_flushes_too() {
    let start = Duration::from_secs(10);
    let mut ins = Inserter::new(NullSink::default(), start)
        .with_policy(FlushPolicy::default().with_max_elapsed(Duration::from_secs(5)));
    assert!(!ins.should_flush(Duration::from_secs(14)));
    assert!(ins.should_flush(Duration::from_secs(15)));
    assert!(!ins.should_flush(Duration::from_secs(9)));
    ins.write(&vec![1u8], Duration::from_secs(20)).unwrap();
    assert_eq!(ins.pending.rows, 0);
    assert_eq!(ins.pending.since_flush, Duration::from_secs(20));
}

struct Refusing {
    rows: bool,
}

impl Sink for Refusing {
    fn flush(&mut self) -> Result<FlushStats> {
        Err(Error::TimedOut)
    }
}

impl StreamSink for Refusing {
    fn write_row<T: Row>(&mut self, _row: &T) -> Result<()> {
        if self.rows {
            Err(Error::NotEnoughData)
        } else {
            Ok(())
        }
    }
}

#[test]
fn counting_goes_on_where_a_flush_fails() {
    let start = Duration::zero();
    let mut ins = Inserter::new(Refusing { rows: false }, start)
        .with_policy(FlushPolicy::default().with_max_rows(1));
    assert!(matches!(ins.write(&vec![1u8], start), Err(Error::TimedOut)));
    assert_eq!(ins.pending.rows, 1);
    let mut ins = Inserter::new(Refusing { rows: true }, start);
    assert!(matches!(ins.write(&vec![1u8], start), Err(Error::NotEnoughData)));
    assert_eq!(ins.pending.rows, 0);
}

#[derive(Debug, PartialEq)]
struct Counted(u64);

impl Row for Counted {
    fn serialised_len(&self) -> u64 {
        8
    }
}

/// Keeps how many bytes each row has, and how often it was flushed.
#[derive(Default)]
struct Sizes {
    rows: Vec<usize>,
    flushes: u32,
}

impl Sink for Sizes {
    fn flush(&mut self) -> Result<FlushStats> {
        self.flushes += 1;
        Ok(FlushStats::default())
    }
}

impl StreamSink for Sizes {
    fn write_row<T: Row>(&mut self, row: &T) -> Result<()> {
        self.rows.push(std::mem::size_of_val(row));
        Ok(())
    }
}

impl BatchSink for Sizes {
    fn write_batch<T: Row>(&mut self, rows: &[T]) -> Result<()> {
        for row in rows {
            self.rows.push(std::mem::size_of_val(row));
        }
        Ok(())
    }
}

#[test]
fn each_row_reaches_the_sink_once() {
    let start = Duration::zero();
    let mut ins = Inserter::new(Sizes::default(), start);
    ins.write(&Counted(7), start).unwrap();
    ins.write(&vec![1u8], start).unwrap();
    ins.write_all(&[Counted(1), Counted(2)], start).unwrap();
    assert_eq!(ins.sink.rows, vec![8, 24, 8, 8]);
    assert_eq!(ins.sink.flushes, 0);
    ins.flush(start).unwrap();
    assert_eq!(ins.sink.flushes, 1);
}

#[test]
fn bytes_flush_too() {
    let start = Duration::zero();
    let mut ins = Inserter::new(Sizes::default(), start)
        .with_policy(FlushPolicy::default().with_max_bytes(20));
    ins.write(&Counted(1), start).unwrap();
    ins.write(&Counted(2), start).unwrap();
    assert_eq!((ins.pending.rows, ins.pending.bytes, ins.sink.flushes), (2, 16, 0));
    ins.write(&vec![1u8, 2, 3], start).unwrap();
    assert_eq!((ins.pending.bytes, ins.sink.flushes), (19, 0));
    ins.write(&vec![4u8], start).unwrap();
    assert_eq!((ins.pending.rows, ins.pending.bytes, ins.sink.flushes), (0, 0, 1));
    ins.write_all(&[Counted(1), Counted(2), Counted(3)], start).unwrap();
    assert_eq!((ins.pending.bytes, ins.sink.flushes), (0, 2));
}

struct Huge;

impl Row for Huge {
    fn serialised_len(&self) -> u64 {
        u64::MAX
    }
}

#[test]
fn bytes_are_counted_up_to_the_largest_number() {
    let start = Duration::zero();
    let mut ins = Inserter::new(NullSink::default(), start);
    ins.write_all(&[Huge, Huge], start).unwrap();
    ins.write(&Huge, start).unwrap();
    assert_eq!((ins.pending.rows, ins.pending.bytes), (3, u64::MAX));
}
