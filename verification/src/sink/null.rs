//! A sink that counts rows and sends nothing.
use vstd::prelude::*;

use crate::error::{Error, Result};
use crate::sink::{BatchSink, FlushStats, Row, Sink, StreamSink};

verus! {

/// Counts the rows that it takes.
pub struct NullSink {
    pub pending_rows: u64,
}

impl Default for NullSink {
    fn default() -> (r: NullSink)
        ensures
            r.pending_rows == 0,
    {
        NullSink { pending_rows: 0 }
    }
}

impl Sink for NullSink {
    open spec fn has_room(&self, rows: nat) -> bool {
        self.pending_rows + rows <= u64::MAX
    }

    open spec fn flushes(before: NullSink, after: NullSink, r: Result<FlushStats>) -> bool {
        &&& r == std::result::Result::<FlushStats, Error>::Ok(
            FlushStats { bytes_sent: 0, rows_committed: before.pending_rows },
        )
        &&& after.pending_rows == 0
    }

    fn flush(&mut self) -> (r: Result<FlushStats>)
    {
        let stats = FlushStats { bytes_sent: 0, rows_committed: self.pending_rows };
        self.pending_rows = 0;
        Ok(stats)
    }
}

impl StreamSink for NullSink {
    open spec fn takes_row(
        before: NullSink,
        row: Seq<u8>,
        after: NullSink,
        r: Result<()>,
    ) -> bool {
        r is Ok && after.pending_rows == before.pending_rows + 1
    }

    fn write_row<T: Row>(&mut self, row: &T) -> (r: Result<()>)
    {
        self.pending_rows = self.pending_rows + 1;
        Ok(())
    }
}

impl BatchSink for NullSink {
    open spec fn takes_batch(
        before: NullSink,
        rows: Seq<Seq<u8>>,
        after: NullSink,
        r: Result<()>,
    ) -> bool {
        r is Ok && after.pending_rows == before.pending_rows + rows.len()
    }

    fn write_batch<T: Row>(&mut self, rows: &[T]) -> (r: Result<()>)
    {
        self.pending_rows = self.pending_rows + rows.len() as u64;
        Ok(())
    }
}

/// A sink that sends nothing takes every row, counts them, and reports with each flush how many there
/// were since the last.
pub proof fn null_sinks_count_rows(
    before: NullSink,
    row: Seq<u8>,
    rows: Seq<Seq<u8>>,
    after: NullSink,
    r: Result<()>,
    stats: Result<FlushStats>,
)
    ensures
        NullSink::takes_row(before, row, after, r) ==> r is Ok && after.pending_rows
            == before.pending_rows + 1,
        NullSink::takes_batch(before, rows, after, r) ==> r is Ok && after.pending_rows
            == before.pending_rows + rows.len(),
        NullSink::flushes(before, after, stats) ==> after.pending_rows == 0 && (stats matches Ok(s)
            && s.rows_committed == before.pending_rows && s.bytes_sent == 0),
{
}

} // verus!
