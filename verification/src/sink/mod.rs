//! Where rows go: sinks take rows one by one or in batches and send them when they are
//! flushed. What is common to all of them stands in `inserter`.
use vstd::prelude::*;

use crate::error::Result;

pub mod inserter;
pub mod null;

verus! {

/// A row that sinks take.
pub trait Row {
    /// The row as bytes. Where a type says nothing else, there are none.
    open spec fn serialised(&self) -> Seq<u8> {
        Seq::empty()
    }

    /// How many bytes the row has.
    fn serialised_len(&self) -> (n: u64)
        ensures
            n == self.serialised().len(),
    ;
}

/// A row that is serialised already.
impl Row for Vec<u8> {
    open spec fn serialised(&self) -> Seq<u8> {
        self@
    }

    fn serialised_len(&self) -> (n: u64) {
        self.len() as u64
    }
}

/// Rows as bytes, each on its own.
pub open spec fn serialised_rows<T: Row>(rows: Seq<T>) -> Seq<Seq<u8>> {
    Seq::new(rows.len(), |i: int| rows[i].serialised())
}

/// How many bytes rows have together.
pub open spec fn bytes_of(rows: Seq<Seq<u8>>) -> nat
    decreases rows.len(),
{
    if rows.len() == 0 {
        0
    } else {
        bytes_of(rows.drop_last()) + rows.last().len()
    }
}

/// Anything that rows can be sent through.
pub trait Sink: Sized {
    /// So many more rows can be taken before the next flush. Where a sink says nothing else,
    /// there is no limit.
    open spec fn has_room(&self, rows: nat) -> bool {
        true
    }

    /// What a flush may do: the sink before it, the sink after it, and what it reports. Where
    /// a sink says nothing else, anything.
    open spec fn flushes(before: Self, after: Self, r: Result<FlushStats>) -> bool {
        true
    }

    /// Sends all rows that were taken since the last flush.
    fn flush(&mut self) -> (r: Result<FlushStats>)
        ensures
            Self::flushes(*old(self), *final(self), r),
    ;
}

/// A sink that takes rows one by one.
pub trait StreamSink: Sink {
    /// What taking a row may do: the sink before it, the row, the sink after it, and what is
    /// reported. Where a sink says nothing else, anything.
    open spec fn takes_row(before: Self, row: Seq<u8>, after: Self, r: Result<()>) -> bool {
        true
    }

    fn write_row<T: Row>(&mut self, row: &T) -> (r: Result<()>)
        requires
            old(self).has_room(1),
        ensures
            Self::takes_row(*old(self), row.serialised(), *final(self), r),
    ;
}

/// A sink that takes rows in batches.
pub trait BatchSink: Sink {
    /// What taking a batch may do: the sink before it, its rows in order, the sink after it,
    /// and what is reported. Where a sink says nothing else, anything.
    open spec fn takes_batch(
        before: Self,
        rows: Seq<Seq<u8>>,
        after: Self,
        r: Result<()>,
    ) -> bool {
        true
    }

    fn write_batch<T: Row>(&mut self, rows: &[T]) -> (r: Result<()>)
        requires
            old(self).has_room(rows@.len()),
        ensures
            Self::takes_batch(*old(self), serialised_rows(rows@), *final(self), r),
    ;
}

/// What a flush has sent.
#[derive(Debug, Clone, Copy, PartialEq, Eq, Structural)]
pub struct FlushStats {
    pub bytes_sent: u64,
    pub rows_committed: u64,
}

impl Default for FlushStats {
    fn default() -> (r: FlushStats)
        ensures
            r == (FlushStats { bytes_sent: 0, rows_committed: 0 }),
    {
        FlushStats { bytes_sent: 0, rows_committed: 0 }
    }
}

/// The bytes of rows add up, and each row counts as it is serialised.
pub proof fn bytes_add_up<T: Row>(rows: Seq<T>, row: T)
    ensures
        bytes_of(Seq::empty()) == 0,
        serialised_rows(rows.push(row)) == serialised_rows(rows).push(row.serialised()),
        bytes_of(serialised_rows(rows.push(row))) == bytes_of(serialised_rows(rows))
            + row.serialised().len(),
{
    assert(serialised_rows(rows.push(row)) =~= serialised_rows(rows).push(row.serialised()));
    assert(serialised_rows(rows.push(row)).drop_last() =~= serialised_rows(rows));
}

} // verus!
