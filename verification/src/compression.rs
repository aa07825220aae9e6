//! How bodies are compressed on their way.
use vstd::prelude::*;

verus! {

/// A compression method.
#[derive(Debug, Clone, Copy, PartialEq, Eq, Structural)]
#[non_exhaustive]
pub enum Compression {
    /// No compression.
    Plain,
    Lz4,
    /// LZ4 with a level, for what is sent.
    Lz4Hc(i32),
    /// Zstandard with a level, for what is sent.
    Zstd(i32),
}

impl Default for Compression {
    fn default() -> (r: Compression)
        ensures
            r == Compression::Lz4,
    {
        Compression::Lz4
    }
}

impl Compression {
    /// Whether anything is compressed.
    pub fn is_enabled(&self) -> (r: bool)
        ensures
            r == (*self != Compression::Plain),
    {
        !matches!(self, Compression::Plain)
    }
}

} // verus!
