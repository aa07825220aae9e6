//! How a block that could not be decoded is reported.
use vstd::prelude::*;

use crate::error::Error;
use crate::native::decode::{BlockError, BlockFault, DecodeError};
use crate::native::wire::WireError;
use crate::response::{self, Fault};
use crate::text::{self, push_decimal};

verus! {

/// How an unreadable number or string is reported. Bytes that end too early are an error of
/// the connection.
pub open spec fn wire_fault(e: WireError) -> Fault {
    match e {
        WireError::Truncated => Fault::Other("early eof"@),
        WireError::VarUintOverflow => Fault::BadResponse(
            "tcp: variable-length integer exceeds 64 bits"@,
        ),
        WireError::StringTooLong(len) => Fault::BadResponse(
            "tcp: string of "@ + text::decimal(len as nat) + " bytes exceeds the size limit"@,
        ),
        WireError::NotUtf8 => Fault::BadResponse("tcp: string is not valid utf8"@),
    }
}

/// How a column that could not be decoded is reported.
pub open spec fn column_fault(e: DecodeError) -> Fault {
    match e {
        DecodeError::Wire(e) => wire_fault(e),
        DecodeError::TooDeep => Fault::BadResponse("tcp: column type nesting exceeds 32 levels"@),
        DecodeError::RowCount(n) => Fault::BadResponse(
            "tcp: row count "@ + text::decimal(n as nat) + " exceeds platform usize"@,
        ),
        DecodeError::NumericOverflow => Fault::BadResponse(
            "tcp: numeric column byte length overflows usize"@,
        ),
        DecodeError::WideOverflow => Fault::BadResponse(
            "tcp: 256-bit column byte length overflows usize"@,
        ),
        DecodeError::FixedStringOverflow => Fault::BadResponse("tcp: FixedString block overflow"@),
        DecodeError::ArrayOffsets => Fault::BadResponse(
            "tcp: Array column offsets are not monotonically increasing"@,
        ),
        DecodeError::MapOffsets => Fault::BadResponse(
            "tcp: Map column offsets are not monotonically increasing"@,
        ),
        DecodeError::GlobalDictionary => Fault::BadResponse(
            "tcp: LowCardinality global dictionary is not supported on the client-server path (only per-block additional keys)"@,
        ),
        DecodeError::NoDictionary => Fault::BadResponse(
            "tcp: LowCardinality block set neither the additional-keys nor the global-dictionary flag"@,
        ),
        DecodeError::IndexCount { indices, rows } => Fault::BadResponse(
            "tcp: LowCardinality index count "@ + text::decimal(indices as nat) + " != row count "@
                + text::decimal(rows as nat),
        ),
        DecodeError::VariantMode(mode) => Fault::BadResponse(
            "tcp: Variant column uses discriminator mode "@ + text::decimal(mode as nat)
                + " -- only basic (0) is supported"@,
        ),
        DecodeError::VariantAlternative => Fault::BadResponse(
            "tcp: Variant column holds a discriminator without a type"@,
        ),
        DecodeError::DynamicVersion(version) => Fault::BadResponse(
            "tcp: Dynamic column uses structure version "@ + text::decimal(version as nat)
                + " -- only 1 and 2 are supported"@,
        ),
        DecodeError::DynamicType => Fault::BadResponse(
            "tcp: Dynamic column announced an unknown type"@,
        ),
    }
}

/// How a block that could not be decoded is reported.
pub open spec fn block_fault(e: BlockFault) -> Fault {
    match e {
        BlockFault::Column(e) => column_fault(e),
        BlockFault::CustomSerialization { name, flag } => Fault::BadResponse(
            "tcp: column '"@ + name + "' uses custom serialization flag "@ + text::decimal(
                flag as nat,
            ) + " -- only normal (0) is supported"@,
        ),
        BlockFault::UnknownType { name, type_text } => Fault::BadResponse(
            "tcp: server announced unknown column type '"@ + type_text + "' for column '"@ + name
                + "'"@,
        ),
    }
}

impl WireError {
    /// The error to report.
    pub fn into_error(self) -> (r: Error)
        ensures
            response::fault_of(r) == wire_fault(self),
    {
        match self {
            WireError::Truncated => Error::Other("early eof".to_owned()),
            WireError::VarUintOverflow => Error::BadResponse(
                "tcp: variable-length integer exceeds 64 bits".to_owned(),
            ),
            WireError::StringTooLong(len) => {
                let mut told = "tcp: string of ".to_owned();
                push_decimal(&mut told, len);
                told.push_str(" bytes exceeds the size limit");
                Error::BadResponse(told)
            },
            WireError::NotUtf8 => Error::BadResponse("tcp: string is not valid utf8".to_owned()),
        }
    }
}

impl DecodeError {
    /// The error to report.
    pub fn into_error(self) -> (r: Error)
        ensures
            response::fault_of(r) == column_fault(self),
    {
        match self {
            DecodeError::Wire(e) => e.into_error(),
            DecodeError::TooDeep => Error::BadResponse(
                "tcp: column type nesting exceeds 32 levels".to_owned(),
            ),
            DecodeError::RowCount(n) => {
                let mut told = "tcp: row count ".to_owned();
                push_decimal(&mut told, n);
                told.push_str(" exceeds platform usize");
                Error::BadResponse(told)
            },
            DecodeError::NumericOverflow => Error::BadResponse(
                "tcp: numeric column byte length overflows usize".to_owned(),
            ),
            DecodeError::WideOverflow => Error::BadResponse(
                "tcp: 256-bit column byte length overflows usize".to_owned(),
            ),
            DecodeError::FixedStringOverflow => Error::BadResponse(
                "tcp: FixedString block overflow".to_owned(),
            ),
            DecodeError::ArrayOffsets => Error::BadResponse(
                "tcp: Array column offsets are not monotonically increasing".to_owned(),
            ),
            DecodeError::MapOffsets => Error::BadResponse(
                "tcp: Map column offsets are not monotonically increasing".to_owned(),
            ),
            DecodeError::GlobalDictionary => Error::BadResponse(
                "tcp: LowCardinality global dictionary is not supported on the client-server path (only per-block additional keys)".to_owned(),
            ),
            DecodeError::NoDictionary => Error::BadResponse(
                "tcp: LowCardinality block set neither the additional-keys nor the global-dictionary flag".to_owned(),
            ),
            DecodeError::IndexCount { indices, rows } => {
                let mut told = "tcp: LowCardinality index count ".to_owned();
                push_decimal(&mut told, indices);
                told.push_str(" != row count ");
                push_decimal(&mut told, rows);
                Error::BadResponse(told)
            },
            DecodeError::VariantMode(mode) => {
                let mut told = "tcp: Variant column uses discriminator mode ".to_owned();
                push_decimal(&mut told, mode);
                told.push_str(" -- only basic (0) is supported");
                Error::BadResponse(told)
            },
            DecodeError::VariantAlternative => Error::BadResponse(
                "tcp: Variant column holds a discriminator without a type".to_owned(),
            ),
            DecodeError::DynamicVersion(version) => {
                let mut told = "tcp: Dynamic column uses structure version ".to_owned();
                push_decimal(&mut told, version);
                told.push_str(" -- only 1 and 2 are supported");
                Error::BadResponse(told)
            },
            DecodeError::DynamicType => Error::BadResponse(
                "tcp: Dynamic column announced an unknown type".to_owned(),
            ),
        }
    }
}

impl BlockError {
    /// The error to report.
    pub fn into_error(self) -> (r: Error)
        ensures
            response::fault_of(r) == block_fault(self.model()),
    {
        match self {
            BlockError::Column(e) => e.into_error(),
            BlockError::CustomSerialization { name, flag } => {
                let mut told = "tcp: column '".to_owned();
                told.push_str(name.as_str());
                told.push_str("' uses custom serialization flag ");
                push_decimal(&mut told, flag as u64);
                told.push_str(" -- only normal (0) is supported");
                Error::BadResponse(told)
            },
            BlockError::UnknownType { name, type_text } => {
                let mut told = "tcp: server announced unknown column type '".to_owned();
                told.push_str(type_text.as_str());
                told.push_str("' for column '");
                told.push_str(name.as_str());
                told.push_str("'");
                Error::BadResponse(told)
            },
        }
    }
}

/// Bytes that end too early are an error of the connection; everything else that is wrong with a block
/// is a bad answer of the server.
pub proof fn only_early_ends_are_no_answers(e: DecodeError, b: BlockFault)
    ensures
        column_fault(e) is Other <==> e == DecodeError::Wire(WireError::Truncated),
        column_fault(e) is BadResponse <==> e != DecodeError::Wire(WireError::Truncated),
        block_fault(b) is Other <==> b == BlockFault::Column(DecodeError::Wire(WireError::Truncated)),
        block_fault(b) is BadResponse <==> b != BlockFault::Column(
            DecodeError::Wire(WireError::Truncated),
        ),
        block_fault(BlockFault::Column(e)) == column_fault(e),
{
}

/// A text stands in another.
pub open spec fn holds_text(s: Seq<char>, part: Seq<char>) -> bool {
    exists|i: int| #[trigger] text::occurs_at(s, part, i)
}

/// What is wrong is told with the numbers and names that it is about.
pub proof fn faults_tell_what_they_are_about(
    n: u64,
    m: u64,
    name: Seq<char>,
    type_text: Seq<char>,
    flag: u8,
)
    ensures
        column_fault(DecodeError::RowCount(n)) matches Fault::BadResponse(s) && holds_text(
            s,
            text::decimal(n as nat),
        ),
        column_fault(DecodeError::IndexCount { indices: n, rows: m }) matches Fault::BadResponse(s)
            && holds_text(s, text::decimal(n as nat)) && holds_text(s, text::decimal(m as nat)),
        column_fault(DecodeError::VariantMode(n)) matches Fault::BadResponse(s) && holds_text(
            s,
            text::decimal(n as nat),
        ),
        column_fault(DecodeError::DynamicVersion(n)) matches Fault::BadResponse(s) && holds_text(
            s,
            text::decimal(n as nat),
        ),
        wire_fault(WireError::StringTooLong(n)) matches Fault::BadResponse(s) && holds_text(
            s,
            text::decimal(n as nat),
        ),
        block_fault(BlockFault::UnknownType { name, type_text }) matches Fault::BadResponse(s)
            && holds_text(s, name) && holds_text(s, type_text),
        block_fault(BlockFault::CustomSerialization { name, flag }) matches Fault::BadResponse(s)
            && holds_text(s, name) && holds_text(s, text::decimal(flag as nat)),
{
    let d = text::decimal(n as nat);
    lemma_holds("tcp: row count "@, d, " exceeds platform usize"@);
    lemma_holds("tcp: Variant column uses discriminator mode "@, d, " -- only basic (0) is supported"@);
    lemma_holds(
        "tcp: Dynamic column uses structure version "@,
        d,
        " -- only 1 and 2 are supported"@,
    );
    lemma_holds("tcp: string of "@, d, " bytes exceeds the size limit"@);
    let e = text::decimal(m as nat);
    let counts = "tcp: LowCardinality index count "@ + d + " != row count "@ + e;
    lemma_holds("tcp: LowCardinality index count "@, d, " != row count "@ + e);
    assert(counts =~= "tcp: LowCardinality index count "@ + d + (" != row count "@ + e));
    lemma_holds("tcp: LowCardinality index count "@ + d + " != row count "@, e, Seq::empty());
    assert(counts =~= counts + Seq::empty());
    let a = "tcp: server announced unknown column type '"@;
    let b = "' for column '"@;
    let unknown = a + type_text + b + name + "'"@;
    lemma_holds(a, type_text, b + name + "'"@);
    assert(unknown =~= a + type_text + (b + name + "'"@));
    lemma_holds(a + type_text + b, name, "'"@);
    let c = "tcp: column '"@;
    let f = "' uses custom serialization flag "@;
    let g = text::decimal(flag as nat);
    let custom = c + name + f + g + " -- only normal (0) is supported"@;
    lemma_holds(c, name, f + g + " -- only normal (0) is supported"@);
    assert(custom =~= c + name + (f + g + " -- only normal (0) is supported"@));
    lemma_holds(c + name + f, g, " -- only normal (0) is supported"@);
}

proof fn lemma_holds(front: Seq<char>, part: Seq<char>, back: Seq<char>)
    ensures
        holds_text(front + part + back, part),
{
    let s = front + part + back;
    let i = front.len() as int;
    assert(s.subrange(i, i + part.len()) =~= part);
    assert(text::occurs_at(s, part, i));
}

} // verus!
