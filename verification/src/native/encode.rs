//! What an insert in Native format sends: the columns that it is laid out by, and the
//! envelope of a block.
use vstd::prelude::*;

use crate::error::{Error, Result};
use crate::native::column_type::{self, ColumnType};
use crate::native::wire::{self, write_var_uint};

verus! {

/// One column of an insert.
#[derive(Debug)]
pub struct ColumnSchema {
    pub name: String,
    pub column_type: ColumnType,
}

/// The structure of the type that a column is announced with.
pub open spec fn announced(header: (String, String)) -> Option<column_type::Type> {
    column_type::type_named(header.1@, column_type::MAX_TYPE_LEVELS as nat)
}

/// A schema lays out the given columns: the same names, each with the type that its type
/// name stands for.
pub open spec fn lays_out(schema: Seq<ColumnSchema>, headers: Seq<(String, String)>) -> bool {
    &&& schema.len() == headers.len()
    &&& forall|i: int|
        0 <= i < schema.len() ==> (#[trigger] schema[i]).name@ == headers[i].0@ && announced(
            headers[i],
        ) == Some(schema[i].column_type.model())
}

/// The first column from `from` on whose type name is unknown.
pub open spec fn first_unknown(headers: Seq<(String, String)>, from: int) -> Option<int>
    decreases headers.len() - from,
{
    if from >= headers.len() {
        None
    } else if announced(headers[from]) is None {
        Some(from)
    } else {
        first_unknown(headers, from + 1)
    }
}

/// The error for a column whose type name is unknown.
pub open spec fn unknown_type(header: (String, String)) -> Seq<char> {
    "unknown column type '"@ + header.1@ + "' for column '"@ + header.0@ + seq!['\'']
}

impl ColumnSchema {
    /// The layout of the given columns, by name and type name. The first unknown type name
    /// is an error.
    pub fn from_headers(headers: &Vec<(String, String)>) -> (r: Result<Vec<ColumnSchema>>)
        ensures
            (match r {
                Ok(schema) => first_unknown(headers@, 0) is None && lays_out(schema@, headers@),
                Err(e) => first_unknown(headers@, 0) matches Some(i) && (
                e matches Error::Unsupported(s) && s@ == unknown_type(headers@[i])),
            }),
    {
        let mut schema: Vec<ColumnSchema> = Vec::new();
        let mut i: usize = 0;
        while i < headers.len()
            invariant
                i <= headers@.len(),
                schema@.len() == i,
                first_unknown(headers@, 0) == first_unknown(headers@, i as int),
                forall|j: int|
                    0 <= j < i ==> (#[trigger] schema@[j]).name@ == headers@[j].0@ && announced(
                        headers@[j],
                    ) == Some(schema@[j].column_type.model()),
            decreases headers@.len() - i,
        {
            match ColumnType::parse(headers[i].1.as_str()) {
                Some(column_type) => {
                    schema.push(ColumnSchema { name: headers[i].0.clone(), column_type });
                },
                None => {
                    let mut msg = "unknown column type '".to_owned();
                    msg.push_str(headers[i].1.as_str());
                    msg.push_str("' for column '");
                    msg.push_str(headers[i].0.as_str());
                    msg.push('\'');
                    proof {
                        assert(msg@ =~= unknown_type(headers@[i as int]));
                    }
                    return Err(Error::Unsupported(msg));
                },
            }
            i += 1;
        }
        Ok(schema)
    }
}

/// A block as the body of an HTTP request: the numbers of columns and rows, then the columns.
pub open spec fn block_body(columns: nat, rows: nat, column_bytes: Seq<u8>) -> Seq<u8> {
    wire::varuint_bytes(columns) + wire::varuint_bytes(rows) + column_bytes
}

/// A block as the body of an HTTP request.
pub fn compose_block(columns: u64, rows: u64, column_bytes: &Vec<u8>) -> (out: Vec<u8>)
    ensures
        out@ == block_body(columns as nat, rows as nat, column_bytes@),
{
    let mut out: Vec<u8> = Vec::new();
    write_var_uint(&mut out, columns);
    write_var_uint(&mut out, rows);
    out.extend_from_slice(column_bytes.as_slice());
    proof {
        assert(out@ =~= block_body(columns as nat, rows as nat, column_bytes@));
    }
    out
}

/// The numbers at the start of a block read back, and the columns stand behind them.
pub proof fn block_bodies_read_back(columns: nat, rows: nat, column_bytes: Seq<u8>)
    requires
        columns <= u64::MAX,
        rows <= u64::MAX,
    ensures
        ({
            let body = block_body(columns, rows, column_bytes);
            let a = wire::varuint_bytes(columns).len();
            let b = wire::varuint_bytes(rows).len();
            &&& wire::varuint(body) == Ok::<(nat, nat), wire::WireError>((columns, a))
            &&& wire::varuint(body.skip(a as int)) == Ok::<(nat, nat), wire::WireError>((rows, b))
            &&& body.skip((a + b) as int) == column_bytes
        }),
{
    let body = block_body(columns, rows, column_bytes);
    let x = wire::varuint_bytes(columns);
    let y = wire::varuint_bytes(rows);
    assert(body =~= x + (y + column_bytes));
    wire::varuint_reads_back(columns, y + column_bytes);
    assert(body.skip(x.len() as int) =~= y + column_bytes);
    wire::varuint_reads_back(rows, column_bytes);
    assert(body.skip((x.len() + y.len()) as int) =~= column_bytes);
}

/// A layout is refused exactly where a column is announced by a name that stands for no type, and the
/// first such column is the one that is told of.
pub proof fn the_first_unknown_column_is_told(headers: Seq<(String, String)>, from: int)
    requires
        0 <= from,
    ensures
        match first_unknown(headers, from) {
            Some(i) => from <= i < headers.len() && announced(headers[i]) is None && forall|j: int|
                from <= j < i ==> announced(#[trigger] headers[j]) is Some,
            None => forall|j: int|
                from <= j < headers.len() ==> announced(#[trigger] headers[j]) is Some,
        },
    decreases headers.len() - from,
{
    if from < headers.len() && announced(headers[from]) is Some {
        the_first_unknown_column_is_told(headers, from + 1);
    }
}

/// A layout has the columns that it lays out: as many, in their order, with their names and the types
/// that they were announced with.
pub proof fn layouts_keep_the_columns(
    schema: Seq<ColumnSchema>,
    headers: Seq<(String, String)>,
    i: int,
)
    requires
        lays_out(schema, headers),
        0 <= i < headers.len(),
    ensures
        schema.len() == headers.len(),
        schema[i].name@ == headers[i].0@,
        column_type::type_named(headers[i].1@, 33) == Some(schema[i].column_type.model()),
        unknown_type(headers[i]) == "unknown column type '"@ + headers[i].1@ + "' for column '"@
            + headers[i].0@ + seq!['\''],
{
}

} // verus!
