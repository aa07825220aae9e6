//! Inserts in Native format.
//!
//! An [`InsertNative`] holds serialised rows until a block of them is full, by the number of
//! rows or by their bytes. Its caller then lays the rows out in columns, sends the block and
//! reports it as shipped. The blocks of one insert follow one another; there is at least one,
//! if need be an empty one.
use vstd::prelude::*;

use crate::error::{Error, Result};
use crate::native::encode::{self, compose_block, ColumnSchema};
use crate::settings;
use crate::sql::{self, compose_native_insert_sql, identifier};
use crate::text::{self, debug_text, push_decimal};

verus! {

/// The protocol revision that blocks are laid out for, where the server has not said.
pub const DEFAULT_REVISION: u64 = 54454;

/// How many rows a block holds by default over HTTP.
pub const DEFAULT_MAX_ROWS_PER_BLOCK: u64 = 100000;

/// How many bytes of rows a block holds by default.
pub const DEFAULT_MAX_BYTES_PER_BLOCK: u64 = 10485760;

/// How an insert reaches the server.
#[derive(Debug, Clone, Copy, PartialEq, Eq, Structural)]
pub enum Transport {
    Http,
    Tcp,
}

/// The columns of a row type: how many, and their names where the type has names.
#[derive(Debug)]
pub struct RowShape {
    pub column_count: usize,
    pub column_names: Vec<String>,
}

/// An insert in Native format.
#[must_use]
#[derive(Debug)]
pub struct InsertNative {
    pub transport: Transport,
    pub sql: String,
    pub column_schema: Vec<ColumnSchema>,
    pub rows: Vec<Vec<u8>>,
    pub buffered_bytes: u64,
    pub revision: u64,
    pub max_rows_per_block: u64,
    pub max_bytes_per_block: u64,
    pub sent_any_block: bool,
}

/// The bytes of all rows together.
pub open spec fn total_bytes(rows: Seq<Vec<u8>>) -> nat
    decreases rows.len(),
{
    if rows.len() == 0 {
        0
    } else {
        total_bytes(rows.drop_last()) + rows.last()@.len()
    }
}

/// A number, or the largest that fits in 64 bits where it does not.
pub open spec fn capped(n: nat) -> nat {
    if n > u64::MAX {
        u64::MAX as nat
    } else {
        n
    }
}

/// Where the caller's columns first differ from the server's, by name or by type name.
pub open spec fn first_difference(
    caller: Seq<(Seq<char>, Seq<char>)>,
    server: Seq<(Seq<char>, Seq<char>)>,
    from: int,
) -> Option<int>
    decreases caller.len() - from,
{
    if from >= caller.len() || from >= server.len() {
        None
    } else if caller[from] != server[from] {
        Some(from)
    } else {
        first_difference(caller, server, from + 1)
    }
}

/// The message for different numbers of columns.
pub open spec fn count_mismatch(caller: nat, server: nat) -> Seq<char> {
    "InsertNative::with_columns_tcp: caller declared "@ + text::decimal(caller)
        + " columns but server-echoed schema has "@ + text::decimal(server)
}

/// The message for a column that differs.
pub open spec fn column_mismatch(
    i: nat,
    caller: (Seq<char>, Seq<char>),
    server: (Seq<char>, Seq<char>),
) -> Seq<char> {
    "InsertNative::with_columns_tcp: column "@ + text::decimal(i) + ": caller declared ("@
        + text::debug_form(caller.0) + ", "@ + text::debug_form(caller.1) + "), server echoed ("@
        + text::debug_form(server.0) + ", "@ + text::debug_form(server.1) + ")"@
}

/// Why the caller's columns are not the server's.
pub open spec fn caller_fault(
    caller: Seq<(Seq<char>, Seq<char>)>,
    server: Seq<(Seq<char>, Seq<char>)>,
) -> Option<Seq<char>> {
    if server.len() != caller.len() {
        Some(count_mismatch(caller.len(), server.len()))
    } else {
        match first_difference(caller, server, 0) {
            Some(i) => Some(column_mismatch(i as nat, caller[i], server[i])),
            None => None,
        }
    }
}

fn same(a: &str, b: &str) -> (r: bool)
    ensures
        r == (a@ == b@),
{
    let chars = text::chars_of(a);
    text::is_text(chars.as_slice(), b)
}

/// Holds the caller's columns against the server's: as many, with the same names and type
/// names in the same order.
pub fn validate_caller_columns_vs_server(
    caller: &Vec<(String, String)>,
    server: &Vec<(String, String)>,
) -> (r: Result<()>)
    ensures
        (match caller_fault(settings::pairs(caller@), settings::pairs(server@)) {
            None => r is Ok,
            Some(msg) => r matches Err(Error::Other(s)) && s@ == msg,
        }),
{
    let ghost c = settings::pairs(caller@);
    let ghost v = settings::pairs(server@);
    if server.len() != caller.len() {
        let mut msg = "InsertNative::with_columns_tcp: caller declared ".to_owned();
        push_decimal(&mut msg, caller.len() as u64);
        msg.push_str(" columns but server-echoed schema has ");
        push_decimal(&mut msg, server.len() as u64);
        return Err(Error::Other(msg));
    }
    let mut i: usize = 0;
    while i < caller.len()
        invariant
            i <= caller@.len() == server@.len(),
            c == settings::pairs(caller@),
            v == settings::pairs(server@),
            first_difference(c, v, 0) == first_difference(c, v, i as int),
        decreases caller@.len() - i,
    {
        let a = &caller[i];
        let b = &server[i];
        if !same(a.0.as_str(), b.0.as_str()) || !same(a.1.as_str(), b.1.as_str()) {
            let mut msg = "InsertNative::with_columns_tcp: column ".to_owned();
            push_decimal(&mut msg, i as u64);
            msg.push_str(": caller declared (");
            msg.push_str(debug_text(a.0.as_str()).as_str());
            msg.push_str(", ");
            msg.push_str(debug_text(a.1.as_str()).as_str());
            msg.push_str("), server echoed (");
            msg.push_str(debug_text(b.0.as_str()).as_str());
            msg.push_str(", ");
            msg.push_str(debug_text(b.1.as_str()).as_str());
            msg.push_str(")");
            return Err(Error::Other(msg));
        }
        i += 1;
    }
    Ok(())
}

/// Where the names of a row type first differ from the server's columns.
pub open spec fn first_other_name(
    server: Seq<(Seq<char>, Seq<char>)>,
    names: Seq<Seq<char>>,
    from: int,
) -> Option<int>
    decreases server.len() - from,
{
    if from >= server.len() || from >= names.len() {
        None
    } else if server[from].0 != names[from] {
        Some(from)
    } else {
        first_other_name(server, names, from + 1)
    }
}

/// Why a row type does not fit the server's columns: their number, or a name. A row type
/// without names is held to the number alone.
pub open spec fn typed_fault(
    server: Seq<(Seq<char>, Seq<char>)>,
    count: nat,
    names: Seq<Seq<char>>,
) -> Option<Seq<char>> {
    if server.len() != count {
        Some(
            "TCP insert_native: Row<T> has "@ + text::decimal(count)
                + " columns but server schema reports "@ + text::decimal(server.len()),
        )
    } else {
        match first_other_name(server, names, 0) {
            Some(i) => Some(
                "TCP insert_native: column at position "@ + text::decimal(i as nat)
                    + ": Row<T> field "@ + text::debug_form(names[i]) + " but server reports "@
                    + text::debug_form(server[i].0),
            ),
            None => None,
        }
    }
}

/// Holds the columns of a row type against the server's.
pub fn validate_typed_columns_vs_server(server: &Vec<(String, String)>, row: &RowShape) -> (r:
    Result<()>)
    ensures
        (match typed_fault(
            settings::pairs(server@),
            row.column_count as nat,
            sql::texts(row.column_names@),
        ) {
            None => r is Ok,
            Some(msg) => r matches Err(Error::Other(s)) && s@ == msg,
        }),
{
    let ghost v = settings::pairs(server@);
    let ghost names = sql::texts(row.column_names@);
    if server.len() != row.column_count {
        let mut msg = "TCP insert_native: Row<T> has ".to_owned();
        push_decimal(&mut msg, row.column_count as u64);
        msg.push_str(" columns but server schema reports ");
        push_decimal(&mut msg, server.len() as u64);
        return Err(Error::Other(msg));
    }
    let mut i: usize = 0;
    while i < server.len() && i < row.column_names.len()
        invariant
            i <= server@.len(),
            i <= row.column_names@.len(),
            server@.len() == row.column_count,
            v == settings::pairs(server@),
            names == sql::texts(row.column_names@),
            first_other_name(v, names, 0) == first_other_name(v, names, i as int),
        decreases server@.len() - i,
    {
        if !same(server[i].0.as_str(), row.column_names[i].as_str()) {
            let mut msg = "TCP insert_native: column at position ".to_owned();
            push_decimal(&mut msg, i as u64);
            msg.push_str(": Row<T> field ");
            msg.push_str(debug_text(row.column_names[i].as_str()).as_str());
            msg.push_str(" but server reports ");
            msg.push_str(debug_text(server[i].0.as_str()).as_str());
            return Err(Error::Other(msg));
        }
        i += 1;
    }
    Ok(())
}

/// What is wrong with an insert without columns.
pub open spec fn no_columns(constructor: Seq<char>) -> Seq<char> {
    constructor + ": columns is empty; INSERT needs at least one column"@
}

/// The insert before its first row.
pub open spec fn fresh(insert: InsertNative, revision: u64, max_rows: u64) -> bool {
    &&& insert.rows@ == Seq::<Vec<u8>>::empty()
    &&& insert.buffered_bytes == 0
    &&& insert.revision == revision
    &&& insert.max_rows_per_block == max_rows
    &&& insert.max_bytes_per_block == DEFAULT_MAX_BYTES_PER_BLOCK
    &&& !insert.sent_any_block
}

/// Rows that fill a block.
pub open spec fn fills(rows: Seq<Vec<u8>>, max_rows: u64, max_bytes: u64) -> bool {
    rows.len() >= max_rows || capped(total_bytes(rows)) >= max_bytes
}

/// The error for the first column whose type name is unknown.
pub open spec fn schema_error(e: Error, columns: Seq<(String, String)>) -> bool {
    encode::first_unknown(columns, 0) matches Some(i) && (e matches Error::Unsupported(s) && s@
        == encode::unknown_type(columns[i]))
}

fn make_insert(
    transport: Transport,
    sql: String,
    column_schema: Vec<ColumnSchema>,
    revision: u64,
    max_rows_per_block: u64,
) -> (r: InsertNative)
    ensures
        r.transport == transport,
        r.sql == sql,
        r.column_schema == column_schema,
        fresh(r, revision, max_rows_per_block),
        r.wf(),
{
    InsertNative {
        transport,
        sql,
        column_schema,
        rows: Vec::new(),
        buffered_bytes: 0,
        revision,
        max_rows_per_block,
        max_bytes_per_block: DEFAULT_MAX_BYTES_PER_BLOCK,
        sent_any_block: false,
    }
}

impl InsertNative {
    /// The invariant of an insert: the bytes of its rows are counted.
    pub open spec fn wf(&self) -> bool {
        self.buffered_bytes == capped(total_bytes(self.rows@))
    }

    /// The rows that wait fill a block.
    pub open spec fn is_full(&self) -> bool {
        fills(self.rows@, self.max_rows_per_block, self.max_bytes_per_block)
    }

    /// The same insert but for the rows that wait and whether a block was sent.
    pub open spec fn same_target(&self, other: &InsertNative) -> bool {
        &&& self.transport == other.transport
        &&& self.sql == other.sql
        &&& self.column_schema == other.column_schema
        &&& self.revision == other.revision
        &&& self.max_rows_per_block == other.max_rows_per_block
        &&& self.max_bytes_per_block == other.max_bytes_per_block
    }

    /// An insert over HTTP of the given columns, by name and type name. There has to be a
    /// column, and every type name has to be known.
    pub fn with_columns(table: &str, columns: &Vec<(String, String)>) -> (r: Result<InsertNative>)
        ensures
            (match r {
                Ok(insert) => columns@.len() > 0 && insert.wf() && insert.transport
                    == Transport::Http && insert.sql@ == sql::native_insert(
                    sql::quoted_identifier(table@),
                    sql::names_of(columns@),
                ) && encode::lays_out(insert.column_schema@, columns@) && fresh(
                    insert,
                    DEFAULT_REVISION,
                    DEFAULT_MAX_ROWS_PER_BLOCK,
                ),
                Err(e) => if columns@.len() == 0 {
                    e matches Error::Other(s) && s@ == no_columns("InsertNative::with_columns"@)
                } else {
                    schema_error(e, columns@)
                },
            }),
            r is Ok <==> columns@.len() > 0 && encode::first_unknown(columns@, 0) is None,
    {
        if columns.len() == 0 {
            let mut msg = "InsertNative::with_columns".to_owned();
            msg.push_str(": columns is empty; INSERT needs at least one column");
            return Err(Error::Other(msg));
        }
        let escaped_table = identifier(table);
        Self::with_escaped_table(escaped_table.as_str(), columns)
    }

    /// An insert over HTTP into a table whose name is quoted already.
    pub fn with_escaped_table(table_escaped: &str, columns: &Vec<(String, String)>) -> (r: Result<
        InsertNative,
    >)
        ensures
            (match r {
                Ok(insert) => insert.wf() && insert.transport == Transport::Http && insert.sql@
                    == sql::native_insert(table_escaped@, sql::names_of(columns@))
                    && encode::lays_out(insert.column_schema@, columns@) && fresh(
                    insert,
                    DEFAULT_REVISION,
                    DEFAULT_MAX_ROWS_PER_BLOCK,
                ),
                Err(e) => schema_error(e, columns@),
            }),
            r is Ok <==> encode::first_unknown(columns@, 0) is None,
    {
        match ColumnSchema::from_headers(columns) {
            Err(e) => Err(e),
            Ok(schema) => Ok(
                make_insert(
                    Transport::Http,
                    compose_native_insert_sql(table_escaped, columns),
                    schema,
                    DEFAULT_REVISION,
                    DEFAULT_MAX_ROWS_PER_BLOCK,
                ),
            ),
        }
    }

    /// The statement for an insert over TCP into all columns of a table whose name is quoted
    /// already.
    pub fn tcp_insert_sql(table_escaped: &str) -> (out: String)
        ensures
            out@ == "INSERT INTO "@ + table_escaped@ + " FORMAT Native"@,
    {
        let mut out = "INSERT INTO ".to_owned();
        out.push_str(table_escaped);
        out.push_str(" FORMAT Native");
        out
    }

    /// An insert over TCP of a row type, once the server has declared its columns. Its blocks
    /// hold `block_rows` rows, which the transport decides. On an error the session has to be
    /// aborted: no rows have been sent.
    pub fn new_tcp_with_server_schema(
        sql: String,
        server_columns: &Vec<(String, String)>,
        server_revision: u64,
        block_rows: u64,
        row: &RowShape,
    ) -> (r: Result<InsertNative>)
        ensures
            ({
                let fault = typed_fault(
                    settings::pairs(server_columns@),
                    row.column_count as nat,
                    sql::texts(row.column_names@),
                );
                match r {
                    Ok(insert) => server_columns@.len() > 0 && encode::first_unknown(
                        server_columns@,
                        0,
                    ) is None && fault is None && insert.wf() && insert.transport == Transport::Tcp
                        && insert.sql == sql && encode::lays_out(
                        insert.column_schema@,
                        server_columns@,
                    ) && fresh(insert, server_revision, block_rows),
                    Err(e) => if server_columns@.len() == 0 {
                        e matches Error::Other(s) && s@
                            == "TCP insert_native: server schema block carried no columns; cannot determine encoder layout. This usually indicates a protocol revision below 24.x -- supply columns explicitly via InsertNative::with_columns over a Client that exposes the TCP pool directly."@
                    } else if encode::first_unknown(server_columns@, 0) is Some {
                        schema_error(e, server_columns@)
                    } else {
                        fault is Some && (e matches Error::Other(s) && s@ == fault->0)
                    },
                }
            }),
    {
        if server_columns.len() == 0 {
            return Err(
                Error::Other(
                    "TCP insert_native: server schema block carried no columns; cannot determine encoder layout. This usually indicates a protocol revision below 24.x -- supply columns explicitly via InsertNative::with_columns over a Client that exposes the TCP pool directly.".to_owned(),
                ),
            );
        }
        let schema = match ColumnSchema::from_headers(server_columns) {
            Ok(schema) => schema,
            Err(e) => {
                return Err(e);
            },
        };
        match validate_typed_columns_vs_server(server_columns, row) {
            Err(e) => Err(e),
            Ok(_) => Ok(
                make_insert(
                    Transport::Tcp,
                    sql,
                    schema,
                    server_revision,
                    block_rows,
                ),
            ),
        }
    }

    /// The statement that opens an insert over TCP of the given columns, before anything is
    /// sent.
    pub fn open_with_columns_tcp(
        table: &str,
        columns: &Vec<(String, String)>,
        has_pool: bool,
    ) -> (r: Result<String>)
        ensures
            (match r {
                Ok(q) => columns@.len() > 0 && has_pool && q@ == sql::native_insert(
                    sql::quoted_identifier(table@),
                    sql::names_of(columns@),
                ),
                Err(e) => if columns@.len() == 0 {
                    e matches Error::Other(s) && s@ == no_columns(
                        "InsertNative::with_columns_tcp"@,
                    )
                } else {
                    !has_pool && (e matches Error::Other(s) && s@
                        == "InsertNative::with_columns_tcp: Client has no TCP pool; build with Client::tcp(addr) or with_tcp_addrs"@)
                },
            }),
    {
        if columns.len() == 0 {
            let mut msg = "InsertNative::with_columns_tcp".to_owned();
            msg.push_str(": columns is empty; INSERT needs at least one column");
            return Err(Error::Other(msg));
        }
        let escaped_table = identifier(table);
        if !has_pool {
            return Err(
                Error::Other(
                    "InsertNative::with_columns_tcp: Client has no TCP pool; build with Client::tcp(addr) or with_tcp_addrs".to_owned(),
                ),
            );
        }
        Ok(compose_native_insert_sql(escaped_table.as_str(), columns))
    }

    /// An insert over TCP of the given columns, once the server has declared its columns. Its
    /// blocks hold `block_rows` rows, which the transport decides. On an error the session has
    /// to be aborted: no rows have been sent.
    pub fn with_columns_tcp(
        sql: String,
        columns: &Vec<(String, String)>,
        server_columns: &Vec<(String, String)>,
        server_revision: u64,
        block_rows: u64,
    ) -> (r: Result<InsertNative>)
        ensures
            ({
                let fault = caller_fault(
                    settings::pairs(columns@),
                    settings::pairs(server_columns@),
                );
                match r {
                    Ok(insert) => fault is None && encode::first_unknown(columns@, 0) is None
                        && insert.wf() && insert.transport == Transport::Tcp && insert.sql == sql
                        && encode::lays_out(insert.column_schema@, columns@) && fresh(
                        insert,
                        server_revision,
                        block_rows,
                    ),
                    Err(e) => if fault is Some {
                        e matches Error::Other(s) && s@ == fault->0
                    } else {
                        schema_error(e, columns@)
                    },
                }
            }),
    {
        match validate_caller_columns_vs_server(columns, server_columns) {
            Err(e) => {
                return Err(e);
            },
            Ok(_) => {},
        }
        match ColumnSchema::from_headers(columns) {
            Err(e) => Err(e),
            Ok(schema) => Ok(
                make_insert(
                    Transport::Tcp,
                    sql,
                    schema,
                    server_revision,
                    block_rows,
                ),
            ),
        }
    }

    /// Lays blocks out for another protocol revision.
    pub fn with_revision(self, revision: u64) -> (r: Self)
        ensures
            r == (InsertNative { revision, ..self }),
    {
        let mut r = self;
        r.revision = revision;
        r
    }

    /// How many rows fill a block, at least one.
    pub fn with_max_rows_per_block(self, n: u64) -> (r: Self)
        ensures
            r == (InsertNative { max_rows_per_block: if n < 1 { 1 } else { n }, ..self }),
    {
        let mut r = self;
        r.max_rows_per_block = if n < 1 {
            1
        } else {
            n
        };
        r
    }

    /// How many bytes of rows fill a block, at least one.
    pub fn with_max_bytes_per_block(self, n: u64) -> (r: Self)
        ensures
            r == (InsertNative { max_bytes_per_block: if n < 1 { 1 } else { n }, ..self }),
    {
        let mut r = self;
        r.max_bytes_per_block = if n < 1 {
            1
        } else {
            n
        };
        r
    }

    /// Takes one serialised row. Gives whether the rows that wait now fill a block, which is
    /// then to be shipped.
    pub fn write(&mut self, row: Vec<u8>) -> (full: bool)
        requires
            old(self).wf(),
        ensures
            final(self).wf(),
            final(self).same_target(old(self)),
            final(self).sent_any_block == old(self).sent_any_block,
            final(self).rows@ == old(self).rows@.push(row),
            full == final(self).is_full(),
    {
        let ghost before = self.rows@;
        let n: u64 = row.len() as u64;
        self.buffered_bytes = if self.buffered_bytes > u64::MAX - n {
            u64::MAX
        } else {
            self.buffered_bytes + n
        };
        self.rows.push(row);
        proof {
            assert(self.rows@.drop_last() =~= before);
        }
        self.rows.len() as u64 >= self.max_rows_per_block || self.buffered_bytes
            >= self.max_bytes_per_block
    }

    /// Whether there are rows that a flush has to ship.
    pub fn flush(&self) -> (r: bool)
        ensures
            r == (self.rows@.len() > 0),
    {
        self.rows.len() > 0
    }

    /// Whether the end of the insert has to ship a block: the rows that wait, or an empty
    /// block where none was sent.
    pub fn end(&self) -> (r: bool)
        ensures
            r == (self.rows@.len() > 0 || !self.sent_any_block),
    {
        self.rows.len() > 0 || !self.sent_any_block
    }

    /// The revision that the next block is laid out for. Over HTTP that is none.
    pub fn block_revision(&self) -> (r: u64)
        ensures
            r == (match self.transport {
                Transport::Http => 0,
                Transport::Tcp => self.revision,
            }),
    {
        match self.transport {
            Transport::Http => 0,
            Transport::Tcp => self.revision,
        }
    }

    /// The rows that wait as the body of an HTTP request, once they are laid out in columns.
    pub fn http_block(&self, column_bytes: &Vec<u8>) -> (out: Vec<u8>)
        ensures
            out@ == encode::block_body(
                self.column_schema@.len(),
                self.rows@.len(),
                column_bytes@,
            ),
    {
        compose_block(self.column_schema.len() as u64, self.rows.len() as u64, column_bytes)
    }

    /// Takes note that the rows that waited were shipped.
    pub fn block_shipped(&mut self)
        ensures
            final(self).wf(),
            final(self).same_target(old(self)),
            final(self).rows@ == Seq::<Vec<u8>>::empty(),
            final(self).sent_any_block,
    {
        self.rows.clear();
        self.buffered_bytes = 0;
        self.sent_any_block = true;
    }

    /// Drops the insert with the rows that wait. Gives how it reached the server, since over
    /// TCP there is a session to abort.
    pub fn abort(self) -> (r: Transport)
        ensures
            r == self.transport,
    {
        self.transport
    }
}

/// What a caller does with an insert before its end.
pub enum Step {
    Write(Vec<u8>),
    Flush,
}

/// How far an insert has come whose caller ships every block that it is told to: the rows that
/// wait, whether a block was sent, and the blocks that were shipped.
#[verifier::ext_equal]
pub struct Shipping {
    pub waiting: Seq<Vec<u8>>,
    pub sent_any: bool,
    pub blocks: Seq<Seq<Vec<u8>>>,
}

/// The insert after the rows that wait were shipped, as `block_shipped` leaves it.
pub open spec fn shipped(s: Shipping) -> Shipping {
    Shipping { waiting: Seq::empty(), sent_any: true, blocks: s.blocks.push(s.waiting) }
}

/// The insert after one step: `write` ships a block that it fills, `flush` the rows that wait,
/// if there are any.
pub open spec fn stepped(s: Shipping, step: Step, max_rows: u64, max_bytes: u64) -> Shipping {
    match step {
        Step::Write(row) => {
            let w = Shipping { waiting: s.waiting.push(row), ..s };
            if fills(w.waiting, max_rows, max_bytes) {
                shipped(w)
            } else {
                w
            }
        },
        Step::Flush => if s.waiting.len() > 0 {
            shipped(s)
        } else {
            s
        },
    }
}

/// The insert after its steps.
pub open spec fn after_steps(steps: Seq<Step>, max_rows: u64, max_bytes: u64) -> Shipping
    decreases steps.len(),
{
    if steps.len() == 0 {
        Shipping { waiting: Seq::empty(), sent_any: false, blocks: Seq::empty() }
    } else {
        stepped(after_steps(steps.drop_last(), max_rows, max_bytes), steps.last(), max_rows, max_bytes)
    }
}

/// The insert after its end, which ships the rows that wait, or an empty block where none was
/// sent.
pub open spec fn ended(s: Shipping) -> Shipping {
    if s.waiting.len() > 0 || !s.sent_any {
        shipped(s)
    } else {
        s
    }
}

/// The rows that were written, in order.
pub open spec fn written_rows(steps: Seq<Step>) -> Seq<Vec<u8>>
    decreases steps.len(),
{
    if steps.len() == 0 {
        Seq::empty()
    } else {
        match steps.last() {
            Step::Write(row) => written_rows(steps.drop_last()).push(row),
            Step::Flush => written_rows(steps.drop_last()),
        }
    }
}

/// The rows of all blocks, in order.
pub open spec fn rows_of(blocks: Seq<Seq<Vec<u8>>>) -> Seq<Vec<u8>>
    decreases blocks.len(),
{
    if blocks.len() == 0 {
        Seq::empty()
    } else {
        rows_of(blocks.drop_last()) + blocks.last()
    }
}

proof fn lemma_shipped(s: Shipping)
    ensures
        rows_of(shipped(s).blocks) == rows_of(s.blocks) + s.waiting,
{
    assert(shipped(s).blocks.drop_last() =~= s.blocks);
}

proof fn lemma_steps(steps: Seq<Step>, max_rows: u64, max_bytes: u64)
    ensures
        ({
            let s = after_steps(steps, max_rows, max_bytes);
            &&& rows_of(s.blocks) + s.waiting == written_rows(steps)
            &&& s.sent_any == (s.blocks.len() > 0)
            &&& forall|i: int| 0 <= i < s.blocks.len() ==> (#[trigger] s.blocks[i]).len() > 0
        }),
    decreases steps.len(),
{
    if steps.len() > 0 {
        lemma_steps(steps.drop_last(), max_rows, max_bytes);
        let s = after_steps(steps.drop_last(), max_rows, max_bytes);
        let t = after_steps(steps, max_rows, max_bytes);
        lemma_shipped(s);
        match steps.last() {
            Step::Write(row) => {
                let w = Shipping { waiting: s.waiting.push(row), ..s };
                lemma_shipped(w);
                assert(rows_of(s.blocks) + s.waiting.push(row) =~= (rows_of(s.blocks)
                    + s.waiting).push(row));
            },
            Step::Flush => {},
        }
        assert(rows_of(t.blocks) + t.waiting =~= written_rows(steps));
    } else {
        assert(rows_of(Seq::empty()) + Seq::<Vec<u8>>::empty() =~= written_rows(steps));
    }
}

/// However rows are written and flushed, the blocks that are shipped hold exactly these rows, in
/// order. No block is empty, unless no row was written: then there is one block, an empty one.
pub proof fn blocks_hold_the_rows_in_order(steps: Seq<Step>, max_rows: u64, max_bytes: u64)
    ensures
        ({
            let blocks = ended(after_steps(steps, max_rows, max_bytes)).blocks;
            &&& rows_of(blocks) == written_rows(steps)
            &&& if written_rows(steps).len() == 0 {
                blocks == seq![Seq::<Vec<u8>>::empty()]
            } else {
                forall|i: int| 0 <= i < blocks.len() ==> (#[trigger] blocks[i]).len() > 0
            }
        }),
{
    lemma_steps(steps, max_rows, max_bytes);
    let s = after_steps(steps, max_rows, max_bytes);
    lemma_shipped(s);
    if written_rows(steps).len() == 0 && s.blocks.len() > 0 {
        assert(rows_of(s.blocks).len() == 0);
        assert(s.blocks[s.blocks.len() - 1].len() > 0);
    }
    if s.waiting.len() == 0 {
        assert(rows_of(s.blocks) + s.waiting =~= rows_of(s.blocks));
    }
    if written_rows(steps).len() == 0 {
        assert(ended(s).blocks =~= seq![s.waiting]);
        assert(s.waiting =~= Seq::empty());
    }
}

/// Where every full block is shipped, the rows that wait stay below both limits, so a block
/// exceeds a limit by no more than its last row.
pub proof fn blocks_stay_within_limits(insert: InsertNative, row: Vec<u8>)
    requires
        insert.wf(),
        !insert.is_full(),
    ensures
        insert.rows@.push(row).len() <= insert.max_rows_per_block,
        total_bytes(insert.rows@.push(row)) < insert.max_bytes_per_block + row@.len(),
{
    assert(insert.rows@.push(row).drop_last() =~= insert.rows@);
}

/// The bytes of rows add up.
pub proof fn bytes_of_rows_add_up(rows: Seq<Vec<u8>>, row: Vec<u8>)
    ensures
        total_bytes(Seq::empty()) == 0,
        total_bytes(rows.push(row)) == total_bytes(rows) + row@.len(),
{
    assert(rows.push(row).drop_last() =~= rows);
}

/// A block is full exactly where its rows or their bytes have reached a limit: one less does not fill
/// it.
pub proof fn blocks_are_full_at_their_limits(rows: Seq<Vec<u8>>, max_rows: u64, max_bytes: u64)
    ensures
        fills(rows, max_rows, max_bytes) <==> rows.len() >= max_rows || total_bytes(rows)
            >= max_bytes,
{
}

/// The columns that a caller declares are accepted exactly where they are the server's: as many, in
/// the same order, each with the same name and the same type name.
pub proof fn declared_columns_are_the_servers(
    caller: Seq<(Seq<char>, Seq<char>)>,
    server: Seq<(Seq<char>, Seq<char>)>,
)
    ensures
        caller_fault(caller, server) is None <==> caller == server,
{
    if caller.len() == server.len() {
        lemma_first_difference(caller, server, 0);
        if caller_fault(caller, server) is None {
            assert(caller =~= server);
        }
    }
}

proof fn lemma_first_difference(
    caller: Seq<(Seq<char>, Seq<char>)>,
    server: Seq<(Seq<char>, Seq<char>)>,
    from: int,
)
    requires
        caller.len() == server.len(),
        0 <= from,
    ensures
        match first_difference(caller, server, from) {
            Some(i) => from <= i < caller.len() && caller[i] != server[i] && forall|j: int|
                from <= j < i ==> caller[j] == server[j],
            None => forall|j: int| from <= j < caller.len() ==> caller[j] == server[j],
        },
    decreases caller.len() - from,
{
    if from < caller.len() && caller[from] == server[from] {
        lemma_first_difference(caller, server, from + 1);
    }
}

/// The first column that differs is the one that is told of, with what both sides say.
pub proof fn the_first_difference_is_told(
    caller: Seq<(Seq<char>, Seq<char>)>,
    server: Seq<(Seq<char>, Seq<char>)>,
    i: int,
)
    requires
        caller.len() == server.len(),
        0 <= i < caller.len(),
        caller[i] != server[i],
        forall|j: int| 0 <= j < i ==> caller[j] == server[j],
    ensures
        caller_fault(caller, server) == Some(column_mismatch(i as nat, caller[i], server[i])),
{
    lemma_first_difference(caller, server, 0);
}

/// A row type fits exactly where it has as many columns as the server and its names, as far as it has
/// any, are the server's in their order.
pub proof fn row_types_fit_by_number_and_name(
    server: Seq<(Seq<char>, Seq<char>)>,
    count: nat,
    names: Seq<Seq<char>>,
)
    ensures
        typed_fault(server, count, names) is None <==> server.len() == count && forall|i: int|
            0 <= i < server.len() && i < names.len() ==> (#[trigger] server[i]).0 == names[i],
{
    lemma_first_other_name(server, names, 0);
}

proof fn lemma_first_other_name(
    server: Seq<(Seq<char>, Seq<char>)>,
    names: Seq<Seq<char>>,
    from: int,
)
    requires
        0 <= from,
    ensures
        match first_other_name(server, names, from) {
            Some(i) => from <= i < server.len() && i < names.len() && server[i].0 != names[i],
            None => forall|j: int|
                from <= j < server.len() && j < names.len() ==> (#[trigger] server[j]).0 == names[j],
        },
    decreases server.len() - from,
{
    if from < server.len() && from < names.len() && server[from].0 == names[from] {
        lemma_first_other_name(server, names, from + 1);
    }
}

/// Before its first row an insert holds nothing, has sent nothing, and ships blocks of 10 MiB of rows
/// at most.
pub proof fn fresh_inserts_hold_nothing(insert: InsertNative, revision: u64, max_rows: u64)
    requires
        fresh(insert, revision, max_rows),
    ensures
        insert.rows@.len() == 0,
        insert.wf(),
        !insert.sent_any_block,
        insert.revision == revision,
        insert.max_rows_per_block == max_rows,
        insert.max_bytes_per_block == 10 * 1024 * 1024,
        insert.buffered_bytes == 0,
{
}

/// A row that fills no block waits, and one that fills it is shipped with all rows that waited before
/// it; a flush ships what waits and an end the rest.
pub proof fn rows_are_shipped_when_a_block_is_full(
    s: Shipping,
    row: Vec<u8>,
    max_rows: u64,
    max_bytes: u64,
)
    ensures
        ({
            let waiting = s.waiting.push(row);
            let t = stepped(s, Step::Write(row), max_rows, max_bytes);
            if waiting.len() >= max_rows || total_bytes(waiting) >= max_bytes {
                t.waiting.len() == 0 && t.sent_any && t.blocks == s.blocks.push(waiting)
            } else {
                t.waiting == waiting && t.sent_any == s.sent_any && t.blocks == s.blocks
            }
        }),
        ({
            let t = stepped(s, Step::Flush, max_rows, max_bytes);
            &&& t.waiting.len() == 0
            &&& t.blocks == if s.waiting.len() > 0 {
                s.blocks.push(s.waiting)
            } else {
                s.blocks
            }
        }),
        ended(s).waiting.len() == 0,
        ended(s).sent_any,
{
}

/// What is told of columns that do not fit tells what the caller declared before what the server says.
pub proof fn both_sides_are_told(
    caller: nat,
    server: nat,
    i: nat,
    a: (Seq<char>, Seq<char>),
    b: (Seq<char>, Seq<char>),
)
    ensures
        count_mismatch(caller, server) == "InsertNative::with_columns_tcp: caller declared "@
            + text::decimal(caller) + " columns but server-echoed schema has "@ + text::decimal(server),
        column_mismatch(i, a, b) == "InsertNative::with_columns_tcp: column "@ + text::decimal(i)
            + ": caller declared ("@ + text::debug_form(a.0) + ", "@ + text::debug_form(a.1)
            + "), server echoed ("@ + text::debug_form(b.0) + ", "@ + text::debug_form(b.1) + ")"@,
{
}

/// An insert of columns with an unknown type is refused with what is unknown about the first of them.
pub proof fn unknown_columns_are_refused(e: Error, columns: Seq<(String, String)>)
    requires
        schema_error(e, columns),
    ensures
        exists|i: int|
            0 <= i < columns.len() && encode::announced(#[trigger] columns[i]) is None && (
            e matches Error::Unsupported(s) && s@ == encode::unknown_type(columns[i])) && forall|j: int|
                0 <= j < i ==> encode::announced(#[trigger] columns[j]) is Some,
{
    encode::the_first_unknown_column_is_told(columns, 0);
    let i = encode::first_unknown(columns, 0)->0;
    assert(encode::announced(columns[i]) is None);
}

/// Without word from the server, blocks are laid out for the first revision that has a flag before the
/// values of each column.
pub proof fn the_default_revision_has_flags()
    ensures
        crate::native::decode::has_flag(DEFAULT_REVISION),
        !crate::native::decode::has_flag((DEFAULT_REVISION - 1) as u64),
        DEFAULT_MAX_ROWS_PER_BLOCK == 100_000,
        DEFAULT_MAX_BYTES_PER_BLOCK == 10 * 1024 * 1024,
{
}

/// An insert keeps its target: how it reaches the server, its statement, its columns and its limits.
pub proof fn targets_are_kept(a: InsertNative, b: InsertNative)
    requires
        a.same_target(&b),
    ensures
        a.transport == b.transport,
        a.sql == b.sql,
        a.column_schema == b.column_schema,
        a.revision == b.revision,
        a.max_rows_per_block == b.max_rows_per_block,
        a.max_bytes_per_block == b.max_bytes_per_block,
        a.is_full() <==> a.rows@.len() >= b.max_rows_per_block || total_bytes(a.rows@)
            >= b.max_bytes_per_block,
{
}

} // verus!
