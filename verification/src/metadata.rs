//! What a client knows of the tables that it inserts into.
use vstd::prelude::*;

use crate::error::{Error, Result};

verus! {

/// A column of a table.
#[derive(Debug)]
pub struct Column<D> {
    pub name: String,
    pub data_type: D,
}

/// A row of the answer to `DESCRIBE TABLE`: the name of a column, and what its type and the
/// kind of its default value were read as.
#[derive(Debug)]
pub struct DescribedColumn<D, K> {
    pub name: String,
    pub data_type: Result<D>,
    pub default_kind: Result<K>,
}

/// The columns of a table, with the kinds of their default values.
#[derive(Debug)]
pub struct InsertMetadata<D, K> {
    pub columns: Vec<Column<D>>,
    pub column_default_kinds: Vec<K>,
}

/// The error of a column: that of its type goes before that of its default value.
pub open spec fn column_error<D, K>(c: DescribedColumn<D, K>) -> Option<Error> {
    match c.data_type {
        Err(e) => Some(e),
        Ok(_) => match c.default_kind {
            Err(e) => Some(e),
            Ok(_) => None,
        },
    }
}

/// The first error from `from` on.
pub open spec fn first_error<D, K>(described: Seq<DescribedColumn<D, K>>, from: int) -> Option<
    Error,
>
    decreases described.len() - from,
{
    if from >= described.len() {
        None
    } else {
        match column_error(described[from]) {
            Some(e) => Some(e),
            None => first_error(described, from + 1),
        }
    }
}

/// The metadata lists the described columns, in their order.
pub open spec fn lists<D, K>(
    m: InsertMetadata<D, K>,
    described: Seq<DescribedColumn<D, K>>,
) -> bool {
    &&& m.columns@.len() == described.len()
    &&& m.column_default_kinds@.len() == described.len()
    &&& forall|i: int|
        0 <= i < described.len() ==> {
            &&& (#[trigger] m.columns@[i]).name == described[i].name
            &&& described[i].data_type == std::result::Result::<D, Error>::Ok(
                m.columns@[i].data_type,
            )
            &&& described[i].default_kind == std::result::Result::<K, Error>::Ok(
                m.column_default_kinds@[i],
            )
        }
}

/// The last position up to `upto` of a column.
pub open spec fn last_column<D>(columns: Seq<Column<D>>, name: Seq<char>, upto: int) -> Option<int>
    decreases upto + 1,
{
    if upto < 0 || upto >= columns.len() {
        None
    } else if columns[upto].name@ == name {
        Some(upto)
    } else {
        last_column(columns, name, upto - 1)
    }
}

impl<D, K> InsertMetadata<D, K> {
    /// Collects the columns of a table. The first error ends it.
    pub fn collect(described: Vec<DescribedColumn<D, K>>) -> (r: Result<InsertMetadata<D, K>>)
        ensures
            (match r {
                Ok(m) => first_error(described@, 0) is None && lists(m, described@),
                Err(e) => first_error(described@, 0) == Some(e),
            }),
    {
        let ghost all = described@;
        let mut columns: Vec<Column<D>> = Vec::new();
        let mut column_default_kinds: Vec<K> = Vec::new();
        for c in it: described
            invariant
                it.seq() == all,
                columns@.len() == it.index(),
                column_default_kinds@.len() == it.index(),
                first_error(all, 0) == first_error(all, it.index()),
                forall|i: int|
                    0 <= i < it.index() ==> {
                        &&& (#[trigger] columns@[i]).name == all[i].name
                        &&& all[i].data_type == std::result::Result::<D, Error>::Ok(
                            columns@[i].data_type,
                        )
                        &&& all[i].default_kind == std::result::Result::<K, Error>::Ok(
                            column_default_kinds@[i],
                        )
                    },
        {
            proof {
                assert(c == all[it.index()]);
            }
            let data_type = match c.data_type {
                Ok(data_type) => data_type,
                Err(e) => {
                    return Err(e);
                },
            };
            let default_kind = match c.default_kind {
                Ok(default_kind) => default_kind,
                Err(e) => {
                    return Err(e);
                },
            };
            columns.push(Column { name: c.name, data_type });
            column_default_kinds.push(default_kind);
        }
        Ok(InsertMetadata { columns, column_default_kinds })
    }

    /// The position of a column. Where a name stands twice, the last one counts.
    pub fn lookup(&self, name: &str) -> (r: Option<usize>)
        ensures
            (match r {
                Some(i) => last_column(self.columns@, name@, self.columns@.len() - 1) == Some(
                    i as int,
                ),
                None => last_column(self.columns@, name@, self.columns@.len() - 1) is None,
            }),
    {
        let mut i: usize = self.columns.len();
        while i > 0
            invariant
                i <= self.columns@.len(),
                last_column(self.columns@, name@, self.columns@.len() - 1) == last_column(
                    self.columns@,
                    name@,
                    i - 1,
                ),
            decreases i,
        {
            let chars = crate::text::chars_of(name);
            if crate::text::is_text(chars.as_slice(), self.columns[i - 1].name.as_str()) {
                return Some((i - 1) as usize);
            }
            i -= 1;
        }
        None
    }
}

/// Tables with what is known of them. The latest entry of a table counts.
pub struct InsertMetadataCache<M> {
    pub entries: Vec<(String, M)>,
}

/// What is known of a table.
pub open spec fn cached<M>(entries: Seq<(String, M)>, table: Seq<char>) -> Option<M>
    decreases entries.len(),
{
    if entries.len() == 0 {
        None
    } else if entries.last().0@ == table {
        Some(entries.last().1)
    } else {
        cached(entries.drop_last(), table)
    }
}

impl<M> Default for InsertMetadataCache<M> {
    fn default() -> (r: InsertMetadataCache<M>)
        ensures
            r.entries@.len() == 0,
    {
        InsertMetadataCache { entries: Vec::new() }
    }
}

impl<M> InsertMetadataCache<M> {
    /// What is known of a table.
    pub fn get(&self, table: &str) -> (r: Option<&M>)
        ensures
            (match r {
                Some(m) => cached(self.entries@, table@) == Some(*m),
                None => cached(self.entries@, table@) is None,
            }),
    {
        let mut i: usize = self.entries.len();
        proof {
            assert(self.entries@.take(i as int) =~= self.entries@);
        }
        while i > 0
            invariant
                i <= self.entries@.len(),
                cached(self.entries@, table@) == cached(self.entries@.take(i as int), table@),
            decreases i,
        {
            proof {
                assert(self.entries@.take(i as int).drop_last() =~= self.entries@.take(i - 1));
            }
            let chars = crate::text::chars_of(table);
            if crate::text::is_text(chars.as_slice(), self.entries[i - 1].0.as_str()) {
                return Some(&self.entries[i - 1].1);
            }
            i -= 1;
        }
        None
    }

    /// Keeps what is known of a table.
    pub fn insert(&mut self, table: &str, metadata: M)
        ensures
            exists|name: String|
                name@ == table@ && final(self).entries@ == #[trigger] old(self).entries@.push(
                    (name, metadata),
                ),
    {
        let name = table.to_owned();
        self.entries.push((name, metadata));
    }

    /// Forgets all tables.
    pub fn clear(&mut self)
        ensures
            final(self).entries@.len() == 0,
    {
        self.entries.clear();
    }
}

/// What was kept of a table is found again, so that it need not be asked for twice; other
/// tables are not affected, and after a clear nothing is known.
pub proof fn kept_metadata_is_found<M>(
    entries: Seq<(String, M)>,
    name: String,
    metadata: M,
    other: Seq<char>,
)
    ensures
        cached(entries.push((name, metadata)), name@) == Some(metadata),
        other != name@ ==> cached(entries.push((name, metadata)), other) == cached(entries, other),
        cached(Seq::<(String, M)>::empty(), other) is None,
{
    assert(entries.push((name, metadata)).drop_last() =~= entries);
}

/// Keeps the described columns of a table, unless one of them has an error.
pub fn store_insert_metadata<D, K>(
    cache: &mut InsertMetadataCache<InsertMetadata<D, K>>,
    table: &str,
    described: Vec<DescribedColumn<D, K>>,
) -> (r: Result<()>)
    ensures
        (match r {
            Ok(_) => first_error(described@, 0) is None && cached(
                final(cache).entries@,
                table@,
            ) is Some && lists(cached(final(cache).entries@, table@)->0, described@) && forall|
                other: Seq<char>,
            |
                other != table@ ==> #[trigger] cached(final(cache).entries@, other) == cached(
                    old(cache).entries@,
                    other,
                ),
            Err(e) => first_error(described@, 0) == Some(e) && *final(cache) == *old(cache),
        }),
{
    match InsertMetadata::collect(described) {
        Ok(metadata) => {
            let ghost before = cache.entries@;
            cache.insert(table, metadata);
            proof {
                let name = choose|name: String|
                    name@ == table@ && cache.entries@ == #[trigger] before.push((name, metadata));
                assert forall|other: Seq<char>| other != table@ implies #[trigger] cached(
                    cache.entries@,
                    other,
                ) == cached(before, other) by {
                    kept_metadata_is_found(before, name, metadata, other);
                }
                kept_metadata_is_found(before, name, metadata, table@);
            }
            Ok(())
        },
        Err(e) => Err(e),
    }
}

/// Columns are collected exactly where none of them has an error, and the error is that of the first
/// column that has one: no column before it has any.
pub proof fn the_first_error_is_told<D, K>(described: Seq<DescribedColumn<D, K>>, from: int)
    requires
        0 <= from,
    ensures
        match first_error(described, from) {
            None => forall|i: int|
                from <= i < described.len() ==> (#[trigger] described[i]).data_type is Ok
                    && described[i].default_kind is Ok,
            Some(e) => exists|i: int|
                from <= i < described.len() && ((#[trigger] described[i]).data_type == Err::<D, Error>(e)
                    || described[i].data_type is Ok && described[i].default_kind == Err::<K, Error>(e))
                    && forall|j: int|
                    from <= j < i ==> (#[trigger] described[j]).data_type is Ok
                        && described[j].default_kind is Ok,
        },
    decreases described.len() - from,
{
    if from < described.len() {
        the_first_error_is_told(described, from + 1);
        if column_error(described[from]) is None {
            if let Some(e) = first_error(described, from + 1) {
                let i = choose|i: int|
                    from + 1 <= i < described.len() && ((#[trigger] described[i]).data_type == Err::<
                        D,
                        Error,
                    >(e) || described[i].data_type is Ok && described[i].default_kind == Err::<
                        K,
                        Error,
                    >(e)) && forall|j: int|
                        from + 1 <= j < i ==> (#[trigger] described[j]).data_type is Ok
                            && described[j].default_kind is Ok;
                assert forall|j: int| from <= j < i implies (#[trigger] described[j]).data_type is Ok
                    && described[j].default_kind is Ok by {
                    if j > from {
                        assert(from + 1 <= j < i);
                    }
                }
            }
        } else {
            let e = column_error(described[from])->0;
            assert(described[from].data_type == Err::<D, Error>(e) || described[from].data_type is Ok
                && described[from].default_kind == Err::<K, Error>(e));
        }
    }
}

/// A column is found by its name, at its last place where it stands twice; a name that no column has
/// is not found.
pub proof fn columns_are_found_by_name<D>(columns: Seq<Column<D>>, name: Seq<char>, upto: int)
    requires
        upto < columns.len(),
    ensures
        match last_column(columns, name, upto) {
            Some(i) => 0 <= i <= upto && columns[i].name@ == name && forall|j: int|
                i < j <= upto ==> (#[trigger] columns[j]).name@ != name,
            None => forall|j: int| 0 <= j <= upto ==> (#[trigger] columns[j]).name@ != name,
        },
    decreases upto + 1,
{
    if upto >= 0 && columns[upto].name@ != name {
        columns_are_found_by_name(columns, name, upto - 1);
    }
}

/// What is kept of a table lists its columns as they were described: all of them, in their order, with
/// their names, types and kinds of default values.
pub proof fn described_columns_are_listed<D, K>(
    m: InsertMetadata<D, K>,
    described: Seq<DescribedColumn<D, K>>,
    i: int,
)
    requires
        lists(m, described),
        0 <= i < described.len(),
    ensures
        m.columns@.len() == described.len(),
        m.column_default_kinds@.len() == described.len(),
        m.columns@[i].name == described[i].name,
        described[i].data_type == std::result::Result::<D, Error>::Ok(m.columns@[i].data_type),
        described[i].default_kind == std::result::Result::<K, Error>::Ok(m.column_default_kinds@[i]),
{
    assert(m.columns@[i].name == described[i].name);
}

} // verus!
