//! Pieces of SQL: identifiers in quotes, and the statements made of them.
use vstd::prelude::*;

use crate::text::chars_of;

verus! {

/// A text with a backslash before each quote mark and each backslash.
pub open spec fn escaped(s: Seq<char>, quote: char) -> Seq<char>
    decreases s.len(),
{
    if s.len() == 0 {
        Seq::empty()
    } else if s.last() == quote || s.last() == '\\' {
        escaped(s.drop_last(), quote).push('\\').push(s.last())
    } else {
        escaped(s.drop_last(), quote).push(s.last())
    }
}

/// A text in quote marks, with what could end it escaped.
pub open spec fn quoted(s: Seq<char>, quote: char) -> Seq<char> {
    seq![quote] + escaped(s, quote) + seq![quote]
}

/// An identifier in backticks.
pub open spec fn quoted_identifier(s: Seq<char>) -> Seq<char> {
    quoted(s, '`')
}

/// A text as a literal, in single quotes.
pub open spec fn quoted_literal(s: Seq<char>) -> Seq<char> {
    quoted(s, '\'')
}

/// A text with each backtick doubled.
pub open spec fn doubled(s: Seq<char>) -> Seq<char>
    decreases s.len(),
{
    if s.len() == 0 {
        Seq::empty()
    } else if s.last() == '`' {
        doubled(s.drop_last()).push('`').push('`')
    } else {
        doubled(s.drop_last()).push(s.last())
    }
}

/// A column name in backticks, with its own backticks doubled.
pub open spec fn quoted_column(s: Seq<char>) -> Seq<char> {
    seq!['`'] + doubled(s) + seq!['`']
}

/// What a reader of a quoted text finds behind its opening quote mark: the text, and what
/// follows the closing quote mark.
pub open spec fn read_quoted(s: Seq<char>, quote: char) -> Option<(Seq<char>, Seq<char>)>
    decreases s.len(),
{
    if s.len() == 0 {
        None
    } else if s[0] == quote {
        Some((Seq::empty(), s.skip(1)))
    } else if s[0] == '\\' {
        if s.len() < 2 {
            None
        } else {
            match read_quoted(s.skip(2), quote) {
                Some((name, rest)) => Some((seq![s[1]] + name, rest)),
                None => None,
            }
        }
    } else {
        match read_quoted(s.skip(1), quote) {
            Some((name, rest)) => Some((seq![s[0]] + name, rest)),
            None => None,
        }
    }
}

/// What a reader of a quoted column name finds behind its opening backtick.
pub open spec fn read_column(s: Seq<char>) -> Option<(Seq<char>, Seq<char>)>
    decreases s.len(),
{
    if s.len() == 0 {
        None
    } else if s[0] == '`' {
        if s.len() >= 2 && s[1] == '`' {
            match read_column(s.skip(2)) {
                Some((name, rest)) => Some((seq!['`'] + name, rest)),
                None => None,
            }
        } else {
            Some((Seq::empty(), s.skip(1)))
        }
    } else {
        match read_column(s.skip(1)) {
            Some((name, rest)) => Some((seq![s[0]] + name, rest)),
            None => None,
        }
    }
}

proof fn lemma_escaped_front(c: char, s: Seq<char>, quote: char)
    ensures
        escaped(seq![c] + s, quote) == (if c == quote || c == '\\' {
            seq!['\\', c]
        } else {
            seq![c]
        }) + escaped(s, quote),
    decreases s.len(),
{
    let front = if c == quote || c == '\\' {
        seq!['\\', c]
    } else {
        seq![c]
    };
    if s.len() == 0 {
        assert((seq![c] + s).drop_last() =~= Seq::empty());
        assert(escaped((seq![c] + s).drop_last(), quote) =~= Seq::empty());
        assert((seq![c] + s).last() == c);
        assert(escaped(seq![c] + s, quote) =~= front + escaped(s, quote));
    } else {
        lemma_escaped_front(c, s.drop_last(), quote);
        assert((seq![c] + s).drop_last() =~= seq![c] + s.drop_last());
        assert(escaped(seq![c] + s, quote) =~= front + escaped(s, quote));
    }
}

proof fn lemma_doubled_front(c: char, s: Seq<char>)
    ensures
        doubled(seq![c] + s) == (if c == '`' {
            seq!['`', '`']
        } else {
            seq![c]
        }) + doubled(s),
    decreases s.len(),
{
    let front = if c == '`' {
        seq!['`', '`']
    } else {
        seq![c]
    };
    if s.len() == 0 {
        assert((seq![c] + s).drop_last() =~= Seq::empty());
        assert(doubled((seq![c] + s).drop_last()) =~= Seq::empty());
        assert((seq![c] + s).last() == c);
        assert(doubled(seq![c] + s) =~= front + doubled(s));
    } else {
        lemma_doubled_front(c, s.drop_last());
        assert((seq![c] + s).drop_last() =~= seq![c] + s.drop_last());
        assert(doubled(seq![c] + s) =~= front + doubled(s));
    }
}

/// A text that was quoted reads back as itself and ends where its quotes do, whatever it
/// holds and whatever follows: no name and no value can break out of its quotes.
pub proof fn quoted_texts_read_back(name: Seq<char>, rest: Seq<char>, quote: char)
    requires
        quote != '\\',
    ensures
        read_quoted((quoted(name, quote) + rest).skip(1), quote) == Some((name, rest)),
    decreases name.len(),
{
    let s = escaped(name, quote) + seq![quote] + rest;
    assert((quoted(name, quote) + rest).skip(1) =~= s);
    if name.len() == 0 {
        assert(s.skip(1) =~= rest);
        assert(name =~= Seq::empty());
    } else {
        let c = name[0];
        let tail = name.skip(1);
        assert(name =~= seq![c] + tail);
        lemma_escaped_front(c, tail, quote);
        quoted_texts_read_back(tail, rest, quote);
        let t = escaped(tail, quote) + seq![quote] + rest;
        assert((quoted(tail, quote) + rest).skip(1) =~= t);
        if c == quote || c == '\\' {
            assert(s.skip(2) =~= t);
            assert(s[0] == '\\' && s[1] == c);
        } else {
            assert(s.skip(1) =~= t);
            assert(s[0] == c);
        }
    }
}

/// A column name that was quoted reads back as itself and ends where its quotes do, as long
/// as no backtick follows.
pub proof fn quoted_columns_read_back(name: Seq<char>, rest: Seq<char>)
    requires
        rest.len() > 0 ==> rest[0] != '`',
    ensures
        read_column((quoted_column(name) + rest).skip(1)) == Some((name, rest)),
    decreases name.len(),
{
    let s = doubled(name) + seq!['`'] + rest;
    assert((quoted_column(name) + rest).skip(1) =~= s);
    if name.len() == 0 {
        assert(s.skip(1) =~= rest);
        assert(name =~= Seq::empty());
        assert(s.len() >= 2 ==> s[1] == rest[0]);
    } else {
        let c = name[0];
        let tail = name.skip(1);
        assert(name =~= seq![c] + tail);
        lemma_doubled_front(c, tail);
        quoted_columns_read_back(tail, rest);
        let t = doubled(tail) + seq!['`'] + rest;
        assert((quoted_column(tail) + rest).skip(1) =~= t);
        if c == '`' {
            assert(s.skip(2) =~= t);
            assert(s[0] == '`' && s[1] == '`');
        } else {
            assert(s.skip(1) =~= t);
            assert(s[0] == c);
        }
    }
}

fn push_quoted(out: &mut String, src: &str, quote: char)
    ensures
        final(out)@ == old(out)@ + quoted(src@, quote),
{
    let chars = chars_of(src);
    let ghost start = out@;
    out.push(quote);
    let mut i: usize = 0;
    proof {
        assert(chars@.take(0) =~= Seq::empty());
        assert(out@ =~= start + seq![quote] + escaped(chars@.take(0), quote));
    }
    while i < chars.len()
        invariant
            i <= chars@.len(),
            out@ == start + seq![quote] + escaped(chars@.take(i as int), quote),
        decreases chars@.len() - i,
    {
        let c = chars[i];
        proof {
            assert(chars@.take(i + 1).drop_last() =~= chars@.take(i as int));
        }
        if c == quote || c == '\\' {
            out.push('\\');
        }
        out.push(c);
        proof {
            assert(out@ =~= start + seq![quote] + escaped(chars@.take(i + 1), quote));
        }
        i += 1;
    }
    out.push(quote);
    proof {
        assert(chars@.take(i as int) =~= src@);
        assert(out@ =~= start + quoted(src@, quote));
    }
}

/// Appends an identifier in quotes.
pub fn push_identifier(out: &mut String, src: &str)
    ensures
        final(out)@ == old(out)@ + quoted_identifier(src@),
{
    push_quoted(out, src, '`');
}

/// Appends a column name in quotes.
pub fn push_column(out: &mut String, src: &str)
    ensures
        final(out)@ == old(out)@ + quoted_column(src@),
{
    let chars = chars_of(src);
    let ghost start = out@;
    out.push('`');
    let mut i: usize = 0;
    proof {
        assert(chars@.take(0) =~= Seq::empty());
        assert(out@ =~= start + seq!['`'] + doubled(chars@.take(0)));
    }
    while i < chars.len()
        invariant
            i <= chars@.len(),
            out@ == start + seq!['`'] + doubled(chars@.take(i as int)),
        decreases chars@.len() - i,
    {
        let c = chars[i];
        proof {
            assert(chars@.take(i + 1).drop_last() =~= chars@.take(i as int));
        }
        if c == '`' {
            out.push('`');
        }
        out.push(c);
        proof {
            assert(out@ =~= start + seq!['`'] + doubled(chars@.take(i + 1)));
        }
        i += 1;
    }
    out.push('`');
    proof {
        assert(chars@.take(i as int) =~= src@);
        assert(out@ =~= start + quoted_column(src@));
    }
}

/// An identifier in quotes.
pub fn identifier(src: &str) -> (out: String)
    ensures
        out@ == quoted_identifier(src@),
{
    let mut out = String::new();
    push_identifier(&mut out, src);
    proof {
        assert(out@ =~= quoted_identifier(src@));
    }
    out
}

/// A text as a literal, in single quotes.
pub fn literal(src: &str) -> (out: String)
    ensures
        out@ == quoted_literal(src@),
{
    let mut out = String::new();
    push_quoted(&mut out, src, '\'');
    proof {
        assert(out@ =~= quoted_literal(src@));
    }
    out
}

/// The texts of a list of strings.
pub open spec fn texts(v: Seq<String>) -> Seq<Seq<char>> {
    Seq::new(v.len(), |i: int| v[i]@)
}

/// Quoted identifiers with `, ` between them.
pub open spec fn identifier_list(names: Seq<Seq<char>>) -> Seq<char>
    decreases names.len(),
{
    if names.len() == 0 {
        Seq::empty()
    } else if names.len() == 1 {
        quoted_identifier(names[0])
    } else {
        identifier_list(names.drop_last()) + ", "@ + quoted_identifier(names.last())
    }
}

/// The statement that activates roles for a session. There has to be a role.
pub fn set_roles(roles: &Vec<String>) -> (out: String)
    requires
        roles@.len() > 0,
    ensures
        out@ == "SET ROLE "@ + identifier_list(texts(roles@)),
{
    let mut out = "SET ROLE ".to_owned();
    let ghost all = texts(roles@);
    let mut i: usize = 0;
    proof {
        assert(all.take(0) =~= Seq::empty());
        assert(out@ =~= "SET ROLE "@ + identifier_list(all.take(0)));
    }
    while i < roles.len()
        invariant
            i <= roles@.len(),
            all == texts(roles@),
            out@ == "SET ROLE "@ + identifier_list(all.take(i as int)),
        decreases roles@.len() - i,
    {
        proof {
            assert(all.take(i + 1).drop_last() =~= all.take(i as int));
            assert(all.take(i + 1).last() == all[i as int]);
        }
        if i > 0 {
            out.push_str(", ");
        }
        push_identifier(&mut out, roles[i].as_str());
        proof {
            assert(out@ =~= "SET ROLE "@ + identifier_list(all.take(i + 1)));
        }
        i += 1;
    }
    proof {
        assert(all.take(i as int) =~= all);
    }
    out
}

/// Quoted column names with commas between them.
pub open spec fn column_list(names: Seq<Seq<char>>) -> Seq<char>
    decreases names.len(),
{
    if names.len() == 0 {
        Seq::empty()
    } else if names.len() == 1 {
        quoted_column(names[0])
    } else {
        column_list(names.drop_last()) + seq![','] + quoted_column(names.last())
    }
}

/// The names of a list of columns.
pub open spec fn names_of(headers: Seq<(String, String)>) -> Seq<Seq<char>> {
    Seq::new(headers.len(), |i: int| headers[i].0@)
}

/// The statement for an insert of the given columns in Native format.
pub open spec fn native_insert(table: Seq<char>, names: Seq<Seq<char>>) -> Seq<char> {
    "INSERT INTO "@ + table + seq!['('] + column_list(names) + ") FORMAT Native"@
}

/// The statement for an insert in Native format. The table stands as it is given: it has to
/// be quoted already.
pub fn compose_native_insert_sql(table_escaped: &str, headers: &Vec<(String, String)>) -> (out:
    String)
    ensures
        out@ == native_insert(table_escaped@, names_of(headers@)),
{
    let mut out = "INSERT INTO ".to_owned();
    out.push_str(table_escaped);
    out.push('(');
    let ghost start = out@;
    let ghost all = names_of(headers@);
    let mut i: usize = 0;
    proof {
        assert(all.take(0) =~= Seq::empty());
        assert(out@ =~= start + column_list(all.take(0)));
    }
    while i < headers.len()
        invariant
            i <= headers@.len(),
            all == names_of(headers@),
            out@ == start + column_list(all.take(i as int)),
        decreases headers@.len() - i,
    {
        proof {
            assert(all.take(i + 1).drop_last() =~= all.take(i as int));
            assert(all.take(i + 1).last() == all[i as int]);
        }
        if i > 0 {
            out.push(',');
        }
        push_column(&mut out, headers[i].0.as_str());
        proof {
            assert(out@ =~= start + column_list(all.take(i + 1)));
        }
        i += 1;
    }
    out.push_str(") FORMAT Native");
    proof {
        assert(all.take(i as int) =~= all);
        assert(out@ =~= native_insert(table_escaped@, names_of(headers@)));
    }
    out
}

/// A list of identifiers grows by its last one, quoted, behind a comma and a space.
pub proof fn identifier_lists_grow_at_the_end(names: Seq<Seq<char>>, name: Seq<char>)
    ensures
        identifier_list(seq![name]) == quoted(name, '`'),
        names.len() > 0 ==> identifier_list(names.push(name)) == identifier_list(names)
            + seq![',', ' '] + quoted(name, '`'),
{
    reveal_strlit(", ");
    assert(", "@ =~= seq![',', ' ']);
    assert(names.push(name).drop_last() =~= names);
}

/// A list of columns grows by its last one, quoted, behind a comma; the statement for an insert names
/// the columns in their order between the table and the format.
pub proof fn column_lists_grow_at_the_end(
    table: Seq<char>,
    names: Seq<Seq<char>>,
    name: Seq<char>,
)
    ensures
        column_list(seq![name]) == quoted_column(name),
        names.len() > 0 ==> column_list(names.push(name)) == column_list(names) + seq![',']
            + quoted_column(name),
        native_insert(table, names) == "INSERT INTO "@ + table + seq!['('] + column_list(names)
            + ") FORMAT Native"@,
{
    assert(names.push(name).drop_last() =~= names);
}

/// Quotes stand around a text, and a text that needs no escape stands between them as it is.
pub proof fn quotes_stand_around_the_text(s: Seq<char>, quote: char)
    requires
        forall|i: int| 0 <= i < s.len() ==> #[trigger] s[i] != quote && s[i] != '\\',
    ensures
        quoted(s, quote) == seq![quote] + s + seq![quote],
        quoted_identifier(s).len() >= 2,
        quoted_identifier(s)[0] == '`',
        quoted_literal(s)[0] == '\'',
{
    lemma_escaped_plain(s, quote);
}

proof fn lemma_escaped_plain(s: Seq<char>, quote: char)
    requires
        forall|i: int| 0 <= i < s.len() ==> #[trigger] s[i] != quote && s[i] != '\\',
    ensures
        escaped(s, quote) == s,
    decreases s.len(),
{
    if s.len() > 0 {
        let t = s.drop_last();
        assert forall|i: int| 0 <= i < t.len() implies #[trigger] t[i] != quote && t[i] != '\\' by {
            assert(t[i] == s[i]);
        }
        lemma_escaped_plain(t, quote);
        assert(s[s.len() - 1] != quote);
        assert(escaped(s, quote) =~= s);
    } else {
        assert(escaped(s, quote) =~= s);
    }
}

} // verus!
