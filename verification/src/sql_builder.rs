//! Query texts with placeholders: `?` for a value, `?fields` for the columns of a row type
//! and `??` for a plain question mark.
use vstd::prelude::*;

use crate::error::{Error, Result};
use crate::text::{self, chars_between, chars_of, string_of};

verus! {

/// A piece of a query text.
#[derive(Debug)]
pub enum Part {
    /// A place for a value.
    Arg,
    /// A place for column names.
    Fields,
    Text(String),
}

/// A query text, or what went wrong while it was put together.
#[derive(Debug)]
pub enum SqlBuilder {
    InProgress(Vec<Part>),
    Failed(String),
}

/// A piece of a query text, with its text as a sequence.
pub enum Piece {
    Arg,
    Fields,
    Text(Seq<char>),
}

/// The state of a query text, with texts and lists as sequences.
pub enum Sql {
    InProgress(Seq<Piece>),
    Failed(Seq<char>),
}

impl Part {
    pub open spec fn model(self) -> Piece {
        match self {
            Part::Arg => Piece::Arg,
            Part::Fields => Piece::Fields,
            Part::Text(s) => Piece::Text(s@),
        }
    }

    fn copy(&self) -> (r: Part)
        ensures
            r.model() == self.model(),
    {
        match self {
            Part::Arg => Part::Arg,
            Part::Fields => Part::Fields,
            Part::Text(s) => Part::Text(s.clone()),
        }
    }
}

/// The pieces of a list of parts.
pub open spec fn pieces_of(parts: Seq<Part>) -> Seq<Piece> {
    Seq::new(parts.len(), |i: int| parts[i].model())
}

/// The pieces of a template.
pub open spec fn template(s: Seq<char>) -> Seq<Piece>
    decreases s.len(),
{
    match text::first_index(s, seq!['?'], 0) {
        Some(i) => if !(0 <= i < s.len()) {
            Seq::empty()
        } else if i + 1 < s.len() && s[i + 1] == '?' {
            seq![Piece::Text(s.take(i + 1))] + template(s.skip(i + 2))
        } else {
            let front = if i > 0 {
                seq![Piece::Text(s.take(i))]
            } else {
                Seq::empty()
            };
            let rest = s.skip(i + 1);
            if text::occurs_at(rest, "fields"@, 0) {
                front + seq![Piece::Fields] + template(rest.skip("fields"@.len() as int))
            } else {
                front + seq![Piece::Arg] + template(rest)
            }
        },
        None => if s.len() > 0 {
            seq![Piece::Text(s)]
        } else {
            Seq::empty()
        },
    }
}

/// The first position from `from` on of a place for a value.
pub open spec fn first_arg(pieces: Seq<Piece>, from: int) -> Option<int>
    decreases pieces.len() - from,
{
    if from >= pieces.len() {
        None
    } else if pieces[from] is Arg {
        Some(from)
    } else {
        first_arg(pieces, from + 1)
    }
}

/// The first position from `from` on of a place for column names.
pub open spec fn first_fields(pieces: Seq<Piece>, from: int) -> Option<int>
    decreases pieces.len() - from,
{
    if from >= pieces.len() {
        None
    } else if pieces[from] is Fields {
        Some(from)
    } else {
        first_fields(pieces, from + 1)
    }
}

/// The query with a value in the next place for one. The value stands as it is given: it has
/// to be a literal already.
pub open spec fn with_arg(sql: Sql, value: std::result::Result<Seq<char>, Seq<char>>) -> Sql {
    match sql {
        Sql::InProgress(pieces) => match first_arg(pieces, 0) {
            Some(i) => match value {
                Ok(literal) => Sql::InProgress(pieces.update(i, Piece::Text(literal))),
                Err(e) => Sql::Failed("invalid SQL: invalid argument: "@ + e),
            },
            None => Sql::Failed(
                "invalid SQL: unexpected bind(), all arguments are already bound"@,
            ),
        },
        Sql::Failed(e) => Sql::Failed(e),
    }
}

/// The query with column names in the first place for them. Row types without names have
/// none to give.
pub open spec fn with_fields(sql: Sql, fields: Option<Seq<char>>) -> Sql {
    match sql {
        Sql::InProgress(pieces) => match (first_fields(pieces, 0), fields) {
            (Some(i), Some(names)) => Sql::InProgress(pieces.update(i, Piece::Text(names))),
            (Some(_), None) => Sql::Failed(
                "invalid SQL: argument ?fields cannot be used with non-struct row types"@,
            ),
            (None, _) => sql,
        },
        Sql::Failed(e) => Sql::Failed(e),
    }
}

/// The text of a query in which every place is taken, or what is missing.
pub open spec fn finished(pieces: Seq<Piece>) -> std::result::Result<Seq<char>, Seq<char>>
    decreases pieces.len(),
{
    if pieces.len() == 0 {
        Ok(Seq::empty())
    } else {
        match finished(pieces.drop_last()) {
            Ok(front) => match pieces.last() {
                Piece::Text(s) => Ok(front + s),
                Piece::Arg => Err("invalid SQL: unbound query argument"@),
                Piece::Fields => Err("invalid SQL: unbound query argument ?fields"@),
            },
            Err(e) => Err(e),
        }
    }
}

/// The text of a query, or what went wrong.
pub open spec fn finished_sql(sql: Sql) -> std::result::Result<Seq<char>, Seq<char>> {
    match sql {
        Sql::InProgress(pieces) => finished(pieces),
        Sql::Failed(e) => Err(e),
    }
}

/// A query as it reads, with its open places.
pub open spec fn shown(pieces: Seq<Piece>) -> Seq<char>
    decreases pieces.len(),
{
    if pieces.len() == 0 {
        Seq::empty()
    } else {
        shown(pieces.drop_last()) + (match pieces.last() {
            Piece::Text(s) => s,
            Piece::Arg => "?"@,
            Piece::Fields => "?fields"@,
        })
    }
}

/// A query or its failure as it reads.
pub open spec fn shown_sql(sql: Sql) -> Seq<char> {
    match sql {
        Sql::InProgress(pieces) => shown(pieces),
        Sql::Failed(e) => e,
    }
}

fn find_arg(parts: &Vec<Part>) -> (r: Option<usize>)
    ensures
        (match r {
            Some(i) => i < parts@.len() && first_arg(pieces_of(parts@), 0) == Some(i as int),
            None => first_arg(pieces_of(parts@), 0) is None,
        }),
{
    let ghost all = pieces_of(parts@);
    let mut i: usize = 0;
    while i < parts.len()
        invariant
            i <= parts@.len(),
            all == pieces_of(parts@),
            first_arg(all, 0) == first_arg(all, i as int),
        decreases parts@.len() - i,
    {
        if let Part::Arg = &parts[i] {
            return Some(i);
        }
        i += 1;
    }
    None
}

fn find_fields(parts: &Vec<Part>) -> (r: Option<usize>)
    ensures
        (match r {
            Some(i) => i < parts@.len() && first_fields(pieces_of(parts@), 0) == Some(i as int),
            None => first_fields(pieces_of(parts@), 0) is None,
        }),
{
    let ghost all = pieces_of(parts@);
    let mut i: usize = 0;
    while i < parts.len()
        invariant
            i <= parts@.len(),
            all == pieces_of(parts@),
            first_fields(all, 0) == first_fields(all, i as int),
        decreases parts@.len() - i,
    {
        if let Part::Fields = &parts[i] {
            return Some(i);
        }
        i += 1;
    }
    None
}

impl SqlBuilder {
    pub open spec fn model(self) -> Sql {
        match self {
            SqlBuilder::InProgress(parts) => Sql::InProgress(pieces_of(parts@)),
            SqlBuilder::Failed(e) => Sql::Failed(e@),
        }
    }

    /// Takes a template apart.
    pub fn new(source: &str) -> (r: SqlBuilder)
        ensures
            r.model() == Sql::InProgress(template(source@)),
    {
        let mut parts: Vec<Part> = Vec::new();
        let mut rest = chars_of(source);
        let mark: [char; 1] = ['?'];
        let fields = chars_of("fields");
        proof {
            assert(mark@ =~= seq!['?']);
            assert(pieces_of(parts@) + template(rest@) =~= template(source@));
        }
        loop
            invariant
                mark@ == seq!['?'],
                fields@ == "fields"@,
                pieces_of(parts@) + template(rest@) == template(source@),
            decreases rest@.len(),
        {
            let ghost before = pieces_of(parts@);
            let ghost old_parts = parts@;
            let len: usize = rest.len();
            let i: usize = match text::find(rest.as_slice(), &mark) {
                Some(i) => i,
                None => {
                    if len > 0 {
                        let last = Part::Text(string_of(rest.as_slice()));
                        proof {
                            assert(pieces_of(parts@.push(last)) =~= before.push(last.model()));
                            assert(template(source@) =~= before.push(last.model()));
                        }
                        parts.push(last);
                    } else {
                        proof {
                            assert(template(source@) =~= before);
                        }
                    }
                    return SqlBuilder::InProgress(parts);
                },
            };
            if i + 1 < len && rest[i + 1] == '?' {
                let front = chars_between(rest.as_slice(), 0, i + 1);
                let piece = Part::Text(string_of(front.as_slice()));
                let behind = chars_between(rest.as_slice(), i + 2, len);
                proof {
                    assert(front@ =~= rest@.take(i + 1));
                    assert(behind@ =~= rest@.skip(i + 2));
                    assert(pieces_of(parts@.push(piece)) =~= before.push(piece.model()));
                    assert(before.push(piece.model()) + template(behind@) =~= template(source@));
                }
                parts.push(piece);
                rest = behind;
            } else {
                let ghost mut middle = before;
                if i > 0 {
                    let front = chars_between(rest.as_slice(), 0, i);
                    let piece = Part::Text(string_of(front.as_slice()));
                    proof {
                        assert(front@ =~= rest@.take(i as int));
                        assert(pieces_of(parts@.push(piece)) =~= before.push(piece.model()));
                        middle = before.push(Piece::Text(rest@.take(i as int)));
                    }
                    parts.push(piece);
                }
                let behind = chars_between(rest.as_slice(), i + 1, len);
                proof {
                    assert(behind@ =~= rest@.skip(i + 1));
                }
                let ghost so_far = parts@;
                if text::stands_at(behind.as_slice(), fields.as_slice(), 0) {
                    let last = chars_between(behind.as_slice(), fields.len(), behind.len());
                    parts.push(Part::Fields);
                    proof {
                        assert(last@ =~= behind@.skip("fields"@.len() as int));
                        assert(pieces_of(parts@) =~= middle.push(Piece::Fields));
                        assert(pieces_of(parts@) + template(last@) =~= template(source@));
                    }
                    rest = last;
                } else {
                    parts.push(Part::Arg);
                    proof {
                        assert(pieces_of(parts@) =~= middle.push(Piece::Arg));
                        assert(pieces_of(parts@) + template(behind@) =~= template(source@));
                    }
                    rest = behind;
                }
            }
        }
    }

    /// A copy.
    pub fn copy(&self) -> (r: SqlBuilder)
        ensures
            r.model() == self.model(),
    {
        match self {
            SqlBuilder::InProgress(parts) => {
                let mut out: Vec<Part> = Vec::new();
                let mut i: usize = 0;
                while i < parts.len()
                    invariant
                        i <= parts@.len(),
                        pieces_of(out@) == pieces_of(parts@).take(i as int),
                    decreases parts@.len() - i,
                {
                    let ghost before = out@;
                    out.push(parts[i].copy());
                    proof {
                        let all = pieces_of(parts@);
                        assert(all.take(i + 1) =~= all.take(i as int).push(all[i as int]));
                        assert(pieces_of(out@) =~= pieces_of(before).push(all[i as int]));
                    }
                    i += 1;
                }
                proof {
                    assert(pieces_of(parts@).take(i as int) =~= pieces_of(parts@));
                }
                SqlBuilder::InProgress(out)
            },
            SqlBuilder::Failed(e) => SqlBuilder::Failed(e.clone()),
        }
    }

    /// Puts a value into the next place for one: a literal, or the reason why there is none.
    pub fn bind_arg(self, value: std::result::Result<String, String>) -> (r: SqlBuilder)
        ensures
            r.model() == with_arg(
                self.model(),
                match value {
                    Ok(s) => Ok(s@),
                    Err(s) => Err(s@),
                },
            ),
    {
        match self {
            SqlBuilder::InProgress(parts) => {
                let mut parts = parts;
                let ghost all = pieces_of(parts@);
                match (find_arg(&parts), value) {
                    (Some(i), Ok(literal)) => {
                        let ghost told = literal@;
                        parts.set(i, Part::Text(literal));
                        proof {
                            assert(pieces_of(parts@) =~= all.update(i as int, Piece::Text(told)));
                        }
                        SqlBuilder::InProgress(parts)
                    },
                    (Some(_), Err(e)) => {
                        let mut told = "invalid SQL: invalid argument: ".to_owned();
                        told.push_str(e.as_str());
                        SqlBuilder::Failed(told)
                    },
                    (None, _) => SqlBuilder::Failed(
                        "invalid SQL: unexpected bind(), all arguments are already bound".to_owned(),
                    ),
                }
            },
            SqlBuilder::Failed(e) => SqlBuilder::Failed(e),
        }
    }

    /// Puts column names into the first place for them.
    pub fn bind_fields(self, fields: Option<String>) -> (r: SqlBuilder)
        ensures
            r.model() == with_fields(self.model(), crate::response::opt_text(fields)),
    {
        match self {
            SqlBuilder::InProgress(parts) => {
                let mut parts = parts;
                let ghost all = pieces_of(parts@);
                match (find_fields(&parts), fields) {
                    (Some(i), Some(names)) => {
                        let ghost told = names@;
                        parts.set(i, Part::Text(names));
                        proof {
                            assert(pieces_of(parts@) =~= all.update(i as int, Piece::Text(told)));
                        }
                        SqlBuilder::InProgress(parts)
                    },
                    (Some(_), None) => SqlBuilder::Failed(
                        "invalid SQL: argument ?fields cannot be used with non-struct row types".to_owned(),
                    ),
                    (None, _) => SqlBuilder::InProgress(parts),
                }
            },
            SqlBuilder::Failed(e) => SqlBuilder::Failed(e),
        }
    }

    /// The text of the query. A place that was not taken, and anything that went wrong
    /// before, is an error.
    pub fn finish(&self) -> (r: Result<String>)
        ensures
            (match r {
                Ok(s) => finished_sql(self.model()) == std::result::Result::<
                    Seq<char>,
                    Seq<char>,
                >::Ok(s@),
                Err(e) => e matches Error::InvalidParams(s) && finished_sql(self.model())
                    == std::result::Result::<Seq<char>, Seq<char>>::Err(s@),
            }),
    {
        let parts = match self {
            SqlBuilder::InProgress(parts) => parts,
            SqlBuilder::Failed(e) => {
                return Err(Error::InvalidParams(e.clone()));
            },
        };
        let mut out = String::new();
        let ghost all = pieces_of(parts@);
        let mut i: usize = 0;
        proof {
            assert(all.take(0) =~= Seq::empty());
        }
        while i < parts.len()
            invariant
                i <= parts@.len(),
                all == pieces_of(parts@),
                self.model() == Sql::InProgress(all),
                finished(all.take(i as int)) == std::result::Result::<Seq<char>, Seq<char>>::Ok(
                    out@,
                ),
            decreases parts@.len() - i,
        {
            proof {
                assert(all.take(i + 1).drop_last() =~= all.take(i as int));
                assert(all.take(i + 1).last() == all[i as int]);
            }
            match &parts[i] {
                Part::Text(s) => {
                    out.push_str(s.as_str());
                },
                Part::Arg => {
                    proof {
                        lemma_finish_fails(all, i + 1, "invalid SQL: unbound query argument"@);
                    }
                    return Err(
                        Error::InvalidParams("invalid SQL: unbound query argument".to_owned()),
                    );
                },
                Part::Fields => {
                    proof {
                        lemma_finish_fails(
                            all,
                            i + 1,
                            "invalid SQL: unbound query argument ?fields"@,
                        );
                    }
                    return Err(
                        Error::InvalidParams(
                            "invalid SQL: unbound query argument ?fields".to_owned(),
                        ),
                    );
                },
            }
            i += 1;
        }
        proof {
            assert(all.take(i as int) =~= all);
        }
        Ok(out)
    }

    /// The query as it reads, with its open places.
    pub fn display(&self) -> (out: String)
        ensures
            out@ == shown_sql(self.model()),
    {
        let parts = match self {
            SqlBuilder::InProgress(parts) => parts,
            SqlBuilder::Failed(e) => {
                return e.clone();
            },
        };
        let mut out = String::new();
        let ghost all = pieces_of(parts@);
        let mut i: usize = 0;
        proof {
            assert(all.take(0) =~= Seq::empty());
        }
        while i < parts.len()
            invariant
                i <= parts@.len(),
                all == pieces_of(parts@),
                out@ == shown(all.take(i as int)),
            decreases parts@.len() - i,
        {
            proof {
                assert(all.take(i + 1).drop_last() =~= all.take(i as int));
                assert(all.take(i + 1).last() == all[i as int]);
            }
            match &parts[i] {
                Part::Text(s) => out.push_str(s.as_str()),
                Part::Arg => out.push_str("?"),
                Part::Fields => out.push_str("?fields"),
            }
            i += 1;
        }
        proof {
            assert(all.take(i as int) =~= all);
        }
        out
    }
}

/// What is missing in the front of a query is missing in all of it.
pub proof fn lemma_finish_fails(pieces: Seq<Piece>, k: int, e: Seq<char>)
    requires
        0 <= k <= pieces.len(),
        finished(pieces.take(k)) == Err::<Seq<char>, Seq<char>>(e),
    ensures
        finished(pieces) == Err::<Seq<char>, Seq<char>>(e),
    decreases pieces.len() - k,
{
    if k == pieces.len() {
        assert(pieces.take(k) =~= pieces);
    } else {
        assert(pieces.take(k + 1).drop_last() =~= pieces.take(k));
        lemma_finish_fails(pieces, k + 1, e);
    }
}

/// A query text stands for its parts, in their order.
pub proof fn query_texts_mean_their_parts(parts: Vec<Part>, i: int, e: String)
    requires
        0 <= i < parts@.len(),
    ensures
        SqlBuilder::Failed(e).model() == Sql::Failed(e@),
        SqlBuilder::InProgress(parts).model() matches Sql::InProgress(pieces) && pieces.len()
            == parts@.len() && match parts@[i] {
            Part::Arg => pieces[i] == Piece::Arg,
            Part::Fields => pieces[i] == Piece::Fields,
            Part::Text(s) => pieces[i] == Piece::Text(s@),
        },
{
}

} // verus!
