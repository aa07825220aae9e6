//! What holds of clients and their queries as a whole.
use vstd::prelude::*;
use vstd::utf8::*;

use crate::client::{self, Authentication, Client, Config, Durability, Identity};
use crate::error::{Error, Result};
use crate::query::{self, FetchPlan, HttpRequest, Query, TcpRequest};
use crate::settings;
use crate::sql;
use crate::sql_builder::{self, Piece, Sql};
use crate::text;
use crate::tls::{self, HttpTls};

verus! {

/// A list of roles holds each of the given roles once and no others.
pub proof fn roles_are_distinct(roles: Seq<Seq<char>>)
    ensures
        forall|i: int, j: int|
            0 <= i < j < client::distinct(roles).len() ==> client::distinct(roles)[i]
                != client::distinct(roles)[j],
        forall|r: Seq<char>| #[trigger] client::distinct(roles).contains(r) <==> roles.contains(r),
    decreases roles.len(),
{
    if roles.len() > 0 {
        let rest = roles.drop_last();
        let last = roles.last();
        roles_are_distinct(rest);
        let front = client::distinct(rest);
        let all = client::distinct(roles);
        assert forall|r: Seq<char>| #[trigger] all.contains(r) <==> roles.contains(r) by {
            if roles.contains(r) {
                let k = choose|k: int| 0 <= k < roles.len() && roles[k] == r;
                if k < rest.len() {
                    assert(rest[k] == r);
                    assert(front.contains(r));
                    let m = choose|m: int| 0 <= m < front.len() && front[m] == r;
                    assert(all[m] == r);
                } else if !front.contains(last) {
                    assert(all[all.len() - 1] == last);
                }
            }
            if all.contains(r) {
                let k = choose|k: int| 0 <= k < all.len() && all[k] == r;
                if k < front.len() {
                    assert(front[k] == r);
                    assert(front.contains(r));
                    let m = choose|m: int| 0 <= m < rest.len() && rest[m] == r;
                    assert(roles[m] == r);
                } else {
                    assert(roles[roles.len() - 1] == r);
                }
            }
        }
        assert forall|i: int, j: int| 0 <= i < j < all.len() implies all[i] != all[j] by {
            if j == front.len() {
                assert(front[i] == all[i]);
                assert(!front.contains(last));
            }
        }
    }
}

/// Roles that are set replace all that were set before, by the same means or among the
/// settings; the other settings stay.
pub proof fn roles_override_earlier_roles(
    c: Config,
    first: Seq<Seq<char>>,
    second: Seq<Seq<char>>,
    other: Seq<char>,
)
    ensures
        client::roles_replaced(client::roles_replaced(c, first), second).roles
            == client::roles_replaced(c, second).roles,
        settings::value_of(client::roles_replaced(c, second).settings, "role"@) is None,
        other != "role"@ ==> settings::value_of(client::roles_replaced(c, second).settings, other)
            == settings::value_of(c.settings, other),
{
    settings::removing_a_name(c.settings, "role"@, other);
}

/// The native protocol is sent what HTTP is sent, without the format of the answer and the
/// compression, which only HTTP knows.
pub proof fn both_transports_send_the_same(
    c: Config,
    format: Option<Seq<char>>,
    pair: (Seq<char>, Seq<char>),
)
    ensures
        query::tcp_pairs(c).contains(pair) ==> query::url_pairs(c, format).contains(pair),
        query::url_pairs(c, format).contains(pair) ==> query::tcp_pairs(c).contains(pair) || pair.0
            == "default_format"@ || pair.0 == "compress"@ || pair.0 == "enable_http_compression"@,
{
    let a = query::opt_pair("default_format"@, format);
    let d = query::opt_pair("database"@, c.database);
    let z = query::compression_pairs(c.compression);
    let r = query::role_pairs(c.roles);
    let u = query::url_pairs(c, format);
    let t = query::tcp_pairs(c);
    let shift = a.len() + z.len();
    if t.contains(pair) {
        let k = choose|k: int| 0 <= k < t.len() && t[k] == pair;
        if k < d.len() {
            assert(u[a.len() + k] == pair);
        } else {
            assert(u[k + shift] == pair);
        }
    }
    if u.contains(pair) {
        let k = choose|k: int| 0 <= k < u.len() && u[k] == pair;
        if k < a.len() {
            assert(pair == a[k]);
        } else if k < a.len() + d.len() {
            assert(t[k - a.len()] == pair);
        } else if k < a.len() + d.len() + z.len() {
            assert(pair == z[k - a.len() - d.len()]);
        } else {
            assert(t[k - shift] == pair);
        }
    }
}

/// No question mark stands in the text.
pub open spec fn is_literal_text(s: Seq<char>) -> bool {
    forall|i: int| 0 <= i < s.len() ==> #[trigger] s[i] != '?'
}

proof fn lemma_no_mark(s: Seq<char>)
    requires
        is_literal_text(s),
    ensures
        text::first_index(s, seq!['?'], 0) is None,
{
    text::lemma_first_index(s, seq!['?'], 0);
    if let Some(i) = text::first_index(s, seq!['?'], 0) {
        assert(s.subrange(i, i + 1)[0] == s[i]);
    }
}

proof fn lemma_first_mark(front: Seq<char>, rest: Seq<char>)
    requires
        is_literal_text(front),
    ensures
        text::first_index(front + seq!['?'] + rest, seq!['?'], 0) == Some(front.len() as int),
{
    let s = front + seq!['?'] + rest;
    let k = front.len() as int;
    assert(s.subrange(k, k + 1) =~= seq!['?']);
    assert forall|j: int| 0 <= j < k implies !text::occurs_at(s, seq!['?'], j) by {
        if text::occurs_at(s, seq!['?'], j) {
            assert(s.subrange(j, j + 1)[0] == s[j]);
            assert(s[j] == front[j]);
        }
    }
    text::lemma_first_index_is(s, seq!['?'], 0, k);
}

/// A text without question marks is a query as it stands.
pub proof fn plain_texts_are_queries(s: Seq<char>)
    requires
        is_literal_text(s),
    ensures
        sql_builder::finished_sql(Sql::InProgress(sql_builder::template(s))) == Ok::<
            Seq<char>,
            Seq<char>,
        >(s),
{
    lemma_no_mark(s);
    let pieces = sql_builder::template(s);
    reveal_with_fuel(sql_builder::finished, 3);
    if s.len() > 0 {
        assert(pieces.drop_last() =~= Seq::empty());
        assert(Seq::<char>::empty() + s =~= s);
    } else {
        assert(s =~= Seq::empty());
    }
}

/// A value goes where the question mark stands, as it is given.
pub proof fn values_go_where_the_mark_stands(front: Seq<char>, rest: Seq<char>, value: Seq<char>)
    requires
        is_literal_text(front),
        is_literal_text(rest),
        !text::occurs_at(rest, "fields"@, 0),
        front.len() > 0,
        rest.len() > 0,
    ensures
        sql_builder::finished_sql(
            sql_builder::with_arg(
                Sql::InProgress(sql_builder::template(front + seq!['?'] + rest)),
                Ok(value),
            ),
        ) == Ok::<Seq<char>, Seq<char>>(front + value + rest),
{
    let s = front + seq!['?'] + rest;
    let k = front.len() as int;
    lemma_first_mark(front, rest);
    lemma_no_mark(rest);
    assert(s.take(k) =~= front);
    assert(s.skip(k + 1) =~= rest);
    assert(s[k + 1] == rest[0]);
    let pieces = seq![Piece::Text(front), Piece::Arg, Piece::Text(rest)];
    assert(sql_builder::template(rest) =~= seq![Piece::Text(rest)]);
    assert(sql_builder::template(s) =~= pieces);
    reveal_with_fuel(sql_builder::first_arg, 3);
    assert(sql_builder::first_arg(pieces, 0) == Some(1int));
    let bound = pieces.update(1, Piece::Text(value));
    reveal_with_fuel(sql_builder::finished, 5);
    assert(bound.drop_last().drop_last().drop_last() =~= Seq::empty());
    assert(bound.drop_last().drop_last().last() == Piece::Text(front));
    assert(bound.drop_last().last() == Piece::Text(value));
    assert(bound.last() == Piece::Text(rest));
    assert(Seq::<char>::empty() + front =~= front);
}

/// Two question marks are a plain one.
pub proof fn doubled_marks_are_plain(front: Seq<char>, rest: Seq<char>)
    requires
        is_literal_text(front),
        is_literal_text(rest),
    ensures
        sql_builder::finished_sql(
            Sql::InProgress(sql_builder::template(front + seq!['?', '?'] + rest)),
        ) == Ok::<Seq<char>, Seq<char>>(front + seq!['?'] + rest),
{
    let s = front + seq!['?', '?'] + rest;
    let k = front.len() as int;
    assert(s =~= front + seq!['?'] + (seq!['?'] + rest));
    lemma_first_mark(front, seq!['?'] + rest);
    lemma_no_mark(rest);
    assert(s[k + 1] == '?');
    assert(s.take(k + 1) =~= front + seq!['?']);
    assert(s.skip(k + 2) =~= rest);
    let first = Piece::Text(front + seq!['?']);
    reveal_with_fuel(sql_builder::finished, 4);
    assert(sql_builder::template(s) =~= seq![first] + sql_builder::template(rest));
    assert(Seq::<char>::empty() + (front + seq!['?']) =~= front + seq!['?']);
    if rest.len() == 0 {
        assert(sql_builder::template(s) =~= seq![first]);
        assert(seq![first].drop_last() =~= Seq::empty());
        assert(front + seq!['?'] + rest =~= front + seq!['?']);
    } else {
        let pieces = seq![first, Piece::Text(rest)];
        assert(sql_builder::template(s) =~= pieces);
        assert(pieces.drop_last() =~= seq![first]);
        assert(seq![first].drop_last() =~= Seq::empty());
    }
}

/// A trust that was asked for and could not be resolved refuses every connection, and goes on
/// doing so when the pool or the settings of the client change.
pub proof fn unresolved_trust_refuses_connections(
    c: Config,
    pool: crate::http_client::PoolConfig,
    name: Seq<char>,
    value: Seq<char>,
)
    requires
        c.tls is Some,
        !c.tls_resolved,
    ensures
        tls::chosen(c.tls, c.tls_resolved) == HttpTls::FailClosed,
        ({
            let d = Config { pool, ..c };
            tls::chosen(d.tls, d.tls_resolved) == HttpTls::FailClosed
        }),
        ({
            let d = client::with_set(c, name, value);
            tls::chosen(d.tls, d.tls_resolved) == HttpTls::FailClosed
        }),
{
}

/// The statement that kills a query names it in quotes that its id cannot break out of, and
/// waits until the query is gone.
pub proof fn kills_name_their_query(query_id: Seq<char>)
    ensures
        sql_builder::finished_sql(
            sql_builder::with_arg(
                Sql::InProgress(sql_builder::template("KILL QUERY WHERE query_id = ? SYNC"@)),
                Ok(sql::quoted_literal(query_id)),
            ),
        ) == Ok::<Seq<char>, Seq<char>>(
            "KILL QUERY WHERE query_id = "@ + sql::quoted_literal(query_id) + " SYNC"@,
        ),
        sql::read_quoted((sql::quoted_literal(query_id) + " SYNC"@).skip(1), '\'') == Some(
            (query_id, " SYNC"@),
        ),
{
    reveal_strlit("KILL QUERY WHERE query_id = ? SYNC");
    reveal_strlit("KILL QUERY WHERE query_id = ");
    reveal_strlit(" SYNC");
    reveal_strlit("fields");
    let front = "KILL QUERY WHERE query_id = "@;
    let rest = " SYNC"@;
    assert("KILL QUERY WHERE query_id = ? SYNC"@ =~= front + seq!['?'] + rest);
    assert(!text::occurs_at(rest, "fields"@, 0));
    values_go_where_the_mark_stands(front, rest, sql::quoted_literal(query_id));
    sql::quoted_texts_read_back(query_id, rest, '\'');
}

/// Roles that differ are kept as they are given, in their order.
pub proof fn distinct_roles_keep_their_order(roles: Seq<Seq<char>>)
    requires
        forall|i: int, j: int| 0 <= i < j < roles.len() ==> roles[i] != roles[j],
    ensures
        client::distinct(roles) == roles,
    decreases roles.len(),
{
    if roles.len() > 0 {
        let rest = roles.drop_last();
        assert forall|i: int, j: int| 0 <= i < j < rest.len() implies rest[i] != rest[j] by {
            assert(rest[i] == roles[i] && rest[j] == roles[j]);
        }
        distinct_roles_keep_their_order(rest);
        if rest.contains(roles.last()) {
            let k = choose|k: int| 0 <= k < rest.len() && rest[k] == roles.last();
            assert(roles[k] == roles[roles.len() - 1]);
        }
        assert(rest.push(roles.last()) =~= roles);
    } else {
        assert(client::distinct(roles) =~= roles);
    }
}

/// A role that is given again stays where it was given first.
pub proof fn repeated_roles_change_nothing(roles: Seq<Seq<char>>, role: Seq<char>)
    ensures
        roles.contains(role) ==> client::distinct(roles.push(role)) == client::distinct(roles),
        !roles.contains(role) ==> client::distinct(roles.push(role)) == client::distinct(
            roles,
        ).push(role),
{
    roles_are_distinct(roles);
    assert(roles.push(role).drop_last() =~= roles);
    assert(client::distinct(roles).contains(role) <==> roles.contains(role));
}

/// Roles and settings are all that setting them changes.
pub proof fn roles_and_settings_change_nothing_else(
    c: Config,
    roles: Seq<Seq<char>>,
    name: Seq<char>,
    value: Seq<char>,
)
    ensures
        ({
            let d = client::roles_replaced(c, roles);
            &&& d.roles == client::distinct(roles)
            &&& d.url == c.url
            &&& d.database == c.database
            &&& d.identity == c.identity
            &&& d.compression == c.compression
            &&& d.headers == c.headers
            &&& d.products == c.products
            &&& d.validation == c.validation
            &&& d.fresh_cache == c.fresh_cache
            &&& d.auto_query_id == c.auto_query_id
            &&& d.kill_on_drop == c.kill_on_drop
            &&& d.pool == c.pool
            &&& d.tls == c.tls
            &&& d.tls_resolved == c.tls_resolved
            &&& d.mocked == c.mocked
            &&& d.custom_http == c.custom_http
        }),
        ({
            let d = client::with_set(c, name, value);
            &&& settings::value_of(d.settings, name) == Some(value)
            &&& d.roles == c.roles
            &&& d.url == c.url
            &&& d.database == c.database
            &&& d.identity == c.identity
            &&& d.compression == c.compression
            &&& d.headers == c.headers
            &&& d.products == c.products
            &&& d.validation == c.validation
            &&& d.fresh_cache == c.fresh_cache
            &&& d.auto_query_id == c.auto_query_id
            &&& d.kill_on_drop == c.kill_on_drop
            &&& d.pool == c.pool
            &&& d.tls == c.tls
            &&& d.tls_resolved == c.tls_resolved
            &&& d.mocked == c.mocked
            &&& d.custom_http == c.custom_http
        }),
{
    settings::setting_a_value(c.settings, name, value, name);
}

/// An insert that waits for the shards asks the server for that, and one that is synced to disk asks
/// for that too, of the files and of their directories; one in the background asks for neither. No
/// other setting changes.
pub proof fn durability_is_asked_for(
    s: Seq<(Seq<char>, Seq<char>)>,
    mode: Durability,
    other: Seq<char>,
)
    ensures
        mode == Durability::Background ==> client::durable(s, mode) == s,
        mode != Durability::Background ==> settings::value_of(
            client::durable(s, mode),
            "distributed_foreground_insert"@,
        ) == Some("1"@),
        mode == Durability::ForegroundFsynced ==> settings::value_of(
            client::durable(s, mode),
            "fsync_after_insert"@,
        ) == Some("1"@) && settings::value_of(client::durable(s, mode), "fsync_directories"@)
            == Some("1"@),
        mode == Durability::Foreground && other != "distributed_foreground_insert"@
            ==> settings::value_of(client::durable(s, mode), other) == settings::value_of(s, other),
        other != "distributed_foreground_insert"@ && other != "fsync_after_insert"@ && other
            != "fsync_directories"@ ==> settings::value_of(client::durable(s, mode), other)
            == settings::value_of(s, other),
{
    reveal_strlit("distributed_foreground_insert");
    reveal_strlit("fsync_after_insert");
    reveal_strlit("fsync_directories");
    let a = "distributed_foreground_insert"@;
    let b = "fsync_after_insert"@;
    let d = "fsync_directories"@;
    assert(a.len() == 29 && b.len() == 18 && d.len() == 17);
    let s1 = settings::with_value(s, a, "1"@);
    let s2 = settings::with_value(s1, b, "1"@);
    settings::setting_a_value(s, a, "1"@, other);
    settings::setting_a_value(s1, b, "1"@, a);
    settings::setting_a_value(s1, b, "1"@, other);
    settings::setting_a_value(s2, d, "1"@, a);
    settings::setting_a_value(s2, d, "1"@, b);
    settings::setting_a_value(s2, d, "1"@, other);
}

/// A table name with a dot names its database; one without stands in the database of the client, or
/// in `default` where the client has none.
pub proof fn tables_are_qualified(c: Config, database: Seq<char>, table: Seq<char>)
    requires
        forall|i: int| 0 <= i < database.len() ==> #[trigger] database[i] != '.',
    ensures
        client::qualified(c, database + seq!['.'] + table) == (database, table),
        client::qualified(c, database) == (
            match c.database {
                Some(d) => d,
                None => "default"@,
            },
            database,
        ),
{
    let s = database + seq!['.'] + table;
    let k = database.len() as int;
    assert(s.subrange(k, k + 1) =~= seq!['.']);
    assert forall|j: int| 0 <= j < k implies !text::occurs_at(s, seq!['.'], j) by {
        assert(s.subrange(j, j + 1)[0] == database[j]);
        assert(seq!['.'][0] == '.');
    }
    text::lemma_first_index_is(s, seq!['.'], 0, k);
    assert(s.take(k) =~= database);
    assert(s.skip(k + 1) =~= table);
    text::lemma_first_index(database, seq!['.'], 0);
    if let Some(i) = text::first_index(database, seq!['.'], 0) {
        assert(database.subrange(i, i + 1)[0] == seq!['.'][0]);
    }
}

/// A product reads as its name and version and stands in front of those that were added before it.
pub proof fn products_stand_in_front(
    products: Seq<(Seq<char>, Seq<char>)>,
    product: (Seq<char>, Seq<char>),
    default: Seq<char>,
)
    ensures
        client::agent_text(Seq::empty(), default) == default,
        client::agent_text(products.push(product), default) == product.0 + "/"@ + product.1 + " "@
            + client::agent_text(products, default),
{
    assert(products.push(product).drop_last() =~= products);
}

/// A query keeps the id that its client has; it gets one of its own only where the client wants ids
/// and has none, and nothing else about it changes.
pub proof fn queries_keep_their_id(c: Client, started: Config, other: Seq<char>)
    requires
        c.starts_with(started),
    ensures
        settings::value_of(c.config().settings, "query_id"@) is Some ==> started == c.config(),
        !c.config().auto_query_id ==> started == c.config(),
        c.config().auto_query_id && settings::value_of(c.config().settings, "query_id"@) is None
            ==> (settings::value_of(started.settings, "query_id"@) matches Some(id)
            && client::is_uuid_v7(id)),
        other != "query_id"@ ==> settings::value_of(started.settings, other) == settings::value_of(
            c.config().settings,
            other,
        ),
        started.roles == c.config().roles,
        ({
            let d = started;
            let e = c.config();
            &&& d.url == e.url
            &&& d.database == e.database
            &&& d.identity == e.identity
            &&& d.compression == e.compression
            &&& d.headers == e.headers
            &&& d.products == e.products
            &&& d.validation == e.validation
            &&& d.fresh_cache == e.fresh_cache
            &&& d.auto_query_id == e.auto_query_id
            &&& d.kill_on_drop == e.kill_on_drop
            &&& d.pool == e.pool
            &&& d.tls == e.tls
            &&& d.tls_resolved == e.tls_resolved
            &&& d.mocked == e.mocked
            &&& d.custom_http == e.custom_http
        }),
{
    if c.wants_query_id() {
        let id = choose|id: Seq<char>|
            client::is_uuid_v7(id) && started == #[trigger] client::with_set(
                c.config(),
                "query_id"@,
                id,
            );
        settings::setting_a_value(c.config().settings, "query_id"@, id, other);
    }
}

/// A client starts out without a user, roles, settings, headers and products, compresses, checks rows,
/// and kills no queries.
pub proof fn clients_start_out_plain(c: Config, custom: bool)
    requires
        client::is_default(c, custom),
    ensures
        c.url.len() == 0 && c.database is None,
        c.identity == (Identity::Credentials { user: None, password: None }),
        c.roles.len() == 0 && c.settings.len() == 0 && c.headers.len() == 0 && c.products.len() == 0,
        c.compression is Lz4,
        c.validation && !c.auto_query_id && !c.kill_on_drop && !c.mocked,
        c.pool.idle_timeout.nanos == 2_000_000_000 && c.pool.tcp_keepalive.nanos == 60_000_000_000,
        c.pool.max_idle_per_host is None,
        tls::chosen(c.tls, c.tls_resolved) == HttpTls::Default,
        c.custom_http == custom,
{
}

/// The configuration of a client is what the client holds.
pub proof fn configurations_are_what_clients_hold(c: Client)
    ensures
        c.config().url == c.url@,
        c.config().database == match c.database {
            Some(d) => Some(d@),
            None => None,
        },
        c.authentication matches Authentication::Jwt { access_token } ==> c.config().identity
            == Identity::Jwt(access_token@),
        c.authentication matches Authentication::Credentials { user, password } ==> c.config().identity
            == (Identity::Credentials {
            user: match user {
                Some(u) => Some(u@),
                None => None,
            },
            password: match password {
                Some(p) => Some(p@),
                None => None,
            },
        }),
        c.config().compression == c.compression,
        c.config().roles.len() == c.roles@.len(),
        forall|i: int| 0 <= i < c.roles@.len() ==> c.config().roles[i] == (#[trigger] c.roles@[i])@,
        c.config().settings == settings::pairs(c.settings@),
        c.config().headers == settings::pairs(c.headers@),
        c.config().products.len() == c.products_info@.len(),
        forall|i: int|
            0 <= i < c.products_info@.len() ==> c.config().products[i] == ((
            #[trigger] c.products_info@[i]).name@, c.products_info@[i].version@),
        c.config().validation == c.validation,
        c.config().fresh_cache == c.fresh_cache,
        c.config().auto_query_id == c.auto_query_id,
        c.config().kill_on_drop == c.kill_on_drop,
        c.config().pool == c.pool_config,
        c.config().tls == tls::source_trust(c.tls_source),
        c.config().tls_resolved == c.tls_resolved,
        c.config().mocked == c.mocked,
        c.config().custom_http == c.custom_http,
{
}

/// What goes with a query over HTTP is the format that was asked for, the database, the wish for
/// compression, every setting and every role: each of them, and nothing else.
pub proof fn requests_carry_what_was_set(c: Config, format: Option<Seq<char>>, i: int)
    ensures
        format matches Some(f) ==> query::url_pairs(c, format).contains(("default_format"@, f)),
        c.database matches Some(d) ==> query::url_pairs(c, format).contains(("database"@, d)),
        c.compression is Zstd ==> query::url_pairs(c, format).contains(
            ("enable_http_compression"@, "1"@),
        ),
        !(c.compression is Zstd) && !(c.compression is Plain) ==> query::url_pairs(
            c,
            format,
        ).contains(("compress"@, "1"@)),
        0 <= i < c.settings.len() ==> query::url_pairs(c, format).contains(c.settings[i]),
        0 <= i < c.roles.len() ==> query::url_pairs(c, format).contains(("role"@, c.roles[i])),
        query::url_pairs(c, format).len() == c.settings.len() + c.roles.len() + (if format is Some {
            1int
        } else {
            0
        }) + (if c.database is Some {
            1int
        } else {
            0
        }) + (if c.compression is Plain {
            0int
        } else {
            1
        }),
{
    let a = query::opt_pair("default_format"@, format);
    let d = query::opt_pair("database"@, c.database);
    let z = query::compression_pairs(c.compression);
    let r = query::role_pairs(c.roles);
    let u = query::url_pairs(c, format);
    let n = (a.len() + d.len() + z.len()) as int;
    if format is Some {
        assert(u[0] == a[0]);
    }
    if c.database is Some {
        assert(u[a.len() as int] == d[0]);
    }
    if !(c.compression is Plain) {
        assert(u[(a.len() + d.len()) as int] == z[0]);
    }
    if 0 <= i < c.settings.len() {
        assert(u[n + i] == c.settings[i]);
    }
    if 0 <= i < c.roles.len() {
        assert(u[n + c.settings.len() + i] == r[i]);
    }
}

/// Over the native protocol go the database, every setting and every role, in that order.
pub proof fn native_requests_carry_what_was_set(c: Config, i: int)
    ensures
        c.database matches Some(d) ==> query::tcp_pairs(c).len() > 0 && query::tcp_pairs(c)[0] == (
            "database"@,
            d,
        ),
        ({
            let n = if c.database is Some {
                1int
            } else {
                0
            };
            &&& query::tcp_pairs(c).len() == n + c.settings.len() + c.roles.len()
            &&& 0 <= i < c.settings.len() ==> query::tcp_pairs(c)[n + i] == c.settings[i]
            &&& 0 <= i < c.roles.len() ==> query::tcp_pairs(c)[n + c.settings.len() + i] == (
                "role"@,
                c.roles[i],
            )
        }),
{
}

/// Rows are asked for with their columns exactly where they are to be checked against them, and never
/// of a mocked server.
pub proof fn rows_are_checked_against_their_columns(c: Config)
    ensures
        query::checks_rows(c) <==> c.validation && !c.mocked,
        query::row_format(true) == "RowBinaryWithNamesAndTypes"@,
        query::row_format(false) == "RowBinary"@,
{
}

/// A request over HTTP holds the statement and its length in bytes, and goes out as the client: with
/// its headers, its products and its identity. There is one exactly where the statement is complete
/// and the address can be read; else the error says what is wrong, the statement first.
pub proof fn requests_hold_the_statement(
    c: Config,
    q: Sql,
    format: Option<Seq<char>>,
    r: Result<HttpRequest>,
)
    requires
        query::becomes(c, q, format, r),
    ensures
        r matches Ok(req) ==> sql_builder::finished_sql(q) == Ok::<Seq<char>, Seq<char>>(req.body@)
            && query::url_with_pairs(c.url, query::url_pairs(c, format)) == Some(req.url@)
            && text::parsed_uint(
            req.content_length@,
            encode_utf8(req.body@).len(),
        ) == Some(encode_utf8(req.body@).len()) && settings::pairs(req.headers@) == c.headers
            && client::products_of(req.products_info@) == c.products && client::identity_of(
            req.authentication,
        ) == c.identity && (req.accept_zstd <==> c.compression is Zstd),
        sql_builder::finished_sql(q) matches Err(e) ==> (r matches Err(Error::InvalidParams(s)) && s@
            == e),
        sql_builder::finished_sql(q) is Ok && query::url_with_pairs(
            c.url,
            query::url_pairs(c, format),
        ) is None ==> (r matches Err(Error::InvalidParams(s)) && s@ == query::url_error(c.url)),
        sql_builder::finished_sql(q) is Ok && query::url_with_pairs(
            c.url,
            query::url_pairs(c, format),
        ) is Some ==> r is Ok,
{
    if let Ok(req) = r {
        text::decimal_reads_back(encode_utf8(req.body@).len());
    }
}

/// A request over the native protocol holds the statement, the id of the query where it has one, and
/// what was set; it may be run again where its caller says so.
pub proof fn native_requests_hold_the_statement(q: Query, r: Result<TcpRequest>)
    requires
        query::becomes_tcp(q, r),
    ensures
        r matches Ok(req) ==> sql_builder::finished_sql(q.sql.model()) == Ok::<Seq<char>, Seq<char>>(
            req.sql@,
        ) && settings::pairs(req.settings@) == query::tcp_pairs(q.client.config()) && req.idempotent
            == q.idempotent && match settings::value_of(q.client.config().settings, "query_id"@) {
            Some(id) => req.query_id@ == id,
            None => req.query_id@.len() == 0,
        },
        sql_builder::finished_sql(q.sql.model()) matches Err(e) ==> (r matches Err(
            Error::InvalidParams(s),
        ) && s@ == e),
        sql_builder::finished_sql(q.sql.model()) is Ok ==> r is Ok,
{
}

/// Rows are fetched with the request that was made, and the query can be killed exactly where the
/// client wants that and the query has an id.
pub proof fn fetches_can_be_killed(plan: FetchPlan, c: Config, request: HttpRequest)
    requires
        query::is_fetch_plan(plan, c, request),
    ensures
        plan.request == request,
        plan.validation <==> c.validation && !c.mocked,
        plan.kill_on_drop is Some <==> c.kill_on_drop && settings::value_of(
            c.settings,
            "query_id"@,
        ) is Some,
        plan.kill_on_drop matches Some((killer, id)) ==> killer.config() == c && settings::value_of(
            c.settings,
            "query_id"@,
        ) == Some(id@),
{
}

/// A value goes to the first open place, and everything else stays as it is: values are bound from left
/// to right.
pub proof fn values_are_bound_from_left_to_right(pieces: Seq<Piece>, i: int, value: Seq<char>)
    requires
        0 <= i < pieces.len(),
        pieces[i] is Arg,
        forall|j: int| 0 <= j < i ==> !((#[trigger] pieces[j]) is Arg),
    ensures
        sql_builder::with_arg(Sql::InProgress(pieces), Ok(value)) == Sql::InProgress(
            pieces.update(i, Piece::Text(value)),
        ),
{
    lemma_first_arg(pieces, 0, i);
}

proof fn lemma_first_arg(pieces: Seq<Piece>, from: int, i: int)
    requires
        0 <= from <= i < pieces.len(),
        pieces[i] is Arg,
        forall|j: int| from <= j < i ==> !((#[trigger] pieces[j]) is Arg),
    ensures
        sql_builder::first_arg(pieces, from) == Some(i),
    decreases i - from,
{
    if from < i {
        assert(!(pieces[from] is Arg));
        lemma_first_arg(pieces, from + 1, i);
    }
}

proof fn lemma_no_arg(pieces: Seq<Piece>, from: int)
    requires
        0 <= from,
        forall|j: int| from <= j < pieces.len() ==> !((#[trigger] pieces[j]) is Arg),
    ensures
        sql_builder::first_arg(pieces, from) is None,
    decreases pieces.len() - from,
{
    if from < pieces.len() {
        assert(!(pieces[from] is Arg));
        lemma_no_arg(pieces, from + 1);
    }
}

/// A value too many is an error of the query, and so is one that could not be written as a literal.
pub proof fn values_too_many_are_errors(
    pieces: Seq<Piece>,
    value: std::result::Result<Seq<char>, Seq<char>>,
)
    ensures
        (forall|j: int| 0 <= j < pieces.len() ==> !((#[trigger] pieces[j]) is Arg))
            ==> sql_builder::finished_sql(sql_builder::with_arg(Sql::InProgress(pieces), value))
            is Err,
        value matches Err(e) ==> sql_builder::with_arg(Sql::InProgress(pieces), value) is Failed,
{
    if forall|j: int| 0 <= j < pieces.len() ==> !((#[trigger] pieces[j]) is Arg) {
        lemma_no_arg(pieces, 0);
    }
}

/// A query that has failed stays failed with the first error, whatever is bound then.
pub proof fn failed_queries_keep_their_error(
    e: Seq<char>,
    value: std::result::Result<Seq<char>, Seq<char>>,
    fields: Option<Seq<char>>,
)
    ensures
        sql_builder::with_arg(Sql::Failed(e), value) == Sql::Failed(e),
        sql_builder::with_fields(Sql::Failed(e), fields) == Sql::Failed(e),
        sql_builder::finished_sql(Sql::Failed(e)) == Err::<Seq<char>, Seq<char>>(e),
        sql_builder::shown_sql(Sql::Failed(e)) == e,
{
}

/// A query is complete exactly where no place in it is open, and it is then the texts of its pieces
/// one after the other.
pub proof fn queries_are_complete_without_open_places(pieces: Seq<Piece>, text: Seq<char>)
    ensures
        sql_builder::finished(pieces) is Ok <==> forall|i: int|
            0 <= i < pieces.len() ==> (#[trigger] pieces[i]) is Text,
        sql_builder::finished(pieces) matches Ok(s) ==> sql_builder::finished(
            pieces.push(Piece::Text(text)),
        ) == Ok::<Seq<char>, Seq<char>>(s + text) && sql_builder::shown(pieces) == s,
        sql_builder::finished(pieces.push(Piece::Arg)) is Err,
        sql_builder::finished(pieces.push(Piece::Fields)) is Err,
    decreases pieces.len(),
{
    assert(pieces.push(Piece::Text(text)).drop_last() =~= pieces);
    assert(pieces.push(Piece::Arg).drop_last() =~= pieces);
    assert(pieces.push(Piece::Fields).drop_last() =~= pieces);
    if pieces.len() > 0 {
        let front = pieces.drop_last();
        queries_are_complete_without_open_places(front, text);
        if sql_builder::finished(pieces) is Ok {
            assert forall|i: int| 0 <= i < pieces.len() implies (#[trigger] pieces[i]) is Text by {
                if i < front.len() {
                    assert(front[i] == pieces[i]);
                }
            }
        }
        if forall|i: int| 0 <= i < pieces.len() ==> (#[trigger] pieces[i]) is Text {
            assert forall|i: int| 0 <= i < front.len() implies (#[trigger] front[i]) is Text by {
                assert(front[i] == pieces[i]);
            }
            assert(pieces[pieces.len() - 1] is Text);
        }
    }
}

/// The columns of a row type go where `?fields` stands first; without that place they go nowhere, and
/// a row type without names cannot fill it.
pub proof fn columns_go_where_fields_stands(pieces: Seq<Piece>, i: int, names: Seq<char>)
    requires
        0 <= i < pieces.len(),
        pieces[i] is Fields,
        forall|j: int| 0 <= j < i ==> !((#[trigger] pieces[j]) is Fields),
    ensures
        sql_builder::with_fields(Sql::InProgress(pieces), Some(names)) == Sql::InProgress(
            pieces.update(i, Piece::Text(names)),
        ),
        sql_builder::with_fields(Sql::InProgress(pieces), None) is Failed,
{
    lemma_first_fields(pieces, 0, i);
}

proof fn lemma_first_fields(pieces: Seq<Piece>, from: int, i: int)
    requires
        0 <= from <= i < pieces.len(),
        pieces[i] is Fields,
        forall|j: int| from <= j < i ==> !((#[trigger] pieces[j]) is Fields),
    ensures
        sql_builder::first_fields(pieces, from) == Some(i),
    decreases i - from,
{
    if from < i {
        assert(!(pieces[from] is Fields));
        lemma_first_fields(pieces, from + 1, i);
    }
}

/// A query without a place for columns is not changed by them.
pub proof fn columns_need_a_place(pieces: Seq<Piece>, fields: Option<Seq<char>>, from: int)
    requires
        0 <= from,
        forall|j: int| from <= j < pieces.len() ==> !((#[trigger] pieces[j]) is Fields),
    ensures
        sql_builder::first_fields(pieces, from) is None,
        from == 0 ==> sql_builder::with_fields(Sql::InProgress(pieces), fields) == Sql::InProgress(
            pieces,
        ),
    decreases pieces.len() - from,
{
    if from < pieces.len() {
        assert(!(pieces[from] is Fields));
        columns_need_a_place(pieces, fields, from + 1);
    }
}

/// A question mark before the word `fields` is a place for columns.
pub proof fn marked_fields_are_places_for_columns(front: Seq<char>, rest: Seq<char>)
    requires
        is_literal_text(front),
        is_literal_text(rest),
        front.len() > 0,
        rest.len() > 0,
    ensures
        sql_builder::template(front + seq!['?'] + ("fields"@ + rest)) == seq![
            Piece::Text(front),
            Piece::Fields,
            Piece::Text(rest),
        ],
{
    reveal_strlit("fields");
    let s = front + seq!['?'] + ("fields"@ + rest);
    let k = front.len() as int;
    let tail = "fields"@ + rest;
    lemma_first_mark(front, tail);
    lemma_no_mark(rest);
    assert(s.take(k) =~= front);
    assert(s.skip(k + 1) =~= tail);
    assert(s[k + 1] == tail[0]);
    assert(tail[0] == 'f');
    assert(tail.subrange(0, 6) =~= "fields"@);
    assert(tail.skip(6) =~= rest);
    assert(sql_builder::template(rest) =~= seq![Piece::Text(rest)]);
    assert(sql_builder::template(s) =~= seq![
        Piece::Text(front),
        Piece::Fields,
        Piece::Text(rest),
    ]);
}

/// Rows are asked for in the format for rows, with the columns of the row type in the statement.
pub proof fn rows_are_asked_for_in_their_format(
    q: Query,
    fields: Option<Seq<char>>,
    r: Result<HttpRequest>,
)
    requires
        query::becomes_rows(q, fields, r),
    ensures
        query::becomes(
            q.client.config(),
            sql_builder::with_fields(q.sql.model(), fields),
            Some(
                if q.client.config().validation && !q.client.config().mocked {
                    "RowBinaryWithNamesAndTypes"@
                } else {
                    "RowBinary"@
                },
            ),
            r,
        ),
{
}

/// Requests of ordinary size fit in a URL and those beyond 32 bits do not; the length of what is
/// written grows with each pair.
pub proof fn ordinary_requests_fit_in_a_url(
    url: Seq<char>,
    pairs: Seq<(Seq<char>, Seq<char>)>,
    pair: (Seq<char>, Seq<char>),
)
    ensures
        query::written_len(Seq::empty()) == 0,
        query::written_len(pairs.push(pair)) == query::written_len(pairs) + pair.0.len()
            + pair.1.len() + 2,
        url.len() <= 10_000_000 && query::written_len(pairs) <= 300_000_000 ==> query::fits_in_url(
            url,
            pairs,
        ),
        query::fits_in_url(url, pairs) ==> 32 * url.len() + 12 * query::written_len(pairs) < u32::MAX,
{
    assert(pairs.push(pair).drop_last() =~= pairs);
}

/// The text in front of a place, where there is any.
pub open spec fn text_in_front(front: Seq<char>) -> Seq<Piece> {
    if front.len() > 0 {
        seq![Piece::Text(front)]
    } else {
        Seq::empty()
    }
}

/// A single question mark is a place for a value, wherever it stands; what follows it is read on its
/// own.
pub proof fn marks_are_places_for_values(front: Seq<char>, rest: Seq<char>)
    requires
        is_literal_text(front),
        rest.len() > 0 ==> rest[0] != '?',
        !text::occurs_at(rest, "fields"@, 0),
    ensures
        sql_builder::template(front + seq!['?'] + rest) == text_in_front(front) + seq![Piece::Arg]
            + sql_builder::template(rest),
{
    let s = front + seq!['?'] + rest;
    let k = front.len() as int;
    lemma_first_mark(front, rest);
    assert(s.take(k) =~= front);
    assert(s.skip(k + 1) =~= rest);
    if rest.len() > 0 {
        assert(s[k + 1] == rest[0]);
    }
}

/// A question mark with the word `fields` behind it is a place for columns, and two question marks are
/// the text of one, wherever they stand; what follows is read on its own.
pub proof fn fields_and_doubled_marks_are_no_values(front: Seq<char>, rest: Seq<char>)
    requires
        is_literal_text(front),
    ensures
        sql_builder::template(front + seq!['?'] + ("fields"@ + rest)) == text_in_front(front)
            + seq![Piece::Fields] + sql_builder::template(rest),
        sql_builder::template(front + seq!['?'] + (seq!['?'] + rest)) == seq![
            Piece::Text(front + seq!['?']),
        ] + sql_builder::template(rest),
{
    reveal_strlit("fields");
    let k = front.len() as int;
    let tail = "fields"@ + rest;
    let s = front + seq!['?'] + tail;
    lemma_first_mark(front, tail);
    assert(s.take(k) =~= front);
    assert(s.skip(k + 1) =~= tail);
    assert(s[k + 1] == tail[0]);
    assert(tail[0] == 'f');
    assert(tail.subrange(0, 6) =~= "fields"@);
    assert(tail.skip(6) =~= rest);
    let back = seq!['?'] + rest;
    let t = front + seq!['?'] + back;
    lemma_first_mark(front, back);
    assert(t[k + 1] == '?');
    assert(t.take(k + 1) =~= front + seq!['?']);
    assert(t.skip(k + 2) =~= rest);
}

} // verus!
