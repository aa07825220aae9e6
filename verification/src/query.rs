//! A query: its text, its settings, and the request that it becomes.
use vstd::prelude::*;
use vstd::utf8::*;

use crate::client::{self, Authentication, Client, ProductInfo};
use crate::compression::Compression;
use crate::error::{Error, Result};
use crate::response;
use crate::settings::{self, copy_pairs};
use crate::sql;
use crate::sql_builder::{self, SqlBuilder};
use crate::text::{self, push_decimal};

verus! {

/// A query of a client.
#[derive(Debug)]
pub struct Query {
    pub client: Client,
    pub sql: SqlBuilder,
    /// The caller says that the statement may be run again.
    pub idempotent: bool,
}

/// A query as it goes over HTTP, as a POST request. The headers of the client, the user
/// agent with its products and the authentication go with it.
#[derive(Debug)]
pub struct HttpRequest {
    pub url: String,
    pub headers: Vec<(String, String)>,
    pub products_info: Vec<ProductInfo>,
    pub authentication: Authentication,
    /// The answer may be compressed with Zstandard.
    pub accept_zstd: bool,
    pub content_length: String,
    pub body: String,
}

/// A query as it goes over the native protocol.
#[derive(Debug)]
pub struct TcpRequest {
    /// Empty where the query has none.
    pub query_id: String,
    pub sql: String,
    pub settings: Vec<(String, String)>,
    pub idempotent: bool,
}

/// How a query is run.
#[derive(Debug)]
pub enum ExecutePlan {
    Http(HttpRequest),
    Tcp(TcpRequest),
}

/// How the rows of a query are fetched.
#[derive(Debug)]
pub struct FetchPlan {
    pub request: HttpRequest,
    /// The answer describes its columns, and rows are checked against that.
    pub validation: bool,
    /// What is needed to kill the query when its result is given up.
    pub kill_on_drop: Option<(Client, String)>,
}

/// The format of rows in an answer.
pub open spec fn row_format(validation: bool) -> Seq<char> {
    if validation {
        "RowBinaryWithNamesAndTypes"@
    } else {
        "RowBinary"@
    }
}

/// A pair where there is a value, else none.
pub open spec fn opt_pair(name: Seq<char>, value: Option<Seq<char>>) -> Seq<
    (Seq<char>, Seq<char>),
> {
    match value {
        Some(v) => seq![(name, v)],
        None => Seq::empty(),
    }
}

/// The roles as pairs.
pub open spec fn role_pairs(roles: Seq<Seq<char>>) -> Seq<(Seq<char>, Seq<char>)> {
    Seq::new(roles.len(), |i: int| ("role"@, roles[i]))
}

/// The pair that asks for compression.
pub open spec fn compression_pairs(c: Compression) -> Seq<(Seq<char>, Seq<char>)> {
    match c {
        Compression::Plain => Seq::empty(),
        Compression::Zstd(_) => seq![("enable_http_compression"@, "1"@)],
        _ => seq![("compress"@, "1"@)],
    }
}

/// What stands in the URL of a query: the format of the answer, the database, the
/// compression, the settings and the roles.
pub open spec fn url_pairs(c: client::Config, format: Option<Seq<char>>) -> Seq<
    (Seq<char>, Seq<char>),
> {
    opt_pair("default_format"@, format) + opt_pair("database"@, c.database) + compression_pairs(
        c.compression,
    ) + c.settings + role_pairs(c.roles)
}

/// What goes with a query over the native protocol: the database, the settings and the
/// roles, without what only HTTP knows.
pub open spec fn tcp_pairs(c: client::Config) -> Seq<(Seq<char>, Seq<char>)> {
    opt_pair("database"@, c.database) + c.settings + role_pairs(c.roles)
}

/// How long a list of pairs is when it is written out, before any escaping.
pub open spec fn written_len(pairs: Seq<(Seq<char>, Seq<char>)>) -> nat
    decreases pairs.len(),
{
    if pairs.len() == 0 {
        0
    } else {
        written_len(pairs.drop_last()) + pairs.last().0.len() + pairs.last().1.len() + 2
    }
}

/// The positions in a URL are numbers of 32 bits. An escaped character takes at most 12 bytes.
/// A character of a host name may stand for several others, each in a form of its own, which
/// together take at most 32.
pub open spec fn fits_in_url(url: Seq<char>, pairs: Seq<(Seq<char>, Seq<char>)>) -> bool {
    32 * url.len() + 12 * written_len(pairs) + 16 <= u32::MAX
}

/// A URL with the given pairs for its query, if it can be read.
pub uninterp spec fn url_with_pairs(url: Seq<char>, pairs: Seq<(Seq<char>, Seq<char>)>) -> Option<
    Seq<char>,
>;

/// Why a URL cannot be read.
pub uninterp spec fn url_error(url: Seq<char>) -> Seq<char>;

/// `Url::parse` of url, and its `query_pairs_mut` with the pairs in place of what stood in
/// the URL: the URL with these pairs for its query, or the text of the error.
#[verifier::external_body]
fn url_query(url: &str, pairs: &Vec<(String, String)>) -> (r: std::result::Result<String, String>)
    requires
        fits_in_url(url@, settings::pairs(pairs@)),
    ensures
        (match r {
            Ok(s) => url_with_pairs(url@, settings::pairs(pairs@)) == Some(s@),
            Err(e) => url_with_pairs(url@, settings::pairs(pairs@)) is None && e@ == url_error(url@),
        }),
{
    let mut parsed = url::Url::parse(url).map_err(|e| e.to_string())?;
    parsed.query_pairs_mut().clear().extend_pairs(pairs.iter());
    Ok(String::from(parsed))
}

/// The request holds the body, the URL and what the client adds.
pub open spec fn is_request(
    req: HttpRequest,
    c: client::Config,
    url: Seq<char>,
    body: Seq<char>,
) -> bool {
    &&& req.url@ == url
    &&& req.body@ == body
    &&& req.content_length@ == text::decimal(encode_utf8(body).len())
    &&& settings::pairs(req.headers@) == c.headers
    &&& client::products_of(req.products_info@) == c.products
    &&& client::identity_of(req.authentication) == c.identity
    &&& req.accept_zstd == (c.compression is Zstd)
}

/// The request is what the query becomes, or the error says why there is none: the text of
/// the query is looked at first, then the URL.
pub open spec fn becomes(
    c: client::Config,
    q: sql_builder::Sql,
    format: Option<Seq<char>>,
    r: Result<HttpRequest>,
) -> bool {
    match sql_builder::finished_sql(q) {
        Ok(body) => match url_with_pairs(c.url, url_pairs(c, format)) {
            Some(url) => r matches Ok(req) && is_request(req, c, url, body),
            None => r matches Err(Error::InvalidParams(s)) && s@ == url_error(c.url),
        },
        Err(e) => r matches Err(Error::InvalidParams(s)) && s@ == e,
    }
}

/// Rows are checked against the columns of the table.
pub open spec fn checks_rows(c: client::Config) -> bool {
    c.validation && !c.mocked
}

/// The request is the one for the rows of a query, with the columns of the row type in place.
pub open spec fn becomes_rows(q: Query, fields: Option<Seq<char>>, r: Result<HttpRequest>) -> bool {
    becomes(
        q.client.config(),
        sql_builder::with_fields(q.sql.model(), fields),
        Some(row_format(checks_rows(q.client.config()))),
        r,
    )
}

/// The plan fetches rows with this request, and can kill the query where the client wants
/// that and the query has an id.
pub open spec fn is_fetch_plan(plan: FetchPlan, c: client::Config, request: HttpRequest) -> bool {
    &&& plan.request == request
    &&& plan.validation == checks_rows(c)
    &&& match plan.kill_on_drop {
        Some((client, id)) => c.kill_on_drop && client.config() == c && settings::value_of(
            c.settings,
            "query_id"@,
        ) == Some(id@),
        None => !c.kill_on_drop || settings::value_of(c.settings, "query_id"@) is None,
    }
}

/// The plan is how a query goes over the native protocol.
pub open spec fn becomes_tcp(q: Query, r: Result<TcpRequest>) -> bool {
    match sql_builder::finished_sql(q.sql.model()) {
        Ok(text) => r matches Ok(req) && req.sql@ == text && req.query_id@ == (
        match settings::value_of(q.client.config().settings, "query_id"@) {
            Some(id) => id,
            None => Seq::empty(),
        }) && settings::pairs(req.settings@) == tcp_pairs(q.client.config()) && req.idempotent
            == q.idempotent,
        Err(e) => r matches Err(Error::InvalidParams(s)) && s@ == e,
    }
}

fn push_pair(out: &mut Vec<(String, String)>, name: &str, value: &str)
    ensures
        settings::pairs(final(out)@) == settings::pairs(old(out)@).push((name@, value@)),
{
    let ghost before = out@;
    out.push((name.to_owned(), value.to_owned()));
    proof {
        assert(settings::pairs(out@) =~= settings::pairs(before).push((name@, value@)));
    }
}

fn push_settings_and_roles(out: &mut Vec<(String, String)>, client: &Client)
    ensures
        settings::pairs(final(out)@) == settings::pairs(old(out)@) + client.config().settings
            + role_pairs(client.config().roles),
{
    let ghost start = settings::pairs(out@);
    let ghost all = client.config().settings;
    let ghost roles = client.config().roles;
    let mut i: usize = 0;
    proof {
        assert(all.take(0) =~= Seq::empty());
        assert(settings::pairs(out@) =~= start + all.take(0));
    }
    while i < client.settings.len()
        invariant
            i <= client.settings@.len(),
            all == settings::pairs(client.settings@),
            settings::pairs(out@) == start + all.take(i as int),
        decreases client.settings@.len() - i,
    {
        push_pair(out, client.settings[i].0.as_str(), client.settings[i].1.as_str());
        proof {
            assert(all.take(i + 1) =~= all.take(i as int).push(all[i as int]));
            assert(start + all.take(i + 1) =~= (start + all.take(i as int)).push(all[i as int]));
        }
        i += 1;
    }
    let ghost given = role_pairs(roles);
    let mut j: usize = 0;
    proof {
        assert(all.take(i as int) =~= all);
        assert(given.take(0) =~= Seq::empty());
        assert(settings::pairs(out@) =~= start + all + given.take(0));
    }
    while j < client.roles.len()
        invariant
            j <= client.roles@.len(),
            roles == sql::texts(client.roles@),
            given == role_pairs(roles),
            settings::pairs(out@) == start + all + given.take(j as int),
        decreases client.roles@.len() - j,
    {
        push_pair(out, "role", client.roles[j].as_str());
        proof {
            assert(given.take(j + 1) =~= given.take(j as int).push(given[j as int]));
            assert(start + all + given.take(j + 1) =~= (start + all + given.take(j as int)).push(
                given[j as int],
            ));
        }
        j += 1;
    }
    proof {
        assert(given.take(j as int) =~= given);
    }
}

impl Query {
    /// A query of a client, from a template.
    pub fn new(client: &Client, template: &str) -> (r: Query)
        ensures
            r.client.config() == client.config(),
            r.sql.model() == sql_builder::Sql::InProgress(sql_builder::template(template@)),
            !r.idempotent,
    {
        Query { client: client.clone(), sql: SqlBuilder::new(template), idempotent: false }
    }

    /// Says that the statement may be run again.
    pub fn idempotent(self) -> (r: Query)
        ensures
            r == (Query { idempotent: true, ..self }),
    {
        let mut out = self;
        out.idempotent = true;
        out
    }

    /// The query as it reads.
    pub fn sql_display(&self) -> (out: String)
        ensures
            out@ == sql_builder::shown_sql(self.sql.model()),
    {
        self.sql.display()
    }

    /// Puts a value into the next place for one: a literal, or the reason why there is none.
    pub fn bind(self, value: std::result::Result<String, String>) -> (r: Query)
        ensures
            r.client == self.client,
            r.idempotent == self.idempotent,
            r.sql.model() == sql_builder::with_arg(
                self.sql.model(),
                match value {
                    Ok(s) => Ok(s@),
                    Err(s) => Err(s@),
                },
            ),
    {
        Query {
            client: self.client,
            sql: self.sql.bind_arg(value),
            idempotent: self.idempotent,
        }
    }

    /// Decides how the query is run: over the native protocol where the client has it, else
    /// over HTTP.
    pub fn execute(&self, tcp: bool) -> (r: Result<ExecutePlan>)
        requires
            !tcp ==> fits_in_url(self.client.config().url, url_pairs(self.client.config(), None)),
        ensures
            tcp ==> exists|plan: Result<TcpRequest>| #[trigger]
                becomes_tcp(*self, plan) && (match plan {
                    Ok(req) => r == std::result::Result::<ExecutePlan, Error>::Ok(
                        ExecutePlan::Tcp(req),
                    ),
                    Err(e) => r == std::result::Result::<ExecutePlan, Error>::Err(e),
                }),
            !tcp ==> exists|plan: Result<HttpRequest>| #[trigger]
                becomes(self.client.config(), self.sql.model(), None, plan) && (match plan {
                    Ok(req) => r == std::result::Result::<ExecutePlan, Error>::Ok(
                        ExecutePlan::Http(req),
                    ),
                    Err(e) => r == std::result::Result::<ExecutePlan, Error>::Err(e),
                }),
    {
        if tcp {
            match self.tcp_request() {
                Ok(req) => Ok(ExecutePlan::Tcp(req)),
                Err(e) => Err(e),
            }
        } else {
            match self.do_execute(None) {
                Ok(req) => Ok(ExecutePlan::Http(req)),
                Err(e) => Err(e),
            }
        }
    }

    /// Fetches blocks as they come. Only the native protocol has them.
    pub fn fetch_native_blocks(&self, tcp: bool) -> (r: Result<TcpRequest>)
        ensures
            tcp ==> becomes_tcp(*self, r),
            !tcp ==> (r matches Err(Error::Custom(s)) && s@
                == "fetch_native_blocks requires a TCP-transport Client (Client::tcp)"@),
    {
        if tcp {
            self.tcp_request()
        } else {
            Err(
                Error::Custom(
                    "fetch_native_blocks requires a TCP-transport Client (Client::tcp)".to_owned(),
                ),
            )
        }
    }

    /// The query as it goes over the native protocol.
    pub fn tcp_request(&self) -> (r: Result<TcpRequest>)
        ensures
            becomes_tcp(*self, r),
    {
        let query_id = match settings::get(&self.client.settings, "query_id") {
            Some(id) => id,
            None => String::new(),
        };
        let pairs = self.tcp_settings();
        match self.sql.finish() {
            Ok(sql) => Ok(
                TcpRequest { query_id, sql, settings: pairs, idempotent: self.idempotent },
            ),
            Err(e) => Err(e),
        }
    }

    /// What goes with the query over the native protocol.
    pub fn tcp_settings(&self) -> (out: Vec<(String, String)>)
        ensures
            settings::pairs(out@) == tcp_pairs(self.client.config()),
    {
        let mut out: Vec<(String, String)> = Vec::new();
        proof {
            assert(settings::pairs(out@) =~= Seq::empty());
        }
        if let Some(database) = &self.client.database {
            push_pair(&mut out, "database", database.as_str());
        }
        proof {
            assert(settings::pairs(out@) =~= opt_pair("database"@, self.client.config().database));
        }
        push_settings_and_roles(&mut out, &self.client);
        out
    }

    /// What stands in the URL of the query.
    pub fn url_settings(&self, default_format: Option<&str>) -> (out: Vec<(String, String)>)
        ensures
            settings::pairs(out@) == url_pairs(
                self.client.config(),
                match default_format {
                    Some(f) => Some(f@),
                    None => None,
                },
            ),
    {
        let mut out: Vec<(String, String)> = Vec::new();
        let ghost c = self.client.config();
        let ghost format = match default_format {
            Some(f) => Some(f@),
            None => None,
        };
        proof {
            assert(settings::pairs(out@) =~= Seq::empty());
        }
        if let Some(f) = default_format {
            push_pair(&mut out, "default_format", f);
        }
        proof {
            assert(settings::pairs(out@) =~= opt_pair("default_format"@, format));
        }
        if let Some(database) = &self.client.database {
            push_pair(&mut out, "database", database.as_str());
        }
        proof {
            assert(settings::pairs(out@) =~= opt_pair("default_format"@, format) + opt_pair(
                "database"@,
                c.database,
            ));
        }
        match self.client.compression {
            Compression::Plain => {},
            Compression::Zstd(_) => push_pair(&mut out, "enable_http_compression", "1"),
            _ => push_pair(&mut out, "compress", "1"),
        }
        proof {
            assert(settings::pairs(out@) =~= opt_pair("default_format"@, format) + opt_pair(
                "database"@,
                c.database,
            ) + compression_pairs(c.compression));
        }
        push_settings_and_roles(&mut out, &self.client);
        out
    }

    /// The request that the query becomes.
    pub fn do_execute(&self, default_format: Option<&str>) -> (r: Result<HttpRequest>)
        requires
            fits_in_url(
                self.client.config().url,
                url_pairs(
                    self.client.config(),
                    match default_format {
                        Some(f) => Some(f@),
                        None => None,
                    },
                ),
            ),
        ensures
            becomes(
                self.client.config(),
                self.sql.model(),
                match default_format {
                    Some(f) => Some(f@),
                    None => None,
                },
                r,
            ),
    {
        let body = match self.sql.finish() {
            Ok(body) => body,
            Err(e) => {
                return Err(e);
            },
        };
        let pairs = self.url_settings(default_format);
        self.compose_request(body, url_query(self.client.url.as_str(), &pairs))
    }

    /// The request for a body and a URL, or the error where the URL cannot be read.
    pub fn compose_request(&self, body: String, url: std::result::Result<String, String>) -> (r:
        Result<HttpRequest>)
        ensures
            (match url {
                Ok(url) => r matches Ok(req) && is_request(
                    req,
                    self.client.config(),
                    url@,
                    body@,
                ),
                Err(e) => r == std::result::Result::<HttpRequest, Error>::Err(
                    Error::InvalidParams(e),
                ),
            }),
    {
        let url = match url {
            Ok(url) => url,
            Err(e) => {
                return Err(Error::InvalidParams(e));
            },
        };
        let mut content_length = String::new();
        let len: usize = body.as_str().as_bytes().len();
        push_decimal(&mut content_length, len as u64);
        proof {
            assert(content_length@ =~= text::decimal(encode_utf8(body@).len()));
        }
        Ok(
            HttpRequest {
                url,
                headers: copy_pairs(&self.client.headers),
                products_info: client::copy_products(&self.client.products_info),
                authentication: self.client.authentication.clone(),
                accept_zstd: matches!(self.client.compression, Compression::Zstd(_)),
                content_length,
                body,
            },
        )
    }

    /// The columns of the row type in place, and the request for its rows.
    pub fn fetch(self, fields: Option<String>) -> (r: Result<FetchPlan>)
        requires
            fits_in_url(
                self.client.config().url,
                url_pairs(
                    self.client.config(),
                    Some(row_format(checks_rows(self.client.config()))),
                ),
            ),
        ensures
            exists|request: Result<HttpRequest>| #[trigger]
                becomes_rows(self, response::opt_text(fields), request) && (match request {
                    Ok(req) => r matches Ok(plan) && is_fetch_plan(
                        plan,
                        self.client.config(),
                        req,
                    ),
                    Err(e) => r == std::result::Result::<FetchPlan, Error>::Err(e),
                }),
    {
        let validation = self.client.get_validation();
        let format = if validation {
            "RowBinaryWithNamesAndTypes"
        } else {
            "RowBinary"
        };
        let bound = Query {
            client: self.client,
            sql: self.sql.bind_fields(fields),
            idempotent: self.idempotent,
        };
        let kill_on_drop = bound.client.kill_on_drop_handle();
        let request = bound.do_execute(Some(format));
        proof {
            assert(becomes_rows(self, response::opt_text(fields), request));
        }
        match request {
            Ok(request) => Ok(FetchPlan { request, validation, kill_on_drop }),
            Err(e) => Err(e),
        }
    }

    /// The request for an answer in some format.
    pub fn fetch_bytes(&self, format: &str) -> (r: Result<HttpRequest>)
        requires
            fits_in_url(
                self.client.config().url,
                url_pairs(self.client.config(), Some(format@)),
            ),
        ensures
            becomes(self.client.config(), self.sql.model(), Some(format@), r),
    {
        self.do_execute(Some(format))
    }

    /// What a query for exactly one row comes to, once the first row was asked for.
    pub fn fetch_one<T>(first: Result<Option<T>>) -> (r: Result<T>)
        ensures
            (match first {
                Ok(Some(row)) => r == std::result::Result::<T, Error>::Ok(row),
                Ok(None) => r == std::result::Result::<T, Error>::Err(Error::RowNotFound),
                Err(e) => r == std::result::Result::<T, Error>::Err(e),
            }),
    {
        match first {
            Ok(Some(row)) => Ok(row),
            Ok(None) => Err(Error::RowNotFound),
            Err(e) => Err(e),
        }
    }

    /// Sets the roles for this query.
    pub fn with_roles(self, roles: Vec<String>) -> (r: Query)
        ensures
            r.client.config() == client::roles_replaced(
                self.client.config(),
                sql::texts(roles@),
            ),
            r.sql == self.sql,
            r.idempotent == self.idempotent,
    {
        Query {
            client: self.client.with_roles(roles),
            sql: self.sql,
            idempotent: self.idempotent,
        }
    }

    /// Sets a single role for this query.
    pub fn with_role(self, role: &str) -> (r: Query)
        ensures
            r.client.config() == client::roles_replaced(self.client.config(), seq![role@]),
            r.sql == self.sql,
            r.idempotent == self.idempotent,
    {
        let mut roles: Vec<String> = Vec::new();
        roles.push(role.to_owned());
        proof {
            assert(sql::texts(roles@) =~= seq![role@]);
        }
        self.with_roles(roles)
    }

    /// Goes back to the roles that the server has for the user.
    pub fn with_default_roles(self) -> (r: Query)
        ensures
            r.client.config() == client::roles_replaced(self.client.config(), Seq::empty()),
            r.sql == self.sql,
            r.idempotent == self.idempotent,
    {
        Query {
            client: self.client.with_default_roles(),
            sql: self.sql,
            idempotent: self.idempotent,
        }
    }

    /// Sets the session of this query.
    pub fn with_session_id(self, id: &str) -> (r: Query)
        ensures
            r.client.config() == client::with_set(self.client.config(), "session_id"@, id@),
            r.sql == self.sql,
            r.idempotent == self.idempotent,
    {
        self.with_setting("session_id", id)
    }

    /// Lets the server collect inserts, and either waits until it has written them or not.
    pub fn async_insert(self, wait: bool) -> (r: Query)
        ensures
            r.client.config() == client::with_set(
                client::with_set(self.client.config(), "async_insert"@, "1"@),
                "wait_for_async_insert"@,
                if wait { "1"@ } else { "0"@ },
            ),
            r.sql == self.sql,
            r.idempotent == self.idempotent,
    {
        let first = self.with_setting("async_insert", "1");
        if wait {
            first.with_setting("wait_for_async_insert", "1")
        } else {
            first.with_setting("wait_for_async_insert", "0")
        }
    }

    /// Sets a setting for this query.
    pub fn with_option(self, name: &str, value: &str) -> (r: Query)
        ensures
            r.client.config() == client::with_set(self.client.config(), name@, value@),
            r.sql == self.sql,
            r.idempotent == self.idempotent,
    {
        self.with_setting(name, value)
    }

    /// Sets a setting for this query.
    pub fn with_setting(self, name: &str, value: &str) -> (r: Query)
        ensures
            r.client.config() == client::with_set(self.client.config(), name@, value@),
            r.sql == self.sql,
            r.idempotent == self.idempotent,
    {
        Query {
            client: self.client.with_setting(name, value),
            sql: self.sql,
            idempotent: self.idempotent,
        }
    }

    /// Sets the id of this query.
    pub fn with_query_id(self, id: &str) -> (r: Query)
        ensures
            r.client.config() == client::with_set(self.client.config(), "query_id"@, id@),
            r.sql == self.sql,
            r.idempotent == self.idempotent,
    {
        self.with_setting("query_id", id)
    }

    /// Sets a parameter that the server fills in: its text, or the reason why it has none.
    pub fn param(self, name: &str, value: std::result::Result<String, String>) -> (r: Query)
        ensures
            (match value {
                Ok(text) => r.client.config() == client::with_set(
                    self.client.config(),
                    "param_"@ + name@,
                    text@,
                ) && r.sql == self.sql,
                Err(e) => r.client == self.client && r.sql.model() == sql_builder::Sql::Failed(
                    "invalid param: "@ + e@,
                ),
            }),
            r.idempotent == self.idempotent,
    {
        match value {
            Ok(text) => {
                let mut full = "param_".to_owned();
                full.push_str(name);
                self.with_setting(full.as_str(), text.as_str())
            },
            Err(e) => {
                let mut told = "invalid param: ".to_owned();
                told.push_str(e.as_str());
                Query {
                    client: self.client,
                    sql: SqlBuilder::Failed(told),
                    idempotent: self.idempotent,
                }
            },
        }
    }
}

} // verus!
